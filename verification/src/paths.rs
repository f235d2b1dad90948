//! Where the files are.

use crate::text;
use vstd::prelude::*;
use vstd::string::StringExecFns;

verus! {

/// Where the configuration is, unless said otherwise.
pub const DEFAULT_CONFIG_PATH: &'static str = "~/.config/avel-pilot/config.yml";

/// Where the services are, unless said otherwise.
pub const DEFAULT_SERVICES_PATH: &'static str = "~/.config/avel-pilot/services.yml";

/// A path, as far as it depends on the home directory.
#[derive(Debug, PartialEq, Eq)]
pub enum HomePath {
    /// The home directory itself.
    Home,
    /// A path below the home directory.
    Below(String),
    /// A path that does not depend on the home directory.
    Plain(String),
}

/// What a [`HomePath`] is.
pub enum HomePathView {
    Home,
    Below(Seq<char>),
    Plain(Seq<char>),
}

impl View for HomePath {
    type V = HomePathView;

    open spec fn view(&self) -> HomePathView {
        match self {
            HomePath::Home => HomePathView::Home,
            HomePath::Below(rest) => HomePathView::Below(rest@),
            HomePath::Plain(path) => HomePathView::Plain(path@),
        }
    }
}

/// How a path is read: a tilde alone is the home directory, and a tilde with a
/// slash in front leads below it.
pub open spec fn home_path(path: Seq<char>) -> HomePathView {
    if path == seq!['~'] {
        HomePathView::Home
    } else if path.len() >= 2 && path[0] == '~' && path[1] == '/' {
        HomePathView::Below(path.skip(2))
    } else {
        HomePathView::Plain(path)
    }
}

/// How the path is read.
pub fn expand_home(path: &str) -> (r: HomePath)
    ensures
        r@ == home_path(path@),
{
    let chars = text::chars_of(path);
    if chars.len() == 1 && chars[0] == '~' {
        assert(path@ =~= seq!['~']);
        return HomePath::Home;
    }
    if chars.len() >= 2 && chars[0] == '~' && chars[1] == '/' {
        let rest = text::string_of(chars.as_slice(), 2, chars.len());
        assert(rest@ =~= path@.skip(2));
        return HomePath::Below(rest);
    }
    HomePath::Plain(path.to_owned())
}

/// What is said where a file is missing.
pub fn missing_file(kind: &str, path: &str) -> (r: String)
    ensures
        r@ == kind@ + " file not found at "@ + path@ + ". Run `avel-pilot init` first."@,
{
    let mut out = text::join3(kind, " file not found at ", path);
    out.append(". Run `avel-pilot init` first.");
    out
}

/// A tilde is the home directory, what stands behind a tilde and a slash leads
/// below it, and every other path is taken as it is.
pub proof fn law_tilde_leads_to_the_home_directory(path: Seq<char>)
    ensures
        home_path(seq!['~']) is Home,
        home_path("~/"@ + path) == HomePathView::Below(path),
        home_path(path) is Home <==> path == seq!['~'],
        home_path(path) is Below <==> exists|rest: Seq<char>|
            path == #[trigger] ("~/"@ + rest),
        home_path(path) is Plain ==> home_path(path) == HomePathView::Plain(path),
{
    reveal_strlit("~/");
    assert(("~/"@ + path).skip(2) =~= path);
    assert(("~/"@ + path).len() >= 2);
    assert(seq!['~'].len() == 1);
    if home_path(path) is Below {
        assert(path =~= "~/"@ + path.skip(2));
    }
}

} // verus!
