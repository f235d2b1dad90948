//! What the two configuration files declare.

use crate::sorted_map::SortedMap;
use crate::{order, text};
use vstd::prelude::*;

verus! {

/// The contents of both files.
#[derive(Debug, Clone, PartialEq, Eq)]
pub struct AppFiles {
    pub config: Config,
    pub services: ServicesFile,
}

/// The providers and the public proxy host.
#[derive(Debug, Clone, PartialEq, Eq)]
pub struct Config {
    pub dns: DnsConfig,
    pub proxy: ProxyConfig,
    pub certificates: CertificateConfig,
}

/// The DNS provider and the zone that it is managed for.
#[derive(Debug, Clone, PartialEq, Eq)]
pub enum DnsConfig {
    Cloudflare { zone: String, api_token: String, propagation_seconds: Option<u32> },
}

/// The proxy and the host name or address under which the world reaches it.
#[derive(Debug, Clone, PartialEq, Eq)]
pub enum ProxyConfig {
    Npm { host: String, url: String, identity: String, secret: String },
}

/// What certificates are ordered with.
#[derive(Debug, Clone, PartialEq, Eq)]
pub struct CertificateConfig {
    pub email: Option<String>,
}

/// The services to publish, by name.
#[derive(Debug, PartialEq, Eq)]
pub struct ServicesFile {
    pub services: SortedMap<String, ServiceConfig>,
}

/// A service to publish. Its DNS record points to `proxy_host`, or to the
/// configured proxy host where the service names none.
#[derive(Debug, PartialEq, Eq)]
pub struct ServiceConfig {
    pub domain: String,
    pub proxy_host: Option<String>,
    pub upstream: UpstreamConfig,
    pub tls: bool,
    pub websocket: bool,
}

/// The server that a service is forwarded to.
#[derive(Debug, PartialEq, Eq)]
pub struct UpstreamConfig {
    pub host: String,
    pub port: u16,
    pub scheme: UpstreamSchemeConfig,
}

/// The protocol that is spoken with that server.
#[derive(Debug, Clone, Copy, PartialEq, Eq, Structural)]
pub enum UpstreamSchemeConfig {
    Http,
    Https,
}

/// Why a configuration file could not be loaded.
#[derive(Debug, PartialEq, Eq)]
pub enum ConfigError {
    Read(String),
    Parse(String),
    MissingEnvVar(String),
    UnterminatedEnvVar,
}

/// What an [`UpstreamConfig`] holds.
pub struct UpstreamConfigView {
    pub host: Seq<char>,
    pub port: u16,
    pub scheme: UpstreamSchemeConfig,
}

/// What a [`ServiceConfig`] holds.
pub struct ServiceConfigView {
    pub domain: Seq<char>,
    pub proxy_host: Option<Seq<char>>,
    pub upstream: UpstreamConfigView,
    pub tls: bool,
    pub websocket: bool,
}

/// What a [`ConfigError`] reports.
pub enum ConfigErrorView {
    Read(Seq<char>),
    Parse(Seq<char>),
    MissingEnvVar(Seq<char>),
    UnterminatedEnvVar,
}

impl Default for CertificateConfig {
    fn default() -> (r: Self)
        ensures
            r.email is None,
    {
        CertificateConfig { email: None }
    }
}

impl View for UpstreamConfig {
    type V = UpstreamConfigView;

    open spec fn view(&self) -> UpstreamConfigView {
        UpstreamConfigView { host: self.host@, port: self.port, scheme: self.scheme }
    }
}

impl Clone for UpstreamConfig {
    fn clone(&self) -> (r: Self)
        ensures
            r@ == self@,
    {
        UpstreamConfig { host: self.host.clone(), port: self.port, scheme: self.scheme }
    }
}

impl View for ServiceConfig {
    type V = ServiceConfigView;

    open spec fn view(&self) -> ServiceConfigView {
        ServiceConfigView {
            domain: self.domain@,
            proxy_host: text::opt_text(self.proxy_host),
            upstream: self.upstream@,
            tls: self.tls,
            websocket: self.websocket,
        }
    }
}

impl Clone for ServiceConfig {
    fn clone(&self) -> (r: Self)
        ensures
            r@ == self@,
    {
        ServiceConfig {
            domain: self.domain.clone(),
            proxy_host: text::clone_opt_text(&self.proxy_host),
            upstream: self.upstream.clone(),
            tls: self.tls,
            websocket: self.websocket,
        }
    }
}

impl View for ServicesFile {
    type V = Map<Seq<char>, ServiceConfigView>;

    open spec fn view(&self) -> Map<Seq<char>, ServiceConfigView> {
        self.services@.map_values(|s: ServiceConfig| s@)
    }
}

/// The names of services in ascending order.
pub open spec fn names(services: Map<Seq<char>, ServiceConfigView>) -> Seq<Seq<char>> {
    order::ascending::<String>(services.dom())
}

impl ServicesFile {
    /// A file that declares no service.
    pub fn new() -> (r: Self)
        ensures
            r@ == Map::<Seq<char>, ServiceConfigView>::empty(),
    {
        let r = ServicesFile { services: SortedMap::new() };
        assert(r@ =~= Map::<Seq<char>, ServiceConfigView>::empty());
        r
    }

    /// The number of services.
    pub fn len(&self) -> (r: usize)
        ensures
            r == names(self@).len(),
            r == self@.dom().len(),
            self@.dom().finite(),
            order::lists_ascending::<String>(names(self@), self@.dom()),
    {
        assert(self@.dom() =~= self.services@.dom());
        self.services.len()
    }

    /// The service at a place of the ascending order of names.
    pub fn entry_at(&self, i: usize) -> (r: (&String, &ServiceConfig))
        requires
            i < names(self@).len(),
        ensures
            r.0@ == names(self@)[i as int],
            self@.dom().contains(r.0@),
            r.1@ == self@[r.0@],
    {
        assert(self@.dom() =~= self.services@.dom());
        self.services.entry_at(i)
    }

    /// The service of a name.
    pub fn get(&self, name: &String) -> (r: Option<&ServiceConfig>)
        ensures
            match r {
                Some(service) => self@.dom().contains(name@) && service@ == self@[name@],
                None => !self@.dom().contains(name@),
            },
    {
        assert(self@.dom() =~= self.services@.dom());
        self.services.get(name)
    }

    /// Whether a service has the name.
    pub fn contains(&self, name: &String) -> (r: bool)
        ensures
            r == self@.dom().contains(name@),
    {
        self.get(name).is_some()
    }

    /// Declares a service under a name, in place of the one that had it.
    pub fn insert(&mut self, name: String, service: ServiceConfig)
        ensures
            final(self)@ == old(self)@.insert(name@, service@),
    {
        let ghost before = self.services@;
        self.services.insert(name, service);
        assert(self.services@.map_values(|s: ServiceConfig| s@) =~= before.map_values(
            |s: ServiceConfig| s@,
        ).insert(name@, service@));
    }

    /// Takes the service of a name away.
    pub fn remove(&mut self, name: &String)
        ensures
            final(self)@ == old(self)@.remove(name@),
    {
        let ghost before = self.services@;
        self.services.remove(name);
        assert(self.services@.map_values(|s: ServiceConfig| s@) =~= before.map_values(
            |s: ServiceConfig| s@,
        ).remove(name@));
    }
}

impl Clone for ServicesFile {
    fn clone(&self) -> (r: Self)
        ensures
            r@ == self@,
    {
        let n: usize = self.services.len();
        let ghost keys = order::ascending::<String>(self.services@.dom());
        let mut out: SortedMap<String, ServiceConfig> = SortedMap::new();
        let mut i: usize = 0;
        while i < n
            invariant
                i <= n,
                n == keys.len(),
                keys == order::ascending::<String>(self.services@.dom()),
                order::lists_ascending::<String>(keys, self.services@.dom()),
                forall|k: Seq<char>|
                    #[trigger] out@.dom().contains(k) <==> keys.take(i as int).contains(k),
                forall|k: Seq<char>| #[trigger]
                    out@.dom().contains(k) ==> out@[k]@ == self.services@[k]@,
            decreases n - i,
        {
            let (name, service) = self.services.entry_at(i);
            let ghost before = keys.take(i as int);
            let ghost after = keys.take(i + 1);
            out.insert(name.clone(), service.clone());
            assert forall|k: Seq<char>| after.contains(k) <==> before.contains(k) || k
                == keys[i as int] by {
                assert(after =~= before.push(keys[i as int]));
                if before.contains(k) {
                    let j = choose|j: int| 0 <= j < before.len() && before[j] == k;
                    assert(after[j] == k);
                }
                if k == keys[i as int] {
                    assert(after[i as int] == k);
                }
            }
            i = i + 1;
        }
        assert(keys.take(n as int) =~= keys);
        let r = ServicesFile { services: out };
        assert(r@ =~= self@);
        r
    }
}

impl View for ConfigError {
    type V = ConfigErrorView;

    open spec fn view(&self) -> ConfigErrorView {
        match self {
            ConfigError::Read(reason) => ConfigErrorView::Read(reason@),
            ConfigError::Parse(reason) => ConfigErrorView::Parse(reason@),
            ConfigError::MissingEnvVar(name) => ConfigErrorView::MissingEnvVar(name@),
            ConfigError::UnterminatedEnvVar => ConfigErrorView::UnterminatedEnvVar,
        }
    }
}

impl ConfigErrorView {
    /// The error in words.
    pub open spec fn text(self) -> Seq<char> {
        match self {
            ConfigErrorView::Read(reason) => "failed to read config file: "@ + reason,
            ConfigErrorView::Parse(reason) => "failed to parse yaml: "@ + reason,
            ConfigErrorView::MissingEnvVar(name) => "environment variable not found: "@ + name,
            ConfigErrorView::UnterminatedEnvVar => "unterminated environment variable reference"@,
        }
    }
}

impl ConfigError {
    /// The error in words.
    pub fn message(&self) -> (r: String)
        ensures
            r@ == self@.text(),
    {
        match self {
            ConfigError::Read(reason) => text::join2(
                "failed to read config file: ",
                reason.as_str(),
            ),
            ConfigError::Parse(reason) => text::join2("failed to parse yaml: ", reason.as_str()),
            ConfigError::MissingEnvVar(name) => text::join2(
                "environment variable not found: ",
                name.as_str(),
            ),
            ConfigError::UnterminatedEnvVar => "unterminated environment variable reference".to_owned(),
        }
    }
}

/// The protocol of an upstream that names none.
pub fn default_upstream_scheme() -> (r: UpstreamSchemeConfig)
    ensures
        r == UpstreamSchemeConfig::Http,
{
    UpstreamSchemeConfig::Http
}

/// What a list of variables holds.
pub open spec fn variables_view(variables: Seq<(String, String)>) -> Seq<(Seq<char>, Seq<char>)> {
    variables.map_values(|v: (String, String)| (v.0@, v.1@))
}

/// The value of a variable: the first that is listed under the name.
pub open spec fn value_of(variables: Seq<(Seq<char>, Seq<char>)>, name: Seq<char>) -> Option<
    Seq<char>,
>
    decreases variables.len(),
{
    if variables.len() == 0 {
        None
    } else if variables[0].0 == name {
        Some(variables[0].1)
    } else {
        value_of(variables.skip(1), name)
    }
}

/// A text in front of a result that is one.
pub open spec fn in_front(
    front: Seq<char>,
    rest: Result<Seq<char>, ConfigErrorView>,
) -> Result<Seq<char>, ConfigErrorView> {
    match rest {
        Ok(text) => Ok(front + text),
        Err(error) => Err(error),
    }
}

/// The text from `at` on, with the value of the variable in the place of each
/// reference `${name}`. A value is taken as it is: references in it are not
/// followed.
pub open spec fn expanded_from(
    input: Seq<char>,
    variables: Seq<(Seq<char>, Seq<char>)>,
    at: int,
) -> Result<Seq<char>, ConfigErrorView>
    decreases input.len() - at,
    when 0 <= at <= input.len()
{
    match text::position_from(input, seq!['$', '{'], at) {
        None => Ok(input.skip(at)),
        Some(start) => match text::position_from(input, seq!['}'], start + 2) {
            None => Err(ConfigErrorView::UnterminatedEnvVar),
            Some(end) => {
                proof {
                    text::law_position_is_first(input, seq!['$', '{'], at);
                    text::law_position_is_first(input, seq!['}'], start + 2);
                }
                let name = input.subrange(start + 2, end);
                match value_of(variables, name) {
                    None => Err(ConfigErrorView::MissingEnvVar(name)),
                    Some(value) => in_front(
                        input.subrange(at, start) + value,
                        expanded_from(input, variables, end + 1),
                    ),
                }
            },
        },
    }
}

/// The text with the value of the variable in the place of each reference
/// `${name}`.
pub open spec fn expanded(
    input: Seq<char>,
    variables: Seq<(Seq<char>, Seq<char>)>,
) -> Result<Seq<char>, ConfigErrorView> {
    expanded_from(input, variables, 0)
}

fn find_value(variables: &[(String, String)], name: &str) -> (r: Option<String>)
    ensures
        text::opt_text(r) == value_of(variables_view(variables@), name@),
{
    let ghost all = variables_view(variables@);
    let mut i: usize = 0;
    assert(all.skip(0) =~= all);
    while i < variables.len()
        invariant
            i <= variables@.len(),
            all == variables_view(variables@),
            value_of(all, name@) == value_of(all.skip(i as int), name@),
        decreases variables@.len() - i,
    {
        assert(all.skip(i as int)[0] == (variables@[i as int].0@, variables@[i as int].1@));
        assert(all.skip(i as int).skip(1) =~= all.skip(i + 1));
        if text::text_eq(variables[i].0.as_str(), name) {
            return Some(variables[i].1.clone());
        }
        i = i + 1;
    }
    assert(all.skip(i as int).len() == 0);
    None
}

/// The text with the value of the variable in the place of each reference
/// `${name}`. It fails at the first reference that does not end, or whose
/// variable is not there.
pub fn expand_env_vars(input: &str, variables: &[(String, String)]) -> (r: Result<
    String,
    ConfigError,
>)
    ensures
        match expanded(input@, variables_view(variables@)) {
            Ok(want) => r is Ok && r->Ok_0@ == want,
            Err(error) => r is Err && r->Err_0@ == error,
        },
{
    let chars = text::chars_of(input);
    let opening: [char; 2] = ['$', '{'];
    let closing: [char; 1] = ['}'];
    let ghost values = variables_view(variables@);
    let mut out = String::new();
    let mut at: usize = 0;
    assert(opening@ =~= seq!['$', '{']);
    assert(closing@ =~= seq!['}']);
    assert(in_front(out@, expanded_from(input@, values, 0)) == expanded(input@, values)) by {
        if let Ok(rest) = expanded_from(input@, values, 0) {
            assert(out@ + rest =~= rest);
        }
    }
    loop
        invariant
            chars@ == input@,
            values == variables_view(variables@),
            opening@ == seq!['$', '{'],
            closing@ == seq!['}'],
            at <= chars@.len(),
            in_front(out@, expanded_from(input@, values, at as int)) == expanded(input@, values),
        decreases chars@.len() - at,
    {
        let start: usize = match text::find_from(chars.as_slice(), opening.as_slice(), at) {
            Some(start) => start,
            None => {
                out.append(text::string_of(chars.as_slice(), at, chars.len()).as_str());
                assert(input@.subrange(at as int, input@.len() as int) =~= input@.skip(at as int));
                return Ok(out);
            },
        };
        proof {
            text::law_position_is_first(input@, seq!['$', '{'], at as int);
            assert(start + 2 <= chars.len());
        }
        let end: usize = match text::find_from(chars.as_slice(), closing.as_slice(), start + 2) {
            Some(end) => end,
            None => {
                return Err(ConfigError::UnterminatedEnvVar);
            },
        };
        proof {
            text::law_position_is_first(input@, seq!['}'], start + 2);
        }
        let name = text::string_of(chars.as_slice(), start + 2, end);
        let value = match find_value(variables, name.as_str()) {
            Some(value) => value,
            None => {
                return Err(ConfigError::MissingEnvVar(name));
            },
        };
        let ghost before = out@;
        out.append(text::string_of(chars.as_slice(), at, start).as_str());
        out.append(value.as_str());
        proof {
            let rest = expanded_from(input@, values, end + 1);
            if let Ok(text) = rest {
                assert(before + (input@.subrange(at as int, start as int) + value@ + text)
                    =~= out@ + text);
            }
        }
        at = end + 1;
    }
}

/// A text without references stays as it is, whatever the variables are.
pub proof fn law_text_without_references_stays(
    input: Seq<char>,
    variables: Seq<(Seq<char>, Seq<char>)>,
)
    requires
        !text::contains_text(input, seq!['$', '{']),
    ensures
        expanded(input, variables) == Ok::<Seq<char>, ConfigErrorView>(input),
{
    text::law_position_is_first(input, seq!['$', '{'], 0);
    assert(input.skip(0) =~= input);
}

/// A reference to a variable is replaced by its value, and what follows it is
/// expanded on its own.
pub proof fn law_reference_is_replaced(
    before: Seq<char>,
    name: Seq<char>,
    after: Seq<char>,
    variables: Seq<(Seq<char>, Seq<char>)>,
)
    requires
        !text::contains_text(before, seq!['$', '{']),
        !name.contains('}'),
        value_of(variables, name) is Some,
    ensures
        expanded(before + seq!['$', '{'] + name + seq!['}'] + after, variables) == in_front(
            before + value_of(variables, name)->0,
            expanded(after, variables),
        ),
{
    let front = before + seq!['$', '{'] + name + seq!['}'];
    let input = front + after;
    lemma_first_reference(before, name, after);
    assert(input.subrange(0, before.len() as int) =~= before);
    lemma_expanded_behind(front, after, variables, 0);
}

proof fn lemma_expanded_behind(
    front: Seq<char>,
    back: Seq<char>,
    variables: Seq<(Seq<char>, Seq<char>)>,
    at: int,
)
    requires
        0 <= at <= back.len(),
    ensures
        expanded_from(front + back, variables, front.len() + at) == expanded_from(
            back,
            variables,
            at,
        ),
    decreases back.len() - at,
{
    let input = front + back;
    let n = front.len() as int;
    let open = seq!['$', '{'];
    let close = seq!['}'];
    text::lemma_position_behind(front, back, open, at);
    text::law_position_is_first(back, open, at);
    match text::position_from(back, open, at) {
        None => {
            assert(input.skip(n + at) =~= back.skip(at));
        },
        Some(start) => {
            text::lemma_position_behind(front, back, close, start + 2);
            text::law_position_is_first(back, close, start + 2);
            if let Some(end) = text::position_from(back, close, start + 2) {
                assert(input.subrange(n + start + 2, n + end) =~= back.subrange(start + 2, end));
                assert(input.subrange(n + at, n + start) =~= back.subrange(at, start));
                lemma_expanded_behind(front, back, variables, end + 1);
            }
        },
    }
}

/// A reference to a variable that is not there is an error, which names it.
pub proof fn law_missing_variable_is_named(
    before: Seq<char>,
    name: Seq<char>,
    after: Seq<char>,
    variables: Seq<(Seq<char>, Seq<char>)>,
)
    requires
        !text::contains_text(before, seq!['$', '{']),
        !name.contains('}'),
        forall|i: int| 0 <= i < variables.len() ==> (#[trigger] variables[i]).0 != name,
    ensures
        expanded(before + seq!['$', '{'] + name + seq!['}'] + after, variables) == Err::<
            Seq<char>,
            ConfigErrorView,
        >(ConfigErrorView::MissingEnvVar(name)),
{
    law_first_listed_value_counts(variables, name, variables.len() as int);
    lemma_first_reference(before, name, after);
}

/// A reference that does not end is an error.
pub proof fn law_reference_has_to_end(
    before: Seq<char>,
    after: Seq<char>,
    variables: Seq<(Seq<char>, Seq<char>)>,
)
    requires
        !text::contains_text(before, seq!['$', '{']),
        !after.contains('}'),
    ensures
        expanded(before + seq!['$', '{'] + after, variables) == Err::<Seq<char>, ConfigErrorView>(
            ConfigErrorView::UnterminatedEnvVar,
        ),
{
    let open = seq!['$', '{'];
    let close = seq!['}'];
    let input = before + open + after;
    let start = before.len() as int;
    lemma_first_opening(before, after);
    text::law_position_is_first(input, close, start + 2);
    if let Some(end) = text::position_from(input, close, start + 2) {
        assert(input[end] == input.subrange(end, end + 1)[0]);
        assert(after[end - start - 2] == '}');
    }
}

/// The value of a variable is the first that is listed under its name, and there
/// is none where none is listed.
pub proof fn law_first_listed_value_counts(
    variables: Seq<(Seq<char>, Seq<char>)>,
    name: Seq<char>,
    at: int,
)
    requires
        0 <= at <= variables.len(),
        forall|i: int| 0 <= i < at ==> (#[trigger] variables[i]).0 != name,
        at < variables.len() ==> variables[at].0 == name,
    ensures
        value_of(variables, name) == if at < variables.len() {
            Some(variables[at].1)
        } else {
            None
        },
    decreases at,
{
    if at > 0 {
        let rest = variables.skip(1);
        assert forall|i: int| 0 <= i < at - 1 implies (#[trigger] rest[i]).0 != name by {
            assert(rest[i] == variables[i + 1]);
        }
        assert(variables[0].0 != name);
        law_first_listed_value_counts(rest, name, at - 1);
    }
}

proof fn lemma_first_opening(before: Seq<char>, after: Seq<char>)
    requires
        !text::contains_text(before, seq!['$', '{']),
    ensures
        text::position_from(before + seq!['$', '{'] + after, seq!['$', '{'], 0) == Some(
            before.len() as int,
        ),
{
    let open = seq!['$', '{'];
    let input = before + open + after;
    let start = before.len() as int;
    assert forall|k: int| 0 <= k < start implies !text::occurs_at(input, open, k) by {
        if text::occurs_at(input, open, k) {
            assert(input[k] == input.subrange(k, k + 2)[0]);
            assert(input[k + 1] == input.subrange(k, k + 2)[1]);
            if k + 2 <= start {
                assert(before.subrange(k, k + 2) =~= open);
                assert(text::occurs_at(before, open, k));
            }
        }
    }
    assert(input.subrange(start, start + 2) =~= open);
    assert(text::occurs_at(input, open, start));
    text::lemma_position_is(input, open, 0, start);
}

proof fn lemma_first_reference(before: Seq<char>, name: Seq<char>, after: Seq<char>)
    requires
        !text::contains_text(before, seq!['$', '{']),
        !name.contains('}'),
    ensures
        ({
            let input = before + seq!['$', '{'] + name + seq!['}'] + after;
            let start = before.len() as int;
            let end = start + 2 + name.len();
            &&& text::position_from(input, seq!['$', '{'], 0) == Some(start)
            &&& text::position_from(input, seq!['}'], start + 2) == Some(end)
            &&& input.subrange(start + 2, end) == name
        }),
{
    let close = seq!['}'];
    let input = before + seq!['$', '{'] + name + close + after;
    let start = before.len() as int;
    let end = start + 2 + name.len();
    lemma_first_opening(before, name + close + after);
    assert(before + seq!['$', '{'] + (name + close + after) =~= input);
    assert forall|k: int| start + 2 <= k < end implies !text::occurs_at(input, close, k) by {
        if text::occurs_at(input, close, k) {
            assert(input[k] == input.subrange(k, k + 1)[0]);
            assert(name[k - start - 2] == '}');
        }
    }
    assert(input.subrange(end, end + 1) =~= close);
    assert(text::occurs_at(input, close, end));
    text::lemma_position_is(input, close, start + 2, end);
    assert(input.subrange(start + 2, end) =~= name);
}

} // verus!
