//! Releases and their versions.

use crate::{text, text_laws};
use vstd::prelude::*;
use vstd::string::StringExecFns;

verus! {

/// The file of a release that holds the program.
pub const UPDATE_ASSET: &'static str = "avel-pilot-linux-amd64";

/// The numbers among the first fields of a version.
pub open spec fn numbers(fields: Seq<Seq<char>>) -> Seq<nat>
    decreases fields.len(),
{
    if fields.len() == 0 {
        Seq::empty()
    } else {
        match text::parsed_unsigned(fields.last(), u32::MAX as nat) {
            Some(number) => numbers(fields.drop_last()).push(number),
            None => numbers(fields.drop_last()),
        }
    }
}

/// The first three fields of a version, which dots and hyphens separate.
pub open spec fn leading_fields(version: Seq<char>) -> Seq<Seq<char>> {
    let fields = text::fields(version, seq!['.', '-']);
    if fields.len() <= 3 {
        fields
    } else {
        fields.take(3)
    }
}

/// The number at a place of a version, or 0 where there is none. Fields that are
/// no numbers do not count.
pub open spec fn part(version: Seq<char>, place: int) -> nat {
    let found = numbers(leading_fields(version));
    if place < found.len() {
        found[place]
    } else {
        0
    }
}

/// Whether a version is later than another: at the first place where they
/// differ, its number is greater.
pub open spec fn newer(candidate: Seq<char>, current: Seq<char>) -> bool {
    let (a0, b0) = (part(candidate, 0), part(current, 0));
    let (a1, b1) = (part(candidate, 1), part(current, 1));
    let (a2, b2) = (part(candidate, 2), part(current, 2));
    a0 > b0 || (a0 == b0 && (a1 > b1 || (a1 == b1 && a2 > b2)))
}

/// The three numbers of the version.
pub fn version_parts(version: &str) -> (r: [u32; 3])
    ensures
        forall|i: int| 0 <= i < 3 ==> r@[i] == part(version@, i),
{
    let separators: [char; 2] = ['.', '-'];
    assert(separators@ =~= seq!['.', '-']);
    let fields = text::split_fields(version, separators.as_slice());
    let ghost all = text::texts(fields@);
    let ghost first = leading_fields(version@);
    let n: usize = if fields.len() < 3 {
        fields.len()
    } else {
        3
    };
    assert(first =~= all.take(n as int));
    let mut parts: [u32; 3] = [0, 0, 0];
    let mut count: usize = 0;
    let mut i: usize = 0;
    assert(all.take(0) =~= Seq::empty());
    while i < n
        invariant
            i <= n <= 3,
            n <= fields@.len(),
            all == text::texts(fields@),
            count <= i,
            count == numbers(all.take(i as int)).len(),
            forall|k: int|
                0 <= k < 3 ==> #[trigger] parts@[k] == (if k < count {
                    numbers(all.take(i as int))[k]
                } else {
                    0
                }),
        decreases n - i,
    {
        assert(all.take(i + 1).drop_last() =~= all.take(i as int));
        assert(all.take(i + 1).last() == fields@[i as int]@);
        if let Some(number) = text::parse_unsigned(fields[i].as_str(), u32::MAX) {
            parts[count] = number;
            count = count + 1;
        }
        i = i + 1;
    }
    parts
}

/// Whether the candidate is later than the current version.
pub fn version_is_newer(candidate: &str, current: &str) -> (r: bool)
    ensures
        r == newer(candidate@, current@),
{
    let a = version_parts(candidate);
    let b = version_parts(current);
    assert(a@[0] == part(candidate@, 0) && a@[1] == part(candidate@, 1) && a@[2] == part(
        candidate@,
        2,
    ));
    assert(b@[0] == part(current@, 0) && b@[1] == part(current@, 1) && b@[2] == part(current@, 2));
    if a[0] != b[0] {
        a[0] > b[0]
    } else if a[1] != b[1] {
        a[1] > b[1]
    } else {
        a[2] > b[2]
    }
}

/// No version is later than itself, no two are later than each other, and what
/// is later than a later version is later.
pub proof fn law_newer_is_an_order(a: Seq<char>, b: Seq<char>, c: Seq<char>)
    ensures
        !newer(a, a),
        newer(a, b) ==> !newer(b, a),
        newer(a, b) && newer(b, c) ==> newer(a, c),
{
}

/// A file of a release.
#[derive(Debug, PartialEq, Eq)]
pub struct ReleaseAsset {
    pub name: String,
    pub browser_download_url: String,
}

/// A release.
#[derive(Debug, PartialEq, Eq)]
pub struct Release {
    pub tag_name: String,
    pub html_url: String,
    pub assets: Vec<ReleaseAsset>,
}

/// What an update comes to.
#[derive(Debug, PartialEq, Eq)]
pub enum UpdateStep {
    /// There is nothing later.
    UpToDate,
    /// There is a later version, but its program is missing.
    AssetMissing,
    /// The program of a later version is to be fetched.
    Fetch { latest: String, url: String },
}

/// What an [`UpdateStep`] is.
pub enum UpdateStepView {
    UpToDate,
    AssetMissing,
    Fetch { latest: Seq<char>, url: Seq<char> },
}

impl View for UpdateStep {
    type V = UpdateStepView;

    open spec fn view(&self) -> UpdateStepView {
        match self {
            UpdateStep::UpToDate => UpdateStepView::UpToDate,
            UpdateStep::AssetMissing => UpdateStepView::AssetMissing,
            UpdateStep::Fetch { latest, url } => UpdateStepView::Fetch { latest: latest@, url: url@ },
        }
    }
}

/// The version that a tag names: the tag without the letter v in front.
pub open spec fn tagged_version(tag: Seq<char>) -> Seq<char> {
    text::stripped_start(tag, 'v')
}

/// The address of the first program among the files of a release.
pub open spec fn program_url(assets: Seq<ReleaseAsset>) -> Option<Seq<char>>
    decreases assets.len(),
{
    if assets.len() == 0 {
        None
    } else {
        match program_url(assets.drop_last()) {
            Some(url) => Some(url),
            None => if assets.last().name@ == UPDATE_ASSET@ {
                Some(assets.last().browser_download_url@)
            } else {
                None
            },
        }
    }
}

proof fn lemma_program_url_stays(assets: Seq<ReleaseAsset>, k: int)
    requires
        0 <= k <= assets.len(),
        program_url(assets.take(k)) is Some,
    ensures
        program_url(assets) == program_url(assets.take(k)),
    decreases assets.len() - k,
{
    if k == assets.len() {
        assert(assets.take(k) =~= assets);
    } else {
        assert(assets.take(k + 1).drop_last() =~= assets.take(k));
        lemma_program_url_stays(assets, k + 1);
    }
}

fn find_program(assets: &Vec<ReleaseAsset>) -> (r: Option<String>)
    ensures
        text::opt_text(r) == program_url(assets@),
{
    let mut i: usize = 0;
    while i < assets.len()
        invariant
            i <= assets@.len(),
            program_url(assets@.take(i as int)) is None,
        decreases assets@.len() - i,
    {
        assert(assets@.take(i + 1).drop_last() =~= assets@.take(i as int));
        if text::text_eq(assets[i].name.as_str(), UPDATE_ASSET) {
            proof {
                lemma_program_url_stays(assets@, i + 1);
            }
            return Some(assets[i].browser_download_url.clone());
        }
        i = i + 1;
    }
    assert(assets@.take(i as int) =~= assets@);
    None
}

/// What an update from a version to a release comes to.
pub open spec fn update_step_of(
    current: Seq<char>,
    tag: Seq<char>,
    assets: Seq<ReleaseAsset>,
) -> UpdateStepView {
    if !newer(tagged_version(tag), current) {
        UpdateStepView::UpToDate
    } else {
        match program_url(assets) {
            Some(url) => UpdateStepView::Fetch { latest: tagged_version(tag), url },
            None => UpdateStepView::AssetMissing,
        }
    }
}

/// What an update from the current version to the release comes to.
pub fn update_step(current: &str, release: &Release) -> (r: UpdateStep)
    ensures
        r@ == update_step_of(current@, release.tag_name@, release.assets@),
{
    let latest = text::strip_start(release.tag_name.as_str(), 'v');
    if !version_is_newer(latest.as_str(), current) {
        return UpdateStep::UpToDate;
    }
    match find_program(&release.assets) {
        Some(url) => UpdateStep::Fetch { latest, url },
        None => UpdateStep::AssetMissing,
    }
}

/// What is said of a release on every command, if it is later.
pub fn update_notice(current: &str, tag: &str) -> (r: Option<String>)
    ensures
        match r {
            Some(notice) => newer(tagged_version(tag@), current@) && notice@ == "Avel Pilot "@
                + tagged_version(tag@) + " is available. Run `avel-pilot update`."@,
            None => !newer(tagged_version(tag@), current@),
        },
{
    let latest = text::strip_start(tag, 'v');
    if version_is_newer(latest.as_str(), current) {
        Some(
            text::join3(
                "Avel Pilot ",
                latest.as_str(),
                " is available. Run `avel-pilot update`.",
            ),
        )
    } else {
        None
    }
}

/// What is said where there is nothing later.
pub fn up_to_date(current: &str) -> (r: String)
    ensures
        r@ == "Avel Pilot is already up to date ("@ + current@ + ")."@,
{
    text::join3("Avel Pilot is already up to date (", current, ").")
}

/// What is said before an update.
pub fn updating(current: &str, latest: &str, page: &str) -> (r: String)
    ensures
        r@ == "Updating "@ + current@ + " -> "@ + latest@ + " from "@ + page@,
{
    let mut out = text::join3("Updating ", current, " -> ");
    out.append(latest);
    out.append(" from ");
    out.append(page);
    out
}

/// The first place at which two versions differ decides which is later, however
/// far the numbers at the places behind it are apart.
pub proof fn law_earlier_place_decides(a: Seq<char>, b: Seq<char>)
    ensures
        part(a, 0) > part(b, 0) ==> newer(a, b),
        part(a, 0) < part(b, 0) ==> !newer(a, b),
        part(a, 0) == part(b, 0) && part(a, 1) > part(b, 1) ==> newer(a, b),
        part(a, 0) == part(b, 0) && part(a, 1) < part(b, 1) ==> !newer(a, b),
        part(a, 0) == part(b, 0) && part(a, 1) == part(b, 1) ==> (newer(a, b) <==> part(a, 2)
            > part(b, 2)),
{
}

/// Three numbers with dots between them.
pub open spec fn dotted(x: nat, y: nat, z: nat) -> Seq<char> {
    text::decimal(x) + seq!['.'] + (text::decimal(y) + seq!['.'] + text::decimal(z))
}

/// A version that is written as three numbers has these numbers, with or without
/// a note behind a hyphen. Shorter versions go on with zeros.
pub proof fn law_written_version_has_its_numbers(x: u32, y: u32, z: u32, note: Seq<char>)
    ensures
        ({
            let version = dotted(x as nat, y as nat, z as nat);
            let noted = version + seq!['-'] + note;
            let two = text::decimal(x as nat) + seq!['.'] + text::decimal(y as nat);
            let one = text::decimal(x as nat);
            &&& part(version, 0) == x && part(version, 1) == y && part(version, 2) == z
            &&& part(noted, 0) == x && part(noted, 1) == y && part(noted, 2) == z
            &&& part(two, 0) == x && part(two, 1) == y && part(two, 2) == 0
            &&& part(one, 0) == x && part(one, 1) == 0 && part(one, 2) == 0
        }),
{
    let separators = seq!['.', '-'];
    let (a, b, c) = (text::decimal(x as nat), text::decimal(y as nat), text::decimal(z as nat));
    assert(separators[0] == '.');
    assert(separators[1] == '-');
    assert(separators.contains('.') && separators.contains('-'));
    lemma_number_is_one_field(x as nat);
    lemma_number_is_one_field(y as nat);
    lemma_number_is_one_field(z as nat);
    text_laws::law_separator_parts_the_fields(b, '.', c, separators);
    text_laws::law_separator_parts_the_fields(a, '.', b + seq!['.'] + c, separators);
    text_laws::law_separator_parts_the_fields(a, '.', b, separators);
    let version = dotted(x as nat, y as nat, z as nat);
    text_laws::law_separator_parts_the_fields(version, '-', note, separators);
    assert(text::fields(version, separators) =~= seq![a, b, c]);
    assert(leading_fields(version) =~= seq![a, b, c]);
    let noted = version + seq!['-'] + note;
    assert(text::fields(noted, separators) == seq![a, b, c] + text::fields(note, separators));
    text::lemma_fields_nonempty(note, separators);
    assert(leading_fields(noted) =~= seq![a, b, c]);
    let two = a + seq!['.'] + b;
    assert(text::fields(two, separators) =~= seq![a, b]);
    assert(leading_fields(two) =~= seq![a, b]);
    assert(leading_fields(a) =~= seq![a]);
    text::law_decimal_round_trip(x as nat, u32::MAX as nat);
    text::law_decimal_round_trip(y as nat, u32::MAX as nat);
    text::law_decimal_round_trip(z as nat, u32::MAX as nat);
    assert(seq![a, b, c].drop_last() =~= seq![a, b]);
    assert(seq![a, b].drop_last() =~= seq![a]);
    assert(seq![a].drop_last() =~= Seq::<Seq<char>>::empty());
    assert(numbers(Seq::<Seq<char>>::empty()) =~= Seq::<nat>::empty());
    assert(numbers(seq![a]) =~= seq![x as nat]);
    assert(numbers(seq![a, b]) =~= seq![x as nat, y as nat]);
    assert(numbers(seq![a, b, c]) =~= seq![x as nat, y as nat, z as nat]);
}

proof fn lemma_number_is_one_field(n: nat)
    ensures
        text::fields(text::decimal(n), seq!['.', '-']) == seq![text::decimal(n)],
{
    let s = text::decimal(n);
    text::lemma_decimal_digits(n);
    assert forall|i: int| 0 <= i < s.len() implies !seq!['.', '-'].contains(#[trigger] s[i]) by {
        assert(text::is_digit(s[i]));
    }
    text_laws::law_text_without_separators_is_one_field(s, seq!['.', '-']);
}

/// Of two versions that are written as three numbers, one is later exactly when
/// its first number is greater, or the first numbers are the same and its second
/// is greater, or both are the same and its third is greater.
pub proof fn law_later_version_has_the_greater_numbers(
    a: (u32, u32, u32),
    b: (u32, u32, u32),
)
    ensures
        newer(
            dotted(a.0 as nat, a.1 as nat, a.2 as nat),
            dotted(b.0 as nat, b.1 as nat, b.2 as nat),
        ) <==> a.0 > b.0 || (a.0 == b.0 && a.1 > b.1) || (a.0 == b.0 && a.1 == b.1 && a.2 > b.2),
{
    law_written_version_has_its_numbers(a.0, a.1, a.2, Seq::empty());
    law_written_version_has_its_numbers(b.0, b.1, b.2, Seq::empty());
}

/// A field of the version that is no number does not count: the numbers behind it
/// move up.
pub proof fn law_other_fields_do_not_count(word: Seq<char>, x: u32, y: u32)
    requires
        text::parsed_unsigned(word, u32::MAX as nat) is None,
        forall|i: int|
            0 <= i < word.len() ==> #[trigger] word[i] != '.' && word[i] != '-',
    ensures
        ({
            let version = word + seq!['.'] + (text::decimal(x as nat) + seq!['.'] + text::decimal(
                y as nat,
            ));
            part(version, 0) == x && part(version, 1) == y && part(version, 2) == 0
        }),
{
    let separators = seq!['.', '-'];
    let (a, b) = (text::decimal(x as nat), text::decimal(y as nat));
    assert(separators[0] == '.');
    assert(separators.contains('.'));
    assert forall|i: int| 0 <= i < word.len() implies !separators.contains(#[trigger] word[i]) by {
        assert(word[i] != '.' && word[i] != '-');
    }
    text_laws::law_text_without_separators_is_one_field(word, separators);
    lemma_number_is_one_field(x as nat);
    lemma_number_is_one_field(y as nat);
    text_laws::law_separator_parts_the_fields(a, '.', b, separators);
    text_laws::law_separator_parts_the_fields(word, '.', a + seq!['.'] + b, separators);
    let version = word + seq!['.'] + (a + seq!['.'] + b);
    assert(text::fields(version, separators) =~= seq![word, a, b]);
    assert(leading_fields(version) =~= seq![word, a, b]);
    text::law_decimal_round_trip(x as nat, u32::MAX as nat);
    text::law_decimal_round_trip(y as nat, u32::MAX as nat);
    assert(seq![word, a, b].drop_last() =~= seq![word, a]);
    assert(seq![word, a].drop_last() =~= seq![word]);
    assert(seq![word].drop_last() =~= Seq::<Seq<char>>::empty());
    assert(numbers(Seq::<Seq<char>>::empty()) =~= Seq::<nat>::empty());
    assert(numbers(seq![word]) =~= Seq::<nat>::empty());
    assert(numbers(seq![word, a]) =~= seq![x as nat]);
    assert(numbers(seq![word, a, b]) =~= seq![x as nat, y as nat]);
}

/// The version that a tag names is what stands behind the letters v in front,
/// however many there are.
pub proof fn law_tag_names_the_version(version: Seq<char>, n: nat)
    requires
        version.len() == 0 || version[0] != 'v',
    ensures
        tagged_version(Seq::new(n, |i: int| 'v') + version) == version,
        tagged_version(seq!['v'] + version) == version,
        tagged_version(version) == version,
{
    text_laws::law_stripping_leaves_the_rest(version, 'v', n);
    text_laws::law_stripping_leaves_the_rest(version, 'v', 1);
    text_laws::law_stripping_leaves_the_rest(version, 'v', 0);
    assert(Seq::new(1, |i: int| 'v') + version =~= seq!['v'] + version);
    assert(Seq::new(0, |i: int| 'v') + version =~= version);
}

/// The program of a release is fetched exactly where the release is later than
/// the current version and holds the program: from the address of the first file
/// of that name.
pub proof fn law_later_program_is_fetched(
    current: Seq<char>,
    tag: Seq<char>,
    assets: Seq<ReleaseAsset>,
    at: int,
)
    requires
        0 <= at <= assets.len(),
        forall|i: int| 0 <= i < at ==> (#[trigger] assets[i]).name@ != "avel-pilot-linux-amd64"@,
        at < assets.len() ==> assets[at].name@ == "avel-pilot-linux-amd64"@,
    ensures
        !newer(tagged_version(tag), current) <==> update_step_of(current, tag, assets) is UpToDate,
        newer(tagged_version(tag), current) && at == assets.len() <==> update_step_of(
            current,
            tag,
            assets,
        ) is AssetMissing,
        newer(tagged_version(tag), current) && at < assets.len() ==> update_step_of(
            current,
            tag,
            assets,
        ) == (UpdateStepView::Fetch {
            latest: tagged_version(tag),
            url: assets[at].browser_download_url@,
        }),
{
    lemma_first_program(assets, at);
}

proof fn lemma_first_program(assets: Seq<ReleaseAsset>, at: int)
    requires
        0 <= at <= assets.len(),
        forall|i: int| 0 <= i < at ==> (#[trigger] assets[i]).name@ != UPDATE_ASSET@,
        at < assets.len() ==> assets[at].name@ == UPDATE_ASSET@,
    ensures
        program_url(assets) == if at < assets.len() {
            Some(assets[at].browser_download_url@)
        } else {
            None
        },
    decreases assets.len(),
{
    if assets.len() > 0 {
        if at == assets.len() {
            assert(assets[assets.len() - 1].name@ != UPDATE_ASSET@);
            lemma_first_program(assets.drop_last(), at - 1);
        } else {
            lemma_first_program(assets.drop_last(), at);
        }
    }
}

} // verus!
