use vstd::prelude::*;

verus! {

/// Decimal digits of a natural number, most significant first, without
/// leading zeros.
pub open spec fn decimal(n: nat) -> Seq<char>
    decreases n,
{
    if n < 10 {
        seq![digit_char(n)]
    } else {
        decimal(n / 10).push(digit_char(n % 10))
    }
}

pub open spec fn digit_char(d: nat) -> char {
    if d == 0 { '0' } else if d == 1 { '1' } else if d == 2 { '2' } else if d == 3 { '3' }
    else if d == 4 { '4' } else if d == 5 { '5' } else if d == 6 { '6' } else if d == 7 { '7' }
    else if d == 8 { '8' } else { '9' }
}

/// The text of a version triple: `major.minor.patch`.
pub open spec fn version_text(t: (u64, u64, u64)) -> Seq<char> {
    decimal(t.0 as nat) + seq!['.'] + decimal(t.1 as nat) + seq!['.'] + decimal(t.2 as nat)
}

/// The (major, minor, patch) triple that the semantic-version parser reads
/// from a text, or `None` where the text is not a version.
pub uninterp spec fn semver_triple(s: Seq<char>) -> Option<(u64, u64, u64)>;

/// Relies on `semver::Version::parse`: a text that parses yields its major,
/// minor and patch numbers; three decimal numbers without leading zeros,
/// joined by dots, parse to those numbers.
#[verifier::external_body]
fn parse_semver(s: &str) -> (r: Option<(u64, u64, u64)>)
    ensures
        r == semver_triple(s@),
        forall|t: (u64, u64, u64)| s@ == version_text(t) ==> r == Some(t),
{
    semver::Version::parse(s).ok().map(|v| (v.major, v.minor, v.patch))
}

/// Relies on `semver::Version::new` and its `Display`: a version without
/// pre-release or build parts prints as `major.minor.patch` in decimal.
#[verifier::external_body]
fn format_semver(t: (u64, u64, u64)) -> (r: String)
    ensures
        r@ == version_text(t),
{
    semver::Version::new(t.0, t.1, t.2).to_string()
}

/// The sort key of a version identifier: its triple, or (0, 0, 0) where it
/// does not parse.
pub open spec fn version_key(s: Seq<char>) -> (u64, u64, u64) {
    match semver_triple(s) {
        Some(t) => t,
        None => (0, 0, 0),
    }
}

/// Lexicographic order on triples.
pub open spec fn triple_le(a: (u64, u64, u64), b: (u64, u64, u64)) -> bool {
    a.0 < b.0 || (a.0 == b.0 && (a.1 < b.1 || (a.1 == b.1 && a.2 <= b.2)))
}

/// The identifier every document starts at.
pub open spec fn initial_version() -> (u64, u64, u64) {
    (0, 1, 0)
}

/// What follows a parsed identifier: the patch number raised by one, or the
/// initial version where there is nothing to raise. `None` where the patch
/// number is already the largest one.
pub open spec fn next_triple(parsed: Option<(u64, u64, u64)>) -> Option<(u64, u64, u64)> {
    match parsed {
        Some(t) => if t.2 < u64::MAX { Some((t.0, t.1, (t.2 + 1) as u64)) } else { None },
        None => Some(initial_version()),
    }
}

/// The key of a version identifier, with the lenient fallback for text that
/// is not a version.
pub fn parse_version_key(s: &str) -> (r: (u64, u64, u64))
    ensures
        r == version_key(s@),
{
    match parse_semver(s) {
        Some(t) => t,
        None => (0, 0, 0),
    }
}

/// The text of a version triple.
pub fn version_string(t: (u64, u64, u64)) -> (r: String)
    ensures
        r@ == version_text(t),
{
    format_semver(t)
}

/// The identifier that follows `current`: the patch number raised by one,
/// major and minor kept. Where `current` is absent or does not parse, the
/// initial version `0.1.0`. `None` only where the patch number cannot grow.
pub fn next_version(current: Option<&str>) -> (r: Option<String>)
    ensures
        current.is_none() ==> r.is_some() && r.unwrap()@ == version_text(initial_version()),
        current.is_some() ==> match next_triple(semver_triple(current.unwrap()@)) {
            Some(t) => r.is_some() && r.unwrap()@ == version_text(t),
            None => r.is_none(),
        },
        forall|t: (u64, u64, u64)|
            current.is_some() && current.unwrap()@ == version_text(t) && t.2 < u64::MAX ==> (
            r.is_some() && r.unwrap()@ == version_text((t.0, t.1, (t.2 + 1) as u64))),
{
    match current {
        None => Some(version_string((0, 1, 0))),
        Some(v) => match parse_semver(v) {
            Some(t) => if t.2 < u64::MAX {
                Some(version_string((t.0, t.1, t.2 + 1)))
            } else {
                None
            },
            None => Some(version_string((0, 1, 0))),
        },
    }
}

/// A version identifier of a document with the time its record was written.
pub struct VersionInfo {
    pub version: String,
    pub created_at: String,
}

/// Versions ordered from the highest key down.
pub open spec fn sorted_desc(s: Seq<VersionInfo>) -> bool {
    forall|i: int, j: int|
        0 <= i < j < s.len() ==> triple_le(version_key(#[trigger] s[j].version@), version_key(
            #[trigger] s[i].version@,
        ))
}

fn triple_le_exec(a: (u64, u64, u64), b: (u64, u64, u64)) -> (r: bool)
    ensures
        r == triple_le(a, b),
{
    a.0 < b.0 || (a.0 == b.0 && (a.1 < b.1 || (a.1 == b.1 && a.2 <= b.2)))
}

/// Orders version records from the highest identifier down; identifiers
/// that do not parse sort as `0.0.0`. The records are kept, none added.
pub fn sort_versions(items: Vec<VersionInfo>) -> (r: Vec<VersionInfo>)
    ensures
        sorted_desc(r@),
        r@.to_multiset() == items@.to_multiset(),
{
    broadcast use vstd::seq_lib::group_to_multiset_ensures;
    broadcast use vstd::multiset::group_multiset_axioms;

    let mut rest = items;
    let mut r: Vec<VersionInfo> = Vec::new();
    let mut keys: Vec<(u64, u64, u64)> = Vec::new();
    while rest.len() > 0
        invariant
            keys@.len() == r@.len(),
            forall|k: int| 0 <= k < r@.len() ==> keys@[k] == version_key(#[trigger] r@[k].version@),
            sorted_desc(r@),
            r@.to_multiset().add(rest@.to_multiset()) == items@.to_multiset(),
        decreases rest.len(),
    {
        let ghost before = rest@;
        let x = rest.pop().unwrap();
        assert(before == rest@.push(x));
        let kx = parse_version_key(x.version.as_str());
        let mut p: usize = 0;
        while p < keys.len() && triple_le_exec(kx, keys[p])
            invariant
                p <= keys@.len(),
                forall|k: int| 0 <= k < p ==> triple_le(kx, #[trigger] keys@[k]),
            decreases keys@.len() - p,
        {
            p = p + 1;
        }
        let ghost old_r = r@;
        r.insert(p, x);
        keys.insert(p, kx);
        assert(r@ == old_r.insert(p as int, x));
        proof {
            vstd::seq_lib::to_multiset_insert(old_r, p as int, x);
            vstd::seq_lib::to_multiset_build(rest@, x);
        }
        assert(r@.to_multiset().add(rest@.to_multiset()) =~= old_r.to_multiset().add(
            before.to_multiset(),
        ));
        assert forall|i: int, j: int| 0 <= i < j < r@.len() implies triple_le(
            version_key(#[trigger] r@[j].version@),
            version_key(#[trigger] r@[i].version@),
        ) by {
            assert(keys@[i] == version_key(r@[i].version@));
            assert(keys@[j] == version_key(r@[j].version@));
            if i < p && j > p {
                assert(triple_le(kx, keys@[i]));
                assert(keys@[j] == version_key(old_r[j - 1].version@));
                assert(!triple_le(kx, keys@[p as int + 1]));
            }
            if i == p && j > p + 1 {
                assert(keys@[p as int + 1] == version_key(old_r[p as int].version@));
            }
        }
    }
    r
}

} // verus!
