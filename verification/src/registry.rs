//! The registry adapter's computational half: the index URL for a package
//! name, parsing the version entries out of fetched index lines, picking the
//! highest released version, and folding a batch of per-package lookup
//! results into one map (all-or-nothing). The fetching itself is plain
//! network I/O and lives with the caller.

use vstd::prelude::*;

use crate::errors::{error_text, Error};
use crate::version::{version_lt, version_lt_exec, Version, VersionView};
use crate::vmap::VersionMap;

verus! {

// ---------------------------------------------------------------------------
// Index URLs
// ---------------------------------------------------------------------------

/// ASCII uppercase letters map to lowercase; everything else stays.
pub open spec fn lower_char(c: char) -> char {
    if 65 <= c as u32 <= 90 {
        (((c as u32) + 32) as u8) as char
    } else {
        c
    }
}

/// ASCII-lowercases every character.
pub open spec fn ascii_lower(s: Seq<char>) -> Seq<char> {
    s.map_values(|c: char| lower_char(c))
}

/// Relies on String::push: appends exactly one character.
#[verifier::external_body]
fn push_char(s: &mut String, c: char)
    ensures
        final(s)@ == old(s)@.push(c),
{
    s.push(c);
}

/// ASCII-lowercases a package name.
fn to_ascii_lower(name: &str) -> (r: String)
    ensures
        r@ == ascii_lower(name@),
{
    let len = name.unicode_len();
    let mut out = String::new();
    let mut i: usize = 0;
    while i < len
        invariant
            len == name@.len(),
            i <= len,
            out@ =~= ascii_lower(name@).take(i as int),
        decreases len - i,
    {
        let c = name.get_char(i);
        let u = c as u32;
        let lc: char = if 65 <= u && u <= 90 {
            ((u + 32) as u8) as char
        } else {
            c
        };
        proof {
            assert(lc == lower_char(name@[i as int]));
        }
        push_char(&mut out, lc);
        i = i + 1;
        proof {
            assert(out@ =~= ascii_lower(name@).take(i as int));
        }
    }
    proof {
        assert(ascii_lower(name@).take(len as int) =~= ascii_lower(name@));
    }
    out
}

/// The sparse-index URL for a package name: short names live under a
/// length-numbered directory, longer ones under their first two character
/// pairs; the name itself is lowercased.
pub open spec fn url_of(name: Seq<char>) -> Seq<char> {
    let lower = ascii_lower(name);
    if name.len() == 1 {
        "https://index.crates.io/1/"@ + lower
    } else if name.len() == 2 {
        "https://index.crates.io/2/"@ + lower
    } else if name.len() == 3 {
        "https://index.crates.io/3/"@ + lower.subrange(0, 1) + "/"@ + lower
    } else {
        "https://index.crates.io/"@ + lower.subrange(0, 2) + "/"@ + lower.subrange(2, 4) + "/"@
            + lower
    }
}

/// Builds the registry index URL that lists a package's versions.
pub fn build_url(name: &str) -> (r: String)
    requires
        name@.len() >= 1,
    ensures
        r@ == url_of(name@),
{
    let lower = to_ascii_lower(name);
    let n = name.unicode_len();
    if n == 1 {
        let mut s = String::from_str("https://index.crates.io/1/");
        s.append(lower.as_str());
        s
    } else if n == 2 {
        let mut s = String::from_str("https://index.crates.io/2/");
        s.append(lower.as_str());
        s
    } else if n == 3 {
        let mut s = String::from_str("https://index.crates.io/3/");
        s.append(lower.as_str().substring_char(0, 1));
        s.append("/");
        s.append(lower.as_str());
        s
    } else {
        let mut s = String::from_str("https://index.crates.io/");
        s.append(lower.as_str().substring_char(0, 2));
        s.append("/");
        s.append(lower.as_str().substring_char(2, 4));
        s.append("/");
        s.append(lower.as_str());
        s
    }
}

// ---------------------------------------------------------------------------
// Parsing index entries
// ---------------------------------------------------------------------------

/// The `vers` string field of one registry index line, when the line is
/// valid JSON carrying one.
pub uninterp spec fn index_vers_of(line: Seq<char>) -> Option<Seq<char>>;

/// The semantic version a string denotes, when it is well-formed, with the
/// pre-release part split into its dot-separated identifiers.
pub uninterp spec fn semver_of(s: Seq<char>) -> Option<VersionView>;

/// Relies on serde_json::from_str: parses one registry index line as JSON
/// and picks out its `vers` string field.
#[verifier::external_body]
fn index_line_vers(line: &str) -> (r: Option<String>)
    ensures
        match r {
            Some(vs) => index_vers_of(line@) == Some(vs@),
            None => index_vers_of(line@) is None,
        },
{
    match serde_json::from_str::<serde_json::Value>(line) {
        Ok(v) => match v.get("vers") {
            Some(x) => x.as_str().map(|s| s.to_string()),
            None => None,
        },
        Err(_) => None,
    }
}

/// Relies on semver's Version::parse: parses a semantic version string,
/// handing over the release triple and the pre-release and build parts.
#[verifier::external_body]
fn parse_semver(s: &str) -> (r: Option<Version>)
    ensures
        match r {
            Some(v) => semver_of(s@) == Some(v@),
            None => semver_of(s@) is None,
        },
{
    match semver::Version::parse(s) {
        Ok(v) => {
            let empty = v.pre.is_empty();
            let pre: Vec<String> =
                if empty { Vec::new() } else { v.pre.as_str().split('.').map(|t| t.to_string()).collect() };
            let build = v.build.as_str().to_string();
            Some(Version { major: v.major, minor: v.minor, patch: v.patch, pre, build })
        },
        Err(_) => None,
    }
}

/// What one index line denotes: the version of its `vers` field, if both the
/// line and the field are well-formed.
pub open spec fn parsed_line(line: Seq<char>) -> Option<VersionView> {
    match index_vers_of(line) {
        Some(vs) => semver_of(vs),
        None => None,
    }
}

/// The all-zero baseline version assumed for a package the registry does not
/// know yet.
pub open spec fn zero_version() -> VersionView {
    VersionView {
        major: 0,
        minor: 0,
        patch: 0,
        pre: Seq::empty(),
        build: Seq::empty(),
    }
}

/// Picks the highest released version out of fetched index lines, one JSON
/// entry per line. Any malformed line or version string fails the lookup;
/// an empty index is the `zero_version` baseline when `allow_not_found` is
/// set and a failure otherwise.
pub fn published_version_from_index(lines: &Vec<String>, allow_not_found: bool) -> (r: Result<
    Version,
    Error,
>)
    ensures
        match r {
            Ok(v) => {
                &&& forall|i: int|
                    0 <= i < lines@.len() ==> parsed_line((#[trigger] lines@[i])@) is Some
                &&& lines@.len() == 0 ==> allow_not_found && v@ == zero_version()
                &&& lines@.len() > 0 ==> {
                    &&& exists|i: int|
                        0 <= i < lines@.len() && parsed_line((#[trigger] lines@[i])@) == Some(v@)
                    &&& forall|i: int|
                        0 <= i < lines@.len() ==> !version_lt(
                            v@,
                            parsed_line((#[trigger] lines@[i])@).unwrap(),
                        )
                }
            },
            Err(Error::RegistryLookupFailed(_)) => {
                ||| exists|i: int| 0 <= i < lines@.len() && parsed_line((#[trigger] lines@[i])@) is None
                ||| (lines@.len() == 0 && !allow_not_found)
            },
            Err(_) => false,
        },
{
    let mut best: Option<Version> = None;
    let mut i: usize = 0;
    while i < lines.len()
        invariant
            i <= lines@.len(),
            forall|j: int| 0 <= j < i ==> parsed_line((#[trigger] lines@[j])@) is Some,
            match best {
                Some(b) => {
                    &&& i > 0
                    &&& exists|j: int|
                        0 <= j < i && parsed_line((#[trigger] lines@[j])@) == Some(b@)
                    &&& forall|j: int|
                        0 <= j < i ==> !version_lt(b@, parsed_line((#[trigger] lines@[j])@).unwrap())
                },
                None => i == 0,
            },
        decreases lines@.len() - i,
    {
        let vers = match index_line_vers(lines[i].as_str()) {
            Some(vs) => vs,
            None => {
                return Err(Error::RegistryLookupFailed(lines[i].clone()));
            },
        };
        let parsed = match parse_semver(vers.as_str()) {
            Some(v) => v,
            None => {
                return Err(Error::RegistryLookupFailed(lines[i].clone()));
            },
        };
        proof {
            assert(parsed_line(lines@[i as int]@) == Some(parsed@));
        }
        best = match best {
            None => {
                proof {
                    crate::version::lemma_version_lt_irrefl(parsed@);
                }
                Some(parsed)
            },
            Some(b) => {
                if version_lt_exec(&b, &parsed) {
                    proof {
                        crate::version::lemma_version_lt_irrefl(parsed@);
                        assert forall|j: int| 0 <= j < i as int implies !version_lt(
                            parsed@,
                            parsed_line((#[trigger] lines@[j])@).unwrap(),
                        ) by {
                            if version_lt(parsed@, parsed_line(lines@[j]@).unwrap()) {
                                crate::version::lemma_version_lt_trans(
                                    b@,
                                    parsed@,
                                    parsed_line(lines@[j]@).unwrap(),
                                );
                            }
                        }
                    }
                    Some(parsed)
                } else {
                    Some(b)
                }
            },
        };
        i = i + 1;
    }
    match best {
        Some(b) => Ok(b),
        None => {
            if allow_not_found {
                Ok(Version::new(0, 0, 0))
            } else {
                return Err(
                    Error::RegistryLookupFailed(
                        String::from_str("no published versions were found"),
                    ),
                );
            }
        },
    }
}

// ---------------------------------------------------------------------------
// Batch lookup results
// ---------------------------------------------------------------------------

/// The aggregated report of a failed batch: every failed lookup's
/// description in order, one per line.
pub open spec fn failure_report(results: Seq<(String, Result<Version, Error>)>) -> Seq<char>
    decreases results.len(),
{
    if results.len() == 0 {
        Seq::empty()
    } else {
        failure_report(results.drop_last()) + (match results.last().1 {
            Result::Err(e) => error_text(e) + "\n"@,
            Result::Ok(_) => Seq::empty(),
        })
    }
}

/// Folds per-package lookup results into one map. Any failed lookup fails
/// the whole batch, with every failure's description aggregated into the
/// error; partial success is never returned.
pub fn get_published_versions(results: &Vec<(String, Result<Version, Error>)>) -> (r: Result<
    VersionMap,
    Error,
>)
    requires
        forall|i: int, j: int|
            0 <= i < j < results@.len() ==> (#[trigger] results@[i]).0@ != (
            #[trigger] results@[j]).0@,
    ensures
        match r {
            Ok(m) => {
                &&& m.wf()
                &&& forall|i: int| 0 <= i < results@.len() ==> (#[trigger] results@[i]).1 is Ok
                &&& m.entries_seq().len() == results@.len()
                &&& forall|i: int|
                    0 <= i < results@.len() ==> m.entries_seq()[i] == (
                    (#[trigger] results@[i]).0@,
                    results@[i].1.unwrap()@,
                )
            },
            Err(Error::RegistryLookupFailed(msg)) => {
                &&& exists|i: int| 0 <= i < results@.len() && (#[trigger] results@[i]).1 is Err
                &&& msg@ == failure_report(results@)
            },
            Err(_) => false,
        },
{
    let mut any_failed = false;
    let mut messages = String::new();
    let mut i: usize = 0;
    while i < results.len()
        invariant
            i <= results@.len(),
            any_failed <==> exists|j: int| 0 <= j < i && (#[trigger] results@[j]).1 is Err,
            messages@ == failure_report(results@.take(i as int)),
        decreases results@.len() - i,
    {
        let ghost next = results@.take(i as int + 1);
        proof {
            assert(next.drop_last() =~= results@.take(i as int));
            assert(next.last() == results@[i as int]);
        }
        match &results[i].1 {
            Err(e) => {
                let msg = e.describe();
                messages.append(msg.as_str());
                messages.append("\n");
                any_failed = true;
                proof {
                    assert(results@[i as int].1 is Err);
                    assert(messages@ =~= failure_report(next));
                }
            },
            Ok(_) => {
                proof {
                    assert(messages@ =~= failure_report(next));
                }
            },
        }
        i = i + 1;
    }
    if any_failed {
        proof {
            assert(results@.take(results@.len() as int) =~= results@);
        }
        return Err(Error::RegistryLookupFailed(messages));
    }

    let mut m = VersionMap::new();
    let mut i: usize = 0;
    while i < results.len()
        invariant
            i <= results@.len(),
            forall|j: int, k: int|
                0 <= j < k < results@.len() ==> (#[trigger] results@[j]).0@ != (
                #[trigger] results@[k]).0@,
            forall|j: int| 0 <= j < results@.len() ==> (#[trigger] results@[j]).1 is Ok,
            m.wf(),
            m.entries_seq().len() == i,
            forall|j: int|
                0 <= j < i ==> m.entries_seq()[j] == (
                (#[trigger] results@[j]).0@,
                results@[j].1.unwrap()@,
            ),
        decreases results@.len() - i,
    {
        let entry = &results[i];
        let v = match &entry.1 {
            Ok(v) => v.duplicate(),
            Err(_) => {
                proof {
                    assert(false);
                }
                return Err(Error::RegistryLookupFailed(String::new()));
            },
        };
        proof {
            m.lemma_view_corresponds();
            if m.map_view().dom().contains(entry.0@) {
                let j = choose|j: int|
                    0 <= j < m.entries_seq().len() && (#[trigger] m.entries_seq()[j]).0
                        == entry.0@;
                assert(results@[j].0@ == results@[i as int].0@);
                assert(false);
            }
        }
        m.insert(entry.0.clone(), v);
        i = i + 1;
    }
    Ok(m)
}

} // verus!
