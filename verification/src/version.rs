//! Semantic versions: the data model, the precedence order, the textual
//! form, and the bump policy that decides the next version after a change.

use vstd::prelude::*;

verus! {

/// A semantic version: release triple, pre-release identifiers (empty for a
/// release), and build metadata (ignored by the precedence order).
#[derive(Debug, PartialEq, Eq)]
pub struct Version {
    pub major: u64,
    pub minor: u64,
    pub patch: u64,
    pub pre: Vec<String>,
    pub build: String,
}

/// The mathematical value of a [`Version`].
#[verifier::ext_equal]
pub struct VersionView {
    pub major: int,
    pub minor: int,
    pub patch: int,
    pub pre: Seq<Seq<char>>,
    pub build: Seq<char>,
}

impl View for Version {
    type V = VersionView;

    open spec fn view(&self) -> VersionView {
        VersionView {
            major: self.major as int,
            minor: self.minor as int,
            patch: self.patch as int,
            pre: self.pre.deep_view(),
            build: self.build@,
        }
    }
}

impl Version {
    /// A release version `major.minor.patch` with no pre-release or build part.
    pub fn new(major: u64, minor: u64, patch: u64) -> (r: Version)
        ensures
            r@ == (VersionView {
                major: major as int,
                minor: minor as int,
                patch: patch as int,
                pre: Seq::empty(),
                build: Seq::empty(),
            }),
    {
        let r = Version { major, minor, patch, pre: Vec::new(), build: String::new() };
        proof {
            assert(r@ =~= VersionView {
                major: major as int,
                minor: minor as int,
                patch: patch as int,
                pre: Seq::empty(),
                build: Seq::empty(),
            });
        }
        r
    }

    /// An exact copy of this version.
    pub fn duplicate(&self) -> (r: Version)
        ensures
            r@ == self@,
    {
        let mut pre: Vec<String> = Vec::new();
        let mut i: usize = 0;
        while i < self.pre.len()
            invariant
                i <= self.pre.len(),
                pre@.len() == i,
                forall|j: int| 0 <= j < i ==> (#[trigger] pre@[j])@ == self.pre@[j]@,
            decreases self.pre.len() - i,
        {
            let elem = self.pre[i].clone();
            pre.push(elem);
            i = i + 1;
        }
        let r = Version {
            major: self.major,
            minor: self.minor,
            patch: self.patch,
            pre,
            build: self.build.clone(),
        };
        proof {
            assert forall|j: int| 0 <= j < r.pre@.len() implies r.pre.deep_view()[j]
                == self.pre.deep_view()[j] by {
                assert(r.pre.deep_view()[j] == r.pre@[j].deep_view());
                assert(self.pre.deep_view()[j] == self.pre@[j].deep_view());
            }
            assert(r.pre.deep_view() =~= self.pre.deep_view());
            assert(r@ =~= self@);
        }
        r
    }
}

// ---------------------------------------------------------------------------
// Precedence order
// ---------------------------------------------------------------------------

/// A pre-release identifier is numeric when it consists of decimal digits
/// only. Numeric identifiers order before alphanumeric ones.
pub open spec fn ident_is_num(s: Seq<char>) -> bool {
    s.len() > 0 && forall|i: int| 0 <= i < s.len() ==> 48 <= (#[trigger] s[i]) as u32 <= 57
}

/// Lexicographic order on character sequences; a strict prefix orders first.
pub open spec fn chars_lt(a: Seq<char>, b: Seq<char>) -> bool
    decreases a.len(),
{
    if a.len() == 0 {
        b.len() > 0
    } else if b.len() == 0 {
        false
    } else if a[0] == b[0] {
        chars_lt(a.drop_first(), b.drop_first())
    } else {
        (a[0] as u32) < (b[0] as u32)
    }
}

/// Order on single pre-release identifiers: numeric identifiers compare by
/// value (fewer digits first, then lexicographically, since numeric
/// identifiers carry no leading zeroes), and order before alphanumeric
/// identifiers, which compare lexicographically.
pub open spec fn ident_lt(a: Seq<char>, b: Seq<char>) -> bool {
    if ident_is_num(a) && ident_is_num(b) {
        a.len() < b.len() || (a.len() == b.len() && chars_lt(a, b))
    } else if ident_is_num(a) {
        true
    } else if ident_is_num(b) {
        false
    } else {
        chars_lt(a, b)
    }
}

/// Order on whole pre-release identifier lists: identifier by identifier,
/// and a strict prefix orders first.
pub open spec fn idents_lt(a: Seq<Seq<char>>, b: Seq<Seq<char>>) -> bool
    decreases a.len(),
{
    if a.len() == 0 {
        b.len() > 0
    } else if b.len() == 0 {
        false
    } else if a[0] == b[0] {
        idents_lt(a.drop_first(), b.drop_first())
    } else {
        ident_lt(a[0], b[0])
    }
}

/// Strict semantic-version precedence: major, then minor, then patch; a
/// pre-release orders below the release it precedes; two pre-releases of the
/// same triple compare by their identifier lists.
pub open spec fn version_lt(a: VersionView, b: VersionView) -> bool {
    if a.major != b.major {
        a.major < b.major
    } else if a.minor != b.minor {
        a.minor < b.minor
    } else if a.patch != b.patch {
        a.patch < b.patch
    } else if a.pre.len() > 0 && b.pre.len() == 0 {
        true
    } else if a.pre.len() == 0 {
        false
    } else {
        idents_lt(a.pre, b.pre)
    }
}

fn ident_is_num_exec(s: &str) -> (r: bool)
    ensures
        r == ident_is_num(s@),
{
    let len = s.unicode_len();
    if len == 0 {
        return false;
    }
    let mut i: usize = 0;
    while i < len
        invariant
            len == s@.len(),
            i <= len,
            forall|j: int| 0 <= j < i ==> 48 <= (#[trigger] s@[j]) as u32 <= 57,
        decreases len - i,
    {
        let c = s.get_char(i);
        let cu = c as u32;
        if cu < 48 || cu > 57 {
            return false;
        }
        i = i + 1;
    }
    true
}

fn chars_lt_exec(a: &str, b: &str, i: usize) -> (r: bool)
    requires
        i <= a@.len(),
        i <= b@.len(),
    ensures
        r == chars_lt(a@.skip(i as int), b@.skip(i as int)),
    decreases a@.len() - i,
{
    let blen = b.unicode_len();
    if i == blen {
        return false;
    }
    let alen = a.unicode_len();
    if i == alen {
        return true;
    }
    let ca = a.get_char(i);
    let cb = b.get_char(i);
    if ca == cb {
        let r = chars_lt_exec(a, b, i + 1);
        proof {
            assert(a@.skip(i as int).drop_first() =~= a@.skip(i as int + 1));
            assert(b@.skip(i as int).drop_first() =~= b@.skip(i as int + 1));
        }
        r
    } else {
        (ca as u32) < (cb as u32)
    }
}

fn ident_lt_exec(a: &str, b: &str) -> (r: bool)
    ensures
        r == ident_lt(a@, b@),
{
    proof {
        assert(a@.skip(0) =~= a@);
        assert(b@.skip(0) =~= b@);
    }
    let an = ident_is_num_exec(a);
    let bn = ident_is_num_exec(b);
    if an && bn {
        let alen = a.unicode_len();
        let blen = b.unicode_len();
        if alen != blen {
            alen < blen
        } else {
            chars_lt_exec(a, b, 0)
        }
    } else if an {
        true
    } else if bn {
        false
    } else {
        chars_lt_exec(a, b, 0)
    }
}

fn idents_lt_exec(a: &Vec<String>, b: &Vec<String>, i: usize) -> (r: bool)
    requires
        i <= a.len(),
        i <= b.len(),
    ensures
        r == idents_lt(a.deep_view().skip(i as int), b.deep_view().skip(i as int)),
    decreases a.len() - i,
{
    if i == b.len() {
        return false;
    }
    if i == a.len() {
        return true;
    }
    if a[i] == b[i] {
        let r = idents_lt_exec(a, b, i + 1);
        proof {
            assert(a.deep_view().skip(i as int).drop_first() =~= a.deep_view().skip(i as int + 1));
            assert(b.deep_view().skip(i as int).drop_first() =~= b.deep_view().skip(i as int + 1));
        }
        r
    } else {
        ident_lt_exec(a[i].as_str(), b[i].as_str())
    }
}

/// Decides strict precedence between two versions.
pub fn version_lt_exec(a: &Version, b: &Version) -> (r: bool)
    ensures
        r == version_lt(a@, b@),
{
    if a.major != b.major {
        a.major < b.major
    } else if a.minor != b.minor {
        a.minor < b.minor
    } else if a.patch != b.patch {
        a.patch < b.patch
    } else if a.pre.len() > 0 && b.pre.len() == 0 {
        true
    } else if a.pre.len() == 0 {
        false
    } else {
        proof {
            assert(a.pre.deep_view().skip(0) =~= a.pre.deep_view());
            assert(b.pre.deep_view().skip(0) =~= b.pre.deep_view());
        }
        idents_lt_exec(&a.pre, &b.pre, 0)
    }
}

// ---------------------------------------------------------------------------
// Order lemmas
// ---------------------------------------------------------------------------

proof fn lemma_chars_lt_irrefl(a: Seq<char>)
    ensures
        !chars_lt(a, a),
    decreases a.len(),
{
    if a.len() > 0 {
        lemma_chars_lt_irrefl(a.drop_first());
    }
}

proof fn lemma_chars_lt_trans(a: Seq<char>, b: Seq<char>, c: Seq<char>)
    requires
        chars_lt(a, b),
        chars_lt(b, c),
    ensures
        chars_lt(a, c),
    decreases a.len(),
{
    if a.len() > 0 && b.len() > 0 && c.len() > 0 {
        if a[0] == b[0] && b[0] == c[0] {
            lemma_chars_lt_trans(a.drop_first(), b.drop_first(), c.drop_first());
        }
    }
}

proof fn lemma_ident_lt_irrefl(a: Seq<char>)
    ensures
        !ident_lt(a, a),
{
    lemma_chars_lt_irrefl(a);
}

proof fn lemma_ident_lt_trans(a: Seq<char>, b: Seq<char>, c: Seq<char>)
    requires
        ident_lt(a, b),
        ident_lt(b, c),
    ensures
        ident_lt(a, c),
{
    if !ident_is_num(a) || !ident_is_num(b) || !ident_is_num(c) {
        if ident_is_num(a) && ident_is_num(b) {
            // c must be alphanumeric, and a numeric identifier orders first.
        } else if !ident_is_num(a) {
            // b and c must be alphanumeric too.
            lemma_chars_lt_trans(a, b, c);
        }
    } else {
        if a.len() == b.len() && b.len() == c.len() {
            lemma_chars_lt_trans(a, b, c);
        }
    }
}

proof fn lemma_idents_lt_trans(a: Seq<Seq<char>>, b: Seq<Seq<char>>, c: Seq<Seq<char>>)
    requires
        idents_lt(a, b),
        idents_lt(b, c),
    ensures
        idents_lt(a, c),
    decreases a.len(),
{
    if a.len() > 0 && b.len() > 0 && c.len() > 0 {
        if a[0] == b[0] && b[0] == c[0] {
            lemma_idents_lt_trans(a.drop_first(), b.drop_first(), c.drop_first());
        } else if a[0] == b[0] {
            // a[0] and c[0] differ: a[0] == b[0] but b[0] != c[0].
        } else if b[0] == c[0] {
        } else {
            lemma_ident_lt_trans(a[0], b[0], c[0]);
            if a[0] == c[0] {
                lemma_ident_lt_irrefl(a[0]);
            }
        }
    }
}

proof fn lemma_idents_lt_irrefl(a: Seq<Seq<char>>)
    ensures
        !idents_lt(a, a),
    decreases a.len(),
{
    if a.len() > 0 {
        lemma_idents_lt_irrefl(a.drop_first());
    }
}

/// No version precedes itself.
pub proof fn lemma_version_lt_irrefl(a: VersionView)
    ensures
        !version_lt(a, a),
{
    if a.pre.len() > 0 {
        lemma_idents_lt_irrefl(a.pre);
    }
}

/// The precedence order is transitive.
pub proof fn lemma_version_lt_trans(a: VersionView, b: VersionView, c: VersionView)
    requires
        version_lt(a, b),
        version_lt(b, c),
    ensures
        version_lt(a, c),
{
    if a.major == b.major && b.major == c.major && a.minor == b.minor && b.minor == c.minor
        && a.patch == b.patch && b.patch == c.patch {
        if a.pre.len() > 0 && b.pre.len() > 0 && c.pre.len() > 0 {
            lemma_idents_lt_trans(a.pre, b.pre, c.pre);
        }
    }
}

// ---------------------------------------------------------------------------
// Bump policy
// ---------------------------------------------------------------------------

/// The version after a change. Pre-1.0, a breaking change raises the minor
/// component; from 1.0 on it raises the major component; a non-breaking
/// change raises the patch component. Lower components are reset and any
/// pre-release or build part is dropped.
pub open spec fn bump_spec(v: VersionView, breaking: bool) -> VersionView {
    if breaking && v.major == 0 {
        VersionView { major: 0, minor: v.minor + 1, patch: 0, pre: Seq::empty(), build: Seq::empty() }
    } else if breaking {
        VersionView { major: v.major + 1, minor: 0, patch: 0, pre: Seq::empty(), build: Seq::empty() }
    } else {
        VersionView {
            major: v.major,
            minor: v.minor,
            patch: v.patch + 1,
            pre: Seq::empty(),
            build: Seq::empty(),
        }
    }
}

/// The bumped component stays representable in a machine word.
pub open spec fn bump_fits(v: VersionView, breaking: bool) -> bool {
    if breaking && v.major == 0 {
        v.minor < u64::MAX
    } else if breaking {
        v.major < u64::MAX
    } else {
        v.patch < u64::MAX
    }
}

/// Applies the bump policy to a previous version.
pub fn calc_bumped_version(v: &Version, breaking: bool) -> (r: Version)
    requires
        bump_fits(v@, breaking),
    ensures
        r@ == bump_spec(v@, breaking),
{
    let r = if breaking && v.major == 0 {
        Version::new(0, v.minor + 1, 0)
    } else if breaking {
        Version::new(v.major + 1, 0, 0)
    } else {
        Version::new(v.major, v.minor, v.patch + 1)
    };
    proof {
        assert(r@ =~= bump_spec(v@, breaking));
    }
    r
}

// ---------------------------------------------------------------------------
// Textual form
// ---------------------------------------------------------------------------

/// The decimal digit character for `d`.
pub open spec fn digit_char(d: int) -> char {
    if d == 0 {
        '0'
    } else if d == 1 {
        '1'
    } else if d == 2 {
        '2'
    } else if d == 3 {
        '3'
    } else if d == 4 {
        '4'
    } else if d == 5 {
        '5'
    } else if d == 6 {
        '6'
    } else if d == 7 {
        '7'
    } else if d == 8 {
        '8'
    } else {
        '9'
    }
}

/// The decimal digits of a nonnegative number.
pub open spec fn dec_of(n: int) -> Seq<char>
    recommends
        n >= 0,
    decreases n,
{
    if n < 10 {
        seq![digit_char(n)]
    } else {
        dec_of(n / 10).push(digit_char(n % 10))
    }
}

/// The dot-separated pre-release identifiers.
pub open spec fn join_dot_idents(parts: Seq<Seq<char>>) -> Seq<char>
    decreases parts.len(),
{
    if parts.len() == 0 {
        Seq::empty()
    } else if parts.len() == 1 {
        parts[0]
    } else {
        join_dot_idents(parts.drop_last()) + seq!['.'] + parts.last()
    }
}

/// The canonical text of a version: the dotted release triple, `-` and the
/// pre-release identifiers when present, `+` and the build metadata when
/// present.
pub open spec fn version_str(v: VersionView) -> Seq<char> {
    let core = dec_of(v.major) + seq!['.'] + dec_of(v.minor) + seq!['.'] + dec_of(v.patch);
    let with_pre = if v.pre.len() > 0 {
        core + seq!['-'] + join_dot_idents(v.pre)
    } else {
        core
    };
    if v.build.len() > 0 {
        with_pre + seq!['+'] + v.build
    } else {
        with_pre
    }
}

fn digit_str(d: u64) -> (r: &'static str)
    requires
        d < 10,
    ensures
        r@ == seq![digit_char(d as int)],
{
    proof {
        reveal_strlit("0");
        reveal_strlit("1");
        reveal_strlit("2");
        reveal_strlit("3");
        reveal_strlit("4");
        reveal_strlit("5");
        reveal_strlit("6");
        reveal_strlit("7");
        reveal_strlit("8");
        reveal_strlit("9");
    }
    let r = match d {
        0 => "0",
        1 => "1",
        2 => "2",
        3 => "3",
        4 => "4",
        5 => "5",
        6 => "6",
        7 => "7",
        8 => "8",
        _ => "9",
    };
    proof {
        assert(r@ =~= seq![digit_char(d as int)]);
    }
    r
}

fn u64_to_dec(n: u64) -> (s: String)
    ensures
        s@ == dec_of(n as int),
    decreases n,
{
    if n < 10 {
        digit_str(n).to_owned()
    } else {
        let mut s = u64_to_dec(n / 10);
        s.append(digit_str(n % 10));
        proof {
            assert(s@ =~= dec_of(n as int));
        }
        s
    }
}

/// Renders a version in its canonical textual form.
pub fn version_to_string(v: &Version) -> (s: String)
    ensures
        s@ == version_str(v@),
{
    proof {
        reveal_strlit(".");
        reveal_strlit("-");
        reveal_strlit("+");
    }
    let mut s = u64_to_dec(v.major);
    s.append(".");
    let minor = u64_to_dec(v.minor);
    s.append(minor.as_str());
    s.append(".");
    let patch = u64_to_dec(v.patch);
    s.append(patch.as_str());
    let ghost core = dec_of(v@.major) + seq!['.'] + dec_of(v@.minor) + seq!['.'] + dec_of(
        v@.patch,
    );
    proof {
        assert(s@ =~= core);
    }
    if v.pre.len() > 0 {
        s.append("-");
        let ghost base = core + seq!['-'];
        proof {
            assert(s@ =~= base);
            assert(s@ =~= base + join_dot_idents(v@.pre.take(0)));
        }
        let mut i: usize = 0;
        while i < v.pre.len()
            invariant
                i <= v.pre.len(),
                v@.pre.len() == v.pre@.len(),
                forall|j: int| 0 <= j < v.pre@.len() ==> v@.pre[j] == (#[trigger] v.pre@[j])@,
                s@ == base + join_dot_idents(v@.pre.take(i as int)),
            decreases v.pre.len() - i,
        {
            if i > 0 {
                s.append(".");
            }
            s.append(v.pre[i].as_str());
            proof {
                reveal_strlit(".");
                let taken = v@.pre.take(i as int + 1);
                assert(taken.drop_last() =~= v@.pre.take(i as int));
                assert(taken.last() == v@.pre[i as int]);
                if i == 0 {
                    assert(join_dot_idents(taken) == taken[0]);
                    assert(base + join_dot_idents(v@.pre.take(0)) =~= base);
                }
                assert(s@ =~= base + join_dot_idents(taken));
            }
            i = i + 1;
        }
        proof {
            assert(v@.pre.take(v.pre@.len() as int) =~= v@.pre);
        }
    }
    if v.build.as_str().unicode_len() > 0 {
        s.append("+");
        s.append(v.build.as_str());
    }
    proof {
        assert(s@ =~= version_str(v@));
    }
    s
}

/// The bump policy always yields a strictly greater version: whichever
/// component is raised dominates the precedence comparison, and dropping a
/// pre-release part only moves the result further up.
pub proof fn lemma_bump_strictly_greater(v: VersionView, breaking: bool)
    ensures
        version_lt(v, bump_spec(v, breaking)),
{
}

} // verus!
