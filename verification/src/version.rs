//! The semantic-version model: what a version text denotes, and the
//! precedence order on denoted versions (major, then minor, then patch,
//! then pre-release identifiers).
//!
//! Parsing of version texts and of range constraints is delegated to the
//! `semver` crate behind a small trusted boundary; the precedence order is
//! defined and proved here, because the resolver's contracts need its
//! algebra (totality and transitivity), which no outside call can supply.

use vstd::prelude::*;

verus! {

// ---------------------------------------------------------------------------
// Trusted boundary around the `semver` crate
// ---------------------------------------------------------------------------

/// What `semver::Version::parse` yields on a text: the three numeric
/// components and the pre-release text, or nothing where the text is not a
/// valid semantic version. Build metadata is not part of precedence and is
/// not kept.
pub uninterp spec fn sem_parse(s: Seq<char>) -> Option<(u64, u64, u64, Seq<char>)>;

/// Whether `semver::VersionReq::parse` accepts a text as a version range.
pub uninterp spec fn req_valid(s: Seq<char>) -> bool;

/// Whether the range denoted by a valid range text matches the version
/// denoted by a valid version text, as `semver::VersionReq::matches` decides.
pub uninterp spec fn req_matches(c: Seq<char>, v: Seq<char>) -> bool;

/// Relies on `semver::Version::parse`: the result is determined by the text
/// alone; `None` exactly where the text is not a semantic version. On success
/// the major, minor and patch numbers and the pre-release text are returned;
/// build metadata is dropped.
#[verifier::external_body]
fn parse_version_parts(s: &str) -> (r: Option<(u64, u64, u64, String)>)
    ensures
        r is Some <==> sem_parse(s@) is Some,
        r matches Some(t) ==> sem_parse(s@) == Some((t.0, t.1, t.2, t.3@)),
{
    match semver::Version::parse(s) {
        Ok(v) => Some((v.major, v.minor, v.patch, v.pre.as_str().to_owned())),
        Err(_) => None,
    }
}

/// Relies on `semver::VersionReq::parse`: whether the text is a valid range,
/// determined by the text alone.
#[verifier::external_body]
pub fn constraint_parses(s: &str) -> (r: bool)
    ensures
        r == req_valid(s@),
{
    semver::VersionReq::parse(s).is_ok()
}

/// Relies on `semver::VersionReq::matches`, applied to the parsed range and
/// the parsed version. Both texts are required to parse, so neither `unwrap`
/// can panic, and the answer is determined by the two texts alone.
#[verifier::external_body]
pub(crate) fn constraint_matches(c: &str, v: &str) -> (r: bool)
    requires
        req_valid(c@),
        sem_parse(v@) is Some,
    ensures
        r == req_matches(c@, v@),
{
    let req = semver::VersionReq::parse(c).unwrap();
    let ver = semver::Version::parse(v).unwrap();
    req.matches(&ver)
}

// ---------------------------------------------------------------------------
// The version model and its precedence order
// ---------------------------------------------------------------------------

/// A parsed version as the library reasons about it: the numeric components
/// and the pre-release identifiers (the dot-separated fields of the
/// pre-release text; empty when the version is a plain release).
pub struct SemVer {
    pub major: u64,
    pub minor: u64,
    pub patch: u64,
    pub pre: Vec<String>,
}

/// The mathematical value of a [`SemVer`].
pub struct VerKey {
    pub major: u64,
    pub minor: u64,
    pub patch: u64,
    pub pre: Seq<Seq<char>>,
}

impl SemVer {
    pub open spec fn key(self) -> VerKey {
        VerKey {
            major: self.major,
            minor: self.minor,
            patch: self.patch,
            pre: self.pre.deep_view(),
        }
    }
}

pub open spec fn dig(c: char) -> bool {
    '0' <= c && c <= '9'
}

/// An identifier made of digits alone is compared numerically.
pub open spec fn is_num_ident(s: Seq<char>) -> bool {
    forall|i: int| 0 <= i < s.len() ==> dig(#[trigger] s[i])
}

/// Strict lexicographic order on character sequences, by code point.
pub open spec fn lex_lt(a: Seq<char>, b: Seq<char>) -> bool
    decreases a.len(),
{
    if b.len() == 0 {
        false
    } else if a.len() == 0 {
        true
    } else if a[0] != b[0] {
        (a[0] as u32) < (b[0] as u32)
    } else {
        lex_lt(a.drop_first(), b.drop_first())
    }
}

/// Numeric order on digit strings without leading zeros: a shorter string
/// denotes a smaller number, equal lengths compare digit by digit.
pub open spec fn num_lt(a: Seq<char>, b: Seq<char>) -> bool {
    a.len() < b.len() || (a.len() == b.len() && lex_lt(a, b))
}

/// Order on single pre-release identifiers: numeric ones compare numerically
/// and precede alphanumeric ones; alphanumeric ones compare lexically.
pub open spec fn ident_lt(a: Seq<char>, b: Seq<char>) -> bool {
    if is_num_ident(a) && is_num_ident(b) {
        num_lt(a, b)
    } else if is_num_ident(a) {
        true
    } else if is_num_ident(b) {
        false
    } else {
        lex_lt(a, b)
    }
}

/// Order on identifier lists: field by field, a shorter list preceding any
/// extension of itself.
pub open spec fn idents_lt(a: Seq<Seq<char>>, b: Seq<Seq<char>>) -> bool
    decreases a.len(),
{
    if a.len() == 0 {
        b.len() > 0
    } else if b.len() == 0 {
        false
    } else if a[0] == b[0] {
        idents_lt(a.drop_first(), b.drop_first())
    } else {
        ident_lt(a[0], b[0])
    }
}

/// Order on pre-release components: a version with a pre-release precedes the
/// plain release, and two pre-releases compare by their identifier lists.
pub open spec fn pre_lt(a: Seq<Seq<char>>, b: Seq<Seq<char>>) -> bool {
    if a.len() == 0 {
        false
    } else if b.len() == 0 {
        true
    } else {
        idents_lt(a, b)
    }
}

/// Semantic-version precedence: major, then minor, then patch, then the
/// pre-release component.
pub open spec fn key_lt(a: VerKey, b: VerKey) -> bool {
    if a.major != b.major {
        a.major < b.major
    } else if a.minor != b.minor {
        a.minor < b.minor
    } else if a.patch != b.patch {
        a.patch < b.patch
    } else {
        pre_lt(a.pre, b.pre)
    }
}

// ---------------------------------------------------------------------------
// The order's algebra
// ---------------------------------------------------------------------------

proof fn lemma_char_code_inj(x: char, y: char)
    requires
        x as u32 == y as u32,
    ensures
        x == y,
{
}

pub proof fn lemma_lex_irrefl(a: Seq<char>)
    ensures
        !lex_lt(a, a),
    decreases a.len(),
{
    if a.len() > 0 {
        lemma_lex_irrefl(a.drop_first());
    }
}

pub proof fn lemma_lex_connex(a: Seq<char>, b: Seq<char>)
    requires
        !lex_lt(a, b),
        !lex_lt(b, a),
    ensures
        a == b,
    decreases a.len(),
{
    if a.len() == 0 || b.len() == 0 {
        assert(a =~= b);
    } else if a[0] != b[0] {
        lemma_char_code_inj(a[0], b[0]);
    } else {
        assert(lex_lt(a, b) == lex_lt(a.drop_first(), b.drop_first()));
        assert(lex_lt(b, a) == lex_lt(b.drop_first(), a.drop_first()));
        lemma_lex_connex(a.drop_first(), b.drop_first());
        assert(a.drop_first() == b.drop_first());
        assert(a.len() == b.len());
        assert forall|i: int| 0 <= i < a.len() implies a[i] == b[i] by {
            if i > 0 {
                assert(a[i] == a.drop_first()[i - 1]);
                assert(b[i] == b.drop_first()[i - 1]);
            }
        }
        assert(a =~= b);
    }
}

pub proof fn lemma_lex_trans(a: Seq<char>, b: Seq<char>, c: Seq<char>)
    requires
        lex_lt(a, b),
        lex_lt(b, c),
    ensures
        lex_lt(a, c),
    decreases a.len(),
{
    if b.len() == 0 || c.len() == 0 {
        // lex_lt(b, c) forces c nonempty; lex_lt(a, b) forces b nonempty.
    } else if a.len() == 0 {
    } else {
        if a[0] == b[0] {
            if b[0] == c[0] {
                lemma_lex_trans(a.drop_first(), b.drop_first(), c.drop_first());
            }
        } else {
            if b[0] == c[0] {
            } else {
                if a[0] == c[0] {
                    assert(false);
                }
            }
        }
    }
}

pub proof fn lemma_num_connex(a: Seq<char>, b: Seq<char>)
    requires
        !num_lt(a, b),
        !num_lt(b, a),
    ensures
        a == b,
{
    lemma_lex_connex(a, b);
}

pub proof fn lemma_num_trans(a: Seq<char>, b: Seq<char>, c: Seq<char>)
    requires
        num_lt(a, b),
        num_lt(b, c),
    ensures
        num_lt(a, c),
{
    if a.len() == b.len() && b.len() == c.len() {
        lemma_lex_trans(a, b, c);
    }
}

pub proof fn lemma_ident_irrefl(a: Seq<char>)
    ensures
        !ident_lt(a, a),
{
    lemma_lex_irrefl(a);
}

pub proof fn lemma_ident_connex(a: Seq<char>, b: Seq<char>)
    requires
        !ident_lt(a, b),
        !ident_lt(b, a),
    ensures
        a == b,
{
    if is_num_ident(a) && is_num_ident(b) {
        lemma_num_connex(a, b);
    } else if !is_num_ident(a) && !is_num_ident(b) {
        lemma_lex_connex(a, b);
    }
}

pub proof fn lemma_ident_trans(a: Seq<char>, b: Seq<char>, c: Seq<char>)
    requires
        ident_lt(a, b),
        ident_lt(b, c),
    ensures
        ident_lt(a, c),
{
    if is_num_ident(a) && is_num_ident(b) && is_num_ident(c) {
        lemma_num_trans(a, b, c);
    } else if !is_num_ident(a) && !is_num_ident(b) && !is_num_ident(c) {
        lemma_lex_trans(a, b, c);
    }
}

pub proof fn lemma_idents_irrefl(a: Seq<Seq<char>>)
    ensures
        !idents_lt(a, a),
    decreases a.len(),
{
    if a.len() > 0 {
        lemma_idents_irrefl(a.drop_first());
    }
}

pub proof fn lemma_idents_connex(a: Seq<Seq<char>>, b: Seq<Seq<char>>)
    requires
        !idents_lt(a, b),
        !idents_lt(b, a),
    ensures
        a == b,
    decreases a.len(),
{
    if a.len() == 0 || b.len() == 0 {
        assert(a =~= b);
    } else if a[0] == b[0] {
        lemma_idents_connex(a.drop_first(), b.drop_first());
        assert(a.len() == b.len());
        assert forall|i: int| 0 <= i < a.len() implies a[i] == b[i] by {
            if i > 0 {
                assert(a[i] == a.drop_first()[i - 1]);
                assert(b[i] == b.drop_first()[i - 1]);
            }
        }
        assert(a =~= b);
    } else {
        lemma_ident_connex(a[0], b[0]);
        assert(false);
    }
}

pub proof fn lemma_idents_trans(a: Seq<Seq<char>>, b: Seq<Seq<char>>, c: Seq<Seq<char>>)
    requires
        idents_lt(a, b),
        idents_lt(b, c),
    ensures
        idents_lt(a, c),
    decreases a.len(),
{
    if a.len() == 0 {
        // idents_lt(b, c) forces c nonempty.
    } else {
        // idents_lt(a, b) forces b nonempty, idents_lt(b, c) forces c nonempty.
        if a[0] == b[0] {
            if b[0] == c[0] {
                lemma_idents_trans(a.drop_first(), b.drop_first(), c.drop_first());
            }
        } else {
            if b[0] == c[0] {
            } else {
                if a[0] == c[0] {
                    lemma_ident_trans(a[0], b[0], c[0]);
                    lemma_ident_irrefl(a[0]);
                } else {
                    lemma_ident_trans(a[0], b[0], c[0]);
                }
            }
        }
    }
}

pub proof fn lemma_pre_irrefl(a: Seq<Seq<char>>)
    ensures
        !pre_lt(a, a),
{
    lemma_idents_irrefl(a);
}

pub proof fn lemma_pre_connex(a: Seq<Seq<char>>, b: Seq<Seq<char>>)
    requires
        !pre_lt(a, b),
        !pre_lt(b, a),
    ensures
        a == b,
{
    if a.len() == 0 && b.len() == 0 {
        assert(a =~= b);
    } else if a.len() > 0 && b.len() > 0 {
        lemma_idents_connex(a, b);
    }
}

pub proof fn lemma_pre_trans(a: Seq<Seq<char>>, b: Seq<Seq<char>>, c: Seq<Seq<char>>)
    requires
        pre_lt(a, b),
        pre_lt(b, c),
    ensures
        pre_lt(a, c),
{
    if a.len() > 0 && b.len() > 0 && c.len() > 0 {
        lemma_idents_trans(a, b, c);
    }
}

pub proof fn lemma_key_irrefl(a: VerKey)
    ensures
        !key_lt(a, a),
{
    lemma_pre_irrefl(a.pre);
}

/// Two keys neither of which precedes the other are equal: the precedence
/// order is total on version values.
pub proof fn lemma_key_connex(a: VerKey, b: VerKey)
    requires
        !key_lt(a, b),
        !key_lt(b, a),
    ensures
        a == b,
{
    lemma_pre_connex(a.pre, b.pre);
}

pub proof fn lemma_key_trans(a: VerKey, b: VerKey, c: VerKey)
    requires
        key_lt(a, b),
        key_lt(b, c),
    ensures
        key_lt(a, c),
{
    if a.major == b.major && b.major == c.major && a.minor == b.minor && b.minor == c.minor
        && a.patch == b.patch && b.patch == c.patch {
        lemma_pre_trans(a.pre, b.pre, c.pre);
    }
}

/// The step a maximum-selection loop needs: what did not exceed the old best
/// does not exceed a new, strictly larger best either.
pub proof fn lemma_key_le_step(s: VerKey, best: VerKey, t: VerKey)
    requires
        !key_lt(best, s),
        key_lt(best, t),
    ensures
        !key_lt(t, s),
{
    if key_lt(t, s) {
        lemma_key_trans(best, t, s);
    }
}

// ---------------------------------------------------------------------------
// Executable comparisons
// ---------------------------------------------------------------------------

pub fn lex_lt_exec(a: &str, b: &str) -> (r: bool)
    ensures
        r == lex_lt(a@, b@),
{
    let la: usize = a.unicode_len();
    let lb: usize = b.unicode_len();
    let mut i: usize = 0;
    proof {
        assert(a@.skip(0) =~= a@);
        assert(b@.skip(0) =~= b@);
    }
    while i < la && i < lb
        invariant
            la == a@.len(),
            lb == b@.len(),
            i <= la,
            i <= lb,
            lex_lt(a@, b@) == lex_lt(a@.skip(i as int), b@.skip(i as int)),
        decreases la - i,
    {
        let ca = a.get_char(i);
        let cb = b.get_char(i);
        proof {
            assert(a@.skip(i as int)[0] == a@[i as int]);
            assert(b@.skip(i as int)[0] == b@[i as int]);
        }
        if ca as u32 != cb as u32 {
            proof {
                if ca != cb {
                } else {
                    assert(false);
                }
            }
            return (ca as u32) < (cb as u32);
        }
        proof {
            lemma_char_code_inj(ca, cb);
            assert(a@.skip(i as int).drop_first() =~= a@.skip(i as int + 1));
            assert(b@.skip(i as int).drop_first() =~= b@.skip(i as int + 1));
        }
        i = i + 1;
    }
    proof {
        assert(a@.skip(i as int).len() == la - i);
        assert(b@.skip(i as int).len() == lb - i);
    }
    i < lb
}

pub fn is_num_ident_exec(s: &str) -> (r: bool)
    ensures
        r == is_num_ident(s@),
{
    let n: usize = s.unicode_len();
    let mut i: usize = 0;
    while i < n
        invariant
            n == s@.len(),
            i <= n,
            forall|j: int| 0 <= j < i ==> dig(#[trigger] s@[j]),
        decreases n - i,
    {
        let c = s.get_char(i);
        let cu = c as u32;
        if cu < 48 || cu > 57 {
            proof {
                assert(('0' as u32) == 48 && ('9' as u32) == 57);
                assert(!dig(s@[i as int]));
            }
            return false;
        }
        proof {
            assert(('0' as u32) == 48 && ('9' as u32) == 57);
            assert(dig(s@[i as int]));
        }
        i = i + 1;
    }
    true
}

pub fn ident_lt_exec(a: &str, b: &str) -> (r: bool)
    ensures
        r == ident_lt(a@, b@),
{
    let a_num = is_num_ident_exec(a);
    let b_num = is_num_ident_exec(b);
    if a_num && b_num {
        let la: usize = a.unicode_len();
        let lb: usize = b.unicode_len();
        if la != lb {
            la < lb
        } else {
            lex_lt_exec(a, b)
        }
    } else if a_num {
        true
    } else if b_num {
        false
    } else {
        lex_lt_exec(a, b)
    }
}

pub fn idents_lt_exec(a: &Vec<String>, b: &Vec<String>) -> (r: bool)
    ensures
        r == idents_lt(a.deep_view(), b.deep_view()),
{
    let ghost adv = a.deep_view();
    let ghost bdv = b.deep_view();
    let mut i: usize = 0;
    proof {
        assert(adv.skip(0) =~= adv);
        assert(bdv.skip(0) =~= bdv);
    }
    loop
        invariant
            i <= a.len(),
            i <= b.len(),
            adv == a.deep_view(),
            bdv == b.deep_view(),
            adv.len() == a.len(),
            bdv.len() == b.len(),
            idents_lt(adv, bdv) == idents_lt(adv.skip(i as int), bdv.skip(i as int)),
        decreases a.len() - i,
    {
        proof {
            assert(adv.skip(i as int).len() == adv.len() - i);
            assert(bdv.skip(i as int).len() == bdv.len() - i);
        }
        if i == a.len() {
            return i < b.len();
        }
        if i == b.len() {
            return false;
        }
        proof {
            assert(adv.skip(i as int)[0] == adv[i as int]);
            assert(bdv.skip(i as int)[0] == bdv[i as int]);
            assert(adv[i as int] == a@[i as int]@);
            assert(bdv[i as int] == b@[i as int]@);
        }
        if a[i] == b[i] {
            proof {
                assert(adv.skip(i as int).drop_first() =~= adv.skip(i as int + 1));
                assert(bdv.skip(i as int).drop_first() =~= bdv.skip(i as int + 1));
            }
            i = i + 1;
        } else {
            return ident_lt_exec(a[i].as_str(), b[i].as_str());
        }
    }
}

/// Decide precedence between two parsed versions.
pub fn ver_lt_exec(a: &SemVer, b: &SemVer) -> (r: bool)
    ensures
        r == key_lt(a.key(), b.key()),
{
    proof {
        assert(a.pre.deep_view().len() == a.pre@.len());
        assert(b.pre.deep_view().len() == b.pre@.len());
    }
    if a.major != b.major {
        a.major < b.major
    } else if a.minor != b.minor {
        a.minor < b.minor
    } else if a.patch != b.patch {
        a.patch < b.patch
    } else if a.pre.len() == 0 {
        false
    } else if b.pre.len() == 0 {
        true
    } else {
        idents_lt_exec(&a.pre, &b.pre)
    }
}

// ---------------------------------------------------------------------------
// Splitting a pre-release text into its identifiers
// ---------------------------------------------------------------------------

/// The dot-separated fields of a text, as `split('.')` lists them: always at
/// least one field, empty fields kept.
pub open spec fn split_idents(s: Seq<char>) -> Seq<Seq<char>>
    decreases s.len(),
{
    if s.len() == 0 {
        seq![Seq::<char>::empty()]
    } else if s[0] == '.' {
        seq![Seq::<char>::empty()] + split_idents(s.drop_first())
    } else {
        let rest = split_idents(s.drop_first());
        seq![seq![s[0]] + rest[0]] + rest.drop_first()
    }
}

pub proof fn lemma_split_nonempty(s: Seq<char>)
    ensures
        split_idents(s).len() >= 1,
    decreases s.len(),
{
    if s.len() > 0 {
        lemma_split_nonempty(s.drop_first());
    }
}

/// Peeling a dot-free prefix off the front: the first field of the split is
/// that prefix joined with the first field of the remainder's split.
proof fn lemma_split_prefix(s: Seq<char>, k: int)
    requires
        0 <= k <= s.len(),
        forall|j: int| 0 <= j < k ==> s[j] != '.',
    ensures
        split_idents(s) == seq![s.subrange(0, k) + split_idents(s.skip(k))[0]]
            + split_idents(s.skip(k)).drop_first(),
    decreases k,
{
    lemma_split_nonempty(s);
    if k == 0 {
        assert(s.skip(0) =~= s);
        assert(s.subrange(0, 0) + split_idents(s)[0] =~= split_idents(s)[0]);
        assert(seq![split_idents(s)[0]] + split_idents(s).drop_first() =~= split_idents(s));
    } else {
        let d = s.drop_first();
        assert(d =~= s.skip(1));
        lemma_split_prefix(d, k - 1);
        lemma_split_nonempty(d.skip(k - 1));
        assert(d.subrange(0, k - 1) =~= s.subrange(1, k));
        assert(d.skip(k - 1) =~= s.skip(k));
        let rest = split_idents(d);
        assert(rest == seq![s.subrange(1, k) + split_idents(s.skip(k))[0]]
            + split_idents(s.skip(k)).drop_first());
        assert(rest[0] == s.subrange(1, k) + split_idents(s.skip(k))[0]);
        assert(rest.drop_first() =~= split_idents(s.skip(k)).drop_first());
        assert(seq![s[0]] + rest[0] =~= s.subrange(0, k) + split_idents(s.skip(k))[0]);
    }
}

/// Split a text on `'.'`, as the pre-release grammar reads it.
pub fn split_idents_exec(s: &str) -> (r: Vec<String>)
    ensures
        r.deep_view() == split_idents(s@),
{
    let n: usize = s.unicode_len();
    let mut out: Vec<String> = Vec::new();
    let mut start: usize = 0;
    let mut i: usize = 0;
    proof {
        assert(s@.skip(0) =~= s@);
        assert(out.deep_view() =~= Seq::<Seq<char>>::empty());
        assert(Seq::<Seq<char>>::empty() + split_idents(s@) =~= split_idents(s@));
    }
    while i < n
        invariant
            start <= i <= n,
            n == s@.len(),
            forall|j: int| start <= j < i ==> s@[j] != '.',
            split_idents(s@) == out.deep_view() + split_idents(s@.skip(start as int)),
        decreases n - i,
    {
        let c = s.get_char(i);
        if c as u32 == 46 {
            proof {
                assert(('.' as u32) == 46);
                lemma_char_code_inj(c, '.');
            }
            let piece = s.substring_char(start, i);
            let ghost old_out = out.deep_view();
            out.push(String::from_str(piece));
            proof {
                let t = s@.skip(start as int);
                let k = i - start;
                assert(forall|j: int| 0 <= j < k ==> t[j] == s@[start + j] && t[j] != '.');
                lemma_split_prefix(t, k);
                assert(t.subrange(0, k) =~= s@.subrange(start as int, i as int));
                assert(t.skip(k) =~= s@.skip(i as int));
                let u = s@.skip(i as int);
                assert(u[0] == '.');
                assert(u.drop_first() =~= s@.skip(i as int + 1));
                assert(split_idents(u) == seq![Seq::<char>::empty()] + split_idents(
                    s@.skip(i as int + 1),
                ));
                assert(split_idents(u)[0] =~= Seq::<char>::empty());
                assert(split_idents(u).drop_first() =~= split_idents(s@.skip(i as int + 1)));
                assert(t.subrange(0, k) + split_idents(u)[0] =~= s@.subrange(
                    start as int,
                    i as int,
                ));
                assert(split_idents(t) == seq![s@.subrange(start as int, i as int)]
                    + split_idents(s@.skip(i as int + 1)));
                assert(out.deep_view() =~= old_out.push(piece@));
                assert(old_out.push(piece@) + split_idents(s@.skip(i as int + 1)) =~= old_out + (
                seq![s@.subrange(start as int, i as int)] + split_idents(s@.skip(i as int + 1))));
            }
            start = i + 1;
        } else {
            proof {
                assert(('.' as u32) == 46);
                assert(s@[i as int] != '.');
            }
        }
        i = i + 1;
    }
    let piece = s.substring_char(start, n);
    let ghost old_out = out.deep_view();
    out.push(String::from_str(piece));
    proof {
        let t = s@.skip(start as int);
        let k = n - start;
        assert(t.len() == k);
        assert(forall|j: int| 0 <= j < k ==> t[j] == s@[start + j] && t[j] != '.');
        lemma_split_prefix(t, k as int);
        assert(t.skip(k as int) =~= Seq::<char>::empty());
        assert(split_idents(Seq::<char>::empty()) == seq![Seq::<char>::empty()]);
        assert(t.subrange(0, k as int) + split_idents(t.skip(k as int))[0] =~= s@.subrange(
            start as int,
            n as int,
        ));
        assert(split_idents(t.skip(k as int)).drop_first() =~= Seq::<Seq<char>>::empty());
        assert(split_idents(t) =~= seq![s@.subrange(start as int, n as int)]);
        assert(piece@ == s@.subrange(start as int, n as int));
        assert(out.deep_view() =~= old_out.push(piece@));
        assert(old_out.push(piece@) =~= old_out + seq![s@.subrange(start as int, n as int)]);
    }
    out
}

// ---------------------------------------------------------------------------
// Parsing a version text into the model
// ---------------------------------------------------------------------------

/// The version value a valid version text denotes.
pub open spec fn parsed_key(s: Seq<char>) -> VerKey
    recommends
        sem_parse(s) is Some,
{
    let t = sem_parse(s)->0;
    VerKey {
        major: t.0,
        minor: t.1,
        patch: t.2,
        pre: if t.3.len() == 0 {
            Seq::empty()
        } else {
            split_idents(t.3)
        },
    }
}

impl SemVer {
    /// Parse a version text; `None` exactly where the text is not a
    /// semantic version, and on success the model of what was denoted.
    pub fn parse(s: &str) -> (r: Option<SemVer>)
        ensures
            r is Some <==> sem_parse(s@) is Some,
            r matches Some(v) ==> v.key() == parsed_key(s@),
    {
        match parse_version_parts(s) {
            None => None,
            Some((major, minor, patch, pre)) => {
                let pre_ids: Vec<String> = if pre.as_str().unicode_len() == 0 {
                    Vec::new()
                } else {
                    split_idents_exec(pre.as_str())
                };
                proof {
                    if pre@.len() == 0 {
                        assert(pre_ids.deep_view() =~= Seq::<Seq<char>>::empty());
                    }
                }
                let v = SemVer { major, minor, patch, pre: pre_ids };
                proof {
                    assert(v.key() == parsed_key(s@));
                }
                Some(v)
            },
        }
    }
}

} // verus!
