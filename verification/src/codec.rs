//! The persisted package record: a structured text with one list field of
//! dependency records, each carrying `name`, `full_name`, `url`,
//! `version_constraint` (nullable) and `version`. Values are written quoted,
//! with backslash escapes for the quote, the backslash and the newline, so
//! that loading reproduces exactly what saving wrote — proved below as a
//! round trip over the record's model.

use vstd::prelude::*;
use crate::dependency::Dependency;
use crate::error::PkgError;
use crate::package::Package;

verus! {

/// The mathematical content of one dependency record.
pub struct DepModel {
    pub name: Seq<char>,
    pub full_name: Seq<char>,
    pub url: Seq<char>,
    pub constraint: Option<Seq<char>>,
    pub version: Seq<char>,
}

/// What a [`Dependency`] denotes.
pub open spec fn dep_model(d: Dependency) -> DepModel {
    DepModel {
        name: d.name@,
        full_name: d.full_name@,
        url: d.url@,
        constraint: match d.version_constraint {
            Some(c) => Some(c@),
            None => None,
        },
        version: d.version@,
    }
}

/// What a [`Package`] denotes: its dependency records, in order.
pub open spec fn pkg_model(p: Package) -> Seq<DepModel> {
    p.dependencies@.map(|i: int, d: Dependency| dep_model(d))
}

// ---------------------------------------------------------------------------
// Escaping
// ---------------------------------------------------------------------------

/// How one character is written inside a quoted value.
pub open spec fn esc_char(c: char) -> Seq<char> {
    if c == '\\' {
        seq!['\\', '\\']
    } else if c == '"' {
        seq!['\\', '"']
    } else if c == '\n' {
        seq!['\\', 'n']
    } else {
        seq![c]
    }
}

/// A value's text inside its quotes.
pub open spec fn escape(s: Seq<char>) -> Seq<char>
    decreases s.len(),
{
    if s.len() == 0 {
        Seq::empty()
    } else {
        esc_char(s[0]) + escape(s.drop_first())
    }
}

/// A quoted value as it stands in the record.
pub open spec fn quote(s: Seq<char>) -> Seq<char> {
    seq!['"'] + escape(s) + seq!['"']
}

pub proof fn lemma_escape_concat(a: Seq<char>, b: Seq<char>)
    ensures
        escape(a + b) == escape(a) + escape(b),
    decreases a.len(),
{
    if a.len() == 0 {
        assert(a + b =~= b);
        assert(escape(a) + escape(b) =~= escape(b));
    } else {
        assert((a + b).drop_first() =~= a.drop_first() + b);
        lemma_escape_concat(a.drop_first(), b);
        assert(esc_char(a[0]) + (escape(a.drop_first()) + escape(b)) =~= (esc_char(a[0]) + escape(
            a.drop_first(),
        )) + escape(b));
    }
}

/// A character the escaping leaves alone.
pub open spec fn plain(c: char) -> bool {
    c != '\\' && c != '"' && c != '\n'
}

pub proof fn lemma_escape_plain(s: Seq<char>)
    requires
        forall|i: int| 0 <= i < s.len() ==> plain(#[trigger] s[i]),
    ensures
        escape(s) == s,
    decreases s.len(),
{
    if s.len() > 0 {
        assert(forall|i: int|
            0 <= i < s.drop_first().len() ==> plain(#[trigger] s.drop_first()[i]));
        lemma_escape_plain(s.drop_first());
        assert(seq![s[0]] + s.drop_first() =~= s);
    }
}

// ---------------------------------------------------------------------------
// The record's fixed texts
// ---------------------------------------------------------------------------

pub open spec fn lit_header() -> Seq<char> {
    "dependencies:"@
}

pub open spec fn key_name() -> Seq<char> {
    "- name: "@
}

pub open spec fn key_full() -> Seq<char> {
    "  full_name: "@
}

pub open spec fn key_url() -> Seq<char> {
    "  url: "@
}

pub open spec fn key_constraint() -> Seq<char> {
    "  version_constraint: "@
}

pub open spec fn key_version() -> Seq<char> {
    "  version: "@
}

pub open spec fn lit_null() -> Seq<char> {
    "null"@
}

// ---------------------------------------------------------------------------
// Rendering
// ---------------------------------------------------------------------------

/// One dependency's record block: five lines in fixed order.
pub open spec fn render_dep(d: DepModel) -> Seq<char> {
    key_name() + quote(d.name) + seq!['\n'] + key_full() + quote(d.full_name) + seq!['\n']
        + key_url() + quote(d.url) + seq!['\n'] + key_constraint() + (match d.constraint {
        Some(c) => quote(c),
        None => lit_null(),
    }) + seq!['\n'] + key_version() + quote(d.version) + seq!['\n']
}

pub open spec fn render_deps(ds: Seq<DepModel>) -> Seq<char>
    decreases ds.len(),
{
    if ds.len() == 0 {
        Seq::empty()
    } else {
        render_dep(ds[0]) + render_deps(ds.drop_first())
    }
}

/// The whole record: the header line, then each dependency's block.
pub open spec fn render_package(ds: Seq<DepModel>) -> Seq<char> {
    lit_header() + seq!['\n'] + render_deps(ds)
}

// ---------------------------------------------------------------------------
// Parsing
// ---------------------------------------------------------------------------

/// Strip an expected fixed text off the front.
pub open spec fn expect(s: Seq<char>, lit: Seq<char>) -> Option<Seq<char>> {
    if s.len() >= lit.len() && s.take(lit.len() as int) == lit {
        Some(s.skip(lit.len() as int))
    } else {
        None
    }
}

/// Read a value up to its closing quote, undoing the escapes; `None` on a
/// raw newline, an unknown escape, or an unterminated value.
pub open spec fn scan_value(s: Seq<char>) -> Option<(Seq<char>, Seq<char>)>
    decreases s.len(),
{
    if s.len() == 0 {
        None
    } else if s[0] == '"' {
        Some((Seq::empty(), s.skip(1)))
    } else if s[0] == '\\' {
        if s.len() >= 2 && (s[1] == '\\' || s[1] == '"' || s[1] == 'n') {
            let c = if s[1] == 'n' {
                '\n'
            } else {
                s[1]
            };
            match scan_value(s.skip(2)) {
                Some(p) => Some((seq![c] + p.0, p.1)),
                None => None,
            }
        } else {
            None
        }
    } else if s[0] == '\n' {
        None
    } else {
        match scan_value(s.skip(1)) {
            Some(p) => Some((seq![s[0]] + p.0, p.1)),
            None => None,
        }
    }
}

/// Read an opening quote and then the value.
pub open spec fn parse_quoted(s: Seq<char>) -> Option<(Seq<char>, Seq<char>)> {
    if s.len() > 0 && s[0] == '"' {
        scan_value(s.skip(1))
    } else {
        None
    }
}

pub open spec fn expect_nl(s: Seq<char>) -> Option<Seq<char>> {
    if s.len() > 0 && s[0] == '\n' {
        Some(s.skip(1))
    } else {
        None
    }
}

/// One quoted line: the key, the value, the line break.
pub open spec fn parse_line(s: Seq<char>, key: Seq<char>) -> Option<(Seq<char>, Seq<char>)> {
    match expect(s, key) {
        Some(s1) => match parse_quoted(s1) {
            Some(p) => match expect_nl(p.1) {
                Some(s2) => Some((p.0, s2)),
                None => None,
            },
            None => None,
        },
        None => None,
    }
}

/// The constraint line's value: quoted, or the null marker.
pub open spec fn parse_constraint_value(s: Seq<char>) -> Option<(Option<Seq<char>>, Seq<char>)> {
    if s.len() > 0 && s[0] == '"' {
        match scan_value(s.skip(1)) {
            Some(p) => Some((Some(p.0), p.1)),
            None => None,
        }
    } else {
        match expect(s, lit_null()) {
            Some(rest) => Some((None, rest)),
            None => None,
        }
    }
}

/// One dependency's block.
pub open spec fn parse_dep(s: Seq<char>) -> Option<(DepModel, Seq<char>)> {
    match parse_line(s, key_name()) {
        Some((name, s1)) => match parse_line(s1, key_full()) {
            Some((full_name, s2)) => match parse_line(s2, key_url()) {
                Some((url, s3)) => match expect(s3, key_constraint()) {
                    Some(s4) => match parse_constraint_value(s4) {
                        Some((constraint, s5)) => match expect_nl(s5) {
                            Some(s6) => match parse_line(s6, key_version()) {
                                Some((version, s7)) => Some(
                                    (DepModel { name, full_name, url, constraint, version }, s7),
                                ),
                                None => None,
                            },
                            None => None,
                        },
                        None => None,
                    },
                    None => None,
                },
                None => None,
            },
            None => None,
        },
        None => None,
    }
}

/// Dependency blocks until the text runs out.
pub open spec fn parse_deps(s: Seq<char>) -> Option<Seq<DepModel>>
    decreases s.len(),
{
    if s.len() == 0 {
        Some(Seq::empty())
    } else {
        match parse_dep(s) {
            Some((d, rest)) => if rest.len() < s.len() {
                match parse_deps(rest) {
                    Some(ds) => Some(seq![d] + ds),
                    None => None,
                }
            } else {
                None
            },
            None => None,
        }
    }
}

/// The whole record.
pub open spec fn parse_package(s: Seq<char>) -> Option<Seq<DepModel>> {
    match expect(s, lit_header() + seq!['\n']) {
        Some(rest) => parse_deps(rest),
        None => None,
    }
}

// ---------------------------------------------------------------------------
// The round trip
// ---------------------------------------------------------------------------

pub proof fn lemma_expect_prefix(lit: Seq<char>, rest: Seq<char>)
    ensures
        expect(lit + rest, lit) == Some(rest),
{
    assert((lit + rest).take(lit.len() as int) =~= lit);
    assert((lit + rest).skip(lit.len() as int) =~= rest);
}

/// Scanning what escaping wrote gives the value back and stops at the
/// closing quote.
pub proof fn lemma_scan_escape(v: Seq<char>, rest: Seq<char>)
    ensures
        scan_value(escape(v) + seq!['"'] + rest) == Some((v, rest)),
    decreases v.len(),
{
    let s = escape(v) + seq!['"'] + rest;
    if v.len() == 0 {
        assert(s[0] == '"');
        assert(s.skip(1) =~= rest);
        assert(v =~= Seq::<char>::empty());
    } else {
        let c = v[0];
        let tail = v.drop_first();
        lemma_scan_escape(tail, rest);
        let s2 = escape(tail) + seq!['"'] + rest;
        assert(escape(v) == esc_char(c) + escape(tail));
        if c == '\\' || c == '"' || c == '\n' {
            assert(s[0] == '\\');
            assert(s[1] == (if c == '\n' {
                'n'
            } else {
                c
            }));
            assert(s.skip(2) =~= s2);
            assert(seq![c] + tail =~= v);
        } else {
            assert(s[0] == c);
            assert(s[0] != '"' && s[0] != '\\' && s[0] != '\n');
            assert(s.skip(1) =~= s2);
            assert(seq![c] + tail =~= v);
        }
    }
}

/// Parsing what one quoted line renders gives its value back.
pub proof fn lemma_parse_line(key: Seq<char>, v: Seq<char>, rest: Seq<char>)
    ensures
        parse_line(key + quote(v) + seq!['\n'] + rest, key) == Some((v, rest)),
{
    let s = key + quote(v) + seq!['\n'] + rest;
    assert(s =~= key + (quote(v) + seq!['\n'] + rest));
    lemma_expect_prefix(key, quote(v) + seq!['\n'] + rest);
    let s1 = quote(v) + seq!['\n'] + rest;
    assert(s1[0] == '"');
    assert(s1.skip(1) =~= escape(v) + seq!['"'] + (seq!['\n'] + rest));
    lemma_scan_escape(v, seq!['\n'] + rest);
    let p1 = seq!['\n'] + rest;
    assert(p1[0] == '\n');
    assert(p1.skip(1) =~= rest);
}

/// Parsing what one dependency's block renders gives its model back.
#[verifier::rlimit(100)]
pub proof fn lemma_parse_dep(d: DepModel, rest: Seq<char>)
    ensures
        parse_dep(render_dep(d) + rest) == Some((d, rest)),
{
    let block2 = key_full() + quote(d.full_name) + seq!['\n'] + key_url() + quote(d.url)
        + seq!['\n'] + key_constraint() + (match d.constraint {
        Some(c) => quote(c),
        None => lit_null(),
    }) + seq!['\n'] + key_version() + quote(d.version) + seq!['\n'] + rest;
    assert(render_dep(d) + rest =~= key_name() + quote(d.name) + seq!['\n'] + block2);
    lemma_parse_line(key_name(), d.name, block2);

    let block3 = key_url() + quote(d.url) + seq!['\n'] + key_constraint() + (match d.constraint {
        Some(c) => quote(c),
        None => lit_null(),
    }) + seq!['\n'] + key_version() + quote(d.version) + seq!['\n'] + rest;
    assert(block2 =~= key_full() + quote(d.full_name) + seq!['\n'] + block3);
    lemma_parse_line(key_full(), d.full_name, block3);

    let block4 = key_constraint() + (match d.constraint {
        Some(c) => quote(c),
        None => lit_null(),
    }) + seq!['\n'] + key_version() + quote(d.version) + seq!['\n'] + rest;
    assert(block3 =~= key_url() + quote(d.url) + seq!['\n'] + block4);
    lemma_parse_line(key_url(), d.url, block4);

    let block5 = (match d.constraint {
        Some(c) => quote(c),
        None => lit_null(),
    }) + seq!['\n'] + key_version() + quote(d.version) + seq!['\n'] + rest;
    assert(block4 =~= key_constraint() + block5);
    lemma_expect_prefix(key_constraint(), block5);

    let block6 = seq!['\n'] + key_version() + quote(d.version) + seq!['\n'] + rest;
    match d.constraint {
        Some(c) => {
            assert(block5 =~= quote(c) + block6);
            assert(block5[0] == '"');
            assert(block5.skip(1) =~= escape(c) + seq!['"'] + block6);
            lemma_scan_escape(c, block6);
        },
        None => {
            assert(block5 =~= lit_null() + block6);
            lemma_null_marker_shape();
            lemma_expect_prefix(lit_null(), block6);
            assert(block5[0] != '"');
        },
    }
    assert(block6[0] == '\n');

    let block7 = key_version() + quote(d.version) + seq!['\n'] + rest;
    assert(block6.skip(1) =~= block7);
    lemma_parse_line(key_version(), d.version, rest);
    assert(block7 =~= key_version() + quote(d.version) + seq!['\n'] + rest);
}

/// The null marker does not begin with a quote.
proof fn lemma_null_marker_shape()
    ensures
        lit_null().len() == 4,
        lit_null()[0] == 'n',
{
    reveal_strlit("null");
}

/// A rendered block is never empty.
proof fn lemma_render_dep_nonempty(d: DepModel)
    ensures
        render_dep(d).len() > key_name().len(),
{
}

/// Parsing what a dependency list renders gives the list back.
pub proof fn lemma_parse_deps(ds: Seq<DepModel>)
    ensures
        parse_deps(render_deps(ds)) == Some(ds),
    decreases ds.len(),
{
    if ds.len() == 0 {
        assert(render_deps(ds).len() == 0);
        assert(ds =~= Seq::<DepModel>::empty());
    } else {
        let d = ds[0];
        let rest = render_deps(ds.drop_first());
        lemma_parse_dep(d, rest);
        lemma_parse_deps(ds.drop_first());
        lemma_render_dep_nonempty(d);
        reveal_strlit("- name: ");
        assert(render_deps(ds).len() > 0);
        assert(rest.len() < render_deps(ds).len());
        assert(seq![d] + ds.drop_first() =~= ds);
    }
}

/// Loading what saving wrote yields the same record: the round trip over the
/// package model.
pub proof fn lemma_record_round_trip(ds: Seq<DepModel>)
    ensures
        parse_package(render_package(ds)) == Some(ds),
{
    assert(render_package(ds) =~= (lit_header() + seq!['\n']) + render_deps(ds));
    lemma_expect_prefix(lit_header() + seq!['\n'], render_deps(ds));
    lemma_parse_deps(ds);
}

// ---------------------------------------------------------------------------
// Writing the record
// ---------------------------------------------------------------------------

/// Append a value with its quotes and escapes.
fn append_quoted(s: &mut String, v: &str)
    ensures
        final(s)@ == old(s)@ + quote(v@),
{
    let ghost base = s@;
    s.append("\"");
    proof {
        reveal_strlit("\"");
        assert("\""@ =~= seq!['"']);
    }
    let n: usize = v.unicode_len();
    let mut start: usize = 0;
    let mut i: usize = 0;
    proof {
        assert(v@.take(0) =~= Seq::<char>::empty());
        assert(s@ =~= base + seq!['"'] + escape(v@.take(0)));
    }
    while i < n
        invariant
            start <= i <= n,
            n == v@.len(),
            forall|j: int| start <= j < i ==> plain(#[trigger] v@[j]),
            s@ == base + seq!['"'] + escape(v@.take(start as int)),
        decreases n - i,
    {
        let c = v.get_char(i);
        if c == '\\' || c == '"' || c == '\n' {
            let run = v.substring_char(start, i);
            s.append(run);
            if c == '\\' {
                s.append("\\\\");
            } else if c == '"' {
                s.append("\\\"");
            } else {
                s.append("\\n");
            }
            proof {
                reveal_strlit("\\\\");
                reveal_strlit("\\\"");
                reveal_strlit("\\n");
                assert("\\\\"@ =~= seq!['\\', '\\']);
                assert("\\\""@ =~= seq!['\\', '"']);
                assert("\\n"@ =~= seq!['\\', 'n']);
                let pre = v@.take(start as int);
                let mid = v@.subrange(start as int, i as int);
                lemma_escape_plain(mid);
                lemma_escape_concat(pre, mid);
                assert(pre + mid =~= v@.take(i as int));
                lemma_escape_concat(v@.take(i as int), seq![c]);
                assert(v@.take(i as int) + seq![c] =~= v@.take(i as int + 1));
                assert(seq![c][0] == c);
                assert(seq![c].drop_first() =~= Seq::<char>::empty());
                assert(escape(Seq::<char>::empty()) =~= Seq::<char>::empty());
                assert(escape(seq![c]) =~= esc_char(c));
                assert(s@ =~= base + seq!['"'] + escape(v@.take(i as int + 1)));
            }
            start = i + 1;
        }
        i = i + 1;
    }
    let run = v.substring_char(start, n);
    s.append(run);
    s.append("\"");
    proof {
        reveal_strlit("\"");
        assert("\""@ =~= seq!['"']);
        let pre = v@.take(start as int);
        let mid = v@.subrange(start as int, n as int);
        lemma_escape_plain(mid);
        lemma_escape_concat(pre, mid);
        assert(pre + mid =~= v@);
        assert(v@.take(n as int) =~= v@);
        assert(s@ =~= base + quote(v@));
    }
}

/// Append one dependency's record block.
fn append_dep(s: &mut String, d: &Dependency)
    ensures
        final(s)@ == old(s)@ + render_dep(dep_model(*d)),
{
    let ghost base = s@;
    s.append("- name: ");
    append_quoted(s, d.name.as_str());
    s.append("\n");
    s.append("  full_name: ");
    append_quoted(s, d.full_name.as_str());
    s.append("\n");
    s.append("  url: ");
    append_quoted(s, d.url.as_str());
    s.append("\n");
    s.append("  version_constraint: ");
    match &d.version_constraint {
        Some(c) => append_quoted(s, c.as_str()),
        None => s.append("null"),
    }
    s.append("\n");
    s.append("  version: ");
    append_quoted(s, d.version.as_str());
    s.append("\n");
    proof {
        reveal_strlit("\n");
        assert("\n"@ =~= seq!['\n']);
        assert(s@ =~= base + render_dep(dep_model(*d)));
    }
}

proof fn lemma_render_deps_snoc(ds: Seq<DepModel>, d: DepModel)
    ensures
        render_deps(ds.push(d)) == render_deps(ds) + render_dep(d),
    decreases ds.len(),
{
    if ds.len() == 0 {
        assert(ds.push(d)[0] == d);
        assert(ds.push(d).drop_first() =~= Seq::<DepModel>::empty());
        assert(render_deps(Seq::<DepModel>::empty()) =~= Seq::<char>::empty());
        assert(render_deps(ds) =~= Seq::<char>::empty());
        assert(render_deps(ds.push(d)) =~= render_deps(ds) + render_dep(d));
    } else {
        assert(ds.push(d)[0] == ds[0]);
        assert(ds.push(d).drop_first() =~= ds.drop_first().push(d));
        lemma_render_deps_snoc(ds.drop_first(), d);
        assert(render_dep(ds[0]) + (render_deps(ds.drop_first()) + render_dep(d)) =~= (render_dep(
            ds[0],
        ) + render_deps(ds.drop_first())) + render_dep(d));
        assert(render_deps(ds.push(d)) =~= render_deps(ds) + render_dep(d));
    }
}

/// Write the record for a package.
pub fn save_package(p: &Package) -> (r: String)
    ensures
        r@ == render_package(pkg_model(*p)),
{
    let ghost models = pkg_model(*p);
    let mut s = String::new();
    s.append("dependencies:");
    s.append("\n");
    proof {
        reveal_strlit("\n");
        assert("\n"@ =~= seq!['\n']);
        assert(models.take(0) =~= Seq::<DepModel>::empty());
        assert(s@ =~= lit_header() + seq!['\n'] + render_deps(models.take(0)));
    }
    let n = p.dependencies.len();
    let mut i: usize = 0;
    while i < n
        invariant
            i <= n,
            n == p.dependencies@.len(),
            models == pkg_model(*p),
            models.len() == n,
            s@ == lit_header() + seq!['\n'] + render_deps(models.take(i as int)),
        decreases n - i,
    {
        append_dep(&mut s, &p.dependencies[i]);
        proof {
            assert(models[i as int] == dep_model(p.dependencies@[i as int]));
            assert(models.take(i as int + 1) =~= models.take(i as int).push(models[i as int]));
            lemma_render_deps_snoc(models.take(i as int), models[i as int]);
        }
        i = i + 1;
    }
    proof {
        assert(models.take(n as int) =~= models);
    }
    s
}

// ---------------------------------------------------------------------------
// Reading the record
// ---------------------------------------------------------------------------

/// Match a fixed text at a position.
fn match_lit(s: &str, pos: usize, lit: &str) -> (r: Option<usize>)
    requires
        pos <= s@.len(),
    ensures
        r matches Some(p2) ==> p2 == pos + lit@.len() && p2 <= s@.len() && expect(
            s@.skip(pos as int),
            lit@,
        ) == Some(s@.skip(p2 as int)),
        r is None ==> expect(s@.skip(pos as int), lit@) is None,
{
    let n: usize = s.unicode_len();
    let ln: usize = lit.unicode_len();
    if n - pos < ln {
        proof {
            assert(s@.skip(pos as int).len() < lit@.len());
        }
        return None;
    }
    let mut k: usize = 0;
    while k < ln
        invariant
            k <= ln,
            n == s@.len(),
            ln == lit@.len(),
            pos <= n,
            n - pos >= ln,
            forall|j: int| 0 <= j < k ==> s@[pos + j] == lit@[j],
        decreases ln - k,
    {
        if s.get_char(pos + k) != lit.get_char(k) {
            proof {
                let rem = s@.skip(pos as int);
                assert(rem.take(ln as int)[k as int] == s@[pos + k]);
                assert(rem.take(ln as int) != lit@);
            }
            return None;
        }
        k = k + 1;
    }
    proof {
        let rem = s@.skip(pos as int);
        assert forall|j: int| 0 <= j < ln implies rem.take(ln as int)[j] == lit@[j] by {
            assert(rem.take(ln as int)[j] == s@[pos + j]);
        }
        assert(rem.take(ln as int) =~= lit@);
        assert(rem.skip(ln as int) =~= s@.skip(pos + ln));
    }
    Some(pos + ln)
}

/// `expect_nl` is `expect` of the newline text.
proof fn lemma_nl_equiv(x: Seq<char>)
    ensures
        expect_nl(x) == expect(x, "\n"@),
{
    reveal_strlit("\n");
    assert("\n"@ =~= seq!['\n']);
    if x.len() >= 1 {
        assert(x.take(1)[0] == x[0]);
        if x[0] == '\n' {
            assert(x.take(1) =~= seq!['\n']);
        } else {
            assert(x.take(1) != "\n"@);
        }
    }
}

/// Read a quoted value at a position, undoing the escapes.
fn scan_quoted(s: &str, pos: usize) -> (r: Option<(String, usize)>)
    requires
        pos <= s@.len(),
    ensures
        r matches Some(vp) ==> pos + 2 <= vp.1 <= s@.len() && parse_quoted(s@.skip(pos as int))
            == Some((vp.0@, s@.skip(vp.1 as int))),
        r is None ==> parse_quoted(s@.skip(pos as int)) is None,
{
    let n: usize = s.unicode_len();
    if pos >= n {
        return None;
    }
    if s.get_char(pos) != '"' {
        proof {
            assert(s@.skip(pos as int)[0] == s@[pos as int]);
        }
        return None;
    }
    proof {
        assert(s@.skip(pos as int)[0] == '"');
        assert(s@.skip(pos as int).skip(1) =~= s@.skip(pos as int + 1));
    }
    let mut val = String::new();
    let mut start: usize = pos + 1;
    let mut i: usize = pos + 1;
    while i < n
        invariant
            pos + 1 <= start <= i <= n,
            n == s@.len(),
            parse_quoted(s@.skip(pos as int)) == scan_value(s@.skip(pos as int + 1)),
            forall|j: int| start <= j < i ==> plain(#[trigger] s@[j]),
            match scan_value(s@.skip(i as int)) {
                Some(p) => scan_value(s@.skip(pos as int + 1)) == Some(
                    (val@ + s@.subrange(start as int, i as int) + p.0, p.1),
                ),
                None => scan_value(s@.skip(pos as int + 1)) is None,
            },
        decreases n - i,
    {
        let c = s.get_char(i);
        proof {
            assert(s@.skip(i as int)[0] == s@[i as int]);
            assert(s@.skip(i as int).skip(1) =~= s@.skip(i as int + 1));
        }
        if c == '"' {
            let ghost v_old = val@;
            let run = s.substring_char(start, i);
            val.append(run);
            proof {
                assert(scan_value(s@.skip(i as int)) == Some::<(Seq<char>, Seq<char>)>(
                    (Seq::<char>::empty(), s@.skip(i as int + 1)),
                ));
                assert(v_old + s@.subrange(start as int, i as int) + Seq::<char>::empty() =~= val@);
                assert(parse_quoted(s@.skip(pos as int)) == Some((val@, s@.skip(i as int + 1))));
            }
            return Some((val, i + 1));
        } else if c == '\\' {
            if i + 1 >= n {
                proof {
                    assert(s@.skip(i as int).len() < 2);
                    assert(scan_value(s@.skip(i as int)) is None);
                }
                return None;
            }
            let e = s.get_char(i + 1);
            proof {
                assert(s@.skip(i as int)[1] == s@[i as int + 1]);
                assert(s@.skip(i as int).skip(2) =~= s@.skip(i as int + 2));
            }
            if e == '\\' || e == '"' || e == 'n' {
                let ghost v_old = val@;
                let ghost m: char = if e == 'n' { '\n' } else { e };
                let run = s.substring_char(start, i);
                val.append(run);
                if e == 'n' {
                    val.append("\n");
                } else if e == '\\' {
                    val.append("\\");
                } else {
                    val.append("\"");
                }
                proof {
                    reveal_strlit("\n");
                    reveal_strlit("\\");
                    reveal_strlit("\"");
                    assert("\n"@ =~= seq!['\n']);
                    assert("\\"@ =~= seq!['\\']);
                    assert("\""@ =~= seq!['"']);
                    assert(val@ =~= v_old + s@.subrange(start as int, i as int) + seq![m]);
                    let sv = scan_value(s@.skip(i as int + 2));
                    if sv is Some {
                        let p2 = sv->0;
                        assert(scan_value(s@.skip(i as int)) == Some::<(Seq<char>, Seq<char>)>(
                            (seq![m] + p2.0, p2.1),
                        ));
                        assert(val@ + s@.subrange(i as int + 2, i as int + 2) + p2.0 =~= v_old
                            + s@.subrange(start as int, i as int) + (seq![m] + p2.0));
                    } else {
                        assert(scan_value(s@.skip(i as int)) is None);
                    }
                }
                start = i + 2;
                i = i + 2;
            } else {
                proof {
                    assert(scan_value(s@.skip(i as int)) is None);
                }
                return None;
            }
        } else if c == '\n' {
            proof {
                assert(scan_value(s@.skip(i as int)) is None);
            }
            return None;
        } else {
            proof {
                let sv = scan_value(s@.skip(i as int + 1));
                if sv is Some {
                    let p2 = sv->0;
                    assert(scan_value(s@.skip(i as int)) == Some::<(Seq<char>, Seq<char>)>(
                        (seq![c] + p2.0, p2.1),
                    ));
                    assert(s@.subrange(start as int, i as int + 1) =~= s@.subrange(
                        start as int,
                        i as int,
                    ) + seq![c]);
                    assert(val@ + (s@.subrange(start as int, i as int) + seq![c]) + p2.0 =~= val@
                        + s@.subrange(start as int, i as int) + (seq![c] + p2.0));
                    assert(val@ + s@.subrange(start as int, i as int + 1) + p2.0 =~= val@
                        + s@.subrange(start as int, i as int) + (seq![c] + p2.0));
                } else {
                    assert(scan_value(s@.skip(i as int)) is None);
                }
            }
            i = i + 1;
        }
    }
    proof {
        assert(s@.skip(i as int).len() == 0);
        assert(scan_value(s@.skip(i as int)) is None);
    }
    None
}

/// Read one quoted line at a position.
fn parse_line_exec(s: &str, pos: usize, key: &str) -> (r: Option<(String, usize)>)
    requires
        pos <= s@.len(),
    ensures
        r matches Some(vp) ==> pos + key@.len() + 2 < vp.1 <= s@.len() && parse_line(
            s@.skip(pos as int),
            key@,
        ) == Some((vp.0@, s@.skip(vp.1 as int))),
        r is None ==> parse_line(s@.skip(pos as int), key@) is None,
{
    let p1 = match match_lit(s, pos, key) {
        None => {
            return None;
        },
        Some(p) => p,
    };
    let (v, p2) = match scan_quoted(s, p1) {
        None => {
            return None;
        },
        Some(x) => x,
    };
    let p3 = match match_lit(s, p2, "\n") {
        None => {
            proof {
                lemma_nl_equiv(s@.skip(p2 as int));
            }
            return None;
        },
        Some(p) => p,
    };
    proof {
        lemma_nl_equiv(s@.skip(p2 as int));
        reveal_strlit("\n");
    }
    Some((v, p3))
}

/// Read one dependency's block at a position.
#[verifier::rlimit(60)]
fn parse_dep_exec(s: &str, pos: usize) -> (r: Option<(Dependency, usize)>)
    requires
        pos <= s@.len(),
    ensures
        r matches Some(dp) ==> pos < dp.1 <= s@.len() && parse_dep(s@.skip(pos as int)) == Some(
            (dep_model(dp.0), s@.skip(dp.1 as int)),
        ),
        r is None ==> parse_dep(s@.skip(pos as int)) is None,
{
    let (name, p1) = match parse_line_exec(s, pos, "- name: ") {
        None => {
            return None;
        },
        Some(x) => x,
    };
    let (full_name, p2) = match parse_line_exec(s, p1, "  full_name: ") {
        None => {
            return None;
        },
        Some(x) => x,
    };
    let (url, p3) = match parse_line_exec(s, p2, "  url: ") {
        None => {
            return None;
        },
        Some(x) => x,
    };
    let p4 = match match_lit(s, p3, "  version_constraint: ") {
        None => {
            return None;
        },
        Some(p) => p,
    };
    let n: usize = s.unicode_len();
    let quoted = p4 < n && s.get_char(p4) == '"';
    proof {
        if p4 < n {
            assert(s@.skip(p4 as int)[0] == s@[p4 as int]);
        }
    }
    let (constraint, p5): (Option<String>, usize) = if quoted {
        match scan_quoted(s, p4) {
            None => {
                return None;
            },
            Some((c, p)) => (Some(c), p),
        }
    } else {
        match match_lit(s, p4, "null") {
            None => {
                proof {
                    assert(lit_null() == "null"@);
                }
                return None;
            },
            Some(p) => (None, p),
        }
    };
    let p6 = match match_lit(s, p5, "\n") {
        None => {
            proof {
                lemma_nl_equiv(s@.skip(p5 as int));
            }
            return None;
        },
        Some(p) => p,
    };
    proof {
        lemma_nl_equiv(s@.skip(p5 as int));
    }
    let (version, p7) = match parse_line_exec(s, p6, "  version: ") {
        None => {
            return None;
        },
        Some(x) => x,
    };
    let d = Dependency { name, full_name, url, version_constraint: constraint, version };
    proof {
        reveal_strlit("- name: ");
    }
    Some((d, p7))
}

/// Read a package record back; a text the format does not describe fails
/// with `PersistenceFailure`.
pub fn load_package(s: &str) -> (r: Result<Package, PkgError>)
    ensures
        parse_package(s@) matches Some(ds) ==> (r matches Ok(p) && pkg_model(p) == ds),
        parse_package(s@) is None ==> r == Err::<Package, PkgError>(PkgError::PersistenceFailure),
{
    proof {
        assert(s@.skip(0) =~= s@);
    }
    let p0 = match match_lit(s, 0, "dependencies:") {
        None => {
            proof {
                lemma_expect_chain(s@, lit_header(), seq!['\n']);
            }
            return Err(PkgError::PersistenceFailure);
        },
        Some(p) => p,
    };
    let mut pos = match match_lit(s, p0, "\n") {
        None => {
            proof {
                lemma_expect_chain(s@, lit_header(), seq!['\n']);
                lemma_nl_equiv(s@.skip(p0 as int));
            }
            return Err(PkgError::PersistenceFailure);
        },
        Some(p) => p,
    };
    let n: usize = s.unicode_len();
    let mut deps: Vec<Dependency> = Vec::new();
    proof {
        lemma_expect_chain(s@, lit_header(), seq!['\n']);
        lemma_nl_equiv(s@.skip(p0 as int));
        reveal_strlit("\n");
        assert("\n"@ =~= seq!['\n']);
        assert(parse_package(s@) == parse_deps(s@.skip(pos as int)));
        let models0 = deps@.map(|k: int, d: Dependency| dep_model(d));
        assert(models0 =~= Seq::<DepModel>::empty());
        if parse_deps(s@.skip(pos as int)) is Some {
            let ds2 = parse_deps(s@.skip(pos as int))->0;
            assert(models0 + ds2 =~= ds2);
            assert(parse_package(s@) == Some(models0 + ds2));
        }
    }
    loop
        invariant
            pos <= n,
            n == s@.len(),
            ({
                let models = deps@.map(|k: int, d: Dependency| dep_model(d));
                &&& (forall|ds2: Seq<DepModel>|
                    parse_deps(s@.skip(pos as int)) == Some::<Seq<DepModel>>(ds2)
                        ==> parse_package(s@) == Some(models + ds2))
                &&& (parse_deps(s@.skip(pos as int)) is None ==> parse_package(s@) is None)
            }),
        decreases n - pos,
    {
        let ghost models = deps@.map(|k: int, d: Dependency| dep_model(d));
        if pos == n {
            proof {
                assert(s@.skip(pos as int).len() == 0);
                assert(parse_deps(s@.skip(pos as int)) == Some(Seq::<DepModel>::empty()));
                assert(models + Seq::<DepModel>::empty() =~= models);
            }
            let p = Package { dependencies: deps };
            proof {
                assert(pkg_model(p) =~= models);
            }
            return Ok(p);
        }
        match parse_dep_exec(s, pos) {
            None => {
                proof {
                    assert(s@.skip(pos as int).len() > 0);
                    assert(parse_deps(s@.skip(pos as int)) is None);
                }
                return Err(PkgError::PersistenceFailure);
            },
            Some((d, p2)) => {
                proof {
                    let rem = s@.skip(pos as int);
                    let rest = s@.skip(p2 as int);
                    assert(rem.len() > 0);
                    assert(rest.len() < rem.len());
                    let dm = dep_model(d);
                    assert forall|ds2: Seq<DepModel>|
                        parse_deps(rest) == Some::<Seq<DepModel>>(ds2) implies parse_package(s@)
                        == Some(models.push(dm) + ds2) by {
                        assert(parse_deps(rem) == Some(seq![dm] + ds2));
                        assert(models + (seq![dm] + ds2) =~= models.push(dm) + ds2);
                    }
                    assert(parse_deps(rest) is None ==> parse_deps(rem) is None);
                }
                deps.push(d);
                proof {
                    assert(deps@.map(|k: int, d2: Dependency| dep_model(d2)) =~= models.push(
                        dep_model(d),
                    ));
                }
                pos = p2;
            },
        }
    }
}

/// Stripping a concatenated fixed text is stripping its parts in turn.
proof fn lemma_expect_chain(s: Seq<char>, a: Seq<char>, b: Seq<char>)
    ensures
        expect(s, a + b) == (match expect(s, a) {
            Some(r) => expect(r, b),
            None => None,
        }),
{
    if s.len() >= a.len() + b.len() && s.take(a.len() as int) == a && s.skip(a.len() as int).take(
        b.len() as int,
    ) == b {
        assert(s.take((a + b).len() as int) =~= a + b);
        assert(s.skip((a + b).len() as int) =~= s.skip(a.len() as int).skip(b.len() as int));
        assert(expect(s, a + b) is Some);
    } else {
        if s.len() >= (a + b).len() && s.take((a + b).len() as int) == (a + b) {
            assert(s.take(a.len() as int) =~= (a + b).take(a.len() as int));
            assert((a + b).take(a.len() as int) =~= a);
            assert(s.skip(a.len() as int).take(b.len() as int) =~= (a + b).skip(a.len() as int));
            assert((a + b).skip(a.len() as int) =~= b);
        }
        if expect(s, a) is Some {
            assert(s.take(a.len() as int) == a);
            if expect(s.skip(a.len() as int), b) is Some {
                assert(s.skip(a.len() as int).take(b.len() as int) == b);
            }
        }
    }
}

} // verus!
