//! The note-file format: a JSON document `{ "entries": { "key": "text", ... } }`,
//! pretty-printed with two-space indentation, the object's member order
//! carrying the store's order.
//!
//! Both directions are written here and verified: rendering a store's pairs
//! to the document, and parsing a document back to pairs. Parsing what
//! rendering produced returns exactly the pairs that were rendered (the
//! round-trip law at the end of this file).

use vstd::prelude::*;
use crate::text::{is_ws, trim_front, is_ws_exec, str_eq};
use crate::chars::{string_to_chars, chars_to_string};

verus! {

/// The characters that are written escaped inside a JSON string.
pub open spec fn needs_escape(c: char) -> bool {
    c == '"' || c == '\\' || c == '\n' || c == '\r' || c == '\t'
}

/// How one character is written inside a JSON string.
pub open spec fn esc_char(c: char) -> Seq<char> {
    if c == '"' {
        seq!['\\', '"']
    } else if c == '\\' {
        seq!['\\', '\\']
    } else if c == '\n' {
        seq!['\\', 'n']
    } else if c == '\r' {
        seq!['\\', 'r']
    } else if c == '\t' {
        seq!['\\', 't']
    } else {
        seq![c]
    }
}

/// A text escaped for the inside of a JSON string.
pub open spec fn esc(s: Seq<char>) -> Seq<char>
    decreases s.len(),
{
    if s.len() == 0 {
        Seq::<char>::empty()
    } else {
        esc_char(s[0]) + esc(s.drop_first())
    }
}

/// A text as a JSON string, quotes included.
pub open spec fn quoted(s: Seq<char>) -> Seq<char> {
    seq!['"'] + esc(s) + seq!['"']
}

/// One member of the entries object: `"key": "value"`.
pub open spec fn render_entry(k: Seq<char>, v: Seq<char>) -> Seq<char> {
    quoted(k) + seq![':', ' '] + quoted(v)
}

/// The indentation before each member: a newline and four spaces.
pub open spec fn item_sep() -> Seq<char> {
    seq!['\n', ' ', ' ', ' ', ' ']
}

/// The members of the entries object, comma-separated and indented.
pub open spec fn render_items(es: Seq<(Seq<char>, Seq<char>)>) -> Seq<char>
    decreases es.len(),
{
    if es.len() == 0 {
        Seq::<char>::empty()
    } else if es.len() == 1 {
        render_entry(es[0].0, es[0].1)
    } else {
        render_entry(es[0].0, es[0].1) + seq![','] + item_sep() + render_items(es.drop_first())
    }
}

/// The document up to and including the opening brace of the entries
/// object: `{`, a newline, `  "entries": {`.
pub open spec fn doc_open() -> Seq<char> {
    seq!['{', '\n', ' ', ' ', '"', 'e', 'n', 't', 'r', 'i', 'e', 's', '"', ':', ' ', '{']
}

/// The whole document for the given entries.
pub open spec fn render_doc(es: Seq<(Seq<char>, Seq<char>)>) -> Seq<char> {
    if es.len() == 0 {
        doc_open() + seq!['}', '\n', '}']
    } else {
        doc_open() + item_sep() + render_items(es) + seq!['\n', ' ', ' ', '}', '\n', '}']
    }
}

/// The character an escape code stands for, if the code is recognized.
pub open spec fn unesc_code(c: char) -> Option<char> {
    if c == '"' {
        Some('"')
    } else if c == '\\' {
        Some('\\')
    } else if c == 'n' {
        Some('\n')
    } else if c == 'r' {
        Some('\r')
    } else if c == 't' {
        Some('\t')
    } else {
        None
    }
}

/// Parses a JSON string after its opening quote: the text up to the closing
/// quote, and the rest of the input. Unrecognized escapes and an unclosed
/// string fail.
pub open spec fn parse_str_body(s: Seq<char>) -> Option<(Seq<char>, Seq<char>)>
    decreases s.len(),
{
    if s.len() == 0 {
        None
    } else if s[0] == '"' {
        Some((Seq::<char>::empty(), s.drop_first()))
    } else if s[0] == '\\' {
        if s.len() < 2 {
            None
        } else {
            match unesc_code(s[1]) {
                None => None,
                Some(u) => match parse_str_body(s.skip(2)) {
                    None => None,
                    Some(tr) => Some((seq![u] + tr.0, tr.1)),
                },
            }
        }
    } else {
        match parse_str_body(s.drop_first()) {
            None => None,
            Some(tr) => Some((seq![s[0]] + tr.0, tr.1)),
        }
    }
}

/// Parses a JSON string, opening quote included.
pub open spec fn parse_string(s: Seq<char>) -> Option<(Seq<char>, Seq<char>)> {
    if s.len() > 0 && s[0] == '"' {
        parse_str_body(s.drop_first())
    } else {
        None
    }
}

/// Parses one `"key": "value"` member.
pub open spec fn parse_entry(s: Seq<char>) -> Option<((Seq<char>, Seq<char>), Seq<char>)> {
    match parse_string(s) {
        None => None,
        Some(kr) => {
            let r2 = trim_front(kr.1);
            if r2.len() > 0 && r2[0] == ':' {
                let r3 = trim_front(r2.drop_first());
                match parse_string(r3) {
                    None => None,
                    Some(vr) => Some(((kr.0, vr.0), vr.1)),
                }
            } else {
                None
            }
        },
    }
}

/// Parses one or more comma-separated members; the rest it returns has its
/// leading whitespace removed.
pub open spec fn parse_items(s: Seq<char>) -> Option<(Seq<(Seq<char>, Seq<char>)>, Seq<char>)>
    decreases s.len(),
{
    match parse_entry(s) {
        None => None,
        Some(er) => {
            let r2 = trim_front(er.1);
            if r2.len() > 0 && r2[0] == ',' {
                let r3 = trim_front(r2.drop_first());
                if r3.len() < s.len() {
                    match parse_items(r3) {
                        None => None,
                        Some(ir) => Some((seq![er.0] + ir.0, ir.1)),
                    }
                } else {
                    None
                }
            } else {
                Some((seq![er.0], r2))
            }
        },
    }
}

/// Parses the closing brace of the document and requires nothing but
/// whitespace after it.
pub open spec fn parse_close(es: Seq<(Seq<char>, Seq<char>)>, s: Seq<char>) -> Option<
    Seq<(Seq<char>, Seq<char>)>,
> {
    let t = trim_front(s);
    if t.len() > 0 && t[0] == '}' && trim_front(t.drop_first()).len() == 0 {
        Some(es)
    } else {
        None
    }
}

/// Parses a whole note document to its entries, in order. Any input that is
/// not a document of the expected shape fails.
pub open spec fn parse_doc(s: Seq<char>) -> Option<Seq<(Seq<char>, Seq<char>)>> {
    let s0 = trim_front(s);
    if s0.len() > 0 && s0[0] == '{' {
        let s1 = trim_front(s0.drop_first());
        match parse_string(s1) {
            None => None,
            Some(nr) => {
                if nr.0 == "entries"@ {
                    let r2 = trim_front(nr.1);
                    if r2.len() > 0 && r2[0] == ':' {
                        let r3 = trim_front(r2.drop_first());
                        if r3.len() > 0 && r3[0] == '{' {
                            let r4 = trim_front(r3.drop_first());
                            if r4.len() > 0 && r4[0] == '}' {
                                parse_close(Seq::<(Seq<char>, Seq<char>)>::empty(), r4.drop_first())
                            } else {
                                match parse_items(r4) {
                                    None => None,
                                    Some(ir) => {
                                        if ir.1.len() > 0 && ir.1[0] == '}' {
                                            parse_close(ir.0, ir.1.drop_first())
                                        } else {
                                            None
                                        }
                                    },
                                }
                            }
                        } else {
                            None
                        }
                    } else {
                        None
                    }
                } else {
                    None
                }
            },
        }
    } else {
        None
    }
}

/// Skipping whitespace over an all-whitespace prefix skips the prefix.
proof fn lemma_trim_front_over(p: Seq<char>, rest: Seq<char>)
    requires
        forall|k: int| 0 <= k < p.len() ==> is_ws(p[k]),
    ensures
        trim_front(p + rest) == trim_front(rest),
    decreases p.len(),
{
    if p.len() == 0 {
        assert(p + rest =~= rest);
    } else {
        assert((p + rest)[0] == p[0]);
        assert((p + rest).drop_first() =~= p.drop_first() + rest);
        lemma_trim_front_over(p.drop_first(), rest);
    }
}

/// Escaping a text with nothing to escape leaves it as it is.
proof fn lemma_esc_raw(s: Seq<char>)
    requires
        forall|k: int| 0 <= k < s.len() ==> !needs_escape(s[k]),
    ensures
        esc(s) == s,
    decreases s.len(),
{
    if s.len() > 0 {
        assert(!needs_escape(s[0]));
        lemma_esc_raw(s.drop_first());
        assert(esc(s) =~= s);
    }
}

/// Escaping distributes over appending one character.
proof fn lemma_esc_push(s: Seq<char>, c: char)
    ensures
        esc(s.push(c)) == esc(s) + esc_char(c),
    decreases s.len(),
{
    if s.len() == 0 {
        assert(s.push(c)[0] == c);
        assert(s.push(c).drop_first() =~= Seq::<char>::empty());
        assert(esc(Seq::<char>::empty()) == Seq::<char>::empty());
        assert(esc(s.push(c)) =~= esc(s) + esc_char(c));
    } else {
        assert(s.push(c)[0] == s[0]);
        assert(s.push(c).drop_first() =~= s.drop_first().push(c));
        lemma_esc_push(s.drop_first(), c);
        assert(esc(s.push(c)) =~= esc(s) + esc_char(c));
    }
}

/// Rendering one more entry appends a comma, the indentation and the entry.
proof fn lemma_render_items_push(es: Seq<(Seq<char>, Seq<char>)>, e: (Seq<char>, Seq<char>))
    requires
        es.len() >= 1,
    ensures
        render_items(es.push(e)) == render_items(es) + seq![','] + item_sep() + render_entry(
            e.0,
            e.1,
        ),
    decreases es.len(),
{
    if es.len() == 1 {
        assert(es.push(e)[0] == es[0]);
        assert(es.push(e).drop_first() =~= seq![e]);
        assert(render_items(seq![e]) == render_entry(e.0, e.1));
        assert(render_items(es.push(e)) =~= render_items(es) + seq![','] + item_sep()
            + render_entry(e.0, e.1));
    } else {
        assert(es.push(e)[0] == es[0]);
        assert(es.push(e).drop_first() =~= es.drop_first().push(e));
        lemma_render_items_push(es.drop_first(), e);
        assert(render_items(es.push(e)) =~= render_items(es) + seq![','] + item_sep()
            + render_entry(e.0, e.1));
    }
}

/// Parsing an escaped text followed by a closing quote recovers the text.
proof fn lemma_parse_esc(x: Seq<char>, rest: Seq<char>)
    ensures
        parse_str_body(esc(x) + seq!['"'] + rest) == Some((x, rest)),
    decreases x.len(),
{
    let s = esc(x) + seq!['"'] + rest;
    if x.len() == 0 {
        assert(s[0] == '"');
        assert(s.drop_first() =~= rest);
        assert(parse_str_body(s) == Some((Seq::<char>::empty(), rest)));
        assert(x =~= Seq::<char>::empty());
    } else {
        let c = x[0];
        let x1 = x.drop_first();
        assert(esc(x) == esc_char(c) + esc(x1));
        lemma_parse_esc(x1, rest);
        if needs_escape(c) {
            let code = esc_char(c)[1];
            assert(s[0] == '\\');
            assert(s[1] == code);
            assert(unesc_code(code) == Some(c));
            assert(s.skip(2) =~= esc(x1) + seq!['"'] + rest);
            assert(parse_str_body(s) == Some((seq![c] + x1, rest)));
            assert(seq![c] + x1 =~= x);
        } else {
            assert(s[0] == c);
            assert(c != '"' && c != '\\');
            assert(s.drop_first() =~= esc(x1) + seq!['"'] + rest);
            assert(parse_str_body(s) == Some((seq![c] + x1, rest)));
            assert(seq![c] + x1 =~= x);
        }
    }
}

/// Parsing a quoted text recovers the text.
proof fn lemma_parse_quoted(x: Seq<char>, rest: Seq<char>)
    ensures
        parse_string(quoted(x) + rest) == Some((x, rest)),
{
    let s = quoted(x) + rest;
    assert(s[0] == '"');
    assert(s.drop_first() =~= esc(x) + seq!['"'] + rest);
    lemma_parse_esc(x, rest);
}

/// Parsing a rendered entry recovers its key and value.
proof fn lemma_parse_entry_rendered(k: Seq<char>, v: Seq<char>, rest: Seq<char>)
    ensures
        parse_entry(render_entry(k, v) + rest) == Some(((k, v), rest)),
{
    let s = render_entry(k, v) + rest;
    let r1 = seq![':', ' '] + quoted(v) + rest;
    assert(s =~= quoted(k) + r1);
    lemma_parse_quoted(k, r1);
    assert(trim_front(r1) == r1);
    assert(r1[0] == ':');
    let r2 = r1.drop_first();
    assert(r2 =~= seq![' '] + (quoted(v) + rest));
    lemma_trim_front_over(seq![' '], quoted(v) + rest);
    assert((quoted(v) + rest)[0] == '"');
    assert(trim_front(quoted(v) + rest) == quoted(v) + rest);
    lemma_parse_quoted(v, rest);
}

/// Parsing rendered entries recovers them all, leaving the tail with its
/// leading whitespace removed.
proof fn lemma_parse_items_rendered(es: Seq<(Seq<char>, Seq<char>)>, tail: Seq<char>)
    requires
        es.len() >= 1,
        trim_front(tail).len() > 0,
        trim_front(tail)[0] != ',',
    ensures
        parse_items(render_items(es) + tail) == Some((es, trim_front(tail))),
    decreases es.len(),
{
    let s = render_items(es) + tail;
    let e0 = es[0];
    if es.len() == 1 {
        assert(s =~= render_entry(e0.0, e0.1) + tail);
        lemma_parse_entry_rendered(e0.0, e0.1, tail);
        assert(parse_items(s) == Some((seq![e0], trim_front(tail))));
        assert(seq![e0] =~= es);
    } else {
        let es1 = es.drop_first();
        let r = seq![','] + item_sep() + render_items(es1) + tail;
        assert(s =~= render_entry(e0.0, e0.1) + r);
        lemma_parse_entry_rendered(e0.0, e0.1, r);
        assert(r[0] == ',');
        assert(trim_front(r) == r);
        let r2 = r.drop_first();
        assert(r2 =~= item_sep() + (render_items(es1) + tail));
        assert(forall|k: int| 0 <= k < item_sep().len() ==> is_ws(item_sep()[k]));
        lemma_trim_front_over(item_sep(), render_items(es1) + tail);
        assert((render_items(es1) + tail)[0] == '"');
        assert(trim_front(render_items(es1) + tail) == render_items(es1) + tail);
        let r3 = render_items(es1) + tail;
        assert(r3.len() < s.len());
        lemma_parse_items_rendered(es1, tail);
        assert(parse_items(s) == Some((seq![e0] + es1, trim_front(tail))));
        assert(seq![e0] + es1 =~= es);
    }
}

/// A parse result with a text prepended to the parsed string.
spec fn psb_prepend(p: Seq<char>, o: Option<(Seq<char>, Seq<char>)>) -> Option<
    (Seq<char>, Seq<char>),
> {
    match o {
        None => None,
        Some(tr) => Some((p + tr.0, tr.1)),
    }
}

proof fn lemma_psb_assoc(a: Seq<char>, b: Seq<char>, o: Option<(Seq<char>, Seq<char>)>)
    ensures
        psb_prepend(a + b, o) == psb_prepend(a, psb_prepend(b, o)),
{
    match o {
        Some(tr) => {
            assert((a + b) + tr.0 =~= a + (b + tr.0));
        },
        None => {},
    }
}

/// A parse result with entries prepended to the parsed list.
spec fn pit_prepend(
    p: Seq<(Seq<char>, Seq<char>)>,
    o: Option<(Seq<(Seq<char>, Seq<char>)>, Seq<char>)>,
) -> Option<(Seq<(Seq<char>, Seq<char>)>, Seq<char>)> {
    match o {
        None => None,
        Some(ir) => Some((p + ir.0, ir.1)),
    }
}

proof fn lemma_pit_assoc(
    a: Seq<(Seq<char>, Seq<char>)>,
    b: Seq<(Seq<char>, Seq<char>)>,
    o: Option<(Seq<(Seq<char>, Seq<char>)>, Seq<char>)>,
)
    ensures
        pit_prepend(a + b, o) == pit_prepend(a, pit_prepend(b, o)),
{
    match o {
        Some(ir) => {
            assert((a + b) + ir.0 =~= a + (b + ir.0));
        },
        None => {},
    }
}

/// Advances past the whitespace at `from`.
fn scan_ws(v: &Vec<char>, from: usize) -> (j: usize)
    requires
        from <= v@.len(),
    ensures
        from <= j <= v@.len(),
        v@.skip(j as int) == trim_front(v@.skip(from as int)),
{
    let mut j: usize = from;
    while j < v.len() && is_ws_exec(v[j])
        invariant
            from <= j <= v@.len(),
            trim_front(v@.skip(j as int)) == trim_front(v@.skip(from as int)),
        decreases v@.len() - j,
    {
        proof {
            assert(v@.skip(j as int)[0] == v@[j as int]);
            assert(v@.skip(j as int).drop_first() =~= v@.skip(j + 1 as int));
        }
        j = j + 1;
    }
    proof {
        if j < v@.len() {
            assert(v@.skip(j as int)[0] == v@[j as int]);
        }
    }
    j
}

/// Scans a string body starting at `from`, appending the unescaped text to
/// `out` and returning the position after the closing quote.
fn scan_str_body(v: &Vec<char>, from: usize, out: &mut Vec<char>) -> (r: Option<usize>)
    requires
        from <= v@.len(),
    ensures
        ({
            let p = parse_str_body(v@.skip(from as int));
            match r {
                Some(j) => p matches Some(tr) && from < j <= v@.len() && final(out)@ == old(out)@
                    + tr.0 && v@.skip(j as int) == tr.1,
                None => p is None,
            }
        }),
{
    let ghost orig = v@.skip(from as int);
    let ghost base = out@;
    let mut i: usize = from;
    loop
        invariant
            from <= i <= v@.len(),
            orig == v@.skip(from as int),
            base == old(out)@,
            base.len() <= out@.len(),
            base == out@.take(base.len() as int),
            psb_prepend(out@.skip(base.len() as int), parse_str_body(v@.skip(i as int)))
                == parse_str_body(orig),
        decreases v@.len() - i,
    {
        let ghost acc = out@.skip(base.len() as int);
        if i == v.len() {
            proof {
                assert(v@.skip(i as int).len() == 0);
            }
            return None;
        }
        let c = v[i];
        proof {
            assert(v@.skip(i as int)[0] == v@[i as int]);
        }
        if c == '"' {
            proof {
                assert(v@.skip(i as int).drop_first() =~= v@.skip(i + 1 as int));
                assert(acc + Seq::<char>::empty() =~= acc);
                assert(out@ =~= base + acc);
            }
            return Some(i + 1);
        } else if c == '\\' {
            if i + 1 == v.len() {
                proof {
                    assert(v@.skip(i as int).len() < 2);
                }
                return None;
            }
            let e = v[i + 1];
            proof {
                assert(v@.skip(i as int)[1] == v@[i + 1 as int]);
            }
            let u: char;
            if e == '"' {
                u = '"';
            } else if e == '\\' {
                u = '\\';
            } else if e == 'n' {
                u = '\n';
            } else if e == 'r' {
                u = '\r';
            } else if e == 't' {
                u = '\t';
            } else {
                proof {
                    assert(unesc_code(e) is None);
                }
                return None;
            }
            out.push(u);
            proof {
                assert(unesc_code(e) == Some(u));
                assert(v@.skip(i as int).skip(2) =~= v@.skip(i + 2 as int));
                lemma_psb_assoc(acc, seq![u], parse_str_body(v@.skip(i + 2 as int)));
                assert(out@.skip(base.len() as int) =~= acc + seq![u]);
                assert(base =~= out@.take(base.len() as int));
            }
            i = i + 2;
        } else {
            out.push(c);
            proof {
                assert(v@.skip(i as int).drop_first() =~= v@.skip(i + 1 as int));
                lemma_psb_assoc(acc, seq![c], parse_str_body(v@.skip(i + 1 as int)));
                assert(out@.skip(base.len() as int) =~= acc + seq![c]);
                assert(base =~= out@.take(base.len() as int));
            }
            i = i + 1;
        }
    }
}

/// Scans a quoted string starting at `from`.
fn scan_string(v: &Vec<char>, from: usize) -> (r: Option<(String, usize)>)
    requires
        from <= v@.len(),
    ensures
        ({
            let p = parse_string(v@.skip(from as int));
            match r {
                Some(sj) => p matches Some(tr) && sj.0@ == tr.0 && from < sj.1 <= v@.len()
                    && v@.skip(sj.1 as int) == tr.1,
                None => p is None,
            }
        }),
{
    if from < v.len() {
        let c = v[from];
        proof {
            assert(v@.skip(from as int)[0] == v@[from as int]);
        }
        if c == '"' {
            let mut out: Vec<char> = Vec::new();
            proof {
                assert(v@.skip(from as int).drop_first() =~= v@.skip(from + 1 as int));
            }
            match scan_str_body(v, from + 1, &mut out) {
                Some(j) => {
                    proof {
                        match parse_str_body(v@.skip(from + 1 as int)) {
                            Some(tr) => {
                                assert(out@ =~= tr.0);
                            },
                            None => {},
                        }
                    }
                    Some((chars_to_string(&out), j))
                },
                None => None,
            }
        } else {
            None
        }
    } else {
        None
    }
}

/// Scans one `"key": "value"` member starting at `from`.
fn scan_entry(v: &Vec<char>, from: usize) -> (r: Option<(String, String, usize)>)
    requires
        from <= v@.len(),
    ensures
        ({
            let p = parse_entry(v@.skip(from as int));
            match r {
                Some(kvj) => p matches Some(er) && kvj.0@ == er.0.0 && kvj.1@ == er.0.1 && from
                    < kvj.2 <= v@.len() && v@.skip(kvj.2 as int) == er.1,
                None => p is None,
            }
        }),
{
    match scan_string(v, from) {
        None => None,
        Some((k, j1)) => {
            let j2: usize = scan_ws(v, j1);
            if j2 < v.len() {
                let c = v[j2];
                proof {
                    assert(v@.skip(j2 as int)[0] == v@[j2 as int]);
                }
                if c == ':' {
                    proof {
                        assert(v@.skip(j2 as int).drop_first() =~= v@.skip(j2 + 1 as int));
                    }
                    let j3: usize = scan_ws(v, j2 + 1);
                    match scan_string(v, j3) {
                        None => None,
                        Some((val, j4)) => Some((k, val, j4)),
                    }
                } else {
                    None
                }
            } else {
                None
            }
        },
    }
}

/// Scans comma-separated members starting at `from`, appending them to `es`.
fn scan_items(v: &Vec<char>, from: usize, es: &mut Vec<(String, String)>) -> (r: Option<usize>)
    requires
        from <= v@.len(),
    ensures
        ({
            let p = parse_items(v@.skip(from as int));
            match r {
                Some(j) => p matches Some(ir) && final(es).deep_view() == old(es).deep_view()
                    + ir.0 && j <= v@.len() && v@.skip(j as int) == ir.1,
                None => p is None,
            }
        }),
{
    let ghost orig = v@.skip(from as int);
    let ghost base = es.deep_view();
    let mut i: usize = from;
    loop
        invariant
            from <= i <= v@.len(),
            orig == v@.skip(from as int),
            base == old(es).deep_view(),
            base.len() <= es.deep_view().len(),
            base == es.deep_view().take(base.len() as int),
            pit_prepend(es.deep_view().skip(base.len() as int), parse_items(v@.skip(i as int)))
                == parse_items(orig),
        decreases v@.len() - i,
    {
        let ghost acc = es.deep_view().skip(base.len() as int);
        match scan_entry(v, i) {
            None => {
                return None;
            },
            Some((k, val, j)) => {
                let ghost kv = (k@, val@);
                es.push((k, val));
                proof {
                    assert(es.deep_view() =~= base + (acc + seq![kv]));
                    assert(es.deep_view().skip(base.len() as int) =~= acc + seq![kv]);
                    assert(base =~= es.deep_view().take(base.len() as int));
                }
                let j2: usize = scan_ws(v, j);
                if j2 < v.len() && v[j2] == ',' {
                    proof {
                        assert(v@.skip(j2 as int)[0] == v@[j2 as int]);
                        assert(v@.skip(j2 as int).drop_first() =~= v@.skip(j2 + 1 as int));
                    }
                    let j3: usize = scan_ws(v, j2 + 1);
                    proof {
                        assert(v@.skip(j3 as int).len() < v@.skip(i as int).len());
                        lemma_pit_assoc(acc, seq![kv], parse_items(v@.skip(j3 as int)));
                    }
                    i = j3;
                } else {
                    proof {
                        if j2 < v@.len() {
                            assert(v@.skip(j2 as int)[0] == v@[j2 as int]);
                        }
                        assert(es.deep_view() =~= base + (acc + seq![kv]));
                    }
                    return Some(j2);
                }
            },
        }
    }
}

/// Scans a whole document.
fn scan_doc(v: &Vec<char>) -> (r: Option<Vec<(String, String)>>)
    ensures
        ({
            let p = parse_doc(v@);
            match r {
                Some(ps) => p matches Some(es) && ps.deep_view() == es,
                None => p is None,
            }
        }),
{
    proof {
        assert(v@.skip(0) =~= v@);
    }
    let i0: usize = scan_ws(v, 0);
    if i0 == v.len() {
        return None;
    }
    proof {
        assert(v@.skip(i0 as int)[0] == v@[i0 as int]);
    }
    if v[i0] != '{' {
        return None;
    }
    proof {
        assert(v@.skip(i0 as int).drop_first() =~= v@.skip(i0 + 1 as int));
    }
    let i1: usize = scan_ws(v, i0 + 1);
    match scan_string(v, i1) {
        None => None,
        Some((name, j)) => {
            if !str_eq(name.as_str(), "entries") {
                return None;
            }
            let j2: usize = scan_ws(v, j);
            if j2 == v.len() {
                return None;
            }
            proof {
                assert(v@.skip(j2 as int)[0] == v@[j2 as int]);
            }
            if v[j2] != ':' {
                return None;
            }
            proof {
                assert(v@.skip(j2 as int).drop_first() =~= v@.skip(j2 + 1 as int));
            }
            let j3: usize = scan_ws(v, j2 + 1);
            if j3 == v.len() {
                return None;
            }
            proof {
                assert(v@.skip(j3 as int)[0] == v@[j3 as int]);
            }
            if v[j3] != '{' {
                return None;
            }
            proof {
                assert(v@.skip(j3 as int).drop_first() =~= v@.skip(j3 + 1 as int));
            }
            let j4: usize = scan_ws(v, j3 + 1);
            if j4 == v.len() {
                return None;
            }
            proof {
                assert(v@.skip(j4 as int)[0] == v@[j4 as int]);
            }
            let mut es: Vec<(String, String)> = Vec::new();
            if v[j4] == '}' {
                proof {
                    assert(v@.skip(j4 as int).drop_first() =~= v@.skip(j4 + 1 as int));
                }
                let j5: usize = scan_ws(v, j4 + 1);
                if j5 == v.len() {
                    return None;
                }
                proof {
                    assert(v@.skip(j5 as int)[0] == v@[j5 as int]);
                }
                if v[j5] != '}' {
                    return None;
                }
                proof {
                    assert(v@.skip(j5 as int).drop_first() =~= v@.skip(j5 + 1 as int));
                }
                let j6: usize = scan_ws(v, j5 + 1);
                if j6 != v.len() {
                    proof {
                        assert(v@.skip(j6 as int).len() > 0);
                    }
                    return None;
                }
                proof {
                    assert(v@.skip(j6 as int).len() == 0);
                    assert(es.deep_view() =~= Seq::<(Seq<char>, Seq<char>)>::empty());
                }
                return Some(es);
            }
            match scan_items(v, j4, &mut es) {
                None => None,
                Some(j5) => {
                    if j5 == v.len() {
                        return None;
                    }
                    proof {
                        assert(v@.skip(j5 as int)[0] == v@[j5 as int]);
                    }
                    if v[j5] != '}' {
                        return None;
                    }
                    proof {
                        assert(v@.skip(j5 as int).drop_first() =~= v@.skip(j5 + 1 as int));
                    }
                    let j6: usize = scan_ws(v, j5 + 1);
                    if j6 == v.len() {
                        return None;
                    }
                    proof {
                        assert(v@.skip(j6 as int)[0] == v@[j6 as int]);
                    }
                    if v[j6] != '}' {
                        return None;
                    }
                    proof {
                        assert(v@.skip(j6 as int).drop_first() =~= v@.skip(j6 + 1 as int));
                    }
                    let j7: usize = scan_ws(v, j6 + 1);
                    if j7 != v.len() {
                        proof {
                            assert(v@.skip(j7 as int).len() > 0);
                        }
                        return None;
                    }
                    proof {
                        assert(v@.skip(j7 as int).len() == 0);
                        assert(Seq::<(Seq<char>, Seq<char>)>::empty() + es.deep_view()
                            =~= es.deep_view());
                    }
                    Some(es)
                },
            }
        },
    }
}

/// Parses a note document to its key/value pairs, in document order.
pub fn parse_file_content(text: &str) -> (r: Option<Vec<(String, String)>>)
    ensures
        ({
            let p = parse_doc(text@);
            match r {
                Some(ps) => p matches Some(es) && ps.deep_view() == es,
                None => p is None,
            }
        }),
{
    let cs = string_to_chars(text);
    scan_doc(&cs)
}

/// Appends `s`, escaped for the inside of a JSON string, to `out`.
fn push_escaped(out: &mut Vec<char>, s: &str)
    ensures
        final(out)@ == old(out)@ + esc(s@),
{
    let cs = string_to_chars(s);
    let n: usize = cs.len();
    let mut i: usize = 0;
    proof {
        assert(cs@.take(0) =~= Seq::<char>::empty());
        assert(esc(Seq::<char>::empty()) == Seq::<char>::empty());
        assert(out@ =~= old(out)@ + esc(cs@.take(0)));
    }
    while i < n
        invariant
            i <= n,
            n == cs@.len(),
            cs@ == s@,
            out@ == old(out)@ + esc(cs@.take(i as int)),
        decreases n - i,
    {
        let c = cs[i];
        if c == '"' {
            out.push('\\');
            out.push('"');
        } else if c == '\\' {
            out.push('\\');
            out.push('\\');
        } else if c == '\n' {
            out.push('\\');
            out.push('n');
        } else if c == '\r' {
            out.push('\\');
            out.push('r');
        } else if c == '\t' {
            out.push('\\');
            out.push('t');
        } else {
            out.push(c);
        }
        proof {
            lemma_esc_push(cs@.take(i as int), c);
            assert(cs@.take(i + 1 as int) =~= cs@.take(i as int).push(c));
            assert(out@ =~= old(out)@ + esc(cs@.take(i + 1 as int)));
        }
        i = i + 1;
    }
    proof {
        assert(cs@.take(n as int) =~= cs@);
    }
}

/// Renders key/value pairs as a note document.
pub fn render_pairs(ps: &Vec<(String, String)>) -> (out: String)
    ensures
        out@ == render_doc(ps.deep_view()),
{
    let mut out: Vec<char> = Vec::new();
    out.push('{');
    out.push('\n');
    out.push(' ');
    out.push(' ');
    out.push('"');
    out.push('e');
    out.push('n');
    out.push('t');
    out.push('r');
    out.push('i');
    out.push('e');
    out.push('s');
    out.push('"');
    out.push(':');
    out.push(' ');
    out.push('{');
    proof {
        assert(out@ =~= doc_open());
    }
    let n: usize = ps.len();
    if n == 0 {
        out.push('}');
        out.push('\n');
        out.push('}');
        proof {
            assert(ps.deep_view().len() == 0);
            assert(out@ =~= render_doc(ps.deep_view()));
        }
        return chars_to_string(&out);
    }
    let mut i: usize = 0;
    while i < n
        invariant
            i <= n,
            n == ps@.len(),
            n >= 1,
            i == 0 ==> out@ == doc_open(),
            i > 0 ==> out@ == doc_open() + item_sep() + render_items(ps.deep_view().take(i as int)),
        decreases n - i,
    {
        let ghost was_first = i == 0;
        if i == 0 {
            out.push('\n');
            out.push(' ');
            out.push(' ');
            out.push(' ');
            out.push(' ');
        } else {
            out.push(',');
            out.push('\n');
            out.push(' ');
            out.push(' ');
            out.push(' ');
            out.push(' ');
        }
        let ghost pre = out@;
        out.push('"');
        push_escaped(&mut out, ps[i].0.as_str());
        out.push('"');
        out.push(':');
        out.push(' ');
        out.push('"');
        push_escaped(&mut out, ps[i].1.as_str());
        out.push('"');
        proof {
            let kv = ps.deep_view()[i as int];
            assert(kv == (ps@[i as int].0@, ps@[i as int].1@));
            assert(out@ =~= pre + render_entry(kv.0, kv.1));
            if was_first {
                assert(ps.deep_view().take(1) =~= seq![kv]);
                assert(render_items(seq![kv]) == render_entry(kv.0, kv.1));
                assert(out@ =~= doc_open() + item_sep() + render_items(ps.deep_view().take(1)));
            } else {
                lemma_render_items_push(ps.deep_view().take(i as int), kv);
                assert(ps.deep_view().take(i + 1 as int) =~= ps.deep_view().take(i as int).push(
                    kv,
                ));
                assert(out@ =~= doc_open() + item_sep() + render_items(
                    ps.deep_view().take(i + 1 as int),
                ));
            }
        }
        i = i + 1;
    }
    out.push('\n');
    out.push(' ');
    out.push(' ');
    out.push('}');
    out.push('\n');
    out.push('}');
    proof {
        assert(ps.deep_view().take(n as int) =~= ps.deep_view());
        assert(out@ =~= render_doc(ps.deep_view()));
    }
    chars_to_string(&out)
}

/// Law: a rendered document parses back to exactly the entries it was
/// rendered from — saving and loading reproduce the same ordered mapping.
pub proof fn lemma_doc_round_trip(es: Seq<(Seq<char>, Seq<char>)>)
    ensures
        parse_doc(render_doc(es)) == Some(es),
{
    reveal_strlit("entries");
    let name = "entries"@;
    assert(name =~= seq!['e', 'n', 't', 'r', 'i', 'e', 's']);
    assert(forall|k: int| 0 <= k < name.len() ==> !needs_escape(name[k]));
    lemma_esc_raw(name);
    let s = render_doc(es);
    let head = seq!['"', 'e', 'n', 't', 'r', 'i', 'e', 's', '"', ':', ' ', '{'];
    assert(quoted(name) =~= seq!['"', 'e', 'n', 't', 'r', 'i', 'e', 's', '"']);
    if es.len() == 0 {
        let x = seq!['}', '\n', '}'];
        assert(s =~= doc_open() + x);
        assert(s[0] == '{');
        assert(trim_front(s) == s);
        assert(s.drop_first() =~= seq!['\n', ' ', ' '] + (head + x));
        lemma_trim_front_over(seq!['\n', ' ', ' '], head + x);
        assert((head + x)[0] == '"');
        let s1 = head + x;
        assert(trim_front(s1) == s1);
        assert(s1 =~= quoted(name) + (seq![':', ' ', '{'] + x));
        lemma_parse_quoted(name, seq![':', ' ', '{'] + x);
        let r1 = seq![':', ' ', '{'] + x;
        assert(r1[0] == ':');
        assert(trim_front(r1) == r1);
        assert(r1.drop_first() =~= seq![' '] + (seq!['{'] + x));
        lemma_trim_front_over(seq![' '], seq!['{'] + x);
        assert((seq!['{'] + x)[0] == '{');
        assert(trim_front(seq!['{'] + x) == seq!['{'] + x);
        assert((seq!['{'] + x).drop_first() =~= x);
        assert(trim_front(x) == x);
        assert(x[0] == '}');
        assert(x.drop_first() =~= seq!['\n', '}']);
        lemma_trim_front_over(seq!['\n'], seq!['}']);
        assert(seq!['\n', '}'] =~= seq!['\n'] + seq!['}']);
        assert(trim_front(seq!['\n', '}']) =~= seq!['}']);
        assert(trim_front(seq!['}']).len() > 0 && trim_front(seq!['}'])[0] == '}');
        assert(seq!['}'].drop_first() =~= Seq::<char>::empty());
        assert(trim_front(Seq::<char>::empty()).len() == 0);
        assert(parse_close(Seq::<(Seq<char>, Seq<char>)>::empty(), x.drop_first())
            == Some(Seq::<(Seq<char>, Seq<char>)>::empty()));
        assert(parse_doc(s) == Some(Seq::<(Seq<char>, Seq<char>)>::empty()));
        assert(es =~= Seq::<(Seq<char>, Seq<char>)>::empty());
    } else {
        let tail2 = seq!['\n', ' ', ' ', '}', '\n', '}'];
        let x = item_sep() + render_items(es) + tail2;
        assert(s =~= doc_open() + x);
        assert(s[0] == '{');
        assert(trim_front(s) == s);
        assert(s.drop_first() =~= seq!['\n', ' ', ' '] + (head + x));
        lemma_trim_front_over(seq!['\n', ' ', ' '], head + x);
        assert((head + x)[0] == '"');
        let s1 = head + x;
        assert(trim_front(s1) == s1);
        assert(s1 =~= quoted(name) + (seq![':', ' ', '{'] + x));
        lemma_parse_quoted(name, seq![':', ' ', '{'] + x);
        let r1 = seq![':', ' ', '{'] + x;
        assert(r1[0] == ':');
        assert(trim_front(r1) == r1);
        assert(r1.drop_first() =~= seq![' '] + (seq!['{'] + x));
        lemma_trim_front_over(seq![' '], seq!['{'] + x);
        assert((seq!['{'] + x)[0] == '{');
        assert(trim_front(seq!['{'] + x) == seq!['{'] + x);
        assert((seq!['{'] + x).drop_first() =~= x);
        // the entries object's body: whitespace, then the first quote
        assert(x =~= item_sep() + (render_items(es) + tail2));
        assert(forall|k: int| 0 <= k < item_sep().len() ==> is_ws(item_sep()[k]));
        lemma_trim_front_over(item_sep(), render_items(es) + tail2);
        assert(render_items(es)[0] == '"');
        assert((render_items(es) + tail2)[0] == '"');
        assert(trim_front(render_items(es) + tail2) == render_items(es) + tail2);
        // the members
        assert(tail2 =~= seq!['\n', ' ', ' '] + seq!['}', '\n', '}']);
        lemma_trim_front_over(seq!['\n', ' ', ' '], seq!['}', '\n', '}']);
        assert(trim_front(seq!['}', '\n', '}']) == seq!['}', '\n', '}']);
        assert(trim_front(tail2) =~= seq!['}', '\n', '}']);
        lemma_parse_items_rendered(es, tail2);
        let r5 = seq!['}', '\n', '}'];
        assert(r5[0] == '}');
        assert(r5.drop_first() =~= seq!['\n', '}']);
        lemma_trim_front_over(seq!['\n'], seq!['}']);
        assert(seq!['\n', '}'] =~= seq!['\n'] + seq!['}']);
        assert(trim_front(seq!['\n', '}']) =~= seq!['}']);
        assert(seq!['}'].drop_first() =~= Seq::<char>::empty());
        assert(parse_close(es, r5.drop_first()) == Some(es));
        assert(parse_doc(s) == Some(es));
    }
}

} // verus!
