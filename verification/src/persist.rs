//! The persisted form of the knowledge base: a single JSON document, one
//! object with one field `sections`, each element carrying `keywords` (an
//! array of strings), `keys` and `commands` (each an array of two-string
//! arrays, or null when absent). This module writes that document and parses
//! it back; parsing inverts writing exactly, for every knowledge base.
//!
//! The writer emits the document in one canonical, compact form; the parser
//! accepts exactly that form. Quotes and backslashes inside strings are
//! escaped with a backslash; any escaped character stands for itself.

use vstd::prelude::*;
use vstd::string::*;

use crate::kb::{Data, Section, SectionModel};

verus! {

/// The escaped form of one character inside a JSON string.
pub open spec fn esc_char(c: char) -> Seq<char> {
    if c == '"' || c == '\\' {
        seq!['\\', c]
    } else {
        seq![c]
    }
}

/// The escaped form of a whole string body.
pub open spec fn esc_str(t: Seq<char>) -> Seq<char>
    decreases t.len(),
{
    if t.len() == 0 {
        Seq::empty()
    } else {
        esc_char(t[0]) + esc_str(t.skip(1))
    }
}

/// A quoted, escaped JSON string.
pub open spec fn ser_string(t: Seq<char>) -> Seq<char> {
    seq!['"'] + esc_str(t) + seq!['"']
}

/// Comma-separated strings, without the surrounding brackets.
pub open spec fn ser_strings_body(ts: Seq<Seq<char>>) -> Seq<char>
    decreases ts.len(),
{
    if ts.len() == 0 {
        Seq::empty()
    } else if ts.len() == 1 {
        ser_string(ts[0])
    } else {
        ser_string(ts[0]) + seq![','] + ser_strings_body(ts.skip(1))
    }
}

/// A (name, description) entry as a two-string JSON array.
pub open spec fn ser_pair(p: (Seq<char>, Seq<char>)) -> Seq<char> {
    seq!['['] + ser_string(p.0) + seq![','] + ser_string(p.1) + seq![']']
}

/// Comma-separated entries, without the surrounding brackets.
pub open spec fn ser_pairs_body(ps: Seq<(Seq<char>, Seq<char>)>) -> Seq<char>
    decreases ps.len(),
{
    if ps.len() == 0 {
        Seq::empty()
    } else if ps.len() == 1 {
        ser_pair(ps[0])
    } else {
        ser_pair(ps[0]) + seq![','] + ser_pairs_body(ps.skip(1))
    }
}

/// An optional entry list: `null` when absent, else a JSON array.
pub open spec fn ser_entries(e: Option<Seq<(Seq<char>, Seq<char>)>>) -> Seq<char> {
    match e {
        None => "null"@,
        Some(ps) => seq!['['] + ser_pairs_body(ps) + seq![']'],
    }
}

/// One section object.
pub open spec fn ser_section(m: SectionModel) -> Seq<char> {
    "{\"keywords\":["@ + ser_strings_body(m.keywords) + seq![']'] + ",\"keys\":"@ + ser_entries(
        m.keys,
    ) + ",\"commands\":"@ + ser_entries(m.commands) + seq!['}']
}

/// Comma-separated sections, without the surrounding brackets.
pub open spec fn ser_sections_body(ms: Seq<SectionModel>) -> Seq<char>
    decreases ms.len(),
{
    if ms.len() == 0 {
        Seq::empty()
    } else if ms.len() == 1 {
        ser_section(ms[0])
    } else {
        ser_section(ms[0]) + seq![','] + ser_sections_body(ms.skip(1))
    }
}

/// The whole persisted document.
pub open spec fn ser_data(ms: Seq<SectionModel>) -> Seq<char> {
    "{\"sections\":["@ + ser_sections_body(ms) + seq![']'] + seq!['}']
}

/// Character-level content of the short string literals the document uses.
proof fn lemma_lits()
    ensures
        "\""@ =~= seq!['"'],
        "\\"@ =~= seq!['\\'],
        ","@ =~= seq![','],
        "["@ =~= seq!['['],
        "]"@ =~= seq![']'],
        "{"@ =~= seq!['{'],
        "}"@ =~= seq!['}'],
        "null"@ =~= seq!['n', 'u', 'l', 'l'],
        "{\"keywords\":["@.len() == 13,
        "{\"keywords\":["@[0] == '{',
        "{\"sections\":["@.len() == 13,
        "{\"sections\":["@[0] == '{',
        ",\"keys\":"@.len() == 8,
        ",\"keys\":"@[0] == ',',
        ",\"commands\":"@.len() == 12,
        ",\"commands\":"@[0] == ',',
{
    reveal_strlit("\"");
    reveal_strlit("\\");
    reveal_strlit(",");
    reveal_strlit("[");
    reveal_strlit("]");
    reveal_strlit("{");
    reveal_strlit("}");
    reveal_strlit("null");
    reveal_strlit("{\"keywords\":[");
    reveal_strlit("{\"sections\":[");
    reveal_strlit(",\"keys\":");
    reveal_strlit(",\"commands\":");
}

/// Appends the escaped body of `t` from character `idx` on.
fn w_escaped_from(out: &mut String, t: &str, idx: usize)
    requires
        idx <= t@.len(),
    ensures
        final(out)@ == old(out)@ + esc_str(t@.skip(idx as int)),
    decreases t@.len() - idx,
{
    let n = t.unicode_len();
    if idx >= n {
        proof {
            assert(t@.skip(idx as int) =~= Seq::<char>::empty());
            assert(out@ + esc_str(t@.skip(idx as int)) =~= out@);
        }
        return ;
    }
    let ghost base = out@;
    let c = t.get_char(idx);
    if c == '"' || c == '\\' {
        out.append("\\");
    }
    out.append(t.substring_char(idx, idx + 1));
    proof {
        lemma_lits();
        assert(t@.subrange(idx as int, idx as int + 1) =~= seq![t@[idx as int]]);
        assert(out@ =~= base + esc_char(t@[idx as int]));
    }
    w_escaped_from(out, t, idx + 1);
    proof {
        assert(t@.skip(idx as int)[0] == t@[idx as int]);
        assert(t@.skip(idx as int).skip(1) =~= t@.skip(idx as int + 1));
        assert((base + esc_char(t@[idx as int])) + esc_str(t@.skip(idx as int + 1)) =~= base
            + esc_str(t@.skip(idx as int)));
    }
}

/// Appends one quoted, escaped string.
fn w_string(out: &mut String, t: &str)
    ensures
        final(out)@ == old(out)@ + ser_string(t@),
{
    let ghost base = out@;
    out.append("\"");
    w_escaped_from(out, t, 0);
    out.append("\"");
    proof {
        lemma_lits();
        assert(t@.skip(0) =~= t@);
        assert(out@ =~= base + ser_string(t@));
    }
}

/// Appends the comma-separated strings of `v` from `idx` on.
fn w_strings_from(out: &mut String, v: &Vec<String>, idx: usize)
    requires
        idx <= v@.len(),
    ensures
        final(out)@ == old(out)@ + ser_strings_body(v.deep_view().skip(idx as int)),
    decreases v@.len() - idx,
{
    let ghost base = out@;
    let ghost rest = v.deep_view().skip(idx as int);
    if idx >= v.len() {
        proof {
            assert(rest =~= Seq::<Seq<char>>::empty());
            assert(out@ + ser_strings_body(rest) =~= out@);
        }
        return ;
    }
    proof {
        assert(rest[0] == v.deep_view()[idx as int]);
        assert(rest.skip(1) =~= v.deep_view().skip(idx as int + 1));
    }
    w_string(out, v[idx].as_str());
    if idx + 1 == v.len() {
        proof {
            assert(ser_strings_body(rest) == ser_string(rest[0]));
        }
    } else {
        out.append(",");
        w_strings_from(out, v, idx + 1);
        proof {
            lemma_lits();
            assert(((base + ser_string(rest[0])) + ","@) + ser_strings_body(rest.skip(1)) =~= base
                + ser_strings_body(rest));
        }
    }
}

/// Appends one entry as a two-string array.
fn w_pair(out: &mut String, p: &(String, String))
    ensures
        final(out)@ == old(out)@ + ser_pair(p.deep_view()),
{
    let ghost base = out@;
    out.append("[");
    w_string(out, p.0.as_str());
    out.append(",");
    w_string(out, p.1.as_str());
    out.append("]");
    proof {
        lemma_lits();
        assert(out@ =~= base + ser_pair(p.deep_view()));
    }
}

/// Appends the comma-separated entries of `v` from `idx` on.
fn w_pairs_from(out: &mut String, v: &Vec<(String, String)>, idx: usize)
    requires
        idx <= v@.len(),
    ensures
        final(out)@ == old(out)@ + ser_pairs_body(v.deep_view().skip(idx as int)),
    decreases v@.len() - idx,
{
    let ghost base = out@;
    let ghost rest = v.deep_view().skip(idx as int);
    if idx >= v.len() {
        proof {
            assert(rest =~= Seq::<(Seq<char>, Seq<char>)>::empty());
            assert(out@ + ser_pairs_body(rest) =~= out@);
        }
        return ;
    }
    proof {
        assert(rest[0] == v.deep_view()[idx as int]);
        assert(rest.skip(1) =~= v.deep_view().skip(idx as int + 1));
    }
    w_pair(out, &v[idx]);
    if idx + 1 == v.len() {
        proof {
            assert(ser_pairs_body(rest) == ser_pair(rest[0]));
        }
    } else {
        out.append(",");
        w_pairs_from(out, v, idx + 1);
        proof {
            lemma_lits();
            assert(((base + ser_pair(rest[0])) + ","@) + ser_pairs_body(rest.skip(1)) =~= base
                + ser_pairs_body(rest));
        }
    }
}

/// Appends an optional entry list: `null` when absent.
fn w_entries(out: &mut String, e: &Option<Vec<(String, String)>>)
    ensures
        final(out)@ == old(out)@ + ser_entries(e.deep_view()),
{
    let ghost base = out@;
    match e {
        None => {
            out.append("null");
        },
        Some(v) => {
            out.append("[");
            w_pairs_from(out, v, 0);
            out.append("]");
            proof {
                lemma_lits();
                assert(v.deep_view().skip(0) =~= v.deep_view());
                assert(out@ =~= base + ser_entries(e.deep_view()));
            }
        },
    }
}

/// Appends one section object.
fn w_section(out: &mut String, sec: &Section)
    ensures
        final(out)@ == old(out)@ + ser_section(sec.deep_view()),
{
    let ghost base = out@;
    out.append("{\"keywords\":[");
    w_strings_from(out, &sec.keywords, 0);
    out.append("]");
    out.append(",\"keys\":");
    w_entries(out, &sec.keys);
    out.append(",\"commands\":");
    w_entries(out, &sec.commands);
    out.append("}");
    proof {
        lemma_lits();
        assert(sec.keywords.deep_view().skip(0) =~= sec.keywords.deep_view());
        assert(out@ =~= base + ser_section(sec.deep_view()));
    }
}

/// Appends the comma-separated sections of `v` from `idx` on.
fn w_sections_from(out: &mut String, v: &Vec<Section>, idx: usize)
    requires
        idx <= v@.len(),
    ensures
        final(out)@ == old(out)@ + ser_sections_body(v.deep_view().skip(idx as int)),
    decreases v@.len() - idx,
{
    let ghost base = out@;
    let ghost rest = v.deep_view().skip(idx as int);
    if idx >= v.len() {
        proof {
            assert(rest =~= Seq::<SectionModel>::empty());
            assert(out@ + ser_sections_body(rest) =~= out@);
        }
        return ;
    }
    proof {
        assert(rest[0] == v.deep_view()[idx as int]);
        assert(rest.skip(1) =~= v.deep_view().skip(idx as int + 1));
    }
    w_section(out, &v[idx]);
    if idx + 1 == v.len() {
        proof {
            assert(ser_sections_body(rest) == ser_section(rest[0]));
        }
    } else {
        out.append(",");
        w_sections_from(out, v, idx + 1);
        proof {
            lemma_lits();
            assert(((base + ser_section(rest[0])) + ","@) + ser_sections_body(rest.skip(1)) =~= base
                + ser_sections_body(rest));
        }
    }
}

/// Writes the whole knowledge base in its persisted JSON form.
pub fn serialize_data(d: &Data) -> (r: String)
    ensures
        r@ == ser_data(d.deep_view()),
{
    let mut out = String::new();
    out.append("{\"sections\":[");
    w_sections_from(&mut out, &d.sections, 0);
    out.append("]");
    out.append("}");
    proof {
        lemma_lits();
        assert(d.sections.deep_view().skip(0) =~= d.sections.deep_view());
        assert(out@ =~= ser_data(d.deep_view()));
    }
    out
}

/// Whether the characters of `lit` stand in `s` at position `i`.
pub open spec fn lit_at(s: Seq<char>, i: int, lit: Seq<char>) -> bool {
    0 <= i && i + lit.len() <= s.len() && s.subrange(i, i + lit.len()) == lit
}

/// Parses a string body up to and including the closing quote, undoing the
/// escaping: a backslash makes the following character stand for itself.
pub open spec fn p_strbody(s: Seq<char>, i: int) -> Option<(Seq<char>, int)>
    decreases s.len() - i,
{
    if i < 0 || i >= s.len() {
        None
    } else if s[i] == '"' {
        Some((Seq::empty(), i + 1))
    } else if s[i] == '\\' {
        if i + 1 < s.len() {
            match p_strbody(s, i + 2) {
                Some((t, j)) => Some((seq![s[i + 1]] + t, j)),
                None => None,
            }
        } else {
            None
        }
    } else {
        match p_strbody(s, i + 1) {
            Some((t, j)) => Some((seq![s[i]] + t, j)),
            None => None,
        }
    }
}

/// Parses a quoted string.
pub open spec fn p_string(s: Seq<char>, i: int) -> Option<(Seq<char>, int)> {
    if 0 <= i && i < s.len() && s[i] == '"' {
        p_strbody(s, i + 1)
    } else {
        None
    }
}

/// Parses the rest of a string array, starting after `[` or after a comma,
/// up to and including the closing bracket.
pub open spec fn p_str_list(s: Seq<char>, i: int, allow_empty: bool) -> Option<
    (Seq<Seq<char>>, int),
>
    decreases s.len() - i,
{
    if i < 0 || i >= s.len() {
        None
    } else if s[i] == ']' {
        if allow_empty {
            Some((Seq::empty(), i + 1))
        } else {
            None
        }
    } else {
        match p_string(s, i) {
            Some((t, j)) => if i < j && j < s.len() {
                if s[j] == ']' {
                    Some((seq![t], j + 1))
                } else if s[j] == ',' {
                    match p_str_list(s, j + 1, false) {
                        Some((ts, k)) => Some((seq![t] + ts, k)),
                        None => None,
                    }
                } else {
                    None
                }
            } else {
                None
            },
            None => None,
        }
    }
}

/// Parses one two-string array entry.
pub open spec fn p_pair(s: Seq<char>, i: int) -> Option<((Seq<char>, Seq<char>), int)> {
    if 0 <= i && i < s.len() && s[i] == '[' {
        match p_string(s, i + 1) {
            Some((a, j)) => if j < s.len() && s[j] == ',' {
                match p_string(s, j + 1) {
                    Some((b, k)) => if k < s.len() && s[k] == ']' {
                        Some(((a, b), k + 1))
                    } else {
                        None
                    },
                    None => None,
                }
            } else {
                None
            },
            None => None,
        }
    } else {
        None
    }
}

/// Parses the rest of an entry array, up to and including the closing
/// bracket.
pub open spec fn p_pair_list(s: Seq<char>, i: int, allow_empty: bool) -> Option<
    (Seq<(Seq<char>, Seq<char>)>, int),
>
    decreases s.len() - i,
{
    if i < 0 || i >= s.len() {
        None
    } else if s[i] == ']' {
        if allow_empty {
            Some((Seq::empty(), i + 1))
        } else {
            None
        }
    } else {
        match p_pair(s, i) {
            Some((p, j)) => if i < j && j < s.len() {
                if s[j] == ']' {
                    Some((seq![p], j + 1))
                } else if s[j] == ',' {
                    match p_pair_list(s, j + 1, false) {
                        Some((ps, k)) => Some((seq![p] + ps, k)),
                        None => None,
                    }
                } else {
                    None
                }
            } else {
                None
            },
            None => None,
        }
    }
}

/// Parses an optional entry list: `null`, or a bracketed entry array.
pub open spec fn p_entries(s: Seq<char>, i: int) -> Option<
    (Option<Seq<(Seq<char>, Seq<char>)>>, int),
> {
    if lit_at(s, i, "null"@) {
        Some((None, i + "null"@.len()))
    } else if 0 <= i && i < s.len() && s[i] == '[' {
        match p_pair_list(s, i + 1, true) {
            Some((ps, j)) => Some((Some(ps), j)),
            None => None,
        }
    } else {
        None
    }
}

/// Parses one section object.
pub open spec fn p_section(s: Seq<char>, i: int) -> Option<(SectionModel, int)> {
    if lit_at(s, i, "{\"keywords\":["@) {
        match p_str_list(s, i + "{\"keywords\":["@.len(), true) {
            Some((ks, j)) => if lit_at(s, j, ",\"keys\":"@) {
                match p_entries(s, j + ",\"keys\":"@.len()) {
                    Some((keys, k)) => if lit_at(s, k, ",\"commands\":"@) {
                        match p_entries(s, k + ",\"commands\":"@.len()) {
                            Some((commands, l)) => if l < s.len() && s[l] == '}' {
                                Some((SectionModel { keywords: ks, keys, commands }, l + 1))
                            } else {
                                None
                            },
                            None => None,
                        }
                    } else {
                        None
                    },
                    None => None,
                }
            } else {
                None
            },
            None => None,
        }
    } else {
        None
    }
}

/// Parses the rest of the section array, up to and including the closing
/// bracket.
pub open spec fn p_sec_list(s: Seq<char>, i: int, allow_empty: bool) -> Option<
    (Seq<SectionModel>, int),
>
    decreases s.len() - i,
{
    if i < 0 || i >= s.len() {
        None
    } else if s[i] == ']' {
        if allow_empty {
            Some((Seq::empty(), i + 1))
        } else {
            None
        }
    } else {
        match p_section(s, i) {
            Some((m, j)) => if i < j && j < s.len() {
                if s[j] == ']' {
                    Some((seq![m], j + 1))
                } else if s[j] == ',' {
                    match p_sec_list(s, j + 1, false) {
                        Some((ms, k)) => Some((seq![m] + ms, k)),
                        None => None,
                    }
                } else {
                    None
                }
            } else {
                None
            },
            None => None,
        }
    }
}

/// Parses a whole persisted document; the closing brace must end the input.
pub open spec fn p_data(s: Seq<char>) -> Option<Seq<SectionModel>> {
    if lit_at(s, 0, "{\"sections\":["@) {
        match p_sec_list(s, "{\"sections\":["@.len() as int, true) {
            Some((ms, j)) => if j < s.len() && s[j] == '}' && j + 1 == s.len() {
                Some(ms)
            } else {
                None
            },
            None => None,
        }
    } else {
        None
    }
}

/// Whether the literal `lit` stands in `s` at character position `i`.
fn match_lit(s: &str, i: usize, lit: &str) -> (r: bool)
    ensures
        r == lit_at(s@, i as int, lit@),
{
    let n = s.unicode_len();
    let m = lit.unicode_len();
    if m > n || i > n - m {
        return false;
    }
    let mut k: usize = 0;
    while k < m
        invariant
            n == s@.len(),
            m == lit@.len(),
            i + m <= n,
            0 <= k <= m,
            forall|q: int| 0 <= q < k ==> s@[i + q] == lit@[q],
        decreases m - k,
    {
        if s.get_char(i + k) != lit.get_char(k) {
            proof {
                assert(s@.subrange(i as int, i as int + lit@.len())[k as int] != lit@[k as int]);
            }
            return false;
        }
        k = k + 1;
    }
    proof {
        assert(s@.subrange(i as int, i as int + lit@.len()) =~= lit@);
    }
    true
}

/// Parses a string body up to and including the closing quote.
fn x_strbody(s: &str, i: usize) -> (r: Option<(String, usize)>)
    ensures
        match r {
            Some(tj) => p_strbody(s@, i as int) == Some((tj.0@, tj.1 as int)),
            None => p_strbody(s@, i as int) is None,
        },
    decreases s@.len() - i,
{
    let n = s.unicode_len();
    if i >= n {
        return None;
    }
    let c = s.get_char(i);
    if c == '"' {
        return Some((String::new(), i + 1));
    }
    if c == '\\' {
        if i + 1 < n {
            match x_strbody(s, i + 2) {
                Some((t, j)) => {
                    let ghost tv = t@;
                    let mut h = String::from_str(s.substring_char(i + 1, i + 2));
                    h.append(t.as_str());
                    proof {
                        assert(s@.subrange(i as int + 1, i as int + 2) =~= seq![s@[i as int + 1]]);
                        assert(h@ =~= seq![s@[i as int + 1]] + tv);
                    }
                    Some((h, j))
                },
                None => None,
            }
        } else {
            None
        }
    } else {
        match x_strbody(s, i + 1) {
            Some((t, j)) => {
                let ghost tv = t@;
                let mut h = String::from_str(s.substring_char(i, i + 1));
                h.append(t.as_str());
                proof {
                    assert(s@.subrange(i as int, i as int + 1) =~= seq![s@[i as int]]);
                    assert(h@ =~= seq![s@[i as int]] + tv);
                }
                Some((h, j))
            },
            None => None,
        }
    }
}

/// Parses a quoted string.
fn x_string(s: &str, i: usize) -> (r: Option<(String, usize)>)
    ensures
        match r {
            Some(tj) => p_string(s@, i as int) == Some((tj.0@, tj.1 as int)),
            None => p_string(s@, i as int) is None,
        },
{
    let n = s.unicode_len();
    if i < n && s.get_char(i) == '"' {
        x_strbody(s, i + 1)
    } else {
        None
    }
}

/// Parses the rest of a string array, up to and including the closing
/// bracket.
fn x_str_list(s: &str, i: usize, allow_empty: bool) -> (r: Option<(Vec<String>, usize)>)
    ensures
        match r {
            Some(tj) => p_str_list(s@, i as int, allow_empty) == Some(
                (tj.0.deep_view(), tj.1 as int),
            ),
            None => p_str_list(s@, i as int, allow_empty) is None,
        },
    decreases s@.len() - i,
{
    let n = s.unicode_len();
    if i >= n {
        return None;
    }
    if s.get_char(i) == ']' {
        if allow_empty {
            let v: Vec<String> = Vec::new();
            proof {
                assert(v.deep_view() =~= Seq::<Seq<char>>::empty());
            }
            return Some((v, i + 1));
        } else {
            return None;
        }
    }
    match x_string(s, i) {
        Some((t, j)) => {
            if i < j && j < n {
                if s.get_char(j) == ']' {
                    let ghost tv = t@;
                    let mut v: Vec<String> = Vec::new();
                    v.push(t);
                    proof {
                        assert(v.deep_view() =~= seq![tv]);
                    }
                    Some((v, j + 1))
                } else if s.get_char(j) == ',' {
                    match x_str_list(s, j + 1, false) {
                        Some((v, k)) => {
                            let ghost pre = v.deep_view();
                            let ghost tv = t@;
                            let mut v = v;
                            v.insert(0, t);
                            proof {
                                assert(v.deep_view() =~= seq![tv] + pre);
                            }
                            Some((v, k))
                        },
                        None => None,
                    }
                } else {
                    None
                }
            } else {
                None
            }
        },
        None => None,
    }
}

/// Parses one two-string array entry.
fn x_pair(s: &str, i: usize) -> (r: Option<((String, String), usize)>)
    ensures
        match r {
            Some(tj) => p_pair(s@, i as int) == Some((tj.0.deep_view(), tj.1 as int)),
            None => p_pair(s@, i as int) is None,
        },
{
    let n = s.unicode_len();
    if i < n && s.get_char(i) == '[' {
        match x_string(s, i + 1) {
            Some((a, j)) => {
                if j < n && s.get_char(j) == ',' {
                    match x_string(s, j + 1) {
                        Some((b, k)) => {
                            if k < n && s.get_char(k) == ']' {
                                Some(((a, b), k + 1))
                            } else {
                                None
                            }
                        },
                        None => None,
                    }
                } else {
                    None
                }
            },
            None => None,
        }
    } else {
        None
    }
}

/// Parses the rest of an entry array, up to and including the closing
/// bracket.
fn x_pair_list(s: &str, i: usize, allow_empty: bool) -> (r: Option<
    (Vec<(String, String)>, usize),
>)
    ensures
        match r {
            Some(tj) => p_pair_list(s@, i as int, allow_empty) == Some(
                (tj.0.deep_view(), tj.1 as int),
            ),
            None => p_pair_list(s@, i as int, allow_empty) is None,
        },
    decreases s@.len() - i,
{
    let n = s.unicode_len();
    if i >= n {
        return None;
    }
    if s.get_char(i) == ']' {
        if allow_empty {
            let v: Vec<(String, String)> = Vec::new();
            proof {
                assert(v.deep_view() =~= Seq::<(Seq<char>, Seq<char>)>::empty());
            }
            return Some((v, i + 1));
        } else {
            return None;
        }
    }
    match x_pair(s, i) {
        Some((p, j)) => {
            if i < j && j < n {
                if s.get_char(j) == ']' {
                    let ghost pv = p.deep_view();
                    let mut v: Vec<(String, String)> = Vec::new();
                    v.push(p);
                    proof {
                        assert(v.deep_view() =~= seq![pv]);
                    }
                    Some((v, j + 1))
                } else if s.get_char(j) == ',' {
                    match x_pair_list(s, j + 1, false) {
                        Some((v, k)) => {
                            let ghost pre = v.deep_view();
                            let ghost pv = p.deep_view();
                            let mut v = v;
                            v.insert(0, p);
                            proof {
                                assert(v.deep_view() =~= seq![pv] + pre);
                            }
                            Some((v, k))
                        },
                        None => None,
                    }
                } else {
                    None
                }
            } else {
                None
            }
        },
        None => None,
    }
}

/// Parses an optional entry list: `null`, or a bracketed entry array.
fn x_entries(s: &str, i: usize) -> (r: Option<(Option<Vec<(String, String)>>, usize)>)
    ensures
        match r {
            Some(tj) => p_entries(s@, i as int) == Some((tj.0.deep_view(), tj.1 as int)),
            None => p_entries(s@, i as int) is None,
        },
{
    let n = s.unicode_len();
    let null_lit = "null";
    if match_lit(s, i, null_lit) {
        let l = null_lit.unicode_len();
        return Some((None, i + l));
    }
    if i < n && s.get_char(i) == '[' {
        match x_pair_list(s, i + 1, true) {
            Some((v, j)) => Some((Some(v), j)),
            None => None,
        }
    } else {
        None
    }
}

/// Parses one section object.
fn x_section(s: &str, i: usize) -> (r: Option<(Section, usize)>)
    ensures
        match r {
            Some(tj) => p_section(s@, i as int) == Some((tj.0.deep_view(), tj.1 as int)),
            None => p_section(s@, i as int) is None,
        },
{
    let n = s.unicode_len();
    let open = "{\"keywords\":[";
    if !match_lit(s, i, open) {
        return None;
    }
    let pos = i + open.unicode_len();
    match x_str_list(s, pos, true) {
        Some((ks, j)) => {
            let keys_sep = ",\"keys\":";
            if !match_lit(s, j, keys_sep) {
                return None;
            }
            let pos2 = j + keys_sep.unicode_len();
            match x_entries(s, pos2) {
                Some((keys, k)) => {
                    let cmds_sep = ",\"commands\":";
                    if !match_lit(s, k, cmds_sep) {
                        return None;
                    }
                    let pos3 = k + cmds_sep.unicode_len();
                    match x_entries(s, pos3) {
                        Some((commands, l)) => {
                            if l < n && s.get_char(l) == '}' {
                                Some((Section { keywords: ks, keys, commands }, l + 1))
                            } else {
                                None
                            }
                        },
                        None => None,
                    }
                },
                None => None,
            }
        },
        None => None,
    }
}

/// Parses the rest of the section array, up to and including the closing
/// bracket.
fn x_sec_list(s: &str, i: usize, allow_empty: bool) -> (r: Option<(Vec<Section>, usize)>)
    ensures
        match r {
            Some(tj) => p_sec_list(s@, i as int, allow_empty) == Some(
                (tj.0.deep_view(), tj.1 as int),
            ),
            None => p_sec_list(s@, i as int, allow_empty) is None,
        },
    decreases s@.len() - i,
{
    let n = s.unicode_len();
    if i >= n {
        return None;
    }
    if s.get_char(i) == ']' {
        if allow_empty {
            let v: Vec<Section> = Vec::new();
            proof {
                assert(v.deep_view() =~= Seq::<SectionModel>::empty());
            }
            return Some((v, i + 1));
        } else {
            return None;
        }
    }
    match x_section(s, i) {
        Some((m, j)) => {
            if i < j && j < n {
                if s.get_char(j) == ']' {
                    let ghost mv = m.deep_view();
                    let mut v: Vec<Section> = Vec::new();
                    v.push(m);
                    proof {
                        assert(v.deep_view() =~= seq![mv]);
                    }
                    Some((v, j + 1))
                } else if s.get_char(j) == ',' {
                    match x_sec_list(s, j + 1, false) {
                        Some((v, k)) => {
                            let ghost pre = v.deep_view();
                            let ghost mv = m.deep_view();
                            let mut v = v;
                            v.insert(0, m);
                            proof {
                                assert(v.deep_view() =~= seq![mv] + pre);
                            }
                            Some((v, k))
                        },
                        None => None,
                    }
                } else {
                    None
                }
            } else {
                None
            }
        },
        None => None,
    }
}

/// Parses a whole persisted document back into a knowledge base; returns
/// nothing unless the entire input is one well-formed document.
pub fn parse_data(s: &str) -> (r: Option<Data>)
    ensures
        match r {
            Some(d) => p_data(s@) == Some(d.deep_view()),
            None => p_data(s@) is None,
        },
{
    let n = s.unicode_len();
    let open = "{\"sections\":[";
    if !match_lit(s, 0, open) {
        return None;
    }
    let pos = open.unicode_len();
    match x_sec_list(s, pos, true) {
        Some((sections, j)) => {
            if j < n && s.get_char(j) == '}' && j + 1 == n {
                Some(Data { sections })
            } else {
                None
            }
        },
        None => None,
    }
}

proof fn lemma_char_at(s: Seq<char>, i: int, r: Seq<char>)
    requires
        lit_at(s, i, r),
        r.len() > 0,
    ensures
        s[i] == r[0],
{
    assert(s.subrange(i, i + r.len())[0] == s[i]);
}

/// A region made of two parts is each part in place.
proof fn lemma_split(s: Seq<char>, i: int, a: Seq<char>, b: Seq<char>)
    requires
        lit_at(s, i, a + b),
    ensures
        lit_at(s, i, a),
        lit_at(s, i + a.len(), b),
{
    let ab = a + b;
    assert forall|q: int| 0 <= q < a.len() implies s.subrange(i, i + a.len())[q] == a[q] by {
        assert(s.subrange(i, i + ab.len())[q] == s[i + q]);
    }
    assert(s.subrange(i, i + a.len()) =~= a);
    assert forall|q: int|
        0 <= q < b.len() implies s.subrange(i + a.len(), i + a.len() + b.len())[q] == b[q] by {
        assert(s.subrange(i, i + ab.len())[a.len() + q] == s[i + (a.len() + q)]);
    }
    assert(s.subrange(i + a.len(), i + a.len() + b.len()) =~= b);
}

/// Parsing undoes escaping: a string body written by the writer, followed by
/// its closing quote, parses back to exactly the original characters.
proof fn lemma_parse_strbody(s: Seq<char>, t: Seq<char>, i: int)
    requires
        lit_at(s, i, esc_str(t) + seq!['"']),
    ensures
        p_strbody(s, i) == Some((t, i + esc_str(t).len() + 1)),
    decreases t.len(),
{
    if t.len() == 0 {
        lemma_char_at(s, i, esc_str(t) + seq!['"']);
        assert((esc_str(t) + seq!['"'])[0] == '"');
        assert(t =~= Seq::<char>::empty());
    } else {
        let rest = esc_str(t.skip(1));
        assert(esc_str(t) == esc_char(t[0]) + rest);
        if t[0] == '"' || t[0] == '\\' {
            assert(esc_str(t) + seq!['"'] =~= seq!['\\'] + (seq![t[0]] + (rest + seq!['"'])));
            lemma_split(s, i, seq!['\\'], seq![t[0]] + (rest + seq!['"']));
            lemma_char_at(s, i, seq!['\\']);
            lemma_split(s, i + 1, seq![t[0]], rest + seq!['"']);
            lemma_char_at(s, i + 1, seq![t[0]]);
            lemma_parse_strbody(s, t.skip(1), i + 2);
            assert(seq![s[i + 1]] + t.skip(1) =~= t);
        } else {
            assert(esc_str(t) + seq!['"'] =~= seq![t[0]] + (rest + seq!['"']));
            lemma_split(s, i, seq![t[0]], rest + seq!['"']);
            lemma_char_at(s, i, seq![t[0]]);
            lemma_parse_strbody(s, t.skip(1), i + 1);
            assert(seq![s[i]] + t.skip(1) =~= t);
        }
    }
}

/// A written string parses back to itself.
proof fn lemma_parse_string(s: Seq<char>, t: Seq<char>, i: int)
    requires
        lit_at(s, i, ser_string(t)),
    ensures
        p_string(s, i) == Some((t, i + ser_string(t).len())),
{
    assert(ser_string(t) =~= seq!['"'] + (esc_str(t) + seq!['"']));
    lemma_split(s, i, seq!['"'], esc_str(t) + seq!['"']);
    lemma_char_at(s, i, seq!['"']);
    lemma_parse_strbody(s, t, i + 1);
}

/// A written string array body with its closing bracket parses back to the
/// original strings.
proof fn lemma_parse_str_list(s: Seq<char>, ts: Seq<Seq<char>>, i: int, allow_empty: bool)
    requires
        lit_at(s, i, ser_strings_body(ts) + seq![']']),
        allow_empty || ts.len() > 0,
    ensures
        p_str_list(s, i, allow_empty) == Some((ts, i + ser_strings_body(ts).len() + 1)),
    decreases ts.len(),
{
    let body = ser_strings_body(ts);
    if ts.len() == 0 {
        lemma_char_at(s, i, body + seq![']']);
        assert((body + seq![']'])[0] == ']');
        assert(ts =~= Seq::<Seq<char>>::empty());
    } else if ts.len() == 1 {
        assert(body == ser_string(ts[0]));
        lemma_split(s, i, ser_string(ts[0]), seq![']']);
        lemma_parse_string(s, ts[0], i);
        lemma_char_at(s, i, ser_string(ts[0]));
        assert(ser_string(ts[0])[0] == '"');
        let j = i + ser_string(ts[0]).len();
        lemma_char_at(s, j, seq![']']);
        assert(seq![ts[0]] =~= ts);
    } else {
        let rest = ser_strings_body(ts.skip(1));
        assert(body == ser_string(ts[0]) + seq![','] + rest);
        assert(body + seq![']'] =~= ser_string(ts[0]) + (seq![','] + (rest + seq![']'])));
        lemma_split(s, i, ser_string(ts[0]), seq![','] + (rest + seq![']']));
        let j = i + ser_string(ts[0]).len();
        lemma_split(s, j, seq![','], rest + seq![']']);
        lemma_char_at(s, j, seq![',']);
        lemma_parse_string(s, ts[0], i);
        lemma_char_at(s, i, ser_string(ts[0]));
        assert(ser_string(ts[0])[0] == '"');
        lemma_parse_str_list(s, ts.skip(1), j + 1, false);
        assert(seq![ts[0]] + ts.skip(1) =~= ts);
    }
}

/// A written entry parses back to itself.
proof fn lemma_parse_pair(s: Seq<char>, p: (Seq<char>, Seq<char>), i: int)
    requires
        lit_at(s, i, ser_pair(p)),
    ensures
        p_pair(s, i) == Some((p, i + ser_pair(p).len())),
{
    let a = ser_string(p.0);
    let b = ser_string(p.1);
    assert(ser_pair(p) =~= seq!['['] + (a + (seq![','] + (b + seq![']']))));
    lemma_split(s, i, seq!['['], a + (seq![','] + (b + seq![']'])));
    lemma_char_at(s, i, seq!['[']);
    lemma_split(s, i + 1, a, seq![','] + (b + seq![']']));
    let j = i + 1 + a.len();
    lemma_split(s, j, seq![','], b + seq![']']);
    lemma_char_at(s, j, seq![',']);
    lemma_split(s, j + 1, b, seq![']']);
    let k = j + 1 + b.len();
    lemma_char_at(s, k, seq![']']);
    lemma_parse_string(s, p.0, i + 1);
    lemma_parse_string(s, p.1, j + 1);
    assert((p.0, p.1) == p);
}

/// A written entry array body with its closing bracket parses back to the
/// original entries.
proof fn lemma_parse_pair_list(
    s: Seq<char>,
    ps: Seq<(Seq<char>, Seq<char>)>,
    i: int,
    allow_empty: bool,
)
    requires
        lit_at(s, i, ser_pairs_body(ps) + seq![']']),
        allow_empty || ps.len() > 0,
    ensures
        p_pair_list(s, i, allow_empty) == Some((ps, i + ser_pairs_body(ps).len() + 1)),
    decreases ps.len(),
{
    let body = ser_pairs_body(ps);
    if ps.len() == 0 {
        lemma_char_at(s, i, body + seq![']']);
        assert((body + seq![']'])[0] == ']');
        assert(ps =~= Seq::<(Seq<char>, Seq<char>)>::empty());
    } else if ps.len() == 1 {
        assert(body == ser_pair(ps[0]));
        lemma_split(s, i, ser_pair(ps[0]), seq![']']);
        lemma_parse_pair(s, ps[0], i);
        lemma_char_at(s, i, ser_pair(ps[0]));
        assert(ser_pair(ps[0])[0] == '[');
        let j = i + ser_pair(ps[0]).len();
        lemma_char_at(s, j, seq![']']);
        assert(seq![ps[0]] =~= ps);
    } else {
        let rest = ser_pairs_body(ps.skip(1));
        assert(body == ser_pair(ps[0]) + seq![','] + rest);
        assert(body + seq![']'] =~= ser_pair(ps[0]) + (seq![','] + (rest + seq![']'])));
        lemma_split(s, i, ser_pair(ps[0]), seq![','] + (rest + seq![']']));
        let j = i + ser_pair(ps[0]).len();
        lemma_split(s, j, seq![','], rest + seq![']']);
        lemma_char_at(s, j, seq![',']);
        lemma_parse_pair(s, ps[0], i);
        lemma_char_at(s, i, ser_pair(ps[0]));
        assert(ser_pair(ps[0])[0] == '[');
        lemma_parse_pair_list(s, ps.skip(1), j + 1, false);
        assert(seq![ps[0]] + ps.skip(1) =~= ps);
    }
}

/// A written optional entry list parses back to itself.
proof fn lemma_parse_entries(s: Seq<char>, e: Option<Seq<(Seq<char>, Seq<char>)>>, i: int)
    requires
        lit_at(s, i, ser_entries(e)),
    ensures
        p_entries(s, i) == Some((e, i + ser_entries(e).len())),
{
    lemma_lits();
    match e {
        None => {
        },
        Some(ps) => {
            let body = ser_pairs_body(ps);
            assert(ser_entries(e) =~= seq!['['] + (body + seq![']']));
            lemma_split(s, i, seq!['['], body + seq![']']);
            lemma_char_at(s, i, seq!['[']);
            assert(!lit_at(s, i, "null"@)) by {
                if lit_at(s, i, "null"@) {
                    lemma_char_at(s, i, "null"@);
                }
            }
            lemma_parse_pair_list(s, ps, i + 1, true);
        },
    }
}

/// A written section parses back to itself.
proof fn lemma_parse_section(s: Seq<char>, m: SectionModel, i: int)
    requires
        lit_at(s, i, ser_section(m)),
    ensures
        p_section(s, i) == Some((m, i + ser_section(m).len())),
{
    lemma_lits();
    let open = "{\"keywords\":["@;
    let kwbody = ser_strings_body(m.keywords);
    let keys_sep = ",\"keys\":"@;
    let keys = ser_entries(m.keys);
    let cmds_sep = ",\"commands\":"@;
    let cmds = ser_entries(m.commands);
    assert(ser_section(m) =~= open + ((kwbody + seq![']']) + (keys_sep + (keys + (cmds_sep + (cmds
        + seq!['}']))))));
    lemma_split(s, i, open, (kwbody + seq![']']) + (keys_sep + (keys + (cmds_sep + (cmds
        + seq!['}'])))));
    let p1 = i + open.len();
    lemma_split(s, p1, kwbody + seq![']'], keys_sep + (keys + (cmds_sep + (cmds + seq!['}']))));
    lemma_parse_str_list(s, m.keywords, p1, true);
    let j = p1 + kwbody.len() + 1;
    lemma_split(s, j, keys_sep, keys + (cmds_sep + (cmds + seq!['}'])));
    let p2 = j + keys_sep.len();
    lemma_split(s, p2, keys, cmds_sep + (cmds + seq!['}']));
    lemma_parse_entries(s, m.keys, p2);
    let k = p2 + keys.len();
    lemma_split(s, k, cmds_sep, cmds + seq!['}']);
    let p3 = k + cmds_sep.len();
    lemma_split(s, p3, cmds, seq!['}']);
    lemma_parse_entries(s, m.commands, p3);
    let l = p3 + cmds.len();
    lemma_char_at(s, l, seq!['}']);
    assert(SectionModel { keywords: m.keywords, keys: m.keys, commands: m.commands } =~= m);
}

/// A written section array body with its closing bracket parses back to the
/// original sections.
proof fn lemma_parse_sec_list(s: Seq<char>, ms: Seq<SectionModel>, i: int, allow_empty: bool)
    requires
        lit_at(s, i, ser_sections_body(ms) + seq![']']),
        allow_empty || ms.len() > 0,
    ensures
        p_sec_list(s, i, allow_empty) == Some((ms, i + ser_sections_body(ms).len() + 1)),
    decreases ms.len(),
{
    lemma_lits();
    let body = ser_sections_body(ms);
    if ms.len() == 0 {
        lemma_char_at(s, i, body + seq![']']);
        assert((body + seq![']'])[0] == ']');
        assert(ms =~= Seq::<SectionModel>::empty());
    } else if ms.len() == 1 {
        assert(body == ser_section(ms[0]));
        lemma_split(s, i, ser_section(ms[0]), seq![']']);
        lemma_parse_section(s, ms[0], i);
        lemma_char_at(s, i, ser_section(ms[0]));
        assert(ser_section(ms[0])[0] == '{');
        let j = i + ser_section(ms[0]).len();
        lemma_char_at(s, j, seq![']']);
        assert(seq![ms[0]] =~= ms);
    } else {
        let rest = ser_sections_body(ms.skip(1));
        assert(body == ser_section(ms[0]) + seq![','] + rest);
        assert(body + seq![']'] =~= ser_section(ms[0]) + (seq![','] + (rest + seq![']'])));
        lemma_split(s, i, ser_section(ms[0]), seq![','] + (rest + seq![']']));
        let j = i + ser_section(ms[0]).len();
        lemma_split(s, j, seq![','], rest + seq![']']);
        lemma_char_at(s, j, seq![',']);
        lemma_parse_section(s, ms[0], i);
        lemma_char_at(s, i, ser_section(ms[0]));
        assert(ser_section(ms[0])[0] == '{');
        lemma_parse_sec_list(s, ms.skip(1), j + 1, false);
        assert(seq![ms[0]] + ms.skip(1) =~= ms);
    }
}

/// Law: the persisted form round-trips. Writing any knowledge base with
/// `serialize_data` and parsing the document back with `parse_data` yields a
/// structurally equal knowledge base — same sections, keywords, keys and
/// commands, in the same order.
pub proof fn lemma_round_trip(ms: Seq<SectionModel>)
    ensures
        p_data(ser_data(ms)) == Some(ms),
{
    lemma_lits();
    let s = ser_data(ms);
    let open = "{\"sections\":["@;
    let body = ser_sections_body(ms);
    assert(s.subrange(0, s.len() as int) =~= s);
    assert(s =~= open + ((body + seq![']']) + seq!['}']));
    assert(lit_at(s, 0, open + ((body + seq![']']) + seq!['}'])));
    lemma_split(s, 0, open, (body + seq![']']) + seq!['}']);
    lemma_split(s, open.len() as int, body + seq![']'], seq!['}']);
    lemma_parse_sec_list(s, ms, open.len() as int, true);
    let j = open.len() + body.len() + 1;
    lemma_char_at(s, j as int, seq!['}']);
    assert(j + 1 == s.len());
}

} // verus!
