use vstd::prelude::*;

use crate::context::sp_lower;
use crate::expr::sp_trim;
use crate::parser::{at, at_lit, attr_lookup, sp_attrs, sp_find_tag_end, spec_key_run};
use crate::registry::{sp_stmt_type, StatementType};
use crate::textutil::string_range;

verus! {

broadcast use vstd::std_specs::vec::group_vec_axioms, vstd::seq::group_seq_axioms;

/// One statement element read from a mapper unit.
pub struct ParsedItem {
    pub kind: StatementType,
    pub id: String,
    pub database_type: Option<String>,
    pub use_generated_keys: bool,
    pub key_column: Option<String>,
    pub content: Option<String>,
}

/// The model of a parsed element.
pub struct ItemS {
    pub kind: StatementType,
    pub id: Seq<char>,
    pub database_type: Option<Seq<char>>,
    pub use_generated_keys: bool,
    pub key_column: Option<Seq<char>>,
    pub content: Option<Seq<char>>,
}

/// The model of one parsed element.
pub open spec fn iw1(x: ParsedItem) -> ItemS {
    ItemS {
        kind: x.kind,
        id: x.id@,
        database_type: match x.database_type {
            Some(s) => Some(s@),
            None => None,
        },
        use_generated_keys: x.use_generated_keys,
        key_column: match x.key_column {
            Some(s) => Some(s@),
            None => None,
        },
        content: match x.content {
            Some(s) => Some(s@),
            None => None,
        },
    }
}

/// The models of the parsed elements, in order.
pub open spec fn iw(s: Seq<ParsedItem>) -> Seq<ItemS>
    decreases s,
{
    if s.len() == 0 {
        Seq::empty()
    } else {
        seq![iw1(s[0])] + iw(s.drop_first())
    }
}

pub broadcast proof fn lemma_iw_len(s: Seq<ParsedItem>)
    ensures
        #[trigger] iw(s).len() == s.len(),
    decreases s,
{
    if s.len() > 0 {
        lemma_iw_len(s.drop_first());
    }
}

pub broadcast proof fn lemma_iw_index(s: Seq<ParsedItem>, i: int)
    requires
        0 <= i < s.len(),
    ensures
        #[trigger] iw(s)[i] == iw1(s[i]),
    decreases s,
{
    lemma_iw_len(s);
    if i > 0 {
        lemma_iw_index(s.drop_first(), i - 1);
    }
}

/// The ASCII lower-case form of a text.
pub open spec fn sp_lower_seq(s: Seq<char>) -> Seq<char>
    decreases s.len(),
{
    if s.len() == 0 {
        Seq::empty()
    } else {
        seq![sp_lower(s[0])] + sp_lower_seq(s.drop_first())
    }
}

/// The truthy spellings of a flag attribute: `true`, `1`, `yes` and
/// `on`, case-insensitively, around white space.
pub open spec fn sp_parse_bool(o: Option<Seq<char>>) -> bool {
    match o {
        None => false,
        Some(s) => {
            let t = sp_lower_seq(sp_trim(s));
            t == "true"@ || t == "1"@ || t == "yes"@ || t == "on"@
        },
    }
}

fn lower_of(v: &Vec<char>, from: usize, to: usize) -> (r: String)
    requires
        from <= to <= v@.len(),
    ensures
        r@ == sp_lower_seq(v@.subrange(from as int, to as int)),
{
    let ghost w = v@.subrange(from as int, to as int);
    let mut out: Vec<char> = Vec::new();
    proof {
        assert(w.skip(0) =~= w);
    }
    let mut i: usize = from;
    while i < to
        invariant
            from <= i <= to <= v@.len(),
            w == v@.subrange(from as int, to as int),
            sp_lower_seq(w) =~= out@ + sp_lower_seq(w.skip(i - from)),
        decreases to - i,
    {
        proof {
            assert(w.skip(i - from)[0] == w[i - from]);
            assert(w.skip(i - from).drop_first() =~= w.skip(i - from + 1));
        }
        let c = v[i];
        if 'A' <= c && c <= 'Z' {
            out.push((((c as u32) + 32) as u8) as char);
        } else {
            out.push(c);
        }
        i = i + 1;
    }
    proof {
        assert(sp_lower_seq(w.skip(to - from)) =~= Seq::<char>::empty());
        assert(sp_lower_seq(w) =~= out@);
    }
    crate::textutil::string_of_chars(&out)
}

/// Reads a flag attribute value.
pub fn parse_bool(o: Option<String>) -> (r: bool)
    ensures
        r == sp_parse_bool(match o {
            Some(s) => Some(s@),
            None => None,
        }),
{
    match o {
        None => false,
        Some(s) => {
            let cs = crate::textutil::chars_of(s.as_str());
            let (a, b) = crate::expr::trim_bounds(&cs, 0, cs.len());
            proof {
                assert(cs@.subrange(0, cs@.len() as int) =~= cs@);
            }
            let low = lower_of(&cs, a, b);
            crate::textutil::str_eq(low.as_str(), "true") || crate::textutil::str_eq(
                low.as_str(),
                "1",
            ) || crate::textutil::str_eq(low.as_str(), "yes") || crate::textutil::str_eq(
                low.as_str(),
                "on",
            )
        },
    }
}

/// The XML entity unescape of `s[i..to]`: the five named entities become
/// their characters; a bare or unknown `&` fails the whole unescape.
pub open spec fn sp_unescape(s: Seq<char>, i: int, to: int) -> Option<Seq<char>>
    decreases to - i,
{
    if i < 0 || i >= to || to > s.len() {
        Some(Seq::empty())
    } else if s[i] != '&' {
        match sp_unescape(s, i + 1, to) {
            Some(rest) => Some(seq![s[i]] + rest),
            None => None,
        }
    } else if i + 4 <= to && s.subrange(i, i + 4) == "&lt;"@ {
        match sp_unescape(s, i + 4, to) {
            Some(rest) => Some(seq!['<'] + rest),
            None => None,
        }
    } else if i + 4 <= to && s.subrange(i, i + 4) == "&gt;"@ {
        match sp_unescape(s, i + 4, to) {
            Some(rest) => Some(seq!['>'] + rest),
            None => None,
        }
    } else if i + 5 <= to && s.subrange(i, i + 5) == "&amp;"@ {
        match sp_unescape(s, i + 5, to) {
            Some(rest) => Some(seq!['&'] + rest),
            None => None,
        }
    } else if i + 6 <= to && s.subrange(i, i + 6) == "&quot;"@ {
        match sp_unescape(s, i + 6, to) {
            Some(rest) => Some(seq!['"'] + rest),
            None => None,
        }
    } else if i + 6 <= to && s.subrange(i, i + 6) == "&apos;"@ {
        match sp_unescape(s, i + 6, to) {
            Some(rest) => Some(seq!['\''] + rest),
            None => None,
        }
    } else {
        None
    }
}

/// Unescapes `v[i..to]` onto the end of `out`.
fn unescape_acc(v: &Vec<char>, i: usize, to: usize, out: &mut Vec<char>) -> (ok: bool)
    requires
        i <= to <= v@.len(),
    ensures
        match sp_unescape(v@, i as int, to as int) {
            Some(rest) => ok && final(out)@ == old(out)@ + rest,
            None => !ok,
        },
    decreases to - i,
{
    proof {
        reveal_strlit("&lt;");
        reveal_strlit("&gt;");
        reveal_strlit("&amp;");
        reveal_strlit("&quot;");
        reveal_strlit("&apos;");
    }
    if i >= to {
        proof {
            assert(old(out)@ + Seq::<char>::empty() =~= old(out)@);
        }
        return true;
    }
    let c = v[i];
    if c != '&' {
        out.push(c);
        let ok = unescape_acc(v, i + 1, to, out);
        proof {
            match sp_unescape(v@, i + 1, to as int) {
                Some(rest) => {
                    assert(old(out)@ + (seq![v@[i as int]] + rest) =~= old(out)@.push(
                        v@[i as int],
                    ) + rest);
                },
                None => {},
            }
        }
        return ok;
    }
    let lit_lt = vec!['&', 'l', 't', ';'];
    let lit_gt = vec!['&', 'g', 't', ';'];
    let lit_amp = vec!['&', 'a', 'm', 'p', ';'];
    let lit_quot = vec!['&', 'q', 'u', 'o', 't', ';'];
    let lit_apos = vec!['&', 'a', 'p', 'o', 's', ';'];
    proof {
        assert(lit_lt@ =~= "&lt;"@);
        assert(lit_gt@ =~= "&gt;"@);
        assert(lit_amp@ =~= "&amp;"@);
        assert(lit_quot@ =~= "&quot;"@);
        assert(lit_apos@ =~= "&apos;"@);
    }
    let (ch, adv): (char, usize) = if to - i >= 4 && at_lit(v, i, &lit_lt) {
        ('<', 4)
    } else if to - i >= 4 && at_lit(v, i, &lit_gt) {
        ('>', 4)
    } else if to - i >= 5 && at_lit(v, i, &lit_amp) {
        ('&', 5)
    } else if to - i >= 6 && at_lit(v, i, &lit_quot) {
        ('"', 6)
    } else if to - i >= 6 && at_lit(v, i, &lit_apos) {
        ('\'', 6)
    } else {
        return false;
    };
    out.push(ch);
    let ok = unescape_acc(v, i + adv, to, out);
    proof {
        match sp_unescape(v@, i + adv, to as int) {
            Some(rest) => {
                assert(old(out)@ + (seq![ch] + rest) =~= old(out)@.push(ch) + rest);
            },
            None => {},
        }
    }
    ok
}


/// The closing tag text of an element name.
pub open spec fn sp_close_pat(name: Seq<char>) -> Seq<char> {
    seq!['<', '/'] + name + seq!['>']
}

/// A start tag of exactly `name` opens at `i`.
pub open spec fn sp_opens(s: Seq<char>, i: int, name: Seq<char>) -> bool {
    &&& 0 <= i
    &&& i + 1 + name.len() <= s.len()
    &&& s[i] == '<'
    &&& s.subrange(i + 1, i + 1 + name.len()) == name
    &&& spec_key_run(s, i + 1) == name.len()
}

/// The position of the `<` of the close tag matching an element opened
/// before `i`, skipping nested elements of the same name; `None` when the
/// input ends first.
pub open spec fn sp_scan_close(s: Seq<char>, i: int, name: Seq<char>, depth: nat) -> Option<int>
    decreases s.len() - i,
    via sp_scan_close_dec
{
    let len = s.len() as int;
    if i < 0 || i >= len {
        None
    } else if at(s, i, sp_close_pat(name)) {
        if depth == 0 {
            Some(i)
        } else {
            sp_scan_close(
                s,
                crate::parser::next_pos(i + name.len() + 3, i, len),
                name,
                (depth - 1) as nat,
            )
        }
    } else if sp_opens(s, i, name) {
        match sp_find_tag_end(s, i, false) {
            None => None,
            Some(e) => {
                let d2 = if e > i && s[e - 1] == '/' {
                    depth
                } else {
                    depth + 1
                };
                sp_scan_close(s, crate::parser::next_pos(e + 1, i, len), name, d2)
            },
        }
    } else {
        sp_scan_close(s, i + 1, name, depth)
    }
}

#[via_fn]
proof fn sp_scan_close_dec(s: Seq<char>, i: int, name: Seq<char>, depth: nat) {
}

/// Finds the matching close tag for `name`, scanning from `i`.
fn scan_close(v: &Vec<char>, i: usize, name: &Vec<char>, depth: usize) -> (r: Option<usize>)
    requires
        i <= v@.len(),
        name@.len() >= 1,
        3 * (depth as int) <= i as int,
    ensures
        match r {
            Some(c) => sp_scan_close(v@, i as int, name@, depth as nat) == Some(c as int) && i <= c
                < v@.len(),
            None => sp_scan_close(v@, i as int, name@, depth as nat) is None,
        },
    decreases v@.len() - i,
{
    let len = v.len();
    if i >= len {
        return None;
    }
    let mut pat: Vec<char> = Vec::new();
    pat.push('<');
    pat.push('/');
    let mut q: usize = 0;
    let m = name.len();
    while q < m
        invariant
            0 <= q <= m,
            m == name@.len(),
            pat@ =~= seq!['<', '/'] + name@.subrange(0, q as int),
        decreases m - q,
    {
        pat.push(name[q]);
        q = q + 1;
    }
    pat.push('>');
    proof {
        assert(name@.subrange(0, m as int) =~= name@);
        assert(pat@ =~= sp_close_pat(name@));
    }
    if at_lit(v, i, &pat) {
        if depth == 0 {
            proof {
                crate::parser::lemma_at_index(v@, i as int, sp_close_pat(name@));
            }
            return Some(i);
        }
        return scan_close(v, i + m + 3, name, depth - 1);
    }
    // a start tag of the same name deepens the nesting
    let opens = if v[i] == '<' && i + 1 <= len {
        let k = crate::parser::key_run(v, i + 1);
        if k - (i + 1) == m {
            let nm = string_range(v, i + 1, k);
            let nm2 = crate::textutil::string_of_chars(name);
            crate::textutil::str_eq(nm.as_str(), nm2.as_str())
        } else {
            false
        }
    } else {
        false
    };
    if opens {
        match crate::parser::find_tag_end(v, i) {
            None => None,
            Some(e) => {
                proof {
                    // the tag end lies past the name: neither `<` nor a
                    // name character is `>`
                    assert(sp_find_tag_end(v@, i as int, false) == sp_find_tag_end(
                        v@,
                        i + 1,
                        false,
                    ));
                    assert(crate::parser::spec_is_key_char(v@[i + 1]));
                    assert(sp_find_tag_end(v@, i + 1, false) == sp_find_tag_end(v@, i + 2, false));
                    crate::parser::lemma_find_tag_end_bounds(v@, i + 2, false);
                }
                let d2 = if e > i && v[e - 1] == '/' {
                    depth
                } else {
                    depth + 1
                };
                scan_close(v, e + 1, name, d2)
            },
        }
    } else {
        scan_close(v, i + 1, name, depth)
    }
}


/// The scan of a mapper unit from `pos`: the namespace read so far and
/// the statement elements found.  Declarations, comments, stray close
/// tags and unknown elements are skipped; a statement element without an
/// `id`, and any truncated markup, fail the scan.
pub open spec fn sp_scan(s: Seq<char>, pos: int, ns: Option<Seq<char>>) -> Result<
    (Option<Seq<char>>, Seq<ItemS>),
    (),
>
    decreases s.len() - pos,
    via sp_scan_dec
{
    let len = s.len() as int;
    if pos < 0 || pos >= len {
        Ok((ns, Seq::empty()))
    } else if s[pos] != '<' {
        match crate::parser::sp_find_char(s, '<', pos) {
            None => Ok((ns, Seq::empty())),
            Some(p) => sp_scan(s, crate::parser::next_pos(p, pos, len), ns),
        }
    } else if pos + 1 >= len {
        Err(())
    } else if at(s, pos, "<!--"@) {
        match crate::expr::sp_find_sub(s, "-->"@, pos) {
            None => Err(()),
            Some(q) => sp_scan(s, crate::parser::next_pos(q + 3, pos, len), ns),
        }
    } else if s[pos + 1] == '!' || s[pos + 1] == '?' || s[pos + 1] == '/' {
        match sp_find_tag_end(s, pos, false) {
            None => Err(()),
            Some(e) => sp_scan(s, crate::parser::next_pos(e + 1, pos, len), ns),
        }
    } else {
        let m = spec_key_run(s, pos + 1);
        let name = s.subrange(pos + 1, pos + 1 + m);
        if m == 0 {
            Err(())
        } else {
            match sp_find_tag_end(s, pos, false) {
                None => Err(()),
                Some(e) => {
                    if e > pos && s[e - 1] == '/' {
                        sp_scan(s, crate::parser::next_pos(e + 1, pos, len), ns)
                    } else if name == "mapper"@ {
                        let am = sp_attrs(s, pos + 1 + m, e, Map::empty());
                        let ns2 = if am.contains_key("namespace"@) {
                            Some(am["namespace"@])
                        } else if am.contains_key("Namespace"@) {
                            Some(am["Namespace"@])
                        } else {
                            None
                        };
                        sp_scan(s, crate::parser::next_pos(e + 1, pos, len), ns2)
                    } else {
                        match sp_stmt_type(name) {
                            None => sp_scan(s, crate::parser::next_pos(e + 1, pos, len), ns),
                            Some(kind) => {
                                let am = sp_attrs(s, pos + 1 + m, e, Map::empty());
                                if !am.contains_key("id"@) {
                                    Err(())
                                } else {
                                    match sp_scan_close(s, e + 1, name, 0) {
                                        None => Err(()),
                                        Some(cstart) => {
                                            let content = if cstart > e + 1 {
                                                match sp_unescape(s, e + 1, cstart) {
                                                    Some(u) => Some(sp_trim(u)),
                                                    None => None,
                                                }
                                            } else {
                                                None
                                            };
                                            let item = ItemS {
                                                kind,
                                                id: am["id"@],
                                                database_type: if am.contains_key(
                                                    "databaseType"@,
                                                ) {
                                                    Some(am["databaseType"@])
                                                } else {
                                                    None
                                                },
                                                use_generated_keys: sp_parse_bool(
                                                    if am.contains_key("useGeneratedKeys"@) {
                                                        Some(am["useGeneratedKeys"@])
                                                    } else {
                                                        None
                                                    },
                                                ),
                                                key_column: if am.contains_key("keyColumn"@) {
                                                    Some(am["keyColumn"@])
                                                } else {
                                                    None
                                                },
                                                content,
                                            };
                                            match sp_scan(
                                                s,
                                                crate::parser::next_pos(
                                                    cstart + name.len() + 3,
                                                    pos,
                                                    len,
                                                ),
                                                ns,
                                            ) {
                                                Err(u) => Err(u),
                                                Ok((nsf, rest)) => Ok((nsf, seq![item] + rest)),
                                            }
                                        },
                                    }
                                }
                            },
                        }
                    }
                },
            }
        }
    }
}

#[via_fn]
proof fn sp_scan_dec(s: Seq<char>, pos: int, ns: Option<Seq<char>>) {
}

/// The parse of a whole mapper unit: its namespace and its statement
/// elements; a unit without a namespace attribute fails.
pub open spec fn sp_parse_mapper(s: Seq<char>) -> Result<(Seq<char>, Seq<ItemS>), ()> {
    match sp_scan(s, 0, None) {
        Err(u) => Err(u),
        Ok((None, _)) => Err(()),
        Ok((Some(ns), items)) => Ok((ns, items)),
    }
}

fn cons_item(x: ParsedItem, rest: Vec<ParsedItem>) -> (r: Vec<ParsedItem>)
    ensures
        iw(r@) == seq![iw1(x)] + iw(rest@),
{
    let ghost before = rest@;
    let mut out = rest;
    out.insert(0, x);
    proof {
        broadcast use lemma_iw_len, lemma_iw_index;

        assert(out@.drop_first() =~= before);
        assert(iw(out@) =~= seq![iw1(x)] + iw(before));
    }
    out
}

fn load_err() -> (e: crate::error::DbError)
    ensures
        e is MapperLoadError,
{
    crate::error::DbError::MapperLoadError(
        "malformed mapper unit: bad markup, a missing id, or an unclosed element".to_owned(),
    )
}

/// Scans a mapper unit from `pos`.
#[verifier::loop_isolation(false)]
#[verifier::rlimit(100)]
#[verifier::spinoff_prover]
fn scan_unit(v: &Vec<char>, pos: usize, ns: Option<String>) -> (r: Result<
    (Option<String>, Vec<ParsedItem>),
    crate::error::DbError,
>)
    requires
        pos <= v@.len(),
    ensures
        ({
            let sns = match ns {
                Some(x) => Some(x@),
                None => None::<Seq<char>>,
            };
            match r {
                Ok((nsf, items)) => sp_scan(v@, pos as int, sns) == Ok::<_, ()>(
                    (
                        match nsf {
                            Some(x) => Some(x@),
                            None => None::<Seq<char>>,
                        },
                        iw(items@),
                    ),
                ),
                Err(e) => sp_scan(v@, pos as int, sns) is Err && e is MapperLoadError,
            }
        }),
    decreases v@.len() - pos,
{
    let len = v.len();
    if pos >= len {
        let out: Vec<ParsedItem> = Vec::new();
        proof {
            assert(iw(out@) =~= Seq::<ItemS>::empty());
        }
        return Ok((ns, out));
    }
    if v[pos] != '<' {
        match crate::parser::find_char(v, '<', pos) {
            None => {
                let out: Vec<ParsedItem> = Vec::new();
                proof {
                    assert(iw(out@) =~= Seq::<ItemS>::empty());
                }
                return Ok((ns, out));
            },
            Some(p) => {
                proof {
                    crate::parser::lemma_find_char_bounds(v@, '<', pos as int);
                }
                return scan_unit(v, p, ns);
            },
        }
    }
    if pos + 1 >= len {
        return Err(load_err());
    }
    let lit_comment = vec!['<', '!', '-', '-'];
    let lit_close_comment = vec!['-', '-', '>'];
    proof {
        reveal_strlit("<!--");
        reveal_strlit("-->");
        assert(lit_comment@ =~= "<!--"@);
        assert(lit_close_comment@ =~= "-->"@);
    }
    if at_lit(v, pos, &lit_comment) {
        match crate::expr::find_sub_to(v, &lit_close_comment, pos, len) {
            None => {
                proof {
                    assert(v@.subrange(pos as int, len as int) =~= v@.skip(pos as int));
                    lemma_find_sub_skip(v@, "-->"@, pos as int);
                }
                return Err(load_err());
            },
            Some(q) => {
                proof {
                    assert(v@.subrange(pos as int, len as int) =~= v@.skip(pos as int));
                    lemma_find_sub_skip(v@, "-->"@, pos as int);
                    crate::expr::lemma_find_sub_bounds(v@, "-->"@, pos as int);
                }
                return scan_unit(v, q + 3, ns);
            },
        }
    }
    if v[pos + 1] == '!' || v[pos + 1] == '?' || v[pos + 1] == '/' {
        match crate::parser::find_tag_end(v, pos) {
            None => {
                return Err(load_err());
            },
            Some(e) => {
                return scan_unit(v, e + 1, ns);
            },
        }
    }
    let k = crate::parser::key_run(v, pos + 1);
    let m = k - (pos + 1);
    if m == 0 {
        return Err(load_err());
    }
    let name = string_range(v, pos + 1, k);
    let e = match crate::parser::find_tag_end(v, pos) {
        None => {
            return Err(load_err());
        },
        Some(e) => e,
    };
    proof {
        // the tag's `>` lies past its name, whose characters are not `>`
        crate::parser::lemma_key_run_bound(v@, pos + 1);
        assert(sp_find_tag_end(v@, pos as int, false) == sp_find_tag_end(v@, pos + 1, false));
        lemma_tag_end_skips_keys(v@, pos + 1, k as int, false);
        crate::parser::lemma_find_tag_end_bounds(v@, k as int, false);
    }
    if e > pos && v[e - 1] == '/' {
        return scan_unit(v, e + 1, ns);
    }
    proof {
        reveal_strlit("mapper");
        reveal_strlit("namespace");
        reveal_strlit("Namespace");
        reveal_strlit("id");
        reveal_strlit("databaseType");
        reveal_strlit("useGeneratedKeys");
        reveal_strlit("keyColumn");
    }
    if crate::textutil::str_eq(name.as_str(), "mapper") {
        let ns2 = match attr_lookup(v, k, e, "namespace") {
            Some(x) => Some(x),
            None => attr_lookup(v, k, e, "Namespace"),
        };
        return scan_unit(v, e + 1, ns2);
    }
    match crate::registry::StatementType::from_str(name.as_str()) {
        None => scan_unit(v, e + 1, ns),
        Some(kind) => {
            let id = match attr_lookup(v, k, e, "id") {
                None => {
                    return Err(load_err());
                },
                Some(x) => x,
            };
            let ncs = crate::textutil::chars_of(name.as_str());
            let cstart = match scan_close(v, e + 1, &ncs, 0) {
                None => {
                    return Err(load_err());
                },
                Some(c) => c,
            };
            let content: Option<String> = if cstart > e + 1 {
                let mut raw: Vec<char> = Vec::new();
                let ok = unescape_acc(v, e + 1, cstart, &mut raw);
                if ok {
                    let (a, b) = crate::expr::trim_bounds(&raw, 0, raw.len());
                    proof {
                        assert(raw@.subrange(0, raw@.len() as int) =~= raw@);
                    }
                    Some(string_range(&raw, a, b))
                } else {
                    None
                }
            } else {
                None
            };
            let database_type = attr_lookup(v, k, e, "databaseType");
            let use_generated_keys = parse_bool(attr_lookup(v, k, e, "useGeneratedKeys"));
            let key_column = attr_lookup(v, k, e, "keyColumn");
            let item = ParsedItem { kind, id, database_type, use_generated_keys, key_column, content };
            let after = if len - cstart >= ncs.len() && len - cstart - ncs.len() >= 3 {
                cstart + ncs.len() + 3
            } else {
                len
            };
            match scan_unit(v, after, ns) {
                Err(e2) => Err(e2),
                Ok((nsf, rest)) => Ok((nsf, cons_item(item, rest))),
            }
        },
    }
}

/// A tag-end search passes over attribute-name characters untouched.
proof fn lemma_tag_end_skips_keys(s: Seq<char>, a: int, b: int, q: bool)
    requires
        0 <= a <= b <= s.len(),
        forall|j: int| a <= j < b ==> crate::parser::spec_is_key_char(#[trigger] s[j]),
    ensures
        sp_find_tag_end(s, a, q) == sp_find_tag_end(s, b, q),
    decreases b - a,
{
    if a < b {
        lemma_tag_end_skips_keys(s, a + 1, b, q);
    }
}

/// Finding a separator in a window is finding it in the tail.
proof fn lemma_find_sub_skip(s: Seq<char>, lit: Seq<char>, from: int)
    requires
        0 <= from <= s.len(),
    ensures
        crate::expr::sp_find_sub(s.skip(from), lit, 0) == (match crate::expr::sp_find_sub(
            s,
            lit,
            from,
        ) {
            Some(i) => Some(i - from),
            None => None::<int>,
        }),
{
    lemma_find_sub_skip_rec(s, lit, from, 0);
}

proof fn lemma_find_sub_skip_rec(s: Seq<char>, lit: Seq<char>, from: int, k: int)
    requires
        0 <= from <= s.len(),
        0 <= k,
    ensures
        crate::expr::sp_find_sub(s.skip(from), lit, k) == (match crate::expr::sp_find_sub(
            s,
            lit,
            from + k,
        ) {
            Some(i) => Some(i - from),
            None => None::<int>,
        }),
    decreases s.len() - from - k,
{
    let w = s.skip(from);
    if lit.len() == 0 || k + lit.len() > w.len() {
    } else {
        assert(w.subrange(k, k + lit.len()) =~= s.subrange(from + k, from + k + lit.len()));
        if w.subrange(k, k + lit.len()) == lit {
        } else {
            lemma_find_sub_skip_rec(s, lit, from, k + 1);
        }
    }
}

/// Parses a whole mapper unit: its namespace and its statement elements.
pub fn parse_mapper(xml: &str) -> (r: Result<(String, Vec<ParsedItem>), crate::error::DbError>)
    ensures
        match r {
            Ok((ns, items)) => sp_parse_mapper(xml@) == Ok::<_, ()>((ns@, iw(items@))),
            Err(e) => sp_parse_mapper(xml@) is Err && e is MapperLoadError,
        },
{
    let cs = crate::textutil::chars_of(xml);
    match scan_unit(&cs, 0, None) {
        Err(e) => Err(e),
        Ok((None, _)) => Err(
            crate::error::DbError::MapperLoadError(
                "mapper unit lacks a namespace attribute".to_owned(),
            ),
        ),
        Ok((Some(ns), items)) => Ok((ns, items)),
    }
}

} // verus!
