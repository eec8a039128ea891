use vstd::prelude::*;

use crate::textutil::{is_space, skip_spaces, spec_is_space, spec_ws_run, string_range};
use vstd::string::StringExecFns;

verus! {

broadcast use vstd::std_specs::vec::group_vec_axioms, vstd::seq::group_seq_axioms;

/// True when the characters `lit` stand in `s` at position `pos`.
pub open spec fn at(s: Seq<char>, pos: int, lit: Seq<char>) -> bool {
    &&& 0 <= pos
    &&& pos + lit.len() <= s.len()
    &&& s.subrange(pos, pos + lit.len()) == lit
}

/// First position at or after `from` holding the character `c`.
pub open spec fn sp_find_char(s: Seq<char>, c: char, from: int) -> Option<int>
    decreases s.len() - from,
{
    if from < 0 || from >= s.len() {
        None
    } else if s[from] == c {
        Some(from)
    } else {
        sp_find_char(s, c, from + 1)
    }
}

pub proof fn lemma_find_char_bounds(s: Seq<char>, c: char, from: int)
    requires
        0 <= from <= s.len(),
    ensures
        match sp_find_char(s, c, from) {
            Some(i) => from <= i < s.len() && s[i] == c && forall|k: int|
                from <= k < i ==> s[k] != c,
            None => forall|k: int| from <= k < s.len() ==> s[k] != c,
        },
    decreases s.len() - from,
{
    if from < s.len() && s[from] != c {
        lemma_find_char_bounds(s, c, from + 1);
    }
}

pub fn find_char(v: &Vec<char>, c: char, from: usize) -> (r: Option<usize>)
    requires
        from <= v@.len(),
    ensures
        match r {
            Some(i) => sp_find_char(v@, c, from as int) == Some(i as int) && from <= i < v@.len(),
            None => sp_find_char(v@, c, from as int) is None,
        },
{
    let n = v.len();
    let mut i: usize = from;
    while i < n
        invariant
            from <= i <= n,
            n == v@.len(),
            sp_find_char(v@, c, from as int) == sp_find_char(v@, c, i as int),
        decreases n - i,
    {
        if v[i] == c {
            return Some(i);
        }
        i = i + 1;
    }
    None
}

/// First position at or after `from` where the two characters stand side
/// by side.
pub open spec fn sp_find_pair(s: Seq<char>, c1: char, c2: char, from: int) -> Option<int>
    decreases s.len() - from,
{
    if from < 0 || from + 1 >= s.len() {
        None
    } else if s[from] == c1 && s[from + 1] == c2 {
        Some(from)
    } else {
        sp_find_pair(s, c1, c2, from + 1)
    }
}

pub fn find_pair(v: &Vec<char>, c1: char, c2: char, from: usize) -> (r: Option<usize>)
    requires
        from <= v@.len(),
    ensures
        match r {
            Some(i) => sp_find_pair(v@, c1, c2, from as int) == Some(i as int) && from <= i && i + 1
                < v@.len(),
            None => sp_find_pair(v@, c1, c2, from as int) is None,
        },
{
    let n = v.len();
    let mut i: usize = from;
    while i < n && i + 1 < n
        invariant
            from <= i,
            i <= n,
            n == v@.len(),
            sp_find_pair(v@, c1, c2, from as int) == sp_find_pair(v@, c1, c2, i as int),
        decreases n - i,
    {
        if v[i] == c1 && v[i + 1] == c2 {
            return Some(i);
        }
        i = i + 1;
    }
    None
}

/// Position of the `>` that ends a tag opened at `i`, skipping quoted
/// stretches: a `"` toggles the quote state, and only an unquoted `>`
/// closes the tag.
pub open spec fn sp_find_tag_end(s: Seq<char>, i: int, in_quote: bool) -> Option<int>
    decreases s.len() - i,
{
    if i < 0 || i >= s.len() {
        None
    } else if s[i] == '"' {
        sp_find_tag_end(s, i + 1, !in_quote)
    } else if s[i] == '>' && !in_quote {
        Some(i)
    } else {
        sp_find_tag_end(s, i + 1, in_quote)
    }
}

pub proof fn lemma_find_tag_end_bounds(s: Seq<char>, i: int, in_quote: bool)
    requires
        0 <= i <= s.len(),
    ensures
        match sp_find_tag_end(s, i, in_quote) {
            Some(e) => i <= e < s.len() && s[e] == '>',
            None => true,
        },
    decreases s.len() - i,
{
    if i < s.len() {
        if s[i] == '"' {
            lemma_find_tag_end_bounds(s, i + 1, !in_quote);
        } else if !(s[i] == '>' && !in_quote) {
            lemma_find_tag_end_bounds(s, i + 1, in_quote);
        }
    }
}

pub fn find_tag_end(v: &Vec<char>, from: usize) -> (r: Option<usize>)
    requires
        from <= v@.len(),
    ensures
        match r {
            Some(e) => sp_find_tag_end(v@, from as int, false) == Some(e as int) && from <= e
                < v@.len() && v@[e as int] == '>',
            None => sp_find_tag_end(v@, from as int, false) is None,
        },
{
    let n = v.len();
    let mut i: usize = from;
    let mut in_quote: bool = false;
    while i < n
        invariant
            from <= i <= n,
            n == v@.len(),
            sp_find_tag_end(v@, from as int, false) == sp_find_tag_end(v@, i as int, in_quote),
        decreases n - i,
    {
        if v[i] == '"' {
            in_quote = !in_quote;
        } else if v[i] == '>' && !in_quote {
            proof {
                lemma_find_tag_end_bounds(v@, from as int, false);
            }
            return Some(i);
        }
        i = i + 1;
    }
    None
}

/// A character that may stand in an attribute name: an ASCII letter or
/// digit, `_`, or `-`.
pub open spec fn spec_is_key_char(c: char) -> bool {
    ('a' <= c && c <= 'z') || ('A' <= c && c <= 'Z') || ('0' <= c && c <= '9') || c == '_' || c
        == '-'
}

pub fn is_key_char(c: char) -> (r: bool)
    ensures
        r == spec_is_key_char(c),
{
    ('a' <= c && c <= 'z') || ('A' <= c && c <= 'Z') || ('0' <= c && c <= '9') || c == '_' || c
        == '-'
}

/// Length of the run of attribute-name characters starting at `from`.
pub open spec fn spec_key_run(s: Seq<char>, from: int) -> int
    decreases s.len() - from,
{
    if from < 0 || from >= s.len() {
        0
    } else if spec_is_key_char(s[from]) {
        1 + spec_key_run(s, from + 1)
    } else {
        0
    }
}

pub proof fn lemma_key_run_bound(s: Seq<char>, from: int)
    requires
        0 <= from <= s.len(),
    ensures
        0 <= spec_key_run(s, from) <= s.len() - from,
        forall|k: int|
            from <= k < from + spec_key_run(s, from) ==> spec_is_key_char(#[trigger] s[k]),
    decreases s.len() - from,
{
    if from < s.len() && spec_is_key_char(s[from]) {
        lemma_key_run_bound(s, from + 1);
    }
}

pub fn key_run(v: &Vec<char>, from: usize) -> (r: usize)
    requires
        from <= v@.len(),
    ensures
        r == from + spec_key_run(v@, from as int),
        from <= r <= v@.len(),
{
    proof {
        lemma_key_run_bound(v@, from as int);
    }
    let n = v.len();
    let mut i: usize = from;
    while i < n && is_key_char(v[i])
        invariant
            from <= i <= n,
            n == v@.len(),
            spec_key_run(v@, from as int) == (i - from) + spec_key_run(v@, i as int),
        decreases n - i,
    {
        proof {
            lemma_key_run_bound(v@, i as int);
        }
        i = i + 1;
    }
    proof {
        lemma_key_run_bound(v@, i as int);
    }
    i
}

/// The attributes written between positions `i` and `to` of `s`, as
/// `key="value"` or `key='value'` pairs: later duplicates overwrite
/// earlier ones, and anything malformed is skipped a character at a time.
pub open spec fn sp_attrs(s: Seq<char>, i: int, to: int, acc: Map<Seq<char>, Seq<char>>) -> Map<
    Seq<char>,
    Seq<char>,
>
    decreases to - i,
    via sp_attrs_dec
{
    if i < 0 || i >= to || to > s.len() {
        acc
    } else {
        let j = i + spec_ws_run(s.subrange(0, to), i);
        if j >= to {
            acc
        } else {
            let k = j + spec_key_run(s.subrange(0, to), j);
            if k == j {
                // no key character here: skip one character
                sp_attrs(s, j + 1, to, acc)
            } else {
                let key = s.subrange(j, k);
                let m = k + spec_ws_run(s.subrange(0, to), k);
                if m >= to || s[m] != '=' {
                    sp_attrs(s, m, to, acc)
                } else {
                    let q = m + 1 + spec_ws_run(s.subrange(0, to), m + 1);
                    if q >= to {
                        acc
                    } else if s[q] != '"' && s[q] != '\'' {
                        sp_attrs(s, q, to, acc)
                    } else {
                        match sp_find_char(s.subrange(0, to), s[q], q + 1) {
                            Some(e) => sp_attrs(
                                s,
                                e + 1,
                                to,
                                acc.insert(key, s.subrange(q + 1, e)),
                            ),
                            None => acc,
                        }
                    }
                }
            }
        }
    }
}

#[via_fn]
proof fn sp_attrs_dec(s: Seq<char>, i: int, to: int, acc: Map<Seq<char>, Seq<char>>) {
    if !(i < 0 || i >= to || to > s.len()) {
        let sub = s.subrange(0, to);
        crate::textutil::lemma_ws_run_bound(sub, i);
        let j = i + spec_ws_run(sub, i);
        if j < to {
            lemma_key_run_bound(sub, j);
            let k = j + spec_key_run(sub, j);
            if k != j {
                crate::textutil::lemma_ws_run_bound(sub, k);
                let m = k + spec_ws_run(sub, k);
                if !(m >= to || s[m] != '=') {
                    crate::textutil::lemma_ws_run_bound(sub, m + 1);
                    let q = m + 1 + spec_ws_run(sub, m + 1);
                    if q < to && (s[q] == '"' || s[q] == '\'') {
                        lemma_find_char_bounds(sub, s[q], q + 1);
                    }
                }
            }
        }
    }
}

/// First position at or after `from`, and before `to`, where white space
/// ends.
pub fn skip_spaces_to(v: &Vec<char>, from: usize, to: usize) -> (r: usize)
    requires
        from <= to <= v@.len(),
    ensures
        r == from + spec_ws_run(v@.subrange(0, to as int), from as int),
        from <= r <= to,
{
    proof {
        crate::textutil::lemma_ws_run_bound(v@.subrange(0, to as int), from as int);
    }
    let mut i: usize = from;
    while i < to && is_space(v[i])
        invariant
            from <= i <= to <= v@.len(),
            spec_ws_run(v@.subrange(0, to as int), from as int) == (i - from) + spec_ws_run(
                v@.subrange(0, to as int),
                i as int,
            ),
        decreases to - i,
    {
        proof {
            crate::textutil::lemma_ws_run_bound(v@.subrange(0, to as int), i as int);
        }
        i = i + 1;
    }
    proof {
        crate::textutil::lemma_ws_run_bound(v@.subrange(0, to as int), i as int);
    }
    i
}

/// End of the attribute-name run starting at `from`, bounded by `to`.
pub fn key_run_to(v: &Vec<char>, from: usize, to: usize) -> (r: usize)
    requires
        from <= to <= v@.len(),
    ensures
        r == from + spec_key_run(v@.subrange(0, to as int), from as int),
        from <= r <= to,
{
    proof {
        lemma_key_run_bound(v@.subrange(0, to as int), from as int);
    }
    let mut i: usize = from;
    while i < to && is_key_char(v[i])
        invariant
            from <= i <= to <= v@.len(),
            spec_key_run(v@.subrange(0, to as int), from as int) == (i - from) + spec_key_run(
                v@.subrange(0, to as int),
                i as int,
            ),
        decreases to - i,
    {
        proof {
            lemma_key_run_bound(v@.subrange(0, to as int), i as int);
        }
        i = i + 1;
    }
    proof {
        lemma_key_run_bound(v@.subrange(0, to as int), i as int);
    }
    i
}

/// First position in `[from, to)` holding `c`.
pub fn find_char_to(v: &Vec<char>, c: char, from: usize, to: usize) -> (r: Option<usize>)
    requires
        from <= to <= v@.len(),
    ensures
        match r {
            Some(i) => sp_find_char(v@.subrange(0, to as int), c, from as int) == Some(i as int)
                && from <= i < to,
            None => sp_find_char(v@.subrange(0, to as int), c, from as int) is None,
        },
{
    let mut i: usize = from;
    while i < to
        invariant
            from <= i <= to <= v@.len(),
            sp_find_char(v@.subrange(0, to as int), c, from as int) == sp_find_char(
                v@.subrange(0, to as int),
                c,
                i as int,
            ),
        decreases to - i,
    {
        if v[i] == c {
            return Some(i);
        }
        i = i + 1;
    }
    None
}

/// The value of attribute `key` among the attributes written in
/// `s[from..to]`, the last occurrence winning, exactly as `sp_attrs`
/// collects them.
pub fn attr_lookup(v: &Vec<char>, from: usize, to: usize, key: &str) -> (r: Option<String>)
    requires
        from <= to <= v@.len(),
    ensures
        ({
            let am = sp_attrs(v@, from as int, to as int, Map::empty());
            match r {
                Some(val) => am.contains_key(key@) && am[key@] == val@,
                None => !am.contains_key(key@),
            }
        }),
{
    let ghost s = v@;
    let ghost mut gm: Map<Seq<char>, Seq<char>> = Map::empty();
    let mut found: Option<String> = None;
    let mut i: usize = from;
    loop
        invariant
            from <= i,
            i <= to <= v@.len(),
            s == v@,
            sp_attrs(s, from as int, to as int, Map::empty()) == sp_attrs(s, i as int, to as int, gm),
            match found {
                Some(val) => gm.contains_key(key@) && gm[key@] == val@,
                None => !gm.contains_key(key@),
            },
        ensures
            sp_attrs(s, from as int, to as int, Map::empty()) == gm,
            match found {
                Some(val) => gm.contains_key(key@) && gm[key@] == val@,
                None => !gm.contains_key(key@),
            },
        decreases to - i,
    {
        if i >= to {
            break;
        }
        let j = skip_spaces_to(v, i, to);
        if j >= to {
            break;
        }
        let k = key_run_to(v, j, to);
        if k == j {
            i = j + 1;
            continue;
        }
        let m = skip_spaces_to(v, k, to);
        if m >= to || v[m] != '=' {
            i = m;
            continue;
        }
        let q = skip_spaces_to(v, m + 1, to);
        if q >= to {
            break;
        }
        let qc = v[q];
        if qc != '"' && qc != '\'' {
            i = q;
            continue;
        }
        match find_char_to(v, qc, q + 1, to) {
            Some(e) => {
                let kstr = string_range(v, j, k);
                let val = string_range(v, q + 1, e);
                proof {
                    gm = gm.insert(s.subrange(j as int, k as int), s.subrange(q + 1, e as int));
                }
                if crate::textutil::str_eq(kstr.as_str(), key) {
                    found = Some(val);
                } else {
                    proof {
                        assert(s.subrange(j as int, k as int) != key@);
                    }
                }
                i = e + 1;
            },
            None => {
                break;
            },
        }
    }
    found
}


/// A newline occurs in `s`.
pub open spec fn has_nl(s: Seq<char>) -> bool {
    exists|i: int| 0 <= i < s.len() && s[i] == '\n'
}

/// The trimming rule applied to a block tag's body when the tag closes:
/// leading white space of the first text node and trailing white space of
/// the last are dropped, each only when its run holds a newline; a text
/// node emptied by the trim disappears.
pub open spec fn sp_trim_body(nodes: Seq<crate::ast::AstS>) -> Seq<crate::ast::AstS> {
    let step1 = if nodes.len() > 0 {
        match nodes[0] {
            crate::ast::AstS::Text(t) => {
                let lead = spec_ws_run(t, 0);
                if has_nl(t.take(lead)) {
                    if lead == t.len() {
                        nodes.drop_first()
                    } else {
                        nodes.update(0, crate::ast::AstS::Text(t.skip(lead)))
                    }
                } else {
                    nodes
                }
            },
            _ => nodes,
        }
    } else {
        nodes
    };
    if step1.len() > 0 {
        match step1.last() {
            crate::ast::AstS::Text(t) => {
                let tr = crate::expr::spec_ws_run_rev(t, t.len() as int);
                if has_nl(t.skip(t.len() - tr)) {
                    if tr == t.len() {
                        step1.drop_last()
                    } else {
                        step1.update(step1.len() - 1, crate::ast::AstS::Text(t.take(t.len() - tr)))
                    }
                } else {
                    step1
                }
            },
            _ => step1,
        }
    } else {
        step1
    }
}

/// A text chunk joins the node list: merged into a leading text node when
/// one follows, else as a text node of its own.
pub open spec fn merge_text(c: Seq<char>, nodes: Seq<crate::ast::AstS>) -> Seq<crate::ast::AstS> {
    if nodes.len() > 0 {
        match nodes[0] {
            crate::ast::AstS::Text(t) => seq![crate::ast::AstS::Text(c + t)] + nodes.drop_first(),
            _ => seq![crate::ast::AstS::Text(c)] + nodes,
        }
    } else {
        seq![crate::ast::AstS::Text(c)]
    }
}

/// Which block tag the position being parsed sits inside.
#[derive(Clone, Copy, PartialEq, Eq, Structural, Debug)]
pub enum FrameK {
    Root,
    IfK,
    ForK,
}

pub open spec fn lit_close_if() -> Seq<char> {
    seq!['<', '/', 'i', 'f', '>']
}

pub open spec fn lit_close_for() -> Seq<char> {
    seq!['<', '/', 'f', 'o', 'r', 'e', 'a', 'c', 'h', '>']
}

pub open spec fn lit_open_if() -> Seq<char> {
    seq!['<', 'i', 'f', ' ']
}

pub open spec fn lit_open_for() -> Seq<char> {
    seq!['<', 'f', 'o', 'r', 'e', 'a', 'c', 'h', ' ']
}

pub open spec fn lit_open_inc() -> Seq<char> {
    seq!['<', 'i', 'n', 'c', 'l', 'u', 'd', 'e']
}

pub open spec fn key_test() -> Seq<char> {
    seq!['t', 'e', 's', 't']
}

pub open spec fn key_item() -> Seq<char> {
    seq!['i', 't', 'e', 'm']
}

pub open spec fn key_collection() -> Seq<char> {
    seq!['c', 'o', 'l', 'l', 'e', 'c', 't', 'i', 'o', 'n']
}

pub open spec fn key_open() -> Seq<char> {
    seq!['o', 'p', 'e', 'n']
}

pub open spec fn key_separator() -> Seq<char> {
    seq!['s', 'e', 'p', 'a', 'r', 'a', 't', 'o', 'r']
}

pub open spec fn key_close() -> Seq<char> {
    seq!['c', 'l', 'o', 's', 'e']
}

pub open spec fn key_refid() -> Seq<char> {
    seq!['r', 'e', 'f', 'i', 'd']
}

/// A floor on the next scan position, keeping the parse recursion
/// well-founded; the parser in fact always advances past `lo`, so the
/// floor is never engaged.
pub open spec fn next_pos(p: int, lo: int, len: int) -> int {
    if p <= lo {
        if lo + 1 <= len {
            lo + 1
        } else {
            len
        }
    } else if p > len {
        len
    } else {
        p
    }
}

/// What the text-chunk step consumes at `pos`: up to the next `<` or
/// `#{`, or a single character when one of those stands right here.
pub open spec fn text_stop(s: Seq<char>, pos: int) -> int {
    let nt = sp_find_char(s, '<', pos);
    let nv = sp_find_pair(s, '#', '{', pos);
    let a = match nt {
        Some(i) => i,
        None => s.len() as int,
    };
    let b = match nv {
        Some(i) => i,
        None => s.len() as int,
    };
    if a <= b {
        a
    } else {
        b
    }
}

/// An `if` tag at `pos` is well formed: its `>` exists and it carries a
/// `test` attribute.
pub open spec fn sp_open_if_ok(s: Seq<char>, pos: int) -> bool {
    match sp_find_tag_end(s, pos, false) {
        Some(e) => sp_attrs(s, pos + 4, e, Map::empty()).contains_key(key_test()),
        None => false,
    }
}

/// A `foreach` tag at `pos` is well formed: its `>` exists and it carries
/// `item` and `collection` attributes.
pub open spec fn sp_open_for_ok(s: Seq<char>, pos: int) -> bool {
    match sp_find_tag_end(s, pos, false) {
        Some(e) => {
            let am = sp_attrs(s, pos + 9, e, Map::empty());
            am.contains_key(key_item()) && am.contains_key(key_collection())
        },
        None => false,
    }
}

/// An `include` tag at `pos` is well formed: its `>` exists and it
/// carries a `refid` attribute.
pub open spec fn sp_open_inc_ok(s: Seq<char>, pos: int) -> bool {
    match sp_find_tag_end(s, pos, false) {
        Some(e) => sp_attrs(s, pos + 8, e, Map::empty()).contains_key(key_refid()),
        None => false,
    }
}

/// An interpolation at `pos` is well formed: a `}` follows and the name
/// between the braces is not blank.
pub open spec fn sp_var_ok(s: Seq<char>, pos: int) -> bool {
    match sp_find_char(s, '}', pos + 2) {
        Some(e) => crate::expr::sp_trim(s.subrange(pos + 2, e)).len() > 0,
        None => false,
    }
}

/// The step taken for a well-formed `if` tag at `pos`.
pub open spec fn sp_step_if(s: Seq<char>, pos: int, frame: FrameK) -> (Seq<crate::ast::AstS>, int)
    decreases s.len() - pos, 0int,
{
    let len = s.len() as int;
    if 0 <= pos < len && sp_open_if_ok(s, pos) {
        let e = sp_find_tag_end(s, pos, false).unwrap();
        let am = sp_attrs(s, pos + 4, e, Map::empty());
        let test = crate::expr::sp_parse_expr(am[key_test()]);
        let (body, p2) = sp_parse_body(s, next_pos(e + 1, pos, len), FrameK::IfK);
        let (rest, p3) = sp_parse_body(s, next_pos(p2, pos, len), frame);
        (seq![crate::ast::AstS::If(test, sp_trim_body(body))] + rest, p3)
    } else {
        (Seq::empty(), len)
    }
}

/// The step taken for a well-formed `foreach` tag at `pos`.
pub open spec fn sp_step_for(s: Seq<char>, pos: int, frame: FrameK) -> (Seq<crate::ast::AstS>, int)
    decreases s.len() - pos, 0int,
{
    let len = s.len() as int;
    if 0 <= pos < len && sp_open_for_ok(s, pos) {
        let e = sp_find_tag_end(s, pos, false).unwrap();
        let am = sp_attrs(s, pos + 9, e, Map::empty());
        let (body, p2) = sp_parse_body(s, next_pos(e + 1, pos, len), FrameK::ForK);
        let (rest, p3) = sp_parse_body(s, next_pos(p2, pos, len), frame);
        let node = crate::ast::AstS::Foreach {
            item: am[key_item()],
            collection: am[key_collection()],
            open: if am.contains_key(key_open()) {
                am[key_open()]
            } else {
                Seq::empty()
            },
            separator: if am.contains_key(key_separator()) {
                am[key_separator()]
            } else {
                seq![',']
            },
            close: if am.contains_key(key_close()) {
                am[key_close()]
            } else {
                Seq::empty()
            },
            body: sp_trim_body(body),
        };
        (seq![node] + rest, p3)
    } else {
        (Seq::empty(), len)
    }
}

/// The step taken for a well-formed `include` tag at `pos`.
pub open spec fn sp_step_inc(s: Seq<char>, pos: int, frame: FrameK) -> (Seq<crate::ast::AstS>, int)
    decreases s.len() - pos, 0int,
{
    let len = s.len() as int;
    if 0 <= pos < len && sp_open_inc_ok(s, pos) {
        let e = sp_find_tag_end(s, pos, false).unwrap();
        let am = sp_attrs(s, pos + 8, e, Map::empty());
        let (rest, p3) = sp_parse_body(s, next_pos(e + 1, pos, len), frame);
        (seq![crate::ast::AstS::Include(am[key_refid()])] + rest, p3)
    } else {
        (Seq::empty(), len)
    }
}

/// The step taken for a well-formed interpolation at `pos`.
pub open spec fn sp_step_var(s: Seq<char>, pos: int, frame: FrameK) -> (Seq<crate::ast::AstS>, int)
    decreases s.len() - pos, 0int,
{
    let len = s.len() as int;
    if 0 <= pos < len && sp_var_ok(s, pos) {
        let e = sp_find_char(s, '}', pos + 2).unwrap();
        let name = crate::expr::sp_trim(s.subrange(pos + 2, e));
        let (rest, p3) = sp_parse_body(s, next_pos(e + 1, pos, len), frame);
        (seq![crate::ast::AstS::Var(name)] + rest, p3)
    } else {
        (Seq::empty(), len)
    }
}

/// The text step: consume up to the next structural marker, or one
/// character when a marker stands here yet fails to parse.
pub open spec fn sp_step_text(s: Seq<char>, pos: int, frame: FrameK) -> (Seq<crate::ast::AstS>,
    int,
)
    decreases s.len() - pos, 0int,
{
    let len = s.len() as int;
    if 0 <= pos < len {
        let stop = text_stop(s, pos);
        if stop > pos {
            let (rest, p3) = sp_parse_body(s, next_pos(stop, pos, len), frame);
            (merge_text(s.subrange(pos, stop), rest), p3)
        } else {
            let (rest, p3) = sp_parse_body(s, next_pos(pos + 1, pos, len), frame);
            (merge_text(seq![s[pos]], rest), p3)
        }
    } else {
        (Seq::empty(), len)
    }
}

/// The parse of `s` from `pos` inside a `frame`: the nodes read, and the
/// position after the matching closing tag, or the end of input, whichever
/// comes first.  A closing tag of the wrong kind, a malformed tag, and a
/// malformed interpolation all fall back to plain text, one character at
/// a time; a tag left open at the end of input closes there with the body
/// it has gathered.
pub open spec fn sp_parse_body(s: Seq<char>, pos: int, frame: FrameK) -> (Seq<crate::ast::AstS>,
    int,
)
    decreases s.len() - pos, 1int,
{
    let len = s.len() as int;
    if pos < 0 || pos >= len {
        (Seq::empty(), len)
    } else if at(s, pos, lit_close_if()) && frame == FrameK::IfK {
        (Seq::empty(), pos + 5)
    } else if at(s, pos, lit_close_for()) && frame == FrameK::ForK {
        (Seq::empty(), pos + 10)
    } else if at(s, pos, lit_open_if()) && sp_open_if_ok(s, pos) {
        sp_step_if(s, pos, frame)
    } else if at(s, pos, lit_open_for()) && sp_open_for_ok(s, pos) {
        sp_step_for(s, pos, frame)
    } else if at(s, pos, lit_open_inc()) && sp_open_inc_ok(s, pos) {
        sp_step_inc(s, pos, frame)
    } else if at(s, pos, seq!['#', '{']) && sp_var_ok(s, pos) {
        sp_step_var(s, pos, frame)
    } else {
        sp_step_text(s, pos, frame)
    }
}

pub proof fn lemma_text_stop_bounds(s: Seq<char>, pos: int)
    requires
        0 <= pos <= s.len(),
    ensures
        pos <= text_stop(s, pos) <= s.len(),
{
    lemma_find_char_bounds(s, '<', pos);
    lemma_find_pair_bounds(s, '#', '{', pos);
}

pub proof fn lemma_find_pair_bounds(s: Seq<char>, c1: char, c2: char, from: int)
    requires
        0 <= from,
    ensures
        match sp_find_pair(s, c1, c2, from) {
            Some(i) => from <= i && i + 1 < s.len() && s[i] == c1 && s[i + 1] == c2,
            None => true,
        },
    decreases s.len() - from,
{
    if !(from + 1 >= s.len()) && !(s[from] == c1 && s[from + 1] == c2) {
        lemma_find_pair_bounds(s, c1, c2, from + 1);
    }
}

/// The parse of a whole template: its root nodes.
pub open spec fn sp_parse_template(s: Seq<char>) -> Seq<crate::ast::AstS> {
    sp_parse_body(s, 0, FrameK::Root).0
}

/// True when the characters of `lit` stand in `v` at `pos`.
pub fn at_lit(v: &Vec<char>, pos: usize, lit: &Vec<char>) -> (r: bool)
    requires
        pos <= v@.len(),
    ensures
        r == at(v@, pos as int, lit@),
{
    let m = lit.len();
    let n = v.len();
    if n - pos < m {
        return false;
    }
    let mut j: usize = 0;
    while j < m
        invariant
            0 <= j <= m,
            m == lit@.len(),
            n == v@.len(),
            pos + m <= n,
            v@.subrange(pos as int, pos + j) =~= lit@.subrange(0, j as int),
        decreases m - j,
    {
        proof {
            assert(v@.subrange(pos as int, pos + j + 1).take(j as int) =~= v@.subrange(
                pos as int,
                pos + j,
            ));
            assert(lit@.subrange(0, j + 1).take(j as int) =~= lit@.subrange(0, j as int));
        }
        if v[pos + j] != lit[j] {
            proof {
                assert(v@.subrange(pos as int, pos + m)[j as int] == v@[pos + j]);
                assert(lit@.subrange(0, m as int) =~= lit@);
            }
            return false;
        }
        proof {
            assert forall|k: int| 0 <= k < j + 1 implies #[trigger] v@.subrange(
                pos as int,
                pos + j + 1,
            )[k] == lit@.subrange(0, j + 1)[k] by {
                if k < j {
                    assert(v@.subrange(pos as int, pos + j)[k] == lit@.subrange(0, j as int)[k]);
                }
            }
            assert(v@.subrange(pos as int, pos + j + 1) =~= lit@.subrange(0, j + 1));
        }
        j = j + 1;
    }
    proof {
        assert(lit@.subrange(0, m as int) =~= lit@);
    }
    true
}

/// A newline occurs in `v[from..to]`.
pub fn has_nl_range(v: &Vec<char>, from: usize, to: usize) -> (r: bool)
    requires
        from <= to <= v@.len(),
    ensures
        r == has_nl(v@.subrange(from as int, to as int)),
{
    let ghost w = v@.subrange(from as int, to as int);
    let mut i: usize = from;
    while i < to
        invariant
            from <= i <= to <= v@.len(),
            w == v@.subrange(from as int, to as int),
            forall|k: int| 0 <= k < i - from ==> w[k] != '\n',
        decreases to - i,
    {
        if v[i] == '\n' {
            proof {
                assert(w[i - from] == '\n');
            }
            return true;
        }
        i = i + 1;
    }
    false
}

/// The trailing white-space run of `v`.
pub fn ws_run_rev_exec(v: &Vec<char>) -> (r: usize)
    ensures
        r as int == crate::expr::spec_ws_run_rev(v@, v@.len() as int),
        r <= v@.len(),
{
    proof {
        crate::expr::lemma_ws_run_rev_bound(v@, v@.len() as int);
    }
    let n = v.len();
    let mut b: usize = n;
    while b > 0 && is_space(v[b - 1])
        invariant
            0 <= b <= n,
            n == v@.len(),
            crate::expr::spec_ws_run_rev(v@, n as int) == (n - b) + crate::expr::spec_ws_run_rev(
                v@,
                b as int,
            ),
        decreases b,
    {
        proof {
            crate::expr::lemma_ws_run_rev_bound(v@, b as int);
        }
        b = b - 1;
    }
    proof {
        crate::expr::lemma_ws_run_rev_bound(v@, b as int);
    }
    n - b
}

/// Applies the block-body trimming rule in place.
pub fn trim_text_nodes(nodes: &mut Vec<crate::ast::AstNode>)
    ensures
        crate::ast::nws(final(nodes)@) == sp_trim_body(crate::ast::nws(old(nodes)@)),
{
    proof {
        broadcast use crate::ast::lemma_nws_len, crate::ast::lemma_nws_index;

    }
    let ghost orig = crate::ast::nws(old(nodes)@);
    // leading trim on the first node
    let first_is_text = nodes.len() > 0 && matches!(&nodes[0], crate::ast::AstNode::Text(_));
    if first_is_text {
        let first = nodes.remove(0);
        match first {
            crate::ast::AstNode::Text(t) => {
                let cs = crate::textutil::chars_of(t.as_str());
                let lead = skip_spaces(&cs, 0);
                let nl = has_nl_range(&cs, 0, lead);
                proof {
                    assert(cs@.subrange(0, lead as int) =~= cs@.take(lead as int));
                }
                if nl {
                    if lead < cs.len() {
                        let rest_str = string_range(&cs, lead, cs.len());
                        proof {
                            assert(cs@.subrange(lead as int, cs@.len() as int) =~= cs@.skip(
                                lead as int,
                            ));
                        }
                        nodes.insert(0, crate::ast::AstNode::Text(rest_str));
                    }
                } else {
                    nodes.insert(0, crate::ast::AstNode::Text(t));
                }
            },
            other => {
                nodes.insert(0, other);
            },
        }
    }
    let ghost step1 = crate::ast::nws(nodes@);
    proof {
        broadcast use crate::ast::lemma_nws_len, crate::ast::lemma_nws_index;

        assert(step1 =~= ({
            if orig.len() > 0 {
                match orig[0] {
                    crate::ast::AstS::Text(t) => {
                        let lead = spec_ws_run(t, 0);
                        if has_nl(t.take(lead)) {
                            if lead == t.len() {
                                orig.drop_first()
                            } else {
                                orig.update(0, crate::ast::AstS::Text(t.skip(lead)))
                            }
                        } else {
                            orig
                        }
                    },
                    _ => orig,
                }
            } else {
                orig
            }
        }));
    }
    // trailing trim on the last node
    let last_is_text = nodes.len() > 0 && matches!(
        &nodes[nodes.len() - 1],
        crate::ast::AstNode::Text(_),
    );
    if last_is_text {
        let last = match nodes.pop() {
            Some(x) => x,
            None => {
                return ;
            },
        };
        match last {
            crate::ast::AstNode::Text(t) => {
                let cs = crate::textutil::chars_of(t.as_str());
                let tr = ws_run_rev_exec(&cs);
                let keep = cs.len() - tr;
                let nl = has_nl_range(&cs, keep, cs.len());
                proof {
                    assert(cs@.subrange(keep as int, cs@.len() as int) =~= cs@.skip(keep as int));
                }
                if nl {
                    if keep > 0 {
                        let head_str = string_range(&cs, 0, keep);
                        proof {
                            assert(cs@.subrange(0, keep as int) =~= cs@.take(keep as int));
                        }
                        nodes.push(crate::ast::AstNode::Text(head_str));
                    }
                } else {
                    nodes.push(crate::ast::AstNode::Text(t));
                }
            },
            other => {
                nodes.push(other);
            },
        }
    }
    proof {
        broadcast use crate::ast::lemma_nws_len, crate::ast::lemma_nws_index;

        assert(crate::ast::nws(nodes@) =~= sp_trim_body(orig));
    }
}

/// Puts `node` in front of `rest`.
fn cons_node(node: crate::ast::AstNode, rest: Vec<crate::ast::AstNode>) -> (r: Vec<
    crate::ast::AstNode,
>)
    ensures
        crate::ast::nws(r@) == seq![crate::ast::nw(node)] + crate::ast::nws(rest@),
{
    let mut out = rest;
    out.insert(0, node);
    proof {
        broadcast use crate::ast::lemma_nws_len, crate::ast::lemma_nws_index;

        assert(crate::ast::nws(out@) =~= seq![crate::ast::nw(node)] + crate::ast::nws(
            out@.drop_first(),
        ));
    }
    out
}

/// Joins a text chunk onto the front of `rest`, merging with a leading
/// text node.
fn merge_chunk(chunk: String, rest: Vec<crate::ast::AstNode>) -> (r: Vec<crate::ast::AstNode>)
    ensures
        crate::ast::nws(r@) == merge_text(chunk@, crate::ast::nws(rest@)),
{
    let mut out = rest;
    let head_is_text = out.len() > 0 && matches!(&out[0], crate::ast::AstNode::Text(_));
    if head_is_text {
        let ghost before = out@;
        let first = out.remove(0);
        match first {
            crate::ast::AstNode::Text(t) => {
                let merged = chunk.concat(t.as_str());
                out.insert(0, crate::ast::AstNode::Text(merged));
                proof {
                    broadcast use crate::ast::lemma_nws_len, crate::ast::lemma_nws_index;

                    assert(crate::ast::nws(out@) =~= merge_text(
                        chunk@,
                        crate::ast::nws(before),
                    ));
                }
            },
            other => {
                out.insert(0, other);
                proof {
                    assert(false);
                }
            },
        }
    } else {
        out.insert(0, crate::ast::AstNode::Text(chunk));
        proof {
            broadcast use crate::ast::lemma_nws_len, crate::ast::lemma_nws_index;

            assert(crate::ast::nws(out@) =~= merge_text(chunk@, crate::ast::nws(rest@)));
        }
    }
    out
}

/// One text step of the parser.
#[verifier::spinoff_prover]
fn text_step(v: &Vec<char>, pos: usize, frame: FrameK) -> (r: (Vec<crate::ast::AstNode>, usize))
    requires
        pos < v@.len(),
    ensures
        ({
            let (ns, end) = sp_step_text(v@, pos as int, frame);
            crate::ast::nws(r.0@) == ns && r.1 as int == end && pos < r.1 <= v@.len()
        }),
    decreases v@.len() - pos, 0int,
{
    let len = v.len();
    let nt = find_char(v, '<', pos);
    let nv = find_pair(v, '#', '{', pos);
    let a = match nt {
        Some(i) => i,
        None => len,
    };
    let b = match nv {
        Some(i) => i,
        None => len,
    };
    let stop = if a <= b {
        a
    } else {
        b
    };
    proof {
        assert(stop as int == text_stop(v@, pos as int));
        lemma_text_stop_bounds(v@, pos as int);
    }
    if stop > pos {
        let chunk = string_range(v, pos, stop);
        let (rest, p3) = parse_body(v, stop, frame);
        (merge_chunk(chunk, rest), p3)
    } else {
        let chunk = string_range(v, pos, pos + 1);
        proof {
            assert(v@.subrange(pos as int, pos + 1) =~= seq![v@[pos as int]]);
        }
        let (rest, p3) = parse_body(v, pos + 1, frame);
        (merge_chunk(chunk, rest), p3)
    }
}

/// Parses a well-formed `if` tag standing at `pos`.
#[verifier::spinoff_prover]
fn parse_if_at(v: &Vec<char>, pos: usize, frame: FrameK) -> (r: (Vec<crate::ast::AstNode>, usize))
    requires
        pos < v@.len(),
        sp_open_if_ok(v@, pos as int),
    ensures
        ({
            let (ns, end) = sp_step_if(v@, pos as int, frame);
            crate::ast::nws(r.0@) == ns && r.1 as int == end && pos < r.1 <= v@.len()
        }),
    decreases v@.len() - pos, 1int,
{
    let vlen = v.len();
    proof {
        reveal_strlit("test");
        assert("test"@ =~= key_test());
    }
    match find_tag_end(v, pos) {
        Some(e) => {
            match attr_lookup(v, pos + 4, e, "test") {
                Some(ts) => {
                    let ts_cs = crate::textutil::chars_of(ts.as_str());
                    proof {
                        assert(ts_cs@.subrange(0, ts_cs@.len() as int) =~= ts_cs@);
                    }
                    let test = crate::expr::parse_expr_chars(&ts_cs, 0, ts_cs.len());
                    let (mut body, p2) = parse_body(v, e + 1, FrameK::IfK);
                    trim_text_nodes(&mut body);
                    let (rest, p3) = parse_body(v, p2, frame);
                    let node = crate::ast::AstNode::If { test, body };
                    (cons_node(node, rest), p3)
                },
                None => {
                    proof {
                        assert(false);
                    }
                    (Vec::new(), vlen)
                },
            }
        },
        None => {
            proof {
                assert(false);
            }
            (Vec::new(), vlen)
        },
    }
}

/// Parses a well-formed `foreach` tag standing at `pos`.
#[verifier::spinoff_prover]
fn parse_for_at(v: &Vec<char>, pos: usize, frame: FrameK) -> (r: (Vec<crate::ast::AstNode>, usize))
    requires
        pos < v@.len(),
        sp_open_for_ok(v@, pos as int),
    ensures
        ({
            let (ns, end) = sp_step_for(v@, pos as int, frame);
            crate::ast::nws(r.0@) == ns && r.1 as int == end && pos < r.1 <= v@.len()
        }),
    decreases v@.len() - pos, 1int,
{
    let vlen = v.len();
    proof {
        reveal_strlit("item");
        reveal_strlit("collection");
        reveal_strlit("open");
        reveal_strlit("separator");
        reveal_strlit("close");
        reveal_strlit(",");
        assert("item"@ =~= key_item());
        assert("collection"@ =~= key_collection());
        assert("open"@ =~= key_open());
        assert("separator"@ =~= key_separator());
        assert("close"@ =~= key_close());
        assert(","@ =~= seq![',']);
    }
    match find_tag_end(v, pos) {
        Some(e) => {
            let item = attr_lookup(v, pos + 9, e, "item");
            let collection = attr_lookup(v, pos + 9, e, "collection");
            match (item, collection) {
                (Some(item), Some(collection)) => {
                    let open = match attr_lookup(v, pos + 9, e, "open") {
                        Some(x) => x,
                        None => String::new(),
                    };
                    let separator = match attr_lookup(v, pos + 9, e, "separator") {
                        Some(x) => x,
                        None => ",".to_owned(),
                    };
                    let close = match attr_lookup(v, pos + 9, e, "close") {
                        Some(x) => x,
                        None => String::new(),
                    };
                    let (mut body, p2) = parse_body(v, e + 1, FrameK::ForK);
                    trim_text_nodes(&mut body);
                    let (rest, p3) = parse_body(v, p2, frame);
                    let node = crate::ast::AstNode::Foreach {
                        item,
                        collection,
                        open,
                        separator,
                        close,
                        body,
                    };
                    (cons_node(node, rest), p3)
                },
                _ => {
                    proof {
                        assert(false);
                    }
                    (Vec::new(), vlen)
                },
            }
        },
        None => {
            proof {
                assert(false);
            }
            (Vec::new(), vlen)
        },
    }
}

/// Parses a well-formed `include` tag standing at `pos`.
#[verifier::spinoff_prover]
fn parse_inc_at(v: &Vec<char>, pos: usize, frame: FrameK) -> (r: (Vec<crate::ast::AstNode>, usize))
    requires
        pos < v@.len(),
        sp_open_inc_ok(v@, pos as int),
    ensures
        ({
            let (ns, end) = sp_step_inc(v@, pos as int, frame);
            crate::ast::nws(r.0@) == ns && r.1 as int == end && pos < r.1 <= v@.len()
        }),
    decreases v@.len() - pos, 1int,
{
    let vlen = v.len();
    proof {
        reveal_strlit("refid");
        assert("refid"@ =~= key_refid());
    }
    match find_tag_end(v, pos) {
        Some(e) => {
            match attr_lookup(v, pos + 8, e, "refid") {
                Some(refid) => {
                    let (rest, p3) = parse_body(v, e + 1, frame);
                    let node = crate::ast::AstNode::Include { refid };
                    (cons_node(node, rest), p3)
                },
                None => {
                    proof {
                        assert(false);
                    }
                    (Vec::new(), vlen)
                },
            }
        },
        None => {
            proof {
                assert(false);
            }
            (Vec::new(), vlen)
        },
    }
}

/// Parses a well-formed interpolation standing at `pos`.
#[verifier::spinoff_prover]
fn parse_var_at(v: &Vec<char>, pos: usize, frame: FrameK) -> (r: (Vec<crate::ast::AstNode>, usize))
    requires
        pos < v@.len(),
        pos + 2 <= v@.len(),
        sp_var_ok(v@, pos as int),
    ensures
        ({
            let (ns, end) = sp_step_var(v@, pos as int, frame);
            crate::ast::nws(r.0@) == ns && r.1 as int == end && pos < r.1 <= v@.len()
        }),
    decreases v@.len() - pos, 1int,
{
    let vlen = v.len();
    match find_char(v, '}', pos + 2) {
        Some(e) => {
            let (na, nb) = crate::expr::trim_bounds(v, pos + 2, e);
            if nb > na {
                let name = string_range(v, na, nb);
                let (rest, p3) = parse_body(v, e + 1, frame);
                let node = crate::ast::AstNode::Var(name);
                (cons_node(node, rest), p3)
            } else {
                proof {
                    assert(false);
                }
                (Vec::new(), vlen)
            }
        },
        None => {
            proof {
                assert(false);
            }
            (Vec::new(), vlen)
        },
    }
}

/// Index form of a literal match.
pub proof fn lemma_at_index(s: Seq<char>, pos: int, lit: Seq<char>)
    requires
        at(s, pos, lit),
    ensures
        forall|k: int| 0 <= k < lit.len() ==> s[pos + k] == lit[k],
{
    assert forall|k: int| 0 <= k < lit.len() implies s[pos + k] == lit[k] by {
        assert(s.subrange(pos, pos + lit.len())[k] == s[pos + k]);
    }
}

/// Parses template text from `pos` inside `frame`, returning the nodes
/// read and the position after the frame's closing tag or the end of
/// input.
#[verifier::rlimit(100)]
#[verifier::spinoff_prover]
fn parse_body(v: &Vec<char>, pos: usize, frame: FrameK) -> (r: (Vec<crate::ast::AstNode>, usize))
    requires
        pos <= v@.len(),
    ensures
        ({
            let (ns, end) = sp_parse_body(v@, pos as int, frame);
            crate::ast::nws(r.0@) == ns && r.1 as int == end && pos <= r.1 <= v@.len() && (pos
                < v@.len() ==> r.1 > pos)
        }),
    decreases v@.len() - pos, 2int,
{
    let len = v.len();
    if pos >= len {
        let out: Vec<crate::ast::AstNode> = Vec::new();
        proof {
            assert(crate::ast::nws(out@) =~= Seq::<crate::ast::AstS>::empty());
        }
        return (out, len);
    }
    let lit_cif = vec!['<', '/', 'i', 'f', '>'];
    let lit_cfor = vec!['<', '/', 'f', 'o', 'r', 'e', 'a', 'c', 'h', '>'];
    let lit_oif = vec!['<', 'i', 'f', ' '];
    let lit_ofor = vec!['<', 'f', 'o', 'r', 'e', 'a', 'c', 'h', ' '];
    let lit_oinc = vec!['<', 'i', 'n', 'c', 'l', 'u', 'd', 'e'];
    let lit_var = vec!['#', '{'];
    proof {
        assert(lit_cif@ =~= lit_close_if());
        assert(lit_cfor@ =~= lit_close_for());
        assert(lit_oif@ =~= lit_open_if());
        assert(lit_ofor@ =~= lit_open_for());
        assert(lit_oinc@ =~= lit_open_inc());
        assert(lit_var@ =~= seq!['#', '{']);
    }
    if at_lit(v, pos, &lit_cif) && matches!(frame, FrameK::IfK) {
        let out: Vec<crate::ast::AstNode> = Vec::new();
        proof {
            assert(crate::ast::nws(out@) =~= Seq::<crate::ast::AstS>::empty());
        }
        return (out, pos + 5);
    }
    if at_lit(v, pos, &lit_cfor) && matches!(frame, FrameK::ForK) {
        let out: Vec<crate::ast::AstNode> = Vec::new();
        proof {
            assert(crate::ast::nws(out@) =~= Seq::<crate::ast::AstS>::empty());
        }
        return (out, pos + 10);
    }
    let is_oif = at_lit(v, pos, &lit_oif);
    let is_ofor = at_lit(v, pos, &lit_ofor);
    let is_oinc = at_lit(v, pos, &lit_oinc);
    let is_var = at_lit(v, pos, &lit_var);
    if is_oif {
        let ok = match find_tag_end(v, pos) {
            Some(e) => attr_lookup(v, pos + 4, e, "test").is_some(),
            None => false,
        };
        proof {
            reveal_strlit("test");
            assert("test"@ =~= key_test());
        }
        if ok {
            return parse_if_at(v, pos, frame);
        }
    }
    if is_ofor {
        let ok = match find_tag_end(v, pos) {
            Some(e) => attr_lookup(v, pos + 9, e, "item").is_some() && attr_lookup(
                v,
                pos + 9,
                e,
                "collection",
            ).is_some(),
            None => false,
        };
        proof {
            reveal_strlit("item");
            reveal_strlit("collection");
            assert("item"@ =~= key_item());
            assert("collection"@ =~= key_collection());
        }
        if ok {
            proof {
                assert(!at(v@, pos as int, lit_open_if())) by {
                    if at(v@, pos as int, lit_open_if()) {
                        lemma_at_index(v@, pos as int, lit_open_if());
                        lemma_at_index(v@, pos as int, lit_open_for());
                    }
                }
            }
            return parse_for_at(v, pos, frame);
        }
    }
    if is_oinc {
        let ok = match find_tag_end(v, pos) {
            Some(e) => attr_lookup(v, pos + 8, e, "refid").is_some(),
            None => false,
        };
        proof {
            reveal_strlit("refid");
            assert("refid"@ =~= key_refid());
        }
        if ok {
            proof {
                lemma_at_index(v@, pos as int, lit_open_inc());
                assert(!at(v@, pos as int, lit_open_if())) by {
                    if at(v@, pos as int, lit_open_if()) {
                        lemma_at_index(v@, pos as int, lit_open_if());
                    }
                }
                assert(!at(v@, pos as int, lit_open_for())) by {
                    if at(v@, pos as int, lit_open_for()) {
                        lemma_at_index(v@, pos as int, lit_open_for());
                    }
                }
            }
            return parse_inc_at(v, pos, frame);
        }
    }
    if is_var {
        let ok = match find_char(v, '}', pos + 2) {
            Some(e) => {
                let (na, nb) = crate::expr::trim_bounds(v, pos + 2, e);
                nb > na
            },
            None => false,
        };
        if ok {
            proof {
                lemma_at_index(v@, pos as int, lit_var@);
                assert(!at(v@, pos as int, lit_open_if())) by {
                    if at(v@, pos as int, lit_open_if()) {
                        lemma_at_index(v@, pos as int, lit_open_if());
                    }
                }
                assert(!at(v@, pos as int, lit_open_for())) by {
                    if at(v@, pos as int, lit_open_for()) {
                        lemma_at_index(v@, pos as int, lit_open_for());
                    }
                }
                assert(!at(v@, pos as int, lit_open_inc())) by {
                    if at(v@, pos as int, lit_open_inc()) {
                        lemma_at_index(v@, pos as int, lit_open_inc());
                    }
                }
                assert(!at(v@, pos as int, lit_close_if())) by {
                    if at(v@, pos as int, lit_close_if()) {
                        lemma_at_index(v@, pos as int, lit_close_if());
                    }
                }
                assert(!at(v@, pos as int, lit_close_for())) by {
                    if at(v@, pos as int, lit_close_for()) {
                        lemma_at_index(v@, pos as int, lit_close_for());
                    }
                }
            }
            return parse_var_at(v, pos, frame);
        }
    }
    text_step(v, pos, frame)
}

/// Parses a whole template into its root nodes.  Tags left open at the end
/// of input close there, block bodies lose white space around newlines,
/// and malformed markup flows through as plain text.
pub fn parse_template(template: &str) -> (r: Vec<crate::ast::AstNode>)
    ensures
        crate::ast::nws(r@) == sp_parse_template(template@),
{
    let cs = crate::textutil::chars_of(template);
    let (nodes, _end) = parse_body(&cs, 0, FrameK::Root);
    nodes
}

} // verus!