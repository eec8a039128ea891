use vstd::prelude::*;

use crate::parser::sp_find_char;
use crate::textutil::str_eq;
use crate::value::{entries_get, vw, vw_entries, Value, ValueS};

verus! {

broadcast use vstd::std_specs::vec::group_vec_axioms, vstd::seq::group_seq_axioms;

/// The variable scope of one render pass: loop-local bindings, most
/// recent last, over a root object.
pub struct Context<'a> {
    root: &'a Value,
    locals: Vec<(String, &'a Value)>,
}

/// The model of a scope.
pub struct CtxS {
    pub root: ValueS,
    pub locals: Seq<(Seq<char>, ValueS)>,
}

/// The models of the local bindings, in push order.
pub open spec fn lw(s: Seq<(String, &Value)>) -> Seq<(Seq<char>, ValueS)>
    decreases s,
{
    if s.len() == 0 {
        Seq::empty()
    } else {
        seq![(s[0].0@, vw(*s[0].1))] + lw(s.drop_first())
    }
}

pub broadcast proof fn lemma_lw_len(s: Seq<(String, &Value)>)
    ensures
        #[trigger] lw(s).len() == s.len(),
    decreases s,
{
    if s.len() > 0 {
        lemma_lw_len(s.drop_first());
    }
}

pub broadcast proof fn lemma_lw_index(s: Seq<(String, &Value)>, i: int)
    requires
        0 <= i < s.len(),
    ensures
        #[trigger] lw(s)[i] == (s[i].0@, vw(*s[i].1)),
    decreases s,
{
    lemma_lw_len(s);
    if i > 0 {
        lemma_lw_index(s.drop_first(), i - 1);
    }
}

pub proof fn lemma_lw_push(s: Seq<(String, &Value)>, x: (String, &Value))
    ensures
        lw(s.push(x)) == lw(s).push((x.0@, vw(*x.1))),
{
    broadcast use lemma_lw_len, lemma_lw_index;

    assert(lw(s.push(x)) =~= lw(s).push((x.0@, vw(*x.1)))) by {
        lemma_lw_len(s.push(x));
        assert forall|i: int| 0 <= i < s.len() + 1 implies lw(s.push(x))[i] == lw(s).push(
            (x.0@, vw(*x.1)),
        )[i] by {
            lemma_lw_index(s.push(x), i);
            if i < s.len() {
                lemma_lw_index(s, i);
                assert(s.push(x)[i] == s[i]);
            } else {
                assert(s.push(x)[i] == x);
            }
        }
    }
}

/// The most recently pushed local binding under `key`, if any.
pub open spec fn sp_get_local(locals: Seq<(Seq<char>, ValueS)>, key: Seq<char>) -> Option<ValueS>
    decreases locals.len(),
{
    if locals.len() == 0 {
        None
    } else if locals.last().0 == key {
        Some(locals.last().1)
    } else {
        sp_get_local(locals.drop_last(), key)
    }
}

/// An exact-name resolution: a local binding first, then a key of the
/// root object.
pub open spec fn sp_get_scope(ctx: CtxS, key: Seq<char>) -> Option<ValueS> {
    match sp_get_local(ctx.locals, key) {
        Some(v) => Some(v),
        None => match ctx.root {
            ValueS::Object(entries) => entries_get(entries, key),
            _ => None,
        },
    }
}

/// An ASCII letter's lower-case form; other characters unchanged.
pub open spec fn sp_lower(c: char) -> char {
    if 'A' <= c && c <= 'Z' {
        ((c as u32) + 32) as char
    } else {
        c
    }
}

/// The snake_case spelling of a camelCase name: an upper-case ASCII
/// letter becomes an underscore and its lower-case form.
pub open spec fn sp_to_snake(s: Seq<char>) -> Seq<char>
    decreases s.len(),
{
    if s.len() == 0 {
        Seq::empty()
    } else if 'A' <= s[0] && s[0] <= 'Z' {
        seq!['_', sp_lower(s[0])] + sp_to_snake(s.drop_first())
    } else {
        seq![s[0]] + sp_to_snake(s.drop_first())
    }
}

/// The camelCase spelling of a snake_case name: an underscore before an
/// ASCII letter disappears and the letter turns upper case.
pub open spec fn sp_to_camel(s: Seq<char>) -> Seq<char>
    decreases s.len(),
{
    if s.len() == 0 {
        Seq::empty()
    } else if s.len() >= 2 && s[0] == '_' && 'a' <= s[1] && s[1] <= 'z' {
        seq![(((s[1] as u32) - 32) as char)] + sp_to_camel(s.skip(2))
    } else {
        seq![s[0]] + sp_to_camel(s.drop_first())
    }
}

/// A name resolution that, when the exact name misses, retries the
/// snake_case and then the camelCase spelling of the name.
pub open spec fn sp_get_scope_conv(ctx: CtxS, key: Seq<char>) -> Option<ValueS> {
    match sp_get_scope(ctx, key) {
        Some(v) => Some(v),
        None => match sp_get_scope(ctx, sp_to_snake(key)) {
            Some(v) => Some(v),
            None => sp_get_scope(ctx, sp_to_camel(key)),
        },
    }
}

/// A key lookup in an object value, with the spelling fallback.
pub open spec fn sp_obj_get_conv(entries: Seq<(Seq<char>, ValueS)>, key: Seq<char>) -> Option<
    ValueS,
> {
    match entries_get(entries, key) {
        Some(v) => Some(v),
        None => match entries_get(entries, sp_to_snake(key)) {
            Some(v) => Some(v),
            None => entries_get(entries, sp_to_camel(key)),
        },
    }
}

/// Walks `path`, a dot-separated chain of keys, down from `cur` through
/// object values; `conv` allows the spelling fallback at each step.
pub open spec fn sp_resolve_path(cur: ValueS, path: Seq<char>, conv: bool) -> Option<ValueS>
    decreases path.len(),
    via sp_resolve_path_dec
{
    let seg_end = match sp_find_char(path, '.', 0) {
        Some(i) => i,
        None => path.len() as int,
    };
    let seg = path.take(seg_end);
    let hit = match cur {
        ValueS::Object(entries) => if conv {
            sp_obj_get_conv(entries, seg)
        } else {
            entries_get(entries, seg)
        },
        _ => None,
    };
    match hit {
        None => None,
        Some(v) => if seg_end == path.len() {
            Some(v)
        } else {
            sp_resolve_path(v, path.skip(seg_end + 1), conv)
        },
    }
}

#[via_fn]
proof fn sp_resolve_path_dec(cur: ValueS, path: Seq<char>, conv: bool) {
    crate::parser::lemma_find_char_bounds(path, '.', 0);
}

/// The full lookup rule of the render context: an exact match among the
/// locals or on the root object; else, for a dotted path, a walk from an
/// exact head; else the same two steps with the snake_case / camelCase
/// spelling fallback; else null — a lookup never fails.
pub open spec fn sp_lookup(ctx: CtxS, key: Seq<char>) -> ValueS {
    match sp_get_scope(ctx, key) {
        Some(v) => v,
        None => {
            let exact_walk = match sp_find_char(key, '.', 0) {
                Some(d) => match sp_get_scope(ctx, key.take(d)) {
                    Some(head) => sp_resolve_path(head, key.skip(d + 1), false),
                    None => None,
                },
                None => None,
            };
            match exact_walk {
                Some(v) => v,
                None => {
                    let conv = match sp_find_char(key, '.', 0) {
                        Some(d) => match sp_get_scope_conv(ctx, key.take(d)) {
                            Some(head) => sp_resolve_path(head, key.skip(d + 1), true),
                            None => None,
                        },
                        None => sp_get_scope_conv(ctx, key),
                    };
                    match conv {
                        Some(v) => v,
                        None => ValueS::Null,
                    }
                },
            }
        },
    }
}

impl<'a> Context<'a> {
    /// The model of this scope.
    pub closed spec fn view(&self) -> CtxS {
        CtxS { root: vw(*self.root), locals: lw(self.locals@) }
    }

    /// A scope over a root value, with no locals.
    pub fn new(root: &'a Value) -> (r: Context<'a>)
        ensures
            r.view() == (CtxS { root: vw(*root), locals: Seq::<(Seq<char>, ValueS)>::empty() }),
    {
        let r = Context { root, locals: Vec::new() };
        proof {
            assert(lw(r.locals@) =~= Seq::<(Seq<char>, ValueS)>::empty());
        }
        r
    }

    /// Pushes a loop-local binding; the newest binding shadows older ones
    /// and the root.
    pub fn push(&mut self, key: &str, value: &'a Value)
        ensures
            final(self).view().root == old(self).view().root,
            final(self).view().locals == old(self).view().locals.push((key@, vw(*value))),
    {
        let owned = key.to_owned();
        proof {
            lemma_lw_push(self.locals@, (owned, value));
        }
        self.locals.push((owned, value));
    }

    /// Pops the newest loop-local binding.
    pub fn pop(&mut self)
        ensures
            final(self).view().root == old(self).view().root,
            final(self).view().locals == if old(self).view().locals.len() > 0 {
                old(self).view().locals.drop_last()
            } else {
                old(self).view().locals
            },
    {
        proof {
            broadcast use lemma_lw_len, lemma_lw_index;

        }
        let popped = self.locals.pop();
        proof {
            broadcast use lemma_lw_len, lemma_lw_index;

            if old(self).locals@.len() > 0 {
                assert(lw(self.locals@) =~= lw(old(self).locals@).drop_last());
            } else {
                assert(lw(self.locals@) =~= lw(old(self).locals@));
            }
        }
    }
}


impl<'a> Context<'a> {
    /// The newest local binding under `key`, if any.
    fn get_local(&self, key: &str) -> (r: Option<&'a Value>)
        ensures
            match r {
                Some(v) => sp_get_local(self.view().locals, key@) == Some(vw(*v)),
                None => sp_get_local(self.view().locals, key@) is None,
            },
    {
        proof {
            broadcast use lemma_lw_len, lemma_lw_index;

        }
        let n = self.locals.len();
        let ghost ls = lw(self.locals@);
        proof {
            assert(ls.take(n as int) =~= ls);
        }
        let mut b: usize = n;
        while b > 0
            invariant
                0 <= b <= n,
                n == self.locals@.len(),
                ls == lw(self.locals@),
                ls.len() == n,
                sp_get_local(ls, key@) == sp_get_local(ls.take(b as int), key@),
            decreases b,
        {
            proof {
                broadcast use lemma_lw_len, lemma_lw_index;

                assert(ls.take(b as int).last() == ls[b - 1]);
                assert(ls.take(b as int).drop_last() =~= ls.take(b - 1));
            }
            if str_eq(self.locals[b - 1].0.as_str(), key) {
                return Some(self.locals[b - 1].1);
            }
            b = b - 1;
        }
        proof {
            assert(ls.take(0).len() == 0);
        }
        None
    }

    /// An exact-name resolution: locals first, then the root object.
    fn get_scope(&self, key: &str) -> (r: Option<&'a Value>)
        ensures
            match r {
                Some(v) => sp_get_scope(self.view(), key@) == Some(vw(*v)),
                None => sp_get_scope(self.view(), key@) is None,
            },
    {
        match self.get_local(key) {
            Some(v) => Some(v),
            None => match self.root {
                Value::Object(entries) => crate::value::obj_get(entries, key),
                _ => None,
            },
        }
    }

    /// An exact-name resolution with the spelling fallback.
    fn get_scope_conv(&self, key: &str) -> (r: Option<&'a Value>)
        ensures
            match r {
                Some(v) => sp_get_scope_conv(self.view(), key@) == Some(vw(*v)),
                None => sp_get_scope_conv(self.view(), key@) is None,
            },
    {
        match self.get_scope(key) {
            Some(v) => Some(v),
            None => {
                let cs = crate::textutil::chars_of(key);
                let snake = to_snake_exec(&cs);
                match self.get_scope(snake.as_str()) {
                    Some(v) => Some(v),
                    None => {
                        let camel = to_camel_exec(&cs);
                        self.get_scope(camel.as_str())
                    },
                }
            },
        }
    }

    /// Resolves a dotted-path name to a value of the scope: an exact
    /// match first, then a path walk, then the spelling fallback, and
    /// null when everything misses.
    pub fn lookup(&self, key: &str) -> (r: Option<&'a Value>)
        ensures
            (match r {
                Some(v) => vw(*v),
                None => ValueS::Null,
            }) == sp_lookup(self.view(), key@),
            r is None ==> sp_lookup(self.view(), key@) is Null,
    {
        match self.get_scope(key) {
            Some(v) => Some(v),
            None => {
                let cs = crate::textutil::chars_of(key);
                match crate::parser::find_char(&cs, '.', 0) {
                    Some(d) => {
                        let head_str = crate::textutil::string_range(&cs, 0, d);
                        proof {
                            assert(cs@.subrange(0, d as int) =~= key@.take(d as int));
                            assert(cs@.subrange(d + 1, cs@.len() as int) =~= key@.skip(d + 1));
                        }
                        let exact = match self.get_scope(head_str.as_str()) {
                            Some(head) => resolve_path(head, &cs, d + 1, cs.len(), false),
                            None => None,
                        };
                        match exact {
                            Some(v) => Some(v),
                            None => {
                                match self.get_scope_conv(head_str.as_str()) {
                                    Some(head) => resolve_path(head, &cs, d + 1, cs.len(), true),
                                    None => None,
                                }
                            },
                        }
                    },
                    None => self.get_scope_conv(key),
                }
            },
        }
    }
}

/// The snake_case spelling of a name.
fn to_snake_exec(cs: &Vec<char>) -> (r: String)
    ensures
        r@ == sp_to_snake(cs@),
{
    let mut out: Vec<char> = Vec::new();
    let n = cs.len();
    proof {
        assert(cs@.skip(0) =~= cs@);
    }
    let mut i: usize = 0;
    while i < n
        invariant
            0 <= i <= n,
            n == cs@.len(),
            sp_to_snake(cs@) =~= out@ + sp_to_snake(cs@.skip(i as int)),
        decreases n - i,
    {
        let c = cs[i];
        proof {
            assert(cs@.skip(i as int)[0] == cs@[i as int]);
            assert(cs@.skip(i as int).drop_first() =~= cs@.skip(i + 1));
        }
        if 'A' <= c && c <= 'Z' {
            out.push('_');
            out.push((((c as u32) + 32) as u8) as char);
        } else {
            out.push(c);
        }
        i = i + 1;
    }
    proof {
        assert(cs@.skip(n as int).len() == 0);
        assert(sp_to_snake(cs@) =~= out@);
    }
    crate::textutil::string_of_chars(&out)
}

/// The camelCase spelling of a name.
fn to_camel_exec(cs: &Vec<char>) -> (r: String)
    ensures
        r@ == sp_to_camel(cs@),
{
    let mut out: Vec<char> = Vec::new();
    let n = cs.len();
    proof {
        assert(cs@.skip(0) =~= cs@);
    }
    let mut i: usize = 0;
    while i < n
        invariant
            0 <= i <= n,
            n == cs@.len(),
            sp_to_camel(cs@) =~= out@ + sp_to_camel(cs@.skip(i as int)),
        decreases n - i,
    {
        let c = cs[i];
        proof {
            assert(cs@.skip(i as int)[0] == cs@[i as int]);
            assert(cs@.skip(i as int).drop_first() =~= cs@.skip(i + 1));
            if i + 1 < n {
                assert(cs@.skip(i as int)[1] == cs@[i + 1]);
                assert(cs@.skip(i as int).skip(2) =~= cs@.skip(i + 2));
            }
        }
        if c == '_' && i + 1 < n && 'a' <= cs[i + 1] && cs[i + 1] <= 'z' {
            out.push((((cs[i + 1] as u32) - 32) as u8) as char);
            i = i + 2;
        } else {
            out.push(c);
            i = i + 1;
        }
    }
    proof {
        assert(cs@.skip(n as int).len() == 0);
        assert(sp_to_camel(cs@) =~= out@);
    }
    crate::textutil::string_of_chars(&out)
}

/// Walks the dotted path `v[from..to]` down from `cur`.
fn resolve_path<'a>(cur: &'a Value, v: &Vec<char>, from: usize, to: usize, conv: bool) -> (r:
    Option<&'a Value>)
    requires
        from <= to <= v@.len(),
    ensures
        match r {
            Some(x) => sp_resolve_path(vw(*cur), v@.subrange(from as int, to as int), conv)
                == Some(vw(*x)),
            None => sp_resolve_path(vw(*cur), v@.subrange(from as int, to as int), conv) is None,
        },
    decreases to - from,
{
    let ghost path = v@.subrange(from as int, to as int);
    let dot = vec!['.'];
    proof {
        assert(dot@ =~= seq!['.']);
    }
    let seg_end = match crate::expr::find_sub_to(v, &dot, from, to) {
        Some(i) => i,
        None => to,
    };
    proof {
        crate::expr::lemma_find_sub_bounds(path, seq!['.'], 0);
        assert(seq!['.'].len() == 1);
        assert(sp_find_char(path, '.', 0) == (match crate::expr::sp_find_sub(path, seq!['.'], 0) {
            Some(i) => Some(i),
            None => None::<int>,
        })) by {
            lemma_find_char_is_find_sub(path, 0);
        }
        assert(path.take(seg_end - from) =~= v@.subrange(from as int, seg_end as int));
    }
    let seg = crate::textutil::string_range(v, from, seg_end);
    let hit: Option<&'a Value> = match cur {
        Value::Object(entries) => {
            if conv {
                match crate::value::obj_get(entries, seg.as_str()) {
                    Some(x) => Some(x),
                    None => {
                        let scs = crate::textutil::chars_of(seg.as_str());
                        let snake = to_snake_exec(&scs);
                        match crate::value::obj_get(entries, snake.as_str()) {
                            Some(x) => Some(x),
                            None => {
                                let camel = to_camel_exec(&scs);
                                crate::value::obj_get(entries, camel.as_str())
                            },
                        }
                    },
                }
            } else {
                crate::value::obj_get(entries, seg.as_str())
            }
        },
        _ => None,
    };
    match hit {
        None => None,
        Some(x) => {
            if seg_end >= to {
                Some(x)
            } else {
                proof {
                    assert(path.skip(seg_end - from + 1) =~= v@.subrange(seg_end + 1, to as int));
                }
                resolve_path(x, v, seg_end + 1, to, conv)
            }
        },
    }
}

/// A single-character search is a single-character substring search.
proof fn lemma_find_char_is_find_sub(s: Seq<char>, from: int)
    requires
        0 <= from,
    ensures
        sp_find_char(s, '.', from) == (match crate::expr::sp_find_sub(s, seq!['.'], from) {
            Some(i) => Some(i),
            None => None::<int>,
        }),
    decreases s.len() - from,
{
    if from < s.len() {
        assert(s.subrange(from, from + 1) =~= seq![s[from]]);
        if s[from] != '.' {
            assert(s.subrange(from, from + 1) != seq!['.']) by {
                assert(s.subrange(from, from + 1)[0] == s[from]);
            }
            lemma_find_char_is_find_sub(s, from + 1);
        }
    }
}

} // verus!
