use vstd::prelude::*;

use crate::ast::{ew, Expr, ExprS, Op};
use crate::parser::{sp_find_char, spec_is_key_char};
use crate::textutil::{is_space, spec_is_space, spec_ws_run, string_range};
use crate::value::{Decimal, Value, ValueS};

verus! {

broadcast use vstd::std_specs::vec::group_vec_axioms, vstd::seq::group_seq_axioms;

/// Length of the white-space run that ends just before position `upto`.
pub open spec fn spec_ws_run_rev(s: Seq<char>, upto: int) -> int
    decreases upto,
{
    if upto <= 0 || upto > s.len() {
        0
    } else if spec_is_space(s[upto - 1]) {
        1 + spec_ws_run_rev(s, upto - 1)
    } else {
        0
    }
}

pub proof fn lemma_ws_run_rev_bound(s: Seq<char>, upto: int)
    requires
        0 <= upto <= s.len(),
    ensures
        0 <= spec_ws_run_rev(s, upto) <= upto,
        forall|k: int|
            upto - spec_ws_run_rev(s, upto) <= k < upto ==> spec_is_space(#[trigger] s[k]),
        upto - spec_ws_run_rev(s, upto) > 0 ==> !spec_is_space(s[upto - spec_ws_run_rev(s, upto)
            - 1]),
    decreases upto,
{
    if upto > 0 && spec_is_space(s[upto - 1]) {
        lemma_ws_run_rev_bound(s, upto - 1);
    }
}

/// `s` without leading and trailing white space.
pub open spec fn sp_trim(s: Seq<char>) -> Seq<char> {
    let a = spec_ws_run(s, 0);
    if a == s.len() {
        Seq::empty()
    } else {
        s.subrange(a, s.len() - spec_ws_run_rev(s, s.len() as int))
    }
}

/// Trimmed bounds of the window `[from, to)` of `v`: the window's text
/// without leading and trailing white space is `v[a..b]`.
pub fn trim_bounds(v: &Vec<char>, from: usize, to: usize) -> (r: (usize, usize))
    requires
        from <= to <= v@.len(),
    ensures
        from <= r.0 <= r.1 <= to,
        v@.subrange(r.0 as int, r.1 as int) == sp_trim(v@.subrange(from as int, to as int)),
{
    let ghost s = v@.subrange(from as int, to as int);
    proof {
        crate::textutil::lemma_ws_run_bound(s, 0);
        lemma_ws_run_rev_bound(s, s.len() as int);
    }
    let mut a: usize = from;
    while a < to && is_space(v[a])
        invariant
            from <= a <= to,
            to <= v@.len(),
            s == v@.subrange(from as int, to as int),
            forall|k: int| from <= k < a ==> spec_is_space(#[trigger] v@[k]),
        decreases to - a,
    {
        a = a + 1;
    }
    let mut b: usize = to;
    while b > a && is_space(v[b - 1])
        invariant
            a <= b <= to <= v@.len(),
            forall|k: int| b <= k < to ==> spec_is_space(#[trigger] v@[k]),
        decreases b,
    {
        b = b - 1;
    }
    proof {
        assert forall|k: int| 0 <= k < s.len() implies s[k] == v@[from + k] by {}
        if a == to {
            // the whole window is white space
            assert(spec_ws_run(s, 0) == s.len()) by {
                crate::textutil::lemma_ws_run_bound(s, 0);
                if spec_ws_run(s, 0) < s.len() {
                    assert(!spec_is_space(s[spec_ws_run(s, 0)]));
                    assert(spec_is_space(v@[from + spec_ws_run(s, 0)]));
                }
            }
            assert(v@.subrange(a as int, b as int) =~= sp_trim(s));
        } else {
            let ga = spec_ws_run(s, 0);
            crate::textutil::lemma_ws_run_bound(s, 0);
            assert(ga == a - from) by {
                if ga < a - from {
                    assert(!spec_is_space(s[ga]));
                    assert(spec_is_space(v@[from + ga]));
                } else if ga > a - from {
                    assert(spec_is_space(s[a - from]));
                    assert(!spec_is_space(v@[a as int]));
                }
            }
            let gb = spec_ws_run_rev(s, s.len() as int);
            lemma_ws_run_rev_bound(s, s.len() as int);
            // b == a is impossible: v[a] is not white space yet would lie in
            // the all-space run [b, to)
            assert(b > a) by {
                if b == a {
                    assert(spec_is_space(v@[a as int]));
                }
            }
            assert(s.len() - gb == b - from) by {
                if s.len() - gb < b - from {
                    // then s[b - from - 1] would lie inside the trailing run
                    assert(spec_is_space(s[b - from - 1]));
                    assert(s[b - from - 1] == v@[b - 1]);
                } else if s.len() - gb > b - from {
                    // then the character before the run would be a space
                    assert(spec_is_space(s[s.len() - gb - 1]));
                    assert(!spec_is_space(s[s.len() - gb - 1]));
                }
            }
            assert(v@.subrange(a as int, b as int) =~= sp_trim(s));
        }
    }
    (a, b)
}

/// An ASCII digit.
pub open spec fn spec_is_digit(c: char) -> bool {
    '0' <= c && c <= '9'
}

pub fn is_digit(c: char) -> (r: bool)
    ensures
        r == spec_is_digit(c),
{
    '0' <= c && c <= '9'
}

/// Numeric value of a digit character.
pub open spec fn digit_val(c: char) -> int {
    c as int - 48
}

/// Every character of `s` is an ASCII digit.
pub open spec fn all_digits(s: Seq<char>) -> bool {
    forall|i: int| 0 <= i < s.len() ==> spec_is_digit(#[trigger] s[i])
}

/// The number written by a digit string, most significant digit first.
pub open spec fn digits_num(s: Seq<char>) -> int
    decreases s.len(),
{
    if s.len() == 0 {
        0
    } else {
        digits_num(s.drop_last()) * 10 + digit_val(s.last())
    }
}

pub proof fn lemma_digits_num_nonneg(s: Seq<char>)
    requires
        all_digits(s),
    ensures
        digits_num(s) >= 0,
    decreases s.len(),
{
    if s.len() > 0 {
        assert(all_digits(s.drop_last())) by {
            assert forall|i: int| 0 <= i < s.len() - 1 implies spec_is_digit(
                #[trigger] s.drop_last()[i],
            ) by {
                assert(s.drop_last()[i] == s[i]);
            }
        }
        lemma_digits_num_nonneg(s.drop_last());
    }
}

/// Extending a digit string to the right never shrinks its number.
pub proof fn lemma_digits_num_prefix(s: Seq<char>, k: int)
    requires
        all_digits(s),
        0 <= k <= s.len(),
    ensures
        digits_num(s) >= digits_num(s.take(k)),
    decreases s.len() - k,
{
    lemma_digits_num_nonneg(s);
    if k == s.len() {
        assert(s.take(k) =~= s);
    } else {
        lemma_digits_num_prefix(s, k + 1);
        assert(s.take(k + 1).drop_last() =~= s.take(k));
        assert(s.take(k + 1).last() == s[k]);
        assert(all_digits(s.take(k))) by {
            assert forall|i: int| 0 <= i < k implies spec_is_digit(#[trigger] s.take(k)[i]) by {
                assert(s.take(k)[i] == s[i]);
            }
        }
        lemma_digits_num_nonneg(s.take(k));
    }
}

/// The unsigned integer written by `s`, if `s` is one or more digits.
pub open spec fn sp_parse_uint(s: Seq<char>) -> Option<int> {
    if s.len() > 0 && all_digits(s) {
        Some(digits_num(s))
    } else {
        None
    }
}

/// The signed integer written by `s`: an optional `+` or `-` sign, then
/// one or more digits.
pub open spec fn sp_parse_int(s: Seq<char>) -> Option<int> {
    if s.len() > 0 && (s[0] == '+' || s[0] == '-') {
        match sp_parse_uint(s.drop_first()) {
            Some(n) => Some(
                if s[0] == '-' {
                    -n
                } else {
                    n
                },
            ),
            None => None,
        }
    } else {
        sp_parse_uint(s)
    }
}

/// The i64 written by `s`, `None` when malformed or out of range.
pub open spec fn sp_parse_i64(s: Seq<char>) -> Option<i64> {
    match sp_parse_int(s) {
        Some(n) => if i64::MIN <= n <= i64::MAX {
            Some(n as i64)
        } else {
            None
        },
        None => None,
    }
}

/// The unsigned digits of `v[from..to]` as a number, `None` on a
/// malformed string, `Some(None)` on one whose value does not fit below
/// `bound`.
#[verifier::loop_isolation(false)]
fn parse_uint_chars(v: &Vec<char>, from: usize, to: usize) -> (r: Option<Option<u128>>)
    requires
        from <= to <= v@.len(),
    ensures
        ({
            let s = v@.subrange(from as int, to as int);
            match r {
                None => sp_parse_uint(s) is None,
                Some(None) => sp_parse_uint(s) matches Some(n) && n > u128::MAX,
                Some(Some(m)) => sp_parse_uint(s) == Some(m as int),
            }
        }),
{
    let ghost s = v@.subrange(from as int, to as int);
    if from == to {
        return None;
    }
    let mut acc: u128 = 0;
    let mut overflow: bool = false;
    let mut i: usize = from;
    while i < to
        invariant
            from <= i <= to,
            all_digits(s.take(i - from)),
            !overflow ==> acc as int == digits_num(s.take(i - from)),
            overflow ==> digits_num(s.take(i - from)) > u128::MAX,
        decreases to - i,
    {
        let c = v[i];
        if !is_digit(c) {
            proof {
                assert(s[i - from] == v@[i as int]);
                assert(!all_digits(s));
            }
            return None;
        }
        let d: u128 = (c as u32 as u128) - 48;
        proof {
            assert(s.take(i + 1 - from).drop_last() =~= s.take(i - from));
            assert(s.take(i + 1 - from).last() == s[i - from]);
            assert(s[i - from] == v@[i as int]);
            assert(all_digits(s.take(i + 1 - from))) by {
                assert forall|k: int| 0 <= k < i + 1 - from implies spec_is_digit(
                    #[trigger] s.take(i + 1 - from)[k],
                ) by {
                    if k < i - from {
                        assert(s.take(i + 1 - from)[k] == s.take(i - from)[k]);
                    }
                }
            }
            lemma_digits_num_nonneg(s.take(i - from));
            vstd::arithmetic::div_mod::lemma_fundamental_div_mod(
                u128::MAX as int - d as int,
                10,
            );
        }
        if overflow || acc > (u128::MAX - d) / 10 {
            overflow = true;
        } else {
            acc = acc * 10 + d;
        }
        i = i + 1;
    }
    proof {
        assert(s.take(to - from) =~= s);
    }
    if overflow {
        Some(None)
    } else {
        Some(Some(acc))
    }
}

/// First position at or after `from` where the characters `lit` stand in `s`.
pub open spec fn sp_find_sub(s: Seq<char>, lit: Seq<char>, from: int) -> Option<int>
    decreases s.len() - from,
{
    if lit.len() == 0 || from < 0 || from + lit.len() > s.len() {
        None
    } else if s.subrange(from, from + lit.len()) == lit {
        Some(from)
    } else {
        sp_find_sub(s, lit, from + 1)
    }
}

pub proof fn lemma_find_sub_bounds(s: Seq<char>, lit: Seq<char>, from: int)
    requires
        0 <= from,
    ensures
        match sp_find_sub(s, lit, from) {
            Some(i) => from <= i && i + lit.len() <= s.len() && s.subrange(i, i + lit.len()) == lit
                && lit.len() > 0,
            None => true,
        },
    decreases s.len() - from,
{
    if !(lit.len() == 0 || from + lit.len() > s.len()) && s.subrange(from, from + lit.len())
        != lit {
        lemma_find_sub_bounds(s, lit, from + 1);
    }
}

/// First position in `[from, to)` of `v` where the literal stands, the
/// match lying wholly before `to`.
pub fn find_sub_to(v: &Vec<char>, lit: &Vec<char>, from: usize, to: usize) -> (r: Option<usize>)
    requires
        from <= to <= v@.len(),
    ensures
        ({
            let w = v@.subrange(from as int, to as int);
            match r {
                Some(i) => from <= i && sp_find_sub(w, lit@, 0) == Some(i - from as int),
                None => sp_find_sub(w, lit@, 0) is None,
            }
        }),
{
    let ghost w = v@.subrange(from as int, to as int);
    let m = lit.len();
    if m == 0 || to - from < m {
        proof {
            if m > 0 {
                assert(sp_find_sub(w, lit@, 0) is None);
            }
        }
        return None;
    }
    let mut i: usize = from;
    while i <= to - m
        invariant
            from <= i,
            i <= to - m + 1,
            m <= to <= v@.len(),
            m == lit@.len(),
            m >= 1,
            from + m <= to,
            w == v@.subrange(from as int, to as int),
            sp_find_sub(w, lit@, 0) == sp_find_sub(w, lit@, i - from as int),
        decreases to - i,
    {
        let mut j: usize = 0;
        let mut ok: bool = true;
        while j < m
            invariant
                0 <= j <= m,
                m == lit@.len(),
                from <= i,
                i + m <= to <= v@.len(),
                ok <==> v@.subrange(i as int, i + j) =~= lit@.subrange(0, j as int),
                ok || j == m,
            decreases m - j,
        {
            proof {
                assert(v@.subrange(i as int, i + j + 1).take(j as int) =~= v@.subrange(
                    i as int,
                    i + j,
                ));
                assert(lit@.subrange(0, j + 1).take(j as int) =~= lit@.subrange(0, j as int));
            }
            if v[i + j] != lit[j] {
                ok = false;
                proof {
                    assert(v@.subrange(i as int, i + j + 1)[j as int] == v@[i + j]);
                    assert(lit@.subrange(0, j + 1)[j as int] == lit@[j as int]);
                }
                j = m;
            } else {
                proof {
                    assert forall|k: int| 0 <= k < j + 1 implies #[trigger] v@.subrange(
                        i as int,
                        i + j + 1,
                    )[k] == lit@.subrange(0, j + 1)[k] by {
                        if k < j {
                            assert(v@.subrange(i as int, i + j)[k] == lit@.subrange(
                                0,
                                j as int,
                            )[k]);
                        }
                    }
                    assert(v@.subrange(i as int, i + j + 1) =~= lit@.subrange(0, j + 1));
                }
                j = j + 1;
            }
        }
        proof {
            assert(lit@.subrange(0, m as int) =~= lit@);
            assert(w.subrange(i - from as int, i - from + m) =~= v@.subrange(i as int, i + m));
        }
        if ok {
            return Some(i);
        }
        i = i + 1;
    }
    None
}

pub open spec fn lit_null() -> Seq<char> {
    seq!['n', 'u', 'l', 'l']
}

pub open spec fn lit_true() -> Seq<char> {
    seq!['t', 'r', 'u', 'e']
}

pub open spec fn lit_false() -> Seq<char> {
    seq!['f', 'a', 'l', 's', 'e']
}

pub open spec fn lit_or() -> Seq<char> {
    seq![' ', 'o', 'r', ' ']
}

pub open spec fn lit_and() -> Seq<char> {
    seq![' ', 'a', 'n', 'd', ' ']
}

/// The decimal number written by `s`: an optional sign, digits, and at
/// most one point; `None` when malformed or too wide for the model.
pub open spec fn sp_parse_decimal(s: Seq<char>) -> Option<Decimal> {
    let neg = s.len() > 0 && s[0] == '-';
    let rest = if s.len() > 0 && (s[0] == '+' || s[0] == '-') {
        s.drop_first()
    } else {
        s
    };
    let digits = match sp_find_char(rest, '.', 0) {
        None => rest,
        Some(k) => rest.take(k) + rest.skip(k + 1),
    };
    let frac_len: int = match sp_find_char(rest, '.', 0) {
        None => 0,
        Some(k) => rest.len() - k - 1,
    };
    if digits.len() > 0 && all_digits(digits) && digits_num(digits) <= i128::MAX && frac_len <= 28 {
        Some(
            Decimal {
                mantissa: (if neg {
                    -digits_num(digits)
                } else {
                    digits_num(digits)
                }) as i128,
                scale: frac_len as u32,
            },
        )
    } else {
        None
    }
}

/// The decimal written in `v[from..to]`.
pub fn parse_decimal_chars(v: &Vec<char>, from: usize, to: usize) -> (r: Option<Decimal>)
    requires
        from <= to <= v@.len(),
    ensures
        r == sp_parse_decimal(v@.subrange(from as int, to as int)),
{
    let ghost s = v@.subrange(from as int, to as int);
    if from == to {
        return None;
    }
    let c0 = v[from];
    let (neg, dstart) = if c0 == '-' {
        (true, from + 1)
    } else if c0 == '+' {
        (false, from + 1)
    } else {
        (false, from)
    };
    let ghost rest = v@.subrange(dstart as int, to as int);
    proof {
        if dstart > from {
            assert(s.drop_first() =~= rest);
        }
    }
    // gather the digits on both sides of the point into one run
    let dot = find_char_to_window(v, '.', dstart, to);
    let mut digits: Vec<char> = Vec::new();
    let (int_end, frac_start) = match dot {
        Some(k) => (k, k + 1),
        None => (to, to),
    };
    let mut i: usize = dstart;
    while i < int_end
        invariant
            dstart <= i <= int_end <= to <= v@.len(),
            digits@ =~= v@.subrange(dstart as int, i as int),
        decreases int_end - i,
    {
        digits.push(v[i]);
        i = i + 1;
    }
    let mut j: usize = frac_start;
    while j < to
        invariant
            dstart <= int_end <= frac_start <= j <= to <= v@.len(),
            digits@ =~= v@.subrange(dstart as int, int_end as int) + v@.subrange(
                frac_start as int,
                j as int,
            ),
        decreases to - j,
    {
        digits.push(v[j]);
        j = j + 1;
    }
    proof {
        match sp_find_char(rest, '.', 0) {
            None => {
                assert(digits@ =~= rest);
            },
            Some(k) => {
                assert(digits@ =~= rest.take(k) + rest.skip(k + 1));
            },
        }
    }
    let frac_len = to - frac_start;
    match parse_uint_chars(&digits, 0, digits.len()) {
        None => {
            proof {
                assert(digits@.subrange(0, digits@.len() as int) =~= digits@);
            }
            None
        },
        Some(None) => {
            proof {
                assert(digits@.subrange(0, digits@.len() as int) =~= digits@);
                lemma_digits_num_nonneg(digits@);
            }
            None
        },
        Some(Some(mag)) => {
            proof {
                assert(digits@.subrange(0, digits@.len() as int) =~= digits@);
            }
            if mag <= 170141183460469231731687303715884105727u128 && frac_len <= 28 {
                let mantissa: i128 = if neg {
                    -(mag as i128)
                } else {
                    mag as i128
                };
                Some(Decimal { mantissa, scale: frac_len as u32 })
            } else {
                None
            }
        },
    }
}

/// First position in `[from, to)` of `v` holding `c`, reported against
/// the window starting at `from`.
fn find_char_to_window(v: &Vec<char>, c: char, from: usize, to: usize) -> (r: Option<usize>)
    requires
        from <= to <= v@.len(),
    ensures
        ({
            let w = v@.subrange(from as int, to as int);
            match r {
                Some(i) => from <= i < to && sp_find_char(w, c, 0) == Some(i - from as int),
                None => sp_find_char(w, c, 0) is None,
            }
        }),
{
    let ghost w = v@.subrange(from as int, to as int);
    let mut i: usize = from;
    while i < to
        invariant
            from <= i <= to <= v@.len(),
            w == v@.subrange(from as int, to as int),
            sp_find_char(w, c, 0) == sp_find_char(w, c, i - from as int),
        decreases to - i,
    {
        if v[i] == c {
            return Some(i);
        }
        i = i + 1;
    }
    None
}

/// The i64 written in `v[from..to]`.
pub fn parse_i64_chars(v: &Vec<char>, from: usize, to: usize) -> (r: Option<i64>)
    requires
        from <= to <= v@.len(),
    ensures
        r == sp_parse_i64(v@.subrange(from as int, to as int)),
{
    let ghost s = v@.subrange(from as int, to as int);
    if from == to {
        return None;
    }
    let c0 = v[from];
    let (neg, dstart) = if c0 == '-' {
        (true, from + 1)
    } else if c0 == '+' {
        (false, from + 1)
    } else {
        (false, from)
    };
    proof {
        if dstart > from {
            assert(s.drop_first() =~= v@.subrange(dstart as int, to as int));
        }
    }
    match parse_uint_chars(v, dstart, to) {
        None => None,
        Some(None) => None,
        Some(Some(mag)) => {
            if neg {
                if mag <= 9223372036854775808u128 {
                    if mag == 9223372036854775808u128 {
                        Some(i64::MIN)
                    } else {
                        Some(-(mag as i64))
                    }
                } else {
                    None
                }
            } else {
                if mag <= 9223372036854775807u128 {
                    Some(mag as i64)
                } else {
                    None
                }
            }
        },
    }
}


/// The literal or variable written by a bare token: `null`, `true`,
/// `false`, a quoted string, an integer, a decimal number, or else a
/// variable path.
pub open spec fn sp_parse_val(s0: Seq<char>) -> ExprS {
    let t = sp_trim(s0);
    if t == lit_null() {
        ExprS::Literal(ValueS::Null)
    } else if t == lit_true() {
        ExprS::Literal(ValueS::Bool(true))
    } else if t == lit_false() {
        ExprS::Literal(ValueS::Bool(false))
    } else if t.len() >= 2 && ((t[0] == '\'' && t.last() == '\'') || (t[0] == '"' && t.last()
        == '"')) {
        ExprS::Literal(ValueS::Str(t.subrange(1, t.len() - 1)))
    } else {
        match sp_parse_i64(t) {
            Some(n) => ExprS::Literal(ValueS::I64(n)),
            None => match sp_parse_decimal(t) {
                Some(d) => ExprS::Literal(ValueS::Decimal(d)),
                None => ExprS::Var(t),
            },
        }
    }
}

/// The value or variable written in `v[from..to]`.
pub fn parse_val_chars(v: &Vec<char>, from: usize, to: usize) -> (r: Expr)
    requires
        from <= to <= v@.len(),
    ensures
        ew(r) == sp_parse_val(v@.subrange(from as int, to as int)),
{
    let ghost s0 = v@.subrange(from as int, to as int);
    let (a, b) = trim_bounds(v, from, to);
    let ghost t = v@.subrange(a as int, b as int);
    if b - a == 4 && v[a] == 'n' && v[a + 1] == 'u' && v[a + 2] == 'l' && v[a + 3] == 'l' {
        proof {
            assert(t =~= lit_null());
        }
        return Expr::Literal(Value::Null);
    }
    if b - a == 4 && v[a] == 't' && v[a + 1] == 'r' && v[a + 2] == 'u' && v[a + 3] == 'e' {
        proof {
            assert(t =~= lit_true());
        }
        return Expr::Literal(Value::Bool(true));
    }
    if b - a == 5 && v[a] == 'f' && v[a + 1] == 'a' && v[a + 2] == 'l' && v[a + 3] == 's' && v[a
        + 4] == 'e' {
        proof {
            assert(t =~= lit_false());
        }
        return Expr::Literal(Value::Bool(false));
    }
    proof {
        if t.len() == 4 {
            if t == lit_null() {
                assert(v@[a as int] == t[0]);
                assert(v@[a + 1] == t[1]);
                assert(v@[a + 2] == t[2]);
                assert(v@[a + 3] == t[3]);
            }
            if t == lit_true() {
                assert(v@[a as int] == t[0]);
                assert(v@[a + 1] == t[1]);
                assert(v@[a + 2] == t[2]);
                assert(v@[a + 3] == t[3]);
            }
        }
        if t.len() == 5 && t == lit_false() {
            assert(v@[a as int] == t[0]);
            assert(v@[a + 1] == t[1]);
            assert(v@[a + 2] == t[2]);
            assert(v@[a + 3] == t[3]);
            assert(v@[a + 4] == t[4]);
        }
    }
    if b - a >= 2 && ((v[a] == '\'' && v[b - 1] == '\'') || (v[a] == '"' && v[b - 1] == '"')) {
        proof {
            assert(t[0] == v@[a as int]);
            assert(t.last() == v@[b - 1]);
            assert(t.subrange(1, t.len() - 1) =~= v@.subrange(a + 1, b - 1));
        }
        return Expr::Literal(Value::Str(string_range(v, a + 1, b - 1)));
    }
    proof {
        if t.len() >= 2 {
            assert(t[0] == v@[a as int]);
            assert(t.last() == v@[b - 1]);
        }
    }
    match parse_i64_chars(v, a, b) {
        Some(n) => Expr::Literal(Value::I64(n)),
        None => match parse_decimal_chars(v, a, b) {
            Some(d) => Expr::Literal(Value::Decimal(d)),
            None => Expr::Var(string_range(v, a, b)),
        },
    }
}

/// The comparison written by an atom: the first comparison operator
/// found, tried in the order `!=`, `==`, `>=`, `<=`, `>`, `<`, splits the
/// atom in two; with none, the atom is a bare value.
pub open spec fn sp_parse_atom(s0: Seq<char>) -> ExprS {
    let t = sp_trim(s0);
    match sp_find_sub(t, seq!['!', '='], 0) {
        Some(i) => ExprS::Binary(
            Op::Ne,
            Box::new(sp_parse_val(t.take(i))),
            Box::new(sp_parse_val(t.skip(i + 2))),
        ),
        None => match sp_find_sub(t, seq!['=', '='], 0) {
            Some(i) => ExprS::Binary(
                Op::Eq,
                Box::new(sp_parse_val(t.take(i))),
                Box::new(sp_parse_val(t.skip(i + 2))),
            ),
            None => match sp_find_sub(t, seq!['>', '='], 0) {
                Some(i) => ExprS::Binary(
                    Op::Ge,
                    Box::new(sp_parse_val(t.take(i))),
                    Box::new(sp_parse_val(t.skip(i + 2))),
                ),
                None => match sp_find_sub(t, seq!['<', '='], 0) {
                    Some(i) => ExprS::Binary(
                        Op::Le,
                        Box::new(sp_parse_val(t.take(i))),
                        Box::new(sp_parse_val(t.skip(i + 2))),
                    ),
                    None => match sp_find_sub(t, seq!['>'], 0) {
                        Some(i) => ExprS::Binary(
                            Op::Gt,
                            Box::new(sp_parse_val(t.take(i))),
                            Box::new(sp_parse_val(t.skip(i + 1))),
                        ),
                        None => match sp_find_sub(t, seq!['<'], 0) {
                            Some(i) => ExprS::Binary(
                                Op::Lt,
                                Box::new(sp_parse_val(t.take(i))),
                                Box::new(sp_parse_val(t.skip(i + 1))),
                            ),
                            None => sp_parse_val(t),
                        },
                    },
                },
            },
        },
    }
}

/// One atom of a test expression, read from `v[from..to]`.
#[verifier::rlimit(100)]
#[verifier::spinoff_prover]
pub fn parse_atom_chars(v: &Vec<char>, from: usize, to: usize) -> (r: Expr)
    requires
        from <= to <= v@.len(),
    ensures
        ew(r) == sp_parse_atom(v@.subrange(from as int, to as int)),
{
    let ghost s0 = v@.subrange(from as int, to as int);
    let (a, b) = trim_bounds(v, from, to);
    let ghost t = v@.subrange(a as int, b as int);
    let lit_ne = vec!['!', '='];
    let lit_eq = vec!['=', '='];
    let lit_ge = vec!['>', '='];
    let lit_le = vec!['<', '='];
    let lit_gt = vec!['>'];
    let lit_lt = vec!['<'];
    proof {
        assert(lit_ne@ =~= seq!['!', '=']);
        assert(lit_eq@ =~= seq!['=', '=']);
        assert(lit_ge@ =~= seq!['>', '=']);
        assert(lit_le@ =~= seq!['<', '=']);
        assert(lit_gt@ =~= seq!['>']);
        assert(lit_lt@ =~= seq!['<']);
    }
    let (op, sym_len, pos) = match find_sub_to(v, &lit_ne, a, b) {
        Some(i) => (Some(Op::Ne), 2usize, i),
        None => match find_sub_to(v, &lit_eq, a, b) {
            Some(i) => (Some(Op::Eq), 2usize, i),
            None => match find_sub_to(v, &lit_ge, a, b) {
                Some(i) => (Some(Op::Ge), 2usize, i),
                None => match find_sub_to(v, &lit_le, a, b) {
                    Some(i) => (Some(Op::Le), 2usize, i),
                    None => match find_sub_to(v, &lit_gt, a, b) {
                        Some(i) => (Some(Op::Gt), 1usize, i),
                        None => match find_sub_to(v, &lit_lt, a, b) {
                            Some(i) => (Some(Op::Lt), 1usize, i),
                            None => (None, 0usize, 0usize),
                        },
                    },
                },
            },
        },
    };
    match op {
        Some(o) => {
            proof {
                lemma_find_sub_bounds(t, seq!['!', '='], 0);
                lemma_find_sub_bounds(t, seq!['=', '='], 0);
                lemma_find_sub_bounds(t, seq!['>', '='], 0);
                lemma_find_sub_bounds(t, seq!['<', '='], 0);
                lemma_find_sub_bounds(t, seq!['>'], 0);
                lemma_find_sub_bounds(t, seq!['<'], 0);
                assert(t.take(pos - a) =~= v@.subrange(a as int, pos as int));
                assert(t.skip(pos - a + sym_len) =~= v@.subrange(pos + sym_len, b as int));
            }
            let left = parse_val_chars(v, a, pos);
            let right = parse_val_chars(v, pos + sym_len, b);
            Expr::Binary(o, Box::new(left), Box::new(right))
        },
        None => parse_val_chars(v, a, b),
    }
}

/// The conjunction chain written by one `or`-part: atoms joined by the
/// exact text ` and `, associated to the left.
pub open spec fn sp_and_rest(acc: ExprS, s: Seq<char>) -> ExprS
    decreases s.len(),
    via sp_and_rest_dec
{
    match sp_find_sub(s, lit_and(), 0) {
        None => ExprS::Binary(Op::And, Box::new(acc), Box::new(sp_parse_atom(s))),
        Some(i) => sp_and_rest(
            ExprS::Binary(Op::And, Box::new(acc), Box::new(sp_parse_atom(s.take(i)))),
            s.skip(i + 5),
        ),
    }
}

#[via_fn]
proof fn sp_and_rest_dec(acc: ExprS, s: Seq<char>) {
    lemma_find_sub_bounds(s, lit_and(), 0);
}

/// The expression written by one `and`-chain.
pub open spec fn sp_parse_and(s: Seq<char>) -> ExprS {
    match sp_find_sub(s, lit_and(), 0) {
        None => sp_parse_atom(s),
        Some(i) => sp_and_rest(sp_parse_atom(s.take(i)), s.skip(i + 5)),
    }
}

/// The disjunction chain: `and`-chains joined by the exact text ` or `,
/// associated to the left.
pub open spec fn sp_or_rest(acc: ExprS, s: Seq<char>) -> ExprS
    decreases s.len(),
    via sp_or_rest_dec
{
    match sp_find_sub(s, lit_or(), 0) {
        None => ExprS::Binary(Op::Or, Box::new(acc), Box::new(sp_parse_and(s))),
        Some(i) => sp_or_rest(
            ExprS::Binary(Op::Or, Box::new(acc), Box::new(sp_parse_and(s.take(i)))),
            s.skip(i + 4),
        ),
    }
}

#[via_fn]
proof fn sp_or_rest_dec(acc: ExprS, s: Seq<char>) {
    lemma_find_sub_bounds(s, lit_or(), 0);
}

/// The whole test expression of an `if` tag: `or` binds loosest, then
/// `and`, then the comparisons; the splits are on the exact texts
/// ` or ` and ` and `, so those words inside string literals split too.
pub open spec fn sp_parse_expr(s: Seq<char>) -> ExprS {
    match sp_find_sub(s, lit_or(), 0) {
        None => sp_parse_and(s),
        Some(i) => sp_or_rest(sp_parse_and(s.take(i)), s.skip(i + 4)),
    }
}

fn parse_and_rest(v: &Vec<char>, acc: Expr, from: usize, to: usize) -> (r: Expr)
    requires
        from <= to <= v@.len(),
    ensures
        ew(r) == sp_and_rest(ew(acc), v@.subrange(from as int, to as int)),
    decreases to - from,
{
    let ghost s = v@.subrange(from as int, to as int);
    let lit = vec![' ', 'a', 'n', 'd', ' '];
    proof {
        assert(lit@ =~= lit_and());
    }
    match find_sub_to(v, &lit, from, to) {
        None => {
            let atom = parse_atom_chars(v, from, to);
            Expr::Binary(Op::And, Box::new(acc), Box::new(atom))
        },
        Some(i) => {
            proof {
                lemma_find_sub_bounds(s, lit_and(), 0);
                assert(s.take(i - from) =~= v@.subrange(from as int, i as int));
                assert(s.skip(i - from + 5) =~= v@.subrange(i + 5, to as int));
            }
            let atom = parse_atom_chars(v, from, i);
            parse_and_rest(v, Expr::Binary(Op::And, Box::new(acc), Box::new(atom)), i + 5, to)
        },
    }
}

fn parse_and_chars(v: &Vec<char>, from: usize, to: usize) -> (r: Expr)
    requires
        from <= to <= v@.len(),
    ensures
        ew(r) == sp_parse_and(v@.subrange(from as int, to as int)),
{
    let ghost s = v@.subrange(from as int, to as int);
    let lit = vec![' ', 'a', 'n', 'd', ' '];
    proof {
        assert(lit@ =~= lit_and());
    }
    match find_sub_to(v, &lit, from, to) {
        None => parse_atom_chars(v, from, to),
        Some(i) => {
            proof {
                lemma_find_sub_bounds(s, lit_and(), 0);
                assert(s.take(i - from) =~= v@.subrange(from as int, i as int));
                assert(s.skip(i - from + 5) =~= v@.subrange(i + 5, to as int));
            }
            let atom = parse_atom_chars(v, from, i);
            parse_and_rest(v, atom, i + 5, to)
        },
    }
}

fn parse_or_rest(v: &Vec<char>, acc: Expr, from: usize, to: usize) -> (r: Expr)
    requires
        from <= to <= v@.len(),
    ensures
        ew(r) == sp_or_rest(ew(acc), v@.subrange(from as int, to as int)),
    decreases to - from,
{
    let ghost s = v@.subrange(from as int, to as int);
    let lit = vec![' ', 'o', 'r', ' '];
    proof {
        assert(lit@ =~= lit_or());
    }
    match find_sub_to(v, &lit, from, to) {
        None => {
            let part = parse_and_chars(v, from, to);
            Expr::Binary(Op::Or, Box::new(acc), Box::new(part))
        },
        Some(i) => {
            proof {
                lemma_find_sub_bounds(s, lit_or(), 0);
                assert(s.take(i - from) =~= v@.subrange(from as int, i as int));
                assert(s.skip(i - from + 4) =~= v@.subrange(i + 4, to as int));
            }
            let part = parse_and_chars(v, from, i);
            parse_or_rest(v, Expr::Binary(Op::Or, Box::new(acc), Box::new(part)), i + 4, to)
        },
    }
}

/// The test expression written in `v[from..to]`.
pub fn parse_expr_chars(v: &Vec<char>, from: usize, to: usize) -> (r: Expr)
    requires
        from <= to <= v@.len(),
    ensures
        ew(r) == sp_parse_expr(v@.subrange(from as int, to as int)),
{
    let ghost s = v@.subrange(from as int, to as int);
    let lit = vec![' ', 'o', 'r', ' '];
    proof {
        assert(lit@ =~= lit_or());
    }
    match find_sub_to(v, &lit, from, to) {
        None => parse_and_chars(v, from, to),
        Some(i) => {
            proof {
                lemma_find_sub_bounds(s, lit_or(), 0);
                assert(s.take(i - from) =~= v@.subrange(from as int, i as int));
                assert(s.skip(i - from + 4) =~= v@.subrange(i + 4, to as int));
            }
            let part = parse_and_chars(v, from, i);
            parse_or_rest(v, part, i + 4, to)
        },
    }
}

} // verus!
