use vstd::prelude::*;

use crate::error::DbError;
use crate::value::{vw, vw_entries, vw_list, Value, ValueS};

verus! {

broadcast use vstd::std_specs::vec::group_vec_axioms, vstd::seq::group_seq_axioms;

/// Any type that converts into a `Value`; the conversion is total.
pub trait ToValue {
    /// The model of the value this datum converts into.
    spec fn to_value_spec(&self) -> ValueS;

    fn to_value(&self) -> (v: Value)
        ensures
            vw(v) == self.to_value_spec(),
    ;
}

/// Any type that can be read back out of a `Value`; the conversion is
/// partial and fails with a type-mismatch error on an incompatible tag.
pub trait FromValue: Sized {
    /// The mathematical model of the converted result.
    type M;

    spec fn model(&self) -> Self::M;

    /// What the conversion yields for a given value model: the result's
    /// model on success, `None` where the conversion is refused.
    spec fn from_value_spec(v: ValueS) -> Option<Self::M>;

    fn from_value(v: Value) -> (r: Result<Self, DbError>)
        ensures
            match r {
                Ok(x) => Self::from_value_spec(vw(v)) == Some(x.model()),
                Err(e) => Self::from_value_spec(vw(v)) is None && e is TypeMismatch,
            },
    ;
}

/// The mathematical integer held by an integer-tagged value, if any.
pub open spec fn int_of(v: ValueS) -> Option<int> {
    match v {
        ValueS::I8(n) => Some(n as int),
        ValueS::I16(n) => Some(n as int),
        ValueS::I32(n) => Some(n as int),
        ValueS::I64(n) => Some(n as int),
        ValueS::I128(n) => Some(n as int),
        ValueS::U8(n) => Some(n as int),
        ValueS::U16(n) => Some(n as int),
        ValueS::U32(n) => Some(n as int),
        ValueS::U64(n) => Some(n as int),
        ValueS::U128(n) => Some(n as int),
        _ => None,
    }
}

/// The integer of `v` when it lies within `[lo, hi]`.
pub open spec fn int_in_range(v: ValueS, lo: int, hi: int) -> Option<int> {
    match int_of(v) {
        Some(n) => if lo <= n <= hi {
            Some(n)
        } else {
            None
        },
        None => None,
    }
}

fn mismatch() -> (e: DbError)
    ensures
        e is TypeMismatch,
{
    DbError::TypeMismatch("incompatible value tag or out-of-range number".to_owned())
}

/// Reads any integer-tagged value as a sign and a magnitude.
fn int_parts(v: &Value) -> (r: Option<(bool, u128)>)
    ensures
        match r {
            Some((neg, mag)) => int_of(vw(*v)) == Some(
                if neg {
                    -(mag as int)
                } else {
                    mag as int
                },
            ),
            None => int_of(vw(*v)) is None,
        },
{
    match v {
        Value::I8(n) => if *n < 0 {
            Some((true, (-(*n as i128)) as u128))
        } else {
            Some((false, *n as u128))
        },
        Value::I16(n) => if *n < 0 {
            Some((true, (-(*n as i128)) as u128))
        } else {
            Some((false, *n as u128))
        },
        Value::I32(n) => if *n < 0 {
            Some((true, (-(*n as i128)) as u128))
        } else {
            Some((false, *n as u128))
        },
        Value::I64(n) => if *n < 0 {
            Some((true, (-(*n as i128)) as u128))
        } else {
            Some((false, *n as u128))
        },
        Value::I128(n) => if *n < 0 {
            if *n == i128::MIN {
                Some((true, 170141183460469231731687303715884105728u128))
            } else {
                Some((true, (-*n) as u128))
            }
        } else {
            Some((false, *n as u128))
        },
        Value::U8(n) => Some((false, *n as u128)),
        Value::U16(n) => Some((false, *n as u128)),
        Value::U32(n) => Some((false, *n as u128)),
        Value::U64(n) => Some((false, *n as u128)),
        Value::U128(n) => Some((false, *n)),
        _ => None,
    }
}

impl ToValue for i8 {
    open spec fn to_value_spec(&self) -> ValueS {
        ValueS::I8(*self)
    }

    fn to_value(&self) -> (v: Value) {
        Value::I8(*self)
    }
}

impl ToValue for i16 {
    open spec fn to_value_spec(&self) -> ValueS {
        ValueS::I16(*self)
    }

    fn to_value(&self) -> (v: Value) {
        Value::I16(*self)
    }
}

impl ToValue for i32 {
    open spec fn to_value_spec(&self) -> ValueS {
        ValueS::I32(*self)
    }

    fn to_value(&self) -> (v: Value) {
        Value::I32(*self)
    }
}

impl ToValue for i64 {
    open spec fn to_value_spec(&self) -> ValueS {
        ValueS::I64(*self)
    }

    fn to_value(&self) -> (v: Value) {
        Value::I64(*self)
    }
}

impl ToValue for i128 {
    open spec fn to_value_spec(&self) -> ValueS {
        ValueS::I128(*self)
    }

    fn to_value(&self) -> (v: Value) {
        Value::I128(*self)
    }
}

impl ToValue for u8 {
    open spec fn to_value_spec(&self) -> ValueS {
        ValueS::U8(*self)
    }

    fn to_value(&self) -> (v: Value) {
        Value::U8(*self)
    }
}

impl ToValue for u16 {
    open spec fn to_value_spec(&self) -> ValueS {
        ValueS::U16(*self)
    }

    fn to_value(&self) -> (v: Value) {
        Value::U16(*self)
    }
}

impl ToValue for u32 {
    open spec fn to_value_spec(&self) -> ValueS {
        ValueS::U32(*self)
    }

    fn to_value(&self) -> (v: Value) {
        Value::U32(*self)
    }
}

impl ToValue for u64 {
    open spec fn to_value_spec(&self) -> ValueS {
        ValueS::U64(*self)
    }

    fn to_value(&self) -> (v: Value) {
        Value::U64(*self)
    }
}

impl ToValue for u128 {
    open spec fn to_value_spec(&self) -> ValueS {
        ValueS::U128(*self)
    }

    fn to_value(&self) -> (v: Value) {
        Value::U128(*self)
    }
}

impl ToValue for bool {
    open spec fn to_value_spec(&self) -> ValueS {
        ValueS::Bool(*self)
    }

    fn to_value(&self) -> (v: Value) {
        Value::Bool(*self)
    }
}

fn char_to_value(c: char) -> (v: Value)
    ensures
        vw(v) == ValueS::Char(c),
{
    Value::Char(c)
}

impl ToValue for char {
    open spec fn to_value_spec(&self) -> ValueS {
        ValueS::Char(*self)
    }

    fn to_value(&self) -> (v: Value) {
        char_to_value(*self)
    }
}

impl ToValue for String {
    open spec fn to_value_spec(&self) -> ValueS {
        ValueS::Str(self@)
    }

    fn to_value(&self) -> (v: Value) {
        Value::Str(self.clone())
    }
}

impl ToValue for str {
    open spec fn to_value_spec(&self) -> ValueS {
        ValueS::Str(self@)
    }

    fn to_value(&self) -> (v: Value) {
        Value::Str(self.to_owned())
    }
}

impl ToValue for Value {
    open spec fn to_value_spec(&self) -> ValueS {
        vw(*self)
    }

    fn to_value(&self) -> (v: Value) {
        self.clone()
    }
}

impl ToValue for () {
    open spec fn to_value_spec(&self) -> ValueS {
        ValueS::Null
    }

    fn to_value(&self) -> (v: Value) {
        Value::Null
    }
}

impl<T: ToValue> ToValue for Option<T> {
    open spec fn to_value_spec(&self) -> ValueS {
        match self {
            Some(x) => x.to_value_spec(),
            None => ValueS::Null,
        }
    }

    fn to_value(&self) -> (v: Value) {
        match self {
            Some(x) => x.to_value(),
            None => Value::Null,
        }
    }
}

impl<T: ToValue> ToValue for Vec<T> {
    open spec fn to_value_spec(&self) -> ValueS {
        ValueS::List(Seq::new(self@.len(), |i: int| self@[i].to_value_spec()))
    }

    fn to_value(&self) -> (v: Value) {
        let mut out: Vec<Value> = Vec::new();
        let n = self.len();
        let mut i: usize = 0;
        while i < n
            invariant
                n == self@.len(),
                0 <= i <= n,
                out@.len() == i,
                forall|j: int| 0 <= j < i ==> vw(#[trigger] out@[j]) == self@[j].to_value_spec(),
            decreases n - i,
        {
            out.push(self[i].to_value());
            i = i + 1;
        }
        proof {
            broadcast use crate::value::lemma_vw_list_len, crate::value::lemma_vw_list_index;

            assert(vw_list(out@) =~= Seq::new(self@.len(), |i: int| self@[i].to_value_spec()));
        }
        Value::List(out)
    }
}

impl FromValue for i8 {
    type M = i8;

    open spec fn model(&self) -> i8 {
        *self
    }

    open spec fn from_value_spec(v: ValueS) -> Option<i8> {
        match int_in_range(v, i8::MIN as int, i8::MAX as int) {
            Some(n) => Some(n as i8),
            None => None,
        }
    }

    fn from_value(v: Value) -> (r: Result<i8, DbError>) {
        match int_parts(&v) {
            Some((neg, mag)) => if neg {
                if mag <= 128 {
                    Ok((-(mag as i128)) as i8)
                } else {
                    Err(mismatch())
                }
            } else {
                if mag <= 127 {
                    Ok(mag as i8)
                } else {
                    Err(mismatch())
                }
            },
            None => Err(mismatch()),
        }
    }
}

impl FromValue for i16 {
    type M = i16;

    open spec fn model(&self) -> i16 {
        *self
    }

    open spec fn from_value_spec(v: ValueS) -> Option<i16> {
        match int_in_range(v, i16::MIN as int, i16::MAX as int) {
            Some(n) => Some(n as i16),
            None => None,
        }
    }

    fn from_value(v: Value) -> (r: Result<i16, DbError>) {
        match int_parts(&v) {
            Some((neg, mag)) => if neg {
                if mag <= 32768 {
                    Ok((-(mag as i128)) as i16)
                } else {
                    Err(mismatch())
                }
            } else {
                if mag <= 32767 {
                    Ok(mag as i16)
                } else {
                    Err(mismatch())
                }
            },
            None => Err(mismatch()),
        }
    }
}

impl FromValue for i32 {
    type M = i32;

    open spec fn model(&self) -> i32 {
        *self
    }

    open spec fn from_value_spec(v: ValueS) -> Option<i32> {
        match int_in_range(v, i32::MIN as int, i32::MAX as int) {
            Some(n) => Some(n as i32),
            None => None,
        }
    }

    fn from_value(v: Value) -> (r: Result<i32, DbError>) {
        match int_parts(&v) {
            Some((neg, mag)) => if neg {
                if mag <= 2147483648 {
                    Ok((-(mag as i128)) as i32)
                } else {
                    Err(mismatch())
                }
            } else {
                if mag <= 2147483647 {
                    Ok(mag as i32)
                } else {
                    Err(mismatch())
                }
            },
            None => Err(mismatch()),
        }
    }
}

impl FromValue for i64 {
    type M = i64;

    open spec fn model(&self) -> i64 {
        *self
    }

    open spec fn from_value_spec(v: ValueS) -> Option<i64> {
        match int_in_range(v, i64::MIN as int, i64::MAX as int) {
            Some(n) => Some(n as i64),
            None => None,
        }
    }

    fn from_value(v: Value) -> (r: Result<i64, DbError>) {
        match int_parts(&v) {
            Some((neg, mag)) => if neg {
                if mag <= 9223372036854775808 {
                    Ok((-(mag as i128)) as i64)
                } else {
                    Err(mismatch())
                }
            } else {
                if mag <= 9223372036854775807 {
                    Ok(mag as i64)
                } else {
                    Err(mismatch())
                }
            },
            None => Err(mismatch()),
        }
    }
}

impl FromValue for i128 {
    type M = i128;

    open spec fn model(&self) -> i128 {
        *self
    }

    open spec fn from_value_spec(v: ValueS) -> Option<i128> {
        match int_in_range(v, i128::MIN as int, i128::MAX as int) {
            Some(n) => Some(n as i128),
            None => None,
        }
    }

    fn from_value(v: Value) -> (r: Result<i128, DbError>) {
        match int_parts(&v) {
            Some((neg, mag)) => if neg {
                if mag <= 170141183460469231731687303715884105728u128 {
                    if mag == 170141183460469231731687303715884105728u128 {
                        Ok(i128::MIN)
                    } else {
                        Ok(-(mag as i128))
                    }
                } else {
                    Err(mismatch())
                }
            } else {
                if mag <= 170141183460469231731687303715884105727u128 {
                    Ok(mag as i128)
                } else {
                    Err(mismatch())
                }
            },
            None => Err(mismatch()),
        }
    }
}

impl FromValue for u8 {
    type M = u8;

    open spec fn model(&self) -> u8 {
        *self
    }

    open spec fn from_value_spec(v: ValueS) -> Option<u8> {
        match int_in_range(v, 0, u8::MAX as int) {
            Some(n) => Some(n as u8),
            None => None,
        }
    }

    fn from_value(v: Value) -> (r: Result<u8, DbError>) {
        match int_parts(&v) {
            Some((neg, mag)) => if neg && mag > 0 {
                Err(mismatch())
            } else if mag <= 255 {
                Ok(mag as u8)
            } else {
                Err(mismatch())
            },
            None => Err(mismatch()),
        }
    }
}

impl FromValue for u16 {
    type M = u16;

    open spec fn model(&self) -> u16 {
        *self
    }

    open spec fn from_value_spec(v: ValueS) -> Option<u16> {
        match int_in_range(v, 0, u16::MAX as int) {
            Some(n) => Some(n as u16),
            None => None,
        }
    }

    fn from_value(v: Value) -> (r: Result<u16, DbError>) {
        match int_parts(&v) {
            Some((neg, mag)) => if neg && mag > 0 {
                Err(mismatch())
            } else if mag <= 65535 {
                Ok(mag as u16)
            } else {
                Err(mismatch())
            },
            None => Err(mismatch()),
        }
    }
}

impl FromValue for u32 {
    type M = u32;

    open spec fn model(&self) -> u32 {
        *self
    }

    open spec fn from_value_spec(v: ValueS) -> Option<u32> {
        match int_in_range(v, 0, u32::MAX as int) {
            Some(n) => Some(n as u32),
            None => None,
        }
    }

    fn from_value(v: Value) -> (r: Result<u32, DbError>) {
        match int_parts(&v) {
            Some((neg, mag)) => if neg && mag > 0 {
                Err(mismatch())
            } else if mag <= 4294967295 {
                Ok(mag as u32)
            } else {
                Err(mismatch())
            },
            None => Err(mismatch()),
        }
    }
}

impl FromValue for u64 {
    type M = u64;

    open spec fn model(&self) -> u64 {
        *self
    }

    open spec fn from_value_spec(v: ValueS) -> Option<u64> {
        match int_in_range(v, 0, u64::MAX as int) {
            Some(n) => Some(n as u64),
            None => None,
        }
    }

    fn from_value(v: Value) -> (r: Result<u64, DbError>) {
        match int_parts(&v) {
            Some((neg, mag)) => if neg && mag > 0 {
                Err(mismatch())
            } else if mag <= 18446744073709551615 {
                Ok(mag as u64)
            } else {
                Err(mismatch())
            },
            None => Err(mismatch()),
        }
    }
}

impl FromValue for u128 {
    type M = u128;

    open spec fn model(&self) -> u128 {
        *self
    }

    open spec fn from_value_spec(v: ValueS) -> Option<u128> {
        match int_in_range(v, 0, u128::MAX as int) {
            Some(n) => Some(n as u128),
            None => None,
        }
    }

    fn from_value(v: Value) -> (r: Result<u128, DbError>) {
        match int_parts(&v) {
            Some((neg, mag)) => if neg && mag > 0 {
                Err(mismatch())
            } else {
                Ok(mag)
            },
            None => Err(mismatch()),
        }
    }
}

/// Case-insensitive match against ASCII `true`.
pub open spec fn spec_is_true_str(s: Seq<char>) -> bool {
    s.len() == 4 && (s[0] == 't' || s[0] == 'T') && (s[1] == 'r' || s[1] == 'R') && (s[2] == 'u'
        || s[2] == 'U') && (s[3] == 'e' || s[3] == 'E')
}

/// Case-insensitive match against ASCII `false`.
pub open spec fn spec_is_false_str(s: Seq<char>) -> bool {
    s.len() == 5 && (s[0] == 'f' || s[0] == 'F') && (s[1] == 'a' || s[1] == 'A') && (s[2] == 'l'
        || s[2] == 'L') && (s[3] == 's' || s[3] == 'S') && (s[4] == 'e' || s[4] == 'E')
}

impl FromValue for bool {
    type M = bool;

    open spec fn model(&self) -> bool {
        *self
    }

    open spec fn from_value_spec(v: ValueS) -> Option<bool> {
        match v {
            ValueS::Bool(b) => Some(b),
            ValueS::I32(n) => if n == 0 || n == 1 {
                Some(n == 1)
            } else {
                None
            },
            ValueS::I64(n) => if n == 0 || n == 1 {
                Some(n == 1)
            } else {
                None
            },
            ValueS::Str(s) => if spec_is_true_str(s) {
                Some(true)
            } else if spec_is_false_str(s) {
                Some(false)
            } else {
                None
            },
            _ => None,
        }
    }

    fn from_value(v: Value) -> (r: Result<bool, DbError>) {
        match &v {
            Value::Bool(b) => Ok(*b),
            Value::I32(n) => if *n == 0 || *n == 1 {
                Ok(*n == 1)
            } else {
                Err(mismatch())
            },
            Value::I64(n) => if *n == 0 || *n == 1 {
                Ok(*n == 1)
            } else {
                Err(mismatch())
            },
            Value::Str(s) => {
                let cs = crate::textutil::chars_of(s.as_str());
                if cs.len() == 4 && (cs[0] == 't' || cs[0] == 'T') && (cs[1] == 'r' || cs[1] == 'R')
                    && (cs[2] == 'u' || cs[2] == 'U') && (cs[3] == 'e' || cs[3] == 'E') {
                    Ok(true)
                } else if cs.len() == 5 && (cs[0] == 'f' || cs[0] == 'F') && (cs[1] == 'a' || cs[1]
                    == 'A') && (cs[2] == 'l' || cs[2] == 'L') && (cs[3] == 's' || cs[3] == 'S') && (
                cs[4] == 'e' || cs[4] == 'E') {
                    Ok(false)
                } else {
                    Err(mismatch())
                }
            },
            _ => Err(mismatch()),
        }
    }
}

impl FromValue for char {
    type M = char;

    open spec fn model(&self) -> char {
        *self
    }

    open spec fn from_value_spec(v: ValueS) -> Option<char> {
        match v {
            ValueS::Char(c) => Some(c),
            _ => None,
        }
    }

    fn from_value(v: Value) -> (r: Result<char, DbError>) {
        match v {
            Value::Char(c) => Ok(c),
            _ => Err(mismatch()),
        }
    }
}

impl FromValue for String {
    type M = Seq<char>;

    open spec fn model(&self) -> Seq<char> {
        self@
    }

    open spec fn from_value_spec(v: ValueS) -> Option<Seq<char>> {
        match v {
            ValueS::Str(s) => Some(s),
            ValueS::Bytes(b) => if vstd::utf8::valid_utf8(b) {
                Some(vstd::utf8::decode_utf8(b))
            } else {
                None
            },
            _ => None,
        }
    }

    fn from_value(v: Value) -> (r: Result<String, DbError>) {
        match v {
            Value::Str(s) => Ok(s),
            Value::Bytes(b) => match string_from_utf8(b) {
                Ok(s) => Ok(s),
                Err(_) => Err(mismatch()),
            },
            _ => Err(mismatch()),
        }
    }
}

/// Relies on std's String::from_utf8: decodes the bytes as UTF-8, and fails
/// exactly when they are not valid UTF-8.
#[verifier::external_body]
fn string_from_utf8(b: Vec<u8>) -> (r: Result<String, ()>)
    ensures
        match r {
            Ok(s) => vstd::utf8::valid_utf8(b@) && s@ == vstd::utf8::decode_utf8(b@),
            Err(_) => !vstd::utf8::valid_utf8(b@),
        },
{
    String::from_utf8(b).map_err(|_| ())
}

impl FromValue for Value {
    type M = ValueS;

    open spec fn model(&self) -> ValueS {
        vw(*self)
    }

    open spec fn from_value_spec(v: ValueS) -> Option<ValueS> {
        Some(v)
    }

    fn from_value(v: Value) -> (r: Result<Value, DbError>) {
        Ok(v)
    }
}

impl FromValue for () {
    type M = ();

    open spec fn model(&self) -> () {
        ()
    }

    open spec fn from_value_spec(v: ValueS) -> Option<()> {
        Some(())
    }

    fn from_value(v: Value) -> (r: Result<(), DbError>) {
        Ok(())
    }
}

impl<T: FromValue> FromValue for Option<T> {
    type M = Option<T::M>;

    open spec fn model(&self) -> Option<T::M> {
        match self {
            Some(x) => Some(x.model()),
            None => None,
        }
    }

    open spec fn from_value_spec(v: ValueS) -> Option<Option<T::M>> {
        if v is Null {
            Some(None)
        } else {
            match T::from_value_spec(v) {
                Some(m) => Some(Some(m)),
                None => None,
            }
        }
    }

    fn from_value(v: Value) -> (r: Result<Option<T>, DbError>) {
        match v {
            Value::Null => Ok(None),
            _ => match T::from_value(v) {
                Ok(x) => Ok(Some(x)),
                Err(e) => Err(e),
            },
        }
    }
}

/// Round trip: for every primitive type of the value model, reading a
/// converted value back yields the original, for every representable input.
pub proof fn lemma_roundtrip_i8(x: i8)
    ensures
        <i8 as FromValue>::from_value_spec(x.to_value_spec()) == Some(x),
{
}

/// Round trip for i16.
pub proof fn lemma_roundtrip_i16(x: i16)
    ensures
        <i16 as FromValue>::from_value_spec(x.to_value_spec()) == Some(x),
{
}

/// Round trip for i32.
pub proof fn lemma_roundtrip_i32(x: i32)
    ensures
        <i32 as FromValue>::from_value_spec(x.to_value_spec()) == Some(x),
{
}

/// Round trip for i64.
pub proof fn lemma_roundtrip_i64(x: i64)
    ensures
        <i64 as FromValue>::from_value_spec(x.to_value_spec()) == Some(x),
{
}

/// Round trip for i128.
pub proof fn lemma_roundtrip_i128(x: i128)
    ensures
        <i128 as FromValue>::from_value_spec(x.to_value_spec()) == Some(x),
{
}

/// Round trip for u8.
pub proof fn lemma_roundtrip_u8(x: u8)
    ensures
        <u8 as FromValue>::from_value_spec(x.to_value_spec()) == Some(x),
{
}

/// Round trip for u16.
pub proof fn lemma_roundtrip_u16(x: u16)
    ensures
        <u16 as FromValue>::from_value_spec(x.to_value_spec()) == Some(x),
{
}

/// Round trip for u32.
pub proof fn lemma_roundtrip_u32(x: u32)
    ensures
        <u32 as FromValue>::from_value_spec(x.to_value_spec()) == Some(x),
{
}

/// Round trip for u64.
pub proof fn lemma_roundtrip_u64(x: u64)
    ensures
        <u64 as FromValue>::from_value_spec(x.to_value_spec()) == Some(x),
{
}

/// Round trip for u128.
pub proof fn lemma_roundtrip_u128(x: u128)
    ensures
        <u128 as FromValue>::from_value_spec(x.to_value_spec()) == Some(x),
{
}

/// Round trip for bool.
pub proof fn lemma_roundtrip_bool(x: bool)
    ensures
        <bool as FromValue>::from_value_spec(x.to_value_spec()) == Some(x),
{
}

/// Round trip for char.
pub proof fn lemma_roundtrip_char(x: char)
    ensures
        <char as FromValue>::from_value_spec(x.to_value_spec()) == Some(x),
{
}

/// Round trip for strings: the characters come back unchanged.
pub proof fn lemma_roundtrip_string(x: String)
    ensures
        <String as FromValue>::from_value_spec(x.to_value_spec()) == Some(x@),
{
}

/// Round trip for a whole value.
pub proof fn lemma_roundtrip_value(x: Value)
    ensures
        <Value as FromValue>::from_value_spec(x.to_value_spec()) == Some(vw(x)),
{
}

/// The models of the elements after converting each, `None` when any
/// element refuses.
pub open spec fn seq_from_values<T: FromValue>(s: Seq<ValueS>) -> Option<Seq<T::M>>
    decreases s.len(),
{
    if s.len() == 0 {
        Some(Seq::empty())
    } else {
        match T::from_value_spec(s[0]) {
            Some(m) => match seq_from_values::<T>(s.drop_first()) {
                Some(rest) => Some(seq![m] + rest),
                None => None,
            },
            None => None,
        }
    }
}

impl<T: FromValue> FromValue for Vec<T> {
    type M = Seq<T::M>;

    open spec fn model(&self) -> Seq<T::M> {
        Seq::new(self@.len(), |i: int| self@[i].model())
    }

    open spec fn from_value_spec(v: ValueS) -> Option<Seq<T::M>> {
        match v {
            ValueS::List(items) => seq_from_values::<T>(items),
            _ => None,
        }
    }

    #[verifier::loop_isolation(false)]
    fn from_value(v: Value) -> (r: Result<Vec<T>, DbError>) {
        match v {
            Value::List(items) => {
                proof {
                    broadcast use crate::value::lemma_vw_list_len, crate::value::lemma_vw_list_index;

                }
                let ghost models = vw_list(items@);
                let mut out: Vec<T> = Vec::new();
                let n = items.len();
                let mut i: usize = 0;
                let mut rest = items;
                proof {
                    assert(vw_list(rest@).skip(0) =~= models);
                }
                while i < n
                    invariant
                        out@.len() == i,
                        0 <= i <= n,
                        rest@.len() == n - i,
                        vw_list(rest@) =~= models.skip(i as int),
                        seq_from_values::<T>(models) matches Some(all) ==> {
                            &&& seq_from_values::<T>(vw_list(rest@)) is Some
                            &&& all =~= Seq::new(i as nat, |j: int| out@[j].model())
                                + seq_from_values::<T>(vw_list(rest@)).unwrap()
                        },
                        seq_from_values::<T>(models) is None ==> seq_from_values::<T>(
                            vw_list(rest@),
                        ) is None,
                    decreases n - i,
                {
                    let x = rest.remove(0);
                    let ghost old_rest_vw = vw_list(seq![x] + rest@);
                    proof {
                        assert((seq![x] + rest@).drop_first() =~= rest@);
                        assert(vw(x) == models.skip(i as int)[0]);
                        assert(vw_list(rest@) =~= models.skip(i as int).drop_first());
                        assert(models.skip(i as int).drop_first() =~= models.skip(i as int + 1));
                    }
                    match T::from_value(x) {
                        Ok(y) => {
                            out.push(y);
                        },
                        Err(e) => {
                            return Err(e);
                        },
                    }
                    i = i + 1;
                }
                proof {
                    assert(models.skip(n as int).len() == 0);
                    if seq_from_values::<T>(models) is Some {
                        assert(seq_from_values::<T>(models).unwrap() =~= Seq::new(
                            n as nat,
                            |j: int| out@[j].model(),
                        ));
                    }
                }
                Ok(out)
            },
            _ => Err(mismatch()),
        }
    }
}

} // verus!

