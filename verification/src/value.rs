use vstd::prelude::*;

verus! {

broadcast use vstd::std_specs::vec::group_vec_axioms, vstd::seq::group_seq_axioms;

/// A calendar date, held as plain year / month / day numbers.
#[derive(Debug, Clone, Copy, PartialEq, Eq, Structural)]
pub struct Date {
    pub year: i32,
    pub month: u8,
    pub day: u8,
}

/// A time of day, held as plain hour / minute / second / nanosecond numbers.
#[derive(Debug, Clone, Copy, PartialEq, Eq, Structural)]
pub struct Time {
    pub hour: u8,
    pub minute: u8,
    pub second: u8,
    pub nanosecond: u32,
}

/// A date with a time of day; whether it is naive or UTC-qualified is
/// recorded by the `Value` variant that carries it.
#[derive(Debug, Clone, Copy, PartialEq, Eq, Structural)]
pub struct DateTime {
    pub date: Date,
    pub time: Time,
}

/// A decimal number `mantissa * 10^(-scale)`.
#[derive(Debug, Clone, Copy, PartialEq, Eq, Structural)]
pub struct Decimal {
    pub mantissa: i128,
    pub scale: u32,
}

/// The universal runtime representation of any bindable or returnable datum.
///
/// Every concrete host type converts into a `Value` totally; the reverse
/// conversion is partial (see the `convert` module). The `F32` and `F64`
/// variants carry the IEEE-754 bit pattern of the number, so floating-point
/// data flows through the library opaquely and unchanged.
#[derive(Debug)]
pub enum Value {
    Null,
    Bool(bool),
    Char(char),
    Str(String),
    I8(i8),
    I16(i16),
    I32(i32),
    I64(i64),
    I128(i128),
    U8(u8),
    U16(u16),
    U32(u32),
    U64(u64),
    U128(u128),
    F32(u32),
    F64(u64),
    Bytes(Vec<u8>),
    Date(Date),
    Time(Time),
    DateTime(DateTime),
    DateTimeUtc(DateTime),
    Decimal(Decimal),
    List(Vec<Value>),
    Object(Vec<(String, Value)>),
}

/// The mathematical model of a `Value`: strings and byte strings become
/// sequences, lists become sequences of models, maps become sequences of
/// (key, model) pairs in insertion order.
pub enum ValueS {
    Null,
    Bool(bool),
    Char(char),
    Str(Seq<char>),
    I8(i8),
    I16(i16),
    I32(i32),
    I64(i64),
    I128(i128),
    U8(u8),
    U16(u16),
    U32(u32),
    U64(u64),
    U128(u128),
    F32(u32),
    F64(u64),
    Bytes(Seq<u8>),
    Date(Date),
    Time(Time),
    DateTime(DateTime),
    DateTimeUtc(DateTime),
    Decimal(Decimal),
    List(Seq<ValueS>),
    Object(Seq<(Seq<char>, ValueS)>),
}

/// The model of a `Value`.
pub open spec fn vw(v: Value) -> ValueS
    decreases v,
{
    match v {
        Value::Null => ValueS::Null,
        Value::Bool(b) => ValueS::Bool(b),
        Value::Char(c) => ValueS::Char(c),
        Value::Str(s) => ValueS::Str(s@),
        Value::I8(n) => ValueS::I8(n),
        Value::I16(n) => ValueS::I16(n),
        Value::I32(n) => ValueS::I32(n),
        Value::I64(n) => ValueS::I64(n),
        Value::I128(n) => ValueS::I128(n),
        Value::U8(n) => ValueS::U8(n),
        Value::U16(n) => ValueS::U16(n),
        Value::U32(n) => ValueS::U32(n),
        Value::U64(n) => ValueS::U64(n),
        Value::U128(n) => ValueS::U128(n),
        Value::F32(n) => ValueS::F32(n),
        Value::F64(n) => ValueS::F64(n),
        Value::Bytes(b) => ValueS::Bytes(b@),
        Value::Date(d) => ValueS::Date(d),
        Value::Time(t) => ValueS::Time(t),
        Value::DateTime(dt) => ValueS::DateTime(dt),
        Value::DateTimeUtc(dt) => ValueS::DateTimeUtc(dt),
        Value::Decimal(d) => ValueS::Decimal(d),
        Value::List(items) => ValueS::List(vw_list(items@)),
        Value::Object(entries) => ValueS::Object(vw_entries(entries@)),
    }
}

/// The models of a sequence of values, in order.
pub open spec fn vw_list(s: Seq<Value>) -> Seq<ValueS>
    decreases s,
{
    if s.len() == 0 {
        Seq::empty()
    } else {
        seq![vw(s[0])] + vw_list(s.drop_first())
    }
}

/// The models of a sequence of (key, value) entries, in order.
pub open spec fn vw_entries(s: Seq<(String, Value)>) -> Seq<(Seq<char>, ValueS)>
    decreases s,
{
    if s.len() == 0 {
        Seq::empty()
    } else {
        seq![(s[0].0@, vw(s[0].1))] + vw_entries(s.drop_first())
    }
}

pub broadcast proof fn lemma_vw_list_len(s: Seq<Value>)
    ensures
        #[trigger] vw_list(s).len() == s.len(),
    decreases s,
{
    if s.len() > 0 {
        lemma_vw_list_len(s.drop_first());
    }
}

pub broadcast proof fn lemma_vw_list_index(s: Seq<Value>, i: int)
    requires
        0 <= i < s.len(),
    ensures
        #[trigger] vw_list(s)[i] == vw(s[i]),
    decreases s,
{
    lemma_vw_list_len(s);
    if i > 0 {
        lemma_vw_list_index(s.drop_first(), i - 1);
    }
}

pub broadcast proof fn lemma_vw_entries_len(s: Seq<(String, Value)>)
    ensures
        #[trigger] vw_entries(s).len() == s.len(),
    decreases s,
{
    if s.len() > 0 {
        lemma_vw_entries_len(s.drop_first());
    }
}

pub broadcast proof fn lemma_vw_entries_index(s: Seq<(String, Value)>, i: int)
    requires
        0 <= i < s.len(),
    ensures
        #[trigger] vw_entries(s)[i] == (s[i].0@, vw(s[i].1)),
    decreases s,
{
    lemma_vw_entries_len(s);
    if i > 0 {
        lemma_vw_entries_index(s.drop_first(), i - 1);
    }
}

pub proof fn lemma_vw_list_pointwise(a: Seq<Value>, b: Seq<Value>)
    requires
        a.len() == b.len(),
        forall|i: int| 0 <= i < a.len() ==> vw(#[trigger] a[i]) == vw(b[i]),
    ensures
        vw_list(a) == vw_list(b),
{
    broadcast use lemma_vw_list_len, lemma_vw_list_index;

    assert(vw_list(a) =~= vw_list(b));
}

pub proof fn lemma_vw_entries_pointwise(a: Seq<(String, Value)>, b: Seq<(String, Value)>)
    requires
        a.len() == b.len(),
        forall|i: int|
            0 <= i < a.len() ==> (#[trigger] a[i]).0@ == b[i].0@ && vw(a[i].1) == vw(b[i].1),
    ensures
        vw_entries(a) == vw_entries(b),
{
    broadcast use lemma_vw_entries_len, lemma_vw_entries_index;

    assert(vw_entries(a) =~= vw_entries(b));
}

/// A number distinguishing the variants of `ValueS`.
pub open spec fn stag(v: ValueS) -> int {
    match v {
        ValueS::Null => 0,
        ValueS::Bool(_) => 1,
        ValueS::Char(_) => 2,
        ValueS::Str(_) => 3,
        ValueS::I8(_) => 4,
        ValueS::I16(_) => 5,
        ValueS::I32(_) => 6,
        ValueS::I64(_) => 7,
        ValueS::I128(_) => 8,
        ValueS::U8(_) => 9,
        ValueS::U16(_) => 10,
        ValueS::U32(_) => 11,
        ValueS::U64(_) => 12,
        ValueS::U128(_) => 13,
        ValueS::F32(_) => 14,
        ValueS::F64(_) => 15,
        ValueS::Bytes(_) => 16,
        ValueS::Date(_) => 17,
        ValueS::Time(_) => 18,
        ValueS::DateTime(_) => 19,
        ValueS::DateTimeUtc(_) => 20,
        ValueS::Decimal(_) => 21,
        ValueS::List(_) => 22,
        ValueS::Object(_) => 23,
    }
}

/// The same number, read off the runtime value.
pub open spec fn vtag(v: Value) -> int {
    match v {
        Value::Null => 0,
        Value::Bool(_) => 1,
        Value::Char(_) => 2,
        Value::Str(_) => 3,
        Value::I8(_) => 4,
        Value::I16(_) => 5,
        Value::I32(_) => 6,
        Value::I64(_) => 7,
        Value::I128(_) => 8,
        Value::U8(_) => 9,
        Value::U16(_) => 10,
        Value::U32(_) => 11,
        Value::U64(_) => 12,
        Value::U128(_) => 13,
        Value::F32(_) => 14,
        Value::F64(_) => 15,
        Value::Bytes(_) => 16,
        Value::Date(_) => 17,
        Value::Time(_) => 18,
        Value::DateTime(_) => 19,
        Value::DateTimeUtc(_) => 20,
        Value::Decimal(_) => 21,
        Value::List(_) => 22,
        Value::Object(_) => 23,
    }
}

/// The model keeps the variant.
pub proof fn lemma_vw_tag(v: Value)
    ensures
        stag(vw(v)) == vtag(v),
{
}

impl Clone for Value {
    /// A structural copy: the copy has the same model as the original.
    #[verifier::loop_isolation(false)]
    fn clone(&self) -> (r: Value)
        ensures
            vw(r) == vw(*self),
        decreases self,
    {
        match self {
            Value::Null => Value::Null,
            Value::Bool(b) => Value::Bool(*b),
            Value::Char(c) => Value::Char(*c),
            Value::Str(s) => Value::Str(s.clone()),
            Value::I8(n) => Value::I8(*n),
            Value::I16(n) => Value::I16(*n),
            Value::I32(n) => Value::I32(*n),
            Value::I64(n) => Value::I64(*n),
            Value::I128(n) => Value::I128(*n),
            Value::U8(n) => Value::U8(*n),
            Value::U16(n) => Value::U16(*n),
            Value::U32(n) => Value::U32(*n),
            Value::U64(n) => Value::U64(*n),
            Value::U128(n) => Value::U128(*n),
            Value::F32(n) => Value::F32(*n),
            Value::F64(n) => Value::F64(*n),
            Value::Bytes(b) => {
                let mut out: Vec<u8> = Vec::new();
                let mut i: usize = 0;
                let n = b.len();
                while i < n
                    invariant
                        n == b@.len(),
                        0 <= i <= n,
                        out@ =~= b@.subrange(0, i as int),
                    decreases n - i,
                {
                    out.push(b[i]);
                    i = i + 1;
                }
                proof {
                    assert(out@ =~= b@);
                }
                Value::Bytes(out)
            },
            Value::Date(d) => Value::Date(*d),
            Value::Time(t) => Value::Time(*t),
            Value::DateTime(dt) => Value::DateTime(*dt),
            Value::DateTimeUtc(dt) => Value::DateTimeUtc(*dt),
            Value::Decimal(d) => Value::Decimal(*d),
            Value::List(items) => {
                let mut out: Vec<Value> = Vec::new();
                let mut i: usize = 0;
                let n = items.len();
                while i < n
                    invariant
                        n == items@.len(),
                        0 <= i <= n,
                        out@.len() == i,
                        forall|j: int| 0 <= j < i ==> vw(#[trigger] out@[j]) == vw(items@[j]),
                    decreases n - i,
                {
                    out.push(items[i].clone());
                    i = i + 1;
                }
                proof {
                    lemma_vw_list_pointwise(out@, items@);
                }
                Value::List(out)
            },
            Value::Object(entries) => {
                let mut out: Vec<(String, Value)> = Vec::new();
                let mut i: usize = 0;
                let n = entries.len();
                while i < n
                    invariant
                        n == entries@.len(),
                        0 <= i <= n,
                        out@.len() == i,
                        forall|j: int|
                            0 <= j < i ==> (#[trigger] out@[j]).0@ == entries@[j].0@ && vw(
                                out@[j].1,
                            ) == vw(entries@[j].1),
                    decreases n - i,
                {
                    out.push((entries[i].0.clone(), entries[i].1.clone()));
                    i = i + 1;
                }
                proof {
                    lemma_vw_entries_pointwise(out@, entries@);
                }
                Value::Object(out)
            },
        }
    }
}

impl PartialEq for Value {
    /// Structural equality over the models of the two values.
    #[verifier::loop_isolation(false)]
    fn eq(&self, other: &Value) -> (r: bool)
        decreases self,
    {
        match (self, other) {
            (Value::Null, Value::Null) => true,
            (Value::Bool(a), Value::Bool(b)) => a == b,
            (Value::Char(a), Value::Char(b)) => a == b,
            (Value::Str(a), Value::Str(b)) => crate::textutil::str_eq(a.as_str(), b.as_str()),
            (Value::I8(a), Value::I8(b)) => a == b,
            (Value::I16(a), Value::I16(b)) => a == b,
            (Value::I32(a), Value::I32(b)) => a == b,
            (Value::I64(a), Value::I64(b)) => a == b,
            (Value::I128(a), Value::I128(b)) => a == b,
            (Value::U8(a), Value::U8(b)) => a == b,
            (Value::U16(a), Value::U16(b)) => a == b,
            (Value::U32(a), Value::U32(b)) => a == b,
            (Value::U64(a), Value::U64(b)) => a == b,
            (Value::U128(a), Value::U128(b)) => a == b,
            (Value::F32(a), Value::F32(b)) => a == b,
            (Value::F64(a), Value::F64(b)) => a == b,
            (Value::Bytes(a), Value::Bytes(b)) => {
                if a.len() != b.len() {
                    return false;
                }
                let n = a.len();
                let mut i: usize = 0;
                while i < n
                    invariant
                        n == a@.len() == b@.len(),
                        0 <= i <= n,
                        forall|j: int| 0 <= j < i ==> a@[j] == b@[j],
                    decreases n - i,
                {
                    if a[i] != b[i] {
                        return false;
                    }
                    i = i + 1;
                }
                proof {
                    assert(a@ =~= b@);
                }
                true
            },
            (Value::Date(a), Value::Date(b)) => a == b,
            (Value::Time(a), Value::Time(b)) => a == b,
            (Value::DateTime(a), Value::DateTime(b)) => a == b,
            (Value::DateTimeUtc(a), Value::DateTimeUtc(b)) => a == b,
            (Value::Decimal(a), Value::Decimal(b)) => a == b,
            (Value::List(a), Value::List(b)) => {
                if a.len() != b.len() {
                    proof {
                        broadcast use lemma_vw_list_len;

                        assert(vw_list(a@).len() != vw_list(b@).len());
                    }
                    return false;
                }
                let n = a.len();
                let mut i: usize = 0;
                while i < n
                    invariant
                        n == a@.len() == b@.len(),
                        0 <= i <= n,
                        forall|j: int| 0 <= j < i ==> vw(#[trigger] a@[j]) == vw(b@[j]),
                    decreases n - i,
                {
                    if !a[i].eq(&b[i]) {
                        proof {
                            broadcast use lemma_vw_list_len, lemma_vw_list_index;

                            assert(vw_list(a@)[i as int] != vw_list(b@)[i as int]);
                        }
                        return false;
                    }
                    i = i + 1;
                }
                proof {
                    lemma_vw_list_pointwise(a@, b@);
                }
                true
            },
            (Value::Object(a), Value::Object(b)) => {
                if a.len() != b.len() {
                    proof {
                        broadcast use lemma_vw_entries_len;

                        assert(vw_entries(a@).len() != vw_entries(b@).len());
                    }
                    return false;
                }
                let n = a.len();
                let mut i: usize = 0;
                while i < n
                    invariant
                        n == a@.len() == b@.len(),
                        0 <= i <= n,
                        forall|j: int|
                            0 <= j < i ==> (#[trigger] a@[j]).0@ == b@[j].0@ && vw(a@[j].1) == vw(
                                b@[j].1,
                            ),
                    decreases n - i,
                {
                    let keys_differ = !crate::textutil::str_eq(a[i].0.as_str(), b[i].0.as_str());
                    if keys_differ || !a[i].1.eq(&b[i].1) {
                        proof {
                            broadcast use lemma_vw_entries_len, lemma_vw_entries_index;

                            assert(vw_entries(a@)[i as int] != vw_entries(b@)[i as int]);
                        }
                        return false;
                    }
                    i = i + 1;
                }
                proof {
                    lemma_vw_entries_pointwise(a@, b@);
                }
                true
            },
            _ => {
                proof {
                    lemma_vw_tag(*self);
                    lemma_vw_tag(*other);
                }
                false
            },
        }
    }
}

impl vstd::std_specs::cmp::PartialEqSpecImpl for Value {
    open spec fn obeys_eq_spec() -> bool {
        true
    }

    open spec fn eq_spec(&self, other: &Value) -> bool {
        vw(*self) == vw(*other)
    }
}

pub proof fn lemma_vw_entries_push(s: Seq<(String, Value)>, x: (String, Value))
    ensures
        vw_entries(s.push(x)) == vw_entries(s).push((x.0@, vw(x.1))),
{
    broadcast use lemma_vw_entries_len, lemma_vw_entries_index;

    assert(vw_entries(s.push(x)) =~= vw_entries(s).push((x.0@, vw(x.1)))) by {
        lemma_vw_entries_len(s.push(x));
        assert forall|i: int| 0 <= i < s.len() + 1 implies vw_entries(s.push(x))[i] == vw_entries(
            s,
        ).push((x.0@, vw(x.1)))[i] by {
            lemma_vw_entries_index(s.push(x), i);
            if i < s.len() {
                lemma_vw_entries_index(s, i);
                assert(s.push(x)[i] == s[i]);
            } else {
                assert(s.push(x)[i] == x);
            }
        }
    }
}

/// Look a key up in a sequence of (key, value) entries: the first entry
/// with that key wins; `None` when no entry carries it.
pub open spec fn entries_get(s: Seq<(Seq<char>, ValueS)>, key: Seq<char>) -> Option<ValueS>
    decreases s,
{
    if s.len() == 0 {
        None
    } else if s[0].0 == key {
        Some(s[0].1)
    } else {
        entries_get(s.drop_first(), key)
    }
}

/// Look `key` up among the entries of an object, first match first.
pub fn obj_get<'a>(entries: &'a Vec<(String, Value)>, key: &str) -> (r: Option<&'a Value>)
    ensures
        match r {
            Some(v) => entries_get(vw_entries(entries@), key@) == Some(vw(*v)),
            None => entries_get(vw_entries(entries@), key@) is None,
        },
{
    proof {
        broadcast use lemma_vw_entries_len, lemma_vw_entries_index;

        assert(vw_entries(entries@).skip(0) =~= vw_entries(entries@));
    }
    let n = entries.len();
    let mut i: usize = 0;
    while i < n
        invariant
            n == entries.len(),
            0 <= i <= n,
            entries_get(vw_entries(entries@), key@) == entries_get(
                vw_entries(entries@).skip(i as int),
                key@,
            ),
        decreases n - i,
    {
        proof {
            broadcast use lemma_vw_entries_len, lemma_vw_entries_index;

            assert(vw_entries(entries@).skip(i as int).len() == n - i);
            assert(vw_entries(entries@).skip(i as int)[0] == vw_entries(entries@)[i as int]);
        }
        if crate::textutil::str_eq(entries[i].0.as_str(), key) {
            return Some(&entries[i].1);
        }
        proof {
            assert(vw_entries(entries@).skip(i as int).drop_first() =~= vw_entries(
                entries@,
            ).skip(i as int + 1));
        }
        i = i + 1;
    }
    proof {
        broadcast use lemma_vw_entries_len;

        assert(vw_entries(entries@).skip(n as int).len() == 0);
    }
    None
}

/// Truthiness of a value in a bare conditional: false only for absence
/// and boolean false; everything else, including `0` and the empty string,
/// counts as true.
pub open spec fn spec_is_truthy(v: ValueS) -> bool {
    !(v is Null || v == ValueS::Bool(false))
}

pub fn is_truthy(v: &Value) -> (r: bool)
    ensures
        r == spec_is_truthy(vw(*v)),
{
    match v {
        Value::Null => false,
        Value::Bool(b) => *b,
        _ => true,
    }
}

} // verus!
