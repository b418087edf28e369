//! A dynamically typed value, as a tree.

use crate::format::{
    array_header, bin_header, bool_encoding, ext_header, f32_encoding, f64_encoding,
    int_encoding, map_header, nil_encoding, str_header,
};
use crate::integer::EfficientInt;
use vstd::prelude::*;
use vstd::std_specs::convert::FromSpecImpl;

verus! {

/// An integer of the wire format: anything from `-2^63` to `2^64 - 1`.
#[derive(Clone, Copy, Debug, PartialEq, Eq, Structural)]
pub enum Integer {
    /// A value that is not negative.
    PosInt(u64),
    /// A negative value.
    NegInt(i64),
}

impl Integer {
    /// The integer as a mathematical one.
    pub open spec fn value(self) -> int {
        match self {
            Integer::PosInt(n) => n as int,
            Integer::NegInt(n) => n as int,
        }
    }

    /// The integer of the wire format that stands for `n`, for
    /// `-2^63 <= n < 2^64`.
    pub open spec fn of(n: int) -> Integer {
        if n >= 0 {
            Integer::PosInt(n as u64)
        } else {
            Integer::NegInt(n as i64)
        }
    }

    /// Whether the integer is held in the one form that its value calls
    /// for: `NegInt` holds negative values only.
    pub open spec fn canonical(self) -> bool {
        self is NegInt ==> self.value() < 0
    }

    /// The integer as an `i64`, if it is one.
    pub fn as_i64(&self) -> (r: Option<i64>)
        ensures
            r == (if self.value() <= i64::MAX {
                Some(self.value() as i64)
            } else {
                None
            }),
    {
        match *self {
            Integer::PosInt(n) => if n <= i64::MAX as u64 {
                Some(n as i64)
            } else {
                None
            },
            Integer::NegInt(n) => Some(n),
        }
    }

    /// The integer as a `u64`, if it is one.
    pub fn as_u64(&self) -> (r: Option<u64>)
        ensures
            r == (if self.value() >= 0 {
                Some(self.value() as u64)
            } else {
                None
            }),
    {
        match *self {
            Integer::PosInt(n) => Some(n),
            Integer::NegInt(n) => if n >= 0 {
                Some(n as u64)
            } else {
                None
            },
        }
    }
}

impl From<u64> for Integer {
    fn from(n: u64) -> (r: Self) {
        Integer::PosInt(n)
    }
}

impl FromSpecImpl<u64> for Integer {
    open spec fn obeys_from_spec() -> bool {
        true
    }

    open spec fn from_spec(n: u64) -> Self {
        Integer::of(n as int)
    }
}

impl From<i64> for Integer {
    fn from(n: i64) -> (r: Self) {
        if n >= 0 {
            Integer::PosInt(n as u64)
        } else {
            Integer::NegInt(n)
        }
    }
}

impl FromSpecImpl<i64> for Integer {
    open spec fn obeys_from_spec() -> bool {
        true
    }

    open spec fn from_spec(n: i64) -> Self {
        Integer::of(n as int)
    }
}

/// A value of any kind that the wire format knows.
#[derive(Debug, PartialEq, Eq)]
pub enum Value {
    Nil,
    Boolean(bool),
    Integer(Integer),
    F32(u32),
    F64(u64),
    String(Vec<u8>),
    Binary(Vec<u8>),
    Array(Vec<Value>),
    Mapping(Vec<(Value, Value)>),
    Ext(i8, Vec<u8>),
}

/// What a `Value` stands for: the same tree over mathematical sequences and
/// integers.
pub enum ValueModel {
    Nil,
    Boolean(bool),
    Integer(int),
    F32(u32),
    F64(u64),
    String(Seq<u8>),
    Binary(Seq<u8>),
    Array(Seq<ValueModel>),
    Mapping(Seq<(ValueModel, ValueModel)>),
    Ext(i8, Seq<u8>),
}

impl View for Value {
    type V = ValueModel;

    open spec fn view(&self) -> ValueModel
        decreases self,
    {
        match self {
            Value::Nil => ValueModel::Nil,
            Value::Boolean(b) => ValueModel::Boolean(*b),
            Value::Integer(n) => ValueModel::Integer(n.value()),
            Value::F32(bits) => ValueModel::F32(*bits),
            Value::F64(bits) => ValueModel::F64(*bits),
            Value::String(s) => ValueModel::String(s@),
            Value::Binary(b) => ValueModel::Binary(b@),
            Value::Array(a) => ValueModel::Array(values_view(a@)),
            Value::Mapping(m) => ValueModel::Mapping(pairs_view(m@)),
            Value::Ext(ty, data) => ValueModel::Ext(*ty, data@),
        }
    }
}

impl Value {
    /// Whether the wire format can carry the value: see
    /// `ValueModel::encodable`.
    #[verifier::loop_isolation(false)]
    pub fn is_encodable(&self) -> (b: bool)
        ensures
            b == self@.encodable(),
        decreases self,
    {
        match self {
            Value::String(bytes) => bytes.len() <= u32::MAX as usize,
            Value::Binary(bytes) => bytes.len() <= u32::MAX as usize,
            Value::Ext(ty, bytes) => *ty >= 0 && bytes.len() <= u32::MAX as usize,
            Value::Array(items) => {
                proof {
                    lemma_values_view(items@);
                }
                if items.len() > u32::MAX as usize {
                    return false;
                }
                let mut i: usize = 0;
                while i < items.len()
                    invariant
                        i <= items@.len(),
                        forall|j: int| 0 <= j < i ==> (#[trigger] items@[j])@.encodable(),
                    decreases items@.len() - i,
                {
                    if !items[i].is_encodable() {
                        assert(!self@->Array_0[i as int].encodable());
                        return false;
                    }
                    i = i + 1;
                }
                true
            },
            Value::Mapping(pairs) => {
                proof {
                    lemma_pairs_view(pairs@);
                }
                if pairs.len() > u32::MAX as usize {
                    return false;
                }
                let mut i: usize = 0;
                while i < pairs.len()
                    invariant
                        i <= pairs@.len(),
                        forall|j: int|
                            0 <= j < i ==> (#[trigger] pairs@[j]).0@.encodable()
                                && pairs@[j].1@.encodable(),
                    decreases pairs@.len() - i,
                {
                    if !pairs[i].0.is_encodable() || !pairs[i].1.is_encodable() {
                        assert(!(self@->Mapping_0[i as int].0.encodable()
                            && self@->Mapping_0[i as int].1.encodable()));
                        return false;
                    }
                    i = i + 1;
                }
                true
            },
            _ => true,
        }
    }
}

impl ValueModel {
    /// Whether the wire format can carry the value: integers lie between
    /// `-2^63` and `2^64 - 1`, every length fits into 32 bits, and no
    /// extension has a negative type tag.
    pub open spec fn encodable(self) -> bool
        decreases self,
    {
        match self {
            ValueModel::Integer(n) => -0x8000_0000_0000_0000 <= n <= 0xffff_ffff_ffff_ffff,
            ValueModel::String(s) => s.len() <= u32::MAX,
            ValueModel::Binary(b) => b.len() <= u32::MAX,
            ValueModel::Array(items) => {
                &&& items.len() <= u32::MAX
                &&& forall|i: int| 0 <= i < items.len() ==> (#[trigger] items[i]).encodable()
            },
            ValueModel::Mapping(pairs) => {
                &&& pairs.len() <= u32::MAX
                &&& forall|i: int|
                    0 <= i < pairs.len() ==> (#[trigger] pairs[i]).0.encodable()
                        && pairs[i].1.encodable()
            },
            ValueModel::Ext(ty, data) => ty >= 0 && data.len() <= u32::MAX,
            _ => true,
        }
    }

    /// The bytes of the value on the wire: an integer in its smallest
    /// representation, strings, binary data and extensions as a header and
    /// their bytes, an array as its header and its items in order, a map as
    /// its header and, pair by pair, the key and then the value.
    pub open spec fn encoding(self) -> Seq<u8>
        decreases self,
    {
        match self {
            ValueModel::Nil => nil_encoding(),
            ValueModel::Boolean(b) => bool_encoding(b),
            ValueModel::Integer(n) => int_encoding(EfficientInt::minimal(n)),
            ValueModel::F32(bits) => f32_encoding(bits),
            ValueModel::F64(bits) => f64_encoding(bits),
            ValueModel::String(s) => str_header(s.len() as u32) + s,
            ValueModel::Binary(b) => bin_header(b.len() as u32) + b,
            ValueModel::Array(items) => array_header(items.len() as u32) + items_encoding(items),
            ValueModel::Mapping(pairs) => map_header(pairs.len() as u32) + pairs_encoding(pairs),
            ValueModel::Ext(ty, data) => ext_header(data.len() as u32, ty) + data,
        }
    }
}

/// The models of a sequence of values, in the same order.
pub open spec fn values_view(values: Seq<Value>) -> Seq<ValueModel>
    decreases values,
{
    if values.len() == 0 {
        Seq::empty()
    } else {
        values_view(values.drop_last()).push(values.last()@)
    }
}

/// The models of a sequence of pairs of values, in the same order.
pub open spec fn pairs_view(pairs: Seq<(Value, Value)>) -> Seq<(ValueModel, ValueModel)>
    decreases pairs,
{
    if pairs.len() == 0 {
        Seq::empty()
    } else {
        pairs_view(pairs.drop_last()).push((pairs.last().0@, pairs.last().1@))
    }
}

/// The models of a sequence of values are as many as the values, and each
/// is the model of the value in its place.
pub proof fn lemma_values_view(values: Seq<Value>)
    ensures
        values_view(values).len() == values.len(),
        forall|i: int|
            0 <= i < values.len() ==> (#[trigger] values_view(values)[i]) == values[i]@,
    decreases values.len(),
{
    if values.len() > 0 {
        lemma_values_view(values.drop_last());
        assert(values_view(values) == values_view(values.drop_last()).push(values.last()@));
    }
}

/// The models of a sequence of pairs are as many as the pairs, and each is
/// made of the models of the key and the value in its place.
pub proof fn lemma_pairs_view(pairs: Seq<(Value, Value)>)
    ensures
        pairs_view(pairs).len() == pairs.len(),
        forall|i: int|
            0 <= i < pairs.len() ==> (#[trigger] pairs_view(pairs)[i]) == (pairs[i].0@, pairs[i].1@),
    decreases pairs.len(),
{
    if pairs.len() > 0 {
        lemma_pairs_view(pairs.drop_last());
        assert(pairs_view(pairs) == pairs_view(pairs.drop_last()).push(
            (pairs.last().0@, pairs.last().1@),
        ));
    }
}

/// The bytes of a sequence of values, one after the other.
pub open spec fn items_encoding(items: Seq<ValueModel>) -> Seq<u8>
    decreases items,
{
    if items.len() == 0 {
        Seq::empty()
    } else {
        items_encoding(items.drop_last()) + items.last().encoding()
    }
}

/// The bytes of a sequence of pairs: of each pair the key, then the value.
pub open spec fn pairs_encoding(pairs: Seq<(ValueModel, ValueModel)>) -> Seq<u8>
    decreases pairs,
{
    if pairs.len() == 0 {
        Seq::empty()
    } else {
        pairs_encoding(pairs.drop_last()) + pairs.last().0.encoding() + pairs.last().1.encoding()
    }
}

} // verus!
