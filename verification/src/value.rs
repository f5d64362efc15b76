//! The tagged payload of one log record, and the generic (JSON-like) value
//! it is presented as.
//!
//! Floating-point payloads are carried as their IEEE-754 little-endian bit
//! patterns (`u32` / `u64`); the library never interprets them as numbers.
use vstd::prelude::*;

verus! {

/// The raw typed payload of one record, as declared by its entry.
///
/// `Double`, `Float32` and their arrays hold IEEE-754 bit patterns.
/// `Struct` and `StructArray` carry schema-dependent bytes that cannot be
/// resolved locally.
pub enum Payload {
    Void,
    RawBytes(Vec<u8>),
    Boolean(bool),
    Int64(i64),
    Double(u64),
    Float32(u32),
    Str(String),
    BooleanArray(Vec<bool>),
    Int64Array(Vec<i64>),
    Float32Array(Vec<u32>),
    DoubleArray(Vec<u64>),
    StringArray(Vec<String>),
    Struct(Vec<u8>),
    StructArray(Vec<u8>),
}

/// Mathematical model of a [`Payload`].
pub enum PayloadModel {
    Void,
    RawBytes(Seq<u8>),
    Boolean(bool),
    Int64(i64),
    Double(u64),
    Float32(u32),
    Str(Seq<char>),
    BooleanArray(Seq<bool>),
    Int64Array(Seq<i64>),
    Float32Array(Seq<u32>),
    DoubleArray(Seq<u64>),
    StringArray(Seq<Seq<char>>),
    Struct(Seq<u8>),
    StructArray(Seq<u8>),
}

impl View for Payload {
    type V = PayloadModel;

    open spec fn view(&self) -> PayloadModel {
        match self {
            Payload::Void => PayloadModel::Void,
            Payload::RawBytes(b) => PayloadModel::RawBytes(b@),
            Payload::Boolean(b) => PayloadModel::Boolean(*b),
            Payload::Int64(i) => PayloadModel::Int64(*i),
            Payload::Double(bits) => PayloadModel::Double(*bits),
            Payload::Float32(bits) => PayloadModel::Float32(*bits),
            Payload::Str(s) => PayloadModel::Str(s@),
            Payload::BooleanArray(v) => PayloadModel::BooleanArray(v@),
            Payload::Int64Array(v) => PayloadModel::Int64Array(v@),
            Payload::Float32Array(v) => PayloadModel::Float32Array(v@),
            Payload::DoubleArray(v) => PayloadModel::DoubleArray(v@),
            Payload::StringArray(v) => PayloadModel::StringArray(
                v@.map_values(|s: String| s@),
            ),
            Payload::Struct(b) => PayloadModel::Struct(b@),
            Payload::StructArray(b) => PayloadModel::StructArray(b@),
        }
    }
}

/// A generic value: null, boolean, number, string, or a homogeneous array
/// of primitives. Numbers of floating-point origin stay as bit patterns.
#[derive(Debug, Clone, PartialEq)]
pub enum GenericValue {
    Null,
    Bool(bool),
    Int(i64),
    F64Bits(u64),
    F32Bits(u32),
    Text(String),
    BoolArray(Vec<bool>),
    IntArray(Vec<i64>),
    F32BitsArray(Vec<u32>),
    F64BitsArray(Vec<u64>),
    TextArray(Vec<String>),
    ByteArray(Vec<u8>),
}

/// Mathematical model of a [`GenericValue`].
pub enum GenericModel {
    Null,
    Bool(bool),
    Int(i64),
    F64Bits(u64),
    F32Bits(u32),
    Text(Seq<char>),
    BoolArray(Seq<bool>),
    IntArray(Seq<i64>),
    F32BitsArray(Seq<u32>),
    F64BitsArray(Seq<u64>),
    TextArray(Seq<Seq<char>>),
    ByteArray(Seq<u8>),
}

impl View for GenericValue {
    type V = GenericModel;

    open spec fn view(&self) -> GenericModel {
        match self {
            GenericValue::Null => GenericModel::Null,
            GenericValue::Bool(b) => GenericModel::Bool(*b),
            GenericValue::Int(i) => GenericModel::Int(*i),
            GenericValue::F64Bits(bits) => GenericModel::F64Bits(*bits),
            GenericValue::F32Bits(bits) => GenericModel::F32Bits(*bits),
            GenericValue::Text(s) => GenericModel::Text(s@),
            GenericValue::BoolArray(v) => GenericModel::BoolArray(v@),
            GenericValue::IntArray(v) => GenericModel::IntArray(v@),
            GenericValue::F32BitsArray(v) => GenericModel::F32BitsArray(v@),
            GenericValue::F64BitsArray(v) => GenericModel::F64BitsArray(v@),
            GenericValue::TextArray(v) => GenericModel::TextArray(
                v@.map_values(|s: String| s@),
            ),
            GenericValue::ByteArray(v) => GenericModel::ByteArray(v@),
        }
    }
}

/// How each payload coerces: every primitive and primitive-array variant
/// maps to the structurally equal generic value; `Void`, `Struct` and
/// `StructArray` map to null.
pub open spec fn spec_coerce(p: PayloadModel) -> GenericModel {
    match p {
        PayloadModel::Void => GenericModel::Null,
        PayloadModel::RawBytes(b) => GenericModel::ByteArray(b),
        PayloadModel::Boolean(b) => GenericModel::Bool(b),
        PayloadModel::Int64(i) => GenericModel::Int(i),
        PayloadModel::Double(bits) => GenericModel::F64Bits(bits),
        PayloadModel::Float32(bits) => GenericModel::F32Bits(bits),
        PayloadModel::Str(s) => GenericModel::Text(s),
        PayloadModel::BooleanArray(v) => GenericModel::BoolArray(v),
        PayloadModel::Int64Array(v) => GenericModel::IntArray(v),
        PayloadModel::Float32Array(v) => GenericModel::F32BitsArray(v),
        PayloadModel::DoubleArray(v) => GenericModel::F64BitsArray(v),
        PayloadModel::StringArray(v) => GenericModel::TextArray(v),
        PayloadModel::Struct(_) => GenericModel::Null,
        PayloadModel::StructArray(_) => GenericModel::Null,
    }
}

/// Converts one raw typed payload into a generic value. Total: it never
/// fails, and the schema-less `Struct` / `StructArray` payloads coerce to
/// null by design rather than by error.
pub fn coerce(p: Payload) -> (r: GenericValue)
    ensures
        r@ == spec_coerce(p@),
{
    match p {
        Payload::Void => GenericValue::Null,
        Payload::RawBytes(b) => GenericValue::ByteArray(b),
        Payload::Boolean(b) => GenericValue::Bool(b),
        Payload::Int64(i) => GenericValue::Int(i),
        Payload::Double(bits) => GenericValue::F64Bits(bits),
        Payload::Float32(bits) => GenericValue::F32Bits(bits),
        Payload::Str(s) => GenericValue::Text(s),
        Payload::BooleanArray(v) => GenericValue::BoolArray(v),
        Payload::Int64Array(v) => GenericValue::IntArray(v),
        Payload::Float32Array(v) => GenericValue::F32BitsArray(v),
        Payload::DoubleArray(v) => GenericValue::F64BitsArray(v),
        Payload::StringArray(v) => GenericValue::TextArray(v),
        Payload::Struct(_) => GenericValue::Null,
        Payload::StructArray(_) => GenericValue::Null,
    }
}

/// Every schema-carrying payload coerces to null, whatever bytes it holds:
/// the loss is documented, not an error.
pub proof fn lemma_struct_coerces_to_null(bytes: Seq<u8>)
    ensures
        spec_coerce(PayloadModel::Struct(bytes)) == GenericModel::Null,
        spec_coerce(PayloadModel::StructArray(bytes)) == GenericModel::Null,
{
}


/// Copies a vector of plain values.
pub(crate) fn clone_vec<T: Copy>(v: &Vec<T>) -> (r: Vec<T>)
    ensures
        r@ == v@,
{
    let mut r: Vec<T> = Vec::new();
    let n = v.len();
    let mut i: usize = 0;
    while i < n
        invariant
            i <= n,
            n == v@.len(),
            r@ == v@.take(i as int),
        decreases n - i,
    {
        r.push(v[i]);
        proof {
            assert(v@.take(i as int).push(v@[i as int]) =~= v@.take(i as int + 1));
        }
        i = i + 1;
    }
    proof {
        assert(v@.take(n as int) =~= v@);
    }
    r
}

/// Copies a vector of strings.
pub(crate) fn clone_strings(v: &Vec<String>) -> (r: Vec<String>)
    ensures
        r@ == v@,
{
    let mut r: Vec<String> = Vec::new();
    let n = v.len();
    let mut i: usize = 0;
    while i < n
        invariant
            i <= n,
            n == v@.len(),
            r@ == v@.take(i as int),
        decreases n - i,
    {
        r.push(v[i].clone());
        proof {
            assert(v@.take(i as int).push(v@[i as int]) =~= v@.take(i as int + 1));
        }
        i = i + 1;
    }
    proof {
        assert(v@.take(n as int) =~= v@);
    }
    r
}

/// Copies one payload; the copy has the same model.
pub(crate) fn clone_payload(p: &Payload) -> (r: Payload)
    ensures
        r@ == p@,
{
    match p {
        Payload::Void => Payload::Void,
        Payload::RawBytes(b) => Payload::RawBytes(clone_vec(b)),
        Payload::Boolean(b) => Payload::Boolean(*b),
        Payload::Int64(i) => Payload::Int64(*i),
        Payload::Double(bits) => Payload::Double(*bits),
        Payload::Float32(bits) => Payload::Float32(*bits),
        Payload::Str(s) => Payload::Str(s.clone()),
        Payload::BooleanArray(v) => Payload::BooleanArray(clone_vec(v)),
        Payload::Int64Array(v) => Payload::Int64Array(clone_vec(v)),
        Payload::Float32Array(v) => Payload::Float32Array(clone_vec(v)),
        Payload::DoubleArray(v) => Payload::DoubleArray(clone_vec(v)),
        Payload::StringArray(v) => Payload::StringArray(clone_strings(v)),
        Payload::Struct(b) => Payload::Struct(clone_vec(b)),
        Payload::StructArray(b) => Payload::StructArray(clone_vec(b)),
    }
}

} // verus!
