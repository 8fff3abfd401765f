//! GGUF files: metadata values, tensor descriptors, and reading a file image.
use crate::bytes::{byte_range, decode_le, le_value, lemma_byte_range, lemma_le_value_bound};
use crate::tensor_types::{blocks_bytes, known_type, tensor_byte_size, type_table};
use crate::text::{
    decimal, from_utf8_lossy, push_char, push_decimal, starts_with, str_eq, text_of,
};
use vstd::hash_map::StringHashMap;
use vstd::prelude::*;
use vstd::slice::slice_subrange;

pub use crate::tensor_types::{gguf_type_index, gguf_type_info, GgufTypeInfo};

verus! {

/// GGUF metadata value types, in the order of their numbers on disk.
#[derive(Debug, Clone, Copy, PartialEq, Eq, Structural)]
pub enum GgufValueType {
    Uint8,
    Int8,
    Uint16,
    Int16,
    Uint32,
    Int32,
    Float32,
    Bool,
    String,
    Array,
    Uint64,
    Int64,
    Float64,
}

/// A metadata value. Floats are held as their bit patterns.
#[derive(Debug)]
pub enum GgufValue {
    Uint8(u8),
    Int8(i8),
    Uint16(u16),
    Int16(i16),
    Uint32(u32),
    Int32(i32),
    Float32(u32),
    Bool(bool),
    String(String),
    Uint64(u64),
    Int64(i64),
    Float64(u64),
    Array(GgufArray),
}

/// A metadata array: the type number of its elements and the elements.
#[derive(Debug)]
pub struct GgufArray {
    pub element_type: u32,
    pub elements: Vec<GgufValue>,
}

/// A metadata pair.
#[derive(Debug)]
pub struct GgufKv {
    pub key: String,
    pub value: GgufValue,
}

/// What a metadata value says.
pub enum ValueView {
    Uint8(u8),
    Int8(i8),
    Uint16(u16),
    Int16(i16),
    Uint32(u32),
    Int32(i32),
    Float32(u32),
    Bool(bool),
    Text(Seq<char>),
    Uint64(u64),
    Int64(i64),
    Float64(u64),
    Array(u32, Seq<ValueView>),
}

/// The view of a metadata value.
pub open spec fn value_view(v: GgufValue) -> ValueView
    decreases v,
{
    match v {
        GgufValue::Uint8(x) => ValueView::Uint8(x),
        GgufValue::Int8(x) => ValueView::Int8(x),
        GgufValue::Uint16(x) => ValueView::Uint16(x),
        GgufValue::Int16(x) => ValueView::Int16(x),
        GgufValue::Uint32(x) => ValueView::Uint32(x),
        GgufValue::Int32(x) => ValueView::Int32(x),
        GgufValue::Float32(x) => ValueView::Float32(x),
        GgufValue::Bool(x) => ValueView::Bool(x),
        GgufValue::String(s) => ValueView::Text(s@),
        GgufValue::Uint64(x) => ValueView::Uint64(x),
        GgufValue::Int64(x) => ValueView::Int64(x),
        GgufValue::Float64(x) => ValueView::Float64(x),
        GgufValue::Array(a) => ValueView::Array(
            a.element_type,
            Seq::new(
                a.elements@.len(),
                |i: int|
                    if 0 <= i < a.elements@.len() {
                        value_view(a.elements@[i])
                    } else {
                        arbitrary()
                    },
            ),
        ),
    }
}

impl View for GgufValue {
    type V = ValueView;

    open spec fn view(&self) -> ValueView {
        value_view(*self)
    }
}

/// Why a GGUF image cannot be read.
#[derive(Debug)]
pub enum GgufError {
    /// Fewer than 40 bytes.
    TooSmall,
    /// The first four bytes are not the magic number.
    BadMagic(u32),
    /// A version other than 2 and 3.
    UnsupportedVersion(u32),
    /// The data ends before what starts at this position.
    UnexpectedEnd(u64),
    /// Metadata arrays nested more than eight deep.
    NestingTooDeep,
    /// A metadata value of an unknown type.
    UnknownValueType(u32),
    /// A tensor with no dimension or more than eight.
    UnsupportedDims(String, u32),
    /// A tensor whose element count does not fit.
    ElementOverflow(String),
    /// A position in the file that does not fit.
    PositionOverflow,
}

/// What a read error says.
pub enum GgufFault {
    TooSmall,
    BadMagic(u32),
    UnsupportedVersion(u32),
    UnexpectedEnd(int),
    NestingTooDeep,
    UnknownValueType(u32),
    UnsupportedDims(Seq<char>, u32),
    ElementOverflow(Seq<char>),
    PositionOverflow,
}

impl View for GgufError {
    type V = GgufFault;

    open spec fn view(&self) -> GgufFault {
        match self {
            GgufError::TooSmall => GgufFault::TooSmall,
            GgufError::BadMagic(m) => GgufFault::BadMagic(*m),
            GgufError::UnsupportedVersion(v) => GgufFault::UnsupportedVersion(*v),
            GgufError::UnexpectedEnd(p) => GgufFault::UnexpectedEnd(*p as int),
            GgufError::NestingTooDeep => GgufFault::NestingTooDeep,
            GgufError::UnknownValueType(t) => GgufFault::UnknownValueType(*t),
            GgufError::UnsupportedDims(n, d) => GgufFault::UnsupportedDims(n@, *d),
            GgufError::ElementOverflow(n) => GgufFault::ElementOverflow(n@),
            GgufError::PositionOverflow => GgufFault::PositionOverflow,
        }
    }
}

/// What reading something at a position gives: the thing and the position behind it, or a fault.
pub type Read<T> = Result<(T, int), GgufFault>;

/// `n` bytes at `pos`.
pub open spec fn bytes_at(data: Seq<u8>, pos: int, n: int) -> Read<Seq<u8>> {
    if pos + n > data.len() {
        Err(GgufFault::UnexpectedEnd(pos))
    } else {
        Ok((data.subrange(pos, pos + n), pos + n))
    }
}

/// A little-endian number of `n` bytes at `pos`.
pub open spec fn number_at(data: Seq<u8>, pos: int, n: int) -> Read<nat> {
    match bytes_at(data, pos, n) {
        Err(e) => Err(e),
        Ok((b, p)) => Ok((le_value(b), p)),
    }
}

/// A string at `pos`: its length in eight bytes, and its bytes.
pub open spec fn text_at(data: Seq<u8>, pos: int) -> Read<Seq<char>> {
    match number_at(data, pos, 8) {
        Err(e) => Err(e),
        Ok((len, p)) => match bytes_at(data, p, len as int) {
            Err(e) => Err(e),
            Ok((b, q)) => Ok((text_of(b), q)),
        },
    }
}

/// Bytes that a value of a fixed-size type takes; 0 for strings, arrays and unknown types.
pub open spec fn fixed_size(value_type: u32) -> nat {
    if value_type == 0 || value_type == 1 || value_type == 7 {
        1
    } else if value_type == 2 || value_type == 3 {
        2
    } else if value_type == 4 || value_type == 5 || value_type == 6 {
        4
    } else if value_type == 10 || value_type == 11 || value_type == 12 {
        8
    } else {
        0
    }
}

/// The value of a fixed-size type whose bytes are the number `n`.
pub open spec fn fixed_value(value_type: u32, n: nat) -> ValueView {
    if value_type == 0 {
        ValueView::Uint8(n as u8)
    } else if value_type == 1 {
        ValueView::Int8(n as u8 as i8)
    } else if value_type == 2 {
        ValueView::Uint16(n as u16)
    } else if value_type == 3 {
        ValueView::Int16(n as u16 as i16)
    } else if value_type == 4 {
        ValueView::Uint32(n as u32)
    } else if value_type == 5 {
        ValueView::Int32(n as u32 as i32)
    } else if value_type == 6 {
        ValueView::Float32(n as u32)
    } else if value_type == 7 {
        ValueView::Bool(n != 0)
    } else if value_type == 10 {
        ValueView::Uint64(n as u64)
    } else if value_type == 11 {
        ValueView::Int64(n as u64 as i64)
    } else {
        ValueView::Float64(n as u64)
    }
}

/// A metadata value of the given type at `pos`, inside `depth` arrays.
pub open spec fn value_at(data: Seq<u8>, pos: int, value_type: u32, depth: nat) -> Read<ValueView>
    decreases 9 - depth, 0nat,
{
    if depth > 8 {
        Err(GgufFault::NestingTooDeep)
    } else if fixed_size(value_type) > 0 {
        match number_at(data, pos, fixed_size(value_type) as int) {
            Err(e) => Err(e),
            Ok((n, p)) => Ok((fixed_value(value_type, n), p)),
        }
    } else if value_type == 8 {
        match text_at(data, pos) {
            Err(e) => Err(e),
            Ok((s, p)) => Ok((ValueView::Text(s), p)),
        }
    } else if value_type == 9 {
        match number_at(data, pos, 4) {
            Err(e) => Err(e),
            Ok((t, p)) => match number_at(data, p, 8) {
                Err(e) => Err(e),
                Ok((len, q)) => match values_at(data, q, t as u32, depth + 1, len) {
                    Err(e) => Err(e),
                    Ok((vs, r)) => Ok((ValueView::Array(t as u32, vs), r)),
                },
            },
        }
    } else {
        Err(GgufFault::UnknownValueType(value_type))
    }
}

/// `n` metadata values of the given type in a row.
pub open spec fn values_at(
    data: Seq<u8>,
    pos: int,
    value_type: u32,
    depth: nat,
    n: nat,
) -> Read<Seq<ValueView>>
    decreases 9 - depth, n + 1,
{
    if n == 0 {
        Ok((seq![], pos))
    } else {
        match values_at(data, pos, value_type, depth, (n - 1) as nat) {
            Err(e) => Err(e),
            Ok((vs, p)) => match value_at(data, p, value_type, depth) {
                Err(e) => Err(e),
                Ok((v, q)) => Ok((vs.push(v), q)),
            },
        }
    }
}

/// The position `n` behind `pos`.
pub open spec fn ahead(pos: int, n: int) -> Result<int, GgufFault> {
    if pos + n > u64::MAX {
        Err(GgufFault::PositionOverflow)
    } else {
        Ok(pos + n)
    }
}

/// The position behind a metadata value that is not kept. Unlike reading a value, passing over
/// one does not ask that its bytes are there.
pub open spec fn skip_at(data: Seq<u8>, pos: int, value_type: u32, depth: nat) -> Result<
    int,
    GgufFault,
>
    decreases 9 - depth, 0nat,
{
    if depth > 8 {
        Err(GgufFault::NestingTooDeep)
    } else if fixed_size(value_type) > 0 {
        ahead(pos, fixed_size(value_type) as int)
    } else if value_type == 8 {
        match number_at(data, pos, 8) {
            Err(e) => Err(e),
            Ok((len, p)) => ahead(p, len as int),
        }
    } else if value_type == 9 {
        match number_at(data, pos, 4) {
            Err(e) => Err(e),
            Ok((t, p)) => match number_at(data, p, 8) {
                Err(e) => Err(e),
                Ok((len, q)) => skips_at(data, q, t as u32, depth + 1, len),
            },
        }
    } else {
        Err(GgufFault::UnknownValueType(value_type))
    }
}

/// The position behind `n` metadata values in a row that are not kept.
pub open spec fn skips_at(
    data: Seq<u8>,
    pos: int,
    value_type: u32,
    depth: nat,
    n: nat,
) -> Result<int, GgufFault>
    decreases 9 - depth, n + 1,
{
    if n == 0 {
        Ok(pos)
    } else {
        match skips_at(data, pos, value_type, depth, (n - 1) as nat) {
            Err(e) => Err(e),
            Ok(p) => skip_at(data, p, value_type, depth),
        }
    }
}

/// Where reading a string stops: behind the string, or where the part that is not there starts.
pub open spec fn text_stop(data: Seq<u8>, pos: int) -> int {
    match number_at(data, pos, 8) {
        Err(_) => pos,
        Ok((len, p)) => match bytes_at(data, p, len as int) {
            Err(_) => p,
            Ok((_, q)) => q,
        },
    }
}

/// Where reading a metadata value stops: behind the value, or where the part that cannot be read
/// starts.
pub open spec fn value_stop(data: Seq<u8>, pos: int, value_type: u32, depth: nat) -> int
    decreases 9 - depth, 0nat,
{
    if depth > 8 {
        pos
    } else if fixed_size(value_type) > 0 {
        match number_at(data, pos, fixed_size(value_type) as int) {
            Err(_) => pos,
            Ok((_, p)) => p,
        }
    } else if value_type == 8 {
        text_stop(data, pos)
    } else if value_type == 9 {
        match number_at(data, pos, 4) {
            Err(_) => pos,
            Ok((t, p)) => match number_at(data, p, 8) {
                Err(_) => p,
                Ok((len, q)) => values_stop(data, q, t as u32, depth + 1, len),
            },
        }
    } else {
        pos
    }
}

/// Where reading `n` metadata values in a row stops: behind them, or where the first one that cannot
/// be read stops.
pub open spec fn values_stop(
    data: Seq<u8>,
    pos: int,
    value_type: u32,
    depth: nat,
    n: nat,
) -> int
    decreases 9 - depth, n + 1,
{
    if n == 0 {
        pos
    } else {
        match values_at(data, pos, value_type, depth, (n - 1) as nat) {
            Err(_) => values_stop(data, pos, value_type, depth, (n - 1) as nat),
            Ok((_, p)) => value_stop(data, p, value_type, depth),
        }
    }
}

/// Where moving `n` ahead stops: there, or at once if there is no such position.
pub open spec fn ahead_stop(pos: int, n: int) -> int {
    match ahead(pos, n) {
        Err(_) => pos,
        Ok(p) => p,
    }
}

/// Where passing over a metadata value stops: behind the value, or where the part that cannot be
/// passed over starts.
pub open spec fn skip_stop(data: Seq<u8>, pos: int, value_type: u32, depth: nat) -> int
    decreases 9 - depth, 0nat,
{
    if depth > 8 {
        pos
    } else if fixed_size(value_type) > 0 {
        ahead_stop(pos, fixed_size(value_type) as int)
    } else if value_type == 8 {
        match number_at(data, pos, 8) {
            Err(_) => pos,
            Ok((len, p)) => ahead_stop(p, len as int),
        }
    } else if value_type == 9 {
        match number_at(data, pos, 4) {
            Err(_) => pos,
            Ok((t, p)) => match number_at(data, p, 8) {
                Err(_) => p,
                Ok((len, q)) => skips_stop(data, q, t as u32, depth + 1, len),
            },
        }
    } else {
        pos
    }
}

/// Where passing over `n` metadata values in a row stops: behind them, or where the first one that
/// cannot be passed over stops.
pub open spec fn skips_stop(
    data: Seq<u8>,
    pos: int,
    value_type: u32,
    depth: nat,
    n: nat,
) -> int
    decreases 9 - depth, n + 1,
{
    if n == 0 {
        pos
    } else {
        match skips_at(data, pos, value_type, depth, (n - 1) as nat) {
            Err(_) => skips_stop(data, pos, value_type, depth, (n - 1) as nat),
            Ok(p) => skip_stop(data, p, value_type, depth),
        }
    }
}

/// Keys whose values are kept: the others belong to nobody here, and may be large.
pub open spec fn kept_key(key: Seq<char>) -> bool {
    ||| "general."@.is_prefix_of(key)
    ||| "ds4."@.is_prefix_of(key)
    ||| "deepseek4."@.is_prefix_of(key)
    ||| "llama."@.is_prefix_of(key)
    ||| "tokenizer."@.is_prefix_of(key)
}

/// The metadata read so far.
#[verifier::ext_equal]
pub struct Metadata {
    pub kv: Map<Seq<char>, ValueView>,
    pub alignment: u64,
}

/// The metadata with one more pair. `general.alignment` sets the alignment if it is a positive
/// `Uint32`.
pub open spec fn with_pair(m: Metadata, key: Seq<char>, value: ValueView) -> Metadata {
    Metadata {
        kv: m.kv.insert(key, value),
        alignment: match value {
            ValueView::Uint32(a) => if key == "general.alignment"@ && a > 0 {
                a as u64
            } else {
                m.alignment
            },
            _ => m.alignment,
        },
    }
}

/// The metadata after reading one more pair at `pos`.
pub open spec fn pair_at(data: Seq<u8>, pos: int, m: Metadata) -> Read<Metadata> {
    match text_at(data, pos) {
        Err(e) => Err(e),
        Ok((key, p)) => match number_at(data, p, 4) {
            Err(e) => Err(e),
            Ok((t, q)) => if kept_key(key) {
                match value_at(data, q, t as u32, 0) {
                    Err(e) => Err(e),
                    Ok((v, r)) => Ok((with_pair(m, key, v), r)),
                }
            } else {
                match skip_at(data, q, t as u32, 0) {
                    Err(e) => Err(e),
                    Ok(r) => Ok((m, r)),
                }
            },
        },
    }
}

/// The metadata of `n` pairs at `pos`. A later pair replaces an earlier one with its key.
pub open spec fn pairs_at(data: Seq<u8>, pos: int, n: nat) -> Read<Metadata>
    decreases n,
{
    if n == 0 {
        Ok((Metadata { kv: Map::empty(), alignment: 32 }, pos))
    } else {
        match pairs_at(data, pos, (n - 1) as nat) {
            Err(e) => Err(e),
            Ok((m, p)) => pair_at(data, p, m),
        }
    }
}

/// The product of the dimensions that are not zero.
pub open spec fn nonzero_product(dims: Seq<u64>) -> nat
    decreases dims.len(),
{
    if dims.len() == 0 {
        1
    } else if dims.last() == 0 {
        nonzero_product(dims.drop_last())
    } else {
        nonzero_product(dims.drop_last()) * dims.last() as nat
    }
}

/// The product of all dimensions.
pub open spec fn product(dims: Seq<u64>) -> nat
    decreases dims.len(),
{
    if dims.len() == 0 {
        1
    } else {
        product(dims.drop_last()) * dims.last() as nat
    }
}

/// `n` dimensions of the tensor called `name` at `pos`.
pub open spec fn dims_at(data: Seq<u8>, pos: int, n: nat, name: Seq<char>) -> Read<Seq<u64>>
    decreases n,
{
    if n == 0 {
        Ok((seq![], pos))
    } else {
        match dims_at(data, pos, (n - 1) as nat, name) {
            Err(e) => Err(e),
            Ok((dims, p)) => match number_at(data, p, 8) {
                Err(e) => Err(e),
                Ok((d, q)) => if nonzero_product(dims.push(d as u64)) > u64::MAX {
                    Err(GgufFault::ElementOverflow(name))
                } else {
                    Ok((dims.push(d as u64), q))
                },
            },
        }
    }
}

/// A tensor descriptor as it stands in the file.
pub struct TensorHead {
    pub name: Seq<char>,
    pub dims: Seq<u64>,
    pub tensor_type: u32,
    pub rel_offset: u64,
}

/// The bytes of a tensor's data: zero dimensions are passed over, and an unknown type, or a size
/// that does not fit, counts as no bytes.
pub open spec fn data_bytes(dims: Seq<u64>, tensor_type: u32) -> u64 {
    if known_type(tensor_type) && blocks_bytes(nonzero_product(dims), tensor_type) <= u64::MAX {
        blocks_bytes(nonzero_product(dims), tensor_type) as u64
    } else {
        0
    }
}

/// Whether the element count leaves room to round up to whole blocks.
pub open spec fn countable(dims: Seq<u64>, tensor_type: u32) -> bool {
    known_type(tensor_type) ==> nonzero_product(dims)
        + type_table()[tensor_type as int].block_elems <= u64::MAX
}

/// A tensor descriptor at `pos`.
pub open spec fn head_at(data: Seq<u8>, pos: int) -> Read<TensorHead> {
    match text_at(data, pos) {
        Err(e) => Err(e),
        Ok((name, p)) => match number_at(data, p, 4) {
            Err(e) => Err(e),
            Ok((ndim, q)) => if ndim == 0 || ndim > 8 {
                Err(GgufFault::UnsupportedDims(name, ndim as u32))
            } else {
                match dims_at(data, q, ndim, name) {
                    Err(e) => Err(e),
                    Ok((dims, r)) => match number_at(data, r, 4) {
                        Err(e) => Err(e),
                        Ok((t, s)) => match number_at(data, s, 8) {
                            Err(e) => Err(e),
                            Ok((off, u)) => if countable(dims, t as u32) {
                                Ok(
                                    (
                                        TensorHead {
                                            name,
                                            dims,
                                            tensor_type: t as u32,
                                            rel_offset: off as u64,
                                        },
                                        u,
                                    ),
                                )
                            } else {
                                Err(GgufFault::ElementOverflow(name))
                            },
                        },
                    },
                }
            },
        },
    }
}

/// `n` tensor descriptors at `pos`.
pub open spec fn heads_at(data: Seq<u8>, pos: int, n: nat) -> Read<Seq<TensorHead>>
    decreases n,
{
    if n == 0 {
        Ok((seq![], pos))
    } else {
        match heads_at(data, pos, (n - 1) as nat) {
            Err(e) => Err(e),
            Ok((hs, p)) => match head_at(data, p) {
                Err(e) => Err(e),
                Ok((h, q)) => Ok((hs.push(h), q)),
            },
        }
    }
}

/// The least position from `pos` on that has none of the bits of `alignment - 1`.
pub open spec fn align_up(pos: u64, alignment: u64) -> u64 {
    ((pos + alignment - 1) as u64) & !((alignment - 1) as u64)
}

/// What a tensor descriptor says.
pub struct TensorView {
    pub name: Seq<char>,
    pub ndim: u32,
    pub dims: Seq<u64>,
    pub tensor_type: u32,
    pub offset: u64,
    pub elements: u64,
    pub bytes: u64,
}

/// The descriptor of a tensor whose data section starts at `start`.
pub open spec fn placed(h: TensorHead, start: u64) -> TensorView {
    TensorView {
        name: h.name,
        ndim: h.dims.len() as u32,
        dims: h.dims,
        tensor_type: h.tensor_type,
        offset: (start + h.rel_offset) as u64,
        elements: product(h.dims) as u64,
        bytes: data_bytes(h.dims, h.tensor_type),
    }
}

/// What a GGUF image says.
#[verifier::ext_equal]
pub struct ImageView {
    pub version: u32,
    pub alignment: u64,
    pub tensor_data_offset: u64,
    pub kv: Map<Seq<char>, ValueView>,
    pub tensors: Seq<TensorView>,
}

/// The image made of the parts that were read, the last of which ends at `end`.
pub open spec fn assembled(version: u32, m: Metadata, hs: Seq<TensorHead>, end: int) -> Result<
    ImageView,
    GgufFault,
> {
    if end + m.alignment - 1 > u64::MAX {
        Err(GgufFault::PositionOverflow)
    } else {
        let start = align_up(end as u64, m.alignment);
        if exists|i: int| 0 <= i < hs.len() && start + (#[trigger] hs[i]).rel_offset > u64::MAX {
            Err(GgufFault::PositionOverflow)
        } else {
            Ok(
                ImageView {
                    version,
                    alignment: m.alignment,
                    tensor_data_offset: start,
                    kv: m.kv,
                    tensors: Seq::new(hs.len(), |i: int| placed(hs[i], start)),
                },
            )
        }
    }
}

/// What a byte sequence says as a GGUF image, or why it says nothing.
pub open spec fn image_of(data: Seq<u8>) -> Result<ImageView, GgufFault> {
    if data.len() < 40 {
        Err(GgufFault::TooSmall)
    } else {
        let magic = le_value(data.subrange(0, 4)) as u32;
        let version = le_value(data.subrange(4, 8)) as u32;
        let n_tensors = le_value(data.subrange(8, 16));
        let n_kv = le_value(data.subrange(16, 24));
        if magic != GGUF_MAGIC {
            Err(GgufFault::BadMagic(magic))
        } else if version < 2 || version > 3 {
            Err(GgufFault::UnsupportedVersion(version))
        } else {
            match pairs_at(data, 24, n_kv) {
                Err(e) => Err(e),
                Ok((m, p)) => match heads_at(data, p, n_tensors) {
                    Err(e) => Err(e),
                    Ok((hs, q)) => assembled(version, m, hs, q),
                },
            }
        }
    }
}

/// The bytes `GGUF`, as a little-endian number.
pub const GGUF_MAGIC: u32 = 0x46554747;

/// Read `n` bytes. The position moves behind them, and stays where they are not there.
pub fn read_bytes<'a>(data: &'a [u8], pos: &mut u64, n: u64) -> (r: Result<&'a [u8], GgufError>)
    ensures
        r is Err ==> *final(pos) == *old(pos),
        r matches Ok(b) ==> bytes_at(data@, *old(pos) as int, n as int) == Ok::<_, GgufFault>(
            (b@, *final(pos) as int),
        ),
        r matches Err(e) ==> bytes_at(data@, *old(pos) as int, n as int) == Err::<
            (Seq<u8>, int),
            GgufFault,
        >(e@),
{
    let len: u64 = data.len() as u64;
    if *pos > len || n > len - *pos {
        return Err(GgufError::UnexpectedEnd(*pos));
    }
    let b = slice_subrange(data, *pos as usize, (*pos + n) as usize);
    *pos = *pos + n;
    Ok(b)
}

fn read_number(data: &[u8], pos: &mut u64, n: u64) -> (r: Result<u64, GgufError>)
    requires
        n <= 8,
    ensures
        r is Err ==> *final(pos) == *old(pos),
        r matches Ok(v) ==> number_at(data@, *old(pos) as int, n as int) == Ok::<_, GgufFault>(
            (v as nat, *final(pos) as int),
        ),
        r matches Err(e) ==> number_at(data@, *old(pos) as int, n as int) == Err::<
            (nat, int),
            GgufFault,
        >(e@),
{
    match read_bytes(data, pos, n) {
        Err(e) => Err(e),
        Ok(b) => Ok(decode_le(b)),
    }
}

fn read_u32_le(data: &[u8], pos: &mut u64) -> (r: Result<u32, GgufError>)
    ensures
        r is Err ==> *final(pos) == *old(pos),
        r matches Ok(v) ==> number_at(data@, *old(pos) as int, 4) == Ok::<_, GgufFault>(
            (v as nat, *final(pos) as int),
        ),
        r matches Err(e) ==> number_at(data@, *old(pos) as int, 4) == Err::<(nat, int), GgufFault>(
            e@,
        ),
{
    match read_number(data, pos, 4) {
        Err(e) => Err(e),
        Ok(v) => {
            proof {
                lemma_number_bound(data@, *old(pos) as int, 4);
            }
            Ok(v as u32)
        },
    }
}

fn read_u64_le(data: &[u8], pos: &mut u64) -> (r: Result<u64, GgufError>)
    ensures
        r is Err ==> *final(pos) == *old(pos),
        r matches Ok(v) ==> number_at(data@, *old(pos) as int, 8) == Ok::<_, GgufFault>(
            (v as nat, *final(pos) as int),
        ),
        r matches Err(e) ==> number_at(data@, *old(pos) as int, 8) == Err::<(nat, int), GgufFault>(
            e@,
        ),
{
    read_number(data, pos, 8)
}

proof fn lemma_number_bound(data: Seq<u8>, pos: int, n: int)
    requires
        0 <= pos,
        0 <= n,
    ensures
        number_at(data, pos, n) matches Ok((v, p)) ==> v < byte_range(n as nat),
        byte_range(1) == 0x100,
        byte_range(2) == 0x1_0000,
        byte_range(4) == 0x1_0000_0000,
        byte_range(8) == 0x1_0000_0000_0000_0000,
{
    lemma_byte_range();
    if pos + n <= data.len() {
        lemma_le_value_bound(data.subrange(pos, pos + n));
    }
}

fn read_string(data: &[u8], pos: &mut u64) -> (r: Result<String, GgufError>)
    ensures
        *final(pos) == text_stop(data@, *old(pos) as int),
        r matches Ok(s) ==> text_at(data@, *old(pos) as int) == Ok::<_, GgufFault>(
            (s@, *final(pos) as int),
        ),
        r matches Err(e) ==> text_at(data@, *old(pos) as int) == Err::<
            (Seq<char>, int),
            GgufFault,
        >(e@),
{
    match read_u64_le(data, pos) {
        Err(e) => Err(e),
        Ok(len) => match read_bytes(data, pos, len) {
            Err(e) => Err(e),
            Ok(b) => Ok(from_utf8_lossy(b)),
        },
    }
}

fn advance(pos: &mut u64, n: u64) -> (r: Result<(), GgufError>)
    ensures
        r is Err ==> *final(pos) == *old(pos),
        r is Ok ==> ahead(*old(pos) as int, n as int) == Ok::<_, GgufFault>(*final(pos) as int),
        r matches Err(e) ==> ahead(*old(pos) as int, n as int) == Err::<int, GgufFault>(e@),
{
    if n > u64::MAX - *pos {
        return Err(GgufError::PositionOverflow);
    }
    *pos = *pos + n;
    Ok(())
}

fn fixed_size_of(value_type: u32) -> (r: u64)
    ensures
        r == fixed_size(value_type),
        r == 0 || r == 1 || r == 2 || r == 4 || r == 8,
{
    match value_type {
        0 | 1 | 7 => 1,
        2 | 3 => 2,
        4 | 5 | 6 => 4,
        10 | 11 | 12 => 8,
        _ => 0,
    }
}

/// A fault among the first `k` of `n` values that are passed over is the fault of them all.
proof fn lemma_skips_fault(
    data: Seq<u8>,
    pos: int,
    value_type: u32,
    depth: nat,
    k: nat,
    n: nat,
    e: GgufFault,
)
    requires
        k <= n,
        skips_at(data, pos, value_type, depth, k) == Err::<int, GgufFault>(e),
    ensures
        skips_at(data, pos, value_type, depth, n) == Err::<int, GgufFault>(e),
        skips_stop(data, pos, value_type, depth, n) == skips_stop(data, pos, value_type, depth, k),
    decreases n,
{
    if k < n {
        lemma_skips_fault(data, pos, value_type, depth, k, (n - 1) as nat, e);
    }
}

/// Pass over a metadata value of the given type inside `depth` arrays. Where that fails, the position
/// is left behind the parts that were there.
pub fn skip_gguf_value(data: &[u8], pos: &mut u64, value_type: u32, depth: u32) -> (r: Result<
    (),
    GgufError,
>)
    ensures
        *final(pos) == skip_stop(data@, *old(pos) as int, value_type, depth as nat),
        r is Ok ==> skip_at(data@, *old(pos) as int, value_type, depth as nat) == Ok::<
            int,
            GgufFault,
        >(*final(pos) as int),
        r matches Err(e) ==> skip_at(data@, *old(pos) as int, value_type, depth as nat) == Err::<
            int,
            GgufFault,
        >(e@),
    decreases 9 - depth,
{
    if depth > 8 {
        return Err(GgufError::NestingTooDeep);
    }
    let size: u64 = fixed_size_of(value_type);
    if size > 0 {
        return advance(pos, size);
    }
    if value_type == 8 {
        return match read_u64_le(data, pos) {
            Err(e) => Err(e),
            Ok(len) => advance(pos, len),
        };
    }
    if value_type != 9 {
        return Err(GgufError::UnknownValueType(value_type));
    }
    let elem_type: u32 = match read_u32_le(data, pos) {
        Err(e) => {
            return Err(e);
        },
        Ok(t) => t,
    };
    let len: u64 = match read_u64_le(data, pos) {
        Err(e) => {
            return Err(e);
        },
        Ok(n) => n,
    };
    let ghost start: int = *pos as int;
    let mut i: u64 = 0;
    while i < len
        invariant
            i <= len,
            depth <= 8,
            value_type == 9,
            skips_at(data@, start, elem_type, (depth + 1) as nat, i as nat) == Ok::<
                int,
                GgufFault,
            >(*pos as int),
            skips_stop(data@, start, elem_type, (depth + 1) as nat, i as nat) == *pos,
            skip_stop(data@, *old(pos) as int, value_type, depth as nat) == skips_stop(
                data@,
                start,
                elem_type,
                (depth + 1) as nat,
                len as nat,
            ),
            skip_at(data@, *old(pos) as int, value_type, depth as nat) == skips_at(
                data@,
                start,
                elem_type,
                (depth + 1) as nat,
                len as nat,
            ),
        decreases len - i,
    {
        match skip_gguf_value(data, pos, elem_type, depth + 1) {
            Err(e) => {
                proof {
                    lemma_skips_fault(
                        data@,
                        start,
                        elem_type,
                        (depth + 1) as nat,
                        (i + 1) as nat,
                        len as nat,
                        e@,
                    );
                }
                return Err(e);
            },
            Ok(_) => {},
        }
        i = i + 1;
    }
    Ok(())
}

/// A fault among the first `k` of `n` values is the fault of them all.
proof fn lemma_values_fault(
    data: Seq<u8>,
    pos: int,
    value_type: u32,
    depth: nat,
    k: nat,
    n: nat,
    e: GgufFault,
)
    requires
        k <= n,
        values_at(data, pos, value_type, depth, k) == Err::<(Seq<ValueView>, int), GgufFault>(e),
    ensures
        values_at(data, pos, value_type, depth, n) == Err::<(Seq<ValueView>, int), GgufFault>(e),
        values_stop(data, pos, value_type, depth, n) == values_stop(data, pos, value_type, depth, k),
    decreases n,
{
    if k < n {
        lemma_values_fault(data, pos, value_type, depth, k, (n - 1) as nat, e);
    }
}

/// A value of a fixed-size type from its number.
fn make_fixed(value_type: u32, n: u64) -> (v: GgufValue)
    requires
        fixed_size(value_type) > 0,
        n < byte_range(fixed_size(value_type)),
    ensures
        v@ == fixed_value(value_type, n as nat),
{
    match value_type {
        0 => GgufValue::Uint8(n as u8),
        1 => GgufValue::Int8(n as u8 as i8),
        2 => GgufValue::Uint16(n as u16),
        3 => GgufValue::Int16(n as u16 as i16),
        4 => GgufValue::Uint32(n as u32),
        5 => GgufValue::Int32(n as u32 as i32),
        6 => GgufValue::Float32(n as u32),
        7 => GgufValue::Bool(n != 0),
        10 => GgufValue::Uint64(n),
        11 => GgufValue::Int64(n as i64),
        _ => GgufValue::Float64(n),
    }
}

/// Read a metadata value of the given type inside `depth` arrays. Where that fails, the position is
/// left behind the parts that were there.
pub fn read_gguf_value(data: &[u8], pos: &mut u64, value_type: u32, depth: u32) -> (r: Result<
    GgufValue,
    GgufError,
>)
    ensures
        *final(pos) == value_stop(data@, *old(pos) as int, value_type, depth as nat),
        r matches Ok(v) ==> value_at(data@, *old(pos) as int, value_type, depth as nat) == Ok::<
            (ValueView, int),
            GgufFault,
        >((v@, *final(pos) as int)),
        r matches Err(e) ==> value_at(data@, *old(pos) as int, value_type, depth as nat) == Err::<
            (ValueView, int),
            GgufFault,
        >(e@),
    decreases 9 - depth,
{
    if depth > 8 {
        return Err(GgufError::NestingTooDeep);
    }
    let size: u64 = fixed_size_of(value_type);
    if size > 0 {
        return match read_number(data, pos, size) {
            Err(e) => Err(e),
            Ok(n) => {
                proof {
                    lemma_number_bound(data@, *old(pos) as int, size as int);
                }
                Ok(make_fixed(value_type, n))
            },
        };
    }
    if value_type == 8 {
        return match read_string(data, pos) {
            Err(e) => Err(e),
            Ok(s) => Ok(GgufValue::String(s)),
        };
    }
    if value_type != 9 {
        return Err(GgufError::UnknownValueType(value_type));
    }
    let elem_type: u32 = match read_u32_le(data, pos) {
        Err(e) => {
            return Err(e);
        },
        Ok(t) => t,
    };
    let len: u64 = match read_u64_le(data, pos) {
        Err(e) => {
            return Err(e);
        },
        Ok(n) => n,
    };
    let ghost start: int = *pos as int;
    let ghost all = values_at(data@, start, elem_type, (depth + 1) as nat, len as nat);
    let mut elements: Vec<GgufValue> = Vec::new();
    let mut i: u64 = 0;
    assert(Seq::new(elements@.len(), |k: int| elements@[k]@) =~= Seq::<ValueView>::empty());
    while i < len
        invariant
            i <= len,
            depth <= 8,
            value_type == 9,
            values_at(data@, start, elem_type, (depth + 1) as nat, i as nat) == Ok::<
                (Seq<ValueView>, int),
                GgufFault,
            >((Seq::new(elements@.len(), |k: int| elements@[k]@), *pos as int)),
            values_stop(data@, start, elem_type, (depth + 1) as nat, i as nat) == *pos,
            value_stop(data@, *old(pos) as int, value_type, depth as nat) == values_stop(
                data@,
                start,
                elem_type,
                (depth + 1) as nat,
                len as nat,
            ),
            all == values_at(data@, start, elem_type, (depth + 1) as nat, len as nat),
            all matches Err(e) ==> value_at(
                data@,
                *old(pos) as int,
                value_type,
                depth as nat,
            ) == Err::<(ValueView, int), GgufFault>(e),
        decreases len - i,
    {
        let ghost seen = Seq::new(elements@.len(), |k: int| elements@[k]@);
        match read_gguf_value(data, pos, elem_type, depth + 1) {
            Err(e) => {
                proof {
                    lemma_values_fault(
                        data@,
                        start,
                        elem_type,
                        (depth + 1) as nat,
                        (i + 1) as nat,
                        len as nat,
                        e@,
                    );
                }
                return Err(e);
            },
            Ok(v) => {
                elements.push(v);
                proof {
                    assert(Seq::new(elements@.len(), |k: int| elements@[k]@) =~= seen.push(v@));
                }
            },
        }
        i = i + 1;
    }
    let v = GgufValue::Array(GgufArray { element_type: elem_type, elements });
    proof {
        let seen = Seq::new(elements@.len(), |k: int| elements@[k]@);
        assert(v@->Array_1 =~= seen);
        assert(v@ == ValueView::Array(elem_type, seen));
    }
    Ok(v)
}

/// A tensor descriptor. `offset` is the absolute file offset of the tensor's data.
#[derive(Debug, Clone)]
pub struct GgufTensor {
    pub name: String,
    pub ndim: u32,
    pub dims: Vec<u64>,
    pub tensor_type: u32,
    pub offset: u64,
    pub elements: u64,
    pub bytes: u64,
}

impl View for GgufTensor {
    type V = TensorView;

    open spec fn view(&self) -> TensorView {
        TensorView {
            name: self.name@,
            ndim: self.ndim,
            dims: self.dims@,
            tensor_type: self.tensor_type,
            offset: self.offset,
            elements: self.elements,
            bytes: self.bytes,
        }
    }
}

/// Where each tensor name stands last.
pub open spec fn name_index(ts: Seq<TensorView>) -> Map<Seq<char>, usize>
    decreases ts.len(),
{
    if ts.len() == 0 {
        Map::empty()
    } else {
        name_index(ts.drop_last()).insert(ts.last().name, (ts.len() - 1) as usize)
    }
}

/// The views of a list of tensor descriptors.
pub open spec fn tensor_views(ts: Seq<GgufTensor>) -> Seq<TensorView> {
    Seq::new(ts.len(), |i: int| ts[i]@)
}

/// The views of the values of a metadata table.
pub open spec fn kv_views(kv: Map<Seq<char>, GgufValue>) -> Map<Seq<char>, ValueView> {
    kv.map_values(|v: GgufValue| v@)
}

/// A GGUF file: its image in memory, with the metadata and the tensor table read from it.
pub struct GgufModel<'a> {
    pub mmap: &'a [u8],
    pub version: u32,
    pub alignment: u64,
    pub tensor_data_offset: u64,
    pub kv: StringHashMap<GgufValue>,
    pub tensors: Vec<GgufTensor>,
    pub tensor_by_name: StringHashMap<usize>,
}

impl<'a> View for GgufModel<'a> {
    type V = ImageView;

    open spec fn view(&self) -> ImageView {
        ImageView {
            version: self.version,
            alignment: self.alignment,
            tensor_data_offset: self.tensor_data_offset,
            kv: kv_views(self.kv@),
            tensors: tensor_views(self.tensors@),
        }
    }
}

/// A tensor descriptor before its data section is known.
struct RawHead {
    name: String,
    dims: Vec<u64>,
    elements: u64,
    bytes: u64,
    tensor_type: u32,
    rel_offset: u64,
}

impl RawHead {
    spec fn head(&self) -> TensorHead {
        TensorHead {
            name: self.name@,
            dims: self.dims@,
            tensor_type: self.tensor_type,
            rel_offset: self.rel_offset,
        }
    }

    spec fn wf(&self) -> bool {
        &&& self.elements == product(self.dims@)
        &&& self.bytes == data_bytes(self.dims@, self.tensor_type)
        &&& self.dims@.len() <= 8
    }
}

spec fn heads(hs: Seq<RawHead>) -> Seq<TensorHead> {
    Seq::new(hs.len(), |i: int| hs[i].head())
}

fn is_kept_key(key: &str) -> (r: bool)
    ensures
        r == kept_key(key@),
{
    starts_with(key, "general.") || starts_with(key, "ds4.") || starts_with(key, "deepseek4.")
        || starts_with(key, "llama.") || starts_with(key, "tokenizer.")
}

/// A fault among the first `k` of `n` pairs is the fault of them all.
proof fn lemma_pairs_fault(data: Seq<u8>, pos: int, k: nat, n: nat, e: GgufFault)
    requires
        k <= n,
        pairs_at(data, pos, k) == Err::<(Metadata, int), GgufFault>(e),
    ensures
        pairs_at(data, pos, n) == Err::<(Metadata, int), GgufFault>(e),
    decreases n,
{
    if k < n {
        lemma_pairs_fault(data, pos, k, (n - 1) as nat, e);
    }
}

/// Read one metadata pair into the table.
fn read_pair(
    data: &[u8],
    pos: &mut u64,
    kv: &mut StringHashMap<GgufValue>,
    alignment: &mut u64,
) -> (r: Result<(), GgufError>)
    ensures
        r is Ok ==> pair_at(
            data@,
            *old(pos) as int,
            (Metadata { kv: kv_views(old(kv)@), alignment: *old(alignment) }),
        ) == Ok::<(Metadata, int), GgufFault>(
            (
                (Metadata { kv: kv_views(final(kv)@), alignment: *final(alignment) }),
                *final(pos) as int,
            ),
        ),
        r matches Err(e) ==> pair_at(
            data@,
            *old(pos) as int,
            (Metadata { kv: kv_views(old(kv)@), alignment: *old(alignment) }),
        ) == Err::<(Metadata, int), GgufFault>(e@),
{
    let key = match read_string(data, pos) {
        Err(e) => {
            return Err(e);
        },
        Ok(k) => k,
    };
    let value_type: u32 = match read_u32_le(data, pos) {
        Err(e) => {
            return Err(e);
        },
        Ok(t) => t,
    };
    if !is_kept_key(key.as_str()) {
        return skip_gguf_value(data, pos, value_type, 0);
    }
    let value = match read_gguf_value(data, pos, value_type, 0) {
        Err(e) => {
            return Err(e);
        },
        Ok(v) => v,
    };
    if str_eq(key.as_str(), "general.alignment") {
        if let GgufValue::Uint32(a) = &value {
            if *a > 0 {
                *alignment = *a as u64;
            }
        }
    }
    let ghost k = key@;
    let ghost v = value@;
    kv.insert(key, value);
    assert(kv_views(kv@) =~= kv_views(old(kv)@).insert(k, v));
    Ok(())
}

/// Read `n` metadata pairs.
fn read_pairs(data: &[u8], pos: &mut u64, n: u64) -> (r: Result<
    (StringHashMap<GgufValue>, u64),
    GgufError,
>)
    ensures
        r matches Ok((kv, alignment)) ==> pairs_at(data@, *old(pos) as int, n as nat) == Ok::<
            (Metadata, int),
            GgufFault,
        >(((Metadata { kv: kv_views(kv@), alignment }), *final(pos) as int)) && alignment > 0,
        r matches Err(e) ==> pairs_at(data@, *old(pos) as int, n as nat) == Err::<
            (Metadata, int),
            GgufFault,
        >(e@),
{
    let mut kv: StringHashMap<GgufValue> = StringHashMap::new();
    let mut alignment: u64 = 32;
    let mut i: u64 = 0;
    assert(kv_views(kv@) =~= Map::<Seq<char>, ValueView>::empty());
    while i < n
        invariant
            i <= n,
            alignment > 0,
            pairs_at(data@, *old(pos) as int, i as nat) == Ok::<(Metadata, int), GgufFault>(
                ((Metadata { kv: kv_views(kv@), alignment }), *pos as int),
            ),
        decreases n - i,
    {
        match read_pair(data, pos, &mut kv, &mut alignment) {
            Err(e) => {
                proof {
                    lemma_pairs_fault(data@, *old(pos) as int, (i + 1) as nat, n as nat, e@);
                }
                return Err(e);
            },
            Ok(_) => {},
        }
        i = i + 1;
    }
    Ok((kv, alignment))
}

/// A fault among the first `k` of `n` dimensions is the fault of them all.
proof fn lemma_dims_fault(
    data: Seq<u8>,
    pos: int,
    k: nat,
    n: nat,
    name: Seq<char>,
    e: GgufFault,
)
    requires
        k <= n,
        dims_at(data, pos, k, name) == Err::<(Seq<u64>, int), GgufFault>(e),
    ensures
        dims_at(data, pos, n, name) == Err::<(Seq<u64>, int), GgufFault>(e),
    decreases n,
{
    if k < n {
        lemma_dims_fault(data, pos, k, (n - 1) as nat, name, e);
    }
}

/// Read `n` dimensions. Gives them with the product of those that are not zero and the product
/// of all.
fn read_dims(data: &[u8], pos: &mut u64, n: u32, name: &String) -> (r: Result<
    (Vec<u64>, u64, u64),
    GgufError,
>)
    ensures
        r matches Ok((dims, nonzero, all)) ==> {
            &&& dims_at(data@, *old(pos) as int, n as nat, name@) == Ok::<
                (Seq<u64>, int),
                GgufFault,
            >((dims@, *final(pos) as int))
            &&& nonzero == nonzero_product(dims@)
            &&& all == product(dims@)
            &&& dims@.len() == n
        },
        r matches Err(e) ==> dims_at(data@, *old(pos) as int, n as nat, name@) == Err::<
            (Seq<u64>, int),
            GgufFault,
        >(e@),
{
    let mut dims: Vec<u64> = Vec::new();
    let mut nonzero: u64 = 1;
    let mut all: u64 = 1;
    let mut i: u32 = 0;
    while i < n
        invariant
            i <= n,
            dims@.len() == i,
            dims_at(data@, *old(pos) as int, i as nat, name@) == Ok::<(Seq<u64>, int), GgufFault>(
                (dims@, *pos as int),
            ),
            nonzero == nonzero_product(dims@),
            all == product(dims@),
            all == nonzero || all == 0,
        decreases n - i,
    {
        let ghost seen = dims@;
        match read_u64_le(data, pos) {
            Err(e) => {
                proof {
                    lemma_dims_fault(
                        data@,
                        *old(pos) as int,
                        (i + 1) as nat,
                        n as nat,
                        name@,
                        e@,
                    );
                }
                return Err(e);
            },
            Ok(d) => {
                proof {
                    assert(seen.push(d).drop_last() =~= seen);
                    assert(seen.push(d).last() == d);
                    assert(all * 0 == 0);
                    assert(0 * d == 0);
                }
                if d != 0 {
                    match nonzero.checked_mul(d) {
                        None => {
                            let e = GgufError::ElementOverflow(name.clone());
                            proof {
                                lemma_dims_fault(
                                    data@,
                                    *old(pos) as int,
                                    (i + 1) as nat,
                                    n as nat,
                                    name@,
                                    e@,
                                );
                            }
                            return Err(e);
                        },
                        Some(p) => {
                            nonzero = p;
                        },
                    }
                }
                if d == 0 {
                    all = 0;
                } else if all != 0 {
                    all = nonzero;
                }
                dims.push(d);
            },
        }
        i = i + 1;
    }
    Ok((dims, nonzero, all))
}

/// Read one tensor descriptor.
fn read_head(data: &[u8], pos: &mut u64) -> (r: Result<RawHead, GgufError>)
    ensures
        r matches Ok(h) ==> head_at(data@, *old(pos) as int) == Ok::<(TensorHead, int), GgufFault>(
            (h.head(), *final(pos) as int),
        ) && h.wf(),
        r matches Err(e) ==> head_at(data@, *old(pos) as int) == Err::<
            (TensorHead, int),
            GgufFault,
        >(e@),
{
    let name = match read_string(data, pos) {
        Err(e) => {
            return Err(e);
        },
        Ok(s) => s,
    };
    let ndim: u32 = match read_u32_le(data, pos) {
        Err(e) => {
            return Err(e);
        },
        Ok(n) => n,
    };
    if ndim == 0 || ndim > 8 {
        return Err(GgufError::UnsupportedDims(name, ndim));
    }
    let (dims, nonzero, elements) = match read_dims(data, pos, ndim, &name) {
        Err(e) => {
            return Err(e);
        },
        Ok(d) => d,
    };
    let tensor_type: u32 = match read_u32_le(data, pos) {
        Err(e) => {
            return Err(e);
        },
        Ok(t) => t,
    };
    let rel_offset: u64 = match read_u64_le(data, pos) {
        Err(e) => {
            return Err(e);
        },
        Ok(o) => o,
    };
    if let Some(info) = gguf_type_info(tensor_type) {
        if nonzero > u64::MAX - info.block_elems as u64 {
            return Err(GgufError::ElementOverflow(name));
        }
    }
    let bytes: u64 = match tensor_byte_size(nonzero, tensor_type) {
        Some(b) => b,
        None => 0,
    };
    Ok(RawHead { name, dims, elements, bytes, tensor_type, rel_offset })
}

/// A fault among the first `k` of `n` descriptors is the fault of them all.
proof fn lemma_heads_fault(data: Seq<u8>, pos: int, k: nat, n: nat, e: GgufFault)
    requires
        k <= n,
        heads_at(data, pos, k) == Err::<(Seq<TensorHead>, int), GgufFault>(e),
    ensures
        heads_at(data, pos, n) == Err::<(Seq<TensorHead>, int), GgufFault>(e),
    decreases n,
{
    if k < n {
        lemma_heads_fault(data, pos, k, (n - 1) as nat, e);
    }
}

/// Read `n` tensor descriptors.
fn read_heads(data: &[u8], pos: &mut u64, n: u64) -> (r: Result<Vec<RawHead>, GgufError>)
    ensures
        r matches Ok(hs) ==> {
            &&& heads_at(data@, *old(pos) as int, n as nat) == Ok::<
                (Seq<TensorHead>, int),
                GgufFault,
            >((heads(hs@), *final(pos) as int))
            &&& forall|i: int| 0 <= i < hs@.len() ==> (#[trigger] hs@[i]).wf()
        },
        r matches Err(e) ==> heads_at(data@, *old(pos) as int, n as nat) == Err::<
            (Seq<TensorHead>, int),
            GgufFault,
        >(e@),
{
    let mut hs: Vec<RawHead> = Vec::new();
    let mut i: u64 = 0;
    assert(heads(hs@) =~= Seq::<TensorHead>::empty());
    while i < n
        invariant
            i <= n,
            heads_at(data@, *old(pos) as int, i as nat) == Ok::<
                (Seq<TensorHead>, int),
                GgufFault,
            >((heads(hs@), *pos as int)),
            forall|i: int| 0 <= i < hs@.len() ==> (#[trigger] hs@[i]).wf(),
        decreases n - i,
    {
        let ghost seen = hs@;
        match read_head(data, pos) {
            Err(e) => {
                proof {
                    lemma_heads_fault(data@, *old(pos) as int, (i + 1) as nat, n as nat, e@);
                }
                return Err(e);
            },
            Ok(h) => {
                hs.push(h);
                proof {
                    assert(heads(hs@) =~= heads(seen).push(h.head()));
                }
            },
        }
        i = i + 1;
    }
    Ok(hs)
}

/// Give each tensor its place in the data section that starts at `start`.
fn place_tensors(hs: &Vec<RawHead>, start: u64) -> (r: Result<
    (Vec<GgufTensor>, StringHashMap<usize>),
    GgufError,
>)
    requires
        forall|i: int| 0 <= i < hs@.len() ==> (#[trigger] hs@[i]).wf(),
    ensures
        r is Err <==> exists|i: int|
            0 <= i < hs@.len() && start + (#[trigger] heads(hs@)[i]).rel_offset > u64::MAX,
        r matches Err(e) ==> e@ == GgufFault::PositionOverflow,
        r matches Ok((ts, index)) ==> {
            &&& tensor_views(ts@) == Seq::new(hs@.len(), |i: int| placed(heads(hs@)[i], start))
            &&& index@ == name_index(tensor_views(ts@))
        },
{
    let mut tensors: Vec<GgufTensor> = Vec::new();
    let mut index: StringHashMap<usize> = StringHashMap::new();
    let mut i: usize = 0;
    assert(tensor_views(tensors@) =~= Seq::new(0nat, |i: int| placed(heads(hs@)[i], start)));
    while i < hs.len()
        invariant
            i <= hs@.len(),
            forall|i: int| 0 <= i < hs@.len() ==> (#[trigger] hs@[i]).wf(),
            tensor_views(tensors@) == Seq::new(i as nat, |i: int| placed(heads(hs@)[i], start)),
            index@ == name_index(tensor_views(tensors@)),
            forall|k: int|
                0 <= k < i ==> start + (#[trigger] heads(hs@)[k]).rel_offset <= u64::MAX,
        decreases hs@.len() - i,
    {
        let h = &hs[i];
        assert(hs@[i as int].wf());
        assert(heads(hs@)[i as int] == h.head());
        if h.rel_offset > u64::MAX - start {
            return Err(GgufError::PositionOverflow);
        }
        let ghost seen = tensors@;
        let t = GgufTensor {
            name: h.name.clone(),
            ndim: h.dims.len() as u32,
            dims: h.dims.clone(),
            tensor_type: h.tensor_type,
            offset: start + h.rel_offset,
            elements: h.elements,
            bytes: h.bytes,
        };
        proof {
            assert(t.dims@ =~= h.dims@);
        }
        let ghost tv = t@;
        assert(tensor_views(seen).len() == i);
        assert(seen.len() == i);
        index.insert(t.name.clone(), i);
        tensors.push(t);
        proof {
            let views = tensor_views(tensors@);
            assert(views =~= tensor_views(seen).push(tv));
            assert(views.drop_last() =~= tensor_views(seen));
            assert(views =~= Seq::new((i + 1) as nat, |i: int| placed(heads(hs@)[i], start)));
        }
        i = i + 1;
    }
    Ok((tensors, index))
}

impl<'a> GgufModel<'a> {
    /// The name table finds the last tensor of each name.
    pub open spec fn wf(&self) -> bool {
        self.tensor_by_name@ == name_index(self@.tensors)
    }

    /// Read a GGUF image. The image is borrowed, so tensor data needs no copy.
    pub fn open(data: &'a [u8]) -> (r: Result<GgufModel<'a>, GgufError>)
        ensures
            r matches Ok(m) ==> m.wf() && m.mmap@ == data@ && image_of(data@) == Ok::<
                ImageView,
                GgufFault,
            >(m@),
            r matches Err(e) ==> image_of(data@) == Err::<ImageView, GgufFault>(e@),
    {
        if data.len() < 40 {
            return Err(GgufError::TooSmall);
        }
        proof {
            lemma_number_bound(data@, 0, 4);
            lemma_number_bound(data@, 4, 4);
        }
        let magic: u32 = decode_le(slice_subrange(data, 0, 4)) as u32;
        if magic != GGUF_MAGIC {
            return Err(GgufError::BadMagic(magic));
        }
        let version: u32 = decode_le(slice_subrange(data, 4, 8)) as u32;
        if version < 2 || version > 3 {
            return Err(GgufError::UnsupportedVersion(version));
        }
        let n_tensors: u64 = decode_le(slice_subrange(data, 8, 16));
        let n_kv: u64 = decode_le(slice_subrange(data, 16, 24));
        let mut pos: u64 = 24;
        let (kv, alignment) = match read_pairs(data, &mut pos, n_kv) {
            Err(e) => {
                return Err(e);
            },
            Ok(x) => x,
        };
        let hs = match read_heads(data, &mut pos, n_tensors) {
            Err(e) => {
                return Err(e);
            },
            Ok(x) => x,
        };
        let ghost m = Metadata { kv: kv_views(kv@), alignment };
        assert(image_of(data@) == assembled(version, m, heads(hs@), pos as int));
        if alignment - 1 > u64::MAX - pos {
            return Err(GgufError::PositionOverflow);
        }
        let start: u64 = (pos + (alignment - 1)) & !(alignment - 1);
        assert(start == align_up(pos, alignment));
        let (tensors, tensor_by_name) = match place_tensors(&hs, start) {
            Err(e) => {
                return Err(e);
            },
            Ok(x) => x,
        };
        Ok(
            GgufModel {
                mmap: data,
                version,
                alignment,
                tensor_data_offset: start,
                kv,
                tensors,
                tensor_by_name,
            },
        )
    }

    /// Get the tensor descriptor by name: the last one with that name.
    pub fn tensor(&self, name: &str) -> (r: Option<&GgufTensor>)
        requires
            self.wf(),
        ensures
            r is Some <==> name_index(self@.tensors).contains_key(name@),
            r matches Some(t) ==> t@ == last_named(self@.tensors, name@) && t.name@ == name@,
    {
        match self.tensor_by_name.get(name) {
            None => None,
            Some(i) => {
                assert(self.tensors.len() == self@.tensors.len());
                proof {
                    lemma_name_index(self@.tensors, name@);
                }
                Some(&self.tensors[*i])
            },
        }
    }

    /// Get raw tensor data as a byte slice: `None` if there is no such tensor, or if its data
    /// reaches past the end of the image.
    pub fn tensor_data(&self, name: &str) -> (r: Option<&'a [u8]>)
        requires
            self.wf(),
        ensures
            r is Some <==> {
                &&& name_index(self@.tensors).contains_key(name@)
                &&& data_end(last_named(self@.tensors, name@)) <= self.mmap@.len()
            },
            r matches Some(d) ==> d@ == self.mmap@.subrange(
                last_named(self@.tensors, name@).offset as int,
                data_end(last_named(self@.tensors, name@)),
            ),
    {
        match self.tensor(name) {
            None => None,
            Some(t) => {
                assert(self.tensors.len() == self@.tensors.len());
                proof {
                    lemma_name_index(self@.tensors, name@);
                }
                let len: u64 = self.mmap.len() as u64;
                if t.offset > len || t.bytes > len - t.offset {
                    return None;
                }
                Some(slice_subrange(self.mmap, t.offset as usize, (t.offset + t.bytes) as usize))
            },
        }
    }

    /// Get a string metadata value.
    pub fn get_string(&self, key: &str) -> (r: Option<&str>)
        ensures
            r is Some <==> self@.kv.contains_key(key@) && self@.kv[key@] is Text,
            r matches Some(s) ==> self@.kv[key@] == ValueView::Text(s@),
    {
        match self.kv.get(key) {
            Some(v) => match v {
                GgufValue::String(s) => Some(s.as_str()),
                _ => None,
            },
            None => None,
        }
    }

    /// Get a `u32` metadata value; of a `Uint64` the low 32 bits.
    pub fn get_u32(&self, key: &str) -> (r: Option<u32>)
        ensures
            r == lookup_u32(self@.kv, key@),
    {
        match self.kv.get(key) {
            Some(v) => match v {
                GgufValue::Uint32(x) => Some(*x),
                GgufValue::Uint64(x) => Some(*x as u32),
                _ => None,
            },
            None => None,
        }
    }

    /// Get a `u64` metadata value; a `Uint32` is widened.
    pub fn get_u64(&self, key: &str) -> (r: Option<u64>)
        ensures
            r == (if !self@.kv.contains_key(key@) {
                None
            } else {
                match self@.kv[key@] {
                    ValueView::Uint64(x) => Some(x),
                    ValueView::Uint32(x) => Some(x as u64),
                    _ => None,
                }
            }),
    {
        match self.kv.get(key) {
            Some(v) => match v {
                GgufValue::Uint64(x) => Some(*x),
                GgufValue::Uint32(x) => Some(*x as u64),
                _ => None,
            },
            None => None,
        }
    }

    /// Get an `i32` metadata value.
    pub fn get_i32(&self, key: &str) -> (r: Option<i32>)
        ensures
            r is Some <==> self@.kv.contains_key(key@) && self@.kv[key@] is Int32,
            r matches Some(x) ==> self@.kv[key@] == ValueView::Int32(x),
    {
        match self.kv.get(key) {
            Some(v) => match v {
                GgufValue::Int32(x) => Some(*x),
                _ => None,
            },
            None => None,
        }
    }

    /// Get a `bool` metadata value.
    pub fn get_bool(&self, key: &str) -> (r: Option<bool>)
        ensures
            r is Some <==> self@.kv.contains_key(key@) && self@.kv[key@] is Bool,
            r matches Some(x) ==> self@.kv[key@] == ValueView::Bool(x),
    {
        match self.kv.get(key) {
            Some(v) => match v {
                GgufValue::Bool(x) => Some(*x),
                _ => None,
            },
            None => None,
        }
    }

    /// Get the bit pattern of a 32-bit float metadata value.
    pub fn get_f32(&self, key: &str) -> (r: Option<u32>)
        ensures
            r is Some <==> self@.kv.contains_key(key@) && self@.kv[key@] is Float32,
            r matches Some(x) ==> self@.kv[key@] == ValueView::Float32(x),
    {
        match self.kv.get(key) {
            Some(v) => match v {
                GgufValue::Float32(x) => Some(*x),
                _ => None,
            },
            None => None,
        }
    }

    /// Get an array metadata value.
    pub fn get_array(&self, key: &str) -> (r: Option<&GgufArray>)
        ensures
            r is Some <==> self@.kv.contains_key(key@) && self@.kv[key@] is Array,
            r matches Some(a) ==> self@.kv[key@] == GgufValue::Array(*a)@,
    {
        match self.kv.get(key) {
            Some(v) => match v {
                GgufValue::Array(a) => Some(a),
                _ => None,
            },
            None => None,
        }
    }
}

/// The `u32` that a metadata table holds under a key.
pub open spec fn lookup_u32(kv: Map<Seq<char>, ValueView>, key: Seq<char>) -> Option<u32> {
    if !kv.contains_key(key) {
        None
    } else {
        match kv[key] {
            ValueView::Uint32(x) => Some(x),
            ValueView::Uint64(x) => Some(x as u32),
            _ => None,
        }
    }
}

/// The last tensor of a name.
pub open spec fn last_named(ts: Seq<TensorView>, name: Seq<char>) -> TensorView {
    ts[name_index(ts)[name] as int]
}

/// Where a tensor's data ends.
pub open spec fn data_end(t: TensorView) -> int {
    t.offset + t.bytes
}

/// The name table has a name exactly if some tensor has it, and gives the last such tensor.
pub proof fn lemma_name_index(ts: Seq<TensorView>, name: Seq<char>)
    requires
        ts.len() <= usize::MAX,
    ensures
        name_index(ts).contains_key(name) <==> exists|i: int|
            0 <= i < ts.len() && (#[trigger] ts[i]).name == name,
        name_index(ts).contains_key(name) ==> {
            let i = name_index(ts)[name] as int;
            &&& 0 <= i < ts.len()
            &&& ts[i].name == name
            &&& forall|k: int| i < k < ts.len() ==> (#[trigger] ts[k]).name != name
        },
    decreases ts.len(),
{
    if ts.len() > 0 {
        let front = ts.drop_last();
        lemma_name_index(front, name);
        assert forall|i: int| 0 <= i < front.len() implies front[i] == ts[i] by {}
        if name_index(front).contains_key(name) {
            assert(ts[name_index(front)[name] as int].name == name);
        }
        if ts.last().name == name {
            assert(ts[ts.len() - 1].name == name);
        }
        if exists|i: int| 0 <= i < ts.len() && (#[trigger] ts[i]).name == name {
            let i = choose|i: int| 0 <= i < ts.len() && (#[trigger] ts[i]).name == name;
            if i < front.len() {
                assert(front[i].name == name);
            }
        }
    }
}

/// How a metadata value is shown: as text, or as a float that is left to the caller to print.
pub enum Shown {
    Text(String),
    Float32(u32),
    Float64(u64),
}

/// The decimal text of an integer.
pub open spec fn signed_decimal(n: int) -> Seq<char> {
    if n < 0 {
        seq!['-'] + decimal((-n) as nat)
    } else {
        decimal(n as nat)
    }
}

/// The text a value is shown as, if it is no float.
pub open spec fn shown_text(v: ValueView) -> Seq<char> {
    match v {
        ValueView::Uint8(x) => decimal(x as nat),
        ValueView::Int8(x) => signed_decimal(x as int),
        ValueView::Uint16(x) => decimal(x as nat),
        ValueView::Int16(x) => signed_decimal(x as int),
        ValueView::Uint32(x) => decimal(x as nat),
        ValueView::Int32(x) => signed_decimal(x as int),
        ValueView::Bool(x) => if x {
            "true"@
        } else {
            "false"@
        },
        ValueView::Text(s) => "\""@ + s + "\""@,
        ValueView::Uint64(x) => decimal(x as nat),
        ValueView::Int64(x) => signed_decimal(x as int),
        ValueView::Array(_, vs) => "["@ + decimal(vs.len()) + " elements]"@,
        _ => seq![],
    }
}

fn push_signed(s: &mut String, n: i64)
    ensures
        final(s)@ == old(s)@ + signed_decimal(n as int),
{
    if n < 0 {
        push_char(s, '-');
        let m: u64 = (-(n as i128)) as u64;
        push_decimal(s, m);
        assert(s@ =~= old(s)@ + signed_decimal(n as int));
    } else {
        push_decimal(s, n as u64);
    }
}

impl GgufValue {
    /// How the value is shown: integers in decimal, strings in quotes, arrays by their length.
    pub fn shown(&self) -> (r: Shown)
        ensures
            r matches Shown::Text(s) ==> s@ == shown_text(self@),
            r matches Shown::Float32(x) ==> self@ == ValueView::Float32(x),
            r matches Shown::Float64(x) ==> self@ == ValueView::Float64(x),
            r is Text <==> !(self@ is Float32) && !(self@ is Float64),
    {
        let mut s = String::new();
        assert(s@ + shown_text(self@) =~= shown_text(self@));
        match self {
            GgufValue::Uint8(x) => push_decimal(&mut s, *x as u64),
            GgufValue::Int8(x) => push_signed(&mut s, *x as i64),
            GgufValue::Uint16(x) => push_decimal(&mut s, *x as u64),
            GgufValue::Int16(x) => push_signed(&mut s, *x as i64),
            GgufValue::Uint32(x) => push_decimal(&mut s, *x as u64),
            GgufValue::Int32(x) => push_signed(&mut s, *x as i64),
            GgufValue::Float32(x) => {
                return Shown::Float32(*x);
            },
            GgufValue::Bool(x) => s.append(
                if *x {
                    "true"
                } else {
                    "false"
                },
            ),
            GgufValue::String(t) => {
                s.append("\"");
                s.append(t.as_str());
                s.append("\"");
                assert(s@ =~= shown_text(self@));
            },
            GgufValue::Uint64(x) => push_decimal(&mut s, *x),
            GgufValue::Int64(x) => push_signed(&mut s, *x),
            GgufValue::Float64(x) => {
                return Shown::Float64(*x);
            },
            GgufValue::Array(a) => {
                s.append("[");
                push_decimal(&mut s, a.elements.len() as u64);
                s.append(" elements]");
                assert(s@ =~= shown_text(self@));
            },
        }
        Shown::Text(s)
    }
}

impl GgufValueType {
    /// The number of the type on disk.
    pub fn code(self) -> (c: u32)
        ensures
            c == type_code(self),
    {
        match self {
            GgufValueType::Uint8 => 0,
            GgufValueType::Int8 => 1,
            GgufValueType::Uint16 => 2,
            GgufValueType::Int16 => 3,
            GgufValueType::Uint32 => 4,
            GgufValueType::Int32 => 5,
            GgufValueType::Float32 => 6,
            GgufValueType::Bool => 7,
            GgufValueType::String => 8,
            GgufValueType::Array => 9,
            GgufValueType::Uint64 => 10,
            GgufValueType::Int64 => 11,
            GgufValueType::Float64 => 12,
        }
    }
}

/// The number of a value type on disk.
pub open spec fn type_code(t: GgufValueType) -> u32 {
    match t {
        GgufValueType::Uint8 => 0,
        GgufValueType::Int8 => 1,
        GgufValueType::Uint16 => 2,
        GgufValueType::Int16 => 3,
        GgufValueType::Uint32 => 4,
        GgufValueType::Int32 => 5,
        GgufValueType::Float32 => 6,
        GgufValueType::Bool => 7,
        GgufValueType::String => 8,
        GgufValueType::Array => 9,
        GgufValueType::Uint64 => 10,
        GgufValueType::Int64 => 11,
        GgufValueType::Float64 => 12,
    }
}

} // verus!
