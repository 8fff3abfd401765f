//! What the file format promises, byte by byte: how a file begins, where the parts of a value, a
//! pair and a tensor's description stand, and what a reader refuses.
use crate::bytes::{law_le_round_trip, le_bytes, le_value, lemma_byte_range, lemma_le_bytes_len};
use crate::cli::{law_decimal_round_trip, number_of};
use crate::gguf::{
    bytes_at, data_bytes, fixed_size, fixed_value, head_at, image_of, kept_key, nonzero_product,
    number_at, product, shown_text, skip_at, text_at, type_code, value_at, with_pair, GgufFault,
    GgufValueType, ImageView, Metadata, TensorHead, ValueView,
};
use crate::gguf_writer::{
    dims_bytes, head_bytes, law_align_up, lemma_end_bound, pair_bytes, pairs_bytes, text_bytes, value_bytes, value_code,
    values_bytes, TensorEntry, WriterView,
};
use crate::text::decimal;
use vstd::prelude::*;
use vstd::utf8::encode_utf8;

verus! {

// Values

/// The code of each kind of value in a file, which is that of the type of the same name.
pub proof fn law_value_codes(
    a: u64,
    b: i64,
    c: bool,
    s: Seq<char>,
    t: u32,
    vs: Seq<ValueView>,
)
    ensures
        value_code(ValueView::Uint8(a as u8)) == 0 && type_code(GgufValueType::Uint8) == 0,
        value_code(ValueView::Int8(b as i8)) == 1 && type_code(GgufValueType::Int8) == 1,
        value_code(ValueView::Uint16(a as u16)) == 2 && type_code(GgufValueType::Uint16) == 2,
        value_code(ValueView::Int16(b as i16)) == 3 && type_code(GgufValueType::Int16) == 3,
        value_code(ValueView::Uint32(a as u32)) == 4 && type_code(GgufValueType::Uint32) == 4,
        value_code(ValueView::Int32(b as i32)) == 5 && type_code(GgufValueType::Int32) == 5,
        value_code(ValueView::Float32(a as u32)) == 6 && type_code(GgufValueType::Float32) == 6,
        value_code(ValueView::Bool(c)) == 7 && type_code(GgufValueType::Bool) == 7,
        value_code(ValueView::Text(s)) == 8 && type_code(GgufValueType::String) == 8,
        value_code(ValueView::Array(t, vs)) == 9 && type_code(GgufValueType::Array) == 9,
        value_code(ValueView::Uint64(a)) == 10 && type_code(GgufValueType::Uint64) == 10,
        value_code(ValueView::Int64(b)) == 11 && type_code(GgufValueType::Int64) == 11,
        value_code(ValueView::Float64(a)) == 12 && type_code(GgufValueType::Float64) == 12,
{
}

/// How many bytes each kind of value takes: as many as its number has, a text eight for its length
/// and then its own, and an array four for its type, eight for its length and then its items.
pub proof fn law_value_sizes(v: ValueView)
    ensures
        value_code(v) == 0 || value_code(v) == 1 || value_code(v) == 7 ==> value_bytes(v).len() == 1,
        value_code(v) == 2 || value_code(v) == 3 ==> value_bytes(v).len() == 2,
        value_code(v) == 4 || value_code(v) == 5 || value_code(v) == 6 ==> value_bytes(v).len() == 4,
        value_code(v) == 10 || value_code(v) == 11 || value_code(v) == 12 ==> value_bytes(v).len()
            == 8,
        v matches ValueView::Text(s) ==> value_bytes(v).len() == 8 + encode_utf8(s).len(),
        v matches ValueView::Array(t, vs) ==> value_bytes(v).len() == 12 + values_bytes(vs).len(),
        fixed_size(value_code(v)) == if v is Text || v is Array {
            0
        } else {
            value_bytes(v).len()
        },
{
    match v {
        ValueView::Uint8(x) => lemma_le_bytes_len(x as nat, 1),
        ValueView::Int8(x) => lemma_le_bytes_len(x as u8 as nat, 1),
        ValueView::Uint16(x) => lemma_le_bytes_len(x as nat, 2),
        ValueView::Int16(x) => lemma_le_bytes_len(x as u16 as nat, 2),
        ValueView::Uint32(x) => lemma_le_bytes_len(x as nat, 4),
        ValueView::Int32(x) => lemma_le_bytes_len(x as u32 as nat, 4),
        ValueView::Float32(x) => lemma_le_bytes_len(x as nat, 4),
        ValueView::Bool(x) => {
            lemma_le_bytes_len(1, 1);
            lemma_le_bytes_len(0, 1);
        },
        ValueView::Text(s) => lemma_le_bytes_len(encode_utf8(s).len(), 8),
        ValueView::Array(t, vs) => {
            lemma_le_bytes_len(t as nat, 4);
            lemma_le_bytes_len(vs.len(), 8);
        },
        ValueView::Uint64(x) => lemma_le_bytes_len(x as nat, 8),
        ValueView::Int64(x) => lemma_le_bytes_len(x as u64 as nat, 8),
        ValueView::Float64(x) => lemma_le_bytes_len(x as nat, 8),
    }
}

/// A text is written as the number of its bytes, in eight bytes, and these bytes.
pub proof fn law_text_layout(s: Seq<char>)
    requires
        encode_utf8(s).len() <= u64::MAX,
    ensures
        text_bytes(s).len() == 8 + encode_utf8(s).len(),
        le_value(text_bytes(s).take(8)) == encode_utf8(s).len(),
        text_bytes(s).skip(8) == encode_utf8(s),
{
    lemma_byte_range();
    law_le_round_trip(encode_utf8(s).len(), 8);
    assert(text_bytes(s).take(8) =~= le_bytes(encode_utf8(s).len(), 8));
    assert(text_bytes(s).skip(8) =~= encode_utf8(s));
}

/// An array is written as the type of its items, in four bytes, their number, in eight, and the
/// items, one behind the other.
pub proof fn law_array_layout(t: u32, vs: Seq<ValueView>, v: ValueView)
    requires
        vs.len() <= u64::MAX,
    ensures
        le_value(value_bytes(ValueView::Array(t, vs)).take(4)) == t,
        le_value(value_bytes(ValueView::Array(t, vs)).subrange(4, 12)) == vs.len(),
        value_bytes(ValueView::Array(t, vs)).skip(12) == values_bytes(vs),
        values_bytes(vs.push(v)) == values_bytes(vs) + value_bytes(v),
        values_bytes(Seq::<ValueView>::empty()).len() == 0,
{
    lemma_byte_range();
    law_le_round_trip(t as nat, 4);
    law_le_round_trip(vs.len(), 8);
    let b = value_bytes(ValueView::Array(t, vs));
    assert(b.take(4) =~= le_bytes(t as nat, 4));
    assert(b.subrange(4, 12) =~= le_bytes(vs.len(), 8));
    assert(b.skip(12) =~= values_bytes(vs));
    assert(vs.push(v).drop_last() =~= vs);
}

/// A pair is written as its key, the code of its value, in four bytes, and the value; pairs stand
/// one behind the other.
pub proof fn law_pair_layout(kv: Seq<(Seq<char>, ValueView)>, key: Seq<char>, v: ValueView)
    ensures
        ({
            let b = pair_bytes((key, v));
            let n = text_bytes(key).len() as int;
            &&& b.take(n) == text_bytes(key)
            &&& le_value(b.subrange(n, n + 4)) == value_code(v)
            &&& b.skip(n + 4) == value_bytes(v)
            &&& pairs_bytes(kv.push((key, v))) == pairs_bytes(kv) + b
        }),
        pairs_bytes(Seq::<(Seq<char>, ValueView)>::empty()).len() == 0,
{
    lemma_byte_range();
    law_le_round_trip(value_code(v) as nat, 4);
    let b = pair_bytes((key, v));
    let n = text_bytes(key).len() as int;
    assert(b.take(n) =~= text_bytes(key));
    assert(b.subrange(n, n + 4) =~= le_bytes(value_code(v) as nat, 4));
    assert(b.skip(n + 4) =~= value_bytes(v));
    assert(kv.push((key, v)).drop_last() =~= kv);
}

proof fn lemma_dims_len(dims: Seq<u64>)
    ensures
        dims_bytes(dims).len() == 8 * dims.len(),
    decreases dims.len(),
{
    if dims.len() > 0 {
        lemma_dims_len(dims.drop_last());
        lemma_le_bytes_len(dims.last() as nat, 8);
    }
}

proof fn lemma_dim_at(dims: Seq<u64>, i: int)
    requires
        0 <= i < dims.len(),
    ensures
        dims_bytes(dims).len() == 8 * dims.len(),
        dims_bytes(dims).subrange(8 * i, 8 * i + 8) == le_bytes(dims[i] as nat, 8),
    decreases dims.len(),
{
    lemma_dims_len(dims);
    let front = dims.drop_last();
    lemma_dims_len(front);
    lemma_le_bytes_len(dims.last() as nat, 8);
    if i == dims.len() - 1 {
        assert(dims_bytes(dims).subrange(8 * i, 8 * i + 8) =~= le_bytes(dims[i] as nat, 8));
    } else {
        lemma_dim_at(front, i);
        assert(dims_bytes(dims).subrange(8 * i, 8 * i + 8) =~= dims_bytes(front).subrange(
            8 * i,
            8 * i + 8,
        ));
    }
}

/// A tensor's description is its name, the number of its sizes in four bytes, its sizes in eight
/// bytes each, its type in four, and where its data begins in eight.
pub proof fn law_head_layout(t: TensorEntry, rel: u64, i: int)
    requires
        0 <= i < t.dims.len() <= u32::MAX,
    ensures
        ({
            let b = head_bytes(t, rel as nat);
            let n = text_bytes(t.name).len() as int;
            let k = t.dims.len() as int;
            &&& b.len() == n + 16 + 8 * k
            &&& b.take(n) == text_bytes(t.name)
            &&& le_value(b.subrange(n, n + 4)) == k
            &&& le_value(b.subrange(n + 4 + 8 * i, n + 12 + 8 * i)) == t.dims[i]
            &&& le_value(b.subrange(n + 4 + 8 * k, n + 8 + 8 * k)) == t.tensor_type
            &&& le_value(b.subrange(n + 8 + 8 * k, n + 16 + 8 * k)) == rel
        }),
{
    lemma_byte_range();
    let b = head_bytes(t, rel as nat);
    let n = text_bytes(t.name).len() as int;
    let k = t.dims.len() as int;
    law_le_round_trip(t.dims.len(), 4);
    law_le_round_trip(t.tensor_type as nat, 4);
    law_le_round_trip(rel as nat, 8);
    law_le_round_trip(t.dims[i] as nat, 8);
    lemma_dim_at(t.dims, i);
    assert(b.take(n) =~= text_bytes(t.name));
    assert(b.subrange(n, n + 4) =~= le_bytes(t.dims.len(), 4));
    assert(b.subrange(n + 4 + 8 * i, n + 12 + 8 * i) =~= dims_bytes(t.dims).subrange(
        8 * i,
        8 * i + 8,
    ));
    assert(b.subrange(n + 4 + 8 * k, n + 8 + 8 * k) =~= le_bytes(t.tensor_type as nat, 4));
    assert(b.subrange(n + 8 + 8 * k, n + 16 + 8 * k) =~= le_bytes(rel as nat, 8));
}

// Files

/// A file begins with the four letters of its format, the version in four bytes, and the numbers of
/// tensors and of pairs in eight bytes each; then the pairs follow.
pub proof fn law_file_begins(w: WriterView)
    requires
        w.kv.len() <= u64::MAX,
        w.tensors.len() <= u64::MAX,
    ensures
        w.file()[0] == 'G' as u8 && w.file()[1] == 'G' as u8 && w.file()[2] == 'U' as u8
            && w.file()[3] == 'F' as u8,
        le_value(w.file().subrange(4, 8)) == w.version,
        le_value(w.file().subrange(8, 16)) == w.tensors.len(),
        le_value(w.file().subrange(16, 24)) == w.kv.len(),
        w.file().subrange(24, 24 + pairs_bytes(w.kv).len() as int) == pairs_bytes(w.kv),
{
    lemma_byte_range();
    let magic = le_bytes(crate::gguf::GGUF_MAGIC as nat, 4);
    reveal_with_fuel(le_bytes, 5);
    assert(magic =~= seq![0x47u8, 0x47u8, 0x55u8, 0x46u8]);
    law_le_round_trip(w.version as nat, 4);
    law_le_round_trip(w.tensors.len(), 8);
    law_le_round_trip(w.kv.len(), 8);
    let h = w.header();
    assert(h.len() == 24);
    assert(w.file().subrange(4, 8) =~= le_bytes(w.version as nat, 4));
    assert(w.file().subrange(8, 16) =~= le_bytes(w.tensors.len(), 8));
    assert(w.file().subrange(16, 24) =~= le_bytes(w.kv.len(), 8));
    assert(w.file().subrange(24, 24 + pairs_bytes(w.kv).len() as int) =~= pairs_bytes(w.kv));
    assert(w.file()[0] == h[0] && h[0] == magic[0]);
    assert(w.file()[1] == h[1] && h[1] == magic[1]);
    assert(w.file()[2] == h[2] && h[2] == magic[2]);
    assert(w.file()[3] == h[3] && h[3] == magic[3]);
}

/// Four bytes as a number.
proof fn lemma_four(b: Seq<u8>)
    requires
        b.len() == 4,
    ensures
        le_value(b) == b[0] + 0x100 * b[1] + 0x1_0000 * b[2] + 0x100_0000 * b[3],
{
    reveal_with_fuel(le_value, 5);
    let c = b.drop_first();
    let d = c.drop_first();
    let e = d.drop_first();
    assert(e.drop_first() =~= seq![]);
    assert(c[0] == b[1] && d[0] == b[2] && e[0] == b[3]);
}

/// A reader refuses what has fewer than forty bytes, then what does not begin with the four letters,
/// then what has a version other than two or three.
pub proof fn law_refused_files(data: Seq<u8>)
    ensures
        data.len() < 40 ==> image_of(data) == Err::<ImageView, GgufFault>(GgufFault::TooSmall),
        data.len() >= 40 && data.take(4) != seq!['G' as u8, 'G' as u8, 'U' as u8, 'F' as u8]
            ==> image_of(data) == Err::<ImageView, GgufFault>(
            GgufFault::BadMagic(
                (data[0] + 0x100 * data[1] + 0x1_0000 * data[2] + 0x100_0000 * data[3]) as u32,
            ),
        ),
        data.len() >= 40 && data.take(4) == seq!['G' as u8, 'G' as u8, 'U' as u8, 'F' as u8]
            && le_value(data.subrange(4, 8)) != 2 && le_value(data.subrange(4, 8)) != 3 ==> image_of(
            data,
        ) == Err::<ImageView, GgufFault>(
            GgufFault::UnsupportedVersion(le_value(data.subrange(4, 8)) as u32),
        ),
        image_of(data) matches Ok(m) ==> data.take(4) == seq![
            'G' as u8,
            'G' as u8,
            'U' as u8,
            'F' as u8,
        ] && m.version == le_value(data.subrange(4, 8)) && (m.version == 2 || m.version == 3),
{
    let g = seq![0x47u8, 0x47u8, 0x55u8, 0x46u8];
    assert('G' as u8 == 0x47 && 'U' as u8 == 0x55 && 'F' as u8 == 0x46);
    if data.len() >= 40 {
        lemma_four(data.subrange(0, 4));
        lemma_four(data.subrange(4, 8));
        assert(data.take(4) =~= data.subrange(0, 4));
        assert(data.take(4) == g <==> le_value(data.subrange(0, 4)) == 0x4655_4747) by {
            let b = data.take(4);
            if le_value(b) == 0x4655_4747 {
                assert(b =~= g);
            }
            if b == g {
                assert(b[0] == 0x47 && b[1] == 0x47 && b[2] == 0x55 && b[3] == 0x46);
            }
        }
    }
}

/// A key is kept where it begins with one of five words and a dot.
pub proof fn law_kept_keys(key: Seq<char>, rest: Seq<char>)
    ensures
        kept_key("general."@ + rest),
        kept_key("ds4."@ + rest),
        kept_key("deepseek4."@ + rest),
        kept_key("llama."@ + rest),
        kept_key("tokenizer."@ + rest),
        kept_key(key) ==> exists|r: Seq<char>|
            key == "general."@ + r || key == "ds4."@ + r || key == "deepseek4."@ + r || key
                == "llama."@ + r || key == "tokenizer."@ + r,
{
    lemma_prefix("general."@, key, rest);
    lemma_prefix("ds4."@, key, rest);
    lemma_prefix("deepseek4."@, key, rest);
    lemma_prefix("llama."@, key, rest);
    lemma_prefix("tokenizer."@, key, rest);
}

proof fn lemma_prefix(p: Seq<char>, key: Seq<char>, rest: Seq<char>)
    ensures
        p.is_prefix_of(p + rest),
        p.is_prefix_of(key) ==> key == p + key.skip(p.len() as int),
{
    assert((p + rest).subrange(0, p.len() as int) =~= p);
    if p.is_prefix_of(key) {
        assert(key =~= p + key.skip(p.len() as int));
    }
}

/// A pair is found under its key and leaves the others as they are. It sets the alignment where its
/// key is the one for that and its value a number other than zero in 32 bits.
pub proof fn law_pair_is_kept(m: Metadata, key: Seq<char>, v: ValueView, other: Seq<char>, a: u32)
    ensures
        with_pair(m, key, v).kv.contains_key(key) && with_pair(m, key, v).kv[key] == v,
        other != key ==> (with_pair(m, key, v).kv.contains_key(other) <==> m.kv.contains_key(other))
            && with_pair(m, key, v).kv[other] == m.kv[other],
        key != "general.alignment"@ || !(v is Uint32) ==> with_pair(m, key, v).alignment
            == m.alignment,
        a > 0 ==> with_pair(m, "general.alignment"@, ValueView::Uint32(a)).alignment == a,
        with_pair(m, "general.alignment"@, ValueView::Uint32(0)).alignment == m.alignment,
{
}

/// A number past the last code is no type, and values nest eight deep and no deeper.
pub proof fn law_refused_values(data: Seq<u8>, pos: int, value_type: u32, depth: nat)
    ensures
        depth > 8 ==> value_at(data, pos, value_type, depth) == Err::<(ValueView, int), GgufFault>(
            GgufFault::NestingTooDeep,
        ) && skip_at(data, pos, value_type, depth) == Err::<int, GgufFault>(
            GgufFault::NestingTooDeep,
        ),
        depth <= 8 && value_type > 12 ==> value_at(data, pos, value_type, depth) == Err::<
            (ValueView, int),
            GgufFault,
        >(GgufFault::UnknownValueType(value_type)) && skip_at(data, pos, value_type, depth) == Err::<
            int,
            GgufFault,
        >(GgufFault::UnknownValueType(value_type)),
        depth <= 8 && value_type < 8 && pos + 4 <= data.len() ==> value_at(
            data,
            pos,
            value_type,
            depth,
        ) is Ok,
        depth <= 8 && value_type < 8 && pos + 1 > data.len() ==> value_at(
            data,
            pos,
            value_type,
            depth,
        ) == Err::<(ValueView, int), GgufFault>(GgufFault::UnexpectedEnd(pos)),
{
}

/// A number of bytes is read where they all are there, and otherwise the place where they were to
/// begin is where the file ends too early.
pub proof fn law_bytes_read(data: Seq<u8>, pos: int, n: int)
    requires
        0 <= pos,
        0 <= n,
    ensures
        pos + n <= data.len() ==> bytes_at(data, pos, n) == Ok::<(Seq<u8>, int), GgufFault>(
            (Seq::new(n as nat, |i: int| data[pos + i]), pos + n),
        ),
        pos + n > data.len() ==> bytes_at(data, pos, n) == Err::<(Seq<u8>, int), GgufFault>(
            GgufFault::UnexpectedEnd(pos),
        ),
{
    if pos + n <= data.len() {
        assert(data.subrange(pos, pos + n) =~= Seq::new(n as nat, |i: int| data[pos + i]));
    }
}

/// What the numbers of a file mean: a truth value is false at zero only, and a signed number is the
/// unsigned one, less all that its bytes can count where the highest bit is set.
pub proof fn law_fixed_values(n: nat)
    ensures
        fixed_value(7, n) == ValueView::Bool(n != 0),
        n < 0x100 ==> fixed_value(0, n) == ValueView::Uint8(n as u8) && fixed_value(1, n)
            == ValueView::Int8((n - if n >= 0x80 {
            0x100int
        } else {
            0
        }) as i8),
        n < 0x1_0000 ==> fixed_value(2, n) == ValueView::Uint16(n as u16) && fixed_value(3, n)
            == ValueView::Int16((n - if n >= 0x8000 {
            0x1_0000int
        } else {
            0
        }) as i16),
        n < 0x1_0000_0000 ==> fixed_value(4, n) == ValueView::Uint32(n as u32) && fixed_value(6, n)
            == ValueView::Float32(n as u32) && fixed_value(5, n) == ValueView::Int32((n - if n
            >= 0x8000_0000 {
            0x1_0000_0000int
        } else {
            0
        }) as i32),
        n < 0x1_0000_0000_0000_0000 ==> fixed_value(10, n) == ValueView::Uint64(n as u64)
            && fixed_value(12, n) == ValueView::Float64(n as u64) && fixed_value(11, n)
            == ValueView::Int64((n - if n >= 0x8000_0000_0000_0000 {
            0x1_0000_0000_0000_0000int
        } else {
            0
        }) as i64),
{
    let (a, b, c, d) = (n as u8, n as u16, n as u32, n as u64);
    assert((a as i8) as i32 == a as i32 - if a >= 0x80 {
        0x100i32
    } else {
        0
    }) by (bit_vector);
    assert((b as i16) as i32 == b as i32 - if b >= 0x8000 {
        0x1_0000i32
    } else {
        0
    }) by (bit_vector);
    assert((c as i32) as i64 == c as i64 - if c >= 0x8000_0000 {
        0x1_0000_0000i64
    } else {
        0
    }) by (bit_vector);
    assert((d as i64) as i128 == d as i128 - if d >= 0x8000_0000_0000_0000 {
        0x1_0000_0000_0000_0000i128
    } else {
        0
    }) by (bit_vector);
}

/// The elements of a tensor are the product of its sizes. For its bytes, sizes of zero are passed
/// over; a type that is not known takes none.
pub proof fn law_sizes_multiply(dims: Seq<u64>, n: u64, tensor_type: u32)
    ensures
        product(Seq::<u64>::empty()) == 1 && nonzero_product(Seq::<u64>::empty()) == 1,
        product(dims.push(n)) == product(dims) * n,
        n != 0 ==> nonzero_product(dims.push(n)) == nonzero_product(dims) * n,
        nonzero_product(dims.push(0)) == nonzero_product(dims),
        tensor_type > 30 || tensor_type == 4 || tensor_type == 5 ==> data_bytes(dims, tensor_type)
            == 0,
{
    assert(dims.push(n).drop_last() =~= dims);
    assert(dims.push(0).drop_last() =~= dims);
}

/// A description with no sizes, or with more than eight, is refused by its name and their number.
pub proof fn law_refused_heads(data: Seq<u8>, pos: int, name: Seq<char>, p: int, n: nat, q: int)
    requires
        text_at(data, pos) == Ok::<(Seq<char>, int), GgufFault>((name, p)),
        number_at(data, p, 4) == Ok::<(nat, int), GgufFault>((n, q)),
    ensures
        n == 0 || n > 8 ==> head_at(data, pos) == Err::<(TensorHead, int), GgufFault>(
            GgufFault::UnsupportedDims(name, n as u32),
        ),
        1 <= n <= 8 ==> head_at(data, pos) != Err::<(TensorHead, int), GgufFault>(
            GgufFault::UnsupportedDims(name, n as u32),
        ),
{
    if 1 <= n <= 8 {
        lemma_dims_fault(data, q, n, name);
    }
}

proof fn lemma_dims_fault(data: Seq<u8>, pos: int, n: nat, name: Seq<char>)
    ensures
        crate::gguf::dims_at(data, pos, n, name) matches Err(e) ==> e is ElementOverflow
            || e is UnexpectedEnd,
    decreases n,
{
    if n > 0 {
        lemma_dims_fault(data, pos, (n - 1) as nat, name);
    }
}

// Values in words

/// A number is shown in decimal, a negative one behind a minus sign, a truth value by its name, a
/// text in quotes, and an array by the number of its items.
pub proof fn law_shown(x: u64, y: i64, s: Seq<char>, t: u32, vs: Seq<ValueView>)
    ensures
        number_of(shown_text(ValueView::Uint8(x as u8)), 0xff) == Some((x as u8) as nat),
        number_of(shown_text(ValueView::Uint16(x as u16)), 0xffff) == Some((x as u16) as nat),
        number_of(shown_text(ValueView::Uint32(x as u32)), 0xffff_ffff) == Some((x as u32) as nat),
        number_of(shown_text(ValueView::Uint64(x)), u64::MAX as nat) == Some(x as nat),
        y >= 0 ==> number_of(shown_text(ValueView::Int64(y)), u64::MAX as nat) == Some(y as nat),
        y < 0 ==> shown_text(ValueView::Int64(y))[0] == '-' && number_of(
            shown_text(ValueView::Int64(y)).skip(1),
            u64::MAX as nat,
        ) == Some((-y) as nat),
        i32::MIN <= y <= i32::MAX ==> shown_text(ValueView::Int32(y as i32)) == shown_text(
            ValueView::Int64(y),
        ),
        i16::MIN <= y <= i16::MAX ==> shown_text(ValueView::Int16(y as i16)) == shown_text(
            ValueView::Int64(y),
        ),
        i8::MIN <= y <= i8::MAX ==> shown_text(ValueView::Int8(y as i8)) == shown_text(
            ValueView::Int64(y),
        ),
        shown_text(ValueView::Bool(true)) == "true"@,
        shown_text(ValueView::Bool(false)) == "false"@,
        shown_text(ValueView::Text(s)) == seq!['"'] + s + seq!['"'],
        shown_text(ValueView::Array(t, vs)) == seq!['['] + decimal(vs.len()) + " elements]"@,
{
    law_decimal_round_trip((x as u8) as nat, 0xff);
    law_decimal_round_trip((x as u16) as nat, 0xffff);
    law_decimal_round_trip((x as u32) as nat, 0xffff_ffff);
    law_decimal_round_trip(x as nat, u64::MAX as nat);
    if y >= 0 {
        law_decimal_round_trip(y as nat, u64::MAX as nat);
    } else {
        law_decimal_round_trip((-y) as nat, u64::MAX as nat);
        let d = decimal((-y) as nat);
        assert((seq!['-'] + d).skip(1) =~= d);
    }
    reveal_strlit("\"");
    reveal_strlit("[");
    assert("\""@ =~= seq!['"']);
    assert("["@ =~= seq!['[']);
}

/// Data is aligned to what is asked for, but to no less than 32 bytes: a tensor's data begins at the
/// first aligned place behind what stands before it.
pub proof fn law_alignment(w: WriterView, i: int)
    requires
        w.fits(),
        0 <= i < w.tensors.len(),
    ensures
        w.alignment >= 32 ==> w.unit() == w.alignment,
        w.alignment < 32 ==> w.unit() == 32,
        w.offset(i) & ((w.unit() - 1) as u64) == 0,
        w.start() & ((w.unit() - 1) as u64) == 0,
        w.end(0) == w.start(),
        w.end((i + 1) as nat) == w.offset(i) + w.tensors[i].data.len(),
{
    assert(w.end(i as nat) + w.unit() - 1 <= u64::MAX);
    lemma_end_bound(w, i as nat);
    law_align_up(w.end(i as nat) as u64, w.unit());
    law_align_up(w.head_len() as u64, w.unit());
}

} // verus!
