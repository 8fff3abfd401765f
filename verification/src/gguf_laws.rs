//! Reading a GGUF image gives back what was written.
use crate::bytes::{
    byte_range, law_le_round_trip, le_bytes, lemma_byte_range, lemma_le_bytes_len,
    lemma_stands_at_concat, stands_at,
};
use crate::gguf::{
    assembled, countable, data_bytes, dims_at, fixed_size, head_at, heads_at, image_of, kept_key,
    nonzero_product, number_at, pairs_at, placed, product, skip_at, skip_stop, skips_at, skips_stop,
    text_at, value_at, value_stop, values_at, values_stop, with_pair, GgufFault, ImageView,
    Metadata, TensorHead, TensorView, ValueView, GGUF_MAGIC,
};
use crate::gguf_writer::{
    dims_bytes, head_bytes, heads_bytes, law_align_up, lemma_end_bound, lemma_heads_bytes_len,
    lemma_offset_bound, pair_bytes, pairs_bytes, text_bytes, value_bytes, value_code, values_bytes,
    zeros, TensorEntry, WriterView,
};
use vstd::prelude::*;
use vstd::utf8::{encode_utf8, encode_utf8_decode_utf8, encode_utf8_valid_utf8};

verus! {

/// A value that can be read back inside `depth` arrays: arrays are nested at most eight deep, and
/// the elements of each have the type that it declares.
pub open spec fn storable(v: ValueView, depth: nat) -> bool
    decreases v,
{
    &&& depth <= 8
    &&& match v {
        ValueView::Array(t, vs) => forall|i: int|
            0 <= i < vs.len() ==> value_code(#[trigger] vs[i]) == t && storable(vs[i], depth + 1),
        _ => true,
    }
}

proof fn lemma_number(data: Seq<u8>, pos: int, v: nat, n: nat)
    requires
        stands_at(data, pos, le_bytes(v, n)),
        v < byte_range(n),
    ensures
        number_at(data, pos, n as int) == Ok::<(nat, int), GgufFault>((v, pos + n)),
        le_bytes(v, n).len() == n,
{
    law_le_round_trip(v, n);
}

/// Reading a string gives back what was written.
pub proof fn law_text_round_trip(data: Seq<u8>, pos: int, s: Seq<char>)
    requires
        data.len() <= u64::MAX,
        stands_at(data, pos, text_bytes(s)),
    ensures
        text_at(data, pos) == Ok::<(Seq<char>, int), GgufFault>((s, pos + text_bytes(s).len())),
        number_at(data, pos, 8) == Ok::<(nat, int), GgufFault>((encode_utf8(s).len(), pos + 8)),
        text_bytes(s).len() == 8 + encode_utf8(s).len(),
{
    let b = encode_utf8(s);
    lemma_byte_range();
    lemma_le_bytes_len(b.len(), 8);
    lemma_stands_at_concat(data, pos, le_bytes(b.len(), 8), b);
    lemma_number(data, pos, b.len(), 8);
    encode_utf8_valid_utf8(s);
    encode_utf8_decode_utf8(s);
}

proof fn lemma_values_count(vs: Seq<ValueView>)
    ensures
        vs.len() <= values_bytes(vs).len(),
    decreases vs,
{
    if vs.len() > 0 {
        lemma_values_count(vs.drop_last());
        lemma_value_nonempty(vs.last());
    }
}

proof fn lemma_value_nonempty(v: ValueView)
    ensures
        value_bytes(v).len() >= 1,
{
    assert forall|x: nat, n: nat| #[trigger] le_bytes(x, n).len() == n by {
        lemma_le_bytes_len(x, n);
    }
}

/// Reading a metadata value gives back what was written, and passing over it ends behind it.
pub proof fn law_value_round_trip(data: Seq<u8>, pos: int, v: ValueView, depth: nat)
    requires
        data.len() <= u64::MAX,
        stands_at(data, pos, value_bytes(v)),
        storable(v, depth),
    ensures
        value_at(data, pos, value_code(v), depth) == Ok::<(ValueView, int), GgufFault>(
            (v, pos + value_bytes(v).len()),
        ),
        skip_at(data, pos, value_code(v), depth) == Ok::<int, GgufFault>(
            pos + value_bytes(v).len(),
        ),
    decreases v, 0nat,
{
    lemma_byte_range();
    match v {
        ValueView::Uint8(x) => {
            lemma_number(data, pos, x as nat, 1);
        },
        ValueView::Int8(x) => {
            lemma_number(data, pos, x as u8 as nat, 1);
            assert(x as u8 as i8 == x) by (bit_vector);
        },
        ValueView::Uint16(x) => {
            lemma_number(data, pos, x as nat, 2);
        },
        ValueView::Int16(x) => {
            lemma_number(data, pos, x as u16 as nat, 2);
            assert(x as u16 as i16 == x) by (bit_vector);
        },
        ValueView::Uint32(x) => {
            lemma_number(data, pos, x as nat, 4);
        },
        ValueView::Int32(x) => {
            lemma_number(data, pos, x as u32 as nat, 4);
            assert(x as u32 as i32 == x) by (bit_vector);
        },
        ValueView::Float32(x) => {
            lemma_number(data, pos, x as nat, 4);
        },
        ValueView::Bool(x) => {
            lemma_number(
                data,
                pos,
                if x {
                    1
                } else {
                    0
                },
                1,
            );
        },
        ValueView::Text(s) => {
            law_text_round_trip(data, pos, s);
        },
        ValueView::Uint64(x) => {
            lemma_number(data, pos, x as nat, 8);
        },
        ValueView::Int64(x) => {
            lemma_number(data, pos, x as u64 as nat, 8);
            assert(x as u64 as i64 == x) by (bit_vector);
        },
        ValueView::Float64(x) => {
            lemma_number(data, pos, x as nat, 8);
        },
        ValueView::Array(t, vs) => {
            let a = le_bytes(t as nat, 4);
            let b = le_bytes(vs.len(), 8);
            let c = values_bytes(vs);
            lemma_le_bytes_len(t as nat, 4);
            lemma_le_bytes_len(vs.len(), 8);
            lemma_stands_at_concat(data, pos, a + b, c);
            lemma_stands_at_concat(data, pos, a, b);
            lemma_values_count(vs);
            lemma_number(data, pos, t as nat, 4);
            lemma_number(data, pos + 4, vs.len(), 8);
            lemma_values_round_trip(data, pos + 12, vs, t, depth + 1);
        },
    }
}

proof fn lemma_values_round_trip(
    data: Seq<u8>,
    pos: int,
    vs: Seq<ValueView>,
    t: u32,
    depth: nat,
)
    requires
        data.len() <= u64::MAX,
        stands_at(data, pos, values_bytes(vs)),
        forall|i: int|
            0 <= i < vs.len() ==> value_code(#[trigger] vs[i]) == t && storable(vs[i], depth),
    ensures
        values_at(data, pos, t, depth, vs.len()) == Ok::<(Seq<ValueView>, int), GgufFault>(
            (vs, pos + values_bytes(vs).len()),
        ),
        skips_at(data, pos, t, depth, vs.len()) == Ok::<int, GgufFault>(
            pos + values_bytes(vs).len(),
        ),
    decreases vs, 0nat,
{
    if vs.len() == 0 {
        assert(vs =~= seq![]);
    } else {
        let front = vs.drop_last();
        lemma_stands_at_concat(data, pos, values_bytes(front), value_bytes(vs.last()));
        lemma_values_round_trip(data, pos, front, t, depth);
        assert(value_code(vs[vs.len() - 1]) == t);
        law_value_round_trip(data, pos + values_bytes(front).len(), vs.last(), depth);
        assert(front.push(vs.last()) =~= vs);
    }
}

/// The metadata that pairs amount to.
pub open spec fn metadata_of(kv: Seq<(Seq<char>, ValueView)>) -> Metadata
    decreases kv.len(),
{
    if kv.len() == 0 {
        Metadata { kv: Map::empty(), alignment: 32 }
    } else if kept_key(kv.last().0) {
        with_pair(metadata_of(kv.drop_last()), kv.last().0, kv.last().1)
    } else {
        metadata_of(kv.drop_last())
    }
}

/// Passing over a value moves as far as reading it, on any data: where the value can be read, it can
/// be passed over, and both end at the same position.
pub proof fn law_skip_moves_like_read(data: Seq<u8>, pos: int, value_type: u32, depth: nat)
    requires
        data.len() <= u64::MAX,
        0 <= pos,
    ensures
        value_at(data, pos, value_type, depth) matches Ok((v, p)) ==> pos <= p <= data.len()
            && skip_at(data, pos, value_type, depth) == Ok::<int, GgufFault>(p),
    decreases 9 - depth, 0nat,
{
    if depth <= 8 && fixed_size(value_type) == 0 && value_type == 9 {
        if let Ok((t, p)) = number_at(data, pos, 4) {
            if let Ok((len, q)) = number_at(data, p, 8) {
                lemma_skips_move_like_reads(data, q, t as u32, depth + 1, len);
            }
        }
    }
}

proof fn lemma_skips_move_like_reads(
    data: Seq<u8>,
    pos: int,
    value_type: u32,
    depth: nat,
    n: nat,
)
    requires
        data.len() <= u64::MAX,
        0 <= pos <= data.len(),
    ensures
        values_at(data, pos, value_type, depth, n) matches Ok((vs, p)) ==> pos <= p <= data.len()
            && skips_at(data, pos, value_type, depth, n) == Ok::<int, GgufFault>(p),
    decreases 9 - depth, n + 1,
{
    if n > 0 {
        lemma_skips_move_like_reads(data, pos, value_type, depth, (n - 1) as nat);
        if let Ok((vs, p)) = values_at(data, pos, value_type, depth, (n - 1) as nat) {
            law_skip_moves_like_read(data, p, value_type, depth);
        }
    }
}

/// Reading and passing over a value never move back. Where they succeed they stop behind the value,
/// and reading never leaves the data.
pub proof fn law_stops(data: Seq<u8>, pos: int, value_type: u32, depth: nat)
    requires
        0 <= pos,
    ensures
        pos <= value_stop(data, pos, value_type, depth),
        pos <= data.len() ==> value_stop(data, pos, value_type, depth) <= data.len(),
        value_at(data, pos, value_type, depth) matches Ok((v, p)) ==> value_stop(
            data,
            pos,
            value_type,
            depth,
        ) == p,
        pos <= skip_stop(data, pos, value_type, depth),
        skip_at(data, pos, value_type, depth) matches Ok(p) ==> skip_stop(
            data,
            pos,
            value_type,
            depth,
        ) == p,
    decreases 9 - depth, 0nat,
{
    if depth <= 8 && fixed_size(value_type) == 0 && value_type == 9 {
        if let Ok((t, p)) = number_at(data, pos, 4) {
            if let Ok((len, q)) = number_at(data, p, 8) {
                lemma_row_stops(data, q, t as u32, depth + 1, len);
            }
        }
    }
}

proof fn lemma_row_stops(data: Seq<u8>, pos: int, value_type: u32, depth: nat, n: nat)
    requires
        0 <= pos <= data.len(),
    ensures
        pos <= values_stop(data, pos, value_type, depth, n) <= data.len(),
        values_at(data, pos, value_type, depth, n) matches Ok((vs, p)) ==> values_stop(
            data,
            pos,
            value_type,
            depth,
            n,
        ) == p,
        pos <= skips_stop(data, pos, value_type, depth, n),
        skips_at(data, pos, value_type, depth, n) matches Ok(p) ==> skips_stop(
            data,
            pos,
            value_type,
            depth,
            n,
        ) == p,
    decreases 9 - depth, n + 1,
{
    if n > 0 {
        let m = (n - 1) as nat;
        lemma_row_stops(data, pos, value_type, depth, m);
        if let Ok((vs, p)) = values_at(data, pos, value_type, depth, m) {
            law_stops(data, p, value_type, depth);
        }
        if let Ok(p) = skips_at(data, pos, value_type, depth, m) {
            law_stops(data, p, value_type, depth);
        }
    }
}

/// Reading metadata pairs gives back the pairs whose keys are kept.
pub proof fn law_pairs_round_trip(data: Seq<u8>, pos: int, kv: Seq<(Seq<char>, ValueView)>)
    requires
        data.len() <= u64::MAX,
        stands_at(data, pos, pairs_bytes(kv)),
        forall|i: int| 0 <= i < kv.len() ==> storable((#[trigger] kv[i]).1, 0),
    ensures
        pairs_at(data, pos, kv.len()) == Ok::<(Metadata, int), GgufFault>(
            (metadata_of(kv), pos + pairs_bytes(kv).len()),
        ),
    decreases kv.len(),
{
    if kv.len() > 0 {
        let front = kv.drop_last();
        let (key, value) = kv.last();
        let p = pos + pairs_bytes(front).len();
        lemma_stands_at_concat(data, pos, pairs_bytes(front), pair_bytes(kv.last()));
        law_pairs_round_trip(data, pos, front);
        assert(storable(kv[kv.len() - 1].1, 0));
        let a = text_bytes(key);
        let b = le_bytes(value_code(value) as nat, 4);
        lemma_le_bytes_len(value_code(value) as nat, 4);
        lemma_byte_range();
        lemma_stands_at_concat(data, p, a + b, value_bytes(value));
        lemma_stands_at_concat(data, p, a, b);
        law_text_round_trip(data, p, key);
        lemma_number(data, p + a.len(), value_code(value) as nat, 4);
        law_value_round_trip(data, p + a.len() + 4, value, 0);
    }
}

/// The product of the nonzero dimensions never shrinks as dimensions are added.
proof fn lemma_nonzero_product_mono(dims: Seq<u64>)
    ensures
        nonzero_product(dims) >= 1,
        dims.len() > 0 ==> nonzero_product(dims.drop_last()) <= nonzero_product(dims),
    decreases dims.len(),
{
    if dims.len() > 0 {
        lemma_nonzero_product_mono(dims.drop_last());
        if dims.last() != 0 {
            let a: int = nonzero_product(dims.drop_last()) as int;
            let b: int = dims.last() as int;
            assert(a <= a * b) by (nonlinear_arith)
                requires
                    a >= 1,
                    b >= 1,
            ;
        }
    }
}

proof fn lemma_dims_round_trip(data: Seq<u8>, pos: int, dims: Seq<u64>, name: Seq<char>)
    requires
        stands_at(data, pos, dims_bytes(dims)),
        nonzero_product(dims) <= u64::MAX,
    ensures
        dims_at(data, pos, dims.len(), name) == Ok::<(Seq<u64>, int), GgufFault>(
            (dims, pos + dims_bytes(dims).len()),
        ),
    decreases dims.len(),
{
    if dims.len() == 0 {
        assert(dims =~= seq![]);
    } else {
        let front = dims.drop_last();
        lemma_nonzero_product_mono(dims);
        lemma_stands_at_concat(data, pos, dims_bytes(front), le_bytes(dims.last() as nat, 8));
        lemma_dims_round_trip(data, pos, front, name);
        lemma_byte_range();
        lemma_number(data, pos + dims_bytes(front).len(), dims.last() as nat, 8);
        assert(front.push(dims.last()) =~= dims);
    }
}

/// A tensor whose descriptor can be read back: one to eight dimensions, and an element count
/// that fits.
pub open spec fn describable(t: TensorEntry) -> bool {
    &&& 1 <= t.dims.len() <= 8
    &&& nonzero_product(t.dims) <= u64::MAX
    &&& countable(t.dims, t.tensor_type)
}

/// The descriptor that stands in the file for a tensor.
pub open spec fn head_of(t: TensorEntry, rel: u64) -> TensorHead {
    TensorHead { name: t.name, dims: t.dims, tensor_type: t.tensor_type, rel_offset: rel }
}

/// Reading a tensor descriptor gives back what was written.
pub proof fn law_head_round_trip(data: Seq<u8>, pos: int, t: TensorEntry, rel: u64)
    requires
        data.len() <= u64::MAX,
        stands_at(data, pos, head_bytes(t, rel as nat)),
        describable(t),
    ensures
        head_at(data, pos) == Ok::<(TensorHead, int), GgufFault>(
            (head_of(t, rel), pos + head_bytes(t, rel as nat).len()),
        ),
{
    let a = text_bytes(t.name);
    let n = t.dims.len() as u32 as nat;
    let b = le_bytes(n, 4);
    let c = dims_bytes(t.dims);
    let d = le_bytes(t.tensor_type as nat, 4);
    let e = le_bytes(rel as nat, 8);
    lemma_byte_range();
    lemma_le_bytes_len(n, 4);
    lemma_le_bytes_len(t.tensor_type as nat, 4);
    lemma_le_bytes_len(rel as nat, 8);
    lemma_stands_at_concat(data, pos, a + b + c + d, e);
    lemma_stands_at_concat(data, pos, a + b + c, d);
    lemma_stands_at_concat(data, pos, a + b, c);
    lemma_stands_at_concat(data, pos, a, b);
    law_text_round_trip(data, pos, t.name);
    lemma_number(data, pos + a.len(), n, 4);
    lemma_dims_round_trip(data, pos + a.len() + 4, t.dims, t.name);
    lemma_number(data, pos + a.len() + 4 + c.len(), t.tensor_type as nat, 4);
    lemma_number(data, pos + a.len() + 8 + c.len(), rel as nat, 8);
}

proof fn lemma_heads_round_trip(
    data: Seq<u8>,
    pos: int,
    ts: Seq<TensorEntry>,
    rels: Seq<u64>,
    n: nat,
)
    requires
        data.len() <= u64::MAX,
        n <= ts.len(),
        stands_at(data, pos, heads_bytes(ts, rels, n)),
        forall|i: int| 0 <= i < ts.len() ==> describable(#[trigger] ts[i]),
    ensures
        heads_at(data, pos, n) == Ok::<(Seq<TensorHead>, int), GgufFault>(
            (
                Seq::new(n, |i: int| head_of(ts[i], rels[i])),
                pos + heads_bytes(ts, rels, n).len(),
            ),
        ),
    decreases n,
{
    if n == 0 {
        assert(Seq::new(n, |i: int| head_of(ts[i], rels[i])) =~= seq![]);
    } else {
        let m = (n - 1) as nat;
        let front = heads_bytes(ts, rels, m);
        lemma_stands_at_concat(data, pos, front, head_bytes(ts[n - 1], rels[n - 1] as nat));
        lemma_heads_round_trip(data, pos, ts, rels, m);
        assert(describable(ts[n - 1]));
        law_head_round_trip(data, pos + front.len(), ts[n - 1], rels[n - 1]);
        assert(Seq::new(m, |i: int| head_of(ts[i], rels[i])).push(
            head_of(ts[n - 1], rels[n - 1]),
        ) =~= Seq::new(n, |i: int| head_of(ts[i], rels[i])));
    }
}

/// What a reader needs of a writer to get everything back: a version it knows, metadata values and
/// tensors that can be read back, an alignment that the metadata declares, and a file of at least
/// 40 bytes.
pub open spec fn readable(w: WriterView) -> bool {
    &&& w.fits()
    &&& 2 <= w.version <= 3
    &&& w.file().len() >= 40
    &&& forall|i: int| 0 <= i < w.kv.len() ==> storable((#[trigger] w.kv[i]).1, 0)
    &&& forall|i: int| 0 <= i < w.tensors.len() ==> describable(#[trigger] w.tensors[i])
    &&& metadata_of(w.kv).alignment == w.unit()
}

/// The descriptor that reading gives for a written tensor.
pub open spec fn read_back(w: WriterView, i: int) -> TensorView {
    let t = w.tensors[i];
    TensorView {
        name: t.name,
        ndim: t.dims.len() as u32,
        dims: t.dims,
        tensor_type: t.tensor_type,
        offset: w.offset(i),
        elements: product(t.dims) as u64,
        bytes: data_bytes(t.dims, t.tensor_type),
    }
}

proof fn lemma_section_len(w: WriterView, n: nat)
    requires
        w.fits(),
        n <= w.tensors.len(),
    ensures
        w.section(n).len() == w.end(n) - w.start(),
    decreases n,
{
    if n > 0 {
        lemma_section_len(w, (n - 1) as nat);
        lemma_offset_bound(w, (n - 1) as nat);
    }
}

/// The data of tensor `i` stands in the data section at its offset.
proof fn lemma_section_holds(w: WriterView, n: nat, i: int)
    requires
        w.fits(),
        0 <= i < n <= w.tensors.len(),
    ensures
        stands_at(w.section(n), w.offset(i) - w.start(), w.tensors[i].data),
    decreases n,
{
    let m = (n - 1) as nat;
    lemma_section_len(w, m);
    lemma_section_len(w, n);
    lemma_offset_bound(w, m);
    let front = w.section(m) + zeros((w.offset(m as int) - w.end(m)) as nat);
    let data = w.tensors[m as int].data;
    assert(w.section(n) =~= front + data);
    if i == m {
        assert(w.section(n).subrange(front.len() as int, (front.len() + data.len()) as int)
            =~= data);
    } else {
        lemma_section_holds(w, m, i);
        let at = w.offset(i) - w.start();
        let d = w.tensors[i].data;
        assert(w.section(n).subrange(at, at + d.len()) =~= w.section(m).subrange(
            at,
            at + d.len(),
        ));
    }
}

/// Reading a file that was written gives back its version, its metadata and its tensors, and the
/// data of each tensor stands at its offset.
pub proof fn law_file_round_trip(w: WriterView)
    requires
        readable(w),
    ensures
        image_of(w.file()) == Ok::<ImageView, GgufFault>(
            ImageView {
                version: w.version,
                alignment: w.unit(),
                tensor_data_offset: w.start(),
                kv: metadata_of(w.kv).kv,
                tensors: Seq::new(w.tensors.len(), |i: int| read_back(w, i)),
            },
        ),
        forall|i: int|
            0 <= i < w.tensors.len() ==> stands_at(
                w.file(),
                w.offset(i) as int,
                (#[trigger] w.tensors[i]).data,
            ),
{
    let data = w.file();
    let a = le_bytes(GGUF_MAGIC as nat, 4);
    let b = le_bytes(w.version as nat, 4);
    let c = le_bytes(w.tensors.len(), 8);
    let d = le_bytes(w.kv.len(), 8);
    let n = w.tensors.len();
    let pairs = pairs_bytes(w.kv);
    let hb = heads_bytes(w.tensors, w.rels(), n);
    let pad = zeros((w.start() - w.head_len()) as nat);
    let sec = w.section(n);
    lemma_byte_range();
    lemma_le_bytes_len(GGUF_MAGIC as nat, 4);
    lemma_le_bytes_len(w.version as nat, 4);
    lemma_le_bytes_len(n, 8);
    lemma_le_bytes_len(w.kv.len(), 8);
    lemma_heads_bytes_len(w.tensors, w.rels(), n);
    law_align_up(w.head_len() as u64, w.unit());
    lemma_section_len(w, n);
    lemma_end_bound(w, n);
    let h = w.header();
    assert(h.len() == 24);
    assert(data.len() == w.end(n));
    assert(data.subrange(0, data.len() as int) =~= data);
    assert(stands_at(data, 0, h + pairs + hb + pad + sec));
    lemma_stands_at_concat(data, 0, h + pairs + hb + pad, sec);
    lemma_stands_at_concat(data, 0, h + pairs + hb, pad);
    lemma_stands_at_concat(data, 0, h + pairs, hb);
    lemma_stands_at_concat(data, 0, h, pairs);
    lemma_stands_at_concat(data, 0, a + b + c, d);
    lemma_stands_at_concat(data, 0, a + b, c);
    lemma_stands_at_concat(data, 0, a, b);
    law_le_round_trip(GGUF_MAGIC as nat, 4);
    law_le_round_trip(w.version as nat, 4);
    law_le_round_trip(n, 8);
    law_le_round_trip(w.kv.len(), 8);
    law_pairs_round_trip(data, 24, w.kv);
    lemma_heads_round_trip(data, (24 + pairs.len()) as int, w.tensors, w.rels(), n);
    let hs = Seq::new(n, |i: int| head_of(w.tensors[i], w.rels()[i]));
    let m = metadata_of(w.kv);
    assert(image_of(data) == assembled(w.version, m, hs, w.head_len() as int));
    assert forall|i: int| 0 <= i < n implies w.start() + (#[trigger] hs[i]).rel_offset
        == w.offset(i) && placed(hs[i], w.start()) == read_back(w, i) by {
        lemma_offset_bound(w, i as nat);
    }
    assert(Seq::new(hs.len(), |i: int| placed(hs[i], w.start())) =~= Seq::new(
        n,
        |i: int| read_back(w, i),
    ));
    assert forall|i: int| 0 <= i < n implies stands_at(
        data,
        w.offset(i) as int,
        (#[trigger] w.tensors[i]).data,
    ) by {
        lemma_section_holds(w, n, i);
        lemma_offset_bound(w, i as nat);
        let at = w.offset(i) - w.start();
        let t = w.tensors[i].data;
        assert(data.subrange(w.offset(i) as int, w.offset(i) + t.len()) =~= sec.subrange(
            at,
            at + t.len(),
        ));
    }
}

} // verus!
