//! Writing GGUF images.
use crate::bytes::{le_bytes, lemma_le_bytes_len, push_all, push_le, push_zeros};
use crate::gguf::{align_up, GgufError, GgufFault, GgufValue, ValueView, GGUF_MAGIC};
use vstd::prelude::*;
use vstd::utf8::encode_utf8;

verus! {

/// The bytes of a string: its length in eight bytes, and its UTF-8.
pub open spec fn text_bytes(s: Seq<char>) -> Seq<u8> {
    le_bytes(encode_utf8(s).len(), 8) + encode_utf8(s)
}

/// The type number of a value.
pub open spec fn value_code(v: ValueView) -> u32 {
    match v {
        ValueView::Uint8(_) => 0,
        ValueView::Int8(_) => 1,
        ValueView::Uint16(_) => 2,
        ValueView::Int16(_) => 3,
        ValueView::Uint32(_) => 4,
        ValueView::Int32(_) => 5,
        ValueView::Float32(_) => 6,
        ValueView::Bool(_) => 7,
        ValueView::Text(_) => 8,
        ValueView::Array(_, _) => 9,
        ValueView::Uint64(_) => 10,
        ValueView::Int64(_) => 11,
        ValueView::Float64(_) => 12,
    }
}

/// The bytes of a value.
pub open spec fn value_bytes(v: ValueView) -> Seq<u8>
    decreases v,
{
    match v {
        ValueView::Uint8(x) => le_bytes(x as nat, 1),
        ValueView::Int8(x) => le_bytes(x as u8 as nat, 1),
        ValueView::Uint16(x) => le_bytes(x as nat, 2),
        ValueView::Int16(x) => le_bytes(x as u16 as nat, 2),
        ValueView::Uint32(x) => le_bytes(x as nat, 4),
        ValueView::Int32(x) => le_bytes(x as u32 as nat, 4),
        ValueView::Float32(x) => le_bytes(x as nat, 4),
        ValueView::Bool(x) => le_bytes(
            if x {
                1
            } else {
                0
            },
            1,
        ),
        ValueView::Text(s) => text_bytes(s),
        ValueView::Array(t, vs) => le_bytes(t as nat, 4) + le_bytes(vs.len(), 8) + values_bytes(vs),
        ValueView::Uint64(x) => le_bytes(x as nat, 8),
        ValueView::Int64(x) => le_bytes(x as u64 as nat, 8),
        ValueView::Float64(x) => le_bytes(x as nat, 8),
    }
}

/// The bytes of values in a row.
pub open spec fn values_bytes(vs: Seq<ValueView>) -> Seq<u8>
    decreases vs,
{
    if vs.len() == 0 {
        seq![]
    } else {
        values_bytes(vs.drop_last()) + value_bytes(vs.last())
    }
}

/// A tensor to be written.
pub struct TensorEntry {
    pub name: Seq<char>,
    pub dims: Seq<u64>,
    pub tensor_type: u32,
    pub data: Seq<u8>,
}

/// What a writer has been given.
pub struct WriterView {
    pub version: u32,
    pub alignment: u64,
    pub kv: Seq<(Seq<char>, ValueView)>,
    pub tensors: Seq<TensorEntry>,
}

/// The bytes of a metadata pair.
pub open spec fn pair_bytes(p: (Seq<char>, ValueView)) -> Seq<u8> {
    text_bytes(p.0) + le_bytes(value_code(p.1) as nat, 4) + value_bytes(p.1)
}

/// The bytes of metadata pairs in a row.
pub open spec fn pairs_bytes(kv: Seq<(Seq<char>, ValueView)>) -> Seq<u8>
    decreases kv.len(),
{
    if kv.len() == 0 {
        seq![]
    } else {
        pairs_bytes(kv.drop_last()) + pair_bytes(kv.last())
    }
}

/// The bytes of dimensions in a row.
pub open spec fn dims_bytes(dims: Seq<u64>) -> Seq<u8>
    decreases dims.len(),
{
    if dims.len() == 0 {
        seq![]
    } else {
        dims_bytes(dims.drop_last()) + le_bytes(dims.last() as nat, 8)
    }
}

/// The bytes of a tensor descriptor whose data stands `rel` behind the start of the data section.
pub open spec fn head_bytes(t: TensorEntry, rel: nat) -> Seq<u8> {
    text_bytes(t.name) + le_bytes(t.dims.len() as u32 as nat, 4) + dims_bytes(t.dims) + le_bytes(
        t.tensor_type as nat,
        4,
    ) + le_bytes(rel, 8)
}

/// The bytes of the first `n` tensor descriptors of `ts`, at these offsets.
pub open spec fn heads_bytes(ts: Seq<TensorEntry>, rels: Seq<u64>, n: nat) -> Seq<u8>
    decreases n,
{
    if n == 0 {
        seq![]
    } else {
        heads_bytes(ts, rels, (n - 1) as nat) + head_bytes(ts[n - 1], rels[n - 1] as nat)
    }
}

/// The room that the first `n` tensor descriptors of `ts` take.
pub open spec fn heads_len(ts: Seq<TensorEntry>, n: nat) -> nat
    decreases n,
{
    if n == 0 {
        0
    } else {
        heads_len(ts, (n - 1) as nat) + 24 + encode_utf8(ts[n - 1].name).len() + 8 * ts[n
            - 1].dims.len()
    }
}

pub open spec fn zeros(n: nat) -> Seq<u8> {
    Seq::new(n, |i: int| 0u8)
}

impl WriterView {
    /// The alignment of tensor data: at least 32.
    pub open spec fn unit(self) -> u64 {
        if self.alignment < 32 {
            32
        } else {
            self.alignment
        }
    }

    /// The room that header, metadata and tensor descriptors take.
    pub open spec fn head_len(self) -> nat {
        24 + pairs_bytes(self.kv).len() + heads_len(self.tensors, self.tensors.len())
    }

    /// Where the data section starts.
    pub open spec fn start(self) -> u64 {
        align_up(self.head_len() as u64, self.unit())
    }

    /// Where the data of the first `n` tensors ends.
    pub open spec fn end(self, n: nat) -> int
        decreases n,
    {
        if n == 0 {
            self.start() as int
        } else {
            align_up(self.end((n - 1) as nat) as u64, self.unit()) + self.tensors[n - 1].data.len()
        }
    }

    /// Where the data of tensor `i` starts.
    pub open spec fn offset(self, i: int) -> u64 {
        align_up(self.end(i as nat) as u64, self.unit())
    }

    /// Every position of the file can be written down in eight bytes.
    pub open spec fn fits(self) -> bool {
        &&& self.kv.len() <= u64::MAX
        &&& self.tensors.len() <= u64::MAX
        &&& self.head_len() + self.unit() - 1 <= u64::MAX
        &&& forall|n: nat|
            n < self.tensors.len() ==> #[trigger] self.end(n) + self.unit() - 1 <= u64::MAX
        &&& self.end(self.tensors.len()) <= u64::MAX
    }

    /// The offsets of the tensors' data behind the start of the data section.
    pub open spec fn rels(self) -> Seq<u64> {
        Seq::new(self.tensors.len(), |i: int| (self.offset(i) - self.start()) as u64)
    }

    /// The data of the first `n` tensors, each behind zeros up to its place.
    pub open spec fn section(self, n: nat) -> Seq<u8>
        decreases n,
    {
        if n == 0 {
            seq![]
        } else {
            self.section((n - 1) as nat) + zeros(
                (self.offset(n - 1) - self.end((n - 1) as nat)) as nat,
            ) + self.tensors[n - 1].data
        }
    }

    /// The header: magic number, version and counts.
    pub open spec fn header(self) -> Seq<u8> {
        le_bytes(GGUF_MAGIC as nat, 4) + le_bytes(self.version as nat, 4) + le_bytes(
            self.tensors.len(),
            8,
        ) + le_bytes(self.kv.len(), 8)
    }

    /// The whole file.
    pub open spec fn file(self) -> Seq<u8> {
        self.header() + pairs_bytes(self.kv) + heads_bytes(
            self.tensors,
            self.rels(),
            self.tensors.len(),
        ) + zeros((self.start() - self.head_len()) as nat) + self.section(self.tensors.len())
    }
}

/// Rounding a position up never moves it back.
pub proof fn law_align_up(pos: u64, alignment: u64)
    requires
        alignment > 0,
        pos + alignment - 1 <= u64::MAX,
    ensures
        pos <= align_up(pos, alignment) < pos + alignment,
        align_up(pos, alignment) & ((alignment - 1) as u64) == 0,
{
    let m: u64 = (alignment - 1) as u64;
    let s: u64 = (pos + m) as u64;
    assert(s & !m <= s && s - (s & !m) <= m && (s & !m) & m == 0) by (bit_vector);
}

/// A builder for writing GGUF files.
pub struct GgufWriter {
    version: u32,
    alignment: u64,
    kv: Vec<(String, GgufValue)>,
    tensor_infos: Vec<(String, Vec<u64>, u32, Vec<u8>)>,
}

/// The tensor that a builder entry stands for.
pub closed spec fn entry_view(t: (String, Vec<u64>, u32, Vec<u8>)) -> TensorEntry {
    TensorEntry { name: t.0@, dims: t.1@, tensor_type: t.2, data: t.3@ }
}

impl View for GgufWriter {
    type V = WriterView;

    closed spec fn view(&self) -> WriterView {
        WriterView {
            version: self.version,
            alignment: self.alignment,
            kv: Seq::new(self.kv@.len(), |i: int| (self.kv@[i].0@, self.kv@[i].1@)),
            tensors: Seq::new(
                self.tensor_infos@.len(),
                |i: int| entry_view(self.tensor_infos@[i]),
            ),
        }
    }
}

/// The length of a row of values is that of its first part plus that of each later value.
proof fn lemma_values_len_mono(vs: Seq<ValueView>, k: int)
    requires
        0 <= k <= vs.len(),
    ensures
        values_bytes(vs.take(k)).len() <= values_bytes(vs).len(),
    decreases vs.len(),
{
    if k < vs.len() {
        lemma_values_len_mono(vs.drop_last(), k);
        assert(vs.drop_last().take(k) =~= vs.take(k));
    } else {
        assert(vs.take(k) =~= vs);
    }
}

proof fn lemma_value_len(v: ValueView)
    ensures
        v is Uint8 || v is Int8 || v is Bool ==> value_bytes(v).len() == 1,
        v is Uint16 || v is Int16 ==> value_bytes(v).len() == 2,
        v is Uint32 || v is Int32 || v is Float32 ==> value_bytes(v).len() == 4,
        v is Uint64 || v is Int64 || v is Float64 ==> value_bytes(v).len() == 8,
        v matches ValueView::Text(s) ==> value_bytes(v).len() == 8 + encode_utf8(s).len(),
        v matches ValueView::Array(t, vs) ==> value_bytes(v).len() == 12 + values_bytes(vs).len(),
{
    assert forall|x: nat, n: nat| #[trigger] le_bytes(x, n).len() == n by {
        lemma_le_bytes_len(x, n);
    }
}

/// Compute the byte size of a value: `None` if the size does not fit.
pub fn value_byte_size(value: &GgufValue) -> (r: Option<u64>)
    ensures
        r == if value_bytes(value@).len() <= u64::MAX {
            Some(value_bytes(value@).len() as u64)
        } else {
            None
        },
    decreases value,
{
    proof {
        lemma_value_len(value@);
    }
    match value {
        GgufValue::Uint8(_) | GgufValue::Int8(_) | GgufValue::Bool(_) => Some(1),
        GgufValue::Uint16(_) | GgufValue::Int16(_) => Some(2),
        GgufValue::Uint32(_) | GgufValue::Int32(_) | GgufValue::Float32(_) => Some(4),
        GgufValue::Uint64(_) | GgufValue::Int64(_) | GgufValue::Float64(_) => Some(8),
        GgufValue::String(s) => (s.as_str().as_bytes().len() as u64).checked_add(8),
        GgufValue::Array(arr) => {
            let ghost vs = value@->Array_1;
            let mut size: u64 = 12;
            let mut i: usize = 0;
            assert(vs.take(0) =~= Seq::<ValueView>::empty());
            while i < arr.elements.len()
                invariant
                    i <= arr.elements@.len(),
                    vs.len() == arr.elements@.len(),
                    forall|k: int| 0 <= k < vs.len() ==> vs[k] == (#[trigger] arr.elements@[k])@,
                    *value == GgufValue::Array(*arr),
                    value@ is Array,
                    vs == value@->Array_1,
                    value_bytes(value@).len() == 12 + values_bytes(vs).len(),
                    size == 12 + values_bytes(vs.take(i as int)).len(),
                decreases arr.elements@.len() - i,
            {
                let ghost next = vs.take(i + 1);
                proof {
                    assert(next.drop_last() =~= vs.take(i as int));
                    assert(next.last() == arr.elements@[i as int]@);
                    lemma_values_len_mono(vs, i + 1);
                    assert(decreases_to!(value => arr.elements@[i as int]));
                }
                match value_byte_size(&arr.elements[i]) {
                    None => {
                        return None;
                    },
                    Some(n) => match size.checked_add(n) {
                        None => {
                            return None;
                        },
                        Some(s) => {
                            size = s;
                        },
                    },
                }
                i = i + 1;
            }
            assert(vs.take(vs.len() as int) =~= vs);
            Some(size)
        },
    }
}

fn write_u32_le(out: &mut Vec<u8>, v: u32)
    ensures
        final(out)@ == old(out)@ + le_bytes(v as nat, 4),
{
    push_le(out, v as u64, 4);
}

fn write_u64_le(out: &mut Vec<u8>, v: u64)
    ensures
        final(out)@ == old(out)@ + le_bytes(v as nat, 8),
{
    push_le(out, v, 8);
}

fn write_string_raw(out: &mut Vec<u8>, s: &str)
    ensures
        final(out)@ == old(out)@ + text_bytes(s@),
{
    let b = s.as_bytes();
    write_u64_le(out, b.len() as u64);
    push_all(out, b);
    assert(out@ =~= old(out)@ + text_bytes(s@));
}

/// Write a value behind what is there.
pub fn write_value(out: &mut Vec<u8>, value: &GgufValue)
    ensures
        final(out)@ == old(out)@ + value_bytes(value@),
    decreases value,
{
    match value {
        GgufValue::Uint8(v) => push_le(out, *v as u64, 1),
        GgufValue::Int8(v) => push_le(out, *v as u8 as u64, 1),
        GgufValue::Uint16(v) => push_le(out, *v as u64, 2),
        GgufValue::Int16(v) => push_le(out, *v as u16 as u64, 2),
        GgufValue::Uint32(v) => write_u32_le(out, *v),
        GgufValue::Int32(v) => write_u32_le(out, *v as u32),
        GgufValue::Float32(v) => write_u32_le(out, *v),
        GgufValue::Bool(v) => push_le(
            out,
            if *v {
                1
            } else {
                0
            },
            1,
        ),
        GgufValue::String(s) => write_string_raw(out, s.as_str()),
        GgufValue::Uint64(v) => write_u64_le(out, *v),
        GgufValue::Int64(v) => write_u64_le(out, *v as u64),
        GgufValue::Float64(v) => write_u64_le(out, *v),
        GgufValue::Array(arr) => {
            let ghost vs = value@->Array_1;
            let ghost lead = le_bytes(arr.element_type as nat, 4) + le_bytes(vs.len(), 8);
            write_u32_le(out, arr.element_type);
            write_u64_le(out, arr.elements.len() as u64);
            let mut i: usize = 0;
            proof {
                assert(vs.take(0) =~= Seq::<ValueView>::empty());
                assert(out@ =~= old(out)@ + lead + values_bytes(vs.take(0)));
            }
            while i < arr.elements.len()
                invariant
                    i <= arr.elements@.len(),
                    vs.len() == arr.elements@.len(),
                    forall|k: int| 0 <= k < vs.len() ==> vs[k] == (#[trigger] arr.elements@[k])@,
                    *value == GgufValue::Array(*arr),
                    value@ is Array,
                    vs == value@->Array_1,
                    out@ == old(out)@ + lead + values_bytes(vs.take(i as int)),
                decreases arr.elements@.len() - i,
            {
                proof {
                    assert(decreases_to!(value => arr.elements@[i as int]));
                }
                write_value(out, &arr.elements[i]);
                proof {
                    let next = vs.take(i + 1);
                    assert(next.drop_last() =~= vs.take(i as int));
                    assert(next.last() == arr.elements@[i as int]@);
                    assert(out@ =~= old(out)@ + lead + values_bytes(next));
                }
                i = i + 1;
            }
            proof {
                assert(vs.take(vs.len() as int) =~= vs);
                assert(out@ =~= old(out)@ + (lead + values_bytes(vs)));
            }
        },
    }
}

fn type_code_of(value: &GgufValue) -> (c: u32)
    ensures
        c == value_code(value@),
{
    match value {
        GgufValue::Uint8(_) => 0,
        GgufValue::Int8(_) => 1,
        GgufValue::Uint16(_) => 2,
        GgufValue::Int16(_) => 3,
        GgufValue::Uint32(_) => 4,
        GgufValue::Int32(_) => 5,
        GgufValue::Float32(_) => 6,
        GgufValue::Bool(_) => 7,
        GgufValue::String(_) => 8,
        GgufValue::Array(_) => 9,
        GgufValue::Uint64(_) => 10,
        GgufValue::Int64(_) => 11,
        GgufValue::Float64(_) => 12,
    }
}

proof fn lemma_pair_len(p: (Seq<char>, ValueView))
    ensures
        pair_bytes(p).len() == 12 + encode_utf8(p.0).len() + value_bytes(p.1).len(),
{
    lemma_le_bytes_len(encode_utf8(p.0).len(), 8);
    lemma_le_bytes_len(value_code(p.1) as nat, 4);
}

proof fn lemma_pairs_len_mono(kv: Seq<(Seq<char>, ValueView)>, k: int)
    requires
        0 <= k <= kv.len(),
    ensures
        pairs_bytes(kv.take(k)).len() <= pairs_bytes(kv).len(),
    decreases kv.len(),
{
    if k < kv.len() {
        lemma_pairs_len_mono(kv.drop_last(), k);
        assert(kv.drop_last().take(k) =~= kv.take(k));
    } else {
        assert(kv.take(k) =~= kv);
    }
}

proof fn lemma_heads_len_mono(ts: Seq<TensorEntry>, k: nat, n: nat)
    requires
        k <= n <= ts.len(),
    ensures
        heads_len(ts, k) <= heads_len(ts, n),
    decreases n,
{
    if k < n {
        lemma_heads_len_mono(ts, k, (n - 1) as nat);
    }
}

proof fn lemma_dims_len(dims: Seq<u64>)
    ensures
        dims_bytes(dims).len() == 8 * dims.len(),
    decreases dims.len(),
{
    if dims.len() > 0 {
        lemma_dims_len(dims.drop_last());
        lemma_le_bytes_len(dims.last() as nat, 8);
    }
}

pub proof fn lemma_heads_bytes_len(ts: Seq<TensorEntry>, rels: Seq<u64>, n: nat)
    requires
        n <= ts.len(),
    ensures
        heads_bytes(ts, rels, n).len() == heads_len(ts, n),
    decreases n,
{
    if n > 0 {
        lemma_heads_bytes_len(ts, rels, (n - 1) as nat);
        let t = ts[n - 1];
        lemma_dims_len(t.dims);
        lemma_le_bytes_len(encode_utf8(t.name).len(), 8);
        lemma_le_bytes_len(t.dims.len() as u32 as nat, 4);
        lemma_le_bytes_len(t.tensor_type as nat, 4);
        lemma_le_bytes_len(rels[n - 1] as nat, 8);
    }
}

fn sum(a: u64, b: u64, c: u64) -> (r: Option<u64>)
    ensures
        r == if a + b + c <= u64::MAX {
            Some((a + b + c) as u64)
        } else {
            None
        },
{
    match a.checked_add(b) {
        None => None,
        Some(s) => s.checked_add(c),
    }
}

impl GgufWriter {
    /// Create a builder without metadata and tensors.
    pub fn new(version: u32, alignment: u64) -> (w: GgufWriter)
        ensures
            w@ == (WriterView { version, alignment, kv: seq![], tensors: seq![] }),
    {
        let w = GgufWriter { version, alignment, kv: Vec::new(), tensor_infos: Vec::new() };
        assert(w@.kv =~= seq![]);
        assert(w@.tensors =~= seq![]);
        w
    }

    /// Add a metadata key-value pair.
    pub fn add_meta(&mut self, key: &str, value: GgufValue)
        ensures
            final(self)@ == (WriterView { kv: old(self)@.kv.push((key@, value@)), ..old(self)@ }),
    {
        self.kv.push((key.to_owned(), value));
        assert(self@.kv =~= old(self)@.kv.push((key@, value@)));
        assert(self@.tensors =~= old(self)@.tensors);
    }

    /// Add a tensor with its name, dimensions, type and raw data bytes.
    pub fn add_tensor(&mut self, name: &str, dims: Vec<u64>, tensor_type: u32, data: Vec<u8>)
        ensures
            final(self)@ == (WriterView {
                tensors: old(self)@.tensors.push(
                    TensorEntry { name: name@, dims: dims@, tensor_type, data: data@ },
                ),
                ..old(self)@
            }),
    {
        let ghost t = TensorEntry { name: name@, dims: dims@, tensor_type, data: data@ };
        self.tensor_infos.push((name.to_owned(), dims, tensor_type, data));
        assert(self@.tensors =~= old(self)@.tensors.push(t));
        assert(self@.kv =~= old(self)@.kv);
    }

    /// The room of header, metadata and tensor descriptors: `None` if it does not fit.
    fn head_size(&self) -> (r: Option<u64>)
        ensures
            r == if self@.head_len() <= u64::MAX {
                Some(self@.head_len() as u64)
            } else {
                None
            },
    {
        let ghost kv = self@.kv;
        let ghost ts = self@.tensors;
        let mut pos: u64 = 24;
        let mut i: usize = 0;
        assert(kv.take(0) =~= seq![]);
        while i < self.kv.len()
            invariant
                i <= self.kv@.len(),
                kv == self@.kv,
                ts == self@.tensors,
                pos == 24 + pairs_bytes(kv.take(i as int)).len(),
            decreases self.kv@.len() - i,
        {
            let pair = &self.kv[i];
            proof {
                let next = kv.take(i + 1);
                assert(next.drop_last() =~= kv.take(i as int));
                assert(next.last() == (pair.0@, pair.1@));
                lemma_pairs_len_mono(kv, i + 1);
                lemma_pair_len((pair.0@, pair.1@));
            }
            let key_len: u64 = pair.0.as_str().as_bytes().len() as u64;
            pos = match value_byte_size(&pair.1) {
                None => {
                    return None;
                },
                Some(n) => match sum(pos, key_len, 12) {
                    None => {
                        return None;
                    },
                    Some(p) => match p.checked_add(n) {
                        None => {
                            return None;
                        },
                        Some(q) => q,
                    },
                },
            };
            i = i + 1;
        }
        assert(kv.take(kv.len() as int) =~= kv);
        let mut j: usize = 0;
        while j < self.tensor_infos.len()
            invariant
                j <= self.tensor_infos@.len(),
                kv == self@.kv,
                ts == self@.tensors,
                pos == 24 + pairs_bytes(kv).len() + heads_len(ts, j as nat),
            decreases self.tensor_infos@.len() - j,
        {
            let t = &self.tensor_infos[j];
            proof {
                assert(ts[j as int] == entry_view(*t));
                lemma_heads_len_mono(ts, (j + 1) as nat, ts.len());
            }
            let name_len: u64 = t.0.as_str().as_bytes().len() as u64;
            let dims_len: u64 = match (t.1.len() as u64).checked_mul(8) {
                None => {
                    return None;
                },
                Some(n) => n,
            };
            pos = match sum(pos, name_len, 24) {
                None => {
                    return None;
                },
                Some(p) => match p.checked_add(dims_len) {
                    None => {
                        return None;
                    },
                    Some(q) => q,
                },
            };
            j = j + 1;
        }
        Some(pos)
    }

    /// The absolute offsets of the tensors' data: `None` if a position does not fit.
    fn offsets(&self, start: u64, unit: u64) -> (r: Option<Vec<u64>>)
        requires
            unit == self@.unit(),
            start == self@.start(),
        ensures
            r is Some <==> {
                &&& forall|n: nat|
                    n < self@.tensors.len() ==> #[trigger] self@.end(n) + self@.unit() - 1
                        <= u64::MAX
                &&& self@.end(self@.tensors.len()) <= u64::MAX
            },
            r matches Some(o) ==> o@ =~= Seq::new(
                self@.tensors.len(),
                |i: int| self@.offset(i),
            ),
    {
        let ghost w = self@;
        let mut offs: Vec<u64> = Vec::new();
        let mut end: u64 = start;
        let mut i: usize = 0;
        while i < self.tensor_infos.len()
            invariant
                i <= self.tensor_infos@.len(),
                w == self@,
                unit == w.unit(),
                end == w.end(i as nat),
                offs@ =~= Seq::new(i as nat, |k: int| w.offset(k)),
                forall|n: nat| n < i ==> #[trigger] w.end(n) + w.unit() - 1 <= u64::MAX,
            decreases self.tensor_infos@.len() - i,
        {
            assert(w.tensors[i as int] == entry_view(self.tensor_infos@[i as int]));
            assert(w.end((i + 1) as nat) == w.offset(i as int) + w.tensors[i as int].data.len());
            if unit - 1 > u64::MAX - end {
                assert(w.end(i as nat) + w.unit() - 1 > u64::MAX);
                return None;
            }
            let padded: u64 = (end + (unit - 1)) & !(unit - 1);
            assert(padded == w.offset(i as int));
            offs.push(padded);
            let len: u64 = self.tensor_infos[i].3.len() as u64;
            end = match padded.checked_add(len) {
                None => {
                    proof {
                        let n = (i + 1) as nat;
                        assert(w.end(n) > u64::MAX);
                        if n < w.tensors.len() {
                            assert(w.end(n) + w.unit() - 1 > u64::MAX);
                        }
                    }
                    return None;
                },
                Some(e) => e,
            };
            i = i + 1;
        }
        Some(offs)
    }

    /// Write the complete file. Fails if a position of the file does not fit in eight bytes.
    pub fn finish(self) -> (r: Result<Vec<u8>, GgufError>)
        ensures
            r is Ok <==> self@.fits(),
            r matches Ok(b) ==> b@ == self@.file(),
            r matches Err(e) ==> e@ == GgufFault::PositionOverflow,
    {
        let ghost w = self@;
        let unit: u64 = if self.alignment < 32 {
            32
        } else {
            self.alignment
        };
        let head: u64 = match self.head_size() {
            None => {
                return Err(GgufError::PositionOverflow);
            },
            Some(p) => p,
        };
        if unit - 1 > u64::MAX - head {
            return Err(GgufError::PositionOverflow);
        }
        let start: u64 = (head + (unit - 1)) & !(unit - 1);
        proof {
            law_align_up(head, unit);
        }
        let offs = match self.offsets(start, unit) {
            None => {
                return Err(GgufError::PositionOverflow);
            },
            Some(x) => x,
        };
        assert(w.kv.len() == self.kv.len() && w.tensors.len() == self.tensor_infos.len());
        let mut out: Vec<u8> = Vec::new();
        self.write_head(&mut out, &offs, start);
        push_zeros(&mut out, start - head);
        let ghost lead = out@;
        assert(w.section(0) =~= seq![]);
        let mut i: usize = 0;
        let mut cur: u64 = start;
        while i < self.tensor_infos.len()
            invariant
                i <= self.tensor_infos@.len(),
                w == self@,
                w.fits(),
                unit == w.unit(),
                offs@ =~= Seq::new(w.tensors.len(), |k: int| w.offset(k)),
                cur == w.end(i as nat),
                out@ =~= lead + w.section(i as nat),
            decreases self.tensor_infos@.len() - i,
        {
            let target: u64 = offs[i];
            proof {
                assert(w.end(i as nat) + w.unit() - 1 <= u64::MAX);
                law_align_up(cur, unit);
                assert(w.tensors[i as int] == entry_view(self.tensor_infos@[i as int]));
                lemma_end_bound(w, (i + 1) as nat);
            }
            push_zeros(&mut out, target - cur);
            push_all(&mut out, self.tensor_infos[i].3.as_slice());
            cur = target + self.tensor_infos[i].3.len() as u64;
            proof {
                assert(out@ =~= lead + w.section((i + 1) as nat));
            }
            i = i + 1;
        }
        assert(out@ =~= w.file());
        Ok(out)
    }

    /// Write header, metadata and tensor descriptors.
    fn write_head(&self, out: &mut Vec<u8>, offs: &Vec<u64>, start: u64)
        requires
            self@.fits(),
            start == self@.start(),
            offs@ =~= Seq::new(self@.tensors.len(), |k: int| self@.offset(k)),
            old(out)@.len() == 0,
        ensures
            final(out)@ == self@.header() + pairs_bytes(self@.kv) + heads_bytes(
                self@.tensors,
                self@.rels(),
                self@.tensors.len(),
            ),
    {
        let ghost w = self@;
        let ghost kv = self@.kv;
        let ghost ts = self@.tensors;
        write_u32_le(out, GGUF_MAGIC);
        write_u32_le(out, self.version);
        write_u64_le(out, self.tensor_infos.len() as u64);
        write_u64_le(out, self.kv.len() as u64);
        assert(out@ =~= w.header());
        let mut i: usize = 0;
        assert(kv.take(0) =~= seq![]);
        while i < self.kv.len()
            invariant
                i <= self.kv@.len(),
                w == self@,
                kv == w.kv,
                out@ =~= w.header() + pairs_bytes(kv.take(i as int)),
            decreases self.kv@.len() - i,
        {
            let pair = &self.kv[i];
            write_string_raw(out, pair.0.as_str());
            write_u32_le(out, type_code_of(&pair.1));
            write_value(out, &pair.1);
            proof {
                let next = kv.take(i + 1);
                assert(next.drop_last() =~= kv.take(i as int));
                assert(next.last() == (pair.0@, pair.1@));
                assert(out@ =~= w.header() + pairs_bytes(next));
            }
            i = i + 1;
        }
        assert(kv.take(kv.len() as int) =~= kv);
        let ghost lead = out@;
        let mut j: usize = 0;
        while j < self.tensor_infos.len()
            invariant
                j <= self.tensor_infos@.len(),
                w == self@,
                ts == w.tensors,
                w.fits(),
                start == w.start(),
                offs@ =~= Seq::new(w.tensors.len(), |k: int| w.offset(k)),
                out@ =~= lead + heads_bytes(ts, w.rels(), j as nat),
            decreases self.tensor_infos@.len() - j,
        {
            let t = &self.tensor_infos[j];
            let ghost before = out@;
            write_string_raw(out, t.0.as_str());
            write_u32_le(out, t.1.len() as u32);
            write_dims(out, &t.1);
            write_u32_le(out, t.2);
            proof {
                lemma_offset_bound(w, j as nat);
            }
            write_u64_le(out, offs[j] - start);
            proof {
                assert(ts[j as int] == entry_view(*t));
                assert(out@ =~= before + head_bytes(ts[j as int], w.rels()[j as int] as nat));
                assert(out@ =~= lead + heads_bytes(ts, w.rels(), (j + 1) as nat));
            }
            j = j + 1;
        }
    }
}

fn write_dims(out: &mut Vec<u8>, dims: &Vec<u64>)
    ensures
        final(out)@ == old(out)@ + dims_bytes(dims@),
{
    let mut i: usize = 0;
    assert(dims@.take(0) =~= seq![]);
    while i < dims.len()
        invariant
            i <= dims@.len(),
            out@ =~= old(out)@ + dims_bytes(dims@.take(i as int)),
        decreases dims@.len() - i,
    {
        write_u64_le(out, dims[i]);
        proof {
            assert(dims@.take(i + 1).drop_last() =~= dims@.take(i as int));
        }
        i = i + 1;
    }
    assert(dims@.take(dims@.len() as int) =~= dims@);
}

/// The data of every tensor ends where eight bytes can say.
pub proof fn lemma_end_bound(w: WriterView, n: nat)
    requires
        w.fits(),
        n <= w.tensors.len(),
    ensures
        w.start() <= w.end(n) <= u64::MAX,
    decreases n,
{
    if n < w.tensors.len() {
        assert(w.end(n) + w.unit() - 1 <= u64::MAX);
    }
    if n > 0 {
        let m = (n - 1) as nat;
        lemma_end_bound(w, m);
        assert(w.end(m) + w.unit() - 1 <= u64::MAX);
        law_align_up(w.end(m) as u64, w.unit());
    } else {
        law_align_up(w.head_len() as u64, w.unit());
    }
}

/// The data of every tensor starts in the data section, behind the tensor before it.
pub proof fn lemma_offset_bound(w: WriterView, i: nat)
    requires
        w.fits(),
        i < w.tensors.len(),
    ensures
        w.start() <= w.end(i) <= w.offset(i as int),
        w.end(i + 1) == w.offset(i as int) + w.tensors[i as int].data.len(),
{
    lemma_end_bound(w, i);
    assert(w.end(i) + w.unit() - 1 <= u64::MAX);
    law_align_up(w.end(i) as u64, w.unit());
}

} // verus!
