//! Little-endian numbers in byte sequences.
use vstd::prelude::*;

verus! {

/// The number that a little-endian byte sequence stands for.
pub open spec fn le_value(b: Seq<u8>) -> nat
    decreases b.len(),
{
    if b.len() == 0 {
        0
    } else {
        b[0] as nat + 256 * le_value(b.drop_first())
    }
}

/// The `n` low bytes of `v`, least significant first.
pub open spec fn le_bytes(v: nat, n: nat) -> Seq<u8>
    decreases n,
{
    if n == 0 {
        seq![]
    } else {
        seq![(v % 256) as u8] + le_bytes(v / 256, (n - 1) as nat)
    }
}

/// How many values `n` bytes can hold.
pub open spec fn byte_range(n: nat) -> nat
    decreases n,
{
    if n == 0 {
        1
    } else {
        256 * byte_range((n - 1) as nat)
    }
}

/// The bytes `b` stand in `data` at `pos`.
pub open spec fn stands_at(data: Seq<u8>, pos: int, b: Seq<u8>) -> bool {
    0 <= pos && pos + b.len() <= data.len() && data.subrange(pos, pos + b.len()) == b
}

pub proof fn lemma_byte_range()
    ensures
        byte_range(0) == 1,
        byte_range(1) == 0x100,
        byte_range(2) == 0x1_0000,
        byte_range(4) == 0x1_0000_0000,
        byte_range(8) == 0x1_0000_0000_0000_0000,
{
    reveal_with_fuel(byte_range, 9);
}

pub proof fn lemma_le_value_bound(b: Seq<u8>)
    ensures
        le_value(b) < byte_range(b.len()),
    decreases b.len(),
{
    if b.len() > 0 {
        lemma_le_value_bound(b.drop_first());
    }
}

pub proof fn lemma_le_bytes_len(v: nat, n: nat)
    ensures
        le_bytes(v, n).len() == n,
    decreases n,
{
    if n > 0 {
        lemma_le_bytes_len(v / 256, (n - 1) as nat);
    }
}

/// Writing a number in `n` bytes and reading it back gives the number, if `n` bytes can hold it.
pub proof fn law_le_round_trip(v: nat, n: nat)
    requires
        v < byte_range(n),
    ensures
        le_bytes(v, n).len() == n,
        le_value(le_bytes(v, n)) == v,
    decreases n,
{
    lemma_le_bytes_len(v, n);
    if n > 0 {
        law_le_round_trip(v / 256, (n - 1) as nat);
        assert(le_bytes(v, n).drop_first() =~= le_bytes(v / 256, (n - 1) as nat));
    }
}

/// Reading a number and writing it back gives the bytes it was read from.
pub proof fn law_le_bytes_of_value(b: Seq<u8>)
    ensures
        le_bytes(le_value(b), b.len()) == b,
    decreases b.len(),
{
    lemma_le_bytes_len(le_value(b), b.len());
    if b.len() > 0 {
        law_le_bytes_of_value(b.drop_first());
        assert(le_value(b) % 256 == b[0] && le_value(b) / 256 == le_value(b.drop_first()));
        assert(le_bytes(le_value(b), b.len()) =~= seq![b[0]] + b.drop_first());
    }
    assert(le_bytes(le_value(b), b.len()) =~= b);
}

/// The byte at position `i` counts for the `i`th power of 256: the first byte is the lowest.
pub proof fn law_le_places(b: Seq<u8>, i: int, x: u8)
    requires
        0 <= i < b.len(),
    ensures
        le_value(b.update(i, x)) - le_value(b) == vstd::arithmetic::power::pow(256, i as nat) * (x
            - b[i]),
    decreases b.len(),
{
    let c = b.update(i, x);
    if i == 0 {
        vstd::arithmetic::power::lemma_pow0(256);
        assert(c.drop_first() =~= b.drop_first());
        assert(1 * (x - b[i]) == x - b[i]) by (nonlinear_arith);
    } else {
        assert(c.drop_first() =~= b.drop_first().update(i - 1, x));
        law_le_places(b.drop_first(), i - 1, x);
        reveal(vstd::arithmetic::power::pow);
        let p = vstd::arithmetic::power::pow(256, (i - 1) as nat);
        let d = x - b[i];
        assert(256 * (p * d) == (256 * p) * d) by (nonlinear_arith);
    }
}

pub proof fn lemma_le_value_snoc(b: Seq<u8>, x: u8)
    ensures
        le_value(b.push(x)) == le_value(b) + byte_range(b.len()) * x as nat,
    decreases b.len(),
{
    if b.len() == 0 {
        assert(b.push(x).drop_first() =~= Seq::<u8>::empty());
        assert(le_value(Seq::<u8>::empty()) == 0);
        assert(byte_range(0) * x as nat == x as nat) by (nonlinear_arith)
            requires
                byte_range(0) == 1,
        ;
    } else {
        lemma_le_value_snoc(b.drop_first(), x);
        assert(b.push(x).drop_first() =~= b.drop_first().push(x));
        let r: nat = byte_range((b.len() - 1) as nat);
        assert(256 * (r * x as nat) == (256 * r) * x as nat) by (nonlinear_arith);
    }
}

pub proof fn lemma_stands_at_concat(data: Seq<u8>, pos: int, a: Seq<u8>, b: Seq<u8>)
    ensures
        stands_at(data, pos, a + b) <==> stands_at(data, pos, a) && stands_at(
            data,
            pos + a.len(),
            b,
        ),
{
    if stands_at(data, pos, a + b) {
        let whole = data.subrange(pos, pos + a.len() + b.len());
        assert(data.subrange(pos, pos + a.len()) =~= whole.subrange(0, a.len() as int));
        assert(whole.subrange(0, a.len() as int) =~= a);
        assert(data.subrange(pos + a.len(), pos + a.len() + b.len()) =~= whole.subrange(
            a.len() as int,
            (a.len() + b.len()) as int,
        ));
        assert(whole.subrange(a.len() as int, (a.len() + b.len()) as int) =~= b);
    }
    if stands_at(data, pos, a) && stands_at(data, pos + a.len(), b) {
        let da = data.subrange(pos, pos + a.len());
        let db = data.subrange(pos + a.len(), pos + a.len() + b.len());
        assert(data.subrange(pos, pos + a.len() + b.len()) =~= da + db);
    }
}

/// Decode up to eight little-endian bytes.
pub fn decode_le(b: &[u8]) -> (v: u64)
    requires
        b@.len() <= 8,
    ensures
        v == le_value(b@),
{
    let mut i: usize = b.len();
    let mut v: u64 = 0;
    proof {
        lemma_byte_range();
        assert(b@.subrange(i as int, b@.len() as int) =~= Seq::<u8>::empty());
    }
    while i > 0
        invariant
            i <= b@.len() <= 8,
            v == le_value(b@.subrange(i as int, b@.len() as int)),
        decreases i,
    {
        i = i - 1;
        proof {
            let tail = b@.subrange(i as int, b@.len() as int);
            assert(tail.drop_first() =~= b@.subrange(i + 1, b@.len() as int));
            lemma_le_value_bound(tail);
            reveal_with_fuel(byte_range, 9);
        }
        v = b[i] as u64 + 256 * v;
    }
    assert(b@.subrange(0, b@.len() as int) =~= b@);
    v
}

/// Append the `n` low bytes of `v`, least significant first.
pub fn push_le(out: &mut Vec<u8>, v: u64, n: usize)
    ensures
        final(out)@ == old(out)@ + le_bytes(v as nat, n as nat),
{
    let mut k: usize = 0;
    let mut rest: u64 = v;
    assert(out@ + le_bytes(v as nat, n as nat) =~= old(out)@ + le_bytes(v as nat, n as nat));
    while k < n
        invariant
            k <= n,
            out@ + le_bytes(rest as nat, (n - k) as nat) == old(out)@ + le_bytes(
                v as nat,
                n as nat,
            ),
        decreases n - k,
    {
        let ghost before = out@;
        out.push((rest % 256) as u8);
        proof {
            assert(out@ + le_bytes(rest as nat / 256, (n - k - 1) as nat) =~= before + le_bytes(
                rest as nat,
                (n - k) as nat,
            ));
        }
        rest = rest / 256;
        k = k + 1;
    }
    assert(out@ + le_bytes(rest as nat, 0) =~= out@);
}

/// Append all of `b`.
pub fn push_all(out: &mut Vec<u8>, b: &[u8])
    ensures
        final(out)@ == old(out)@ + b@,
{
    let mut i: usize = 0;
    assert(b@.take(0) =~= Seq::<u8>::empty());
    assert(out@ =~= old(out)@ + b@.take(0));
    while i < b.len()
        invariant
            i <= b@.len(),
            out@ == old(out)@ + b@.take(i as int),
        decreases b@.len() - i,
    {
        out.push(b[i]);
        proof {
            assert(b@.take(i + 1) =~= b@.take(i as int).push(b@[i as int]));
        }
        i = i + 1;
    }
    assert(b@.take(b@.len() as int) =~= b@);
}

/// Append `n` zero bytes.
pub fn push_zeros(out: &mut Vec<u8>, n: u64)
    ensures
        final(out)@ == old(out)@ + Seq::new(n as nat, |i: int| 0u8),
{
    let mut i: u64 = 0;
    assert(out@ =~= old(out)@ + Seq::new(0nat, |i: int| 0u8));
    while i < n
        invariant
            i <= n,
            out@ == old(out)@ + Seq::new(i as nat, |i: int| 0u8),
        decreases n - i,
    {
        out.push(0);
        proof {
            assert(out@ =~= old(out)@ + Seq::new((i + 1) as nat, |i: int| 0u8));
        }
        i = i + 1;
    }
}

} // verus!
