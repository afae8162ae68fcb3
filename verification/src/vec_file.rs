//! The `.vec` file format of an embedding: the magic bytes `VEC1`, the
//! dimension as a little-endian `u32`, then each value as the little-endian
//! bytes of its `f32` bit pattern. The library frames and checks bytes; the
//! values are carried as their bit patterns.

use vstd::prelude::*;

verus! {

/// The magic bytes `VEC1`.
pub open spec fn magic() -> Seq<u8> {
    seq![0x56u8, 0x45u8, 0x43u8, 0x31u8]
}

/// The little-endian bytes of `x`.
pub open spec fn u32_le(x: u32) -> Seq<u8> {
    seq![(x % 256) as u8, ((x / 256) % 256) as u8, ((x / 65536) % 256) as u8, ((x / 16777216) % 256) as u8]
}

/// The little-endian `u32` at bytes `k..k + 4` of `d`.
pub open spec fn le_u32_at(d: Seq<u8>, k: int) -> int {
    d[k] + 256 * d[k + 1] + 65536 * d[k + 2] + 16777216 * d[k + 3]
}

/// The values, each as its four little-endian bytes, one after the other.
pub open spec fn values_le(bits: Seq<u32>) -> Seq<u8>
    decreases bits.len(),
{
    if bits.len() == 0 {
        seq![]
    } else {
        values_le(bits.drop_last()) + u32_le(bits.last())
    }
}

/// The file of the values `bits`; the dimension field holds their number
/// modulo 2^32.
pub open spec fn encode_spec(bits: Seq<u32>) -> Seq<u8> {
    magic() + u32_le((bits.len() % 0x1_0000_0000) as u32) + values_le(bits)
}

/// Why a `.vec` file was refused.
#[derive(Debug, Clone, Copy, PartialEq, Eq, Structural)]
pub enum VecFileError {
    /// Shorter than the 8-byte header.
    TooShort,
    /// The first four bytes are not `VEC1`.
    BadMagic,
    /// The length is not `8 + 4 * dim`.
    SizeMismatch { expected: u64, actual: u64, dim: u32 },
}

/// What reading the bytes `d` gives: the error, or the values.
pub open spec fn decode_spec(d: Seq<u8>) -> Result<Seq<u32>, VecFileError> {
    if d.len() < 8 {
        Err(VecFileError::TooShort)
    } else if d.take(4) != magic() {
        Err(VecFileError::BadMagic)
    } else {
        let dim = le_u32_at(d, 4);
        if d.len() != 8 + 4 * dim {
            Err(VecFileError::SizeMismatch { expected: (8 + 4 * dim) as u64, actual: d.len() as u64, dim: dim as u32 })
        } else {
            Ok(Seq::new(dim as nat, |i: int| le_u32_at(d, 8 + 4 * i) as u32))
        }
    }
}

/// The bytes of `x` read back give `x`.
proof fn lemma_u32_le_round_trip(x: u32)
    ensures
        le_u32_at(u32_le(x), 0) == x,
{
    let b0 = x % 256;
    let b1 = (x / 256) % 256;
    let b2 = (x / 65536) % 256;
    let b3 = (x / 16777216) % 256;
    assert(b0 + 256 * b1 + 65536 * b2 + 16777216 * b3 == x) by (nonlinear_arith)
        requires
            b0 == x % 256,
            b1 == (x / 256) % 256,
            b2 == (x / 65536) % 256,
            b3 == (x / 16777216) % 256,
            x < 0x1_0000_0000,
    ;
}

/// Value `i` lies at bytes `4 * i..4 * i + 4`.
proof fn lemma_values_le(bits: Seq<u32>)
    ensures
        values_le(bits).len() == 4 * bits.len(),
        forall|i: int, j: int|
            0 <= i < bits.len() && 0 <= j < 4 ==> #[trigger] values_le(bits)[4 * i + j] == u32_le(bits[i])[j],
    decreases bits.len(),
{
    if bits.len() > 0 {
        let pre = bits.drop_last();
        lemma_values_le(pre);
        assert forall|i: int, j: int| 0 <= i < bits.len() && 0 <= j < 4 implies #[trigger] values_le(bits)[4 * i + j]
            == u32_le(bits[i])[j] by {
            if i < bits.len() - 1 {
                assert(values_le(pre)[4 * i + j] == u32_le(pre[i])[j]);
            }
        }
    }
}

/// Reading a written file gives back the values, when their number fits the
/// dimension field.
pub proof fn lemma_vec_round_trip(bits: Seq<u32>)
    requires
        bits.len() < 0x1_0000_0000,
    ensures
        decode_spec(encode_spec(bits)) == Ok::<Seq<u32>, VecFileError>(bits),
{
    let d = encode_spec(bits);
    let n = bits.len();
    lemma_values_le(bits);
    lemma_u32_le_round_trip(n as u32);
    assert(d.take(4) =~= magic());
    assert(le_u32_at(d, 4) == le_u32_at(u32_le(n as u32), 0));
    assert(le_u32_at(d, 4) == n);
    assert forall|i: int| 0 <= i < n implies le_u32_at(d, 8 + 4 * i) as u32 == bits[i] by {
        lemma_u32_le_round_trip(bits[i]);
        assert(d[8 + 4 * i] == values_le(bits)[4 * i + 0]);
        assert(d[8 + 4 * i + 1] == values_le(bits)[4 * i + 1]);
        assert(d[8 + 4 * i + 2] == values_le(bits)[4 * i + 2]);
        assert(d[8 + 4 * i + 3] == values_le(bits)[4 * i + 3]);
        assert(le_u32_at(d, 8 + 4 * i) == le_u32_at(u32_le(bits[i]), 0));
    }
    assert(Seq::new(n, |i: int| le_u32_at(d, 8 + 4 * i) as u32) =~= bits);
}

fn push_u32_le(buf: &mut Vec<u8>, x: u32)
    ensures
        final(buf)@ == old(buf)@ + u32_le(x),
{
    buf.push((x % 256) as u8);
    buf.push(((x / 256) % 256) as u8);
    buf.push(((x / 65536) % 256) as u8);
    buf.push(((x / 16777216) % 256) as u8);
    proof {
        assert(final(buf)@ =~= old(buf)@ + u32_le(x));
    }
}

/// The `.vec` file of the values (given as `f32` bit patterns).
pub fn encode_vec(bits: &Vec<u32>) -> (r: Vec<u8>)
    ensures
        r@ == encode_spec(bits@),
{
    let mut buf: Vec<u8> = Vec::new();
    buf.push(0x56u8);
    buf.push(0x45u8);
    buf.push(0x43u8);
    buf.push(0x31u8);
    let n = bits.len();
    let dim: u32 = ((n as u64) % 0x1_0000_0000u64) as u32;
    push_u32_le(&mut buf, dim);
    proof {
        assert(buf@ =~= magic() + u32_le((bits@.len() % 0x1_0000_0000) as u32) + values_le(bits@.take(0)));
    }
    let mut i: usize = 0;
    while i < bits.len()
        invariant
            i <= bits@.len(),
            buf@ == magic() + u32_le((bits@.len() % 0x1_0000_0000) as u32) + values_le(bits@.take(i as int)),
        decreases bits@.len() - i,
    {
        push_u32_le(&mut buf, bits[i]);
        proof {
            assert(bits@.take(i + 1).drop_last() =~= bits@.take(i as int));
            assert(buf@ =~= magic() + u32_le((bits@.len() % 0x1_0000_0000) as u32) + values_le(bits@.take(i + 1)));
        }
        i = i + 1;
    }
    proof {
        assert(bits@.take(i as int) =~= bits@);
    }
    buf
}

fn read_u32_le(d: &[u8], k: usize) -> (r: u32)
    requires
        k + 4 <= d@.len(),
    ensures
        r == le_u32_at(d@, k as int),
{
    let b0 = d[k] as u32;
    let b1 = d[k + 1] as u32;
    let b2 = d[k + 2] as u32;
    let b3 = d[k + 3] as u32;
    b0 + 256 * b1 + 65536 * b2 + 16777216 * b3
}

/// Reads a `.vec` file: refused when shorter than its header, without the
/// magic bytes, or when its length is not that of its dimension; else the
/// values (as `f32` bit patterns).
pub fn decode_vec(data: &[u8]) -> (r: Result<Vec<u32>, VecFileError>)
    ensures
        match r {
            Ok(v) => decode_spec(data@) == Ok::<Seq<u32>, VecFileError>(v@),
            Err(e) => decode_spec(data@) == Err::<Seq<u32>, VecFileError>(e),
        },
{
    if data.len() < 8 {
        return Err(VecFileError::TooShort);
    }
    if !(data[0] == 0x56u8 && data[1] == 0x45u8 && data[2] == 0x43u8 && data[3] == 0x31u8) {
        proof {
            if data@.take(4) == magic() {
                assert(data@.take(4)[0] == data@[0]);
                assert(data@.take(4)[1] == data@[1]);
                assert(data@.take(4)[2] == data@[2]);
                assert(data@.take(4)[3] == data@[3]);
            }
        }
        return Err(VecFileError::BadMagic);
    }
    proof {
        assert(data@.take(4) =~= magic());
    }
    let dim = read_u32_le(data, 4);
    let expected: u64 = 8 + 4 * (dim as u64);
    let actual: u64 = data.len() as u64;
    if actual != expected {
        return Err(VecFileError::SizeMismatch { expected, actual, dim });
    }
    let mut v: Vec<u32> = Vec::new();
    let mut i: usize = 0;
    while i < dim as usize
        invariant
            data@.len() == 8 + 4 * (dim as int),
            i <= dim,
            v@.len() == i,
            forall|k: int| 0 <= k < i ==> #[trigger] v@[k] == le_u32_at(data@, 8 + 4 * k) as u32,
        decreases dim - i,
    {
        proof {
            assert(8 + 4 * i + 4 <= data@.len());
            assert(data@.len() == data.len());
        }
        let x = read_u32_le(data, 8 + 4 * i);
        v.push(x);
        i = i + 1;
    }
    proof {
        assert(v@ =~= Seq::new(dim as nat, |k: int| le_u32_at(data@, 8 + 4 * k) as u32));
    }
    Ok(v)
}

} // verus!
