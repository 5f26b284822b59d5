//! Small helpers on byte sequences that the other modules share.
use vstd::prelude::*;

verus! {

/// `data` XORed with the part of `stream` that starts at `pos`.
pub open spec fn xor_keystream(data: Seq<u8>, stream: Seq<u8>, pos: int) -> Seq<u8> {
    Seq::new(data.len(), |i: int| data[i] ^ stream[pos + i])
}

/// `n` zero bytes.
pub open spec fn zeros(n: nat) -> Seq<u8> {
    Seq::new(n, |i: int| 0u8)
}

/// XOR with the same byte twice gives the byte back.
pub proof fn lemma_xor_twice(a: u8, k: u8)
    ensures
        (a ^ k) ^ k == a,
{
    assert((a ^ k) ^ k == a) by (bit_vector);
}

/// XOR with zero changes nothing.
pub proof fn lemma_xor_zero(a: u8)
    ensures
        a ^ 0u8 == a,
{
    assert(a ^ 0u8 == a) by (bit_vector);
}

/// Applying the same part of a keystream twice gives the data back.
pub proof fn lemma_xor_keystream_twice(data: Seq<u8>, stream: Seq<u8>, pos: int)
    ensures
        xor_keystream(xor_keystream(data, stream, pos), stream, pos) == data,
{
    let once = xor_keystream(data, stream, pos);
    let twice = xor_keystream(once, stream, pos);
    assert forall|i: int| 0 <= i < data.len() implies twice[i] == data[i] by {
        lemma_xor_twice(data[i], stream[pos + i]);
    }
    assert(twice =~= data);
}

/// Applying a keystream to two pieces, one after the other, is applying it
/// to the whole.
pub proof fn lemma_xor_keystream_concat(a: Seq<u8>, b: Seq<u8>, stream: Seq<u8>, pos: int)
    ensures
        xor_keystream(a, stream, pos) + xor_keystream(b, stream, pos + a.len()) == xor_keystream(
            a + b,
            stream,
            pos,
        ),
{
    assert(xor_keystream(a, stream, pos) + xor_keystream(b, stream, pos + a.len())
        =~= xor_keystream(a + b, stream, pos));
}

/// Applying a keystream to a part of the data gives that part of the whole
/// result.
pub proof fn lemma_xor_keystream_subrange(
    data: Seq<u8>,
    stream: Seq<u8>,
    pos: int,
    from: int,
    to: int,
)
    requires
        0 <= from <= to <= data.len(),
    ensures
        xor_keystream(data.subrange(from, to), stream, pos + from) == xor_keystream(
            data,
            stream,
            pos,
        ).subrange(from, to),
{
    assert(xor_keystream(data.subrange(from, to), stream, pos + from) =~= xor_keystream(
        data,
        stream,
        pos,
    ).subrange(from, to));
}

/// Whether two byte slices hold the same bytes.
pub fn bytes_eq(a: &[u8], b: &[u8]) -> (r: bool)
    ensures
        r == (a@ == b@),
{
    if a.len() != b.len() {
        return false;
    }
    let mut i: usize = 0;
    while i < a.len()
        invariant
            a@.len() == b@.len(),
            i <= a@.len(),
            a@.subrange(0, i as int) == b@.subrange(0, i as int),
        decreases a.len() - i,
    {
        if a[i] != b[i] {
            return false;
        }
        i += 1;
        assert(a@.subrange(0, i as int) =~= a@.subrange(0, i - 1).push(a@[i - 1]));
        assert(b@.subrange(0, i as int) =~= b@.subrange(0, i - 1).push(b@[i - 1]));
    }
    assert(a@ =~= a@.subrange(0, a@.len() as int));
    assert(b@ =~= b@.subrange(0, b@.len() as int));
    true
}

/// Copies a slice into a new vector.
pub fn bytes_to_vec(slice: &[u8]) -> (v: Vec<u8>)
    ensures
        v@ == slice@,
{
    let mut v: Vec<u8> = Vec::new();
    let mut i: usize = 0;
    while i < slice.len()
        invariant
            i <= slice.len(),
            v@ == slice@.subrange(0, i as int),
        decreases slice.len() - i,
    {
        v.push(slice[i]);
        i += 1;
        assert(v@ =~= slice@.subrange(0, i as int));
    }
    assert(slice@.subrange(0, slice@.len() as int) =~= slice@);
    v
}

/// Appends the bytes of `bytes` to `out`.
pub fn extend_bytes(out: &mut Vec<u8>, bytes: &[u8])
    ensures
        final(out)@ == old(out)@ + bytes@,
{
    let ghost before = out@;
    let mut i: usize = 0;
    while i < bytes.len()
        invariant
            i <= bytes.len(),
            out@ == before + bytes@.subrange(0, i as int),
        decreases bytes.len() - i,
    {
        out.push(bytes[i]);
        i += 1;
        assert(out@ =~= before + bytes@.subrange(0, i as int));
    }
    assert(bytes@.subrange(0, bytes@.len() as int) =~= bytes@);
}

/// Appends `n` zero bytes to `out`.
pub fn extend_zeros(out: &mut Vec<u8>, n: usize)
    ensures
        final(out)@ == old(out)@ + zeros(n as nat),
{
    let ghost before = out@;
    let mut i: usize = 0;
    while i < n
        invariant
            i <= n,
            out@ == before + zeros(i as nat),
        decreases n - i,
    {
        out.push(0u8);
        i += 1;
        assert(out@ =~= before + zeros(i as nat));
    }
}

/// Writes `bytes` over the bytes of `out` from offset `at` on.
pub fn overwrite_bytes(out: &mut Vec<u8>, at: usize, bytes: &[u8])
    requires
        at + bytes@.len() <= old(out)@.len(),
    ensures
        final(out)@ == old(out)@.subrange(0, at as int) + bytes@ + old(out)@.subrange(
            at + bytes@.len(),
            old(out)@.len() as int,
        ),
{
    let ghost before = out@;
    let total = out.len();
    let mut i: usize = 0;
    while i < bytes.len()
        invariant
            i <= bytes.len(),
            total == before.len(),
            at + bytes@.len() <= total,
            out@ == before.subrange(0, at as int) + bytes@.subrange(0, i as int) + before.subrange(
                at + i,
                total as int,
            ),
        decreases bytes.len() - i,
    {
        let ghost prev = out@;
        out[at + i] = bytes[i];
        i += 1;
        assert(out@ =~= before.subrange(0, at as int) + bytes@.subrange(0, i as int)
            + before.subrange(at + i, total as int));
    }
    assert(bytes@.subrange(0, bytes@.len() as int) =~= bytes@);
}

/// Copies `bytes` over the front of `buf`.
pub fn copy_into(buf: &mut [u8], bytes: &[u8])
    requires
        bytes@.len() <= old(buf)@.len(),
    ensures
        final(buf)@.len() == old(buf)@.len(),
        final(buf)@.subrange(0, bytes@.len() as int) == bytes@,
        final(buf)@.subrange(bytes@.len() as int, old(buf)@.len() as int) == old(buf)@.subrange(
            bytes@.len() as int,
            old(buf)@.len() as int,
        ),
{
    let ghost whole = buf@;
    let n = bytes.len();
    let mut i: usize = 0;
    while i < n
        invariant
            i <= n <= buf@.len(),
            n == bytes@.len(),
            buf@.len() == whole.len(),
            buf@.subrange(0, i as int) == bytes@.subrange(0, i as int),
            buf@.subrange(i as int, whole.len() as int) == whole.subrange(
                i as int,
                whole.len() as int,
            ),
        decreases n - i,
    {
        let ghost prev = buf@;
        buf[i] = bytes[i];
        proof {
            assert(buf@ == prev.update(i as int, bytes@[i as int]));
            assert(buf@.subrange(0, i + 1) =~= prev.subrange(0, i as int).push(bytes@[i as int]));
            assert(bytes@.subrange(0, i + 1) =~= bytes@.subrange(0, i as int).push(
                bytes@[i as int],
            ));
            assert(buf@.subrange(i + 1, whole.len() as int) =~= prev.subrange(
                i as int,
                whole.len() as int,
            ).subrange(1, whole.len() - i));
            assert(whole.subrange(i + 1, whole.len() as int) =~= whole.subrange(
                i as int,
                whole.len() as int,
            ).subrange(1, whole.len() - i));
        }
        i += 1;
    }
    assert(bytes@.subrange(0, n as int) =~= bytes@);
}

} // verus!
