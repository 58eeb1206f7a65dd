//! Chunked byte-order reversal.
use vstd::arithmetic::div_mod::{
    lemma_fundamental_div_mod, lemma_fundamental_div_mod_converse, lemma_mod_multiples_basic,
    lemma_mod_pos_bound,
};
use vstd::prelude::*;

verus! {

/// Position, in the input, of the byte that lands at position `i` when every
/// chunk of `k` bytes is reversed in place.
pub open spec fn swapped_index(i: int, k: int) -> int {
    (i / k) * k + (k - 1 - i % k)
}

/// `b` with the byte order reversed inside each consecutive chunk of `k` bytes.
pub open spec fn swap_chunks(b: Seq<u8>, k: nat) -> Seq<u8> {
    Seq::new(b.len(), |i: int| b[swapped_index(i, k as int)])
}

/// Position `base + d` inside the chunk that starts at `base`.
pub proof fn lemma_in_chunk(base: int, k: int, d: int)
    requires
        k > 0,
        base >= 0,
        base % k == 0,
        0 <= d < k,
    ensures
        (base + d) / k * k == base,
        (base + d) % k == d,
{
    lemma_fundamental_div_mod(base, k);
    let m = base / k;
    assert(base + d == m * k + d) by (nonlinear_arith)
        requires
            base == k * (base / k) + base % k,
            base % k == 0,
            m == base / k,
    ;
    lemma_fundamental_div_mod_converse(base + d, k, m, d);
}

/// A chunk that starts inside a buffer made of whole chunks also ends inside it.
pub proof fn lemma_chunk_fits(start: int, k: int, len: int)
    requires
        k > 0,
        0 <= start < len,
        start % k == 0,
        len % k == 0,
    ensures
        start + k <= len,
{
    lemma_fundamental_div_mod(start, k);
    lemma_fundamental_div_mod(len, k);
    let s = start / k;
    let l = len / k;
    assert(start + k <= len) by (nonlinear_arith)
        requires
            start == k * s,
            len == k * l,
            start < len,
            k > 0,
    ;
}

/// Reversing every chunk twice gives back the original bytes.
pub proof fn lemma_swap_chunks_involution(b: Seq<u8>, k: nat)
    requires
        k > 0,
        b.len() % k == 0,
    ensures
        swap_chunks(swap_chunks(b, k), k) == b,
{
    let s = swap_chunks(b, k);
    assert forall|i: int| 0 <= i < b.len() implies #[trigger] swap_chunks(s, k)[i] == b[i] by {
        let ki = k as int;
        let base = (i / ki) * ki;
        lemma_fundamental_div_mod(i, ki);
        lemma_mod_multiples_basic(i / ki, ki);
        lemma_mod_pos_bound(i, ki);
        assert(i == base + i % ki) by (nonlinear_arith)
            requires
                i == ki * (i / ki) + i % ki,
                base == (i / ki) * ki,
        ;
        lemma_in_chunk(base, ki, i % ki);
        lemma_chunk_fits(base, ki, b.len() as int);
        let j = swapped_index(i, ki);
        lemma_in_chunk(base, ki, ki - 1 - i % ki);
        assert(j / ki * ki == base);
        assert(j % ki == ki - 1 - i % ki);
        assert(swapped_index(j, ki) == i);
    }
    assert(swap_chunks(s, k) =~= b);
}

/// Reverses the byte order inside each consecutive chunk of `chunk_size`
/// bytes, keeping the chunks in order. Returns `None` when the input is not a
/// whole number of chunks.
pub fn convert_endianness_vec(bytes: &[u8], chunk_size: usize) -> (r: Option<Vec<u8>>)
    ensures
        r is Some <==> (chunk_size > 0 && bytes@.len() % chunk_size as nat == 0),
        r matches Some(v) ==> v@ == swap_chunks(bytes@, chunk_size as nat),
{
    if chunk_size == 0 || bytes.len() % chunk_size != 0 {
        return None;
    }
    let ghost k = chunk_size as int;
    let ghost target = swap_chunks(bytes@, chunk_size as nat);
    let mut out: Vec<u8> = Vec::with_capacity(bytes.len());
    let mut start: usize = 0;
    while start < bytes.len()
        invariant
            chunk_size > 0,
            k == chunk_size as int,
            target == swap_chunks(bytes@, chunk_size as nat),
            bytes@.len() % chunk_size as nat == 0,
            start <= bytes.len(),
            start % chunk_size == 0,
            out@ == target.subrange(0, start as int),
        decreases bytes.len() - start,
    {
        proof {
            lemma_chunk_fits(start as int, k, bytes.len() as int);
        }
        let mut j: usize = chunk_size;
        while j > 0
            invariant
                chunk_size > 0,
                k == chunk_size as int,
                target == swap_chunks(bytes@, chunk_size as nat),
                start + chunk_size <= bytes.len(),
                start % chunk_size == 0,
                j <= chunk_size,
                out@ == target.subrange(0, start + (chunk_size - j)),
            decreases j,
        {
            j -= 1;
            proof {
                lemma_in_chunk(start as int, k, k - 1 - j);
            }
            out.push(bytes[start + j]);
            assert(out@ =~= target.subrange(0, start + (chunk_size - j)));
        }
        proof {
            lemma_in_chunk(start as int, k, 0);
            lemma_mod_multiples_basic(start as int / k + 1, k);
            assert((start + chunk_size) as int == (start as int / k + 1) * k) by (nonlinear_arith)
                requires
                    (start as int / k) * k == start as int,
                    k == chunk_size as int,
            ;
        }
        start += chunk_size;
    }
    assert(out@ =~= target);
    Some(out)
}

} // verus!

verus! {

/// Appends `src[start..end]` to `out`.
pub(crate) fn append_range(out: &mut Vec<u8>, src: &[u8], start: usize, end: usize)
    requires
        start <= end <= src@.len(),
    ensures
        final(out)@ == old(out)@ + src@.subrange(start as int, end as int),
{
    let mut i: usize = start;
    while i < end
        invariant
            start <= i <= end <= src@.len(),
            out@ == old(out)@ + src@.subrange(start as int, i as int),
        decreases end - i,
    {
        out.push(src[i]);
        i += 1;
        assert(out@ =~= old(out)@ + src@.subrange(start as int, i as int));
    }
}

/// `convert_endianness_vec` on input known to be a whole number of chunks.
pub(crate) fn swap_whole_chunks(bytes: &[u8], chunk_size: usize) -> (r: Vec<u8>)
    requires
        chunk_size > 0,
        bytes@.len() % chunk_size as nat == 0,
    ensures
        r@ == swap_chunks(bytes@, chunk_size as nat),
        r@.len() == bytes@.len(),
{
    match convert_endianness_vec(bytes, chunk_size) {
        Some(v) => v,
        None => {
            assert(false);
            Vec::new()
        },
    }
}

} // verus!
