//! Writing a kernel value's bytes to a user buffer that may straddle pages.
//!
//! A user pointer is handed to the kernel as the list of page pieces it covers;
//! the bytes of the value are laid out over those pieces in order.
use vstd::prelude::*;

verus! {

/// Offset of piece `k` within the user buffer: the total length of the pieces before it.
pub open spec fn piece_start(pieces: Seq<Seq<u8>>, k: int) -> int
    decreases k,
{
    if k <= 0 {
        0
    } else {
        piece_start(pieces, k - 1) + pieces[k - 1].len()
    }
}

/// The pieces after the bytes `src` are written from the start of the buffer:
/// every position the value reaches takes its byte, the rest keep theirs.
pub open spec fn written(pieces: Seq<Seq<u8>>, src: Seq<u8>) -> Seq<Seq<u8>> {
    Seq::new(
        pieces.len(),
        |k: int|
            Seq::new(
                pieces[k].len(),
                |t: int|
                    if piece_start(pieces, k) + t < src.len() {
                        src[piece_start(pieces, k) + t]
                    } else {
                        pieces[k][t]
                    },
            ),
    )
}

/// The user buffer's bytes, piece after piece.
pub open spec fn flatten(pieces: Seq<Seq<u8>>) -> Seq<u8>
    decreases pieces.len(),
{
    if pieces.len() == 0 {
        Seq::empty()
    } else {
        flatten(pieces.drop_last()) + pieces.last()
    }
}

proof fn lemma_piece_start_prefix(p: Seq<Seq<u8>>, q: Seq<Seq<u8>>, k: int)
    requires
        0 <= k,
        k <= p.len(),
        k <= q.len(),
        forall|m: int| 0 <= m < k ==> p[m] == q[m],
    ensures
        piece_start(p, k) == piece_start(q, k),
    decreases k,
{
    if k > 0 {
        lemma_piece_start_prefix(p, q, k - 1);
    }
}

proof fn lemma_flatten_len(p: Seq<Seq<u8>>)
    ensures
        flatten(p).len() == piece_start(p, p.len() as int),
    decreases p.len(),
{
    if p.len() > 0 {
        lemma_flatten_len(p.drop_last());
        lemma_piece_start_prefix(p, p.drop_last(), p.len() - 1);
    }
}

/// Reading the user buffer back after `copy_to_user`: it is as long as before, it
/// begins with the bytes written, and every byte past them is as it was.
pub proof fn lemma_written_reads_back(pieces: Seq<Seq<u8>>, src: Seq<u8>)
    ensures
        flatten(written(pieces, src)).len() == flatten(pieces).len(),
        forall|x: int|
            0 <= x < flatten(pieces).len() ==> #[trigger] flatten(written(pieces, src))[x] == if x < src.len() {
                src[x]
            } else {
                flatten(pieces)[x]
            },
    decreases pieces.len(),
{
    if pieces.len() > 0 {
        let n = pieces.len() as int;
        let p1 = pieces.drop_last();
        let w = written(pieces, src);
        assert forall|k: int| 0 <= k < n - 1 implies piece_start(pieces, k) == piece_start(p1, k) by {
            lemma_piece_start_prefix(pieces, p1, k);
        }
        assert(w.drop_last() =~= written(p1, src));
        lemma_written_reads_back(p1, src);
        lemma_flatten_len(p1);
        lemma_piece_start_prefix(pieces, p1, n - 1);
        assert(flatten(w) == flatten(written(p1, src)) + w.last());
        assert(flatten(pieces) == flatten(p1) + pieces.last());
    }
}

/// When the buffer is at least as long as `src`, its first bytes read back as `src`.
pub proof fn lemma_written_prefix(pieces: Seq<Seq<u8>>, src: Seq<u8>)
    requires
        src.len() <= flatten(pieces).len(),
    ensures
        flatten(written(pieces, src)).subrange(0, src.len() as int) == src,
{
    lemma_written_reads_back(pieces, src);
    assert(flatten(written(pieces, src)).subrange(0, src.len() as int) =~= src);
}

/// Byte `i` (least significant first) of `x`.
pub open spec fn le_byte(x: u64, i: int) -> u8 {
    ((x >> ((8 * i) as u64)) & 0xff) as u8
}

/// The `n` low-order bytes of `x`, least significant first.
pub open spec fn le_bytes(x: u64, n: int) -> Seq<u8> {
    Seq::new(n as nat, |i: int| le_byte(x, i))
}

/// The 64-bit word whose little-endian bytes are the first eight of `b`.
pub open spec fn le_word(b: Seq<u8>) -> u64 {
    (b[0] as u64) | ((b[1] as u64) << 8u64) | ((b[2] as u64) << 16u64) | ((b[3] as u64) << 24u64) | ((
    b[4] as u64) << 32u64) | ((b[5] as u64) << 40u64) | ((b[6] as u64) << 48u64) | ((b[7] as u64)
        << 56u64)
}

/// Reading eight little-endian bytes back as a word gives the word written.
pub proof fn lemma_le_word_round_trip(x: u64)
    ensures
        le_word(le_bytes(x, 8)) == x,
{
    let b = le_bytes(x, 8);
    assert(b[0] == ((x >> 0u64) & 0xff) as u8);
    assert(b[1] == ((x >> 8u64) & 0xff) as u8);
    assert(b[2] == ((x >> 16u64) & 0xff) as u8);
    assert(b[3] == ((x >> 24u64) & 0xff) as u8);
    assert(b[4] == ((x >> 32u64) & 0xff) as u8);
    assert(b[5] == ((x >> 40u64) & 0xff) as u8);
    assert(b[6] == ((x >> 48u64) & 0xff) as u8);
    assert(b[7] == ((x >> 56u64) & 0xff) as u8);
    assert(x == ((((x >> 0u64) & 0xff) as u8) as u64) | (((((x >> 8u64) & 0xff) as u8) as u64) << 8u64) | ((((
    (x >> 16u64) & 0xff) as u8) as u64) << 16u64) | (((((x >> 24u64) & 0xff) as u8) as u64) << 24u64)
        | (((((x >> 32u64) & 0xff) as u8) as u64) << 32u64) | (((((x >> 40u64) & 0xff) as u8) as u64)
        << 40u64) | (((((x >> 48u64) & 0xff) as u8) as u64) << 48u64) | (((((x >> 56u64) & 0xff) as u8)
        as u64) << 56u64)) by (bit_vector);
}

/// The 32-bit word whose little-endian bytes are the first four of `b`.
pub open spec fn le_word32(b: Seq<u8>) -> u32 {
    (b[0] as u32) | ((b[1] as u32) << 8u32) | ((b[2] as u32) << 16u32) | ((b[3] as u32) << 24u32)
}

/// Reading four little-endian bytes back as a 32-bit word gives the word written.
pub proof fn lemma_le_word32_round_trip(x: u32)
    ensures
        le_word32(le_bytes(x as u64, 4)) == x,
{
    let y = x as u64;
    let b = le_bytes(y, 4);
    assert(b[0] == ((y >> 0u64) & 0xff) as u8);
    assert(b[1] == ((y >> 8u64) & 0xff) as u8);
    assert(b[2] == ((y >> 16u64) & 0xff) as u8);
    assert(b[3] == ((y >> 24u64) & 0xff) as u8);
    assert(x == ((((y >> 0u64) & 0xff) as u8) as u32) | (((((y >> 8u64) & 0xff) as u8) as u32) << 8u32) | (((((
    y >> 16u64) & 0xff) as u8) as u32) << 16u32) | (((((y >> 24u64) & 0xff) as u8) as u32) << 24u32))
        by (bit_vector)
        requires
            y == x as u64,
    ;
}

/// Appends the `n` low-order bytes of `x` (at most 8), least significant first.
pub fn push_le_bytes(out: &mut Vec<u8>, x: u64, n: usize)
    requires
        n <= 8,
    ensures
        final(out)@ == old(out)@ + le_bytes(x, n as int),
{
    let mut i: usize = 0;
    while i < n
        invariant
            i <= n,
            n <= 8,
            out@ == old(out)@ + le_bytes(x, i as int),
        decreases n - i,
    {
        let b = ((x >> (8 * i as u64)) & 0xff) as u8;
        out.push(b);
        i = i + 1;
        assert(out@ =~= old(out)@ + le_bytes(x, i as int));
    }
}

/// Writes `src` over the user buffer given as its page `pieces`, from the start;
/// bytes past the end of `src` keep their old contents.
pub fn copy_to_user(src: &Vec<u8>, pieces: &mut Vec<Vec<u8>>)
    ensures
        final(pieces).deep_view() == written(old(pieces).deep_view(), src@),
{
    let ghost old_view = pieces.deep_view();
    let mut out: Vec<Vec<u8>> = Vec::new();
    let mut offset: usize = 0;
    let mut k: usize = 0;
    while k < pieces.len()
        invariant
            k <= pieces@.len(),
            pieces.deep_view() == old_view,
            out@.len() == k,
            offset <= src@.len(),
            offset == src@.len() || offset == piece_start(old_view, k as int),
            offset < src@.len() ==> offset == piece_start(old_view, k as int),
            piece_start(old_view, k as int) >= offset,
            forall|m: int| #![trigger out@[m]] 0 <= m < k ==> out@[m]@ == written(old_view, src@)[m],
        decreases pieces@.len() - k,
    {
        let piece = &pieces[k];
        assert(piece@ == old_view[k as int]);
        let mut fresh: Vec<u8> = Vec::new();
        let mut t: usize = 0;
        while t < piece.len()
            invariant
                t <= piece@.len(),
                piece@ == old_view[k as int],
                k < old_view.len(),
                offset <= src@.len(),
                offset < src@.len() ==> offset == piece_start(old_view, k as int),
                piece_start(old_view, k as int) >= offset,
                fresh@.len() == t,
                forall|u: int|
                    #![trigger fresh@[u]]
                    0 <= u < t ==> fresh@[u] == written(old_view, src@)[k as int][u],
            decreases piece@.len() - t,
        {
            if t < src.len() - offset {
                fresh.push(src[offset + t]);
            } else {
                fresh.push(piece[t]);
            }
            t = t + 1;
        }
        assert(fresh@ =~= written(old_view, src@)[k as int]);
        out.push(fresh);
        if piece.len() > src.len() - offset {
            offset = src.len();
        } else {
            offset = offset + piece.len();
        }
        k = k + 1;
    }
    *pieces = out;
    assert(pieces.deep_view() =~= written(old_view, src@)) by {
        assert forall|m: int| 0 <= m < pieces@.len() implies #[trigger] pieces.deep_view()[m] =~= written(
            old_view,
            src@,
        )[m] by {
            assert(out@[m]@ == written(old_view, src@)[m]);
        }
    }
}

} // verus!
