//! Block identities aligned with the height index, kept in fixed-size chunks
//! with a Fenwick tree over the chunk lengths so an ordinal can be located,
//! and a changed run spliced, without walking the whole document.

use vstd::prelude::*;
use crate::fenwick::{
    covered, is_pow2, lemma_covered_bounds, lemma_covered_step, lemma_lowbit_parent,
    lemma_lowbit_split, lemma_lowbit_step, lemma_pow2_half, lemma_prefix_sum_mono,
    lemma_prefix_sum_strict, lowbit, prefix_sum,
};

verus! {

broadcast use vstd::seq::group_seq_axioms;

/// Stable identity of one Markdown block across index updates.
#[derive(Clone, Copy, Debug, PartialEq, Eq, Hash, Structural)]
pub struct BlockId(pub u64);

/// One entry of the block-granularity height index: which block it measures
/// and how many physical lines that block spans.
#[derive(Clone, Copy, Debug, PartialEq, Eq, Structural)]
pub struct HeightBlock {
    pub id: BlockId,
    pub line_count: usize,
}

/// Number of blocks a freshly built chunk holds.
pub const HEIGHT_BLOCK_CHUNK_TARGET: usize = 128;

/// Most blocks a `HeightBlocks` can hold: a `HeightBlock` occupies 16 bytes,
/// so no address space can store more.
pub open spec fn max_height_blocks() -> nat {
    (usize::MAX / 16) as nat
}

/// The chunks' contents as sequences.
pub open spec fn chunk_seqs(chunks: Seq<Vec<HeightBlock>>) -> Seq<Seq<HeightBlock>> {
    chunks.map_values(|c: Vec<HeightBlock>| c@)
}

/// The chunks' lengths.
pub open spec fn chunk_lens(chunks: Seq<Vec<HeightBlock>>) -> Seq<int> {
    chunks.map_values(|c: Vec<HeightBlock>| c@.len() as int)
}

/// `counts[i]` (1-based) sums the lengths of chunks `i - lowbit(i) .. i`.
pub open spec fn fenwick_counts(counts: Seq<usize>, lens: Seq<int>) -> bool {
    &&& counts.len() == lens.len() + 1
    &&& counts[0] == 0
    &&& forall|i: int|
        1 <= i <= lens.len() ==> #[trigger] counts[i] == prefix_sum(lens, i) - prefix_sum(
            lens,
            i - lowbit(i),
        )
}

/// Chunked block metadata with a Fenwick tree of chunk lengths.
#[derive(Clone, Debug)]
pub struct HeightBlocks {
    chunks: Vec<Vec<HeightBlock>>,
    counts: Vec<usize>,
    len: usize,
}

impl View for HeightBlocks {
    type V = Seq<HeightBlock>;

    closed spec fn view(&self) -> Seq<HeightBlock> {
        chunk_seqs(self.chunks@).flatten()
    }
}

/// Number of blocks in the first `k` chunks.
pub open spec fn blocks_before(ss: Seq<Seq<HeightBlock>>, k: int) -> int {
    ss.take(k).flatten().len() as int
}

pub proof fn lemma_blocks_before(chunks: Seq<Vec<HeightBlock>>, k: int)
    requires
        0 <= k <= chunks.len(),
    ensures
        blocks_before(chunk_seqs(chunks), k) == prefix_sum(chunk_lens(chunks), k),
    decreases k,
{
    let ss = chunk_seqs(chunks);
    if k == 0 {
        assert(ss.take(0) =~= Seq::<Seq<HeightBlock>>::empty());
    } else {
        lemma_blocks_before(chunks, k - 1);
        assert(ss.take(k) =~= ss.take(k - 1).push(ss[k - 1]));
        ss.take(k - 1).lemma_flatten_push(ss[k - 1]);
    }
}

/// The flattened sequence split around chunk `c`.
pub proof fn lemma_flatten_around<T>(ss: Seq<Seq<T>>, c: int)
    requires
        0 <= c < ss.len(),
    ensures
        ss.flatten() == ss.take(c).flatten() + ss[c] + ss.skip(c + 1).flatten(),
{
    vstd::seq_lib::lemma_flatten_concat(ss.take(c), ss.skip(c));
    assert(ss.take(c) + ss.skip(c) =~= ss);
    let rest = ss.skip(c);
    assert(rest.drop_first() =~= ss.skip(c + 1));
    assert(rest.flatten() == rest[0] + rest.drop_first().flatten());
}

/// The two's-complement negation of `x` (what `usize::wrapping_neg`
/// gives), that is `!x + 1`.
fn wrapping_neg(x: usize) -> (r: usize)
    requires
        x >= 1,
    ensures
        r == ((!x) + 1) as usize,
{
    let r = 0usize.wrapping_sub(x);
    assert((usize::BITS == 32 && r + x == 0x1_0000_0000) || (usize::BITS == 64 && r + x
        == 0x1_0000_0000_0000_0000));
    assert(r == ((!x) + 1) as usize) by (bit_vector)
        requires
            (usize::BITS == 32 && r + x == 0x1_0000_0000) || (usize::BITS == 64 && r + x
                == 0x1_0000_0000_0000_0000),
    ;
    r
}

/// `x & x.wrapping_neg()` isolates the lowest set bit.
proof fn lemma_and_neg_is_lowbit(x: usize)
    requires
        x >= 1,
    ensures
        x & (((!x) + 1) as usize) == lowbit(x as int),
    decreases x,
{
    let n = ((!x) + 1) as usize;
    if x % 2 == 1 {
        assert(x & n == 1) by (bit_vector)
            requires
                x % 2 == 1,
                n == ((!x) + 1) as usize,
        ;
    } else {
        let y = x / 2;
        let m = ((!y) + 1) as usize;
        assert((x & n) == 2 * (y & m)) by (bit_vector)
            requires
                x > 0,
                x % 2 == 0,
                n == ((!x) + 1) as usize,
                y == x / 2,
                m == ((!y) + 1) as usize,
        ;
        lemma_and_neg_is_lowbit(y);
    }
}

/// The flattened chunks, cut at block `before(c) + s` of chunk `c`.
pub proof fn lemma_flatten_cut<T>(ss: Seq<Seq<T>>, c: int, s: int)
    requires
        0 <= c < ss.len(),
        0 <= s <= ss[c].len(),
    ensures
        ss.flatten().take(ss.take(c).flatten().len() + s) == ss.take(c).flatten() + ss[c].take(s),
        ss.flatten().skip(ss.take(c).flatten().len() + s) == ss[c].skip(s) + ss.skip(
            c + 1,
        ).flatten(),
        ss.flatten().len() == ss.take(c).flatten().len() + ss[c].len() + ss.skip(
            c + 1,
        ).flatten().len(),
{
    lemma_flatten_around(ss, c);
    let a = ss.take(c).flatten();
    let b = ss.skip(c + 1).flatten();
    let x = ss[c];
    assert((a + x + b).take(a.len() + s) =~= a + x.take(s));
    assert((a + x + b).skip(a.len() + s) =~= x.skip(s) + b);
}

/// Flattening distributes over concatenation of three runs of chunks.
pub proof fn lemma_flatten_concat3<T>(a: Seq<Seq<T>>, b: Seq<Seq<T>>, c: Seq<Seq<T>>)
    ensures
        (a + b + c).flatten() == a.flatten() + b.flatten() + c.flatten(),
{
    vstd::seq_lib::lemma_flatten_concat(a + b, c);
    vstd::seq_lib::lemma_flatten_concat(a, b);
}

/// Replaces `start..end` of `v` by the contents of `replacement` (what
/// `Vec::splice` does).
fn vec_splice<T>(v: &mut Vec<T>, start: usize, end: usize, replacement: Vec<T>)
    requires
        start <= end <= old(v)@.len(),
    ensures
        final(v)@ == old(v)@.take(start as int) + replacement@ + old(v)@.skip(end as int),
{
    let ghost before = v@;
    let mut tail = v.split_off(end);
    v.truncate(start);
    let mut replacement = replacement;
    v.append(&mut replacement);
    v.append(&mut tail);
    proof {
        assert(before.subrange(0, end as int).subrange(0, start as int) =~= before.take(
            start as int,
        ));
        assert(before.subrange(end as int, before.len() as int) =~= before.skip(end as int));
    }
}

/// Cuts `blocks` into consecutive chunks of `HEIGHT_BLOCK_CHUNK_TARGET`
/// blocks (the last one possibly shorter).
fn chunk_blocks(blocks: &Vec<HeightBlock>) -> (r: Vec<Vec<HeightBlock>>)
    ensures
        chunk_seqs(r@).flatten() == blocks@,
        forall|c: int| 0 <= c < r@.len() ==> #[trigger] r@[c]@.len() >= 1,
        forall|c: int|
            0 <= c < r@.len() ==> #[trigger] r@[c]@ == blocks@.subrange(
                c * HEIGHT_BLOCK_CHUNK_TARGET,
                if (c + 1) * HEIGHT_BLOCK_CHUNK_TARGET <= blocks@.len() {
                    (c + 1) * HEIGHT_BLOCK_CHUNK_TARGET
                } else {
                    blocks@.len() as int
                },
            ),
{
    let mut out: Vec<Vec<HeightBlock>> = Vec::new();
    let mut start: usize = 0;
    let n = blocks.len();
    while start < n
        invariant
            n == blocks@.len(),
            start <= n,
            start == out@.len() * HEIGHT_BLOCK_CHUNK_TARGET || start == n,
            chunk_seqs(out@).flatten() == blocks@.take(start as int),
            forall|c: int| 0 <= c < out@.len() ==> #[trigger] out@[c]@.len() >= 1,
            forall|c: int|
                0 <= c < out@.len() ==> #[trigger] out@[c]@ == blocks@.subrange(
                    c * HEIGHT_BLOCK_CHUNK_TARGET,
                    if (c + 1) * HEIGHT_BLOCK_CHUNK_TARGET <= blocks@.len() {
                        (c + 1) * HEIGHT_BLOCK_CHUNK_TARGET
                    } else {
                        blocks@.len() as int
                    },
                ),
        decreases n - start,
    {
        let end = if n - start > HEIGHT_BLOCK_CHUNK_TARGET {
            start + HEIGHT_BLOCK_CHUNK_TARGET
        } else {
            n
        };
        let mut chunk: Vec<HeightBlock> = Vec::new();
        let mut i = start;
        while i < end
            invariant
                start <= i <= end <= n,
                n == blocks@.len(),
                chunk@ == blocks@.subrange(start as int, i as int),
            decreases end - i,
        {
            chunk.push(blocks[i]);
            i += 1;
        }
        let ghost old_out = chunk_seqs(out@);
        out.push(chunk);
        proof {
            assert(chunk_seqs(out@) =~= old_out.push(chunk@));
            old_out.lemma_flatten_push(chunk@);
            assert(blocks@.take(end as int) =~= blocks@.take(start as int) + chunk@);
            if end < n {
                assert((out@.len() - 1) * HEIGHT_BLOCK_CHUNK_TARGET == start) by (nonlinear_arith)
                    requires
                        start == (out@.len() - 1) * HEIGHT_BLOCK_CHUNK_TARGET,
                ;
            }
        }
        start = end;
    }
    proof {
        assert(blocks@.take(n as int) =~= blocks@);
    }
    out
}

/// Length of a `start..end` range (empty when `end <= start`).
pub open spec fn range_len(range: std::ops::Range<usize>) -> int {
    if range.end > range.start {
        range.end - range.start
    } else {
        0
    }
}

/// `blocks` occurs in `view` starting at `start`.
pub open spec fn blocks_at(view: Seq<HeightBlock>, start: int, blocks: Seq<HeightBlock>) -> bool {
    forall|at: int|
        0 <= at < blocks.len() ==> start + at < view.len() && #[trigger] view[start + at]
            == blocks[at]
}

/// The chunks' total, as the prefix sum of their lengths.
pub proof fn lemma_chunks_prefix(chunks: Seq<Vec<HeightBlock>>)
    ensures
        chunk_seqs(chunks).flatten().len() == prefix_sum(chunk_lens(chunks), chunks.len() as int),
{
    lemma_blocks_before(chunks, chunks.len() as int);
    assert(chunk_seqs(chunks).take(chunks.len() as int) =~= chunk_seqs(chunks));
}

/// Appends `src[from..to]` to `out`.
fn push_range(out: &mut Vec<HeightBlock>, src: &Vec<HeightBlock>, from: usize, to: usize)
    requires
        from <= to <= src@.len(),
    ensures
        final(out)@ == old(out)@ + src@.subrange(from as int, to as int),
{
    let mut i = from;
    while i < to
        invariant
            from <= i <= to <= src@.len(),
            out@ == old(out)@ + src@.subrange(from as int, i as int),
        decreases to - i,
    {
        out.push(src[i]);
        i += 1;
        proof {
            assert(src@.subrange(from as int, i as int) =~= src@.subrange(from as int, i - 1).push(
                src@[i - 1],
            ));
        }
    }
}

/// Appends all of `src` to `out`.
fn push_all(out: &mut Vec<HeightBlock>, src: &[HeightBlock])
    ensures
        final(out)@ == old(out)@ + src@,
{
    let mut i: usize = 0;
    while i < src.len()
        invariant
            i <= src@.len(),
            out@ == old(out)@ + src@.take(i as int),
        decreases src@.len() - i,
    {
        out.push(src[i]);
        i += 1;
        proof {
            assert(src@.take(i as int) =~= src@.take(i - 1).push(src@[i - 1]));
        }
    }
    proof {
        assert(src@.take(i as int) =~= src@);
    }
}

impl HeightBlocks {
    /// Structural invariant: chunks are non-empty, `len` counts their
    /// blocks, and `counts` is the Fenwick tree of the chunk lengths (or
    /// empty, for a cleared value).
    pub closed spec fn wf(&self) -> bool {
        &&& forall|c: int| 0 <= c < self.chunks@.len() ==> #[trigger] self.chunks@[c]@.len() >= 1
        &&& self.len as int == prefix_sum(chunk_lens(self.chunks@), self.chunks@.len() as int)
        &&& self.len <= max_height_blocks()
        &&& (self.chunks@.len() == 0 && self.counts@.len() == 0) || fenwick_counts(
            self.counts@,
            chunk_lens(self.chunks@),
        )
    }

    /// Rebuilds the Fenwick tree over the current chunk lengths.
    fn retree(&mut self)
        requires
            forall|c: int|
                0 <= c < old(self).chunks@.len() ==> #[trigger] old(self).chunks@[c]@.len() >= 1,
            prefix_sum(chunk_lens(old(self).chunks@), old(self).chunks@.len() as int)
                <= max_height_blocks(),
        ensures
            final(self).chunks == old(self).chunks,
            final(self).len == old(self).len,
            fenwick_counts(final(self).counts@, chunk_lens(final(self).chunks@)),
    {
        let ghost lens = chunk_lens(self.chunks@);
        let ghost n = self.chunks@.len() as int;
        proof {
            if n > 0 {
                lemma_prefix_sum_strict(lens, 0, n);
            }
        }
        self.counts.clear();
        self.counts.push(0);
        let mut c: usize = 0;
        while c < self.chunks.len()
            invariant
                c <= n,
                n == self.chunks@.len(),
                lens == chunk_lens(self.chunks@),
                self.chunks == old(self).chunks,
                self.len == old(self).len,
                self.counts@.len() == c + 1,
                self.counts@[0] == 0,
                forall|i: int| 1 <= i <= c ==> #[trigger] self.counts@[i] == lens[i - 1],
            decreases n - c,
        {
            let length = self.chunks[c].len();
            self.counts.push(length);
            c += 1;
        }
        let total = self.counts.len();
        proof {
            assert forall|i: int| 1 <= i < total implies #[trigger] self.counts@[i] == lens[i
                - 1] + prefix_sum(lens, covered(i, 1)) - prefix_sum(lens, i - lowbit(i)) by {
                lemma_covered_bounds(i, 1);
            }
        }
        for index in 1..total
            invariant
                total == self.counts@.len(),
                total == n + 1,
                n == self.chunks@.len(),
                n <= prefix_sum(lens, n) <= max_height_blocks(),
                lens == chunk_lens(self.chunks@),
                self.chunks == old(self).chunks,
                self.len == old(self).len,
                self.counts@[0] == 0,
                forall|i: int|
                    1 <= i < total ==> #[trigger] self.counts@[i] == lens[i - 1] + prefix_sum(
                        lens,
                        covered(i, index as int),
                    ) - prefix_sum(lens, i - lowbit(i)),
        {
            let ghost k = index as int;
            let ghost before_counts = self.counts@;
            proof {
                lemma_lowbit_split(k);
                lemma_and_neg_is_lowbit(index);
                lemma_covered_bounds(k, k);
            }
            let low = index & wrapping_neg(index);
            let parent = index + low;
            if parent < total {
                proof {
                    let q = parent as int;
                    lemma_lowbit_split(q);
                    lemma_covered_step(q, k);
                    lemma_covered_bounds(q, k);
                    lemma_prefix_sum_mono(lens, k, q - 1);
                    lemma_prefix_sum_mono(lens, q, n);
                    lemma_prefix_sum_mono(lens, q - lowbit(q), k - lowbit(k));
                    lemma_prefix_sum_mono(lens, k - lowbit(k), k);
                    lemma_prefix_sum_mono(lens, 0, q - lowbit(q));
                }
                let value = self.counts[parent] + self.counts[index];
                self.counts.set(parent, value);
            }
            proof {
                assert forall|i: int| 1 <= i < total implies #[trigger] self.counts@[i] == lens[i
                    - 1] + prefix_sum(lens, covered(i, k + 1)) - prefix_sum(lens, i - lowbit(i)) by {
                    lemma_covered_step(i, k);
                    if i == k + lowbit(k) {
                        lemma_covered_bounds(i, k);
                    } else {
                        assert(self.counts@[i] == before_counts[i]);
                    }
                }
            }
        }
        proof {
            assert forall|i: int| 1 <= i <= lens.len() implies #[trigger] self.counts@[i]
                == prefix_sum(lens, i) - prefix_sum(lens, i - lowbit(i)) by {
                lemma_covered_bounds(i, total as int);
            }
        }
    }

    /// The chunk holding block `ordinal` and its slot in that chunk, found by
    /// descending the Fenwick tree; `None` past the end.
    fn locate(&self, ordinal: usize) -> (r: Option<(usize, usize)>)
        requires
            self.wf(),
        ensures
            ordinal >= self@.len() ==> r is None,
            ordinal < self@.len() ==> (r matches Some((c, s)) && c < self.chunks@.len() && s
                < self.chunks@[c as int]@.len() && prefix_sum(chunk_lens(self.chunks@), c as int)
                + s == ordinal),
    {
        proof {
            self.lemma_view_len();
        }
        if ordinal >= self.len {
            return None;
        }
        let ghost lens = chunk_lens(self.chunks@);
        let ghost n = self.chunks@.len() as int;
        let total = self.counts.len();
        let mut chunk: usize = 0;
        let mut before: usize = 0;
        let mut step: usize = 1;
        proof {
            vstd::arithmetic::power2::lemma2_to64();
        }
        while step << 1 < total
            invariant
                is_pow2(step as int),
                step < total,
                total == n + 1,
                n <= max_height_blocks(),
            decreases total - step,
        {
            proof {
                vstd::arithmetic::power2::lemma2_to64();
                vstd::bits::lemma_usize_shl_is_mul(step, 1);
                crate::fenwick::lemma_pow2_double(step as int);
            }
            step = step << 1;
        }
        proof {
            vstd::bits::lemma_usize_shl_is_mul(step, 1);
            lemma_prefix_sum_mono(lens, 0, n);
        }
        let ghost mut q: int = 0;
        while step > 0
            invariant
                self.wf(),
                lens == chunk_lens(self.chunks@),
                n == self.chunks@.len(),
                total == n + 1,
                total == self.counts@.len(),
                ordinal < prefix_sum(lens, n),
                prefix_sum(lens, n) <= max_height_blocks(),
                step > 0 ==> is_pow2(step as int),
                step > 0 ==> chunk == q * (2 * step),
                step < total,
                n <= max_height_blocks(),
                q >= 0,
                chunk <= n,
                before == prefix_sum(lens, chunk as int),
                before <= ordinal,
                step > 0 ==> (chunk + 2 * step > n || prefix_sum(lens, chunk + 2 * step)
                    > ordinal),
                step == 0 ==> (chunk + 1 > n || prefix_sum(lens, chunk + 1) > ordinal),
            decreases step,
        {
            let ghost c0 = chunk as int;
            let ghost q0 = q;
            let ghost s0 = step as int;
            let next = chunk + step;
            proof {
                lemma_lowbit_step(chunk as int, q, step as int);
                if step > 1 {
                    lemma_pow2_half(step as int);
                }
                if next <= n {
                    lemma_prefix_sum_mono(lens, next as int, n);
                    lemma_prefix_sum_mono(lens, 0, chunk as int);
                }
            }
            if next < total && before + self.counts[next] <= ordinal {
                chunk = next;
                before = before + self.counts[next];
                proof {
                    q = 2 * q + 1;
                }
            } else {
                proof {
                    q = 2 * q;
                }
            }
            proof {
                vstd::bits::lemma_usize_shr_is_div(step, 1);
                vstd::arithmetic::power2::lemma2_to64();
            }
            step = step >> 1;
            proof {
                if step > 0 {
                    if chunk == c0 {
                        assert(chunk == q * (2 * step)) by (nonlinear_arith)
                            requires
                                c0 == q0 * (2 * s0),
                                s0 == 2 * step,
                                q == 2 * q0,
                                chunk == c0,
                        ;
                    } else {
                        assert(chunk == q * (2 * step)) by (nonlinear_arith)
                            requires
                                c0 == q0 * (2 * s0),
                                s0 == 2 * step,
                                q == 2 * q0 + 1,
                                chunk == c0 + s0,
                        ;
                    }
                }
            }
        }
        proof {
            if chunk == n {
                assert(false);
            }
        }
        Some((chunk, ordinal - before))
    }

    /// Builds the index over `blocks`, in order.
    pub fn from_iter(blocks: Vec<HeightBlock>) -> (r: Self)
        requires
            blocks@.len() <= max_height_blocks(),
        ensures
            r.wf(),
            r@ == blocks@,
    {
        let chunks = chunk_blocks(&blocks);
        let len = blocks.len();
        proof {
            lemma_chunks_prefix(chunks@);
        }
        let mut this = HeightBlocks { chunks, counts: Vec::new(), len };
        this.retree();
        this
    }

    /// Number of blocks.
    pub fn len(&self) -> (r: usize)
        requires
            self.wf(),
        ensures
            r == self@.len(),
    {
        proof {
            self.lemma_view_len();
        }
        self.len
    }

    /// Removes every block.
    pub fn clear(&mut self)
        ensures
            final(self).wf(),
            final(self)@ == Seq::<HeightBlock>::empty(),
    {
        self.chunks.clear();
        self.counts.clear();
        self.len = 0;
        proof {
            assert(chunk_seqs(self.chunks@) =~= Seq::<Seq<HeightBlock>>::empty());
        }
    }

    /// Block `ordinal`, if there is one.
    pub fn get(&self, ordinal: usize) -> (r: Option<HeightBlock>)
        requires
            self.wf(),
        ensures
            r == if ordinal < self@.len() {
                Some(self@[ordinal as int])
            } else {
                None
            },
    {
        match self.locate(ordinal) {
            None => None,
            Some((chunk, slot)) => {
                proof {
                    self.lemma_view_index(chunk as int, slot as int);
                }
                Some(self.chunks[chunk][slot])
            },
        }
    }

    /// Whether blocks `range` are exactly `blocks`.
    pub fn range_eq(&self, range: std::ops::Range<usize>, blocks: &[HeightBlock]) -> (r: bool)
        requires
            self.wf(),
        ensures
            r == (range_len(range) == blocks@.len() && blocks_at(self@, range.start as int, blocks@)),
    {
        let start = range.start;
        let rlen = if range.end > start {
            range.end - start
        } else {
            0
        };
        if rlen != blocks.len() {
            return false;
        }
        let mut at: usize = 0;
        while at < blocks.len()
            invariant
                self.wf(),
                start == range.start,
                rlen == blocks@.len(),
                rlen == range_len(range),
                at <= blocks@.len(),
                blocks_at(self@, start as int, blocks@.take(at as int)),
            decreases blocks@.len() - at,
        {
            let ghost prev = blocks@.take(at as int);
            match self.get(start + at) {
                Some(block) => {
                    if block != blocks[at] {
                        proof {
                            if blocks_at(self@, start as int, blocks@) {
                                assert(self@[start + at] == blocks@[at as int]);
                            }
                        }
                        return false;
                    }
                },
                None => {
                    proof {
                        if blocks_at(self@, start as int, blocks@) {
                            assert(self@[start + at] == blocks@[at as int]);
                        }
                    }
                    return false;
                },
            }
            proof {
                assert forall|j: int| 0 <= j < at + 1 implies start + j < self@.len() && #[trigger] self@[start + j] == blocks@.take(at + 1)[j] by {
                    if j < at {
                        assert(prev[j] == blocks@.take(at + 1)[j]);
                    }
                }
            }
            at += 1;
        }
        proof {
            assert(blocks@.take(at as int) =~= blocks@);
        }
        true
    }

    /// Where block `ordinal` would be inserted: its chunk and slot, or the
    /// end of the last chunk for `ordinal == len` (`(0, 0)` when empty).
    fn locate_insert(&self, ordinal: usize) -> (r: (usize, usize))
        requires
            self.wf(),
            ordinal <= self@.len(),
        ensures
            self.chunks@.len() == 0 ==> r == (0usize, 0usize),
            self.chunks@.len() > 0 ==> {
                &&& r.0 < self.chunks@.len()
                &&& r.1 <= self.chunks@[r.0 as int]@.len()
                &&& prefix_sum(chunk_lens(self.chunks@), r.0 as int) + r.1 == ordinal
                &&& ordinal < self@.len() ==> r.1 < self.chunks@[r.0 as int]@.len()
                &&& ordinal == self@.len() ==> r.0 == self.chunks@.len() - 1 && r.1
                    == self.chunks@[r.0 as int]@.len()
            },
    {
        proof {
            self.lemma_view_len();
        }
        match self.locate(ordinal) {
            Some(found) => found,
            None => {
                let n = self.chunks.len();
                if n == 0 {
                    (0, 0)
                } else {
                    (n - 1, self.chunks[n - 1].len())
                }
            },
        }
    }

    /// Replaces blocks `range` by `blocks`.
    #[verifier::rlimit(50)]
    #[verifier::spinoff_prover]
    pub fn splice(&mut self, range: std::ops::Range<usize>, blocks: &[HeightBlock])
        requires
            old(self).wf(),
            range.start <= range.end <= old(self)@.len(),
            old(self)@.len() - (range.end - range.start) + blocks@.len() <= max_height_blocks(),
        ensures
            final(self).wf(),
            final(self)@ == old(self)@.take(range.start as int) + blocks@ + old(self)@.skip(
                range.end as int,
            ),
    {
        proof {
            self.lemma_view_len();
        }
        let ghost ss = chunk_seqs(self.chunks@);
        let ghost lens = chunk_lens(self.chunks@);
        let ghost old_view = self@;
        let ghost n = self.chunks@.len() as int;
        let (first_chunk, first_slot) = self.locate_insert(range.start);
        let (last_chunk, last_slot) = self.locate_insert(range.end);
        let mut merged: Vec<HeightBlock> = Vec::with_capacity(
            blocks.len() + 2 * HEIGHT_BLOCK_CHUNK_TARGET,
        );
        if first_chunk < self.chunks.len() {
            let chunk = &self.chunks[first_chunk];
            let upto = if first_slot < chunk.len() {
                first_slot
            } else {
                chunk.len()
            };
            push_range(&mut merged, chunk, 0, upto);
        }
        let ghost head = merged@;
        push_all(&mut merged, blocks);
        let ghost middle = merged@;
        if last_chunk < self.chunks.len() {
            let chunk = &self.chunks[last_chunk];
            let from = if last_slot < chunk.len() {
                last_slot
            } else {
                chunk.len()
            };
            push_range(&mut merged, chunk, from, chunk.len());
        }
        let replacement = chunk_blocks(&merged);
        let end_chunk = if last_chunk + 1 < self.chunks.len() {
            last_chunk + 1
        } else {
            self.chunks.len()
        };
        let start_chunk = if first_chunk < end_chunk {
            first_chunk
        } else {
            end_chunk
        };
        let ghost old_chunks = self.chunks@;
        let ghost rep = replacement@;
        proof {
            if n > 0 {
                let c1 = first_chunk as int;
                let c2 = last_chunk as int;
                if c1 > c2 {
                    lemma_prefix_sum_mono(lens, c2 + 1, c1);
                    assert(false);
                }
            }
        }
        vec_splice(&mut self.chunks, start_chunk, end_chunk, replacement);
        let rlen = range.end - range.start;
        self.len = self.len - rlen + blocks.len();
        proof {
            let ns = chunk_seqs(self.chunks@);
            assert(self.chunks@ == old_chunks.take(start_chunk as int) + rep + old_chunks.skip(
                end_chunk as int,
            ));
            assert(ns =~= ss.take(start_chunk as int) + chunk_seqs(rep) + ss.skip(
                end_chunk as int,
            ));
            lemma_flatten_concat3(
                ss.take(start_chunk as int),
                chunk_seqs(rep),
                ss.skip(end_chunk as int),
            );
            if n == 0 {
                assert(ss.take(0).flatten() =~= Seq::<HeightBlock>::empty());
                assert(ss.skip(0).flatten() =~= Seq::<HeightBlock>::empty());
                assert(old_view =~= Seq::<HeightBlock>::empty());
                assert(merged@ =~= blocks@);
            } else {
                let c1 = first_chunk as int;
                let c2 = last_chunk as int;
                lemma_blocks_before(old_chunks, c1);
                lemma_blocks_before(old_chunks, c2);
                lemma_flatten_cut(ss, c1, first_slot as int);
                lemma_flatten_cut(ss, c2, last_slot as int);
                assert(head =~= ss[c1].take(first_slot as int));
                assert(merged@ =~= ss[c1].take(first_slot as int) + blocks@ + ss[c2].skip(
                    last_slot as int,
                ));
            }
            assert(self@ =~= old_view.take(range.start as int) + blocks@ + old_view.skip(
                range.end as int,
            ));
            assert forall|c: int| 0 <= c < self.chunks@.len() implies #[trigger] self.chunks@[c]@.len()
                >= 1 by {
                if c < start_chunk {
                    assert(self.chunks@[c] == old_chunks[c]);
                } else if c < start_chunk + rep.len() {
                    assert(self.chunks@[c] == rep[c - start_chunk]);
                } else {
                    assert(self.chunks@[c] == old_chunks[c - start_chunk - rep.len() + end_chunk]);
                }
            }
            lemma_chunks_prefix(self.chunks@);
        }
        self.retree();
    }

    proof fn lemma_view_index(&self, c: int, s: int)
        requires
            self.wf(),
            0 <= c < self.chunks@.len(),
            0 <= s < self.chunks@[c]@.len(),
        ensures
            prefix_sum(chunk_lens(self.chunks@), c) + s < self@.len(),
            self@[prefix_sum(chunk_lens(self.chunks@), c) + s] == self.chunks@[c]@[s],
    {
        let ss = chunk_seqs(self.chunks@);
        lemma_blocks_before(self.chunks@, c);
        lemma_flatten_around(ss, c);
    }

    proof fn lemma_view_len(&self)
        requires
            self.wf(),
        ensures
            self@.len() == self.len,
            self.chunks@.len() <= self.len,
    {
        let ss = chunk_seqs(self.chunks@);
        let n = self.chunks@.len() as int;
        lemma_blocks_before(self.chunks@, n);
        assert(ss.take(n) =~= ss);
        if n > 0 {
            lemma_prefix_sum_strict(chunk_lens(self.chunks@), 0, n);
        }
    }
}

impl Default for HeightBlocks {
    fn default() -> (r: Self)
        ensures
            r.wf(),
            r@ == Seq::<HeightBlock>::empty(),
    {
        let r = HeightBlocks { chunks: Vec::new(), counts: Vec::new(), len: 0 };
        proof {
            assert(chunk_seqs(r.chunks@) =~= Seq::<Seq<HeightBlock>>::empty());
        }
        r
    }
}

/// Index of the first block of `s` with identity `id`.
pub open spec fn first_index_of(s: Seq<HeightBlock>, id: BlockId) -> Option<int>
    decreases s.len(),
{
    if s.len() == 0 {
        None
    } else if s[0].id == id {
        Some(0)
    } else {
        match first_index_of(s.drop_first(), id) {
            Some(i) => Some(i + 1),
            None => None,
        }
    }
}

pub proof fn lemma_first_index_of(s: Seq<HeightBlock>, id: BlockId, i: int)
    requires
        0 <= i <= s.len(),
        forall|j: int| 0 <= j < i ==> (#[trigger] s[j]).id != id,
    ensures
        i < s.len() && s[i].id == id ==> first_index_of(s, id) == Some(i),
        i == s.len() ==> first_index_of(s, id) is None,
        first_index_of(s, id) matches Some(k) ==> 0 <= k < s.len() && s[k].id == id,
    decreases s.len(),
{
    if i > 0 {
        assert forall|j: int| 0 <= j < i - 1 implies (#[trigger] s.drop_first()[j]).id != id by {
            assert(s.drop_first()[j] == s[j + 1]);
        }
        lemma_first_index_of(s.drop_first(), id, i - 1);
    } else if s.len() > 0 && s[0].id != id {
        lemma_first_index_of(s.drop_first(), id, 0);
    }
}

/// Where `ordinal` lands after `replaced` was spliced into `inserted` and
/// the index now has `new_len` entries.
pub open spec fn rebased_ordinal(
    ordinal: int,
    anchor_id: Option<BlockId>,
    replaced: std::ops::Range<usize>,
    inserted: Seq<HeightBlock>,
    new_len: int,
) -> int {
    if new_len == 0 {
        0
    } else if ordinal < replaced.start {
        ordinal
    } else if ordinal >= replaced.end {
        let moved = ordinal - range_len(replaced) + inserted.len();
        if moved < new_len - 1 {
            moved
        } else {
            new_len - 1
        }
    } else {
        match anchor_id {
            Some(id) => match first_index_of(inserted, id) {
                Some(at) => replaced.start + at,
                None => if (replaced.start as int) < new_len - 1 {
                    replaced.start as int
                } else {
                    new_len - 1
                },
            },
            None => if (replaced.start as int) < new_len - 1 {
                replaced.start as int
            } else {
                new_len - 1
            },
        }
    }
}

/// Position of the first block of `inserted` with identity `id`.
fn position_of(inserted: &[HeightBlock], id: BlockId) -> (r: Option<usize>)
    ensures
        r is Some <==> first_index_of(inserted@, id) is Some,
        r matches Some(i) ==> first_index_of(inserted@, id) == Some(i as int) && i
            < inserted@.len(),
{
    let mut i: usize = 0;
    while i < inserted.len()
        invariant
            i <= inserted@.len(),
            forall|j: int| 0 <= j < i ==> (#[trigger] inserted@[j]).id != id,
        decreases inserted@.len() - i,
    {
        if inserted[i].id == id {
            proof {
                lemma_first_index_of(inserted@, id, i as int);
            }
            return Some(i);
        }
        i += 1;
    }
    proof {
        lemma_first_index_of(inserted@, id, i as int);
    }
    None
}

/// Keeps a scroll anchor on the same block across a splice of the height
/// index: ordinals before the replaced run stay, ordinals after it shift by
/// the change in length, and an ordinal inside it follows its block's id
/// into the inserted run (or falls back to the run's start). The result is
/// clamped to the new index.
pub fn rebase_ordinal_after_splice(
    ordinal: usize,
    anchor_id: Option<BlockId>,
    replaced: std::ops::Range<usize>,
    inserted: &[HeightBlock],
    new_len: usize,
) -> (r: usize)
    requires
        ordinal + inserted@.len() <= usize::MAX,
        replaced.start + inserted@.len() <= usize::MAX,
    ensures
        r == rebased_ordinal(ordinal as int, anchor_id, replaced, inserted@, new_len as int),
{
    if new_len == 0 {
        return 0;
    }
    if ordinal < replaced.start {
        return ordinal;
    }
    if ordinal >= replaced.end {
        let rlen = if replaced.end > replaced.start {
            replaced.end - replaced.start
        } else {
            0
        };
        let moved = ordinal - rlen + inserted.len();
        return if moved < new_len - 1 {
            moved
        } else {
            new_len - 1
        };
    }
    let found = match anchor_id {
        Some(id) => position_of(inserted, id),
        None => None,
    };
    match found {
        Some(at) => replaced.start + at,
        None => if replaced.start < new_len - 1 {
            replaced.start
        } else {
            new_len - 1
        },
    }
}

/// What a splice leaves in the index: the blocks before the replaced range
/// stay where they were, the inserted blocks start at the range start, the
/// blocks after the range move by the change in length, and nothing else is
/// there.
pub proof fn law_splice_layout(
    before: Seq<HeightBlock>,
    start: int,
    end: int,
    blocks: Seq<HeightBlock>,
)
    requires
        0 <= start <= end <= before.len(),
    ensures
        ({
            let after = before.take(start) + blocks + before.skip(end);
            &&& after.len() == before.len() - (end - start) + blocks.len()
            &&& blocks_at(after, start, blocks)
            &&& forall|i: int| 0 <= i < start ==> after[i] == before[i]
            &&& forall|i: int|
                end <= i < before.len() ==> after[i - (end - start) + blocks.len()] == before[i]
        }),
{
    let after = before.take(start) + blocks + before.skip(end);
    assert forall|at: int| 0 <= at < blocks.len() implies start + at < after.len()
        && #[trigger] after[start + at] == blocks[at] by {}
}

/// Rebasing an ordinal across a splice keeps it on the same block: an
/// ordinal outside the replaced range still names the block it named
/// before, and one inside it names the inserted block carrying the anchor's
/// id when the inserted run has one.
pub proof fn law_rebase_follows_splice(
    before: Seq<HeightBlock>,
    replaced: std::ops::Range<usize>,
    inserted: Seq<HeightBlock>,
    ordinal: int,
    anchor_id: Option<BlockId>,
)
    requires
        replaced.start <= replaced.end <= before.len(),
        0 <= ordinal < before.len(),
    ensures
        ({
            let after = before.take(replaced.start as int) + inserted + before.skip(
                replaced.end as int,
            );
            let r = rebased_ordinal(ordinal, anchor_id, replaced, inserted, after.len() as int);
            &&& 0 <= r < after.len() || after.len() == 0
            &&& (ordinal < replaced.start || ordinal >= replaced.end) ==> after[r] == before[ordinal]
            &&& (replaced.start <= ordinal < replaced.end && anchor_id is Some
                && first_index_of(inserted, anchor_id->0) is Some) ==> after[r].id == anchor_id->0
        }),
{
    let after = before.take(replaced.start as int) + inserted + before.skip(replaced.end as int);
    law_splice_layout(before, replaced.start as int, replaced.end as int, inserted);
    if let Some(id) = anchor_id {
        lemma_first_index_of(inserted, id, 0);
    }
}

} // verus!
