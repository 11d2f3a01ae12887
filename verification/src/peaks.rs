//! Incremental multi-resolution peak cache.
//!
//! Level `i` stores one min/max column per `BASE^(i+1)` frames, built as audio is
//! appended. Any range of frames is then summarised from a few cached blocks and, at
//! each edge, at most `BASE - 1` raw frames.

use crate::sample::{frames_of, greater, lesser, Frame, Sample, LARGEST, SIGN};
use vstd::arithmetic::power::pow;
use vstd::math::min;
use vstd::prelude::*;

verus! {

/// Blocks of one level that make one block of the next.
pub const BASE: usize = 16;

/// Number of levels: 16, 256, 4096 and 65536 frames per block.
pub const LEVELS: usize = 4;

/// Minimum and maximum of each channel over some frames.
#[derive(Clone, Copy, Debug, PartialEq, Eq, Structural)]
pub struct Column {
    pub l_min: Sample,
    pub l_max: Sample,
    pub r_min: Sample,
    pub r_max: Sample,
}

/// The column of no frames: minima at the largest finite value, maxima at the
/// smallest.
pub open spec fn empty_column() -> Column {
    Column {
        l_min: Sample { bits: LARGEST },
        l_max: Sample { bits: (SIGN + LARGEST) as u32 },
        r_min: Sample { bits: LARGEST },
        r_max: Sample { bits: (SIGN + LARGEST) as u32 },
    }
}

/// The column of one frame.
pub open spec fn frame_column(frame: Frame) -> Column {
    Column { l_min: frame.l, l_max: frame.l, r_min: frame.r, r_max: frame.r }
}

/// The column of everything that `a` or `b` covers.
pub open spec fn joined(a: Column, b: Column) -> Column {
    Column {
        l_min: lesser(a.l_min, b.l_min),
        l_max: greater(a.l_max, b.l_max),
        r_min: lesser(a.r_min, b.r_min),
        r_max: greater(a.r_max, b.r_max),
    }
}

/// The column of a run of frames.
pub open spec fn summary(frames: Seq<Frame>) -> Column
    decreases frames.len(),
{
    if frames.len() == 0 {
        empty_column()
    } else {
        joined(summary(frames.drop_last()), frame_column(frames.last()))
    }
}

impl Column {
    /// The column that covers nothing.
    pub fn empty() -> (c: Column)
        ensures
            c == empty_column(),
    {
        Column {
            l_min: Sample { bits: LARGEST },
            l_max: Sample { bits: SIGN + LARGEST },
            r_min: Sample { bits: LARGEST },
            r_max: Sample { bits: SIGN + LARGEST },
        }
    }

    /// Extends the column to what `other` covers.
    pub fn merge(&mut self, other: &Column)
        ensures
            *final(self) == joined(*old(self), *other),
    {
        self.l_min = self.l_min.min(other.l_min);
        self.l_max = self.l_max.max(other.l_max);
        self.r_min = self.r_min.min(other.r_min);
        self.r_max = self.r_max.max(other.r_max);
    }

    /// Extends the column by one frame.
    pub fn merge_frame(&mut self, frame: Frame)
        ensures
            *final(self) == joined(*old(self), frame_column(frame)),
    {
        self.l_min = self.l_min.min(frame.l);
        self.l_max = self.l_max.max(frame.l);
        self.r_min = self.r_min.min(frame.r);
        self.r_max = self.r_max.max(frame.r);
    }
}

/// Frames that one block of `level` covers.
pub open spec fn block_frames(level: nat) -> nat {
    pow(BASE as int, level + 1) as nat
}

/// Frames that one block of `level` covers: `BASE^(level + 1)`.
pub fn block_size(level: usize) -> (frames: usize)
    requires
        block_frames(level as nat) <= usize::MAX,
    ensures
        frames == block_frames(level as nat),
{
    let mut frames: usize = BASE;
    let mut i: usize = 0;
    proof {
        reveal_with_fuel(pow, 3);
    }
    while i < level
        invariant
            i <= level,
            frames == block_frames(i as nat),
            block_frames(level as nat) <= usize::MAX,
        decreases level - i,
    {
        proof {
            lemma_block_frames_grow((i + 1) as nat, level as nat);
            lemma_block_frames_step(i as nat);
        }
        frames = frames * BASE;
        i = i + 1;
    }
    frames
}

proof fn lemma_block_frames_step(level: nat)
    ensures
        block_frames(level + 1) == BASE * block_frames(level),
        block_frames(level) > 0,
{
    reveal(pow);
    vstd::arithmetic::power::lemma_pow_positive(BASE as int, level + 1);
    assert(pow(BASE as int, level + 2) == BASE * pow(BASE as int, level + 1));
}

proof fn lemma_block_frames_grow(low: nat, high: nat)
    requires
        low <= high,
    ensures
        block_frames(low) <= block_frames(high),
{
    vstd::arithmetic::power::lemma_pow_increases(BASE as nat, low + 1, high + 1);
    vstd::arithmetic::power::lemma_pow_positive(BASE as int, low + 1);
}

/// The four block sizes.
proof fn lemma_block_sizes()
    ensures
        block_frames(0) == 16,
        block_frames(1) == 256,
        block_frames(2) == 4096,
        block_frames(3) == 65536,
{
    reveal_with_fuel(pow, 6);
    lemma_block_frames_step(0);
    lemma_block_frames_step(1);
    lemma_block_frames_step(2);
}

/// The column of block number `i`, of `size` frames; the last block may reach
/// past the end and then covers what there is.
pub open spec fn block_summary(frames: Seq<Frame>, i: int, size: int) -> Column {
    summary(frames.subrange(i * size, min(i * size + size, frames.len() as int)))
}

/// `blocks` holds the columns of the first blocks of `size` frames.
pub open spec fn holds_blocks(blocks: Seq<Column>, frames: Seq<Frame>, size: int) -> bool {
    forall|i: int| 0 <= i < blocks.len() ==> #[trigger] blocks[i] == block_summary(frames, i, size)
}

/// A column that some frames, or none, can have: its ends are numbers and no
/// wider than the empty column's.
proof fn lemma_summary_bounded(frames: Seq<Frame>)
    ensures
        joined(summary(frames), empty_column()) == summary(frames),
        joined(empty_column(), summary(frames)) == summary(frames),
    decreases frames.len(),
{
    if frames.len() > 0 {
        lemma_summary_bounded(frames.drop_last());
    }
}

/// The column of a run of frames is the column of its two parts together,
/// wherever it is cut.
pub proof fn summary_of_concatenation(a: Seq<Frame>, b: Seq<Frame>)
    ensures
        summary(a + b) == joined(summary(a), summary(b)),
    decreases b.len(),
{
    if b.len() == 0 {
        assert(a + b =~= a);
        lemma_summary_bounded(a);
    } else {
        summary_of_concatenation(a, b.drop_last());
        assert((a + b).drop_last() =~= a + b.drop_last());
        assert((a + b).last() == b.last());
    }
}

/// Both ends of every column are numbers.
proof fn lemma_summary_is_numbers(frames: Seq<Frame>)
    ensures
        !summary(frames).l_min.nan(),
        !summary(frames).l_max.nan(),
        !summary(frames).r_min.nan(),
        !summary(frames).r_max.nan(),
    decreases frames.len(),
{
    if frames.len() > 0 {
        lemma_summary_is_numbers(frames.drop_last());
    }
}

/// The column of a run of frames encloses each of its samples that is a number.
pub proof fn summary_encloses_every_frame(frames: Seq<Frame>, i: int)
    requires
        0 <= i < frames.len(),
    ensures
        !frames[i].l.nan() ==> summary(frames).l_min.order() <= frames[i].l.order() <= summary(
            frames,
        ).l_max.order(),
        !frames[i].r.nan() ==> summary(frames).r_min.order() <= frames[i].r.order() <= summary(
            frames,
        ).r_max.order(),
    decreases frames.len(),
{
    lemma_summary_is_numbers(frames.drop_last());
    if i < frames.len() - 1 {
        summary_encloses_every_frame(frames.drop_last(), i);
    }
}

/// The column of a run of frames is no wider than needed: each end is that of the
/// empty column, or a sample of the run.
pub proof fn summary_is_attained(frames: Seq<Frame>)
    ensures
        summary(frames).l_min == empty_column().l_min || exists|i: int|
            0 <= i < frames.len() && summary(frames).l_min == (#[trigger] frames[i]).l,
        summary(frames).l_max == empty_column().l_max || exists|i: int|
            0 <= i < frames.len() && summary(frames).l_max == (#[trigger] frames[i]).l,
        summary(frames).r_min == empty_column().r_min || exists|i: int|
            0 <= i < frames.len() && summary(frames).r_min == (#[trigger] frames[i]).r,
        summary(frames).r_max == empty_column().r_max || exists|i: int|
            0 <= i < frames.len() && summary(frames).r_max == (#[trigger] frames[i]).r,
    decreases frames.len(),
{
    if frames.len() > 0 {
        let rest = frames.drop_last();
        let last = frames.len() - 1;
        summary_is_attained(rest);
        assert(forall|i: int| 0 <= i < rest.len() ==> rest[i] == frames[i]);
        assert(frames[last] == frames.last());
        let c = summary(rest);
        if c.l_min != empty_column().l_min && summary(frames).l_min == c.l_min {
            let i = choose|i: int| 0 <= i < rest.len() && c.l_min == (#[trigger] rest[i]).l;
            assert(frames[i].l == c.l_min);
        }
        if c.l_max != empty_column().l_max && summary(frames).l_max == c.l_max {
            let i = choose|i: int| 0 <= i < rest.len() && c.l_max == (#[trigger] rest[i]).l;
            assert(frames[i].l == c.l_max);
        }
        if c.r_min != empty_column().r_min && summary(frames).r_min == c.r_min {
            let i = choose|i: int| 0 <= i < rest.len() && c.r_min == (#[trigger] rest[i]).r;
            assert(frames[i].r == c.r_min);
        }
        if c.r_max != empty_column().r_max && summary(frames).r_max == c.r_max {
            let i = choose|i: int| 0 <= i < rest.len() && c.r_max == (#[trigger] rest[i]).r;
            assert(frames[i].r == c.r_max);
        }
    }
}

/// Widening a run by the frames that follow it joins their column to its own.
proof fn lemma_summary_split(frames: Seq<Frame>, a: int, m: int, b: int)
    requires
        0 <= a <= m <= b <= frames.len(),
    ensures
        summary(frames.subrange(a, b)) == joined(
            summary(frames.subrange(a, m)),
            summary(frames.subrange(m, b)),
        ),
{
    summary_of_concatenation(frames.subrange(a, m), frames.subrange(m, b));
    assert(frames.subrange(a, m) + frames.subrange(m, b) =~= frames.subrange(a, b));
}

/// The column of a run that grows by one frame.
proof fn lemma_summary_step(frames: Seq<Frame>, a: int, m: int)
    requires
        0 <= a <= m < frames.len(),
    ensures
        summary(frames.subrange(a, m + 1)) == joined(
            summary(frames.subrange(a, m)),
            frame_column(frames[m]),
        ),
{
    assert(frames.subrange(a, m + 1).drop_last() =~= frames.subrange(a, m));
}

/// Complete blocks keep their columns when frames are appended.
proof fn lemma_blocks_kept(blocks: Seq<Column>, frames: Seq<Frame>, more: Seq<Frame>, size: int)
    requires
        size > 0,
        holds_blocks(blocks, frames, size),
        blocks.len() * size <= frames.len(),
    ensures
        holds_blocks(blocks, frames + more, size),
{
    assert forall|i: int| 0 <= i < blocks.len() implies #[trigger] blocks[i] == block_summary(
        frames + more,
        i,
        size,
    ) by {
        assert(0 <= i * size && i * size + size <= blocks.len() * size) by (nonlinear_arith)
            requires
                0 <= i < blocks.len(),
                size > 0,
        ;
        assert((frames + more).subrange(i * size, i * size + size) =~= frames.subrange(
            i * size,
            i * size + size,
        ));
    }
}

/// A level of complete blocks stays one when frames are appended.
proof fn lemma_upper_level_kept(
    blocks: Seq<Column>,
    frames: Seq<Frame>,
    more: Seq<Frame>,
    size: int,
)
    requires
        size > 0,
        holds_blocks(blocks, frames, size),
        blocks.len() == frames.len() as int / size,
    ensures
        holds_blocks(blocks, frames + more, size),
        blocks.len() <= (frames + more).len() as int / size,
{
    vstd::arithmetic::div_mod::lemma_fundamental_div_mod(frames.len() as int, size);
    assert(blocks.len() * size <= frames.len()) by (nonlinear_arith)
        requires
            frames.len() == size * (frames.len() as int / size) + frames.len() as int % size,
            frames.len() as int % size >= 0,
            blocks.len() == frames.len() as int / size,
    ;
    lemma_blocks_kept(blocks, frames, more, size);
    vstd::arithmetic::div_mod::lemma_div_is_ordered(
        frames.len() as int,
        (frames + more).len() as int,
        size,
    );
}

/// A group of `base` complete blocks of `small` frames lies inside the recording.
proof fn lemma_group_fits(index: int, base: int, small: int, n: int)
    requires
        0 <= index,
        0 < base,
        0 < small,
        0 <= n,
        (index + 1) * base <= n / small,
    ensures
        index * (base * small) == (index * base) * small,
        (index * base) * small + base * small <= n,
{
    vstd::arithmetic::div_mod::lemma_fundamental_div_mod(n, small);
    assert(index * (base * small) == (index * base) * small) by (nonlinear_arith);
    assert((index * base) * small + base * small == ((index + 1) * base) * small) by (nonlinear_arith);
    assert(((index + 1) * base) * small <= small * (n / small)) by (nonlinear_arith)
        requires
            (index + 1) * base <= n / small,
            0 < small,
    ;
}

/// The finest level after one more frame.
proof fn lemma_base_step(before: Seq<Column>, after: Seq<Column>, frames: Seq<Frame>, frame: Frame)
    requires
        before.len() == (frames.len() + BASE - 1) / BASE as int,
        holds_blocks(before, frames, BASE as int),
        ({
            let block = frames.len() as int / BASE as int;
            let grown = if block == before.len() {
                before.push(empty_column())
            } else {
                before
            };
            after == grown.update(block, joined(grown[block], frame_column(frame)))
        }),
    ensures
        after.len() == (frames.len() + 1 + BASE - 1) / BASE as int,
        holds_blocks(after, frames.push(frame), BASE as int),
{
    let n = frames.len() as int;
    let block = n / BASE as int;
    let start = block * BASE;
    let next = frames.push(frame);
    assert forall|i: int| 0 <= i < after.len() implies #[trigger] after[i] == block_summary(
        next,
        i,
        BASE as int,
    ) by {
        if i < block {
            assert(before[i] == block_summary(frames, i, BASE as int));
            assert(next.subrange(i * BASE, i * BASE + BASE) =~= frames.subrange(
                i * BASE,
                i * BASE + BASE,
            ));
        } else {
            assert(i == block);
            lemma_summary_step(next, start, n);
            assert(next.subrange(start, n) =~= frames.subrange(start, n));
            if block == before.len() {
                assert(frames.subrange(start, n) =~= Seq::empty());
            } else {
                assert(before[block] == block_summary(frames, block, BASE as int));
            }
        }
    }
}

/// The first boundary between blocks of the finest level from frame `a` on.
pub open spec fn first_boundary(a: int) -> int {
    (a + BASE - 1) / BASE as int * BASE
}

/// The last boundary between blocks of the finest level up to frame `b`.
pub open spec fn last_boundary(b: int) -> int {
    b / BASE as int * BASE
}

/// Frame `i` of `[a, b)` lies in no whole block of the range.
pub open spec fn at_edge(a: int, b: int, i: int) -> bool {
    a <= i < b && !(first_boundary(a) <= i < last_boundary(b))
}

/// Only the first and the last `BASE - 1` frames of a range can lie at its edges.
pub proof fn edges_are_short(a: int, b: int, i: int)
    requires
        0 <= a,
        at_edge(a, b, i),
    ensures
        i < a + BASE - 1 || i >= b - (BASE - 1),
{
}

/// Where a walk from `a` to `b` can stand: before the first boundary, at a boundary, or
/// behind the last.
#[verifier::opaque]
spec fn on_walk(a: int, b: int, pos: int) -> bool {
    pos <= first_boundary(a) || pos % BASE as int == 0 || pos >= last_boundary(b)
}

/// A walk that cannot take a block of the finest level stands at an edge.
proof fn lemma_walk_at_edge(a: int, b: int, pos: int)
    requires
        0 <= a <= pos < b,
        on_walk(a, b, pos),
        pos % 16 != 0 || pos + 16 > b,
    ensures
        at_edge(a, b, pos),
        on_walk(a, b, pos + 1),
{
    reveal(on_walk);
}

/// The buffer holds the frames at the edges of `[a, b)`, as far as they exist.
pub open spec fn serves(samples: Seq<Sample>, frames: Seq<Frame>, a: int, b: int) -> bool {
    forall|i: int|
        #[trigger] at_edge(a, b, i) && i < frames.len() ==> {
            &&& i < frames_of(samples).len()
            &&& frames[i] == frames_of(samples)[i]
        }
}

/// What a buffer holds inside the whole blocks of a range, or outside the range, does
/// not matter: another that differs only there serves as well.
pub proof fn only_edges_matter(
    samples: Seq<Sample>,
    other: Seq<Sample>,
    frames: Seq<Frame>,
    a: int,
    b: int,
)
    requires
        0 <= a,
        serves(samples, frames, a, b),
        samples.len() == other.len(),
        forall|i: int|
            #[trigger] at_edge(a, b, i) && i < frames_of(samples).len() ==> frames_of(other)[i]
                == frames_of(samples)[i],
    ensures
        serves(other, frames, a, b),
{
}

/// A block of `level` starts at frame `pos` and ends by `b`.
pub open spec fn block_lies(level: nat, pos: int, b: int) -> bool {
    let size = block_frames(level) as int;
    &&& pos % size == 0
    &&& pos + size <= b
}

/// The coarsest level under `below` with a block that starts at `pos` and ends by `b`.
pub open spec fn coarsest(below: nat, pos: int, b: int) -> Option<nat>
    decreases below,
{
    if below == 0 {
        None
    } else if block_lies((below - 1) as nat, pos, b) {
        Some((below - 1) as nat)
    } else {
        coarsest((below - 1) as nat, pos, b)
    }
}

/// What summarising a range reads: cached blocks, and raw frames.
pub struct Reads {
    pub blocks: nat,
    pub frames: nat,
}

/// What is read for frames `[pos, b)` of a recording that reaches to `b` or further: at
/// each point the coarsest block that fits, or a single frame where none does.
pub open spec fn reads(pos: int, b: int) -> Reads
    decreases
            (if pos < b {
                b - pos
            } else {
                0
            }),
{
    if pos >= b {
        Reads { blocks: 0, frames: 0 }
    } else {
        match coarsest(LEVELS as nat, pos, b) {
            Some(level) => {
                proof {
                    vstd::arithmetic::power::lemma_pow_positive(BASE as int, level + 1);
                }
                let rest = reads(pos + block_frames(level), b);
                Reads { blocks: rest.blocks + 1, frames: rest.frames }
            },
            None => {
                let rest = reads(pos + 1, b);
                Reads { blocks: rest.blocks, frames: rest.frames + 1 }
            },
        }
    }
}

/// The coarsest fitting level is the first that fits from the top.
proof fn lemma_coarsest(below: nat, level: nat, pos: int, b: int)
    requires
        level < below,
        block_lies(level, pos, b),
        forall|k: int| level < k < below ==> !#[trigger] block_lies(k as nat, pos, b),
    ensures
        coarsest(below, pos, b) == Some(level),
    decreases below,
{
    if level + 1 < below {
        assert(!block_lies((below - 1) as int as nat, pos, b));
        lemma_coarsest((below - 1) as nat, level, pos, b);
    }
}

/// Where no block fits there is no coarsest one.
proof fn lemma_no_coarsest(below: nat, pos: int, b: int)
    requires
        forall|k: int| 0 <= k < below ==> !#[trigger] block_lies(k as nat, pos, b),
    ensures
        coarsest(below, pos, b) is None,
    decreases below,
{
    if below > 0 {
        assert(!block_lies((below - 1) as int as nat, pos, b));
        lemma_no_coarsest((below - 1) as nat, pos, b);
    }
}

/// The coarsest block at a position, by the four sizes.
proof fn lemma_coarsest_sizes(pos: int, b: int)
    ensures
        coarsest(LEVELS as nat, pos, b) == (if pos % 65536 == 0 && pos + 65536 <= b {
            Some(3nat)
        } else if pos % 4096 == 0 && pos + 4096 <= b {
            Some(2nat)
        } else if pos % 256 == 0 && pos + 256 <= b {
            Some(1nat)
        } else if pos % 16 == 0 && pos + 16 <= b {
            Some(0nat)
        } else {
            None
        }),
{
    lemma_block_sizes();
    reveal_with_fuel(coarsest, 5);
}

/// Raw frames from a block boundary on: those after the last boundary.
proof fn lemma_frames_after_boundary(pos: int, b: int)
    requires
        0 <= pos <= b,
        pos % 16 == 0 || b - pos < 16 - pos % 16,
    ensures
        pos % 16 == 0 ==> reads(pos, b).frames == (b - pos) % 16,
        pos % 16 != 0 ==> reads(pos, b).frames == b - pos,
    decreases b - pos,
{
    lemma_block_sizes();
    lemma_coarsest_sizes(pos, b);
    if pos < b {
        match coarsest(LEVELS as nat, pos, b) {
            Some(level) => lemma_frames_after_boundary(pos + block_frames(level), b),
            None => lemma_frames_after_boundary(pos + 1, b),
        }
    }
}

/// Raw frames up to the first block boundary and after the last.
proof fn lemma_frames_at_edges(pos: int, b: int)
    requires
        0 <= pos <= b,
    ensures
        reads(pos, b).frames <= (16 - pos % 16) % 16 + 15,
    decreases b - pos,
{
    if pos % 16 == 0 || b - pos < 16 - pos % 16 {
        lemma_frames_after_boundary(pos, b);
    } else {
        lemma_coarsest_sizes(pos, b);
        lemma_frames_at_edges(pos + 1, b);
    }
}

/// A boundary between large blocks is one between the small blocks that make them.
proof fn lemma_aligned_below(pos: int, small: int, size: int)
    requires
        0 < small,
        size == BASE * small,
        pos % size == 0,
    ensures
        pos % small == 0,
{
    vstd::arithmetic::div_mod::lemma_mod_mod(pos, small, BASE as int);
    assert(small * BASE == BASE * small);
    assert(pos % (small * BASE as int) == 0);
    vstd::arithmetic::div_mod::lemma_small_mod(0, small as nat);
}

/// Blocks read from a boundary of `level` on, where no coarser block fits any more.
proof fn lemma_blocks_down(level: nat, pos: int, b: int)
    requires
        level < LEVELS,
        0 <= pos <= b,
        pos % block_frames(level) as int == 0,
        level + 1 < LEVELS ==> b - pos < block_frames(level + 1),
    ensures
        reads(pos, b).blocks <= (b - pos) / block_frames(level) as int + 15 * level,
    decreases level, b - pos,
{
    let size = block_frames(level) as int;
    lemma_block_sizes();
    if b - pos >= size {
        assert(coarsest(LEVELS as nat, pos, b) == Some(level)) by {
            lemma_coarsest_sizes(pos, b);
        }
        assert((pos + size) % size == 0) by {
            vstd::arithmetic::div_mod::lemma_mod_add_multiples_vanish(pos, size);
        }
        assert((b - (pos + size)) / size == (b - pos) / size - 1) by {
            vstd::arithmetic::div_mod::lemma_div_plus_one(b - (pos + size), size);
        }
        lemma_blocks_down(level, pos + size, b);
    } else if level > 0 {
        let small = block_frames((level - 1) as nat) as int;
        lemma_block_frames_step((level - 1) as nat);
        lemma_aligned_below(pos, small, size);
        assert((b - pos) / small < BASE) by {
            vstd::arithmetic::div_mod::lemma_multiply_divide_lt(b - pos, small, BASE as int);
        }
        lemma_blocks_down((level - 1) as nat, pos, b);
        assert((b - pos) / size == 0) by {
            vstd::arithmetic::div_mod::lemma_basic_div(b - pos, size);
        }
    } else {
        lemma_no_blocks(pos, b);
    }
}

/// Less than the smallest block is read frame by frame.
proof fn lemma_no_blocks(pos: int, b: int)
    requires
        0 <= pos <= b,
        b - pos < 16,
    ensures
        reads(pos, b).blocks == 0,
    decreases b - pos,
{
    if pos < b {
        lemma_coarsest_sizes(pos, b);
        lemma_no_blocks(pos + 1, b);
    }
}

/// Blocks read from a multiple of 65536 on.
proof fn lemma_blocks_from_65536(pos: int, b: int)
    requires
        0 <= pos <= b,
        pos % 65536 == 0,
    ensures
        reads(pos, b).blocks <= 45 + (b - pos) / 65536,
{
    lemma_block_sizes();
    lemma_blocks_down(3, pos, b);
}

/// Blocks read from a multiple of 4096 on.
proof fn lemma_blocks_from_4096(pos: int, b: int)
    requires
        0 <= pos <= b,
        pos % 4096 == 0,
    ensures
        reads(pos, b).blocks <= (16 - pos / 4096 % 16) % 16 + 45 + (b - pos) / 65536,
    decreases b - pos,
{
    lemma_block_sizes();
    if b - pos < 4096 {
        lemma_blocks_down(2, pos, b);
    } else if pos % 65536 == 0 {
        lemma_blocks_from_65536(pos, b);
    } else {
        lemma_coarsest_sizes(pos, b);
        lemma_blocks_from_4096(pos + 4096, b);
    }
}

/// Blocks read from a multiple of 256 on.
proof fn lemma_blocks_from_256(pos: int, b: int)
    requires
        0 <= pos <= b,
        pos % 256 == 0,
    ensures
        reads(pos, b).blocks <= (16 - pos / 256 % 16) % 16 + 60 + (b - pos) / 65536,
    decreases b - pos,
{
    lemma_block_sizes();
    if b - pos < 256 {
        lemma_blocks_down(1, pos, b);
    } else if pos % 4096 == 0 {
        lemma_blocks_from_4096(pos, b);
    } else {
        lemma_coarsest_sizes(pos, b);
        lemma_blocks_from_256(pos + 256, b);
    }
}

/// Blocks read from a multiple of 16 on.
proof fn lemma_blocks_from_16(pos: int, b: int)
    requires
        0 <= pos <= b,
        pos % 16 == 0,
    ensures
        reads(pos, b).blocks <= (16 - pos / 16 % 16) % 16 + 75 + (b - pos) / 65536,
    decreases b - pos,
{
    lemma_block_sizes();
    if b - pos < 16 {
        lemma_blocks_down(0, pos, b);
    } else if pos % 256 == 0 {
        lemma_blocks_from_256(pos, b);
    } else {
        lemma_coarsest_sizes(pos, b);
        lemma_blocks_from_16(pos + 16, b);
    }
}

/// Blocks read from any frame on.
proof fn lemma_blocks_anywhere(pos: int, b: int)
    requires
        0 <= pos <= b,
    ensures
        reads(pos, b).blocks <= 90 + (b - pos) / 65536,
    decreases b - pos,
{
    lemma_block_sizes();
    if pos % 16 == 0 {
        lemma_blocks_from_16(pos, b);
    } else if pos < b {
        lemma_coarsest_sizes(pos, b);
        lemma_blocks_anywhere(pos + 1, b);
    }
}

/// Summarising a range of frames reads at most `BASE - 1` raw frames at each of its two
/// edges, and of every level at most `BASE - 1` blocks on the way up and as many on the
/// way down, but for the coarsest level, whose blocks fill the range between.
pub proof fn query_reads_little(a: int, b: int)
    requires
        0 <= a <= b,
    ensures
        reads(a, b).frames <= 2 * (BASE - 1),
        reads(a, b).blocks <= 2 * (BASE - 1) * (LEVELS - 1) + (b - a) / block_frames(
            (LEVELS - 1) as nat,
        ) as int,
{
    lemma_block_sizes();
    lemma_frames_at_edges(a, b);
    lemma_blocks_anywhere(a, b);
}

/// A column that is being put together, and what went into it.
struct Tally {
    col: Column,
    read: Ghost<Reads>,
}

impl Tally {
    fn new() -> (t: Tally)
        ensures
            t.col == empty_column(),
            t.read@ == (Reads { blocks: 0, frames: 0 }),
    {
        Tally { col: Column::empty(), read: Ghost(Reads { blocks: 0, frames: 0 }) }
    }

    /// Takes in one cached block.
    fn take_block(&mut self, block: &Column)
        ensures
            final(self).col == joined(old(self).col, *block),
            final(self).read@ == (Reads {
                blocks: old(self).read@.blocks + 1,
                frames: old(self).read@.frames,
            }),
    {
        self.col.merge(block);
        self.read = Ghost(Reads { blocks: self.read@.blocks + 1, frames: self.read@.frames });
    }

    /// Takes in one raw frame.
    fn take_frame(&mut self, frame: Frame)
        ensures
            final(self).col == joined(old(self).col, frame_column(frame)),
            final(self).read@ == (Reads {
                blocks: old(self).read@.blocks,
                frames: old(self).read@.frames + 1,
            }),
    {
        self.col.merge_frame(frame);
        self.read = Ghost(Reads { blocks: self.read@.blocks, frames: self.read@.frames + 1 });
    }
}

/// Incremental min/max cache over a growing recording.
///
/// Its view is the sequence of all frames pushed since the last `clear`.
pub struct PeakPyramid {
    levels: [Vec<Column>; LEVELS],
    frames: usize,
    pushed: Ghost<Seq<Frame>>,
}

impl View for PeakPyramid {
    type V = Seq<Frame>;

    closed spec fn view(&self) -> Seq<Frame> {
        self.pushed@
    }
}

impl PeakPyramid {
    /// What every operation keeps. The finest level has a block for every frame,
    /// the last one possibly unfinished; each coarser level has exactly the blocks
    /// that are complete; and each block is the column of the frames it covers.
    pub closed spec fn wf(&self) -> bool {
        &&& self.frames == self@.len()
        &&& self.levels[0]@.len() == (self@.len() + BASE - 1) / BASE as int
        &&& forall|level: int|
            1 <= level < LEVELS ==> (#[trigger] self.levels[level])@.len() == self@.len()
                / block_frames(level as nat)
        &&& forall|level: int|
            0 <= level < LEVELS ==> holds_blocks(
                (#[trigger] self.levels[level])@,
                self@,
                block_frames(level as nat) as int,
            )
    }

    /// Number of frames pushed.
    pub fn frames(&self) -> (n: usize)
        requires
            self.wf(),
        ensures
            n == self@.len(),
    {
        self.frames
    }

    /// Number of blocks that `level` caches.
    pub fn blocks(&self, level: usize) -> (n: usize)
        requires
            self.wf(),
            level < LEVELS,
        ensures
            level == 0 ==> n == (self@.len() + BASE - 1) / BASE as int,
            level > 0 ==> n == self@.len() / block_frames(level as nat),
    {
        self.levels[level].len()
    }

    /// Appends interleaved frames; a last sample without its partner is ignored.
    pub fn push(&mut self, interleaved: &[Sample])
        requires
            old(self).wf(),
            old(self)@.len() + interleaved@.len() / 2 <= usize::MAX,
        ensures
            final(self).wf(),
            final(self)@ == old(self)@ + frames_of(interleaved@),
    {
        let ghost before = self@;
        let ghost added = frames_of(interleaved@);
        let ghost upper = self.levels;
        let total: usize = interleaved.len();
        let count: usize = total / 2;
        let mut i: usize = 0;
        proof {
            lemma_block_sizes();
            assert(before + added.take(0) =~= before);
        }
        while i < count
            invariant
                i <= count,
                count == total / 2,
                total == interleaved@.len(),
                added == frames_of(interleaved@),
                before.len() + count <= usize::MAX,
                self.pushed@ == before + added.take(i as int),
                self.frames == self.pushed@.len(),
                self.levels[0]@.len() == (self.pushed@.len() + BASE - 1) / BASE as int,
                holds_blocks(self.levels[0]@, self.pushed@, BASE as int),
                forall|k: int| 1 <= k < LEVELS ==> #[trigger] self.levels[k] == upper[k],
            decreases count - i,
        {
            let frame = Frame { l: interleaved[2 * i], r: interleaved[2 * i + 1] };
            let block: usize = self.frames / BASE;
            let ghost base = self.levels[0]@;
            if block == self.levels[0].len() {
                self.levels[0].push(Column::empty());
            }
            self.levels[0][block].merge_frame(frame);
            proof {
                lemma_base_step(base, self.levels[0]@, self.pushed@, frame);
                assert(before + added.take(i + 1) =~= (before + added.take(i as int)).push(frame));
            }
            self.frames = self.frames + 1;
            self.pushed = Ghost(self.pushed@.push(frame));
            i = i + 1;
        }
        proof {
            assert(added.take(count as int) =~= added);
            assert forall|k: int| 1 <= k < LEVELS implies holds_blocks(
                (#[trigger] self.levels[k])@,
                self.pushed@,
                block_frames(k as nat) as int,
            ) && self.levels[k]@.len() <= self.pushed@.len() / block_frames(k as nat) by {
                lemma_upper_level_kept(upper[k]@, before, added, block_frames(k as nat) as int);
            }
        }
        self.roll_up();
    }

    /// Rolls completed groups of blocks up into the next level, level by level.
    /// The finest level's last block may be unfinished, so only complete ones count.
    fn roll_up(&mut self)
        requires
            old(self).frames == old(self)@.len(),
            old(self).levels[0]@.len() == (old(self)@.len() + BASE - 1) / BASE as int,
            holds_blocks(old(self).levels[0]@, old(self)@, BASE as int),
            forall|k: int|
                1 <= k < LEVELS ==> holds_blocks(
                    (#[trigger] old(self).levels[k])@,
                    old(self)@,
                    block_frames(k as nat) as int,
                ) && old(self).levels[k]@.len() <= old(self)@.len() / block_frames(k as nat),
        ensures
            final(self).wf(),
            final(self)@ == old(self)@,
    {
        let ghost frames = self@;
        let ghost n = self@.len() as int;
        let mut complete: usize = self.frames / BASE;
        let mut level: usize = 1;
        proof {
            lemma_block_sizes();
        }
        while level < LEVELS
            invariant
                1 <= level <= LEVELS,
                self.pushed@ == frames,
                n == frames.len(),
                self.frames == n,
                complete == n / block_frames((level - 1) as nat) as int,
                complete <= usize::MAX / BASE,
                self.levels[0]@.len() == (n + BASE - 1) / BASE as int,
                forall|k: int|
                    0 <= k < LEVELS ==> holds_blocks(
                        (#[trigger] self.levels[k])@,
                        frames,
                        block_frames(k as nat) as int,
                    ),
                forall|k: int|
                    1 <= k < level ==> (#[trigger] self.levels[k])@.len() == n / block_frames(
                        k as nat,
                    ) as int,
                forall|k: int|
                    level <= k < LEVELS ==> (#[trigger] self.levels[k])@.len() <= n / block_frames(
                        k as nat,
                    ) as int,
            decreases LEVELS - level,
        {
            let ghost small = block_frames((level - 1) as nat) as int;
            let ghost size = block_frames(level as nat) as int;
            proof {
                lemma_block_sizes();
                lemma_block_frames_step((level - 1) as nat);
                vstd::arithmetic::div_mod::lemma_div_denominator(n, small, BASE as int);
                assert(complete <= self.levels[level - 1]@.len());
            }
            while (self.levels[level].len() + 1) * BASE <= complete
                invariant
                    1 <= level < LEVELS,
                    self.pushed@ == frames,
                    n == frames.len(),
                    self.frames == n,
                    small > 0,
                    size == BASE * small,
                    small == block_frames((level - 1) as nat),
                    size == block_frames(level as nat),
                    complete == n / small,
                    complete <= usize::MAX / BASE,
                    complete / BASE == n / size,
                    self.levels[0]@.len() == (n + BASE - 1) / BASE as int,
                    self.levels[level as int]@.len() <= complete / BASE,
                    complete <= self.levels[level - 1]@.len(),
                    forall|k: int|
                        0 <= k < LEVELS ==> holds_blocks(
                            (#[trigger] self.levels[k])@,
                            frames,
                            block_frames(k as nat) as int,
                        ),
                    forall|k: int|
                        1 <= k < level ==> (#[trigger] self.levels[k])@.len() == n / block_frames(
                            k as nat,
                        ) as int,
                    forall|k: int|
                        level < k < LEVELS ==> (#[trigger] self.levels[k])@.len() <= n
                            / block_frames(k as nat) as int,
                decreases complete / BASE - self.levels[level as int]@.len(),
            {
                let index: usize = self.levels[level].len();
                let col = self.grouped(level, index);
                self.levels[level].push(col);
            }
            complete = self.levels[level].len();
            level = level + 1;
        }
    }

    /// The column of blocks `index * BASE ..` of the level below `level`.
    fn grouped(&self, level: usize, index: usize) -> (col: Column)
        requires
            1 <= level < LEVELS,
            (index + 1) * BASE <= self.levels[level - 1]@.len(),
            (index + 1) * BASE <= self@.len() / block_frames((level - 1) as nat),
            holds_blocks(
                self.levels[level - 1]@,
                self@,
                block_frames((level - 1) as nat) as int,
            ),
        ensures
            col == block_summary(self@, index as int, block_frames(level as nat) as int),
    {
        let ghost frames = self@;
        let ghost small = block_frames((level - 1) as nat) as int;
        let ghost size = block_frames(level as nat) as int;
        let ghost start = index * size;
        let mut col = Column::empty();
        let available: usize = self.levels[level - 1].len();
        assert((index + 1) * BASE <= available);
        let first: usize = index * BASE;
        let mut j: usize = 0;
        proof {
            lemma_block_frames_step((level - 1) as nat);
            lemma_group_fits(index as int, BASE as int, small, frames.len() as int);
            assert(0 <= start) by (nonlinear_arith)
                requires
                    start == first * small,
                    small > 0,
                    0 <= first,
            ;
            assert(frames.subrange(start, start + 0 * small) =~= Seq::empty());
        }
        while j < BASE
            invariant
                j <= BASE,
                1 <= level < LEVELS,
                first == index * BASE,
                first + BASE <= self.levels[level - 1]@.len(),
                frames == self@,
                small > 0,
                start == first * small,
                start + BASE * small <= frames.len(),
                holds_blocks(self.levels[level - 1]@, frames, small),
                col == summary(frames.subrange(start, start + j * small)),
            decreases BASE - j,
        {
            proof {
                let at = first + j;
                assert(at * small == start + j * small && at * small + small == start + (j + 1)
                    * small && (j + 1) * small <= BASE * small && 0 <= j * small && 0 <= start)
                    by (nonlinear_arith)
                    requires
                        at == first + j,
                        start == first * small,
                        0 <= j < BASE,
                        0 <= first,
                        small > 0,
                ;
                assert(self.levels[level - 1]@[at] == block_summary(frames, at, small));
                lemma_summary_split(
                    frames,
                    start,
                    start + j * small,
                    start + (j + 1) * small,
                );
            }
            col.merge(&self.levels[level - 1][first + j]);
            j = j + 1;
        }
        col
    }

    /// A cached block of `level` starts at frame `pos` and ends by `b`.
    closed spec fn block_fits(&self, level: int, pos: int, b: int) -> bool {
        let size = block_frames(level as nat) as int;
        &&& pos % size == 0
        &&& pos + size <= b
        &&& pos / size < self.levels[level]@.len()
    }

    /// The coarsest level with a cached block that starts at `pos` and ends by `b`.
    fn covering_level(&self, pos: usize, b: usize) -> (found: Option<usize>)
        requires
            pos <= b,
        ensures
            match found {
                Some(level) => {
                    &&& level < LEVELS
                    &&& self.block_fits(level as int, pos as int, b as int)
                    &&& forall|k: int|
                        level < k < LEVELS ==> !self.block_fits(k, pos as int, b as int)
                },
                None => forall|k: int|
                    0 <= k < LEVELS ==> !self.block_fits(k, pos as int, b as int),
            },
    {
        let mut level: usize = LEVELS;
        while level > 0
            invariant
                level <= LEVELS,
                pos <= b,
                forall|k: int|
                    level <= k < LEVELS ==> !self.block_fits(k, pos as int, b as int),
            decreases level,
        {
            level = level - 1;
            proof {
                lemma_block_sizes();
            }
            let size: usize = block_size(level);
            if pos % size == 0 && size <= b - pos && pos / size < self.levels[level].len() {
                return Some(level);
            }
        }
        None
    }

    /// Min/max over frames `[a, b)`, from the coarsest cached blocks that fit and,
    /// at the edges, from the frames in `samples`, the interleaved buffer.
    ///
    /// `samples` holds the frames at the two edges of the range; what else it holds, and
    /// whether it holds anything else, does not matter. The range ends within the
    /// recording, or at the end of its last, unfinished block if it takes in that block's
    /// start; frames that do not exist add nothing.
    pub fn query(&self, samples: &[Sample], a: usize, b: usize) -> (col: Column)
        requires
            self.wf(),
            a < b ==> {
                ||| b <= self@.len()
                ||| b == (self@.len() + BASE - 1) / BASE as int * BASE && a <= self@.len()
                    / BASE as nat * BASE
            },
            serves(samples@, self@, a as int, b as int),
        ensures
            a < b ==> col == summary(self@.subrange(a as int, min(b as int, self@.len() as int))),
            a >= b ==> col == empty_column(),
    {
        let (col, _read) = self.query_counted(samples, a, b);
        col
    }

    /// The column of `query`, and what is read for it: a few cached blocks and, at each
    /// edge, at most `BASE - 1` raw frames.
    pub fn query_counted(&self, samples: &[Sample], a: usize, b: usize) -> (out: (Column, Ghost<Reads>))
        requires
            self.wf(),
            a < b ==> {
                ||| b <= self@.len()
                ||| b == (self@.len() + BASE - 1) / BASE as int * BASE && a <= self@.len()
                    / BASE as nat * BASE
            },
            serves(samples@, self@, a as int, b as int),
        ensures
            a < b ==> out.0 == summary(self@.subrange(a as int, min(b as int, self@.len() as int))),
            a >= b ==> out.0 == empty_column(),
            b <= self@.len() ==> out.1@ == reads(a as int, b as int),
            a <= b <= self@.len() ==> out.1@.frames <= 2 * (BASE - 1),
            a <= b <= self@.len() ==> out.1@.blocks <= 2 * (BASE - 1) * (LEVELS - 1) + (b - a)
                / block_frames((LEVELS - 1) as nat) as int,
    {
        let ghost frames = self@;
        let ghost n = self@.len() as int;
        let ghost last = n / BASE as int * BASE;
        proof {
            lemma_block_sizes();
            if a <= b {
                query_reads_little(a as int, b as int);
            }
        }
        let mut tally = Tally::new();
        if a >= b {
            return (tally.col, tally.read);
        }
        let total: usize = samples.len();
        let mut pos: usize = a;
        proof {
            assert(frames.subrange(a as int, a as int) =~= Seq::empty());
            assert(on_walk(a as int, b as int, a as int)) by {
                reveal(on_walk);
            }
        }
        while pos < b
            invariant
                self.wf(),
                frames == self@,
                n == frames.len(),
                last == n / BASE as int * BASE,
                b <= n || b == (n + BASE - 1) / BASE as int * BASE && (pos <= last || pos == b),
                a <= pos <= b,
                total == samples@.len(),
                serves(samples@, frames, a as int, b as int),
                on_walk(a as int, b as int, pos as int),
                tally.col == summary(frames.subrange(a as int, min(pos as int, n))),
                b <= n ==> tally.read@.blocks + reads(pos as int, b as int).blocks == reads(
                    a as int,
                    b as int,
                ).blocks,
                b <= n ==> tally.read@.frames + reads(pos as int, b as int).frames == reads(
                    a as int,
                    b as int,
                ).frames,
            decreases b - pos,
        {
            match self.covering_level(pos, b) {
                Some(level) => {
                    proof {
                        lemma_block_sizes();
                    }
                    let size: usize = block_size(level);
                    let block: usize = pos / size;
                    proof {
                        if b <= n {
                            self.lemma_coarsest_cached(level as int, pos as int, b as int);
                        }
                        self.lemma_block_covers(level as int, pos as int, b as int);
                        lemma_summary_split(
                            frames,
                            a as int,
                            pos as int,
                            min(pos + size, n),
                        );
                        assert(on_walk(a as int, b as int, pos + size)) by {
                            reveal(on_walk);
                        }
                    }
                    tally.take_block(&self.levels[level][block]);
                    pos = pos + size;
                },
                None => {
                    proof {
                        self.lemma_uncached(pos as int, b as int);
                        if b <= n {
                            self.lemma_none_cached(pos as int, b as int);
                        }
                        lemma_walk_at_edge(a as int, b as int, pos as int);
                        assert(frames[pos as int] == frames_of(samples@)[pos as int]);
                        lemma_summary_step(frames, a as int, pos as int);
                    }
                    let frame = Frame { l: samples[pos * 2], r: samples[pos * 2 + 1] };
                    tally.take_frame(frame);
                    pos = pos + 1;
                },
            }
        }
        (tally.col, tally.read)
    }

    /// Where no block of the finest level is taken there is a frame, and the block there
    /// does not lie in the range.
    proof fn lemma_uncached(&self, pos: int, b: int)
        requires
            self.wf(),
            0 <= pos < b,
            !self.block_fits(0, pos, b),
            ({
                let n = self@.len() as int;
                ||| b <= n
                ||| b == (n + BASE - 1) / BASE as int * BASE && pos <= n / BASE as int * BASE
            }),
        ensures
            pos < self@.len(),
            pos % 16 != 0 || pos + 16 > b,
    {
        lemma_block_sizes();
        assert(self.levels[0]@.len() == (self@.len() + 15) / 16);
    }

    /// Within the recording every block that lies in the range is cached.
    proof fn lemma_block_cached(&self, level: int, pos: int, b: int)
        requires
            self.wf(),
            0 <= level < LEVELS,
            0 <= pos,
            b <= self@.len(),
        ensures
            self.block_fits(level, pos, b) == block_lies(level as nat, pos, b),
    {
        lemma_block_sizes();
        let n = self@.len() as int;
        let size = block_frames(level as nat) as int;
        let cached = self.levels[level]@.len() as int;
        if block_lies(level as nat, pos, b) {
            if level == 0 {
                assert(size == 16 && cached == (n + 15) / 16);
            } else if level == 1 {
                assert(size == 256 && cached == n / 256);
            } else if level == 2 {
                assert(size == 4096 && cached == n / 4096);
            } else {
                assert(size == 65536 && cached == n / 65536);
            }
            assert(pos / size < cached);
        }
    }

    /// The coarsest cached block is the coarsest that lies in the range.
    proof fn lemma_coarsest_cached(&self, level: int, pos: int, b: int)
        requires
            self.wf(),
            0 <= level < LEVELS,
            0 <= pos,
            b <= self@.len(),
            self.block_fits(level, pos, b),
            forall|k: int| level < k < LEVELS ==> !self.block_fits(k, pos, b),
        ensures
            coarsest(LEVELS as nat, pos, b) == Some(level as nat),
    {
        self.lemma_block_cached(level, pos, b);
        assert forall|k: int| level < k < LEVELS implies !#[trigger] block_lies(
            k as nat,
            pos,
            b,
        ) by {
            self.lemma_block_cached(k, pos, b);
        }
        lemma_coarsest(LEVELS as nat, level as nat, pos, b);
    }

    /// Where no block is cached none lies in the range.
    proof fn lemma_none_cached(&self, pos: int, b: int)
        requires
            self.wf(),
            0 <= pos,
            b <= self@.len(),
            forall|k: int| 0 <= k < LEVELS ==> !self.block_fits(k, pos, b),
        ensures
            coarsest(LEVELS as nat, pos, b) is None,
    {
        assert forall|k: int| 0 <= k < LEVELS implies !#[trigger] block_lies(k as nat, pos, b) by {
            self.lemma_block_cached(k, pos, b);
        }
        lemma_no_coarsest(LEVELS as nat, pos, b);
    }

    /// What a fitting block holds, and where it ends: within the recording, or, for
    /// the unfinished block of the finest level, at that block's end.
    proof fn lemma_block_covers(&self, level: int, pos: int, b: int)
        requires
            self.wf(),
            0 <= level < LEVELS,
            0 <= pos,
            self.block_fits(level, pos, b),
        ensures
            ({
                let size = block_frames(level as nat) as int;
                let n = self@.len() as int;
                &&& pos <= n
                &&& self.levels[level]@[pos / size] == summary(
                    self@.subrange(pos, min(pos + size, n)),
                )
                &&& pos + size <= n || (level == 0 && pos == n / BASE as int * BASE)
                &&& (pos + size) % BASE as int == 0
            }),
    {
        lemma_block_sizes();
        let size = block_frames(level as nat) as int;
        let n = self@.len() as int;
        let block = pos / size;
        vstd::arithmetic::div_mod::lemma_fundamental_div_mod(pos, size);
        assert(block * size == pos) by (nonlinear_arith)
            requires
                pos == size * (pos / size) + pos % size,
                pos % size == 0,
                block == pos / size,
        ;
        assert(self.levels[level]@[block] == block_summary(self@, block, size));
        if level == 0 {
            assert(size == 16 && pos == block * 16 && block < (n + 15) / 16);
        } else if level == 1 {
            assert(size == 256 && pos == block * 256 && block < n / 256);
        } else if level == 2 {
            assert(size == 4096 && pos == block * 4096 && block < n / 4096);
        } else {
            assert(size == 65536 && pos == block * 65536 && block < n / 65536);
        }
    }

    /// Forgets every frame.
    pub fn clear(&mut self)
        ensures
            final(self).wf(),
            final(self)@ == Seq::<Frame>::empty(),
    {
        let mut level: usize = 0;
        while level < LEVELS
            invariant
                forall|k: int| 0 <= k < level ==> (#[trigger] self.levels[k])@.len() == 0,
            decreases LEVELS - level,
        {
            self.levels[level].clear();
            level = level + 1;
        }
        self.frames = 0;
        self.pushed = Ghost(Seq::empty());
        proof {
            lemma_block_sizes();
        }
    }
}

impl Default for PeakPyramid {
    fn default() -> (p: PeakPyramid)
        ensures
            p.wf(),
            p@ == Seq::<Frame>::empty(),
    {
        proof {
            lemma_block_sizes();
        }
        PeakPyramid {
            levels: [Vec::new(), Vec::new(), Vec::new(), Vec::new()],
            frames: 0,
            pushed: Ghost(Seq::empty()),
        }
    }
}

/// A run with a finite sample on a channel has ends on that channel that are samples of the
/// run.
pub proof fn summary_comes_from_the_run(frames: Seq<Frame>, i: int)
    requires
        0 <= i < frames.len(),
    ensures
        -0x7f7f_ffff <= frames[i].l.order() <= 0x7f7f_ffff ==> {
            &&& exists|j: int|
                0 <= j < frames.len() && summary(frames).l_min == (#[trigger] frames[j]).l
            &&& exists|j: int|
                0 <= j < frames.len() && summary(frames).l_max == (#[trigger] frames[j]).l
        },
        -0x7f7f_ffff <= frames[i].r.order() <= 0x7f7f_ffff ==> {
            &&& exists|j: int|
                0 <= j < frames.len() && summary(frames).r_min == (#[trigger] frames[j]).r
            &&& exists|j: int|
                0 <= j < frames.len() && summary(frames).r_max == (#[trigger] frames[j]).r
        },
{
    summary_is_attained(frames);
    summary_encloses_every_frame(frames, i);
    let c = summary(frames);
    if -0x7f7f_ffff <= frames[i].l.order() <= 0x7f7f_ffff {
        if c.l_min == empty_column().l_min {
            assert(frames[i].l == c.l_min);
        }
        if c.l_max == empty_column().l_max {
            assert(frames[i].l == c.l_max);
        }
    }
    if -0x7f7f_ffff <= frames[i].r.order() <= 0x7f7f_ffff {
        if c.r_min == empty_column().r_min {
            assert(frames[i].r == c.r_min);
        }
        if c.r_max == empty_column().r_max {
            assert(frames[i].r == c.r_max);
        }
    }
}

/// The column of no frames is so that joining it to a column of finite ends changes
/// nothing: its minima are the largest finite value, its maxima the smallest.
pub proof fn empty_column_is_neutral(c: Column)
    requires
        -0x7f7f_ffff <= c.l_min.order() <= 0x7f7f_ffff,
        -0x7f7f_ffff <= c.l_max.order() <= 0x7f7f_ffff,
        -0x7f7f_ffff <= c.r_min.order() <= 0x7f7f_ffff,
        -0x7f7f_ffff <= c.r_max.order() <= 0x7f7f_ffff,
    ensures
        joined(empty_column(), c) == c,
        joined(c, empty_column()) == c,
        empty_column().l_min.order() == 0x7f7f_ffff,
        empty_column().r_min.order() == 0x7f7f_ffff,
        empty_column().l_max.order() == -0x7f7f_ffff,
        empty_column().r_max.order() == -0x7f7f_ffff,
{
}

/// Joining two columns takes the lower of the minima and the higher of the maxima, on each
/// channel for itself.
pub proof fn joining_takes_the_extremes(a: Column, b: Column)
    requires
        !a.l_min.nan() && !a.l_max.nan() && !a.r_min.nan() && !a.r_max.nan(),
        !b.l_min.nan() && !b.l_max.nan() && !b.r_min.nan() && !b.r_max.nan(),
    ensures
        ({
            let c = joined(a, b);
            &&& c.l_min == a.l_min || c.l_min == b.l_min
            &&& c.l_max == a.l_max || c.l_max == b.l_max
            &&& c.r_min == a.r_min || c.r_min == b.r_min
            &&& c.r_max == a.r_max || c.r_max == b.r_max
            &&& c.l_min.order() <= a.l_min.order() && c.l_min.order() <= b.l_min.order()
            &&& c.l_max.order() >= a.l_max.order() && c.l_max.order() >= b.l_max.order()
            &&& c.r_min.order() <= a.r_min.order() && c.r_min.order() <= b.r_min.order()
            &&& c.r_max.order() >= a.r_max.order() && c.r_max.order() >= b.r_max.order()
        }),
{
}

/// A sample that is no number adds nothing to the column of a run.
pub proof fn no_numbers_add_nothing(frames: Seq<Frame>, frame: Frame)
    ensures
        frame.l.nan() ==> summary(frames.push(frame)).l_min == summary(frames).l_min && summary(
            frames.push(frame),
        ).l_max == summary(frames).l_max,
        frame.r.nan() ==> summary(frames.push(frame)).r_min == summary(frames).r_min && summary(
            frames.push(frame),
        ).r_max == summary(frames).r_max,
        summary(Seq::<Frame>::empty()) == empty_column(),
{
    assert(frames.push(frame).drop_last() =~= frames);
}

/// The cache has levels of 16, 256, 4096 and 65536 frames per block.
pub proof fn block_sizes_are_powers_of_sixteen()
    ensures
        LEVELS == 4,
        block_frames(0) == 16,
        block_frames(1) == 256,
        block_frames(2) == 4096,
        block_frames(3) == 65536,
{
    lemma_block_sizes();
}

} // verus!
