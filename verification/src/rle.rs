//! Run-length compression of a glyph's pixels.
//!
//! The pixels of a bitmap, row after row, are cut into pairs of a run of
//! clear pixels and a run of set pixels. No run is longer than its field in
//! the format can say. Equal pairs in a row are then merged into one entry
//! with a repeat count.

use crate::bits::repeat_bit;
use vstd::arithmetic::power2::{lemma2_to64, lemma_pow2_strictly_increases, pow2};
use vstd::prelude::*;

verus! {

/// A run of clear pixels and the run of set pixels that follows it.
pub type RunPair = (u32, u32);

/// A pair and the number of times that it occurs again right after itself.
pub type RunEntry = (RunPair, u32);

/// The length at which a run of a field of `bits` bits is cut: `2^bits`, and
/// `2^32` for wider fields, since a run is held in 32 bits.
pub open spec fn run_cap(bits: u8) -> int {
    if bits >= 32 {
        0x1_0000_0000
    } else {
        pow2(bits as nat) as int
    }
}

/// The scan of a bitmap at some pixel: the pairs that are complete, and the
/// lengths of the clear run and of the set run of the pair that is open.
pub type Scan = (Seq<RunPair>, u32, u32);

/// The scan after one more pixel.
pub open spec fn scan_step(s: Scan, pixel: bool, cap0: int, cap1: int) -> Scan {
    let (done, run0, run1) = s;
    if pixel {
        if run1 + 1 >= cap1 {
            (done.push((run0, run1)), 0u32, 1u32)
        } else {
            (done, run0, (run1 + 1) as u32)
        }
    } else if run1 > 0 {
        if 1 >= cap0 {
            (done.push((run0, run1)).push((0u32, 0u32)), 1u32, 0u32)
        } else {
            (done.push((run0, run1)), 1u32, 0u32)
        }
    } else if run0 + 1 >= cap0 {
        (done.push((run0, 0u32)), 1u32, 0u32)
    } else {
        (done, (run0 + 1) as u32, 0u32)
    }
}

/// The scan after all of `pixels`.
pub open spec fn scan_of(pixels: Seq<bool>, cap0: int, cap1: int) -> Scan
    decreases pixels.len(),
{
    if pixels.len() == 0 {
        (Seq::empty(), 0u32, 0u32)
    } else {
        scan_step(scan_of(pixels.drop_last(), cap0, cap1), pixels.last(), cap0, cap1)
    }
}

/// The pairs that stand for `pixels`: those that the scan completed, and the
/// one that was open at the end, whatever its runs.
pub open spec fn rle_pairs(pixels: Seq<bool>, bits_per_0: u8, bits_per_1: u8) -> Seq<RunPair> {
    let (done, run0, run1) = scan_of(pixels, run_cap(bits_per_0), run_cap(bits_per_1));
    done.push((run0, run1))
}

/// The pixels that one pair stands for.
pub open spec fn pair_pixels(p: RunPair) -> Seq<bool> {
    repeat_bit(false, p.0 as nat) + repeat_bit(true, p.1 as nat)
}

/// The pixels that a sequence of pairs stands for.
pub open spec fn expand_pairs(pairs: Seq<RunPair>) -> Seq<bool>
    decreases pairs.len(),
{
    if pairs.len() == 0 {
        Seq::empty()
    } else {
        expand_pairs(pairs.drop_last()) + pair_pixels(pairs.last())
    }
}

/// The pairs that one entry stands for: its pair, once and then as often
/// again as its repeat count says.
pub open spec fn entry_pairs(e: RunEntry) -> Seq<RunPair> {
    Seq::new((e.1 + 1) as nat, |i: int| e.0)
}

/// The pairs that a sequence of entries stands for.
pub open spec fn unroll(entries: Seq<RunEntry>) -> Seq<RunPair>
    decreases entries.len(),
{
    if entries.len() == 0 {
        Seq::empty()
    } else {
        unroll(entries.drop_last()) + entry_pairs(entries.last())
    }
}

/// The pixels that a compressed bitmap stands for.
pub open spec fn expand_entries(entries: Seq<RunEntry>) -> Seq<bool> {
    expand_pairs(unroll(entries))
}

/// Whether equal pairs were merged as far as the repeat count can say: two
/// neighbours hold the same pair only where the first has the largest count.
pub open spec fn merged(entries: Seq<RunEntry>) -> bool {
    forall|i: int|
        0 <= i && i + 1 < entries.len() && (#[trigger] entries[i]).0 == entries[i + 1].0
            ==> entries[i].1 == u32::MAX
}

/// Whether every run of `pairs` fits its field.
pub open spec fn runs_fit(pairs: Seq<RunPair>, bits_per_0: u8, bits_per_1: u8) -> bool {
    forall|i: int|
        0 <= i < pairs.len() ==> (#[trigger] pairs[i]).0 < pow2(bits_per_0 as nat) && pairs[i].1
            < pow2(bits_per_1 as nat)
}

/// What holds of a scan wherever it stands: no run has reached its cap, but
/// for a run of one pixel under a cap of one.
pub open spec fn scan_bounded(s: Scan, cap0: int, cap1: int) -> bool {
    &&& s.1 < cap0 || s.1 <= 1
    &&& s.2 < cap1 || s.2 <= 1
    &&& forall|i: int|
        0 <= i < s.0.len() ==> ((#[trigger] s.0[i]).0 < cap0 || s.0[i].0 <= 1) && (s.0[i].1 < cap1
            || s.0[i].1 <= 1)
}

proof fn lemma_run_cap(bits: u8)
    ensures
        1 <= run_cap(bits) <= 0x1_0000_0000,
        run_cap(bits) <= pow2(bits as nat),
        bits >= 1 ==> run_cap(bits) >= 2,
{
    lemma2_to64();
    if bits > 32 {
        lemma_pow2_strictly_increases(32, bits as nat);
    }
}

proof fn lemma_expand_push(pairs: Seq<RunPair>, p: RunPair)
    ensures
        expand_pairs(pairs.push(p)) == expand_pairs(pairs) + pair_pixels(p),
{
    assert(pairs.push(p).drop_last() =~= pairs);
}

proof fn lemma_scan_step(s: Scan, pixel: bool, cap0: int, cap1: int)
    requires
        1 <= cap0 <= 0x1_0000_0000,
        1 <= cap1 <= 0x1_0000_0000,
        scan_bounded(s, cap0, cap1),
    ensures
        scan_bounded(scan_step(s, pixel, cap0, cap1), cap0, cap1),
        expand_pairs(scan_step(s, pixel, cap0, cap1).0) + pair_pixels(
            (scan_step(s, pixel, cap0, cap1).1, scan_step(s, pixel, cap0, cap1).2),
        ) == (expand_pairs(s.0) + pair_pixels((s.1, s.2))).push(pixel),
{
    let (done, run0, run1) = s;
    if pixel {
        if run1 + 1 >= cap1 {
            lemma_expand_push(done, (run0, run1));
        }
    } else if run1 > 0 {
        lemma_expand_push(done, (run0, run1));
        if 1 >= cap0 {
            lemma_expand_push(done.push((run0, run1)), (0u32, 0u32));
        }
    } else if run0 + 1 >= cap0 {
        lemma_expand_push(done, (run0, 0u32));
    }
}

/// The scan of any pixels is bounded, and its pairs, with the open one,
/// stand for exactly those pixels.
pub proof fn lemma_scan(pixels: Seq<bool>, cap0: int, cap1: int)
    requires
        1 <= cap0 <= 0x1_0000_0000,
        1 <= cap1 <= 0x1_0000_0000,
    ensures
        scan_bounded(scan_of(pixels, cap0, cap1), cap0, cap1),
        expand_pairs(scan_of(pixels, cap0, cap1).0) + pair_pixels(
            (scan_of(pixels, cap0, cap1).1, scan_of(pixels, cap0, cap1).2),
        ) == pixels,
    decreases pixels.len(),
{
    if pixels.len() > 0 {
        lemma_scan(pixels.drop_last(), cap0, cap1);
        lemma_scan_step(scan_of(pixels.drop_last(), cap0, cap1), pixels.last(), cap0, cap1);
    }
}

/// Decoding what the encoder gives returns the pixels that it was given.
pub proof fn lemma_rle_round_trip(pixels: Seq<bool>, bits_per_0: u8, bits_per_1: u8)
    ensures
        expand_pairs(rle_pairs(pixels, bits_per_0, bits_per_1)) == pixels,
{
    lemma_run_cap(bits_per_0);
    lemma_run_cap(bits_per_1);
    let cap0 = run_cap(bits_per_0);
    let cap1 = run_cap(bits_per_1);
    lemma_scan(pixels, cap0, cap1);
    let s = scan_of(pixels, cap0, cap1);
    lemma_expand_push(s.0, (s.1, s.2));
}

/// With fields of at least one bit, every run that the encoder gives fits
/// its field.
pub proof fn lemma_rle_runs_fit(pixels: Seq<bool>, bits_per_0: u8, bits_per_1: u8)
    requires
        bits_per_0 >= 1,
        bits_per_1 >= 1,
    ensures
        runs_fit(rle_pairs(pixels, bits_per_0, bits_per_1), bits_per_0, bits_per_1),
{
    lemma_run_cap(bits_per_0);
    lemma_run_cap(bits_per_1);
    lemma_scan(pixels, run_cap(bits_per_0), run_cap(bits_per_1));
}

/// The cap of a run in a field of `bits` bits.
fn cap_of(bits: u8) -> (cap: u64)
    ensures
        cap == run_cap(bits),
        1 <= cap <= 0x1_0000_0000,
{
    proof {
        lemma_run_cap(bits);
    }
    if bits >= 32 {
        0x1_0000_0000
    } else {
        crate::field::pow2_u64(bits)
    }
}

/// Cuts `pixels`, the pixels of a bitmap row after row, into pairs of runs.
///
/// A set pixel lengthens the set run of the open pair; where that run would
/// reach `2^bits_per_1`, the pair is closed first. A clear pixel closes a
/// pair that has a set run, and lengthens the clear run of the open pair;
/// where that run would reach `2^bits_per_0`, the pair is closed first. The
/// pair that is open at the end is closed whatever it holds, so there is
/// always at least one pair.
pub fn rle_encode(pixels: &Vec<bool>, bits_per_0: u8, bits_per_1: u8) -> (pairs: Vec<RunPair>)
    ensures
        pairs@ == rle_pairs(pixels@, bits_per_0, bits_per_1),
        expand_pairs(pairs@) == pixels@,
        bits_per_0 >= 1 && bits_per_1 >= 1 ==> runs_fit(pairs@, bits_per_0, bits_per_1),
{
    let cap0: u64 = cap_of(bits_per_0);
    let cap1: u64 = cap_of(bits_per_1);
    let mut pairs: Vec<RunPair> = Vec::new();
    let mut run0: u32 = 0;
    let mut run1: u32 = 0;
    let mut i: usize = 0;
    while i < pixels.len()
        invariant
            i <= pixels.len(),
            1 <= cap0 <= 0x1_0000_0000,
            1 <= cap1 <= 0x1_0000_0000,
            (pairs@, run0, run1) == scan_of(pixels@.take(i as int), cap0 as int, cap1 as int),
        decreases pixels.len() - i,
    {
        assert(pixels@.take(i + 1).drop_last() =~= pixels@.take(i as int));
        if pixels[i] {
            if run1 as u64 + 1 >= cap1 {
                pairs.push((run0, run1));
                run0 = 0;
                run1 = 0;
            }
            run1 = run1 + 1;
        } else {
            if run1 > 0 {
                pairs.push((run0, run1));
                run0 = 0;
                run1 = 0;
            }
            if run0 as u64 + 1 >= cap0 {
                pairs.push((run0, run1));
                run0 = 0;
                run1 = 0;
            }
            run0 = run0 + 1;
        }
        i = i + 1;
    }
    pairs.push((run0, run1));
    proof {
        assert(pixels@.take(pixels.len() as int) =~= pixels@);
        lemma_rle_round_trip(pixels@, bits_per_0, bits_per_1);
        if bits_per_0 >= 1 && bits_per_1 >= 1 {
            lemma_rle_runs_fit(pixels@, bits_per_0, bits_per_1);
        }
    }
    pairs
}

/// The entries into which `pairs` are merged: each pair joins the entry
/// before it where that entry holds the same pair and can count one more,
/// and else begins an entry of its own.
pub open spec fn merge_runs(pairs: Seq<RunPair>) -> Seq<RunEntry>
    decreases pairs.len(),
{
    if pairs.len() == 0 {
        Seq::empty()
    } else {
        let before = merge_runs(pairs.drop_last());
        if before.len() > 0 && before.last().0 == pairs.last() && before.last().1 < u32::MAX {
            before.drop_last().push((pairs.last(), (before.last().1 + 1) as u32))
        } else {
            before.push((pairs.last(), 0u32))
        }
    }
}

proof fn lemma_unroll_push(entries: Seq<RunEntry>, e: RunEntry)
    ensures
        unroll(entries.push(e)) == unroll(entries) + entry_pairs(e),
{
    assert(entries.push(e).drop_last() =~= entries);
}

/// Merging loses nothing: the entries stand for the pairs that were merged.
/// And it merges all that can be merged.
pub proof fn lemma_merge_runs(pairs: Seq<RunPair>)
    ensures
        unroll(merge_runs(pairs)) == pairs,
        merged(merge_runs(pairs)),
        pairs.len() > 0 ==> merge_runs(pairs).len() > 0,
    decreases pairs.len(),
{
    if pairs.len() > 0 {
        let before = merge_runs(pairs.drop_last());
        let x = pairs.last();
        lemma_merge_runs(pairs.drop_last());
        if before.len() > 0 && before.last().0 == x && before.last().1 < u32::MAX {
            let r = before.last().1;
            let head = before.drop_last();
            let after = head.push((x, (r + 1) as u32));
            lemma_unroll_push(head, (x, (r + 1) as u32));
            assert(unroll(after) =~= unroll(before).push(x));
            assert(merged(after));
        } else {
            lemma_unroll_push(before, (x, 0u32));
            assert(merged(before.push((x, 0u32))));
        }
    }
}

/// Decoding a bitmap that was encoded and merged returns the pixels that it
/// was made of.
pub proof fn lemma_bitmap_round_trip(pixels: Seq<bool>, bits_per_0: u8, bits_per_1: u8)
    ensures
        expand_entries(merge_runs(rle_pairs(pixels, bits_per_0, bits_per_1))) == pixels,
{
    lemma_merge_runs(rle_pairs(pixels, bits_per_0, bits_per_1));
    lemma_rle_round_trip(pixels, bits_per_0, bits_per_1);
}

/// Merges each row of equal pairs into one entry that counts how often the
/// pair occurs again after its first occurrence. A row longer than the count
/// can say goes on in a further entry.
pub fn compress_runs(pairs: &Vec<RunPair>) -> (entries: Vec<RunEntry>)
    ensures
        entries@ == merge_runs(pairs@),
        unroll(entries@) == pairs@,
        merged(entries@),
{
    let mut entries: Vec<RunEntry> = Vec::new();
    proof {
        lemma_merge_runs(pairs@);
    }
    if pairs.len() == 0 {
        return entries;
    }
    let mut last: RunPair = pairs[0];
    let mut repeat: u32 = 0;
    let mut i: usize = 1;
    assert(merge_runs(pairs@.take(1).drop_last()) =~= Seq::<RunEntry>::empty());
    while i < pairs.len()
        invariant
            1 <= i <= pairs.len(),
            entries@.push((last, repeat)) == merge_runs(pairs@.take(i as int)),
        decreases pairs.len() - i,
    {
        let pair: RunPair = pairs[i];
        assert(pairs@.take(i + 1).drop_last() =~= pairs@.take(i as int));
        if last.0 == pair.0 && last.1 == pair.1 && repeat < u32::MAX {
            repeat = repeat + 1;
        } else {
            entries.push((last, repeat));
            last = pair;
            repeat = 0;
        }
        i = i + 1;
    }
    entries.push((last, repeat));
    assert(pairs@.take(pairs.len() as int) =~= pairs@);
    entries
}

} // verus!
