//! Which glyphs of a font description are taken into a font.
//!
//! A font may be cut down to the characters that are wanted. Where none are
//! named, every glyph is taken. Otherwise a glyph is taken if its character
//! is wanted and no glyph before it has the same character.

use vstd::prelude::*;

verus! {

/// Whether glyph `i` of a font whose glyphs have the codepoints `codes` is
/// taken, where the characters `wanted` are asked for.
pub open spec fn is_taken(codes: Seq<u32>, wanted: Seq<u32>, i: int) -> bool {
    wanted.len() == 0 || (wanted.contains(codes[i]) && !codes.take(i).contains(codes[i]))
}

/// Whether `c` is among the first `n` of `codes`.
fn occurs(codes: &Vec<u32>, n: usize, c: u32) -> (found: bool)
    requires
        n <= codes.len(),
    ensures
        found == codes@.take(n as int).contains(c),
{
    let mut i: usize = 0;
    while i < n
        invariant
            i <= n <= codes.len(),
            !codes@.take(i as int).contains(c),
        decreases n - i,
    {
        if codes[i] == c {
            assert(codes@.take(n as int)[i as int] == c);
            return true;
        }
        i = i + 1;
    }
    false
}

/// Marks the glyphs that are taken: all where no characters are named, else
/// for each wanted character the first glyph that has it.
pub fn choose_glyphs(codes: &Vec<u32>, wanted: &Vec<u32>) -> (taken: Vec<bool>)
    ensures
        taken@.len() == codes@.len(),
        forall|i: int| 0 <= i < codes@.len() ==> taken@[i] == is_taken(codes@, wanted@, i),
{
    let mut taken: Vec<bool> = Vec::new();
    let mut i: usize = 0;
    while i < codes.len()
        invariant
            i <= codes.len(),
            taken@.len() == i,
            forall|j: int| 0 <= j < i ==> taken@[j] == is_taken(codes@, wanted@, j),
        decreases codes.len() - i,
    {
        let c: u32 = codes[i];
        proof {
            assert(wanted@.take(wanted@.len() as int) =~= wanted@);
        }
        let take = wanted.len() == 0 || (occurs(wanted, wanted.len(), c) && !occurs(codes, i, c));
        taken.push(take);
        i = i + 1;
    }
    taken
}

/// The wanted characters that no glyph has, in the order in which they were
/// named.
pub fn missing_chars(codes: &Vec<u32>, wanted: &Vec<u32>) -> (missing: Vec<u32>)
    ensures
        missing@ == wanted@.filter(|c: u32| !codes@.contains(c)),
{
    let mut missing: Vec<u32> = Vec::new();
    let mut i: usize = 0;
    proof {
        reveal(Seq::filter);
    }
    while i < wanted.len()
        invariant
            i <= wanted.len(),
            codes@.take(codes@.len() as int) == codes@,
            missing@ == wanted@.take(i as int).filter(|c: u32| !codes@.contains(c)),
        decreases wanted.len() - i,
    {
        let c: u32 = wanted[i];
        proof {
            reveal(Seq::filter);
            assert(wanted@.take(i + 1).drop_last() =~= wanted@.take(i as int));
        }
        if !occurs(codes, codes.len(), c) {
            missing.push(c);
        }
        i = i + 1;
    }
    proof {
        assert(wanted@.take(wanted@.len() as int) =~= wanted@);
    }
    missing
}

} // verus!
