//! Chains of glyph records, and the walk along their jump bytes.
//!
//! The records of a chain stand one after the other. The jump byte of a
//! record says how many bytes further the next record begins; the last
//! record of a chain has a jump byte of zero.

use crate::error::EncodeError;
use crate::glyph::U8g2Glyph;
use crate::header::U8g2Header;
use vstd::prelude::*;

verus! {

/// The codepoint of the uppercase anchor glyph, `A`.
pub const UPPER_ANCHOR: u16 = 0x41;

/// The codepoint of the lowercase anchor glyph, `a`.
pub const LOWER_ANCHOR: u16 = 0x61;

/// Where in a chain the records of the two anchor glyphs begin.
#[derive(Debug, Clone, Copy, PartialEq, Eq, Structural)]
pub struct Anchors {
    pub upper_a: Option<usize>,
    pub lower_a: Option<usize>,
}

/// The first `n` records of the chain of `glyphs`. Only the last glyph of
/// all ends the chain.
pub open spec fn chain_prefix(glyphs: Seq<U8g2Glyph>, h: U8g2Header, n: nat) -> Seq<u8>
    decreases n,
{
    if n == 0 {
        Seq::empty()
    } else {
        chain_prefix(glyphs, h, (n - 1) as nat) + glyphs[n - 1].record_bytes(
            h,
            n == glyphs.len(),
        )
    }
}

/// The chain of `glyphs`: their records in order.
pub open spec fn chain_bytes(glyphs: Seq<U8g2Glyph>, h: U8g2Header) -> Seq<u8> {
    chain_prefix(glyphs, h, glyphs.len())
}

/// The offset in the chain at which the record of glyph `i` begins.
pub open spec fn record_offset(glyphs: Seq<U8g2Glyph>, h: U8g2Header, i: nat) -> nat {
    chain_prefix(glyphs, h, i).len()
}

/// The last of the first `n` glyphs that has the codepoint `code`.
pub open spec fn last_with_code(glyphs: Seq<U8g2Glyph>, code: int, n: nat) -> Option<nat>
    decreases n,
{
    if n == 0 {
        None
    } else if glyphs[n - 1].unicode.code() == code {
        Some((n - 1) as nat)
    } else {
        last_with_code(glyphs, code, (n - 1) as nat)
    }
}

/// The offset of the record of the last of the first `n` glyphs that has the
/// codepoint `code`.
pub open spec fn anchor_among(glyphs: Seq<U8g2Glyph>, h: U8g2Header, code: int, n: nat) -> Option<
    nat,
> {
    match last_with_code(glyphs, code, n) {
        Some(i) => Some(record_offset(glyphs, h, i)),
        None => None,
    }
}

/// The offset of the record of the last glyph that has the codepoint `code`.
pub open spec fn anchor_offset(glyphs: Seq<U8g2Glyph>, h: U8g2Header, code: int) -> Option<nat> {
    anchor_among(glyphs, h, code, glyphs.len())
}

/// Whether a chain can be built of `glyphs`: each has a codepoint of the
/// chain's width, and each but the last has a record of at most 255 bytes.
pub open spec fn chain_fits(glyphs: Seq<U8g2Glyph>, h: U8g2Header, wide: bool) -> bool {
    &&& forall|i: int| 0 <= i < glyphs.len() ==> ((#[trigger] glyphs[i]).unicode is Double) == wide
    &&& forall|i: int|
        0 <= i < glyphs.len() - 1 ==> (#[trigger] glyphs[i]).record_len(h) <= 255
}

/// The number of bytes of a codepoint in a chain.
pub open spec fn code_len(wide: bool) -> nat {
    if wide {
        2
    } else {
        1
    }
}

/// The codepoint of the record that begins at `at`.
pub open spec fn code_at(data: Seq<u8>, at: int, wide: bool) -> int {
    if wide {
        data[at] * 256 + data[at + 1]
    } else {
        data[at] as int
    }
}

/// What is known of the anchors once the record at `at` has been seen.
pub open spec fn note_anchor(found: Anchors, code: int, at: nat) -> Anchors {
    if code == UPPER_ANCHOR {
        Anchors { upper_a: Some(at as usize), lower_a: found.lower_a }
    } else if code == LOWER_ANCHOR {
        Anchors { upper_a: found.upper_a, lower_a: Some(at as usize) }
    } else {
        found
    }
}

/// The walk along a chain from the record at `at`, over at most `fuel`
/// records: the anchors at the record whose jump byte is zero, or nothing
/// where a record does not lie within `data` or the records run out first.
pub open spec fn walk(data: Seq<u8>, at: nat, wide: bool, fuel: nat, found: Anchors) -> Option<
    Anchors,
>
    decreases fuel,
{
    if fuel == 0 || at + code_len(wide) >= data.len() {
        None
    } else {
        let seen = note_anchor(found, code_at(data, at as int, wide), at);
        let jump = data[(at + code_len(wide)) as int];
        if jump == 0 {
            Some(seen)
        } else {
            walk(data, at + jump as nat, wide, (fuel - 1) as nat, seen)
        }
    }
}

/// The anchors as a walk reports them.
pub open spec fn found_anchors(upper: Option<nat>, lower: Option<nat>) -> Anchors {
    Anchors {
        upper_a: match upper {
            Some(o) => Some(o as usize),
            None => None,
        },
        lower_a: match lower {
            Some(o) => Some(o as usize),
            None => None,
        },
    }
}

/// Walks the chain in `data` from its first record, over at most `limit`
/// records, and notes where the records of the two anchor glyphs begin. With
/// `wide` the codepoints take two bytes, else one; the jump byte follows the
/// codepoint. A chain that leaves `data` or does not end within `limit`
/// records is malformed.
pub fn walk_chain(data: &Vec<u8>, wide: bool, limit: usize) -> (res: Result<Anchors, EncodeError>)
    ensures
        match walk(data@, 0, wide, limit as nat, Anchors { upper_a: None, lower_a: None }) {
            Some(a) => res == Ok::<Anchors, EncodeError>(a),
            None => res == Err::<Anchors, EncodeError>(EncodeError::MalformedChain),
        },
{
    let width: usize = if wide {
        2
    } else {
        1
    };
    let mut found = Anchors { upper_a: None, lower_a: None };
    let mut at: usize = 0;
    let mut fuel: usize = limit;
    loop
        invariant
            width == code_len(wide),
            walk(data@, 0, wide, limit as nat, Anchors { upper_a: None, lower_a: None }) == walk(
                data@,
                at as nat,
                wide,
                fuel as nat,
                found,
            ),
        decreases fuel,
    {
        if fuel == 0 || data.len() <= width || at >= data.len() - width {
            return Err(EncodeError::MalformedChain);
        }
        let code: u16 = if wide {
            data[at] as u16 * 256 + data[at + 1] as u16
        } else {
            data[at] as u16
        };
        if code == UPPER_ANCHOR {
            found = Anchors { upper_a: Some(at), lower_a: found.lower_a };
        } else if code == LOWER_ANCHOR {
            found = Anchors { upper_a: found.upper_a, lower_a: Some(at) };
        }
        let jump: u8 = data[at + width];
        if jump == 0 {
            return Ok(found);
        }
        if jump as usize > data.len() - at {
            assert(walk(data@, (at + jump) as nat, wide, (fuel - 1) as nat, found) is None);
            return Err(EncodeError::MalformedChain);
        }
        at = at + jump as usize;
        fuel = fuel - 1;
    }
}

/// A record has the length that `record_len` says, and holds at least its
/// codepoint and its jump byte.
pub proof fn lemma_record_len(g: U8g2Glyph, h: U8g2Header, no_jump: bool)
    ensures
        g.record_bytes(h, no_jump).len() == g.record_len(h),
        g.record_len(h) >= g.unicode.byte_len() + 1,
{
}

proof fn lemma_prefix_grows(glyphs: Seq<U8g2Glyph>, h: U8g2Header, n: nat, m: nat)
    requires
        n <= m,
    ensures
        chain_prefix(glyphs, h, n).len() <= chain_prefix(glyphs, h, m).len(),
        chain_prefix(glyphs, h, m).take(chain_prefix(glyphs, h, n).len() as int) == chain_prefix(
            glyphs,
            h,
            n,
        ),
    decreases m,
{
    if n < m {
        lemma_prefix_grows(glyphs, h, n, (m - 1) as nat);
    }
}

/// The record of glyph `i` stands in the chain at its offset, and the next
/// record, if there is one, begins right behind it.
pub proof fn lemma_record_in_chain(glyphs: Seq<U8g2Glyph>, h: U8g2Header, i: nat)
    requires
        i < glyphs.len(),
    ensures
        record_offset(glyphs, h, i + 1) == record_offset(glyphs, h, i) + glyphs[i as int].record_len(
            h,
        ),
        record_offset(glyphs, h, i + 1) <= chain_bytes(glyphs, h).len(),
        chain_bytes(glyphs, h).subrange(
            record_offset(glyphs, h, i) as int,
            record_offset(glyphs, h, i + 1) as int,
        ) == glyphs[i as int].record_bytes(h, i + 1 == glyphs.len()),
{
    let record = glyphs[i as int].record_bytes(h, i + 1 == glyphs.len());
    let before = chain_prefix(glyphs, h, i);
    let upto = chain_prefix(glyphs, h, i + 1);
    lemma_prefix_grows(glyphs, h, i + 1, glyphs.len());
    let all = chain_bytes(glyphs, h);
    assert(all.subrange(before.len() as int, upto.len() as int) =~= record) by {
        assert forall|k: int| 0 <= k < record.len() implies all[before.len() + k] == record[k] by {
            assert(all.take(upto.len() as int)[before.len() + k] == upto[before.len() + k]);
        }
    }
}

/// In a chain, the last record has a jump byte of zero, and the jump byte of
/// every other record that is at most 255 bytes long is the length of that
/// record. The jump byte stands right behind the codepoint.
pub proof fn lemma_chain_jumps(glyphs: Seq<U8g2Glyph>, h: U8g2Header, i: nat)
    requires
        i < glyphs.len(),
        i + 1 < glyphs.len() ==> glyphs[i as int].record_len(h) <= 255,
    ensures
        record_offset(glyphs, h, i) + glyphs[i as int].unicode.byte_len() < chain_bytes(
            glyphs,
            h,
        ).len(),
        chain_bytes(glyphs, h)[(record_offset(glyphs, h, i)
            + glyphs[i as int].unicode.byte_len()) as int] == if i + 1 == glyphs.len() {
            0
        } else {
            glyphs[i as int].record_len(h) as int
        },
{
    lemma_record_in_chain(glyphs, h, i);
    let g = glyphs[i as int];
    let record = g.record_bytes(h, i + 1 == glyphs.len());
    let at = record_offset(glyphs, h, i) as int;
    let next = record_offset(glyphs, h, i + 1) as int;
    let jump_at = g.unicode.byte_len() as int;
    assert(chain_bytes(glyphs, h).subrange(at, next)[jump_at] == record[jump_at]);
}

/// In a chain, each record begins with the codepoint of its glyph.
pub proof fn lemma_chain_codes(glyphs: Seq<U8g2Glyph>, h: U8g2Header, wide: bool, i: nat)
    requires
        chain_fits(glyphs, h, wide),
        i < glyphs.len(),
    ensures
        record_offset(glyphs, h, i) + code_len(wide) < chain_bytes(glyphs, h).len(),
        code_at(chain_bytes(glyphs, h), record_offset(glyphs, h, i) as int, wide)
            == glyphs[i as int].unicode.code(),
{
    lemma_record_in_chain(glyphs, h, i);
    let g = glyphs[i as int];
    let record = g.record_bytes(h, i + 1 == glyphs.len());
    let at = record_offset(glyphs, h, i) as int;
    let next = record_offset(glyphs, h, i + 1) as int;
    let part = chain_bytes(glyphs, h).subrange(at, next);
    assert(part[0] == record[0]);
    assert(part[1] == record[1]);
}

/// The anchors that a walk has noted once it has seen the first `n` records.
pub open spec fn anchors_among(glyphs: Seq<U8g2Glyph>, h: U8g2Header, n: nat) -> Anchors {
    found_anchors(
        anchor_among(glyphs, h, UPPER_ANCHOR as int, n),
        anchor_among(glyphs, h, LOWER_ANCHOR as int, n),
    )
}

proof fn lemma_walk_from(glyphs: Seq<U8g2Glyph>, h: U8g2Header, wide: bool, i: nat)
    requires
        chain_fits(glyphs, h, wide),
        i < glyphs.len(),
    ensures
        walk(
            chain_bytes(glyphs, h),
            record_offset(glyphs, h, i),
            wide,
            (glyphs.len() - i) as nat,
            anchors_among(glyphs, h, i),
        ) == Some(anchors_among(glyphs, h, glyphs.len())),
    decreases glyphs.len() - i,
{
    lemma_chain_jumps(glyphs, h, i);
    lemma_chain_codes(glyphs, h, wide, i);
    lemma_record_len(glyphs[i as int], h, i + 1 == glyphs.len());
    if i + 1 < glyphs.len() {
        lemma_walk_from(glyphs, h, wide, i + 1);
    }
}

/// A walk along a chain that was built of glyphs ends at its last record,
/// and has then noted, for each anchor, the last glyph with its codepoint.
pub proof fn lemma_walk_of_chain(glyphs: Seq<U8g2Glyph>, h: U8g2Header, wide: bool)
    requires
        chain_fits(glyphs, h, wide),
        glyphs.len() > 0,
    ensures
        walk(
            chain_bytes(glyphs, h),
            0,
            wide,
            glyphs.len(),
            Anchors { upper_a: None, lower_a: None },
        ) == Some(anchors_among(glyphs, h, glyphs.len())),
{
    lemma_walk_from(glyphs, h, wide, 0);
}

/// The error of the first glyph from `i` on that has a field which cannot
/// hold its value.
pub open spec fn field_error_from(glyphs: Seq<U8g2Glyph>, h: U8g2Header, i: nat) -> Option<
    EncodeError,
>
    decreases glyphs.len() - i,
{
    if i >= glyphs.len() {
        None
    } else {
        match glyphs[i as int].field_error(h) {
            Some(e) => Some(e),
            None => field_error_from(glyphs, h, i + 1),
        }
    }
}

/// The error of the first glyph from `i` on whose record cannot be written
/// into the chain.
pub open spec fn record_error_from(glyphs: Seq<U8g2Glyph>, h: U8g2Header, i: nat) -> Option<
    EncodeError,
>
    decreases glyphs.len() - i,
{
    if i >= glyphs.len() {
        None
    } else {
        match glyphs[i as int].record_error(h, i + 1 == glyphs.len()) {
            Some(e) => Some(e),
            None => record_error_from(glyphs, h, i + 1),
        }
    }
}

/// Whether a glyph that another one follows has a record of more than 255
/// bytes.
pub open spec fn jump_overflows(glyphs: Seq<U8g2Glyph>, h: U8g2Header) -> bool {
    exists|i: int| 0 <= i < glyphs.len() - 1 && (#[trigger] glyphs[i]).record_len(h) > 255
}

/// Whether every glyph has a codepoint that belongs to the chain.
pub open spec fn codes_match(glyphs: Seq<U8g2Glyph>, wide: bool) -> bool {
    forall|i: int| 0 <= i < glyphs.len() ==> (#[trigger] glyphs[i]).unicode.belongs_to(wide)
}

/// Where no field overflows, the only error of a chain is a jump that
/// overflows.
pub proof fn lemma_record_error_is_jump(glyphs: Seq<U8g2Glyph>, h: U8g2Header, i: nat)
    requires
        field_error_from(glyphs, h, i) is None,
        forall|j: int| 0 <= j < i && j < glyphs.len() - 1 ==> (#[trigger] glyphs[j]).record_len(h)
            <= 255,
    ensures
        record_error_from(glyphs, h, i) == if jump_overflows(glyphs, h) {
            Some(EncodeError::JumpDistanceOverflow)
        } else {
            None
        },
    decreases glyphs.len() - i,
{
    if i < glyphs.len() && (i + 1 == glyphs.len() || glyphs[i as int].record_len(h) <= 255) {
        lemma_record_error_is_jump(glyphs, h, i + 1);
    }
}

/// Whether every glyph has a codepoint that belongs to the chain: with
/// `wide` one of two bytes that is at least 0x100, else one of one byte.
pub fn check_codes(glyphs: &Vec<U8g2Glyph>, wide: bool) -> (ok: bool)
    ensures
        ok == codes_match(glyphs@, wide),
{
    let mut i: usize = 0;
    while i < glyphs.len()
        invariant
            i <= glyphs.len(),
            forall|j: int| 0 <= j < i ==> (#[trigger] glyphs@[j]).unicode.belongs_to(wide),
        decreases glyphs.len() - i,
    {
        if !glyphs[i].unicode.in_chain(wide) {
            return false;
        }
        i = i + 1;
    }
    true
}

/// Checks the fields of every glyph against their bit widths in `header`,
/// and reports the first that overflows.
pub fn validate_glyphs(glyphs: &Vec<U8g2Glyph>, header: &U8g2Header) -> (res: Result<
    (),
    EncodeError,
>)
    ensures
        res.is_ok() == field_error_from(glyphs@, *header, 0).is_none(),
        res.is_err() ==> field_error_from(glyphs@, *header, 0) == Some(res.unwrap_err()),
{
    let mut i: usize = 0;
    while i < glyphs.len()
        invariant
            i <= glyphs.len(),
            field_error_from(glyphs@, *header, 0) == field_error_from(glyphs@, *header, i as nat),
        decreases glyphs.len() - i,
    {
        match glyphs[i].validate(header) {
            Ok(()) => {},
            Err(e) => {
                return Err(e);
            },
        }
        i = i + 1;
    }
    Ok(())
}

/// Writes the records of `glyphs` one after the other. Each record but the
/// last holds in its jump byte its own length, the distance to the next
/// record; the last holds zero there.
pub fn build_chain(glyphs: &Vec<U8g2Glyph>, header: &U8g2Header) -> (res: Result<
    Vec<u8>,
    EncodeError,
>)
    ensures
        res.is_ok() == record_error_from(glyphs@, *header, 0).is_none(),
        res.is_ok() ==> res.unwrap()@ == chain_bytes(glyphs@, *header),
        res.is_err() ==> record_error_from(glyphs@, *header, 0) == Some(res.unwrap_err()),
{
    let mut data: Vec<u8> = Vec::new();
    let mut i: usize = 0;
    while i < glyphs.len()
        invariant
            i <= glyphs.len(),
            record_error_from(glyphs@, *header, 0) == record_error_from(
                glyphs@,
                *header,
                i as nat,
            ),
            data@ == chain_prefix(glyphs@, *header, i as nat),
        decreases glyphs.len() - i,
    {
        let no_jump = i == glyphs.len() - 1;
        match glyphs[i].to_bytes(header, no_jump) {
            Ok(record) => {
                let mut record = record;
                data.append(&mut record);
            },
            Err(e) => {
                return Err(e);
            },
        }
        i = i + 1;
    }
    Ok(data)
}

/// An anchor that was found among the first `n` glyphs lies within the
/// chain.
pub proof fn lemma_anchor_in_chain(glyphs: Seq<U8g2Glyph>, h: U8g2Header, code: int, n: nat)
    requires
        n <= glyphs.len(),
    ensures
        anchor_among(glyphs, h, code, n) is Some ==> anchor_among(glyphs, h, code, n).unwrap()
            < chain_bytes(glyphs, h).len(),
    decreases n,
{
    if n > 0 {
        if glyphs[n - 1].unicode.code() == code {
            lemma_record_in_chain(glyphs, h, (n - 1) as nat);
        } else {
            lemma_anchor_in_chain(glyphs, h, code, (n - 1) as nat);
        }
    }
}

} // verus!
