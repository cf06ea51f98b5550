use vstd::prelude::*;
use crate::state::{unit_at, max, Lexer, MAX_SOURCE_LEN, POS_SLACK};

verus! {

/// The UTF-16 code units of one character.
pub open spec fn utf16_of_char(c: char) -> Seq<u16> {
    let v = c as int;
    if v < 0x10000 {
        seq![v as u16]
    } else {
        seq![(0xD800 + (v - 0x10000) / 1024) as u16, (0xDC00 + (v - 0x10000) % 1024) as u16]
    }
}

/// The UTF-16 encoding of a character sequence.
pub open spec fn utf16_encode(cs: Seq<char>) -> Seq<u16>
    decreases cs.len(),
{
    if cs.len() == 0 {
        seq![]
    } else {
        utf16_encode(cs.drop_last()) + utf16_of_char(cs.last())
    }
}

pub open spec fn is_high_surrogate(u: u16) -> bool {
    0xD800 <= u <= 0xDBFF
}

pub open spec fn is_low_surrogate(u: u16) -> bool {
    0xDC00 <= u <= 0xDFFF
}

/// Lossy UTF-16 decoding: a well-formed surrogate pair gives one character, a
/// lone surrogate gives U+FFFD, any other unit gives the character of that code.
pub open spec fn utf16_decode_lossy(u: Seq<u16>) -> Seq<char>
    decreases u.len(),
{
    if u.len() == 0 {
        seq![]
    } else if u.len() >= 2 && is_high_surrogate(u[0]) && is_low_surrogate(u[1]) {
        seq![(0x10000 + (u[0] - 0xD800) * 1024 + (u[1] - 0xDC00)) as char] + utf16_decode_lossy(
            u.skip(2),
        )
    } else if 0xD800 <= u[0] <= 0xDFFF {
        seq!['\u{FFFD}'] + utf16_decode_lossy(u.skip(1))
    } else {
        seq![u[0] as char] + utf16_decode_lossy(u.skip(1))
    }
}

/// Encoding a sequence that starts with `c` writes the units of `c` first.
proof fn lemma_encode_prepend(c: char, rest: Seq<char>)
    ensures
        utf16_encode(seq![c] + rest) == utf16_of_char(c) + utf16_encode(rest),
    decreases rest.len(),
{
    let s = seq![c] + rest;
    if rest.len() == 0 {
        assert(s.drop_last() =~= Seq::<char>::empty());
        assert(s.last() == c);
        assert(utf16_encode(Seq::<char>::empty()) =~= Seq::<u16>::empty());
        assert(utf16_encode(rest) =~= Seq::<u16>::empty());
        assert(utf16_encode(s) == utf16_encode(s.drop_last()) + utf16_of_char(s.last()));
        assert(utf16_encode(s) =~= utf16_of_char(c));
    } else {
        assert(s.drop_last() =~= seq![c] + rest.drop_last());
        lemma_encode_prepend(c, rest.drop_last());
        assert(utf16_encode(s) =~= utf16_of_char(c) + utf16_encode(rest));
    }
}

/// Decoding the units of one character followed by more units gives that
/// character first.
proof fn lemma_decode_char(c: char, t: Seq<u16>)
    ensures
        utf16_decode_lossy(utf16_of_char(c) + t) == seq![c] + utf16_decode_lossy(t),
{
    let u = utf16_of_char(c) + t;
    let v = c as int;
    if v < 0x10000 {
        assert(v < 0xD800 || v > 0xDFFF);
        assert(u[0] == v as u16);
        assert(u[0] as int == v);
        assert(!is_high_surrogate(u[0]));
        assert(u.skip(1) =~= t);
        assert((u[0] as int) as char == c);
    } else {
        let w = v - 0x10000;
        assert(0 <= w < 0x100000);
        let hi = 0xD800 + w / 1024;
        let lo = 0xDC00 + w % 1024;
        assert(0 <= w / 1024 < 1024);
        assert(w == (w / 1024) * 1024 + w % 1024);
        assert(u[0] as int == hi);
        assert(u[1] as int == lo);
        assert(is_high_surrogate(u[0]));
        assert(is_low_surrogate(u[1]));
        assert(0x10000 + (u[0] - 0xD800) * 1024 + (u[1] - 0xDC00) == v);
        assert(u.skip(2) =~= t);
    }
}

/// UTF-16 encoding loses nothing: lossy decoding of the encoding of a
/// character sequence gives back that sequence.
pub proof fn lemma_utf16_roundtrip(cs: Seq<char>)
    ensures
        utf16_decode_lossy(utf16_encode(cs)) == cs,
    decreases cs.len(),
{
    if cs.len() == 0 {
        assert(utf16_encode(cs) =~= seq![]);
    } else {
        let rest = cs.skip(1);
        assert(cs =~= seq![cs[0]] + rest);
        lemma_encode_prepend(cs[0], rest);
        lemma_decode_char(cs[0], utf16_encode(rest));
        lemma_utf16_roundtrip(rest);
    }
}

/// A source set from a string reads back as that string: once the source
/// holds the UTF-16 encoding of `s` (as `setSource` leaves it), the whole
/// source, as `stringify` renders it from 0 to its length, is `s` again.
pub proof fn law_source_reads_back(lx: Lexer, s: Seq<char>)
    requires
        lx.source@ == utf16_encode(s),
    ensures
        utf16_decode_lossy(clamped_range(lx.source@, 0, lx.len())) == s,
{
    lemma_utf16_roundtrip(s);
    assert(clamped_range(lx.source@, 0, lx.len()) =~= lx.source@ || lx.source@.len() == 0);
    if lx.source@.len() == 0 {
        assert(clamped_range(lx.source@, 0, lx.len()) =~= lx.source@);
    }
}

/// Whether the units of `u` stand in `src` from `from` on (reading 0 past the end).
pub open spec fn spec_starts_with(src: Seq<u16>, u: Seq<u16>, from: int) -> bool {
    &&& from >= 0
    &&& forall|i: int| 0 <= i < u.len() ==> #[trigger] unit_at(src, from + i) == u[i] as int
}

/// The clamped range `[max(start, 0), min(max(end, 0), len))` of the source, empty when reversed.
pub open spec fn clamped_range(src: Seq<u16>, start: int, end: int) -> Seq<u16> {
    let s = max(start, 0);
    let e = if max(end, 0) < src.len() { max(end, 0) } else { src.len() as int };
    if s >= e {
        seq![]
    } else {
        src.subrange(s, e)
    }
}

/// The UTF-16 units of one character, written out.
fn char_units(c: char, out: &mut Vec<u16>)
    ensures
        final(out)@ == old(out)@ + utf16_of_char(c),
{
    let v = c as u32;
    if v < 0x10000 {
        out.push(v as u16);
    } else {
        let w = v - 0x10000;
        out.push((0xD800 + w / 1024) as u16);
        out.push((0xDC00 + w % 1024) as u16);
    }
}

/// The UTF-16 code units of `s`.
pub fn encode_utf16(s: &str) -> (r: Vec<u16>)
    ensures
        r@ == utf16_encode(s@),
{
    let mut out: Vec<u16> = Vec::new();
    let ghost cs = s@;
    for c in it: s.chars()
        invariant
            it.seq() == cs,
            out@ == utf16_encode(cs.take(it.index() as int)),
    {
        proof {
            assert(cs.take(it.index() + 1).drop_last() =~= cs.take(it.index() as int));
        }
        char_units(c, &mut out);
    }
    proof {
        assert(cs.take(cs.len() as int) =~= cs);
    }
    out
}


/// Lossy decoding of UTF-16 code units into a `String`.
/// Trusted: calls `String::from_utf16_lossy`, whose documentation says that it
/// decodes well-formed surrogate pairs and replaces every lone surrogate by
/// U+FFFD; the contract states exactly that, as `utf16_decode_lossy`.
#[verifier::external_body]
pub(crate) fn utf16_lossy_string(u: &[u16]) -> (r: String)
    ensures
        r@ == utf16_decode_lossy(u@),
{
    String::from_utf16_lossy(u)
}

/// A cursor kept across a change of source to one of `units` code units:
/// one beyond the new limit goes back to -1.
pub open spec fn refit_pos(p: i32, units: int) -> i32 {
    if p > 2 * units + POS_SLACK {
        -1i32
    } else {
        p
    }
}

/// Replaces the source by the UTF-16 encoding of `inputSource`; the rest of
/// the state stays (a cursor beyond the new limit goes back to -1).
#[allow(non_snake_case)]
pub fn setSource(lx: &mut Lexer, inputSource: &str)
    requires
        utf16_encode(inputSource@).len() <= MAX_SOURCE_LEN,
        old(lx).wf(),
    ensures
        final(lx).source@ == utf16_encode(inputSource@),
        *final(lx) == (Lexer {
            source: final(lx).source,
            pos: refit_pos(old(lx).pos, final(lx).len() as int),
            last_token_pos: refit_pos(old(lx).last_token_pos, final(lx).len() as int),
            ..*old(lx)
        }),
        final(lx).wf(),
{
    lx.source = encode_utf16(inputSource);
    if lx.pos > 2 * (lx.source.len() as i32) + POS_SLACK {
        lx.pos = -1;
    }
    if lx.last_token_pos > 2 * (lx.source.len() as i32) + POS_SLACK {
        lx.last_token_pos = -1;
    }
}

/// Takes over a filled buffer of `units` UTF-16 code units followed by four
/// spare slots (for the terminator); the source is its first `units` units,
/// and the rest of the state stays as `setSource` keeps it.
#[allow(non_snake_case)]
pub fn setSourceUtf16(lx: &mut Lexer, buf: Vec<u16>, units: usize)
    requires
        units <= MAX_SOURCE_LEN,
        units + 4 <= buf@.len(),
        old(lx).wf(),
    ensures
        final(lx).source@ == buf@.take(units as int),
        *final(lx) == (Lexer {
            source: final(lx).source,
            pos: refit_pos(old(lx).pos, units as int),
            last_token_pos: refit_pos(old(lx).last_token_pos, units as int),
            ..*old(lx)
        }),
        final(lx).wf(),
{
    let mut buf = buf;
    buf.truncate(units);
    lx.source = buf;
    if lx.pos > 2 * (units as i32) + POS_SLACK {
        lx.pos = -1;
    }
    if lx.last_token_pos > 2 * (units as i32) + POS_SLACK {
        lx.last_token_pos = -1;
    }
}

/// The position of the last code unit (-1 for an empty source).
pub fn end(lx: &Lexer) -> (r: i32)
    requires
        lx.wf(),
    ensures
        r == lx.len() - 1,
{
    lx.source.len() as i32 - 1
}

/// The number of code units of the source.
pub fn len(lx: &Lexer) -> (r: i32)
    requires
        lx.wf(),
    ensures
        r == lx.len(),
{
    lx.source.len() as i32
}

/// Moves the cursor one unit on and tells whether it was before the last unit.
#[allow(non_snake_case)]
pub fn posIncLtEnd(lx: &mut Lexer) -> (r: bool)
    requires
        old(lx).wf(),
        old(lx).pos < old(lx).pos_limit(),
    ensures
        *final(lx) == old(lx).with_pos(old(lx).pos + 1),
        r == (old(lx).pos < old(lx).len() - 1),
        final(lx).wf(),
{
    let prev = lx.pos;
    lx.pos = lx.pos + 1;
    prev < end(lx)
}

/// The code unit at `index`, or 0 outside the source.
#[allow(non_snake_case)]
pub fn charCodeAt(lx: &Lexer, index: i32) -> (r: i32)
    ensures
        r == lx.at(index as int),
        0 <= r < 0x10000,
{
    if index < 0 || index as usize >= lx.source.len() {
        return 0;
    }
    lx.source[index as usize] as i32
}

/// The code unit at `index`, for an index at most four past the last unit
/// (where it reads 0).
#[allow(non_snake_case)]
pub fn charCodeAtUnchecked(lx: &Lexer, index: i32) -> (r: i32)
    requires
        0 <= index <= lx.len() + 3,
    ensures
        r == lx.at(index as int),
        0 <= r < 0x10000,
{
    charCodeAt(lx, index)
}

/// Whether the UTF-16 units of `s` stand in the source from `from` on.
pub fn starts_with(lx: &Lexer, s: &str, from: i32) -> (r: bool)
    ensures
        r == spec_starts_with(lx.source@, utf16_encode(s@), from as int),
{
    if from < 0 {
        return false;
    }
    let u = encode_utf16(s);
    let mut k: usize = 0;
    while k < u.len()
        invariant
            0 <= from,
            k <= u@.len(),
            u@ == utf16_encode(s@),
            forall|i: int| 0 <= i < k ==> #[trigger] unit_at(lx.source@, from + i) == u@[i] as int,
        decreases u@.len() - k,
    {
        let f = from as usize;
        let c: i32 = if k < lx.source.len() && f < lx.source.len() - k {
            lx.source[f + k] as i32
        } else {
            0
        };
        if c != u[k] as i32 {
            assert(unit_at(lx.source@, from + k) != u@[k as int] as int);
            return false;
        }
        k = k + 1;
    }
    true
}

/// The code units in the clamped range `[start, end)` of the source.
pub fn units(lx: &Lexer, start: i32, end: i32) -> (r: Vec<u16>)
    requires
        lx.wf(),
    ensures
        r@ == clamped_range(lx.source@, start as int, end as int),
{
    let s: usize = if start < 0 { 0 } else { start as usize };
    let e0: usize = if end < 0 { 0 } else { end as usize };
    let e: usize = if e0 < lx.source.len() { e0 } else { lx.source.len() };
    let mut out: Vec<u16> = Vec::new();
    if s >= e {
        return out;
    }
    let mut i: usize = s;
    while i < e
        invariant
            s <= i <= e,
            e <= lx.source@.len(),
            out@ == lx.source@.subrange(s as int, i as int),
        decreases e - i,
    {
        out.push(lx.source[i]);
        proof {
            assert(lx.source@.subrange(s as int, i + 1) =~= lx.source@.subrange(s as int, i as int).push(lx.source@[i as int]));
        }
        i = i + 1;
    }
    out
}

/// The clamped range `[start, end)` of the source as a string (lossy UTF-16).
pub fn stringify(lx: &Lexer, start: i32, end: i32) -> (r: String)
    requires
        lx.wf(),
    ensures
        r@ == utf16_decode_lossy(clamped_range(lx.source@, start as int, end as int)),
{
    let u = units(lx, start, end);
    utf16_lossy_string(u.as_slice())
}

} // verus!
