use vstd::prelude::*;
use crate::state::{Lexer, unit_at, max, POS_SLACK};
use crate::helper::{spec_is_br, spec_is_br_or_ws, spec_is_ws_not_br, isBr, isBrOrWs, isWsNotBr};
use crate::source::{charCodeAt, charCodeAtUnchecked, end, posIncLtEnd};

verus! {

/// Where a `//` comment whose first `/` is at or before `p` stops: the first
/// position after `p` that holds a line break or lies past the end.
pub open spec fn line_comment_end(src: Seq<u16>, p: int) -> int
    decreases src.len() - p,
{
    let q = p + 1;
    if q >= src.len() {
        q
    } else if src[q] == 10 || src[q] == 13 {
        q
    } else {
        line_comment_end(src, q)
    }
}

/// Scanning a `/*` comment from the unit after `q - 1`: stops past the end,
/// at a line break when `br` is false, or on the `/` of `*/`.
pub open spec fn block_comment_scan(src: Seq<u16>, q: int, br: bool) -> int
    decreases src.len() - q,
{
    if q >= src.len() {
        q
    } else if !br && spec_is_br(src[q] as int) {
        q
    } else if src[q] == 42 && unit_at(src, q + 1) == 47 {
        q + 1
    } else {
        block_comment_scan(src, q + 1, br)
    }
}

/// Where a `/*` comment whose `/` is at `p` stops.
pub open spec fn block_comment_end(src: Seq<u16>, p: int, br: bool) -> int {
    block_comment_scan(src, p + 2, br)
}

pub proof fn lemma_line_comment_end(src: Seq<u16>, p: int)
    ensures
        p < line_comment_end(src, p) <= max(p + 1, src.len() as int),
    decreases src.len() - p,
{
    if p + 1 < src.len() && !(src[p + 1] == 10 || src[p + 1] == 13) {
        lemma_line_comment_end(src, p + 1);
    }
}

pub proof fn lemma_block_comment_scan(src: Seq<u16>, q: int, br: bool)
    ensures
        q <= block_comment_scan(src, q, br) <= max(q, src.len() as int),
    decreases src.len() - q,
{
    if q < src.len() && !(!br && spec_is_br(src[q] as int)) && !(src[q] == 42 && unit_at(
        src,
        q + 1,
    ) == 47) {
        lemma_block_comment_scan(src, q + 1, br);
    }
}

/// Whether the unit `ch` is skipped as blank (line breaks only when `br`).
pub open spec fn skipped_blank(ch: int, br: bool) -> bool {
    if br {
        spec_is_br_or_ws(ch)
    } else {
        spec_is_ws_not_br(ch)
    }
}

/// Skipping blanks and comments from `p`: the final cursor and the returned unit.
/// The unit is the one at the cursor, except when the scan runs off the end,
/// where it is the last unit examined.
pub open spec fn comment_ws(src: Seq<u16>, p: int, br: bool) -> (int, int)
    decreases src.len() - p,
{
    let ch = unit_at(src, p);
    let after = if ch == 47 && unit_at(src, p + 1) == 47 {
        line_comment_end(src, p)
    } else if ch == 47 && unit_at(src, p + 1) == 42 {
        block_comment_end(src, p, br)
    } else {
        p
    };
    if ch == 47 && unit_at(src, p + 1) != 47 && unit_at(src, p + 1) != 42 {
        (p, ch)
    } else if ch != 47 && !skipped_blank(ch, br) {
        (p, ch)
    } else if after < src.len() - 1 {
        if after + 1 > p {
            comment_ws(src, after + 1, br)
        } else {
            (p, ch)
        }
    } else {
        (after + 1, ch)
    }
}

pub proof fn lemma_comment_ws(src: Seq<u16>, p: int, br: bool)
    requires
        p >= -1,
    ensures
        p <= comment_ws(src, p, br).0 <= max(p, src.len() as int + 2),
        comment_ws(src, p, br).0 == p ==> comment_ws(src, p, br).1 == unit_at(src, p),
        comment_ws(src, p, br).1 != unit_at(src, comment_ws(src, p, br).0) ==> comment_ws(src, p, br).0 >= src.len() && (comment_ws(src, p, br).1 == 47 || skipped_blank(comment_ws(src, p, br).1, br)),
        0 <= comment_ws(src, p, br).1 < 0x10000,
    decreases src.len() - p,
{
    let ch = unit_at(src, p);
    if ch == 47 && unit_at(src, p + 1) == 47 {
        lemma_line_comment_end(src, p);
    } else if ch == 47 && unit_at(src, p + 1) == 42 {
        lemma_block_comment_scan(src, p + 2, br);
    }
    let after = if ch == 47 && unit_at(src, p + 1) == 47 {
        line_comment_end(src, p)
    } else if ch == 47 && unit_at(src, p + 1) == 42 {
        block_comment_end(src, p, br)
    } else {
        p
    };
    if ch == 47 && unit_at(src, p + 1) != 47 && unit_at(src, p + 1) != 42 {
    } else if ch != 47 && !skipped_blank(ch, br) {
    } else if after < src.len() - 1 {
        if after + 1 > p {
            lemma_comment_ws(src, after + 1, br);
        }
    } else {
    }
}

/// Skips blanks (line breaks too when `br`) and comments from the cursor and
/// returns the unit it stops on (see `comment_ws`).
#[allow(non_snake_case)]
pub fn commentWhitespace(lx: &mut Lexer, br: bool) -> (r: i32)
    requires
        old(lx).wf(),
        old(lx).pos <= old(lx).pos_limit() - 2,
    ensures
        (final(lx).pos as int, r as int) == comment_ws(old(lx).source@, old(lx).pos as int, br),
        *final(lx) == old(lx).with_pos(final(lx).pos as int),
        old(lx).pos <= final(lx).pos <= max(old(lx).pos as int, old(lx).len() + 2),
        final(lx).pos == old(lx).pos ==> r == old(lx).at(old(lx).pos as int),
        r != final(lx).at(final(lx).pos as int) ==> final(lx).pos >= final(lx).len() && (r == 47 || skipped_blank(r as int, br)),
        0 <= r < 0x10000,
        final(lx).wf(),
{
    let ghost src = lx.source@;
    let ghost p0 = lx.pos as int;
    proof {
        lemma_comment_ws(src, p0, br);
    }
    let mut ch: i32 = 0;
    loop
        invariant_except_break
            p0 <= lx.pos,
            lx.pos <= max(p0, src.len() as int),
            comment_ws(src, lx.pos as int, br) == comment_ws(src, p0, br),
        invariant
            lx.wf(),
            lx.source@ == src,
            *lx == old(lx).with_pos(lx.pos as int),
            p0 >= -1,
            p0 <= 2 * src.len() + POS_SLACK - 2,
        ensures
            (lx.pos as int, ch as int) == comment_ws(src, p0, br),
        decreases src.len() - lx.pos,
    {
        proof {
            lemma_comment_ws(src, lx.pos as int, br);
        }
        ch = charCodeAt(lx, lx.pos);
        let ghost p = lx.pos as int;
        if ch == 47 {
            let next_ch = charCodeAt(lx, lx.pos + 1);
            if next_ch == 47 {
                proof {
                    lemma_line_comment_end(src, p);
                }
                lineComment(lx);
            } else if next_ch == 42 {
                proof {
                    lemma_block_comment_scan(src, p + 2, br);
                }
                blockComment(lx, br);
            } else {
                break;
            }
        } else {
            let skipped = if br {
                isBrOrWs(ch)
            } else {
                isWsNotBr(ch)
            };
            if !skipped {
                break;
            }
        }
        if !posIncLtEnd(lx) {
            break;
        }
    }
    ch
}

/// Skips a `//` comment whose first `/` is at the cursor; stops on the line
/// break or one past the last unit.
#[allow(non_snake_case)]
pub fn lineComment(lx: &mut Lexer)
    requires
        old(lx).wf(),
        0 <= old(lx).pos < old(lx).len(),
    ensures
        *final(lx) == old(lx).with_pos(line_comment_end(old(lx).source@, old(lx).pos as int)),
        final(lx).wf(),
{
    let ghost src = lx.source@;
    let ghost p0 = lx.pos as int;
    proof {
        lemma_line_comment_end(src, p0);
    }
    let end = end(lx);
    let mut pos = lx.pos;
    loop
        invariant_except_break
            p0 <= pos < src.len(),
            line_comment_end(src, pos as int) == line_comment_end(src, p0),
        invariant
            lx.wf(),
            lx.source@ == src,
            *lx == *old(lx),
            end == src.len() - 1,
            0 <= p0 < src.len(),
        ensures
            pos == line_comment_end(src, p0),
            pos <= src.len(),
        decreases src.len() - pos,
    {
        pos += 1;
        if pos > end {
            break;
        }
        let ch = charCodeAtUnchecked(lx, pos);
        if ch == 10 || ch == 13 {
            break;
        }
    }
    lx.pos = pos;
}

/// Skips a `/*` comment whose `/` is at the cursor; stops on the closing `/`,
/// on a line break when `br` is false, or past the end.
#[allow(non_snake_case)]
pub fn blockComment(lx: &mut Lexer, br: bool)
    requires
        old(lx).wf(),
        0 <= old(lx).pos < old(lx).len(),
    ensures
        *final(lx) == old(lx).with_pos(block_comment_end(old(lx).source@, old(lx).pos as int, br)),
        final(lx).wf(),
{
    let ghost src = lx.source@;
    let ghost p0 = lx.pos as int;
    proof {
        lemma_block_comment_scan(src, p0 + 2, br);
    }
    let end = end(lx);
    let mut pos = lx.pos + 1;
    loop
        invariant_except_break
            p0 + 1 <= pos <= src.len(),
            block_comment_scan(src, pos + 1, br) == block_comment_end(src, p0, br),
        invariant
            lx.wf(),
            lx.source@ == src,
            *lx == *old(lx),
            end == src.len() - 1,
            0 <= p0 < src.len(),
        ensures
            pos == block_comment_end(src, p0, br),
            pos <= src.len() + 1,
        decreases src.len() - pos,
    {
        pos += 1;
        if pos > end {
            break;
        }
        let ch = charCodeAtUnchecked(lx, pos);
        if !br && isBr(ch) {
            break;
        }
        if ch == 42 && charCodeAtUnchecked(lx, pos + 1) == 47 {
            pos += 1;
            break;
        }
    }
    lx.pos = pos;
}

} // verus!
