use vstd::prelude::*;
use crate::state::{Lexer, OpenToken, OpenTokenState, ParseError, unit_at, max, witnessed, MAX_SOURCE_LEN, POS_SLACK, STACK_SIZE};
use crate::comment::{commentWhitespace, comment_ws, lemma_comment_ws};
use crate::helper::{isBr, isTokenRunChar, spec_is_br, spec_is_token_run_char};
use crate::lexer::pushOpenToken;
use crate::parse::{consumeToken, consume_token, lemma_unit_ok};
use crate::position::{next, setPos};
use crate::source::{charCodeAt, charCodeAtUnchecked, end};

verus! {

/// The two scanning modes inside a JSX element.
#[derive(Clone, Copy, PartialEq, Eq, Structural)]
pub enum JsxMode {
    Tag,
    Children,
}

/// A JSX nesting depth one level deeper (saturating at `i32::MAX`).
pub open spec fn depth_inc(d: i32) -> i32 {
    if d < i32::MAX {
        (d + 1) as i32
    } else {
        d
    }
}

/// A JSX nesting depth one level up (saturating at `i32::MIN`).
pub open spec fn depth_dec(d: i32) -> i32 {
    if d > i32::MIN {
        (d - 1) as i32
    } else {
        d
    }
}

/// A unit of a JSX tag or attribute name: word units, `.`, `-` and `:`.
pub open spec fn is_jsx_name_char(c: int) -> bool {
    spec_is_token_run_char(c) || c == 46 || c == 45 || c == 58
}

/// The first position from `p` on that holds no JSX name unit.
pub open spec fn jsx_name_end(src: Seq<u16>, p: int) -> int
    decreases src.len() - p,
{
    if p < src.len() && is_jsx_name_char(unit_at(src, p)) {
        jsx_name_end(src, p + 1)
    } else {
        p
    }
}

/// The first position from `p` on that holds no word unit.
pub open spec fn run_end(src: Seq<u16>, p: int) -> int
    decreases src.len() - p,
{
    if p < src.len() && spec_is_token_run_char(unit_at(src, p)) {
        run_end(src, p + 1)
    } else {
        p
    }
}

/// JSX text from `p` on: the last position before a `<` or a `{` (or the
/// last unit of the source).
pub open spec fn text_end(src: Seq<u16>, p: int) -> int
    decreases src.len() - p,
{
    if p >= src.len() - 1 || unit_at(src, p + 1) == 60 || unit_at(src, p + 1) == 123 {
        p
    } else {
        text_end(src, p + 1)
    }
}

/// A closing tag whose `<` is at `p`: the position of its `>`, or past the end.
pub open spec fn close_end(src: Seq<u16>, p: int) -> int
    decreases src.len() - p,
{
    let x = p + 1;
    if x > src.len() - 1 || unit_at(src, x) == 62 {
        x
    } else {
        close_end(src, x)
    }
}

pub proof fn lemma_jsx_scans(src: Seq<u16>, p: int)
    ensures
        p <= jsx_name_end(src, p) <= max(p, src.len() as int),
        !is_jsx_name_char(unit_at(src, jsx_name_end(src, p))),
        p <= run_end(src, p) <= max(p, src.len() as int),
        !spec_is_token_run_char(unit_at(src, run_end(src, p))),
        p <= text_end(src, p) <= max(p, src.len() - 1),
        p < close_end(src, p) <= max(p + 1, src.len() as int),
    decreases src.len() - p,
{
    if p < src.len() {
        lemma_jsx_scans(src, p + 1);
    }
}

/// `comment_ws` never moves the cursor back, nor far past the end.
pub proof fn lemma_comment_ws_bounds(src: Seq<u16>, p: int)
    ensures
        p <= comment_ws(src, p, true).0 <= max(p, src.len() as int + 2),
{
    if p >= -1 {
        lemma_comment_ws(src, p, true);
    }
}

/// One turn of the loop of a JSX expression container, from `s` (the cursor
/// on the last unit read) to `t`; `out` is `None` when the loop goes on, else
/// the container's result. The cursor moves one unit on: past the end the
/// container stops with `false`, marking the end as tolerated; a blank is
/// skipped; any other unit starts a token read by `consume_token`, and the
/// container stops when that fails, or with `true` when it brings the
/// open-token depth back to `level` (its own `}`).
pub open spec fn cont_iter(s: Lexer, t: Lexer, level: int, out: Option<Result<bool, ParseError>>) -> bool
    decreases s.room(), 11int, 0int,
{
    let x = s.pos + 1;
    let ch = s.at(x);
    let u = s.with_pos(x);
    &&& s.len() <= MAX_SOURCE_LEN
    &&& if x > s.len() - 1 {
        out == Some(Ok::<bool, ParseError>(false)) && t == (Lexer { pos: x as i32, jsx_tolerant_eof: true, ..s })
    } else if ch == 32 || (8 < ch < 14) {
        out is None && t == u
    } else {
        match out {
            None => consume_token(u, t, ch, Ok(())) && t.open_token_depth != level,
            Some(Ok(b)) => b && consume_token(u, t, ch, Ok(())) && t.open_token_depth == level,
            Some(Err(e)) => consume_token(u, t, ch, Err(e)),
        }
    }
}

/// Consecutive states of `tr` are turns of a container loop that go on,
/// none before the state `o`.
pub open spec fn cont_trace(o: Lexer, tr: Seq<Lexer>, level: int) -> bool
    decreases o.room(), 12int, tr.len(),
{
    if tr.len() <= 1 {
        true
    } else {
        &&& cont_trace(o, tr.drop_last(), level)
        &&& o.later(tr[tr.len() - 2])
        &&& cont_iter(tr[tr.len() - 2], tr.last(), level, None)
    }
}

/// `jsxContainer` takes the lexer from `o` (the cursor on a `{`) to `n` with
/// result `r`: the brace is pushed on the open-token stack (a full stack is
/// an error at the cursor), then the container loop turns (`cont_iter`)
/// until it stops.
pub open spec fn jsx_container(o: Lexer, n: Lexer, r: Result<bool, ParseError>) -> bool
    decreases o.room(), 13int, 0int,
{
    if o.open_token_depth >= STACK_SIZE {
        r == Err::<bool, ParseError>(ParseError { pos: o.pos }) && n == o
    } else {
        let level = o.open_token_depth as int;
        let pushed = o.pushed(OpenToken { token: OpenTokenState::AnyBrace, pos: o.last_token_pos });
        exists|tr: Seq<Lexer>|
            #![trigger witnessed(tr)]
            {
                &&& cont_trace(o, tr, level)
                &&& tr.len() >= 1
                &&& tr[0] == (Lexer { open_token_stack: tr[0].open_token_stack, open_token_depth: tr[0].open_token_depth, ..o })
                &&& (tr[0].open_token_stack@, tr[0].open_token_depth as nat) == pushed
                &&& o.later(tr.last())
                &&& cont_iter(tr.last(), n, level, Some(r))
            }
    }
}

/// A container read from `c0` inside a JSX tag (`adv` 1) or its children
/// (`adv` 0): when it ends with its `}` the scan goes on `adv` units after
/// it (`out` is `None`); at the end of the source it stops with `None`; an
/// error stops it with that error.
pub open spec fn container_turn(c0: Lexer, t: Lexer, adv: int, out: Option<Result<Option<JsxMode>, ParseError>>) -> bool
    decreases c0.room(), 14int, 0int,
{
    match out {
        None => jsx_container(c0, t.with_pos(t.pos - adv), Ok(true)),
        Some(Ok(None)) => jsx_container(c0, t, Ok(false)),
        Some(Ok(Some(_))) => false,
        Some(Err(e)) => jsx_container(c0, t, Err(e)),
    }
}

/// One turn of the loop of a JSX tag at depth `d`, from `s` to `t` at depth
/// `d2`; `out` is `None` when the loop goes on, else the tag's result. After
/// blanks and comments: the end of the source stops the tag; `>` stops it
/// one level deeper, into the children; `/>` closes it (the element ends at
/// depth 0, else the children go on); another `/` is skipped; `{` is a
/// spread container; anything else is an attribute: its name, then after
/// `=` a quoted value, a container or one word. A turn that reads nothing
/// moves one unit on.
pub open spec fn tag_iter(s: Lexer, t: Lexer, d: i32, d2: i32, out: Option<Result<Option<JsxMode>, ParseError>>) -> bool
    decreases s.room(), 15int, 0int,
{
    let src = s.source@;
    let end = s.len() - 1;
    let (wp, ch) = comment_ws(src, s.pos as int, true);
    let w = s.with_pos(wp);
    &&& s.len() <= MAX_SOURCE_LEN
    &&& if wp >= end {
        out == Some(Ok::<Option<JsxMode>, ParseError>(None)) && t == w && d2 == d
    } else if ch == 62 {
        out == Some(Ok::<Option<JsxMode>, ParseError>(Some(JsxMode::Children))) && t == w && d2 == depth_inc(d)
    } else if ch == 47 && unit_at(src, wp + 1) == 62 {
        &&& out == Some(Ok::<Option<JsxMode>, ParseError>(if d == 0 { None } else { Some(JsxMode::Children) }))
        &&& t == w.with_pos(wp + 1)
        &&& d2 == d
    } else if ch == 47 {
        out is None && t == w.with_pos(wp + 1) && d2 == d
    } else if ch == 123 {
        proof {
            lemma_comment_ws_bounds(src, s.pos as int);
        }
        d2 == d && container_turn(w, t, 1, out)
    } else {
        let a = jsx_name_end(src, wp);
        let (bp, bch) = comment_ws(src, a, true);
        if bch == 61 {
            let (cp, cch) = comment_ws(src, bp + 1, true);
            &&& d2 == d
            &&& if cch == 34 || cch == 39 {
                out is None && t == s.with_pos(jsx_string_scan(src, cch, cp) + 1)
            } else if cch == 123 {
                proof {
                    lemma_comment_ws_bounds(src, s.pos as int);
                    lemma_jsx_scans(src, wp);
                    lemma_comment_ws_bounds(src, a);
                    lemma_comment_ws_bounds(src, bp + 1);
                }
                container_turn(s.with_pos(cp), t, 1, out)
            } else {
                out is None && t == s.with_pos(run_end(src, cp))
            }
        } else {
            out is None && d2 == d && t == s.with_pos(if bp == wp { bp + 1 } else { bp })
        }
    }
}

/// Consecutive states of `tr` are turns of a tag loop at depth `d` that go
/// on, none before the state `o`.
pub open spec fn tag_trace(o: Lexer, tr: Seq<Lexer>, d: i32) -> bool
    decreases o.room(), 16int, tr.len(),
{
    if tr.len() <= 1 {
        true
    } else {
        &&& tag_trace(o, tr.drop_last(), d)
        &&& o.later(tr[tr.len() - 2])
        &&& tag_iter(tr[tr.len() - 2], tr.last(), d, d, None)
    }
}

/// `jsxTag` takes the lexer from `o` (the cursor on a `<`) at depth `d` to
/// `n` at depth `d2` with result `r`: a fragment `<>` goes one level deeper
/// into its children; otherwise the tag name is skipped and the tag loop
/// turns (`tag_iter`) until it stops.
pub open spec fn jsx_tag(o: Lexer, n: Lexer, d: i32, d2: i32, r: Result<Option<JsxMode>, ParseError>) -> bool
    decreases o.room(), 17int, 0int,
{
    let src = o.source@;
    let p1 = o.pos + 1;
    if unit_at(src, p1) == 62 {
        r == Ok::<Option<JsxMode>, ParseError>(Some(JsxMode::Children)) && n == o.with_pos(p1) && d2 == depth_inc(d)
    } else {
        exists|tr: Seq<Lexer>|
            #![trigger witnessed(tr)]
            {
                &&& tag_trace(o, tr, d)
                &&& tr.len() >= 1
                &&& tr[0] == o.with_pos(jsx_name_end(src, p1))
                &&& o.later(tr.last())
                &&& tag_iter(tr.last(), n, d, d2, Some(r))
            }
    }
}

/// One turn of the loop of JSX children at depth `d`, from `s` to `t` at
/// depth `d2`; `out` is `None` when the loop goes on, else the result. Text
/// is skipped up to a `<` or `{`: past the end the children stop; `{` is an
/// expression container; `</` is a closing tag, skipped to its `>`, one level
/// up (back at depth 0, or past the end, the element ends); `<>` opens a
/// fragment one level deeper; `<` before a word unit is a child tag; any
/// other `<` is text.
pub open spec fn child_iter(s: Lexer, d: i32, t: Lexer, d2: i32, out: Option<Result<Option<JsxMode>, ParseError>>) -> bool
    decreases s.room(), 15int, 0int,
{
    let src = s.source@;
    let end = s.len() - 1;
    let q = text_end(src, s.pos as int) + 1;
    let u = s.with_pos(q);
    let c = unit_at(src, q + 1);
    &&& s.len() <= MAX_SOURCE_LEN
    &&& if q > end {
        out == Some(Ok::<Option<JsxMode>, ParseError>(None)) && t == u && d2 == d
    } else if unit_at(src, q) == 123 {
        proof {
            lemma_jsx_scans(src, s.pos as int);
        }
        d2 == d && container_turn(u, t, 0, out)
    } else if c == 47 {
        let p = close_end(src, q);
        &&& t == u.with_pos(p)
        &&& d2 == depth_dec(d)
        &&& out == (if depth_dec(d) == 0 || p > end { Some(Ok::<Option<JsxMode>, ParseError>(None)) } else { None })
    } else if c == 62 {
        out is None && t == u.with_pos(q + 1) && d2 == depth_inc(d)
    } else if spec_is_token_run_char(c) {
        out == Some(Ok::<Option<JsxMode>, ParseError>(Some(JsxMode::Tag))) && t == u && d2 == d
    } else {
        out is None && t == u && d2 == d
    }
}

/// Consecutive states of `tr` (with their depths) are turns of a children
/// loop that go on, none before the state `o`.
pub open spec fn child_trace(o: Lexer, tr: Seq<(Lexer, i32)>) -> bool
    decreases o.room(), 16int, tr.len(),
{
    if tr.len() <= 1 {
        true
    } else {
        &&& child_trace(o, tr.drop_last())
        &&& o.later(tr[tr.len() - 2].0)
        &&& child_iter(tr[tr.len() - 2].0, tr[tr.len() - 2].1, tr.last().0, tr.last().1, None)
    }
}

/// `jsxChildren` takes the lexer from `o` (the cursor on the `>` of a tag or
/// the `}` of a container) at depth `d` to `n` at depth `d2` with result
/// `r`: the children loop turns (`child_iter`) until it stops.
pub open spec fn jsx_children(o: Lexer, d: i32, n: Lexer, d2: i32, r: Result<Option<JsxMode>, ParseError>) -> bool
    decreases o.room(), 17int, 0int,
{
    exists|tr: Seq<(Lexer, i32)>|
        #![trigger witnessed(tr)]
        {
            &&& child_trace(o, tr)
            &&& tr.len() >= 1
            &&& tr[0] == (o, d)
            &&& o.later(tr.last().0)
            &&& child_iter(tr.last().0, tr.last().1, n, d2, Some(r))
        }
}

/// One turn of the JSX scan: a tag or children, by `mode`.
pub open spec fn scan_iter(s: Lexer, d: i32, mode: JsxMode, t: Lexer, d2: i32, r: Result<Option<JsxMode>, ParseError>) -> bool
    decreases s.room(), 18int, 0int,
{
    match mode {
        JsxMode::Tag => jsx_tag(s, t, d, d2, r),
        JsxMode::Children => jsx_children(s, d, t, d2, r),
    }
}

/// Consecutive states of `tr` (with depth and mode) are turns of the JSX
/// scan that go on in the mode they return, none before the state `o`.
pub open spec fn scan_trace(o: Lexer, tr: Seq<(Lexer, i32, JsxMode)>) -> bool
    decreases o.room(), 19int, tr.len(),
{
    if tr.len() <= 1 {
        true
    } else {
        let (s, d, mode) = tr[tr.len() - 2];
        let (t, d2, mode2) = tr.last();
        &&& scan_trace(o, tr.drop_last())
        &&& o.later(s)
        &&& scan_iter(s, d, mode, t, d2, Ok(Some(mode2)))
    }
}

/// `jsxScan` takes the lexer from `o` (the cursor on the `<` of an element)
/// to `n` with result `r`: from depth 0 in tag mode, the scan turns
/// (`scan_iter`) until a turn returns no mode (the root closed, or the end)
/// or fails.
pub open spec fn jsx_scan(o: Lexer, n: Lexer, r: Result<(), ParseError>) -> bool
    decreases o.room(), 20int, 0int,
{
    exists|tr: Seq<(Lexer, i32, JsxMode)>, d2: i32|
        #![trigger witnessed(tr), witnessed(d2)]
        {
            &&& scan_trace(o, tr)
            &&& tr.len() >= 1
            &&& tr[0] == (o, 0i32, JsxMode::Tag)
            &&& o.later(tr.last().0)
            &&& scan_iter(tr.last().0, tr.last().1, tr.last().2, n, d2, match r {
                Ok(_) => Ok::<Option<JsxMode>, ParseError>(None),
                Err(e) => Err(e),
            })
        }
}

/// `jsxScanTolerant` takes the lexer from `o` to `n`: the JSX scan, where a
/// failure (at the cursor) only marks the end as tolerated.
pub open spec fn jsx_scan_tolerant(o: Lexer, n: Lexer) -> bool
    decreases o.room(), 21int, 0int,
{
    ||| jsx_scan(o, n, Ok(()))
    ||| {
        &&& n.jsx_tolerant_eof
        &&& {
            ||| jsx_scan(o, n, Err(ParseError { pos: n.pos }))
            ||| jsx_scan(o, Lexer { jsx_tolerant_eof: false, ..n }, Err(ParseError { pos: n.pos }))
        }
    }
}

/// With the cursor on a `<` in an expression position: skips the whole JSX
/// element, as `jsx_scan_tolerant` says. Anything that goes wrong inside (an
/// unterminated string or template, the end of the source) ends it quietly
/// and lets the final bracket balance check pass.
#[allow(non_snake_case)]
pub fn jsxScanTolerant(lx: &mut Lexer)
    requires
        old(lx).wf(),
        old(lx).records_wf(),
        0 <= old(lx).pos < old(lx).len(),
    ensures
        jsx_scan_tolerant(*old(lx), *final(lx)),
        final(lx).lex_step(*old(lx)),
        final(lx).pos <= 2 * old(lx).len() + 40 - old(lx).pos,
    decreases 2 * old(lx).len() + POS_SLACK - old(lx).pos, 4nat,
{
    let scanned = jsxScan(lx);
    let ghost n1 = *lx;
    if scanned.is_err() {
        lx.jsx_tolerant_eof = true;
        proof {
            assert(scanned == Err::<(), ParseError>(ParseError { pos: lx.pos }));
            if n1.jsx_tolerant_eof {
                assert(*lx == n1);
            } else {
                assert(Lexer { jsx_tolerant_eof: false, ..*lx } == n1);
            }
        }
    } else {
        proof {
            lemma_unit_ok(scanned);
        }
    }
}

/// Alternates between the tag and the children of the element until its
/// root closes (see `jsx_scan`).
#[allow(non_snake_case)]
#[verifier::loop_isolation(false)]
fn jsxScan(lx: &mut Lexer) -> (r: Result<(), ParseError>)
    requires
        old(lx).wf(),
        old(lx).records_wf(),
        0 <= old(lx).pos < old(lx).len(),
    ensures
        jsx_scan(*old(lx), *final(lx), r),
        r matches Err(e) ==> e.pos == final(lx).pos,
        final(lx).lex_step(*old(lx)),
        final(lx).pos <= 2 * old(lx).len() + 40 - old(lx).pos,
    decreases 2 * old(lx).len() + POS_SLACK - old(lx).pos, 3nat,
{
    let ghost src = lx.source@;
    let ghost p0 = lx.pos as int;
    let mut depth: i32 = 0;
    let mut mode = JsxMode::Tag;
    let mut first = true;
    let ghost mut tr: Seq<(Lexer, i32, JsxMode)> = seq![(*lx, 0i32, JsxMode::Tag)];
    loop
        invariant
            lx.lex_step(*old(lx)),
            src == lx.source@,
            first ==> lx.pos == p0 && mode == JsxMode::Tag,
            !first ==> p0 < lx.pos < src.len(),
            scan_trace(*old(lx), tr),
            tr.len() >= 1,
            tr[0] == (*old(lx), 0i32, JsxMode::Tag),
            tr.last() == (*lx, depth, mode),
            old(lx).later(*lx),
            witnessed(tr),
        decreases 2 * src.len() + POS_SLACK - lx.pos,
    {
        proof {
            reveal_with_fuel(scan_trace, 2);
        }
        let turn = match mode {
            JsxMode::Tag => jsxTag(lx, &mut depth),
            JsxMode::Children => jsxChildren(lx, &mut depth),
        };
        first = false;
        match turn {
            Err(e) => {
                proof {
                    assert(witnessed(depth));
                }
                return Err(e);
            },
            Ok(Some(m)) => {
                mode = m;
            },
            Ok(None) => {
                proof {
                    assert(witnessed(depth));
                }
                return Ok(());
            },
        }
        proof {
            assert(tr.push((*lx, depth, mode)).drop_last() =~= tr);
            tr = tr.push((*lx, depth, mode));
        }
    }
}

/// A unit of a JSX tag or attribute name: word units, `.`, `-` and `:`.
#[allow(non_snake_case)]
fn isJsxNameChar(ch: i32) -> (r: bool)
    ensures
        r == is_jsx_name_char(ch as int),
{
    isTokenRunChar(ch) || ch == 46 || ch == 45 || ch == 58
}

/// Moves the cursor over a JSX name.
#[allow(non_snake_case)]
fn skipJsxName(lx: &mut Lexer)
    requires
        old(lx).wf(),
        -1 <= old(lx).pos <= old(lx).len(),
    ensures
        *final(lx) == old(lx).with_pos(jsx_name_end(old(lx).source@, old(lx).pos as int)),
        old(lx).pos <= final(lx).pos <= max(old(lx).pos as int, old(lx).len() as int),
        final(lx).wf(),
{
    proof {
        lemma_jsx_scans(lx.source@, lx.pos as int);
    }
    while isJsxNameChar(charCodeAt(lx, lx.pos))
        invariant
            lx.wf(),
            *lx == old(lx).with_pos(lx.pos as int),
            old(lx).pos <= lx.pos <= max(old(lx).pos as int, old(lx).len() as int),
            jsx_name_end(lx.source@, lx.pos as int) == jsx_name_end(old(lx).source@, old(lx).pos as int),
        decreases old(lx).len() - lx.pos,
    {
        next(lx);
    }
}

/// Increments a JSX nesting depth (which stays far below `i32::MAX`, as every
/// level takes a unit of the source).
fn depth_up(depth: &mut i32)
    ensures
        *final(depth) == depth_inc(*old(depth)),
{
    if *depth < i32::MAX {
        *depth = *depth + 1;
    }
}

/// Decrements a JSX nesting depth (which stays far above `i32::MIN`).
fn depth_down(depth: &mut i32)
    ensures
        *final(depth) == depth_dec(*old(depth)),
{
    if *depth > i32::MIN {
        *depth = *depth - 1;
    }
}

/// The cursor on a `<`: reads the tag name and attributes, as `jsx_tag`
/// says. Returns the children mode after `>` (one level deeper), `None` when
/// the root closes with `/>` or at the end.
#[allow(non_snake_case)]
#[verifier::loop_isolation(false)]
fn jsxTag(lx: &mut Lexer, depth: &mut i32) -> (r: Result<Option<JsxMode>, ParseError>)
    requires
        old(lx).wf(),
        old(lx).records_wf(),
        0 <= old(lx).pos < old(lx).len(),
    ensures
        jsx_tag(*old(lx), *final(lx), *old(depth), *final(depth), r),
        r matches Err(e) ==> e.pos == final(lx).pos,
        final(lx).lex_step(*old(lx)),
        old(lx).pos < final(lx).pos <= 2 * old(lx).len() + 40 - old(lx).pos,
        r matches Ok(Some(_)) ==> final(lx).pos < final(lx).len(),
    decreases 2 * old(lx).len() + POS_SLACK - old(lx).pos, 2nat,
{
    let ghost src = lx.source@;
    let ghost p0 = lx.pos as int;
    let ghost d0 = *depth;
    next(lx);
    let ch = charCodeAt(lx, lx.pos);
    // fragment `<>`
    if ch == 62 {
        depth_up(depth);
        return Ok(Some(JsxMode::Children));
    }
    proof {
        lemma_jsx_scans(src, p0 + 1);
    }
    skipJsxName(lx);
    let ghost mut tr: Seq<Lexer> = seq![*lx];
    loop
        invariant
            lx.lex_step(*old(lx)),
            src == lx.source@,
            p0 < lx.pos <= 2 * src.len() + 40 - p0,
            *depth == d0,
            unit_at(src, p0 + 1) != 62,
            tag_trace(*old(lx), tr, d0),
            tr.len() >= 1,
            tr[0] == old(lx).with_pos(jsx_name_end(src, p0 + 1)),
            tr.last() == *lx,
            old(lx).later(*lx),
            witnessed(tr),
        decreases 2 * src.len() + POS_SLACK - lx.pos,
    {
        proof {
            reveal_with_fuel(tag_trace, 2);
        }
        match jsxTagTurn(lx, depth, Ghost(p0)) {
            Some(r) => {
                return r;
            },
            None => {},
        }
        proof {
            assert(tr.push(*lx).drop_last() =~= tr);
            tr = tr.push(*lx);
        }
    }
}

/// One turn of the loop of a JSX tag, as `tag_iter` says: `None` when the
/// loop goes on, else the tag's result.
#[allow(non_snake_case)]
#[verifier::rlimit(100)]
#[verifier::spinoff_prover]
fn jsxTagTurn(lx: &mut Lexer, depth: &mut i32, Ghost(p0): Ghost<int>) -> (out: Option<Result<Option<JsxMode>, ParseError>>)
    requires
        old(lx).wf(),
        old(lx).records_wf(),
        0 <= p0 < old(lx).len(),
        p0 < old(lx).pos <= 2 * old(lx).len() + 40 - p0,
    ensures
        tag_iter(*old(lx), *final(lx), *old(depth), *final(depth), out),
        out matches Some(Err(e)) ==> e.pos == final(lx).pos,
        final(lx).lex_step(*old(lx)),
        old(lx).pos <= final(lx).pos <= 2 * old(lx).len() + 40 - p0,
        out is None ==> old(lx).pos < final(lx).pos,
        out matches Some(Ok(Some(_))) ==> final(lx).pos < final(lx).len(),
    decreases 2 * old(lx).len() + POS_SLACK - old(lx).pos, 2nat,
{
    let ghost src = lx.source@;
    let ghost s = *lx;
    let end = end(lx);
    let mut ch = commentWhitespace(lx, true);
    let pos = lx.pos;
    if pos >= end {
        return Some(Ok(None));
    }
    if ch == 62 {
        depth_up(depth);
        return Some(Ok(Some(JsxMode::Children)));
    } else if ch == 47 {
        if charCodeAt(lx, pos + 1) == 62 {
            next(lx);
            // a self-closing root ends the element; a child returns to the children
            if *depth == 0 {
                return Some(Ok(None));
            }
            return Some(Ok(Some(JsxMode::Children)));
        }
        // a `/` that does not close the tag is skipped
        next(lx);
        return None;
    } else if ch == 123 {
        // spread attribute `{...expr}`
        match jsxContainer(lx) {
            Err(e) => {
                return Some(Err(e));
            },
            Ok(false) => {
                return Some(Ok(None));
            },
            Ok(true) => {},
        }
        next(lx);
        return None;
    }
    let before = lx.pos;
    proof {
        lemma_jsx_scans(src, before as int);
    }
    skipJsxName(lx);
    ch = commentWhitespace(lx, true);
    if ch == 61 {
        next(lx);
        ch = commentWhitespace(lx, true);
        if ch == 34 || ch == 39 {
            proof {
                lemma_jsx_string_scan(src, ch as int, lx.pos as int);
            }
            jsxStringLiteral(lx, ch);
            next(lx);
        } else if ch == 123 {
            // `{expression}` attribute value
            match jsxContainer(lx) {
                Err(e) => {
                    return Some(Err(e));
                },
                Ok(false) => {
                    return Some(Ok(None));
                },
                Ok(true) => {},
            }
            next(lx);
        } else {
            // an unquoted value: skip one word
            let ghost cp = lx.pos as int;
            proof {
                lemma_jsx_scans(src, cp);
            }
            while isTokenRunChar(charCodeAt(lx, lx.pos))
                invariant
                    lx.wf(),
                    src == lx.source@,
                    before < cp <= lx.pos <= max(cp, src.len() as int),
                    *lx == s.with_pos(lx.pos as int),
                    run_end(src, lx.pos as int) == run_end(src, cp),
                decreases src.len() - lx.pos,
            {
                next(lx);
            }
        }
        return None;
    }
    // always move on, so that the scan ends
    if lx.pos == before {
        next(lx);
    }
    None
}

/// Scanning a JSX attribute string after `p`: stops on the closing quote, a
/// line break, or past the end (a backslash skips the next unit).
pub open spec fn jsx_string_scan(src: Seq<u16>, quote: int, p: int) -> int
    decreases src.len() + 2 - p,
{
    let q = p + 1;
    if q > src.len() - 1 {
        q
    } else if src[q] == quote || spec_is_br(src[q] as int) {
        q
    } else if src[q] == 92 {
        if unit_at(src, q + 1) == 13 && unit_at(src, q + 2) == 10 {
            jsx_string_scan(src, quote, q + 2)
        } else {
            jsx_string_scan(src, quote, q + 1)
        }
    } else {
        jsx_string_scan(src, quote, q)
    }
}

pub proof fn lemma_jsx_string_scan(src: Seq<u16>, quote: int, p: int)
    requires
        p >= -1,
    ensures
        p < jsx_string_scan(src, quote, p) <= max(p + 1, src.len() as int + 1),
    decreases src.len() + 2 - p,
{
    let q = p + 1;
    if q > src.len() - 1 {
    } else if src[q] == quote || spec_is_br(src[q] as int) {
    } else if src[q] == 92 {
        if unit_at(src, q + 1) == 13 && unit_at(src, q + 2) == 10 {
            lemma_jsx_string_scan(src, quote, q + 2);
        } else {
            lemma_jsx_string_scan(src, quote, q + 1);
        }
    } else {
        lemma_jsx_string_scan(src, quote, q);
    }
}

/// A JSX attribute string ends where a JavaScript string literal with the
/// same quote would: both scans stop at the same position (the JSX scan only
/// does not call a missing closing quote an error).
pub proof fn law_jsx_string_ends_as_string(src: Seq<u16>, quote: int, p: int)
    requires
        quote == 34 || quote == 39,
    ensures
        jsx_string_scan(src, quote, p) == crate::lexer::string_scan(src, quote, p).1,
    decreases src.len() + 2 - p,
{
    let q = p + 1;
    if q <= src.len() - 1 && src[q] != quote && !spec_is_br(src[q] as int) {
        if src[q] == 92 {
            if unit_at(src, q + 1) == 13 && unit_at(src, q + 2) == 10 {
                law_jsx_string_ends_as_string(src, quote, q + 2);
            } else {
                law_jsx_string_ends_as_string(src, quote, q + 1);
            }
        } else {
            law_jsx_string_ends_as_string(src, quote, q);
        }
    }
}

/// A quoted attribute value, its quote at the cursor: it ends where a
/// JavaScript string with that quote ends (`law_jsx_string_ends_as_string`),
/// but an unterminated one or a line break is no error.
#[allow(non_snake_case)]
fn jsxStringLiteral(lx: &mut Lexer, quote: i32)
    requires
        old(lx).wf(),
        -1 <= old(lx).pos <= old(lx).len(),
    ensures
        *final(lx) == old(lx).with_pos(jsx_string_scan(old(lx).source@, quote as int, old(lx).pos as int)),
        quote == 34 || quote == 39 ==> final(lx).pos == crate::lexer::string_scan(old(lx).source@, quote as int, old(lx).pos as int).1,
        old(lx).pos < final(lx).pos <= old(lx).len() + 1,
        final(lx).wf(),
{
    let ghost src = lx.source@;
    let ghost p0 = lx.pos as int;
    proof {
        lemma_jsx_string_scan(src, quote as int, p0);
        if quote == 34 || quote == 39 {
            law_jsx_string_ends_as_string(src, quote as int, p0);
        }
    }
    let end = end(lx);
    let mut pos = lx.pos;
    loop
        invariant_except_break
            p0 <= pos <= src.len(),
            jsx_string_scan(src, quote as int, pos as int) == jsx_string_scan(src, quote as int, p0),
        invariant
            lx.wf(),
            *lx == *old(lx),
            lx.source@ == src,
            end == src.len() - 1,
            -1 <= p0 <= src.len(),
        ensures
            pos as int == jsx_string_scan(src, quote as int, p0),
        decreases src.len() + 2 - pos,
    {
        pos += 1;
        if pos > end {
            break;
        }
        let mut ch = charCodeAtUnchecked(lx, pos);
        if ch == quote || isBr(ch) {
            break;
        }
        if ch == 92 {
            pos += 1;
            ch = charCodeAtUnchecked(lx, pos);
            if ch == 13 && charCodeAtUnchecked(lx, pos + 1) == 10 {
                pos += 1;
            }
        }
    }
    lx.pos = pos;
}

/// The cursor on the last unit of a tag (`>`) or container: skips text up to
/// a child tag, a container, a closing tag or a fragment, as `jsx_children`
/// says. Returns the tag mode for a child element (cursor on its `<`), `None`
/// when the root closes or at the end.
#[allow(non_snake_case)]
#[verifier::loop_isolation(false)]
fn jsxChildren(lx: &mut Lexer, depth: &mut i32) -> (r: Result<Option<JsxMode>, ParseError>)
    requires
        old(lx).wf(),
        old(lx).records_wf(),
        0 <= old(lx).pos < old(lx).len(),
    ensures
        jsx_children(*old(lx), *old(depth), *final(lx), *final(depth), r),
        r matches Err(e) ==> e.pos == final(lx).pos,
        final(lx).lex_step(*old(lx)),
        old(lx).pos < final(lx).pos <= 2 * old(lx).len() + 40 - old(lx).pos,
        r matches Ok(Some(_)) ==> final(lx).pos < final(lx).len(),
    decreases 2 * old(lx).len() + POS_SLACK - old(lx).pos, 2nat,
{
    let ghost src = lx.source@;
    let ghost p0 = lx.pos as int;
    let ghost mut tr: Seq<(Lexer, i32)> = seq![(*lx, *depth)];
    loop
        invariant
            lx.lex_step(*old(lx)),
            src == lx.source@,
            p0 <= lx.pos <= 2 * src.len() + 39 - p0,
            child_trace(*old(lx), tr),
            tr.len() >= 1,
            tr[0] == (*old(lx), *old(depth)),
            tr.last() == (*lx, *depth),
            old(lx).later(*lx),
            witnessed(tr),
        decreases 2 * src.len() + POS_SLACK - lx.pos,
    {
        proof {
            reveal_with_fuel(child_trace, 2);
        }
        match jsxChildTurn(lx, depth, Ghost(p0)) {
            Some(r) => {
                return r;
            },
            None => {},
        }
        proof {
            assert(tr.push((*lx, *depth)).drop_last() =~= tr);
            tr = tr.push((*lx, *depth));
        }
    }
}

/// One turn of the loop of JSX children, as `child_iter` says: `None` when
/// the loop goes on, else the result.
#[allow(non_snake_case)]
#[verifier::loop_isolation(false)]
#[verifier::rlimit(100)]
#[verifier::spinoff_prover]
fn jsxChildTurn(lx: &mut Lexer, depth: &mut i32, Ghost(p0): Ghost<int>) -> (out: Option<Result<Option<JsxMode>, ParseError>>)
    requires
        old(lx).wf(),
        old(lx).records_wf(),
        0 <= p0 < old(lx).len(),
        p0 <= old(lx).pos <= 2 * old(lx).len() + 39 - p0,
    ensures
        child_iter(*old(lx), *old(depth), *final(lx), *final(depth), out),
        out matches Some(Err(e)) ==> e.pos == final(lx).pos,
        final(lx).lex_step(*old(lx)),
        old(lx).pos < final(lx).pos <= 2 * old(lx).len() + 40 - p0,
        out is None ==> final(lx).pos <= 2 * old(lx).len() + 39 - p0,
        out matches Some(Ok(Some(_))) ==> final(lx).pos < final(lx).len(),
    decreases 2 * old(lx).len() + POS_SLACK - old(lx).pos, 1nat,
{
    let ghost src = lx.source@;
    let ghost h = lx.pos as int;
    let end = end(lx);
    proof {
        lemma_jsx_scans(src, h);
    }
    // text: skipped as it is up to `<` or `{` (quotes, slashes and
    // apostrophes in it are no syntax)
    let mut pos = lx.pos;
    while pos < end
        invariant
            lx.pos <= pos,
            pos == lx.pos || pos <= end,
            end == src.len() - 1,
            text_end(src, pos as int) == text_end(src, h),
        decreases end - pos,
    {
        let c = charCodeAtUnchecked(lx, pos + 1);
        if c == 60 || c == 123 {
            break;
        }
        pos += 1;
    }
    pos += 1;
    setPos(lx, pos);
    if pos > end {
        return Some(Ok(None));
    }
    if charCodeAtUnchecked(lx, pos) == 123 {
        // expression container
        match jsxContainer(lx) {
            Err(e) => {
                return Some(Err(e));
            },
            Ok(false) => {
                return Some(Ok(None));
            },
            Ok(true) => {},
        }
        return None;
    }
    // `<`
    let next_ch = charCodeAt(lx, pos + 1);
    if next_ch == 47 {
        // a closing tag `</...>`: skipped up to `>` (pairs are not checked)
        let ghost q = pos as int;
        proof {
            lemma_jsx_scans(src, q);
        }
        loop
            invariant
                lx.wf(),
                src == lx.source@,
                end == src.len() - 1,
                q <= lx.pos < close_end(src, q),
                close_end(src, lx.pos as int) == close_end(src, q),
                *lx == old(lx).with_pos(lx.pos as int),
            decreases src.len() - lx.pos,
        {
            proof {
                lemma_jsx_scans(src, lx.pos as int);
            }
            next(lx);
            let c = charCodeAt(lx, lx.pos);
            if c == 62 || lx.pos > end {
                break;
            }
            proof {
                lemma_jsx_scans(src, lx.pos as int);
            }
        }
        depth_down(depth);
        if *depth == 0 || lx.pos > end {
            return Some(Ok(None));
        }
        return None;
    } else if next_ch == 62 {
        // a fragment child `<>`
        next(lx);
        depth_up(depth);
        return None;
    } else if isTokenRunChar(next_ch) {
        // a child element
        return Some(Ok(Some(JsxMode::Tag)));
    }
    // otherwise a lone `<` in the text, skipped
    None
}

/// The cursor on a `{` in JSX: the expression inside goes through the full
/// lexer (strings, templates, regular expressions, comments, nested JSX) up to
/// the matching `}`, where the cursor stays. Returns false at the end of the
/// source (which is then tolerated).
#[allow(non_snake_case)]
#[verifier::loop_isolation(false)]
fn jsxContainer(lx: &mut Lexer) -> (r: Result<bool, ParseError>)
    requires
        old(lx).wf(),
        old(lx).records_wf(),
        0 <= old(lx).pos < old(lx).len(),
    ensures
        jsx_container(*old(lx), *final(lx), r),
        r matches Err(e) ==> e.pos == final(lx).pos,
        final(lx).lex_step(*old(lx)),
        final(lx).pos <= 2 * old(lx).len() + 40 - old(lx).pos,
        r is Ok ==> old(lx).pos < final(lx).pos,
    decreases 2 * old(lx).len() + POS_SLACK - old(lx).pos, 1nat,
{
    let ghost src = lx.source@;
    let ghost p0 = lx.pos as int;
    let ltp = lx.last_token_pos;
    let pushed = pushOpenToken(lx, OpenTokenState::AnyBrace, ltp);
    if let Err(e) = pushed {
        return Err(e);
    }
    let level = lx.open_token_depth - 1;
    let end = end(lx);
    let mut pos = lx.pos;
    let ghost mut tr: Seq<Lexer> = seq![*lx];
    loop
        invariant
            lx.lex_step(*old(lx)),
            src == lx.source@,
            end == src.len() - 1,
            p0 <= pos <= 2 * src.len() + 39 - p0,
            pos == lx.pos,
            level == old(lx).open_token_depth,
            old(lx).open_token_depth < STACK_SIZE,
            cont_trace(*old(lx), tr, level as int),
            tr.len() >= 1,
            tr[0] == (Lexer { open_token_stack: tr[0].open_token_stack, open_token_depth: tr[0].open_token_depth, ..*old(lx) }),
            (tr[0].open_token_stack@, tr[0].open_token_depth as nat)
                == old(lx).pushed(OpenToken { token: OpenTokenState::AnyBrace, pos: old(lx).last_token_pos }),
            tr.last() == *lx,
            old(lx).later(*lx),
            witnessed(tr),
        decreases 2 * src.len() + POS_SLACK - pos,
    {
        proof {
            reveal_with_fuel(cont_trace, 2);
        }
        let ghost s = *lx;
        pos += 1;
        if pos > end {
            setPos(lx, pos);
            lx.jsx_tolerant_eof = true;
            return Ok(false);
        }
        let ch = charCodeAtUnchecked(lx, pos);
        if ch == 32 || (ch < 14 && ch > 8) {
            lx.pos = pos;
            proof {
                assert(tr.push(*lx).drop_last() =~= tr);
                tr = tr.push(*lx);
            }
            continue;
        }
        setPos(lx, pos);
        let res = consumeToken(lx, ch);
        if let Err(e) = res {
            return Err(e);
        }
        proof {
            lemma_unit_ok(res);
        }
        pos = lx.pos;
        // only the container's own `}` brings the depth back to its level
        if lx.open_token_depth == level {
            break;
        }
        proof {
            assert(tr.push(*lx).drop_last() =~= tr);
            tr = tr.push(*lx);
        }
    }
    Ok(true)
}

} // verus!
