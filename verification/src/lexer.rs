use vstd::prelude::*;
use crate::state::{Lexer, OpenToken, OpenTokenState, ParseError, unit_at, max, POS_SLACK, STACK_SIZE};
use crate::helper::{spec_is_br, spec_is_br_or_ws, spec_is_punctuator, isBr, isBrOrWs, isPunctuator};
use crate::source::{charCodeAtUnchecked, end};

verus! {

/// Scanning a quoted string literal after position `p`: `(true, q)` when the
/// closing `quote` is at `q`, `(false, q)` when a raw line break or the end of
/// the source is met at `q` first. A backslash escapes the next unit (and a
/// `\r\n` pair).
pub open spec fn string_scan(src: Seq<u16>, quote: int, p: int) -> (bool, int)
    decreases src.len() + 2 - p,
{
    let q = p + 1;
    if q > src.len() - 1 {
        (false, q)
    } else if src[q] == quote {
        (true, q)
    } else if src[q] == 92 {
        if unit_at(src, q + 1) == 13 && unit_at(src, q + 2) == 10 {
            string_scan(src, quote, q + 2)
        } else {
            string_scan(src, quote, q + 1)
        }
    } else if spec_is_br(src[q] as int) {
        (false, q)
    } else {
        string_scan(src, quote, q)
    }
}

pub proof fn lemma_string_scan(src: Seq<u16>, quote: int, p: int)
    requires
        p >= -1,
    ensures
        p < string_scan(src, quote, p).1 <= max(p + 1, src.len() as int + 1),
        string_scan(src, quote, p).0 ==> 0 <= string_scan(src, quote, p).1 < src.len() && src[string_scan(src, quote, p).1] == quote,
    decreases src.len() + 2 - p,
{
    let q = p + 1;
    if q > src.len() - 1 {
    } else if src[q] == quote {
    } else if src[q] == 92 {
        if unit_at(src, q + 1) == 13 && unit_at(src, q + 2) == 10 {
            lemma_string_scan(src, quote, q + 2);
        } else {
            lemma_string_scan(src, quote, q + 1);
        }
    } else if spec_is_br(src[q] as int) {
    } else {
        lemma_string_scan(src, quote, q);
    }
}

/// Skips a string literal whose opening `quote` is at the cursor and leaves
/// the cursor on the closing quote; an unterminated string is a syntax error.
#[allow(non_snake_case)]
pub fn stringIteral(lx: &mut Lexer, quote: i32) -> (r: Result<(), ParseError>)
    requires
        old(lx).wf(),
        -1 <= old(lx).pos <= old(lx).len(),
    ensures
        *final(lx) == old(lx).with_pos(string_scan(old(lx).source@, quote as int, old(lx).pos as int).1),
        r is Ok <==> string_scan(old(lx).source@, quote as int, old(lx).pos as int).0,
        r matches Err(e) ==> e.pos == final(lx).pos,
        old(lx).pos < final(lx).pos <= old(lx).len() + 1,
        r is Ok ==> final(lx).pos < old(lx).len() && final(lx).at(final(lx).pos as int) == quote,
        final(lx).wf(),
{
    let ghost src = lx.source@;
    let ghost p0 = lx.pos as int;
    proof {
        lemma_string_scan(src, quote as int, p0);
    }
    let end = end(lx);
    let mut pos = lx.pos;
    let mut ok = false;
    loop
        invariant_except_break
            p0 <= pos <= src.len(),
            string_scan(src, quote as int, pos as int) == string_scan(src, quote as int, p0),
            !ok,
        invariant
            lx.wf(),
            *lx == *old(lx),
            lx.source@ == src,
            end == src.len() - 1,
            -1 <= p0 <= src.len(),
        ensures
            (ok, pos as int) == string_scan(src, quote as int, p0),
        decreases src.len() + 2 - pos,
    {
        let ghost prev = pos as int;
        pos += 1;
        if pos > end {
            assert(string_scan(src, quote as int, prev) == (false, pos as int));
            break;
        }
        let mut ch = charCodeAtUnchecked(lx, pos);
        if ch == quote {
            ok = true;
            break;
        }
        if ch == 92 {
            pos += 1;
            ch = charCodeAtUnchecked(lx, pos);
            if ch == 13 && charCodeAtUnchecked(lx, pos + 1) == 10 {
                pos += 1;
            }
        } else if isBr(ch) {
            break;
        }
    }
    lx.pos = pos;
    if ok {
        Ok(())
    } else {
        Err(ParseError { pos })
    }
}

/// Scanning the rest of a template after position `p`: `(0, q)` when the end of
/// the source is reached at `q`, `(1, q)` when a `${` has its `{` at `q`,
/// `(2, q)` when the closing backtick is at `q`.
pub open spec fn template_scan(src: Seq<u16>, p: int) -> (int, int)
    decreases src.len() + 2 - p,
{
    let q = p + 1;
    if q > src.len() - 1 {
        (0, q)
    } else if src[q] == 36 && unit_at(src, q + 1) == 123 {
        (1, q + 1)
    } else if src[q] == 96 {
        (2, q)
    } else if src[q] == 92 {
        template_scan(src, q + 1)
    } else {
        template_scan(src, q)
    }
}

pub proof fn lemma_template_scan(src: Seq<u16>, p: int)
    requires
        p >= -1,
    ensures
        p < template_scan(src, p).1 <= max(p + 1, src.len() as int + 1),
        template_scan(src, p).0 == 0 || template_scan(src, p).0 == 1 || template_scan(src, p).0 == 2,
        template_scan(src, p).0 != 0 ==> template_scan(src, p).1 < src.len(),
    decreases src.len() + 2 - p,
{
    let q = p + 1;
    if q > src.len() - 1 {
    } else if src[q] == 36 && unit_at(src, q + 1) == 123 {
    } else if src[q] == 96 {
    } else if src[q] == 92 {
        lemma_template_scan(src, q + 1);
    } else {
        lemma_template_scan(src, q);
    }
}

/// Pushes an entry on the open-token stack; a full stack is a syntax error at the cursor.
#[allow(non_snake_case)]
pub fn pushOpenToken(lx: &mut Lexer, token: OpenTokenState, pos: i32) -> (r: Result<(), ParseError>)
    requires
        old(lx).wf(),
        pos >= -1,
    ensures
        final(lx).same_but_tokens(*old(lx)),
        final(lx).pos == old(lx).pos,
        final(lx).wf(),
        r is Ok <==> old(lx).open_token_depth < STACK_SIZE,
        r is Ok ==> (final(lx).open_token_stack@, final(lx).open_token_depth as nat) == old(lx).pushed(OpenToken { token, pos }),
        r matches Err(e) ==> e.pos == old(lx).pos && *final(lx) == *old(lx),
{
    if lx.open_token_depth >= STACK_SIZE {
        return Err(ParseError { pos: lx.pos });
    }
    lx.open_token_stack.set(lx.open_token_depth, OpenToken { token, pos });
    lx.open_token_depth = lx.open_token_depth + 1;
    Ok(())
}

/// Continuing a template after `p` with the open-token stack `stack` of
/// depth `depth`: the stack becomes `nstack` of depth `ndepth` and the cursor
/// `npos`, with result `r`. The cursor stops where `template_scan` stops: at
/// the end of the source (an error), on the `{` of a `${` (pushing a
/// template-brace entry, an error on a full stack) or on the closing
/// backtick (popping the entry, which must be a template).
pub open spec fn template_read(
    src: Seq<u16>,
    p: int,
    stack: Seq<OpenToken>,
    depth: int,
    nstack: Seq<OpenToken>,
    ndepth: int,
    npos: int,
    r: Result<(), ParseError>,
) -> bool {
    let (kind, q) = template_scan(src, p);
    &&& npos == q
    &&& r matches Err(e) ==> e.pos == q
    &&& if kind == 0 {
        r is Err && nstack == stack && ndepth == depth
    } else if kind == 1 {
        if depth < STACK_SIZE {
            r is Ok && nstack == stack.update(depth, OpenToken { token: OpenTokenState::TemplateBrace, pos: q as i32 })
                && ndepth == depth + 1
        } else {
            r is Err && nstack == stack && ndepth == depth
        }
    } else {
        &&& nstack == stack
        &&& if depth == 0 {
            r is Err && ndepth == 0
        } else {
            ndepth == depth - 1 && (r is Ok <==> stack[depth - 1].token == OpenTokenState::Template)
        }
    }
}

/// Continues a template literal after the cursor (see `template_read`).
#[allow(non_snake_case)]
pub fn templateString(lx: &mut Lexer) -> (r: Result<(), ParseError>)
    requires
        old(lx).wf(),
        -1 <= old(lx).pos <= old(lx).len(),
    ensures
        final(lx).same_but_tokens(*old(lx)),
        template_read(old(lx).source@, old(lx).pos as int, old(lx).open_token_stack@, old(lx).open_token_depth as int,
            final(lx).open_token_stack@, final(lx).open_token_depth as int, final(lx).pos as int, r),
        ({
            let (kind, q) = template_scan(old(lx).source@, old(lx).pos as int);
            &&& kind == 0 ==> r is Err && final(lx).open_token_depth == old(lx).open_token_depth
                && final(lx).open_token_stack == old(lx).open_token_stack
            &&& kind == 1 ==> (r is Ok <==> old(lx).open_token_depth < STACK_SIZE)
            &&& kind == 1 && r is Ok ==> (final(lx).open_token_stack@, final(lx).open_token_depth as nat)
                == old(lx).with_pos(q).pushed(OpenToken { token: OpenTokenState::TemplateBrace, pos: q as i32 })
            &&& kind == 1 && r is Err ==> final(lx).open_token_depth == old(lx).open_token_depth
                && final(lx).open_token_stack == old(lx).open_token_stack
            &&& kind == 2 ==> final(lx).open_token_stack == old(lx).open_token_stack
            &&& kind == 2 && old(lx).open_token_depth == 0 ==> r is Err && final(lx).open_token_depth == 0
            &&& kind == 2 && old(lx).open_token_depth > 0 ==> final(lx).open_token_depth == old(lx).open_token_depth - 1
                && (r is Ok <==> old(lx).open_token_stack@[old(lx).open_token_depth - 1].token == OpenTokenState::Template)
        }),
        r matches Err(e) ==> e.pos == final(lx).pos,
        old(lx).pos < final(lx).pos <= old(lx).len() + 1,
        final(lx).wf(),
{
    let ghost src = lx.source@;
    let ghost p0 = lx.pos as int;
    proof {
        lemma_template_scan(src, p0);
    }
    let end = end(lx);
    let mut pos = lx.pos;
    let mut kind: u8 = 0;
    loop
        invariant_except_break
            p0 <= pos <= src.len(),
            template_scan(src, pos as int) == template_scan(src, p0),
            kind == 0,
        invariant
            lx.wf(),
            *lx == *old(lx),
            lx.source@ == src,
            end == src.len() - 1,
            -1 <= p0 <= src.len(),
        ensures
            (kind as int, pos as int) == template_scan(src, p0),
        decreases src.len() + 2 - pos,
    {
        pos += 1;
        if pos > end {
            break;
        }
        let ch = charCodeAtUnchecked(lx, pos);
        if ch == 36 && charCodeAtUnchecked(lx, pos + 1) == 123 {
            pos += 1;
            kind = 1;
            break;
        }
        if ch == 96 {
            kind = 2;
            break;
        }
        if ch == 92 {
            pos += 1;
        }
    }
    lx.pos = pos;
    if kind == 0 {
        return Err(ParseError { pos });
    }
    if kind == 1 {
        return pushOpenToken(lx, OpenTokenState::TemplateBrace, pos);
    }
    if lx.open_token_depth == 0 {
        return Err(ParseError { pos });
    }
    lx.open_token_depth = lx.open_token_depth - 1;
    if lx.open_token_stack[lx.open_token_depth].token != OpenTokenState::Template {
        return Err(ParseError { pos });
    }
    Ok(())
}


/// Scanning a template after `p` for a constant (no-substitution) literal:
/// `Some(q)` when the closing backtick is at `q` before any `${`.
pub open spec fn no_subst_scan(src: Seq<u16>, p: int) -> Option<int>
    decreases src.len() + 2 - p,
{
    let q = p + 1;
    if q > src.len() - 1 {
        None
    } else if src[q] == 96 {
        Some(q)
    } else if src[q] == 92 {
        no_subst_scan(src, q + 1)
    } else if src[q] == 36 && unit_at(src, q + 1) == 123 {
        None
    } else {
        no_subst_scan(src, q)
    }
}

pub proof fn lemma_no_subst_scan(src: Seq<u16>, p: int)
    requires
        p >= -1,
    ensures
        no_subst_scan(src, p) matches Some(q) ==> p < q < src.len() && src[q] == 96,
    decreases src.len() + 2 - p,
{
    let q = p + 1;
    if q > src.len() - 1 {
    } else if src[q] == 96 {
    } else if src[q] == 92 {
        lemma_no_subst_scan(src, q + 1);
    } else if src[q] == 36 && unit_at(src, q + 1) == 123 {
    } else {
        lemma_no_subst_scan(src, q);
    }
}

/// With the cursor on an opening backtick: when the template has no `${`
/// substitution, moves the cursor to its closing backtick and returns true;
/// otherwise leaves the cursor where it was and returns false.
#[allow(non_snake_case)]
pub fn noSubstitutionTemplate(lx: &mut Lexer) -> (r: bool)
    requires
        old(lx).wf(),
        -1 <= old(lx).pos <= old(lx).len(),
    ensures
        r == no_subst_scan(old(lx).source@, old(lx).pos as int) is Some,
        r ==> *final(lx) == old(lx).with_pos(no_subst_scan(old(lx).source@, old(lx).pos as int)->0),
        !r ==> *final(lx) == *old(lx),
        r ==> old(lx).pos < final(lx).pos < old(lx).len(),
        final(lx).wf(),
{
    let ghost src = lx.source@;
    let ghost p0 = lx.pos as int;
    proof {
        lemma_no_subst_scan(src, p0);
    }
    let end = end(lx);
    let mut pos = lx.pos;
    let mut found = false;
    loop
        invariant_except_break
            p0 <= pos <= src.len(),
            no_subst_scan(src, pos as int) == no_subst_scan(src, p0),
            !found,
        invariant
            lx.wf(),
            *lx == *old(lx),
            lx.source@ == src,
            end == src.len() - 1,
            -1 <= p0 <= src.len(),
        ensures
            found ==> no_subst_scan(src, p0) == Some(pos as int),
            !found ==> no_subst_scan(src, p0) is None,
        decreases src.len() + 2 - pos,
    {
        pos += 1;
        if pos > end {
            break;
        }
        let ch = charCodeAtUnchecked(lx, pos);
        if ch == 96 {
            found = true;
            break;
        }
        if ch == 92 {
            pos += 1;
            continue;
        }
        if ch == 36 && charCodeAtUnchecked(lx, pos + 1) == 123 {
            break;
        }
    }
    if found {
        lx.pos = pos;
    }
    found
}

/// Scanning a regular-expression character class after `p`: `(true, q)` on the
/// closing `]` at `q`, `(false, q)` on a line break or the end at `q`.
pub open spec fn regex_class_scan(src: Seq<u16>, p: int) -> (bool, int)
    decreases src.len() + 2 - p,
{
    let q = p + 1;
    if q > src.len() - 1 {
        (false, q)
    } else if src[q] == 93 {
        (true, q)
    } else if src[q] == 92 {
        regex_class_scan(src, q + 1)
    } else if src[q] == 10 || src[q] == 13 {
        (false, q)
    } else {
        regex_class_scan(src, q)
    }
}

pub proof fn lemma_regex_class_scan(src: Seq<u16>, p: int)
    requires
        p >= -1,
    ensures
        p < regex_class_scan(src, p).1 <= max(p + 1, src.len() as int + 1),
        regex_class_scan(src, p).0 ==> regex_class_scan(src, p).1 < src.len(),
    decreases src.len() + 2 - p,
{
    let q = p + 1;
    if q > src.len() - 1 {
    } else if src[q] == 93 {
    } else if src[q] == 92 {
        lemma_regex_class_scan(src, q + 1);
    } else if src[q] == 10 || src[q] == 13 {
    } else {
        lemma_regex_class_scan(src, q);
    }
}

/// Skips a regular-expression character class whose `[` is at the cursor and
/// leaves the cursor on the `]`; a line break or the end is a syntax error.
#[allow(non_snake_case)]
pub fn regexCharacterClass(lx: &mut Lexer) -> (r: Result<(), ParseError>)
    requires
        old(lx).wf(),
        -1 <= old(lx).pos <= old(lx).len(),
    ensures
        *final(lx) == old(lx).with_pos(regex_class_scan(old(lx).source@, old(lx).pos as int).1),
        r is Ok <==> regex_class_scan(old(lx).source@, old(lx).pos as int).0,
        r matches Err(e) ==> e.pos == final(lx).pos,
        old(lx).pos < final(lx).pos <= old(lx).len() + 1,
        final(lx).wf(),
{
    let ghost src = lx.source@;
    let ghost p0 = lx.pos as int;
    proof {
        lemma_regex_class_scan(src, p0);
    }
    let end = end(lx);
    let mut pos = lx.pos;
    let mut ok = false;
    loop
        invariant_except_break
            p0 <= pos <= src.len(),
            regex_class_scan(src, pos as int) == regex_class_scan(src, p0),
            !ok,
        invariant
            lx.wf(),
            *lx == *old(lx),
            lx.source@ == src,
            end == src.len() - 1,
            -1 <= p0 <= src.len(),
        ensures
            (ok, pos as int) == regex_class_scan(src, p0),
        decreases src.len() + 2 - pos,
    {
        pos += 1;
        if pos > end {
            break;
        }
        let ch = charCodeAtUnchecked(lx, pos);
        if ch == 93 {
            ok = true;
            break;
        }
        if ch == 92 {
            pos += 1;
        } else if ch == 10 || ch == 13 {
            break;
        }
    }
    lx.pos = pos;
    if ok {
        Ok(())
    } else {
        Err(ParseError { pos })
    }
}

/// Scanning a regular expression after `p`: `(true, q)` on the closing `/` at
/// `q`, `(false, q)` on a line break or the end at `q` (inside a class too).
pub open spec fn regex_scan(src: Seq<u16>, p: int) -> (bool, int)
    decreases src.len() + 2 - p,
{
    let q = p + 1;
    if q > src.len() - 1 {
        (false, q)
    } else if src[q] == 47 {
        (true, q)
    } else if src[q] == 91 {
        let (ok, c) = regex_class_scan(src, q);
        if !ok {
            (false, c)
        } else if p < c < src.len() {
            regex_scan(src, c)
        } else {
            (false, c)
        }
    } else if src[q] == 92 {
        regex_scan(src, q + 1)
    } else if src[q] == 10 || src[q] == 13 {
        (false, q)
    } else {
        regex_scan(src, q)
    }
}

pub proof fn lemma_regex_scan(src: Seq<u16>, p: int)
    requires
        p >= -1,
    ensures
        p < regex_scan(src, p).1 <= max(p + 1, src.len() as int + 1),
    decreases src.len() + 2 - p,
{
    let q = p + 1;
    if q > src.len() - 1 {
    } else if src[q] == 47 {
    } else if src[q] == 91 {
        lemma_regex_class_scan(src, q);
        let (ok, c) = regex_class_scan(src, q);
        if ok && p < c < src.len() {
            lemma_regex_scan(src, c);
        }
    } else if src[q] == 92 {
        lemma_regex_scan(src, q + 1);
    } else if src[q] == 10 || src[q] == 13 {
    } else {
        lemma_regex_scan(src, q);
    }
}

/// Skips a regular expression whose opening `/` is at the cursor and leaves the
/// cursor on the closing `/`; a line break or the end is a syntax error.
#[allow(non_snake_case)]
pub fn regularExpression(lx: &mut Lexer) -> (r: Result<(), ParseError>)
    requires
        old(lx).wf(),
        -1 <= old(lx).pos <= old(lx).len(),
    ensures
        *final(lx) == old(lx).with_pos(regex_scan(old(lx).source@, old(lx).pos as int).1),
        r is Ok <==> regex_scan(old(lx).source@, old(lx).pos as int).0,
        r matches Err(e) ==> e.pos == final(lx).pos,
        old(lx).pos < final(lx).pos <= old(lx).len() + 1,
        final(lx).wf(),
{
    let ghost src = lx.source@;
    let ghost p0 = lx.pos as int;
    proof {
        lemma_regex_scan(src, p0);
    }
    let end = end(lx);
    let mut pos = lx.pos;
    let mut ok = false;
    loop
        invariant_except_break
            p0 <= pos <= src.len(),
            regex_scan(src, pos as int) == regex_scan(src, p0),
            !ok,
        invariant
            lx.wf(),
            *lx == old(lx).with_pos(lx.pos as int),
            lx.source@ == src,
            end == src.len() - 1,
            -1 <= p0 <= src.len(),
        ensures
            (ok, pos as int) == regex_scan(src, p0),
        decreases src.len() + 2 - pos,
    {
        let ghost prev = pos as int;
        pos += 1;
        if pos > end {
            break;
        }
        let ch = charCodeAtUnchecked(lx, pos);
        if ch == 47 {
            ok = true;
            break;
        }
        if ch == 91 {
            proof {
                lemma_regex_class_scan(src, pos as int);
            }
            lx.pos = pos;
            let cls = regexCharacterClass(lx);
            pos = lx.pos;
            if cls.is_err() {
                break;
            }
        } else if ch == 92 {
            pos += 1;
        } else if ch == 10 || ch == 13 {
            break;
        }
    }
    lx.pos = pos;
    if ok {
        Ok(())
    } else {
        Err(ParseError { pos })
    }
}

/// Reading a word from `p` whose first unit is `ch`: stops on a blank or a
/// punctuator (returning it), or on the first 0 unit after `p`.
pub open spec fn word_scan(src: Seq<u16>, p: int, ch: int) -> (int, int)
    decreases src.len() + 2 - p,
{
    if spec_is_br_or_ws(ch) || spec_is_punctuator(ch) {
        (p, ch)
    } else if unit_at(src, p + 1) == 0 {
        (p + 1, 0)
    } else if p + 1 < src.len() {
        word_scan(src, p + 1, unit_at(src, p + 1))
    } else {
        (p + 1, 0)
    }
}

pub proof fn lemma_word_scan(src: Seq<u16>, p: int, ch: int)
    ensures
        p <= word_scan(src, p, ch).0 <= max(p + 1, src.len() as int),
        word_scan(src, p, ch).0 == p ==> word_scan(src, p, ch).1 == ch,
        word_scan(src, p, ch).0 > p ==> word_scan(src, p, ch).1 == unit_at(src, word_scan(src, p, ch).0),
    decreases src.len() + 2 - p,
{
    if spec_is_br_or_ws(ch) || spec_is_punctuator(ch) {
    } else if unit_at(src, p + 1) == 0 {
    } else if p + 1 < src.len() {
        lemma_word_scan(src, p + 1, unit_at(src, p + 1));
    } else {
    }
}

/// The word that `word_scan` reads from `p` (its first unit `ch` at `p`, no
/// blank and no punctuator) is the longest run of units from `p` that are
/// neither blanks, punctuators nor 0: it ends at the first such unit, or at
/// the end of the source.
pub proof fn lemma_word_scan_span(src: Seq<u16>, p: int, ch: int)
    requires
        ch == unit_at(src, p),
        !spec_is_br_or_ws(ch),
        !spec_is_punctuator(ch),
    ensures
        ({
            let w = word_scan(src, p, ch).0;
            &&& p < w
            &&& forall|k: int| p <= k < w ==> !spec_is_br_or_ws(#[trigger] unit_at(src, k))
                && !spec_is_punctuator(unit_at(src, k))
            &&& forall|k: int| p < k < w ==> #[trigger] unit_at(src, k) != 0
            &&& (w >= src.len() || unit_at(src, w) == 0 || spec_is_br_or_ws(unit_at(src, w)) || spec_is_punctuator(unit_at(src, w)))
        }),
    decreases src.len() + 2 - p,
{
    if unit_at(src, p + 1) == 0 {
    } else if p + 1 < src.len() {
        let c = unit_at(src, p + 1);
        if !spec_is_br_or_ws(c) && !spec_is_punctuator(c) {
            lemma_word_scan_span(src, p + 1, c);
        }
    }
}

/// Moves the cursor over a word whose first unit is `ch` up to a blank, a
/// punctuator or a 0 unit, and returns the unit it stops on.
#[allow(non_snake_case)]
pub fn readToWsOrPunctuator(lx: &mut Lexer, ch: i32) -> (r: i32)
    requires
        old(lx).wf(),
        old(lx).pos < old(lx).pos_limit(),
    ensures
        (final(lx).pos as int, r as int) == word_scan(old(lx).source@, old(lx).pos as int, ch as int),
        *final(lx) == old(lx).with_pos(final(lx).pos as int),
        old(lx).pos <= final(lx).pos <= max(old(lx).pos + 1, old(lx).len()),
        r != final(lx).at(final(lx).pos as int) ==> final(lx).pos == old(lx).pos && r == ch,
        final(lx).wf(),
{
    let ghost src = lx.source@;
    let ghost p0 = lx.pos as int;
    let ghost c0 = ch as int;
    proof {
        lemma_word_scan(src, p0, c0);
    }
    let mut ch = ch;
    let mut pos = lx.pos;
    loop
        invariant_except_break
            p0 <= pos,
            pos == p0 || pos < src.len(),
            word_scan(src, pos as int, ch as int) == word_scan(src, p0, c0),
        invariant
            lx.wf(),
            *lx == *old(lx),
            lx.source@ == src,
            p0 < 2 * src.len() + POS_SLACK,
        ensures
            (pos as int, ch as int) == word_scan(src, p0, c0),
        decreases src.len() + 2 - pos,
    {
        if isBrOrWs(ch) || isPunctuator(ch) {
            break;
        }
        let c = crate::source::charCodeAt(lx, pos + 1);
        pos += 1;
        ch = c;
        if ch == 0 {
            break;
        }
    }
    proof {
        lemma_word_scan(src, p0, c0);
    }
    lx.pos = pos;
    ch
}


// The string reader below decodes a string or no-substitution template
// literal as sloppy-mode `eval` would: quoted strings allow octal escapes,
// templates normalize line endings and reject octal.

/// The value of a hexadecimal digit, 16 or more for any other unit.
pub open spec fn hex_val(c: int) -> int {
    if c >= 97 {
        c - 87
    } else if c >= 65 {
        c - 55
    } else if 48 <= c <= 57 {
        c - 48
    } else {
        16
    }
}

/// Reading `n` hexadecimal digits from `p` (the `i`-th one, with the value
/// `total` so far; a `_` is no digit, as no separator is allowed in an
/// escape). Gives the value and the position after the digits, or `None`
/// when they are not there.
pub open spec fn hex_scan(src: Seq<u16>, p: int, i: int, n: int, total: int) -> Option<(int, int)>
    decreases n - i,
{
    if i >= n {
        Some((total, p))
    } else if hex_val(unit_at(src, p)) >= 16 {
        None
    } else {
        hex_scan(src, p + 1, i + 1, n, total * 16 + hex_val(unit_at(src, p)))
    }
}

pub proof fn lemma_hex_scan(src: Seq<u16>, p: int, i: int, n: int, total: int)
    requires
        total >= 0,
        i <= n,
    ensures
        hex_scan(src, p, i, n, total) matches Some((v, e)) ==> e == p + (n - i) && v >= total
            && (i < n ==> e <= src.len()),
    decreases n - i,
{
    if i < n && hex_val(unit_at(src, p)) < 16 {
        lemma_hex_scan(src, p + 1, i + 1, n, total * 16 + hex_val(unit_at(src, p)));
    }
}

/// The value of a hexadecimal digit unit: `0`-`9` give 0 to 9, `A`-`F` and
/// `a`-`f` both give 10 to 15 (the letter case does not matter); any other
/// unit is no digit (its value is 16 or more).
pub proof fn law_hex_digit_value(c: int)
    ensures
        48 <= c <= 57 ==> hex_val(c) == c - 48,
        65 <= c <= 70 ==> hex_val(c) == c - 55 && hex_val(c + 32) == hex_val(c),
        97 <= c <= 102 ==> hex_val(c) == c - 87,
        !(48 <= c <= 57 || 65 <= c <= 70 || 97 <= c <= 102) ==> hex_val(c) >= 16,
{
}

/// The value of hexadecimal digits is positional: two digits `h l` give
/// `16 * h + l`, four digits `a b c d` give `4096 * a + 256 * b + 16 * c + d`
/// (each digit taken by `law_hex_digit_value`).
pub proof fn law_hex_positional(src: Seq<u16>, p: int)
    ensures
        hex_scan(src, p, 0, 2, 0) matches Some((v, e)) ==> v == 16 * hex_val(unit_at(src, p)) + hex_val(unit_at(src, p + 1)),
        hex_scan(src, p, 0, 4, 0) matches Some((v, e)) ==> v == 4096 * hex_val(unit_at(src, p)) + 256 * hex_val(
            unit_at(src, p + 1),
        ) + 16 * hex_val(unit_at(src, p + 2)) + hex_val(unit_at(src, p + 3)),
{
    reveal_with_fuel(hex_scan, 6);
}

/// Reading `n` hexadecimal digits from `p` succeeds exactly when the `n`
/// units from `p` are all hexadecimal digits (`0`-`9`, `A`-`F`, `a`-`f`),
/// and then ends `n` units on (each digit adding its `law_hex_digit_value`).
pub proof fn law_hex_scan_digits(src: Seq<u16>, p: int, i: int, n: int, total: int)
    requires
        0 <= i <= n,
        total >= 0,
    ensures
        hex_scan(src, p, i, n, total) is Some <==> forall|k: int| p <= k < p + (n - i) ==> {
            let c = #[trigger] unit_at(src, k);
            48 <= c <= 57 || 65 <= c <= 70 || 97 <= c <= 102
        },
        hex_scan(src, p, i, n, total) matches Some((v, e)) ==> e == p + (n - i) && v >= total,
    decreases n - i,
{
    if i < n {
        law_hex_digit_value(unit_at(src, p));
        law_hex_scan_digits(src, p + 1, i + 1, n, total * 16 + hex_val(unit_at(src, p)));
        if !(hex_scan(src, p, i, n, total) is Some) {
            let c = unit_at(src, p);
            if 48 <= c <= 57 || 65 <= c <= 70 || 97 <= c <= 102 {
                let k = choose|k: int| p + 1 <= k < p + 1 + (n - (i + 1)) && !({
                    let c = #[trigger] unit_at(src, k);
                    48 <= c <= 57 || 65 <= c <= 70 || 97 <= c <= 102
                });
                assert(p <= k < p + (n - i));
            } else {
                assert(p <= p < p + (n - i));
            }
        } else {
            assert forall|k: int| p <= k < p + (n - i) implies {
                let c = #[trigger] unit_at(src, k);
                48 <= c <= 57 || 65 <= c <= 70 || 97 <= c <= 102
            } by {
                if k == p {
                } else {
                    assert(p + 1 <= k < p + 1 + (n - (i + 1)));
                }
            }
        }
    }
}

/// Two hexadecimal digits stay below 256, four below 65536.
pub proof fn lemma_hex_small(src: Seq<u16>, p: int)
    ensures
        hex_scan(src, p, 0, 2, 0) matches Some((v, e)) ==> 0 <= v < 256,
        hex_scan(src, p, 0, 4, 0) matches Some((v, e)) ==> 0 <= v < 65536,
{
    reveal_with_fuel(hex_scan, 6);
}

/// The UTF-16 units of a code point.
pub open spec fn code_point_units(code: int) -> Seq<u16> {
    if code <= 0xffff {
        seq![code as u16]
    } else {
        seq![((code - 0x10000) / 1024 + 0xd800) as u16, ((code - 0x10000) % 1024 + 0xdc00) as u16]
    }
}

/// A code point is written in UTF-16 as itself up to U+FFFF, and beyond as a
/// surrogate pair (a high surrogate, then a low one) from which it is
/// recovered.
pub proof fn law_code_point_units(code: int)
    requires
        0 <= code <= 0x10ffff,
    ensures
        code <= 0xffff ==> code_point_units(code) == seq![code as u16],
        code > 0xffff ==> {
            let u = code_point_units(code);
            &&& u.len() == 2
            &&& 0xd800 <= u[0] < 0xdc00 <= u[1] < 0xe000
            &&& (u[0] - 0xd800) * 1024 + (u[1] - 0xdc00) + 0x10000 == code
        },
{
    if code > 0xffff {
        let x = code - 0x10000;
        assert(0 <= x / 1024 < 1024 && 0 <= x % 1024 < 1024 && (x / 1024) * 1024 + x % 1024 == x) by (nonlinear_arith)
            requires
                0 <= x < 0x100000,
        ;
    }
}

/// A `\u` escape of four hexadecimal digits (no `{`) stands for the one unit
/// whose value the digits spell.
pub proof fn law_unicode_escape_four(src: Seq<u16>, a: int)
    requires
        unit_at(src, a) != 123,
        forall|k: int| a <= k < a + 4 ==> {
            let c = #[trigger] unit_at(src, k);
            48 <= c <= 57 || 65 <= c <= 70 || 97 <= c <= 102
        },
    ensures
        code_point_escape(src, a) == Some((
            seq![(4096 * hex_val(unit_at(src, a)) + 256 * hex_val(unit_at(src, a + 1)) + 16 * hex_val(unit_at(src, a + 2))
                + hex_val(unit_at(src, a + 3))) as u16],
            a + 4,
        )),
{
    law_hex_scan_digits(src, a, 0, 4, 0);
    law_hex_positional(src, a);
    lemma_hex_small(src, a);
}

/// The first `}` at or after `from`.
pub open spec fn first_close_brace(src: Seq<u16>, from: int) -> Option<int>
    decreases src.len() - from,
{
    if from < 0 || from >= src.len() {
        None
    } else if src[from] == 125 {
        Some(from)
    } else {
        first_close_brace(src, from + 1)
    }
}

pub proof fn lemma_first_close_brace(src: Seq<u16>, from: int)
    ensures
        first_close_brace(src, from) matches Some(c) ==> from <= c < src.len() && src[c] == 125
            && forall|k: int| from <= k < c ==> src[k] != 125,
        first_close_brace(src, from) is None && from >= 0 ==> forall|k: int| from <= k < src.len() ==> src[k] != 125,
    decreases src.len() - from,
{
    if 0 <= from < src.len() && src[from] != 125 {
        lemma_first_close_brace(src, from + 1);
    }
}

/// A `\u` escape whose `u` is just before `a`: `\uXXXX` or `\u{X...}` (at most
/// U+10FFFF, not empty). Gives its units and the position after it.
pub open spec fn code_point_escape(src: Seq<u16>, a: int) -> Option<(Seq<u16>, int)> {
    if unit_at(src, a) == 123 {
        match first_close_brace(src, a + 1) {
            None => None,
            Some(close) => if close == a + 1 {
                None
            } else {
                match hex_scan(src, a + 1, 0, close - (a + 1), 0) {
                    None => None,
                    Some((code, e)) => if code > 0x10ffff {
                        None
                    } else {
                        Some((code_point_units(code), e + 1))
                    },
                }
            },
        }
    } else {
        match hex_scan(src, a, 0, 4, 0) {
            None => None,
            Some((code, e)) => Some((code_point_units(code), e)),
        }
    }
}

pub open spec fn is_octal_digit(c: int) -> bool {
    48 <= c <= 55
}

/// How many octal digits (at most 3) stand from `first` on.
pub open spec fn octal_len(src: Seq<u16>, first: int) -> int {
    if !is_octal_digit(unit_at(src, first)) {
        0
    } else if !is_octal_digit(unit_at(src, first + 1)) {
        1
    } else if !is_octal_digit(unit_at(src, first + 2)) {
        2
    } else {
        3
    }
}

/// The octal value of the `n` digits from `first`.
pub open spec fn octal_value(src: Seq<u16>, first: int, n: int) -> int
    decreases n,
{
    if n <= 0 {
        0
    } else {
        octal_value(src, first, n - 1) * 8 + (unit_at(src, first + n - 1) - 48)
    }
}

pub proof fn lemma_octal_value(src: Seq<u16>, first: int, n: int)
    requires
        0 <= n <= 3,
        forall|k: int| 0 <= k < n ==> #[trigger] is_octal_digit(unit_at(src, first + k)),
    ensures
        0 <= octal_value(src, first, n) < 512,
        n <= 2 ==> octal_value(src, first, n) < 64,
{
    reveal_with_fuel(octal_value, 4);
    if n >= 1 {
        assert(is_octal_digit(unit_at(src, first + 0)));
    }
    if n >= 2 {
        assert(is_octal_digit(unit_at(src, first + 1)));
    }
    if n >= 3 {
        assert(is_octal_digit(unit_at(src, first + 2)));
    }
}

/// A sloppy-mode octal escape from its first digit: up to three digits, or
/// two when three would exceed 255. Gives its unit and the position after it.
pub open spec fn octal_escape(src: Seq<u16>, first: int) -> (Seq<u16>, int) {
    let n0 = octal_len(src, first);
    let v0 = octal_value(src, first, n0);
    if v0 > 255 {
        (seq![(v0 / 8) as u16], first + n0 - 1)
    } else {
        (seq![v0 as u16], first + n0)
    }
}

/// The escape whose backslash is at `b`: its units and the position after it,
/// or `None` where `eval` throws.
pub open spec fn escape_decode(src: Seq<u16>, b: int, template: bool) -> Option<(Seq<u16>, int)> {
    let ch = unit_at(src, b + 1);
    let a = b + 2;
    if ch == 110 {
        Some((seq![10u16], a))
    } else if ch == 114 {
        Some((seq![13u16], a))
    } else if ch == 120 {
        match hex_scan(src, a, 0, 2, 0) {
            None => None,
            Some((v, e)) => Some((seq![v as u16], e)),
        }
    } else if ch == 117 {
        code_point_escape(src, a)
    } else if ch == 116 {
        Some((seq![9u16], a))
    } else if ch == 98 {
        Some((seq![8u16], a))
    } else if ch == 118 {
        Some((seq![11u16], a))
    } else if ch == 102 {
        Some((seq![12u16], a))
    } else if ch == 13 {
        Some((seq![], if unit_at(src, a) == 10 {
            a + 1
        } else {
            a
        }))
    } else if ch == 10 {
        Some((seq![], a))
    } else if ch == 56 || ch == 57 {
        if template {
            None
        } else {
            Some((seq![ch as u16], a))
        }
    } else if is_octal_digit(ch) {
        if template {
            None
        } else {
            Some(octal_escape(src, b + 1))
        }
    } else {
        Some((seq![ch as u16], a))
    }
}

pub proof fn lemma_escape_decode(src: Seq<u16>, b: int, template: bool)
    requires
        0 <= b < src.len(),
    ensures
        escape_decode(src, b, template) matches Some((u, e)) ==> b + 2 <= e <= src.len() + 1,
{
    let ch = unit_at(src, b + 1);
    let a = b + 2;
    reveal_with_fuel(octal_value, 4);
    lemma_hex_scan(src, a, 0, 2, 0);
    lemma_hex_scan(src, a, 0, 4, 0);
    lemma_first_close_brace(src, a + 1);
    if let Some(close) = first_close_brace(src, a + 1) {
        if close > a + 1 {
            lemma_hex_scan(src, a + 1, 0, close - (a + 1), 0);
        }
    }
}

/// `prefix` followed by the decoded rest, when there is one.
pub open spec fn then_decoded(prefix: Seq<u16>, rest: Option<Seq<u16>>) -> Option<Seq<u16>> {
    match rest {
        Some(r) => Some(prefix + r),
        None => None,
    }
}

/// Decoding a literal from `p` up to its closing `quote` (a backtick for a
/// template): `None` where `eval` throws (an unterminated literal, a raw line
/// break in a quoted string, a bad escape).
pub open spec fn literal_decode(src: Seq<u16>, p: int, quote: int) -> Option<Seq<u16>>
    decreases src.len() - p,
{
    let template = quote == 96;
    if p < 0 || p >= src.len() {
        None
    } else if src[p] == quote {
        Some(seq![])
    } else if src[p] == 92 {
        match escape_decode(src, p, template) {
            None => None,
            Some((u, e)) => if p < e <= src.len() {
                then_decoded(u, literal_decode(src, e, quote))
            } else {
                None
            },
        }
    } else if src[p] == 0x2028 || src[p] == 0x2029 {
        then_decoded(seq![src[p]], literal_decode(src, p + 1, quote))
    } else if template && src[p] == 13 {
        then_decoded(seq![10u16], literal_decode(src, if unit_at(src, p + 1) == 10 {
            p + 2
        } else {
            p + 1
        }, quote))
    } else if spec_is_br(src[p] as int) && !template {
        None
    } else {
        then_decoded(seq![src[p]], literal_decode(src, p + 1, quote))
    }
}

/// A quoted string with no backslash and no line break in it decodes to its
/// own units: the value of the units from `p` up to the closing quote at `q`
/// is exactly that slice of the source.
pub proof fn law_plain_literal(src: Seq<u16>, p: int, q: int, quote: int)
    requires
        0 <= p <= q < src.len(),
        src[q] == quote,
        quote == 34 || quote == 39,
        forall|k: int| p <= k < q ==> #[trigger] src[k] != quote && src[k] != 92 && src[k] != 10 && src[k] != 13,
    ensures
        literal_decode(src, p, quote) == Some(src.subrange(p, q)),
    decreases q - p,
{
    if p < q {
        law_plain_literal(src, p + 1, q, quote);
        assert(seq![src[p]] + src.subrange(p + 1, q) =~= src.subrange(p, q));
    } else {
        assert(src.subrange(p, q) =~= Seq::<u16>::empty());
    }
}

/// The one-unit escapes: `\n`, `\r`, `\t`, `\b`, `\v` and `\f` stand for
/// the units 10, 13, 9, 8, 11 and 12; a backslash before a quote or a
/// backslash stands for that unit; `\xHH` (two hexadecimal digits) stands for
/// the unit `16 * H + H'`. Each escape ends right after its last unit.
pub proof fn law_simple_escapes(src: Seq<u16>, b: int, template: bool)
    ensures
        ({
            let ch = unit_at(src, b + 1);
            let esc = escape_decode(src, b, template);
            &&& ch == 110 ==> esc == Some((seq![10u16], b + 2))
            &&& ch == 114 ==> esc == Some((seq![13u16], b + 2))
            &&& ch == 116 ==> esc == Some((seq![9u16], b + 2))
            &&& ch == 98 ==> esc == Some((seq![8u16], b + 2))
            &&& ch == 118 ==> esc == Some((seq![11u16], b + 2))
            &&& ch == 102 ==> esc == Some((seq![12u16], b + 2))
            &&& (ch == 34 || ch == 39 || ch == 92) ==> esc == Some((seq![ch as u16], b + 2))
            &&& ch == 120 && (forall|k: int| b + 2 <= k < b + 4 ==> {
                let c = #[trigger] unit_at(src, k);
                48 <= c <= 57 || 65 <= c <= 70 || 97 <= c <= 102
            }) ==> esc == Some((seq![(16 * hex_val(unit_at(src, b + 2)) + hex_val(unit_at(src, b + 3))) as u16], b + 4))
        }),
{
    law_hex_scan_digits(src, b + 2, 0, 2, 0);
    law_hex_positional(src, b + 2);
}


pub open spec fn min_cap(v: int) -> int {
    if v < 0x110000 {
        v
    } else {
        0x110000
    }
}

/// Reads `len` hexadecimal digits at `apos` and moves
/// `apos` past them. The value is capped at 0x110000 (beyond any code point).
#[allow(non_snake_case)]
fn readHexChar(lx: &Lexer, apos: &mut i32, len: i32) -> (r: Result<u32, ()>)
    requires
        lx.wf(),
        0 <= *old(apos) <= lx.len() + 4,
        0 <= len <= lx.len() + 8,
    ensures
        match hex_scan(lx.source@, *old(apos) as int, 0, len as int, 0) {
            Some((v, e)) => r == Ok::<u32, ()>(min_cap(v) as u32) && *final(apos) == e,
            None => r is Err,
        },
{
    let ghost src = lx.source@;
    let start = *apos;
    let mut total: u64 = 0;
    let mut i: i32 = 0;
    let ghost mut spec_total: int = 0;
    let mut failed = false;
    while i < len
        invariant_except_break
            !failed,
            0 <= i <= len,
        invariant
            *apos == start + i,
            0 <= start <= src.len() + 4,
            0 <= len <= src.len() + 8,
            src == lx.source@,
            lx.wf(),
            spec_total >= 0,
            total == min_cap(spec_total),
            !failed ==> hex_scan(src, start as int, 0, len as int, 0) == hex_scan(src, *apos as int, i as int, len as int, spec_total),
            failed ==> hex_scan(src, start as int, 0, len as int, 0) is None,
        ensures
            !failed ==> i == len && hex_scan(src, start as int, 0, len as int, 0) == hex_scan(src, *apos as int, len as int, len as int, spec_total),
        decreases len - i,
    {
        // anything but a hexadecimal digit (`_` too) ends the escape
        let code = crate::source::charCodeAt(lx, *apos);
        let val: i32 = if code >= 97 {
            code - 87
        } else if code >= 65 {
            code - 55
        } else if code >= 48 && code <= 57 {
            code - 48
        } else {
            16
        };
        if val >= 16 {
            failed = true;
            break;
        }
        proof {
            spec_total = spec_total * 16 + val;
        }
        total = if total >= 0x110000 || total * 16 + val as u64 >= 0x110000 {
            0x110000
        } else {
            total * 16 + val as u64
        };
        *apos = *apos + 1;
        i = i + 1;
    }
    if failed {
        return Err(());
    }
    Ok(total as u32)
}

/// The first `}` at or after `from`, if any.
#[allow(non_snake_case)]
fn indexOfCloseBrace(lx: &Lexer, from: i32) -> (r: Option<i32>)
    requires
        lx.wf(),
        0 <= from,
    ensures
        r matches Some(c) ==> first_close_brace(lx.source@, from as int) == Some(c as int),
        r is None ==> first_close_brace(lx.source@, from as int) is None,
{
    let ghost src = lx.source@;
    let mut i = from;
    let n = crate::source::len(lx);
    while i < n
        invariant
            0 <= from <= i,
            n == src.len(),
            src == lx.source@,
            first_close_brace(src, from as int) == first_close_brace(src, i as int),
        decreases n - i,
    {
        if crate::source::charCodeAt(lx, i) == 125 {
            return Some(i);
        }
        i += 1;
    }
    None
}

/// A `\u` escape, `apos` just after the `u`: returns its UTF-16 units and
/// moves `apos` past it.
#[allow(non_snake_case)]
fn readCodePointToString(lx: &Lexer, apos: &mut i32) -> (r: Result<Vec<u16>, ()>)
    requires
        lx.wf(),
        0 <= *old(apos) <= lx.len() + 2,
    ensures
        match code_point_escape(lx.source@, *old(apos) as int) {
            Some((u, e)) => r matches Ok(v) && v@ == u && *final(apos) == e,
            None => r is Err,
        },
{
    let ghost src = lx.source@;
    let ghost a = *apos as int;
    let ch = crate::source::charCodeAt(lx, *apos);
    let code: u32;
    if ch == 123 {
        *apos = *apos + 1;
        let close = indexOfCloseBrace(lx, *apos);
        proof {
            lemma_first_close_brace(src, a + 1);
        }
        match close {
            None => return Err(()),
            Some(close) => {
                if close == *apos {
                    return Err(());
                }
                proof {
                    lemma_hex_scan(src, a + 1, 0, close - (a + 1), 0);
                }
                code = readHexChar(lx, apos, close - *apos)?;
            },
        }
        *apos = *apos + 1;
        if code > 0x10ffff {
            return Err(());
        }
    } else {
        proof {
            lemma_hex_small(src, a);
        }
        code = readHexChar(lx, apos, 4)?;
    }
    let mut out: Vec<u16> = Vec::new();
    if code <= 0xffff {
        out.push(code as u16);
        return Ok(out);
    }
    let c = code - 0x10000;
    assert(c >> 10 == c / 1024 && c & 1023 == c % 1024) by (bit_vector);
    assert(c <= 0xfffff ==> c >> 10 <= 0x3ff) by (bit_vector);
    assert(c & 1023 <= 1023) by (bit_vector);
    out.push(((c >> 10) + 0xd800) as u16);
    out.push(((c & 1023) + 0xdc00) as u16);
    Ok(out)
}

/// A sloppy-mode octal escape, `apos` just after its first digit: up to three
/// digits, or two when three would exceed 255; moves `apos` past them.
#[allow(non_snake_case)]
fn readOctalChar(lx: &Lexer, apos: &mut i32) -> (r: Vec<u16>)
    requires
        lx.wf(),
        1 <= *old(apos) <= lx.len(),
        is_octal_digit(lx.at(*old(apos) - 1)),
    ensures
        (r@, *final(apos) as int) == octal_escape(lx.source@, *old(apos) - 1),
{
    let ghost src = lx.source@;
    let first = *apos - 1;
    let mut octalStrLen: i32 = 0;
    while octalStrLen < 3
        invariant_except_break
            0 <= octalStrLen <= 3,
            forall|k: int| 0 <= k < octalStrLen ==> #[trigger] is_octal_digit(unit_at(src, first + k)),
        invariant
            src == lx.source@,
            lx.wf(),
            0 <= first < src.len(),
            is_octal_digit(unit_at(src, first as int)),
        ensures
            0 <= octalStrLen <= 3,
            octalStrLen == octal_len(src, first as int),
        decreases 3 - octalStrLen,
    {
        let c = crate::source::charCodeAt(lx, first + octalStrLen);
        if c < 48 || c > 55 {
            break;
        }
        octalStrLen += 1;
    }
    let mut octal: u32 = 0;
    let mut i: i32 = 0;
    while i < octalStrLen
        invariant
            0 <= i <= octalStrLen <= 3,
            octalStrLen == octal_len(src, first as int),
            src == lx.source@,
            lx.wf(),
            0 <= first < src.len(),
            octal == octal_value(src, first as int, i as int),
            octal < 512,
            forall|k: int| 0 <= k < octalStrLen ==> #[trigger] is_octal_digit(unit_at(src, first + k)),
        decreases octalStrLen - i,
    {
        proof {
            assert(is_octal_digit(unit_at(src, first + i)));
            assert(octal_value(src, first as int, i + 1) == octal_value(src, first as int, i as int) * 8 + (unit_at(src, first + i) - 48));
            lemma_octal_value(src, first as int, i + 1);
        }
        octal = octal * 8 + (crate::source::charCodeAt(lx, first + i) - 48) as u32;
        i += 1;
    }
    proof {
        lemma_octal_value(src, first as int, octalStrLen as int);
    }
    if octal > 255 {
        assert(octal >> 3 == octal / 8) by (bit_vector);
        octalStrLen -= 1;
        octal = octal >> 3;
    }
    *apos = *apos + octalStrLen - 1;
    let mut out: Vec<u16> = Vec::new();
    out.push(octal as u16);
    out
}


/// The escape whose backslash is at `apos`: returns its units and moves `apos`
/// past it; `Err` where `eval` throws.
#[allow(non_snake_case)]
fn readEscapedChar(lx: &Lexer, apos: &mut i32, template: bool) -> (r: Result<Vec<u16>, ()>)
    requires
        lx.wf(),
        0 <= *old(apos) < lx.len(),
    ensures
        match escape_decode(lx.source@, *old(apos) as int, template) {
            Some((u, e)) => r matches Ok(v) && v@ == u && *final(apos) == e,
            None => r is Err,
        },
{
    let ghost src = lx.source@;
    let ghost b = *apos as int;
    *apos = *apos + 1;
    let ch = crate::source::charCodeAt(lx, *apos);
    *apos = *apos + 1;
    let mut out: Vec<u16> = Vec::new();
    if ch == 110 {
        out.push(10);
    } else if ch == 114 {
        out.push(13);
    } else if ch == 120 {
        proof {
            lemma_hex_small(src, b + 2);
        }
        let v = readHexChar(lx, apos, 2)?;
        out.push(v as u16);
    } else if ch == 117 {
        return readCodePointToString(lx, apos);
    } else if ch == 116 {
        out.push(9);
    } else if ch == 98 {
        out.push(8);
    } else if ch == 118 {
        out.push(11);
    } else if ch == 102 {
        out.push(12);
    } else if ch == 13 {
        if crate::source::charCodeAt(lx, *apos) == 10 {
            *apos = *apos + 1;
        }
    } else if ch == 10 {
    } else if ch == 56 || ch == 57 {
        // `\8` / `\9`: plain characters in sloppy strings, errors in templates
        if template {
            return Err(());
        }
        out.push(ch as u16);
    } else if ch >= 48 && ch <= 55 {
        if template {
            return Err(());
        }
        return Ok(readOctalChar(lx, apos));
    } else if isBr(ch) {
        // a line break after a backslash is removed
    } else {
        out.push(ch as u16);
    }
    Ok(out)
}

/// Appends the source units of `[start, end)` to `out`.
#[allow(non_snake_case)]
fn pushChunk(lx: &Lexer, out: &mut Vec<u16>, start: i32, end: i32)
    requires
        lx.wf(),
    ensures
        final(out)@ == old(out)@ + crate::source::clamped_range(lx.source@, start as int, end as int),
{
    let u = crate::source::units(lx, start, end);
    let mut i: usize = 0;
    let ghost o = out@;
    while i < u.len()
        invariant
            i <= u@.len(),
            out@ == o + u@.take(i as int),
        decreases u@.len() - i,
    {
        out.push(u[i]);
        proof {
            assert(u@.take(i + 1) =~= u@.take(i as int).push(u@[i as int]));
        }
        i = i + 1;
    }
    proof {
        assert(u@.take(u@.len() as int) =~= u@);
    }
}

/// `src[a..b)` when `a < b`, otherwise nothing.
pub open spec fn chunk(src: Seq<u16>, a: int, b: int) -> Seq<u16> {
    if a < b {
        src.subrange(a, b)
    } else {
        seq![]
    }
}

/// The decoded units of the literal from `start` up to its closing `quote`
/// (see `literal_decode`).
fn read_literal_units(lx: &Lexer, start: i32, quote: i32) -> (r: Option<Vec<u16>>)
    requires
        lx.wf(),
        -1 <= start <= lx.len() + 1,
    ensures
        match literal_decode(lx.source@, start as int, quote as int) {
            Some(u) => r matches Some(v) && v@ == u,
            None => r is None,
        },
{
    let ghost src = lx.source@;
    if start < 0 {
        return None;
    }
    let template = quote == 96;
    let n = crate::source::len(lx);
    let mut apos = start;
    let mut out: Vec<u16> = Vec::new();
    let mut chunkStart = start;
    let mut failed = false;
    loop
        invariant_except_break
            !failed,
            0 <= start <= chunkStart <= apos,
            apos <= src.len() + 1,
            chunkStart < apos ==> apos <= src.len(),
            literal_decode(src, start as int, quote as int) == then_decoded(
                out@ + chunk(src, chunkStart as int, apos as int),
                literal_decode(src, apos as int, quote as int),
            ),
        invariant
            lx.wf(),
            src == lx.source@,
            n == src.len(),
            template == (quote == 96),
            -1 <= start <= src.len() + 1,
        ensures
            failed ==> literal_decode(src, start as int, quote as int) is None,
            !failed ==> 0 <= chunkStart <= apos < src.len() && src[apos as int] == quote
                && literal_decode(src, start as int, quote as int) == Some(out@ + chunk(src, chunkStart as int, apos as int)),
        decreases src.len() + 1 - apos,
    {
        if apos < 0 || apos >= n {
            failed = true;
            break;
        }
        let ch = crate::source::charCodeAt(lx, apos);
        if ch == quote {
            break;
        }
        if ch == 92 {
            pushChunk(lx, &mut out, chunkStart, apos);
            proof {
                lemma_escape_decode(src, apos as int, template);
                assert(crate::source::clamped_range(src, chunkStart as int, apos as int) == chunk(src, chunkStart as int, apos as int));
            }
            let ghost before = out@;
            match readEscapedChar(lx, &mut apos, template) {
                Ok(e) => {
                    let mut k: usize = 0;
                    while k < e.len()
                        invariant
                            k <= e@.len(),
                            out@ == before + e@.take(k as int),
                        decreases e@.len() - k,
                    {
                        out.push(e[k]);
                        proof {
                            assert(e@.take(k + 1) =~= e@.take(k as int).push(e@[k as int]));
                        }
                        k = k + 1;
                    }
                    proof {
                        assert(e@.take(e@.len() as int) =~= e@);
                    }
                },
                Err(()) => {
                    failed = true;
                    break;
                },
            }
            chunkStart = apos;
            proof {
                assert(out@ + chunk(src, chunkStart as int, apos as int) =~= out@);
            }
        } else if ch == 0x2028 || ch == 0x2029 {
            proof {
                assert(chunk(src, chunkStart as int, apos + 1) =~= chunk(src, chunkStart as int, apos as int) + seq![src[apos as int]]);
            }
            apos += 1;
        } else if template && ch == 13 {
            // templates normalize `\r\n` and a lone `\r` to `\n`
            pushChunk(lx, &mut out, chunkStart, apos);
            out.push(10);
            apos += 1;
            if crate::source::charCodeAt(lx, apos) == 10 {
                apos += 1;
            }
            chunkStart = apos;
            proof {
                assert(out@ + chunk(src, chunkStart as int, apos as int) =~= out@);
            }
        } else {
            // raw line breaks are only permitted inside templates
            if isBr(ch) && !template {
                failed = true;
                break;
            }
            proof {
                assert(chunk(src, chunkStart as int, apos + 1) =~= chunk(src, chunkStart as int, apos as int) + seq![src[apos as int]]);
            }
            apos += 1;
        }
    }
    if failed {
        return None;
    }
    pushChunk(lx, &mut out, chunkStart, apos);
    Some(out)
}

/// Decodes the literal whose first unit after the opening quote is `start`,
/// `quote` being that quote (a backtick for a template); `Err` where `eval`
/// would throw.
#[allow(non_snake_case)]
pub fn readString(lx: &Lexer, start: i32, quote: i32) -> (r: Result<String, ()>)
    requires
        lx.wf(),
        -1 <= start <= lx.len() + 1,
    ensures
        match literal_decode(lx.source@, start as int, quote as int) {
            Some(u) => r matches Ok(s) && s@ == crate::source::utf16_decode_lossy(u),
            None => r is Err,
        },
{
    match read_literal_units(lx, start, quote) {
        Some(u) => Ok(crate::source::utf16_lossy_string(u.as_slice())),
        None => Err(()),
    }
}

/// The value of the string or template literal whose opening quote is at
/// `start` (its closing quote just before `_end`), as `eval` gives it, or
/// `None` where `eval` throws.
#[allow(non_snake_case)]
pub fn evalLiteral(lx: &Lexer, start: i32, _end: i32) -> (r: Option<String>)
    requires
        lx.wf(),
    ensures
        match literal_decode(lx.source@, start + 1, lx.at(start as int)) {
            Some(u) => r matches Some(s) && s@ == crate::source::utf16_decode_lossy(u),
            None => r is None,
        },
{
    if start < -1 || start >= crate::source::len(lx) {
        return None;
    }
    let quote = crate::source::charCodeAt(lx, start);
    match readString(lx, start + 1, quote) {
        Ok(s) => Some(s),
        Err(()) => None,
    }
}

/// The state at the start of a run: facade, no open tokens, no last token.
pub fn reset(lx: &mut Lexer)
    requires
        old(lx).wf(),
    ensures
        *final(lx) == (Lexer {
            facade: true,
            open_token_depth: 0,
            last_token_pos: -1i32,
            last_slash_was_division: false,
            next_brace_is_class: false,
            jsx_tolerant_eof: false,
            ..*old(lx)
        }),
        final(lx).wf(),
        final(lx).facade,
        final(lx).open_token_depth == 0,
        final(lx).last_token_pos == -1,
        !final(lx).last_slash_was_division,
        !final(lx).next_brace_is_class,
        !final(lx).jsx_tolerant_eof,
        final(lx).source == old(lx).source,
        final(lx).pos == old(lx).pos,
        final(lx).imports == old(lx).imports,
        final(lx).exports == old(lx).exports,
        final(lx).open_token_stack == old(lx).open_token_stack,
{
    lx.facade = true;
    lx.open_token_depth = 0;
    lx.last_token_pos = -1;
    lx.last_slash_was_division = false;
    lx.next_brace_is_class = false;
    lx.jsx_tolerant_eof = false;
}

/// Whether the module so far uses module syntax only.
#[allow(non_snake_case)]
pub fn getFacade(lx: &Lexer) -> (r: bool)
    ensures
        r == lx.facade,
{
    lx.facade
}

} // verus!
