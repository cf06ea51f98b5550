use vstd::prelude::*;
use crate::state::{Lexer, ExportState, ParseError, max, unit_at, witnessed, POS_SLACK};
use crate::comment::{commentWhitespace, comment_ws, skipped_blank};
use crate::helper::{isBrOrWs, isBrOrWsOrPunctuatorNotDot, isPunctuator, isQuote, isWsNotBr, spec_is_boundary, spec_is_br_or_ws, spec_is_punctuator, spec_is_quote, spec_is_ws_not_br, syntaxError};
use crate::import::{decodeAttr, import_string_read, readImportString, spec_decode_attr};
use crate::helper::Export;
use crate::lexer::{readToWsOrPunctuator, stringIteral, string_scan, word_scan};
use crate::parse::skipExpression;
use crate::position::{next, prev, setPos, step};
use crate::source::{charCodeAt, end, spec_starts_with, starts_with, utf16_encode};

verus! {

/// Forgets all exports.
pub fn reset(lx: &mut Lexer)
    ensures
        *final(lx) == (Lexer { exports: final(lx).exports, export_statement_start: -1i32, ..*old(lx) }),
        final(lx).exports@.len() == 0,
        final(lx).export_statement_start == -1,
        final(lx).source == old(lx).source,
        final(lx).pos == old(lx).pos,
        final(lx).imports == old(lx).imports,
        final(lx).open_token_depth == old(lx).open_token_depth,
        final(lx).open_token_stack == old(lx).open_token_stack,
        final(lx).last_token_pos == old(lx).last_token_pos,
{
    lx.exports = Vec::new();
    lx.export_statement_start = -1;
}

/// Records an export of the current statement.
#[allow(non_snake_case)]
pub fn addExport(lx: &mut Lexer, start: i32, end: i32, local_start: i32, local_end: i32)
    ensures
        final(lx).exports@ == old(lx).exports@.push(
            ExportState { start, end, local_start, local_end, statement_start: old(lx).export_statement_start },
        ),
        *final(lx) == (Lexer { exports: final(lx).exports, ..*old(lx) }),
        crate::state::all_exports_wf(old(lx).exports@)
            && ((local_start == -1 && local_end == -1) || (0 <= local_start && 0 <= local_end))
            ==> crate::state::all_exports_wf(final(lx).exports@),
{
    proof {
        if crate::state::all_exports_wf(lx.exports@)
            && ((local_start == -1 && local_end == -1) || (0 <= local_start && 0 <= local_end)) {
            crate::state::lemma_exports_wf_push(lx.exports@,
                ExportState { start, end, local_start, local_end, statement_start: lx.export_statement_start });
        }
    }
    lx.exports.push(
        ExportState { start, end, local_start, local_end, statement_start: lx.export_statement_start },
    );
}

/// The number of exports found.
#[allow(non_snake_case)]
pub fn exportsLen(lx: &Lexer) -> (r: usize)
    ensures
        r == lx.exports@.len(),
{
    lx.exports.len()
}

/// Replaces the export at `index` by `e`.
#[allow(non_snake_case)]
pub fn updateExport(lx: &mut Lexer, index: usize, e: ExportState)
    requires
        index < old(lx).exports@.len(),
    ensures
        final(lx).exports@ == old(lx).exports@.update(index as int, e),
        *final(lx) == (Lexer { exports: final(lx).exports, ..*old(lx) }),
        crate::state::all_exports_wf(old(lx).exports@) && crate::state::export_wf(e)
            ==> crate::state::all_exports_wf(final(lx).exports@),
{
    proof {
        if crate::state::all_exports_wf(lx.exports@) && crate::state::export_wf(e) {
            crate::state::lemma_exports_wf_update(lx.exports@, index as int, e);
        }
    }
    lx.exports.set(index, e);
}

/// Whether `pos` lies within the name of the last export.
#[allow(non_snake_case)]
pub fn lastExportCovers(lx: &Lexer, pos: i32) -> (r: bool)
    ensures
        r == (lx.exports@.len() > 0 && lx.exports@.last().start <= pos <= lx.exports@.last().end),
{
    if lx.exports.len() == 0 {
        return false;
    }
    let e = lx.exports[lx.exports.len() - 1];
    pos >= e.start && pos <= e.end
}

/// The export record `(start, end, local start, local end)` `t` of the
/// statement that starts at `ss`.
pub open spec fn export_record(t: (int, int, int, int), ss: i32) -> ExportState {
    ExportState { start: t.0 as i32, end: t.1 as i32, local_start: t.2 as i32, local_end: t.3 as i32, statement_start: ss }
}

/// `n` is `o` with only the cursor and the exports changed.
pub open spec fn only_pos_exports(n: Lexer, o: Lexer) -> bool {
    n == Lexer { pos: n.pos, exports: n.exports, ..o }
}

/// Reading an optional `as name` after the name `[s, e)` (empty for `*`) with
/// the cursor at `p`: `(ok, cursor, unit, export)`. After `as` the exported
/// name is a word or a quoted string (unterminated: not ok, the cursor where
/// the scan stopped); the export recorded, if any, has the first name as its
/// local name when that name is not empty. An `as` followed by nothing
/// records nothing.
pub open spec fn export_as(src: Seq<u16>, p: int, s: int, e: int) -> (bool, int, int, Option<(int, int, int, int)>) {
    let ls = if s != e { s } else { -1 };
    let le = if s != e { e } else { -1 };
    if unit_at(src, p) == 97 {
        let (a, c) = comment_ws(src, p + 2, true);
        let sq = string_scan(src, c, a);
        if spec_is_quote(c) && !sq.0 {
            (false, sq.1, 0, None)
        } else {
            let e2 = if spec_is_quote(c) { sq.1 + 1 } else { word_scan(src, a, c).0 };
            let (f, c2) = comment_ws(src, e2, true);
            (true, f, c2, if f != a { Some((a, e2, ls, le)) } else { None })
        }
    } else {
        (true, p, unit_at(src, p), if p != s { Some((s, e, ls, le)) } else { None })
    }
}

pub proof fn lemma_export_as(src: Seq<u16>, p: int, s: int, e: int)
    requires
        -1 <= p,
    ensures
        p <= export_as(src, p, s, e).1 <= max(p, src.len() as int + 4),
        export_as(src, p, s, e).0 ==> 0 <= export_as(src, p, s, e).2 < 0x10000,
        export_as(src, p, s, e).0 && export_as(src, p, s, e).2 != unit_at(src, export_as(src, p, s, e).1)
            ==> export_as(src, p, s, e).1 >= src.len() && (export_as(src, p, s, e).2 == 47
            || skipped_blank(export_as(src, p, s, e).2, true)),
{
    if unit_at(src, p) == 97 {
        crate::comment::lemma_comment_ws(src, p + 2, true);
        let (a, c) = comment_ws(src, p + 2, true);
        crate::lexer::lemma_string_scan(src, c, a);
        crate::lexer::lemma_word_scan(src, a, c);
        let sq = string_scan(src, c, a);
        let e2 = if spec_is_quote(c) { sq.1 + 1 } else { word_scan(src, a, c).0 };
        crate::comment::lemma_comment_ws(src, e2, true);
    }
    assert(0 <= unit_at(src, p) < 0x10000);
}

/// An export list entry `x as y` exports `x` under the name `y`: the
/// exported name starts on the first significant unit after `as` and, for a
/// word, is exactly that word (for a string, runs to just after its closing
/// quote), while the local name stays `x`. Without `as` the name `x` is
/// exported under itself. A `*` (empty local name) has no local name.
pub proof fn law_export_entry_names(src: Seq<u16>, p: int, s: int, e: int)
    requires
        -1 <= p,
        0 <= s <= e,
    ensures
        ({
            let (ok, q, c, added) = export_as(src, p, s, e);
            let (a, ca) = comment_ws(src, p + 2, true);
            &&& added matches Some(t) ==> {
                &&& (t.2 == -1 && t.3 == -1) || (t.2 == s && t.3 == e)
                &&& (t.2 == -1 <==> s == e)
            }
            &&& unit_at(src, p) != 97 && p != s ==> added == Some((s, e, t_local(s, e).0, t_local(s, e).1))
            &&& unit_at(src, p) == 97 ==> (added matches Some(t) ==> t.0 == a)
            &&& unit_at(src, p) == 97 && (65 <= ca <= 90 || 97 <= ca <= 122 || ca == 95 || ca == 36) ==> {
                &&& added is Some
                &&& added matches Some(t) ==> {
                    &&& a < t.1
                    &&& forall|k: int| a <= k < t.1 ==> !spec_is_br_or_ws(#[trigger] unit_at(src, k))
                        && !spec_is_punctuator(unit_at(src, k)) && unit_at(src, k) != 0
                    &&& (t.1 >= src.len() || unit_at(src, t.1) == 0 || spec_is_br_or_ws(unit_at(src, t.1))
                        || spec_is_punctuator(unit_at(src, t.1)))
                }
            }
        }),
{
    crate::comment::lemma_comment_ws(src, p + 2, true);
    let (a, ca) = comment_ws(src, p + 2, true);
    if unit_at(src, p) == 97 && (65 <= ca <= 90 || 97 <= ca <= 122 || ca == 95 || ca == 36) {
        assert(unit_at(src, a) == ca);
        crate::lexer::lemma_word_scan_span(src, a, ca);
        let w = word_scan(src, a, ca).0;
        crate::comment::lemma_comment_ws(src, w, true);
    }
}

/// The local name span of an export entry whose first name is `[s, e)`:
/// itself, or none (-1, -1) when it is empty.
pub open spec fn t_local(s: int, e: int) -> (int, int) {
    if s != e { (s, e) } else { (-1, -1) }
}

/// How `readExportAs` takes the lexer from `o` to `n` (see `export_as`).
#[verifier::opaque]
pub open spec fn reads_export_as(o: Lexer, n: Lexer, s: int, e: int, r: Result<i32, ParseError>) -> bool {
    let (ok, q, c, added) = export_as(o.source@, o.pos as int, s, e);
    &&& only_pos_exports(n, o)
    &&& n.pos == q
    &&& if ok { r == Ok::<i32, ParseError>(c as i32) } else { r == Err::<i32, ParseError>(ParseError { pos: q as i32 }) }
    &&& n.exports@ == match added {
        Some(t) => o.exports@.push(export_record(t, o.export_statement_start)),
        None => o.exports@,
    }
}

/// After the name `[startPos, endPos)` (empty for `*`), reads an optional
/// `as name` and records the export (see `export_as`). Returns the unit the
/// cursor stops on.
#[allow(non_snake_case)]
pub fn readExportAs(lx: &mut Lexer, startPos: i32, endPos: i32) -> (r: Result<i32, ParseError>)
    requires
        old(lx).wf(),
        old(lx).records_wf(),
        -1 <= old(lx).pos <= old(lx).len() + 8,
        startPos == endPos || (0 <= startPos && 0 <= endPos),
    ensures
        reads_export_as(*old(lx), *final(lx), startPos as int, endPos as int, r),
        final(lx).lex_step(*old(lx)),
        final(lx).imports == old(lx).imports,
        final(lx).pos <= max(old(lx).pos as int, old(lx).len() + 4),
        r matches Ok(c) ==> (c != final(lx).at(final(lx).pos as int) ==> final(lx).pos >= final(lx).len()
            && (c == 47 || skipped_blank(c as int, true))),
{
    let ghost old_start = startPos;
    let ghost old_end = endPos;
    let mut startPos = startPos;
    let mut endPos = endPos;
    let hasLocal = startPos != endPos;
    let localStartPos = if hasLocal { startPos } else { -1 };
    let localEndPos = if hasLocal { endPos } else { -1 };
    let ghost src = lx.source@;
    let ghost p = lx.pos as int;
    proof {
        reveal(reads_export_as);
        lemma_export_as(src, p, startPos as int, endPos as int);
    }
    let mut ch = charCodeAt(lx, lx.pos);
    if ch == 97 {
        proof {
            crate::comment::lemma_comment_ws(src, p + 2, true);
        }
        step(lx, 2);
        ch = commentWhitespace(lx, true);
        startPos = lx.pos;
        proof {
            crate::lexer::lemma_string_scan(src, ch as int, lx.pos as int);
            crate::lexer::lemma_word_scan(src, lx.pos as int, ch as int);
        }
        if !isQuote(ch) {
            readToWsOrPunctuator(lx, ch);
        } else {
            let scanned = stringIteral(lx, ch);
            if let Err(err) = scanned {
                return Err(err);
            }
            next(lx);
        }
        endPos = lx.pos;
        proof {
            crate::comment::lemma_comment_ws(src, lx.pos as int, true);
        }
        ch = commentWhitespace(lx, true);
    }
    if lx.pos != startPos {
        addExport(lx, startPos, endPos, localStartPos, localEndPos);
    }
    proof {
        assert(export_as(src, p, old_start as int, old_end as int).1 == lx.pos);
    }
    Ok(ch)
}

/// The export records of the entries `t` of the statement that starts at `ss`.
pub open spec fn export_records(ts: Seq<(int, int, int, int)>, ss: i32) -> Seq<ExportState> {
    ts.map_values(|t: (int, int, int, int)| export_record(t, ss))
}

/// Reading the entries of `export { a, b as c, 'd' as e }` with the cursor at
/// `x` on the unit `ch`: `(entries, kind, cursor)`, the kind being 0 for an
/// error at the cursor (an unterminated string, an entry that does not move
/// the cursor, or the end of the source) and 1 when the cursor reached the `}`.
pub open spec fn names_list(src: Seq<u16>, x: int, ch: int) -> (Seq<(int, int, int, int)>, int, int)
    decreases src.len() + 4 - x,
{
    let sq = string_scan(src, ch, x);
    if x < -1 {
        (seq![], 0, x)
    } else if spec_is_quote(ch) && !sq.0 {
        (seq![], 0, sq.1)
    } else {
        let b = if spec_is_quote(ch) { sq.1 + 1 } else { word_scan(src, x, ch).0 };
        let y = comment_ws(src, b, true).0;
        let (ok, q, c, added) = export_as(src, y, x, b);
        let here = match added {
            Some(t) => seq![t],
            None => seq![],
        };
        let (q2, c2) = if c == 44 { comment_ws(src, q + 1, true) } else { (q, c) };
        if !ok {
            (here, 0, q)
        } else if c2 == 125 {
            (here, 1, q2)
        } else if q2 == x || q2 > src.len() - 1 {
            (here, 0, q2)
        } else {
            proof {
                crate::lexer::lemma_string_scan(src, ch, x);
                crate::lexer::lemma_word_scan(src, x, ch);
                crate::comment::lemma_comment_ws(src, b, true);
                lemma_export_as(src, y, x, b);
                crate::comment::lemma_comment_ws(src, q + 1, true);
            }
            let rest = names_list(src, q2, c2);
            (here + rest.0, rest.1, rest.2)
        }
    }
}

proof fn lemma_names_list(src: Seq<u16>, x: int, ch: int)
    requires
        x >= -1,
    ensures
        names_list(src, x, ch).2 >= x,
    decreases src.len() + 4 - x,
{
    let sq = string_scan(src, ch, x);
    crate::lexer::lemma_string_scan(src, ch, x);
    crate::lexer::lemma_word_scan(src, x, ch);
    if !(spec_is_quote(ch) && !sq.0) {
        let b = if spec_is_quote(ch) { sq.1 + 1 } else { word_scan(src, x, ch).0 };
        crate::comment::lemma_comment_ws(src, b, true);
        let y = comment_ws(src, b, true).0;
        lemma_export_as(src, y, x, b);
        let (ok, q, c, added) = export_as(src, y, x, b);
        crate::comment::lemma_comment_ws(src, q + 1, true);
        let (q2, c2) = if c == 44 { comment_ws(src, q + 1, true) } else { (q, c) };
        if ok && c2 != 125 && !(q2 == x || q2 > src.len() - 1) {
            lemma_names_list(src, q2, c2);
        }
    }
}

/// How reading `export { ... }` takes the lexer from `o` (cursor on the `{`)
/// to `n`: the entries of `names_list` are recorded; after the `}` the cursor
/// skips blanks and comments and the unit there is returned.
#[verifier::opaque]
pub open spec fn reads_export_names(o: Lexer, n: Lexer, r: Result<i32, ParseError>) -> bool {
    let src = o.source@;
    let (x, ch) = comment_ws(src, o.pos + 1, true);
    let (es, kind, q) = names_list(src, x, ch);
    let (z, cz) = comment_ws(src, q + 1, true);
    &&& only_pos_exports(n, o)
    &&& n.exports@ == o.exports@ + export_records(es, o.export_statement_start)
    &&& if kind == 0 {
        &&& n.pos == q
        &&& r == Err::<i32, ParseError>(ParseError { pos: q as i32 })
    } else {
        &&& n.pos == z
        &&& r == Ok::<i32, ParseError>(cz as i32)
    }
}

/// The `{ a, b as c, 'd' as e }` list of an export, the cursor on the `{`
/// (see `reads_export_names`). Returns the unit after the `}`.
#[allow(non_snake_case)]
#[verifier::rlimit(60)]
fn readExportNames(lx: &mut Lexer) -> (r: Result<i32, ParseError>)
    requires
        old(lx).wf(),
        old(lx).records_wf(),
        0 <= old(lx).pos < old(lx).len(),
    ensures
        reads_export_names(*old(lx), *final(lx), r),
        final(lx).lex_step(*old(lx)),
        final(lx).imports == old(lx).imports,
        final(lx).pos <= old(lx).len() + 8,
        r matches Ok(c) ==> (c != final(lx).at(final(lx).pos as int) ==> final(lx).pos >= final(lx).len()
            && (c == 47 || skipped_blank(c as int, true))),
{
    let ghost src = lx.source@;
    proof {
        reveal(reads_export_as);
        reveal(reads_export_names);
        crate::comment::lemma_comment_ws(src, old(lx).pos + 1, true);
    }
    next(lx);
    let mut ch = commentWhitespace(lx, true);
    let end = end(lx);
    let ghost x0 = lx.pos as int;
    let ghost c_init = ch as int;
    let ghost total = names_list(src, x0, ch as int);
    let ghost mut acc: Seq<(int, int, int, int)> = seq![];
    proof {
        assert(total.0 =~= acc + total.0);
    }
    loop
        invariant_except_break
            total == (acc + names_list(src, lx.pos as int, ch as int).0, names_list(src, lx.pos as int, ch as int).1,
                names_list(src, lx.pos as int, ch as int).2),
        invariant
            lx.lex_step(*old(lx)),
            only_pos_exports(*lx, *old(lx)),
            lx.exports@ == old(lx).exports@ + export_records(acc, old(lx).export_statement_start),
            lx.imports == old(lx).imports,
            old(lx).pos < lx.pos <= src.len() + 2,
            end == src.len() - 1,
            src == old(lx).source@,
            (x0, c_init) == comment_ws(src, old(lx).pos + 1, true),
            total == names_list(src, x0, c_init),
            ch != lx.at(lx.pos as int) ==> lx.pos >= src.len() && (ch == 47 || skipped_blank(ch as int, true)),
            0 <= ch < 0x10000,
            old(lx).wf(),
            old(lx).records_wf(),
        ensures
            total == (acc, 1int, lx.pos as int),
            lx.pos <= end,
        decreases 2 * src.len() + POS_SLACK - lx.pos,
    {
        let startPos = lx.pos;
        let ghost x = lx.pos as int;
        let ghost c0 = ch as int;
        proof {
            reveal(reads_export_as);
            reveal(reads_export_names);
            crate::lexer::lemma_string_scan(src, c0, x);
            crate::lexer::lemma_word_scan(src, x, c0);
        }
        if !isQuote(ch) {
            readToWsOrPunctuator(lx, ch);
        } else {
            let scanned = stringIteral(lx, ch);
            if let Err(err) = scanned {
                proof {
                    assert(names_list(src, x, c0) == (Seq::<(int, int, int, int)>::empty(), 0int, lx.pos as int));
                    assert(total.0 =~= acc);
                    assert(lx.exports@ == old(lx).exports@ + export_records(total.0, old(lx).export_statement_start));
                }
                return Err(err);
            }
            next(lx);
        }
        let endPos = lx.pos;
        proof {
            crate::comment::lemma_comment_ws(src, endPos as int, true);
        }
        commentWhitespace(lx, true);
        let ghost y = lx.pos as int;
        let ghost ex = lx.exports@;
        proof {
            lemma_export_as(src, y, x, endPos as int);
        }
        let res = readExportAs(lx, startPos, endPos);
        let ghost here: Seq<(int, int, int, int)> = match export_as(src, y, x, endPos as int).3 {
            Some(t) => seq![t],
            None => seq![],
        };
        proof {
            if let Some(t) = export_as(src, y, x, endPos as int).3 {
                assert(export_records(here, old(lx).export_statement_start) =~= seq![export_record(t, old(lx).export_statement_start)]);
            } else {
                assert(export_records(here, old(lx).export_statement_start) =~= Seq::<ExportState>::empty());
            }
            assert(export_records(acc.add(here), old(lx).export_statement_start) =~= export_records(acc, old(lx).export_statement_start) + export_records(here, old(lx).export_statement_start));
            assert(lx.exports@ =~= old(lx).exports@ + export_records(acc + here, old(lx).export_statement_start));
        }
        match res {
            Err(err) => {
                proof {
                    assert(!export_as(src, y, x, endPos as int).0);
                    assert(names_list(src, x, c0) == (here, 0int, lx.pos as int));
                    assert(total.0 =~= acc + here);
                    acc = acc + here;
                }
                return Err(err);
            },
            Ok(c) => {
                ch = c;
            },
        }
        proof {
            crate::comment::lemma_comment_ws(src, lx.pos + 1, true);
        }
        if ch == 44 {
            next(lx);
            ch = commentWhitespace(lx, true);
        }
        if ch == 125 {
            proof {
                assert(total.0 =~= acc + here);
                acc = acc + here;
            }
            break;
        }
        if lx.pos == startPos {
            proof {
                assert(total.0 =~= acc + here);
                acc = acc + here;
            }
            return Err(syntaxError(lx));
        }
        if lx.pos > end {
            proof {
                assert(total.0 =~= acc + here);
                acc = acc + here;
            }
            return Err(syntaxError(lx));
        }
        proof {
            assert(acc + (here + names_list(src, lx.pos as int, ch as int).0) =~= (acc + here) + names_list(src, lx.pos as int, ch as int).0);
            acc = acc + here;
        }
    }
    proof {
        crate::comment::lemma_comment_ws(src, lx.pos + 1, true);
    }
    next(lx);
    ch = commentWhitespace(lx, true);
    Ok(ch)
}

/// Reading `function*? name?` from `p` (the `f`): `(cursor, named, unit)`.
/// When `p` starts the keyword `function` (followed by a blank, `*` or `(`),
/// the cursor goes past it and an optional `*`; `named` tells that no `(`
/// comes next. Otherwise nothing moves.
pub open spec fn default_function_tail(src: Seq<u16>, p: int) -> (int, bool, int) {
    let after = unit_at(src, p + 8);
    if spec_starts_with(src, utf16_encode("unction"@), p + 1) && (spec_is_br_or_ws(after) || after == 42 || after == 40) {
        let (a, c) = comment_ws(src, p + 8, true);
        let (b, c2) = if c == 42 { comment_ws(src, a + 1, true) } else { (a, c) };
        (b, c2 != 40, c2)
    } else {
        (p, false, unit_at(src, p))
    }
}

/// Reading `export default ...` from the `d` at `p`: `(cursor, export)`. The
/// export is `default` (the keyword's span); its local name is the name of a
/// named `function`, `async function` or `class` that follows, if any (then
/// the cursor stops on the name's last unit), else none (the cursor on the
/// keyword's last unit). After `function` the word scan starts from the
/// keyword's own first unit, so the name's first unit counts whatever it is.
pub open spec fn default_export(src: Seq<u16>, p: int) -> (int, (int, int, int, int)) {
    let (a, ch) = comment_ws(src, p + 7, true);
    let (q, named, c) = if ch == 97 {
        if spec_starts_with(src, utf16_encode("sync"@), a + 1) && spec_is_ws_not_br(unit_at(src, a + 5)) {
            let (q2, named2, _) = default_function_tail(src, comment_ws(src, a + 5, false).0);
            (q2, named2, ch)
        } else {
            (a, false, ch)
        }
    } else if ch == 102 {
        let (q2, named2, _) = default_function_tail(src, a);
        (q2, named2, ch)
    } else if ch == 99 && spec_starts_with(src, utf16_encode("lass"@), a + 1) && (spec_is_br_or_ws(
        unit_at(src, a + 5),
    ) || unit_at(src, a + 5) == 123) {
        let (b, c2) = comment_ws(src, a + 5, true);
        (b, c2 != 123, c2)
    } else {
        (a, false, ch)
    };
    let w = word_scan(src, q, c).0;
    if named && w > q {
        (w - 1, (p, p + 7, q, w))
    } else {
        (p + 6, (p, p + 7, -1, -1))
    }
}

/// `export default` always exports the name `default`, spelled by the
/// keyword itself (`p` to `p + 7`); a local name, when there is one, is a
/// nonempty span after the keyword, and otherwise both of its ends are -1.
pub proof fn law_default_export_name(src: Seq<u16>, p: int)
    requires
        0 <= p,
    ensures
        ({
            let t = default_export(src, p).1;
            &&& t.0 == p && t.1 == p + 7
            &&& (t.2 == -1) == (t.3 == -1)
            &&& t.2 != -1 ==> p + 7 < t.2 < t.3
        }),
{
    let (a, ch) = comment_ws(src, p + 7, true);
    crate::comment::lemma_comment_ws(src, p + 7, true);
    crate::comment::lemma_comment_ws(src, a + 5, false);
    crate::comment::lemma_comment_ws(src, a + 5, true);
    let b = comment_ws(src, a + 5, false).0;
    crate::comment::lemma_comment_ws(src, b + 8, true);
    crate::comment::lemma_comment_ws(src, a + 8, true);
    let c0 = comment_ws(src, b + 8, true).0;
    let c1 = comment_ws(src, a + 8, true).0;
    crate::comment::lemma_comment_ws(src, c0 + 1, true);
    crate::comment::lemma_comment_ws(src, c1 + 1, true);
}

/// `export default class`: after `class` and a blank, a name (a unit that
/// starts an identifier: a letter, `_` or `$`) becomes the default export's
/// local name, exactly: it starts on that unit and runs over the units up to
/// the first blank, punctuator or 0 unit (or the end of the source); a `{`
/// there leaves the export without a local name. The exported name is the
/// keyword `default` in either case.
pub proof fn law_default_class_name(src: Seq<u16>, p: int)
    requires
        0 <= p,
        ({
            let (a, ch) = comment_ws(src, p + 7, true);
            &&& ch == 99
            &&& spec_starts_with(src, utf16_encode("lass"@), a + 1)
            &&& spec_is_br_or_ws(unit_at(src, a + 5))
        }),
    ensures
        ({
            let (a, ch) = comment_ws(src, p + 7, true);
            let (b, c2) = comment_ws(src, a + 5, true);
            let t = default_export(src, p).1;
            &&& t.0 == p && t.1 == p + 7
            &&& c2 == 123 ==> t.2 == -1 && t.3 == -1
            &&& (65 <= c2 <= 90 || 97 <= c2 <= 122 || c2 == 95 || c2 == 36) ==> {
                &&& t.2 == b
                &&& b < t.3
                &&& forall|k: int| b <= k < t.3 ==> !spec_is_br_or_ws(#[trigger] unit_at(src, k))
                    && !spec_is_punctuator(unit_at(src, k)) && unit_at(src, k) != 0
                &&& (t.3 >= src.len() || unit_at(src, t.3) == 0 || spec_is_br_or_ws(unit_at(src, t.3))
                    || spec_is_punctuator(unit_at(src, t.3)))
            }
        }),
{
    let (a, ch) = comment_ws(src, p + 7, true);
    crate::comment::lemma_comment_ws(src, p + 7, true);
    crate::comment::lemma_comment_ws(src, a + 5, true);
    let (b, c2) = comment_ws(src, a + 5, true);
    if 65 <= c2 <= 90 || 97 <= c2 <= 122 || c2 == 95 || c2 == 36 {
        assert(unit_at(src, b) == c2);
        crate::lexer::lemma_word_scan_span(src, b, c2);
    }
}

/// `export default ...`, the cursor on the `d`: records the export that
/// `default_export` gives and moves the cursor as it says.
#[allow(non_snake_case)]
#[verifier::spinoff_prover]
#[verifier::rlimit(60)]
fn exportDefault(lx: &mut Lexer) -> (r: Result<(), ParseError>)
    requires
        old(lx).wf(),
        old(lx).records_wf(),
        0 <= old(lx).pos < old(lx).len(),
    ensures
        ({
            let (q, t) = default_export(old(lx).source@, old(lx).pos as int);
            &&& r is Ok
            &&& only_pos_exports(*final(lx), *old(lx))
            &&& final(lx).pos == q
            &&& final(lx).exports@ == old(lx).exports@.push(export_record(t, old(lx).export_statement_start))
        }),
        final(lx).lex_step(*old(lx)),
        final(lx).imports == old(lx).imports,
        final(lx).pos <= old(lx).len() + 16,
{
    let ghost src = lx.source@;
    let startPos = lx.pos;
    proof {
        crate::comment::lemma_comment_ws(src, startPos + 7, true);
    }
    step(lx, 7);
    let mut ch = commentWhitespace(lx, true);
    let ghost a = lx.pos as int;
    let mut localName = false;
    if ch == 97 {
        // export default async? function*? name? (){}
        if starts_with(lx, "sync", lx.pos + 1) && isWsNotBr(charCodeAt(lx, lx.pos + 5)) {
            proof {
                crate::comment::lemma_comment_ws(src, a + 5, false);
            }
            step(lx, 5);
            commentWhitespace(lx, false);
            // the word scan keeps the unit `a`: the name's first unit is taken as it is
            let (l, _) = exportDefaultFunctionTail(lx);
            localName = l;
        }
    } else if ch == 102 {
        let (l, _) = exportDefaultFunctionTail(lx);
        localName = l;
    } else if ch == 99 {
        // export default class name? {}
        if starts_with(lx, "lass", lx.pos + 1) {
            let after = charCodeAt(lx, lx.pos + 5);
            if isBrOrWs(after) || after == 123 {
                proof {
                    crate::comment::lemma_comment_ws(src, a + 5, true);
                }
                step(lx, 5);
                ch = commentWhitespace(lx, true);
                if ch != 123 {
                    localName = true;
                }
            }
        }
    }
    let ghost q = lx.pos as int;
    proof {
        crate::lexer::lemma_word_scan(src, q, ch as int);
    }
    if localName {
        let localStartPos = lx.pos;
        readToWsOrPunctuator(lx, ch);
        if lx.pos > localStartPos {
            addExport(lx, startPos, startPos + 7, localStartPos, lx.pos);
            prev(lx);
            return Ok(());
        }
    }
    addExport(lx, startPos, startPos + 7, -1, -1);
    setPos(lx, startPos + 6);
    Ok(())
}

/// The `function*? name?` tail of an `export default` (see
/// `default_function_tail`); returns whether a local name follows (the cursor
/// on its first unit) and the unit the cursor is on.
#[allow(non_snake_case)]
fn exportDefaultFunctionTail(lx: &mut Lexer) -> (r: (bool, i32))
    requires
        old(lx).wf(),
        -1 <= old(lx).pos <= old(lx).len() + 8,
    ensures
        (final(lx).pos as int, r.0, r.1 as int) == default_function_tail(old(lx).source@, old(lx).pos as int),
        *final(lx) == old(lx).with_pos(final(lx).pos as int),
        old(lx).pos <= final(lx).pos <= max(old(lx).pos + 8, old(lx).len() + 2),
        final(lx).pos == old(lx).pos ==> r.1 == old(lx).at(old(lx).pos as int),
        r.1 != final(lx).at(final(lx).pos as int) ==> final(lx).pos >= final(lx).len()
            && (r.1 == 47 || skipped_blank(r.1 as int, true)),
{
    let ghost src = lx.source@;
    let ch0 = charCodeAt(lx, lx.pos);
    if starts_with(lx, "unction", lx.pos + 1) {
        let after = charCodeAt(lx, lx.pos + 8);
        if isBrOrWs(after) || after == 42 || after == 40 {
            proof {
                crate::comment::lemma_comment_ws(src, lx.pos + 8, true);
            }
            step(lx, 8);
            let mut ch = commentWhitespace(lx, true);
            if ch == 42 {
                proof {
                    crate::comment::lemma_comment_ws(src, lx.pos + 1, true);
                }
                next(lx);
                ch = commentWhitespace(lx, true);
            }
            if ch == 40 {
                return (false, ch);
            }
            return (true, ch);
        }
    }
    (false, ch0)
}


/// The exports `es` with the local names of those from index `k` on removed
/// (the names of a reexport are not local).
pub open spec fn without_locals(es: Seq<ExportState>, k: int) -> Seq<ExportState> {
    Seq::new(
        es.len(),
        |i: int|
            if i < k {
                es[i]
            } else {
                ExportState { local_start: -1i32, local_end: -1i32, ..es[i] }
            },
    )
}

/// Reading an optional `from '...'` after an export list or `*`, with the
/// cursor at `q` on the unit `c`, for the statement that starts at `ss` and
/// whose exports start at index `k`: the exports go from `exps0` to `exps`,
/// the imports from `imps0` to `imps`, the cursor to `npos`, with result `r`.
/// With `from`, the specifier is read as `import_string_read` says and, when
/// that succeeds, the statement's exports lose their local names; without it
/// the cursor steps back one unit.
pub open spec fn export_from_read(
    src: Seq<u16>,
    q: int,
    c: int,
    ss: int,
    k: int,
    exps0: Seq<ExportState>,
    exps: Seq<ExportState>,
    imps0: Seq<crate::state::ImportState>,
    imps: Seq<crate::state::ImportState>,
    npos: int,
    r: Result<(), ParseError>,
) -> bool {
    let (g, cg) = comment_ws(src, q + 4, true);
    if c == 102 && spec_starts_with(src, utf16_encode("rom"@), q + 1) {
        &&& import_string_read(src, g, imps0, imps, npos, ss, cg, 0, r)
        &&& exps == (if r is Ok { without_locals(exps0, k) } else { exps0 })
    } else {
        &&& r is Ok
        &&& npos == q - 1
        &&& exps == exps0
        &&& imps == imps0
    }
}

/// After an export list or `*` (cursor on the unit `ch` that follows it):
/// reads an optional `from '...'` (see `export_from_read`).
#[allow(non_snake_case)]
#[verifier::rlimit(60)]
fn exportFrom(lx: &mut Lexer, ss: i32, first: usize, ch: i32) -> (r: Result<(), ParseError>)
    requires
        old(lx).wf(),
        old(lx).records_wf(),
        0 <= old(lx).pos <= old(lx).len() + 8,
        0 <= ss <= old(lx).pos,
        first <= old(lx).exports@.len(),
    ensures
        export_from_read(old(lx).source@, old(lx).pos as int, ch as int, ss as int, first as int,
            old(lx).exports@, final(lx).exports@, old(lx).imports@, final(lx).imports@, final(lx).pos as int, r),
        r matches Err(e) ==> e.pos == final(lx).pos,
        final(lx).wf(),
        final(lx).records_wf(),
        final(lx).source == old(lx).source,
        final(lx).keeps_imports_of(*old(lx)),
        forall|i: int| 0 <= i < first ==> #[trigger] final(lx).exports@[i] == old(lx).exports@[i],
        final(lx).exports@.len() == old(lx).exports@.len(),
        final(lx).export_statement_start == old(lx).export_statement_start,
        final(lx).same_flags(*old(lx)),
        final(lx).open_token_depth == old(lx).open_token_depth,
        final(lx).open_token_stack == old(lx).open_token_stack,
        final(lx).dynamic_import_stack == old(lx).dynamic_import_stack,
        old(lx).pos - 1 <= final(lx).pos <= old(lx).len() + 16,
        r is Ok ==> old(lx).pos - 1 <= final(lx).pos,
{
    let ghost src = lx.source@;
    if ch == 102 && starts_with(lx, "rom", lx.pos + 1) {
        proof {
            crate::comment::lemma_comment_ws(src, lx.pos + 4, true);
        }
        step(lx, 4);
        let c = commentWhitespace(lx, true);
        readImportString(lx, ss, c, 0)?;
        let ghost mid = *lx;
        let ghost base = lx.exports@;
        // there were no local names
        let mut index = first;
        while index < lx.exports.len()
            invariant
                lx.wf(),
                lx.records_wf(),
                lx.imports == mid.imports,
                lx.pos == mid.pos,
                *lx == (Lexer { exports: lx.exports, ..mid }),
                mid.exports@ == base,
                base == old(lx).exports@,
                first <= index <= base.len(),
                lx.exports@.len() == base.len(),
                forall|i: int| 0 <= i < index ==> #[trigger] lx.exports@[i] == without_locals(base, first as int)[i],
                forall|i: int| index <= i < base.len() ==> #[trigger] lx.exports@[i] == base[i],
            decreases lx.exports@.len() - index,
        {
            let e = lx.exports[index];
            updateExport(lx, index, ExportState { local_start: -1, local_end: -1, ..e });
            index = index + 1;
        }
        proof {
            assert(lx.exports@ =~= without_locals(base, first as int));
        }
    } else {
        prev(lx);
    }
    Ok(())
}

/// Reading `export { ... }` from the `{` at `a`: `(ok, cursor, unit, entries)`
/// (see `names_list`; not ok: an error at the cursor).
pub open spec fn export_list(src: Seq<u16>, a: int) -> (bool, int, int, Seq<(int, int, int, int)>) {
    let (x, ch) = comment_ws(src, a + 1, true);
    let (es, kind, q) = names_list(src, x, ch);
    let (z, cz) = comment_ws(src, q + 1, true);
    if kind == 0 {
        (false, q, 0, es)
    } else {
        (true, z, cz, es)
    }
}

/// Reading `export * (as name)?` from the `*` at `a`: `(ok, cursor, unit,
/// entries)` (see `export_as`, with an empty first name).
pub open spec fn export_star(src: Seq<u16>, a: int) -> (bool, int, int, Seq<(int, int, int, int)>) {
    let b = comment_ws(src, a + 1, true).0;
    let (ok, q0, c0, added) = export_as(src, b, b, b);
    let es = match added {
        Some(t) => seq![t],
        None => seq![],
    };
    if !ok {
        (false, q0, 0, es)
    } else {
        (true, comment_ws(src, q0, true).0, comment_ws(src, q0, true).1, es)
    }
}

/// Reading `export async? function*? name` from the unit `ch` (`a` or `f`) at
/// `a`: the cursor (on the name's last unit) and the export of the name.
pub open spec fn function_export(src: Seq<u16>, a: int, ch: int) -> (int, (int, int, int, int)) {
    let b = if ch == 97 { comment_ws(src, a + 5, false).0 } else { a };
    let (c0, c) = comment_ws(src, b + 8, true);
    let (d, cd) = if c == 42 { comment_ws(src, c0 + 1, true) } else { (c0, c) };
    let w = word_scan(src, d, cd).0;
    (w - 1, (d, w, d, w))
}

/// Reading `export class name` from the `c` at `a`: the cursor (on the name's
/// last unit) and the export of the name.
pub open spec fn class_export(src: Seq<u16>, a: int) -> (int, (int, int, int, int)) {
    let (b, c) = comment_ws(src, a + 5, true);
    let w = word_scan(src, b, c).0;
    (w - 1, (b, w, b, w))
}

/// `export function N`, `export function* N`, `export async function N` and
/// `export class N` export the declared name under itself: when the name
/// after the keyword (and `*`) starts with a letter, `_` or `$`, the exported
/// and the local name are both exactly its span, the units from its first up
/// to the first blank, punctuator or 0 unit (or the end of the source).
pub proof fn law_declaration_export_name(src: Seq<u16>, a: int, ch: int)
    requires
        0 <= a,
    ensures
        ({
            let t = if ch == 99 { class_export(src, a).1 } else { function_export(src, a, ch).1 };
            let b = if ch == 97 { comment_ws(src, a + 5, false).0 } else { a };
            let (c0, c) = comment_ws(src, b + 8, true);
            let (d, cd) = if ch == 99 {
                comment_ws(src, a + 5, true)
            } else if c == 42 {
                comment_ws(src, c0 + 1, true)
            } else {
                (c0, c)
            };
            (65 <= cd <= 90 || 97 <= cd <= 122 || cd == 95 || cd == 36) ==> {
                &&& t.0 == d && t.2 == d
                &&& t.1 == t.3
                &&& d < t.1
                &&& unit_at(src, d) == cd
                &&& forall|k: int| d <= k < t.1 ==> !spec_is_br_or_ws(#[trigger] unit_at(src, k))
                    && !spec_is_punctuator(unit_at(src, k)) && unit_at(src, k) != 0
                &&& (t.1 >= src.len() || unit_at(src, t.1) == 0 || spec_is_br_or_ws(unit_at(src, t.1))
                    || spec_is_punctuator(unit_at(src, t.1)))
            }
        }),
{
    let b = if ch == 97 { comment_ws(src, a + 5, false).0 } else { a };
    crate::comment::lemma_comment_ws(src, a + 5, false);
    crate::comment::lemma_comment_ws(src, a + 5, true);
    crate::comment::lemma_comment_ws(src, b + 8, true);
    let (c0, c) = comment_ws(src, b + 8, true);
    crate::comment::lemma_comment_ws(src, c0 + 1, true);
    let (d, cd) = if ch == 99 {
        comment_ws(src, a + 5, true)
    } else if c == 42 {
        comment_ws(src, c0 + 1, true)
    } else {
        (c0, c)
    };
    if 65 <= cd <= 90 || 97 <= cd <= 122 || cd == 95 || cd == 36 {
        assert(unit_at(src, d) == cd);
        crate::lexer::lemma_word_scan_span(src, d, cd);
    }
}

/// `export { ... }` or `export * (as name)?` with the cursor on the `{` or
/// `*` (the unit `ch`): records the names (see `export_list` and
/// `export_star`) and returns the unit after them.
#[allow(non_snake_case)]
#[verifier::rlimit(60)]
fn readExportClause(lx: &mut Lexer, ch: i32) -> (r: Result<i32, ParseError>)
    requires
        old(lx).wf(),
        old(lx).records_wf(),
        0 <= old(lx).pos < old(lx).len(),
        ch == 123 || ch == 42,
        ch == old(lx).at(old(lx).pos as int),
    ensures
        ({
            let (ok, q, c, es) = if ch == 123 {
                export_list(old(lx).source@, old(lx).pos as int)
            } else {
                export_star(old(lx).source@, old(lx).pos as int)
            };
            &&& only_pos_exports(*final(lx), *old(lx))
            &&& final(lx).pos == q
            &&& final(lx).exports@ == old(lx).exports@ + export_records(es, old(lx).export_statement_start)
            &&& if ok { r matches Ok(x) && x as int == c } else { r == Err::<i32, ParseError>(ParseError { pos: q as i32 }) }
        }),
        final(lx).lex_step(*old(lx)),
        final(lx).imports == old(lx).imports,
        final(lx).pos <= old(lx).len() + 8,
{
    let ghost src = lx.source@;
    let ghost a = lx.pos as int;
    proof {
        reveal(reads_export_as);
        reveal(reads_export_names);
    }
    if ch == 123 {
        proof {
            crate::comment::lemma_comment_ws(src, a + 1, true);
            let (x, c1) = comment_ws(src, a + 1, true);
            lemma_names_list(src, x, c1);
            crate::comment::lemma_comment_ws(src, names_list(src, x, c1).2 + 1, true);
        }
        return readExportNames(lx);
    }
    // export *
    // export * as X
    proof {
        crate::comment::lemma_comment_ws(src, a + 1, true);
    }
    next(lx);
    commentWhitespace(lx, true);
    let ghost b = lx.pos as int;
    proof {
        lemma_export_as(src, b, b, b);
    }
    readExportAs(lx, lx.pos, lx.pos)?;
    proof {
        crate::comment::lemma_comment_ws(src, lx.pos as int, true);
        let es = export_star(src, a).3;
        if let Some(t) = export_as(src, b, b, b).3 {
            assert(export_records(es, old(lx).export_statement_start) =~= seq![export_record(t, old(lx).export_statement_start)]);
        } else {
            assert(export_records(es, old(lx).export_statement_start) =~= Seq::<ExportState>::empty());
        }
        assert(lx.exports@ =~= old(lx).exports@ + export_records(es, old(lx).export_statement_start));
    }
    let c = commentWhitespace(lx, true);
    Ok(c)
}

/// How reading an `export` statement (cursor of `o` on its `e`) takes the
/// lexer to `n` with result `r`. `export` glued to a name is no statement.
/// Otherwise the statement start is recorded; a list or `*` (which keep the
/// facade) may be followed by `from` (`export_from_read`); `default`,
/// functions and classes clear the facade and record their export; a
/// `var`/`let`/`const` declaration, or a `c` that starts no `class` keyword,
/// is read as bindings (`export_bindings`; the last token they leave is not
/// kept); anything else clears the facade and records nothing.
pub open spec fn reads_export_statement(o: Lexer, n: Lexer, r: Result<(), ParseError>) -> bool
    decreases o.room(), 29int, 0int,
{
    let src = o.source@;
    let p = o.pos as int;
    let k = o.exports@.len() as int;
    let (a, ch) = comment_ws(src, p + 6, true);
    let decl = Lexer { pos: n.pos, exports: n.exports, facade: false, export_statement_start: p as i32, ..o };
    if a == p + 6 && !spec_is_punctuator(ch) {
        r is Ok && n == o.with_pos(a)
    } else if ch == 123 || ch == 42 {
        let (ok, q, c, es) = if ch == 123 { export_list(src, a) } else { export_star(src, a) };
        let base = o.exports@ + export_records(es, p as i32);
        &&& n.source == o.source
        &&& n.export_statement_start == p
        &&& n.same_flags(o)
        &&& n.open_token_depth == o.open_token_depth
        &&& n.open_token_stack == o.open_token_stack
        &&& n.dynamic_import_stack == o.dynamic_import_stack
        &&& if !ok {
            &&& r == Err::<(), ParseError>(ParseError { pos: q as i32 })
            &&& n.pos == q
            &&& n.exports@ == base
            &&& n.imports == o.imports
        } else {
            &&& export_from_read(src, q, c, p, k, base, n.exports@, o.imports@, n.imports@, n.pos as int, r)
            &&& r matches Err(e) ==> e.pos == n.pos
        }
    } else if ch == 100 {
        let (q, t) = default_export(src, a);
        &&& r is Ok
        &&& n == decl
        &&& n.pos == q
        &&& n.exports@ == o.exports@.push(export_record(t, p as i32))
    } else if ch == 97 || ch == 102 {
        let (q, t) = function_export(src, a, ch);
        &&& r is Ok
        &&& n == decl
        &&& n.pos == q
        &&& n.exports@ == o.exports@.push(export_record(t, p as i32))
    } else if ch == 99 && spec_starts_with(src, utf16_encode("lass"@), a + 1) && spec_is_boundary(unit_at(src, a + 5)) {
        let (q, t) = class_export(src, a);
        &&& r is Ok
        &&& n == decl
        &&& n.pos == q
        &&& n.exports@ == o.exports@.push(export_record(t, p as i32))
    } else if ch == 99 || ch == 118 || ch == 108 {
        let o2 = Lexer { pos: (if ch == 99 { a + 2 } else { a }) as i32, facade: false, export_statement_start: p as i32, ..o };
        &&& o.later(o2)
        &&& !n.facade
        &&& exists|l: i32|
            #![trigger witnessed(l)]
            #![trigger export_bindings(o2, Lexer { last_token_pos: l, ..n }, r)]
            export_bindings(o2, Lexer { last_token_pos: l, ..n }, r)
    } else {
        &&& r is Ok
        &&& n == decl
        &&& n.pos == a
        &&& n.exports == o.exports
    }
}

/// `export` at `p` starts a statement: it is not glued to a name after it.
pub open spec fn export_is_statement(src: Seq<u16>, p: int) -> bool {
    let (a, ch) = comment_ws(src, p + 6, true);
    !(a == p + 6 && !spec_is_punctuator(ch))
}

/// The statement after `export` at `p` declares bindings (`var`, `let`,
/// `const`, or a `c` that starts no `class` keyword).
pub open spec fn export_declares_bindings(src: Seq<u16>, p: int) -> bool {
    let (a, ch) = comment_ws(src, p + 6, true);
    &&& ch == 99 || ch == 118 || ch == 108
    &&& !(ch == 99 && spec_starts_with(src, utf16_encode("lass"@), a + 1) && spec_is_boundary(unit_at(src, a + 5)))
}

/// The statement after `export` at `p` is a list or `*` followed by `from`.
pub open spec fn export_reexports(src: Seq<u16>, p: int) -> bool {
    let (a, ch) = comment_ws(src, p + 6, true);
    let (ok, q, c, es) = if ch == 123 { export_list(src, a) } else { export_star(src, a) };
    &&& ch == 123 || ch == 42
    &&& c == 102 && spec_starts_with(src, utf16_encode("rom"@), q + 1)
}

/// What an export statement read without error at the cursor of `o` (into
/// `n`) keeps: a list or `*` keeps the facade, anything else clears it; the
/// new exports (of any statement but a binding declaration) carry the
/// statement start; a reexport (`from`) adds one static import of that
/// statement and leaves its exports without local names.
pub open spec fn export_statement_laws(o: Lexer, n: Lexer) -> bool {
    let (a, ch) = comment_ws(o.source@, o.pos + 6, true);
    &&& if ch == 123 || ch == 42 { n.facade == o.facade } else { !n.facade }
    &&& !export_declares_bindings(o.source@, o.pos as int) ==> {
        &&& o.exports@.len() <= n.exports@.len()
        &&& forall|i: int| o.exports@.len() <= i < n.exports@.len() ==> #[trigger] n.exports@[i].statement_start == o.pos
    }
    &&& export_reexports(o.source@, o.pos as int) ==> {
        &&& n.imports@.len() == o.imports@.len() + 1
        &&& n.imports@.drop_last() == o.imports@
        &&& n.imports@.last().statement_start == o.pos
        &&& n.imports@.last().dynamic == crate::import::STANDARD_IMPORT
        &&& forall|i: int| o.exports@.len() <= i < n.exports@.len() ==> #[trigger] n.exports@[i].local_start == -1 && n.exports@[i].local_end == -1
    }
}

/// An export statement read without error keeps `export_statement_laws`.
pub proof fn law_export_statement(o: Lexer, n: Lexer)
    requires
        reads_export_statement(o, n, Ok(())),
        export_is_statement(o.source@, o.pos as int),
    ensures
        export_statement_laws(o, n),
{
    let src = o.source@;
    let p = o.pos as int;
    let k = o.exports@.len() as int;
    let (a, ch) = comment_ws(src, p + 6, true);
    if ch == 123 || ch == 42 {
        let (ok, q, c, es) = if ch == 123 { export_list(src, a) } else { export_star(src, a) };
        let base = o.exports@ + export_records(es, p as i32);
        assert forall|i: int| k <= i < base.len() implies #[trigger] base[i].statement_start == p by {
            assert(base[i] == export_records(es, p as i32)[i - k]);
        }
    }
}

/// With the cursor on the `e` of `export`: reads the export statement and
/// records its exports (see `reads_export_statement`); when it succeeds, the
/// statement keeps `export_statement_laws`.
#[allow(non_snake_case)]
pub fn tryParseExportStatement(lx: &mut Lexer) -> (r: Result<(), ParseError>)
    requires
        old(lx).wf(),
        old(lx).records_wf(),
        0 <= old(lx).pos < old(lx).len(),
    ensures
        r matches Err(e) ==> e.pos == final(lx).pos,
        reads_export_statement(*old(lx), *final(lx), r),
        reads_export_statement(*old(lx), Lexer { last_token_pos: old(lx).last_token_pos, ..*final(lx) }, r),
        r is Ok && export_is_statement(old(lx).source@, old(lx).pos as int) ==> export_statement_laws(*old(lx), *final(lx)),
        final(lx).lex_step(*old(lx)),
        final(lx).pos <= 2 * old(lx).len() + 40 - old(lx).pos,
        old(lx).pos < final(lx).pos,
    decreases 2 * old(lx).len() + POS_SLACK - old(lx).pos, 5nat,
{
    let ghost o = *lx;
    let r = readExportStatement(lx);
    proof {
        if r is Ok && export_is_statement(o.source@, o.pos as int) {
            crate::parse::lemma_unit_ok(r);
            law_export_statement(o, *lx);
        }
    }
    r
}

/// Reads the export statement at the cursor, as `tryParseExportStatement`
/// says.
#[allow(non_snake_case)]
#[verifier::rlimit(100)]
#[verifier::spinoff_prover]
fn readExportStatement(lx: &mut Lexer) -> (r: Result<(), ParseError>)
    requires
        old(lx).wf(),
        old(lx).records_wf(),
        0 <= old(lx).pos < old(lx).len(),
    ensures
        r matches Err(e) ==> e.pos == final(lx).pos,
        reads_export_statement(*old(lx), *final(lx), r),
        reads_export_statement(*old(lx), Lexer { last_token_pos: old(lx).last_token_pos, ..*final(lx) }, r),
        final(lx).lex_step(*old(lx)),
        final(lx).pos <= 2 * old(lx).len() + 40 - old(lx).pos,
        old(lx).pos < final(lx).pos,
    decreases 2 * old(lx).len() + POS_SLACK - old(lx).pos, 4nat,
{
    let ghost src = lx.source@;
    let sStartPos = lx.pos;
    let prevExportCount = lx.exports.len();
    proof {
        crate::comment::lemma_comment_ws(src, sStartPos + 6, true);
    }
    step(lx, 6);
    let curPos = lx.pos;
    let mut ch = commentWhitespace(lx, true);
    if lx.pos == curPos && !isPunctuator(ch) {
        return Ok(());
    }
    let ghost a = lx.pos as int;
    // only commit the statement start once this is a real export
    lx.export_statement_start = sStartPos;
    if ch != 123 && ch != 42 {
        return exportDeclaration(lx, ch, Ghost(*old(lx)));
    }
    ch = readExportClause(lx, ch)?;
    // from ...
    exportFrom(lx, sStartPos, prevExportCount, ch)
}

/// The statement after `export` when it is no list and no `*`, the cursor on
/// its first unit `ch` and the statement start of `o` (the lexer at `export`)
/// recorded: continues reading it as `reads_export_statement` says of `o`.
#[allow(non_snake_case)]
#[verifier::rlimit(100)]
#[verifier::spinoff_prover]
fn exportDeclaration(lx: &mut Lexer, ch: i32, Ghost(o): Ghost<Lexer>) -> (r: Result<(), ParseError>)
    requires
        o.wf(),
        o.records_wf(),
        0 <= o.pos < o.len(),
        ({
            let (a, c) = comment_ws(o.source@, o.pos + 6, true);
            &&& c == ch as int
            &&& !(a == o.pos + 6 && !spec_is_punctuator(c))
            &&& ch != 123 && ch != 42
            &&& *old(lx) == Lexer { pos: a as i32, export_statement_start: o.pos, ..o }
        }),
    ensures
        r matches Err(e) ==> e.pos == final(lx).pos,
        reads_export_statement(o, *final(lx), r),
        reads_export_statement(o, Lexer { last_token_pos: o.last_token_pos, ..*final(lx) }, r),
        final(lx).lex_step(o),
        final(lx).pos <= 2 * o.len() + 40 - o.pos,
        o.pos < final(lx).pos,
    decreases 2 * old(lx).len() + POS_SLACK - old(lx).pos, 4nat,
{
    let ghost src = lx.source@;
    let ghost a = lx.pos as int;
    let mut ch = ch;
    proof {
        crate::comment::lemma_comment_ws(src, o.pos + 6, true);
    }
    lx.facade = false;
    if ch == 100 {
        // export default ...
        return exportDefault(lx);
    } else if ch == 97 || ch == 102 {
        // export async? function*? name () {
        if ch == 97 {
            proof {
                crate::comment::lemma_comment_ws(src, a + 5, false);
            }
            step(lx, 5);
            commentWhitespace(lx, false);
        }
        proof {
            crate::comment::lemma_comment_ws(src, lx.pos + 8, true);
        }
        step(lx, 8);
        ch = commentWhitespace(lx, true);
        if ch == 42 {
            proof {
                crate::comment::lemma_comment_ws(src, lx.pos + 1, true);
            }
            next(lx);
            ch = commentWhitespace(lx, true);
        }
        let startPos = lx.pos;
        proof {
            crate::lexer::lemma_word_scan(src, startPos as int, ch as int);
        }
        readToWsOrPunctuator(lx, ch);
        addExport(lx, startPos, lx.pos, startPos, lx.pos);
        prev(lx);
        return Ok(());
    } else if ch == 99 {
        // export class name ...
        if starts_with(lx, "lass", lx.pos + 1) && isBrOrWsOrPunctuatorNotDot(
            charCodeAt(lx, lx.pos + 5),
        ) {
            proof {
                crate::comment::lemma_comment_ws(src, a + 5, true);
            }
            step(lx, 5);
            ch = commentWhitespace(lx, true);
            let startPos = lx.pos;
            proof {
                crate::lexer::lemma_word_scan(src, startPos as int, ch as int);
            }
            readToWsOrPunctuator(lx, ch);
            addExport(lx, startPos, lx.pos, startPos, lx.pos);
            prev(lx);
            return Ok(());
        }
        step(lx, 2);
        let res = exportBindings(lx);
        proof {
            assert(witnessed(lx.last_token_pos));
        }
        return res;
    } else if ch == 118 || ch == 108 {
        // export var/let/const binding (, binding)*
        let res = exportBindings(lx);
        proof {
            assert(witnessed(lx.last_token_pos));
        }
        return res;
    } else {
        return Ok(());
    }
}

/// `var`/`let`/`const` bindings of an export, the cursor on the keyword:
/// records each bound name (identifiers and destructuring patterns) and skips
/// initializers; the list ends at `;`, the end, or a line break that ends the
/// statement (see `export_bindings`).
#[allow(non_snake_case)]
#[verifier::loop_isolation(false)]
#[verifier::rlimit(100)]
#[verifier::spinoff_prover]
fn exportBindings(lx: &mut Lexer) -> (r: Result<(), ParseError>)
    requires
        old(lx).wf(),
        old(lx).records_wf(),
        0 <= old(lx).pos <= old(lx).len() + 2,
    ensures
        export_bindings(*old(lx), *final(lx), r),
        r matches Err(e) ==> e.pos == final(lx).pos,
        final(lx).lex_step(*old(lx)),
        final(lx).pos <= 2 * old(lx).len() + 40 - old(lx).pos,
        old(lx).pos < final(lx).pos,
    decreases 2 * old(lx).len() + POS_SLACK - old(lx).pos, 3nat,
{
    let ghost src = lx.source@;
    let ghost p0 = lx.pos as int;
    proof {
        crate::comment::lemma_comment_ws(src, p0 + 3, true);
    }
    step(lx, 3);
    lx.facade = false;
    let mut ch = commentWhitespace(lx, true);
    let end = end(lx);
    let ghost mut tr: Seq<(Lexer, int)> = seq![(*lx, ch as int)];
    loop
        invariant
            lx.lex_step(*old(lx)),
            p0 + 3 <= lx.pos <= 2 * src.len() + 38 - p0,
            src == lx.source@,
            end == src.len() - 1,
            ch != lx.at(lx.pos as int) ==> lx.pos >= src.len() && (ch == 47 || skipped_blank(ch as int, true)),
            0 <= ch < 0x10000,
            !lx.facade,
            old(lx).imports_ordered() ==> lx.imports_well_before(),
            bind_trace(*old(lx), tr),
            tr.len() >= 1,
            tr[0] == (Lexer { pos: comment_ws(src, p0 + 3, true).0 as i32, facade: false, ..*old(lx) }, comment_ws(src, p0 + 3, true).1),
            tr.last() == (*lx, ch as int),
            witnessed(tr),
        decreases 2 * src.len() + POS_SLACK - lx.pos,
    {
        if lx.pos > end {
            prev(lx);
            return Ok(());
        }
        let ghost s = *lx;
        let ghost c = ch as int;
        let bindingStart = lx.pos;
        let tres = readBindingTarget(lx, ch);
        match tres {
            Err(e) => {
                proof {
                    assert(bind_iter(s, c, *lx, 0int, Err(e), false));
                    assert(witnessed((*lx, 0int)));
                }
                return Err(e);
            },
            Ok(cm) => {
                ch = cm;
            },
        }
        let ghost m = *lx;
        proof {
            assert(witnessed((m, ch)));
        }
        if lx.pos == bindingStart {
            proof {
                assert(bind_iter(s, c, *lx, 0int, Ok(()), false));
                assert(witnessed((*lx, 0int)));
            }
            prev(lx);
            return Ok(());
        }
        if ch == 61 {
            let sres = skipExpression(lx, true);
            match sres {
                Err(e) => {
                    proof {
                        assert(bind_iter(s, c, *lx, 0int, Err(e), false));
                        assert(witnessed((*lx, 0int)));
                    }
                    return Err(e);
                },
                Ok(c3) => {
                    ch = c3;
                },
            }
            proof {
                assert(witnessed((*lx, ch)));
            }
        }
        if ch != 44 {
            proof {
                assert(bind_iter(s, c, *lx, 0int, Ok(()), false));
                assert(witnessed((*lx, 0int)));
            }
            prev(lx);
            return Ok(());
        }
        proof {
            crate::comment::lemma_comment_ws(src, lx.pos + 1, true);
        }
        next(lx);
        ch = commentWhitespace(lx, true);
        proof {
            assert(bind_iter(s, c, *lx, ch as int, Ok(()), true));
            assert(tr.push((*lx, ch as int)).drop_last() =~= tr);
            tr = tr.push((*lx, ch as int));
            assert(witnessed(tr));
        }
    }
}

/// A binding target at the cursor whose first unit is `ch`: an identifier
/// (recorded) or a `{`/`[` destructuring pattern. Skips what follows and
/// returns the next significant unit (the cursor on it).
#[allow(non_snake_case)]
fn readBindingTarget(lx: &mut Lexer, ch: i32) -> (r: Result<i32, ParseError>)
    requires
        old(lx).wf(),
        old(lx).records_wf(),
        0 <= old(lx).pos <= old(lx).len() + 8,
        ch != old(lx).at(old(lx).pos as int) ==> old(lx).pos >= old(lx).len() && (ch == 47 || skipped_blank(ch as int, true)),
    ensures
        binding_target(*old(lx), *final(lx), ch as int, r),
        r matches Err(e) ==> e.pos == final(lx).pos,
        final(lx).lex_step(*old(lx)),
        old(lx).imports_ordered() && old(lx).imports_well_before() && r is Ok ==> final(lx).imports_well_before(),
        final(lx).pos <= 2 * old(lx).len() + 41 - old(lx).pos,
        r matches Ok(c) ==> (c != final(lx).at(final(lx).pos as int) ==> final(lx).pos >= final(lx).len()
            && (c == 47 || skipped_blank(c as int, true))),
    decreases 2 * old(lx).len() + POS_SLACK - old(lx).pos, 2nat,
{
    let ghost src = lx.source@;
    if ch == 123 || ch == 91 {
        let res = readBindingPattern(lx);
        if let Err(e) = res {
            return Err(e);
        }
        proof {
            crate::parse::lemma_unit_ok(res);
            crate::comment::lemma_comment_ws(src, lx.pos + 1, true);
        }
        let ghost m = *lx;
        next(lx);
        let c = commentWhitespace(lx, true);
        proof {
            assert(binding_pattern(*old(lx), m, Ok(())));
            assert(witnessed(m));
        }
        Ok(c)
    } else {
        let nameStart = lx.pos;
        proof {
            crate::lexer::lemma_word_scan(src, nameStart as int, ch as int);
            crate::comment::lemma_comment_ws(src, word_scan(src, nameStart as int, ch as int).0, true);
        }
        readToWsOrPunctuator(lx, ch);
        if lx.pos > nameStart {
            addExport(lx, nameStart, lx.pos, nameStart, lx.pos);
        }
        let c = commentWhitespace(lx, true);
        Ok(c)
    }
}

/// Whether `ch` may continue a numeric property key (digits, `.`, `_`,
/// exponent and radix letters, hex digits, a sign after an exponent).
fn numeric_key_char(ch: i32, prev: i32) -> (r: bool)
    ensures
        r == is_numeric_key_char(ch as int, prev as int),
        r ==> ch != 0,
{
    (ch >= 48 && ch <= 57) || ch == 46 || ch == 95 || ch == 101 || ch == 69 || ch == 110 || ch == 120
        || ch == 88 || ch == 98 || ch == 66 || ch == 111 || ch == 79 || (ch >= 97 && ch <= 102) || (ch
        >= 65 && ch <= 70) || ((ch == 43 || ch == 45) && (prev == 101 || prev == 69))
}

/// The key of an object pattern property, its first unit `ch` at the cursor:
/// a computed `[expr]`, a string, a number or a name. Returns the next
/// significant unit and the end of a name key (its start for other keys,
/// which have no shorthand).
#[allow(non_snake_case)]
#[verifier::loop_isolation(false)]
fn readPatternKey(lx: &mut Lexer, ch: i32) -> (r: Result<(i32, i32), ParseError>)
    requires
        old(lx).wf(),
        old(lx).records_wf(),
        0 <= old(lx).pos < old(lx).len(),
        ch == old(lx).at(old(lx).pos as int),
    ensures
        pattern_key(*old(lx), *final(lx), ch as int, r),
        r matches Err(e) ==> e.pos == final(lx).pos,
        final(lx).lex_step(*old(lx)),
        final(lx).pos <= 2 * old(lx).len() + 41 - old(lx).pos,
        r matches Ok((c, keyEnd)) ==> {
            &&& old(lx).pos <= keyEnd <= final(lx).pos
            &&& (c != final(lx).at(final(lx).pos as int) ==> final(lx).pos >= final(lx).len()
                && (c == 47 || skipped_blank(c as int, true)))
        },
    decreases 2 * old(lx).len() + POS_SLACK - old(lx).pos, 2nat,
{
    let ghost src = lx.source@;
    let keyStart = lx.pos;
    let mut keyEnd = lx.pos;
    let mut ch = ch;
    if ch == 91 {
        // computed key: the cursor ends on the matching `]`
        let skipped = skipExpression(lx, false);
        match skipped {
            Err(e) => {
                return Err(e);
            },
            Ok(_) => {},
        }
        let ghost m = *lx;
        proof {
            crate::comment::lemma_comment_ws(src, m.pos + 1, true);
        }
        next(lx);
        ch = commentWhitespace(lx, true);
        proof {
            assert(crate::parse::skip_run(*old(lx), m, skipped, false));
            if let Ok(c) = skipped {
                assert(witnessed((m, c)));
            }
        }
    } else if isQuote(ch) {
        proof {
            crate::lexer::lemma_string_scan(src, ch as int, keyStart as int);
        }
        let scanned = stringIteral(lx, ch);
        if let Err(e) = scanned {
            return Err(e);
        }
        proof {
            crate::comment::lemma_comment_ws(src, lx.pos + 1, true);
        }
        next(lx);
        ch = commentWhitespace(lx, true);
    } else if ch >= 48 && ch <= 57 {
        next(lx);
        ch = charCodeAt(lx, lx.pos);
        while numeric_key_char(ch, charCodeAt(lx, lx.pos - 1))
            invariant
                lx.lex_step(*old(lx)),
                *lx == old(lx).with_pos(lx.pos as int),
                keyStart < lx.pos <= src.len(),
                src == lx.source@,
                ch == lx.at(lx.pos as int),
                numeric_end(src, lx.pos as int) == numeric_end(src, keyStart + 1),
            decreases src.len() - lx.pos,
        {
            next(lx);
            ch = charCodeAt(lx, lx.pos);
        }
        proof {
            crate::comment::lemma_comment_ws(src, lx.pos as int, true);
        }
        ch = commentWhitespace(lx, true);
    } else {
        proof {
            crate::lexer::lemma_word_scan(src, keyStart as int, ch as int);
            crate::comment::lemma_comment_ws(src, crate::lexer::word_scan(src, keyStart as int, ch as int).0, true);
        }
        readToWsOrPunctuator(lx, ch);
        keyEnd = lx.pos;
        ch = commentWhitespace(lx, true);
    }
    Ok((ch, keyEnd))
}

/// After a pattern element (cursor on its next unit `ch`): skips a default
/// value and a `,` (see `pat_default`). Returns whether the pattern goes on
/// and the unit the cursor then stands on.
#[allow(non_snake_case)]
fn patternElementTail(lx: &mut Lexer, ch: i32) -> (r: Result<(bool, i32), ParseError>)
    requires
        old(lx).wf(),
        old(lx).records_wf(),
        0 <= old(lx).pos,
        ch != old(lx).at(old(lx).pos as int) ==> old(lx).pos >= old(lx).len() && (ch == 47 || skipped_blank(ch as int, true)),
    ensures
        old(lx).pos >= old(lx).len() ==> *final(lx) == *old(lx),
        r matches Ok((cont, c)) ==> cont ==> final(lx).pos > old(lx).pos,
        match r {
            Ok((cont, c2)) => pat_default(*old(lx), ch as int, *final(lx), c2 as int, Ok(()), cont),
            Err(e) => pat_default(*old(lx), ch as int, *final(lx), 0, Err(e), false) && e.pos == final(lx).pos,
        },
        final(lx).lex_step(*old(lx)),
        old(lx).pos < old(lx).len() ==> final(lx).pos <= 2 * old(lx).len() + 40 - old(lx).pos,
        r matches Ok((cont, c)) ==> cont ==> (c != final(lx).at(final(lx).pos as int) ==> final(lx).pos >= final(lx).len()
            && (c == 47 || skipped_blank(c as int, true))),
        r matches Ok((cont, c)) ==> (cont ==> 0 <= c < 0x10000),
    decreases 2 * old(lx).len() + POS_SLACK - old(lx).pos, 2nat,
{
    let ghost src = lx.source@;
    let mut c = ch;
    if c == 61 {
        let skipped = skipExpression(lx, false);
        match skipped {
            Err(e) => {
                return Err(e);
            },
            Ok(c3) => {
                c = c3;
            },
        }
        proof {
            assert(crate::parse::skip_run(*old(lx), *lx, skipped, false));
            assert(witnessed((*lx, c)));
        }
    }
    if c == 44 {
        proof {
            crate::comment::lemma_comment_ws(src, lx.pos + 1, true);
        }
        next(lx);
        let c2 = commentWhitespace(lx, true);
        Ok((true, c2))
    } else {
        Ok((false, c))
    }
}

/// A `{`/`[` destructuring pattern at the cursor: records every bound name
/// (aliases `{ a: b }` bind `b`, shorthands and defaults bind the key, `...rest`
/// binds `rest`, to any depth) and leaves the cursor on the closer (see
/// `binding_pattern`).
#[allow(non_snake_case)]
#[verifier::loop_isolation(false)]
#[verifier::rlimit(100)]
#[verifier::spinoff_prover]
fn readBindingPattern(lx: &mut Lexer) -> (r: Result<(), ParseError>)
    requires
        old(lx).wf(),
        old(lx).records_wf(),
        0 <= old(lx).pos < old(lx).len(),
        old(lx).at(old(lx).pos as int) == 123 || old(lx).at(old(lx).pos as int) == 91,
    ensures
        binding_pattern(*old(lx), *final(lx), r),
        r matches Err(e) ==> e.pos == final(lx).pos,
        final(lx).lex_step(*old(lx)),
        final(lx).pos <= 2 * old(lx).len() + 40 - old(lx).pos,
        old(lx).pos < final(lx).pos,
    decreases 2 * old(lx).len() + POS_SLACK - old(lx).pos, 1nat,
{
    proof {
        reveal_with_fuel(binding_pattern, 2);
        reveal_with_fuel(pat_iter, 2);
    }
    let ghost src = lx.source@;
    let ghost p0 = lx.pos as int;
    let isObject = charCodeAt(lx, lx.pos) == 123;
    let close = if isObject { 125 } else { 93 };
    proof {
        crate::comment::lemma_comment_ws(src, p0 + 1, true);
    }
    next(lx);
    let mut ch = commentWhitespace(lx, true);
    let end = end(lx);
    let ghost mut tr: Seq<(Lexer, int)> = seq![(*lx, ch as int)];
    loop
        invariant
            lx.lex_step(*old(lx)),
            p0 < lx.pos <= 2 * src.len() + 40 - p0,
            src == lx.source@,
            end == src.len() - 1,
            ch != lx.at(lx.pos as int) ==> lx.pos >= src.len() && (ch == 47 || skipped_blank(ch as int, true)),
            0 <= ch < 0x10000,
            pat_trace(*old(lx), tr),
            tr.len() >= 1,
            tr[0] == (old(lx).with_pos(comment_ws(src, p0 + 1, true).0), comment_ws(src, p0 + 1, true).1),
            tr.last() == (*lx, ch as int),
            witnessed(tr),
            isObject == (old(lx).at(p0) == 123),
            close == (if isObject { 125int } else { 93int }),
        decreases 2 * src.len() + POS_SLACK - lx.pos,
    {
        proof {
            reveal_with_fuel(binding_pattern, 2);
            reveal_with_fuel(pat_iter, 2);
        }
        if !(ch != close && lx.pos <= end) {
            proof {
                let (x0, c0) = comment_ws(src, p0 + 1, true);
                assert(tr[0] == (old(lx).with_pos(x0), c0));
                assert(pat_trace(*old(lx), tr) && tr.len() >= 1 && tr[0] == (old(lx).with_pos(x0), c0));
                let obj = old(lx).at(old(lx).pos as int) == 123;
                let cl = if obj { 125int } else { 93int };
                assert(tr.last().1 == cl || tr.last().0.pos > tr.last().0.len() - 1);
                assert(exists|tr2: Seq<(Lexer, int)>|
                    #![trigger pat_trace(*old(lx), tr2)]
                    {
                        &&& pat_trace(*old(lx), tr2)
                        &&& tr2.len() >= 1
                        &&& tr2[0] == (old(lx).with_pos(x0), c0)
                        &&& ({
                            let (s2, c2) = tr2.last();
                            if c2 == cl || s2.pos > s2.len() - 1 {
                                Ok::<(), ParseError>(()) is Ok && *lx == s2
                            } else {
                                false
                            }
                        })
                    });
                reveal_with_fuel(binding_pattern, 1);
                assert(binding_pattern(*old(lx), *lx, Ok(())));
            }
            return Ok(());
        }
        let ghost s = *lx;
        let ghost c = ch as int;
        // ...rest element
        if ch == 46 && charCodeAt(lx, lx.pos + 1) == 46 && charCodeAt(lx, lx.pos + 2) == 46 {
            proof {
                crate::comment::lemma_comment_ws(src, s.pos + 3, true);
            }
            step(lx, 3);
            ch = commentWhitespace(lx, true);
            let ghost u = *lx;
            let res = readBindingTarget(lx, ch);
            match res {
                Err(e) => {
                    proof {
                        assert(pat_iter(s, c, isObject, *lx, 0int, Err(e), false));
                        assert(witnessed((*lx, 0int)));
                    }
                    return Err(e);
                },
                Ok(c3) => {
                    ch = c3;
                },
            }
            proof {
                assert(witnessed(ch));
                assert(pat_iter(s, c, isObject, *lx, ch as int, Ok(()), true));
                assert(tr.push((*lx, ch as int)).drop_last() =~= tr);
                tr = tr.push((*lx, ch as int));
            }
            continue;
        }
        if !isObject && ch == 44 {
            // array elision
            proof {
                crate::comment::lemma_comment_ws(src, s.pos + 1, true);
            }
            next(lx);
            ch = commentWhitespace(lx, true);
            proof {
                assert(pat_iter(s, c, isObject, *lx, ch as int, Ok(()), true));
                assert(tr.push((*lx, ch as int)).drop_last() =~= tr);
                tr = tr.push((*lx, ch as int));
            }
            continue;
        }
        let ghost mut m2 = *lx;
        let ghost mut cb: int = ch as int;
        if isObject {
            let keyStart = lx.pos;
            let kres = readPatternKey(lx, ch);
            let (c1, keyEnd) = match kres {
                Err(e) => {
                    proof {
                        assert(pat_iter(s, c, isObject, *lx, 0int, Err(e), false));
                        assert(witnessed((*lx, 0int)));
                    }
                    return Err(e);
                },
                Ok(v) => v,
            };
            let ghost m = *lx;
            proof {
                assert(witnessed((m, c1, keyEnd)));
            }
            ch = c1;
            // { key: target } binds target; shorthand { key } / { key = default }
            // binds the key; a computed or string key has no shorthand
            if ch == 58 {
                proof {
                    crate::comment::lemma_comment_ws(src, m.pos + 1, true);
                }
                next(lx);
                ch = commentWhitespace(lx, true);
                let ghost u = *lx;
                let tres = readBindingTarget(lx, ch);
                match tres {
                    Err(e) => {
                        proof {
                            assert(binding_target(u, *lx, ch as int, Err(e)));
                            assert(pattern_key(s, m, c, Ok((c1, keyEnd))));
                            assert(pat_iter(s, c, isObject, *lx, 0int, Err(e), false));
                        assert(witnessed((*lx, 0int)));
                        }
                        return Err(e);
                    },
                    Ok(cb2) => {
                        ch = cb2;
                    },
                }
                proof {
                    assert(witnessed((*lx, ch)));
                }
            } else if keyEnd > keyStart {
                addExport(lx, keyStart, keyEnd, keyStart, keyEnd);
            }
            proof {
                assert(witnessed(*lx));
            }
            proof {
                m2 = *lx;
                cb = ch as int;
                assert(pattern_key(s, m, c, Ok((c1, keyEnd))));
            }
        } else {
            let tres = readBindingTarget(lx, ch);
            match tres {
                Err(e) => {
                    proof {
                        assert(pat_iter(s, c, isObject, *lx, 0int, Err(e), false));
                        assert(witnessed((*lx, 0int)));
                    }
                    return Err(e);
                },
                Ok(cb2) => {
                    ch = cb2;
                },
            }
            proof {
                m2 = *lx;
                cb = ch as int;
                assert(witnessed((*lx, ch)));
            }
        }
        let tail = patternElementTail(lx, ch);
        match tail {
            Err(e) => {
                proof {
                    assert(pat_default(m2, cb, *lx, 0int, Err(e), false));
                    assert(pat_iter(s, c, isObject, *lx, 0int, Err(e), false));
                        assert(witnessed((*lx, 0int)));
                }
                return Err(e);
            },
            Ok((cont, c2)) => {
                proof {
                    assert(pat_default(m2, cb, *lx, c2 as int, Ok(()), cont));
                    assert(pat_iter(s, c, isObject, *lx, c2 as int, Ok(()), cont));
                    assert(witnessed((*lx, c2 as int)));
                }
                if !cont {
                    return Ok(());
                }
                ch = c2;
                proof {
                    assert(tr.push((*lx, ch as int)).drop_last() =~= tr);
                    tr = tr.push((*lx, ch as int));
                }
            },
        }
    }
}


/// Whether `ch` may continue a numeric property key after the unit `prev`
/// (digits, `.`, `_`, exponent and radix letters, hex digits, a sign after
/// an exponent).
pub open spec fn is_numeric_key_char(ch: int, prev: int) -> bool {
    (48 <= ch <= 57) || ch == 46 || ch == 95 || ch == 101 || ch == 69 || ch == 110 || ch == 120 || ch == 88
        || ch == 98 || ch == 66 || ch == 111 || ch == 79 || (97 <= ch <= 102) || (65 <= ch <= 70) || ((ch == 43
        || ch == 45) && (prev == 101 || prev == 69))
}

/// The end of a numeric key whose units continue from `p`.
pub open spec fn numeric_end(src: Seq<u16>, p: int) -> int
    decreases src.len() - p,
{
    if 0 <= p < src.len() && is_numeric_key_char(src[p] as int, unit_at(src, p - 1)) {
        numeric_end(src, p + 1)
    } else {
        p
    }
}

/// After the unit `c` of the state `m`: a `,` moves on one unit and past
/// blanks and comments (`cont`, the next unit `c2`), anything else ends the
/// list there.
pub open spec fn after_comma(m: Lexer, c: int, t: Lexer, c2: int, r: Result<(), ParseError>, cont: bool) -> bool {
    if c == 44 {
        let (y, cy) = comment_ws(m.source@, m.pos + 1, true);
        r is Ok && cont && t == m.with_pos(y) && c2 == cy
    } else {
        r is Ok && !cont && t == m
    }
}

/// Reading the key of an object pattern property, its first unit `ch` at
/// the cursor of `o`: a computed `[expr]` (`skip_run`), a string, a number
/// or a name; then blanks and comments. The result holds the next unit and
/// the end of a name key (its start for other keys, which have no shorthand).
pub open spec fn pattern_key(o: Lexer, n: Lexer, ch: int, r: Result<(i32, i32), ParseError>) -> bool
    decreases o.room(), 22int, 0int,
{
    let src = o.source@;
    let p = o.pos as int;
    if ch == 91 {
        ||| (r matches Err(e) && crate::parse::skip_run(o, n, Err(e), false))
        ||| exists|m: Lexer, c: i32|
            #![trigger witnessed((m, c))]
            crate::parse::skip_run(o, m, Ok(c), false) && ({
                let (z, cz) = comment_ws(src, m.pos + 1, true);
                n == m.with_pos(z) && r == Ok::<(i32, i32), ParseError>((cz as i32, p as i32))
            })
    } else if spec_is_quote(ch) {
        let (ok, q) = string_scan(src, ch, p);
        let (z, cz) = comment_ws(src, q + 1, true);
        if ok {
            n == o.with_pos(z) && r == Ok::<(i32, i32), ParseError>((cz as i32, p as i32))
        } else {
            n == o.with_pos(q) && r == Err::<(i32, i32), ParseError>(ParseError { pos: q as i32 })
        }
    } else if 48 <= ch <= 57 {
        let (z, cz) = comment_ws(src, numeric_end(src, p + 1), true);
        n == o.with_pos(z) && r == Ok::<(i32, i32), ParseError>((cz as i32, p as i32))
    } else {
        let w = word_scan(src, p, ch).0;
        let (z, cz) = comment_ws(src, w, true);
        n == o.with_pos(z) && r == Ok::<(i32, i32), ParseError>((cz as i32, w as i32))
    }
}

/// Reading a binding target whose first unit `ch` is at the cursor of `o`:
/// a `{`/`[` pattern (`binding_pattern`, then the unit after its closer), or
/// a name, recorded as an export with itself as local name when it is not
/// empty. Then blanks and comments; the result is the next unit.
pub open spec fn binding_target(o: Lexer, n: Lexer, ch: int, r: Result<i32, ParseError>) -> bool
    decreases o.room(), 25int, 0int,
{
    let src = o.source@;
    let p = o.pos as int;
    if ch == 123 || ch == 91 {
        ||| (r matches Err(e) && binding_pattern(o, n, Err(e)))
        ||| exists|m: Lexer|
            #![trigger witnessed(m)]
            binding_pattern(o, m, Ok(())) && ({
                let (z, cz) = comment_ws(src, m.pos + 1, true);
                n == m.with_pos(z) && r == Ok::<i32, ParseError>(cz as i32)
            })
    } else {
        let w = word_scan(src, p, ch).0;
        let (z, cz) = comment_ws(src, w, true);
        &&& r == Ok::<i32, ParseError>(cz as i32)
        &&& only_pos_exports(n, o)
        &&& n.pos == z
        &&& n.exports@ == (if w > p {
            o.exports@.push(export_record((p, w, p, w), o.export_statement_start))
        } else {
            o.exports@
        })
    }
}

/// After a pattern element (state `m`, next unit `c`): a default value `=`
/// is skipped (`skip_run`), then `after_comma`.
pub open spec fn pat_default(m: Lexer, c: int, t: Lexer, c2: int, r: Result<(), ParseError>, cont: bool) -> bool
    decreases m.room(), 22int, 0int,
{
    if c == 61 {
        ||| (r matches Err(e) && crate::parse::skip_run(m, t, Err(e), false) && !cont)
        ||| exists|m3: Lexer, c3: i32|
            #![trigger witnessed((m3, c3))]
            crate::parse::skip_run(m, m3, Ok(c3), false) && after_comma(m3, c3 as int, t, c2, r, cont)
    } else {
        after_comma(m, c, t, c2, r, cont)
    }
}

/// One element of a `{`/`[` pattern (`obj`: an object pattern), from the
/// state `s` on its first unit `c`, to `t` with next unit `c2`; `cont` tells
/// whether the pattern goes on. `...rest` binds its target; an object
/// property binds the target after `:`, else (a shorthand) its name key; an
/// array elision `,` binds nothing; any other array element is a target.
/// A default value follows (`pat_default`).
pub open spec fn pat_iter(s: Lexer, c: int, obj: bool, t: Lexer, c2: int, r: Result<(), ParseError>, cont: bool) -> bool
    decreases s.room(), 26int, 0int,
{
    let src = s.source@;
    let p = s.pos as int;
    if c == 46 && s.at(p + 1) == 46 && s.at(p + 2) == 46 {
        let (x, cx) = comment_ws(src, p + 3, true);
        let u = s.with_pos(x);
        &&& s.later(u)
        &&& ((r matches Err(e) && binding_target(u, t, cx, Err(e)) && !cont)
            || (r is Ok && cont && exists|c3: i32| #![trigger witnessed(c3)] binding_target(u, t, cx, Ok(c3)) && c2 == c3))
    } else if obj {
        ||| (r matches Err(e) && pattern_key(s, t, c, Err(e)) && !cont)
        ||| exists|m: Lexer, c1: i32, ke: i32|
            #![trigger witnessed((m, c1, ke))]
            pattern_key(s, m, c, Ok((c1, ke))) && s.later(m) && if c1 == 58 {
                let (y, cy) = comment_ws(src, m.pos + 1, true);
                let u = m.with_pos(y);
                &&& s.later(u)
                &&& ((r matches Err(e) && binding_target(u, t, cy, Err(e)) && !cont)
                    || exists|m2: Lexer, cb: i32|
                        #![trigger witnessed((m2, cb))]
                        binding_target(u, m2, cy, Ok(cb)) && s.later(m2) && pat_default(m2, cb as int, t, c2, r, cont))
            } else {
                exists|m2: Lexer|
                    #![trigger witnessed(m2)]
                    {
                        &&& only_pos_exports(m2, m)
                        &&& m2.pos == m.pos
                        &&& m2.exports@ == (if ke > p {
                            m.exports@.push(export_record((p, ke as int, p, ke as int), m.export_statement_start))
                        } else {
                            m.exports@
                        })
                        &&& s.later(m2)
                        &&& pat_default(m2, c1 as int, t, c2, r, cont)
                    }
            }
    } else if c == 44 {
        let (y, cy) = comment_ws(src, p + 1, true);
        r is Ok && cont && t == s.with_pos(y) && c2 == cy
    } else {
        ||| (r matches Err(e) && binding_target(s, t, c, Err(e)) && !cont)
        ||| exists|m2: Lexer, cb: i32|
            #![trigger witnessed((m2, cb))]
            binding_target(s, m2, c, Ok(cb)) && s.later(m2) && pat_default(m2, cb as int, t, c2, r, cont)
    }
}

/// Consecutive states of `tr` (with their next units) are elements of the
/// pattern that starts at `o` that go on.
pub open spec fn pat_trace(o: Lexer, tr: Seq<(Lexer, int)>) -> bool
    decreases o.room(), 23int, tr.len(),
{
    let obj = o.at(o.pos as int) == 123;
    let close = if obj { 125int } else { 93int };
    if tr.len() <= 1 {
        true
    } else {
        let (s, c) = tr[tr.len() - 2];
        &&& pat_trace(o, tr.drop_last())
        &&& o.strictly_later(s)
        &&& c != close
        &&& s.pos <= s.len() - 1
        &&& pat_iter(s, c, obj, tr.last().0, tr.last().1, Ok(()), true)
    }
}

/// Reading a `{`/`[` destructuring pattern at the cursor of `o` to `n`: its
/// elements (`pat_iter`) from the first unit after the opener, until the
/// closer (the cursor on it), the end of the source, an element that ends
/// the pattern, or an error.
pub open spec fn binding_pattern(o: Lexer, n: Lexer, r: Result<(), ParseError>) -> bool
    decreases o.room(), 24int, 0int,
{
    let obj = o.at(o.pos as int) == 123;
    let close = if obj { 125int } else { 93int };
    let (x, ch) = comment_ws(o.source@, o.pos + 1, true);
    exists|tr: Seq<(Lexer, int)>|
        #![trigger witnessed(tr)]
        {
            &&& pat_trace(o, tr)
            &&& tr.len() >= 1
            &&& tr[0] == (o.with_pos(x), ch)
            &&& ({
                let (s, c) = tr.last();
                if c == close || s.pos > s.len() - 1 {
                    r is Ok && n == s
                } else {
                    o.strictly_later(s) && exists|t: Lexer, c2: int|
                        #![trigger witnessed((t, c2))]
                        pat_iter(s, c, obj, t, c2, r, false) && n == t
                }
            })
        }
}

/// One binding of an exported declaration, from the state `s` on its first
/// unit `c`, to `t` with next unit `c2`; `cont` tells whether the list goes
/// on. A binding target (`binding_target`) that does not move the cursor
/// ends the list; a default value `=` is skipped (`skip_run`, at statement
/// level); a `,` goes on.
pub open spec fn bind_iter(s: Lexer, c: int, t: Lexer, c2: int, r: Result<(), ParseError>, cont: bool) -> bool
    decreases s.room(), 26int, 0int,
{
    ||| (r matches Err(e) && binding_target(s, t, c, Err(e)) && !cont)
    ||| exists|m: Lexer, cm: i32|
        #![trigger witnessed((m, cm))]
        binding_target(s, m, c, Ok(cm)) && s.later(m) && if m.pos == s.pos {
            r is Ok && !cont && t == m
        } else if cm == 61 {
            ||| (r matches Err(e) && crate::parse::skip_run(m, t, Err(e), true) && !cont)
            ||| exists|m2: Lexer, c3: i32|
                #![trigger witnessed((m2, c3))]
                crate::parse::skip_run(m, m2, Ok(c3), true) && after_comma(m2, c3 as int, t, c2, r, cont)
        } else {
            after_comma(m, cm as int, t, c2, r, cont)
        }
}

/// Consecutive states of `tr` (with their next units) are bindings of the
/// declaration read from `o` that go on.
pub open spec fn bind_trace(o: Lexer, tr: Seq<(Lexer, int)>) -> bool
    decreases o.room(), 27int, tr.len(),
{
    if tr.len() <= 1 {
        true
    } else {
        let (s, c) = tr[tr.len() - 2];
        &&& bind_trace(o, tr.drop_last())
        &&& o.strictly_later(s)
        &&& s.pos <= s.len() - 1
        &&& bind_iter(s, c, tr.last().0, tr.last().1, Ok(()), true)
    }
}

/// Reading the bindings of an exported `var`/`let`/`const` declaration, the
/// cursor of `o` on the keyword, to `n`: past the three units of the keyword
/// and blanks, the facade cleared, bindings (`bind_iter`) are read until one
/// ends the list or the end of the source; the cursor then steps back one
/// unit (not after an error).
pub open spec fn export_bindings(o: Lexer, n: Lexer, r: Result<(), ParseError>) -> bool
    decreases o.room(), 28int, 0int,
{
    let (x, ch) = comment_ws(o.source@, o.pos + 3, true);
    let s0 = Lexer { pos: x as i32, facade: false, ..o };
    exists|tr: Seq<(Lexer, int)>|
        #![trigger witnessed(tr)]
        {
            &&& bind_trace(o, tr)
            &&& tr.len() >= 1
            &&& tr[0] == (s0, ch)
            &&& ({
                let (s, c) = tr.last();
                if s.pos > s.len() - 1 {
                    r is Ok && n == s.with_pos(s.pos - 1)
                } else {
                    o.strictly_later(s) && exists|t: Lexer, c2: int|
                        #![trigger witnessed((t, c2))]
                        bind_iter(s, c, t, c2, r, false) && (if r is Ok { n == t.with_pos(t.pos - 1) } else { n == t })
                }
            })
        }
}

/// The reported export `r` is the record `e` of the source `src`: its names
/// are decoded from the source (no local name when `local_start` is -1).
pub open spec fn reports_export(r: Export, e: ExportState, src: Seq<u16>) -> bool {
    &&& r.s == e.start
    &&& r.e == e.end
    &&& r.ls == e.local_start
    &&& r.le == e.local_end
    &&& r.ss == e.statement_start
    &&& r.n matches Some(n) && n@ == spec_decode_attr(src, e.start as int, e.end as int)
    &&& (if e.local_start < 0 {
        r.ln is None
    } else {
        r.ln matches Some(l) && l@ == spec_decode_attr(src, e.local_start as int, e.local_end as int)
    })
}

/// All exports found, in the reported form.
#[allow(non_snake_case)]
pub fn getExports(lx: &Lexer) -> (r: Vec<Export>)
    requires
        lx.wf(),
    ensures
        r@.len() == lx.exports@.len(),
        forall|i: int| 0 <= i < r@.len() ==> #[trigger] reports_export(r@[i], lx.exports@[i], lx.source@),
{
    let mut out: Vec<Export> = Vec::new();
    let mut i: usize = 0;
    while i < lx.exports.len()
        invariant
            lx.wf(),
            i <= lx.exports@.len(),
            out@.len() == i,
            forall|j: int| 0 <= j < i ==> #[trigger] reports_export(out@[j], lx.exports@[j], lx.source@),
        decreases lx.exports@.len() - i,
    {
        let e = lx.exports[i];
        let n = decodeAttr(lx, e.start, e.end);
        let ln = if e.local_start < 0 {
            None
        } else {
            Some(decodeAttr(lx, e.local_start, e.local_end))
        };
        out.push(Export { s: e.start, e: e.end, ls: e.local_start, le: e.local_end, ss: e.statement_start, n: Some(n), ln });
        i = i + 1;
    }
    out
}

} // verus!
