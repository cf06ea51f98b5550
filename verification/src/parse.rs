use vstd::prelude::*;
use crate::state::{Lexer, OpenToken, OpenTokenState, ParseError, POS_SLACK, STACK_SIZE, lemma_imports_wf_get, lemma_imports_wf_update, lemma_imports_wf_drop_last};
use crate::comment::{blockComment, commentWhitespace, lineComment};
use crate::export::tryParseExportStatement;
use crate::helper::{isBr, isBrOrWs, isExpressionKeyword, isExpressionPunctuator, isExpressionTerminator, isParenKeyword, isQuote, isTokenRunChar, keywordStart, syntaxError};
use crate::import::{popDynamicImport, popImport, topDynamicImport, tryParseImportStatement};
use crate::jsx::jsxScanTolerant;
use crate::lexer::{pushOpenToken, regularExpression, stringIteral, templateString};
use crate::position::{next, prev, setPos};
use crate::source::{charCodeAt, posIncLtEnd, starts_with};

verus! {

/// A successful result without a value is `Ok(())`.
pub proof fn lemma_unit_ok(r: Result<(), ParseError>)
    requires
        r is Ok,
    ensures
        r == Ok::<(), ParseError>(()),
{
    match r {
        Ok(x) => {
            assert(x == ());
        },
        Err(_) => {},
    }
}

/// Whether a `/` (or `<`) at the cursor of `lx` starts a regular expression
/// (or JSX) rather than a division (or comparison), judged from the token
/// before it, and for `)` / `}` from the token before the matching opener.
pub open spec fn regex_allowed(lx: Lexer) -> bool {
    let lt = lx.at(lx.last_token_pos as int);
    let pt = lx.at(lx.last_token_pos - 1);
    let ot = lx.open_token_stack@[lx.open_token_depth as int];
    (crate::helper::spec_is_expression_punctuator(lt) && !(lt == 46 && 48 <= pt <= 57)
        && !(lt == 43 && pt == 43) && !(lt == 45 && pt == 45))
    || (lt == 41 && crate::helper::spec_is_paren_keyword(lx.source@, ot.pos as int))
    || (lt == 125 && (crate::helper::spec_is_expression_terminator(lx.source@, ot.pos as int)
        || ot.token == OpenTokenState::ClassBrace))
    || (lt == 47 && lx.last_slash_was_division)
    || crate::helper::spec_is_expression_keyword(lx.source@, lx.last_token_pos as int)
    || lt == 0
}

/// Where an expression may start, a `/` starts a regular expression: right
/// after an opening bracket `(`, `[` or `{`, a `,`, `;` or `:`, an `=`, `!`,
/// `?`, `&`, `|`, `^`, `~`, `%`, `*`, `<` or `>`, and before any token (the
/// start of the source), and right after a keyword such as `return` or
/// `typeof`. Right after a word (a letter, digit, `_` or `$` that ends no
/// such keyword) or a `]` it is a division; right after a `)` it is a
/// regular expression exactly when the `(` follows `if`, `while` or `for`.
pub proof fn law_regex_or_division(lx: Lexer)
    ensures
        ({
            let lt = lx.at(lx.last_token_pos as int);
            &&& (lt == 40 || lt == 91 || lt == 123 || lt == 44 || lt == 59 || lt == 58 || lt == 61 || lt == 33
                || lt == 63 || lt == 38 || lt == 124 || lt == 94 || lt == 126 || lt == 37 || lt == 42 || lt == 60
                || lt == 62 || lt == 0) ==> regex_allowed(lx)
            &&& (65 <= lt <= 90 || 97 <= lt <= 122 || 48 <= lt <= 57 || lt == 95 || lt == 36)
                && !crate::helper::spec_is_expression_keyword(lx.source@, lx.last_token_pos as int) ==> !regex_allowed(lx)
            &&& lt == 93 ==> !regex_allowed(lx)
            &&& crate::helper::spec_is_expression_keyword(lx.source@, lx.last_token_pos as int) ==> regex_allowed(lx)
            &&& lt == 41 ==> (regex_allowed(lx) <==> crate::helper::spec_is_paren_keyword(
                lx.source@,
                lx.open_token_stack@[lx.open_token_depth as int].pos as int,
            ))
        }),
{
}

/// Whether a `/` (or `<`) at the cursor starts a regular expression (or JSX)
/// rather than a division (or comparison) (see `regex_allowed`). Reading the
/// entry above a full stack is a syntax error.
#[allow(non_snake_case)]
pub fn slashStartsRegex(lx: &Lexer) -> (r: Result<bool, ParseError>)
    requires
        lx.wf(),
    ensures
        r is Err <==> lx.open_token_depth >= STACK_SIZE,
        r matches Err(e) ==> e.pos == lx.pos,
        r matches Ok(b) ==> b == regex_allowed(*lx),
{
    if lx.open_token_depth >= STACK_SIZE {
        return Err(syntaxError(lx));
    }
    let lastToken = charCodeAt(lx, lx.last_token_pos);
    let prevToken = charCodeAt(lx, lx.last_token_pos - 1);
    let ot = lx.open_token_stack[lx.open_token_depth];
    Ok((isExpressionPunctuator(lastToken) && !(lastToken == 46 && prevToken >= 48 && prevToken <= 57)
        && !(lastToken == 43 && prevToken == 43) && !(lastToken == 45 && prevToken == 45))
        || (lastToken == 41 && isParenKeyword(lx, ot.pos))
        || (lastToken == 125 && (isExpressionTerminator(lx, ot.pos) || ot.token == OpenTokenState::ClassBrace))
        || (lastToken == 47 && lx.last_slash_was_division)
        || isExpressionKeyword(lx, lx.last_token_pos)
        || lastToken == 0)
}

/// With the cursor on a `/`: skips a `//` or `/*` comment and returns true, or
/// returns false when it is no comment.
#[allow(non_snake_case)]
fn skipComment(lx: &mut Lexer) -> (r: bool)
    requires
        old(lx).wf(),
        0 <= old(lx).pos < old(lx).len(),
    ensures
        r == (old(lx).at(old(lx).pos + 1) == 47 || old(lx).at(old(lx).pos + 1) == 42),
        r && old(lx).at(old(lx).pos + 1) == 47 ==> *final(lx) == old(lx).with_pos(
            crate::comment::line_comment_end(old(lx).source@, old(lx).pos as int)),
        r && old(lx).at(old(lx).pos + 1) == 42 ==> *final(lx) == old(lx).with_pos(
            crate::comment::block_comment_end(old(lx).source@, old(lx).pos as int, true)),
        !r ==> *final(lx) == *old(lx),
        old(lx).pos <= final(lx).pos <= old(lx).len() + 1,
        final(lx).wf(),
{
    proof {
        crate::comment::lemma_line_comment_end(old(lx).source@, old(lx).pos as int);
        crate::comment::lemma_block_comment_scan(old(lx).source@, old(lx).pos + 2, true);
    }
    let next_ch = charCodeAt(lx, lx.pos + 1);
    if next_ch == 47 {
        lineComment(lx);
        return true;
    }
    if next_ch == 42 {
        blockComment(lx, true);
        return true;
    }
    false
}

/// How a `)` takes the lexer from `o` to `n`: it pops the open-token stack
/// (nothing open: an error); when the entry is an import paren and a dynamic
/// import is open, the innermost one gets its end (if it had none) and its
/// statement end at the `)`, and is closed; an index past the imports is an
/// error (the entry stays popped).
pub open spec fn closes_paren(o: Lexer, n: Lexer, r: Result<(), ParseError>) -> bool {
    let d = o.open_token_depth as int;
    let p = o.pos;
    if d == 0 {
        r == Err::<(), ParseError>(ParseError { pos: p }) && n == o
    } else if o.dynamic_import_stack@.len() > 0 && o.open_token_stack@[d - 1].token == OpenTokenState::ImportParen {
        let i = o.dynamic_import_stack@.last() as int;
        let imp = o.imports@[i];
        if i >= o.imports@.len() {
            r == Err::<(), ParseError>(ParseError { pos: p }) && n == (Lexer { open_token_depth: (d - 1) as usize, ..o })
        } else {
            &&& r is Ok
            &&& n == (Lexer {
                open_token_depth: (d - 1) as usize,
                imports: n.imports,
                dynamic_import_stack: n.dynamic_import_stack,
                ..o
            })
            &&& n.dynamic_import_stack@ == o.dynamic_import_stack@.drop_last()
            &&& n.imports@ == o.imports@.update(i, crate::state::ImportState {
                end: if imp.end == 0 { p } else { imp.end },
                statement_end: (p + 1) as i32,
                ..imp
            })
        }
    } else {
        r is Ok && n == (Lexer { open_token_depth: (d - 1) as usize, ..o })
    }
}

/// `)`: see `closes_paren`.
#[allow(non_snake_case)]
fn closeParen(lx: &mut Lexer) -> (r: Result<(), ParseError>)
    requires
        old(lx).wf(),
        old(lx).records_wf(),
        0 <= old(lx).pos < old(lx).len(),
    ensures
        closes_paren(*old(lx), *final(lx), r),
        final(lx).lex_step(*old(lx)),
        final(lx).pos == old(lx).pos,
        r is Err <==> old(lx).open_token_depth == 0 || (old(lx).open_token_stack@[old(lx).open_token_depth - 1].token == OpenTokenState::ImportParen
            && old(lx).dynamic_import_stack@.len() > 0
            && old(lx).dynamic_import_stack@.last() >= old(lx).imports@.len()),
        r is Ok ==> final(lx).open_token_depth == old(lx).open_token_depth - 1,
        final(lx).open_token_stack == old(lx).open_token_stack,
{
    if lx.open_token_depth == 0 {
        return Err(syntaxError(lx));
    }
    lx.open_token_depth = lx.open_token_depth - 1;
    if lx.dynamic_import_stack.len() > 0 && lx.open_token_stack[lx.open_token_depth].token
        == OpenTokenState::ImportParen {
        let impt = topDynamicImport(lx);
        if impt >= lx.imports.len() {
            return Err(syntaxError(lx));
        }
        let ghost src = lx.source@;
        let ghost seq0 = lx.imports@;
        proof {
            lemma_imports_wf_get(seq0, impt as int, src);
        }
        if lx.imports[impt].end == 0 {
            lx.imports[impt].end = lx.pos;
        }
        let se = lx.pos + 1;
        lx.imports[impt].statement_end = se;
        proof {
            assert(lx.imports@ =~= seq0.update(impt as int, lx.imports@[impt as int]));
            lemma_imports_wf_update(seq0, impt as int, lx.imports@[impt as int], src);
        }
        popDynamicImport(lx);
    }
    Ok(())
}

/// How a `{` takes the lexer from `o` to `n`: a dynamic import whose `)` is
/// the last token was a method name, so it is dropped; then a class-body (after
/// `class`) or plain brace entry is pushed (a full stack is an error).
pub open spec fn opens_brace(o: Lexer, n: Lexer, r: Result<(), ParseError>) -> bool {
    let ltp = o.last_token_pos;
    let drop = o.at(ltp as int) == 41 && o.imports@.len() > 0 && o.imports@.last().end == ltp;
    let token = if o.next_brace_is_class { OpenTokenState::ClassBrace } else { OpenTokenState::AnyBrace };
    &&& n.imports@ == (if drop { o.imports@.drop_last() } else { o.imports@ })
    &&& if o.open_token_depth >= STACK_SIZE {
        r == Err::<(), ParseError>(ParseError { pos: o.pos }) && n == (Lexer { imports: n.imports, ..o })
    } else {
        &&& r is Ok
        &&& n == (Lexer {
            imports: n.imports,
            open_token_stack: n.open_token_stack,
            open_token_depth: n.open_token_depth,
            next_brace_is_class: false,
            ..o
        })
        &&& (n.open_token_stack@, n.open_token_depth as nat) == o.pushed(OpenToken { token, pos: ltp })
    }
}

/// `{`: see `opens_brace`.
#[allow(non_snake_case)]
fn openBrace(lx: &mut Lexer) -> (r: Result<(), ParseError>)
    requires
        old(lx).wf(),
        old(lx).records_wf(),
        0 <= old(lx).pos < old(lx).len(),
    ensures
        opens_brace(*old(lx), *final(lx), r),
        final(lx).lex_step(*old(lx)),
        final(lx).pos == old(lx).pos,
        r is Err <==> old(lx).open_token_depth >= STACK_SIZE,
        r is Ok ==> final(lx).open_token_depth == old(lx).open_token_depth + 1,
        r is Ok ==> !final(lx).next_brace_is_class,
{
    let ghost src = lx.source@;
    if charCodeAt(lx, lx.last_token_pos) == 41 && lx.imports.len() > 0
        && lx.imports[lx.imports.len() - 1].end == lx.last_token_pos {
        let ghost seq0 = lx.imports@;
        popImport(lx);
        proof {
            lemma_imports_wf_drop_last(seq0, src);
        }
    }
    let token = if lx.next_brace_is_class {
        OpenTokenState::ClassBrace
    } else {
        OpenTokenState::AnyBrace
    };
    let ltp = lx.last_token_pos;
    pushOpenToken(lx, token, ltp)?;
    lx.next_brace_is_class = false;
    Ok(())
}

/// How a `}` takes the lexer from `o` to `n`: it pops the open-token stack
/// (nothing open: an error); closing a `${` continues the template
/// (`template_read`).
pub open spec fn closes_brace(o: Lexer, n: Lexer, r: Result<(), ParseError>) -> bool {
    let d = o.open_token_depth as int;
    if d == 0 {
        r == Err::<(), ParseError>(ParseError { pos: o.pos }) && n == o
    } else if o.open_token_stack@[d - 1].token == OpenTokenState::TemplateBrace {
        &&& n == (Lexer { pos: n.pos, open_token_stack: n.open_token_stack, open_token_depth: n.open_token_depth, ..o })
        &&& crate::lexer::template_read(o.source@, o.pos as int, o.open_token_stack@, d - 1,
            n.open_token_stack@, n.open_token_depth as int, n.pos as int, r)
    } else {
        r is Ok && n == (Lexer { open_token_depth: (d - 1) as usize, ..o })
    }
}

/// `}`: see `closes_brace`.
#[allow(non_snake_case)]
fn closeBrace(lx: &mut Lexer) -> (r: Result<(), ParseError>)
    requires
        old(lx).wf(),
        old(lx).records_wf(),
        0 <= old(lx).pos < old(lx).len(),
    ensures
        closes_brace(*old(lx), *final(lx), r),
        final(lx).lex_step(*old(lx)),
        final(lx).pos <= old(lx).len() + 1,
        old(lx).open_token_depth == 0 ==> r is Err,
        r is Ok && old(lx).open_token_stack@[old(lx).open_token_depth - 1].token != OpenTokenState::TemplateBrace
            ==> final(lx).open_token_depth == old(lx).open_token_depth - 1 && final(lx).pos == old(lx).pos,
{
    if lx.open_token_depth == 0 {
        return Err(syntaxError(lx));
    }
    lx.open_token_depth = lx.open_token_depth - 1;
    if lx.open_token_stack[lx.open_token_depth].token == OpenTokenState::TemplateBrace {
        templateString(lx)?;
    }
    Ok(())
}

/// The cursor of `o` stands at the start of a word.
pub open spec fn keyword_start(o: Lexer) -> bool {
    o.pos == 0 || crate::helper::spec_is_boundary(o.at(o.pos - 1))
}

/// How one token of the main lexer, starting with the unit `ch` at the cursor
/// of `o`, takes the lexer to `n` with result `r`. Each kind of token changes
/// the state as its own predicate says, giving `m`; then, unless the token
/// was a comment or an error, it becomes the last token (`n` is `m` with the
/// last token at its cursor). `export` (at the top level) and `import` at a
/// word start are statements; `class` before a blank marks the next brace as
/// a class body; brackets push and pop the open-token stack; strings,
/// comments and templates are skipped; a `/` where an expression may start
/// is a regular expression, else a division; a `<` there opens a JSX
/// element, scanned by `jsx_scan_tolerant` (which never fails and never sets
/// the facade). Anything else only becomes the last token.
pub open spec fn consume_token(o: Lexer, n: Lexer, ch: int, r: Result<(), ParseError>) -> bool
    decreases o.room(), 30int, 0int,
{
    let src = o.source@;
    let p = o.pos as int;
    let m = if r is Ok { Lexer { last_token_pos: o.last_token_pos, ..n } } else { n };
    let comment = ch == 47 && (o.at(p + 1) == 47 || o.at(p + 1) == 42);
    let full = o.open_token_depth >= STACK_SIZE;
    let err_here = r == Err::<(), ParseError>(ParseError { pos: p as i32 });
    &&& (r is Ok && !comment ==> n.last_token_pos == n.pos)
    &&& if ch == 101 && o.open_token_depth == 0 && keyword_start(o)
        && crate::source::spec_starts_with(src, crate::source::utf16_encode("xport"@), p + 1) {
        crate::export::reads_export_statement(o, m, r)
    } else if ch == 105 && keyword_start(o) && crate::source::spec_starts_with(src, crate::source::utf16_encode("mport"@), p + 1) {
        crate::import::reads_import_statement(o, m, r)
    } else if ch == 99 && keyword_start(o) && crate::source::spec_starts_with(src, crate::source::utf16_encode("lass"@), p + 1)
        && crate::helper::spec_is_br_or_ws(o.at(p + 5)) {
        r is Ok && m == (Lexer { next_brace_is_class: true, ..o })
    } else if ch == 40 || ch == 96 {
        let token = if ch == 40 { OpenTokenState::AnyParen } else { OpenTokenState::Template };
        let (st, d) = o.pushed(OpenToken { token, pos: o.last_token_pos });
        if full {
            err_here && m == o
        } else if ch == 40 {
            &&& r is Ok
            &&& m == (Lexer { open_token_stack: m.open_token_stack, open_token_depth: m.open_token_depth, ..o })
            &&& (m.open_token_stack@, m.open_token_depth as nat) == (st, d)
        } else {
            &&& m == (Lexer { pos: m.pos, open_token_stack: m.open_token_stack, open_token_depth: m.open_token_depth, ..o })
            &&& crate::lexer::template_read(src, p, st, d as int, m.open_token_stack@, m.open_token_depth as int, m.pos as int, r)
        }
    } else if ch == 41 {
        closes_paren(o, m, r)
    } else if ch == 123 {
        opens_brace(o, m, r)
    } else if ch == 125 {
        closes_brace(o, m, r)
    } else if ch == 39 || ch == 34 {
        let (ok, q) = crate::lexer::string_scan(src, ch, p);
        &&& m == o.with_pos(q)
        &&& if ok { r is Ok } else { r == Err::<(), ParseError>(ParseError { pos: q as i32 }) }
    } else if ch == 47 {
        if o.at(p + 1) == 47 {
            r is Ok && n == o.with_pos(crate::comment::line_comment_end(src, p))
        } else if o.at(p + 1) == 42 {
            r is Ok && n == o.with_pos(crate::comment::block_comment_end(src, p, true))
        } else if full {
            err_here && m == o
        } else if regex_allowed(o) {
            let (ok, q) = crate::lexer::regex_scan(src, p);
            if ok {
                r is Ok && m == (Lexer { pos: q as i32, last_slash_was_division: false, ..o })
            } else {
                r == Err::<(), ParseError>(ParseError { pos: q as i32 }) && m == o.with_pos(q)
            }
        } else {
            r is Ok && m == (Lexer { last_slash_was_division: true, ..o })
        }
    } else if ch == 60 {
        if full {
            err_here && m == o
        } else if regex_allowed(o) {
            &&& r is Ok
            &&& (n.facade ==> o.facade)
            &&& exists|l: i32|
                #![trigger crate::state::witnessed(l)]
                crate::jsx::jsx_scan_tolerant(o, Lexer { last_token_pos: l, ..n })
        } else {
            r is Ok && m == o
        }
    } else {
        r is Ok && m == o
    }
}

/// One token of the main lexer, starting with the unit `ch` at the cursor
/// (see `consume_token`).
#[allow(non_snake_case)]
#[verifier::rlimit(100)]
#[verifier::spinoff_prover]
pub fn consumeToken(lx: &mut Lexer, ch: i32) -> (r: Result<(), ParseError>)
    requires
        old(lx).wf(),
        old(lx).records_wf(),
        0 <= old(lx).pos < old(lx).len(),
        ch == old(lx).at(old(lx).pos as int),
    ensures
        consume_token(*old(lx), *final(lx), ch as int, r),
        r matches Err(e) ==> e.pos == final(lx).pos,
        final(lx).lex_step(*old(lx)),
        final(lx).pos <= 2 * old(lx).len() + 40 - old(lx).pos,
    decreases 2 * old(lx).len() + POS_SLACK - old(lx).pos, 6nat,
{
    if ch == 101 {
        if lx.open_token_depth == 0 && keywordStart(lx) && starts_with(lx, "xport", lx.pos + 1) {
            let res = tryParseExportStatement(lx);
            if res.is_err() {
                return res;
            }
            proof {
                lemma_unit_ok(res);
            }
        }
    } else if ch == 105 {
        if keywordStart(lx) && starts_with(lx, "mport", lx.pos + 1) {
            let res = tryParseImportStatement(lx);
            if res.is_err() {
                return res;
            }
            proof {
                lemma_unit_ok(res);
            }
        }
    } else if ch == 99 {
        if keywordStart(lx) && starts_with(lx, "lass", lx.pos + 1) && isBrOrWs(charCodeAt(lx, lx.pos + 5)) {
            lx.next_brace_is_class = true;
        }
    } else if ch == 40 {
        let ltp = lx.last_token_pos;
        let res = pushOpenToken(lx, OpenTokenState::AnyParen, ltp);
        if res.is_err() {
            return res;
        }
        proof {
            lemma_unit_ok(res);
        }
    } else if ch == 41 {
        let res = closeParen(lx);
        if res.is_err() {
            return res;
        }
        proof {
            lemma_unit_ok(res);
        }
    } else if ch == 123 {
        let res = openBrace(lx);
        if res.is_err() {
            return res;
        }
        proof {
            lemma_unit_ok(res);
        }
    } else if ch == 125 {
        let res = closeBrace(lx);
        if res.is_err() {
            return res;
        }
        proof {
            lemma_unit_ok(res);
        }
    } else if ch == 39 || ch == 34 {
        let res = stringIteral(lx, ch);
        if res.is_err() {
            return res;
        }
        proof {
            lemma_unit_ok(res);
        }
    } else if ch == 47 {
        if skipComment(lx) {
            // comments do not become the last token
            return Ok(());
        }
        if slashStartsRegex(lx)? {
            let res = regularExpression(lx);
            if res.is_err() {
                return res;
            }
            proof {
                lemma_unit_ok(res);
            }
            lx.last_slash_was_division = false;
        } else {
            lx.last_slash_was_division = true;
        }
    } else if ch == 96 {
        let ltp = lx.last_token_pos;
        let res = pushOpenToken(lx, OpenTokenState::Template, ltp);
        if res.is_err() {
            return res;
        }
        proof {
            lemma_unit_ok(res);
        }
        let res = templateString(lx);
        if res.is_err() {
            return res;
        }
        proof {
            lemma_unit_ok(res);
        }
    } else if ch == 60 {
        // in an expression position `<` cannot be a comparison: it opens JSX
        if slashStartsRegex(lx)? {
            jsxScanTolerant(lx);
            proof {
                assert(crate::state::witnessed(lx.last_token_pos));
            }
        }
    }
    lx.last_token_pos = lx.pos;
    Ok(())
}

/// Whether a line break at the cursor of `lx` ends the statement: the last
/// token can end an expression and the next significant unit starts a word
/// or a string.
pub open spec fn line_break_ends(lx: Lexer) -> bool {
    let lt = lx.at(lx.last_token_pos as int);
    let c = crate::comment::comment_ws(lx.source@, lx.pos as int, true).1;
    &&& !(crate::helper::spec_is_expression_punctuator(lt) || crate::helper::spec_is_expression_keyword(lx.source@, lx.last_token_pos as int))
    &&& (crate::helper::spec_is_token_run_char(c) || crate::helper::spec_is_quote(c))
}

/// Whether a line break at the cursor ends the statement (see `line_break_ends`).
#[allow(non_snake_case)]
fn lineBreakEndsStatement(lx: &mut Lexer) -> (r: bool)
    requires
        old(lx).wf(),
        0 <= old(lx).pos < old(lx).len(),
    ensures
        *final(lx) == *old(lx),
        r == line_break_ends(*old(lx)),
{
    let lastToken = charCodeAt(lx, lx.last_token_pos);
    if isExpressionPunctuator(lastToken) || isExpressionKeyword(lx, lx.last_token_pos) {
        return false;
    }
    let saved = lx.pos;
    let c = commentWhitespace(lx, true);
    setPos(lx, saved);
    isTokenRunChar(c) || isQuote(c)
}

/// The end of a step of `skipExpression` from `s` with `b` square brackets
/// open, at bracket depth `base`, for a computed key (`computed`) or not, at
/// statement level (`stmt`) or not: the step reads the next unit; the
/// expression ends (`n`, result `r`) at the end of the source (the unit read
/// past the last one, 0), at a line break that ends the statement, at a `,`,
/// `)`, `]`, `}` (or `;` at statement level) of the starting level, at the `]`
/// that closes a computed key, or when a token fails.
pub open spec fn skip_end(s: Lexer, b: int, n: Lexer, r: Result<i32, ParseError>, base: int, computed: bool, stmt: bool) -> bool
    decreases s.room(), 19int, 0int,
{
    let x = s.pos + 1;
    let ch = s.at(x);
    let u = s.with_pos(x);
    let level = u.open_token_depth == base && b == 0;
    if s.pos >= s.len() - 1 {
        n == u && r == Ok::<i32, ParseError>(ch as i32)
    } else if s.pos < -1 || s.len() > crate::state::MAX_SOURCE_LEN {
        false
    } else if ch == 32 || (8 < ch < 14) {
        stmt && crate::helper::spec_is_br(ch) && level && line_break_ends(u) && n == u && r == Ok::<i32, ParseError>(ch as i32)
    } else if level && (ch == 44 || ch == 41 || ch == 93 || ch == 125 || (stmt && ch == 59)) {
        n == u && r == Ok::<i32, ParseError>(ch as i32)
    } else if ch == 91 {
        false
    } else if ch == 93 && b > 0 {
        computed && b == 1 && u.open_token_depth == base && n == (Lexer { last_token_pos: x as i32, ..u })
            && r == Ok::<i32, ParseError>(ch as i32)
    } else {
        r matches Err(e) && consume_token(u, n, ch, Err(e))
    }
}

/// A step of `skipExpression` that goes on, from `s` with `b` square
/// brackets open to `t` with `b2` open (see `skip_end`): blanks are skipped,
/// `[` and `]` count square brackets (and become the last token), any other
/// unit starts a token read by `consume_token`.
pub open spec fn skip_step(s: Lexer, b: int, t: Lexer, b2: int, base: int, computed: bool, stmt: bool) -> bool
    decreases s.room(), 19int, 0int,
{
    let x = s.pos + 1;
    let ch = s.at(x);
    let u = s.with_pos(x);
    let level = u.open_token_depth == base && b == 0;
    &&& -1 <= s.pos < s.len() - 1
    &&& s.len() <= crate::state::MAX_SOURCE_LEN
    &&& if ch == 32 || (8 < ch < 14) {
        !(stmt && crate::helper::spec_is_br(ch) && level && line_break_ends(u)) && t == u && b2 == b
    } else if level && (ch == 44 || ch == 41 || ch == 93 || ch == 125 || (stmt && ch == 59)) {
        false
    } else if ch == 91 {
        t == (Lexer { last_token_pos: x as i32, ..u }) && b2 == b + 1
    } else if ch == 93 && b > 0 {
        !(computed && b == 1 && u.open_token_depth == base) && t == (Lexer { last_token_pos: x as i32, ..u }) && b2 == b - 1
    } else {
        consume_token(u, t, ch, Ok(())) && b2 == b
    }
}

/// Consecutive states of `tr` (with their open square brackets) are steps of
/// `skipExpression` that go on, none before the state `o`.
pub open spec fn skip_trace(o: Lexer, tr: Seq<(Lexer, int)>, base: int, computed: bool, stmt: bool) -> bool
    decreases o.room(), 20int, tr.len(),
{
    if tr.len() <= 1 {
        true
    } else {
        &&& skip_trace(o, tr.drop_last(), base, computed, stmt)
        &&& o.later(tr[tr.len() - 2].0)
        &&& skip_step(tr[tr.len() - 2].0, tr[tr.len() - 2].1, tr.last().0, tr.last().1, base, computed, stmt)
    }
}

/// `skipExpression` takes the lexer from `o` (cursor on the `=` or `[`) to
/// `n` with result `r`: the `=` or `[` becomes the last token (a `[` counts
/// as an open square bracket), then steps go on until one ends the
/// expression (`skip_end`).
pub open spec fn skip_run(o: Lexer, n: Lexer, r: Result<i32, ParseError>, stmt: bool) -> bool
    decreases o.room(), 21int, 0int,
{
    let base = o.open_token_depth as int;
    let computed = o.at(o.pos as int) == 91;
    let o1 = Lexer { last_token_pos: o.pos, ..o };
    exists|tr: Seq<(Lexer, int)>|
        #![trigger crate::state::witnessed(tr)]
        {
            &&& skip_trace(o, tr, base, computed, stmt)
            &&& tr.len() >= 1
            &&& tr[0] == (o1, if computed { 1int } else { 0int })
            &&& o.later(tr.last().0)
            &&& skip_end(tr.last().0, tr.last().1, n, r, base, computed, stmt)
        }
}

/// Skips one expression, the cursor on the `=` before it (or on the `[` of a
/// computed key, then up to the matching `]`), as `skip_run` says. Returns
/// the unit it stops on.
#[allow(non_snake_case)]
#[verifier::loop_isolation(false)]
#[verifier::rlimit(100)]
#[verifier::spinoff_prover]
pub fn skipExpression(lx: &mut Lexer, statementLevel: bool) -> (r: Result<i32, ParseError>)
    requires
        old(lx).wf(),
        old(lx).records_wf(),
        0 <= old(lx).pos < old(lx).len(),
        old(lx).at(old(lx).pos as int) == 61 || old(lx).at(old(lx).pos as int) == 91,
    ensures
        skip_run(*old(lx), *final(lx), r, statementLevel),
        r matches Err(e) ==> e.pos == final(lx).pos,
        final(lx).lex_step(*old(lx)),
        old(lx).imports_ordered() && r is Ok ==> final(lx).imports_well_before(),
        old(lx).pos < final(lx).pos <= 2 * old(lx).len() + 40 - old(lx).pos,
        r matches Ok(c) ==> c == final(lx).at(final(lx).pos as int),
    decreases 2 * old(lx).len() + POS_SLACK - old(lx).pos, 1nat,
{
    let ghost src = lx.source@;
    let ghost p0 = lx.pos as int;
    let base = lx.open_token_depth;
    let computed = charCodeAt(lx, lx.pos) == 91;
    let mut brackets: usize = if computed {
        1
    } else {
        0
    };
    lx.last_token_pos = lx.pos;
    let ghost mut tr: Seq<(Lexer, int)> = seq![(*lx, brackets as int)];
    loop
        invariant
            lx.lex_step(*old(lx)),
            p0 <= lx.pos <= 2 * src.len() + 39 - p0,
            src == lx.source@,
            brackets <= lx.pos - p0 + 1,
            skip_trace(*old(lx), tr, base as int, computed, statementLevel),
            old(lx).later(*lx),
            tr.len() >= 1,
            tr[0] == (Lexer { last_token_pos: old(lx).pos, ..*old(lx) }, if computed { 1int } else { 0int }),
            tr.last() == (*lx, brackets as int),
            crate::state::witnessed(tr),
            base == old(lx).open_token_depth,
            computed == (old(lx).at(old(lx).pos as int) == 91),
        decreases 2 * src.len() + POS_SLACK - lx.pos,
    {
        proof {
            reveal_with_fuel(skip_trace, 2);
        }
        let ghost s = *lx;
        let ghost b = brackets as int;
        if !posIncLtEnd(lx) {
            return Ok(charCodeAt(lx, lx.pos));
        }
        let ch = charCodeAt(lx, lx.pos);
        if ch == 32 || (ch < 14 && ch > 8) {
            if statementLevel && isBr(ch) && lx.open_token_depth == base && brackets == 0
                && lineBreakEndsStatement(lx) {
                return Ok(ch);
            }
            proof {
                assert(tr.push((*lx, b)).drop_last() =~= tr);
                tr = tr.push((*lx, b));
            }
            continue;
        }
        if lx.open_token_depth == base && brackets == 0 {
            if ch == 44 || ch == 41 || ch == 93 || ch == 125 {
                return Ok(ch);
            }
            if statementLevel && ch == 59 {
                return Ok(ch);
            }
        }
        if ch == 91 {
            brackets = brackets + 1;
            lx.last_token_pos = lx.pos;
            proof {
                assert(tr.push((*lx, b + 1)).drop_last() =~= tr);
                tr = tr.push((*lx, b + 1));
            }
            continue;
        }
        if ch == 93 && brackets > 0 {
            brackets = brackets - 1;
            lx.last_token_pos = lx.pos;
            if computed && brackets == 0 && lx.open_token_depth == base {
                return Ok(ch);
            }
            proof {
                assert(tr.push((*lx, b - 1)).drop_last() =~= tr);
                tr = tr.push((*lx, b - 1));
            }
            continue;
        }
        let res = consumeToken(lx, ch);
        if let Err(e) = res {
            return Err(e);
        }
        proof {
            lemma_unit_ok(res);
            assert(tr.push((*lx, b)).drop_last() =~= tr);
            tr = tr.push((*lx, b));
        }
    }
}

/// One step of the module-only pass from `s` to `t` with result `r`; `go`
/// tells whether the pass goes on. The cursor moves one unit on (the last
/// unit not reached yet). Blanks and comments are skipped; an `export`
/// statement at the top level (`reads_export_statement`) or an `import`
/// (`reads_import_statement`) is read, and after an export that cleared the
/// facade the pass stops; `;` and an `e` or `i` that starts no statement
/// only become the last token. Any other unit clears the facade and stops the
/// pass with the cursor back before it.
pub open spec fn module_step(s: Lexer, t: Lexer, r: Result<(), ParseError>, go: bool) -> bool {
    let x = s.pos + 1;
    let ch = s.at(x);
    let u = s.with_pos(x);
    let src = s.source@;
    let m = if r is Ok { Lexer { last_token_pos: s.last_token_pos, ..t } } else { t };
    &&& s.pos < s.len() - 1
    &&& if ch == 32 || (8 < ch < 14) {
        r is Ok && go && t == u
    } else if ch == 101 && s.open_token_depth == 0 && keyword_start(u)
        && crate::source::spec_starts_with(src, crate::source::utf16_encode("xport"@), x + 1) {
        &&& crate::export::reads_export_statement(u, m, r)
        &&& r is Ok ==> t.last_token_pos == t.pos && go == t.facade
        &&& r is Err ==> !go
    } else if ch == 105 && keyword_start(u) && crate::source::spec_starts_with(src, crate::source::utf16_encode("mport"@), x + 1) {
        &&& crate::import::reads_import_statement(u, m, r)
        &&& r is Ok ==> t.last_token_pos == t.pos && go
        &&& r is Err ==> !go
    } else if ch == 101 || ch == 105 || ch == 59 {
        r is Ok && go && t == (Lexer { last_token_pos: x as i32, ..u })
    } else if ch == 47 && s.at(x + 1) == 47 {
        r is Ok && go && t == s.with_pos(crate::comment::line_comment_end(src, x))
    } else if ch == 47 && s.at(x + 1) == 42 {
        r is Ok && go && t == s.with_pos(crate::comment::block_comment_end(src, x, true))
    } else {
        r is Ok && !go && t == (Lexer { facade: false, ..s })
    }
}

/// Consecutive states of `tr` are steps of the module-only pass that go on.
pub open spec fn module_trace(tr: Seq<Lexer>) -> bool
    decreases tr.len(),
{
    if tr.len() <= 1 {
        true
    } else {
        module_trace(tr.drop_last()) && module_step(tr[tr.len() - 2], tr.last(), Ok(()), true)
    }
}

/// The module-only pass takes the lexer from `o` to `n` with result `r`: a
/// run of steps that go on, then either the last unit is reached (the cursor
/// moves past it) or a step stops the pass.
pub open spec fn module_run(o: Lexer, n: Lexer, r: Result<(), ParseError>) -> bool {
    exists|tr: Seq<Lexer>|
        #![trigger module_trace(tr)]
        {
            &&& module_trace(tr)
            &&& tr.len() >= 1
            &&& tr[0] == o
            &&& ({
                let s = tr.last();
                ||| (r is Ok && s.pos >= s.len() - 1 && n == s.with_pos(s.pos + 1))
                ||| module_step(s, n, r, false)
            })
        }
}

/// The first pass: reads module syntax only until anything else, which
/// clears the facade and hands over to the main pass (see `module_run`).
#[allow(non_snake_case)]
#[verifier::loop_isolation(false)]
#[verifier::rlimit(60)]
fn moduleOnlyParse(lx: &mut Lexer) -> (r: Result<(), ParseError>)
    requires
        old(lx).wf(),
        old(lx).records_wf(),
        old(lx).pos == -1,
    ensures
        module_run(*old(lx), *final(lx), r),
        r matches Err(e) ==> e.pos == final(lx).pos,
        final(lx).lex_step(*old(lx)),
        final(lx).pos <= 2 * old(lx).len() + 41,
{
    let ghost src = lx.source@;
    let ghost mut tr: Seq<Lexer> = seq![*lx];
    loop
        invariant
            lx.lex_step(*old(lx)),
            lx.pos <= 2 * src.len() + 40,
            src == lx.source@,
            module_trace(tr),
            tr.len() >= 1,
            tr[0] == *old(lx),
            tr.last() == *lx,
        decreases 2 * src.len() + POS_SLACK - lx.pos,
    {
        let ghost s = *lx;
        if !posIncLtEnd(lx) {
            break;
        }
        let ch = charCodeAt(lx, lx.pos);
        if ch == 32 || (ch < 14 && ch > 8) {
            proof {
                assert(tr.push(*lx).drop_last() =~= tr);
                tr = tr.push(*lx);
            }
            continue;
        }
        if ch == 101 {
            if lx.open_token_depth == 0 && keywordStart(lx) && starts_with(lx, "xport", lx.pos + 1) {
                let ghost u = *lx;
                let res = tryParseExportStatement(lx);
                if res.is_err() {
                    return res;
                }
                proof {
                    lemma_unit_ok(res);
                }
                // export might have been a non-pure declaration
                if !lx.facade {
                    lx.last_token_pos = lx.pos;
                    return Ok(());
                }
            }
        } else if ch == 105 {
            if keywordStart(lx) && starts_with(lx, "mport", lx.pos + 1) {
                let res = tryParseImportStatement(lx);
                if res.is_err() {
                    return res;
                }
                proof {
                    lemma_unit_ok(res);
                }
            }
        } else if ch == 59 {
        } else if ch == 47 && (charCodeAt(lx, lx.pos + 1) == 47 || charCodeAt(lx, lx.pos + 1) == 42) {
            // comments do not become the last token
            skipComment(lx);
            proof {
                assert(tr.push(*lx).drop_last() =~= tr);
                tr = tr.push(*lx);
            }
            continue;
        } else {
            // as soon as we hit a non-module token, we go to main parser
            lx.facade = false;
            prev(lx);
            return Ok(());
        }
        lx.last_token_pos = lx.pos;
        proof {
            assert(tr.push(*lx).drop_last() =~= tr);
            tr = tr.push(*lx);
        }
    }
    Ok(())
}

/// One step of the main pass from `s` to `t` with result `r`: the cursor
/// moves one unit on (the last unit not reached yet); a blank is skipped,
/// any other unit starts a token read by `consume_token`.
pub open spec fn main_step(s: Lexer, t: Lexer, r: Result<(), ParseError>) -> bool {
    let x = s.pos + 1;
    let ch = s.at(x);
    &&& s.pos < s.len() - 1
    &&& if ch == 32 || (8 < ch < 14) {
        r is Ok && t == s.with_pos(x)
    } else {
        consume_token(s.with_pos(x), t, ch, r)
    }
}

/// Consecutive states of `tr` are successful steps of the main pass.
pub open spec fn main_trace(tr: Seq<Lexer>) -> bool
    decreases tr.len(),
{
    if tr.len() <= 1 {
        true
    } else {
        main_trace(tr.drop_last()) && main_step(tr[tr.len() - 2], tr.last(), Ok(()))
    }
}

/// The main pass takes the lexer from `o` to `n` with result `r`: a run of
/// successful steps from `o`, then either the last unit is reached (the
/// cursor moves past it) or a step fails.
pub open spec fn main_run(o: Lexer, n: Lexer, r: Result<(), ParseError>) -> bool {
    exists|tr: Seq<Lexer>|
        #![trigger main_trace(tr)]
        {
            &&& main_trace(tr)
            &&& tr.len() >= 1
            &&& tr[0] == o
            &&& ({
                let s = tr.last();
                ||| (r is Ok && s.pos >= s.len() - 1 && n == s.with_pos(s.pos + 1))
                ||| (r is Err && main_step(s, n, r))
            })
        }
}

/// The main pass: every token through `consumeToken` until the end (see `main_run`).
#[allow(non_snake_case)]
#[verifier::loop_isolation(false)]
fn mainParse(lx: &mut Lexer) -> (r: Result<(), ParseError>)
    requires
        old(lx).wf(),
        old(lx).records_wf(),
        old(lx).pos <= 2 * old(lx).len() + 41,
    ensures
        main_run(*old(lx), *final(lx), r),
        r matches Err(e) ==> e.pos == final(lx).pos,
        final(lx).lex_step(*old(lx)),
{
    let ghost src = lx.source@;
    let ghost mut tr: Seq<Lexer> = seq![*lx];
    loop
        invariant
            lx.lex_step(*old(lx)),
            lx.pos <= 2 * src.len() + 41,
            src == lx.source@,
            main_trace(tr),
            tr.len() >= 1,
            tr[0] == *old(lx),
            tr.last() == *lx,
        decreases 2 * src.len() + POS_SLACK - lx.pos,
    {
        let ghost s = *lx;
        if !posIncLtEnd(lx) {
            proof {
                assert(main_trace(tr));
            }
            break;
        }
        let ch = charCodeAt(lx, lx.pos);
        if ch == 32 || (ch < 14 && ch > 8) {
            proof {
                assert(tr.push(*lx).drop_last() =~= tr);
                tr = tr.push(*lx);
            }
            continue;
        }
        let ghost u = *lx;
        let res = consumeToken(lx, ch);
        if res.is_err() {
            proof {
                assert(main_trace(tr));
            }
            return res;
        }
        proof {
            assert(u == s.with_pos(s.pos + 1));
            assert(consume_token(u, *lx, ch as int, res));
            lemma_unit_ok(res);
            assert(consume_token(u, *lx, ch as int, Ok(())));
            assert(main_step(s, *lx, Ok(())));
            assert(tr.push(*lx).drop_last() =~= tr);
            tr = tr.push(*lx);
        }
    }
    Ok(())
}


/// What every reported import keeps: the phase type `t`
/// matches `d` (-1 static: 1, 4 or 6; -2 `import.meta`: 3; otherwise the
/// position of the `(`: 2, 5 or 7), and a static import's specifier `[s, e)`
/// stands between two equal quotes after its statement start `ss`, its name
/// `n` being their decoded content.
pub open spec fn import_reported_wf(r: crate::helper::Import, src: Seq<u16>) -> bool {
    &&& r.d >= -2
    &&& r.d == -1 ==> (r.t == 1 || r.t == 4 || r.t == 6)
    &&& r.d == -2 ==> r.t == 3
    &&& r.d >= 0 ==> (r.t == 2 || r.t == 5 || r.t == 7)
    &&& r.d == -1 ==> {
        &&& 0 <= r.ss < r.s
        &&& 1 <= r.s <= r.e < src.len()
        &&& (src[r.s - 1] == 39 || src[r.s - 1] == 34)
        &&& src[r.e as int] == src[r.s - 1]
        &&& (match r.n {
            Some(n) => crate::import::spec_eval_literal(src, r.s - 1) == Some(n@),
            None => crate::import::spec_eval_literal(src, r.s - 1) is None,
        })
    }
}

/// A token never sets the facade.
proof fn lemma_consume_token_facade(o: Lexer, n: Lexer, ch: int)
    requires
        consume_token(o, n, ch, Ok(())),
    ensures
        n.facade ==> o.facade,
{
}

/// Along a run of main-pass steps the facade is never set.
proof fn lemma_main_trace_facade(tr: Seq<Lexer>)
    requires
        main_trace(tr),
        tr.len() >= 1,
    ensures
        tr.last().facade ==> tr[0].facade,
    decreases tr.len(),
{
    if tr.len() > 1 {
        let s = tr[tr.len() - 2];
        let t = tr.last();
        lemma_main_trace_facade(tr.drop_last());
        assert(tr.drop_last().last() == s);
        assert(tr.drop_last()[0] == tr[0]);
        let ch = s.at(s.pos + 1);
        if !(ch == 32 || (8 < ch < 14)) {
            lemma_consume_token_facade(s.with_pos(s.pos + 1), t, ch);
        }
    }
}

/// A successful main pass never sets the facade.
proof fn lemma_main_run_facade(o: Lexer, n: Lexer)
    requires
        main_run(o, n, Ok(())),
    ensures
        n.facade ==> o.facade,
{
    let tr = choose|tr: Seq<Lexer>|
        #![trigger main_trace(tr)]
        {
            &&& main_trace(tr)
            &&& tr.len() >= 1
            &&& tr[0] == o
            &&& ({
                let s = tr.last();
                ||| (Ok::<(), ParseError>(()) is Ok && s.pos >= s.len() - 1 && n == s.with_pos(s.pos + 1))
                ||| (Ok::<(), ParseError>(()) is Err && main_step(s, n, Ok(())))
            })
        };
    lemma_main_trace_facade(tr);
}

/// A main pass that starts at the end of the source takes no step.
proof fn lemma_main_run_at_end(o: Lexer, n: Lexer)
    requires
        main_run(o, n, Ok(())),
        o.pos >= o.len() - 1,
    ensures
        n == o.with_pos(o.pos + 1),
{
    let tr = choose|tr: Seq<Lexer>|
        #![trigger main_trace(tr)]
        {
            &&& main_trace(tr)
            &&& tr.len() >= 1
            &&& tr[0] == o
            &&& ({
                let s = tr.last();
                ||| (Ok::<(), ParseError>(()) is Ok && s.pos >= s.len() - 1 && n == s.with_pos(s.pos + 1))
                ||| (Ok::<(), ParseError>(()) is Err && main_step(s, n, Ok(())))
            })
        };
    if tr.len() > 1 {
        lemma_main_trace_first(tr);
    }
}

/// The first step of a run of main-pass steps starts before the last unit.
proof fn lemma_main_trace_first(tr: Seq<Lexer>)
    requires
        main_trace(tr),
        tr.len() > 1,
    ensures
        tr[0].pos < tr[0].len() - 1,
    decreases tr.len(),
{
    if tr.len() > 2 {
        lemma_main_trace_first(tr.drop_last());
        assert(tr.drop_last()[0] == tr[0]);
    } else {
        assert(tr.drop_last().last() == tr[0]);
    }
}

/// Module syntax keeps the facade: along a run of module-only steps that go
/// on, a facade stays a facade.
pub proof fn law_module_syntax_keeps_facade(tr: Seq<Lexer>)
    requires
        module_trace(tr),
        tr.len() >= 1,
        tr[0].facade,
    ensures
        tr.last().facade,
    decreases tr.len(),
{
    if tr.len() > 1 {
        law_module_syntax_keeps_facade(tr.drop_last());
        assert(tr.drop_last().last() == tr[tr.len() - 2]);
        assert(tr.drop_last()[0] == tr[0]);
    }
}

/// A facade uses module syntax only: when the two passes succeed with the
/// facade still set, the module-only pass read the whole source in steps
/// that went on (blanks, comments, `;`, imports and exports that keep the
/// facade), from the start to the last unit.
pub proof fn law_facade_means_module_syntax_only(o1: Lexer, n: Lexer)
    requires
        passes(o1, n, Ok(())),
        n.facade,
    ensures
        exists|tr: Seq<Lexer>|
            #![trigger module_trace(tr)]
            module_trace(tr) && tr.len() >= 1 && tr[0] == o1 && tr.last().pos >= tr.last().len() - 1 && tr.last().facade,
{
    let m1 = choose|m1: Lexer| #[trigger] module_run(o1, m1, Ok(())) && main_run(m1, n, Ok(()));
    lemma_main_run_facade(m1, n);
    let tr = choose|tr: Seq<Lexer>|
        #![trigger module_trace(tr)]
        {
            &&& module_trace(tr)
            &&& tr.len() >= 1
            &&& tr[0] == o1
            &&& ({
                let s = tr.last();
                ||| (Ok::<(), ParseError>(()) is Ok && s.pos >= s.len() - 1 && m1 == s.with_pos(s.pos + 1))
                ||| module_step(s, m1, Ok(()), false)
            })
        };
    let s = tr.last();
    if !(s.pos >= s.len() - 1 && m1 == s.with_pos(s.pos + 1)) {
        assert(module_step(s, m1, Ok(()), false));
        assert(!m1.facade);
    }
    assert(module_trace(tr) && tr.len() >= 1 && tr[0] == o1 && tr.last().pos >= tr.last().len() - 1 && tr.last().facade);
}

/// A module that the module-only pass reads to the end is a facade: after a
/// run of module-only steps from a facade up to the last unit, the main pass
/// has nothing left to read and the result keeps the facade.
pub proof fn law_module_syntax_only_is_facade(tr: Seq<Lexer>, n: Lexer)
    requires
        module_trace(tr),
        tr.len() >= 1,
        tr[0].facade,
        tr.last().wf(),
        tr.last().pos >= tr.last().len() - 1,
        main_run(tr.last().with_pos(tr.last().pos + 1), n, Ok(())),
    ensures
        n.facade,
{
    law_module_syntax_keeps_facade(tr);
    lemma_main_run_at_end(tr.last().with_pos(tr.last().pos + 1), n);
}

/// Every import record that `reports_import` turns into a reported import
/// keeps the promises of `import_reported_wf`.
pub proof fn lemma_reported_import_wf(r: crate::helper::Import, imp: crate::state::ImportState, src: Seq<u16>)
    requires
        crate::state::import_wf(imp, src),
        crate::import::reports_import(r, imp, src),
    ensures
        import_reported_wf(r, src),
{
}

/// What every reported export keeps: it has its name `n`, and its local
/// name is whole or absent: `ls`, `le` and `ln` are all there, or `ls` and
/// `le` are -1 and `ln` is `None`.
pub open spec fn export_reported_wf(r: crate::helper::Export) -> bool {
    &&& r.n is Some
    &&& (r.ls == -1) == (r.le == -1)
    &&& (r.ls == -1) == (r.ln is None)
}

/// Every export record that `reports_export` turns into a reported export
/// keeps the promises of `export_reported_wf`.
pub proof fn lemma_reported_export_wf(r: crate::helper::Export, e: crate::state::ExportState, src: Seq<u16>)
    requires
        crate::state::export_wf(e),
        crate::export::reports_export(r, e, src),
    ensures
        export_reported_wf(r),
{
}

/// `o1` is `o` made ready for a run: the cursor before the first unit, no
/// bracket open, no import, export or flag left, the facade assumed.
pub open spec fn fresh_start(o1: Lexer, o: Lexer) -> bool {
    &&& o1 == (Lexer {
        pos: -1i32,
        facade: true,
        open_token_depth: 0,
        last_token_pos: -1i32,
        last_slash_was_division: false,
        next_brace_is_class: false,
        jsx_tolerant_eof: false,
        imports: o1.imports,
        dynamic_import_stack: o1.dynamic_import_stack,
        exports: o1.exports,
        export_statement_start: -1i32,
        ..o
    })
    &&& o1.imports@.len() == 0
    &&& o1.dynamic_import_stack@.len() == 0
    &&& o1.exports@.len() == 0
}

/// The two passes take the lexer from `o1` to `n` with result `r`: the
/// module-only pass (`module_run`), and when it succeeds the main pass
/// (`main_run`) from where it stopped.
pub open spec fn passes(o1: Lexer, n: Lexer, r: Result<(), ParseError>) -> bool {
    ||| (r is Err && module_run(o1, n, r))
    ||| exists|m1: Lexer| #[trigger] module_run(o1, m1, Ok(())) && main_run(m1, n, r)
}

/// Lexes the whole source from the start: from `fresh_start` the two passes
/// run (`passes`); brackets left open at the end (outside tolerated JSX) are
/// a syntax error at the end. The result holds the reported imports and
/// exports of the final state and whether the module is a facade.
pub fn parse(lx: &mut Lexer) -> (r: Result<crate::helper::ParseResult, ParseError>)
    requires
        old(lx).wf(),
    ensures
        exists|o1: Lexer| #[trigger] fresh_start(o1, *old(lx)) && ({
            let n = *final(lx);
            let closed = n.open_token_depth == 0 || n.jsx_tolerant_eof;
            match r {
                Ok(_) => passes(o1, n, Ok(())) && closed,
                Err(e) => e.pos == n.pos && (passes(o1, n, Err(e)) || (passes(o1, n, Ok(())) && !closed)),
            }
        }),
        final(lx).wf(),
        final(lx).source == old(lx).source,
        r matches Ok((imports, exports, facade)) ==> {
            &&& facade == final(lx).facade
            &&& imports@.len() == final(lx).imports@.len()
            &&& forall|i: int| 0 <= i < imports@.len() ==> #[trigger] crate::import::reports_import(imports@[i], final(lx).imports@[i], final(lx).source@)
            &&& forall|i: int| 0 <= i < imports@.len() ==> #[trigger] import_reported_wf(imports@[i], final(lx).source@)
            &&& forall|i: int, j: int| 0 <= i < j < imports@.len() ==> #[trigger] imports@[i].ss < #[trigger] imports@[j].ss
            &&& exports@.len() == final(lx).exports@.len()
            &&& forall|i: int| 0 <= i < exports@.len() ==> #[trigger] crate::export::reports_export(exports@[i], final(lx).exports@[i], final(lx).source@)
            &&& forall|i: int| 0 <= i < exports@.len() ==> #[trigger] export_reported_wf(exports@[i])
            &&& final(lx).open_token_depth == 0 || final(lx).jsx_tolerant_eof
        },
{
    setPos(lx, -1);
    crate::lexer::reset(lx);
    crate::import::reset(lx);
    crate::export::reset(lx);
    proof {
        reveal(crate::state::all_imports_wf);
        reveal(crate::state::all_exports_wf);
    }
    let ghost o1 = *lx;
    assert(fresh_start(o1, *old(lx)));
    assert(o1.imports_ordered());
    // start with a pure "module-only" parser
    let first = moduleOnlyParse(lx);
    if let Err(e) = first {
        proof {
            assert(passes(o1, *lx, Err(e)));
        }
        return Err(e);
    }
    proof {
        lemma_unit_ok(first);
    }
    let ghost m1 = *lx;
    // then the main parser, continuing from the same position
    let second = mainParse(lx);
    if let Err(e) = second {
        proof {
            assert(module_run(o1, m1, Ok(())));
            assert(passes(o1, *lx, Err(e)));
        }
        return Err(e);
    }
    proof {
        lemma_unit_ok(second);
        assert(module_run(o1, m1, Ok(())));
        assert(passes(o1, *lx, Ok(())));
    }
    if lx.open_token_depth != 0 && !lx.jsx_tolerant_eof {
        return Err(syntaxError(lx));
    }
    let imports = crate::import::getImports(lx);
    let exports = crate::export::getExports(lx);
    proof {
        assert forall|i: int| 0 <= i < imports@.len() implies #[trigger] import_reported_wf(imports@[i], lx.source@) by {
            crate::state::lemma_imports_wf_get(lx.imports@, i, lx.source@);
            lemma_reported_import_wf(imports@[i], lx.imports@[i], lx.source@);
        }
        assert forall|i: int, j: int| 0 <= i < j < imports@.len() implies #[trigger] imports@[i].ss < #[trigger] imports@[j].ss by {
            assert(crate::import::reports_import(imports@[i], lx.imports@[i], lx.source@));
            assert(crate::import::reports_import(imports@[j], lx.imports@[j], lx.source@));
            assert(lx.imports@[i].statement_start < lx.imports@[j].statement_start);
        }
        assert forall|i: int| 0 <= i < exports@.len() implies #[trigger] export_reported_wf(exports@[i]) by {
            crate::state::lemma_exports_wf_get(lx.exports@, i);
            lemma_reported_export_wf(exports@[i], lx.exports@[i], lx.source@);
        }
    }
    Ok((imports, exports, lx.facade))
}

} // verus!
