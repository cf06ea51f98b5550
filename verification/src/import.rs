use vstd::prelude::*;
use crate::state::{Lexer, ImportState, OpenToken, OpenTokenState, ParseError, import_wf, max, unit_at, POS_SLACK, STACK_SIZE, lemma_imports_wf_push, lemma_imports_wf_update, lemma_imports_wf_get};
use crate::comment::{commentWhitespace, comment_ws, skipped_blank};
use crate::helper::{isBrOrWs, isBrOrWsOrPunctuatorNotDot, isQuote, isSpread, spec_is_boundary, spec_is_br_or_ws, spec_is_quote, syntaxError};
use crate::lexer::{noSubstitutionTemplate, no_subst_scan, pushOpenToken, readToWsOrPunctuator, stringIteral, string_scan};
use crate::position::{next, prev, setPos, step};
use crate::source::{charCodeAt, end, spec_starts_with, starts_with, stringify, utf16_decode_lossy, utf16_encode, clamped_range};
use crate::lexer::{evalLiteral, literal_decode};
use crate::helper::Import;

verus! {

/// `d` of a static import.
pub const STANDARD_IMPORT: i32 = -1;

/// `d` of `import.meta`.
pub const IMPORT_META: i32 = -2;

/// Phase types.
pub const STATIC: i32 = 1;

pub const DYNAMIC: i32 = 2;

pub const META: i32 = 3;

pub const STATIC_SOURCE_PHASE: i32 = 4;

pub const DYNAMIC_SOURCE_PHASE: i32 = 5;

pub const STATIC_DEFER_PHASE: i32 = 6;

pub const DYNAMIC_DEFER_PHASE: i32 = 7;

/// `imp` is the record that `addImport(ss, s, e, d)` creates.
pub open spec fn is_new_import(imp: ImportState, ss: i32, s: i32, e: i32, d: i32) -> bool {
    &&& imp.start == s
    &&& imp.end == e
    &&& imp.statement_start == ss
    &&& imp.statement_end == (if d == IMPORT_META {
        e as int
    } else if d == STANDARD_IMPORT {
        e + 1
    } else {
        0
    })
    &&& imp.attr_index == 0
    &&& imp.dynamic == d
    &&& imp.safe == (d == STANDARD_IMPORT)
    &&& imp.import_ty == (if d == IMPORT_META {
        META
    } else if d == STANDARD_IMPORT {
        STATIC
    } else {
        DYNAMIC
    })
    &&& imp.attributes@.len() == 0
}

/// Forgets all imports and dynamic imports in progress.
pub fn reset(lx: &mut Lexer)
    ensures
        *final(lx) == (Lexer { imports: final(lx).imports, dynamic_import_stack: final(lx).dynamic_import_stack, ..*old(lx) }),
        final(lx).imports@.len() == 0,
        final(lx).dynamic_import_stack@.len() == 0,
        final(lx).source == old(lx).source,
        final(lx).pos == old(lx).pos,
        final(lx).exports == old(lx).exports,
        final(lx).open_token_depth == old(lx).open_token_depth,
        final(lx).open_token_stack == old(lx).open_token_stack,
        final(lx).last_token_pos == old(lx).last_token_pos,
{
    lx.imports = Vec::new();
    lx.dynamic_import_stack = Vec::new();
}

/// Records an import (see `new_import`) and returns its index.
#[allow(non_snake_case)]
pub fn addImport(lx: &mut Lexer, ss: i32, s: i32, e: i32, d: i32) -> (r: usize)
    requires
        d != STANDARD_IMPORT || e < i32::MAX,
    ensures
        final(lx).imports@.len() == old(lx).imports@.len() + 1,
        final(lx).imports@.drop_last() == old(lx).imports@,
        is_new_import(final(lx).imports@.last(), ss, s, e, d),
        r == old(lx).imports@.len(),
        final(lx).source == old(lx).source,
        final(lx).pos == old(lx).pos,
        final(lx).exports == old(lx).exports,
        final(lx).open_token_depth == old(lx).open_token_depth,
        final(lx).open_token_stack == old(lx).open_token_stack,
        final(lx).dynamic_import_stack == old(lx).dynamic_import_stack,
        final(lx).last_token_pos == old(lx).last_token_pos,
        final(lx).facade == old(lx).facade,
        final(lx).next_brace_is_class == old(lx).next_brace_is_class,
        final(lx).last_slash_was_division == old(lx).last_slash_was_division,
        final(lx).jsx_tolerant_eof == old(lx).jsx_tolerant_eof,
        final(lx).export_statement_start == old(lx).export_statement_start,
{
    let (se, t) = if d == IMPORT_META {
        (e, META)
    } else if d == STANDARD_IMPORT {
        (e + 1, STATIC)
    } else {
        (0, DYNAMIC)
    };
    let impt = ImportState {
        start: s,
        end: e,
        statement_start: ss,
        statement_end: se,
        attr_index: 0,
        dynamic: d,
        safe: d == STANDARD_IMPORT,
        import_ty: t,
        attributes: Vec::new(),
    };
    lx.imports.push(impt);
    lx.imports.len() - 1
}


/// The import at `index`, copied.
#[allow(non_snake_case)]
pub fn getState(lx: &Lexer, index: usize) -> (r: ImportState)
    requires
        index < lx.imports@.len(),
    ensures
        ({
            let o = lx.imports@[index as int];
            &&& r.start == o.start && r.end == o.end && r.statement_start == o.statement_start
            &&& r.statement_end == o.statement_end && r.attr_index == o.attr_index
            &&& r.dynamic == o.dynamic && r.safe == o.safe && r.import_ty == o.import_ty
            &&& r.attributes@ == o.attributes@
        }),
{
    let o = &lx.imports[index];
    let mut attrs: Vec<(i32, i32, i32, i32)> = Vec::new();
    let mut i: usize = 0;
    while i < o.attributes.len()
        invariant
            i <= o.attributes@.len(),
            attrs@ == o.attributes@.take(i as int),
        decreases o.attributes@.len() - i,
    {
        attrs.push(o.attributes[i]);
        proof {
            assert(o.attributes@.take(i + 1) =~= o.attributes@.take(i as int).push(o.attributes@[i as int]));
        }
        i = i + 1;
    }
    proof {
        assert(o.attributes@.take(o.attributes@.len() as int) =~= o.attributes@);
    }
    ImportState {
        start: o.start,
        end: o.end,
        statement_start: o.statement_start,
        statement_end: o.statement_end,
        attr_index: o.attr_index,
        dynamic: o.dynamic,
        safe: o.safe,
        import_ty: o.import_ty,
        attributes: attrs,
    }
}

/// Replaces the import at `index` by `st`.
#[allow(non_snake_case)]
pub fn updateState(lx: &mut Lexer, index: usize, st: ImportState)
    requires
        index < old(lx).imports@.len(),
    ensures
        final(lx).imports@ == old(lx).imports@.update(index as int, st),
        final(lx).source == old(lx).source,
        final(lx).pos == old(lx).pos,
        final(lx).exports == old(lx).exports,
        final(lx).open_token_depth == old(lx).open_token_depth,
        final(lx).open_token_stack == old(lx).open_token_stack,
        final(lx).dynamic_import_stack == old(lx).dynamic_import_stack,
        final(lx).same_flags(*old(lx)),
        final(lx).export_statement_start == old(lx).export_statement_start,
{
    lx.imports.set(index, st);
}

/// Drops the last import.
#[allow(non_snake_case)]
pub fn popImport(lx: &mut Lexer)
    ensures
        old(lx).imports@.len() > 0 ==> final(lx).imports@ == old(lx).imports@.drop_last(),
        old(lx).imports@.len() == 0 ==> final(lx).imports@ == old(lx).imports@,
        final(lx).source == old(lx).source,
        final(lx).pos == old(lx).pos,
        final(lx).exports == old(lx).exports,
        final(lx).open_token_depth == old(lx).open_token_depth,
        final(lx).open_token_stack == old(lx).open_token_stack,
        final(lx).dynamic_import_stack == old(lx).dynamic_import_stack,
        final(lx).same_flags(*old(lx)),
        final(lx).export_statement_start == old(lx).export_statement_start,
{
    lx.imports.pop();
}

/// The number of imports found.
#[allow(non_snake_case)]
pub fn importsLen(lx: &Lexer) -> (r: usize)
    ensures
        r == lx.imports@.len(),
{
    lx.imports.len()
}

/// The number of dynamic imports whose `(` is still open.
#[allow(non_snake_case)]
pub fn dynamicImportStackLen(lx: &Lexer) -> (r: usize)
    ensures
        r == lx.dynamic_import_stack@.len(),
{
    lx.dynamic_import_stack.len()
}

/// Marks the import at `index` as a dynamic import whose `(` is open.
#[allow(non_snake_case)]
pub fn pushDynamicImport(lx: &mut Lexer, index: usize)
    ensures
        final(lx).dynamic_import_stack@ == old(lx).dynamic_import_stack@.push(index),
        final(lx).source == old(lx).source,
        final(lx).pos == old(lx).pos,
        final(lx).imports == old(lx).imports,
        final(lx).exports == old(lx).exports,
        final(lx).open_token_depth == old(lx).open_token_depth,
        final(lx).open_token_stack == old(lx).open_token_stack,
        final(lx).same_flags(*old(lx)),
        final(lx).export_statement_start == old(lx).export_statement_start,
{
    lx.dynamic_import_stack.push(index);
}

/// Drops the innermost open dynamic import.
#[allow(non_snake_case)]
pub fn popDynamicImport(lx: &mut Lexer)
    ensures
        old(lx).dynamic_import_stack@.len() > 0 ==> final(lx).dynamic_import_stack@ == old(lx).dynamic_import_stack@.drop_last(),
        old(lx).dynamic_import_stack@.len() == 0 ==> final(lx).dynamic_import_stack@ == old(lx).dynamic_import_stack@,
        final(lx).source == old(lx).source,
        final(lx).pos == old(lx).pos,
        final(lx).imports == old(lx).imports,
        final(lx).exports == old(lx).exports,
        final(lx).open_token_depth == old(lx).open_token_depth,
        final(lx).open_token_stack == old(lx).open_token_stack,
        final(lx).same_flags(*old(lx)),
        final(lx).export_statement_start == old(lx).export_statement_start,
{
    lx.dynamic_import_stack.pop();
}

/// The index of the innermost open dynamic import.
#[allow(non_snake_case)]
pub fn topDynamicImport(lx: &Lexer) -> (r: usize)
    requires
        lx.dynamic_import_stack@.len() > 0,
    ensures
        r == lx.dynamic_import_stack@.last(),
{
    lx.dynamic_import_stack[lx.dynamic_import_stack.len() - 1]
}


/// The phase type of a static import with phase keyword `phase`.
pub open spec fn static_phase_ty(phase: int) -> int {
    if phase == 1 {
        STATIC_SOURCE_PHASE as int
    } else if phase > 1 {
        STATIC_DEFER_PHASE as int
    } else {
        STATIC as int
    }
}

/// Reading the specifier of a static import with the cursor at `p` on the
/// unit `ch`, for a statement starting at `ss` with phase keyword `phase`,
/// the imports going from `imps0` to `imps` and the cursor to `npos`, with
/// result `r`: `ch` must open a terminated quoted string (else an error at the
/// cursor); the import is recorded with its specifier inside the quotes and
/// its statement end after the closing quote. When `with` follows (blanks but
/// no line break between), the attribute list is read as `attributes_read`
/// says; otherwise the cursor stops before the next token.
pub open spec fn import_string_read(
    src: Seq<u16>,
    p: int,
    imps0: Seq<ImportState>,
    imps: Seq<ImportState>,
    npos: int,
    ss: int,
    ch: int,
    phase: int,
    r: Result<(), ParseError>,
) -> bool {
    let (ok, q) = string_scan(src, ch, p);
    let (w, cw) = comment_ws(src, q + 1, false);
    let with = cw == 119 && unit_at(src, w + 1) == 105 && unit_at(src, w + 2) == 116 && unit_at(src, w + 3) == 104;
    let last = imps.last();
    &&& r matches Err(e) ==> e.pos == npos
    &&& if !spec_is_quote(ch) {
        &&& r is Err
        &&& npos == p
        &&& imps == imps0
    } else if !ok {
        &&& r is Err
        &&& npos == q
        &&& imps == imps0
    } else {
        &&& imps.len() == imps0.len() + 1
        &&& imps.drop_last() == imps0
        &&& last.statement_start == ss
        &&& last.start == p + 1
        &&& last.end == q
        &&& last.dynamic == STANDARD_IMPORT
        &&& last.safe
        &&& last.import_ty == static_phase_ty(phase)
        &&& if with {
            attributes_read(src, w, 0, q + 1, seq![], last, npos, r)
        } else {
            &&& r is Ok
            &&& npos == w - 1
            &&& last.statement_end == q + 1
            &&& last.attr_index == 0
            &&& last.attributes@.len() == 0
        }
    }
}

/// `import_string_read` from the state `o` to the state `n`; nothing but the
/// cursor and the imports changes.
pub open spec fn reads_import_string(o: Lexer, n: Lexer, ss: int, ch: int, phase: int, r: Result<(), ParseError>) -> bool {
    &&& n.source == o.source
    &&& n.exports == o.exports
    &&& n.export_statement_start == o.export_statement_start
    &&& n.same_flags(o)
    &&& n.open_token_depth == o.open_token_depth
    &&& n.open_token_stack == o.open_token_stack
    &&& n.dynamic_import_stack == o.dynamic_import_stack
    &&& import_string_read(o.source@, o.pos as int, o.imports@, n.imports@, n.pos as int, ss, ch, phase, r)
}

/// Reads the specifier of a static import (its opening quote `ch` at the
/// cursor) and an optional `with { ... }` attribute list, recording the
/// import (see `reads_import_string`).
#[allow(non_snake_case)]
#[verifier::loop_isolation(false)]
#[verifier::rlimit(60)]
pub fn readImportString(lx: &mut Lexer, ss: i32, ch: i32, phase_keyword: i32) -> (r: Result<(), ParseError>)
    requires
        old(lx).wf(),
        old(lx).records_wf(),
        -1 <= old(lx).pos <= old(lx).len() + 16,
        0 <= ss <= old(lx).pos,
        spec_is_quote(ch as int) ==> old(lx).at(old(lx).pos as int) == ch,
    ensures
        reads_import_string(*old(lx), *final(lx), ss as int, ch as int, phase_keyword as int, r),
        final(lx).wf(),
        final(lx).records_wf(),
        final(lx).source == old(lx).source,
        final(lx).keeps_imports_of(*old(lx)),
        final(lx).exports == old(lx).exports,
        final(lx).export_statement_start == old(lx).export_statement_start,
        final(lx).same_flags(*old(lx)),
        final(lx).open_token_depth == old(lx).open_token_depth,
        final(lx).open_token_stack == old(lx).open_token_stack,
        final(lx).dynamic_import_stack == old(lx).dynamic_import_stack,
        old(lx).pos <= final(lx).pos <= crate::state::max(old(lx).pos as int, old(lx).len() + 1),
        r is Ok ==> old(lx).pos < final(lx).pos,
        final(lx).imports@.len() <= old(lx).imports@.len() + 1,
{
    let ghost src = lx.source@;
    let startPos = lx.pos + 1;
    proof {
        crate::lexer::lemma_string_scan(src, ch as int, lx.pos as int);
        crate::comment::lemma_comment_ws(src, string_scan(src, ch as int, lx.pos as int).1 + 1, false);
    }
    if ch == 39 || ch == 34 {
        let scanned = stringIteral(lx, ch);
        if scanned.is_err() {
            return scanned;
        }
    } else {
        return Err(syntaxError(lx));
    }
    let ghost q = lx.pos as int;
    let ghost seq0 = lx.imports@;
    let impt = addImport(lx, ss, startPos, lx.pos, STANDARD_IMPORT);
    if phase_keyword > 0 {
        let t = if phase_keyword == 1 {
            STATIC_SOURCE_PHASE
        } else {
            STATIC_DEFER_PHASE
        };
        lx.imports[impt].import_ty = t;
    }
    proof {
        assert(lx.imports@ =~= seq0.push(lx.imports@.last()));
        lemma_imports_wf_push(seq0, lx.imports@.last(), src);
    }
    next(lx);
    let ch = commentWhitespace(lx, false);
    // with ...
    let with = ch == 119 && charCodeAt(lx, lx.pos + 1) == 105 && charCodeAt(lx, lx.pos + 2) == 116
        && charCodeAt(lx, lx.pos + 3) == 104;
    proof {
        assert(lx.imports@.drop_last() =~= old(lx).imports@);
        assert(lx.imports@.last().attributes@ =~= Seq::<(i32, i32, i32, i32)>::empty());
        assert(lx.imports@.last().statement_end == q + 1);
    }
    if !with {
        prev(lx);
        return Ok(());
    }
    let ghost mid = *lx;
    let res = readImportAttributes(lx, impt);
    proof {
        assert(lx.imports@.drop_last() =~= mid.imports@.drop_last());
    }
    res
}

/// Reading the entries `key: 'value'` of an import attribute list from the `{`
/// or `,` at `x` on: the entries read (key start, key end, value start, value
/// end, a quoted key or value taken with its quotes) and how the list ends:
/// `(0, q)` an unterminated string found at `q`, `(1, q)` a malformed entry,
/// `(2, q)` the closing `}` at `q`.
pub open spec fn attr_entries(src: Seq<u16>, x: int) -> (Seq<(i32, i32, i32, i32)>, int, int)
    decreases src.len() + 2 - x,
{
    if x < -1 {
        (seq![], 1, x)
    } else {
        let (a, c) = comment_ws(src, x + 1, true);
        let quoted = spec_is_quote(c);
        let kq = string_scan(src, c, a);
        if quoted && !kq.0 {
            (seq![], 0, kq.1)
        } else {
            let ke = if quoted { kq.1 + 1 } else { crate::lexer::word_scan(src, a, c).0 };
            let (b, c2) = if quoted { comment_ws(src, kq.1 + 1, true) } else { crate::lexer::word_scan(src, a, c) };
            if c2 != 58 {
                (seq![], 1, b)
            } else {
                let (v, c3) = comment_ws(src, b + 1, true);
                let vq = string_scan(src, c3, v);
                if !spec_is_quote(c3) {
                    (seq![], 1, v)
                } else if !vq.0 {
                    (seq![], 0, vq.1)
                } else {
                    let entry = (a as i32, ke as i32, v as i32, (vq.1 + 1) as i32);
                    let (w, c4) = comment_ws(src, vq.1 + 1, true);
                    if c4 == 44 {
                        proof {
                            crate::comment::lemma_comment_ws(src, x + 1, true);
                            if quoted {
                                crate::lexer::lemma_string_scan(src, c, a);
                                crate::comment::lemma_comment_ws(src, kq.1 + 1, true);
                            } else {
                                crate::lexer::lemma_word_scan(src, a, c);
                            }
                            crate::comment::lemma_comment_ws(src, b + 1, true);
                            crate::lexer::lemma_string_scan(src, c3, v);
                            crate::comment::lemma_comment_ws(src, vq.1 + 1, true);
                        }
                        let rest = attr_entries(src, w + 1);
                        (seq![entry] + rest.0, rest.1, rest.2)
                    } else if c4 == 125 {
                        (seq![entry], 2, w)
                    } else {
                        (seq![entry], 1, w)
                    }
                }
            }
        }
    }
}

/// An attribute list that `attr_entries` finds closed ends on a `}` after
/// its start.
pub proof fn lemma_attr_entries_close(src: Seq<u16>, x: int)
    ensures
        attr_entries(src, x).1 == 0 || attr_entries(src, x).1 == 1 || attr_entries(src, x).1 == 2,
        attr_entries(src, x).1 == 2 ==> x < attr_entries(src, x).2 && unit_at(src, attr_entries(src, x).2) == 125,
    decreases src.len() + 2 - x,
{
    if x >= -1 {
        let (a, c) = comment_ws(src, x + 1, true);
        crate::comment::lemma_comment_ws(src, x + 1, true);
        let quoted = spec_is_quote(c);
        let kq = string_scan(src, c, a);
        crate::lexer::lemma_string_scan(src, c, a);
        crate::lexer::lemma_word_scan(src, a, c);
        if !(quoted && !kq.0) {
            let (b, c2) = if quoted { comment_ws(src, kq.1 + 1, true) } else { crate::lexer::word_scan(src, a, c) };
            if quoted {
                crate::comment::lemma_comment_ws(src, kq.1 + 1, true);
            }
            if c2 == 58 {
                let (v, c3) = comment_ws(src, b + 1, true);
                crate::comment::lemma_comment_ws(src, b + 1, true);
                let vq = string_scan(src, c3, v);
                crate::lexer::lemma_string_scan(src, c3, v);
                if spec_is_quote(c3) && vq.0 {
                    let (w, c4) = comment_ws(src, vq.1 + 1, true);
                    crate::comment::lemma_comment_ws(src, vq.1 + 1, true);
                    if c4 == 44 {
                        lemma_attr_entries_close(src, w + 1);
                    }
                }
            }
        }
    }
}

/// How reading `with { ... }` from the `with` at `x0` changes an import
/// record whose attribute start, statement end and attributes were `a0`,
/// `se0` and `at0` into `nimp`, leaving the cursor at `npos` with result `r`:
/// without a `{` nothing changes; otherwise the entries of `attr_entries` are
/// added to the attributes, and a closed list sets the attribute start (the
/// `{`) and the statement end (after the `}`), where the cursor stops. A
/// malformed list puts the cursor back on the `with`; an unterminated string
/// is an error.
pub open spec fn attributes_read(
    src: Seq<u16>,
    x0: int,
    a0: int,
    se0: int,
    at0: Seq<(i32, i32, i32, i32)>,
    nimp: ImportState,
    npos: int,
    r: Result<(), ParseError>,
) -> bool {
    let (p1, c1) = comment_ws(src, x0 + 4, true);
    let (es, kind, q) = attr_entries(src, p1);
    if c1 != 123 {
        &&& r is Ok
        &&& npos == x0
        &&& nimp.attr_index == a0
        &&& nimp.statement_end == se0
        &&& nimp.attributes@ == at0
    } else {
        &&& nimp.attributes@ == at0 + es
        &&& if kind == 0 {
            &&& r is Err
            &&& npos == q
            &&& nimp.attr_index == a0
            &&& nimp.statement_end == se0
        } else if kind == 1 {
            &&& r is Ok
            &&& npos == x0
            &&& nimp.attr_index == a0
            &&& nimp.statement_end == se0
        } else {
            &&& r is Ok
            &&& npos == q
            &&& nimp.attr_index == p1
            &&& nimp.statement_end == q + 1
        }
    }
}

/// `attributes_read` for the import `impt` of `o`, the cursor of `o` on the
/// `with`; the other imports stay as they were.
pub open spec fn reads_attributes(o: Lexer, n: Lexer, impt: int, r: Result<(), ParseError>) -> bool {
    let imp = o.imports@[impt];
    let nimp = n.imports@[impt];
    &&& n.imports@.len() == o.imports@.len()
    &&& forall|i: int| 0 <= i < o.imports@.len() && i != impt ==> #[trigger] n.imports@[i] == o.imports@[i]
    &&& nimp.start == imp.start
    &&& nimp.end == imp.end
    &&& nimp.statement_start == imp.statement_start
    &&& nimp.dynamic == imp.dynamic
    &&& nimp.safe == imp.safe
    &&& nimp.import_ty == imp.import_ty
    &&& attributes_read(o.source@, o.pos as int, imp.attr_index as int, imp.statement_end as int, imp.attributes@, nimp, n.pos as int, r)
}

/// With the cursor on the `with` after the specifier of the static import at
/// `impt`: reads `with { key: 'value', ... }` as `reads_attributes` says.
#[allow(non_snake_case)]
#[verifier::rlimit(100)]
#[verifier::spinoff_prover]
fn readImportAttributes(lx: &mut Lexer, impt: usize) -> (r: Result<(), ParseError>)
    requires
        old(lx).wf(),
        old(lx).records_wf(),
        0 <= old(lx).pos < old(lx).len(),
        impt + 1 == old(lx).imports@.len(),
        old(lx).imports@[impt as int].dynamic == STANDARD_IMPORT,
    ensures
        reads_attributes(*old(lx), *final(lx), impt as int, r),
        r matches Err(e) ==> e.pos == final(lx).pos,
        final(lx).wf(),
        final(lx).records_wf(),
        final(lx).source == old(lx).source,
        final(lx).imports@.len() == old(lx).imports@.len(),
        forall|i: int| 0 <= i < impt ==> #[trigger] final(lx).imports@[i] == old(lx).imports@[i],
        final(lx).imports@[impt as int].dynamic == STANDARD_IMPORT,
        final(lx).imports@[impt as int].start == old(lx).imports@[impt as int].start,
        final(lx).imports@[impt as int].statement_start == old(lx).imports@[impt as int].statement_start,
        final(lx).imports@[impt as int].import_ty == old(lx).imports@[impt as int].import_ty,
        final(lx).exports == old(lx).exports,
        final(lx).export_statement_start == old(lx).export_statement_start,
        final(lx).same_flags(*old(lx)),
        final(lx).open_token_depth == old(lx).open_token_depth,
        final(lx).open_token_stack == old(lx).open_token_stack,
        final(lx).dynamic_import_stack == old(lx).dynamic_import_stack,
        old(lx).pos <= final(lx).pos <= old(lx).len() + 1,
{
    let ghost src = lx.source@;
    let ghost imp0 = old(lx).imports@[impt as int];
    let attrIndex = lx.pos;
    step(lx, 4);
    let mut ch = commentWhitespace(lx, true);
    if ch != 123 {
        setPos(lx, attrIndex);
        return Ok(());
    }
    let attrStart = lx.pos;
    let ghost p1 = attrStart as int;
    let ghost total = attr_entries(src, p1);
    let ghost mut acc: Seq<(i32, i32, i32, i32)> = seq![];
    proof {
        assert(attr_entries(src, p1).0 =~= acc + attr_entries(src, p1).0);
    }
    loop
        invariant_except_break
            -1 <= lx.pos <= src.len(),
            total == (acc + attr_entries(src, lx.pos as int).0, attr_entries(src, lx.pos as int).1, attr_entries(src, lx.pos as int).2),
        invariant
            lx.wf(),
            lx.records_wf(),
            lx.source@ == src,
            lx.source == old(lx).source,
            lx.imports@.len() == old(lx).imports@.len(),
            forall|i: int| 0 <= i < impt ==> #[trigger] lx.imports@[i] == old(lx).imports@[i],
            lx.imports@[impt as int].dynamic == imp0.dynamic,
            lx.imports@[impt as int].statement_start == imp0.statement_start,
            lx.imports@[impt as int].start == imp0.start,
            lx.imports@[impt as int].end == imp0.end,
            lx.imports@[impt as int].safe == imp0.safe,
            lx.imports@[impt as int].import_ty == imp0.import_ty,
            lx.imports@[impt as int].attr_index == imp0.attr_index,
            lx.imports@[impt as int].statement_end == imp0.statement_end,
            lx.imports@[impt as int].attributes@ == imp0.attributes@ + acc,
            lx.exports == old(lx).exports,
            lx.export_statement_start == old(lx).export_statement_start,
            lx.same_flags(*old(lx)),
            lx.open_token_depth == old(lx).open_token_depth,
            lx.open_token_stack == old(lx).open_token_stack,
            lx.dynamic_import_stack == old(lx).dynamic_import_stack,
            old(lx).pos == attrIndex,
            attrIndex < p1,
            attrIndex < lx.pos,
            old(lx).wf(),
            old(lx).records_wf(),
            0 <= old(lx).pos < old(lx).len(),
            impt + 1 == old(lx).imports@.len(),
            imp0 == old(lx).imports@[impt as int],
            imp0.dynamic == STANDARD_IMPORT,
            (p1, 123int) == comment_ws(src, attrIndex + 4, true),
            total == attr_entries(src, p1),
            src == old(lx).source@,
        ensures
            total == (acc, 2int, lx.pos as int),
            lx.pos < src.len(),
        decreases 2 * src.len() + POS_SLACK - lx.pos,
    {
        let ghost x = lx.pos as int;
        proof {
            crate::comment::lemma_comment_ws(src, x + 1, true);
        }
        next(lx);
        ch = commentWhitespace(lx, true);
        let ghost a = lx.pos as int;
        let ghost c = ch as int;
        let key_start: i32;
        let key_end: i32;
        if ch == 39 || ch == 34 {
            key_start = lx.pos;
            proof {
                crate::lexer::lemma_string_scan(src, c, a);
            }
            let scanned = stringIteral(lx, ch);
            if scanned.is_err() {
                proof {
                    assert(total.0 =~= acc);
                }
                return scanned;
            }
            key_end = lx.pos + 1;
            proof {
                crate::comment::lemma_comment_ws(src, lx.pos + 1, true);
            }
            next(lx);
            ch = commentWhitespace(lx, true);
        } else {
            key_start = lx.pos;
            proof {
                crate::lexer::lemma_word_scan(src, a, c);
            }
            ch = readToWsOrPunctuator(lx, ch);
            key_end = lx.pos;
        }
        if ch != 58 {
            proof {
                assert(total.0 =~= acc);
            }
            setPos(lx, attrIndex);
            return Ok(());
        }
        let ghost b = lx.pos as int;
        proof {
            crate::comment::lemma_comment_ws(src, b + 1, true);
        }
        next(lx);
        ch = commentWhitespace(lx, true);
        let ghost v = lx.pos as int;
        let value_start: i32;
        let value_end: i32;
        if ch == 39 || ch == 34 {
            value_start = lx.pos;
            proof {
                crate::lexer::lemma_string_scan(src, ch as int, v);
            }
            let scanned = stringIteral(lx, ch);
            if scanned.is_err() {
                proof {
                    assert(total.0 =~= acc);
                }
                return scanned;
            }
            value_end = lx.pos + 1;
        } else {
            proof {
                assert(total.0 =~= acc);
            }
            setPos(lx, attrIndex);
            return Ok(());
        }
        let ghost entry = (key_start, key_end, value_start, value_end);
        let ghost seq0 = lx.imports@;
        proof {
            lemma_imports_wf_get(seq0, impt as int, src);
        }
        lx.imports[impt].attributes.push((key_start, key_end, value_start, value_end));
        proof {
            assert(lx.imports@ =~= seq0.update(impt as int, lx.imports@[impt as int]));
            lemma_imports_wf_update(seq0, impt as int, lx.imports@[impt as int], src);
            assert(lx.imports@[impt as int].attributes@ =~= imp0.attributes@ + acc.push(entry));
            crate::comment::lemma_comment_ws(src, lx.pos + 1, true);
        }
        next(lx);
        ch = commentWhitespace(lx, true);
        if ch == 44 {
            proof {
                let rest = attr_entries(src, lx.pos + 1);
                assert(attr_entries(src, x).0 == seq![entry] + rest.0);
                assert(acc + (seq![entry] + rest.0) =~= acc.push(entry) + rest.0);
                acc = acc.push(entry);
            }
            next(lx);
        } else if ch == 125 {
            proof {
                assert(attr_entries(src, x).0 == seq![entry]);
                assert(acc + seq![entry] =~= acc.push(entry));
                acc = acc.push(entry);
            }
            break;
        } else {
            proof {
                assert(acc + seq![entry] =~= acc.push(entry));
                acc = acc.push(entry);
            }
            setPos(lx, attrIndex);
            return Ok(());
        }
    }
    let se = lx.pos + 1;
    let ghost seq0 = lx.imports@;
    proof {
        lemma_imports_wf_get(seq0, impt as int, src);
    }
    lx.imports[impt].attr_index = attrStart;
    lx.imports[impt].statement_end = se;
    proof {
        assert(lx.imports@ =~= seq0.update(impt as int, lx.imports@[impt as int]));
        lemma_imports_wf_update(seq0, impt as int, lx.imports@[impt as int], src);
    }
    Ok(())
}


/// What every statement reader keeps of the state it starts from `o`.
pub open spec fn statement_frame(n: Lexer, o: Lexer) -> bool {
    &&& n.wf()
    &&& n.records_wf()
    &&& n.source == o.source
    &&& n.keeps_imports_of(o)
    &&& n.keeps_stack_of(o)
}

/// What a part of an import statement reader keeps of the state `o` it starts from.
pub open spec fn import_step(n: Lexer, o: Lexer) -> bool {
    &&& statement_frame(n, o)
    &&& n.imports@.len() <= o.imports@.len() + 1
    &&& n.open_token_depth <= o.open_token_depth + 1
    &&& n.exports == o.exports
    &&& n.export_statement_start == o.export_statement_start
    &&& n.same_flags(o)
}

/// Whether the token before the cursor is no member access: not a `.`, or
/// the last dot of a spread `...`.
pub open spec fn not_after_dot(lx: Lexer) -> bool {
    let t = lx.last_token_pos as int;
    (lx.at(t) == 46 && lx.at(t - 1) == 46 && lx.at(t - 2) == 46) || lx.at(t) != 46
}

/// What follows the `import` keyword at `p`, as `readImportPhase` reads it:
/// `(cursor, unit, phase, done, meta)`. The phase is 0 (none), 1 (`source`)
/// or 2 (`defer`); `done` tells that the statement needs no more reading;
/// `meta` is the end of an `import.meta` to record. `not_dot` tells that the
/// keyword does not follow a member-access dot.
pub open spec fn import_phase(src: Seq<u16>, p: int, not_dot: bool) -> (int, int, int, bool, Option<int>) {
    let (p1, c1) = comment_ws(src, p + 6, true);
    if c1 == 46 {
        let (p2, c2) = comment_ws(src, p1 + 1, true);
        if c2 == 109 && spec_starts_with(src, utf16_encode("eta"@), p2 + 1) && not_dot {
            (p2, c2, 0, true, Some(p2 + 4))
        } else if c2 == 115 && spec_starts_with(src, utf16_encode("ource"@), p2 + 1) && not_dot {
            let (p3, c3) = comment_ws(src, p2 + 6, true);
            (p3, c3, 1, false, None)
        } else if c2 == 100 && spec_starts_with(src, utf16_encode("efer"@), p2 + 1) && not_dot {
            let (p3, c3) = comment_ws(src, p2 + 5, true);
            (p3, c3, 2, false, None)
        } else {
            (p2, c2, 0, true, None)
        }
    } else if p1 > p + 6 && c1 == 115 && spec_starts_with(src, utf16_encode("ource"@), p1 + 1)
        && spec_is_br_or_ws(unit_at(src, p1 + 6)) {
        let (p3, c3) = comment_ws(src, p1 + 6, true);
        let from = c3 == 102 && spec_starts_with(src, utf16_encode("rom"@), p3 + 1) && spec_is_boundary(
            unit_at(src, p3 + 4),
        );
        if p3 == p1 + 6 || from {
            (p1, c3, 0, false, None)
        } else {
            (p3, c3, 1, false, None)
        }
    } else if p1 > p + 5 && c1 == 100 && spec_starts_with(src, utf16_encode("efer"@), p1 + 1)
        && spec_is_br_or_ws(unit_at(src, p1 + 5)) {
        let (p3, c3) = comment_ws(src, p1 + 5, true);
        if c3 != 42 {
            (p1, c3, 0, false, None)
        } else {
            (p3, c3, 2, false, None)
        }
    } else {
        (p1, c1, 0, false, None)
    }
}

/// After `import` (cursor on its `i`): reads `.meta` (recording it), a `.source`
/// / `.defer` or a `source` / `defer` phase keyword, as `import_phase` says.
/// Returns the unit after them, the phase and whether the statement is done.
#[allow(non_snake_case)]
#[verifier::rlimit(50)]
fn readImportPhase(lx: &mut Lexer) -> (r: (i32, i32, bool))
    requires
        old(lx).wf(),
        old(lx).records_wf(),
        0 <= old(lx).pos < old(lx).len(),
    ensures
        ({
            let (q, c, ph, done, meta) = import_phase(old(lx).source@, old(lx).pos as int, not_after_dot(*old(lx)));
            &&& final(lx).pos == q
            &&& r.0 as int == c
            &&& r.1 as int == ph
            &&& r.2 == done
            &&& meta is None ==> *final(lx) == old(lx).with_pos(q)
            &&& meta matches Some(e) ==> {
                &&& final(lx).imports@.len() == old(lx).imports@.len() + 1
                &&& final(lx).imports@.drop_last() == old(lx).imports@
                &&& is_new_import(final(lx).imports@.last(), old(lx).pos, old(lx).pos, e as i32, IMPORT_META)
            }
        }),
        import_step(*final(lx), *old(lx)),
        final(lx).open_token_depth == old(lx).open_token_depth,
        final(lx).open_token_stack == old(lx).open_token_stack,
        final(lx).dynamic_import_stack == old(lx).dynamic_import_stack,
        r.2 ==> old(lx).pos < final(lx).pos <= old(lx).len() + 16,
        !r.2 ==> old(lx).pos + 6 <= final(lx).pos <= old(lx).len() + 10,
        !r.2 ==> final(lx).imports == old(lx).imports,
        0 <= r.1 <= 2,
{
    let ghost src = lx.source@;
    let startPos = lx.pos;
    step(lx, 6);
    let mut ch = commentWhitespace(lx, true);
    let maybePhasePos = lx.pos;
    let mut phase_keyword: i32 = 0;
    if ch == 46 {
        next(lx);
        ch = commentWhitespace(lx, true);
        let notDot = isSpread(lx, lx.last_token_pos) || charCodeAt(lx, lx.last_token_pos) != 46;
        if ch == 109 && starts_with(lx, "eta", lx.pos + 1) && notDot {
            let ghost seq0 = lx.imports@;
            addImport(lx, startPos, startPos, lx.pos + 4, IMPORT_META);
            proof {
                assert(lx.imports@ =~= seq0.push(lx.imports@.last()));
                lemma_imports_wf_push(seq0, lx.imports@.last(), src);
            }
            return (ch, 0, true);
        } else if ch == 115 && starts_with(lx, "ource", lx.pos + 1) && notDot {
            phase_keyword = 1;
            step(lx, 6);
            ch = commentWhitespace(lx, true);
        } else if ch == 100 && starts_with(lx, "efer", lx.pos + 1) && notDot {
            phase_keyword = 2;
            step(lx, 5);
            ch = commentWhitespace(lx, true);
        } else {
            return (ch, 0, true);
        }
    } else if lx.pos > startPos + 6 && ch == 115 && starts_with(lx, "ource", lx.pos + 1) && isBrOrWs(
        charCodeAt(lx, lx.pos + 6),
    ) {
        // import source ...
        phase_keyword = 1;
        step(lx, 6);
        ch = commentWhitespace(lx, true);
        // need a space after the source keyword, and must not be followed by from keyword
        let followedByFrom = ch == 102 && starts_with(lx, "rom", lx.pos + 1)
            && isBrOrWsOrPunctuatorNotDot(charCodeAt(lx, lx.pos + 4));
        if lx.pos == maybePhasePos + 6 || followedByFrom {
            setPos(lx, maybePhasePos);
            phase_keyword = 0;
        }
    } else if lx.pos > startPos + 5 && ch == 100 && starts_with(lx, "efer", lx.pos + 1) && isBrOrWs(
        charCodeAt(lx, lx.pos + 5),
    ) {
        // import defer ...
        phase_keyword = 2;
        step(lx, 5);
        ch = commentWhitespace(lx, true);
        // need a * after the defer keyword
        if ch != 42 {
            setPos(lx, maybePhasePos);
            phase_keyword = 0;
        }
    }
    (ch, phase_keyword, false)
}

/// The record of a dynamic import: statement start `ss`, specifier start `s`,
/// `(` at `d`, phase type `ty`, then end `e`, statement end `se` and attribute
/// start `a` (0 while unknown), and whether the specifier is a constant string.
pub open spec fn is_dynamic_record(imp: ImportState, ss: int, s: int, d: int, ty: int, e: int, se: int, a: int, safe: bool) -> bool {
    &&& imp.statement_start == ss
    &&& imp.start == s
    &&& imp.dynamic == d
    &&& imp.import_ty == ty
    &&& imp.end == e
    &&& imp.statement_end == se
    &&& imp.attr_index == a
    &&& imp.safe == safe
    &&& imp.attributes@.len() == 0
}

/// The phase type of a dynamic import with phase keyword `phase`.
pub open spec fn dynamic_phase_ty(phase: int) -> int {
    if phase == 1 {
        DYNAMIC_SOURCE_PHASE as int
    } else if phase > 1 {
        DYNAMIC_DEFER_PHASE as int
    } else {
        DYNAMIC as int
    }
}

/// The end of the constant specifier that starts at `p` (a quoted string or
/// a template without substitution), when there is one; `None` for anything else.
pub open spec fn constant_specifier_end(src: Seq<u16>, p: int) -> Option<int> {
    let c = unit_at(src, p);
    if spec_is_quote(c) {
        if string_scan(src, c, p).0 {
            Some(string_scan(src, c, p).1)
        } else {
            None
        }
    } else if c == 96 {
        no_subst_scan(src, p)
    } else {
        None
    }
}

/// How reading a dynamic `import(` (statement start `ss`, phase keyword
/// `phase`) takes the lexer from `o`, its cursor on the `(`, to `n` with
/// result `r`: it opens an import paren (a full stack is an error), and unless
/// the `import` follows a `.` records an import whose specifier starts at the
/// first unit after blanks. A constant specifier followed by `,` gets its end
/// and attribute start; followed by `)` its end and statement end, and the
/// paren closes. An unterminated quoted specifier is an error.
pub open spec fn reads_dynamic_import(o: Lexer, n: Lexer, ss: int, phase: int, r: Result<(), ParseError>) -> bool {
    let src = o.source@;
    let p = o.pos as int;
    let (stack, depth) = o.pushed(OpenToken { token: OpenTokenState::ImportParen, pos: o.pos });
    let (p1, c1) = comment_ws(src, p + 1, true);
    let k = o.imports@.len();
    let ty = dynamic_phase_ty(phase);
    let last = n.imports@.last();
    &&& n.source == o.source
    &&& n.exports == o.exports
    &&& n.export_statement_start == o.export_statement_start
    &&& n.same_flags(o)
    &&& if o.open_token_depth >= STACK_SIZE {
        r is Err && n == o
    } else if o.at(o.last_token_pos as int) == 46 {
        &&& r is Ok
        &&& n.pos == p
        &&& n.imports == o.imports
        &&& n.dynamic_import_stack == o.dynamic_import_stack
        &&& n.open_token_stack@ == stack
        &&& n.open_token_depth == depth
    } else {
        &&& n.imports@.len() == k + 1
        &&& n.imports@.drop_last() == o.imports@
        &&& n.open_token_stack@ == stack
        &&& if spec_is_quote(c1) && !string_scan(src, c1, p1).0 {
            &&& r is Err
            &&& n.pos == string_scan(src, c1, p1).1
            &&& is_dynamic_record(last, ss, p1, p, ty, 0, 0, 0, false)
            &&& n.dynamic_import_stack@ == o.dynamic_import_stack@.push(k as usize)
            &&& n.open_token_depth == depth
        } else if let Some(q) = constant_specifier_end(src, p1) {
            let (p2, c2) = comment_ws(src, q + 1, true);
            &&& r is Ok
            &&& if c2 == 44 {
                &&& n.pos == comment_ws(src, p2 + 1, true).0 - 1
                &&& is_dynamic_record(last, ss, p1, p, ty, q + 1, 0, comment_ws(src, p2 + 1, true).0, true)
                &&& n.dynamic_import_stack@ == o.dynamic_import_stack@.push(k as usize)
                &&& n.open_token_depth == depth
            } else if c2 == 41 {
                &&& n.pos == p2
                &&& is_dynamic_record(last, ss, p1, p, ty, q + 1, p2 + 1, 0, true)
                &&& n.dynamic_import_stack@ == o.dynamic_import_stack@
                &&& n.open_token_depth == o.open_token_depth
            } else {
                &&& n.pos == p2 - 1
                &&& is_dynamic_record(last, ss, p1, p, ty, 0, 0, 0, false)
                &&& n.dynamic_import_stack@ == o.dynamic_import_stack@.push(k as usize)
                &&& n.open_token_depth == depth
            }
        } else {
            &&& r is Ok
            &&& n.pos == p1 - 1
            &&& is_dynamic_record(last, ss, p1, p, ty, 0, 0, 0, false)
            &&& n.dynamic_import_stack@ == o.dynamic_import_stack@.push(k as usize)
            &&& n.open_token_depth == depth
        }
    }
}

/// The dynamic `import(` form, the cursor on the `(` (see `reads_dynamic_import`).
#[allow(non_snake_case)]
#[verifier::rlimit(80)]
#[verifier::spinoff_prover]
fn readDynamicImport(lx: &mut Lexer, startPos: i32, phase_keyword: i32) -> (r: Result<(), ParseError>)
    requires
        old(lx).wf(),
        old(lx).records_wf(),
        0 <= startPos,
        startPos + 6 <= old(lx).pos <= old(lx).len() + 10,
        0 <= phase_keyword <= 2,
    ensures
        reads_dynamic_import(*old(lx), *final(lx), startPos as int, phase_keyword as int, r),
        r matches Err(e) ==> e.pos == final(lx).pos,
        import_step(*final(lx), *old(lx)),
        startPos < final(lx).pos <= old(lx).len() + 16,
{
    let ghost src = lx.source@;
    let ltp = lx.last_token_pos;
    pushOpenToken(lx, OpenTokenState::ImportParen, lx.pos)?;
    if charCodeAt(lx, ltp) == 46 {
        return Ok(());
    }
    // dynamic import indicated by positive d
    let dynamicPos = lx.pos;
    // try parse a string, to record a safe dynamic import string
    next(lx);
    let mut ch = commentWhitespace(lx, true);
    let ghost p1 = lx.pos as int;
    proof {
        if ch as int != unit_at(src, p1) {
            assert(unit_at(src, p1) == 0);
        }
        crate::lexer::lemma_string_scan(src, ch as int, p1);
        crate::lexer::lemma_no_subst_scan(src, p1);
    }
    let ghost seq0 = lx.imports@;
    let impt = addImport(lx, startPos, lx.pos, 0, dynamicPos);
    if phase_keyword > 0 {
        let t = if phase_keyword == 1 {
            DYNAMIC_SOURCE_PHASE
        } else {
            DYNAMIC_DEFER_PHASE
        };
        lx.imports[impt].import_ty = t;
    }
    proof {
        assert(lx.imports@ =~= seq0.push(lx.imports@.last()));
        lemma_imports_wf_push(seq0, lx.imports@.last(), src);
    }
    pushDynamicImport(lx, impt);
    if ch == 39 || ch == 34 {
        let scanned = stringIteral(lx, ch);
        if scanned.is_err() {
            proof {
                assert(spec_is_quote(ch as int) && !string_scan(src, ch as int, p1).0);
                assert(lx.pos == string_scan(src, ch as int, p1).1);
                assert(is_dynamic_record(lx.imports@.last(), startPos as int, p1, old(lx).pos as int, dynamic_phase_ty(phase_keyword as int), 0, 0, 0, false));
                assert(lx.dynamic_import_stack@ == old(lx).dynamic_import_stack@.push(old(lx).imports@.len() as usize));
                assert(lx.imports@.drop_last() =~= old(lx).imports@);
            }
            return scanned;
        }
        assert(unit_at(src, p1) == ch as int);
        assert(string_scan(src, ch as int, p1).0);
        assert(constant_specifier_end(src, p1) == Some(lx.pos as int));
    } else if ch == 96 && noSubstitutionTemplate(lx) {
        // a no-substitution template literal is a constant string, so it is
        // a safe specifier exactly like a quoted one
        assert(unit_at(src, p1) == 96);
        assert(no_subst_scan(src, p1) == Some(lx.pos as int));
        assert(constant_specifier_end(src, p1) == Some(lx.pos as int));
    } else {
        assert(constant_specifier_end(src, p1) is None);
        prev(lx);
        proof {
            let o = *old(lx);
            let n = *lx;
            assert(n.source == o.source);
            assert(n.exports == o.exports);
            assert(n.same_flags(o));
            assert(n.imports@.len() == o.imports@.len() + 1);
            assert(n.imports@.drop_last() == o.imports@);
            assert(n.pos == p1 - 1);
            assert(is_dynamic_record(n.imports@.last(), startPos as int, p1, o.pos as int, dynamic_phase_ty(phase_keyword as int), 0, 0, 0, false));
            assert(n.dynamic_import_stack@ == o.dynamic_import_stack@.push(o.imports@.len() as usize));
            assert(!(spec_is_quote(ch as int) && !string_scan(src, ch as int, p1).0));
        }
        return Ok(());
    }
    let ghost q = lx.pos as int;
    next(lx);
    let endPos = lx.pos;
    ch = commentWhitespace(lx, true);
    let ghost p2 = lx.pos as int;
    let ghost seq1 = lx.imports@;
    let ghost ty = dynamic_phase_ty(phase_keyword as int);
    let ghost d = old(lx).pos as int;
    assert(is_dynamic_record(lx.imports@.last(), startPos as int, p1, d, ty, 0, 0, 0, false));
    proof {
        lemma_imports_wf_get(seq1, impt as int, src);
    }
    if ch == 44 {
        next(lx);
        commentWhitespace(lx, true);
        let attrPos = lx.pos;
        lx.imports[impt].end = endPos;
        lx.imports[impt].attr_index = attrPos;
        lx.imports[impt].safe = true;
        proof {
            assert(lx.imports@ =~= seq1.update(impt as int, lx.imports@[impt as int]));
            lemma_imports_wf_update(seq1, impt as int, lx.imports@[impt as int], src);
        }
        prev(lx);
        proof {
            assert(lx.pos == comment_ws(src, p2 + 1, true).0 - 1);
            assert(is_dynamic_record(lx.imports@.last(), startPos as int, p1, d, ty, q + 1, 0, comment_ws(src, p2 + 1, true).0, true));
        }
    } else if ch == 41 {
        lx.open_token_depth = lx.open_token_depth - 1;
        let se = lx.pos + 1;
        lx.imports[impt].end = endPos;
        lx.imports[impt].statement_end = se;
        lx.imports[impt].safe = true;
        proof {
            assert(lx.imports@ =~= seq1.update(impt as int, lx.imports@[impt as int]));
            lemma_imports_wf_update(seq1, impt as int, lx.imports@[impt as int], src);
        }
        popDynamicImport(lx);
        proof {
            assert(lx.pos == p2);
            assert(is_dynamic_record(lx.imports@.last(), startPos as int, p1, d, ty, q + 1, p2 + 1, 0, true));
            assert(lx.dynamic_import_stack@ =~= old(lx).dynamic_import_stack@);
        }
    } else {
        prev(lx);
    }
    assert(lx.imports@.drop_last() =~= old(lx).imports@);
    Ok(())
}

/// Skipping the names of `import { ... }` from `x` on (blanks, comments and
/// quoted names): `(0, q)` for an unterminated string found at `q`, `(1, y)`
/// when the scan stops at `y`, just after the `}` or at the last unit.
pub open spec fn names_end(src: Seq<u16>, x: int) -> (int, int)
    decreases src.len() + 4 - x,
{
    if x < -1 || x >= src.len() - 1 {
        (1, x)
    } else {
        let (a, c) = comment_ws(src, x, true);
        proof {
            crate::comment::lemma_comment_ws(src, x, true);
            crate::lexer::lemma_string_scan(src, c, a);
        }
        if spec_is_quote(c) {
            let (ok, q) = string_scan(src, c, a);
            if !ok {
                (0, q)
            } else {
                names_end(src, q + 1)
            }
        } else if c == 125 {
            (1, a + 1)
        } else {
            names_end(src, a + 1)
        }
    }
}

pub proof fn lemma_names_end(src: Seq<u16>, x: int)
    ensures
        x <= names_end(src, x).1,
    decreases src.len() + 4 - x,
{
    if !(x < -1 || x >= src.len() - 1) {
        let (a, c) = comment_ws(src, x, true);
        crate::comment::lemma_comment_ws(src, x, true);
        crate::lexer::lemma_string_scan(src, c, a);
        if spec_is_quote(c) {
            let (ok, q) = string_scan(src, c, a);
            if ok {
                lemma_names_end(src, q + 1);
            }
        } else if c != 125 {
            lemma_names_end(src, a + 1);
        }
    }
}

/// How reading `import { ... } from '...'` (statement start `ss`) takes the
/// lexer from `o`, its cursor on the `{`, to `n` with result `r`: the names
/// are skipped (`names_end`); a `f` not followed by `rom` is an error; four
/// units on, the specifier is read as `reads_import_string` says.
pub open spec fn reads_named_import(o: Lexer, n: Lexer, ss: int, r: Result<(), ParseError>) -> bool {
    let src = o.source@;
    let (kind, y) = names_end(src, o.pos as int);
    let (f, cf) = comment_ws(src, y, true);
    let (g, cg) = comment_ws(src, f + 4, true);
    if kind == 0 {
        r is Err && n == o.with_pos(y)
    } else if cf == 102 && !spec_starts_with(src, utf16_encode("rom"@), f + 1) {
        r is Err && n == o.with_pos(f)
    } else {
        reads_import_string(o.with_pos(g), n, ss, cg, 0, r)
    }
}

/// The `import { ... } from '...'` form, the cursor on the `{` (see
/// `reads_named_import`).
#[allow(non_snake_case)]
fn readNamedImport(lx: &mut Lexer, startPos: i32) -> (r: Result<(), ParseError>)
    requires
        old(lx).wf(),
        old(lx).records_wf(),
        0 <= startPos,
        startPos + 6 <= old(lx).pos <= old(lx).len() + 10,
    ensures
        reads_named_import(*old(lx), *final(lx), startPos as int, r),
        r matches Err(e) ==> e.pos == final(lx).pos,
        import_step(*final(lx), *old(lx)),
        final(lx).open_token_depth == old(lx).open_token_depth,
        startPos < final(lx).pos <= old(lx).len() + 16,
{
    let ghost src = lx.source@;
    let end = end(lx);
    let mut ch: i32;
    let ghost total = names_end(src, old(lx).pos as int);
    loop
        invariant_except_break
            lx.pos < end ==> names_end(src, lx.pos as int) == total,
            lx.pos >= end ==> total == (1int, lx.pos as int),
        invariant
            lx.wf(),
            lx.records_wf(),
            *lx == old(lx).with_pos(lx.pos as int),
            old(lx).pos <= lx.pos <= src.len() + 10,
            end == src.len() - 1,
            src == old(lx).source@,
            total == names_end(src, old(lx).pos as int),
            old(lx).pos < end ==> total == names_end(src, old(lx).pos as int),
            old(lx).wf(),
            old(lx).records_wf(),
            0 <= startPos,
            startPos + 6 <= old(lx).pos <= old(lx).len() + 10,
        ensures
            total == (1int, lx.pos as int),
        decreases 2 * src.len() + POS_SLACK - lx.pos,
    {
        if lx.pos >= end {
            break;
        }
        let ghost x = lx.pos as int;
        proof {
            crate::comment::lemma_comment_ws(src, x, true);
        }
        ch = commentWhitespace(lx, true);
        if isQuote(ch) {
            proof {
                crate::lexer::lemma_string_scan(src, ch as int, lx.pos as int);
            }
            let scanned = stringIteral(lx, ch);
            if scanned.is_err() {
                return scanned;
            }
        } else if ch == 125 {
            next(lx);
            assert(total == (1int, lx.pos as int));
            break;
        }
        next(lx);
        proof {
            if lx.pos >= end {
                assert(names_end(src, lx.pos as int) == (1int, lx.pos as int));
            }
        }
    }
    let ghost y = lx.pos as int;
    proof {
        crate::comment::lemma_comment_ws(src, y, true);
    }
    ch = commentWhitespace(lx, true);
    if ch == 102 && !starts_with(lx, "rom", lx.pos + 1) {
        return Err(syntaxError(lx));
    }
    let ghost f = lx.pos as int;
    proof {
        crate::comment::lemma_comment_ws(src, f + 4, true);
    }
    step(lx, 4);
    ch = commentWhitespace(lx, true);
    if !isQuote(ch) {
        return Err(syntaxError(lx));
    }
    readImportString(lx, startPos, ch, 0)
}

/// The first quote at `x` or after it, before the last unit of the source.
pub open spec fn quote_before_end(src: Seq<u16>, x: int) -> Option<int>
    decreases src.len() - x,
{
    if x < 0 || x >= src.len() - 1 {
        None
    } else if spec_is_quote(src[x] as int) {
        Some(x)
    } else {
        quote_before_end(src, x + 1)
    }
}

pub proof fn lemma_quote_before_end(src: Seq<u16>, x: int)
    ensures
        quote_before_end(src, x) matches Some(t) ==> x <= t < src.len() - 1 && spec_is_quote(src[t] as int),
    decreases src.len() - x,
{
    if !(x < 0 || x >= src.len() - 1) && !spec_is_quote(src[x] as int) {
        lemma_quote_before_end(src, x + 1);
    }
}

/// How reading an `import` (cursor of `o` on its `i`) takes the lexer to `n`
/// with result `r`. After the phase part (`import_phase`): `import.meta` is
/// recorded; `import(` is read as `reads_dynamic_import`; at the top level
/// `import {` as `reads_named_import`; `import` glued to a name, `import defer`
/// without `*`, and any static form inside brackets are no import (the cursor
/// stops before the next token); otherwise the specifier is the first quoted
/// string that follows (`reads_import_string`), and none is an error.
pub open spec fn reads_import_statement(o: Lexer, n: Lexer, r: Result<(), ParseError>) -> bool {
    let src = o.source@;
    let p = o.pos as int;
    let (q, c, ph, done, meta) = import_phase(src, p, not_after_dot(o));
    let m = o.with_pos(q);
    if done {
        &&& r is Ok
        &&& n.pos == q
        &&& n.source == o.source
        &&& n.exports == o.exports
        &&& n.export_statement_start == o.export_statement_start
        &&& n.same_flags(o)
        &&& n.open_token_depth == o.open_token_depth
        &&& n.open_token_stack == o.open_token_stack
        &&& n.dynamic_import_stack == o.dynamic_import_stack
        &&& meta is None ==> n == m
        &&& meta matches Some(e) ==> {
            &&& n.imports@.len() == o.imports@.len() + 1
            &&& n.imports@.drop_last() == o.imports@
            &&& is_new_import(n.imports@.last(), p as i32, p as i32, e as i32, IMPORT_META)
        }
    } else if c == 40 {
        reads_dynamic_import(m, n, p, ph, r)
    } else if c == 123 && ph == 0 {
        if o.open_token_depth != 0 {
            r is Ok && n == o.with_pos(q - 1)
        } else {
            reads_named_import(m, n, p, r)
        }
    } else if !(c == 34 || c == 39 || c == 42) && q == p + 6 {
        r is Ok && n == o.with_pos(q - 1)
    } else if (ph == 2 && c != 42) || o.open_token_depth != 0 {
        r is Ok && n == o.with_pos(q - 1)
    } else {
        match quote_before_end(src, q) {
            Some(t) => reads_import_string(o.with_pos(t), n, p, src[t] as int, ph, r),
            None => r is Err && n == o.with_pos(max(q, src.len() - 1)),
        }
    }
}

/// The text `source` starts at `x`.
pub open spec fn source_at(src: Seq<u16>, x: int) -> bool {
    unit_at(src, x) == 115 && spec_starts_with(src, utf16_encode("ource"@), x + 1)
}

/// The text `defer` starts at `x`.
pub open spec fn defer_at(src: Seq<u16>, x: int) -> bool {
    unit_at(src, x) == 100 && spec_starts_with(src, utf16_encode("efer"@), x + 1)
}

/// The word `source` follows the `import` at `p`: after blanks and
/// comments, or after a `.` and blanks.
pub open spec fn source_follows_import(src: Seq<u16>, p: int) -> bool {
    let (p1, c1) = comment_ws(src, p + 6, true);
    source_at(src, p1) || (c1 == 46 && source_at(src, comment_ws(src, p1 + 1, true).0))
}

/// The word `defer` follows the `import` at `p`: after blanks and comments,
/// or after a `.` and blanks.
pub open spec fn defer_follows_import(src: Seq<u16>, p: int) -> bool {
    let (p1, c1) = comment_ws(src, p + 6, true);
    defer_at(src, p1) || (c1 == 46 && defer_at(src, comment_ws(src, p1 + 1, true).0))
}

/// The phase type of the import that an `import` statement records follows
/// the text after `import`: a source phase (4 static, 5 `import.source()`)
/// only where `source` follows it, a defer phase (6 static, 7
/// `import.defer()`) only where `defer` follows it; with neither word, a
/// static import has type 1, a dynamic `import()` type 2 and `import.meta`
/// type 3.
pub proof fn law_import_phase_type(o: Lexer, n: Lexer, r: Result<(), ParseError>)
    requires
        o.wf(),
        0 <= o.pos < o.len(),
        reads_import_statement(o, n, r),
        n.imports@.len() == o.imports@.len() + 1,
    ensures
        ({
            let src = o.source@;
            let p = o.pos as int;
            let imp = n.imports@.last();
            &&& (imp.import_ty == 4 || imp.import_ty == 5) ==> source_follows_import(src, p)
            &&& (imp.import_ty == 6 || imp.import_ty == 7) ==> defer_follows_import(src, p)
            &&& !source_follows_import(src, p) && !defer_follows_import(src, p) ==> imp.import_ty == (if imp.dynamic == -1 {
                1int
            } else if imp.dynamic == -2 {
                3int
            } else {
                2int
            })
        }),
{
    let src = o.source@;
    let p = o.pos as int;
    let (p1, c1) = comment_ws(src, p + 6, true);
    let (p2, c2) = comment_ws(src, p1 + 1, true);
    if p + 6 >= -1 {
        crate::comment::lemma_comment_ws(src, p + 6, true);
    }
    crate::comment::lemma_comment_ws(src, p1 + 1, true);
    crate::comment::lemma_comment_ws(src, p1 + 5, true);
    crate::comment::lemma_comment_ws(src, p1 + 6, true);
    crate::comment::lemma_comment_ws(src, p2 + 5, true);
    crate::comment::lemma_comment_ws(src, p2 + 6, true);
    let (q, c, ph, done, meta) = import_phase(src, p, not_after_dot(o));
    assert(ph == 1 ==> source_follows_import(src, p));
    assert(ph == 2 ==> defer_follows_import(src, p));
    assert(ph == 0 || ph == 1 || ph == 2);
    let imp = n.imports@.last();
    let m = o.with_pos(q);
    if done {
        assert(imp.import_ty == 3 && imp.dynamic == -2);
    } else if c == 40 {
        assert(reads_dynamic_import(m, n, p, ph, r));
        assert(imp.dynamic == q && imp.import_ty == dynamic_phase_ty(ph));
    } else if c == 123 && ph == 0 && o.open_token_depth == 0 {
        let (kind, y) = names_end(src, q);
        let (f, cf) = comment_ws(src, y, true);
        let (g, cg) = comment_ws(src, f + 4, true);
        assert(reads_named_import(m, n, p, r));
        if kind != 0 && !(cf == 102 && !spec_starts_with(src, utf16_encode("rom"@), f + 1)) {
            assert(reads_import_string(m.with_pos(g), n, p, cg, 0, r));
            assert(imp.dynamic == -1 && imp.import_ty == 1);
        }
    } else {
        match quote_before_end(src, q) {
            Some(t) => {
                assert(reads_import_string(o.with_pos(t), n, p, src[t] as int, ph, r));
                assert(imp.dynamic == -1 && imp.import_ty == static_phase_ty(ph));
            },
            None => {},
        }
    }
}

/// The statement end of a static import read by `import_string_read`: just
/// after the closing quote, or, with a closed attribute list, just after its
/// `}`, the list's `{` lying between.
pub proof fn lemma_static_statement_end(
    src: Seq<u16>,
    p: int,
    imps0: Seq<ImportState>,
    imps: Seq<ImportState>,
    npos: int,
    ss: int,
    ch: int,
    phase: int,
    r: Result<(), ParseError>,
)
    requires
        p >= -1,
        import_string_read(src, p, imps0, imps, npos, ss, ch, phase, r),
        imps.len() == imps0.len() + 1,
    ensures
        ({
            let imp = imps.last();
            ||| imp.statement_end == imp.end + 1
            ||| {
                &&& imp.end < imp.attr_index < imp.statement_end
                &&& unit_at(src, imp.attr_index as int) == 123
                &&& unit_at(src, imp.statement_end - 1) == 125
            }
        }),
{
    let (ok, q) = string_scan(src, ch, p);
    crate::lexer::lemma_string_scan(src, ch, p);
    let (w, cw) = comment_ws(src, q + 1, false);
    crate::comment::lemma_comment_ws(src, q + 1, false);
    crate::comment::lemma_comment_ws(src, w + 4, true);
    let (p1, c1) = comment_ws(src, w + 4, true);
    lemma_attr_entries_close(src, p1);
    let with = cw == 119 && unit_at(src, w + 1) == 105 && unit_at(src, w + 2) == 116 && unit_at(src, w + 3) == 104;
    let last = imps.last();
    assert(ok && last.end == q);
    if with {
        assert(attributes_read(src, w, 0, q + 1, seq![], last, npos, r));
        let (es, kind, q2) = attr_entries(src, p1);
        if c1 == 123 && kind == 2 {
            assert(last.attr_index == p1 && last.statement_end == q2 + 1);
            assert(unit_at(src, p1) == 123);
        } else if c1 != 123 {
            assert(last.statement_end == q + 1);
        } else {
            assert(kind == 0 || kind == 1 || kind == 2);
            assert(last.statement_end == q + 1);
        }
    }
}

/// Where an `import` statement at `p` records an import, its positions fit
/// the text: the statement starts at `p`; a static import's specifier lies
/// inside two equal quotes after `p`; a dynamic import's `d` is the position
/// of its `(` (or, for `import defer (`, of the word `defer`), after `p`,
/// and a constant specifier of it starts on a quote or a backtick at the
/// first significant unit after `d`; `import.meta` runs from `p` to just
/// after the word `meta`.
pub proof fn law_import_positions(o: Lexer, n: Lexer, r: Result<(), ParseError>)
    requires
        o.wf(),
        0 <= o.pos < o.len(),
        reads_import_statement(o, n, r),
        n.imports@.len() == o.imports@.len() + 1,
    ensures
        ({
            let src = o.source@;
            let p = o.pos as int;
            let imp = n.imports@.last();
            &&& imp.statement_start == p
            &&& imp.dynamic == -1 ==> {
                &&& p < imp.start <= imp.end < src.len()
                &&& spec_is_quote(unit_at(src, imp.start - 1))
                &&& unit_at(src, imp.end as int) == unit_at(src, imp.start - 1)
                &&& {
                    ||| imp.statement_end == imp.end + 1
                    ||| {
                        &&& imp.end < imp.attr_index < imp.statement_end
                        &&& unit_at(src, imp.attr_index as int) == 123
                        &&& unit_at(src, imp.statement_end - 1) == 125
                    }
                }
            }
            &&& imp.dynamic == -2 ==> {
                &&& imp.start == p
                &&& unit_at(src, imp.end - 4) == 109
                &&& spec_starts_with(src, utf16_encode("eta"@), imp.end - 3)
            }
            &&& imp.dynamic >= 0 ==> {
                &&& p < imp.dynamic
                &&& unit_at(src, imp.dynamic as int) == 40 || defer_at(src, imp.dynamic as int)
                &&& imp.start == comment_ws(src, imp.dynamic + 1, true).0
                &&& imp.safe ==> {
                    &&& spec_is_quote(unit_at(src, imp.start as int)) || unit_at(src, imp.start as int) == 96
                    &&& imp.start < imp.end - 1
                    &&& unit_at(src, imp.end - 1) == unit_at(src, imp.start as int)
                }
                &&& imp.statement_end != 0 ==> imp.end < imp.statement_end && unit_at(src, imp.statement_end - 1) == 41
            }
        }),
{
    let src = o.source@;
    let p = o.pos as int;
    let (p1, c1) = comment_ws(src, p + 6, true);
    let (p2, c2) = comment_ws(src, p1 + 1, true);
    crate::comment::lemma_comment_ws(src, p + 6, true);
    crate::comment::lemma_comment_ws(src, p1 + 1, true);
    crate::comment::lemma_comment_ws(src, p1 + 5, true);
    crate::comment::lemma_comment_ws(src, p1 + 6, true);
    crate::comment::lemma_comment_ws(src, p2 + 5, true);
    crate::comment::lemma_comment_ws(src, p2 + 6, true);
    let (q, c, ph, done, meta) = import_phase(src, p, not_after_dot(o));
    let imp = n.imports@.last();
    let m = o.with_pos(q);
    if done {
        assert(imp.dynamic == -2);
    } else if c == 40 {
        assert(reads_dynamic_import(m, n, p, ph, r));
        assert(unit_at(src, q) == 40 || defer_at(src, q));
        let (d1, e1) = comment_ws(src, q + 1, true);
        crate::comment::lemma_comment_ws(src, q + 1, true);
        crate::lexer::lemma_string_scan(src, e1, d1);
        crate::lexer::lemma_no_subst_scan(src, d1);
        match constant_specifier_end(src, d1) {
            Some(k) => {
                crate::comment::lemma_comment_ws(src, k + 1, true);
            },
            None => {},
        }
        assert(imp.dynamic == q);
    } else if c == 123 && ph == 0 && o.open_token_depth == 0 {
        let (kind, y) = names_end(src, q);
        let (f, cf) = comment_ws(src, y, true);
        let (g, cg) = comment_ws(src, f + 4, true);
        assert(reads_named_import(m, n, p, r));
        if kind != 0 && !(cf == 102 && !spec_starts_with(src, utf16_encode("rom"@), f + 1)) {
            lemma_names_end(src, q);
            crate::comment::lemma_comment_ws(src, y, true);
            crate::comment::lemma_comment_ws(src, f + 4, true);
            crate::lexer::lemma_string_scan(src, cg, g);
            assert(reads_import_string(m.with_pos(g), n, p, cg, 0, r));
            lemma_static_statement_end(src, g, o.imports@, n.imports@, n.pos as int, p, cg, 0, r);
        }
    } else {
        match quote_before_end(src, q) {
            Some(t) => {
                lemma_quote_before_end(src, q);
                crate::lexer::lemma_string_scan(src, src[t] as int, t);
                assert(reads_import_string(o.with_pos(t), n, p, src[t] as int, ph, r));
                lemma_static_statement_end(src, t, o.imports@, n.imports@, n.pos as int, p, src[t] as int, ph, r);
            },
            None => {},
        }
    }
}

/// The `import` at the cursor of `o` is neither `import.meta` nor a dynamic
/// `import(`: a static form, or no import at all.
pub open spec fn import_is_static_form(o: Lexer) -> bool {
    let (q, c, ph, done, meta) = import_phase(o.source@, o.pos as int, not_after_dot(o));
    meta is None && (done || c != 40)
}

/// A static import below the top level records nothing: inside brackets an
/// `import` that is neither `import.meta` nor `import(` leaves the imports as
/// they were, and reading it does not fail.
pub proof fn law_nested_static_import(o: Lexer, n: Lexer, r: Result<(), ParseError>)
    requires
        reads_import_statement(o, n, r),
        o.open_token_depth != 0,
        import_is_static_form(o),
    ensures
        r is Ok,
        n.imports == o.imports,
{
}

/// With the cursor on the `i` of `import`: reads a static import statement
/// (`import ... from '...'`, `import '...'`, `import source`/`defer` forms),
/// `import.meta`, or a dynamic `import(...)`, and records it, as
/// `reads_import_statement` says.
#[allow(non_snake_case)]
#[verifier::loop_isolation(false)]
pub fn tryParseImportStatement(lx: &mut Lexer) -> (r: Result<(), ParseError>)
    requires
        old(lx).wf(),
        old(lx).records_wf(),
        0 <= old(lx).pos < old(lx).len(),
    ensures
        reads_import_statement(*old(lx), *final(lx), r),
        r matches Err(e) ==> e.pos == final(lx).pos,
        old(lx).open_token_depth != 0 && import_is_static_form(*old(lx)) ==> r is Ok && final(lx).imports == old(lx).imports,
        import_step(*final(lx), *old(lx)),
        old(lx).pos < final(lx).pos <= old(lx).len() + 16,
{
    let ghost src = lx.source@;
    let startPos = lx.pos;
    let (ch, phase_keyword, finished) = readImportPhase(lx);
    if finished {
        return Ok(());
    }
    proof {
        let ph = import_phase(src, startPos as int, not_after_dot(*old(lx)));
        assert(ph.4 is None);
        assert(*lx == old(lx).with_pos(ph.0));
        assert(ph.2 == phase_keyword as int);
    }
    // dynamic import
    if ch == 40 {
        return readDynamicImport(lx, startPos, phase_keyword);
    }
    if ch == 123 && phase_keyword == 0 {
        // import statement only permitted at base-level
        if lx.open_token_depth != 0 {
            prev(lx);
            return Ok(());
        }
        return readNamedImport(lx, startPos);
    }
    if !(ch == 34 || ch == 39 || ch == 42) {
        // no space after "import" -> not an import keyword
        if lx.pos == startPos + 6 {
            prev(lx);
            return Ok(());
        }
    }
    // import defer * as foo mandates *;
    // import statement only permitted at base-level
    if phase_keyword == 2 && ch != 42 || lx.open_token_depth != 0 {
        prev(lx);
        return Ok(());
    }
    let ghost mid = *lx;
    let end = end(lx);
    while lx.pos < end
        invariant
            lx.wf(),
            lx.records_wf(),
            *lx == mid.with_pos(lx.pos as int),
            import_step(mid, *old(lx)),
            startPos < lx.pos <= src.len() + 10,
            end == src.len() - 1,
            src == lx.source@,
            mid.pos <= lx.pos,
            quote_before_end(src, mid.pos as int) == quote_before_end(src, lx.pos as int),
            mid.pos >= end ==> lx.pos == mid.pos,
            mid.pos < end ==> lx.pos <= end,
        decreases 2 * src.len() + POS_SLACK - lx.pos,
    {
        let c = charCodeAt(lx, lx.pos);
        if isQuote(c) {
            return readImportString(lx, startPos, c, phase_keyword);
        }
        next(lx);
    }
    Err(syntaxError(lx))
}


/// What the lexer reports for the quoted slice `[start, end)`: its decoded
/// value when it is a quoted string that decodes to something non-empty,
/// otherwise the raw slice.
pub open spec fn spec_decode_attr(src: Seq<u16>, start: int, end: int) -> Seq<char> {
    let q = unit_at(src, start);
    if (q == 39 || q == 34) && literal_decode(src, start + 1, q) is Some && utf16_decode_lossy(
        literal_decode(src, start + 1, q)->0,
    ).len() > 0 {
        utf16_decode_lossy(literal_decode(src, start + 1, q)->0)
    } else {
        utf16_decode_lossy(clamped_range(src, start, end))
    }
}

/// The decoded literal whose opening quote is at `start`, when it decodes.
pub open spec fn spec_eval_literal(src: Seq<u16>, start: int) -> Option<Seq<char>> {
    match literal_decode(src, start + 1, unit_at(src, start)) {
        Some(u) => Some(utf16_decode_lossy(u)),
        None => None,
    }
}

/// The reported import `r` is the record `imp` of the source `src`: the
/// unset 0 positions become -1, a safe specifier is decoded (a static one
/// from the quote before `start`, a dynamic one from `start`), and the
/// attributes are decoded pairs (`None` when there are none).
pub open spec fn reports_import(r: Import, imp: ImportState, src: Seq<u16>) -> bool {
    &&& r.t == imp.import_ty
    &&& r.ss == imp.statement_start
    &&& r.se == (if imp.statement_end == 0 { -1 } else { imp.statement_end as int })
    &&& r.s == imp.start
    &&& r.e == (if imp.end == 0 { -1 } else { imp.end as int })
    &&& r.a == (if imp.attr_index == 0 { -1 } else { imp.attr_index as int })
    &&& r.d == imp.dynamic
    &&& (match r.n {
        Some(n) => imp.safe && spec_eval_literal(src, if imp.dynamic == STANDARD_IMPORT { imp.start - 1 } else { imp.start as int }) == Some(n@),
        None => !imp.safe || spec_eval_literal(src, if imp.dynamic == STANDARD_IMPORT { imp.start - 1 } else { imp.start as int }) is None,
    })
    &&& (match r.at {
        None => imp.attributes@.len() == 0,
        Some(v) => imp.attributes@.len() > 0 && v@.len() == imp.attributes@.len() && forall|i: int|
            0 <= i < v@.len() ==> {
                let (ks, ke, vs, ve) = #[trigger] imp.attributes@[i];
                &&& v@[i].0@ == spec_decode_attr(src, ks as int, ke as int)
                &&& v@[i].1@ == spec_decode_attr(src, vs as int, ve as int)
            },
    })
}

/// The value of the quoted slice `[start, end)` (see `spec_decode_attr`).
#[allow(non_snake_case)]
pub fn decodeAttr(lx: &Lexer, start: i32, end: i32) -> (r: String)
    requires
        lx.wf(),
    ensures
        r@ == spec_decode_attr(lx.source@, start as int, end as int),
{
    let q = charCodeAt(lx, start);
    if q == 39 || q == 34 {
        if let Some(decoded) = evalLiteral(lx, start, end) {
            if !decoded.as_str().is_empty() {
                return decoded;
            }
        }
    }
    stringify(lx, start, end)
}

/// The reported form of the import record `impt`.
#[allow(non_snake_case)]
fn convertImport(lx: &Lexer, impt: &ImportState) -> (r: Import)
    requires
        lx.wf(),
    ensures
        reports_import(r, *impt, lx.source@),
{
    let e = if impt.end == 0 { -1 } else { impt.end };
    let se = if impt.statement_end == 0 { -1 } else { impt.statement_end };
    let a = if impt.attr_index == 0 { -1 } else { impt.attr_index };
    let n = if impt.safe {
        if impt.dynamic == STANDARD_IMPORT {
            evalLiteral(lx, impt.start.wrapping_sub(1), impt.end.wrapping_add(1))
        } else {
            evalLiteral(lx, impt.start, impt.end)
        }
    } else {
        None
    };
    let at = if impt.attributes.len() == 0 {
        None
    } else {
        let mut v: Vec<(String, String)> = Vec::new();
        let mut i: usize = 0;
        while i < impt.attributes.len()
            invariant
                lx.wf(),
                i <= impt.attributes@.len(),
                v@.len() == i,
                forall|j: int| 0 <= j < i ==> {
                    let (ks, ke, vs, ve) = #[trigger] impt.attributes@[j];
                    &&& v@[j].0@ == spec_decode_attr(lx.source@, ks as int, ke as int)
                    &&& v@[j].1@ == spec_decode_attr(lx.source@, vs as int, ve as int)
                },
            decreases impt.attributes@.len() - i,
        {
            let (ks, ke, vs, ve) = impt.attributes[i];
            let key = decodeAttr(lx, ks, ke);
            let value = decodeAttr(lx, vs, ve);
            v.push((key, value));
            i = i + 1;
        }
        Some(v)
    };
    Import { n, t: impt.import_ty, ss: impt.statement_start, se, s: impt.start, e, a, d: impt.dynamic, at }
}

/// All imports found, in the reported form.
#[allow(non_snake_case)]
pub fn getImports(lx: &Lexer) -> (r: Vec<Import>)
    requires
        lx.wf(),
    ensures
        r@.len() == lx.imports@.len(),
        forall|i: int| 0 <= i < r@.len() ==> #[trigger] reports_import(r@[i], lx.imports@[i], lx.source@),
{
    let mut out: Vec<Import> = Vec::new();
    let mut i: usize = 0;
    while i < lx.imports.len()
        invariant
            lx.wf(),
            i <= lx.imports@.len(),
            out@.len() == i,
            forall|j: int| 0 <= j < i ==> #[trigger] reports_import(out@[j], lx.imports@[j], lx.source@),
        decreases lx.imports@.len() - i,
    {
        let imp = convertImport(lx, &lx.imports[i]);
        out.push(imp);
        i = i + 1;
    }
    out
}

} // verus!
