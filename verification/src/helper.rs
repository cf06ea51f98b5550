use vstd::prelude::*;
use crate::state::{Lexer, unit_at};
use crate::source::{charCodeAt, starts_with, spec_starts_with, utf16_encode};

verus! {

/// An import as the lexer reports it (positions are UTF-16 offsets).
#[derive(Debug, Clone)]
pub struct Import {
    /// the specifier with escapes decoded (`None` when it is not a safe literal)
    pub n: Option<String>,
    /// phase: 1 static, 2 dynamic, 3 `import.meta`, 4 `import source`,
    /// 5 `import.source()`, 6 `import defer`, 7 `import.defer()`
    pub t: i32,
    /// statement start
    pub ss: i32,
    /// statement end (-1 when unknown)
    pub se: i32,
    /// specifier start
    pub s: i32,
    /// specifier end (-1 when unknown)
    pub e: i32,
    /// start of the attributes object, -1 when absent
    pub a: i32,
    /// -1 static, -2 `import.meta`, otherwise the position of the `(`
    pub d: i32,
    /// the import attributes as (key, value) pairs, `None` when absent
    pub at: Option<Vec<(String, String)>>,
}

/// An export as the lexer reports it.
#[derive(Debug, Clone)]
pub struct Export {
    /// exported name start / end
    pub s: i32,
    pub e: i32,
    /// local name start / end (-1 when there is no local name)
    pub ls: i32,
    pub le: i32,
    /// export statement start
    pub ss: i32,
    /// exported name
    pub n: Option<String>,
    /// local name (`None` for a reexport)
    pub ln: Option<String>,
}

pub type Imports = Vec<Import>;

pub type Exports = Vec<Export>;

pub type Facade = bool;

pub type ParseResult = (Imports, Exports, Facade);

pub type Source = Vec<u8>;

/// The syntax error at the cursor.
#[allow(non_snake_case)]
pub fn syntaxError(lx: &Lexer) -> (e: crate::state::ParseError)
    ensures
        e.pos == lx.pos,
{
    crate::state::ParseError { pos: lx.pos }
}

pub open spec fn spec_is_br(c: int) -> bool {
    c == 13 || c == 10
}

pub open spec fn spec_is_ws_not_br(c: int) -> bool {
    c == 9 || c == 11 || c == 12 || c == 32 || c == 160
}

pub open spec fn spec_is_br_or_ws(c: int) -> bool {
    8 < c < 14 || c == 32 || c == 160
}

/// The 23 characters that can end a punctuator: `!%&()*+,-./:;<=>?[]^{}|~`
pub open spec fn spec_is_punctuator(ch: int) -> bool {
    ch == 33 || ch == 37 || ch == 38 || 39 < ch < 48 || 57 < ch < 64 || ch == 91 || ch == 93
        || ch == 94 || 122 < ch < 127
}

/// The 20 characters that can end an expression prefix: `!%&(*+,-.:;<=>?[^{|~`
pub open spec fn spec_is_expression_punctuator(ch: int) -> bool {
    ch == 33 || ch == 37 || ch == 38 || (39 < ch < 47 && ch != 41) || 57 < ch < 64 || ch == 91
        || ch == 94 || (122 < ch < 127 && ch != 125)
}

pub open spec fn spec_is_boundary(c: int) -> bool {
    8 < c < 14 || c == 32 || c == 160 || (spec_is_punctuator(c) && c != 46)
}

pub open spec fn spec_is_quote(c: int) -> bool {
    c == 39 || c == 34
}

/// A character of an identifier-like run: ASCII letters and digits, `_`, `$`
/// and everything beyond ASCII.
pub open spec fn spec_is_token_run_char(c: int) -> bool {
    (97 <= c <= 122) || (65 <= c <= 90) || (48 <= c <= 57) || c == 95 || c == 36 || c >= 128
}

#[allow(non_snake_case)]
pub fn isBr(c: i32) -> (r: bool)
    ensures
        r == spec_is_br(c as int),
{
    c == 13 || c == 10
}

#[allow(non_snake_case)]
pub fn isWsNotBr(c: i32) -> (r: bool)
    ensures
        r == spec_is_ws_not_br(c as int),
{
    c == 9 || c == 11 || c == 12 || c == 32 || c == 160
}

#[allow(non_snake_case)]
pub fn isBrOrWs(c: i32) -> (r: bool)
    ensures
        r == spec_is_br_or_ws(c as int),
{
    c > 8 && c < 14 || c == 32 || c == 160
}

#[allow(non_snake_case)]
pub fn isPunctuator(ch: i32) -> (r: bool)
    ensures
        r == spec_is_punctuator(ch as int),
{
    ch == 33 || ch == 37 || ch == 38 || ch > 39 && ch < 48 || ch > 57 && ch < 64 || ch == 91
        || ch == 93 || ch == 94 || ch > 122 && ch < 127
}

#[allow(non_snake_case)]
pub fn isExpressionPunctuator(ch: i32) -> (r: bool)
    ensures
        r == spec_is_expression_punctuator(ch as int),
{
    ch == 33 || ch == 37 || ch == 38 || ch > 39 && ch < 47 && ch != 41 || ch > 57 && ch < 64
        || ch == 91 || ch == 94 || ch > 122 && ch < 127 && ch != 125
}

#[allow(non_snake_case)]
pub fn isBrOrWsOrPunctuatorNotDot(c: i32) -> (r: bool)
    ensures
        r == spec_is_boundary(c as int),
{
    c > 8 && c < 14 || c == 32 || c == 160 || isPunctuator(c) && c != 46
}

#[allow(non_snake_case)]
pub fn isQuote(ch: i32) -> (r: bool)
    ensures
        r == spec_is_quote(ch as int),
{
    ch == 39 || ch == 34
}

#[allow(non_snake_case)]
pub fn isTokenRunChar(ch: i32) -> (r: bool)
    ensures
        r == spec_is_token_run_char(ch as int),
{
    (ch >= 97 && ch <= 122) || (ch >= 65 && ch <= 90) || (ch >= 48 && ch <= 57) || ch == 95
        || ch == 36 || ch >= 128
}

/// Whether the token ending at `pos` is a spread `...`.
#[allow(non_snake_case)]
pub fn isSpread(lx: &Lexer, pos: i32) -> (r: bool)
    requires
        pos >= i32::MIN + 2,
    ensures
        r == (lx.at(pos as int) == 46 && lx.at(pos - 1) == 46 && lx.at(pos - 2) == 46),
{
    charCodeAt(lx, pos) == 46 && charCodeAt(lx, pos - 1) == 46 && charCodeAt(lx, pos - 2) == 46
}

/// Whether the cursor stands at the start of a word (nothing or a boundary before it).
#[allow(non_snake_case)]
pub fn keywordStart(lx: &Lexer) -> (r: bool)
    requires
        lx.pos > i32::MIN,
    ensures
        r == (lx.pos == 0 || spec_is_boundary(lx.at(lx.pos - 1))),
{
    let pos = lx.pos;
    pos == 0 || isBrOrWsOrPunctuatorNotDot(charCodeAt(lx, pos - 1))
}

/// Whether the keyword `m` ends at `pos` and is not glued to a word before
/// it: it starts the source, or a boundary unit stands before its start.
pub open spec fn spec_preceding_keyword(src: Seq<u16>, pos: int, m: Seq<char>) -> bool {
    let u = utf16_encode(m);
    let start = pos - u.len() + 1;
    if start < 0 {
        false
    } else {
        spec_starts_with(src, u, start) && (start == 0 || spec_is_boundary(unit_at(src, start - 1)))
    }
}

/// Whether the one-letter start `ch` of a keyword stands at `pos` at a word start.
pub open spec fn spec_preceding_keyword1(src: Seq<u16>, pos: int, ch: int) -> bool {
    unit_at(src, pos) == ch && (pos == 0 || spec_is_boundary(unit_at(src, pos - 1)))
}

#[allow(non_snake_case)]
fn readPrecedingKeyword(lx: &Lexer, pos: i32, m: &str) -> (r: bool)
    ensures
        r == spec_preceding_keyword(lx.source@, pos as int, m@),
{
    let u = crate::source::encode_utf16(m);
    let n = u.len();
    if n > 0x8000_0001 {
        return false;
    }
    let n = n as i64;
    if (pos as i64) < n - 1 {
        return false;
    }
    if n == 0 {
        // an empty keyword: only the boundary at `pos` is checked
        return pos == -1 || isBrOrWsOrPunctuatorNotDot(charCodeAt(lx, pos));
    }
    let from = (pos as i64 - n + 1) as i32;
    let before = (pos as i64 - n) as i32;
    starts_with(lx, m, from) && (from == 0 || isBrOrWsOrPunctuatorNotDot(charCodeAt(lx, before)))
}

#[allow(non_snake_case)]
fn readPrecedingKeyword1(lx: &Lexer, pos: i32, ch: i32) -> (r: bool)
    requires
        pos > i32::MIN,
    ensures
        r == spec_preceding_keyword1(lx.source@, pos as int, ch as int),
{
    charCodeAt(lx, pos) == ch && (pos == 0 || isBrOrWsOrPunctuatorNotDot(charCodeAt(lx, pos - 1)))
}

/// Whether one of `case debugger delete do else in instanceof new return throw
/// typeof void yield await` ends at `pos` (so that an expression may follow).
pub open spec fn spec_is_expression_keyword(src: Seq<u16>, pos: int) -> bool {
    let c0 = unit_at(src, pos);
    let c1 = unit_at(src, pos - 1);
    let c2 = unit_at(src, pos - 2);
    let c3 = unit_at(src, pos - 3);
    if c0 == 100 {
        (c1 == 105 && spec_preceding_keyword(src, pos - 2, "vo"@)) || (c1 == 108
            && spec_preceding_keyword(src, pos - 2, "yie"@))
    } else if c0 == 101 {
        if c1 == 115 {
            (c2 == 108 && spec_preceding_keyword1(src, pos - 3, 101)) || (c2 == 97
                && spec_preceding_keyword1(src, pos - 3, 99))
        } else {
            c1 == 116 && spec_preceding_keyword(src, pos - 2, "dele"@)
        }
    } else if c0 == 102 {
        c1 == 111 && c2 == 101 && ((c3 == 99 && spec_preceding_keyword(src, pos - 4, "instan"@))
            || (c3 == 112 && spec_preceding_keyword(src, pos - 4, "ty"@)))
    } else if c0 == 110 {
        spec_preceding_keyword1(src, pos - 1, 105) || spec_preceding_keyword(
            src,
            pos - 1,
            "retur"@,
        )
    } else if c0 == 111 {
        spec_preceding_keyword1(src, pos - 1, 100)
    } else if c0 == 114 {
        spec_preceding_keyword(src, pos - 1, "debugge"@)
    } else if c0 == 116 {
        spec_preceding_keyword(src, pos - 1, "awai"@)
    } else if c0 == 119 {
        (c1 == 101 && spec_preceding_keyword1(src, pos - 2, 110)) || (c1 == 111
            && spec_preceding_keyword(src, pos - 2, "thr"@))
    } else {
        false
    }
}

/// Detects one of case, debugger, delete, do, else, in, instanceof, new,
/// return, throw, typeof, void, yield, await ending at `pos`.
#[allow(non_snake_case)]
pub fn isExpressionKeyword(lx: &Lexer, pos: i32) -> (r: bool)
    ensures
        r == spec_is_expression_keyword(lx.source@, pos as int),
{
    let c0 = charCodeAt(lx, pos);
    if c0 == 100 {
        let c1 = charCodeAt(lx, pos - 1);
        if c1 == 105 {
            readPrecedingKeyword(lx, pos - 2, "vo")
        } else if c1 == 108 {
            readPrecedingKeyword(lx, pos - 2, "yie")
        } else {
            false
        }
    } else if c0 == 101 {
        let c1 = charCodeAt(lx, pos - 1);
        if c1 == 115 {
            let c2 = charCodeAt(lx, pos - 2);
            if c2 == 108 {
                readPrecedingKeyword1(lx, pos - 3, 101)
            } else if c2 == 97 {
                readPrecedingKeyword1(lx, pos - 3, 99)
            } else {
                false
            }
        } else if c1 == 116 {
            readPrecedingKeyword(lx, pos - 2, "dele")
        } else {
            false
        }
    } else if c0 == 102 {
        if charCodeAt(lx, pos - 1) != 111 || charCodeAt(lx, pos - 2) != 101 {
            return false;
        }
        let c3 = charCodeAt(lx, pos - 3);
        if c3 == 99 {
            readPrecedingKeyword(lx, pos - 4, "instan")
        } else if c3 == 112 {
            readPrecedingKeyword(lx, pos - 4, "ty")
        } else {
            false
        }
    } else if c0 == 110 {
        readPrecedingKeyword1(lx, pos - 1, 105) || readPrecedingKeyword(lx, pos - 1, "retur")
    } else if c0 == 111 {
        readPrecedingKeyword1(lx, pos - 1, 100)
    } else if c0 == 114 {
        readPrecedingKeyword(lx, pos - 1, "debugge")
    } else if c0 == 116 {
        readPrecedingKeyword(lx, pos - 1, "awai")
    } else if c0 == 119 {
        let c1 = charCodeAt(lx, pos - 1);
        if c1 == 101 {
            readPrecedingKeyword1(lx, pos - 2, 110)
        } else if c1 == 111 {
            readPrecedingKeyword(lx, pos - 2, "thr")
        } else {
            false
        }
    } else {
        false
    }
}

/// Whether `while`, `for` or `if` ends at `curPos`.
pub open spec fn spec_is_paren_keyword(src: Seq<u16>, cur: int) -> bool {
    (unit_at(src, cur) == 101 && spec_starts_with(src, utf16_encode("whil"@), cur - 4)) || (
    unit_at(src, cur) == 114 && spec_starts_with(src, utf16_encode("fo"@), cur - 2)) || (unit_at(
        src,
        cur - 1,
    ) == 105 && unit_at(src, cur) == 102)
}

#[allow(non_snake_case)]
pub fn isParenKeyword(lx: &Lexer, curPos: i32) -> (r: bool)
    ensures
        r == spec_is_paren_keyword(lx.source@, curPos as int),
{
    (charCodeAt(lx, curPos) == 101 && starts_with(lx, "whil", curPos - 4)) || (charCodeAt(
        lx,
        curPos,
    ) == 114 && starts_with(lx, "fo", curPos - 2)) || (charCodeAt(lx, curPos) == 102
        && charCodeAt(lx, curPos - 1) == 105)
}

/// Whether `=>`, `;`, `)`, `finally`, `catch` or `else` ends at `curPos`
/// (a `{` after one of them opens a statement block).
pub open spec fn spec_is_expression_terminator(src: Seq<u16>, cur: int) -> bool {
    let c = unit_at(src, cur);
    if c == 62 {
        unit_at(src, cur - 1) == 61
    } else if c == 59 || c == 41 {
        true
    } else if c == 104 {
        spec_starts_with(src, utf16_encode("catc"@), cur - 4)
    } else if c == 121 {
        spec_starts_with(src, utf16_encode("finall"@), cur - 6)
    } else if c == 101 {
        spec_starts_with(src, utf16_encode("els"@), cur - 3)
    } else {
        false
    }
}

#[allow(non_snake_case)]
pub fn isExpressionTerminator(lx: &Lexer, curPos: i32) -> (r: bool)
    ensures
        r == spec_is_expression_terminator(lx.source@, curPos as int),
{
    let c = charCodeAt(lx, curPos);
    if c == 62 {
        charCodeAt(lx, curPos - 1) == 61
    } else if c == 59 || c == 41 {
        true
    } else if c == 104 {
        starts_with(lx, "catc", curPos - 4)
    } else if c == 121 {
        starts_with(lx, "finall", curPos - 6)
    } else if c == 101 {
        starts_with(lx, "els", curPos - 3)
    } else {
        false
    }
}

} // verus!
