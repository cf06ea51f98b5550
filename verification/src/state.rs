use vstd::prelude::*;

verus! {

/// Longest source, in UTF-16 code units, that the lexer accepts: positions are
/// `i32` and must stay clear of overflow while they run a little past the end.
pub const MAX_SOURCE_LEN: usize = 0x3fff_ff00;

/// How far, beyond twice the source length, a position may run while a
/// statement is being read (keywords are skipped by fixed steps before their
/// text is known).
pub const POS_SLACK: i32 = 64;

/// Capacity of the open-token stack (brackets, braces, templates).
pub const STACK_SIZE: usize = 1024;

/// What opened an entry of the open-token stack.
#[derive(Debug, Clone, Copy, PartialEq, Eq, Structural)]
pub enum OpenTokenState {
    /// `(`
    AnyParen,
    /// `{`
    AnyBrace,
    /// `` ` ``
    Template,
    /// `${` inside a template
    TemplateBrace,
    /// the `(` of `import(...)`
    ImportParen,
    /// the body brace of a class
    ClassBrace,
    /// `async(`
    AsyncParen,
    /// `[`
    AnyBracket,
}

/// An entry of the open-token stack: its kind and the position of the token
/// that came before it.
#[derive(Debug, Clone, Copy, PartialEq, Eq, Structural)]
pub struct OpenToken {
    pub token: OpenTokenState,
    pub pos: i32,
}

/// An import while it is being read. `end`, `statement_end` and `attr_index`
/// use 0 for "not set yet".
#[derive(Debug, Clone)]
pub struct ImportState {
    pub start: i32,
    pub end: i32,
    pub statement_start: i32,
    pub statement_end: i32,
    pub attr_index: i32,
    /// -1 static, -2 `import.meta`, otherwise the position of the `(`
    pub dynamic: i32,
    pub safe: bool,
    pub import_ty: i32,
    /// (key start, key end, value start, value end) of each attribute
    pub attributes: Vec<(i32, i32, i32, i32)>,
}

/// An export while it is being read; -1 stands for "no local name".
#[derive(Debug, Clone, Copy, PartialEq, Eq, Structural)]
pub struct ExportState {
    pub start: i32,
    pub end: i32,
    pub local_start: i32,
    pub local_end: i32,
    pub statement_start: i32,
}

/// A syntax error, at a UTF-16 offset of the source.
#[derive(Debug, Clone, Copy, PartialEq, Eq, Structural)]
pub struct ParseError {
    pub pos: i32,
}

/// All the state of one lexing run: the source as UTF-16 code units, the
/// cursor, the bracket stack and what has been found so far.
pub struct Lexer {
    pub source: Vec<u16>,
    pub pos: i32,
    pub open_token_depth: usize,
    pub open_token_stack: Vec<OpenToken>,
    pub next_brace_is_class: bool,
    pub last_slash_was_division: bool,
    pub facade: bool,
    pub last_token_pos: i32,
    pub jsx_tolerant_eof: bool,
    pub imports: Vec<ImportState>,
    pub dynamic_import_stack: Vec<usize>,
    pub exports: Vec<ExportState>,
    pub export_statement_start: i32,
}

/// A marker for the witnesses of the existential statements about runs of
/// the lexer (always true); it names the values a proof supplies.
pub open spec fn witnessed<A>(a: A) -> bool {
    true
}

/// The code unit at `i`, or 0 outside the source (the source reads as if
/// NUL units followed it).
pub open spec fn unit_at(src: Seq<u16>, i: int) -> int {
    if 0 <= i < src.len() {
        src[i] as int
    } else {
        0
    }
}

pub open spec fn max(a: int, b: int) -> int {
    if a >= b {
        a
    } else {
        b
    }
}

/// What every import record keeps: the phase type `t` matches the kind
/// given by `d` (-1 static: 1, 4 or 6; -2 `import.meta`: 3; a position: 2, 5
/// or 7), and a static import's specifier lies between two equal quotes,
/// after its statement start.
pub open spec fn import_wf(imp: ImportState, src: Seq<u16>) -> bool {
    &&& imp.dynamic >= -2
    &&& imp.dynamic == -1 ==> (imp.import_ty == 1 || imp.import_ty == 4 || imp.import_ty == 6)
    &&& imp.dynamic == -1 ==> {
        &&& 0 <= imp.statement_start < imp.start
        &&& 1 <= imp.start <= imp.end < src.len()
        &&& (src[imp.start - 1] == 39 || src[imp.start - 1] == 34)
        &&& src[imp.end as int] == src[imp.start - 1]
        &&& imp.safe
    }
    &&& imp.dynamic == -2 ==> imp.import_ty == 3
    &&& imp.dynamic >= 0 ==> (imp.import_ty == 2 || imp.import_ty == 5 || imp.import_ty == 7)
}

/// An export record has both ends of its local name, or neither (-1).
pub open spec fn export_wf(e: ExportState) -> bool {
    ||| (e.local_start == -1 && e.local_end == -1)
    ||| (0 <= e.local_start && 0 <= e.local_end)
}

/// Every export of `exps` is well formed.
#[verifier::opaque]
pub open spec fn all_exports_wf(exps: Seq<ExportState>) -> bool {
    forall|i: int| 0 <= i < exps.len() ==> #[trigger] export_wf(exps[i])
}

pub proof fn lemma_exports_wf_push(exps: Seq<ExportState>, x: ExportState)
    requires
        all_exports_wf(exps),
        export_wf(x),
    ensures
        all_exports_wf(exps.push(x)),
{
    reveal(all_exports_wf);
    assert forall|i: int| 0 <= i < exps.push(x).len() implies #[trigger] export_wf(exps.push(x)[i]) by {
        if i < exps.len() {
            assert(exps.push(x)[i] == exps[i]);
        }
    }
}

pub proof fn lemma_exports_wf_update(exps: Seq<ExportState>, j: int, x: ExportState)
    requires
        all_exports_wf(exps),
        export_wf(x),
        0 <= j < exps.len(),
    ensures
        all_exports_wf(exps.update(j, x)),
{
    reveal(all_exports_wf);
    assert forall|i: int| 0 <= i < exps.update(j, x).len() implies #[trigger] export_wf(exps.update(j, x)[i]) by {
        if i != j {
            assert(exps.update(j, x)[i] == exps[i]);
        }
    }
}

pub proof fn lemma_exports_wf_get(exps: Seq<ExportState>, j: int)
    requires
        all_exports_wf(exps),
        0 <= j < exps.len(),
    ensures
        export_wf(exps[j]),
{
    reveal(all_exports_wf);
}

/// Every import of `imps` is well formed.
#[verifier::opaque]
pub open spec fn all_imports_wf(imps: Seq<ImportState>, src: Seq<u16>) -> bool {
    forall|i: int| 0 <= i < imps.len() ==> #[trigger] import_wf(imps[i], src)
}

pub proof fn lemma_imports_wf_push(imps: Seq<ImportState>, x: ImportState, src: Seq<u16>)
    requires
        all_imports_wf(imps, src),
        import_wf(x, src),
    ensures
        all_imports_wf(imps.push(x), src),
{
    reveal(all_imports_wf);
    assert forall|i: int| 0 <= i < imps.push(x).len() implies #[trigger] import_wf(imps.push(x)[i], src) by {
        if i < imps.len() {
            assert(imps.push(x)[i] == imps[i]);
        }
    }
}

pub proof fn lemma_imports_wf_update(imps: Seq<ImportState>, j: int, x: ImportState, src: Seq<u16>)
    requires
        all_imports_wf(imps, src),
        import_wf(x, src),
        0 <= j < imps.len(),
    ensures
        all_imports_wf(imps.update(j, x), src),
{
    reveal(all_imports_wf);
    assert forall|i: int| 0 <= i < imps.update(j, x).len() implies #[trigger] import_wf(imps.update(j, x)[i], src) by {
        if i != j {
            assert(imps.update(j, x)[i] == imps[i]);
        }
    }
}

pub proof fn lemma_imports_wf_get(imps: Seq<ImportState>, j: int, src: Seq<u16>)
    requires
        all_imports_wf(imps, src),
        0 <= j < imps.len(),
    ensures
        import_wf(imps[j], src),
{
    reveal(all_imports_wf);
}

pub proof fn lemma_imports_wf_drop_last(imps: Seq<ImportState>, src: Seq<u16>)
    requires
        all_imports_wf(imps, src),
        imps.len() > 0,
    ensures
        all_imports_wf(imps.drop_last(), src),
{
    reveal(all_imports_wf);
    assert forall|i: int| 0 <= i < imps.drop_last().len() implies #[trigger] import_wf(imps.drop_last()[i], src) by {
        assert(imps.drop_last()[i] == imps[i]);
    }
}

impl Lexer {
    /// Every import and every export found so far is well formed.
    pub open spec fn records_wf(&self) -> bool {
        &&& all_imports_wf(self.imports@, self.source@)
        &&& all_exports_wf(self.exports@)
    }

    /// The imports of `o` are kept: those of `self` start with them.
    pub open spec fn keeps_imports_of(&self, o: Lexer) -> bool {
        &&& o.imports@.len() <= self.imports@.len()
        &&& forall|i: int| 0 <= i < o.imports@.len() ==> #[trigger] self.imports@[i] == o.imports@[i]
    }

    /// The exports of `o` are kept: those of `self` start with them.
    pub open spec fn keeps_exports_of(&self, o: Lexer) -> bool {
        &&& o.exports@.len() <= self.exports@.len()
        &&& forall|i: int| 0 <= i < o.exports@.len() ==> #[trigger] self.exports@[i] == o.exports@[i]
    }

    /// The flags of `o` are kept.
    pub open spec fn same_flags(&self, o: Lexer) -> bool {
        &&& self.next_brace_is_class == o.next_brace_is_class
        &&& self.last_slash_was_division == o.last_slash_was_division
        &&& self.facade == o.facade
        &&& self.last_token_pos == o.last_token_pos
        &&& self.jsx_tolerant_eof == o.jsx_tolerant_eof
    }

    /// The open-token stack of `o` below its depth is kept.
    pub open spec fn keeps_stack_of(&self, o: Lexer) -> bool {
        &&& o.open_token_depth <= self.open_token_depth
        &&& forall|i: int| 0 <= i < o.open_token_depth ==> #[trigger] self.open_token_stack@[i] == o.open_token_stack@[i]
    }

    /// How far the cursor may run: nested constructs left open at the end of
    /// the source each move it one unit further, and each takes a unit to open.
    pub open spec fn pos_limit(&self) -> int {
        2 * self.source@.len() + POS_SLACK
    }

    pub open spec fn len(&self) -> int {
        self.source@.len() as int
    }

    pub open spec fn at(&self, i: int) -> int {
        unit_at(self.source@, i)
    }

    /// The invariant of the lexer state.
    pub open spec fn wf(&self) -> bool {
        &&& self.source@.len() <= MAX_SOURCE_LEN
        &&& -1 <= self.pos <= self.pos_limit()
        &&& -1 <= self.last_token_pos <= self.pos_limit()
        &&& self.open_token_stack@.len() == STACK_SIZE
        &&& self.open_token_depth <= STACK_SIZE
        &&& forall|i: int| 0 <= i < self.open_token_stack@.len() ==> #[trigger] self.open_token_stack@[i].pos >= -1
    }

    /// This state with the cursor at `p` and nothing else changed.
    pub open spec fn with_pos(self, p: int) -> Lexer {
        Lexer { pos: p as i32, ..self }
    }

    /// Everything but the cursor and the open-token stack is as in `o`.
    pub open spec fn same_but_tokens(self, o: Lexer) -> bool {
        &&& self.source == o.source
        &&& self.next_brace_is_class == o.next_brace_is_class
        &&& self.last_slash_was_division == o.last_slash_was_division
        &&& self.facade == o.facade
        &&& self.last_token_pos == o.last_token_pos
        &&& self.jsx_tolerant_eof == o.jsx_tolerant_eof
        &&& self.imports == o.imports
        &&& self.dynamic_import_stack == o.dynamic_import_stack
        &&& self.exports == o.exports
        &&& self.export_statement_start == o.export_statement_start
    }

    /// The open-token stack with `t` pushed.
    pub open spec fn pushed(self, t: OpenToken) -> (Seq<OpenToken>, nat) {
        (self.open_token_stack@.update(self.open_token_depth as int, t), (self.open_token_depth + 1) as nat)
    }

    /// How far the cursor may still move (see `pos_limit`).
    pub open spec fn room(&self) -> int {
        self.pos_limit() - self.pos
    }

    /// `u` reads the same source as `self`, with its cursor not before that
    /// of `self` and within the limit.
    pub open spec fn later(&self, u: Lexer) -> bool {
        &&& u.source == self.source
        &&& self.pos <= u.pos <= u.pos_limit()
    }

    /// `later`, with the cursor of `u` strictly after that of `self`.
    pub open spec fn strictly_later(&self, u: Lexer) -> bool {
        self.later(u) && self.pos < u.pos
    }

    /// The imports found so far come in increasing order of statement
    /// start, each before the cursor.
    pub open spec fn imports_ordered(&self) -> bool {
        &&& forall|i: int, j: int|
            0 <= i < j < self.imports@.len() ==> #[trigger] self.imports@[i].statement_start
                < #[trigger] self.imports@[j].statement_start
        &&& forall|i: int| 0 <= i < self.imports@.len() ==> #[trigger] self.imports@[i].statement_start < self.pos
    }

    /// Every import found so far starts its statement at least two units
    /// before the cursor.
    pub open spec fn imports_well_before(&self) -> bool {
        forall|i: int| 0 <= i < self.imports@.len() ==> #[trigger] self.imports@[i].statement_start < self.pos - 1
    }

    /// What a step of the lexer keeps of the state `o` it starts from: the
    /// invariants, the source, the exports found so far, a cleared facade
    /// stays cleared, the cursor does not move back, and imports in order of
    /// statement start stay in that order.
    pub open spec fn lex_step(&self, o: Lexer) -> bool {
        &&& self.wf()
        &&& self.records_wf()
        &&& self.source == o.source
        &&& self.keeps_exports_of(o)
        &&& (self.facade ==> o.facade)
        &&& o.pos <= self.pos
        &&& o.imports_ordered() ==> self.imports_ordered()
    }

    /// An empty lexer (no source).
    pub fn new() -> (r: Lexer)
        ensures
            r.wf(),
            r.source@.len() == 0,
            r.pos == -1,
            r.open_token_depth == 0,
            r.imports@.len() == 0,
            r.exports@.len() == 0,
            r.dynamic_import_stack@.len() == 0,
            r.facade,
            r.last_token_pos == -1,
            !r.next_brace_is_class,
            !r.last_slash_was_division,
            !r.jsx_tolerant_eof,
            r.export_statement_start == -1,
            forall|j: int| 0 <= j < STACK_SIZE ==> #[trigger] r.open_token_stack@[j] == (OpenToken { token: OpenTokenState::AnyParen, pos: 0 }),
    {
        let mut stack: Vec<OpenToken> = Vec::new();
        let mut i: usize = 0;
        while i < STACK_SIZE
            invariant
                i <= STACK_SIZE,
                stack@.len() == i,
                forall|j: int| 0 <= j < stack@.len() ==> #[trigger] stack@[j] == (OpenToken { token: OpenTokenState::AnyParen, pos: 0 }),
            decreases STACK_SIZE - i,
        {
            stack.push(OpenToken { token: OpenTokenState::AnyParen, pos: 0 });
            i = i + 1;
        }
        Lexer {
            source: Vec::new(),
            pos: -1,
            open_token_depth: 0,
            open_token_stack: stack,
            next_brace_is_class: false,
            last_slash_was_division: false,
            facade: true,
            last_token_pos: -1,
            jsx_tolerant_eof: false,
            imports: Vec::new(),
            dynamic_import_stack: Vec::new(),
            exports: Vec::new(),
            export_statement_start: -1,
        }
    }
}

} // verus!
