use vstd::prelude::*;
use crate::state::Lexer;

verus! {

/// Moves the cursor by `steps` and returns the new position.
pub fn step(lx: &mut Lexer, steps: i32) -> (r: i32)
    requires
        old(lx).wf(),
        -1 <= old(lx).pos + steps <= old(lx).pos_limit(),
    ensures
        *final(lx) == old(lx).with_pos(old(lx).pos + steps),
        r == old(lx).pos + steps,
        final(lx).wf(),
{
    lx.pos = lx.pos + steps;
    lx.pos
}

/// Moves the cursor one unit on.
pub fn next(lx: &mut Lexer) -> (r: i32)
    requires
        old(lx).wf(),
        old(lx).pos + 1 <= old(lx).pos_limit(),
    ensures
        *final(lx) == old(lx).with_pos(old(lx).pos + 1),
        r == old(lx).pos + 1,
        final(lx).wf(),
{
    step(lx, 1)
}

/// Moves the cursor one unit back.
pub fn prev(lx: &mut Lexer) -> (r: i32)
    requires
        old(lx).wf(),
        old(lx).pos >= 0,
    ensures
        *final(lx) == old(lx).with_pos(old(lx).pos - 1),
        r == old(lx).pos - 1,
        final(lx).wf(),
{
    step(lx, -1)
}

/// The cursor.
pub fn position(lx: &Lexer) -> (r: i32)
    ensures
        r == lx.pos,
{
    lx.pos
}

/// Puts the cursor at `pos`.
#[allow(non_snake_case)]
pub fn setPos(lx: &mut Lexer, pos: i32)
    requires
        old(lx).wf(),
        -1 <= pos <= old(lx).pos_limit(),
    ensures
        *final(lx) == old(lx).with_pos(pos as int),
        final(lx).wf(),
{
    lx.pos = pos;
}

/// The position `step` units from the cursor, without moving it.
pub fn dry(lx: &Lexer, step: i32) -> (r: i32)
    requires
        i32::MIN <= lx.pos + step <= i32::MAX,
    ensures
        r == lx.pos + step,
{
    lx.pos + step
}

} // verus!
