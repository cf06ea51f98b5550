use vstd::prelude::*;

verus! {

/// The code of a printable ASCII character (space to `~`), 0 for any other.
pub open spec fn spec_ascii_code(c: char) -> int {
    if 32 <= (c as int) <= 126 {
        c as int
    } else {
        0
    }
}

/// The code of a printable ASCII character (space to `~`), 0 for any other.
pub fn get_ascii_code(c: char) -> (r: usize)
    ensures
        r == spec_ascii_code(c),
{
    let v = c as u32;
    if v >= 32 && v <= 126 {
        v as usize
    } else {
        0
    }
}

/// The printable ASCII character of a code from 32 to 126, a line feed for any other.
pub fn get_char_by_code(code: usize) -> (r: char)
    ensures
        32 <= code <= 126 ==> r as int == code,
        !(32 <= code <= 126) ==> r == '\n',
{
    if code >= 32 && code <= 126 {
        (code as u8) as char
    } else {
        '\n'
    }
}

} // verus!
