//! Decoding of the pending input bytes that the asynchronous input
//! source hands back on each poll.

use vstd::prelude::*;

verus! {

/// First pending input byte as a character, or `None` when no key is
/// currently available (the interactive loop then keeps polling, or
/// redraws if a zoom is pending).
pub fn get_char(char_buffer: &Vec<u8>) -> (r: Option<char>)
    ensures
        char_buffer@.len() == 0 ==> r is None,
        char_buffer@.len() > 0 ==> r == Some(char_buffer@[0] as char),
{
    if char_buffer.len() == 0 {
        None
    } else {
        Some(char_buffer[0] as char)
    }
}

} // verus!
