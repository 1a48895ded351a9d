//! A character source: single-character lookahead and one-step pushback over
//! the raw bytes of the input.

use vstd::prelude::*;
use vstd::string::*;

verus! {

/// A cursor over the raw bytes of the input text.
///
/// Each byte is handed out as one `char` (the character with that byte's code
/// point), so the scanner above sees a stream of characters whose model is the
/// UTF-8 byte sequence of the input.  The cursor never goes below zero nor
/// past the end of the buffer.
pub struct InputStream {
    pub buffer: Vec<u8>,
    pub index: usize,
}

impl InputStream {
    /// Wraps the UTF-8 bytes of `input`, with the cursor at the start.
    pub fn new(input: &str) -> (stream: InputStream)
        ensures
            stream.buffer@ == input.spec_bytes(),
            stream.index == 0,
    {
        InputStream { buffer: input.as_bytes_vec(), index: 0 }
    }

    /// Returns the byte at the cursor as a character and advances the cursor,
    /// or reports exhaustion with `None`.
    pub fn get_char(&mut self) -> (c: Option<char>)
        ensures
            final(self).buffer@ == old(self).buffer@,
            old(self).index < old(self).buffer@.len() ==> {
                &&& c == Some::<char>(old(self).buffer@[old(self).index as int] as char)
                &&& final(self).index == old(self).index + 1
            },
            old(self).index >= old(self).buffer@.len() ==> {
                &&& c is None
                &&& final(self).index == old(self).index
            },
    {
        if self.index >= self.buffer.len() {
            return None;
        }
        let c = self.buffer[self.index];
        self.index = self.index + 1;
        Some(c as char)
    }

    /// Rewinds the cursor by one position, so that the last character handed
    /// out is seen again; at the start of the buffer it does nothing.
    pub fn unseek(&mut self)
        ensures
            final(self).buffer@ == old(self).buffer@,
            final(self).index == if old(self).index > 0 { (old(self).index - 1) as usize } else { 0usize },
    {
        if self.index > 0 {
            self.index = self.index - 1;
        }
    }
}

} // verus!
