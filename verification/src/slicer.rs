//! A cursor over the characters of a string that also counts bytes.

use vstd::prelude::*;

verus! {

/// The number of bytes that the character takes in UTF-8.
pub open spec fn utf8_len(c: char) -> nat {
    if (c as u32) < 0x80 {
        1
    } else if (c as u32) < 0x800 {
        2
    } else if (c as u32) < 0x10000 {
        3
    } else {
        4
    }
}

/// The number of bytes that the first `n` characters take in UTF-8.
pub open spec fn byte_offset(text: Seq<char>, n: nat) -> nat
    decreases n,
{
    if n == 0 || n > text.len() {
        0
    } else {
        byte_offset(text, (n - 1) as nat) + utf8_len(text[n - 1])
    }
}

/// The first `n` characters take at most four bytes each.
pub proof fn lemma_byte_offset_bound(text: Seq<char>, n: nat)
    requires
        n <= text.len(),
    ensures
        byte_offset(text, n) <= 4 * n,
    decreases n,
{
    if n > 0 {
        lemma_byte_offset_bound(text, (n - 1) as nat);
    }
}

/// Yields the characters of a string one by one, each with the byte at
/// which it starts and its number among the characters.
pub struct Slicer {
    buffer: Vec<char>,
    cursor: usize,
    count: usize,
}

impl Slicer {
    /// The text that the slicer walks over.
    pub closed spec fn text(&self) -> Seq<char> {
        self.buffer@
    }

    /// The number of characters already yielded.
    pub closed spec fn yielded(&self) -> nat {
        self.count as nat
    }

    /// The byte at which the next character starts.
    pub closed spec fn position(&self) -> nat {
        self.cursor as nat
    }

    /// The cursor stands at a character of the text or at its end, and the
    /// byte position is that of the character.
    pub closed spec fn well_formed(&self) -> bool {
        &&& self.count <= self.buffer.len()
        &&& self.cursor == byte_offset(self.buffer@, self.count as nat)
        &&& 4 * self.buffer.len() <= usize::MAX
    }

    pub fn new() -> (result: Slicer)
        ensures
            result.well_formed(),
            result.text() == Seq::<char>::empty(),
            result.yielded() == 0,
            result.position() == 0,
    {
        Slicer { buffer: Vec::new(), cursor: 0, count: 0 }
    }

    /// Starts over at the beginning of `s`.
    pub fn set(&mut self, s: String)
        requires
            4 * s@.len() <= usize::MAX,
        ensures
            final(self).well_formed(),
            final(self).text() == s@,
            final(self).yielded() == 0,
            final(self).position() == 0,
    {
        let mut buffer: Vec<char> = Vec::new();
        for c in it: s.as_str().chars()
            invariant
                it.seq() == s@,
                buffer@ == s@.take(it.index() as int),
        {
            buffer.push(c);
            assert(s@.take(it.index() + 1) =~= s@.take(it.index() as int).push(c));
        }
        assert(s@.take(s@.len() as int) =~= s@);
        self.buffer = buffer;
        self.cursor = 0;
        self.count = 0;
    }

    /// The number of characters already yielded.
    pub fn count(&self) -> (result: usize)
        ensures
            result == self.yielded(),
    {
        self.count
    }

    /// The next character with the byte at which it starts and its number;
    /// `None` at the end of the text.
    pub fn next(&mut self) -> (result: Option<(char, usize, usize)>)
        requires
            old(self).well_formed(),
        ensures
            final(self).well_formed(),
            final(self).text() == old(self).text(),
            old(self).yielded() < old(self).text().len() ==> result == Some(
                (
                    old(self).text()[old(self).yielded() as int],
                    old(self).position() as usize,
                    old(self).yielded() as usize,
                ),
            ) && final(self).yielded() == old(self).yielded() + 1 && final(self).position() == byte_offset(
                old(self).text(),
                old(self).yielded() + 1,
            ),
            old(self).yielded() >= old(self).text().len() ==> result is None && final(self).yielded() == old(
                self,
            ).yielded() && final(self).position() == old(self).position(),
            old(self).position() == byte_offset(old(self).text(), old(self).yielded()),
    {
        if self.count >= self.buffer.len() {
            return None;
        }
        let c = self.buffer[self.count];
        let result = (c, self.cursor, self.count);
        proof {
            lemma_byte_offset_bound(self.buffer@, self.count as nat);
        }
        self.cursor += encoded_len(c);
        self.count += 1;
        Some(result)
    }
}

/// The number of bytes that the character takes in UTF-8.
pub fn encoded_len(c: char) -> (result: usize)
    ensures
        result == utf8_len(c),
{
    let code = c as u32;
    if code < 0x80 {
        1
    } else if code < 0x800 {
        2
    } else if code < 0x10000 {
        3
    } else {
        4
    }
}

} // verus!
