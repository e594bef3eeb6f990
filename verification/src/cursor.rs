use vstd::prelude::*;
use vstd::string::*;

verus! {

/// A scanner over a borrowed string slice that walks the text one Unicode
/// scalar value at a time.
///
/// The position is counted in scalar values (the elements of the string's
/// view), so it always lies on a character boundary. The cursor borrows the
/// text and never copies it.
pub struct CharCursor<'a> {
    s: &'a str,
    pos: usize,
    len: usize,
}

impl<'a> CharCursor<'a> {
    /// The scanned text, as a sequence of scalar values.
    pub closed spec fn text(&self) -> Seq<char> {
        self.s@
    }

    /// The current position, counted in scalar values from the start.
    pub closed spec fn cur(&self) -> int {
        self.pos as int
    }

    /// The cached character count agrees with the text.
    pub closed spec fn len_cached(&self) -> bool {
        self.len as nat == self.s@.len()
    }

    /// The cursor is well formed: its position lies within the text, whose
    /// character count fits a machine word.
    pub open spec fn wf(&self) -> bool {
        0 <= self.cur() <= self.text().len() && self.text().len() <= usize::MAX
            && self.len_cached()
    }

    /// Make a cursor that stands at the start of `s`.
    pub fn new(s: &'a str) -> (c: Self)
        ensures
            c.wf(),
            c.text() == s@,
            c.cur() == 0,
    {
        let len = s.unicode_len();
        CharCursor { s, pos: 0, len }
    }

    /// Look at the next scalar value without consuming it.
    pub fn peek(&self) -> (r: Option<char>)
        requires
            self.wf(),
        ensures
            match r {
                Some(c) => self.cur() < self.text().len() && c == self.text()[self.cur()],
                None => self.cur() == self.text().len(),
            },
    {
        if self.pos < self.len {
            Some(self.s.get_char(self.pos))
        } else {
            None
        }
    }

    /// True if the next scalar value equals `c`; consumes nothing.
    pub fn peek_char(&self, c: char) -> (r: bool)
        requires
            self.wf(),
        ensures
            r == (self.cur() < self.text().len() && self.text()[self.cur()] == c),
    {
        match self.peek() {
            Some(d) => d == c,
            None => false,
        }
    }

    /// Consume the next scalar value only if it equals `c`; on any other
    /// value, or at the end of the text, nothing moves.
    pub fn read_char(&mut self, c: char) -> (r: Option<()>)
        requires
            old(self).wf(),
        ensures
            final(self).wf(),
            final(self).text() == old(self).text(),
            if old(self).cur() < old(self).text().len() && old(self).text()[old(self).cur()]
                == c {
                r is Some && final(self).cur() == old(self).cur() + 1
            } else {
                r is None && final(self).cur() == old(self).cur()
            },
    {
        if self.peek_char(c) {
            self.pos = self.pos + 1;
            Some(())
        } else {
            None
        }
    }

    /// Consume and return the next scalar value, or nothing at the end of
    /// the text.
    pub fn read(&mut self) -> (r: Option<char>)
        requires
            old(self).wf(),
        ensures
            final(self).wf(),
            final(self).text() == old(self).text(),
            match r {
                Some(c) => old(self).cur() < old(self).text().len() && c == old(self).text()[old(
                    self,
                ).cur()] && final(self).cur() == old(self).cur() + 1,
                None => old(self).cur() == old(self).text().len() && final(self).cur() == old(
                    self,
                ).cur(),
            },
    {
        if self.pos < self.len {
            let c = self.s.get_char(self.pos);
            self.pos = self.pos + 1;
            Some(c)
        } else {
            None
        }
    }

    /// The current position as a value usable with `get`.
    pub fn position(&self) -> (r: usize)
        requires
            self.wf(),
        ensures
            r as int == self.cur(),
    {
        self.pos
    }

    /// The text between two positions, or nothing if the range does not lie
    /// within the text.
    pub fn get(&self, from: usize, to: usize) -> (r: Option<&'a str>)
        requires
            self.wf(),
        ensures
            match r {
                Some(piece) => from <= to <= self.text().len() && piece@ == self.text().subrange(
                    from as int,
                    to as int,
                ),
                None => !(from <= to <= self.text().len()),
            },
    {
        if from <= to && to <= self.len {
            Some(self.s.substring_char(from, to))
        } else {
            None
        }
    }

    /// The unconsumed tail of the text.
    pub fn remainder(&self) -> (r: &'a str)
        requires
            self.wf(),
        ensures
            r@ == self.text().skip(self.cur()),
    {
        let r = self.s.substring_char(self.pos, self.len);
        proof {
            assert(r@ =~= self.text().skip(self.cur()));
        }
        r
    }
}

} // verus!
