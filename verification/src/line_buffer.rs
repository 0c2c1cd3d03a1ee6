//! A line of input with a cursor, as a terminal edits it.

use vstd::prelude::*;



verus! {

/// The line is full.
#[derive(Debug, PartialEq, Eq)]
pub struct Overflow;

/// A line of at most `SIZE` bytes, with a cursor in it.
pub struct LineBuffer<const SIZE: usize> {
    pub(crate) buffer: Vec<u8>,
    /// How far the cursor is from the end of the line.
    pub(crate) cursor_offset: usize,
}

impl<const SIZE: usize> LineBuffer<SIZE> {
    /// The line is no longer than `SIZE`, and the cursor lies in it.
    #[verifier::type_invariant]
    pub open(crate) spec fn wf(self) -> bool {
        self.cursor_offset <= self.buffer@.len() <= SIZE
    }

    /// The bytes of the line.
    pub open(crate) spec fn spec_content(&self) -> Seq<u8> {
        self.buffer@
    }

    /// The position of the cursor, counted from the left.
    pub open(crate) spec fn spec_cursor(&self) -> int {
        self.buffer@.len() - self.cursor_offset
    }

    /// An empty line.
    pub fn new() -> (r: Self)
        ensures
            r.spec_content() == Seq::<u8>::empty(),
            r.spec_cursor() == 0,
    {
        Self { buffer: Vec::new(), cursor_offset: 0 }
    }

    /// Resets to the initial state.
    pub fn reset(&mut self)
        ensures
            final(self).spec_content() == Seq::<u8>::empty(),
            final(self).spec_cursor() == 0,
    {
        let mut buffer = self.take();
        buffer.clear();
        self.put(buffer, 0);
    }

    /// The current content of the line.
    pub fn content(&self) -> (r: &[u8])
        ensures
            r@ == self.spec_content(),
            r@.len() <= SIZE,
    {
        proof {
            use_type_invariant(self);
        }
        self.buffer.as_slice()
    }

    /// The position of the cursor, counted from the left.
    pub fn cursor(&self) -> (r: usize)
        ensures
            r == self.spec_cursor(),
            0 <= self.spec_cursor() <= self.spec_content().len(),
    {
        proof {
            use_type_invariant(self);
        }
        self.buffer.len() - self.cursor_offset
    }

    /// Inserts the given character at the position of the cursor, and moves
    /// the cursor behind it. Fails if the line is full.
    pub fn insert(&mut self, c: u8) -> (r: Result<(), Overflow>)
        ensures
            old(self).spec_content().len() < SIZE ==> r is Ok && final(self).spec_content() == old(
                self,
            ).spec_content().insert(old(self).spec_cursor(), c) && final(self).spec_cursor() == old(
                self,
            ).spec_cursor() + 1,
            old(self).spec_content().len() >= SIZE ==> r is Err && final(self).spec_content()
                == old(self).spec_content() && final(self).spec_cursor() == old(self).spec_cursor(),
    {
        proof {
            use_type_invariant(&*self);
        }
        if self.buffer.len() >= SIZE {
            return Err(Overflow);
        }
        let cursor = self.cursor();
        let cursor_offset = self.cursor_offset;
        let mut buffer = self.take();
        buffer.insert(cursor, c);
        self.put(buffer, cursor_offset);
        Ok(())
    }

    /// Deletes the character left of the cursor. Does nothing if the
    /// cursor is at the very left.
    pub fn backspace(&mut self)
        ensures
            old(self).spec_cursor() > 0 ==> final(self).spec_content() == old(
                self,
            ).spec_content().remove(old(self).spec_cursor() - 1) && final(self).spec_cursor()
                == old(self).spec_cursor() - 1,
            old(self).spec_cursor() <= 0 ==> final(self).spec_content() == old(self).spec_content()
                && final(self).spec_cursor() == old(self).spec_cursor(),
    {
        proof {
            use_type_invariant(&*self);
        }
        let c = self.cursor();
        if c > 0 {
            let cursor_offset = self.cursor_offset;
            let mut buffer = self.take();
            buffer.remove(c - 1);
            self.put(buffer, cursor_offset);
        }
    }

    /// Moves the cursor to the left, unless it is at the very left.
    pub fn move_left(&mut self)
        ensures
            final(self).spec_content() == old(self).spec_content(),
            final(self).spec_cursor() == if old(self).spec_cursor() > 0 {
                old(self).spec_cursor() - 1
            } else {
                0
            },
    {
        proof {
            use_type_invariant(&*self);
        }
        if self.cursor_offset < self.buffer.len() {
            self.cursor_offset += 1;
        }
    }

    /// Moves the cursor to the right, unless it is at the very right.
    pub fn move_right(&mut self)
        ensures
            final(self).spec_content() == old(self).spec_content(),
            final(self).spec_cursor() == if old(self).spec_cursor() < old(
                self,
            ).spec_content().len() {
                old(self).spec_cursor() + 1
            } else {
                old(self).spec_cursor()
            },
    {
        proof {
            use_type_invariant(&*self);
        }
        if self.cursor_offset > 0 {
            self.cursor_offset -= 1;
        }
    }

    /// Moves the cursor to the beginning of the line.
    pub fn move_home(&mut self)
        ensures
            final(self).spec_content() == old(self).spec_content(),
            final(self).spec_cursor() == 0,
    {
        proof {
            use_type_invariant(&*self);
        }
        self.cursor_offset = self.buffer.len();
    }

    /// Moves the cursor to the end of the line.
    pub fn move_end(&mut self)
        ensures
            final(self).spec_content() == old(self).spec_content(),
            final(self).spec_cursor() == final(self).spec_content().len(),
    {
        proof {
            use_type_invariant(&*self);
        }
        self.cursor_offset = 0;
    }

    /// Takes the bytes out of the line, and leaves it empty.
    fn take(&mut self) -> (r: Vec<u8>)
        ensures
            r@ == old(self).buffer@,
            final(self).buffer@ == Seq::<u8>::empty(),
            final(self).cursor_offset == 0,
    {
        proof {
            use_type_invariant(&*self);
        }
        self.cursor_offset = 0;
        let mut buffer: Vec<u8> = Vec::new();
        core::mem::swap(&mut self.buffer, &mut buffer);
        buffer
    }

    /// Puts the bytes into the line, with the cursor as far from the end
    /// as given.
    fn put(&mut self, buffer: Vec<u8>, cursor_offset: usize)
        requires
            old(self).cursor_offset == 0,
            cursor_offset <= buffer@.len() <= SIZE,
        ensures
            final(self).buffer@ == buffer@,
            final(self).cursor_offset == cursor_offset,
    {
        let mut buffer = buffer;
        core::mem::swap(&mut self.buffer, &mut buffer);
        self.cursor_offset = cursor_offset;
    }
}

} // verus!
