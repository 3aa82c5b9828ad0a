//! The pagination primitives: an append-only sequence (`Buffer`) plus an
//! independently owned read cursor (`Position`). Resetting the cursor does
//! not clear the buffer; clearing the buffer invalidates every cursor, so
//! callers must reset their positions alongside.

use vstd::prelude::*;

verus! {

/// An append-only sequence of values, read through a separately owned
/// [`Position`] cursor.
#[derive(Debug, Clone)]
pub struct Buffer<T> {
    vec: Vec<T>,
}

impl<T> View for Buffer<T> {
    type V = Seq<T>;

    closed spec fn view(&self) -> Seq<T> {
        self.vec@
    }
}

/// A read cursor over a [`Buffer`], advanced by [`Buffer::next`].
#[derive(Debug, Clone, Copy)]
pub struct Position(pub usize);

impl Position {
    /// Rewind the cursor to the start of the buffer.
    pub fn reset(&mut self)
        ensures
            final(self).0 == 0,
    {
        self.0 = 0;
    }
}

impl Default for Position {
    fn default() -> (r: Self)
        ensures
            r.0 == 0,
    {
        Position(0)
    }
}

impl<T> Default for Buffer<T> {
    fn default() -> (r: Self)
        ensures
            r@ == Seq::<T>::empty(),
    {
        Buffer { vec: Vec::new() }
    }
}

impl<T> From<Vec<T>> for Buffer<T> {
    fn from(vec: Vec<T>) -> (r: Self)
        ensures
            r@ == vec@,
    {
        Buffer { vec }
    }
}

impl<T> vstd::std_specs::convert::FromSpecImpl<Vec<T>> for Buffer<T> {
    open spec fn obeys_from_spec() -> bool {
        true
    }

    closed spec fn from_spec(vec: Vec<T>) -> Buffer<T> {
        Buffer { vec }
    }
}

impl<T> Buffer<T> {
    /// Discard all contents. Cursors into this buffer keep their numeric
    /// value and must be reset by their owners.
    pub fn reset(&mut self)
        ensures
            final(self)@ == Seq::<T>::empty(),
    {
        self.vec = Vec::new();
    }

    /// Expose the underlying vector for bulk rewriting.
    pub fn as_mut(&mut self) -> (r: &mut Vec<T>)
        ensures
            r@ == old(self)@,
            final(self)@ == final(r)@,
    {
        &mut self.vec
    }

    /// The buffer is backed by a vector, so its length fits a machine word.
    pub proof fn lemma_len_bounded(&self)
        ensures
            self@.len() <= usize::MAX,
    {
        assert(self.vec.len() == self.vec@.len());
    }

    pub fn len(&self) -> (r: usize)
        ensures
            r == self@.len(),
    {
        self.vec.len()
    }

    pub fn is_empty(&self) -> (r: bool)
        ensures
            r == (self@.len() == 0),
    {
        self.vec.is_empty()
    }

    pub fn push(&mut self, value: T)
        ensures
            final(self)@ == old(self)@.push(value),
    {
        self.vec.push(value);
    }

    /// Yield the entry under the cursor and advance the cursor, whether or
    /// not an entry was there.
    pub fn next<'a>(&'a self, pos: &mut Position) -> (r: Option<&'a T>)
        requires
            old(pos).0 < usize::MAX,
        ensures
            final(pos).0 == old(pos).0 + 1,
            (match r {
                Some(v) => old(pos).0 < self@.len() && *v == self@[old(pos).0 as int],
                None => old(pos).0 >= self@.len(),
            }),
    {
        let i = pos.0;
        pos.0 = pos.0 + 1;
        if i < self.vec.len() {
            Some(&self.vec[i])
        } else {
            None
        }
    }

    /// Whether an entry remains beyond the one the cursor currently rests on.
    pub fn has_next(&self, pos: &Position) -> (r: bool)
        ensures
            r == (pos.0 + 1 < self@.len()),
    {
        let l = self.vec.len();
        l > 0 && pos.0 < l - 1
    }
}

} // verus!
