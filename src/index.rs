use vstd::prelude::*;

verus! {

/// A position in a sequence of `T`, typed by what it points at.
#[derive(Debug)]
pub struct Index<T> {
    position: usize,
    marker: core::marker::PhantomData<T>,
}

impl<T> Index<T> {
    pub closed spec fn pos(&self) -> usize {
        self.position
    }

    pub fn new(index: usize) -> (r: Self)
        ensures
            r.pos() == index,
    {
        Index { position: index, marker: core::marker::PhantomData }
    }

    pub fn get(&self) -> (r: usize)
        ensures
            r == self.pos(),
    {
        self.position
    }

    /// The item that the index points at in `items`, if there is one.
    pub fn get_with<'a>(&self, items: &'a [T]) -> (r: Option<&'a T>)
        ensures
            r == if self.pos() < items@.len() { Some(&items@[self.pos() as int]) } else { None },
    {
        if self.position < items.len() {
            Some(&items[self.position])
        } else {
            None
        }
    }
}

} // verus!
