//! A fixed-size, heap-allocated array.

use vstd::prelude::*;

verus! {

/// A heap-allocated array whose size is fixed once built.
pub struct HeapArray<T> {
    inner: Vec<T>,
}

impl<T> View for HeapArray<T> {
    type V = Seq<T>;

    closed spec fn view(&self) -> Seq<T> {
        self.inner@
    }
}

impl<T> HeapArray<T> {
    /// Takes ownership of a boxed slice as the array's contents.
    pub fn new_with_boxed_slice(slice: Box<[T]>) -> (r: HeapArray<T>)
        ensures
            r@ == slice@,
    {
        HeapArray { inner: slice.into_vec() }
    }

    /// Takes ownership of a vector as the array's contents.
    pub fn new_with_vec(vec: Vec<T>) -> (r: HeapArray<T>)
        ensures
            r@ == vec@,
    {
        HeapArray { inner: vec }
    }

    /// The number of elements, fixed when the array was built.
    pub fn size(&self) -> (r: usize)
        ensures
            r == self@.len(),
    {
        self.inner.len()
    }

    /// The element at `index`.
    pub fn index(&self, index: usize) -> (r: &T)
        requires
            index < self@.len(),
        ensures
            *r == self@[index as int],
    {
        &self.inner[index]
    }

    /// Replaces the element at `index`.
    pub fn set(&mut self, index: usize, value: T)
        requires
            index < old(self)@.len(),
        ensures
            final(self)@ == old(self)@.update(index as int, value),
    {
        self.inner[index] = value;
    }
}

impl<T: Default> HeapArray<T> {
    /// Builds an array of `size` default-valued elements.
    pub fn new(size: usize) -> (r: HeapArray<T>)
        ensures
            r@.len() == size,
            forall|i: int| 0 <= i < size ==> T::default.ensures((), #[trigger] r@[i]),
    {
        let mut inner: Vec<T> = Vec::new();
        let mut i: usize = 0;
        while i < size
            invariant
                i <= size,
                inner@.len() == i,
                forall|j: int| 0 <= j < i ==> T::default.ensures((), #[trigger] inner@[j]),
            decreases size - i,
        {
            inner.push(T::default());
            i = i + 1;
        }
        HeapArray { inner }
    }
}

impl<T: Copy> HeapArray<T> {
    /// Copies a slice into a fresh array.
    pub fn new_with_slice(slice: &[T]) -> (r: HeapArray<T>)
        ensures
            r@ == slice@,
    {
        let mut inner: Vec<T> = Vec::new();
        let mut i: usize = 0;
        let n = slice.len();
        while i < n
            invariant
                i <= n,
                n == slice@.len(),
                inner@ == slice@.subrange(0, i as int),
            decreases n - i,
        {
            inner.push(slice[i]);
            i = i + 1;
        }
        assert(inner@ == slice@.subrange(0, n as int));
        assert(slice@.subrange(0, n as int) == slice@);
        HeapArray { inner }
    }
}

} // verus!
