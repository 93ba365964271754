//! Tables keyed by the exact bit pattern of a real.

use vstd::prelude::*;
use std::collections::HashMap;

verus! {

/// A row of tables, one per line, each keyed by a bit pattern.
pub struct FloatMatrix<T> {
    matrix: Vec<FloatTable<T>>,
}

impl<T> View for FloatMatrix<T> {
    type V = Seq<Map<u64, T>>;

    closed spec fn view(&self) -> Seq<Map<u64, T>> {
        Seq::new(self.matrix@.len(), |i: int| self.matrix@[i]@)
    }
}

impl<T> FloatMatrix<T> {
    /// `size` empty tables.
    pub fn new(size: usize) -> (m: Self)
        ensures
            m@.len() == size,
            forall|i: int| 0 <= i < size ==> m@[i] == Map::<u64, T>::empty(),
    {
        let mut matrix: Vec<FloatTable<T>> = Vec::new();
        let mut i: usize = 0;
        while i < size
            invariant
                i <= size,
                matrix@.len() == i,
                forall|j: int| 0 <= j < i ==> (#[trigger] matrix@[j])@ == Map::<u64, T>::empty(),
            decreases size - i,
        {
            matrix.push(FloatTable::new());
            i = i + 1;
        }
        Self { matrix }
    }

    /// Puts `v` under key `k` of table `i`, in place of what was there.
    pub fn insert(&mut self, i: usize, k: u64, v: T)
        requires
            i < old(self)@.len(),
        ensures
            final(self)@ == old(self)@.update(i as int, old(self)@[i as int].insert(k, v)),
    {
        self.matrix[i].insert(k, v);
        assert(self@ =~= old(self)@.update(i as int, old(self)@[i as int].insert(k, v)));
    }

    /// What table `i` holds under key `k`.
    pub fn get(&self, i: usize, k: u64) -> (r: Option<&T>)
        requires
            i < self@.len(),
        ensures
            r == (if self@[i as int].contains_key(k) {
                Some(&self@[i as int][k])
            } else {
                None
            }),
    {
        self.matrix[i].get(k)
    }

    /// The number of tables.
    pub fn len(&self) -> (n: usize)
        ensures
            n == self@.len(),
    {
        self.matrix.len()
    }
}

/// A table keyed by a bit pattern: two keys are the same only if every bit agrees.
pub struct FloatTable<T> {
    table: HashMap<u64, T>,
}

impl<T> View for FloatTable<T> {
    type V = Map<u64, T>;

    closed spec fn view(&self) -> Map<u64, T> {
        self.table@
    }
}

impl<T> FloatTable<T> {
    /// An empty table.
    pub fn new() -> (t: Self)
        ensures
            t@ == Map::<u64, T>::empty(),
    {
        Self { table: HashMap::new() }
    }

    /// Puts `v` under key `k`, in place of what was there.
    pub fn insert(&mut self, k: u64, v: T)
        ensures
            final(self)@ == old(self)@.insert(k, v),
    {
        self.table.insert(k, v);
    }

    /// What the table holds under key `k`.
    pub fn get(&self, k: u64) -> (r: Option<&T>)
        ensures
            r == (if self@.contains_key(k) {
                Some(&self@[k])
            } else {
                None
            }),
    {
        self.table.get(&k)
    }
}

} // verus!
