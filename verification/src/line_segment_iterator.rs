use vstd::prelude::*;

verus! {

/// Walks a line and yields each pair of neighbouring stops, in order.
pub struct LineSegmentItator<'a, T> {
    line: &'a [T],
    /// Index of the stop that ends the next segment.
    pos: usize,
}

impl<'a, T> LineSegmentItator<'a, T> {
    /// The line that is walked.
    pub closed spec fn line(&self) -> Seq<T> {
        self.line@
    }

    /// How many segments have been yielded so far.
    pub closed spec fn yielded(&self) -> nat {
        (self.pos - 1) as nat
    }

    #[verifier::type_invariant]
    spec fn well_formed(&self) -> bool {
        1 <= self.pos
    }

    /// A walk that starts at the first stop of the line.
    pub fn new(line: &'a [T]) -> (it: Self)
        ensures
            it.line() == line@,
            it.yielded() == 0,
    {
        Self { line, pos: 1 }
    }

    /// The next segment, or `None` once the last stop has been reached.
    pub fn next(&mut self) -> (r: Option<(&'a T, &'a T)>)
        ensures
            final(self).line() == old(self).line(),
            old(self).yielded() + 1 < old(self).line().len() ==> r == Some(
                (
                    &old(self).line()[old(self).yielded() as int],
                    &old(self).line()[old(self).yielded() as int + 1],
                ),
            ) && final(self).yielded() == old(self).yielded() + 1,
            old(self).yielded() + 1 >= old(self).line().len() ==> r is None && final(self).yielded()
                == old(self).yielded(),
    {
        proof {
            use_type_invariant(&*self);
        }
        if self.pos < self.line.len() {
            let prev = &self.line[self.pos - 1];
            let curr = &self.line[self.pos];
            self.pos = self.pos + 1;
            Some((prev, curr))
        } else {
            None
        }
    }
}

} // verus!
