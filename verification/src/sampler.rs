//! Where random numbers come from.

use crate::scalar::Scalar;
use vstd::prelude::*;

verus! {

/// A source of random draws, owned by one task. Nothing is promised of a
/// draw: whatever is computed from one is proved for every value it can
/// have.
pub trait Sampler<T: Scalar> {
    /// A value drawn uniformly from `[0, 1)`.
    fn next_unit(&mut self) -> T;
}

/// A source that hands out the draws it was given, in their order, and
/// starts again after the last. With no draws it hands out 0. Two runs
/// with the same draws see the same picture.
pub struct Replay<T> {
    draws: Vec<T>,
    at: usize,
}

impl<T: Scalar> Replay<T> {
    /// The draws, in the order in which they are handed out.
    pub closed spec fn tape(&self) -> Seq<T> {
        self.draws@
    }

    /// How many draws have been handed out since the start of the tape.
    pub closed spec fn place(&self) -> int {
        self.at as int
    }

    /// The draw that is handed out next.
    pub open spec fn ahead(&self) -> T {
        if self.tape().len() == 0 {
            T::nil()
        } else if self.place() < self.tape().len() {
            self.tape()[self.place()]
        } else {
            self.tape()[0]
        }
    }

    /// The place after the next draw.
    pub open spec fn onward(&self) -> int {
        if self.tape().len() == 0 {
            self.place()
        } else if self.place() < self.tape().len() {
            self.place() + 1
        } else {
            1
        }
    }

    pub fn new(draws: Vec<T>) -> (s: Replay<T>)
        ensures
            s.tape() == draws@,
            s.place() == 0,
    {
        Replay { draws: draws, at: 0 }
    }

    /// Hands out the next draw.
    pub fn draw(&mut self) -> (r: T)
        ensures
            r == old(self).ahead(),
            final(self).tape() == old(self).tape(),
            final(self).place() == old(self).onward(),
    {
        if self.draws.len() == 0 {
            return T::zero();
        }
        if self.at >= self.draws.len() {
            self.at = 0;
        }
        let r = self.draws[self.at];
        self.at += 1;
        r
    }
}

impl<T: Scalar> Sampler<T> for Replay<T> {
    fn next_unit(&mut self) -> (r: T)
        ensures
            r == old(self).ahead(),
            final(self).tape() == old(self).tape(),
            final(self).place() == old(self).onward(),
    {
        self.draw()
    }
}

} // verus!
