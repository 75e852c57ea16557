//! The capabilities that a container under test offers to the harness.
//!
//! A container takes part in an experiment by implementing the traits that
//! match what it can do: being built, being edited, being computed over.
//! Each timed action hands back the time it took beside its result, so a
//! container that lacks a capability is rejected when the experiment is
//! compiled, never while one is being timed.

use rand::StdRng;
use std::fmt::Debug;
use std::hash::Hash;
use std::rc::Rc;
use time::Duration;
use vstd::prelude::*;

use crate::sampler::{draw_next, upcoming};

verus! {

/// What test data must offer to be stored in an incremental container.
pub trait Adapt: 'static + Eq + Clone + Hash + Debug {

}

impl<E> Adapt for E where E: 'static + Eq + Clone + Hash + Debug {

}

/// Values that can be drawn from a seeded stream.
pub trait Generate: Sized {
    /// Draws one value, advancing the stream.
    fn generate(rng: &mut StdRng) -> Self;
}

impl Generate for usize {
    /// The next draw of the stream, as it comes.
    fn generate(rng: &mut StdRng) -> (value: usize)
        ensures
            value == upcoming(*old(rng))[0],
            forall|k: nat| #[trigger] upcoming(*final(rng))[k] == upcoming(*old(rng))[k + 1],
    {
        draw_next(rng)
    }
}

/// Test data that the harness can also make up by itself.
pub trait Eval: Adapt + Generate {

}

impl<E> Eval for E where E: Adapt + Generate {

}

/// Builds an incremental collection of `size` elements.
pub trait CreateInc<G>: Sized {
    fn inc_init(
        size: usize,
        unitgauge: usize,
        namegauge: usize,
        coord: &G,
        rng: &mut StdRng,
    ) -> (Duration, Self);
}

/// Adds elements as if the initial build had been longer.
pub trait EditExtend: Sized {
    fn extend(self, batch_size: usize, rng: &mut StdRng) -> (Duration, Self);
}

/// Adds elements at the end, as a user who is typing would.
pub trait EditAppend: Sized {
    fn append(self, batch_size: usize, rng: &mut StdRng) -> (Duration, Self);
}

/// Inserts elements at random places.
pub trait EditInsert: Sized {
    fn insert(self, batch_size: usize, rng: &mut StdRng) -> (Duration, Self);
}

/// Computes the greatest element of the collection.
pub trait CompMax {
    type Target;

    fn comp_max(&self, rng: &mut StdRng) -> (Duration, Self::Target);
}

/// Folds the collection as a tree: `init` maps each element, `bin` joins two
/// results.
pub trait CompTreeFold<R, O, I: Fn(&R) -> O, B: Fn(O, O) -> O> {
    type Target;

    fn comp_tfold(&self, init: Rc<I>, bin: Rc<B>, rng: &mut StdRng) -> (Duration, Self::Target);
}

/// Maps every element to another.
pub trait CompMap<I, O, F: Fn(&I) -> O> {
    type Target;

    fn comp_map(&self, f: Rc<F>, rng: &mut StdRng) -> (Duration, Self::Target);
}

/// Folds every element into `accum`, front to back.
pub trait CompFold<I, O, F: Fn(O, &I) -> O> {
    type Target;

    fn comp_fold(&self, accum: O, f: Rc<F>, rng: &mut StdRng) -> (Duration, Self::Target);
}

/// An action that makes data and reports a result about making it.
pub trait Creator<R, D> {
    fn create(&mut self, rnd: &mut StdRng) -> (R, D);
}

/// An action that takes data, changes it and reports a result.
pub trait Editor<R, D> {
    fn edit(&mut self, data: D, rng: &mut StdRng) -> (R, D);
}

/// An action that reads data and reports a result.
pub trait Computor<R, D> {
    fn compute(&mut self, data: &D, rng: &mut StdRng) -> R;
}

/// A test: some actions run together under one seeded stream.
pub trait Testor<R> {
    fn test(&mut self, rng: &mut StdRng) -> R;
}

} // verus!
