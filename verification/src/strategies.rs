//! The four ways of growing a container by random-position insertions.
//!
//! Each strategy writes the script of one measured group: the operations, in
//! order, that insert the group's elements. The strategies sample positions
//! alike and differ in how they drive the container: one focus move for each
//! element or for ten, new values or a handle changed in place, replaced
//! values released or stored.

use rand::StdRng;
use vstd::prelude::*;

use crate::container::{Action, Container};
use crate::sampler::{first_draws, sample, upcoming};
use crate::scripts::{
    batched_round, batched_script, in_place_round, in_place_script, lemma_batched_script,
    lemma_in_place_script, lemma_retained_script, lemma_single_script, pushes, pushes_in_place,
    retained_round, retained_script, single_round, single_script, BATCH,
};

verus! {

/// A way of growing a container.
#[derive(Clone, Copy, Debug, PartialEq, Eq)]
pub enum Strategy {
    /// One focus move for each element.
    Single,
    /// One focus move for each element, every replaced value stored.
    Retained,
    /// One focus move for ten elements.
    Batched,
    /// One focus move for ten elements, on a mutable handle.
    BatchedInPlace,
}

impl Strategy {
    /// The script by which the strategy carries out `insertions` insertions
    /// into a container counted at `size` elements, sampling from `draws`.
    pub open spec fn script(self, draws: Map<nat, usize>, insertions: usize, size: usize) -> Seq<
        Action,
    > {
        match self {
            Strategy::Single => single_script(first_draws(draws, insertions as nat), size as nat),
            Strategy::Retained => retained_script(
                first_draws(draws, insertions as nat),
                size as nat,
            ),
            Strategy::Batched => batched_script(
                first_draws(draws, (insertions / BATCH) as nat),
                size as nat,
            ),
            Strategy::BatchedInPlace => in_place_script(
                first_draws(draws, (insertions / BATCH) as nat),
                size as nat,
            ),
        }
    }

    /// How many elements the strategy inserts when asked for `insertions`: all
    /// of them one by one, and the full batches of ten otherwise.
    pub open spec fn inserted(self, insertions: usize) -> nat {
        match self {
            Strategy::Single | Strategy::Retained => insertions as nat,
            Strategy::Batched | Strategy::BatchedInPlace => (BATCH * (insertions / BATCH)) as nat,
        }
    }
}

/// A script grows every container that it fits by `count` elements: replayed
/// on a focused container of at least `size` elements, no operation is
/// refused, and `count` elements more are there at the end.
pub open spec fn grows_by(script: Seq<Action>, size: nat, count: nat) -> bool {
    forall|start: Container|
        #![trigger start.replay(script)]
        start.valid() && start.focus is Some && size <= start.elements.len() ==> {
            &&& start.replay(script) matches Some(end)
            &&& end.elements.len() == start.elements.len() + count
        }
}

/// The batched strategies can count their work in machine words: the last
/// round's sampling bound and its greatest value both fit.
pub open spec fn batches_fit(n: usize, size: usize) -> bool {
    let rounds = n as int / BATCH as int;
    rounds > 0 ==> size + BATCH * (rounds - 1) < usize::MAX && size + (rounds - 1) + (BATCH - 1)
        <= usize::MAX
}

/// Every strategy's script, replayed on a focused container that holds at
/// least the `size` elements counted, is refused nowhere, leaves the container
/// focused, and adds what the strategy inserts of `insertions`.
pub proof fn lemma_script_grows(
    strategy: Strategy,
    draws: Map<nat, usize>,
    insertions: usize,
    size: usize,
    start: Container,
)
    requires
        start.valid(),
        start.focus is Some,
        size <= start.elements.len(),
    ensures
        start.replay(strategy.script(draws, insertions, size)) matches Some(end) && {
            &&& end.valid()
            &&& end.focus is Some
            &&& end.elements.len() == start.elements.len() + strategy.inserted(insertions)
        },
{
    let each = first_draws(draws, insertions as nat);
    let tens = first_draws(draws, (insertions / BATCH) as nat);
    match strategy {
        Strategy::Single => lemma_single_script(start, each, size as nat),
        Strategy::Retained => lemma_retained_script(start, each, size as nat),
        Strategy::Batched => lemma_batched_script(start, tens, size as nat),
        Strategy::BatchedInPlace => lemma_in_place_script(start, tens, size as nat),
    }
}

/// Grows a container by `n` elements, each at a random position of its own.
///
/// The script holds one round for each element: element `i` is the value
/// `size + i`, and goes to a position sampled from the `size + i + 1` slots of
/// the elements counted so far.
pub fn insert_n(n: usize, size: usize, rnd_pos: StdRng) -> (script: Vec<Action>)
    requires
        size + n <= usize::MAX,
    ensures
        script@ == single_script(first_draws(upcoming(rnd_pos), n as nat), size as nat),
        grows_by(script@, size as nat, n as nat),
{
    let ghost draws = upcoming(rnd_pos);
    let mut rnd_pos = rnd_pos;
    let mut script: Vec<Action> = Vec::new();
    let mut i: usize = 0;
    while i < n
        invariant
            i <= n,
            size + n <= usize::MAX,
            script@ == single_script(first_draws(draws, i as nat), size as nat),
            forall|k: nat| #[trigger] upcoming(rnd_pos)[k] == draws[(k + i) as nat],
        decreases n - i,
    {
        let pos = sample(&mut rnd_pos, size, i);
        let ghost before = script@;
        script.push(Action::ExitFocus);
        script.push(Action::EnterFocus { position: pos });
        script.push(Action::Push { value: size + i });
        proof {
            let taken = first_draws(draws, (i + 1) as nat);
            assert(taken.drop_last() =~= first_draws(draws, i as nat));
            assert(taken.last() == draws[i as nat]);
            assert(script@ =~= before + single_round(draws[i as nat], size as nat, i as nat));
        }
        i += 1;
    }
    proof {
        let all = first_draws(draws, n as nat);
        assert forall|start: Container|
            start.valid() && start.focus is Some && size <= start.elements.len() implies {
            &&& #[trigger] start.replay(script@) matches Some(end)
            &&& end.elements.len() == start.elements.len() + n
        } by {
            lemma_single_script(start, all, size as nat);
        }
    }
    script
}

/// Same as `insert_n`, and nothing is released on the way: after each
/// operation that makes a new value, the value it replaced is stored.
pub fn insert_n_save(n: usize, size: usize, rnd_pos: StdRng) -> (script: Vec<Action>)
    requires
        size + n <= usize::MAX,
    ensures
        script@ == retained_script(first_draws(upcoming(rnd_pos), n as nat), size as nat),
        grows_by(script@, size as nat, n as nat),
{
    let ghost draws = upcoming(rnd_pos);
    let mut rnd_pos = rnd_pos;
    let mut script: Vec<Action> = Vec::new();
    let mut i: usize = 0;
    while i < n
        invariant
            i <= n,
            size + n <= usize::MAX,
            script@ == retained_script(first_draws(draws, i as nat), size as nat),
            forall|k: nat| #[trigger] upcoming(rnd_pos)[k] == draws[(k + i) as nat],
        decreases n - i,
    {
        let pos = sample(&mut rnd_pos, size, i);
        let ghost before = script@;
        script.push(Action::ExitFocus);
        script.push(Action::RetainFocus);
        script.push(Action::EnterFocus { position: pos });
        script.push(Action::RetainSequence);
        script.push(Action::Push { value: size + i });
        script.push(Action::RetainFocus);
        proof {
            let taken = first_draws(draws, (i + 1) as nat);
            assert(taken.drop_last() =~= first_draws(draws, i as nat));
            assert(taken.last() == draws[i as nat]);
            assert(script@ =~= before + retained_round(draws[i as nat], size as nat, i as nat));
        }
        i += 1;
    }
    proof {
        let all = first_draws(draws, n as nat);
        assert forall|start: Container|
            start.valid() && start.focus is Some && size <= start.elements.len() implies {
            &&& #[trigger] start.replay(script@) matches Some(end)
            &&& end.elements.len() == start.elements.len() + n
        } by {
            lemma_retained_script(start, all, size as nat);
        }
    }
    script
}

/// Grows a container by `n` elements in batches of ten, each batch at a random
/// position of its own; what `n` has beyond a multiple of ten is left out.
///
/// The script holds `n / 10` rounds. Round `i` moves the focus once, to a
/// position sampled from the `size + 10 * i + 1` slots of the elements counted
/// so far, and pushes the ten values from `size + i` on.
pub fn insert_10n(n: usize, size: usize, rnd_pos: StdRng) -> (script: Vec<Action>)
    requires
        batches_fit(n, size),
    ensures
        script@ == batched_script(
            first_draws(upcoming(rnd_pos), (n / BATCH) as nat),
            size as nat,
        ),
        grows_by(script@, size as nat, (BATCH * (n / BATCH)) as nat),
{
    let ghost draws = upcoming(rnd_pos);
    let rounds = n / BATCH;
    let mut rnd_pos = rnd_pos;
    let mut script: Vec<Action> = Vec::new();
    let mut i: usize = 0;
    while i < rounds
        invariant
            i <= rounds,
            rounds == n / BATCH,
            batches_fit(n, size),
            script@ == batched_script(first_draws(draws, i as nat), size as nat),
            forall|k: nat| #[trigger] upcoming(rnd_pos)[k] == draws[(k + i) as nat],
        decreases rounds - i,
    {
        let pos = sample(&mut rnd_pos, size, i * BATCH);
        let ghost before = script@;
        script.push(Action::ExitFocus);
        script.push(Action::EnterFocus { position: pos });
        let ghost moved = script@;
        let mut k: usize = 0;
        while k < BATCH
            invariant
                k <= BATCH,
                i < rounds,
                rounds == n / BATCH,
                batches_fit(n, size),
                script@ == moved + pushes((size + i) as nat, k as nat),
            decreases BATCH - k,
        {
            script.push(Action::Push { value: size + i + k });
            proof {
                assert(script@ =~= moved + pushes((size + i) as nat, (k + 1) as nat));
            }
            k += 1;
        }
        proof {
            let taken = first_draws(draws, (i + 1) as nat);
            assert(taken.drop_last() =~= first_draws(draws, i as nat));
            assert(taken.last() == draws[i as nat]);
            assert(script@ =~= before + batched_round(draws[i as nat], size as nat, i as nat));
        }
        i += 1;
    }
    proof {
        let all = first_draws(draws, rounds as nat);
        assert forall|start: Container|
            start.valid() && start.focus is Some && size <= start.elements.len() implies {
            &&& #[trigger] start.replay(script@) matches Some(end)
            &&& end.elements.len() == start.elements.len() + BATCH * (n / BATCH)
        } by {
            lemma_batched_script(start, all, size as nat);
        }
    }
    script
}

/// Same as `insert_10n`, on a mutable handle: each round refocuses the handle
/// and pushes its ten values in place, so that no new container value is made.
pub fn insert_10n_mut(n: usize, size: usize, rnd_pos: StdRng) -> (script: Vec<Action>)
    requires
        batches_fit(n, size),
    ensures
        script@ == in_place_script(
            first_draws(upcoming(rnd_pos), (n / BATCH) as nat),
            size as nat,
        ),
        grows_by(script@, size as nat, (BATCH * (n / BATCH)) as nat),
{
    let ghost draws = upcoming(rnd_pos);
    let rounds = n / BATCH;
    let mut rnd_pos = rnd_pos;
    let mut script: Vec<Action> = Vec::new();
    let mut i: usize = 0;
    while i < rounds
        invariant
            i <= rounds,
            rounds == n / BATCH,
            batches_fit(n, size),
            script@ == in_place_script(first_draws(draws, i as nat), size as nat),
            forall|k: nat| #[trigger] upcoming(rnd_pos)[k] == draws[(k + i) as nat],
        decreases rounds - i,
    {
        let pos = sample(&mut rnd_pos, size, i * BATCH);
        let ghost before = script@;
        script.push(Action::Refocus { position: pos });
        let ghost moved = script@;
        let mut k: usize = 0;
        while k < BATCH
            invariant
                k <= BATCH,
                i < rounds,
                rounds == n / BATCH,
                batches_fit(n, size),
                script@ == moved + pushes_in_place((size + i) as nat, k as nat),
            decreases BATCH - k,
        {
            script.push(Action::PushInPlace { value: size + i + k });
            proof {
                assert(script@ =~= moved + pushes_in_place((size + i) as nat, (k + 1) as nat));
            }
            k += 1;
        }
        proof {
            let taken = first_draws(draws, (i + 1) as nat);
            assert(taken.drop_last() =~= first_draws(draws, i as nat));
            assert(taken.last() == draws[i as nat]);
            assert(script@ =~= before + in_place_round(draws[i as nat], size as nat, i as nat));
        }
        i += 1;
    }
    proof {
        let all = first_draws(draws, rounds as nat);
        assert forall|start: Container|
            start.valid() && start.focus is Some && size <= start.elements.len() implies {
            &&& #[trigger] start.replay(script@) matches Some(end)
            &&& end.elements.len() == start.elements.len() + BATCH * (n / BATCH)
        } by {
            lemma_in_place_script(start, all, size as nat);
        }
    }
    script
}

} // verus!
