//! The scripts of the insertion strategies, and what they do to a container.
//!
//! A script is written round by round, one round for each draw from the
//! stream of positions. This module says what each strategy's rounds are, and
//! proves what replaying a whole script leaves behind.

use vstd::prelude::*;

use crate::container::{Action, Container};
use crate::sampler::position_of;

verus! {

/// How many elements go in at one focus move of the batched strategies.
pub const BATCH: usize = 10;

/// The elements after `count` pushes at the focus `at`, of the values `first`,
/// `first + 1`, and so on: each lands right of the focus, so the batch fills
/// the places from `at` on, the last value pushed standing first.
pub open spec fn pushed(elements: Seq<usize>, at: int, first: nat, count: nat) -> Seq<usize> {
    elements.take(at) + Seq::new(count, |k: int| (first + count - 1 - k) as usize)
        + elements.skip(at)
}

/// `count` pushes of new values, of `first`, `first + 1`, and so on.
pub open spec fn pushes(first: nat, count: nat) -> Seq<Action> {
    Seq::new(count, |k: int| Action::Push { value: (first + k) as usize })
}

/// `count` pushes in place, of `first`, `first + 1`, and so on.
pub open spec fn pushes_in_place(first: nat, count: nat) -> Seq<Action> {
    Seq::new(count, |k: int| Action::PushInPlace { value: (first + k) as usize })
}

/// Round `round` of the single-insert strategy: leave the focus, enter it at
/// the sampled position, push the one value `size + round`.
pub open spec fn single_round(draw: usize, size: nat, round: nat) -> Seq<Action> {
    seq![
        Action::ExitFocus,
        Action::EnterFocus { position: position_of(draw, size as int, round as int) as usize },
        Action::Push { value: (size + round) as usize },
    ]
}

/// Round `round` of the retaining strategy: the operations of the
/// single-insert round, each followed by storing the value it replaced.
pub open spec fn retained_round(draw: usize, size: nat, round: nat) -> Seq<Action> {
    seq![
        Action::ExitFocus,
        Action::RetainFocus,
        Action::EnterFocus { position: position_of(draw, size as int, round as int) as usize },
        Action::RetainSequence,
        Action::Push { value: (size + round) as usize },
        Action::RetainFocus,
    ]
}

/// Round `round` of the batched strategy: one focus move, sampled against the
/// `size + 10 * round` elements present, then ten pushes of the values from
/// `size + round` on.
pub open spec fn batched_round(draw: usize, size: nat, round: nat) -> Seq<Action> {
    seq![
        Action::ExitFocus,
        Action::EnterFocus {
            position: position_of(draw, size as int, BATCH * round) as usize,
        },
    ] + pushes(size + round, BATCH as nat)
}

/// Round `round` of the batched strategy on a mutable handle: the handle is
/// refocused and takes ten pushes in place.
pub open spec fn in_place_round(draw: usize, size: nat, round: nat) -> Seq<Action> {
    seq![
        Action::Refocus { position: position_of(draw, size as int, BATCH * round) as usize },
    ] + pushes_in_place(size + round, BATCH as nat)
}

/// The script of the single-insert strategy: one round for each draw.
pub open spec fn single_script(draws: Seq<usize>, size: nat) -> Seq<Action>
    decreases draws.len(),
{
    if draws.len() == 0 {
        Seq::empty()
    } else {
        single_script(draws.drop_last(), size) + single_round(
            draws.last(),
            size,
            (draws.len() - 1) as nat,
        )
    }
}

/// The script of the retaining strategy: one round for each draw.
pub open spec fn retained_script(draws: Seq<usize>, size: nat) -> Seq<Action>
    decreases draws.len(),
{
    if draws.len() == 0 {
        Seq::empty()
    } else {
        retained_script(draws.drop_last(), size) + retained_round(
            draws.last(),
            size,
            (draws.len() - 1) as nat,
        )
    }
}

/// The script of the batched strategy: one round of ten for each draw.
pub open spec fn batched_script(draws: Seq<usize>, size: nat) -> Seq<Action>
    decreases draws.len(),
{
    if draws.len() == 0 {
        Seq::empty()
    } else {
        batched_script(draws.drop_last(), size) + batched_round(
            draws.last(),
            size,
            (draws.len() - 1) as nat,
        )
    }
}

/// The script of the batched strategy on a mutable handle.
pub open spec fn in_place_script(draws: Seq<usize>, size: nat) -> Seq<Action>
    decreases draws.len(),
{
    if draws.len() == 0 {
        Seq::empty()
    } else {
        in_place_script(draws.drop_last(), size) + in_place_round(
            draws.last(),
            size,
            (draws.len() - 1) as nat,
        )
    }
}

/// The elements after single inserts, one for each draw: element `i` is the
/// value `size + i`, put where draw `i` points among the `size + i` counted
/// elements.
pub open spec fn single_grown(elements: Seq<usize>, draws: Seq<usize>, size: nat) -> Seq<usize>
    decreases draws.len(),
{
    if draws.len() == 0 {
        elements
    } else {
        single_grown(elements, draws.drop_last(), size).insert(
            position_of(draws.last(), size as int, draws.len() - 1),
            (size + draws.len() - 1) as usize,
        )
    }
}

/// The elements after batched inserts, ten for each draw: batch `i` holds the
/// values from `size + i` on and goes where draw `i` points among the
/// `size + 10 * i` counted elements.
pub open spec fn batched_grown(elements: Seq<usize>, draws: Seq<usize>, size: nat) -> Seq<usize>
    decreases draws.len(),
{
    if draws.len() == 0 {
        elements
    } else {
        pushed(
            batched_grown(elements, draws.drop_last(), size),
            position_of(draws.last(), size as int, BATCH * (draws.len() - 1)),
            (size + draws.len() - 1) as nat,
            BATCH as nat,
        )
    }
}

/// A position sampled against `size + offset` elements lies among them, and fits a
/// machine word as the draw does.
proof fn lemma_position_bounds(draw: usize, size: int, offset: int)
    requires
        0 <= size,
        0 <= offset,
    ensures
        0 <= position_of(draw, size, offset) <= size + offset,
        position_of(draw, size, offset) <= draw,
{
    vstd::arithmetic::div_mod::lemma_mod_bound(draw as int, size + offset + 1);
    vstd::arithmetic::div_mod::lemma_mod_decreases(draw as nat, (size + offset + 1) as nat);
}

/// What one round of the single-insert strategy does to a focused container.
proof fn lemma_single_round(before: Container, draw: usize, size: nat, round: nat)
    requires
        before.valid(),
        before.focus is Some,
        size + round <= before.elements.len(),
    ensures
        before.replay(single_round(draw, size, round)) matches Some(after) && {
            &&& after.valid()
            &&& after.focus is Some
            &&& after.elements == before.elements.insert(
                position_of(draw, size as int, round as int),
                (size + round) as usize,
            )
            &&& after.kept_focuses == before.kept_focuses
            &&& after.kept_sequences == before.kept_sequences
        },
{
    lemma_position_bounds(draw, size as int, round as int);
    let exit = Action::ExitFocus;
    let enter = Action::EnterFocus {
        position: position_of(draw, size as int, round as int) as usize,
    };
    let push = Action::Push { value: (size + round) as usize };
    assert(single_round(draw, size, round) =~= seq![exit] + seq![enter] + seq![push]);
    before.lemma_replay_one(exit);
    let left = before.perform(exit).unwrap();
    before.lemma_replay_concat(seq![exit], seq![enter]);
    left.lemma_replay_one(enter);
    let entered = left.perform(enter).unwrap();
    before.lemma_replay_concat(seq![exit] + seq![enter], seq![push]);
    entered.lemma_replay_one(push);
}

/// The single-insert script, replayed on a focused container of at least
/// `size` elements, is refused nowhere and leaves the elements of
/// `single_grown`: one more for each draw. It stores nothing.
pub proof fn lemma_single_script(start: Container, draws: Seq<usize>, size: nat)
    requires
        start.valid(),
        start.focus is Some,
        size <= start.elements.len(),
    ensures
        start.replay(single_script(draws, size)) matches Some(end) && {
            &&& end.valid()
            &&& end.focus is Some
            &&& end.elements == single_grown(start.elements, draws, size)
            &&& end.elements.len() == start.elements.len() + draws.len()
            &&& end.kept_focuses == start.kept_focuses
            &&& end.kept_sequences == start.kept_sequences
        },
    decreases draws.len(),
{
    if draws.len() > 0 {
        let earlier = draws.drop_last();
        let round = (draws.len() - 1) as nat;
        lemma_single_script(start, earlier, size);
        let before = start.replay(single_script(earlier, size)).unwrap();
        lemma_single_round(before, draws.last(), size, round);
        start.lemma_replay_concat(
            single_script(earlier, size),
            single_round(draws.last(), size, round),
        );
    }
}

/// What one round of the retaining strategy does to a focused container.
proof fn lemma_retained_round(before: Container, draw: usize, size: nat, round: nat)
    requires
        before.valid(),
        before.focus is Some,
        size + round <= before.elements.len(),
    ensures
        before.replay(retained_round(draw, size, round)) matches Some(after) && {
            &&& after.valid()
            &&& after.focus is Some
            &&& after.superseded is None
            &&& after.elements == before.elements.insert(
                position_of(draw, size as int, round as int),
                (size + round) as usize,
            )
            &&& after.kept_focuses == before.kept_focuses + 2
            &&& after.kept_sequences == before.kept_sequences + 1
            &&& before.superseded is None ==> after.released == before.released
        },
{
    lemma_position_bounds(draw, size as int, round as int);
    let exit = Action::ExitFocus;
    let enter = Action::EnterFocus {
        position: position_of(draw, size as int, round as int) as usize,
    };
    let push = Action::Push { value: (size + round) as usize };
    let first = seq![exit] + seq![Action::RetainFocus];
    let second = first + seq![enter] + seq![Action::RetainSequence];
    assert(retained_round(draw, size, round) =~= second + seq![push] + seq![Action::RetainFocus]);
    before.lemma_replay_one(exit);
    let a = before.perform(exit).unwrap();
    before.lemma_replay_concat(seq![exit], seq![Action::RetainFocus]);
    a.lemma_replay_one(Action::RetainFocus);
    let b = a.perform(Action::RetainFocus).unwrap();
    before.lemma_replay_concat(first, seq![enter]);
    b.lemma_replay_one(enter);
    let c = b.perform(enter).unwrap();
    before.lemma_replay_concat(first + seq![enter], seq![Action::RetainSequence]);
    c.lemma_replay_one(Action::RetainSequence);
    let d = c.perform(Action::RetainSequence).unwrap();
    before.lemma_replay_concat(second, seq![push]);
    d.lemma_replay_one(push);
    let e = d.perform(push).unwrap();
    before.lemma_replay_concat(second + seq![push], seq![Action::RetainFocus]);
    e.lemma_replay_one(Action::RetainFocus);
}

/// The retaining script, replayed on a focused container of at least `size`
/// elements, is refused nowhere, leaves the elements of `single_grown`, and
/// stores one sequence-form and two focus-form values for each draw. Where no
/// replaced value was pending at the start, none is pending at the end and
/// none was released.
pub proof fn lemma_retained_script(start: Container, draws: Seq<usize>, size: nat)
    requires
        start.valid(),
        start.focus is Some,
        size <= start.elements.len(),
    ensures
        start.replay(retained_script(draws, size)) matches Some(end) && {
            &&& end.valid()
            &&& end.focus is Some
            &&& end.elements == single_grown(start.elements, draws, size)
            &&& end.elements.len() == start.elements.len() + draws.len()
            &&& end.kept_focuses == start.kept_focuses + 2 * draws.len()
            &&& end.kept_sequences == start.kept_sequences + draws.len()
            &&& start.superseded is None ==> end.superseded is None && end.released
                == start.released
        },
    decreases draws.len(),
{
    if draws.len() > 0 {
        let earlier = draws.drop_last();
        let round = (draws.len() - 1) as nat;
        lemma_retained_script(start, earlier, size);
        let before = start.replay(retained_script(earlier, size)).unwrap();
        lemma_retained_round(before, draws.last(), size, round);
        start.lemma_replay_concat(
            retained_script(earlier, size),
            retained_round(draws.last(), size, round),
        );
    }
}

/// Storing the replaced values changes no element: on one container, from one
/// sequence of draws, the retaining strategy and the single-insert strategy
/// end with the same elements.
pub proof fn lemma_retaining_keeps_elements(start: Container, draws: Seq<usize>, size: nat)
    requires
        start.valid(),
        start.focus is Some,
        size <= start.elements.len(),
    ensures
        start.replay(retained_script(draws, size)) is Some,
        start.replay(single_script(draws, size)) is Some,
        start.replay(retained_script(draws, size)).unwrap().elements == start.replay(
            single_script(draws, size),
        ).unwrap().elements,
{
    lemma_retained_script(start, draws, size);
    lemma_single_script(start, draws, size);
}

/// Pushing on top of `count` pushes is `count + 1` pushes.
proof fn lemma_pushed_once_more(elements: Seq<usize>, at: int, first: nat, count: nat)
    requires
        0 <= at <= elements.len(),
    ensures
        pushed(elements, at, first, count).insert(at, (first + count) as usize) == pushed(
            elements,
            at,
            first,
            count + 1,
        ),
        pushed(elements, at, first, count).len() == elements.len() + count,
        pushed(elements, at, first, 0) == elements,
{
    assert(pushed(elements, at, first, count).insert(at, (first + count) as usize) =~= pushed(
        elements,
        at,
        first,
        count + 1,
    ));
    assert(pushed(elements, at, first, 0) =~= elements);
}

/// What `count` pushes do to a focused container: the values land at the
/// focus, which stays where it is.
proof fn lemma_pushes(before: Container, first: nat, count: nat)
    requires
        before.valid(),
        before.focus is Some,
    ensures
        before.replay(pushes(first, count)) matches Some(after) && {
            &&& after.focus == before.focus
            &&& after.elements == pushed(before.elements, before.focus.unwrap(), first, count)
            &&& after.kept_focuses == before.kept_focuses
            &&& after.kept_sequences == before.kept_sequences
        },
    decreases count,
{
    let at = before.focus.unwrap();
    if count == 0 {
        lemma_pushed_once_more(before.elements, at, first, 0);
        assert(pushes(first, 0) =~= Seq::<Action>::empty());
    } else {
        let fewer = (count - 1) as nat;
        let last = Action::Push { value: (first + fewer) as usize };
        lemma_pushes(before, first, fewer);
        assert(pushes(first, count) =~= pushes(first, fewer) + seq![last]);
        before.lemma_replay_concat(pushes(first, fewer), seq![last]);
        before.replay(pushes(first, fewer)).unwrap().lemma_replay_one(last);
        lemma_pushed_once_more(before.elements, at, first, fewer);
    }
}

/// What `count` pushes in place do to a focused container: the values land at
/// the focus, and nothing else changes.
proof fn lemma_pushes_in_place(before: Container, first: nat, count: nat)
    requires
        before.valid(),
        before.focus is Some,
    ensures
        before.replay(pushes_in_place(first, count)) == Some(
            Container {
                elements: pushed(before.elements, before.focus.unwrap(), first, count),
                ..before
            },
        ),
    decreases count,
{
    let at = before.focus.unwrap();
    if count == 0 {
        lemma_pushed_once_more(before.elements, at, first, 0);
        assert(pushes_in_place(first, 0) =~= Seq::<Action>::empty());
    } else {
        let fewer = (count - 1) as nat;
        let last = Action::PushInPlace { value: (first + fewer) as usize };
        lemma_pushes_in_place(before, first, fewer);
        assert(pushes_in_place(first, count) =~= pushes_in_place(first, fewer) + seq![last]);
        before.lemma_replay_concat(pushes_in_place(first, fewer), seq![last]);
        before.replay(pushes_in_place(first, fewer)).unwrap().lemma_replay_one(last);
        lemma_pushed_once_more(before.elements, at, first, fewer);
    }
}

/// What one round of the batched strategy does to a focused container.
proof fn lemma_batched_round(before: Container, draw: usize, size: nat, round: nat)
    requires
        before.valid(),
        before.focus is Some,
        size + BATCH * round <= before.elements.len(),
    ensures
        before.replay(batched_round(draw, size, round)) matches Some(after) && {
            &&& after.valid()
            &&& after.focus is Some
            &&& after.elements == pushed(
                before.elements,
                position_of(draw, size as int, BATCH * round),
                size + round,
                BATCH as nat,
            )
            &&& after.elements.len() == before.elements.len() + BATCH
            &&& after.kept_focuses == before.kept_focuses
            &&& after.kept_sequences == before.kept_sequences
        },
{
    let at = position_of(draw, size as int, BATCH * round);
    lemma_position_bounds(draw, size as int, BATCH * round);
    let exit = Action::ExitFocus;
    let enter = Action::EnterFocus { position: at as usize };
    let moves = seq![exit] + seq![enter];
    assert(batched_round(draw, size, round) =~= moves + pushes(size + round, BATCH as nat));
    before.lemma_replay_one(exit);
    let left = before.perform(exit).unwrap();
    before.lemma_replay_concat(seq![exit], seq![enter]);
    left.lemma_replay_one(enter);
    let entered = left.perform(enter).unwrap();
    before.lemma_replay_concat(moves, pushes(size + round, BATCH as nat));
    lemma_pushes(entered, size + round, BATCH as nat);
}

/// What one round of the batched strategy does to a mutable handle: only the
/// focus and the elements change.
proof fn lemma_in_place_round(before: Container, draw: usize, size: nat, round: nat)
    requires
        before.valid(),
        before.focus is Some,
        size + BATCH * round <= before.elements.len(),
    ensures
        before.replay(in_place_round(draw, size, round)) == Some(
            Container {
                elements: pushed(
                    before.elements,
                    position_of(draw, size as int, BATCH * round),
                    size + round,
                    BATCH as nat,
                ),
                focus: Some(position_of(draw, size as int, BATCH * round)),
                ..before
            },
        ),
        pushed(
            before.elements,
            position_of(draw, size as int, BATCH * round),
            size + round,
            BATCH as nat,
        ).len() == before.elements.len() + BATCH,
        0 <= position_of(draw, size as int, BATCH * round) <= before.elements.len(),
{
    let at = position_of(draw, size as int, BATCH * round);
    lemma_position_bounds(draw, size as int, BATCH * round);
    let refocus = Action::Refocus { position: at as usize };
    assert(in_place_round(draw, size, round) =~= seq![refocus] + pushes_in_place(
        size + round,
        BATCH as nat,
    ));
    before.lemma_replay_one(refocus);
    let moved = before.perform(refocus).unwrap();
    before.lemma_replay_concat(seq![refocus], pushes_in_place(size + round, BATCH as nat));
    lemma_pushes_in_place(moved, size + round, BATCH as nat);
}

/// The batched script, replayed on a focused container of at least `size`
/// elements, is refused nowhere and leaves the elements of `batched_grown`:
/// ten more for each draw. It stores nothing.
pub proof fn lemma_batched_script(start: Container, draws: Seq<usize>, size: nat)
    requires
        start.valid(),
        start.focus is Some,
        size <= start.elements.len(),
    ensures
        start.replay(batched_script(draws, size)) matches Some(end) && {
            &&& end.valid()
            &&& end.focus is Some
            &&& end.elements == batched_grown(start.elements, draws, size)
            &&& end.elements.len() == start.elements.len() + BATCH * draws.len()
            &&& end.kept_focuses == start.kept_focuses
            &&& end.kept_sequences == start.kept_sequences
        },
    decreases draws.len(),
{
    if draws.len() > 0 {
        let earlier = draws.drop_last();
        let round = (draws.len() - 1) as nat;
        lemma_batched_script(start, earlier, size);
        let before = start.replay(batched_script(earlier, size)).unwrap();
        lemma_batched_round(before, draws.last(), size, round);
        start.lemma_replay_concat(
            batched_script(earlier, size),
            batched_round(draws.last(), size, round),
        );
    }
}

/// The in-place script, replayed on a handle of at least `size` elements, is
/// refused nowhere and leaves the elements of `batched_grown`, as the batched
/// script does. No value is replaced on the way: nothing is stored or
/// released.
pub proof fn lemma_in_place_script(start: Container, draws: Seq<usize>, size: nat)
    requires
        start.valid(),
        start.focus is Some,
        size <= start.elements.len(),
    ensures
        start.replay(in_place_script(draws, size)) matches Some(end) && {
            &&& end.valid()
            &&& end.focus is Some
            &&& end.elements == batched_grown(start.elements, draws, size)
            &&& end.elements.len() == start.elements.len() + BATCH * draws.len()
            &&& end.superseded == start.superseded
            &&& end.kept_focuses == start.kept_focuses
            &&& end.kept_sequences == start.kept_sequences
            &&& end.released == start.released
        },
    decreases draws.len(),
{
    if draws.len() > 0 {
        let earlier = draws.drop_last();
        let round = (draws.len() - 1) as nat;
        lemma_in_place_script(start, earlier, size);
        let before = start.replay(in_place_script(earlier, size)).unwrap();
        lemma_in_place_round(before, draws.last(), size, round);
        start.lemma_replay_concat(
            in_place_script(earlier, size),
            in_place_round(draws.last(), size, round),
        );
    }
}

} // verus!
