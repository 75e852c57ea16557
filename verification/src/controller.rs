//! The order of an experiment: which step is taken when.
//!
//! The controller hands the steps of an experiment out one by one. Whoever
//! runs the experiment carries each step out on the step's variant, times
//! it, and emits its record.

use vstd::prelude::*;

use crate::strategies::Strategy;
use crate::workload::{lemma_prior_grows, Step, Variant, Variants, Workload};

verus! {

/// Where an experiment stands.
#[derive(Clone, Copy, Debug, PartialEq, Eq)]
pub enum Phase {
    /// Nothing was handed out.
    Uninitialized,
    /// The steps that build the starting containers were handed out.
    Primed,
    /// The measurement of this run and group was the last one handed out.
    Running { run_index: usize, group_index: usize },
    /// Every step was handed out.
    Done,
}

/// The measurement that is next in turn.
#[derive(Clone, Copy)]
struct Cursor {
    run: usize,
    /// The place of the variant among those that take part.
    slot: usize,
    group: usize,
    /// The elements counted before the measurement.
    prior: usize,
}

/// The state of an experiment between two steps.
pub struct Controller {
    workload: Workload,
    variants: Variants,
    order: Vec<Variant>,
    phase: Phase,
    cursor: Cursor,
}

/// The variants after the last have no measurements left in a run.
proof fn lemma_run_is_over(
    workload: Workload,
    order: Seq<Variant>,
    run: nat,
    slot: nat,
    group: nat,
)
    requires
        run < workload.runs,
        slot >= order.len(),
    ensures
        workload.pending_from(order, run, slot, group) == workload.pending_from(
            order,
            run + 1,
            0,
            0,
        ),
{
    assert(workload.pending_from(order, run, slot, group) =~= workload.runs_tail(order, run + 1));
    if run + 1 < workload.runs {
        assert(workload.pending_from(order, run + 1, 0, 0) =~= workload.runs_tail(order, run + 1));
    }
}

/// A variant whose groups are all measured leaves the turn to the next.
proof fn lemma_block_is_over(workload: Workload, order: Seq<Variant>, run: nat, slot: nat)
    requires
        run < workload.runs,
        slot < order.len(),
    ensures
        workload.pending_from(order, run, slot, workload.groups as nat) == workload.pending_from(
            order,
            run,
            slot + 1,
            0,
        ),
{
    let rest = workload.runs_tail(order, run + 1);
    assert(workload.block(order[slot as int], run, workload.groups as nat) =~= Seq::empty());
    assert(workload.pending_from(order, run, slot, workload.groups as nat) =~= workload.run_tail(
        order,
        run,
        slot + 1,
    ) + rest);
    assert(workload.pending_from(order, run, slot + 1, 0) =~= workload.run_tail(
        order,
        run,
        slot + 1,
    ) + rest);
}

/// While a variant has groups left, its next group is the next measurement.
proof fn lemma_next_in_block(
    workload: Workload,
    order: Seq<Variant>,
    run: nat,
    slot: nat,
    group: nat,
)
    requires
        run < workload.runs,
        slot < order.len(),
        group < workload.groups,
    ensures
        workload.pending_from(order, run, slot, group).len() > 0,
        workload.pending_from(order, run, slot, group)[0] == workload.measure(
            order[slot as int],
            run,
            group,
        ),
        workload.pending_from(order, run, slot, group).skip(1) == workload.pending_from(
            order,
            run,
            slot,
            group + 1,
        ),
{
    let variant = order[slot as int];
    let rest = workload.run_tail(order, run, slot + 1) + workload.runs_tail(order, run + 1);
    let now = workload.block(variant, run, group);
    assert(now.skip(1) =~= workload.block(variant, run, group + 1));
    assert(workload.pending_from(order, run, slot, group) =~= now + rest);
    assert((now + rest).skip(1) =~= now.skip(1) + rest);
    assert(workload.pending_from(order, run, slot, group + 1) =~= workload.block(
        variant,
        run,
        group + 1,
    ) + rest);
}

impl Controller {
    #[verifier::type_invariant]
    spec fn consistent(self) -> bool {
        &&& self.workload.fits()
        &&& self.order@ == self.variants.order()
        &&& self.cursor.run <= self.workload.runs
        &&& self.cursor.slot <= self.order@.len()
        &&& self.cursor.group <= self.workload.groups
        &&& self.cursor.run < self.workload.runs ==> self.cursor.prior == self.workload.prior(
            self.cursor.run as nat,
            self.cursor.group as nat,
        )
    }

    /// The workload of the experiment.
    pub closed spec fn workload(self) -> Workload {
        self.workload
    }

    /// The variants that take part.
    pub closed spec fn variants(self) -> Variants {
        self.variants
    }

    /// Where the experiment stands.
    pub closed spec fn phase(self) -> Phase {
        self.phase
    }

    /// The measurements that were not handed out yet, in their order.
    pub closed spec fn pending(self) -> Seq<Step> {
        self.workload.pending_from(
            self.order@,
            self.cursor.run as nat,
            self.cursor.slot as nat,
            self.cursor.group as nat,
        )
    }

    /// An experiment of `workload` on `variants`, before anything was done.
    pub fn new(workload: Workload, variants: Variants) -> (controller: Controller)
        requires
            workload.fits(),
        ensures
            controller.workload() == workload,
            controller.variants() == variants,
            controller.phase() == Phase::Uninitialized,
            controller.pending() == workload.measurements(variants.order()),
    {
        let order = variants.enabled();
        proof {
            let all = workload.measurements(order@);
            if 0 < workload.runs {
                assert(workload.pending_from(order@, 0, 0, 0) =~= all);
            }
        }
        Controller {
            workload,
            variants,
            order,
            phase: Phase::Uninitialized,
            cursor: Cursor { run: 0, slot: 0, group: 0, prior: workload.starting_size },
        }
    }

    /// Where the experiment stands.
    pub fn current_phase(&self) -> (phase: Phase)
        ensures
            phase == self.phase(),
    {
        self.phase
    }

    /// Hands out the steps that build the starting containers, in the order of
    /// the variants, and so turns an experiment that stands at its beginning
    /// into a primed one. At any later point there is nothing to build, and
    /// nothing changes.
    pub fn prime(&mut self) -> (steps: Vec<Step>)
        ensures
            final(self).workload() == old(self).workload(),
            final(self).variants() == old(self).variants(),
            final(self).pending() == old(self).pending(),
            old(self).phase() is Uninitialized ==> final(self).phase() == Phase::Primed && steps@
                == old(self).workload().priming(old(self).variants().order()),
            !(old(self).phase() is Uninitialized) ==> final(self).phase() == old(self).phase()
                && steps@.len() == 0,
            forall|k: int| 0 <= k < steps@.len() ==> (#[trigger] steps@[k]).fits(),
    {
        proof {
            use_type_invariant(&*self);
        }
        let mut steps: Vec<Step> = Vec::new();
        match self.phase {
            Phase::Uninitialized => {},
            _ => {
                return steps;
            },
        }
        self.phase = Phase::Primed;
        if self.workload.starting_size == 0 {
            assert(steps@ =~= self.workload.priming(self.order@));
            return steps;
        }
        let mut slot: usize = 0;
        while slot < self.order.len()
            invariant
                slot <= self.order@.len(),
                steps@.len() == slot,
                forall|k: int|
                    0 <= k < slot ==> #[trigger] steps@[k] == self.workload.priming_step(
                        self.order@[k],
                    ),
            decreases self.order@.len() - slot,
        {
            let variant = self.order[slot];
            let strategy = match variant {
                Variant::Raz => Strategy::Single,
                Variant::Graz => Strategy::Single,
                Variant::Mraz => Strategy::BatchedInPlace,
            };
            steps.push(
                Step {
                    variant,
                    strategy,
                    run_index: 0,
                    group_index: 0,
                    prior_element_count: 0,
                    insertion_count: self.workload.starting_size,
                    priming: true,
                },
            );
            slot += 1;
        }
        assert(steps@ =~= self.workload.priming(self.order@));
        steps
    }

    /// Hands out the next measurement of a primed or running experiment, or
    /// finds that none is left and the experiment done. Before the starting
    /// containers are built, and after the end, there is no measurement to
    /// hand out, and nothing changes.
    pub fn next(&mut self) -> (step: Option<Step>)
        ensures
            final(self).workload() == old(self).workload(),
            final(self).variants() == old(self).variants(),
            old(self).phase() is Uninitialized ==> {
                &&& step is None
                &&& final(self).phase() == old(self).phase()
                &&& final(self).pending() == old(self).pending()
            },
            !(old(self).phase() is Uninitialized) && old(self).pending().len() == 0 ==> {
                &&& step is None
                &&& final(self).phase() == Phase::Done
                &&& final(self).pending().len() == 0
            },
            !(old(self).phase() is Uninitialized) && old(self).pending().len() > 0 ==> {
                &&& step == Some(old(self).pending()[0])
                &&& final(self).pending() == old(self).pending().skip(1)
                &&& final(self).phase() == (Phase::Running {
                    run_index: old(self).pending()[0].run_index,
                    group_index: old(self).pending()[0].group_index,
                })
            },
            step matches Some(s) ==> s.fits(),
    {
        proof {
            use_type_invariant(&*self);
        }
        match self.phase {
            Phase::Uninitialized => {
                return None;
            },
            _ => {},
        }
        let workload = self.workload;
        let mut at = self.cursor;
        loop
            invariant
                workload == self.workload,
                self.consistent(),
                *self == *old(self),
                !(self.phase is Uninitialized),
                at.run <= workload.runs,
                at.slot <= self.order@.len(),
                at.group <= workload.groups,
                at.run < workload.runs ==> at.prior == workload.prior(
                    at.run as nat,
                    at.group as nat,
                ),
                workload.pending_from(
                    self.order@,
                    at.run as nat,
                    at.slot as nat,
                    at.group as nat,
                ) == old(self).pending(),
            decreases workload.runs - at.run, self.order@.len() - at.slot, workload.groups - at.group,
        {
            if at.run >= workload.runs {
                self.cursor = at;
                self.phase = Phase::Done;
                return None;
            }
            if at.slot >= self.order.len() {
                proof {
                    lemma_run_is_over(
                        workload,
                        self.order@,
                        at.run as nat,
                        at.slot as nat,
                        at.group as nat,
                    );
                }
                at = Cursor { run: at.run + 1, slot: 0, group: 0, prior: workload.starting_size };
                continue ;
            }
            if at.group >= workload.groups {
                proof {
                    lemma_block_is_over(workload, self.order@, at.run as nat, at.slot as nat);
                }
                at = Cursor { run: at.run, slot: at.slot + 1, group: 0, prior: workload.starting_size };
                continue ;
            }
            proof {
                lemma_prior_grows(workload, at.run as nat, at.group as nat);
                lemma_prior_grows(workload, at.run as nat, (at.group + 1) as nat);
                lemma_next_in_block(
                    workload,
                    self.order@,
                    at.run as nat,
                    at.slot as nat,
                    at.group as nat,
                );
                let each = workload.group_insertions(at.run as nat);
                assert((at.group + 1) * each == at.group * each + each) by (nonlinear_arith);
            }
            let variant = self.order[at.slot];
            let strategy = match variant {
                Variant::Raz => if workload.retain {
                    Strategy::Retained
                } else {
                    Strategy::Batched
                },
                Variant::Graz => Strategy::Single,
                Variant::Mraz => Strategy::BatchedInPlace,
            };
            let insertion_count = if workload.batch_scaling {
                workload.insertions * at.run
            } else {
                workload.insertions
            };
            let step = Step {
                variant,
                strategy,
                run_index: at.run,
                group_index: at.group,
                prior_element_count: at.prior,
                insertion_count,
                priming: false,
            };
            self.phase = Phase::Running { run_index: at.run, group_index: at.group };
            self.cursor = Cursor {
                run: at.run,
                slot: at.slot,
                group: at.group + 1,
                prior: at.prior + insertion_count,
            };
            return Some(step);
        }
    }

    /// Hands out all measurements that are left, in their order, and leaves
    /// the experiment done: what `next` would hand out call by call. Before
    /// the starting containers are built there is nothing to hand out, and
    /// nothing changes.
    pub fn rest(&mut self) -> (steps: Vec<Step>)
        ensures
            final(self).workload() == old(self).workload(),
            final(self).variants() == old(self).variants(),
            old(self).phase() is Uninitialized ==> {
                &&& steps@.len() == 0
                &&& final(self).phase() == old(self).phase()
                &&& final(self).pending() == old(self).pending()
            },
            !(old(self).phase() is Uninitialized) ==> {
                &&& steps@ == old(self).pending()
                &&& final(self).phase() == Phase::Done
                &&& final(self).pending().len() == 0
            },
            forall|k: int| 0 <= k < steps@.len() ==> (#[trigger] steps@[k]).fits(),
    {
        let mut steps: Vec<Step> = Vec::new();
        match self.phase {
            Phase::Uninitialized => {
                return steps;
            },
            _ => {},
        }
        let mut step = self.next();
        while step.is_some()
            invariant
                self.workload() == old(self).workload(),
                self.variants() == old(self).variants(),
                !(self.phase() is Uninitialized),
                forall|k: int| 0 <= k < steps@.len() ==> (#[trigger] steps@[k]).fits(),
                step matches Some(s) ==> s.fits() && steps@.push(s) + self.pending()
                    == old(self).pending(),
                step is None ==> steps@ == old(self).pending() && self.phase() == Phase::Done
                    && self.pending().len() == 0,
            decreases self.pending().len() + (if step is Some { 1nat } else { 0nat }),
        {
            let ghost before = self.pending();
            steps.push(step.unwrap());
            step = self.next();
            proof {
                if step is Some {
                    assert(before =~= seq![before[0]] + before.skip(1));
                    assert(steps@.push(step.unwrap()) + self.pending() =~= old(self).pending());
                } else {
                    assert(before =~= Seq::<Step>::empty());
                    assert(steps@ =~= old(self).pending());
                }
            }
        }
        steps
    }
}

} // verus!
