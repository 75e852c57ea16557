//! What an experiment consists of: its settings, its steps and its records.
//!
//! An experiment first builds a starting container for each variant that
//! takes part, then runs: in each run, each variant in turn starts again from
//! its starting container and goes through the groups, one timed script
//! each.

use time::Duration;
use vstd::prelude::*;

use crate::container::{Action, Container};
use crate::sampler::{seeded_draws, seeded_stream};
use crate::scripts::BATCH;
use crate::strategies::{
    batches_fit, grows_by, insert_10n, insert_10n_mut, insert_n, insert_n_save,
    lemma_script_grows, Strategy,
};

verus! {

/// A container strategy under measurement.
#[derive(Clone, Copy, Debug, PartialEq, Eq)]
pub enum Variant {
    /// The persistent zipper, driven by values.
    Raz,
    /// The gauged zipper, driven by values.
    Graz,
    /// The gauged zipper, driven through a mutable handle.
    Mraz,
}

/// The variants that take part in an experiment.
#[derive(Clone, Copy, Debug, PartialEq, Eq)]
pub struct Variants {
    pub raz: bool,
    pub graz: bool,
    pub mraz: bool,
}

/// What an experiment does, but for its seed.
#[derive(Clone, Copy, Debug, PartialEq, Eq)]
pub struct Workload {
    /// How many elements each starting container holds.
    pub starting_size: usize,
    /// How many insertions a group asks for.
    pub insertions: usize,
    /// How many groups are measured on one container.
    pub groups: usize,
    /// How often each variant starts again from its starting container.
    pub runs: usize,
    /// Whether a group of run `r` asks for `r` times the insertions.
    pub batch_scaling: bool,
    /// Whether the persistent zipper stores every value that it replaces.
    pub retain: bool,
}

/// One timed piece of work: a script for one variant.
#[derive(Clone, Copy, Debug, PartialEq, Eq)]
pub struct Step {
    pub variant: Variant,
    pub strategy: Strategy,
    /// The run; 0 for the building of a starting container.
    pub run_index: usize,
    /// The group within the run. Group 0 starts from the starting container,
    /// every other group from the container that the group before it left.
    pub group_index: usize,
    /// How many elements the experiment counts in the container beforehand.
    pub prior_element_count: usize,
    /// How many insertions the script is asked for.
    pub insertion_count: usize,
    /// Whether this step builds the starting container of its variant.
    pub priming: bool,
}

/// The record of one step that was carried out and timed.
#[derive(Clone, Copy, Debug)]
pub struct Measurement {
    pub variant: Variant,
    pub run_index: usize,
    pub prior_element_count: usize,
    pub insertion_count: usize,
    pub elapsed: Duration,
}

impl Variant {
    /// The name under which the variant's records are emitted.
    pub fn name(&self) -> (name: &'static str)
        ensures
            name@ == match *self {
                Variant::Raz => "RAZ"@,
                Variant::Graz => "GRAZ"@,
                Variant::Mraz => "MRAZ"@,
            },
    {
        match self {
            Variant::Raz => "RAZ",
            Variant::Graz => "GRAZ",
            Variant::Mraz => "MRAZ",
        }
    }
}

impl Variants {
    /// The variants in the order in which an experiment visits them.
    pub open spec fn order(self) -> Seq<Variant> {
        (if self.raz {
            seq![Variant::Raz]
        } else {
            Seq::empty()
        }) + (if self.graz {
            seq![Variant::Graz]
        } else {
            Seq::empty()
        }) + (if self.mraz {
            seq![Variant::Mraz]
        } else {
            Seq::empty()
        })
    }

    /// The variants that were asked for; the persistent zipper where none was,
    /// so that an experiment always measures something.
    pub fn select(raz: bool, graz: bool, mraz: bool) -> (chosen: Variants)
        ensures
            chosen == (Variants { raz: raz || (!graz && !mraz), graz, mraz }),
            chosen.order().len() > 0,
    {
        Variants { raz: raz || (!graz && !mraz), graz, mraz }
    }

    /// The variants that take part, in the order of their visits.
    pub fn enabled(&self) -> (order: Vec<Variant>)
        ensures
            order@ == self.order(),
    {
        let mut order: Vec<Variant> = Vec::new();
        if self.raz {
            order.push(Variant::Raz);
        }
        if self.graz {
            order.push(Variant::Graz);
        }
        if self.mraz {
            order.push(Variant::Mraz);
        }
        assert(order@ =~= self.order());
        order
    }
}

impl Workload {
    /// How many insertions each group of run `run` asks for: with batch
    /// scaling the run's index times the configured number, so that run 0 asks
    /// for none.
    pub open spec fn group_insertions(self, run: nat) -> nat {
        if self.batch_scaling {
            (self.insertions * run) as nat
        } else {
            self.insertions as nat
        }
    }

    /// How many elements the experiment counts before group `group` of run
    /// `run`: each earlier group of the run counts for all that it asked for.
    pub open spec fn prior(self, run: nat, group: nat) -> nat {
        (self.starting_size + group * self.group_insertions(run)) as nat
    }

    /// Every count of the experiment fits a machine word: the greatest is
    /// reached after the last group of the last run.
    pub open spec fn fits(self) -> bool {
        self.runs > 0 && self.groups > 0 ==> self.prior(
            (self.runs - 1) as nat,
            self.groups as nat,
        ) <= usize::MAX
    }

    /// The strategy by which a variant's groups are measured.
    pub open spec fn strategy(self, variant: Variant) -> Strategy {
        match variant {
            Variant::Raz => if self.retain {
                Strategy::Retained
            } else {
                Strategy::Batched
            },
            Variant::Graz => Strategy::Single,
            Variant::Mraz => Strategy::BatchedInPlace,
        }
    }

    /// The strategy by which a variant's starting container is built.
    pub open spec fn priming_strategy(variant: Variant) -> Strategy {
        match variant {
            Variant::Raz => Strategy::Single,
            Variant::Graz => Strategy::Single,
            Variant::Mraz => Strategy::BatchedInPlace,
        }
    }

    /// The step that builds the starting container of `variant`: from nothing,
    /// `starting_size` insertions, recorded as run 0.
    pub open spec fn priming_step(self, variant: Variant) -> Step {
        Step {
            variant,
            strategy: Self::priming_strategy(variant),
            run_index: 0,
            group_index: 0,
            prior_element_count: 0,
            insertion_count: self.starting_size,
            priming: true,
        }
    }

    /// The measurement of group `group` of run `run` on `variant`.
    pub open spec fn measure(self, variant: Variant, run: nat, group: nat) -> Step {
        Step {
            variant,
            strategy: self.strategy(variant),
            run_index: run as usize,
            group_index: group as usize,
            prior_element_count: self.prior(run, group) as usize,
            insertion_count: self.group_insertions(run) as usize,
            priming: false,
        }
    }

    /// The steps that build the starting containers: one for each variant,
    /// and none where the containers start empty.
    pub open spec fn priming(self, order: Seq<Variant>) -> Seq<Step> {
        if self.starting_size == 0 {
            Seq::empty()
        } else {
            Seq::new(order.len(), |k: int| self.priming_step(order[k]))
        }
    }

    /// The measurements of one variant in one run, from group `from` on.
    pub open spec fn block(self, variant: Variant, run: nat, from: nat) -> Seq<Step> {
        Seq::new(
            (self.groups - from) as nat,
            |k: int| self.measure(variant, run, (from + k) as nat),
        )
    }

    /// The measurements of one run on the variants from place `slot` on: the
    /// block of each, one variant after the other.
    pub open spec fn run_tail(self, order: Seq<Variant>, run: nat, slot: nat) -> Seq<Step>
        decreases order.len() - slot,
    {
        if slot >= order.len() {
            Seq::empty()
        } else {
            self.block(order[slot as int], run, 0) + self.run_tail(order, run, slot + 1)
        }
    }

    /// The measurements of the runs from `run` on.
    pub open spec fn runs_tail(self, order: Seq<Variant>, run: nat) -> Seq<Step>
        decreases self.runs - run,
    {
        if run >= self.runs {
            Seq::empty()
        } else {
            self.run_tail(order, run, 0) + self.runs_tail(order, run + 1)
        }
    }

    /// All measurements of the experiment, in the order in which they are
    /// taken: run by run, in each run variant by variant, for each variant
    /// group by group.
    pub open spec fn measurements(self, order: Seq<Variant>) -> Seq<Step> {
        self.runs_tail(order, 0)
    }

    /// The measurements still to take when the next one in turn is group
    /// `group` of the variant at place `slot` in run `run`.
    pub open spec fn pending_from(self, order: Seq<Variant>, run: nat, slot: nat, group: nat) -> Seq<
        Step,
    > {
        if run >= self.runs {
            Seq::empty()
        } else {
            (if slot < order.len() {
                self.block(order[slot as int], run, group)
            } else {
                Seq::empty()
            }) + self.run_tail(order, run, slot + 1) + self.runs_tail(order, run + 1)
        }
    }

    /// The workload of these settings, where all its counts fit a machine
    /// word, and `None` where they do not.
    pub fn checked(
        starting_size: usize,
        insertions: usize,
        groups: usize,
        runs: usize,
        batch_scaling: bool,
        retain: bool,
    ) -> (workload: Option<Workload>)
        ensures
            workload is Some <==> (Workload {
                starting_size,
                insertions,
                groups,
                runs,
                batch_scaling,
                retain,
            }).fits(),
            workload matches Some(w) ==> w == (Workload {
                starting_size,
                insertions,
                groups,
                runs,
                batch_scaling,
                retain,
            }),
    {
        let workload = Workload { starting_size, insertions, groups, runs, batch_scaling, retain };
        if runs == 0 || groups == 0 {
            return Some(workload);
        }
        let peak = if batch_scaling {
            insertions.checked_mul(runs - 1)
        } else {
            Some(insertions)
        };
        let grown = match peak {
            Some(each) => groups.checked_mul(each),
            None => None,
        };
        let last = match grown {
            Some(all) => starting_size.checked_add(all),
            None => None,
        };
        proof {
            let each = workload.group_insertions((runs - 1) as nat);
            assert(peak is None ==> groups * each > usize::MAX) by (nonlinear_arith)
                requires
                    groups >= 1,
                    peak is None ==> each > usize::MAX,
            ;
        }
        match last {
            Some(_) => Some(workload),
            None => None,
        }
    }

    /// The scripts of the first `upto` groups of one variant in one run, one
    /// after the other, each written from `seed`.
    pub open spec fn block_script(self, variant: Variant, run: nat, seed: usize, upto: nat) -> Seq<
        Action,
    >
        decreases upto,
    {
        if upto == 0 {
            Seq::empty()
        } else {
            self.block_script(variant, run, seed, (upto - 1) as nat) + self.measure(
                variant,
                run,
                (upto - 1) as nat,
            ).written(seed)
        }
    }
}

impl Step {
    /// The counts of the step fit a machine word, the elements counted
    /// afterwards included.
    pub open spec fn fits(self) -> bool {
        self.prior_element_count + self.insertion_count <= usize::MAX
    }

    /// The record of this step, once it was carried out in `elapsed`.
    pub fn measured(&self, elapsed: Duration) -> (record: Measurement)
        ensures
            record.variant == self.variant,
            record.run_index == self.run_index,
            record.prior_element_count == self.prior_element_count,
            record.insertion_count == self.insertion_count,
            record.elapsed == elapsed,
    {
        Measurement {
            variant: self.variant,
            run_index: self.run_index,
            prior_element_count: self.prior_element_count,
            insertion_count: self.insertion_count,
            elapsed,
        }
    }

    /// The script that `script` writes for the step from `seed`.
    pub open spec fn written(self, seed: usize) -> Seq<Action> {
        self.strategy.script(seeded_draws(seed), self.insertion_count, self.prior_element_count)
    }

    /// How many elements the step inserts: what it was asked for, cut down to
    /// full batches where its strategy works in batches.
    pub fn inserted(&self) -> (count: usize)
        ensures
            count == self.strategy.inserted(self.insertion_count),
            count <= self.insertion_count,
    {
        match self.strategy {
            Strategy::Single | Strategy::Retained => self.insertion_count,
            Strategy::Batched | Strategy::BatchedInPlace => (self.insertion_count / BATCH) * BATCH,
        }
    }

    /// Writes the script of the step: its strategy's script for its counts,
    /// with positions sampled from a stream freshly seeded with `seed`.
    ///
    /// Replayed on a focused container that holds at least the elements
    /// counted beforehand, the script is refused nowhere and inserts what
    /// `inserted` says.
    pub fn script(&self, seed: usize) -> (script: Vec<Action>)
        requires
            self.fits(),
        ensures
            script@ == self.written(seed),
            grows_by(
                script@,
                self.prior_element_count as nat,
                self.strategy.inserted(self.insertion_count),
            ),
    {
        let rnd_pos = seeded_stream(seed);
        assert(batches_fit(self.insertion_count, self.prior_element_count));
        match self.strategy {
            Strategy::Single => insert_n(self.insertion_count, self.prior_element_count, rnd_pos),
            Strategy::Retained => insert_n_save(
                self.insertion_count,
                self.prior_element_count,
                rnd_pos,
            ),
            Strategy::Batched => insert_10n(
                self.insertion_count,
                self.prior_element_count,
                rnd_pos,
            ),
            Strategy::BatchedInPlace => insert_10n_mut(
                self.insertion_count,
                self.prior_element_count,
                rnd_pos,
            ),
        }
    }
}

/// A later run or group never counts less than the workload's last one.
pub(crate) proof fn lemma_prior_grows(workload: Workload, run: nat, group: nat)
    requires
        workload.fits(),
        run < workload.runs,
        group <= workload.groups,
    ensures
        workload.group_insertions(run) <= workload.group_insertions((workload.runs - 1) as nat),
        workload.prior(run, group) <= workload.prior(
            (workload.runs - 1) as nat,
            workload.groups as nat,
        ),
        workload.groups > 0 ==> workload.prior(run, group) <= usize::MAX,
        workload.groups > 0 ==> workload.group_insertions(run) <= usize::MAX,
{
    let last = (workload.runs - 1) as nat;
    let each = workload.group_insertions(run);
    let most = workload.group_insertions(last);
    assert(each <= most) by (nonlinear_arith)
        requires
            run <= last,
            each == if workload.batch_scaling {
                workload.insertions * run
            } else {
                workload.insertions as int
            },
            most == if workload.batch_scaling {
                workload.insertions * last
            } else {
                workload.insertions as int
            },
    ;
    assert(group * each <= workload.groups * most) by (nonlinear_arith)
        requires
            group <= workload.groups,
            each <= most,
    ;
    assert(workload.groups > 0 ==> most <= workload.groups * most) by (nonlinear_arith);
}

/// Replaying a seed replays the experiment: the script of a step depends on
/// nothing but the step and the seed, so two scripts written for equal steps
/// from equal seeds hold the same positions and values, in the same order.
pub proof fn lemma_same_seed_same_script(first: Step, second: Step, seed: usize, again: usize)
    requires
        first == second,
        seed == again,
    ensures
        first.written(seed) == second.written(again),
{
}

/// The count kept by the experiment is the count of the container, as long as
/// the strategy inserts all that a group asks for: the groups of one variant
/// in one run, replayed one after the other on a starting container of at
/// least `starting_size` elements, are refused nowhere, and after `upto`
/// groups the container has grown by `upto` times the group's insertions.
pub proof fn lemma_block_replays(
    workload: Workload,
    variant: Variant,
    run: nat,
    seed: usize,
    upto: nat,
    start: Container,
)
    requires
        workload.fits(),
        run < workload.runs,
        upto <= workload.groups,
        start.valid(),
        start.focus is Some,
        workload.starting_size <= start.elements.len(),
        workload.strategy(variant).inserted(workload.group_insertions(run) as usize)
            == workload.group_insertions(run),
    ensures
        start.replay(workload.block_script(variant, run, seed, upto)) matches Some(end) && {
            &&& end.valid()
            &&& end.focus is Some
            &&& end.elements.len() == start.elements.len() + upto * workload.group_insertions(run)
        },
    decreases upto,
{
    if upto > 0 {
        let group = (upto - 1) as nat;
        let each = workload.group_insertions(run);
        let step = workload.measure(variant, run, group);
        lemma_block_replays(workload, variant, run, seed, group, start);
        let before = start.replay(workload.block_script(variant, run, seed, group)).unwrap();
        lemma_prior_grows(workload, run, group);
        assert(upto * each == group * each + each) by (nonlinear_arith)
            requires
                upto == group + 1,
        ;
        lemma_script_grows(
            step.strategy,
            seeded_draws(seed),
            step.insertion_count,
            step.prior_element_count,
            before,
        );
        start.lemma_replay_concat(
            workload.block_script(variant, run, seed, group),
            step.written(seed),
        );
    }
}

/// An experiment takes one measurement for each group of each run of each
/// variant that takes part.
pub proof fn lemma_measurement_count(workload: Workload, order: Seq<Variant>)
    ensures
        workload.measurements(order).len() == workload.runs * (order.len() * workload.groups),
{
    lemma_runs_tail_len(workload, order, 0);
}

proof fn lemma_run_tail_len(workload: Workload, order: Seq<Variant>, run: nat, slot: nat)
    requires
        slot <= order.len(),
    ensures
        workload.run_tail(order, run, slot).len() == (order.len() - slot) * workload.groups,
    decreases order.len() - slot,
{
    if slot < order.len() {
        lemma_run_tail_len(workload, order, run, slot + 1);
        assert((order.len() - slot) * workload.groups == (order.len() - (slot + 1))
            * workload.groups + workload.groups) by (nonlinear_arith);
    } else {
        assert((order.len() - slot) * workload.groups == 0) by (nonlinear_arith)
            requires
                order.len() - slot == 0,
        ;
    }
}

proof fn lemma_runs_tail_len(workload: Workload, order: Seq<Variant>, run: nat)
    requires
        run <= workload.runs,
    ensures
        workload.runs_tail(order, run).len() == (workload.runs - run) * (order.len()
            * workload.groups),
    decreases workload.runs - run,
{
    let each = order.len() * workload.groups;
    if run < workload.runs {
        lemma_runs_tail_len(workload, order, run + 1);
        lemma_run_tail_len(workload, order, run, 0);
        assert((workload.runs - run) * each == (workload.runs - (run + 1)) * each + each)
            by (nonlinear_arith);
    } else {
        assert((workload.runs - run) * each == 0) by (nonlinear_arith)
            requires
                workload.runs - run == 0,
        ;
    }
}

/// Where each measurement stands in the experiment: the one of group `group`
/// of the variant at place `slot` in run `run` is taken after all
/// measurements of earlier runs, after those of earlier variants in its run,
/// and after the earlier groups of its own block.
pub proof fn lemma_measurement_at(
    workload: Workload,
    order: Seq<Variant>,
    run: nat,
    slot: nat,
    group: nat,
)
    requires
        run < workload.runs,
        slot < order.len(),
        group < workload.groups,
    ensures
        0 <= (run * order.len() + slot) * workload.groups + group < workload.measurements(
            order,
        ).len(),
        workload.measurements(order)[(run * order.len() + slot) * workload.groups + group]
            == workload.measure(order[slot as int], run, group),
{
    let each = order.len() * workload.groups;
    lemma_in_runs_tail(workload, order, 0, run, slot, group);
    lemma_measurement_count(workload, order);
    assert((run * order.len() + slot) * workload.groups + group == run * each + slot
        * workload.groups + group) by (nonlinear_arith)
        requires
            each == order.len() * workload.groups,
    ;
    assert(run * each + slot * workload.groups + group < workload.runs * each)
        by (nonlinear_arith)
        requires
            each == order.len() * workload.groups,
            run < workload.runs,
            slot < order.len(),
            group < workload.groups,
    ;
}

proof fn lemma_in_run_tail(
    workload: Workload,
    order: Seq<Variant>,
    run: nat,
    from: nat,
    slot: nat,
    group: nat,
)
    requires
        from <= slot < order.len(),
        group < workload.groups,
    ensures
        0 <= (slot - from) * workload.groups + group < workload.run_tail(order, run, from).len(),
        workload.run_tail(order, run, from)[(slot - from) * workload.groups + group]
            == workload.measure(order[slot as int], run, group),
    decreases slot - from,
{
    lemma_run_tail_len(workload, order, run, from);
    assert((slot - from) * workload.groups + group < (order.len() - from) * workload.groups)
        by (nonlinear_arith)
        requires
            from <= slot < order.len(),
            group < workload.groups,
    ;
    if from < slot {
        lemma_in_run_tail(workload, order, run, from + 1, slot, group);
        assert((slot - from) * workload.groups + group == workload.groups + ((slot - (from + 1))
            * workload.groups + group)) by (nonlinear_arith);
        assert((slot - (from + 1)) * workload.groups >= 0) by (nonlinear_arith)
            requires
                from < slot,
        ;
    } else {
        assert((slot - from) * workload.groups == 0) by (nonlinear_arith)
            requires
                slot == from,
        ;
    }
}

proof fn lemma_in_runs_tail(
    workload: Workload,
    order: Seq<Variant>,
    from: nat,
    run: nat,
    slot: nat,
    group: nat,
)
    requires
        from <= run < workload.runs,
        slot < order.len(),
        group < workload.groups,
    ensures
        0 <= (run - from) * (order.len() * workload.groups) + slot * workload.groups + group
            < workload.runs_tail(order, from).len(),
        workload.runs_tail(order, from)[(run - from) * (order.len() * workload.groups) + slot
            * workload.groups + group] == workload.measure(order[slot as int], run, group),
    decreases run - from,
{
    let each = order.len() * workload.groups;
    let within = slot * workload.groups + group;
    lemma_runs_tail_len(workload, order, from);
    lemma_run_tail_len(workload, order, from, 0);
    lemma_in_run_tail(workload, order, run, 0, slot, group);
    lemma_run_tail_len(workload, order, run, 0);
    assert(0 <= within < each);
    assert((run - from) * each + within < (workload.runs - from) * each) by (nonlinear_arith)
        requires
            from <= run < workload.runs,
            0 <= within < each,
    ;
    if from < run {
        lemma_in_runs_tail(workload, order, from + 1, run, slot, group);
        assert((run - from) * each + within == each + ((run - (from + 1)) * each + within))
            by (nonlinear_arith);
        assert((run - (from + 1)) * each >= 0) by (nonlinear_arith)
            requires
                from < run,
                each >= 0,
        ;
    } else {
        assert((run - from) * each == 0) by (nonlinear_arith)
            requires
                run == from,
        ;
    }
}

} // verus!
