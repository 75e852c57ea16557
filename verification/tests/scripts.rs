use evalraz::container::{Action, Form};
use evalraz::controller::Controller;
use evalraz::scripts::BATCH;
use evalraz::strategies::{insert_10n, insert_10n_mut, insert_n, insert_n_save, Strategy};
use evalraz::workload::{Measurement, Step, Variant, Variants, Workload};
use rand::{Rng, SeedableRng, StdRng};

/// A container as the scripts see it, over a plain vector.
#[derive(Clone, Debug, PartialEq)]
struct Plain {
    elements: Vec<usize>,
    focus: Option<usize>,
    superseded: Option<Form>,
    kept_focuses: usize,
    kept_sequences: usize,
    released: usize,
}

impl Plain {
    fn focused(elements: Vec<usize>) -> Plain {
        Plain {
            elements,
            focus: Some(0),
            superseded: None,
            kept_focuses: 0,
            kept_sequences: 0,
            released: 0,
        }
    }

    fn replaced(&mut self, form: Form) {
        if self.superseded.is_some() {
            self.released += 1;
        }
        self.superseded = Some(form);
    }

    fn perform(&mut self, action: Action) -> bool {
        match action {
            Action::ExitFocus => {
                if self.focus.is_none() {
                    return false;
                }
                self.replaced(Form::Focus);
                self.focus = None;
            }
            Action::EnterFocus { position } => {
                if self.focus.is_some() || position > self.elements.len() {
                    return false;
                }
                self.replaced(Form::Sequence);
                self.focus = Some(position);
            }
            Action::Push { value } => match self.focus {
                Some(at) => {
                    self.replaced(Form::Focus);
                    self.elements.insert(at, value);
                }
                None => return false,
            },
            Action::RetainFocus => {
                if self.superseded != Some(Form::Focus) {
                    return false;
                }
                self.superseded = None;
                self.kept_focuses += 1;
            }
            Action::RetainSequence => {
                if self.superseded != Some(Form::Sequence) {
                    return false;
                }
                self.superseded = None;
                self.kept_sequences += 1;
            }
            Action::Refocus { position } => {
                if self.focus.is_none() || position > self.elements.len() {
                    return false;
                }
                self.focus = Some(position);
            }
            Action::PushInPlace { value } => match self.focus {
                Some(at) => self.elements.insert(at, value),
                None => return false,
            },
        }
        true
    }

    fn replay(&mut self, script: &[Action]) -> bool {
        script.iter().all(|action| self.perform(*action))
    }
}

fn stream(seed: usize) -> StdRng {
    StdRng::from_seed(&[seed][..])
}

fn draws(seed: usize, n: usize) -> Vec<usize> {
    let mut rng = stream(seed);
    (0..n).map(|_| rng.gen::<usize>()).collect()
}

fn step(strategy: Strategy, prior: usize, insertions: usize) -> Step {
    Step {
        variant: Variant::Graz,
        strategy,
        run_index: 0,
        group_index: 0,
        prior_element_count: prior,
        insertion_count: insertions,
        priming: false,
    }
}

#[test]
fn insert_n_writes_three_operations_for_each_element() {
    let raw = draws(5, 4);
    let script = insert_n(4, 10, stream(5));
    let mut expected = Vec::new();
    for i in 0..4 {
        expected.push(Action::ExitFocus);
        expected.push(Action::EnterFocus { position: raw[i] % (10 + 1 + i) });
        expected.push(Action::Push { value: 10 + i });
    }
    assert_eq!(script, expected);
}

#[test]
fn insert_n_of_nothing_is_an_empty_script() {
    assert_eq!(insert_n(0, 0, stream(0)), Vec::new());
    assert_eq!(insert_n(0, 77, stream(1)), Vec::new());
    assert_eq!(insert_n_save(0, 5, stream(1)), Vec::new());
    assert_eq!(insert_10n(0, 5, stream(1)), Vec::new());
    assert_eq!(insert_10n_mut(0, 5, stream(1)), Vec::new());
}

#[test]
fn insert_n_into_an_empty_container_starts_at_the_front() {
    let script = insert_n(1, 0, stream(9));
    assert_eq!(
        script,
        vec![Action::ExitFocus, Action::EnterFocus { position: 0 }, Action::Push { value: 0 }]
    );
}

#[test]
fn insert_n_grows_by_n() {
    for (size, n) in [(0usize, 1usize), (0, 100), (7, 33), (50, 23)] {
        let mut container = Plain::focused((0..size).collect());
        assert!(container.replay(&insert_n(n, size, stream(2))));
        assert_eq!(container.elements.len(), size + n);
    }
}

#[test]
fn insert_n_inserts_the_values_counted_from_size() {
    let mut container = Plain::focused(vec![100, 101, 102]);
    assert!(container.replay(&insert_n(5, 3, stream(4))));
    let mut sorted = container.elements.clone();
    sorted.sort();
    assert_eq!(sorted, vec![3, 4, 5, 6, 7, 100, 101, 102]);
}

#[test]
fn insert_n_places_each_value_at_its_sampled_position() {
    let raw = draws(21, 6);
    let mut expected: Vec<usize> = vec![90, 91];
    for i in 0..6 {
        expected.insert(raw[i] % (2 + 1 + i), 2 + i);
    }
    let mut container = Plain::focused(vec![90, 91]);
    assert!(container.replay(&insert_n(6, 2, stream(21))));
    assert_eq!(container.elements, expected);
}

#[test]
fn insert_n_save_stores_every_replaced_value() {
    let raw = draws(5, 3);
    let script = insert_n_save(3, 1, stream(5));
    let mut expected = Vec::new();
    for i in 0..3 {
        expected.push(Action::ExitFocus);
        expected.push(Action::RetainFocus);
        expected.push(Action::EnterFocus { position: raw[i] % (1 + 1 + i) });
        expected.push(Action::RetainSequence);
        expected.push(Action::Push { value: 1 + i });
        expected.push(Action::RetainFocus);
    }
    assert_eq!(script, expected);
}

#[test]
fn insert_n_save_releases_nothing() {
    let mut container = Plain::focused((0..8).collect());
    assert!(container.replay(&insert_n_save(40, 8, stream(3))));
    assert_eq!(container.released, 0);
    assert_eq!(container.superseded, None);
    assert_eq!(container.kept_sequences, 40);
    assert_eq!(container.kept_focuses, 80);
}

#[test]
fn insert_n_releases_what_it_replaces() {
    let mut container = Plain::focused((0..8).collect());
    assert!(container.replay(&insert_n(40, 8, stream(3))));
    assert_eq!(container.kept_sequences, 0);
    assert_eq!(container.kept_focuses, 0);
    assert_eq!(container.released, 3 * 40 - 1);
}

#[test]
fn retaining_ends_with_the_elements_of_single_insert() {
    for seed in [0usize, 1, 99] {
        let mut kept = Plain::focused((0..12).collect());
        let mut single = Plain::focused((0..12).collect());
        assert!(kept.replay(&insert_n_save(57, 12, stream(seed))));
        assert!(single.replay(&insert_n(57, 12, stream(seed))));
        assert_eq!(kept.elements, single.elements);
        assert_eq!(kept.elements.len(), 12 + 57);
    }
}

#[test]
fn insert_10n_moves_the_focus_once_for_ten_values() {
    let raw = draws(8, 2);
    let script = insert_10n(20, 5, stream(8));
    let mut expected = Vec::new();
    for i in 0..2 {
        expected.push(Action::ExitFocus);
        expected.push(Action::EnterFocus { position: raw[i] % (5 + 1 + 10 * i) });
        for k in 0..10 {
            expected.push(Action::Push { value: 5 + i + k });
        }
    }
    assert_eq!(script, expected);
}

#[test]
fn insert_10n_leaves_out_what_fills_no_batch() {
    assert_eq!(insert_10n(9, 3, stream(1)), Vec::new());
    assert_eq!(insert_10n(19, 3, stream(1)), insert_10n(10, 3, stream(1)));
    assert_eq!(insert_10n_mut(29, 3, stream(1)), insert_10n_mut(20, 3, stream(1)));
}

#[test]
fn twenty_three_insertions_in_batches_are_twenty() {
    let mut container = Plain::focused((0..50).collect());
    assert!(container.replay(&insert_10n(23, 50, stream(0))));
    assert_eq!(container.elements.len(), 70);
    let batched = step(Strategy::Batched, 50, 23);
    assert_eq!(batched.inserted(), 20);
    let mut again = Plain::focused((0..50).collect());
    assert!(again.replay(&batched.script(0)));
    assert_eq!(again.elements.len(), 70);
}

#[test]
fn a_batch_lands_at_consecutive_positions() {
    let raw = draws(13, 1);
    let at = raw[0] % 31;
    let mut container = Plain::focused((1000..1030).collect());
    assert!(container.replay(&insert_10n(10, 30, stream(13))));
    let batch: Vec<usize> = container.elements[at..at + 10].to_vec();
    assert_eq!(batch, vec![39, 38, 37, 36, 35, 34, 33, 32, 31, 30]);
    let mut rest = container.elements.clone();
    rest.drain(at..at + 10);
    assert_eq!(rest, (1000..1030).collect::<Vec<usize>>());
}

#[test]
fn insert_10n_mut_refocuses_and_pushes_in_place() {
    let raw = draws(8, 2);
    let script = insert_10n_mut(25, 5, stream(8));
    let mut expected = Vec::new();
    for i in 0..2 {
        expected.push(Action::Refocus { position: raw[i] % (5 + 1 + 10 * i) });
        for k in 0..10 {
            expected.push(Action::PushInPlace { value: 5 + i + k });
        }
    }
    assert_eq!(script, expected);
}

#[test]
fn in_place_ends_with_the_elements_of_batched() {
    let mut handle = Plain::focused((0..30).collect());
    let mut values = Plain::focused((0..30).collect());
    assert!(handle.replay(&insert_10n_mut(64, 30, stream(6))));
    assert!(values.replay(&insert_10n(64, 30, stream(6))));
    assert_eq!(handle.elements, values.elements);
    assert_eq!(handle.elements.len(), 30 + 60);
    assert_eq!(handle.released, 0);
    assert_eq!(handle.superseded, None);
}

#[test]
fn scripts_fit_a_container_that_holds_more_than_was_counted() {
    let mut container = Plain::focused((0..40).collect());
    assert!(container.replay(&insert_n(10, 25, stream(2))));
    assert_eq!(container.elements.len(), 50);
    assert!(container.replay(&insert_10n(30, 25, stream(2))));
    assert_eq!(container.elements.len(), 80);
}

#[test]
fn batch_size_is_ten() {
    assert_eq!(BATCH, 10);
}

#[test]
fn step_script_is_its_strategy_on_a_fresh_stream() {
    assert_eq!(step(Strategy::Single, 4, 9).script(17), insert_n(9, 4, stream(17)));
    assert_eq!(step(Strategy::Retained, 4, 9).script(17), insert_n_save(9, 4, stream(17)));
    assert_eq!(step(Strategy::Batched, 4, 35).script(17), insert_10n(35, 4, stream(17)));
    assert_eq!(step(Strategy::BatchedInPlace, 4, 35).script(17), insert_10n_mut(35, 4, stream(17)));
}

#[test]
fn step_script_is_the_same_for_the_same_seed() {
    for strategy in
        [Strategy::Single, Strategy::Retained, Strategy::Batched, Strategy::BatchedInPlace]
    {
        let first = step(strategy, 100, 250).script(12345);
        let second = step(strategy, 100, 250).script(12345);
        assert_eq!(first, second);
        assert!(!first.is_empty());
    }
}

#[test]
fn step_script_depends_on_the_seed() {
    let first = step(Strategy::Single, 1000, 50).script(1);
    let second = step(Strategy::Single, 1000, 50).script(2);
    assert_eq!(first.len(), second.len());
    assert_ne!(first, second);
}

#[test]
fn step_inserted_counts_full_batches() {
    assert_eq!(step(Strategy::Single, 0, 23).inserted(), 23);
    assert_eq!(step(Strategy::Retained, 0, 23).inserted(), 23);
    assert_eq!(step(Strategy::Batched, 0, 23).inserted(), 20);
    assert_eq!(step(Strategy::BatchedInPlace, 0, 9).inserted(), 0);
    assert_eq!(step(Strategy::BatchedInPlace, 0, 10).inserted(), 10);
}

#[test]
fn a_hundred_single_inserts_from_seed_zero() {
    let mut container = Plain::focused(Vec::new());
    assert!(container.replay(&step(Strategy::Single, 0, 100).script(0)));
    assert_eq!(container.elements.len(), 100);
    let mut sorted = container.elements.clone();
    sorted.sort();
    assert_eq!(sorted, (0..100).collect::<Vec<usize>>());
}

/// What came of one experiment: its records, and for each block of groups
/// the elements that its container started and ended with.
struct Outcome {
    records: Vec<Measurement>,
    blocks: Vec<(Variant, usize, usize, usize)>,
}

/// Runs an experiment on plain containers, timing nothing.
fn experiment(workload: Workload, variants: Variants, seed: usize) -> Outcome {
    let place = |variant: Variant| match variant {
        Variant::Raz => 0,
        Variant::Graz => 1,
        Variant::Mraz => 2,
    };
    let mut starts = vec![Plain::focused(vec![]), Plain::focused(vec![]), Plain::focused(vec![])];
    let mut builds = starts.clone();
    let mut outcome = Outcome { records: Vec::new(), blocks: Vec::new() };
    let mut controller = Controller::new(workload, variants);
    for step in controller.prime() {
        assert!(starts[place(step.variant)].replay(&step.script(seed)));
        outcome.records.push(step.measured(time::Duration::zero()));
    }
    while let Some(step) = controller.next() {
        let at = place(step.variant);
        if step.group_index == 0 {
            builds[at] = starts[at].clone();
            outcome.blocks.push((step.variant, step.run_index, starts[at].elements.len(), 0));
        }
        assert!(builds[at].replay(&step.script(seed)));
        outcome.blocks.last_mut().unwrap().3 = builds[at].elements.len();
        outcome.records.push(step.measured(time::Duration::zero()));
    }
    outcome
}

#[test]
fn experiment_of_one_group_of_a_hundred_single_inserts() {
    let workload = Workload::checked(0, 100, 1, 1, false, false).unwrap();
    let outcome = experiment(workload, Variants { raz: false, graz: true, mraz: false }, 0);
    assert_eq!(outcome.records.len(), 1);
    assert_eq!(outcome.records[0].variant, Variant::Graz);
    assert_eq!(outcome.records[0].run_index, 0);
    assert_eq!(outcome.records[0].prior_element_count, 0);
    assert_eq!(outcome.records[0].insertion_count, 100);
    assert_eq!(outcome.blocks, vec![(Variant::Graz, 0, 0, 100)]);
}

#[test]
fn experiment_with_batch_scaling_grows_more_each_run() {
    let workload = Workload::checked(0, 10, 1, 3, true, false).unwrap();
    let outcome = experiment(workload, Variants { raz: false, graz: true, mraz: false }, 0);
    let asked: Vec<(usize, usize)> =
        outcome.records.iter().map(|r| (r.run_index, r.insertion_count)).collect();
    assert_eq!(asked, vec![(0, 0), (1, 10), (2, 20)]);
    assert_eq!(
        outcome.blocks,
        vec![(Variant::Graz, 0, 0, 0), (Variant::Graz, 1, 0, 10), (Variant::Graz, 2, 0, 20)]
    );
}

#[test]
fn experiment_starts_every_run_from_the_starting_container() {
    let workload = Workload::checked(40, 10, 3, 3, true, true).unwrap();
    let outcome = experiment(workload, Variants { raz: true, graz: true, mraz: true }, 5);
    assert_eq!(outcome.records.len(), 3 + 3 * 3 * 3);
    assert_eq!(outcome.blocks.len(), 9);
    for (_, run, started, ended) in outcome.blocks {
        assert_eq!(started, 40);
        assert_eq!(ended, 40 + 3 * 10 * run);
    }
}

#[test]
fn experiment_records_the_building_of_the_starting_containers() {
    let workload = Workload::checked(30, 10, 1, 1, false, false).unwrap();
    let outcome = experiment(workload, Variants { raz: true, graz: false, mraz: true }, 1);
    let seen: Vec<(Variant, usize, usize, usize)> = outcome
        .records
        .iter()
        .map(|r| (r.variant, r.run_index, r.prior_element_count, r.insertion_count))
        .collect();
    assert_eq!(
        seen,
        vec![
            (Variant::Raz, 0, 0, 30),
            (Variant::Mraz, 0, 0, 30),
            (Variant::Raz, 0, 30, 10),
            (Variant::Mraz, 0, 30, 10)
        ]
    );
    assert_eq!(outcome.blocks, vec![(Variant::Raz, 0, 30, 40), (Variant::Mraz, 0, 30, 40)]);
}

#[test]
fn experiment_in_batches_inserts_twenty_of_twenty_three() {
    let workload = Workload::checked(50, 23, 1, 1, false, false).unwrap();
    let outcome = experiment(workload, Variants { raz: true, graz: false, mraz: false }, 0);
    assert_eq!(outcome.records.len(), 2);
    assert_eq!(outcome.records[1].prior_element_count, 50);
    assert_eq!(outcome.records[1].insertion_count, 23);
    assert_eq!(outcome.blocks, vec![(Variant::Raz, 0, 50, 70)]);
}

#[test]
fn experiment_is_the_same_for_the_same_seed() {
    let workload = Workload::checked(20, 30, 2, 2, false, true).unwrap();
    let all = Variants { raz: true, graz: true, mraz: true };
    let mut first = Controller::new(workload, all);
    let mut second = Controller::new(workload, all);
    assert_eq!(first.prime(), second.prime());
    while let Some(step) = first.next() {
        assert_eq!(Some(step), second.next());
        assert_eq!(step.script(77), step.script(77));
    }
    assert_eq!(second.next(), None);
}
