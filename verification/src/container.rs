//! The operations that an insertion asks of a container, and what they do.
//!
//! A container under test is a sequence that is either in sequence form or in
//! focus form, where a focus is a place between two elements at which edits
//! happen. The harness never holds a container: it writes down the operations
//! to perform, and states here what each of them does to the sequence.

use vstd::prelude::*;

verus! {

/// One operation on the container under test.
#[derive(Clone, Copy, Debug, PartialEq, Eq)]
pub enum Action {
    /// Turn the focus form into a new value in sequence form.
    ExitFocus,
    /// Turn the sequence form into a new value focused at `position`.
    EnterFocus { position: usize },
    /// Make a new focus-form value with `value` placed right of the focus.
    Push { value: usize },
    /// Store the focus-form value that the last operation replaced.
    RetainFocus,
    /// Store the sequence-form value that the last operation replaced.
    RetainSequence,
    /// Move the focus of a mutable handle to `position`.
    Refocus { position: usize },
    /// Place `value` right of the focus of a mutable handle, in place.
    PushInPlace { value: usize },
}

/// The two forms of a container value.
#[derive(Clone, Copy, Debug, PartialEq, Eq)]
pub enum Form {
    Sequence,
    Focus,
}

/// What the harness knows of a container: its elements, where its focus is,
/// and what became of the values that operations replaced.
pub struct Container {
    /// The elements, front to back.
    pub elements: Seq<usize>,
    /// The number of elements left of the focus; `None` in sequence form.
    pub focus: Option<int>,
    /// The form of the value that the last operation replaced, while that
    /// value is neither stored nor released.
    pub superseded: Option<Form>,
    /// How many focus-form values were stored.
    pub kept_focuses: nat,
    /// How many sequence-form values were stored.
    pub kept_sequences: nat,
    /// How many replaced values were released without being stored.
    pub released: nat,
}

impl Container {
    /// A focus lies between two elements, or before the first, or after the
    /// last.
    pub open spec fn valid(self) -> bool {
        self.focus matches Some(at) ==> 0 <= at <= self.elements.len()
    }

    /// The state after a new value replaced the present one: a value that was
    /// replaced before and is still unclaimed is released.
    pub open spec fn replaced(self, form: Form) -> Container {
        Container {
            superseded: Some(form),
            released: if self.superseded is Some {
                self.released + 1
            } else {
                self.released
            },
            ..self
        }
    }

    /// The state after `action`, or `None` where the container refuses it: an
    /// operation on the wrong form, a position outside the sequence, or
    /// storing a value that is not there.
    pub open spec fn perform(self, action: Action) -> Option<Container> {
        match action {
            Action::ExitFocus => if self.focus is Some {
                Some(Container { focus: None, ..self.replaced(Form::Focus) })
            } else {
                None
            },
            Action::EnterFocus { position } => if self.focus is None && position
                <= self.elements.len() {
                Some(Container { focus: Some(position as int), ..self.replaced(Form::Sequence) })
            } else {
                None
            },
            Action::Push { value } => match self.focus {
                Some(at) => Some(
                    Container {
                        elements: self.elements.insert(at, value),
                        ..self.replaced(Form::Focus)
                    },
                ),
                None => None,
            },
            Action::RetainFocus => if self.superseded == Some(Form::Focus) {
                Some(Container { superseded: None, kept_focuses: self.kept_focuses + 1, ..self })
            } else {
                None
            },
            Action::RetainSequence => if self.superseded == Some(Form::Sequence) {
                Some(
                    Container { superseded: None, kept_sequences: self.kept_sequences + 1, ..self },
                )
            } else {
                None
            },
            Action::Refocus { position } => if self.focus is Some && position
                <= self.elements.len() {
                Some(Container { focus: Some(position as int), ..self })
            } else {
                None
            },
            Action::PushInPlace { value } => match self.focus {
                Some(at) => Some(Container { elements: self.elements.insert(at, value), ..self }),
                None => None,
            },
        }
    }

    /// The state after all of `actions`, first to last, or `None` where one of
    /// them is refused.
    pub open spec fn replay(self, actions: Seq<Action>) -> Option<Container>
        decreases actions.len(),
    {
        if actions.len() == 0 {
            Some(self)
        } else {
            match self.replay(actions.drop_last()) {
                Some(before) => before.perform(actions.last()),
                None => None,
            }
        }
    }

    /// Replaying two scripts one after the other is replaying their
    /// concatenation.
    pub proof fn lemma_replay_concat(self, first: Seq<Action>, second: Seq<Action>)
        ensures
            self.replay(first + second) == match self.replay(first) {
                Some(between) => between.replay(second),
                None => None,
            },
        decreases second.len(),
    {
        if second.len() == 0 {
            assert(first + second =~= first);
        } else {
            assert((first + second).drop_last() =~= first + second.drop_last());
            assert((first + second).last() == second.last());
            self.lemma_replay_concat(first, second.drop_last());
        }
    }

    /// Replaying a script of one action is performing that action.
    pub proof fn lemma_replay_one(self, action: Action)
        ensures
            self.replay(seq![action]) == self.perform(action),
    {
        let one = seq![action];
        assert(one.drop_last() =~= Seq::<Action>::empty());
        assert(self.replay(one.drop_last()) == Some(self));
    }
}

} // verus!
