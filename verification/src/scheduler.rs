//! The scheduler as a mathematical state machine.
//!
//! A [`Scheduler`] is the value that an [`crate::coroutine::Environment`]
//! stands for. Every operation of the runtime is a function from one
//! scheduler to the next, and [`Scheduler::wf`] is the invariant that all of
//! them keep.

use vstd::prelude::*;
use crate::error::{Error, Payload};
use crate::stack::{PoolView, StackView};
use crate::state::State;

verus! {

/// A transfer of control from the stack of one coroutine to that of another.
#[derive(Debug, Clone, Copy, PartialEq, Eq, Structural)]
pub struct Transfer {
    /// The coroutine whose execution point is saved.
    pub from: usize,
    /// The coroutine whose execution point is restored.
    pub to: usize,
}

/// What a resume decided.
#[derive(Debug, PartialEq)]
pub enum Resumption<C> {
    /// The resume is over without any transfer of control.
    Done(Result<State, Error>),
    /// Control has to pass to the target, whose saved execution point is
    /// handed out; the resume ends when control comes back.
    Switch(Transfer, C),
}

/// How the body of a coroutine ended.
#[derive(Debug, PartialEq)]
pub enum Outcome {
    /// The body returned.
    Returned,
    /// The body panicked.
    Panicked(Payload),
}

impl Outcome {
    /// The terminal state that the outcome leads to.
    pub open spec fn state(self) -> State {
        match self {
            Outcome::Returned => State::Finished,
            Outcome::Panicked(_) => State::Panicked,
        }
    }

    /// What is left for the resumer to pick up.
    pub open spec fn payload(self) -> Option<Payload> {
        match self {
            Outcome::Returned => None,
            Outcome::Panicked(p) => Some(p),
        }
    }
}

/// What is known of one coroutine. `C` is the type of a saved execution
/// point, of which the scheduler knows nothing but where it belongs.
pub struct CoroutineView<C> {
    /// The stack it runs on; the root, which is the thread itself, has none.
    pub stack: Option<StackView>,
    /// The point at which its execution goes on when control passes to it;
    /// none while it is executing.
    pub context: Option<C>,
    pub state: State,
    pub name: Option<Seq<char>>,
}

/// The name of the coroutine that stands for the thread itself.
pub open spec fn root_name() -> Seq<char> {
    "<Environment Root Coroutine>"@
}

/// The scheduling state of one thread.
pub struct Scheduler<C> {
    /// The coroutines by number; `None` where a coroutine was destroyed and
    /// its number is vacant. Number 0 is the root, which stands for the
    /// thread itself.
    pub coroutines: Seq<Option<CoroutineView<C>>>,
    /// The vacant numbers, the one that was vacated last at the end.
    pub vacant: Seq<int>,
    /// The outstanding resumes, outermost first: each entry was resumed by
    /// the one before it, the first by the root.
    pub chain: Seq<int>,
    /// The free stacks.
    pub pool: PoolView,
    /// The payload of a panic that waits for the resumer.
    pub resume_result: Option<Payload>,
    /// The coroutine that has just given up control, until its resumer has
    /// taken note of it.
    pub returning: Option<int>,
    /// The coroutine whose execution point is yet to be saved: the one that
    /// control has just left, or one that was spawned a moment ago.
    pub unsaved: Option<int>,
}

impl<C> Scheduler<C> {
    /// The scheduler of a thread that has not spawned anything yet.
    pub open spec fn initial() -> Scheduler<C> {
        Scheduler {
            coroutines: seq![
                Some(
                    CoroutineView {
                        stack: None,
                        context: None,
                        state: State::Running,
                        name: Some(root_name()),
                    },
                ),
            ],
            vacant: Seq::empty(),
            chain: Seq::empty(),
            pool: PoolView::empty(),
            resume_result: None,
            returning: None,
            unsaved: None,
        }
    }

    /// The number `id` names a coroutine that has not been destroyed.
    pub open spec fn contains(self, id: int) -> bool {
        0 <= id < self.coroutines.len() && self.coroutines[id] is Some
    }

    pub open spec fn get(self, id: int) -> CoroutineView<C> {
        self.coroutines[id]->0
    }

    pub open spec fn state_of(self, id: int) -> State {
        self.get(id).state
    }

    /// The coroutine that is executing: the innermost of the chain, or the
    /// root where nothing has been resumed.
    pub open spec fn current(self) -> int {
        if self.chain.len() == 0 {
            0
        } else {
            self.chain.last()
        }
    }

    /// No transfer of control is under way and every execution point is
    /// saved.
    pub open spec fn settled(self) -> bool {
        self.returning is None && self.unsaved is None
    }

    /// The coroutine takes part in the outstanding resumes, or its execution
    /// point is yet to be saved.
    pub open spec fn active(self, id: int) -> bool {
        self.chain.contains(id) || self.returning == Some(id) || self.unsaved == Some(id)
    }

    /// The coroutine has resumed another one and waits for control to come
    /// back: it is on the chain below the innermost coroutine, or it is the
    /// root below a chain that is not empty.
    pub open spec fn waiting(self, id: int) -> bool {
        id != self.current() && (id == 0 || self.chain.contains(id))
    }

    /// The coroutine `id` runs on the stack with the number `sid`.
    pub open spec fn owns_stack(self, id: int, sid: u64) -> bool {
        self.contains(id) && self.get(id).stack is Some && self.get(id).stack->0.id == sid
    }

    /// The stack was handed out by the pool and is neither free nor in use.
    pub open spec fn outstanding(self, stack: StackView) -> bool {
        &&& stack.id < self.pool.allocated
        &&& !self.pool.holds(stack.id)
        &&& forall|id: int| !#[trigger] self.owns_stack(id, stack.id)
    }

    /// The number that the next coroutine gets: the one that was vacated
    /// last, or a new one where none is vacant.
    pub open spec fn next_number(self) -> int {
        if self.vacant.len() > 0 {
            self.vacant.last()
        } else {
            self.coroutines.len() as int
        }
    }

    /// The vacant numbers are those of destroyed coroutines, each once.
    pub open spec fn wf_vacant(self) -> bool {
        &&& forall|i: int|
            0 <= i < self.vacant.len() ==> 0 < (#[trigger] self.vacant[i]) < self.coroutines.len()
                && self.coroutines[self.vacant[i]] is None
        &&& forall|i: int, j: int|
            0 <= i < j < self.vacant.len() ==> #[trigger] self.vacant[i] != #[trigger] self.vacant[j]
    }

    /// The chain names living coroutines other than the root, each once.
    pub open spec fn wf_chain(self) -> bool {
        &&& forall|i: int|
            0 <= i < self.chain.len() ==> self.contains(#[trigger] self.chain[i]) && self.chain[i] != 0
        &&& forall|i: int, j: int|
            0 <= i < j < self.chain.len() ==> #[trigger] self.chain[i] != #[trigger] self.chain[j]
    }

    /// Exactly the innermost coroutine is `Running` and all that wait for it
    /// are `Normal`; during a transfer back nobody is `Running`.
    pub open spec fn wf_states(self) -> bool {
        match self.returning {
            None => {
                &&& self.state_of(self.current()) == State::Running
                &&& forall|id: int|
                    self.contains(id) && id != self.current() ==> #[trigger] self.state_of(id)
                        != State::Running
                &&& forall|i: int|
                    0 <= i < self.chain.len() - 1 ==> self.state_of(#[trigger] self.chain[i])
                        == State::Normal
                &&& self.chain.len() > 0 ==> self.state_of(0) == State::Normal
            },
            Some(c) => {
                &&& self.contains(c)
                &&& c != 0
                &&& !self.chain.contains(c)
                &&& forall|id: int| self.contains(id) ==> #[trigger] self.state_of(id) != State::Running
                &&& forall|i: int|
                    0 <= i < self.chain.len() ==> self.state_of(#[trigger] self.chain[i])
                        == State::Normal
                &&& self.state_of(0) == State::Normal
            },
        }
    }

    /// Every stack has one place: it is free, or one coroutine runs on it.
    pub open spec fn wf_stacks(self) -> bool {
        &&& self.pool.wf()
        &&& forall|id: int, sid: u64| #[trigger]
            self.owns_stack(id, sid) ==> sid < self.pool.allocated && !self.pool.holds(sid)
        &&& forall|a: int, b: int, sid: u64|
            #[trigger] self.owns_stack(a, sid) && #[trigger] self.owns_stack(b, sid) ==> a == b
    }

    /// A payload waits only while the coroutine that panicked hands control
    /// back.
    pub open spec fn wf_result(self) -> bool {
        self.resume_result is Some ==> self.returning is Some && self.state_of(self.returning->0)
            == State::Panicked
    }

    /// Whoever can be given control has a saved execution point: every
    /// coroutine that may be resumed and every one that waits for control to
    /// come back, but for the one whose point is just being saved. The
    /// coroutine that is executing has none.
    pub open spec fn wf_contexts(self) -> bool {
        &&& forall|id: int|
            self.contains(id) && self.unsaved != Some(id) && (self.state_of(id).is_resumable()
                || self.waiting(id)) ==> (#[trigger] self.get(id)).context is Some
        &&& forall|id: int|
            self.contains(id) && self.state_of(id) == State::Running ==> (#[trigger] self.get(
                id,
            )).context is None
        &&& self.returning is Some ==> self.unsaved == self.returning && self.get(
            self.current(),
        ).context is None
        &&& self.unsaved matches Some(u) ==> self.contains(u) && u != self.current()
    }

    /// The invariant of the scheduler.
    pub open spec fn wf(self) -> bool {
        &&& self.contains(0)
        &&& self.get(0).stack is None
        &&& self.wf_chain()
        &&& self.wf_states()
        &&& self.wf_stacks()
        &&& self.wf_result()
        &&& self.wf_contexts()
        &&& self.wf_vacant()
    }

    /// The scheduler with the state of one coroutine replaced.
    pub open spec fn with_state(self, id: int, state: State) -> Scheduler<C> {
        Scheduler {
            coroutines: self.coroutines.update(
                id,
                Some(CoroutineView { state: state, ..self.get(id) }),
            ),
            ..self
        }
    }

    /// The scheduler with the saved execution point of one coroutine
    /// replaced.
    pub open spec fn with_context(self, id: int, context: Option<C>) -> Scheduler<C> {
        Scheduler {
            coroutines: self.coroutines.update(
                id,
                Some(CoroutineView { context: context, ..self.get(id) }),
            ),
            ..self
        }
    }

    /// The scheduler after `c` was registered under the next number.
    pub open spec fn after_adopt(self, c: CoroutineView<C>) -> Scheduler<C> {
        if self.vacant.len() > 0 {
            Scheduler {
                coroutines: self.coroutines.update(self.vacant.last(), Some(c)),
                vacant: self.vacant.drop_last(),
                ..self
            }
        } else {
            Scheduler { coroutines: self.coroutines.push(Some(c)), ..self }
        }
    }

    /// Whether `c` may be registered: it does not claim to be running, it has
    /// an execution point if it can be resumed, and its stack, if any, is in
    /// nobody's hands.
    pub open spec fn may_adopt(self, c: CoroutineView<C>) -> bool {
        &&& c.state != State::Running
        &&& c.state.is_resumable() ==> c.context is Some
        &&& c.stack is Some ==> self.outstanding(c.stack->0)
    }

    /// The scheduler after the pool has served a request for a stack.
    pub open spec fn after_take_stack(self, size: usize) -> Scheduler<C> {
        Scheduler { pool: self.pool.after_take(size), ..self }
    }

    /// The scheduler after a stack has come back to the pool.
    pub open spec fn after_give_stack(self, stack: StackView) -> Scheduler<C> {
        Scheduler { pool: self.pool.after_give(stack), ..self }
    }

    /// The coroutine that a spawn registers.
    pub open spec fn spawned(self, name: Option<Seq<char>>, size: usize) -> CoroutineView<C> {
        CoroutineView {
            stack: Some(self.pool.taken(size)),
            context: None,
            state: State::Suspended,
            name: name,
        }
    }

    /// The scheduler after a spawn: a stack was taken for the new coroutine,
    /// which starts out suspended. Its first execution point is yet to be
    /// saved.
    pub open spec fn after_spawn(self, name: Option<Seq<char>>, size: usize) -> Scheduler<C> {
        Scheduler {
            unsaved: Some(self.next_number()),
            ..self.after_take_stack(size).after_adopt(self.spawned(name, size))
        }
    }

    /// The scheduler after the execution point that was yet to be saved has
    /// been saved.
    pub open spec fn after_save(self, context: C) -> Scheduler<C> {
        Scheduler { unsaved: None, ..self.with_context(self.unsaved->0, Some(context)) }
    }

    /// What a resume of `id` decides.
    pub open spec fn resumption(self, id: int) -> Resumption<C> {
        match self.state_of(id) {
            State::Finished => Resumption::Done(Err(Error::Finished)),
            State::Panicked => Resumption::Done(Err(Error::Panicked)),
            State::Normal => Resumption::Done(Err(Error::Waiting)),
            State::Running => Resumption::Done(Ok(State::Running)),
            _ => Resumption::Switch(
                Transfer { from: self.current() as usize, to: id as usize },
                self.get(id).context->0,
            ),
        }
    }

    /// The scheduler after a resume of `id` was decided: unchanged unless the
    /// target can take over, in which case the resumer becomes `Normal`, the
    /// target `Running` and the innermost of the chain. The execution point
    /// of the target is handed out, and that of the resumer is yet to be
    /// saved.
    pub open spec fn after_resume(self, id: int) -> Scheduler<C> {
        if self.state_of(id).is_resumable() {
            let marked = self.with_context(id, None).with_state(id, State::Running).with_state(
                self.current(),
                State::Normal,
            );
            Scheduler { chain: self.chain.push(id), unsaved: Some(self.current()), ..marked }
        } else {
            self
        }
    }

    /// What the resume of `id` returns once control is back: the payload of
    /// a panic if one waits, else the state in which the target gave up
    /// control.
    pub open spec fn resumed_result(self, id: int) -> Result<State, Error> {
        match self.resume_result {
            Some(p) => Err(Error::Panicking(p)),
            None => Ok(self.state_of(id)),
        }
    }

    /// The scheduler after the resumer has taken control back: the execution
    /// point of the coroutine that gave up control is saved, the resumer is
    /// `Running` again and the payload, if any, is consumed.
    pub open spec fn after_resumed(self, context: C) -> Scheduler<C> {
        Scheduler {
            resume_result: None,
            returning: None,
            unsaved: None,
            ..self.with_context(self.returning->0, Some(context)).with_state(
                self.current(),
                State::Running,
            )
        }
    }

    /// The coroutine that control goes to when the innermost one yields.
    pub open spec fn resumer(self) -> int {
        (Scheduler { chain: self.chain.drop_last(), ..self }).current()
    }

    /// The transfer that a yield asks for, with the saved execution point of
    /// the resumer: from the innermost coroutine to the one that resumed it;
    /// none where only the root is executing.
    pub open spec fn yield_transfer(self) -> Option<(Transfer, C)> {
        if self.chain.len() == 0 {
            None
        } else {
            Some(
                (
                    Transfer { from: self.chain.last() as usize, to: self.resumer() as usize },
                    self.get(self.resumer()).context->0,
                ),
            )
        }
    }

    /// The scheduler after the innermost coroutine has yielded with `state`:
    /// it leaves the chain in that state and is noted as the one that hands
    /// control back; its execution point is yet to be saved, and that of its
    /// resumer is handed out. The root cannot yield; for it nothing changes.
    pub open spec fn after_yield(self, state: State) -> Scheduler<C> {
        if self.chain.len() == 0 {
            self
        } else {
            Scheduler {
                chain: self.chain.drop_last(),
                returning: Some(self.chain.last()),
                unsaved: Some(self.chain.last()),
                ..self.with_state(self.chain.last(), state).with_context(self.resumer(), None)
            }
        }
    }

    /// The scheduler after the body of the innermost coroutine has ended:
    /// the payload of a panic is left for the resumer, and the coroutine
    /// yields for good in its terminal state.
    pub open spec fn after_complete(self, outcome: Outcome) -> Scheduler<C> {
        (Scheduler { resume_result: outcome.payload(), ..self }).after_yield(outcome.state())
    }

    /// The scheduler after the coroutine `id` was destroyed: its stack, if
    /// it had one, is free again, and so is its number.
    pub open spec fn after_release(self, id: int) -> Scheduler<C> {
        Scheduler {
            coroutines: self.coroutines.update(id, None),
            vacant: self.vacant.push(id),
            pool: match self.get(id).stack {
                Some(stack) => self.pool.after_give(stack),
                None => self.pool,
            },
            ..self
        }
    }
}

/// One operation of the runtime.
pub enum Step<C> {
    /// A coroutine is registered as it is.
    Adopt(CoroutineView<C>),
    /// A coroutine is spawned with a name and a stack size.
    Spawn(Option<Seq<char>>, usize),
    /// The execution point that was yet to be saved is saved.
    Save(C),
    /// A stack is taken from the pool.
    TakeStack(usize),
    /// A stack is returned to the pool.
    GiveStack(StackView),
    /// A resume of the coroutine begins.
    Resume(int),
    /// The resumer takes control back and saves the execution point of the
    /// coroutine that gave it up.
    Resumed(C),
    /// The running coroutine yields in a state.
    Yield(State),
    /// The body of the running coroutine ends.
    Complete(Outcome),
    /// The coroutine is destroyed.
    Release(int),
}

impl<C> Scheduler<C> {
    /// Whether the operation may be carried out now.
    pub open spec fn enabled(self, step: Step<C>) -> bool {
        match step {
            Step::Adopt(c) => self.may_adopt(c),
            Step::Spawn(_, _) => self.settled() && self.pool.allocated < u64::MAX,
            Step::Save(_) => self.unsaved is Some && self.returning is None,
            Step::TakeStack(_) => self.pool.allocated < u64::MAX,
            Step::GiveStack(stack) => self.outstanding(stack),
            Step::Resume(id) => self.settled() && self.contains(id),
            Step::Resumed(_) => self.returning is Some,
            Step::Yield(state) => self.settled() && state != State::Running,
            Step::Complete(_) => self.settled() && self.chain.len() > 0,
            Step::Release(id) => self.contains(id) && id != 0 && !self.active(id),
        }
    }

    /// The scheduler after the operation.
    pub open spec fn next(self, step: Step<C>) -> Scheduler<C> {
        match step {
            Step::Adopt(c) => self.after_adopt(c),
            Step::Spawn(name, size) => self.after_spawn(name, size),
            Step::Save(context) => self.after_save(context),
            Step::TakeStack(size) => self.after_take_stack(size),
            Step::GiveStack(stack) => self.after_give_stack(stack),
            Step::Resume(id) => self.after_resume(id),
            Step::Resumed(context) => self.after_resumed(context),
            Step::Yield(state) => self.after_yield(state),
            Step::Complete(outcome) => self.after_complete(outcome),
            Step::Release(id) => self.after_release(id),
        }
    }

    /// Whether the operations may be carried out one after the other.
    pub open spec fn admits(self, steps: Seq<Step<C>>) -> bool
        decreases steps.len(),
    {
        if steps.len() == 0 {
            true
        } else {
            self.enabled(steps[0]) && self.next(steps[0]).admits(steps.drop_first())
        }
    }

    /// The scheduler after the operations were carried out in turn.
    pub open spec fn run(self, steps: Seq<Step<C>>) -> Scheduler<C>
        decreases steps.len(),
    {
        if steps.len() == 0 {
            self
        } else {
            self.next(steps[0]).run(steps.drop_first())
        }
    }

    /// The scheduler after `n` resumes of the same coroutine were begun.
    pub open spec fn resume_times(self, id: int, n: nat) -> Scheduler<C>
        decreases n,
    {
        if n == 0 {
            self
        } else {
            self.after_resume(id).resume_times(id, (n - 1) as nat)
        }
    }
}

/// Every operation keeps the invariant.
impl<C> Scheduler<C> {
    /// The rules on the chain, on states and on execution points speak of
    /// the coroutines, the chain and the transfer under way, and of nothing
    /// else.
    proof fn lemma_frame(self, other: Scheduler<C>)
        requires
            self.wf(),
            other.coroutines == self.coroutines,
            other.vacant == self.vacant,
            other.chain == self.chain,
            other.returning == self.returning,
            other.unsaved == self.unsaved,
        ensures
            other.contains(0),
            other.get(0).stack is None,
            other.wf_chain(),
            other.wf_states(),
            other.wf_contexts(),
            other.wf_vacant(),
            forall|id: int, sid: u64| other.owns_stack(id, sid) == self.owns_stack(id, sid),
    {
        assert(other.current() == self.current());
        assert forall|id: int| other.contains(id) == self.contains(id) && other.get(id) == self.get(
            id,
        ) by {}
        assert forall|id: int| other.waiting(id) == self.waiting(id) by {}
        assert forall|id: int|
            other.contains(id) && other.unsaved != Some(id) && (other.state_of(id).is_resumable()
                || other.waiting(id)) implies (#[trigger] other.get(id)).context is Some by {
            assert(self.get(id).context is Some);
        }
        assert forall|id: int| other.contains(id) && other.state_of(id) == State::Running implies
            (#[trigger] other.get(id)).context is None by {
            assert(self.get(id).context is None);
        }
        match self.returning {
            None => {
                assert forall|id: int| other.contains(id) && id != other.current() implies
                    #[trigger] other.state_of(id) != State::Running by {
                    assert(self.state_of(id) != State::Running);
                }
                assert forall|i: int| 0 <= i < other.chain.len() - 1 implies
                    other.state_of(#[trigger] other.chain[i]) == State::Normal by {
                    assert(self.state_of(self.chain[i]) == State::Normal);
                }
            },
            Some(c) => {
                assert forall|id: int| other.contains(id) implies
                    #[trigger] other.state_of(id) != State::Running by {
                    assert(self.state_of(id) != State::Running);
                }
                assert forall|i: int| 0 <= i < other.chain.len() implies
                    other.state_of(#[trigger] other.chain[i]) == State::Normal by {
                    assert(self.state_of(self.chain[i]) == State::Normal);
                }
            },
        }
        assert forall|i: int| 0 <= i < other.chain.len() implies
            other.contains(#[trigger] other.chain[i]) && other.chain[i] != 0 by {
            assert(self.contains(self.chain[i]));
        }
    }

    /// The stacks stay where they are when only states, execution points,
    /// the chain or the payload change.
    proof fn lemma_stacks_frame(self, other: Scheduler<C>)
        requires
            self.wf_stacks(),
            other.pool == self.pool,
            other.coroutines.len() == self.coroutines.len(),
            forall|id: int|
                0 <= id < self.coroutines.len() ==> ((#[trigger] other.coroutines[id]) is Some
                    <==> self.coroutines[id] is Some),
            forall|id: int|
                0 <= id < self.coroutines.len() && self.coroutines[id] is Some ==>
                    (#[trigger] other.coroutines[id])->0.stack == self.coroutines[id]->0.stack,
        ensures
            other.wf_stacks(),
            forall|id: int, sid: u64| other.owns_stack(id, sid) == self.owns_stack(id, sid),
            self.wf_vacant() && other.vacant == self.vacant ==> other.wf_vacant(),
    {
        assert forall|id: int, sid: u64| other.owns_stack(id, sid) == self.owns_stack(id, sid) by {
            if 0 <= id < self.coroutines.len() {
                assert((other.coroutines[id]) is Some <==> self.coroutines[id] is Some);
            }
        }
        if self.wf_vacant() && other.vacant == self.vacant {
            assert forall|i: int| 0 <= i < other.vacant.len() implies 0 < (#[trigger] other.vacant[i])
                < other.coroutines.len() && other.coroutines[other.vacant[i]] is None by {
                let v = self.vacant[i];
                assert((other.coroutines[v]) is Some <==> self.coroutines[v] is Some);
            }
        }
        assert forall|id: int, sid: u64| #[trigger] other.owns_stack(id, sid) implies sid
            < other.pool.allocated && !other.pool.holds(sid) by {
            assert(self.owns_stack(id, sid));
        }
        assert forall|a: int, b: int, sid: u64| #[trigger]
            other.owns_stack(a, sid) && #[trigger] other.owns_stack(b, sid) implies a == b by {
            assert(self.owns_stack(a, sid) && self.owns_stack(b, sid));
        }
    }

    /// The innermost coroutine of a well-formed scheduler lives, and is the
    /// root or on the chain.
    proof fn lemma_current(self)
        requires
            self.wf(),
        ensures
            self.contains(self.current()),
            self.chain.len() > 0 ==> self.chain.contains(self.current()) && self.current() != 0,
            self.chain.len() == 0 ==> self.current() == 0,
    {
        if self.chain.len() > 0 {
            assert(self.chain[self.chain.len() - 1] == self.current());
        }
    }

    pub proof fn lemma_initial_wf()
        ensures
            Scheduler::<C>::initial().wf(),
            Scheduler::<C>::initial().settled(),
    {
        let m = Scheduler::<C>::initial();
        assert(m.coroutines[0] is Some);
        assert forall|id: int, sid: u64| !#[trigger] m.owns_stack(id, sid) by {}
    }

    /// The next number is that of no living coroutine.
    pub proof fn lemma_next_number(self)
        requires
            self.wf(),
        ensures
            self.next_number() > 0,
            !self.contains(self.next_number()),
            !self.active(self.next_number()),
    {
        let n = self.next_number();
        if self.vacant.len() > 0 {
            assert(self.vacant[self.vacant.len() - 1] == n);
        }
        if self.chain.contains(n) {
            let i = choose|i: int| 0 <= i < self.chain.len() && self.chain[i] == n;
            assert(self.contains(self.chain[i]));
        }
        if self.returning is Some {
            assert(self.contains(self.returning->0));
        }
    }

    /// Registering a coroutine gives it the next number and disturbs no
    /// other.
    pub proof fn lemma_adopt_wf(self, c: CoroutineView<C>)
        requires
            self.wf(),
            self.may_adopt(c),
        ensures
            self.after_adopt(c).wf(),
            self.after_adopt(c).contains(self.next_number()),
            self.after_adopt(c).get(self.next_number()) == c,
            !self.contains(self.next_number()),
            !self.after_adopt(c).active(self.next_number()),
            forall|id: int|
                self.contains(id) ==> self.after_adopt(c).contains(id) && self.after_adopt(c).get(id)
                    == self.get(id),
    {
        self.lemma_next_number();
        self.lemma_registered(c, self.after_adopt(c));
    }

    /// What holds once `c` stands under the next number, whatever else is
    /// noted of it.
    proof fn lemma_registered(self, c: CoroutineView<C>, after: Scheduler<C>)
        requires
            self.wf(),
            c.state != State::Running,
            c.stack is Some ==> self.outstanding(c.stack->0),
            c.state.is_resumable() && c.context is None ==> after.unsaved == Some(self.next_number()),
            after.coroutines == self.after_adopt(c).coroutines,
            after.vacant == self.after_adopt(c).vacant,
            after.chain == self.chain,
            after.pool == self.pool,
            after.resume_result == self.resume_result,
            after.returning == self.returning,
            after.unsaved == self.unsaved || (self.unsaved is None && after.unsaved == Some(
                self.next_number(),
            )),
        ensures
            after.wf(),
            after.contains(self.next_number()),
            after.get(self.next_number()) == c,
            !after.chain.contains(self.next_number()),
            after.returning != Some(self.next_number()),
            forall|id: int|
                self.contains(id) ==> after.contains(id) && after.get(id) == self.get(id),
    {
        let n = self.next_number();
        self.lemma_next_number();
        self.lemma_current();
        assert(after.coroutines[n] == Some(c));
        assert forall|id: int| self.contains(id) implies after.contains(id) && after.get(id)
            == self.get(id) by {
            assert(after.coroutines[id] == self.coroutines[id]);
        }
        assert forall|id: int| after.contains(id) && id != n implies self.contains(id) && after.get(
            id,
        ) == self.get(id) by {
            assert(after.coroutines[id] == self.coroutines[id]);
        }
        assert forall|i: int| 0 <= i < self.chain.len() implies self.chain[i] != n by {
            assert(self.contains(self.chain[i]));
        }
        assert(after.current() == self.current());
        assert(after.wf_chain());
        assert(after.wf_states()) by {
            match self.returning {
                None => {
                    assert forall|id: int| after.contains(id) && id != after.current() implies
                        #[trigger] after.state_of(id) != State::Running by {
                        if id != n {
                            assert(self.state_of(id) != State::Running);
                        }
                    }
                    assert forall|i: int| 0 <= i < after.chain.len() - 1 implies
                        after.state_of(#[trigger] after.chain[i]) == State::Normal by {
                        assert(self.contains(self.chain[i]));
                        assert(self.state_of(self.chain[i]) == State::Normal);
                    }
                },
                Some(r) => {
                    assert forall|id: int| after.contains(id) implies
                        #[trigger] after.state_of(id) != State::Running by {
                        if id != n {
                            assert(self.state_of(id) != State::Running);
                        }
                    }
                    assert forall|i: int| 0 <= i < after.chain.len() implies
                        after.state_of(#[trigger] after.chain[i]) == State::Normal by {
                        assert(self.contains(self.chain[i]));
                        assert(self.state_of(self.chain[i]) == State::Normal);
                    }
                },
            }
        }
        assert(after.wf_stacks()) by {
            assert forall|id: int, sid: u64| #[trigger] after.owns_stack(id, sid) implies sid
                < after.pool.allocated && !after.pool.holds(sid) by {
                if id != n {
                    assert(self.owns_stack(id, sid));
                }
            }
            assert forall|a: int, b: int, sid: u64| #[trigger]
                after.owns_stack(a, sid) && #[trigger] after.owns_stack(b, sid) implies a == b by {
                if a != n && b != n {
                    assert(self.owns_stack(a, sid) && self.owns_stack(b, sid));
                } else if a != n {
                    assert(self.owns_stack(a, sid));
                } else if b != n {
                    assert(self.owns_stack(b, sid));
                }
            }
        }
        if self.returning is Some {
            assert(self.contains(self.returning->0));
        }
        if self.unsaved is Some {
            assert(self.contains(self.unsaved->0));
        }
        assert(after.wf_contexts()) by {
            assert forall|id: int| after.waiting(id) implies self.waiting(id) by {}
            assert forall|id: int|
                after.contains(id) && after.unsaved != Some(id) && (after.state_of(id).is_resumable()
                    || after.waiting(id)) implies (#[trigger] after.get(id)).context is Some by {
                if id != n {
                    assert(self.get(id).context is Some);
                }
            }
            assert forall|id: int| after.contains(id) && after.state_of(id) == State::Running implies
                (#[trigger] after.get(id)).context is None by {
                assert(self.get(id).context is None);
            }
        }
        assert(after.wf_vacant()) by {
            assert forall|i: int| 0 <= i < after.vacant.len() implies 0 < (#[trigger] after.vacant[i])
                < after.coroutines.len() && after.coroutines[after.vacant[i]] is None by {
                assert(after.vacant[i] == self.vacant[i]);
                if self.vacant.len() > 0 {
                    assert(self.vacant[i] != self.vacant[self.vacant.len() - 1]);
                }
            }
            assert forall|i: int, j: int| 0 <= i < j < after.vacant.len() implies
                #[trigger] after.vacant[i] != #[trigger] after.vacant[j] by {
                assert(after.vacant[i] == self.vacant[i]);
                assert(after.vacant[j] == self.vacant[j]);
            }
        }
    }

    /// Taking a stack from the pool leaves it in nobody's hands.
    pub proof fn lemma_take_stack_wf(self, size: usize)
        requires
            self.wf(),
            self.pool.allocated < u64::MAX,
        ensures
            self.after_take_stack(size).wf(),
            self.after_take_stack(size).outstanding(self.pool.taken(size)),
            self.pool.taken(size).size >= size,
    {
        let after = self.after_take_stack(size);
        self.pool.lemma_take(size);
        self.lemma_frame(after);
        assert forall|id: int, sid: u64| #[trigger] after.owns_stack(id, sid) implies sid
            < after.pool.allocated && !after.pool.holds(sid) by {
            assert(self.owns_stack(id, sid));
        }
        assert forall|a: int, b: int, sid: u64| #[trigger]
            after.owns_stack(a, sid) && #[trigger] after.owns_stack(b, sid) implies a == b by {
            assert(self.owns_stack(a, sid) && self.owns_stack(b, sid));
        }
        let t = self.pool.taken(size);
        assert forall|id: int| !#[trigger] after.owns_stack(id, t.id) by {
            if after.owns_stack(id, t.id) {
                assert(self.owns_stack(id, t.id));
            }
        }
    }

    /// Giving back a stack that is in nobody's hands makes it free.
    pub proof fn lemma_give_stack_wf(self, stack: StackView)
        requires
            self.wf(),
            self.outstanding(stack),
        ensures
            self.after_give_stack(stack).wf(),
    {
        let after = self.after_give_stack(stack);
        self.pool.lemma_give(stack);
        self.lemma_frame(after);
        assert forall|id: int, sid: u64| #[trigger] after.owns_stack(id, sid) implies sid
            < after.pool.allocated && !after.pool.holds(sid) by {
            assert(self.owns_stack(id, sid));
            assert(!self.owns_stack(id, stack.id));
        }
        assert forall|a: int, b: int, sid: u64| #[trigger]
            after.owns_stack(a, sid) && #[trigger] after.owns_stack(b, sid) implies a == b by {
            assert(self.owns_stack(a, sid) && self.owns_stack(b, sid));
        }
    }

    /// A spawn registers a suspended coroutine under the next number; its
    /// first execution point is yet to be saved.
    pub proof fn lemma_spawn_wf(self, name: Option<Seq<char>>, size: usize)
        requires
            self.wf(),
            self.settled(),
            self.pool.allocated < u64::MAX,
        ensures
            self.after_spawn(name, size).wf(),
            self.after_spawn(name, size).contains(self.next_number()),
            self.after_spawn(name, size).get(self.next_number()) == self.spawned(name, size),
            self.after_spawn(name, size).unsaved == Some(self.next_number()),
            self.after_spawn(name, size).returning is None,
            !self.contains(self.next_number()),
            !self.after_spawn(name, size).chain.contains(self.next_number()),
            forall|id: int|
                self.contains(id) ==> self.after_spawn(name, size).contains(id) && self.after_spawn(
                    name,
                    size,
                ).get(id) == self.get(id),
    {
        let taken = self.after_take_stack(size);
        self.lemma_take_stack_wf(size);
        self.lemma_next_number();
        assert(taken.next_number() == self.next_number());
        taken.lemma_registered(self.spawned(name, size), self.after_spawn(name, size));
        assert forall|id: int| self.contains(id) implies self.after_spawn(name, size).contains(id)
            && self.after_spawn(name, size).get(id) == self.get(id) by {
            assert(taken.contains(id) && taken.get(id) == self.get(id));
        }
    }

    /// Saving the execution point that was yet to be saved settles the
    /// scheduler.
    pub proof fn lemma_save_wf(self, context: C)
        requires
            self.wf(),
            self.unsaved is Some,
            self.returning is None,
        ensures
            self.after_save(context).wf(),
            self.after_save(context).settled(),
            self.after_save(context).chain == self.chain,
            self.after_save(context).get(self.unsaved->0).context == Some(context),
            forall|x: int| self.contains(x) <==> self.after_save(context).contains(x),
            forall|x: int|
                self.contains(x) ==> self.after_save(context).state_of(x) == self.state_of(x),
            forall|x: int|
                self.contains(x) && x != self.unsaved->0 ==> self.after_save(context).get(x)
                    == self.get(x),
    {
        let after = self.after_save(context);
        let u = self.unsaved->0;
        self.lemma_current();
        assert(after.current() == self.current());
        assert forall|x: int| self.contains(x) <==> after.contains(x) by {}
        assert forall|x: int| self.contains(x) implies after.state_of(x) == self.state_of(x) by {}
        assert(after.wf_chain()) by {
            assert forall|i: int| 0 <= i < after.chain.len() implies
                after.contains(#[trigger] after.chain[i]) && after.chain[i] != 0 by {
                assert(self.contains(self.chain[i]));
            }
        }
        assert(after.wf_states()) by {
            assert forall|id: int| after.contains(id) && id != after.current() implies
                #[trigger] after.state_of(id) != State::Running by {
                assert(self.state_of(id) != State::Running);
            }
            assert forall|i: int| 0 <= i < after.chain.len() - 1 implies
                after.state_of(#[trigger] after.chain[i]) == State::Normal by {
                assert(self.contains(self.chain[i]));
                assert(self.state_of(self.chain[i]) == State::Normal);
            }
        }
        self.lemma_stacks_frame(after);
        assert(after.wf_contexts()) by {
            assert forall|id: int| after.waiting(id) == self.waiting(id) by {}
            assert forall|id: int|
                after.contains(id) && after.unsaved != Some(id) && (after.state_of(id).is_resumable()
                    || after.waiting(id)) implies (#[trigger] after.get(id)).context is Some by {
                if id != u {
                    assert(self.get(id).context is Some);
                }
            }
            assert forall|id: int| after.contains(id) && after.state_of(id) == State::Running implies
                (#[trigger] after.get(id)).context is None by {
                assert(self.state_of(id) == State::Running);
                assert(id == self.current());
                assert(self.get(id).context is None);
            }
        }
    }

    /// A resume either changes nothing or makes the target the one running
    /// coroutine.
    pub proof fn lemma_resume_wf(self, id: int)
        requires
            self.wf(),
            self.settled(),
            self.contains(id),
        ensures
            self.after_resume(id).wf(),
            self.after_resume(id).returning is None,
            !self.state_of(id).is_resumable() ==> self.after_resume(id) == self,
            self.state_of(id).is_resumable() ==> {
                &&& self.after_resume(id).current() == id
                &&& self.after_resume(id).state_of(id) == State::Running
                &&& self.after_resume(id).unsaved == Some(self.current())
                &&& self.get(id).context is Some
                &&& id != 0
                &&& id != self.current()
                &&& !self.chain.contains(id)
            },
            forall|x: int| self.contains(x) <==> self.after_resume(id).contains(x),
    {
        let after = self.after_resume(id);
        if self.state_of(id).is_resumable() {
            let cur = self.current();
            self.lemma_current();
            assert(id != cur);
            assert(id != 0) by {
                if self.chain.len() > 0 {
                    assert(self.state_of(0) == State::Normal);
                }
            }
            assert forall|i: int| 0 <= i < self.chain.len() implies self.chain[i] != id by {
                if i < self.chain.len() - 1 {
                    assert(self.state_of(self.chain[i]) == State::Normal);
                }
            }
            assert(self.get(id).context is Some);
            assert(after.chain.last() == id);
            assert(after.current() == id);
            assert forall|x: int| self.contains(x) <==> after.contains(x) by {}
            assert forall|x: int| self.contains(x) && x != id && x != cur implies after.get(x)
                == self.get(x) by {}
            assert(after.get(cur).context == self.get(cur).context);
            assert(after.get(cur).state == State::Normal);
            assert(after.get(id).context is None);
            assert(after.get(id).state == State::Running);
            assert(after.wf_chain()) by {
                assert forall|i: int| 0 <= i < after.chain.len() implies
                    after.contains(#[trigger] after.chain[i]) && after.chain[i] != 0 by {
                    if i < self.chain.len() {
                        assert(after.chain[i] == self.chain[i]);
                        assert(self.contains(self.chain[i]));
                    }
                }
                assert forall|i: int, j: int| 0 <= i < j < after.chain.len() implies
                    #[trigger] after.chain[i] != #[trigger] after.chain[j] by {
                    assert(after.chain[i] == self.chain[i]);
                    if j < self.chain.len() {
                        assert(after.chain[j] == self.chain[j]);
                    }
                }
            }
            assert(after.wf_states()) by {
                assert forall|x: int| after.contains(x) && x != id implies
                    #[trigger] after.state_of(x) != State::Running by {
                    if x != cur {
                        assert(self.state_of(x) != State::Running);
                    }
                }
                assert forall|i: int| 0 <= i < after.chain.len() - 1 implies
                    after.state_of(#[trigger] after.chain[i]) == State::Normal by {
                    assert(after.chain[i] == self.chain[i]);
                    if i < self.chain.len() - 1 {
                        assert(self.state_of(self.chain[i]) == State::Normal);
                    }
                }
            }
            self.lemma_stacks_frame(after);
            assert(after.wf_contexts()) by {
                assert forall|x: int| after.waiting(x) && x != cur implies self.waiting(x) by {
                    if x != 0 {
                        let i = choose|i: int| 0 <= i < after.chain.len() && after.chain[i] == x;
                        assert(i < self.chain.len());
                        assert(self.chain[i] == x);
                    }
                }
                assert forall|x: int|
                    after.contains(x) && after.unsaved != Some(x) && (after.state_of(x).is_resumable()
                        || after.waiting(x)) implies (#[trigger] after.get(x)).context is Some by {
                    assert(x != id);
                    assert(self.get(x).context is Some);
                }
                assert forall|x: int| after.contains(x) && after.state_of(x) == State::Running implies
                    (#[trigger] after.get(x)).context is None by {
                    if x != id {
                        assert(after.state_of(x) != State::Running);
                    }
                }
            }
        }
    }

    /// When the resumer takes control back it is the one running coroutine
    /// again, and the coroutine that gave up control has its execution point
    /// saved.
    pub proof fn lemma_resumed_wf(self, context: C)
        requires
            self.wf(),
            self.returning is Some,
        ensures
            self.after_resumed(context).wf(),
            self.after_resumed(context).settled(),
            self.after_resumed(context).chain == self.chain,
            self.returning->0 != self.current(),
            self.after_resumed(context).get(self.returning->0).context == Some(context),
            self.after_resumed(context).state_of(self.returning->0) == self.state_of(
                self.returning->0,
            ),
            forall|x: int| self.contains(x) <==> self.after_resumed(context).contains(x),
            forall|x: int|
                self.contains(x) && x != self.current() && x != self.returning->0
                    ==> self.after_resumed(context).get(x) == self.get(x),
    {
        let after = self.after_resumed(context);
        let cur = self.current();
        let child = self.returning->0;
        self.lemma_current();
        assert(child != cur);
        assert(after.current() == cur);
        assert forall|x: int| self.contains(x) <==> after.contains(x) by {}
        assert(after.get(cur).context == self.get(cur).context);
        assert(after.get(child).state == self.get(child).state);
        assert(after.wf_chain()) by {
            assert forall|i: int| 0 <= i < after.chain.len() implies
                after.contains(#[trigger] after.chain[i]) && after.chain[i] != 0 by {
                assert(self.contains(self.chain[i]));
            }
        }
        assert(after.wf_states()) by {
            assert forall|x: int| after.contains(x) && x != cur implies
                #[trigger] after.state_of(x) != State::Running by {
                assert(self.state_of(x) != State::Running);
            }
            assert forall|i: int| 0 <= i < after.chain.len() - 1 implies
                after.state_of(#[trigger] after.chain[i]) == State::Normal by {
                assert(self.chain.contains(self.chain[i]));
                assert(self.state_of(self.chain[i]) == State::Normal);
            }
        }
        self.lemma_stacks_frame(after);
        assert(after.wf_contexts()) by {
            assert forall|x: int| after.waiting(x) == self.waiting(x) by {}
            assert forall|x: int|
                after.contains(x) && after.unsaved != Some(x) && (after.state_of(x).is_resumable()
                    || after.waiting(x)) implies (#[trigger] after.get(x)).context is Some by {
                if x != child {
                    assert(x != cur);
                    assert(self.get(x).context is Some);
                }
            }
            assert forall|x: int| after.contains(x) && after.state_of(x) == State::Running implies
                (#[trigger] after.get(x)).context is None by {
                if x != cur {
                    assert(self.state_of(x) != State::Running);
                }
            }
        }
    }

    /// A yield takes the innermost coroutine off the chain and leaves nobody
    /// running until the resumer has taken over.
    pub proof fn lemma_yield_wf(self, state: State)
        requires
            self.wf(),
            self.settled(),
            state != State::Running,
        ensures
            self.after_yield(state).wf(),
            self.chain.len() == 0 ==> self.after_yield(state) == self,
            self.chain.len() > 0 ==> {
                &&& self.after_yield(state).returning == Some(self.current())
                &&& self.after_yield(state).state_of(self.current()) == state
                &&& self.after_yield(state).current() == self.resumer()
                &&& self.contains(self.resumer())
                &&& self.get(self.resumer()).context is Some
                &&& self.resumer() != self.current()
            },
            forall|x: int| self.contains(x) <==> self.after_yield(state).contains(x),
    {
        let after = self.after_yield(state);
        if self.chain.len() > 0 {
            let c = self.chain.last();
            let p = self.resumer();
            self.lemma_current();
            assert(self.contains(c));
            assert(after.chain =~= self.chain.drop_last());
            assert(after.current() == p);
            assert(p != c && self.contains(p) && self.waiting(p)) by {
                if self.chain.len() > 1 {
                    let i = self.chain.len() - 2;
                    assert(after.chain[i] == self.chain[i]);
                    assert(self.chain[i] != self.chain[i + 1]);
                    assert(self.contains(self.chain[i]));
                    assert(self.chain.contains(self.chain[i]));
                }
            }
            assert(self.get(p).context is Some);
            assert forall|x: int| self.contains(x) <==> after.contains(x) by {}
            assert forall|x: int| self.contains(x) && x != c && x != p implies after.get(x)
                == self.get(x) by {}
            assert(after.get(c).state == state);
            assert(after.get(p).state == self.get(p).state);
            assert(after.get(p).context is None);
            assert(after.wf_chain()) by {
                assert forall|i: int| 0 <= i < after.chain.len() implies
                    after.contains(#[trigger] after.chain[i]) && after.chain[i] != 0 by {
                    assert(after.chain[i] == self.chain[i]);
                    assert(self.contains(self.chain[i]));
                }
                assert forall|i: int, j: int| 0 <= i < j < after.chain.len() implies
                    #[trigger] after.chain[i] != #[trigger] after.chain[j] by {
                    assert(after.chain[i] == self.chain[i]);
                    assert(after.chain[j] == self.chain[j]);
                }
            }
            assert(!after.chain.contains(c)) by {
                if after.chain.contains(c) {
                    let i = choose|i: int| 0 <= i < after.chain.len() && after.chain[i] == c;
                    assert(after.chain[i] == self.chain[i]);
                    assert(self.chain[i] != self.chain[self.chain.len() - 1]);
                }
            }
            assert(after.wf_states()) by {
                assert forall|x: int| after.contains(x) implies
                    #[trigger] after.state_of(x) != State::Running by {
                    if x != c {
                        assert(self.state_of(x) != State::Running);
                    }
                }
                assert forall|i: int| 0 <= i < after.chain.len() implies
                    after.state_of(#[trigger] after.chain[i]) == State::Normal by {
                    assert(after.chain[i] == self.chain[i]);
                    assert(self.chain[i] != self.chain[self.chain.len() - 1]);
                    assert(self.state_of(self.chain[i]) == State::Normal);
                }
                assert(self.state_of(0) == State::Normal);
                assert(c != 0);
            }
            self.lemma_stacks_frame(after);
            assert(after.wf_contexts()) by {
                assert forall|x: int| after.waiting(x) implies self.waiting(x) && x != p by {
                    if x != 0 {
                        let i = choose|i: int| 0 <= i < after.chain.len() && after.chain[i] == x;
                        assert(after.chain[i] == self.chain[i]);
                        assert(self.chain[i] != self.chain[self.chain.len() - 1]);
                    }
                }
                assert forall|x: int|
                    after.contains(x) && after.unsaved != Some(x) && (after.state_of(x).is_resumable()
                        || after.waiting(x)) implies (#[trigger] after.get(x)).context is Some by {
                    assert(x != c);
                    if x == p {
                        assert(self.state_of(p) == State::Normal);
                    } else {
                        assert(self.get(x).context is Some);
                    }
                }
            }
        }
    }

    /// The end of a body leaves the coroutine in its terminal state, and the
    /// payload of a panic with it.
    pub proof fn lemma_complete_wf(self, outcome: Outcome)
        requires
            self.wf(),
            self.settled(),
            self.chain.len() > 0,
        ensures
            self.after_complete(outcome).wf(),
            self.after_complete(outcome).returning == Some(self.current()),
            self.after_complete(outcome).state_of(self.current()) == outcome.state(),
            self.after_complete(outcome).resume_result == outcome.payload(),
            self.after_complete(outcome).current() == self.resumer(),
            self.get(self.resumer()).context is Some,
            forall|x: int| self.contains(x) <==> self.after_complete(outcome).contains(x),
    {
        self.lemma_yield_wf(outcome.state());
        let quiet = self.after_yield(outcome.state());
        let after = self.after_complete(outcome);
        assert(after == Scheduler { resume_result: outcome.payload(), ..quiet });
        quiet.lemma_frame(after);
        quiet.lemma_stacks_frame(after);
    }

    /// Destroying a coroutine that takes no part in the outstanding resumes
    /// frees its stack and disturbs no other coroutine.
    pub proof fn lemma_release_wf(self, id: int)
        requires
            self.wf(),
            self.contains(id),
            id != 0,
            !self.active(id),
        ensures
            self.after_release(id).wf(),
            !self.after_release(id).contains(id),
            forall|x: int|
                x != id && self.contains(x) ==> self.after_release(id).contains(x)
                    && self.after_release(id).get(x) == self.get(x),
    {
        let after = self.after_release(id);
        self.lemma_current();
        assert forall|x: int| x != id && self.contains(x) implies after.contains(x) && after.get(x)
            == self.get(x) by {}
        assert forall|i: int| 0 <= i < self.chain.len() implies self.chain[i] != id by {
            assert(self.chain.contains(self.chain[i]));
        }
        assert(after.current() == self.current());
        assert(after.current() != id);
        assert(after.wf_chain()) by {
            assert forall|i: int| 0 <= i < after.chain.len() implies
                after.contains(#[trigger] after.chain[i]) && after.chain[i] != 0 by {
                assert(self.contains(self.chain[i]));
            }
        }
        assert(after.wf_states()) by {
            match self.returning {
                None => {
                    assert forall|x: int| after.contains(x) && x != after.current() implies
                        #[trigger] after.state_of(x) != State::Running by {
                        assert(self.state_of(x) != State::Running);
                    }
                    assert forall|i: int| 0 <= i < after.chain.len() - 1 implies
                        after.state_of(#[trigger] after.chain[i]) == State::Normal by {
                        assert(self.state_of(self.chain[i]) == State::Normal);
                    }
                },
                Some(c) => {
                    assert forall|x: int| after.contains(x) implies
                        #[trigger] after.state_of(x) != State::Running by {
                        assert(self.state_of(x) != State::Running);
                    }
                    assert forall|i: int| 0 <= i < after.chain.len() implies
                        after.state_of(#[trigger] after.chain[i]) == State::Normal by {
                        assert(self.state_of(self.chain[i]) == State::Normal);
                    }
                },
            }
        }
        assert(after.wf_stacks()) by {
            match self.get(id).stack {
                Some(stack) => {
                    assert(self.owns_stack(id, stack.id));
                    self.pool.lemma_give(stack);
                    assert forall|x: int, sid: u64| #[trigger] after.owns_stack(x, sid) implies sid
                        < after.pool.allocated && !after.pool.holds(sid) by {
                        assert(self.owns_stack(x, sid));
                        if sid == stack.id {
                            assert(x == id);
                        }
                    }
                },
                None => {
                    assert forall|x: int, sid: u64| #[trigger] after.owns_stack(x, sid) implies sid
                        < after.pool.allocated && !after.pool.holds(sid) by {
                        assert(self.owns_stack(x, sid));
                    }
                },
            }
            assert forall|a: int, b: int, sid: u64| #[trigger]
                after.owns_stack(a, sid) && #[trigger] after.owns_stack(b, sid) implies a == b by {
                assert(self.owns_stack(a, sid) && self.owns_stack(b, sid));
            }
        }
        assert(after.wf_contexts()) by {
            assert forall|x: int| after.waiting(x) == self.waiting(x) by {}
            assert forall|x: int|
                after.contains(x) && after.unsaved != Some(x) && (after.state_of(x).is_resumable()
                    || after.waiting(x)) implies (#[trigger] after.get(x)).context is Some by {
                assert(self.get(x).context is Some);
            }
            assert forall|x: int| after.contains(x) && after.state_of(x) == State::Running implies
                (#[trigger] after.get(x)).context is None by {
                assert(self.get(x).context is None);
            }
        }
    }
}

} // verus!
