//! Coroutines, the handles that own them, and the environment that keeps
//! track of who resumed whom.
//!
//! Nothing here leaves one machine stack for another. Where that is due,
//! the operation returns the [`Transfer`] to perform together with the saved
//! execution point to continue at. The caller performs the transfer, and
//! whoever gets control hands in the execution point of the coroutine that
//! was left: the target of a resume with [`Coroutine::save_context`], the
//! resumer of a coroutine that yielded with [`Handle::resumed`].
//!
//! The type `C` of an execution point is left open; the environment keeps
//! such values and never looks inside. What the environment stands for at
//! any moment is its view, a [`Scheduler`].
//!
//! One resume that is answered by a yield goes like this, with `R` the
//! resumer and `T` the target:
//!
//! ```text
//! R:  target.resume(env)            -> Switch(R -> T, point of T)
//! R:  leaves its stack for the point of T
//! T:  Coroutine::save_context(env, point of R)
//! T:  runs, then Coroutine::sched(env)
//!                                   -> Some((T -> R, point of R))
//! T:  leaves its stack for the point of R
//! R:  target.resumed(env, point of T)
//!                                   -> Ok(Suspended)
//! ```

use vstd::prelude::*;
use vstd::string::*;
use crate::error::{Error, Payload};
use crate::options::Options;
use crate::scheduler::{CoroutineView, Outcome, Resumption, Scheduler, Transfer};
use crate::stack::{Stack, StackError, StackPool};
use crate::state::State;

verus! {

/// A coroutine: the stack it runs on, the point at which its execution goes
/// on, its state and its name.
#[derive(Debug)]
pub struct Coroutine<C> {
    /// The stack on which the coroutine runs or will run again.
    current_stack_segment: Option<Stack>,
    /// Present whenever the coroutine can be given control.
    saved_context: Option<C>,
    state: State,
    name: Option<String>,
}

impl<C> View for Coroutine<C> {
    type V = CoroutineView<C>;

    closed spec fn view(&self) -> CoroutineView<C> {
        CoroutineView {
            stack: match self.current_stack_segment {
                Some(s) => Some(s@),
                None => None,
            },
            context: self.saved_context,
            state: self.state,
            name: match self.name {
                Some(s) => Some(s@),
                None => None,
            },
        }
    }
}

/// The owner of one coroutine of an [`Environment`].
#[derive(Debug)]
pub struct Handle {
    id: usize,
}

impl View for Handle {
    type V = int;

    /// The number of the coroutine.
    closed spec fn view(&self) -> int {
        self.id as int
    }
}

/// What a join does after a resume has returned.
#[derive(Debug, PartialEq)]
pub enum Joining {
    /// The coroutine has not finished: resume it once more.
    Again,
    /// The join is over with this result.
    Done(Result<State, Error>),
}

/// What a join makes of the result of one resume: a finished coroutine ends
/// it with success, an error other than `Finished` ends it with that error,
/// and anything else calls for another resume.
pub open spec fn join_verdict(resumed: Result<State, Error>) -> Joining {
    match resumed {
        Ok(State::Finished) => Joining::Done(Ok(State::Finished)),
        Ok(_) => Joining::Again,
        Err(Error::Finished) => Joining::Done(Ok(State::Finished)),
        Err(err) => Joining::Done(Err(err)),
    }
}

/// The line that reports the panic of a coroutine with the given name.
pub open spec fn panic_report_text(name: Option<Seq<char>>, payload: Payload) -> Seq<char> {
    "Coroutine '"@ + (match name {
        Some(n) => n,
        None => "<unnamed>"@,
    }) + "' panicked at '"@ + payload.text() + "'"@
}

/// The scheduling state of one thread: its coroutines, the chain of
/// outstanding resumes, the free stacks and the payload of the last panic.
///
/// Every coroutine has a number. The number of a coroutine that was
/// destroyed is given to the next one that is registered.
pub struct Environment<C> {
    coroutines: Vec<Option<Coroutine<C>>>,
    vacant: Vec<usize>,
    chain: Vec<Handle>,
    root: Handle,
    pool: StackPool,
    resume_result: Option<Payload>,
    returning: Option<usize>,
    unsaved: Option<usize>,
}

impl<C> View for Environment<C> {
    type V = Scheduler<C>;

    closed spec fn view(&self) -> Scheduler<C> {
        Scheduler {
            coroutines: Seq::new(
                self.coroutines@.len(),
                |i: int|
                    match self.coroutines@[i] {
                        Some(c) => Some(c@),
                        None => None,
                    },
            ),
            vacant: Seq::new(self.vacant@.len(), |i: int| self.vacant@[i] as int),
            chain: Seq::new(self.chain@.len(), |i: int| self.chain@[i].id as int),
            pool: self.pool@,
            resume_result: self.resume_result,
            returning: match self.returning {
                Some(r) => Some(r as int),
                None => None,
            },
            unsaved: match self.unsaved {
                Some(u) => Some(u as int),
                None => None,
            },
        }
    }
}

impl<C> Environment<C> {
    /// The environment is a well-formed scheduler.
    pub closed spec fn wf(&self) -> bool {
        &&& self.root.id == 0
        &&& self@.wf()
    }

    /// A well-formed environment stands for a well-formed scheduler.
    pub proof fn lemma_view_wf(&self)
        requires
            self.wf(),
        ensures
            self@.wf(),
    {
    }

    /// The environment of a thread that has not spawned anything: only the
    /// root exists, and it is running.
    pub fn new() -> (env: Environment<C>)
        ensures
            env.wf(),
            env@ == Scheduler::<C>::initial(),
    {
        let root = Coroutine {
            current_stack_segment: None,
            saved_context: None,
            state: State::Running,
            name: Some(String::from_str("<Environment Root Coroutine>")),
        };
        let mut coroutines: Vec<Option<Coroutine<C>>> = Vec::new();
        coroutines.push(Some(root));
        let env = Environment {
            coroutines: coroutines,
            vacant: Vec::new(),
            chain: Vec::new(),
            root: Handle { id: 0 },
            pool: StackPool::new(),
            resume_result: None,
            returning: None,
            unsaved: None,
        };
        proof {
            assert(env@.coroutines =~= Scheduler::<C>::initial().coroutines);
            assert(env@.vacant =~= Scheduler::<C>::initial().vacant);
            assert(env@.chain =~= Scheduler::<C>::initial().chain);
            Scheduler::<C>::lemma_initial_wf();
        }
        env
    }

    /// How many resumes are outstanding.
    pub fn depth(&self) -> (n: usize)
        ensures
            n == self@.chain.len(),
    {
        self.chain.len()
    }

    /// How many stacks were made so far, as opposed to reused.
    pub fn allocations(&self) -> (n: u64)
        ensures
            n == self@.pool.allocated,
    {
        self.pool.allocations()
    }

    /// How many stacks are free.
    pub fn free_stacks(&self) -> (n: usize)
        ensures
            n == self@.pool.stacks.len(),
    {
        self.pool.free()
    }

    /// Whether no transfer of control is under way and every execution
    /// point is saved.
    pub fn is_settled(&self) -> (r: bool)
        ensures
            r == self@.settled(),
    {
        self.returning.is_none() && self.unsaved.is_none()
    }

    /// Whether an execution point is yet to be saved with
    /// [`Coroutine::save_context`].
    pub fn awaits_context(&self) -> (r: bool)
        ensures
            r == (self@.unsaved is Some && self@.returning is None),
    {
        self.unsaved.is_some() && self.returning.is_none()
    }

    /// Whether `handle` is the coroutine that has just given up control and
    /// whose resumer has not taken over yet.
    pub fn is_returning(&self, handle: &Handle) -> (r: bool)
        ensures
            r == (self@.returning == Some(handle@)),
    {
        match self.returning {
            Some(c) => c == handle.id,
            None => false,
        }
    }

    /// Whether `handle` names a living coroutine of this environment.
    pub fn contains(&self, handle: &Handle) -> (r: bool)
        ensures
            r == self@.contains(handle@),
    {
        handle.id < self.coroutines.len() && self.coroutines[handle.id].is_some()
    }

    /// Whether the coroutine takes part in what is going on: it is on the
    /// chain of outstanding resumes, is just handing control back, or has an
    /// execution point that is yet to be saved.
    pub fn is_active(&self, handle: &Handle) -> (r: bool)
        ensures
            r == self@.active(handle@),
    {
        if self.is_returning(handle) {
            return true;
        }
        match self.unsaved {
            Some(u) => {
                if u == handle.id {
                    return true;
                }
            },
            None => {},
        }
        let mut i: usize = 0;
        while i < self.chain.len()
            invariant
                i <= self.chain@.len(),
                forall|j: int| 0 <= j < i ==> self@.chain[j] != handle@,
            decreases self.chain@.len() - i,
        {
            if self.chain[i].id == handle.id {
                assert(self@.chain[i as int] == handle@);
                return true;
            }
            i = i + 1;
        }
        false
    }

    /// The coroutine that `handle` owns.
    pub fn coroutine(&self, handle: &Handle) -> (c: &Coroutine<C>)
        requires
            self@.contains(handle@),
        ensures
            c@ == self@.get(handle@),
    {
        self.coroutines[handle.id].as_ref().unwrap()
    }

    /// The handle of the coroutine that is executing: the innermost of the
    /// chain, or the root where nothing has been resumed.
    pub fn running(&self) -> (handle: &Handle)
        requires
            self.wf(),
        ensures
            handle@ == self@.current(),
            self@.contains(handle@),
    {
        let n = self.chain.len();
        if n == 0 {
            &self.root
        } else {
            proof {
                assert(self@.contains(self@.chain[n - 1]));
            }
            &self.chain[n - 1]
        }
    }

    /// Whether the stack was handed out by the pool and is neither free nor
    /// attached to a coroutine.
    pub fn is_outstanding(&self, stack: &Stack) -> (r: bool)
        ensures
            r == self@.outstanding(stack@),
    {
        if stack.id() >= self.pool.allocations() || self.pool.holds(stack.id()) {
            return false;
        }
        let mut i: usize = 0;
        while i < self.coroutines.len()
            invariant
                i <= self.coroutines@.len(),
                forall|j: int| 0 <= j < i ==> !#[trigger] self@.owns_stack(j, stack@.id),
            decreases self.coroutines@.len() - i,
        {
            match &self.coroutines[i] {
                Some(c) => {
                    match &c.current_stack_segment {
                        Some(s) => {
                            if s.id() == stack.id() {
                                assert(self@.owns_stack(i as int, stack@.id));
                                return false;
                            }
                        },
                        None => {},
                    }
                },
                None => {},
            }
            i = i + 1;
        }
        proof {
            assert forall|id: int| !#[trigger] self@.owns_stack(id, stack@.id) by {
                if 0 <= id < self.coroutines@.len() {
                    assert(!self@.owns_stack(id, stack@.id));
                }
            }
        }
        true
    }

    /// Takes a stack of at least `size` bytes from the pool, which makes a
    /// new one only where no free stack is large enough. Only the making of
    /// a new one can fail; the environment is then as it was.
    pub fn take_stack(&mut self, size: usize) -> (r: Result<Stack, StackError>)
        requires
            old(self).wf(),
            old(self)@.pool.allocated < u64::MAX,
        ensures
            final(self).wf(),
            old(self)@.pool.has_fit(size) ==> r is Ok,
            r matches Ok(stack) ==> final(self)@ == old(self)@.after_take_stack(size) && stack@ == old(
                self,
            )@.pool.taken(size) && stack@.size >= size && final(self)@.outstanding(stack@),
            r is Err ==> final(self)@ == old(self)@,
    {
        proof {
            self@.lemma_take_stack_wf(size);
        }
        let r = self.pool.take_stack(size);
        proof {
            assert(self@.coroutines =~= old(self)@.coroutines);
            assert(self@.chain =~= old(self)@.chain);
            assert(self@.vacant =~= old(self)@.vacant);
        }
        r
    }

    /// Returns a stack to the pool.
    pub fn give_stack(&mut self, stack: Stack)
        requires
            old(self).wf(),
            old(self)@.outstanding(stack@),
        ensures
            final(self).wf(),
            final(self)@ == old(self)@.after_give_stack(stack@),
    {
        proof {
            self@.lemma_give_stack_wf(stack@);
        }
        self.pool.give_stack(stack);
        proof {
            assert(self@.coroutines =~= old(self)@.coroutines);
            assert(self@.chain =~= old(self)@.chain);
            assert(self@.vacant =~= old(self)@.vacant);
        }
    }

    /// Puts a coroutine under the next number.
    fn register(&mut self, c: Coroutine<C>) -> (id: usize)
        requires
            old(self)@.wf_vacant(),
        ensures
            id == old(self)@.next_number(),
            final(self)@.coroutines == old(self)@.after_adopt(c@).coroutines,
            final(self)@.vacant == old(self)@.after_adopt(c@).vacant,
            final(self)@.chain == old(self)@.chain,
            final(self).pool == old(self).pool,
            final(self).resume_result == old(self).resume_result,
            final(self).returning == old(self).returning,
            final(self).unsaved == old(self).unsaved,
            final(self).root == old(self).root,
    {
        match self.vacant.pop() {
            Some(id) => {
                proof {
                    let n = old(self)@.vacant.len() - 1;
                    assert(old(self)@.vacant[n] == id);
                }
                self.coroutines[id] = Some(c);
                proof {
                    assert(self@.coroutines =~= old(self)@.after_adopt(c@).coroutines);
                    assert(self@.vacant =~= old(self)@.after_adopt(c@).vacant);
                    assert(self@.chain =~= old(self)@.chain);
                }
                id
            },
            None => {
                let id = self.coroutines.len();
                self.coroutines.push(Some(c));
                proof {
                    assert(self@.coroutines =~= old(self)@.after_adopt(c@).coroutines);
                    assert(self@.vacant =~= old(self)@.after_adopt(c@).vacant);
                    assert(self@.chain =~= old(self)@.chain);
                }
                id
            },
        }
    }

    /// Registers a coroutine and hands out the handle that owns it.
    fn adopt(&mut self, c: Coroutine<C>) -> (handle: Handle)
        requires
            old(self).wf(),
            old(self)@.may_adopt(c@),
        ensures
            final(self).wf(),
            final(self)@ == old(self)@.after_adopt(c@),
            handle@ == old(self)@.next_number(),
            final(self)@.contains(handle@),
            final(self)@.get(handle@) == c@,
            !final(self)@.active(handle@),
            final(self).root == old(self).root,
    {
        proof {
            self@.lemma_adopt_wf(c@);
        }
        let id = self.register(c);
        Handle { id: id }
    }

    /// Replaces the state of one coroutine.
    fn set_state(&mut self, id: usize, state: State)
        requires
            old(self)@.contains(id as int),
        ensures
            final(self)@ == old(self)@.with_state(id as int, state),
            final(self).root == old(self).root,
    {
        match &mut self.coroutines[id] {
            Some(c) => {
                c.state = state;
            },
            None => {},
        }
        proof {
            assert(self@.coroutines =~= old(self)@.with_state(id as int, state).coroutines);
            assert(self@.chain =~= old(self)@.chain);
            assert(self@.vacant =~= old(self)@.vacant);
        }
    }

    /// Takes the saved execution point of one coroutine.
    fn take_context(&mut self, id: usize) -> (context: C)
        requires
            old(self)@.contains(id as int),
            old(self)@.get(id as int).context is Some,
        ensures
            final(self)@ == old(self)@.with_context(id as int, None),
            context == old(self)@.get(id as int).context->0,
            final(self).root == old(self).root,
    {
        let taken = match &mut self.coroutines[id] {
            Some(c) => c.saved_context.take(),
            None => None,
        };
        proof {
            assert(self@.coroutines =~= old(self)@.with_context(id as int, None).coroutines);
            assert(self@.chain =~= old(self)@.chain);
            assert(self@.vacant =~= old(self)@.vacant);
        }
        taken.unwrap()
    }

    /// Saves the execution point of one coroutine.
    fn put_context(&mut self, id: usize, context: C)
        requires
            old(self)@.contains(id as int),
        ensures
            final(self)@ == old(self)@.with_context(id as int, Some(context)),
            final(self).root == old(self).root,
    {
        match &mut self.coroutines[id] {
            Some(c) => {
                c.saved_context = Some(context);
            },
            None => {},
        }
        proof {
            assert(self@.coroutines =~= old(self)@.with_context(id as int, Some(context)).coroutines);
            assert(self@.chain =~= old(self)@.chain);
            assert(self@.vacant =~= old(self)@.vacant);
        }
    }
}

impl Handle {
    /// The number of the coroutine within its environment.
    pub fn id(&self) -> (id: usize)
        ensures
            id == self@,
    {
        self.id
    }

    /// The state of the coroutine.
    pub fn state<C>(&self, env: &Environment<C>) -> (state: State)
        requires
            env@.contains(self@),
        ensures
            state == env@.state_of(self@),
    {
        env.coroutine(self).state()
    }

    /// Begins a resume of the coroutine.
    ///
    /// A coroutine that is `Finished`, `Panicked` or `Normal` is refused with
    /// the error `Finished`, `Panicked` or `Waiting`, and one that is
    /// `Running` is answered with `Ok(Running)`; none of these changes
    /// anything. A `Suspended` or `Blocked` coroutine takes over: the caller
    /// becomes `Normal`, the target `Running` and the innermost of the chain,
    /// and the transfer from the one to the other is returned with the saved
    /// execution point of the target. The target then saves the execution
    /// point of the caller with [`Coroutine::save_context`]. When control has
    /// come back to the caller, [`Handle::resumed`] yields the result of the
    /// resume.
    pub fn resume<C>(&self, env: &mut Environment<C>) -> (r: Resumption<C>)
        requires
            old(env).wf(),
            old(env)@.settled(),
            old(env)@.contains(self@),
        ensures
            final(env).wf(),
            final(env)@ == old(env)@.after_resume(self@),
            r == old(env)@.resumption(self@),
    {
        proof {
            env@.lemma_resume_wf(self@);
        }
        match self.state(env) {
            State::Finished => Resumption::Done(Err(Error::Finished)),
            State::Panicked => Resumption::Done(Err(Error::Panicked)),
            State::Normal => Resumption::Done(Err(Error::Waiting)),
            State::Running => Resumption::Done(Ok(State::Running)),
            _ => {
                let from = env.running().id;
                let context = env.take_context(self.id);
                env.set_state(self.id, State::Running);
                env.set_state(from, State::Normal);
                env.chain.push(Handle { id: self.id });
                env.unsaved = Some(from);
                proof {
                    assert(env@.coroutines =~= old(env)@.after_resume(self@).coroutines);
                    assert(env@.chain =~= old(env)@.after_resume(self@).chain);
                    assert(env@.vacant =~= old(env)@.after_resume(self@).vacant);
                }
                Resumption::Switch(Transfer { from: from, to: self.id }, context)
            },
        }
    }

    /// Ends a resume of the coroutine once it has handed control back.
    ///
    /// The execution point at which the coroutine gave up control is saved,
    /// and the resumer is `Running` again. If the coroutine left the payload
    /// of a panic, that payload is consumed and returned as the error
    /// `Panicking`; otherwise the result is the state in which the coroutine
    /// gave up control.
    pub fn resumed<C>(&self, env: &mut Environment<C>, context: C) -> (r: Result<State, Error>)
        requires
            old(env).wf(),
            old(env)@.returning == Some(self@),
        ensures
            final(env).wf(),
            final(env)@ == old(env)@.after_resumed(context),
            r == old(env)@.resumed_result(self@),
    {
        proof {
            env@.lemma_resumed_wf(context);
        }
        let from = env.running().id;
        env.put_context(self.id, context);
        env.set_state(from, State::Running);
        env.returning = None;
        env.unsaved = None;
        let result = env.resume_result.take();
        proof {
            assert(env@.coroutines =~= old(env)@.after_resumed(context).coroutines);
            assert(env@.chain =~= old(env)@.after_resumed(context).chain);
            assert(env@.vacant =~= old(env)@.after_resumed(context).vacant);
        }
        match result {
            Some(payload) => Err(Error::Panicking(payload)),
            None => Ok(self.state(env)),
        }
    }

    /// Decides, from what a resume of the coroutine has returned, whether a
    /// join is over: it ends with `Ok(Finished)` once the coroutine is
    /// finished, ends with the error where the resume failed otherwise, and
    /// asks for another resume in every other case.
    pub fn join(&self, resumed: Result<State, Error>) -> (j: Joining)
        ensures
            j == join_verdict(resumed),
    {
        match resumed {
            Ok(State::Finished) => Joining::Done(Ok(State::Finished)),
            Ok(_) => Joining::Again,
            Err(Error::Finished) => Joining::Done(Ok(State::Finished)),
            Err(err) => Joining::Done(Err(err)),
        }
    }

    /// Destroys the coroutine; the stack it ran on, if any, is free again.
    pub fn release<C>(self, env: &mut Environment<C>)
        requires
            old(env).wf(),
            old(env)@.contains(self@),
            self@ != 0,
            !old(env)@.active(self@),
        ensures
            final(env).wf(),
            final(env)@ == old(env)@.after_release(self@),
    {
        proof {
            env@.lemma_release_wf(self@);
        }
        let gone = env.coroutines[self.id].take();
        env.vacant.push(self.id);
        match gone {
            Some(c) => {
                match c.current_stack_segment {
                    Some(stack) => {
                        env.pool.give_stack(stack);
                    },
                    None => {},
                }
            },
            None => {},
        }
        proof {
            assert(env@.coroutines =~= old(env)@.after_release(self@).coroutines);
            assert(env@.chain =~= old(env)@.after_release(self@).chain);
            assert(env@.vacant =~= old(env)@.after_release(self@).vacant);
        }
    }
}

impl<C> Coroutine<C> {
    /// Registers a coroutine without a stack and without an execution point.
    /// It can never be given control, so it may not be in a state from which
    /// it would be resumed.
    pub fn empty(env: &mut Environment<C>, name: Option<String>, state: State) -> (handle: Handle)
        requires
            old(env).wf(),
            state != State::Running,
            !state.is_resumable(),
        ensures
            final(env).wf(),
            final(env)@ == old(env)@.after_adopt(
                CoroutineView { stack: None, context: None, state: state, name: name_view(name) },
            ),
            handle@ == old(env)@.next_number(),
            final(env)@.contains(handle@),
            !final(env)@.active(handle@),
    {
        env.adopt(
            Coroutine { current_stack_segment: None, saved_context: None, state: state, name: name },
        )
    }

    /// Registers a coroutine that runs on `stack` and whose execution goes on
    /// at `context`.
    pub fn new(
        env: &mut Environment<C>,
        name: Option<String>,
        stack: Stack,
        context: C,
        state: State,
    ) -> (handle: Handle)
        requires
            old(env).wf(),
            state != State::Running,
            old(env)@.outstanding(stack@),
        ensures
            final(env).wf(),
            final(env)@ == old(env)@.after_adopt(
                CoroutineView {
                    stack: Some(stack@),
                    context: Some(context),
                    state: state,
                    name: name_view(name),
                },
            ),
            handle@ == old(env)@.next_number(),
            final(env)@.contains(handle@),
            !final(env)@.active(handle@),
    {
        env.adopt(
            Coroutine {
                current_stack_segment: Some(stack),
                saved_context: Some(context),
                state: state,
                name: name,
            },
        )
    }

    /// Spawns a coroutine with options: it gets a stack of at least the size
    /// asked for, reused where the pool has one, and starts out `Suspended`.
    /// The point at which its execution begins is built on that stack by the
    /// caller and handed in with [`Coroutine::save_context`].
    ///
    /// The spawn succeeds where a free stack fits. Where a new stack has to
    /// be made and the machine refuses it, the spawn fails and nothing has
    /// changed.
    pub fn spawn_opts(env: &mut Environment<C>, opts: Options) -> (r: Result<Handle, StackError>)
        requires
            old(env).wf(),
            old(env)@.settled(),
            old(env)@.pool.allocated < u64::MAX,
        ensures
            final(env).wf(),
            old(env)@.pool.has_fit(opts.stack_size) ==> r is Ok,
            r matches Ok(handle) ==> {
                &&& final(env)@ == old(env)@.after_spawn(name_view(opts.name), opts.stack_size)
                &&& handle@ == old(env)@.next_number()
                &&& final(env)@.contains(handle@)
                &&& final(env)@.state_of(handle@) == State::Suspended
                &&& final(env)@.unsaved == Some(handle@)
            },
            r is Err ==> final(env)@ == old(env)@,
    {
        proof {
            env@.lemma_spawn_wf(name_view(opts.name), opts.stack_size);
        }
        let ghost before = env@;
        match env.pool.take_stack(opts.stack_size) {
            Ok(stack) => {
                proof {
                    assert(env@.vacant =~= before.vacant);
                }
                let id = env.register(
                    Coroutine {
                        current_stack_segment: Some(stack),
                        saved_context: None,
                        state: State::Suspended,
                        name: opts.name,
                    },
                );
                env.unsaved = Some(id);
                proof {
                    let after = before.after_spawn(name_view(opts.name), opts.stack_size);
                    assert(env@.coroutines =~= after.coroutines);
                    assert(env@.vacant =~= after.vacant);
                    assert(env@.chain =~= after.chain);
                }
                Ok(Handle { id: id })
            },
            Err(e) => {
                proof {
                    assert(env@.coroutines =~= before.coroutines);
                    assert(env@.vacant =~= before.vacant);
                    assert(env@.chain =~= before.chain);
                }
                Err(e)
            },
        }
    }

    /// Spawns a coroutine with the default options.
    pub fn spawn(env: &mut Environment<C>) -> (r: Result<Handle, StackError>)
        requires
            old(env).wf(),
            old(env)@.settled(),
            old(env)@.pool.allocated < u64::MAX,
        ensures
            final(env).wf(),
            old(env)@.pool.has_fit(crate::options::DEFAULT_STACK_SIZE) ==> r is Ok,
            r matches Ok(handle) ==> {
                &&& final(env)@ == old(env)@.after_spawn(None, crate::options::DEFAULT_STACK_SIZE)
                &&& handle@ == old(env)@.next_number()
                &&& final(env)@.contains(handle@)
                &&& final(env)@.state_of(handle@) == State::Suspended
                &&& final(env)@.unsaved == Some(handle@)
            },
            r is Err ==> final(env)@ == old(env)@,
    {
        Coroutine::spawn_opts(env, Options::new())
    }

    /// Saves the execution point that is yet to be saved: that of the
    /// coroutine which has just resumed the one now running, or the first one
    /// of a coroutine that was spawned a moment ago.
    pub fn save_context(env: &mut Environment<C>, context: C)
        requires
            old(env).wf(),
            old(env)@.unsaved is Some,
            old(env)@.returning is None,
        ensures
            final(env).wf(),
            final(env)@ == old(env)@.after_save(context),
            final(env)@.settled(),
    {
        proof {
            env@.lemma_save_wf(context);
        }
        match env.unsaved {
            Some(id) => {
                env.put_context(id, context);
                env.unsaved = None;
            },
            None => {},
        }
        proof {
            assert(env@.coroutines =~= old(env)@.after_save(context).coroutines);
            assert(env@.chain =~= old(env)@.after_save(context).chain);
            assert(env@.vacant =~= old(env)@.after_save(context).vacant);
        }
    }

    /// Takes the innermost coroutine off the chain in the given state and says
    /// where control goes; the root stays where it is.
    fn try_switch(env: &mut Environment<C>, state: State) -> (t: Option<(Transfer, C)>)
        requires
            old(env).root.id == 0,
            old(env)@.wf_chain(),
            old(env)@.contains(0),
            old(env)@.chain.len() > 0 ==> old(env)@.get(old(env)@.resumer()).context is Some,
        ensures
            final(env)@ == old(env)@.after_yield(state),
            t == old(env)@.yield_transfer(),
            final(env).root == old(env).root,
    {
        match env.chain.pop() {
            Some(from) => {
                let ghost n = old(env)@.chain.len() - 1;
                proof {
                    assert(old(env)@.chain[n] == from@);
                    assert(old(env)@.contains(old(env)@.chain[n]));
                    assert(env@.chain =~= old(env)@.chain.drop_last());
                    assert(env@.vacant =~= old(env)@.vacant);
                }
                let len = env.chain.len();
                let to = if len == 0 {
                    env.root.id
                } else {
                    proof {
                        assert(env@.chain[len - 1] == old(env)@.chain[len - 1]);
                        assert(old(env)@.contains(old(env)@.chain[len - 1]));
                    }
                    env.chain[len - 1].id
                };
                assert(to == old(env)@.resumer());
                env.set_state(from.id, state);
                let context = env.take_context(to);
                env.returning = Some(from.id);
                env.unsaved = Some(from.id);
                proof {
                    assert(env@.coroutines =~= old(env)@.after_yield(state).coroutines);
                    assert(env@.chain =~= old(env)@.after_yield(state).chain);
                    assert(env@.vacant =~= old(env)@.after_yield(state).vacant);
                }
                Some((Transfer { from: from.id, to: to }, context))
            },
            None => {
                proof {
                    assert(env@.coroutines =~= old(env)@.coroutines);
                    assert(env@.chain =~= old(env)@.chain);
                    assert(env@.vacant =~= old(env)@.vacant);
                }
                None
            },
        }
    }

    /// Yields the running coroutine to its resumer in the given state, which
    /// must not be `Running`. The result is the transfer to perform and the
    /// saved execution point of the resumer; the root has nobody to yield to,
    /// so for it nothing happens.
    pub fn yield_now(env: &mut Environment<C>, state: State) -> (t: Option<(Transfer, C)>)
        requires
            old(env).wf(),
            old(env)@.settled(),
            state != State::Running,
        ensures
            final(env).wf(),
            final(env)@ == old(env)@.after_yield(state),
            t == old(env)@.yield_transfer(),
    {
        proof {
            env@.lemma_yield_wf(state);
        }
        Coroutine::try_switch(env, state)
    }

    /// Yields the running coroutine as `Suspended`.
    pub fn sched(env: &mut Environment<C>) -> (t: Option<(Transfer, C)>)
        requires
            old(env).wf(),
            old(env)@.settled(),
        ensures
            final(env).wf(),
            final(env)@ == old(env)@.after_yield(State::Suspended),
            t == old(env)@.yield_transfer(),
    {
        Coroutine::yield_now(env, State::Suspended)
    }

    /// Yields the running coroutine as `Blocked`.
    pub fn block(env: &mut Environment<C>) -> (t: Option<(Transfer, C)>)
        requires
            old(env).wf(),
            old(env)@.settled(),
        ensures
            final(env).wf(),
            final(env)@ == old(env)@.after_yield(State::Blocked),
            t == old(env)@.yield_transfer(),
    {
        Coroutine::yield_now(env, State::Blocked)
    }

    /// Records how the body of the running coroutine has ended and yields for
    /// good: after a return nothing is left for the resumer and the state is
    /// `Finished`; after a panic the payload is left and the state is
    /// `Panicked`. The result is the transfer to perform and the saved
    /// execution point of the resumer.
    pub fn complete(env: &mut Environment<C>, outcome: Outcome) -> (t: (Transfer, C))
        requires
            old(env).wf(),
            old(env)@.settled(),
            old(env)@.chain.len() > 0,
        ensures
            final(env).wf(),
            final(env)@ == old(env)@.after_complete(outcome),
            Some(t) == old(env)@.yield_transfer(),
    {
        proof {
            env@.lemma_complete_wf(outcome);
        }
        let state = match outcome {
            Outcome::Returned => {
                env.resume_result = None;
                State::Finished
            },
            Outcome::Panicked(payload) => {
                env.resume_result = Some(payload);
                State::Panicked
            },
        };
        proof {
            assert(env@.coroutines =~= old(env)@.coroutines);
            assert(env@.chain =~= old(env)@.chain);
            assert(env@.vacant =~= old(env)@.vacant);
        }
        Coroutine::try_switch(env, state).unwrap()
    }

    /// The handle of the coroutine that is executing.
    pub fn current(env: &Environment<C>) -> (handle: &Handle)
        requires
            env.wf(),
        ensures
            handle@ == env@.current(),
            env@.contains(handle@),
    {
        env.running()
    }

    /// The state of the coroutine.
    pub fn state(&self) -> (state: State)
        ensures
            state == self@.state,
    {
        self.state
    }

    /// The stack on which the coroutine runs; the root has none.
    pub fn stack(&self) -> (stack: Option<&Stack>)
        ensures
            stack is Some == self@.stack is Some,
            stack is Some ==> stack->0@ == self@.stack->0,
    {
        self.current_stack_segment.as_ref()
    }

    /// Whether an execution point is saved for the coroutine.
    pub fn has_context(&self) -> (r: bool)
        ensures
            r == self@.context is Some,
    {
        self.saved_context.is_some()
    }

    /// The name of the coroutine.
    pub fn name(&self) -> (name: Option<&str>)
        ensures
            name is Some == self@.name is Some,
            name is Some ==> name->0@ == self@.name->0,
    {
        match &self.name {
            Some(s) => Some(s.as_str()),
            None => None,
        }
    }

    /// Whether the coroutine has panicked.
    pub fn panicking(&self) -> (r: bool)
        ensures
            r == (self@.state == State::Panicked),
    {
        self.state == State::Panicked
    }

    /// Whether the coroutine has finished.
    pub fn finished(&self) -> (r: bool)
        ensures
            r == (self@.state == State::Finished),
    {
        self.state == State::Finished
    }

    /// The line that reports a panic of this coroutine: its name, or
    /// `<unnamed>`, and the message of the panic.
    pub fn panic_report(&self, payload: &Payload) -> (line: String)
        ensures
            line@ == panic_report_text(self@.name, *payload),
    {
        let mut line = String::from_str("Coroutine '");
        match self.name() {
            Some(n) => line.append(n),
            None => line.append("<unnamed>"),
        }
        line.append("' panicked at '");
        line.append(payload.message());
        line.append("'");
        line
    }
}

/// The name of a coroutine as a sequence of characters.
pub open spec fn name_view(name: Option<String>) -> Option<Seq<char>> {
    match name {
        Some(s) => Some(s@),
        None => None,
    }
}

} // verus!
