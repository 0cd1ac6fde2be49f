//! What holds of the scheduler in every state it can reach.

use vstd::prelude::*;
use crate::coroutine::{Joining, join_verdict};
use crate::error::{Error, Payload};
use crate::scheduler::{Outcome, Resumption, Scheduler, Step, Transfer};
use crate::state::State;

verus! {

/// Every operation that may be carried out keeps the scheduler well formed.
pub proof fn lemma_step_keeps_wf<C>(m: Scheduler<C>, step: Step<C>)
    requires
        m.wf(),
        m.enabled(step),
    ensures
        m.next(step).wf(),
{
    match step {
        Step::Adopt(c) => m.lemma_adopt_wf(c),
        Step::Spawn(name, size) => m.lemma_spawn_wf(name, size),
        Step::Save(context) => m.lemma_save_wf(context),
        Step::TakeStack(size) => m.lemma_take_stack_wf(size),
        Step::GiveStack(stack) => m.lemma_give_stack_wf(stack),
        Step::Resume(id) => m.lemma_resume_wf(id),
        Step::Resumed(context) => m.lemma_resumed_wf(context),
        Step::Yield(state) => m.lemma_yield_wf(state),
        Step::Complete(outcome) => m.lemma_complete_wf(outcome),
        Step::Release(id) => m.lemma_release_wf(id),
    }
}

/// Whatever is done to a fresh scheduler, it stays well formed.
pub proof fn lemma_reachable_is_wf<C>(steps: Seq<Step<C>>)
    requires
        Scheduler::<C>::initial().admits(steps),
    ensures
        Scheduler::<C>::initial().run(steps).wf(),
{
    Scheduler::<C>::lemma_initial_wf();
    lemma_run_keeps_wf(Scheduler::<C>::initial(), steps);
}

/// Whatever is done to a well-formed scheduler, it stays well formed.
pub proof fn lemma_run_keeps_wf<C>(m: Scheduler<C>, steps: Seq<Step<C>>)
    requires
        m.wf(),
        m.admits(steps),
    ensures
        m.run(steps).wf(),
    decreases steps.len(),
{
    if steps.len() > 0 {
        lemma_step_keeps_wf(m, steps[0]);
        lemma_run_keeps_wf(m.next(steps[0]), steps.drop_first());
    }
}

/// At most one coroutine is `Running`: the innermost of the chain, or the
/// root where nothing has been resumed. It has no saved execution point, for
/// it is at no point but the one it executes.
pub proof fn lemma_one_running<C>(m: Scheduler<C>, a: int, b: int)
    requires
        m.wf(),
        m.contains(a),
        m.contains(b),
        m.state_of(a) == State::Running,
        m.state_of(b) == State::Running,
    ensures
        a == b,
        a == m.current(),
        m.returning is None,
        m.get(a).context is None,
{
}

/// Unless a coroutine is just handing control back, exactly one coroutine
/// is `Running`: the one that is executing.
pub proof fn lemma_someone_is_running<C>(m: Scheduler<C>)
    requires
        m.wf(),
        m.returning is None,
    ensures
        m.contains(m.current()),
        m.state_of(m.current()) == State::Running,
        forall|id: int| m.contains(id) && m.state_of(id) == State::Running ==> id == m.current(),
{
    if m.chain.len() > 0 {
        assert(m.chain[m.chain.len() - 1] == m.current());
    }
}

/// Whoever can be given control has a saved execution point to continue
/// at: every coroutine that a resume would switch to, and the resumer of
/// the coroutine that is executing.
pub proof fn lemma_control_has_a_target<C>(m: Scheduler<C>, id: int)
    requires
        m.wf(),
        m.settled(),
        m.contains(id),
    ensures
        m.state_of(id).is_resumable() ==> m.get(id).context is Some,
        m.chain.len() > 0 ==> m.contains(m.resumer()) && m.get(m.resumer()).context is Some,
{
    m.lemma_yield_wf(State::Suspended);
}

/// The chain mirrors the nesting of the outstanding resumes: whoever waits on
/// it is `Normal`, and none of them can be resumed from outside.
pub proof fn lemma_waiting_is_refused<C>(m: Scheduler<C>, i: int)
    requires
        m.wf(),
        m.settled(),
        0 <= i < m.chain.len() - 1,
    ensures
        m.state_of(m.chain[i]) == State::Normal,
        m.resumption(m.chain[i]) == Resumption::<C>::Done(Err(Error::Waiting)),
        m.after_resume(m.chain[i]) == m,
{
}

/// A coroutine that has just been spawned is `Suspended`, and it stays so
/// whatever is done to the scheduler until it is resumed for the first time:
/// nothing else can start it.
pub proof fn lemma_spawned_is_suspended<C>(
    m: Scheduler<C>,
    name: Option<Seq<char>>,
    size: usize,
    steps: Seq<Step<C>>,
)
    requires
        m.wf(),
        m.settled(),
        m.pool.allocated < u64::MAX,
        m.after_spawn(name, size).admits(steps),
        !steps.contains(Step::Resume(m.next_number())),
        !steps.contains(Step::Release(m.next_number())),
    ensures
        m.after_spawn(name, size).state_of(m.next_number()) == State::Suspended,
        m.after_spawn(name, size).run(steps).contains(m.next_number()),
        m.after_spawn(name, size).run(steps).state_of(m.next_number()) == State::Suspended,
{
    let id = m.next_number();
    m.lemma_spawn_wf(name, size);
    lemma_idle_until_resumed(m.after_spawn(name, size), id, steps);
}

/// A coroutine that is not on the chain keeps its state and its stack
/// whatever is done to the scheduler, until it is resumed or destroyed.
pub proof fn lemma_idle_until_resumed<C>(m: Scheduler<C>, id: int, steps: Seq<Step<C>>)
    requires
        m.wf(),
        m.contains(id),
        id != 0,
        !m.chain.contains(id),
        m.admits(steps),
        !steps.contains(Step::Resume(id)),
        !steps.contains(Step::Release(id)),
    ensures
        m.run(steps).contains(id),
        m.run(steps).state_of(id) == m.state_of(id),
        m.run(steps).get(id).stack == m.get(id).stack,
        !m.run(steps).chain.contains(id),
    decreases steps.len(),
{
    if steps.len() > 0 {
        let step = steps[0];
        let rest = steps.drop_first();
        assert(steps.contains(step));
        lemma_step_keeps_wf(m, step);
        lemma_idle_state_is_kept(m, id, step);
        assert forall|s: Step<C>| rest.contains(s) implies steps.contains(s) by {
            let i = choose|i: int| 0 <= i < rest.len() && rest[i] == s;
            assert(steps[i + 1] == s);
        }
        lemma_idle_until_resumed(m.next(step), id, rest);
    }
}

/// A coroutine that is not on the chain keeps its state and its stack under
/// every operation but a resume of it or its destruction.
pub proof fn lemma_idle_state_is_kept<C>(m: Scheduler<C>, id: int, step: Step<C>)
    requires
        m.wf(),
        m.contains(id),
        id != 0,
        !m.chain.contains(id),
        m.enabled(step),
        step != Step::<C>::Resume(id),
        step != Step::<C>::Release(id),
    ensures
        m.next(step).contains(id),
        m.next(step).state_of(id) == m.state_of(id),
        m.next(step).get(id).stack == m.get(id).stack,
        !m.next(step).chain.contains(id),
{
    let after = m.next(step);
    assert(m.contains(m.current()));
    assert(m.current() != id) by {
        if m.chain.len() > 0 {
            assert(m.chain[m.chain.len() - 1] == m.current());
        }
    }
    match step {
        Step::Adopt(c) => {
            m.lemma_adopt_wf(c);
        },
        Step::Spawn(name, size) => {
            m.lemma_spawn_wf(name, size);
        },
        Step::Save(context) => {
            m.lemma_save_wf(context);
        },
        Step::TakeStack(size) => {},
        Step::GiveStack(stack) => {},
        Step::Resume(other) => {
            m.lemma_resume_wf(other);
            if m.state_of(other).is_resumable() {
                assert(after.get(id) == m.get(id));
                if after.chain.contains(id) {
                    let i = choose|i: int| 0 <= i < after.chain.len() && after.chain[i] == id;
                    if i < m.chain.len() {
                        assert(m.chain[i] == id);
                    }
                }
            }
        },
        Step::Resumed(context) => {
            m.lemma_resumed_wf(context);
        },
        Step::Yield(state) => {
            m.lemma_yield_wf(state);
            if m.chain.len() > 0 {
                if m.resumer() != 0 {
                    let i = m.chain.len() - 2;
                    assert(m.chain.drop_last()[i] == m.chain[i]);
                    assert(m.chain.contains(m.chain[i]));
                }
                assert(m.resumer() != id);
                assert(after.get(id) == m.get(id));
                if after.chain.contains(id) {
                    let i = choose|i: int| 0 <= i < after.chain.len() && after.chain[i] == id;
                    assert(m.chain[i] == id);
                }
            }
        },
        Step::Complete(outcome) => {
            m.lemma_complete_wf(outcome);
            if m.resumer() != 0 {
                let i = m.chain.len() - 2;
                assert(m.chain.drop_last()[i] == m.chain[i]);
                assert(m.chain.contains(m.chain[i]));
            }
            assert(m.resumer() != id);
            assert(after.get(id) == m.get(id));
            if after.chain.contains(id) {
                let i = choose|i: int| 0 <= i < after.chain.len() && after.chain[i] == id;
                assert(m.chain[i] == id);
            }
        },
        Step::Release(other) => {
            m.lemma_release_wf(other);
        },
    }
}

/// A coroutine that is `Finished` or `Panicked` is not on the chain.
pub proof fn lemma_terminal_is_idle<C>(m: Scheduler<C>, id: int)
    requires
        m.wf(),
        m.contains(id),
        m.state_of(id).is_terminal(),
    ensures
        !m.chain.contains(id),
        id != 0,
{
    if m.chain.contains(id) {
        let i = choose|i: int| 0 <= i < m.chain.len() && m.chain[i] == id;
        assert(m.state_of(m.chain[i]) == State::Normal || m.state_of(m.chain[i]) == State::Running);
    }
    assert(m.contains(m.current()));
}

/// A terminal state is never left: whatever is done to the scheduler, short
/// of destroying the coroutine, a `Finished` coroutine stays `Finished` and a
/// `Panicked` one stays `Panicked`.
pub proof fn lemma_terminal_is_final<C>(m: Scheduler<C>, id: int, steps: Seq<Step<C>>)
    requires
        m.wf(),
        m.contains(id),
        m.state_of(id).is_terminal(),
        m.admits(steps),
        !steps.contains(Step::Release(id)),
    ensures
        m.run(steps).contains(id),
        m.run(steps).state_of(id) == m.state_of(id),
    decreases steps.len(),
{
    if steps.len() > 0 {
        let step = steps[0];
        let rest = steps.drop_first();
        assert(steps.contains(step));
        assert(step != Step::<C>::Release(id));
        lemma_terminal_is_idle(m, id);
        lemma_step_keeps_wf(m, step);
        if step == Step::<C>::Resume(id) {
            assert(m.after_resume(id) == m);
        } else {
            lemma_idle_state_is_kept(m, id, step);
        }
        assert forall|s: Step<C>| rest.contains(s) implies steps.contains(s) by {
            let i = choose|i: int| 0 <= i < rest.len() && rest[i] == s;
            assert(steps[i + 1] == s);
        }
        lemma_terminal_is_final(m.next(step), id, rest);
    }
}

/// Resuming a finished coroutine fails with `Finished` and changes nothing,
/// however often it is done.
pub proof fn lemma_resume_finished_is_idempotent<C>(m: Scheduler<C>, id: int, n: nat)
    requires
        m.state_of(id) == State::Finished,
    ensures
        m.resumption(id) == Resumption::<C>::Done(Err(Error::Finished)),
        m.resume_times(id, n) == m,
    decreases n,
{
    if n > 0 {
        lemma_resume_finished_is_idempotent(m, id, (n - 1) as nat);
    }
}

/// Resuming a panicked coroutine fails with `Panicked`, carries no payload
/// and changes nothing, however often it is done.
pub proof fn lemma_resume_panicked_is_idempotent<C>(m: Scheduler<C>, id: int, n: nat)
    requires
        m.state_of(id) == State::Panicked,
    ensures
        m.resumption(id) == Resumption::<C>::Done(Err(Error::Panicked)),
        m.resume_times(id, n) == m,
    decreases n,
{
    if n > 0 {
        lemma_resume_panicked_is_idempotent(m, id, (n - 1) as nat);
    }
}

/// What a resume of `id` can return in the scheduler `m`, and the scheduler
/// in which it returns: either at once, without a transfer, or when control
/// has come back from the coroutine, which was left at `context`.
pub open spec fn resume_returns<C>(
    m: Scheduler<C>,
    id: int,
    context: C,
    result: Result<State, Error>,
    after: Scheduler<C>,
) -> bool {
    ||| m.settled() && m.contains(id) && m.resumption(id) == Resumption::<C>::Done(result) && after
        == m.after_resume(id)
    ||| m.returning == Some(id) && result == m.resumed_result(id) && after == m.after_resumed(context)
}

/// When a join ends with success, the coroutine is `Finished`.
pub proof fn lemma_join_success_is_finished<C>(
    m: Scheduler<C>,
    id: int,
    context: C,
    result: Result<State, Error>,
    after: Scheduler<C>,
)
    requires
        m.wf(),
        resume_returns(m, id, context, result, after),
        join_verdict(result) matches Joining::Done(Ok(_)),
    ensures
        after.wf(),
        after.settled(),
        after.contains(id),
        after.state_of(id) == State::Finished,
        join_verdict(result) == Joining::Done(Ok(State::Finished)),
{
    if m.returning == Some(id) {
        m.lemma_resumed_wf(context);
    } else {
        m.lemma_resume_wf(id);
    }
}

/// When a resume returns the payload of a panic, the coroutine is
/// `Panicked`, the payload is gone from the scheduler, and no later resume
/// of the coroutine succeeds: each fails with `Panicked`.
pub proof fn lemma_panic_is_delivered_once<C>(
    m: Scheduler<C>,
    id: int,
    context: C,
    result: Result<State, Error>,
    after: Scheduler<C>,
    steps: Seq<Step<C>>,
)
    requires
        m.wf(),
        resume_returns(m, id, context, result, after),
        result matches Err(Error::Panicking(_)),
        after.admits(steps),
        !steps.contains(Step::Release(id)),
    ensures
        m.returning == Some(id),
        result == Err::<State, Error>(Error::Panicking(m.resume_result->0)),
        after.resume_result is None,
        after.state_of(id) == State::Panicked,
        after.run(steps).contains(id),
        after.run(steps).state_of(id) == State::Panicked,
        after.run(steps).resumption(id) == Resumption::<C>::Done(Err(Error::Panicked)),
        join_verdict(result) == Joining::Done(result),
{
    m.lemma_resumed_wf(context);
    lemma_terminal_is_final(after, id, steps);
}

/// A panic of the running coroutine reaches its resumer: the resume returns
/// exactly the payload of the panic, and a second resume of the coroutine
/// fails with `Panicked`.
pub proof fn lemma_panic_reaches_resumer<C>(m: Scheduler<C>, payload: Payload, context: C)
    requires
        m.wf(),
        m.settled(),
        m.chain.len() > 0,
    ensures
        ({
            let id = m.current();
            let gone = m.after_complete(Outcome::Panicked(payload));
            let back = gone.after_resumed(context);
            &&& gone.returning == Some(id)
            &&& gone.resumed_result(id) == Err::<State, Error>(Error::Panicking(payload))
            &&& back.wf() && back.settled() && back.contains(id)
            &&& back.current() == m.resumer()
            &&& back.resumption(id) == Resumption::<C>::Done(Err(Error::Panicked))
            &&& back.after_resume(id) == back
        }),
{
    let gone = m.after_complete(Outcome::Panicked(payload));
    m.lemma_complete_wf(Outcome::Panicked(payload));
    gone.lemma_resumed_wf(context);
}

/// A body that returns leaves its coroutine `Finished` and nothing for the
/// resumer but that state.
pub proof fn lemma_return_reaches_resumer<C>(m: Scheduler<C>, context: C)
    requires
        m.wf(),
        m.settled(),
        m.chain.len() > 0,
    ensures
        ({
            let id = m.current();
            let gone = m.after_complete(Outcome::Returned);
            let back = gone.after_resumed(context);
            &&& gone.returning == Some(id)
            &&& gone.resumed_result(id) == Ok::<State, Error>(State::Finished)
            &&& back.wf() && back.settled() && back.contains(id)
            &&& back.current() == m.resumer()
            &&& back.resumption(id) == Resumption::<C>::Done(Err(Error::Finished))
        }),
{
    let gone = m.after_complete(Outcome::Returned);
    m.lemma_complete_wf(Outcome::Returned);
    gone.lemma_resumed_wf(context);
}

/// A resume and the yield that answers it are a call and its return.
///
/// The resume hands out the execution point at which the target was left
/// last, and control arrives there. When the target yields, control goes to
/// the coroutine that resumed it, at the very point where that coroutine
/// was left; the resume returns the state that was yielded with; the chain
/// is what it was before; and the next resume of the target continues where
/// the target has yielded.
pub proof fn lemma_yield_answers_resume<C>(
    m: Scheduler<C>,
    id: int,
    state: State,
    left_resumer_at: C,
    left_target_at: C,
)
    requires
        m.wf(),
        m.settled(),
        m.contains(id),
        m.state_of(id).is_resumable(),
        state != State::Running,
    ensures
        ({
            let from = m.current();
            let inside = m.after_resume(id).after_save(left_resumer_at);
            let gone = inside.after_yield(state);
            let back = gone.after_resumed(left_target_at);
            &&& m.resumption(id) == Resumption::Switch(
                Transfer { from: from as usize, to: id as usize },
                m.get(id).context->0,
            )
            &&& inside.wf() && inside.settled() && inside.current() == id
            &&& inside.yield_transfer() == Some(
                (Transfer { from: id as usize, to: from as usize }, left_resumer_at),
            )
            &&& gone.returning == Some(id)
            &&& gone.resumed_result(id) == Ok::<State, Error>(state)
            &&& back.wf() && back.settled()
            &&& back.current() == from
            &&& back.chain == m.chain
            &&& back.state_of(from) == State::Running
            &&& back.state_of(id) == state
            &&& back.get(id).context == Some(left_target_at)
        }),
{
    let from = m.current();
    let entered = m.after_resume(id);
    m.lemma_resume_wf(id);
    entered.lemma_save_wf(left_resumer_at);
    let inside = entered.after_save(left_resumer_at);
    assert(inside.chain.drop_last() =~= m.chain);
    assert(inside.resumer() == from);
    inside.lemma_yield_wf(state);
    let gone = inside.after_yield(state);
    gone.lemma_resumed_wf(left_target_at);
    assert(m.resume_result is None);
    assert(gone.chain =~= m.chain);
}

/// Every operation leaves the chain as it is, adds one coroutine at its
/// end, or takes the last one away.
pub proof fn lemma_chain_is_a_stack<C>(m: Scheduler<C>, step: Step<C>)
    requires
        m.wf(),
        m.enabled(step),
    ensures
        ({
            let after = m.next(step).chain;
            ||| after == m.chain
            ||| (exists|id: int| after == m.chain.push(id))
            ||| (m.chain.len() > 0 && after == m.chain.drop_last())
        }),
{
    let after = m.next(step).chain;
    match step {
        Step::Resume(id) => {
            if m.state_of(id).is_resumable() {
                assert(after == m.chain.push(id));
            }
        },
        Step::Yield(state) => {},
        Step::Complete(outcome) => {},
        _ => {
            assert(after == m.chain);
        },
    }
}

/// While the operations are carried out one after the other, the chain never
/// gets shorter than `depth`.
pub open spec fn stays_at_depth<C>(m: Scheduler<C>, steps: Seq<Step<C>>, depth: nat) -> bool
    decreases steps.len(),
{
    if steps.len() == 0 {
        true
    } else {
        m.next(steps[0]).chain.len() >= depth && stays_at_depth(
            m.next(steps[0]),
            steps.drop_first(),
            depth,
        )
    }
}

/// The chain mirrors the nesting of the resumes: whatever happens further
/// in, the outstanding resumes of a moment stay on the chain, in their order,
/// until control has come back to them. In particular, once the chain is as
/// long again as it was, it is what it was, and the same coroutine is
/// executing.
pub proof fn lemma_chain_mirrors_nesting<C>(m: Scheduler<C>, steps: Seq<Step<C>>)
    requires
        m.wf(),
        m.admits(steps),
        stays_at_depth(m, steps, m.chain.len()),
    ensures
        m.run(steps).chain.len() >= m.chain.len(),
        m.run(steps).chain.subrange(0, m.chain.len() as int) == m.chain,
        m.run(steps).chain.len() == m.chain.len() ==> m.run(steps).chain == m.chain && m.run(
            steps,
        ).current() == m.current(),
{
    lemma_outer_chain_is_kept(m, steps, m.chain.len());
    assert(m.chain.subrange(0, m.chain.len() as int) =~= m.chain);
    let end = m.run(steps).chain;
    if end.len() == m.chain.len() {
        assert(end.subrange(0, end.len() as int) =~= end);
    }
}

/// The first `depth` entries of the chain are kept for as long as the chain
/// does not get shorter than `depth`.
pub proof fn lemma_outer_chain_is_kept<C>(m: Scheduler<C>, steps: Seq<Step<C>>, depth: nat)
    requires
        m.wf(),
        m.admits(steps),
        depth <= m.chain.len(),
        stays_at_depth(m, steps, depth),
    ensures
        m.run(steps).chain.len() >= depth,
        m.run(steps).chain.subrange(0, depth as int) == m.chain.subrange(0, depth as int),
    decreases steps.len(),
{
    if steps.len() > 0 {
        let step = steps[0];
        let next = m.next(step);
        lemma_step_keeps_wf(m, step);
        lemma_chain_is_a_stack(m, step);
        assert(next.chain.subrange(0, depth as int) =~= m.chain.subrange(0, depth as int));
        lemma_outer_chain_is_kept(next, steps.drop_first(), depth);
    }
}

/// Once a coroutine is destroyed, a spawn that asks for no more stack than
/// that coroutine had is served from the pool: no new stack is made for it.
pub proof fn lemma_stack_is_reused<C>(m: Scheduler<C>, id: int, name: Option<Seq<char>>, size: usize)
    requires
        m.wf(),
        m.contains(id),
        id != 0,
        !m.active(id),
        m.get(id).stack is Some,
        size <= m.get(id).stack->0.size,
    ensures
        m.after_release(id).pool.has_fit(size),
        m.after_release(id).after_spawn(name, size).pool.allocated == m.pool.allocated,
        m.after_release(id).pool.holds(m.after_release(id).spawned(name, size).stack->0.id),
{
    let stack = m.get(id).stack->0;
    assert(m.owns_stack(id, stack.id));
    m.pool.lemma_give(stack);
    let freed = m.after_release(id);
    m.lemma_release_wf(id);
    if freed.pool.allocated < u64::MAX {
        freed.pool.lemma_take(size);
    } else {
        freed.pool.lemma_first_fit(size);
        let f = freed.pool.first_fit(size);
        assert(freed.pool.stacks[f].id == freed.pool.taken(size).id);
    }
}

/// No stack is in two places: one that a coroutine runs on is not free, and
/// no other coroutine runs on it.
pub proof fn lemma_stack_has_one_owner<C>(m: Scheduler<C>, a: int, b: int)
    requires
        m.wf(),
        m.contains(a),
        m.contains(b),
        m.get(a).stack is Some,
        m.get(b).stack is Some,
        m.get(a).stack->0.id == m.get(b).stack->0.id,
    ensures
        a == b,
        !m.pool.holds(m.get(a).stack->0.id),
{
    let sid = m.get(a).stack->0.id;
    assert(m.owns_stack(a, sid));
    assert(m.owns_stack(b, sid));
}

} // verus!
