use nemo::coroutine::{Coroutine, Environment, Handle, Joining};
use nemo::error::{Error, Payload};
use nemo::options::{Options, DEFAULT_STACK_SIZE};
use nemo::scheduler::{Outcome, Resumption, Transfer};
use nemo::stack::{StackError, StackPool};
use nemo::state::State;

/// In these tests an execution point is a label that says where it lies.
type Env = Environment<&'static str>;

fn spawn(env: &mut Env, entry: &'static str) -> Handle {
    let handle = Coroutine::spawn(env).unwrap();
    Coroutine::save_context(env, entry);
    handle
}

fn spawn_opts(env: &mut Env, opts: Options, entry: &'static str) -> Handle {
    let handle = Coroutine::spawn_opts(env, opts).unwrap();
    Coroutine::save_context(env, entry);
    handle
}

/// Begins a resume that has to switch, and lets control arrive in the target.
fn switch_into(handle: &Handle, env: &mut Env, left_at: &'static str) -> (Transfer, &'static str) {
    match handle.resume(env) {
        Resumption::Switch(t, context) => {
            Coroutine::save_context(env, left_at);
            (t, context)
        },
        Resumption::Done(r) => panic!("no transfer: {:?}", r),
    }
}

#[test]
fn a_fresh_environment_runs_its_root() {
    let env = Env::new();
    assert_eq!(env.depth(), 0);
    assert_eq!(env.allocations(), 0);
    assert_eq!(env.free_stacks(), 0);
    assert!(env.is_settled());
    assert!(!env.awaits_context());
    let root = Coroutine::current(&env);
    assert_eq!(root.id(), 0);
    assert_eq!(root.state(&env), State::Running);
    assert_eq!(env.coroutine(root).name(), Some("<Environment Root Coroutine>"));
    assert!(env.coroutine(root).stack().is_none());
    assert!(!env.coroutine(root).has_context());
}

#[test]
fn a_spawned_coroutine_is_suspended() {
    let mut env = Env::new();
    let a = Coroutine::spawn(&mut env).unwrap();
    // The coroutine exists and is suspended, but where it begins is not known yet.
    assert_eq!(a.state(&env), State::Suspended);
    assert!(!env.is_settled());
    assert!(env.awaits_context());
    assert!(env.is_active(&a));
    assert!(!env.coroutine(&a).has_context());
    Coroutine::save_context(&mut env, "entry of a");
    assert!(env.is_settled());
    assert!(!env.is_active(&a));
    assert!(env.coroutine(&a).has_context());
    let b = spawn_opts(
        &mut env,
        Options::new().name(String::from("worker")).stack_size(4096),
        "entry of worker",
    );
    assert_eq!(a.state(&env), State::Suspended);
    assert_eq!(b.state(&env), State::Suspended);
    assert_eq!(env.coroutine(&a).name(), None);
    assert_eq!(env.coroutine(&b).name(), Some("worker"));
    assert!(!env.coroutine(&a).finished());
    assert!(!env.coroutine(&a).panicking());
    assert!(env.contains(&a));
    assert_eq!(a.id(), 1);
    assert_eq!(b.id(), 2);
    // Spawning another coroutine does not start the first.
    assert_eq!(a.state(&env), State::Suspended);
    assert_eq!(Coroutine::current(&env).id(), 0);
}

#[test]
fn yield_and_resume_alternate() {
    let mut env = Env::new();
    let mut output: Vec<&str> = Vec::new();
    let coro = spawn(&mut env, "start of body");

    // First resume: control passes from the root to the start of the body.
    let (t, at) = switch_into(&coro, &mut env, "main, in first resume");
    assert_eq!(t, Transfer { from: 0, to: coro.id() });
    assert_eq!(at, "start of body");
    assert_eq!(coro.state(&env), State::Running);
    assert_eq!(Coroutine::current(&env).id(), coro.id());
    assert_eq!(env.depth(), 1);
    output.push("Before yield");
    // The yield leads back to where the root was left.
    let back = Coroutine::sched(&mut env);
    assert_eq!(back, Some((Transfer { from: coro.id(), to: 0 }, "main, in first resume")));
    assert!(env.is_returning(&coro));
    assert_eq!(coro.resumed(&mut env, "body, in sched"), Ok(State::Suspended));
    assert_eq!(Coroutine::current(&env).state(&env), State::Running);

    output.push("Back to main");

    // Second resume: the body goes on behind its yield and runs to its end.
    let (t, at) = switch_into(&coro, &mut env, "main, in second resume");
    assert_eq!(t, Transfer { from: 0, to: coro.id() });
    assert_eq!(at, "body, in sched");
    output.push("I am back!");
    let back = Coroutine::complete(&mut env, Outcome::Returned);
    assert_eq!(back, (Transfer { from: coro.id(), to: 0 }, "main, in second resume"));
    assert_eq!(coro.resumed(&mut env, "end of body"), Ok(State::Finished));

    assert_eq!(output, vec!["Before yield", "Back to main", "I am back!"]);
    assert_eq!(coro.state(&env), State::Finished);
    assert!(env.coroutine(&coro).finished());
    assert_eq!(env.depth(), 0);
    assert!(env.is_settled());
}

#[test]
fn resuming_a_finished_coroutine_fails_the_same_way_every_time() {
    let mut env = Env::new();
    let coro = spawn(&mut env, "entry");
    switch_into(&coro, &mut env, "main");
    Coroutine::complete(&mut env, Outcome::Returned);
    assert_eq!(coro.resumed(&mut env, "end"), Ok(State::Finished));
    for _ in 0..5 {
        assert_eq!(coro.resume(&mut env), Resumption::Done(Err(Error::Finished)));
        assert_eq!(coro.state(&env), State::Finished);
        assert_eq!(env.depth(), 0);
        assert!(env.is_settled());
        assert_eq!(Coroutine::current(&env).state(&env), State::Running);
    }
}

#[test]
fn a_panic_is_delivered_once() {
    let mut env = Env::new();
    let coro = spawn_opts(&mut env, Options::new().name(String::from("faulty")), "entry");
    switch_into(&coro, &mut env, "main");
    let payload = Payload::Message(String::from("boom"));
    assert_eq!(
        env.coroutine(&coro).panic_report(&payload),
        "Coroutine 'faulty' panicked at 'boom'"
    );
    let back = Coroutine::complete(&mut env, Outcome::Panicked(payload));
    assert_eq!(back, (Transfer { from: coro.id(), to: 0 }, "main"));
    assert_eq!(
        coro.resumed(&mut env, "end"),
        Err(Error::Panicking(Payload::Message(String::from("boom"))))
    );
    assert_eq!(coro.state(&env), State::Panicked);
    assert!(env.coroutine(&coro).panicking());
    // The second resume carries no payload.
    assert_eq!(coro.resume(&mut env), Resumption::Done(Err(Error::Panicked)));
    assert_eq!(coro.resume(&mut env), Resumption::Done(Err(Error::Panicked)));
    assert_eq!(coro.state(&env), State::Panicked);
}

#[test]
fn a_panic_without_a_message_is_reported_as_opaque() {
    let mut env = Env::new();
    let coro = spawn(&mut env, "entry");
    assert_eq!(
        env.coroutine(&coro).panic_report(&Payload::Opaque),
        "Coroutine '<unnamed>' panicked at 'Box<Any>'"
    );
    switch_into(&coro, &mut env, "main");
    Coroutine::complete(&mut env, Outcome::Panicked(Payload::Opaque));
    assert_eq!(coro.resumed(&mut env, "end"), Err(Error::Panicking(Payload::Opaque)));
}

#[test]
fn nested_coroutines_return_to_their_resumers() {
    let mut env = Env::new();
    let a = spawn_opts(&mut env, Options::new().stack_size(8192), "start of A");
    let free_before = env.free_stacks();

    // The root resumes A.
    assert_eq!(
        switch_into(&a, &mut env, "root"),
        (Transfer { from: 0, to: a.id() }, "start of A")
    );
    // A spawns B and resumes it.
    let b = spawn_opts(&mut env, Options::new().stack_size(4096), "start of B");
    assert_eq!(
        switch_into(&b, &mut env, "A, first resume of B"),
        (Transfer { from: a.id(), to: b.id() }, "start of B")
    );
    assert_eq!(env.depth(), 2);
    assert_eq!(a.state(&env), State::Normal);
    assert_eq!(b.state(&env), State::Running);
    assert_eq!(Coroutine::current(&env).id(), b.id());
    // From inside B, A cannot be resumed, and B itself is simply running.
    assert_eq!(a.resume(&mut env), Resumption::Done(Err(Error::Waiting)));
    assert_eq!(b.resume(&mut env), Resumption::Done(Ok(State::Running)));
    // B yields once: control is back in A, not in the root.
    assert_eq!(
        Coroutine::sched(&mut env),
        Some((Transfer { from: b.id(), to: a.id() }, "A, first resume of B"))
    );
    assert_eq!(b.resumed(&mut env, "B, in sched"), Ok(State::Suspended));
    assert_eq!(a.state(&env), State::Running);
    assert_eq!(env.depth(), 1);
    // A resumes B again, and B finishes.
    assert_eq!(
        switch_into(&b, &mut env, "A, second resume of B"),
        (Transfer { from: a.id(), to: b.id() }, "B, in sched")
    );
    assert_eq!(
        Coroutine::complete(&mut env, Outcome::Returned),
        (Transfer { from: b.id(), to: a.id() }, "A, second resume of B")
    );
    assert_eq!(b.resumed(&mut env, "end of B"), Ok(State::Finished));
    // A drops B; the stack of B is reclaimed.
    b.release(&mut env);
    assert_eq!(env.free_stacks(), free_before + 1);
    // A goes on unaffected: it yields, is resumed, and finishes.
    assert_eq!(a.state(&env), State::Running);
    assert_eq!(
        Coroutine::block(&mut env),
        Some((Transfer { from: a.id(), to: 0 }, "root"))
    );
    assert_eq!(a.resumed(&mut env, "A, in block"), Ok(State::Blocked));
    assert_eq!(
        switch_into(&a, &mut env, "root again"),
        (Transfer { from: 0, to: a.id() }, "A, in block")
    );
    assert_eq!(
        Coroutine::complete(&mut env, Outcome::Returned),
        (Transfer { from: a.id(), to: 0 }, "root again")
    );
    assert_eq!(a.resumed(&mut env, "end of A"), Ok(State::Finished));
    assert_eq!(env.depth(), 0);
    assert_eq!(Coroutine::current(&env).state(&env), State::Running);
}

#[test]
fn a_released_stack_is_reused() {
    let mut env = Env::new();
    let first = spawn_opts(&mut env, Options::new().stack_size(65536), "entry");
    assert_eq!(env.allocations(), 1);
    switch_into(&first, &mut env, "main");
    Coroutine::complete(&mut env, Outcome::Returned);
    assert_eq!(first.resumed(&mut env, "end"), Ok(State::Finished));
    first.release(&mut env);
    assert_eq!(env.free_stacks(), 1);

    // A request for no more than the released stack holds makes no new stack.
    let second = spawn_opts(&mut env, Options::new().stack_size(4096), "entry");
    assert_eq!(env.allocations(), 1);
    assert_eq!(env.free_stacks(), 0);
    assert_eq!(second.state(&env), State::Suspended);
    assert_eq!(env.coroutine(&second).stack().unwrap().size(), 65536);

    // A larger request cannot be served from the pool.
    second.release(&mut env);
    let third = spawn_opts(&mut env, Options::new().stack_size(65537), "entry");
    assert_eq!(env.allocations(), 2);
    assert_eq!(env.free_stacks(), 1);
    assert!(env.contains(&third));
}

#[test]
fn the_pool_serves_the_oldest_stack_that_fits() {
    let mut env = Env::new();
    let small = env.take_stack(100).unwrap();
    let large = env.take_stack(1000).unwrap();
    let medium = env.take_stack(500).unwrap();
    assert_eq!((small.id(), small.size()), (0, 100));
    assert_eq!((large.id(), large.size()), (1, 1000));
    assert_eq!((medium.id(), medium.size()), (2, 500));
    assert!(small.capacity() >= 100);
    assert!(large.capacity() >= 1000);
    assert_eq!(small.capacity(), small.memory().len());
    assert_eq!(large.capacity(), large.memory().len());
    assert!(env.is_outstanding(&small));
    env.give_stack(small);
    env.give_stack(large);
    env.give_stack(medium);
    assert_eq!(env.free_stacks(), 3);
    let got = env.take_stack(300).unwrap();
    assert_eq!((got.id(), got.size()), (1, 1000));
    let got = env.take_stack(300).unwrap();
    assert_eq!((got.id(), got.size()), (2, 500));
    let got = env.take_stack(300).unwrap();
    assert_eq!((got.id(), got.size()), (3, 300));
    assert_eq!(env.allocations(), 4);
    assert_eq!(env.free_stacks(), 1);
}

#[test]
fn a_pool_on_its_own_recycles_stacks() {
    let mut pool = StackPool::new();
    assert_eq!(pool.allocations(), 0);
    assert_eq!(pool.free(), 0);
    assert_eq!(pool.find(1), None);
    let a = pool.take_stack(4096).unwrap();
    let b = pool.take_stack(8192).unwrap();
    assert_eq!((a.id(), b.id()), (0, 1));
    assert!(!pool.holds(0));
    pool.give_stack(a);
    pool.give_stack(b);
    assert!(pool.holds(0) && pool.holds(1) && !pool.holds(2));
    assert_eq!(pool.find(4096), Some(0));
    assert_eq!(pool.find(4097), Some(1));
    assert_eq!(pool.find(8193), None);
    let again = pool.take_stack(5000).unwrap();
    assert_eq!((again.id(), again.size()), (1, 8192));
    assert_eq!(pool.allocations(), 2);
    assert_eq!(pool.free(), 1);
}

#[test]
fn a_stack_of_another_environment_is_not_outstanding() {
    let mut env = Env::new();
    let mut other = Env::new();
    let stack = env.take_stack(64).unwrap();
    assert!(env.is_outstanding(&stack));
    // The other environment has made no stack with that number.
    assert!(!other.is_outstanding(&stack));
    let twin = other.take_stack(64).unwrap();
    assert_eq!(twin.id(), stack.id());
    let coro = Coroutine::new(
        &mut env,
        Some(String::from("made by hand")),
        stack,
        "entry",
        State::Blocked,
    );
    assert!(env.is_settled());
    assert_eq!(coro.state(&env), State::Blocked);
    assert_eq!(env.coroutine(&coro).name(), Some("made by hand"));
    // The number is now in use in the first environment.
    assert!(!env.is_outstanding(&twin));
    assert!(other.is_outstanding(&twin));
    // A blocked coroutine is resumed like a suspended one.
    assert_eq!(
        switch_into(&coro, &mut env, "main"),
        (Transfer { from: 0, to: coro.id() }, "entry")
    );
}

#[test]
fn a_coroutine_without_a_stack_can_be_registered() {
    let mut env = Env::new();
    let normal = Coroutine::empty(&mut env, None, State::Normal);
    assert_eq!(normal.state(&env), State::Normal);
    assert!(!env.coroutine(&normal).has_context());
    assert_eq!(normal.resume(&mut env), Resumption::Done(Err(Error::Waiting)));
    let before = env.free_stacks();
    normal.release(&mut env);
    assert_eq!(env.free_stacks(), before);
}

#[test]
fn the_root_has_nobody_to_yield_to() {
    let mut env = Env::new();
    assert_eq!(Coroutine::sched(&mut env), None);
    assert_eq!(Coroutine::yield_now(&mut env, State::Blocked), None);
    assert!(env.is_settled());
    assert_eq!(Coroutine::current(&env).state(&env), State::Running);
    // Resuming the running root changes nothing.
    let root = Coroutine::current(&env).id();
    assert_eq!(root, 0);
    assert_eq!(env.depth(), 0);
}

#[test]
fn a_yield_may_leave_any_state_but_running() {
    let mut env = Env::new();
    let a = spawn(&mut env, "entry");
    switch_into(&a, &mut env, "main");
    assert_eq!(
        Coroutine::yield_now(&mut env, State::Normal),
        Some((Transfer { from: a.id(), to: 0 }, "main"))
    );
    assert_eq!(a.resumed(&mut env, "a, in yield"), Ok(State::Normal));
    assert_eq!(a.resume(&mut env), Resumption::Done(Err(Error::Waiting)));
}

#[test]
fn join_goes_on_until_the_coroutine_is_finished() {
    let mut env = Env::new();
    let coro = spawn(&mut env, "entry");
    let mut resumes = 0;
    let result = loop {
        let resumed = match coro.resume(&mut env) {
            Resumption::Done(r) => r,
            Resumption::Switch(_, _) => {
                Coroutine::save_context(&mut env, "main, in join");
                resumes += 1;
                // The body yields twice and then returns.
                if resumes <= 2 {
                    Coroutine::sched(&mut env);
                } else {
                    Coroutine::complete(&mut env, Outcome::Returned);
                }
                coro.resumed(&mut env, "body")
            },
        };
        match coro.join(resumed) {
            Joining::Again => {},
            Joining::Done(r) => break r,
        }
    };
    assert_eq!(result, Ok(State::Finished));
    assert_eq!(resumes, 3);
    assert_eq!(coro.state(&env), State::Finished);
}

#[test]
fn join_decides_on_each_result() {
    let mut env = Env::new();
    let coro = spawn(&mut env, "entry");
    assert_eq!(coro.join(Ok(State::Finished)), Joining::Done(Ok(State::Finished)));
    assert_eq!(coro.join(Err(Error::Finished)), Joining::Done(Ok(State::Finished)));
    assert_eq!(coro.join(Ok(State::Suspended)), Joining::Again);
    assert_eq!(coro.join(Ok(State::Blocked)), Joining::Again);
    assert_eq!(coro.join(Ok(State::Running)), Joining::Again);
    assert_eq!(coro.join(Err(Error::Panicked)), Joining::Done(Err(Error::Panicked)));
    assert_eq!(coro.join(Err(Error::Waiting)), Joining::Done(Err(Error::Waiting)));
    assert_eq!(
        coro.join(Err(Error::Panicking(Payload::Opaque))),
        Joining::Done(Err(Error::Panicking(Payload::Opaque)))
    );
}

#[test]
fn join_stops_at_a_panic() {
    let mut env = Env::new();
    let coro = spawn(&mut env, "entry");
    switch_into(&coro, &mut env, "main");
    Coroutine::complete(&mut env, Outcome::Panicked(Payload::Message(String::from("oops"))));
    let resumed = coro.resumed(&mut env, "end");
    let verdict = coro.join(resumed);
    assert_eq!(
        verdict,
        Joining::Done(Err(Error::Panicking(Payload::Message(String::from("oops")))))
    );
    // No later resume succeeds.
    assert_eq!(coro.resume(&mut env), Resumption::Done(Err(Error::Panicked)));
    let other = spawn(&mut env, "entry of other");
    switch_into(&other, &mut env, "main");
    assert_eq!(coro.resume(&mut env), Resumption::Done(Err(Error::Panicked)));
}

#[test]
fn errors_are_described() {
    assert_eq!(Error::Finished.description(), "Finished");
    assert_eq!(Error::Panicked.description(), "Panicked");
    assert_eq!(Error::Waiting.description(), "Waiting");
    assert_eq!(Error::Panicking(Payload::Opaque).description(), "Panicking(..)");
    assert_eq!(Error::Panicked.detail(), "Panicked");
    assert_eq!(Error::Finished.detail(), "Finished");
    assert_eq!(Error::Waiting.detail(), "Waiting");
    assert_eq!(
        Error::Panicking(Payload::Message(String::from("bad"))).detail(),
        "Panicking(bad)"
    );
    assert_eq!(Error::Panicking(Payload::Opaque).detail(), "Panicking(Box<Any>)");
    assert!(Error::Panicking(Payload::Opaque).carries_panic());
    assert!(!Error::Panicked.carries_panic());
    assert_eq!(Payload::Message(String::from("m")).message(), "m");
    assert_eq!(Payload::Opaque.message(), "Box<Any>");
}

#[test]
fn options_default_to_two_mebibytes_and_no_name() {
    let o = Options::new();
    assert_eq!(o.stack_size, DEFAULT_STACK_SIZE);
    assert_eq!(DEFAULT_STACK_SIZE, 2 * 1024 * 1024);
    assert_eq!(o.name, None);
    assert_eq!(Options::default(), Options::new());
    let o = Options::new().stack_size(10).name(String::from("n"));
    assert_eq!(o.stack_size, 10);
    assert_eq!(o.name, Some(String::from("n")));
}

#[test]
fn states_know_whether_they_are_terminal() {
    assert!(State::Finished.terminal());
    assert!(State::Panicked.terminal());
    assert!(!State::Suspended.terminal());
    assert!(!State::Running.terminal());
    assert!(State::Suspended.resumable());
    assert!(State::Blocked.resumable());
    assert!(!State::Normal.resumable());
    assert!(!State::Finished.resumable());
}

#[test]
fn a_stack_beyond_the_limit_of_the_platform_is_refused() {
    let mut env = Env::new();
    match env.take_stack(usize::MAX) {
        Err(StackError::ExceedsMaximumSize(_)) => {},
        other => panic!("unexpected: {:?}", other.map(|s| s.id())),
    }
    assert_eq!(env.allocations(), 0);
    assert_eq!(env.free_stacks(), 0);
    match Coroutine::spawn_opts(&mut env, Options::new().stack_size(usize::MAX)) {
        Err(StackError::ExceedsMaximumSize(_)) => {},
        other => panic!("unexpected: {:?}", other.map(|h| h.id())),
    }
    assert_eq!(env.allocations(), 0);
    assert!(env.is_settled());
    // The refusal has left the environment as it was: the next coroutine is the first.
    let coro = spawn(&mut env, "entry");
    assert_eq!(coro.id(), 1);
    assert_eq!(env.allocations(), 1);
}

#[test]
fn a_coroutine_runs_on_the_stack_it_was_given() {
    let mut env = Env::new();
    let coro = spawn_opts(&mut env, Options::new().stack_size(16384), "entry");
    let stack = env.coroutine(&coro).stack().unwrap();
    assert_eq!(stack.id(), 0);
    assert_eq!(stack.size(), 16384);
    assert!(stack.capacity() >= 16384);
    assert_eq!(stack.capacity(), stack.memory().len());
    let root = Coroutine::current(&env);
    assert!(env.coroutine(root).stack().is_none());
}

#[test]
fn a_stack_that_the_machine_cannot_provide_is_refused() {
    // More than any address space holds, yet possibly within the limit that
    // the platform names.
    let size: usize = 1 << 60;
    let mut pool = StackPool::new();
    let refused = pool.take_stack(size).map(|s| s.id());
    if context::stack::Stack::max_size() > size + (1 << 20) {
        assert_eq!(refused, Err(StackError::OutOfMemory));
    } else {
        assert!(matches!(refused, Err(StackError::ExceedsMaximumSize(_))));
    }
    assert_eq!(pool.allocations(), 0);
    assert_eq!(pool.free(), 0);
}

#[test]
fn the_running_coroutine_has_no_saved_execution_point() {
    let mut env = Env::new();
    let a = spawn(&mut env, "entry");
    assert!(env.coroutine(&a).has_context());
    match a.resume(&mut env) {
        Resumption::Switch(_, at) => assert_eq!(at, "entry"),
        Resumption::Done(r) => panic!("no transfer: {:?}", r),
    }
    // Control is on its way into the coroutine: the point of the root is yet to be saved.
    assert!(env.awaits_context());
    assert!(!env.coroutine(&a).has_context());
    assert!(!env.coroutine(Coroutine::current(&env)).has_context());
    Coroutine::save_context(&mut env, "root");
    assert!(env.is_settled());
    assert!(!env.coroutine(&a).has_context());
    // The yield takes the point of the root out again.
    assert_eq!(
        Coroutine::sched(&mut env),
        Some((Transfer { from: a.id(), to: 0 }, "root"))
    );
    assert!(!env.is_settled());
    assert!(!env.awaits_context());
    assert!(env.is_returning(&a));
    assert_eq!(a.resumed(&mut env, "a, in sched"), Ok(State::Suspended));
    assert!(env.coroutine(&a).has_context());
    assert!(!env.coroutine(Coroutine::current(&env)).has_context());
}

#[test]
fn the_number_of_a_destroyed_coroutine_is_given_out_again() {
    let mut env = Env::new();
    let a = spawn(&mut env, "a");
    let b = spawn(&mut env, "b");
    let c = spawn(&mut env, "c");
    assert_eq!((a.id(), b.id(), c.id()), (1, 2, 3));
    a.release(&mut env);
    b.release(&mut env);
    // The number that was vacated last is the first to be given out again.
    let d = spawn(&mut env, "d");
    let e = spawn(&mut env, "e");
    let f = spawn(&mut env, "f");
    assert_eq!((d.id(), e.id(), f.id()), (2, 1, 4));
    assert_eq!(c.state(&env), State::Suspended);
    assert_eq!(
        switch_into(&d, &mut env, "main"),
        (Transfer { from: 0, to: 2 }, "d")
    );
    // Two stacks were reused, so four were made for six coroutines.
    assert_eq!(env.allocations(), 4);
}
