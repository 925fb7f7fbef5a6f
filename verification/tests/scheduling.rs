use minitokio::Completion;
use minitokio::DelayCore;
use minitokio::Executor;
use minitokio::Job;
use minitokio::NaiveDelayCore;
use minitokio::RaceCore;
use minitokio::RaceResult;
use minitokio::RaceWinner;
use minitokio::Resume;

#[test]
fn past_deadline_completes_on_first_resume() {
    // A timer whose deadline is already past completes at once and
    // asks for no background thread.
    let mut d = DelayCore::new(5);
    let (r, spawns) = d.resume(10, 1);
    assert!(r.is_ready());
    assert_eq!(spawns.len(), 0);
    assert!(d.done);
    assert!(d.cached.is_none());
}

#[test]
fn past_deadline_executor_single_resume() {
    let mut ex = Executor::new(10);
    let id = ex.spawn(Job::Timer(DelayCore::new(3)));
    ex.run();
    let t = &ex.tasks[id];
    assert!(t.done);
    assert_eq!(t.resumes, 1);
    assert_eq!(t.finished_at, 10);
    assert_eq!(ex.log.len(), 1);
    assert_eq!(ex.log[0].task, id);
    assert_eq!(ex.log[0].at, 10);
}

#[test]
fn future_deadline_arms_exactly_one_timer() {
    // The first resumption returns pending and asks for exactly one
    // background timer; any number of further resumptions before the
    // deadline ask for none.
    let mut d = DelayCore::new(100);
    let (r, spawns) = d.resume(0, 7);
    assert!(r.is_pending());
    assert_eq!(spawns.len(), 1);
    assert_eq!(spawns[0].fire_at, 100);
    assert_eq!(spawns[0].handle, 7);
    assert_eq!(d.cached, Some(7));

    let (r2, s2) = d.resume(40, 7);
    assert!(r2.is_pending());
    assert_eq!(s2.len(), 0);
    let (r3, s3) = d.resume(99, 7);
    assert!(r3.is_pending());
    assert_eq!(s3.len(), 0);
}

#[test]
fn cache_replaced_when_waiter_changes() {
    let mut d = DelayCore::new(100);
    let _ = d.resume(0, 7);
    assert_eq!(d.cached, Some(7));
    // The task delegating to the timer changed between resumptions:
    // the cached handle is replaced, and no second timer is spawned.
    let (r, spawns) = d.resume(50, 9);
    assert!(r.is_pending());
    assert_eq!(spawns.len(), 0);
    assert_eq!(d.cached, Some(9));
}

#[test]
fn one_completion_no_earlier_than_deadline() {
    let mut d = DelayCore::new(100);
    let (r1, _) = d.resume(0, 1);
    assert!(r1.is_pending());
    let (r2, _) = d.resume(99, 1);
    assert!(r2.is_pending());
    let (r3, s3) = d.resume(100, 1);
    assert!(r3.is_ready());
    assert_eq!(s3.len(), 0);
    assert!(d.done);
}

#[test]
fn naive_timer_spawns_once_per_attempt() {
    let mut d = NaiveDelayCore::new(100);
    let (r1, s1) = d.resume(0, 1);
    assert!(r1.is_pending());
    assert_eq!(s1.len(), 1);
    assert_eq!(s1[0].fire_at, 100);
    // A second resumption before the deadline spawns a second,
    // redundant timer: this is the naive variant's waste.
    let (r2, s2) = d.resume(10, 1);
    assert!(r2.is_pending());
    assert_eq!(s2.len(), 1);
    let (r3, s3) = d.resume(100, 1);
    assert!(r3.is_ready());
    assert_eq!(s3.len(), 0);
}

#[test]
fn race_completes_second_when_second_is_earlier() {
    // d2 < d1: the race always completes tagged "second", at d2.
    let mut ex = Executor::new(0);
    let id = ex.spawn(Job::Race(RaceCore::new(DelayCore::new(50), DelayCore::new(20))));
    ex.run();
    let t = &ex.tasks[id];
    assert!(t.done);
    assert_eq!(t.finished_at, 20);
    assert_eq!(t.resumes, 2);
    match &t.job {
        Job::Race(r) => assert_eq!(r.winner, Some(RaceWinner::Second)),
        _ => panic!("job shape changed"),
    }
    assert_eq!(ex.log.len(), 1);
    assert_eq!(ex.log[0].at, 20);
}

#[test]
fn race_completes_first_when_first_is_earlier() {
    let mut ex = Executor::new(0);
    let id = ex.spawn(Job::Race(RaceCore::new(DelayCore::new(20), DelayCore::new(50))));
    ex.run();
    let t = &ex.tasks[id];
    assert!(t.done);
    assert_eq!(t.finished_at, 20);
    match &t.job {
        Job::Race(r) => assert_eq!(r.winner, Some(RaceWinner::First)),
        _ => panic!("job shape changed"),
    }
}

#[test]
fn race_hands_one_handle_to_both_children() {
    let mut rc = RaceCore::new(DelayCore::new(50), DelayCore::new(20));
    let (r, spawns) = rc.resume(0, 3);
    assert!(r.is_pending());
    // Both children were armed with the composite's own handle, so a
    // wake from either side re-attempts both.
    assert_eq!(spawns.len(), 2);
    assert!(spawns.iter().all(|s| s.handle == 3));
    assert_eq!(rc.first.cached, Some(3));
    assert_eq!(rc.second.cached, Some(3));
    // Woken at the earlier deadline: the second child's result is
    // reported and the first is abandoned.
    let (r2, s2) = rc.resume(20, 3);
    assert_eq!(s2.len(), 0);
    match r2 {
        Resume::Ready(RaceResult::Second(())) => {},
        _ => panic!("expected the second child's result"),
    }
    assert_eq!(rc.winner, Some(RaceWinner::Second));
    assert!(!rc.first.done);
}

#[test]
fn independent_timers_each_resumed_twice() {
    // N timers with distinct future deadlines: the cached variant is
    // resumed exactly twice each (arm, then complete), the naive one
    // likewise when nothing wakes it spuriously.
    let mut ex = Executor::new(0);
    let a = ex.spawn(Job::Timer(DelayCore::new(30)));
    let b = ex.spawn(Job::Timer(DelayCore::new(10)));
    let c = ex.spawn(Job::Timer(DelayCore::new(20)));
    let n = ex.spawn(Job::NaiveTimer(NaiveDelayCore::new(40)));
    ex.run();
    for id in [a, b, c, n] {
        assert!(ex.tasks[id].done);
        assert_eq!(ex.tasks[id].resumes, 2);
    }
    assert_eq!(ex.tasks[a].finished_at, 30);
    assert_eq!(ex.tasks[b].finished_at, 10);
    assert_eq!(ex.tasks[c].finished_at, 20);
    assert_eq!(ex.tasks[n].finished_at, 40);
    // Completions arrive in deadline order: timers fire earliest
    // first.
    let order: Vec<Completion> = ex.log.clone();
    assert_eq!(order.len(), 4);
    assert_eq!((order[0].task, order[0].at), (b, 10));
    assert_eq!((order[1].task, order[1].at), (c, 20));
    assert_eq!((order[2].task, order[2].at), (a, 30));
    assert_eq!((order[3].task, order[3].at), (n, 40));
}

#[test]
fn abandoned_task_does_not_hang_the_loop() {
    // A task whose notification handles were all dropped never
    // completes, but the run loop still observes the queue closed and
    // terminates.
    let mut ex = Executor::new(0);
    let gone = ex.spawn(Job::Inert);
    let live = ex.spawn(Job::Timer(DelayCore::new(15)));
    ex.run();
    assert_eq!(ex.queue.len(), 0);
    assert_eq!(ex.timers.len(), 0);
    assert!(!ex.tasks[gone].done);
    assert_eq!(ex.tasks[gone].resumes, 1);
    assert!(ex.tasks[live].done);
}

#[test]
fn ten_ms_delay_reports_after_deadline() {
    // Spawn a timer with a 10ms deadline and run the executor to
    // completion: the one completion is reported no earlier than 10ms
    // and well within a generous upper bound.
    let mut ex = Executor::new(0);
    let id = ex.spawn(Job::Timer(DelayCore::new(10)));
    ex.run();
    assert_eq!(ex.log.len(), 1);
    assert_eq!(ex.log[0].task, id);
    assert!(ex.log[0].at >= 10);
    assert!(ex.log[0].at <= 200);
    assert!(ex.tasks[id].done);
    assert_eq!(ex.tasks[id].resumes, 2);
}
