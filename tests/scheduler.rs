use silicium::ident::Tid;
use silicium::sched::{Scheduler, QUANTUM};
use silicium::thread::{Priority, State};

fn tid(n: u64) -> Tid {
    Tid::new(n).unwrap()
}

fn system() -> Scheduler {
    let mut s = Scheduler::new();
    s.add_thread(tid(0), Priority::Idle);
    s.add_thread(tid(1), Priority::Normal);
    s.add_thread(tid(2), Priority::Normal);
    s.add_thread(tid(3), Priority::Normal);
    s
}

#[test]
fn round_robin_fairness() {
    let mut s = system();
    let mut current = s.schedule(tid(0)).unwrap();
    let mut ran = vec![current.value()];
    let ticks = 3 * (QUANTUM + 1);
    for _ in 0..ticks {
        s.timer_tick(current);
        if s.need_rescheduling(current) {
            if let Some(next) = s.schedule(current) {
                current = next;
                ran.push(current.value());
            }
        }
    }
    assert_eq!(ran, vec![1, 2, 3, 1]);
}

#[test]
fn spent_quanta_are_refilled() {
    let mut s = system();
    for e in s.run_list.iter_mut() {
        e.quantum = 0;
    }
    assert_eq!(s.pick_next(), None);
    let next = s.schedule(tid(0)).unwrap();
    assert_eq!(next.value(), 1);
    assert_eq!(s.run_list[1].quantum, QUANTUM);
    assert_eq!(s.run_list[1].state, State::Running);
}

#[test]
fn idle_runs_only_when_nothing_else_can() {
    let mut s = Scheduler::new();
    s.add_thread(tid(0), Priority::Idle);
    s.add_thread(tid(5), Priority::High);
    s.run_list[1].state = State::Running;
    // The only other thread is the one running: the idle thread takes over.
    assert_eq!(s.schedule(tid(5)), Some(tid(0)));
    assert_eq!(s.run_list[1].state, State::Ready);
    assert_eq!(s.run_list[0].state, State::Running);
    // From the idle thread, the ready thread is picked again.
    assert_eq!(s.schedule(tid(0)), Some(tid(5)));
}

#[test]
fn idle_thread_stays_when_alone() {
    let mut s = Scheduler::new();
    s.add_thread(tid(0), Priority::Idle);
    s.run_list[0].state = State::Running;
    s.run_list[0].need_scheduling = true;
    assert_eq!(s.schedule(tid(0)), None);
    assert!(!s.need_rescheduling(tid(0)));
}

#[test]
fn timer_ticks_spend_the_quantum() {
    let mut s = system();
    for _ in 0..QUANTUM {
        s.timer_tick(tid(2));
    }
    assert_eq!(s.run_list[2].quantum, 0);
    assert!(!s.need_rescheduling(tid(2)));
    s.timer_tick(tid(2));
    assert!(s.need_rescheduling(tid(2)));
}

#[test]
fn removed_threads_leave_the_run_list() {
    let mut s = system();
    s.remove_thread(tid(2));
    assert_eq!(s.run_list.len(), 3);
    s.remove_thread(tid(9));
    assert_eq!(s.run_list.len(), 3);
    assert_eq!(s.pick_idle(), tid(0));
}
