//! Tests of the thread-exit reaper.

use comploader::reaper::{
    cleaner_step, ManagedThread, ThreadCleaner, ThreadRegistry, WaitCondition, Waits,
};

fn th(id: u128) -> ManagedThread {
    ManagedThread { id, repr: id + 1000 }
}

fn registry_with(ids: &[u128]) -> ThreadRegistry {
    let mut reg = ThreadRegistry::new();
    for id in ids {
        reg.insert(th(*id));
    }
    reg
}

fn holds(list: &Vec<ManagedThread>, id: u128) -> bool {
    list.iter().any(|t| t.id == id)
}

#[test]
fn track_then_exit_before_drain_still_reaps() {
    // track(thread) followed immediately by that thread exiting before
    // the reaper drains its queue still removes it from the registry.
    let mut cleaner = ThreadCleaner::new();
    let mut waits = Waits::new();
    let mut registry = registry_with(&[7]);
    cleaner.track(th(7));
    assert_eq!(cleaner.data.notify, 1);
    let exited = vec![7u128];
    let (conds, block) = cleaner_step(&mut cleaner, &mut waits, &mut registry, &exited);
    assert!(!block, "new work arrived, so the loop must not sleep");
    assert!(!holds(&waits.threads, 7), "exited thread left the tracked set");
    assert!(!holds(&registry.threads, 7), "exited thread left the registry");
    assert_eq!(conds.len(), 1);
    assert_eq!(conds[0], WaitCondition::NotifyIsZero);
}

#[test]
fn untracked_thread_stays_in_registry() {
    // untrack removes a thread from the tracked set without removing it
    // from the registry.
    let mut cleaner = ThreadCleaner::new();
    let mut waits = Waits::new();
    let mut registry = registry_with(&[1, 2]);
    cleaner.track(th(1));
    cleaner.track(th(2));
    let none: Vec<u128> = vec![];
    cleaner_step(&mut cleaner, &mut waits, &mut registry, &none);
    assert!(holds(&waits.threads, 1));
    assert!(holds(&waits.threads, 2));
    cleaner.untrack(1);
    let (_, _) = cleaner_step(&mut cleaner, &mut waits, &mut registry, &none);
    assert!(!holds(&waits.threads, 1));
    assert!(holds(&waits.threads, 2));
    assert!(holds(&registry.threads, 1), "untrack must not touch the registry");
    assert!(holds(&registry.threads, 2));
}

#[test]
fn interleaved_ops_converge() {
    // A mixed queue applied in one iteration: every exited tracked
    // thread is gone from both sets, every untracked thread only from
    // the tracked set, and last-queued operations win.
    let mut cleaner = ThreadCleaner::new();
    let mut waits = Waits::new();
    let mut registry = registry_with(&[1, 2, 3, 4]);
    cleaner.track(th(1));
    cleaner.track(th(2));
    cleaner.track(th(3));
    cleaner.untrack(2);
    cleaner.track(th(4));
    cleaner.untrack(4);
    cleaner.track(th(4));
    let exited = vec![3u128, 4];
    let (conds, block) = cleaner_step(&mut cleaner, &mut waits, &mut registry, &exited);
    assert!(!block);
    // tracked: 1 only (2 untracked, 3 and 4 exited)
    assert!(holds(&waits.threads, 1));
    assert!(!holds(&waits.threads, 2));
    assert!(!holds(&waits.threads, 3));
    assert!(!holds(&waits.threads, 4));
    // registry: 1 and 2 remain; 3 and 4 were reaped
    assert!(holds(&registry.threads, 1));
    assert!(holds(&registry.threads, 2));
    assert!(!holds(&registry.threads, 3));
    assert!(!holds(&registry.threads, 4));
    // one wait condition per remaining thread, after the notify condition
    assert_eq!(conds.len(), 2);
    assert_eq!(conds[0], WaitCondition::NotifyIsZero);
    assert_eq!(conds[1], WaitCondition::ThreadExit(th(1).repr));
}

#[test]
fn idle_iteration_blocks() {
    // With no notification pending, the loop builds its wait set and
    // decides to block.
    let mut cleaner = ThreadCleaner::new();
    let mut waits = Waits::new();
    let mut registry = ThreadRegistry::new();
    let none: Vec<u128> = vec![];
    let (conds, block) = cleaner_step(&mut cleaner, &mut waits, &mut registry, &none);
    assert!(block, "no new work: sleep on the condition set");
    assert_eq!(conds.len(), 1);
    assert_eq!(conds[0], WaitCondition::NotifyIsZero);
    assert_eq!(cleaner.data.notify, 0);
}

#[test]
fn add_overwrites_tracked_thread() {
    // Tracking the same id again replaces the tracked handle.
    let mut cleaner = ThreadCleaner::new();
    let mut waits = Waits::new();
    let mut registry = ThreadRegistry::new();
    cleaner.track(ManagedThread { id: 5, repr: 100 });
    cleaner.track(ManagedThread { id: 5, repr: 200 });
    let none: Vec<u128> = vec![];
    let (conds, _) = cleaner_step(&mut cleaner, &mut waits, &mut registry, &none);
    assert_eq!(waits.threads.len(), 1);
    assert_eq!(waits.threads[0].repr, 200);
    assert_eq!(conds.len(), 2);
    assert_eq!(conds[1], WaitCondition::ThreadExit(200));
}
