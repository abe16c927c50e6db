use kernel_sync::banker::is_safe;
use kernel_sync::process::{
    sys_condvar_create, sys_condvar_signal, sys_condvar_wait, sys_enable_deadlock_detect,
    sys_mutex_create, sys_mutex_lock, sys_mutex_unlock, sys_semaphore_create, sys_semaphore_down,
    sys_semaphore_up, sys_sleep, timer_wake, MutexKind, Process, TaskState, INVALID_ARGUMENT,
    WOULD_DEADLOCK,
};

fn process_with_tasks(n: usize) -> Process {
    let mut p = Process::new();
    for i in 0..n {
        assert_eq!(p.add_task(), i);
    }
    p
}

#[test]
fn single_task_mutex_without_detection() {
    let mut p = process_with_tasks(1);
    assert_eq!(sys_mutex_create(&mut p, true), 0);
    assert_eq!(sys_mutex_lock(&mut p, 0, 0), 0);
    assert_eq!(p.tasks[0], TaskState::Ready);
    assert_eq!(p.m.allocation[0][0], 1);
    assert_eq!(p.m.available[0], 0);
    assert_eq!(sys_mutex_unlock(&mut p, 0, 0), 0);
    assert_eq!(p.m.allocation[0][0], 0);
    assert_eq!(p.m.available[0], 1);
    assert_eq!(p.m.need[0][0], 0);
}

#[test]
fn circular_wait_is_refused() {
    let mut p = process_with_tasks(2);
    assert_eq!(sys_enable_deadlock_detect(&mut p, 1), 0);
    assert_eq!(sys_mutex_create(&mut p, true), 0);
    assert_eq!(sys_mutex_create(&mut p, true), 1);
    assert_eq!(sys_mutex_lock(&mut p, 0, 0), 0);
    assert_eq!(sys_mutex_lock(&mut p, 1, 1), 0);
    // Task 0 asks for mutex 1: safe, since task 1 can still finish first.
    assert_eq!(sys_mutex_lock(&mut p, 0, 1), 0);
    assert_eq!(p.tasks[0], TaskState::Blocked);
    assert_eq!(p.m.need[0][1], 1);
    // Task 1 asking for mutex 0 would close the cycle.
    assert_eq!(sys_mutex_lock(&mut p, 1, 0), WOULD_DEADLOCK);
    assert_eq!(p.tasks[1], TaskState::Ready);
}

#[test]
fn refused_request_leaves_accounting_unchanged() {
    let mut p = process_with_tasks(2);
    sys_enable_deadlock_detect(&mut p, 1);
    sys_mutex_create(&mut p, false);
    sys_mutex_create(&mut p, false);
    sys_mutex_lock(&mut p, 0, 0);
    sys_mutex_lock(&mut p, 1, 1);
    sys_mutex_lock(&mut p, 0, 1);
    let need = p.m.need.clone();
    let allocation = p.m.allocation.clone();
    let available = p.m.available.clone();
    let waiters = p.mutex_waiters.clone();
    assert_eq!(sys_mutex_lock(&mut p, 1, 0), WOULD_DEADLOCK);
    assert_eq!(p.m.need, need);
    assert_eq!(p.m.allocation, allocation);
    assert_eq!(p.m.available, available);
    assert_eq!(p.mutex_waiters, waiters);
}

#[test]
fn semaphore_admits_two_of_three() {
    let mut p = process_with_tasks(3);
    assert_eq!(sys_semaphore_create(&mut p, 2), 0);
    assert_eq!(sys_semaphore_down(&mut p, 0, 0), 0);
    assert_eq!(sys_semaphore_down(&mut p, 1, 0), 0);
    assert_eq!(sys_semaphore_down(&mut p, 2, 0), 0);
    assert_eq!(p.tasks[0], TaskState::Ready);
    assert_eq!(p.tasks[1], TaskState::Ready);
    assert_eq!(p.tasks[2], TaskState::Blocked);
    assert_eq!(p.s.available[0], 0);
    assert_eq!(p.s.need[2][0], 1);
    assert_eq!(sys_semaphore_up(&mut p, 0, 0), 0);
    assert_eq!(p.tasks[2], TaskState::Ready);
    assert_eq!(p.s.allocation[2][0], 1);
    assert_eq!(p.s.need[2][0], 0);
    assert_eq!(p.s.available[0], 0);
    assert_eq!(sys_semaphore_up(&mut p, 1, 0), 0);
    assert_eq!(sys_semaphore_up(&mut p, 2, 0), 0);
    assert_eq!(p.s.available[0], 2);
}

#[test]
fn condvar_producer_consumer() {
    let mut p = process_with_tasks(2);
    let consumer = 0;
    let producer = 1;
    let mut shared = 0u32;
    assert_eq!(sys_mutex_create(&mut p, true), 0);
    assert_eq!(sys_condvar_create(&mut p), 0);
    assert_eq!(sys_mutex_lock(&mut p, consumer, 0), 0);
    assert_eq!(sys_condvar_wait(&mut p, consumer, 0, 0), 0);
    assert_eq!(p.tasks[consumer], TaskState::Blocked);
    assert_eq!(p.m.available[0], 1);
    assert_eq!(sys_mutex_lock(&mut p, producer, 0), 0);
    assert_eq!(p.tasks[producer], TaskState::Ready);
    shared += 1;
    assert_eq!(sys_condvar_signal(&mut p, 0), 0);
    // The mutex is still held, so the consumer waits for it.
    assert_eq!(p.tasks[consumer], TaskState::Blocked);
    assert_eq!(p.mutex_waiters[0], vec![consumer]);
    assert_eq!(sys_mutex_unlock(&mut p, producer, 0), 0);
    assert_eq!(p.tasks[consumer], TaskState::Ready);
    assert_eq!(p.m.allocation[consumer][0], 1);
    assert_eq!(p.m.need[consumer][0], 0);
    assert_eq!(shared, 1);
}

#[test]
fn detection_off_lets_both_tasks_block() {
    let mut p = process_with_tasks(2);
    sys_enable_deadlock_detect(&mut p, 1);
    assert_eq!(sys_enable_deadlock_detect(&mut p, 0), 0);
    assert!(!p.use_dead_lock);
    sys_mutex_create(&mut p, true);
    sys_mutex_create(&mut p, true);
    assert_eq!(sys_mutex_lock(&mut p, 0, 0), 0);
    assert_eq!(sys_mutex_lock(&mut p, 1, 1), 0);
    assert_eq!(sys_mutex_lock(&mut p, 0, 1), 0);
    assert_eq!(sys_mutex_lock(&mut p, 1, 0), 0);
    assert_eq!(p.tasks[0], TaskState::Blocked);
    assert_eq!(p.tasks[1], TaskState::Blocked);
}

#[test]
fn enable_rejects_other_values() {
    let mut p = process_with_tasks(1);
    assert_eq!(sys_enable_deadlock_detect(&mut p, 1), 0);
    assert!(p.use_dead_lock);
    assert_eq!(sys_enable_deadlock_detect(&mut p, 2), INVALID_ARGUMENT);
    assert_eq!(INVALID_ARGUMENT, -1);
    assert!(p.use_dead_lock);
    assert_eq!(WOULD_DEADLOCK, -0xDEAD);
}

#[test]
fn ids_are_assigned_in_order_per_table() {
    let mut p = process_with_tasks(2);
    assert_eq!(sys_mutex_create(&mut p, false), 0);
    assert_eq!(sys_semaphore_create(&mut p, 3), 0);
    assert_eq!(sys_mutex_create(&mut p, true), 1);
    assert_eq!(sys_condvar_create(&mut p), 0);
    assert_eq!(sys_semaphore_create(&mut p, 0), 1);
    assert_eq!(sys_condvar_create(&mut p), 1);
    assert_eq!(p.mutex_list, vec![Some(MutexKind::Spin), Some(MutexKind::Blocking)]);
    assert_eq!(p.semaphore_list, vec![Some(3), Some(0)]);
    assert_eq!(p.s.available, vec![3, 0]);
    assert_eq!(p.m.available, vec![1, 1]);
}

#[test]
fn new_resources_reach_existing_tasks() {
    let mut p = process_with_tasks(1);
    sys_mutex_create(&mut p, true);
    assert_eq!(p.add_task(), 1);
    sys_mutex_create(&mut p, true);
    sys_semaphore_create(&mut p, 4);
    for t in 0..2 {
        assert_eq!(p.m.need[t], vec![0, 0]);
        assert_eq!(p.m.allocation[t], vec![0, 0]);
        assert_eq!(p.s.need[t], vec![0]);
        assert_eq!(p.s.allocation[t], vec![0]);
    }
}

#[test]
fn units_stay_conserved_across_calls() {
    let mut p = process_with_tasks(3);
    sys_semaphore_create(&mut p, 2);
    sys_mutex_create(&mut p, true);
    sys_semaphore_down(&mut p, 0, 0);
    sys_semaphore_down(&mut p, 1, 0);
    sys_semaphore_down(&mut p, 2, 0);
    sys_mutex_lock(&mut p, 0, 0);
    sys_mutex_lock(&mut p, 1, 0);
    let held: u64 = (0..3).map(|t| p.s.allocation[t][0]).sum();
    assert_eq!(held + p.s.available[0], 2);
    let held: u64 = (0..3).map(|t| p.m.allocation[t][0]).sum();
    assert_eq!(held + p.m.available[0], 1);
}

#[test]
fn semaphore_down_refused_when_unsafe() {
    let mut p = process_with_tasks(2);
    sys_enable_deadlock_detect(&mut p, 1);
    sys_semaphore_create(&mut p, 1);
    sys_semaphore_create(&mut p, 1);
    assert_eq!(sys_semaphore_down(&mut p, 0, 0), 0);
    assert_eq!(sys_semaphore_down(&mut p, 1, 1), 0);
    assert_eq!(sys_semaphore_down(&mut p, 0, 1), 0);
    assert_eq!(sys_semaphore_down(&mut p, 1, 0), WOULD_DEADLOCK);
    assert_eq!(p.s.need[1], vec![0, 0]);
    assert_eq!(p.s.allocation[1], vec![0, 1]);
}

#[test]
fn safety_check_on_fixed_state() {
    let available = vec![0u64, 0];
    let need = vec![vec![0u64, 1], vec![0, 0]];
    let alloc = vec![vec![1u64, 0], vec![0, 1]];
    assert!(is_safe(&available, &need, &alloc));
    assert_eq!(is_safe(&available, &need, &alloc), is_safe(&available, &need, &alloc));
    let need = vec![vec![0u64, 1], vec![1, 0]];
    assert!(!is_safe(&available, &need, &alloc));
    assert!(!is_safe(&available, &need, &alloc));
}

#[test]
fn safety_check_needs_several_passes() {
    // Task 0 can only finish after task 2, which only fits after task 1.
    let available = vec![1u64];
    let need = vec![vec![3u64], vec![1], vec![2]];
    let alloc = vec![vec![0u64], vec![1], vec![1]];
    assert!(is_safe(&available, &need, &alloc));
    let need = vec![vec![4u64], vec![1], vec![2]];
    assert!(!is_safe(&available, &need, &alloc));
}

#[test]
fn safety_check_with_no_tasks_or_resources() {
    assert!(is_safe(&vec![], &vec![], &vec![]));
    assert!(is_safe(&vec![5], &vec![], &vec![]));
    assert!(is_safe(&vec![], &vec![vec![], vec![]], &vec![vec![], vec![]]));
}

#[test]
fn sleep_sets_deadline_and_timer_wakes() {
    let mut p = process_with_tasks(2);
    assert_eq!(sys_sleep(&mut p, 1, 100, 50), 0);
    assert_eq!(p.tasks[1], TaskState::Sleeping { until: 150 });
    timer_wake(&mut p, 1, 149);
    assert_eq!(p.tasks[1], TaskState::Sleeping { until: 150 });
    timer_wake(&mut p, 1, 150);
    assert_eq!(p.tasks[1], TaskState::Ready);
    assert_eq!(p.tasks[0], TaskState::Ready);
}

#[test]
fn blocking_mutex_hands_off_in_arrival_order() {
    let mut p = process_with_tasks(3);
    sys_mutex_create(&mut p, true);
    sys_mutex_lock(&mut p, 0, 0);
    sys_mutex_lock(&mut p, 1, 0);
    sys_mutex_lock(&mut p, 2, 0);
    assert_eq!(p.mutex_waiters[0], vec![1, 2]);
    sys_mutex_unlock(&mut p, 0, 0);
    assert_eq!(p.tasks[1], TaskState::Ready);
    assert_eq!(p.tasks[2], TaskState::Blocked);
    assert_eq!(p.m.allocation[1][0], 1);
    assert_eq!(p.m.available[0], 0);
    sys_mutex_unlock(&mut p, 1, 0);
    assert_eq!(p.tasks[2], TaskState::Ready);
    sys_mutex_unlock(&mut p, 2, 0);
    assert_eq!(p.m.available[0], 1);
    assert!(p.mutex_waiters[0].is_empty());
}

#[test]
fn signal_without_waiter_changes_nothing() {
    let mut p = process_with_tasks(1);
    sys_condvar_create(&mut p);
    assert_eq!(sys_condvar_signal(&mut p, 0), 0);
    assert!(p.condvar_waiters[0].is_empty());
    assert_eq!(p.tasks[0], TaskState::Ready);
}

#[test]
fn relocking_a_held_mutex_is_refused_with_detection() {
    let mut p = process_with_tasks(2);
    sys_enable_deadlock_detect(&mut p, 1);
    sys_mutex_create(&mut p, true);
    assert_eq!(sys_mutex_lock(&mut p, 0, 0), 0);
    assert_eq!(sys_mutex_lock(&mut p, 0, 0), WOULD_DEADLOCK);
    for t in 0..2 {
        assert!(p.m.need[t][0] + p.m.allocation[t][0] <= 1);
    }
    // Another task may queue for it: the holder can still finish first.
    assert_eq!(sys_mutex_lock(&mut p, 1, 0), 0);
    assert_eq!(p.tasks[1], TaskState::Blocked);
}
