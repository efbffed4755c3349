use quantum_pulse::{
    pause_stack, unpause_stack, PausableTimer, ProfileCollector, ProfileTimer, ProfileTimerAsync,
    SimpleOperation, TimerRegistry,
};
use std::time::{Duration, Instant};

fn busy_wait(d: Duration) {
    let start = Instant::now();
    while start.elapsed() < d {
        std::hint::spin_loop();
    }
}

#[test]
fn test_profile_timer_basic() {
    let mut c = ProfileCollector::new();
    let mut reg = TimerRegistry::new();

    let operation = SimpleOperation::new("test_operation");
    let timer = ProfileTimer::new(&operation, &mut reg);
    busy_wait(Duration::from_millis(1));
    assert!(timer.elapsed_micros() > 0);
    timer.finish(&mut c, &mut reg);

    assert!(c.has_data());
    let stats = c.get_stats("::test_operation");
    assert!(stats.is_some());
    assert_eq!(stats.unwrap().count, 1);
}

#[test]
fn test_profile_timer_stop() {
    let mut c = ProfileCollector::new();
    let mut reg = TimerRegistry::new();

    let operation = SimpleOperation::new("stopped_operation");
    let timer = ProfileTimer::new(&operation, &mut reg);
    busy_wait(Duration::from_millis(1));
    let duration = timer.stop(&mut reg);

    assert!(duration >= 1000);
    // stop() never reaches the collector
    assert!(!c.has_data());
}

#[test]
fn test_profile_timer_stop_and_record() {
    let mut c = ProfileCollector::new();
    let mut reg = TimerRegistry::new();

    let operation = SimpleOperation::new("stop_and_record_op");
    let timer = ProfileTimer::new(&operation, &mut reg);
    busy_wait(Duration::from_millis(1));
    let duration = timer.stop_and_record(&mut c, &mut reg);

    assert!(duration >= 1000);
    assert!(c.has_data());
    let stats = c.get_stats("::stop_and_record_op");
    assert!(stats.is_some());
    assert_eq!(stats.unwrap().count, 1);
}

#[test]
fn test_manual_record() {
    let mut c = ProfileCollector::new();
    let mut reg = TimerRegistry::new();

    let operation = SimpleOperation::new("manual_record");
    let mut timer = ProfileTimer::new(&operation, &mut reg);
    busy_wait(Duration::from_millis(1));
    timer.record(&mut c, &reg);

    // Recording again must not duplicate
    timer.record(&mut c, &reg);

    timer.finish(&mut c, &mut reg);

    let stats = c.get_stats("::manual_record");
    assert!(stats.is_some());
    assert_eq!(stats.unwrap().count, 1);
}

#[test]
fn test_pausable_timer() {
    let mut c = ProfileCollector::new();
    let mut reg = TimerRegistry::new();

    let operation = SimpleOperation::new("test_pausable");
    let mut timer = PausableTimer::new(&operation, &mut reg);
    assert!(timer.is_running());

    busy_wait(Duration::from_millis(10));
    timer.pause();
    assert!(!timer.is_running());

    let paused_duration = timer.total_elapsed();
    busy_wait(Duration::from_millis(10));
    // the total must not move while paused
    assert_eq!(timer.total_elapsed(), paused_duration);

    timer.resume();
    assert!(timer.is_running());
    busy_wait(Duration::from_millis(10));
    assert!(timer.total_elapsed() > paused_duration);

    timer.finish(&mut c, &mut reg);

    assert!(c.has_data());
    let stats = c.get_stats("::test_pausable");
    assert!(stats.is_some());
}

#[test]
fn test_pausable_timer_excludes_paused_interval() {
    let mut c = ProfileCollector::new();
    let mut reg = TimerRegistry::new();

    let operation = SimpleOperation::new("exclude_pause");
    let mut timer = PausableTimer::new(&operation, &mut reg);
    busy_wait(Duration::from_millis(10));
    timer.pause();
    let at_pause = timer.total_elapsed();
    busy_wait(Duration::from_millis(50));
    timer.resume();
    busy_wait(Duration::from_millis(10));
    let recorded = timer.stop_and_record(&mut c, &mut reg);

    // roughly the two 10 ms intervals; certainly without the 50 ms pause
    assert!(recorded >= at_pause);
    assert!(recorded < 50_000 + 2 * at_pause + 20_000);
    let stats = c.get_stats("::exclude_pause").unwrap();
    assert_eq!(stats.count, 1);
}

#[test]
fn test_pausable_timer_start_paused() {
    let mut reg = TimerRegistry::new();

    let operation = SimpleOperation::new("start_paused");
    let timer = PausableTimer::new_paused(&operation, &mut reg);
    assert!(!timer.is_running());
    assert_eq!(timer.total_elapsed_micros(), 0);
}

#[test]
fn test_stack_pause_prevents_recording() {
    let mut c = ProfileCollector::new();
    let mut reg = TimerRegistry::new();

    let outer_op = SimpleOperation::new("OuterWork");
    let outer = ProfileTimer::new(&outer_op, &mut reg);
    busy_wait(Duration::from_millis(1));
    pause_stack(&mut reg);
    busy_wait(Duration::from_millis(1));
    outer.finish(&mut c, &mut reg);

    // a timer created after the pause still records normally
    let inner_op = SimpleOperation::new("InnerWork");
    let inner = ProfileTimer::new(&inner_op, &mut reg);
    busy_wait(Duration::from_millis(1));
    inner.finish(&mut c, &mut reg);

    let inner_stats = c.get_stats("::InnerWork");
    assert!(inner_stats.is_some(), "InnerWork should be recorded");
    assert_eq!(inner_stats.unwrap().count, 1);

    let outer_stats = c.get_stats("::OuterWork");
    assert!(
        outer_stats.is_none(),
        "OuterWork should not be recorded because pause_stack was called while it was active"
    );
}

#[test]
fn test_stack_pause_with_unpause() {
    let mut c = ProfileCollector::new();
    let mut reg = TimerRegistry::new();

    let op = SimpleOperation::new("OuterWork");
    let timer = ProfileTimer::new(&op, &mut reg);
    busy_wait(Duration::from_millis(1));
    pause_stack(&mut reg);
    busy_wait(Duration::from_millis(1));
    unpause_stack(&mut reg);
    busy_wait(Duration::from_millis(1));
    timer.finish(&mut c, &mut reg);

    let stats = c.get_stats("::OuterWork");
    assert!(
        stats.is_some(),
        "OuterWork should be recorded because unpause_stack ran before it dropped"
    );
    assert_eq!(stats.unwrap().count, 1);
}

#[test]
fn test_stack_pause_nested_timers() {
    let mut c = ProfileCollector::new();
    let mut reg = TimerRegistry::new();

    let outer_op = SimpleOperation::new("OuterWork");
    let outer = ProfileTimer::new(&outer_op, &mut reg);
    let inner_op = SimpleOperation::new("InnerWork");
    let inner = ProfileTimer::new(&inner_op, &mut reg);

    pause_stack(&mut reg);
    busy_wait(Duration::from_millis(1));

    inner.finish(&mut c, &mut reg);
    outer.finish(&mut c, &mut reg);

    assert!(
        c.get_stats("::InnerWork").is_none(),
        "InnerWork should not be recorded because it was paused"
    );
    assert!(
        c.get_stats("::OuterWork").is_none(),
        "OuterWork should not be recorded because it was also on the stack when paused"
    );
}

#[test]
fn test_stack_pause_nested_with_unpause() {
    let mut c = ProfileCollector::new();
    let mut reg = TimerRegistry::new();

    let outer_op = SimpleOperation::new("OuterWork");
    let outer = ProfileTimer::new(&outer_op, &mut reg);
    let inner_op = SimpleOperation::new("InnerWork");
    let inner = ProfileTimer::new(&inner_op, &mut reg);

    pause_stack(&mut reg);
    busy_wait(Duration::from_millis(1));
    unpause_stack(&mut reg);
    busy_wait(Duration::from_millis(1));

    inner.finish(&mut c, &mut reg);
    outer.finish(&mut c, &mut reg);

    let inner_stats = c.get_stats("::InnerWork");
    assert!(inner_stats.is_some(), "InnerWork should be recorded");
    assert_eq!(inner_stats.unwrap().count, 1);

    let outer_stats = c.get_stats("::OuterWork");
    assert!(outer_stats.is_some(), "OuterWork should be recorded");
    assert_eq!(outer_stats.unwrap().count, 1);
}

#[test]
fn test_stack_pause_does_not_affect_new_timers() {
    let mut c = ProfileCollector::new();
    let mut reg = TimerRegistry::new();

    let outer_op = SimpleOperation::new("OuterWork");
    let outer = ProfileTimer::new(&outer_op, &mut reg);
    pause_stack(&mut reg);
    outer.finish(&mut c, &mut reg);

    let sibling_op = SimpleOperation::new("SiblingWork");
    let sibling = ProfileTimer::new(&sibling_op, &mut reg);
    busy_wait(Duration::from_millis(1));
    sibling.finish(&mut c, &mut reg);

    let sibling_stats = c.get_stats("::SiblingWork");
    assert!(
        sibling_stats.is_some(),
        "SiblingWork should be recorded normally"
    );
    assert_eq!(sibling_stats.unwrap().count, 1);

    assert!(
        c.get_stats("::OuterWork").is_none(),
        "OuterWork should not be recorded"
    );
}

#[test]
fn test_multiple_pause_unpause_cycles() {
    let mut c = ProfileCollector::new();
    let mut reg = TimerRegistry::new();

    let op = SimpleOperation::new("OuterWork");
    let timer = ProfileTimer::new(&op, &mut reg);

    pause_stack(&mut reg);
    busy_wait(Duration::from_millis(1));
    unpause_stack(&mut reg);

    pause_stack(&mut reg);
    busy_wait(Duration::from_millis(1));
    unpause_stack(&mut reg);

    timer.finish(&mut c, &mut reg);

    let stats = c.get_stats("::OuterWork");
    assert!(stats.is_some(), "OuterWork should be recorded");
    assert_eq!(stats.unwrap().count, 1);
}

#[test]
fn test_stack_pause_dead_timer_not_rescued() {
    let mut c = ProfileCollector::new();
    let mut reg = TimerRegistry::new();

    let op = SimpleOperation::new("DeadEarly");
    let timer = ProfileTimer::new(&op, &mut reg);
    pause_stack(&mut reg);
    timer.finish(&mut c, &mut reg);

    // the timer is already gone; unpausing cannot resurrect it
    unpause_stack(&mut reg);
    assert!(c.get_stats("::DeadEarly").is_none());
}

#[test]
fn test_async_timer_records() {
    let mut c = ProfileCollector::new();

    let op = SimpleOperation::new("async_work");
    let timer = ProfileTimerAsync::new(&op);
    busy_wait(Duration::from_millis(1));
    assert!(timer.elapsed_micros() > 0);
    timer.finish(&mut c);

    let stats = c.get_stats("::async_work").unwrap();
    assert_eq!(stats.count, 1);
}

#[test]
fn test_pausable_reset() {
    let mut reg = TimerRegistry::new();
    let op = SimpleOperation::new("reset_me");
    let mut timer = PausableTimer::new(&op, &mut reg);
    busy_wait(Duration::from_millis(2));
    timer.pause();
    assert!(timer.total_elapsed() > 0);

    timer.reset_paused();
    assert!(!timer.is_running());
    assert_eq!(timer.total_elapsed(), 0);

    timer.reset();
    assert!(timer.is_running());
}

#[test]
fn test_timer_ids_are_fresh() {
    let mut reg = TimerRegistry::new();
    let op = SimpleOperation::new("ids");
    let t1 = ProfileTimer::new(&op, &mut reg);
    let t2 = ProfileTimer::new(&op, &mut reg);
    assert_ne!(t1.id(), t2.id());
}
