use kyute::application::{CallbackQueue, TimerToken, Timers};

#[test]
fn queued_callbacks_are_due_at_once() {
    let mut timers = Timers::new();
    let mut q: CallbackQueue<&'static str> = CallbackQueue::new();
    let t = q.run_queued(&mut timers, "now");
    let (due, next) = q.due_callbacks(0);
    assert_eq!(due, vec![t]);
    assert_eq!(next, None);
    assert_eq!(timers.next_deadline(), None);
}

#[test]
fn delayed_callbacks_wait_for_their_deadline() {
    let mut timers = Timers::new();
    let mut q: CallbackQueue<&'static str> = CallbackQueue::new();
    let a = q.run_after(&mut timers, 100, 50, "a");
    let b = q.run_after(&mut timers, 100, 20, "b");
    assert_eq!(q.len(), 2);
    let (due, next) = q.due_callbacks(110);
    assert!(due.is_empty());
    assert_eq!(next, Some(120));
    assert_eq!(timers.next_deadline(), Some(120));
    let (due, next) = q.due_callbacks(120);
    assert_eq!(due, vec![b]);
    assert_eq!(next, Some(150));
    assert_eq!(q.take_callback(b), Some("b"));
    assert_eq!(q.take_callback(b), None);
    let (due, next) = q.due_callbacks(1000);
    assert_eq!(due, vec![a]);
    assert_eq!(next, None);
}

#[test]
fn cancelled_callbacks_never_run() {
    let mut timers = Timers::new();
    let mut q: CallbackQueue<&'static str> = CallbackQueue::new();
    let a = q.run_after(&mut timers, 0, 10, "a");
    q.run_queued(&mut timers, "b");
    a.cancel(&mut q, &mut timers);
    assert_eq!(q.len(), 1);
    assert_eq!(timers.next_deadline(), None);
    let (due, _) = q.due_callbacks(100);
    assert_eq!(due.len(), 1);
    assert_eq!(q.take_callback(a), None);
}

#[test]
fn timers() {
    let mut timers = Timers::new();
    let t1 = TimerToken::new(30, &mut timers);
    let _t2 = TimerToken::new(10, &mut timers);
    assert_eq!(timers.next_deadline(), Some(10));
    t1.cancel(&mut timers);
    assert_eq!(timers.next_deadline(), Some(10));
}

#[test]
fn each_token_keeps_its_function() {
    let mut timers = Timers::new();
    let mut q: CallbackQueue<&'static str> = CallbackQueue::new();
    let a = q.run_queued(&mut timers, "a");
    let b = q.run_after(&mut timers, 0, 5, "b");
    let c = q.run_queued(&mut timers, "c");
    q.cancel_callback(&mut timers, b);
    let d = q.run_queued(&mut timers, "d");
    assert_eq!(q.take_callback(c), Some("c"));
    assert_eq!(q.take_callback(d), Some("d"));
    assert_eq!(q.take_callback(a), Some("a"));
    assert_eq!(q.take_callback(b), None);
    assert_eq!(q.len(), 0);
}
