use kyute::event::{EmitterHandle, EventRegistry, EventTypeKey, DATA_CHANGED};
use kyute::model::{with_tracking_scope, Model, TrackingScope};

type Cb = &'static str;

#[test]
fn emitting_reaches_the_subscribers() {
    let mut reg: EventRegistry<Cb> = EventRegistry::new();
    let a = EmitterHandle::new(&mut reg);
    let b = EmitterHandle::new(&mut reg);
    assert!(reg.is_live_emitter(a.key()));
    let t = EventTypeKey(7);
    let s1 = reg.subscribe_raw(&vec![a.key()], t, "one");
    let s2 = reg.subscribe_raw(&vec![a.key(), b.key()], t, "two");
    let mut to_a = reg.emit_raw(a.key(), t);
    to_a.sort_by_key(|k| k.id());
    let mut expected = vec![s1, s2];
    expected.sort_by_key(|k| k.id());
    assert_eq!(to_a, expected);
    assert_eq!(reg.emit_raw(b.key(), t), vec![s2]);
    // another event type reaches nobody
    assert!(reg.emit_raw(a.key(), EventTypeKey(8)).is_empty());
}

#[test]
fn unsubscribed_callbacks_are_not_reached() {
    let mut reg: EventRegistry<Cb> = EventRegistry::new();
    let a = EmitterHandle::new(&mut reg);
    let t = EventTypeKey(1);
    let s = reg.subscribe_raw(&vec![a.key()], t, "cb");
    s.unsubscribe(&mut reg);
    // the routing entry stays until the next cleanup, but nothing is handed out
    assert_eq!(reg.emit_raw(a.key(), t), vec![s]);
    assert_eq!(reg.take_callback(s), None);
    reg.cleanup();
    assert!(reg.emit_raw(a.key(), t).is_empty());
}

#[test]
fn callbacks_are_handed_out_and_put_back() {
    let mut reg: EventRegistry<Cb> = EventRegistry::new();
    let a = EmitterHandle::new(&mut reg);
    let t = EventTypeKey(3);
    let s = reg.subscribe_raw(&vec![a.key()], t, "cb");
    assert_eq!(reg.take_callback(s), Some("cb"));
    // while it is out, it cannot be taken again
    assert_eq!(reg.take_callback(s), None);
    reg.finish_callback(s, "cb", true);
    assert_eq!(reg.take_callback(s), Some("cb"));
    // a callback that asks not to be kept is removed
    reg.finish_callback(s, "cb", false);
    assert_eq!(reg.take_callback(s), None);
    reg.cleanup();
    assert!(reg.emit_raw(a.key(), t).is_empty());
}

#[test]
fn global_events() {
    let mut reg: EventRegistry<Cb> = EventRegistry::new();
    let t = EventTypeKey(5);
    let s = reg.subscribe_global(t, "global");
    assert_eq!(reg.emit_global(t), vec![s]);
    assert_eq!(reg.emit_raw(reg.global_emitter(), t), vec![s]);
}

#[test]
fn released_emitters_reach_nobody() {
    let mut reg: EventRegistry<Cb> = EventRegistry::new();
    let a = EmitterHandle::new(&mut reg);
    let key = a.key();
    let t = EventTypeKey(2);
    reg.subscribe_raw(&vec![key], t, "cb");
    a.release(&mut reg);
    assert!(!reg.is_live_emitter(key));
    reg.cleanup();
    assert!(reg.emit_raw(key, t).is_empty());
}

#[test]
fn models_announce_changes() {
    let mut reg: EventRegistry<Cb> = EventRegistry::new();
    let m = Model::new(1u32, &mut reg);
    let s = m.watch("watcher", &mut reg);
    let (old, targets) = m.replace(2, &reg).unwrap();
    assert_eq!(old, 1);
    assert_eq!(m.get().unwrap(), 2);
    assert_eq!(targets, vec![s]);
    let targets = m.update(|v| *v += 40, &reg).unwrap();
    assert_eq!(m.get().unwrap(), 42);
    assert_eq!(targets, vec![s]);
    assert_eq!(m.emit(EventTypeKey(DATA_CHANGED), &reg), vec![s]);
}

#[test]
fn model_clones_share_data_and_emitter() {
    let mut reg: EventRegistry<Cb> = EventRegistry::new();
    let m = Model::new(String::from("a"), &mut reg);
    let m2 = m.clone();
    m2.replace(String::from("b"), &reg).unwrap();
    assert_eq!(m.get().unwrap(), "b");
    assert_eq!(m.key(), m2.key());
    assert_eq!(m.as_dyn(), m2.as_dyn());
}

#[test]
fn weak_models() {
    let mut reg: EventRegistry<Cb> = EventRegistry::new();
    let m = Model::new(5i32, &mut reg);
    let w = m.downgrade();
    assert_eq!(w.as_dyn().key, m.key());
    let up = w.upgrade().unwrap();
    assert_eq!(up.get().unwrap(), 5);
    assert_eq!(up.key(), m.key());
    m.modify(|v, weak| {
        *v = 6;
        assert!(weak.upgrade().is_some());
    })
    .unwrap();
    assert_eq!(up.get().unwrap(), 6);
    drop(up);
    drop(m);
    assert!(w.upgrade().is_none());
}

#[test]
fn tracking_scope_watches_what_was_read() {
    let mut reg: EventRegistry<Cb> = EventRegistry::new();
    let a = Model::new(0u8, &mut reg);
    let b = Model::new(0u8, &mut reg);
    let mut scope = TrackingScope::new();
    scope.track_read(a.key());
    scope.track_write(b.key());
    assert!(scope.reads.contains(&a.key().id()));
    assert!(scope.writes.contains(&b.key().id()));
    let s = scope.watch_once("scope", &mut reg);
    assert_eq!(a.replace(1, &reg).unwrap().1, vec![s]);
    assert_eq!(b.replace(1, &reg).unwrap().1, vec![s]);
}

#[test]
fn model_in_use_is_reported() {
    let mut reg: EventRegistry<Cb> = EventRegistry::new();
    let m = Model::new(1u32, &mut reg);
    let s = m.watch("watcher", &mut reg);
    let m2 = m.clone();
    let targets = m
        .update(
            |v| {
                assert!(m2.get().is_err());
                let (back, _) = m2.replace(7, &reg).unwrap_err();
                assert_eq!(back, 7);
                assert!(m2.update(|w| *w = 9, &reg).is_err());
                assert!(m2.modify(|w, _| *w = 9).is_err());
                *v = 2;
            },
            &reg,
        )
        .unwrap();
    assert_eq!(targets, vec![s]);
    assert_eq!(m.get().unwrap(), 2);
}

#[test]
fn dispatch_skips_removed_subscriptions() {
    let mut reg: EventRegistry<Cb> = EventRegistry::new();
    let a = EmitterHandle::new(&mut reg);
    let t = EventTypeKey(4);
    let s1 = reg.subscribe_raw(&vec![a.key()], t, "one");
    let s2 = reg.subscribe_raw(&vec![a.key()], t, "two");
    let targets = vec![s1, s2];
    s1.unsubscribe(&mut reg);
    assert_eq!(reg.dispatch_next(&targets, 0), Some((1, "two")));
    // the callback is out: nothing more to hand out
    assert_eq!(reg.dispatch_next(&targets, 0), None);
    reg.finish_callback(s2, "two", false);
    assert_eq!(reg.dispatch_next(&targets, 0), None);
}

#[test]
fn one_shot_subscriptions_run_once() {
    let mut reg: EventRegistry<Cb> = EventRegistry::new();
    let a = Model::new(0u8, &mut reg);
    let mut scope = TrackingScope::new();
    scope.track_read(a.key());
    let s = scope.watch_once("scope", &mut reg);
    let targets = a.replace(1, &reg).unwrap().1;
    assert_eq!(targets, vec![s]);
    assert_eq!(reg.dispatch_next(&targets, 0), Some((0, "scope")));
    // even if the callback asks to be kept, it is removed
    reg.finish_callback(s, "scope", true);
    assert!(!reg.contains_subscription(s));
    assert_eq!(reg.dispatch_next(&targets, 0), None);
    // an ordinary subscription is kept when it asks to be
    let k = reg.subscribe_raw(&vec![a.key()], EventTypeKey(DATA_CHANGED), "kept");
    assert_eq!(reg.take_callback(k), Some("kept"));
    reg.finish_callback(k, "kept", true);
    assert!(reg.contains_subscription(k));
    let o = reg.subscribe_once(&vec![a.key()], EventTypeKey(9), "once");
    assert_eq!(reg.take_callback(o), Some("once"));
    reg.finish_callback(o, "once", true);
    assert!(!reg.contains_subscription(o));
}

#[test]
fn tracked_accesses_are_recorded() {
    let mut reg: EventRegistry<Cb> = EventRegistry::new();
    let a = Model::new(String::from("a"), &mut reg);
    let b = Model::new(1u32, &mut reg);
    assert_eq!(a.read(|s| s.len()).unwrap(), 1);
    let (v, scope) = with_tracking_scope(|scope| {
        let x = a.get_tracked(scope).unwrap();
        b.update_tracked(|n| *n += 1, &reg, scope).unwrap();
        x
    });
    assert_eq!(v, "a");
    assert!(scope.reads.contains(&a.key().id()));
    assert!(scope.reads.contains(&b.key().id()));
    assert!(!scope.writes.contains(&a.key().id()));
    assert!(scope.writes.contains(&b.key().id()));
    assert_eq!(b.get().unwrap(), 2);
    let mut s2 = TrackingScope::new();
    let (old, _) = a.replace_tracked(String::from("z"), &reg, &mut s2).unwrap();
    assert_eq!(old, "a");
    assert!(s2.writes.contains(&a.key().id()));
}
