use functional::{
    commit, update, use_effect, use_effect1, use_effect2, use_effect3, use_effect4, use_effect5,
    use_hook, use_reducer, use_reducer_with_init, use_ref, use_state, Dep, Deps, EffectRun,
    HookError, HookFrame, Mutation, Reducer, Slot,
};

#[test]
fn counter_observes_zero_to_three() {
    let mut f = HookFrame::new();
    let mut seen = Vec::new();
    for _ in 0..4 {
        f.begin_render();
        let (v, set) = use_state(&mut f, 0).unwrap();
        seen.push(v);
        set.set(&mut f, v + 1);
        assert_eq!(commit(&mut f), Ok(true));
    }
    assert_eq!(seen, vec![0, 1, 2, 3]);
}

#[test]
fn reducer_add_two_dispatches() {
    let mut f = HookFrame::new();
    f.begin_render();
    let (s, d) = use_reducer(&mut f, Reducer::Add, 10).unwrap();
    assert_eq!(s, 10);
    d.dispatch(&mut f, 5);
    d.dispatch(&mut f, -3);
    assert_eq!(commit(&mut f), Ok(true));
    f.begin_render();
    let (s, _) = use_reducer(&mut f, Reducer::Add, 10).unwrap();
    assert_eq!(s, 12);
}

#[test]
fn reducer_order_is_kept() {
    let mut f = HookFrame::new();
    f.begin_render();
    let (_, d) = use_reducer(&mut f, Reducer::Replace, 0).unwrap();
    d.dispatch(&mut f, 1);
    d.dispatch(&mut f, 2);
    commit(&mut f).unwrap();
    f.begin_render();
    assert_eq!(use_reducer(&mut f, Reducer::Replace, 0).unwrap().0, 2);
}

#[test]
fn reducer_add_saturates() {
    let mut f = HookFrame::new();
    f.begin_render();
    let (_, d) = use_reducer(&mut f, Reducer::Add, i64::MAX - 1).unwrap();
    d.dispatch(&mut f, 5);
    commit(&mut f).unwrap();
    f.begin_render();
    assert_eq!(use_reducer(&mut f, Reducer::Add, 0).unwrap().0, i64::MAX);
}

#[test]
fn reducer_init_runs_once() {
    let mut f = HookFrame::new();
    f.begin_render();
    let (s, _) = use_reducer_with_init(&mut f, Reducer::Add, 4, |x| x * 10).unwrap();
    assert_eq!(s, 40);
    f.begin_render();
    let (s, _) = use_reducer_with_init(&mut f, Reducer::Add, 7, |x| x * 10).unwrap();
    assert_eq!(s, 40);
}

#[test]
fn setter_before_commit_changes_nothing() {
    let mut f = HookFrame::new();
    f.begin_render();
    let (_, set) = use_state(&mut f, 3).unwrap();
    set.set(&mut f, 9);
    f.begin_render();
    assert_eq!(use_state(&mut f, 3).unwrap().0, 3);
    assert_eq!(commit(&mut f), Ok(true));
    f.begin_render();
    assert_eq!(use_state(&mut f, 3).unwrap().0, 9);
    assert_eq!(commit(&mut f), Ok(false));
}

#[test]
fn calls_resolve_to_same_slots() {
    let mut f = HookFrame::new();
    for _ in 0..3 {
        f.begin_render();
        assert_eq!(use_hook(&mut f, Slot::State { value: 1 }), 0);
        assert_eq!(use_hook(&mut f, Slot::Cell { value: 2 }), 1);
        assert_eq!(use_hook(&mut f, Slot::State { value: 3 }), 2);
        assert_eq!(f.slots.len(), 3);
    }
}

#[test]
fn ref_identity_is_stable() {
    let mut f = HookFrame::new();
    f.begin_render();
    let r0 = use_ref(&mut f, 5).unwrap();
    assert_eq!(r0.get(&f), Ok(5));
    r0.put(&mut f, 6).unwrap();
    assert!(f.queue.is_empty());
    for _ in 0..3 {
        f.begin_render();
        let r = use_ref(&mut f, 5).unwrap();
        assert_eq!(r, r0);
        assert_eq!(r.get(&f), Ok(6));
    }
}

#[test]
fn order_change_is_a_mismatch() {
    let mut f = HookFrame::new();
    f.begin_render();
    use_state(&mut f, 1).unwrap();
    f.begin_render();
    assert_eq!(use_ref(&mut f, 1), Err(HookError::SlotMismatch));
}

#[test]
fn update_errors() {
    let mut f = HookFrame::new();
    assert_eq!(update(&mut f, Mutation::Touch { slot: 0 }), Err(HookError::NoSlot));
    f.begin_render();
    use_ref(&mut f, 1).unwrap();
    assert_eq!(
        update(&mut f, Mutation::Replace { slot: 0, value: 2 }),
        Err(HookError::SlotMismatch)
    );
    assert_eq!(update(&mut f, Mutation::Touch { slot: 0 }), Err(HookError::SlotMismatch));
    use_effect(&mut f).unwrap();
    assert_eq!(update(&mut f, Mutation::Touch { slot: 1 }), Ok(true));
}

#[test]
fn commit_stops_at_first_failure() {
    let mut f = HookFrame::new();
    f.begin_render();
    let (_, set) = use_state(&mut f, 0).unwrap();
    set.set(&mut f, 7);
    f.queue.push(Mutation::Dispatch { slot: 0, action: 1 });
    set.set(&mut f, 9);
    assert_eq!(commit(&mut f), Err(HookError::SlotMismatch));
    assert!(f.queue.is_empty());
    assert_eq!(f.slots, vec![Slot::State { value: 7 }]);
}

#[test]
fn commit_of_empty_queue_asks_no_render() {
    let mut f = HookFrame::new();
    assert_eq!(commit(&mut f), Ok(false));
}

#[test]
fn effect_stores_new_snapshot() {
    let mut f = HookFrame::new();
    f.begin_render();
    use_effect2(&mut f, 1, 2).unwrap();
    commit(&mut f).unwrap();
    f.begin_render();
    let e = use_effect2(&mut f, 1, 3).unwrap();
    assert_eq!(e, EffectRun { run_cleanup: true, fire: true });
    assert_eq!(f.queue, vec![Mutation::Touch { slot: 0 }]);
    let stored = Deps { d1: Dep::Val(1), d2: Dep::Val(3), d3: Dep::Absent, d4: Dep::Absent, d5: Dep::Absent };
    assert_eq!(f.slots, vec![Slot::Effect { deps: stored, active: true }]);
    commit(&mut f).unwrap();
    f.begin_render();
    assert!(!use_effect2(&mut f, 1, 3).unwrap().fire);
    assert!(f.queue.is_empty());
}

#[test]
fn reducer_init_not_called_for_existing_slot() {
    let mut f = HookFrame::new();
    f.begin_render();
    use_reducer(&mut f, Reducer::Add, 1).unwrap();
    f.begin_render();
    let (s, _) = use_reducer_with_init(&mut f, Reducer::Add, 2, |_| -> i64 { panic!("init ran twice") }).unwrap();
    assert_eq!(s, 1);
}

#[test]
fn effect_fires_where_deps_change() {
    let mut f = HookFrame::new();
    let deps = [1, 1, 2, 2, 1];
    let mut fired = Vec::new();
    let mut cleaned = Vec::new();
    for d in deps {
        f.begin_render();
        let e = use_effect1(&mut f, d).unwrap();
        fired.push(e.fire);
        cleaned.push(e.run_cleanup);
        commit(&mut f).unwrap();
    }
    assert_eq!(fired, vec![true, false, true, false, true]);
    assert_eq!(cleaned, vec![false, false, true, false, true]);
}

#[test]
fn effect_firing_enqueues_touch() {
    let mut f = HookFrame::new();
    f.begin_render();
    use_effect(&mut f).unwrap();
    assert_eq!(f.queue, vec![Mutation::Touch { slot: 0 }]);
    commit(&mut f).unwrap();
    f.begin_render();
    assert_eq!(
        use_effect(&mut f),
        Ok(EffectRun { run_cleanup: false, fire: false })
    );
    assert!(f.queue.is_empty());
}

#[test]
fn effect_arities() {
    let mut f = HookFrame::new();
    f.begin_render();
    assert!(use_effect2(&mut f, 1, 2).unwrap().fire);
    assert!(use_effect3(&mut f, 1, 2, 3).unwrap().fire);
    assert!(use_effect4(&mut f, 1, 2, 3, 4).unwrap().fire);
    let d = Deps { d1: Dep::Val(1), d2: Dep::Absent, d3: Dep::Absent, d4: Dep::Absent, d5: Dep::Val(5) };
    assert!(use_effect5(&mut f, d).unwrap().fire);
    commit(&mut f).unwrap();
    f.begin_render();
    assert!(!use_effect2(&mut f, 1, 2).unwrap().fire);
    assert!(use_effect3(&mut f, 1, 2, 4).unwrap().fire);
    assert!(!use_effect4(&mut f, 1, 2, 3, 4).unwrap().fire);
    assert!(!use_effect5(&mut f, d).unwrap().fire);
}
