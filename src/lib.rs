//! Hook state engine for functional components.
//!
//! A component instance owns a `HookFrame`: an append-only arena of tagged
//! slots, a call counter reset at the start of every render, and the queue of
//! deferred mutations that the host applies in its commit phase. Hook call
//! number `k` of a render always resolves to slot `k`.
use vstd::prelude::*;

verus! {

/// One dependency value of an effect; `Absent` pads unused positions and
/// always equals itself.
#[derive(Clone, Copy, PartialEq, Eq, Structural, Debug)]
pub enum Dep {
    Absent,
    Val(i64),
}

/// The five dependency positions of an effect.
#[derive(Clone, Copy, PartialEq, Eq, Structural, Debug)]
pub struct Deps {
    pub d1: Dep,
    pub d2: Dep,
    pub d3: Dep,
    pub d4: Dep,
    pub d5: Dep,
}

/// The pure state transition of a reducer hook.
#[derive(Clone, Copy, PartialEq, Eq, Structural, Debug)]
pub enum Reducer {
    /// `state + action`, saturating at the bounds of `i64`.
    Add,
    /// The action becomes the new state.
    Replace,
}

/// The persisted storage of one hook.
#[derive(Clone, Copy, PartialEq, Eq, Structural, Debug)]
pub enum Slot {
    State { value: i64 },
    Reduced { state: i64, reducer: Reducer },
    Cell { value: i64 },
    Effect { deps: Deps, active: bool },
}

/// A deferred mutation aimed at one slot, applied by the host at commit.
#[derive(Clone, Copy, PartialEq, Eq, Structural, Debug)]
pub enum Mutation {
    Replace { slot: usize, value: i64 },
    Dispatch { slot: usize, action: i64 },
    Touch { slot: usize },
}

/// Why a hook call or a mutation could not be resolved.
#[derive(Clone, Copy, PartialEq, Eq, Structural, Debug)]
pub enum HookError {
    /// The slot at this position holds another kind of hook: call order diverged.
    SlotMismatch,
    /// The mutation names a slot that does not exist.
    NoSlot,
}

/// Per-instance hook bookkeeping.
pub struct HookFrame {
    pub counter: usize,
    pub slots: Vec<Slot>,
    pub queue: Vec<Mutation>,
}

/// What a render must do for an effect hook.
#[derive(Clone, Copy, PartialEq, Eq, Structural, Debug)]
pub struct EffectRun {
    /// The stored cleanup is run first.
    pub run_cleanup: bool,
    /// The effect callback is invoked with the current dependencies.
    pub fire: bool,
}

/// Handle to a state slot; its setter.
#[derive(Clone, Copy, PartialEq, Eq, Structural, Debug)]
pub struct Setter {
    pub slot: usize,
}

/// Handle to a reducer slot; its dispatch.
#[derive(Clone, Copy, PartialEq, Eq, Structural, Debug)]
pub struct Dispatcher {
    pub slot: usize,
}

/// Handle to a mutable cell whose identity is the slot position.
#[derive(Clone, Copy, PartialEq, Eq, Structural, Debug)]
pub struct RefCellHandle {
    pub slot: usize,
}

pub open spec fn reduce(r: Reducer, s: i64, a: i64) -> i64 {
    match r {
        Reducer::Add => if s + a > i64::MAX {
            i64::MAX
        } else if s + a < i64::MIN {
            i64::MIN
        } else {
            (s + a) as i64
        },
        Reducer::Replace => a,
    }
}

/// Absent positions of a shorter dependency list.
pub open spec fn padded(d1: Dep, d2: Dep, d3: Dep, d4: Dep, d5: Dep) -> Deps {
    Deps { d1, d2, d3, d4, d5 }
}

pub open spec fn target(m: Mutation) -> usize {
    match m {
        Mutation::Replace { slot, .. } => slot,
        Mutation::Dispatch { slot, .. } => slot,
        Mutation::Touch { slot } => slot,
    }
}

/// The slot after a mutation, and whether a re-render is warranted; `None`
/// when the mutation does not fit the slot.
pub open spec fn apply(s: Slot, m: Mutation) -> Option<(Slot, bool)> {
    match (m, s) {
        (Mutation::Replace { value, .. }, Slot::State { .. }) => Some((Slot::State { value }, true)),
        (Mutation::Dispatch { action, .. }, Slot::Reduced { state, reducer }) => Some(
            (Slot::Reduced { state: reduce(reducer, state, action), reducer }, true),
        ),
        (Mutation::Touch { .. }, Slot::Effect { .. }) => Some((s, true)),
        _ => None,
    }
}

/// Applies mutations in enqueue order until one fails to resolve. Gives the
/// slots reached and the error of the failing mutation, if any; the mutations
/// after a failing one are dropped.
pub open spec fn settle(slots: Seq<Slot>, ms: Seq<Mutation>) -> (Seq<Slot>, Option<HookError>)
    decreases ms.len(),
{
    if ms.len() == 0 {
        (slots, None)
    } else {
        let m = ms[0];
        let i = target(m) as int;
        if i >= slots.len() {
            (slots, Some(HookError::NoSlot))
        } else {
            match apply(slots[i], m) {
                Some(p) => settle(slots.update(i, p.0), ms.drop_first()),
                None => (slots, Some(HookError::SlotMismatch)),
            }
        }
    }
}

impl HookFrame {
    pub open spec fn wf(&self) -> bool {
        self.counter <= self.slots@.len()
    }

    /// A frame with no slots and nothing queued.
    pub fn new() -> (r: HookFrame)
        ensures
            r.wf(),
            r.counter == 0,
            r.slots@ == Seq::<Slot>::empty(),
            r.queue@ == Seq::<Mutation>::empty(),
    {
        HookFrame { counter: 0, slots: Vec::new(), queue: Vec::new() }
    }

    /// Starts a render: hook calls count again from position zero.
    pub fn begin_render(&mut self)
        requires
            old(self).wf(),
        ensures
            final(self).wf(),
            final(self).counter == 0,
            final(self).slots@ == old(self).slots@,
            final(self).queue@ == old(self).queue@,
    {
        self.counter = 0;
    }
}

/// Resolves the next hook call to its slot: the position is the call counter,
/// and a slot is created from `initial` only the first time that position is
/// reached. Returns that position.
pub fn use_hook(frame: &mut HookFrame, initial: Slot) -> (r: usize)
    requires
        old(frame).wf(),
        old(frame).slots@.len() < usize::MAX,
    ensures
        final(frame).wf(),
        r == old(frame).counter,
        final(frame).counter == old(frame).counter + 1,
        final(frame).queue@ == old(frame).queue@,
        old(frame).counter < old(frame).slots@.len() ==> final(frame).slots@ == old(frame).slots@,
        old(frame).counter == old(frame).slots@.len() ==> final(frame).slots@ == old(
            frame,
        ).slots@.push(initial),
{
    let pos = frame.counter;
    frame.counter = pos + 1;
    if pos >= frame.slots.len() {
        frame.slots.push(initial);
    }
    pos
}

/// Enqueues a deferred mutation; nothing is applied now.
pub fn trigger(frame: &mut HookFrame, m: Mutation)
    ensures
        final(frame).queue@ == old(frame).queue@.push(m),
        final(frame).slots@ == old(frame).slots@,
        final(frame).counter == old(frame).counter,
{
    frame.queue.push(m);
}

/// A state hook: the current value and its setter.
pub fn use_state(frame: &mut HookFrame, initial: i64) -> (r: Result<(i64, Setter), HookError>)
    requires
        old(frame).wf(),
        old(frame).slots@.len() < usize::MAX,
    ensures
        final(frame).wf(),
        final(frame).counter == old(frame).counter + 1,
        final(frame).queue@ == old(frame).queue@,
        ({
            let k = old(frame).counter as int;
            if k == old(frame).slots@.len() {
                final(frame).slots@ == old(frame).slots@.push(Slot::State { value: initial })
                    && r == Ok::<(i64, Setter), HookError>((initial, Setter { slot: k as usize }))
            } else {
                final(frame).slots@ == old(frame).slots@ && match old(frame).slots@[k] {
                    Slot::State { value } => r == Ok::<(i64, Setter), HookError>(
                        (value, Setter { slot: k as usize }),
                    ),
                    _ => r == Err::<(i64, Setter), HookError>(HookError::SlotMismatch),
                }
            }
        }),
{
    let k = use_hook(frame, Slot::State { value: initial });
    match frame.slots[k] {
        Slot::State { value } => Ok((value, Setter { slot: k })),
        _ => Err(HookError::SlotMismatch),
    }
}

impl Setter {
    /// Enqueues replacement of the state's value.
    pub fn set(&self, frame: &mut HookFrame, value: i64)
        ensures
            final(frame).queue@ == old(frame).queue@.push(Mutation::Replace { slot: self.slot, value }),
            final(frame).slots@ == old(frame).slots@,
            final(frame).counter == old(frame).counter,
    {
        trigger(frame, Mutation::Replace { slot: self.slot, value });
    }
}

impl Dispatcher {
    /// Enqueues an action; the reducer runs on the state current at commit.
    pub fn dispatch(&self, frame: &mut HookFrame, action: i64)
        ensures
            final(frame).queue@ == old(frame).queue@.push(
                Mutation::Dispatch { slot: self.slot, action },
            ),
            final(frame).slots@ == old(frame).slots@,
            final(frame).counter == old(frame).counter,
    {
        trigger(frame, Mutation::Dispatch { slot: self.slot, action });
    }
}

/// Computes `reduce(r, s, a)`.
pub fn run_reducer(r: Reducer, s: i64, a: i64) -> (out: i64)
    ensures
        out == reduce(r, s, a),
{
    match r {
        Reducer::Add => {
            if a > 0 && s > i64::MAX - a {
                i64::MAX
            } else if a < 0 && s < i64::MIN - a {
                i64::MIN
            } else {
                s + a
            }
        },
        Reducer::Replace => a,
    }
}

/// A reducer hook whose first state is `initial_state`.
pub fn use_reducer(frame: &mut HookFrame, reducer: Reducer, initial_state: i64) -> (r: Result<
    (i64, Dispatcher),
    HookError,
>)
    requires
        old(frame).wf(),
        old(frame).slots@.len() < usize::MAX,
    ensures
        final(frame).wf(),
        final(frame).counter == old(frame).counter + 1,
        final(frame).queue@ == old(frame).queue@,
        ({
            let k = old(frame).counter as int;
            if k == old(frame).slots@.len() {
                final(frame).slots@ == old(frame).slots@.push(
                    Slot::Reduced { state: initial_state, reducer },
                ) && r == Ok::<(i64, Dispatcher), HookError>(
                    (initial_state, Dispatcher { slot: k as usize }),
                )
            } else {
                final(frame).slots@ == old(frame).slots@ && match old(frame).slots@[k] {
                    Slot::Reduced { state, .. } => r == Ok::<(i64, Dispatcher), HookError>(
                        (state, Dispatcher { slot: k as usize }),
                    ),
                    _ => r == Err::<(i64, Dispatcher), HookError>(HookError::SlotMismatch),
                }
            }
        }),
{
    use_reducer_with_init(frame, reducer, initial_state, |a: i64| -> (b: i64) ensures b == a { a })
}

/// A reducer hook whose first state is `init(initial_state)`; `init` runs
/// only when the slot is created.
pub fn use_reducer_with_init<F: Fn(i64) -> i64>(
    frame: &mut HookFrame,
    reducer: Reducer,
    initial_state: i64,
    init: F,
) -> (r: Result<(i64, Dispatcher), HookError>)
    requires
        old(frame).wf(),
        old(frame).slots@.len() < usize::MAX,
        old(frame).counter == old(frame).slots@.len() ==> init.requires((initial_state,)),
    ensures
        final(frame).wf(),
        final(frame).counter == old(frame).counter + 1,
        final(frame).queue@ == old(frame).queue@,
        ({
            let k = old(frame).counter as int;
            if k == old(frame).slots@.len() {
                exists|s0: i64|
                    init.ensures((initial_state,), s0) && final(frame).slots@ == old(
                        frame,
                    ).slots@.push(Slot::Reduced { state: s0, reducer }) && r == Ok::<
                        (i64, Dispatcher),
                        HookError,
                    >((s0, Dispatcher { slot: k as usize }))
            } else {
                final(frame).slots@ == old(frame).slots@ && match old(frame).slots@[k] {
                    Slot::Reduced { state, .. } => r == Ok::<(i64, Dispatcher), HookError>(
                        (state, Dispatcher { slot: k as usize }),
                    ),
                    _ => r == Err::<(i64, Dispatcher), HookError>(HookError::SlotMismatch),
                }
            }
        }),
{
    let k0 = frame.counter;
    let fresh = k0 >= frame.slots.len();
    let first = if fresh {
        init(initial_state)
    } else {
        0
    };
    let k = use_hook(frame, Slot::Reduced { state: first, reducer });
    match frame.slots[k] {
        Slot::Reduced { state, .. } => Ok((state, Dispatcher { slot: k })),
        _ => Err(HookError::SlotMismatch),
    }
}

/// A mutable cell created once from `initial`; its handle is the same in every
/// render, and using it never asks for a re-render.
pub fn use_ref(frame: &mut HookFrame, initial: i64) -> (r: Result<RefCellHandle, HookError>)
    requires
        old(frame).wf(),
        old(frame).slots@.len() < usize::MAX,
    ensures
        final(frame).wf(),
        final(frame).counter == old(frame).counter + 1,
        final(frame).queue@ == old(frame).queue@,
        ({
            let k = old(frame).counter as int;
            if k == old(frame).slots@.len() {
                final(frame).slots@ == old(frame).slots@.push(Slot::Cell { value: initial })
                    && r == Ok::<RefCellHandle, HookError>(RefCellHandle { slot: k as usize })
            } else {
                final(frame).slots@ == old(frame).slots@ && match old(frame).slots@[k] {
                    Slot::Cell { .. } => r == Ok::<RefCellHandle, HookError>(
                        RefCellHandle { slot: k as usize },
                    ),
                    _ => r == Err::<RefCellHandle, HookError>(HookError::SlotMismatch),
                }
            }
        }),
{
    let k = use_hook(frame, Slot::Cell { value: initial });
    match frame.slots[k] {
        Slot::Cell { .. } => Ok(RefCellHandle { slot: k }),
        _ => Err(HookError::SlotMismatch),
    }
}

/// Applies one deferred mutation to its slot; `Ok(true)` asks for a re-render.
pub fn update(frame: &mut HookFrame, m: Mutation) -> (r: Result<bool, HookError>)
    requires
        old(frame).wf(),
    ensures
        final(frame).wf(),
        final(frame).counter == old(frame).counter,
        final(frame).queue@ == old(frame).queue@,
        ({
            let i = target(m) as int;
            if i >= old(frame).slots@.len() {
                r == Err::<bool, HookError>(HookError::NoSlot) && final(frame).slots@ == old(frame).slots@
            } else {
                match apply(old(frame).slots@[i], m) {
                    Some(p) => r == Ok::<bool, HookError>(p.1) && final(frame).slots@ == old(
                        frame,
                    ).slots@.update(i, p.0),
                    None => r == Err::<bool, HookError>(HookError::SlotMismatch)
                        && final(frame).slots@ == old(frame).slots@,
                }
            }
        }),
{
    let (i, v, act) = match m {
        Mutation::Replace { slot, value } => (slot, value, 0u8),
        Mutation::Dispatch { slot, action } => (slot, action, 1u8),
        Mutation::Touch { slot } => (slot, 0i64, 2u8),
    };
    if i >= frame.slots.len() {
        return Err(HookError::NoSlot);
    }
    let next = match (act, frame.slots[i]) {
        (0u8, Slot::State { .. }) => Slot::State { value: v },
        (1u8, Slot::Reduced { state, reducer }) => Slot::Reduced {
            state: run_reducer(reducer, state, v),
            reducer,
        },
        (2u8, Slot::Effect { deps, active }) => Slot::Effect { deps, active },
        _ => {
            return Err(HookError::SlotMismatch);
        },
    };
    frame.slots.set(i, next);
    Ok(true)
}

/// Applies the queued mutations in enqueue order and empties the queue.
/// Returns whether a re-render is warranted. On the first mutation that fails
/// to resolve it stops: the slots keep what was applied before it, its error
/// is returned, and the mutations after it are dropped.
pub fn commit(frame: &mut HookFrame) -> (r: Result<bool, HookError>)
    requires
        old(frame).wf(),
    ensures
        final(frame).wf(),
        final(frame).counter == old(frame).counter,
        final(frame).queue@ == Seq::<Mutation>::empty(),
        final(frame).slots@ == settle(old(frame).slots@, old(frame).queue@).0,
        r == match settle(old(frame).slots@, old(frame).queue@).1 {
            None => Ok::<bool, HookError>(old(frame).queue@.len() > 0),
            Some(e) => Err::<bool, HookError>(e),
        },
{
    let ghost q = frame.queue@;
    let mut pending: Vec<Mutation> = Vec::new();
    std::mem::swap(&mut pending, &mut frame.queue);
    let mut i: usize = 0;
    let mut any = false;
    assert(q.subrange(0, q.len() as int) =~= q);
    while i < pending.len()
        invariant
            frame.wf(),
            frame.counter == old(frame).counter,
            frame.queue@ == Seq::<Mutation>::empty(),
            pending@ == q,
            q == old(frame).queue@,
            i <= q.len(),
            any == (i > 0),
            settle(frame.slots@, q.subrange(i as int, q.len() as int)) == settle(
                old(frame).slots@,
                q,
            ),
        decreases q.len() - i,
    {
        let ghost rest = q.subrange(i as int, q.len() as int);
        assert(rest.drop_first() =~= q.subrange(i + 1, q.len() as int));
        assert(rest[0] == q[i as int]);
        match update(frame, pending[i]) {
            Ok(_) => {},
            Err(e) => {
                return Err(e);
            },
        }
        any = true;
        i = i + 1;
    }
    assert(q.subrange(i as int, q.len() as int) =~= Seq::<Mutation>::empty());
    Ok(any)
}

/// Settling `ms1` and then `ms2` is settling their concatenation; a failure
/// in `ms1` drops all of `ms2`.
pub proof fn lemma_settle_append(slots: Seq<Slot>, ms1: Seq<Mutation>, ms2: Seq<Mutation>)
    ensures
        settle(slots, ms1 + ms2) == if settle(slots, ms1).1 is None {
            settle(settle(slots, ms1).0, ms2)
        } else {
            settle(slots, ms1)
        },
    decreases ms1.len(),
{
    if ms1.len() > 0 {
        assert((ms1 + ms2).drop_first() =~= ms1.drop_first() + ms2);
        assert((ms1 + ms2)[0] == ms1[0]);
        let i = target(ms1[0]) as int;
        if i < slots.len() {
            match apply(slots[i], ms1[0]) {
                Some(p) => lemma_settle_append(slots.update(i, p.0), ms1.drop_first(), ms2),
                None => {},
            }
        }
    } else {
        assert(ms1 + ms2 =~= ms2);
    }
}

/// Two actions dispatched to one reducer slot before a commit are applied in
/// the order they were enqueued, each to the state the previous one produced.
pub proof fn lemma_dispatch_order(slots: Seq<Slot>, k: usize, a1: i64, a2: i64)
    requires
        k < slots.len(),
        slots[k as int] is Reduced,
    ensures
        ({
            let r = slots[k as int]->Reduced_reducer;
            let s0 = slots[k as int]->Reduced_state;
            settle(
                slots,
                seq![Mutation::Dispatch { slot: k, action: a1 }, Mutation::Dispatch { slot: k, action: a2 }],
            ) == (
                slots.update(k as int, Slot::Reduced { state: reduce(r, reduce(r, s0, a1), a2), reducer: r }),
                None::<HookError>,
            )
        }),
{
    let r = slots[k as int]->Reduced_reducer;
    let s0 = slots[k as int]->Reduced_state;
    let ms = seq![Mutation::Dispatch { slot: k, action: a1 }, Mutation::Dispatch { slot: k, action: a2 }];
    let s1 = slots.update(k as int, Slot::Reduced { state: reduce(r, s0, a1), reducer: r });
    let s2 = s1.update(k as int, Slot::Reduced { state: reduce(r, reduce(r, s0, a1), a2), reducer: r });
    assert(ms.drop_first() =~= seq![Mutation::Dispatch { slot: k, action: a2 }]);
    assert(ms.drop_first().drop_first() =~= Seq::<Mutation>::empty());
    assert(settle(s2, ms.drop_first().drop_first()) == (s2, None::<HookError>));
    assert(s1[k as int] == Slot::Reduced { state: reduce(r, s0, a1), reducer: r });
    assert(ms.drop_first()[0] == Mutation::Dispatch { slot: k, action: a2 });
    assert(settle(s1, ms.drop_first()) == settle(s2, ms.drop_first().drop_first()));
    assert(ms[0] == Mutation::Dispatch { slot: k, action: a1 });
    assert(settle(slots, ms) == settle(s1, ms.drop_first()));
    assert(s2 =~= slots.update(k as int, Slot::Reduced { state: reduce(r, reduce(r, s0, a1), a2), reducer: r }));
}

/// After a setter's value is committed, the state slot holds that value and a
/// re-render is asked for.
pub proof fn lemma_set_then_commit(slots: Seq<Slot>, k: usize, v: i64)
    requires
        k < slots.len(),
        slots[k as int] is State,
    ensures
        apply(slots[k as int], Mutation::Replace { slot: k, value: v }) == Some((Slot::State { value: v }, true)),
        settle(slots, seq![Mutation::Replace { slot: k, value: v }]) == (
            slots.update(k as int, Slot::State { value: v }),
            None::<HookError>,
        ),
{
    let ms = seq![Mutation::Replace { slot: k, value: v }];
    assert(ms.drop_first() =~= Seq::<Mutation>::empty());
    let s1 = slots.update(k as int, Slot::State { value: v });
    assert(settle(s1, ms.drop_first()) == (s1, None::<HookError>));
}

/// What an effect hook does in a render, given its stored dependencies and
/// whether a cleanup is active: it fires where the dependencies changed, and
/// also where no cleanup is active yet; the old cleanup runs only before a
/// firing caused by a change.
pub open spec fn effect_step(prev: Deps, active: bool, deps: Deps) -> EffectRun {
    if prev != deps {
        EffectRun { run_cleanup: active, fire: true }
    } else {
        EffectRun { run_cleanup: false, fire: !active }
    }
}

/// An effect hook at position `k` with dependencies `deps`, from slots and
/// queue `slots0`, `queue0` to `slots1`, `queue1`, with result `r`. A new slot
/// starts with these dependencies and no cleanup. A firing stores the
/// dependencies, leaves a cleanup active and enqueues one `Touch` of the slot;
/// otherwise nothing is enqueued and the slot keeps its value.
pub open spec fn effect_hook(
    slots0: Seq<Slot>,
    queue0: Seq<Mutation>,
    k: int,
    deps: Deps,
    r: Result<EffectRun, HookError>,
    slots1: Seq<Slot>,
    queue1: Seq<Mutation>,
) -> bool {
    let prev = if k == slots0.len() {
        Slot::Effect { deps, active: false }
    } else {
        slots0[k]
    };
    let base = if k == slots0.len() {
        slots0.push(prev)
    } else {
        slots0
    };
    match prev {
        Slot::Effect { deps: pd, active } => {
            let e = effect_step(pd, active, deps);
            &&& r == Ok::<EffectRun, HookError>(e)
            &&& slots1 == if e.fire {
                base.update(k, Slot::Effect { deps, active: true })
            } else {
                base
            }
            &&& queue1 == if e.fire {
                queue0.push(Mutation::Touch { slot: k as usize })
            } else {
                queue0
            }
        },
        _ => r == Err::<EffectRun, HookError>(HookError::SlotMismatch) && slots1 == base && queue1
            == queue0,
    }
}

/// The effect engine over five dependency positions; every arity of the
/// family is this with the unused positions `Absent`.
pub fn use_effect5(frame: &mut HookFrame, deps: Deps) -> (r: Result<EffectRun, HookError>)
    requires
        old(frame).wf(),
        old(frame).slots@.len() < usize::MAX,
    ensures
        final(frame).wf(),
        final(frame).counter == old(frame).counter + 1,
        effect_hook(
            old(frame).slots@,
            old(frame).queue@,
            old(frame).counter as int,
            deps,
            r,
            final(frame).slots@,
            final(frame).queue@,
        ),
{
    let k = use_hook(frame, Slot::Effect { deps, active: false });
    match frame.slots[k] {
        Slot::Effect { deps: pd, active } => {
            let e = if pd != deps {
                EffectRun { run_cleanup: active, fire: true }
            } else {
                EffectRun { run_cleanup: false, fire: !active }
            };
            if e.fire {
                frame.slots.set(k, Slot::Effect { deps, active: true });
                trigger(frame, Mutation::Touch { slot: k });
            }
            Ok(e)
        },
        _ => Err(HookError::SlotMismatch),
    }
}

/// An effect with no dependencies: it fires on the first render only, since
/// a firing leaves a cleanup active and the dependencies never change.
pub fn use_effect(frame: &mut HookFrame) -> (r: Result<EffectRun, HookError>)
    requires
        old(frame).wf(),
        old(frame).slots@.len() < usize::MAX,
    ensures
        final(frame).wf(),
        final(frame).counter == old(frame).counter + 1,
        effect_hook(
            old(frame).slots@,
            old(frame).queue@,
            old(frame).counter as int,
            padded(Dep::Absent, Dep::Absent, Dep::Absent, Dep::Absent, Dep::Absent),
            r,
            final(frame).slots@,
            final(frame).queue@,
        ),
{
    use_effect5(frame, Deps { d1: Dep::Absent, d2: Dep::Absent, d3: Dep::Absent, d4: Dep::Absent, d5: Dep::Absent })
}

/// An effect over 1 dependency: `use_effect5` with the other positions `Absent`.
pub fn use_effect1(frame: &mut HookFrame, o1: i64) -> (r: Result<EffectRun, HookError>)
    requires
        old(frame).wf(),
        old(frame).slots@.len() < usize::MAX,
    ensures
        final(frame).wf(),
        final(frame).counter == old(frame).counter + 1,
        effect_hook(
            old(frame).slots@,
            old(frame).queue@,
            old(frame).counter as int,
            padded(Dep::Val(o1), Dep::Absent, Dep::Absent, Dep::Absent, Dep::Absent),
            r,
            final(frame).slots@,
            final(frame).queue@,
        ),
{
    use_effect5(frame, Deps { d1: Dep::Val(o1), d2: Dep::Absent, d3: Dep::Absent, d4: Dep::Absent, d5: Dep::Absent })
}

/// An effect over 2 dependencies: `use_effect5` with the other positions `Absent`.
pub fn use_effect2(frame: &mut HookFrame, o1: i64, o2: i64) -> (r: Result<EffectRun, HookError>)
    requires
        old(frame).wf(),
        old(frame).slots@.len() < usize::MAX,
    ensures
        final(frame).wf(),
        final(frame).counter == old(frame).counter + 1,
        effect_hook(
            old(frame).slots@,
            old(frame).queue@,
            old(frame).counter as int,
            padded(Dep::Val(o1), Dep::Val(o2), Dep::Absent, Dep::Absent, Dep::Absent),
            r,
            final(frame).slots@,
            final(frame).queue@,
        ),
{
    use_effect5(frame, Deps { d1: Dep::Val(o1), d2: Dep::Val(o2), d3: Dep::Absent, d4: Dep::Absent, d5: Dep::Absent })
}

/// An effect over 3 dependencies: `use_effect5` with the other positions `Absent`.
pub fn use_effect3(frame: &mut HookFrame, o1: i64, o2: i64, o3: i64) -> (r: Result<EffectRun, HookError>)
    requires
        old(frame).wf(),
        old(frame).slots@.len() < usize::MAX,
    ensures
        final(frame).wf(),
        final(frame).counter == old(frame).counter + 1,
        effect_hook(
            old(frame).slots@,
            old(frame).queue@,
            old(frame).counter as int,
            padded(Dep::Val(o1), Dep::Val(o2), Dep::Val(o3), Dep::Absent, Dep::Absent),
            r,
            final(frame).slots@,
            final(frame).queue@,
        ),
{
    use_effect5(frame, Deps { d1: Dep::Val(o1), d2: Dep::Val(o2), d3: Dep::Val(o3), d4: Dep::Absent, d5: Dep::Absent })
}

/// An effect over 4 dependencies: `use_effect5` with the other positions `Absent`.
pub fn use_effect4(frame: &mut HookFrame, o1: i64, o2: i64, o3: i64, o4: i64) -> (r: Result<EffectRun, HookError>)
    requires
        old(frame).wf(),
        old(frame).slots@.len() < usize::MAX,
    ensures
        final(frame).wf(),
        final(frame).counter == old(frame).counter + 1,
        effect_hook(
            old(frame).slots@,
            old(frame).queue@,
            old(frame).counter as int,
            padded(Dep::Val(o1), Dep::Val(o2), Dep::Val(o3), Dep::Val(o4), Dep::Absent),
            r,
            final(frame).slots@,
            final(frame).queue@,
        ),
{
    use_effect5(frame, Deps { d1: Dep::Val(o1), d2: Dep::Val(o2), d3: Dep::Val(o3), d4: Dep::Val(o4), d5: Dep::Absent })
}


impl RefCellHandle {
    /// The cell's current value.
    pub fn get(&self, frame: &HookFrame) -> (r: Result<i64, HookError>)
        ensures
            self.slot < frame.slots@.len() && frame.slots@[self.slot as int] is Cell ==> r
                == Ok::<i64, HookError>(frame.slots@[self.slot as int]->Cell_value),
            !(self.slot < frame.slots@.len() && frame.slots@[self.slot as int] is Cell) ==> r is Err,
    {
        if self.slot >= frame.slots.len() {
            return Err(HookError::NoSlot);
        }
        match frame.slots[self.slot] {
            Slot::Cell { value } => Ok(value),
            _ => Err(HookError::SlotMismatch),
        }
    }

    /// Writes the cell at once; nothing is queued and no re-render is asked for.
    pub fn put(&self, frame: &mut HookFrame, value: i64) -> (r: Result<(), HookError>)
        requires
            old(frame).wf(),
        ensures
            final(frame).wf(),
            final(frame).counter == old(frame).counter,
            final(frame).queue@ == old(frame).queue@,
            self.slot < old(frame).slots@.len() && old(frame).slots@[self.slot as int] is Cell ==> r
                is Ok && final(frame).slots@ == old(frame).slots@.update(
                self.slot as int,
                Slot::Cell { value },
            ),
            !(self.slot < old(frame).slots@.len() && old(frame).slots@[self.slot as int] is Cell)
                ==> r is Err && final(frame).slots@ == old(frame).slots@,
    {
        if self.slot >= frame.slots.len() {
            return Err(HookError::NoSlot);
        }
        match frame.slots[self.slot] {
            Slot::Cell { .. } => {
                frame.slots.set(self.slot, Slot::Cell { value });
                Ok(())
            },
            _ => Err(HookError::SlotMismatch),
        }
    }
}

/// Once an effect has fired, its cleanup stays active, and from then on it
/// fires exactly when the dependencies differ from the stored ones, running
/// the stored cleanup just before each such firing.
pub proof fn lemma_effect_fires_on_change(prev: Deps, deps: Deps)
    ensures
        effect_step(prev, true, deps).fire == (prev != deps),
        effect_step(prev, true, deps).run_cleanup == effect_step(prev, true, deps).fire,
        effect_step(prev, false, deps).fire,
{
}

/// The slots after a render whose hook calls, from counter zero, pass the
/// initial slots `inits` in order: call `k` creates slot `k` from `inits[k]`
/// exactly when no slot `k` exists yet, as `use_hook` does.
pub open spec fn slots_after(slots: Seq<Slot>, inits: Seq<Slot>) -> Seq<Slot>
    decreases inits.len(),
{
    if inits.len() == 0 {
        slots
    } else {
        let s1 = slots_after(slots, inits.drop_last());
        if inits.len() - 1 == s1.len() {
            s1.push(inits.last())
        } else {
            s1
        }
    }
}

proof fn lemma_slots_after_grows(slots: Seq<Slot>, inits: Seq<Slot>)
    ensures
        slots_after(slots, inits).len() >= inits.len(),
        slots_after(slots, inits).len() >= slots.len(),
        forall|i: int| 0 <= i < slots.len() ==> slots_after(slots, inits)[i] == slots[i],
    decreases inits.len(),
{
    if inits.len() > 0 {
        lemma_slots_after_grows(slots, inits.drop_last());
    }
}

proof fn lemma_slots_after_covered(slots: Seq<Slot>, inits: Seq<Slot>)
    requires
        slots.len() >= inits.len(),
    ensures
        slots_after(slots, inits) == slots,
    decreases inits.len(),
{
    if inits.len() > 0 {
        lemma_slots_after_covered(slots, inits.drop_last());
    }
}

/// Call order is stable: a render that makes the same hook calls as an
/// earlier one creates no slot, so its call `k` resolves to the very slot `k`
/// that call `k` of the earlier render resolved to, and slots that existed
/// before are never replaced by a render.
pub proof fn lemma_same_calls_same_slots(slots: Seq<Slot>, inits: Seq<Slot>)
    ensures
        slots_after(slots_after(slots, inits), inits) == slots_after(slots, inits),
        slots_after(slots, inits).len() >= inits.len(),
        forall|i: int| 0 <= i < slots.len() ==> slots_after(slots, inits)[i] == slots[i],
{
    lemma_slots_after_grows(slots, inits);
    lemma_slots_after_covered(slots_after(slots, inits), inits);
}

/// One more hook call extends `slots_after` as `use_hook` changes the slots
/// when its counter is the number of calls made so far in the render.
pub proof fn lemma_slots_after_step(slots: Seq<Slot>, inits: Seq<Slot>, initial: Slot)
    ensures
        slots_after(slots, inits.push(initial)) == if inits.len() == slots_after(slots, inits).len() {
            slots_after(slots, inits).push(initial)
        } else {
            slots_after(slots, inits)
        },
{
    assert(inits.push(initial).drop_last() =~= inits);
}

} // verus!
