//! The host execution environment: the VM, the staged per-call context,
//! and the call session that serves host operations to a running guest.
//!
//! A call is strictly transactional.  `begin_call` stages a working
//! copy of the VM's store and code; every host operation mutates only
//! that staged copy; `commit_call` adopts it, and may only be called
//! once the guest has returned successfully.  A session that failed can
//! never be committed, so a failed call leaves the VM exactly as it
//! was.
//!
//! Recursive dispatch is a frame stack: a guest's execute request
//! pushes a child context (the bytecode and decoded sub-store looked up
//! in the requester's staged store), the engine runs the child against
//! the same session, and the child's return pops its frame, writing its
//! final store — and nothing else — back under the request's store key.

use vstd::prelude::*;
use vstd::slice::slice_to_vec;
use vstd::std_specs::vec::vec_index_mut;
use crate::codec::{decode_message, decode_store, encode_store, lemma_store_round_trip,
    spec_encode_store,
    spec_decode_message, spec_decode_store};
use crate::error::VmError;
use crate::store::{distinct_keys, map_of_entries, spec_length_of, Store};

verus! {

/// The transient working copy of a VM's store and code, exclusively
/// owned by one in-flight call and mutated by its host operations.
pub struct SharedContext {
    pub state: Store,
    pub code: Vec<u8>,
}

/// The abstract value of a [`SharedContext`].
pub ghost struct CtxView {
    pub state: Map<Seq<u8>, Seq<u8>>,
    pub code: Seq<u8>,
}

impl View for SharedContext {
    type V = CtxView;

    open spec fn view(&self) -> CtxView {
        CtxView { state: self.state@, code: self.code@ }
    }
}

/// One suspended level of an in-flight call: its staged context and,
/// for a child, the parent-store key its final store is written back
/// under.
struct Frame {
    ctx: SharedContext,
    store_key: Option<Vec<u8>>,
}

/// What the running guest did, as reported by the execution engine.
#[derive(Debug)]
pub enum GuestEvent {
    /// Queried the length of the value at a key.
    GetLength(Vec<u8>),
    /// Asked for a copy of the value at a key.
    GetState(Vec<u8>),
    /// Stored a value under a key.
    SetState(Vec<u8>, Vec<u8>),
    /// Asked to replace the VM's code, effective from the next call.
    UpgradeCode(Vec<u8>),
    /// Asked to run stored bytecode against a sub-store; the payload is
    /// an encoded `ExecutionMessage`.
    ExecuteCode(Vec<u8>),
    /// Returned from its entry function.
    Return,
    /// Faulted.
    Trap,
}

/// The host's answer to one guest event.
#[derive(Debug)]
pub enum HostReply {
    /// The queried value's length; zero signals an absent key.
    Length(usize),
    /// A copy of the queried value.
    Value(Vec<u8>),
    /// The write was applied to the staged store.
    Stored,
    /// The staged code was replaced; the running call is unaffected.
    Upgraded,
    /// Instantiate this bytecode and run the named exported function,
    /// feeding its events into this same session.
    EnterChild(Vec<u8>, String),
    /// The child's final store was written back; resume the parent.
    ChildCommitted,
    /// The root call returned; the session may be committed.
    Completed,
    /// The call failed; the session is dead and cannot be committed.
    Failed(VmError),
}

/// The sub-store a dispatch starts its child with: empty when the
/// parent's staged store holds nothing under the store key, otherwise
/// the decoded stored mapping; `None` when the stored bytes are
/// corrupt.
pub open spec fn spec_child_store(parent: Map<Seq<u8>, Seq<u8>>, sk: Seq<u8>) -> Option<
    Map<Seq<u8>, Seq<u8>>,
> {
    if parent.contains_key(sk) {
        match spec_decode_store(parent[sk]) {
            Some(es) => Some(map_of_entries(es)),
            None => None,
        }
    } else {
        Some(Map::<Seq<u8>, Seq<u8>>::empty())
    }
}

/// A single in-flight call against a VM, one frame per nesting level.
pub struct Session {
    frames: Vec<Frame>,
    done: bool,
    failed: bool,
}

/// The first `n` levels of `b` are those of `a`, untouched.
pub open spec fn frames_prefix_eq(a: Session, b: Session, n: int) -> bool {
    forall|i: int|
        0 <= i < n ==> #[trigger] b.frame_ctx(i) == a.frame_ctx(i) && b.frame_store_key(i)
            == a.frame_store_key(i)
}

impl Session {
    /// How many calls are suspended, the root included.
    pub closed spec fn depth(&self) -> nat {
        self.frames@.len()
    }

    /// The staged context of the call at level `i`; level 0 is the root.
    pub closed spec fn frame_ctx(&self, i: int) -> CtxView {
        self.frames@[i].ctx@
    }

    /// The staged store of the call at level `i`, as its entry sequence
    /// in insertion order — exactly what serializing that store yields.
    pub closed spec fn frame_entries(&self, i: int) -> Seq<(Seq<u8>, Seq<u8>)> {
        self.frames@[i].ctx.state.entries_view()
    }

    /// The parent-store key the level-`i` child commits to.
    pub closed spec fn frame_store_key(&self, i: int) -> Option<Seq<u8>> {
        match self.frames@[i].store_key {
            Some(k) => Some(k@),
            None => None,
        }
    }

    /// The context staged by the innermost, currently running call.
    pub open spec fn top_ctx(&self) -> CtxView {
        self.frame_ctx(self.depth() - 1)
    }

    pub closed spec fn is_running(&self) -> bool {
        !self.done && !self.failed
    }

    pub closed spec fn is_done(&self) -> bool {
        self.done && !self.failed
    }

    pub closed spec fn is_failed(&self) -> bool {
        self.failed
    }

    pub closed spec fn wf(&self) -> bool {
        &&& self.frames@.len() >= 1
        &&& forall|i: int|
            0 <= i < self.frames@.len() ==> (#[trigger] self.frames@[i]).ctx.state.wf()
        &&& self.frames@[0].store_key is None
        &&& forall|i: int|
            1 <= i < self.frames@.len() ==> (#[trigger] self.frames@[i]).store_key is Some
        &&& self.done ==> self.frames@.len() == 1 && !self.failed
    }

    pub fn still_running(&self) -> (b: bool)
        ensures
            b == self.is_running(),
    {
        !self.done && !self.failed
    }

    pub fn has_completed(&self) -> (b: bool)
        ensures
            b == self.is_done(),
    {
        self.done && !self.failed
    }

    pub fn has_failed(&self) -> (b: bool)
        ensures
            b == self.is_failed(),
    {
        self.failed
    }

    /// Serves one host operation of the running guest.
    ///
    /// Every operation acts on the staged context of the innermost
    /// call, never on a VM's persisted state.  In particular:
    /// replacing the code (`UpgradeCode`) changes only the staged code,
    /// so the bytecode the engine is already running is unaffected for
    /// the remainder of this call; and a child's `Return` writes the
    /// child's final store — and nothing else, its code mutations are
    /// discarded — back under the dispatch's store key in the parent's
    /// staged store.
    pub fn step(&mut self, ev: GuestEvent) -> (r: HostReply)
        requires
            old(self).wf(),
            old(self).is_running(),
        ensures
            final(self).wf(),
            match ev {
                GuestEvent::GetLength(k) => {
                    &&& *final(self) == *old(self)
                    &&& r matches HostReply::Length(n) && n == spec_length_of(
                        old(self).top_ctx().state,
                        k@,
                    )
                },
                GuestEvent::GetState(k) => {
                    if old(self).top_ctx().state.contains_key(k@) {
                        &&& *final(self) == *old(self)
                        &&& r matches HostReply::Value(v) && v@ == old(self).top_ctx().state[k@]
                    } else {
                        &&& final(self).is_failed()
                        &&& r == HostReply::Failed(VmError::BoundsViolation)
                    }
                },
                GuestEvent::SetState(k, v) => {
                    &&& final(self).is_running()
                    &&& final(self).depth() == old(self).depth()
                    &&& frames_prefix_eq(*old(self), *final(self), old(self).depth() - 1)
                    &&& final(self).frame_store_key(old(self).depth() - 1) == old(
                        self,
                    ).frame_store_key(old(self).depth() - 1)
                    &&& final(self).top_ctx() == (CtxView {
                        state: old(self).top_ctx().state.insert(k@, v@),
                        code: old(self).top_ctx().code,
                    })
                    &&& r == HostReply::Stored
                },
                GuestEvent::UpgradeCode(c) => {
                    &&& final(self).is_running()
                    &&& final(self).depth() == old(self).depth()
                    &&& frames_prefix_eq(*old(self), *final(self), old(self).depth() - 1)
                    &&& final(self).frame_store_key(old(self).depth() - 1) == old(
                        self,
                    ).frame_store_key(old(self).depth() - 1)
                    &&& final(self).top_ctx() == (CtxView {
                        state: old(self).top_ctx().state,
                        code: c@,
                    })
                    &&& r == HostReply::Upgraded
                },
                GuestEvent::ExecuteCode(mb) => match spec_decode_message(mb@) {
                    None => final(self).is_failed() && r == HostReply::Failed(VmError::Decode),
                    Some(m) => {
                        let parent = old(self).top_ctx().state;
                        if !parent.contains_key(m.code_key) {
                            &&& final(self).is_failed()
                            &&& r == HostReply::Failed(VmError::KeyNotFound)
                        } else {
                            match spec_child_store(parent, m.store_key) {
                                None => final(self).is_failed() && r == HostReply::Failed(
                                    VmError::Decode,
                                ),
                                Some(cs) => {
                                    &&& final(self).is_running()
                                    &&& final(self).depth() == old(self).depth() + 1
                                    &&& frames_prefix_eq(
                                        *old(self),
                                        *final(self),
                                        old(self).depth() as int,
                                    )
                                    &&& final(self).top_ctx() == (CtxView {
                                        state: cs,
                                        code: parent[m.code_key],
                                    })
                                    &&& final(self).frame_store_key(old(self).depth() as int)
                                        == Some(m.store_key)
                                    &&& r matches HostReply::EnterChild(c, e) && c@
                                        == parent[m.code_key] && e@ == m.entry_function_name
                                },
                            }
                        }
                    },
                },
                GuestEvent::Return => {
                    if old(self).depth() == 1 {
                        &&& final(self).is_done()
                        &&& final(self).depth() == 1
                        &&& final(self).frame_ctx(0) == old(self).frame_ctx(0)
                        &&& r == HostReply::Completed
                    } else {
                        let d = old(self).depth() as int;
                        let parent = old(self).frame_ctx(d - 2);
                        let child = old(self).frame_ctx(d - 1);
                        let bs = spec_encode_store(old(self).frame_entries(d - 1));
                        match old(self).frame_store_key(d - 1) {
                            Some(sk) => {
                                &&& final(self).is_running()
                                &&& final(self).depth() == d - 1
                                &&& frames_prefix_eq(*old(self), *final(self), d - 2)
                                &&& final(self).frame_store_key(d - 2) == old(self).frame_store_key(
                                    d - 2,
                                )
                                &&& final(self).frame_ctx(d - 2).code == parent.code
                                &&& final(self).frame_ctx(d - 2).state == parent.state.insert(
                                    sk,
                                    bs,
                                )
                                &&& spec_decode_store(bs) == Some(old(self).frame_entries(d - 1))
                                &&& distinct_keys(old(self).frame_entries(d - 1))
                                &&& map_of_entries(old(self).frame_entries(d - 1)) == child.state
                                &&& r == HostReply::ChildCommitted
                            },
                            None => false,
                        }
                    }
                },
                GuestEvent::Trap => {
                    &&& final(self).is_failed()
                    &&& r == HostReply::Failed(VmError::GuestTrap)
                },
            },
    {
        let idx = self.frames.len() - 1;
        match ev {
            GuestEvent::GetLength(k) => {
                let n = self.frames[idx].ctx.state.length_of(k.as_slice());
                HostReply::Length(n)
            },
            GuestEvent::GetState(k) => {
                let found: Option<Vec<u8>> = match self.frames[idx].ctx.state.get(k.as_slice()) {
                    Some(v) => Some(slice_to_vec(v.as_slice())),
                    None => None,
                };
                match found {
                    Some(v) => HostReply::Value(v),
                    None => {
                        self.failed = true;
                        HostReply::Failed(VmError::BoundsViolation)
                    },
                }
            },
            GuestEvent::SetState(k, v) => {
                let f = vec_index_mut(&mut self.frames, idx);
                f.ctx.state.insert(k, v);
                HostReply::Stored
            },
            GuestEvent::UpgradeCode(c) => {
                let f = vec_index_mut(&mut self.frames, idx);
                f.ctx.code = c;
                HostReply::Upgraded
            },
            GuestEvent::ExecuteCode(mb) => {
                let msg = match decode_message(mb.as_slice()) {
                    Err(e) => {
                        self.failed = true;
                        return HostReply::Failed(e);
                    },
                    Ok(m) => m,
                };
                let code: Vec<u8> = match self.frames[idx].ctx.state.get(
                    msg.code_key.as_slice(),
                ) {
                    None => {
                        self.failed = true;
                        return HostReply::Failed(VmError::KeyNotFound);
                    },
                    Some(c) => slice_to_vec(c.as_slice()),
                };
                let stored: Option<Vec<u8>> = match self.frames[idx].ctx.state.get(
                    msg.store_key.as_slice(),
                ) {
                    Some(bs) => Some(slice_to_vec(bs.as_slice())),
                    None => None,
                };
                let child_state: Store = match stored {
                    None => Store::new(),
                    Some(bs) => match decode_store(bs.as_slice()) {
                        Err(_) => {
                            self.failed = true;
                            return HostReply::Failed(VmError::Decode);
                        },
                        Ok(st) => st,
                    },
                };
                let code_for_engine = slice_to_vec(code.as_slice());
                let entry_for_engine = msg.entry_function_name.clone();
                self.frames.push(
                    Frame {
                        ctx: SharedContext { state: child_state, code },
                        store_key: Some(msg.store_key),
                    },
                );
                HostReply::EnterChild(code_for_engine, entry_for_engine)
            },
            GuestEvent::Return => {
                if self.frames.len() == 1 {
                    self.done = true;
                    HostReply::Completed
                } else {
                    let child = match self.frames.pop() {
                        Some(f) => f,
                        None => {
                            proof {
                                assert(false);
                            }
                            Frame {
                                ctx: SharedContext { state: Store::new(), code: Vec::new() },
                                store_key: None,
                            }
                        },
                    };
                    let sk: Vec<u8> = match child.store_key {
                        Some(k) => k,
                        None => {
                            proof {
                                assert(false);
                            }
                            Vec::new()
                        },
                    };
                    let bytes = encode_store(&child.ctx.state);
                    proof {
                        child.ctx.state.lemma_entries_fit();
                        lemma_store_round_trip(child.ctx.state.entries_view());
                    }
                    let ghost skv = sk@;
                    let ghost bsv = bytes@;
                    let idx2 = self.frames.len() - 1;
                    let f = vec_index_mut(&mut self.frames, idx2);
                    f.ctx.state.insert(sk, bytes);
                    proof {
                        let d = old(self).depth() as int;
                        let parent = old(self).frame_ctx(d - 2);
                        let child_v = old(self).frame_ctx(d - 1);
                        let entries = child.ctx.state.entries_view();
                        assert(old(self).frames@[d - 1].ctx.state.wf());
                        assert(child.ctx.state.wf());
                        assert(bsv == spec_encode_store(entries));
                        assert(spec_decode_store(bsv) == Some(entries));
                        assert(map_of_entries(entries) == child_v.state);
                        assert(entries == old(self).frame_entries(d - 1));
                        assert(self.frame_ctx(d - 2).state == parent.state.insert(skv, bsv));
                    }
                    HostReply::ChildCommitted
                }
            },
            GuestEvent::Trap => {
                self.failed = true;
                HostReply::Failed(VmError::GuestTrap)
            },
        }
    }
}

/// The unit of execution: a bytecode module and its persistent store.
pub struct VM {
    code: Vec<u8>,
    pub state: Store,
}

impl VM {
    /// The bytecode the next call will run.
    pub closed spec fn code_view(&self) -> Seq<u8> {
        self.code@
    }

    pub closed spec fn wf(&self) -> bool {
        self.state.wf()
    }

    /// The VM's persisted store, as a mapping.
    pub closed spec fn store_view(&self) -> Map<Seq<u8>, Seq<u8>> {
        self.state@
    }

    /// Creates a VM owning `code` and an empty store.
    pub fn new(code: Vec<u8>) -> (r: VM)
        ensures
            r.wf(),
            r.code_view() == code@,
            r.store_view() == Map::<Seq<u8>, Seq<u8>>::empty(),
    {
        VM { code, state: Store::new() }
    }

    /// The bytecode a call begun now would run.
    pub fn current_code(&self) -> (c: &Vec<u8>)
        ensures
            c@ == self.code_view(),
    {
        &self.code
    }

    /// Inserts or overwrites an entry in the VM's store.
    pub fn set(&mut self, key: Vec<u8>, value: Vec<u8>)
        requires
            old(self).wf(),
        ensures
            final(self).wf(),
            final(self).store_view() == old(self).store_view().insert(key@, value@),
            final(self).code_view() == old(self).code_view(),
    {
        self.state.insert(key, value);
    }

    /// A reference to the stored value, or none if the key is absent.
    pub fn get(&self, key: &[u8]) -> (r: Option<&Vec<u8>>)
        requires
            self.wf(),
        ensures
            match r {
                Some(v) => self.store_view().contains_key(key@) && v@ == self.store_view()[key@],
                None => !self.store_view().contains_key(key@),
            },
    {
        self.state.get(key)
    }

    /// Stages a new call: a session whose root context copies the VM's
    /// current store and code.  The VM itself stays untouched until
    /// `commit_call` adopts the session's result.
    pub fn begin_call(&self) -> (s: Session)
        requires
            self.wf(),
        ensures
            s.wf(),
            s.is_running(),
            s.depth() == 1,
            s.frame_ctx(0) == (CtxView { state: self.store_view(), code: self.code_view() }),
            s.frame_store_key(0) is None,
    {
        let ctx = SharedContext {
            state: self.state.snapshot(),
            code: slice_to_vec(self.code.as_slice()),
        };
        let mut frames: Vec<Frame> = Vec::new();
        frames.push(Frame { ctx, store_key: None });
        Session { frames, done: false, failed: false }
    }

    /// Atomically adopts a successfully completed call's staged store
    /// and code as the VM's persistent state.  Only this operation
    /// mutates a VM during a call, and it accepts no failed session:
    /// a call that failed leaves the VM bit-for-bit unchanged.
    pub fn commit_call(&mut self, s: Session)
        requires
            old(self).wf(),
            s.wf(),
            s.is_done(),
        ensures
            final(self).wf(),
            final(self).store_view() == s.frame_ctx(0).state,
            final(self).code_view() == s.frame_ctx(0).code,
    {
        let Session { mut frames, done: _, failed: _ } = s;
        let root = match frames.pop() {
            Some(f) => f,
            None => {
                proof {
                    assert(false);
                }
                Frame {
                    ctx: SharedContext { state: Store::new(), code: Vec::new() },
                    store_key: None,
                }
            },
        };
        self.state = root.ctx.state;
        self.code = root.ctx.code;
    }
}

/// What one dispatch-free host operation leaves of a staged context,
/// or `None` when it faults the call.
pub open spec fn spec_flat_step(ctx: CtxView, ev: GuestEvent) -> Option<CtxView> {
    match ev {
        GuestEvent::GetLength(_) => Some(ctx),
        GuestEvent::GetState(k) => if ctx.state.contains_key(k@) {
            Some(ctx)
        } else {
            None
        },
        GuestEvent::SetState(k, v) => Some(
            CtxView { state: ctx.state.insert(k@, v@), code: ctx.code },
        ),
        GuestEvent::UpgradeCode(c) => Some(CtxView { state: ctx.state, code: c@ }),
        GuestEvent::ExecuteCode(_) => None,
        GuestEvent::Return => None,
        GuestEvent::Trap => None,
    }
}

/// The staged context a dispatch-free trace commits: the events before
/// the first `Return`, applied in order.  `None` when the call fails —
/// it traps, a host operation faults, or the guest never returns.
pub open spec fn spec_flat_run(ctx: CtxView, evs: Seq<GuestEvent>) -> Option<CtxView>
    decreases evs.len(),
{
    if evs.len() == 0 {
        None
    } else {
        match evs.first() {
            GuestEvent::Return => Some(ctx),
            GuestEvent::Trap => None,
            _ => match spec_flat_step(ctx, evs.first()) {
                None => None,
                Some(c2) => spec_flat_run(c2, evs.drop_first()),
            },
        }
    }
}

/// A trace that requests no nested execution.
pub open spec fn flat_trace(evs: Seq<GuestEvent>) -> bool {
    forall|i: int| 0 <= i < evs.len() ==> !((#[trigger] evs[i]) is ExecuteCode)
}

/// Upgrade deferral: the staged code never influences what the rest of
/// the call does or whether it succeeds.  Two calls issuing the same
/// host operations from the same staged store but different staged code
/// fault alike and commit the same store; only the committed code —
/// what the *next* call runs — differs.
pub proof fn lemma_upgrade_deferral(a: CtxView, b: CtxView, evs: Seq<GuestEvent>)
    requires
        a.state == b.state,
    ensures
        spec_flat_run(a, evs) is Some <==> spec_flat_run(b, evs) is Some,
        match (spec_flat_run(a, evs), spec_flat_run(b, evs)) {
            (Some(ra), Some(rb)) => ra.state == rb.state && ((forall|i: int|
                0 <= i < evs.len() ==> !((#[trigger] evs[i]) is UpgradeCode)) ==> ra.code == a.code
                && rb.code == b.code),
            _ => true,
        },
    decreases evs.len(),
{
    if evs.len() == 0 {
    } else {
        match evs.first() {
            GuestEvent::Return => {},
            GuestEvent::Trap => {},
            _ => {
                match (spec_flat_step(a, evs.first()), spec_flat_step(b, evs.first())) {
                    (Some(a2), Some(b2)) => {
                        lemma_upgrade_deferral(a2, b2, evs.drop_first());
                        assert(forall|i: int|
                            0 <= i < evs.drop_first().len() ==> evs.drop_first()[i] == evs[i + 1]);
                    },
                    _ => {},
                }
            },
        }
    }
}

/// Drives one complete call from a fixed trace of guest events:
/// begins a session, feeds it every event while it runs, and commits
/// exactly when the root call returned successfully.
///
/// Atomic commit: however the trace ends — in a trap, in a failed host
/// operation, or short of the guest returning at all — a failed call
/// returns `Err` and leaves the VM bit-for-bit unchanged, store and
/// code alike.  A trace free of nested execution commits exactly what
/// [`spec_flat_run`] says it does.
pub fn run_trace(vm: &mut VM, events: Vec<GuestEvent>) -> (r: Result<(), VmError>)
    requires
        old(vm).wf(),
    ensures
        final(vm).wf(),
        r matches Err(_) ==> *final(vm) == *old(vm),
        flat_trace(events@) ==> match spec_flat_run(
            CtxView { state: old(vm).store_view(), code: old(vm).code_view() },
            events@,
        ) {
            Some(c) => r is Ok && final(vm).store_view() == c.state && final(vm).code_view()
                == c.code,
            None => r matches Err(_) && *final(vm) == *old(vm),
        },
{
    let ghost ctx0 = CtxView { state: old(vm).store_view(), code: old(vm).code_view() };
    let s = vm.begin_call();
    let mut session = s;
    let mut evs = events;
    let mut err = VmError::GuestTrap;
    loop
        invariant
            session.wf(),
            *vm == *old(vm),
            old(vm).wf(),
            flat_trace(events@) ==> {
                &&& flat_trace(evs@)
                &&& session.is_running() ==> session.depth() == 1
                &&& spec_flat_run(ctx0, events@) == (if session.is_done() {
                    Some(session.frame_ctx(0))
                } else if session.is_failed() {
                    None::<CtxView>
                } else {
                    spec_flat_run(session.frame_ctx(0), evs@)
                })
            },
        ensures
            session.wf(),
            *vm == *old(vm),
            session.is_running() ==> evs@.len() == 0,
            flat_trace(events@) ==> spec_flat_run(ctx0, events@) == (if session.is_done() {
                Some(session.frame_ctx(0))
            } else if session.is_failed() {
                None::<CtxView>
            } else {
                spec_flat_run(session.frame_ctx(0), evs@)
            }),
        decreases evs@.len(),
    {
        if evs.len() == 0 {
            break;
        }
        if !session.still_running() {
            break;
        }
        let ghost evs_pre = evs@;
        let ev = evs.remove(0);
        proof {
            assert(evs@ =~= evs_pre.drop_first());
            if flat_trace(events@) {
                assert(forall|i: int| 0 <= i < evs@.len() ==> evs@[i] == evs_pre[i + 1]);
            }
        }
        match session.step(ev) {
            HostReply::Failed(e) => {
                err = e;
            },
            _ => {},
        }
    }
    proof {
        if flat_trace(events@) && session.is_running() {
            assert(evs@.len() == 0);
            assert(spec_flat_run(session.frame_ctx(0), evs@) is None);
        }
    }
    if session.has_completed() {
        vm.commit_call(session);
        Ok(())
    } else {
        Err(err)
    }
}

/// Absent-key signaling: a length query answers zero exactly for keys
/// without an entry in the staged store, provided no entry holds an
/// empty value — a guest that stores an empty value under a key makes
/// that key indistinguishable from an absent one.
pub proof fn lemma_absent_key_signaling(m: Map<Seq<u8>, Seq<u8>>, k: Seq<u8>)
    requires
        m.contains_key(k) ==> m[k].len() > 0,
    ensures
        (spec_length_of(m, k) == 0) <==> !m.contains_key(k),
{
}

/// Length/read pairing: a read of `k` with no intervening write to `k`
/// after a length query — the staged value at `k` is the same at both
/// operations — yields exactly as many bytes as the query answered.
pub proof fn lemma_length_read_pairing(
    m1: Map<Seq<u8>, Seq<u8>>,
    m2: Map<Seq<u8>, Seq<u8>>,
    k: Seq<u8>,
)
    requires
        m1.contains_key(k),
        m2.contains_key(k),
        m1[k] == m2[k],
    ensures
        spec_length_of(m1, k) == m2[k].len(),
{
}

} // verus!
