//! The guest binding layer: the operations a guest program issues
//! against its VM, implemented host-side on the running call session.
//!
//! `read`, `write` and `upgrade` are the plain host operations; a
//! [`Child`] handle addresses a nested program's private sub-store —
//! a whole mapping stored as one opaque value under the handle's store
//! key — and dispatches calls to it.

use vstd::prelude::*;
use vstd::bytes::lemma_auto_spec_u64_to_from_le_bytes;
use vstd::slice::slice_to_vec;
use crate::codec::{decode_store, encode_message, encode_store, lemma_message_round_trip,
    lemma_store_round_trip, message_wf, spec_decode_store, ExecutionMessage};
use crate::error::VmError;
use crate::store::{distinct_keys, map_of_entries, spec_length_of, Store};
use crate::vm::{frames_prefix_eq, spec_child_store, CtxView, GuestEvent, HostReply, Session};

verus! {

/// Reads the value stored under `key` in the running call's staged
/// store: a length query, then — only for a nonzero length — a copy of
/// the value.  A zero length signals an absent value, so a stored empty
/// value is indistinguishable from an absent one.
pub fn read(s: &mut Session, key: &[u8]) -> (r: Option<Vec<u8>>)
    requires
        old(s).wf(),
        old(s).is_running(),
    ensures
        *final(s) == *old(s),
        match r {
            Some(v) => old(s).top_ctx().state.contains_key(key@) && v@ == old(
                s,
            ).top_ctx().state[key@] && v@.len() > 0,
            None => spec_length_of(old(s).top_ctx().state, key@) == 0,
        },
{
    let reply = s.step(GuestEvent::GetLength(slice_to_vec(key)));
    let n: usize = match reply {
        HostReply::Length(n) => n,
        _ => {
            proof {
                assert(false);
            }
            0
        },
    };
    if n == 0 {
        return None;
    }
    let reply2 = s.step(GuestEvent::GetState(slice_to_vec(key)));
    match reply2 {
        HostReply::Value(v) => Some(v),
        _ => {
            proof {
                assert(false);
            }
            None
        },
    }
}

/// Stores `key -> value` in the running call's staged store.
pub fn write(s: &mut Session, key: Vec<u8>, value: Vec<u8>)
    requires
        old(s).wf(),
        old(s).is_running(),
    ensures
        final(s).wf(),
        final(s).is_running(),
        final(s).depth() == old(s).depth(),
        frames_prefix_eq(*old(s), *final(s), old(s).depth() - 1),
        final(s).frame_store_key(old(s).depth() - 1) == old(s).frame_store_key(
            old(s).depth() - 1,
        ),
        final(s).top_ctx() == (CtxView {
            state: old(s).top_ctx().state.insert(key@, value@),
            code: old(s).top_ctx().code,
        }),
{
    let _ = s.step(GuestEvent::SetState(key, value));
}

/// Replaces the staged code with `code`.  The running call keeps
/// executing the bytecode it was started with; the replacement is
/// observed from the VM's next call on.
pub fn upgrade(s: &mut Session, code: Vec<u8>)
    requires
        old(s).wf(),
        old(s).is_running(),
    ensures
        final(s).wf(),
        final(s).is_running(),
        final(s).depth() == old(s).depth(),
        frames_prefix_eq(*old(s), *final(s), old(s).depth() - 1),
        final(s).frame_store_key(old(s).depth() - 1) == old(s).frame_store_key(
            old(s).depth() - 1,
        ),
        final(s).top_ctx() == (CtxView { state: old(s).top_ctx().state, code: code@ }),
{
    let _ = s.step(GuestEvent::UpgradeCode(code));
}

/// Requests nested execution: encodes an [`ExecutionMessage`] and hands
/// it to the session's dispatch.  On success the child frame is staged
/// and the returned bytecode and entry name tell the engine what to
/// run; the session resumes the requester once the child returns.
pub fn execute(s: &mut Session, code_key: Vec<u8>, store_key: Vec<u8>, entry_function_name: &str)
    -> (r: Result<(Vec<u8>, String), VmError>)
    requires
        old(s).wf(),
        old(s).is_running(),
    ensures
        final(s).wf(),
        ({
            let parent = old(s).top_ctx().state;
            if !parent.contains_key(code_key@) {
                &&& final(s).is_failed()
                &&& r matches Err(e) && e == VmError::KeyNotFound
            } else {
                match spec_child_store(parent, store_key@) {
                    None => final(s).is_failed() && (r matches Err(e) && e == VmError::Decode),
                    Some(cs) => {
                        &&& final(s).is_running()
                        &&& final(s).depth() == old(s).depth() + 1
                        &&& frames_prefix_eq(*old(s), *final(s), old(s).depth() as int)
                        &&& final(s).top_ctx() == (CtxView { state: cs, code: parent[code_key@] })
                        &&& final(s).frame_store_key(old(s).depth() as int) == Some(store_key@)
                        &&& r matches Ok((c, e)) && c@ == parent[code_key@] && e@
                            == entry_function_name@
                    },
                }
            }
        }),
{
    let msg = ExecutionMessage {
        code_key,
        store_key,
        entry_function_name: entry_function_name.to_owned(),
    };
    let bytes = encode_message(&msg);
    proof {
        lemma_auto_spec_u64_to_from_le_bytes();
        assert(bytes.len() == bytes@.len());
        assert(message_wf(msg@));
        lemma_message_round_trip(msg@);
    }
    match s.step(GuestEvent::ExecuteCode(bytes)) {
        HostReply::EnterChild(c, e) => Ok((c, e)),
        HostReply::Failed(err) => Err(err),
        _ => {
            proof {
                assert(false);
            }
            Err(VmError::GuestTrap)
        },
    }
}

/// A guest-side handle to a nested program: the key its bytecode is
/// stored under, and the key of its private sub-store.
pub struct Child {
    code_key: Vec<u8>,
    store_key: Vec<u8>,
}

impl Child {
    pub closed spec fn code_key_view(&self) -> Seq<u8> {
        self.code_key@
    }

    pub closed spec fn store_key_view(&self) -> Seq<u8> {
        self.store_key@
    }

    pub fn new(code_key: Vec<u8>, store_key: Vec<u8>) -> (r: Child)
        ensures
            r.code_key_view() == code_key@,
            r.store_key_view() == store_key@,
    {
        Child { code_key, store_key }
    }

    /// Looks `key` up in the child's sub-store: decodes the mapping
    /// stored under the handle's store key and reads it.  An absent or
    /// empty sub-store holds nothing; corrupt sub-store bytes are a
    /// decode failure.
    pub fn get(&self, s: &mut Session, key: Vec<u8>) -> (r: Result<Option<Vec<u8>>, VmError>)
        requires
            old(s).wf(),
            old(s).is_running(),
        ensures
            *final(s) == *old(s),
            ({
                let parent = old(s).top_ctx().state;
                if spec_length_of(parent, self.store_key_view()) == 0 {
                    r == Ok::<Option<Vec<u8>>, VmError>(None)
                } else {
                    match spec_decode_store(parent[self.store_key_view()]) {
                        None => r matches Err(e) && e == VmError::Decode,
                        Some(es) => {
                            let cs = map_of_entries(es);
                            if cs.contains_key(key@) {
                                r matches Ok(v) && v matches Some(b) && b@ == cs[key@]
                            } else {
                                r matches Ok(v) && v is None
                            }
                        },
                    }
                }
            }),
    {
        let current = read(s, self.store_key.as_slice());
        match current {
            None => Ok(None),
            Some(bytes) => match decode_store(bytes.as_slice()) {
                Err(e) => Err(e),
                Ok(st) => match st.get(key.as_slice()) {
                    Some(v) => Ok(Some(slice_to_vec(v.as_slice()))),
                    None => Ok(None),
                },
            },
        }
    }

    /// Stores `key -> value` in the child's sub-store: decodes the
    /// mapping stored under the handle's store key (an absent or empty
    /// one starts empty), inserts the entry, and writes the re-encoded
    /// mapping back under the same store key.
    pub fn set(&self, s: &mut Session, key: Vec<u8>, value: Vec<u8>) -> (r: Result<(), VmError>)
        requires
            old(s).wf(),
            old(s).is_running(),
        ensures
            final(s).wf(),
            ({
                let parent = old(s).top_ctx().state;
                let skv = self.store_key_view();
                let prior = if spec_length_of(parent, skv) == 0 {
                    Some(Map::<Seq<u8>, Seq<u8>>::empty())
                } else {
                    match spec_decode_store(parent[skv]) {
                        None => None,
                        Some(es) => Some(map_of_entries(es)),
                    }
                };
                match prior {
                    None => {
                        &&& *final(s) == *old(s)
                        &&& r matches Err(e) && e == VmError::Decode
                    },
                    Some(cs) => {
                        &&& r == Ok::<(), VmError>(())
                        &&& final(s).is_running()
                        &&& final(s).depth() == old(s).depth()
                        &&& frames_prefix_eq(*old(s), *final(s), old(s).depth() - 1)
                        &&& final(s).frame_store_key(old(s).depth() - 1) == old(s).frame_store_key(
                            old(s).depth() - 1,
                        )
                        &&& final(s).top_ctx().code == old(s).top_ctx().code
                        &&& exists|bs: Seq<u8>|
                            {
                                &&& final(s).top_ctx().state == parent.insert(skv, bs)
                                &&& #[trigger] spec_decode_store(bs) matches Some(es2)
                                    && distinct_keys(es2) && map_of_entries(es2) == cs.insert(
                                    key@,
                                    value@,
                                )
                            }
                    },
                }
            }),
    {
        let current = read(s, self.store_key.as_slice());
        let mut child_store: Store = match current {
            None => Store::new(),
            Some(bytes) => match decode_store(bytes.as_slice()) {
                Err(e) => {
                    return Err(e);
                },
                Ok(st) => st,
            },
        };
        child_store.insert(key, value);
        let encoded = encode_store(&child_store);
        let ghost bsv = encoded@;
        let ghost csv = child_store@;
        proof {
            child_store.lemma_entries_fit();
            lemma_store_round_trip(child_store.entries_view());
        }
        write(s, slice_to_vec(self.store_key.as_slice()), encoded);
        proof {
            let parent = old(s).top_ctx().state;
            let skv = self.store_key_view();
            assert(s.top_ctx().state == parent.insert(skv, bsv));
            assert(spec_decode_store(bsv) matches Some(es2) && distinct_keys(es2)
                && map_of_entries(es2) == csv);
            assert(exists|bs: Seq<u8>|
                {
                    &&& s.top_ctx().state == parent.insert(skv, bs)
                    &&& #[trigger] spec_decode_store(bs) matches Some(es2) && distinct_keys(es2)
                        && map_of_entries(es2) == csv
                });
        }
        Ok(())
    }

    /// Dispatches a nested call of the child's bytecode against its
    /// sub-store.
    pub fn call(&self, s: &mut Session, func_name: &str) -> (r: Result<(Vec<u8>, String), VmError>)
        requires
            old(s).wf(),
            old(s).is_running(),
        ensures
            final(s).wf(),
            ({
                let parent = old(s).top_ctx().state;
                if !parent.contains_key(self.code_key_view()) {
                    &&& final(s).is_failed()
                    &&& r matches Err(e) && e == VmError::KeyNotFound
                } else {
                    match spec_child_store(parent, self.store_key_view()) {
                        None => final(s).is_failed() && (r matches Err(e) && e == VmError::Decode),
                        Some(cs) => {
                            &&& final(s).is_running()
                            &&& final(s).depth() == old(s).depth() + 1
                            &&& frames_prefix_eq(*old(s), *final(s), old(s).depth() as int)
                            &&& final(s).top_ctx() == (CtxView {
                                state: cs,
                                code: parent[self.code_key_view()],
                            })
                            &&& final(s).frame_store_key(old(s).depth() as int) == Some(
                                self.store_key_view(),
                            )
                            &&& r matches Ok((c, e)) && c@ == parent[self.code_key_view()] && e@
                                == func_name@
                        },
                    }
                }
            }),
    {
        execute(
            s,
            slice_to_vec(self.code_key.as_slice()),
            slice_to_vec(self.store_key.as_slice()),
            func_name,
        )
    }
}

} // verus!
