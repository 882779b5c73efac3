//! The wire format: the `Action` intent message, the `ExecutionMessage`
//! dispatch record, and the serialized form of a child sub-store.
//!
//! Every value is encoded little-endian: integers as their bytes, byte
//! sequences with a `u64` length prefix, strings as their UTF-8 bytes
//! with a `u64` length prefix, and tagged unions with a `u32` tag.
//! Encoding and decoding round-trip exactly; the proofs are at the end
//! of this module.

use vstd::prelude::*;
use vstd::bytes::{
    lemma_auto_spec_u32_to_from_le_bytes, lemma_auto_spec_u64_to_from_le_bytes,
    spec_u32_from_le_bytes, spec_u32_to_le_bytes, spec_u64_from_le_bytes, spec_u64_to_le_bytes,
    u32_from_le_bytes, u32_to_le_bytes, u64_from_le_bytes, u64_to_le_bytes,
};
use vstd::slice::{slice_subrange, slice_to_vec};
use vstd::utf8::{decode_utf8, encode_utf8, encode_utf8_decode_utf8, encode_utf8_valid_utf8,
    valid_utf8};
use crate::error::VmError;
use crate::store::{distinct_keys, entries_fit, lemma_map_of_entries_contains,
    lemma_map_of_entries_push, map_of_entries, Store};

verus! {

/// A caller's top-level intent against a root VM.
#[derive(Debug, PartialEq, Eq)]
pub enum Action {
    Increment(i32),
    Upgrade(Vec<u8>),
    Execute(Vec<u8>),
}

/// The abstract value of an [`Action`].
pub ghost enum ActionModel {
    Increment(i32),
    Upgrade(Seq<u8>),
    Execute(Seq<u8>),
}

impl View for Action {
    type V = ActionModel;

    open spec fn view(&self) -> ActionModel {
        match self {
            Action::Increment(x) => ActionModel::Increment(*x),
            Action::Upgrade(b) => ActionModel::Upgrade(b@),
            Action::Execute(b) => ActionModel::Execute(b@),
        }
    }
}

// ---------------------------------------------------------------------
// Two's-complement view of an i32, for the 4-byte wire form.
// ---------------------------------------------------------------------

pub open spec fn spec_i32_to_u32(x: i32) -> u32 {
    if x >= 0 {
        x as u32
    } else {
        (x + 0x1_0000_0000) as u32
    }
}

pub open spec fn spec_u32_to_i32(u: u32) -> i32 {
    if u <= 0x7fff_ffff {
        u as i32
    } else {
        (u - 0x1_0000_0000) as i32
    }
}

fn i32_to_u32(x: i32) -> (u: u32)
    ensures
        u == spec_i32_to_u32(x),
{
    if x >= 0 {
        x as u32
    } else {
        ((x as i64) + 0x1_0000_0000i64) as u32
    }
}

fn u32_to_i32(u: u32) -> (x: i32)
    ensures
        x == spec_u32_to_i32(u),
{
    if u <= 0x7fff_ffff {
        u as i32
    } else {
        ((u as i64) - 0x1_0000_0000i64) as i32
    }
}

// ---------------------------------------------------------------------
// Reading the primitive wire forms.  Each spec reader consumes from
// position `i` and yields the value with the next position; each exec
// reader agrees with its spec reader exactly.
// ---------------------------------------------------------------------

pub open spec fn take_u64(s: Seq<u8>, i: int) -> Option<(u64, int)> {
    if 0 <= i && i + 8 <= s.len() {
        Some((spec_u64_from_le_bytes(s.subrange(i, i + 8)), i + 8))
    } else {
        None
    }
}

pub open spec fn take_u32(s: Seq<u8>, i: int) -> Option<(u32, int)> {
    if 0 <= i && i + 4 <= s.len() {
        Some((spec_u32_from_le_bytes(s.subrange(i, i + 4)), i + 4))
    } else {
        None
    }
}

/// A length-prefixed byte sequence: a `u64` length, then that many bytes.
pub open spec fn take_bytes(s: Seq<u8>, i: int) -> Option<(Seq<u8>, int)> {
    match take_u64(s, i) {
        Some((n, j)) => if n <= usize::MAX as u64 && j + n <= s.len() {
            Some((s.subrange(j, j + n), j + n))
        } else {
            None
        },
        None => None,
    }
}

fn read_u64(input: &[u8], pos: usize) -> (r: Option<(u64, usize)>)
    ensures
        match r {
            Some((x, p)) => take_u64(input@, pos as int) == Some((x, p as int)) && p
                <= input@.len(),
            None => take_u64(input@, pos as int) is None,
        },
{
    if pos <= input.len() && input.len() - pos >= 8 {
        let s = slice_subrange(input, pos, pos + 8);
        let x = u64_from_le_bytes(s);
        Some((x, pos + 8))
    } else {
        None
    }
}

fn read_u32(input: &[u8], pos: usize) -> (r: Option<(u32, usize)>)
    ensures
        match r {
            Some((x, p)) => take_u32(input@, pos as int) == Some((x, p as int)) && p
                <= input@.len(),
            None => take_u32(input@, pos as int) is None,
        },
{
    if pos <= input.len() && input.len() - pos >= 4 {
        let s = slice_subrange(input, pos, pos + 4);
        let x = u32_from_le_bytes(s);
        Some((x, pos + 4))
    } else {
        None
    }
}

fn read_bytes(input: &[u8], pos: usize) -> (r: Option<(Vec<u8>, usize)>)
    ensures
        match r {
            Some((b, p)) => take_bytes(input@, pos as int) == Some((b@, p as int)) && p
                <= input@.len(),
            None => take_bytes(input@, pos as int) is None,
        },
{
    match read_u64(input, pos) {
        None => None,
        Some((n, p)) => {
            if n <= usize::MAX as u64 && (n as usize) <= input.len() - p {
                let nn = n as usize;
                let b = slice_to_vec(slice_subrange(input, p, p + nn));
                Some((b, p + nn))
            } else {
                None
            }
        },
    }
}

// ---------------------------------------------------------------------
// Writing the primitive wire forms.
// ---------------------------------------------------------------------

fn write_u64(out: &mut Vec<u8>, x: u64)
    ensures
        final(out)@ == old(out)@ + spec_u64_to_le_bytes(x),
{
    let mut b = u64_to_le_bytes(x);
    out.append(&mut b);
}

fn write_u32(out: &mut Vec<u8>, x: u32)
    ensures
        final(out)@ == old(out)@ + spec_u32_to_le_bytes(x),
{
    let mut b = u32_to_le_bytes(x);
    out.append(&mut b);
}

/// The wire form of a byte sequence: a `u64` length prefix, then the bytes.
pub open spec fn spec_encode_bytes(b: Seq<u8>) -> Seq<u8> {
    spec_u64_to_le_bytes(b.len() as u64) + b
}

fn write_bytes(out: &mut Vec<u8>, b: &[u8])
    ensures
        final(out)@ == old(out)@ + spec_encode_bytes(b@),
{
    write_u64(out, b.len() as u64);
    let mut v = slice_to_vec(b);
    out.append(&mut v);
    proof {
        assert(final(out)@ =~= old(out)@ + spec_encode_bytes(b@));
    }
}

// ---------------------------------------------------------------------
// The Action wire form: a u32 tag, then the payload.
// ---------------------------------------------------------------------

pub open spec fn spec_encode_action(a: ActionModel) -> Seq<u8> {
    match a {
        ActionModel::Increment(x) => spec_u32_to_le_bytes(0) + spec_u32_to_le_bytes(
            spec_i32_to_u32(x),
        ),
        ActionModel::Upgrade(b) => spec_u32_to_le_bytes(1) + spec_encode_bytes(b),
        ActionModel::Execute(b) => spec_u32_to_le_bytes(2) + spec_encode_bytes(b),
    }
}

pub open spec fn spec_decode_action(s: Seq<u8>) -> Option<ActionModel> {
    match take_u32(s, 0) {
        None => None,
        Some((tag, i)) => if tag == 0 {
            match take_u32(s, i) {
                None => None,
                Some((u, j)) => if j == s.len() {
                    Some(ActionModel::Increment(spec_u32_to_i32(u)))
                } else {
                    None
                },
            }
        } else if tag == 1 {
            match take_bytes(s, i) {
                None => None,
                Some((b, j)) => if j == s.len() {
                    Some(ActionModel::Upgrade(b))
                } else {
                    None
                },
            }
        } else if tag == 2 {
            match take_bytes(s, i) {
                None => None,
                Some((b, j)) => if j == s.len() {
                    Some(ActionModel::Execute(b))
                } else {
                    None
                },
            }
        } else {
            None
        },
    }
}

/// Encodes an [`Action`] in its wire form.
pub fn encode_action(a: &Action) -> (r: Vec<u8>)
    ensures
        r@ == spec_encode_action(a@),
{
    let mut out: Vec<u8> = Vec::new();
    match a {
        Action::Increment(x) => {
            write_u32(&mut out, 0);
            write_u32(&mut out, i32_to_u32(*x));
        },
        Action::Upgrade(b) => {
            write_u32(&mut out, 1);
            write_bytes(&mut out, b.as_slice());
        },
        Action::Execute(b) => {
            write_u32(&mut out, 2);
            write_bytes(&mut out, b.as_slice());
        },
    }
    proof {
        assert(out@ =~= spec_encode_action(a@));
    }
    out
}

/// Decodes an [`Action`] from its wire form, rejecting any input that
/// is not exactly the encoding of one.
pub fn decode_action(input: &[u8]) -> (r: Result<Action, VmError>)
    ensures
        match spec_decode_action(input@) {
            Some(m) => r matches Ok(a) && a@ == m,
            None => r matches Err(e) && e == VmError::Decode,
        },
{
    match read_u32(input, 0) {
        None => Err(VmError::Decode),
        Some((tag, i)) => {
            if tag == 0 {
                match read_u32(input, i) {
                    None => Err(VmError::Decode),
                    Some((u, j)) => {
                        if j == input.len() {
                            Ok(Action::Increment(u32_to_i32(u)))
                        } else {
                            Err(VmError::Decode)
                        }
                    },
                }
            } else if tag == 1 {
                match read_bytes(input, i) {
                    None => Err(VmError::Decode),
                    Some((b, j)) => {
                        if j == input.len() {
                            Ok(Action::Upgrade(b))
                        } else {
                            Err(VmError::Decode)
                        }
                    },
                }
            } else if tag == 2 {
                match read_bytes(input, i) {
                    None => Err(VmError::Decode),
                    Some((b, j)) => {
                        if j == input.len() {
                            Ok(Action::Execute(b))
                        } else {
                            Err(VmError::Decode)
                        }
                    },
                }
            } else {
                Err(VmError::Decode)
            }
        },
    }
}

// ---------------------------------------------------------------------
// Round-trip proofs for the primitive forms.
// ---------------------------------------------------------------------

/// Reading a `u64` finds the bytes written for it.
pub proof fn lemma_take_u64_at(s: Seq<u8>, i: int, x: u64)
    requires
        0 <= i,
        i + 8 <= s.len(),
        s.subrange(i, i + 8) == spec_u64_to_le_bytes(x),
    ensures
        take_u64(s, i) == Some((x, i + 8)),
{
    lemma_auto_spec_u64_to_from_le_bytes();
}

/// Reading a `u32` finds the bytes written for it.
pub proof fn lemma_take_u32_at(s: Seq<u8>, i: int, x: u32)
    requires
        0 <= i,
        i + 4 <= s.len(),
        s.subrange(i, i + 4) == spec_u32_to_le_bytes(x),
    ensures
        take_u32(s, i) == Some((x, i + 4)),
{
    lemma_auto_spec_u32_to_from_le_bytes();
    assert(spec_u32_to_le_bytes(x).len() == 4);
    assert(spec_u32_from_le_bytes(spec_u32_to_le_bytes(x)) == x);
    assert(spec_u32_from_le_bytes(s.subrange(i, i + 4)) == x);
}

/// Reading a length-prefixed byte sequence finds the bytes written for it.
pub proof fn lemma_take_bytes_at(s: Seq<u8>, i: int, b: Seq<u8>)
    requires
        0 <= i,
        b.len() <= usize::MAX,
        i + 8 + b.len() <= s.len(),
        s.subrange(i, i + 8 + b.len()) == spec_encode_bytes(b),
    ensures
        take_bytes(s, i) == Some((b, i + 8 + b.len())),
{
    lemma_auto_spec_u64_to_from_le_bytes();
    let enc = spec_encode_bytes(b);
    assert(s.subrange(i, i + 8) =~= enc.subrange(0, 8));
    assert(enc.subrange(0, 8) =~= spec_u64_to_le_bytes(b.len() as u64));
    lemma_take_u64_at(s, i, b.len() as u64);
    assert(s.subrange(i + 8, i + 8 + b.len()) =~= enc.subrange(8, enc.len() as int));
    assert(enc.subrange(8, enc.len() as int) =~= b);
}

// ---------------------------------------------------------------------
// The ExecutionMessage wire form: the two keys, then the entry name.
// ---------------------------------------------------------------------

/// A recursive-dispatch request: which stored bytecode to run, which
/// sub-store to run it against, and which exported function to invoke.
#[derive(Debug, PartialEq, Eq)]
pub struct ExecutionMessage {
    pub code_key: Vec<u8>,
    pub store_key: Vec<u8>,
    pub entry_function_name: String,
}

/// The abstract value of an [`ExecutionMessage`].
pub ghost struct MessageModel {
    pub code_key: Seq<u8>,
    pub store_key: Seq<u8>,
    pub entry_function_name: Seq<char>,
}

impl View for ExecutionMessage {
    type V = MessageModel;

    open spec fn view(&self) -> MessageModel {
        MessageModel {
            code_key: self.code_key@,
            store_key: self.store_key@,
            entry_function_name: self.entry_function_name@,
        }
    }
}

/// Relies on `core::str::from_utf8`: it accepts exactly the valid UTF-8
/// byte sequences, and the returned string's byte encoding is the input.
#[verifier::external_body]
fn utf8_to_string(b: &[u8]) -> (r: Option<String>)
    ensures
        r matches Some(s) ==> encode_utf8(s@) == b@,
        (r is Some) == valid_utf8(b@),
{
    match core::str::from_utf8(b) {
        Ok(s) => Some(s.to_string()),
        Err(_) => None,
    }
}

pub open spec fn spec_encode_message(m: MessageModel) -> Seq<u8> {
    spec_encode_bytes(m.code_key) + spec_encode_bytes(m.store_key) + spec_encode_bytes(
        encode_utf8(m.entry_function_name),
    )
}

pub open spec fn spec_decode_message(s: Seq<u8>) -> Option<MessageModel> {
    match take_bytes(s, 0) {
        None => None,
        Some((ck, i)) => match take_bytes(s, i) {
            None => None,
            Some((sk, j)) => match take_bytes(s, j) {
                None => None,
                Some((nb, k)) => if k == s.len() && valid_utf8(nb) {
                    Some(
                        MessageModel {
                            code_key: ck,
                            store_key: sk,
                            entry_function_name: decode_utf8(nb),
                        },
                    )
                } else {
                    None
                },
            },
        },
    }
}

/// Encodes an [`ExecutionMessage`] in its wire form.
pub fn encode_message(m: &ExecutionMessage) -> (r: Vec<u8>)
    ensures
        r@ == spec_encode_message(m@),
{
    let mut out: Vec<u8> = Vec::new();
    write_bytes(&mut out, m.code_key.as_slice());
    write_bytes(&mut out, m.store_key.as_slice());
    write_bytes(&mut out, m.entry_function_name.as_str().as_bytes());
    proof {
        assert(out@ =~= spec_encode_message(m@));
    }
    out
}

/// Decodes an [`ExecutionMessage`] from its wire form, rejecting any
/// input that is not exactly the encoding of one.
pub fn decode_message(input: &[u8]) -> (r: Result<ExecutionMessage, VmError>)
    ensures
        match spec_decode_message(input@) {
            Some(m) => r matches Ok(d) && d@ == m,
            None => r matches Err(e) && e == VmError::Decode,
        },
{
    match read_bytes(input, 0) {
        None => Err(VmError::Decode),
        Some((ck, i)) => match read_bytes(input, i) {
            None => Err(VmError::Decode),
            Some((sk, j)) => match read_bytes(input, j) {
                None => Err(VmError::Decode),
                Some((nb, k)) => {
                    if k != input.len() {
                        Err(VmError::Decode)
                    } else {
                        match utf8_to_string(nb.as_slice()) {
                            None => Err(VmError::Decode),
                            Some(name) => {
                                proof {
                                    broadcast use encode_utf8_decode_utf8;

                                }
                                Ok(
                                    ExecutionMessage {
                                        code_key: ck,
                                        store_key: sk,
                                        entry_function_name: name,
                                    },
                                )
                            },
                        }
                    }
                },
            },
        },
    }
}

/// Whether an abstract message fits in memory, as every value held by a
/// real [`ExecutionMessage`] does.
pub open spec fn message_wf(m: MessageModel) -> bool {
    &&& m.code_key.len() <= usize::MAX
    &&& m.store_key.len() <= usize::MAX
    &&& encode_utf8(m.entry_function_name).len() <= usize::MAX
}

/// Round-trip: decoding an encoded message yields the message.
pub proof fn lemma_message_round_trip(m: MessageModel)
    requires
        message_wf(m),
    ensures
        spec_decode_message(spec_encode_message(m)) == Some(m),
{
    broadcast use encode_utf8_valid_utf8;
    broadcast use encode_utf8_decode_utf8;

    lemma_auto_spec_u64_to_from_le_bytes();
    let s = spec_encode_message(m);
    let nb = encode_utf8(m.entry_function_name);
    let i = 8 + m.code_key.len() as int;
    let j = i + 8 + m.store_key.len() as int;
    let k = j + 8 + nb.len() as int;
    assert(s.len() == k);
    assert(s.subrange(0, i) =~= spec_encode_bytes(m.code_key));
    lemma_take_bytes_at(s, 0, m.code_key);
    assert(s.subrange(i, j) =~= spec_encode_bytes(m.store_key));
    lemma_take_bytes_at(s, i, m.store_key);
    assert(s.subrange(j, k) =~= spec_encode_bytes(nb));
    lemma_take_bytes_at(s, j, nb);
    assert(valid_utf8(nb));
    assert(decode_utf8(nb) == m.entry_function_name);
}

/// Whether an abstract action fits in memory, as every value held by a
/// real [`Action`] does.
pub open spec fn action_wf(a: ActionModel) -> bool {
    match a {
        ActionModel::Increment(_) => true,
        ActionModel::Upgrade(b) => b.len() <= usize::MAX,
        ActionModel::Execute(b) => b.len() <= usize::MAX,
    }
}

/// Round-trip: decoding an encoded action yields the action.
pub proof fn lemma_action_round_trip(a: ActionModel)
    requires
        action_wf(a),
    ensures
        spec_decode_action(spec_encode_action(a)) == Some(a),
{
    lemma_auto_spec_u32_to_from_le_bytes();
    lemma_auto_spec_u64_to_from_le_bytes();
    let s = spec_encode_action(a);
    match a {
        ActionModel::Increment(x) => {
            assert(s.subrange(0, 4) =~= spec_u32_to_le_bytes(0));
            lemma_take_u32_at(s, 0, 0);
            assert(s.subrange(4, 8) =~= spec_u32_to_le_bytes(spec_i32_to_u32(x)));
            lemma_take_u32_at(s, 4, spec_i32_to_u32(x));
            assert(spec_u32_to_i32(spec_i32_to_u32(x)) == x);
        },
        ActionModel::Upgrade(b) => {
            assert(s.subrange(0, 4) =~= spec_u32_to_le_bytes(1));
            lemma_take_u32_at(s, 0, 1);
            assert(s.subrange(4, 4 + 8 + b.len() as int) =~= spec_encode_bytes(b));
            lemma_take_bytes_at(s, 4, b);
        },
        ActionModel::Execute(b) => {
            assert(s.subrange(0, 4) =~= spec_u32_to_le_bytes(2));
            lemma_take_u32_at(s, 0, 2);
            assert(s.subrange(4, 4 + 8 + b.len() as int) =~= spec_encode_bytes(b));
            lemma_take_bytes_at(s, 4, b);
        },
    }
}

// ---------------------------------------------------------------------
// The sub-store wire form: a u64 entry count, then each entry's key
// and value as length-prefixed byte sequences, in entry order.
// ---------------------------------------------------------------------

pub open spec fn spec_encode_entries(es: Seq<(Seq<u8>, Seq<u8>)>) -> Seq<u8>
    decreases es.len(),
{
    if es.len() == 0 {
        Seq::empty()
    } else {
        spec_encode_bytes(es.first().0) + spec_encode_bytes(es.first().1) + spec_encode_entries(
            es.drop_first(),
        )
    }
}

pub open spec fn spec_encode_store(es: Seq<(Seq<u8>, Seq<u8>)>) -> Seq<u8> {
    spec_u64_to_le_bytes(es.len() as u64) + spec_encode_entries(es)
}

pub open spec fn take_entries(s: Seq<u8>, i: int, n: nat) -> Option<(Seq<(Seq<u8>, Seq<u8>)>, int)>
    decreases n,
{
    if n == 0 {
        Some((Seq::empty(), i))
    } else {
        match take_bytes(s, i) {
            None => None,
            Some((k, j)) => match take_bytes(s, j) {
                None => None,
                Some((v, l)) => match take_entries(s, l, (n - 1) as nat) {
                    None => None,
                    Some((rest, end)) => Some((seq![(k, v)] + rest, end)),
                },
            },
        }
    }
}

pub open spec fn spec_decode_store(s: Seq<u8>) -> Option<Seq<(Seq<u8>, Seq<u8>)>> {
    match take_u64(s, 0) {
        None => None,
        Some((n, i)) => match take_entries(s, i, n as nat) {
            None => None,
            Some((es, end)) => if end == s.len() {
                Some(es)
            } else {
                None
            },
        },
    }
}

/// Encodes a store as a single opaque value.
pub fn encode_store(st: &Store) -> (r: Vec<u8>)
    ensures
        r@ == spec_encode_store(st.entries_view()),
{
    let ghost es = st.entries_view();
    let n = st.entry_count();
    let mut out: Vec<u8> = Vec::new();
    write_u64(&mut out, n as u64);
    let mut i: usize = 0;
    while i < n
        invariant
            es == st.entries_view(),
            n == es.len(),
            0 <= i <= n,
            out@ == spec_u64_to_le_bytes(n as u64) + spec_encode_entries(es.take(i as int)),
        decreases n - i,
    {
        write_bytes(&mut out, st.key_at(i).as_slice());
        write_bytes(&mut out, st.value_at(i).as_slice());
        proof {
            assert(es.take(i + 1) =~= es.take(i as int) + seq![es[i as int]]);
            lemma_encode_entries_concat(es.take(i as int), seq![es[i as int]]);
            lemma_encode_entries_one(es[i as int]);
            assert(out@ =~= spec_u64_to_le_bytes(n as u64) + spec_encode_entries(es.take(i + 1)));
        }
        i += 1;
    }
    proof {
        assert(es.take(n as int) =~= es);
    }
    out
}

/// Decodes a store serialized by [`encode_store`], rejecting any input
/// that is not exactly such an encoding.  Later duplicate keys, should
/// the input hold any, overwrite earlier ones, as sequential insertion
/// does.
pub fn decode_store(input: &[u8]) -> (r: Result<Store, VmError>)
    ensures
        match spec_decode_store(input@) {
            Some(es) => r matches Ok(st) && st.wf() && st@ == map_of_entries(es) && (distinct_keys(
                es,
            ) ==> st.entries_view() == es),
            None => r matches Err(e) && e == VmError::Decode,
        },
{
    match read_u64(input, 0) {
        None => Err(VmError::Decode),
        Some((n, start)) => {
            let mut st = Store::new();
            let mut pos = start;
            let mut k: u64 = 0;
            let ghost mut done = Seq::<(Seq<u8>, Seq<u8>)>::empty();
            proof {
                match take_entries(input@, start as int, n as nat) {
                    Some((rest, end)) => {
                        assert(done + rest =~= rest);
                    },
                    None => {},
                }
            }
            while k < n
                invariant
                    take_u64(input@, 0) == Some((n, start as int)),
                    0 <= k <= n,
                    pos <= input@.len(),
                    done.len() == k,
                    st.wf(),
                    st@ == map_of_entries(done),
                    distinct_keys(done) ==> st.entries_view() == done,
                    take_entries(input@, start as int, n as nat) == (match take_entries(
                        input@,
                        pos as int,
                        (n - k) as nat,
                    ) {
                        Some((rest, end)) => Some((done + rest, end)),
                        None => None::<(Seq<(Seq<u8>, Seq<u8>)>, int)>,
                    }),
                decreases n - k,
            {
                let (key, p1) = match read_bytes(input, pos) {
                    None => {
                        return Err(VmError::Decode);
                    },
                    Some(x) => x,
                };
                let (value, p2) = match read_bytes(input, p1) {
                    None => {
                        return Err(VmError::Decode);
                    },
                    Some(x) => x,
                };
                let ghost kv = (key@, value@);
                proof {
                    lemma_map_of_entries_push(done, key@, value@);
                    lemma_map_of_entries_contains(done, key@);
                    if distinct_keys(done.push(kv)) {
                        assert(forall|i: int| 0 <= i < done.len() ==> done[i] == done.push(kv)[i]);
                        assert(forall|i: int| 0 <= i < done.len() ==> done[i].0 != key@);
                    }
                    let m = (n - k) as nat;
                    assert(take_entries(input@, pos as int, m) == (match take_entries(
                        input@,
                        p2 as int,
                        (m - 1) as nat,
                    ) {
                        Some((rest, end)) => Some((seq![kv] + rest, end)),
                        None => None::<(Seq<(Seq<u8>, Seq<u8>)>, int)>,
                    }));
                    match take_entries(input@, p2 as int, (m - 1) as nat) {
                        Some((rest, end)) => {
                            assert(done + (seq![kv] + rest) =~= done.push(kv) + rest);
                        },
                        None => {},
                    }
                }
                st.insert(key, value);
                proof {
                    done = done.push(kv);
                }
                pos = p2;
                k = k + 1;
            }
            proof {
                assert(take_entries(input@, pos as int, 0) == Some(
                    (Seq::<(Seq<u8>, Seq<u8>)>::empty(), pos as int),
                ));
                assert(done + Seq::<(Seq<u8>, Seq<u8>)>::empty() =~= done);
            }
            if pos == input.len() {
                Ok(st)
            } else {
                Err(VmError::Decode)
            }
        },
    }
}

/// A window of `s` equal to `a + b` splits into windows equal to `a`
/// and to `b`.
pub proof fn lemma_split_window(s: Seq<u8>, i: int, a: Seq<u8>, b: Seq<u8>)
    requires
        0 <= i,
        i + a.len() + b.len() <= s.len(),
        s.subrange(i, i + a.len() + b.len()) == a + b,
    ensures
        s.subrange(i, i + a.len() as int) == a,
        s.subrange(i + a.len() as int, i + a.len() + b.len()) == b,
{
    assert forall|q: int| 0 <= q < a.len() implies s.subrange(i, i + a.len() as int)[q] == a[q] by {
        assert(s.subrange(i, i + a.len() + b.len())[q] == (a + b)[q]);
    }
    assert(s.subrange(i, i + a.len() as int) =~= a);
    assert forall|q: int| 0 <= q < b.len() implies s.subrange(
        i + a.len() as int,
        i + a.len() + b.len(),
    )[q] == b[q] by {
        assert(s.subrange(i + a.len() as int, i + a.len() + b.len())[q] == s[i + a.len() + q]);
        assert(s.subrange(i, i + a.len() + b.len())[a.len() as int + q] == s[i + a.len() + q]);
        assert(s.subrange(i, i + a.len() + b.len())[a.len() as int + q] == (a + b)[a.len() as int
            + q]);
        assert((a + b)[a.len() as int + q] == b[q]);
    }
    assert(s.subrange(i + a.len() as int, i + a.len() + b.len()) =~= b);
}

/// The encoding of a single entry.
pub proof fn lemma_encode_entries_one(e: (Seq<u8>, Seq<u8>))
    ensures
        spec_encode_entries(seq![e]) == spec_encode_bytes(e.0) + spec_encode_bytes(e.1),
{
    assert(seq![e].drop_first() =~= Seq::<(Seq<u8>, Seq<u8>)>::empty());
    assert(spec_encode_entries(seq![e].drop_first()) == Seq::<u8>::empty());
    assert(spec_encode_bytes(e.0) + spec_encode_bytes(e.1) + Seq::<u8>::empty()
        =~= spec_encode_bytes(e.0) + spec_encode_bytes(e.1));
}

/// Concatenating entry sequences concatenates their encodings.
pub proof fn lemma_encode_entries_concat(a: Seq<(Seq<u8>, Seq<u8>)>, b: Seq<(Seq<u8>, Seq<u8>)>)
    ensures
        spec_encode_entries(a + b) == spec_encode_entries(a) + spec_encode_entries(b),
    decreases a.len(),
{
    if a.len() == 0 {
        assert(a + b =~= b);
        assert(spec_encode_entries(a + b) =~= spec_encode_entries(a) + spec_encode_entries(b));
    } else {
        assert((a + b).first() == a.first());
        assert((a + b).drop_first() =~= a.drop_first() + b);
        lemma_encode_entries_concat(a.drop_first(), b);
        assert(spec_encode_entries(a + b) =~= spec_encode_entries(a) + spec_encode_entries(b));
    }
}

/// Reading `n` entries finds the entries written for them.
pub proof fn lemma_take_entries_of_encode(s: Seq<u8>, i: int, es: Seq<(Seq<u8>, Seq<u8>)>)
    requires
        0 <= i,
        entries_fit(es),
        i + spec_encode_entries(es).len() <= s.len(),
        s.subrange(i, i + spec_encode_entries(es).len()) == spec_encode_entries(es),
    ensures
        take_entries(s, i, es.len()) == Some((es, i + spec_encode_entries(es).len())),
    decreases es.len(),
{
    lemma_auto_spec_u64_to_from_le_bytes();
    if es.len() == 0 {
        assert(es =~= Seq::<(Seq<u8>, Seq<u8>)>::empty());
    } else {
        let e = es.first();
        let rest = es.drop_first();
        let enc0 = spec_encode_bytes(e.0);
        let enc1 = spec_encode_bytes(e.1);
        let encr = spec_encode_entries(rest);
        let total = spec_encode_entries(es);
        assert(total == enc0 + enc1 + encr);
        assert(enc0.len() == 8 + e.0.len());
        assert(enc1.len() == 8 + e.1.len());
        let j = i + enc0.len() as int;
        let l = j + enc1.len() as int;
        assert(s.subrange(i, i + total.len() as int) == (enc0 + enc1) + encr);
        lemma_split_window(s, i, enc0 + enc1, encr);
        lemma_split_window(s, i, enc0, enc1);
        lemma_take_bytes_at(s, i, e.0);
        lemma_take_bytes_at(s, j, e.1);
        assert(entries_fit(rest)) by {
            assert(forall|q: int| 0 <= q < rest.len() ==> rest[q] == es[q + 1]);
        }
        lemma_take_entries_of_encode(s, l, rest);
        assert(seq![(e.0, e.1)] + rest =~= es);
        assert(take_entries(s, i, es.len()) == Some((es, i + total.len())));
    }
}

/// Round-trip: decoding an encoded store yields the same entries.
pub proof fn lemma_store_round_trip(es: Seq<(Seq<u8>, Seq<u8>)>)
    requires
        es.len() <= u64::MAX,
        entries_fit(es),
    ensures
        spec_decode_store(spec_encode_store(es)) == Some(es),
{
    lemma_auto_spec_u64_to_from_le_bytes();
    let s = spec_encode_store(es);
    let entries = spec_encode_entries(es);
    assert(s.subrange(0, 8) =~= spec_u64_to_le_bytes(es.len() as u64));
    lemma_take_u64_at(s, 0, es.len() as u64);
    assert(s.subrange(8, 8 + entries.len() as int) =~= entries);
    lemma_take_entries_of_encode(s, 8, es);
}

} // verus!
