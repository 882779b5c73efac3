//! Host-environment tests: store access, staged-context semantics,
//! atomic commit and abort, upgrade deferral, and bounds checking.

use nomos_vm::vm::{run_trace, GuestEvent, HostReply, VM};
use nomos_vm::VmError;

#[test]
fn vm_set_get() {
    let mut vm = VM::new(b"code".to_vec());
    assert_eq!(vm.get(b"k"), None);
    vm.set(b"k".to_vec(), vec![1, 2]);
    assert_eq!(vm.get(b"k"), Some(&vec![1u8, 2u8]));
    vm.set(b"k".to_vec(), vec![3]);
    assert_eq!(vm.get(b"k"), Some(&vec![3u8]));
}

#[test]
fn empty_key_is_a_key() {
    let mut vm = VM::new(b"code".to_vec());
    vm.set(Vec::new(), vec![7]);
    assert_eq!(vm.get(b""), Some(&vec![7u8]));
}

#[test]
fn get_length_signals_absent_key() {
    let mut vm = VM::new(b"code".to_vec());
    vm.set(b"present".to_vec(), vec![1, 2, 3]);
    let mut s = vm.begin_call();
    match s.step(GuestEvent::GetLength(b"present".to_vec())) {
        HostReply::Length(n) => assert_eq!(n, 3),
        r => panic!("unexpected reply: {:?}", r),
    }
    match s.step(GuestEvent::GetLength(b"absent".to_vec())) {
        HostReply::Length(n) => assert_eq!(n, 0),
        r => panic!("unexpected reply: {:?}", r),
    }
}

#[test]
fn get_state_of_vanished_key_is_bounds_violation() {
    let vm = VM::new(b"code".to_vec());
    let mut s = vm.begin_call();
    match s.step(GuestEvent::GetState(b"never-set".to_vec())) {
        HostReply::Failed(e) => assert_eq!(e, VmError::BoundsViolation),
        r => panic!("unexpected reply: {:?}", r),
    }
    assert!(s.has_failed());
}

#[test]
fn stored_empty_value_reads_as_absent() {
    let mut vm = VM::new(b"code".to_vec());
    vm.set(b"k".to_vec(), vec![]);
    let mut s = vm.begin_call();
    // a zero length signals absence, so an empty value cannot be told
    // apart from no value
    assert_eq!(nomos_vm::runtime::read(&mut s, b"k"), None);
}

#[test]
fn length_then_read_agree() {
    let mut vm = VM::new(b"code".to_vec());
    vm.set(b"k".to_vec(), vec![7; 5]);
    let mut s = vm.begin_call();
    let n = match s.step(GuestEvent::GetLength(b"k".to_vec())) {
        HostReply::Length(n) => n,
        r => panic!("unexpected reply: {:?}", r),
    };
    let v = match s.step(GuestEvent::GetState(b"k".to_vec())) {
        HostReply::Value(v) => v,
        r => panic!("unexpected reply: {:?}", r),
    };
    assert_eq!(v.len(), n);
}

#[test]
fn staged_writes_commit_on_success() {
    let mut vm = VM::new(b"code".to_vec());
    vm.set(b"k".to_vec(), vec![1]);
    let mut s = vm.begin_call();
    s.step(GuestEvent::SetState(b"k".to_vec(), vec![2]));
    s.step(GuestEvent::SetState(b"fresh".to_vec(), vec![3]));
    // staged only: the VM still holds the old values
    assert_eq!(vm.get(b"k"), Some(&vec![1u8]));
    assert_eq!(vm.get(b"fresh"), None);
    s.step(GuestEvent::Return);
    assert!(s.has_completed());
    vm.commit_call(s);
    assert_eq!(vm.get(b"k"), Some(&vec![2u8]));
    assert_eq!(vm.get(b"fresh"), Some(&vec![3u8]));
}

#[test]
fn trap_discards_staged_writes() {
    let mut vm = VM::new(b"code".to_vec());
    vm.set(b"k".to_vec(), vec![1]);
    let trace = vec![
        GuestEvent::SetState(b"k".to_vec(), vec![2]),
        GuestEvent::SetState(b"other".to_vec(), vec![9]),
        GuestEvent::UpgradeCode(b"new-code".to_vec()),
        GuestEvent::Trap,
    ];
    let r = run_trace(&mut vm, trace);
    assert_eq!(r, Err(VmError::GuestTrap));
    assert_eq!(vm.get(b"k"), Some(&vec![1u8]));
    assert_eq!(vm.get(b"other"), None);
    assert_eq!(vm.current_code(), &b"code".to_vec());
}

#[test]
fn trace_without_return_commits_nothing() {
    let mut vm = VM::new(b"code".to_vec());
    let trace = vec![GuestEvent::SetState(b"k".to_vec(), vec![2])];
    let r = run_trace(&mut vm, trace);
    assert!(r.is_err());
    assert_eq!(vm.get(b"k"), None);
}

#[test]
fn empty_trace_fails_and_changes_nothing() {
    let mut vm = VM::new(b"code".to_vec());
    vm.set(b"k".to_vec(), vec![1]);
    assert!(run_trace(&mut vm, vec![]).is_err());
    assert_eq!(vm.get(b"k"), Some(&vec![1u8]));
}

#[test]
fn run_trace_commits_on_return() {
    let mut vm = VM::new(b"code".to_vec());
    let trace = vec![
        GuestEvent::SetState(b"k".to_vec(), vec![2]),
        GuestEvent::Return,
    ];
    assert_eq!(run_trace(&mut vm, trace), Ok(()));
    assert_eq!(vm.get(b"k"), Some(&vec![2u8]));
}

#[test]
fn upgrade_defers_to_next_call() {
    let mut vm = VM::new(b"old-code".to_vec());
    let mut s = vm.begin_call();
    match s.step(GuestEvent::UpgradeCode(b"new-code".to_vec())) {
        HostReply::Upgraded => {},
        r => panic!("unexpected reply: {:?}", r),
    }
    // the VM's code — what the engine is running this call — is untouched
    assert_eq!(vm.current_code(), &b"old-code".to_vec());
    s.step(GuestEvent::Return);
    vm.commit_call(s);
    // the next call would run the new code
    assert_eq!(vm.current_code(), &b"new-code".to_vec());
}

#[test]
fn failed_dispatch_aborts_whole_call() {
    let mut vm = VM::new(b"code".to_vec());
    vm.set(b"k".to_vec(), vec![1]);
    let msg = nomos_vm::ExecutionMessage {
        code_key: b"no-such-code".to_vec(),
        store_key: b"cs".to_vec(),
        entry_function_name: "_run".to_string(),
    };
    let trace = vec![
        GuestEvent::SetState(b"k".to_vec(), vec![2]),
        GuestEvent::ExecuteCode(nomos_vm::codec::encode_message(&msg)),
        GuestEvent::Return,
    ];
    let r = run_trace(&mut vm, trace);
    assert_eq!(r, Err(VmError::KeyNotFound));
    // full-call atomicity: the earlier staged write is gone too
    assert_eq!(vm.get(b"k"), Some(&vec![1u8]));
}

#[test]
fn execute_code_rejects_garbage_message() {
    let vm = VM::new(b"code".to_vec());
    let mut s = vm.begin_call();
    match s.step(GuestEvent::ExecuteCode(vec![1, 2, 3])) {
        HostReply::Failed(e) => assert_eq!(e, VmError::Decode),
        r => panic!("unexpected reply: {:?}", r),
    }
    assert!(s.has_failed());
}

#[test]
fn execute_code_rejects_corrupt_sub_store() {
    let mut vm = VM::new(b"code".to_vec());
    vm.set(b"child-code".to_vec(), b"bytecode".to_vec());
    vm.set(b"child-store".to_vec(), vec![1, 2, 3]);  // not a store encoding
    let msg = nomos_vm::ExecutionMessage {
        code_key: b"child-code".to_vec(),
        store_key: b"child-store".to_vec(),
        entry_function_name: "_run".to_string(),
    };
    let mut s = vm.begin_call();
    match s.step(GuestEvent::ExecuteCode(nomos_vm::codec::encode_message(&msg))) {
        HostReply::Failed(e) => assert_eq!(e, VmError::Decode),
        r => panic!("unexpected reply: {:?}", r),
    }
    assert!(s.has_failed());
}
