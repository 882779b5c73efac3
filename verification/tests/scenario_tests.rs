//! End-to-end scenarios: a counter program incremented twice, a nested
//! doubler program run against an isolated sub-store, an in-place code
//! upgrade, and a dispatch against a missing code key.
//!
//! The tests play the guest programs themselves: they issue through the
//! binding layer exactly the host operations the guests' bytecode would
//! issue, standing in for the execution engine.

use nomos_vm::codec::{decode_action, encode_action, Action};
use nomos_vm::runtime::{read, upgrade, Child};
use nomos_vm::vm::{GuestEvent, HostReply, Session, VM};
use nomos_vm::VmError;

fn le_i32(x: i32) -> Vec<u8> {
    x.to_le_bytes().to_vec()
}

fn i32_of(b: &[u8]) -> i32 {
    let a: [u8; 4] = b.try_into().unwrap();
    i32::from_le_bytes(a)
}

/// The doubler guest: reads `x` from its store, doubles it, writes it
/// back.
fn doubler_guest_run(s: &mut Session) {
    let x = i32_of(&read(s, b"x").unwrap());
    nomos_vm::runtime::write(s, b"x".to_vec(), le_i32(x * 2));
}

/// The counter guest: decodes the intent stored under `input` and acts
/// on it — incrementing `count`, upgrading the VM's code, or running
/// attached bytecode as a nested program seeded with `count`.
fn counter_guest_run(s: &mut Session) -> Result<(), VmError> {
    let input = read(s, b"input").unwrap();
    let action = decode_action(&input).unwrap();
    match action {
        Action::Increment(x) => {
            let count = i32_of(&read(s, b"count").unwrap());
            nomos_vm::runtime::write(s, b"count".to_vec(), le_i32(count + x));
        },
        Action::Upgrade(new_code) => {
            upgrade(s, new_code);
        },
        Action::Execute(code_vec) => {
            nomos_vm::runtime::write(s, b"code_to_execute".to_vec(), code_vec);
            let count = i32_of(&read(s, b"count").unwrap());
            let child = Child::new(b"code_to_execute".to_vec(), b"child_store".to_vec());
            child.set(s, b"x".to_vec(), le_i32(count))?;
            let (child_code, entry) = child.call(s, "_run")?;
            assert_eq!(entry, "_run");
            assert!(!child_code.is_empty());
            // the engine runs the child to completion
            doubler_guest_run(s);
            match s.step(GuestEvent::Return) {
                HostReply::ChildCommitted => {},
                r => panic!("unexpected reply: {:?}", r),
            }
            let doubled = child.get(s, b"x".to_vec())?.unwrap();
            nomos_vm::runtime::write(s, b"count".to_vec(), doubled);
        },
    }
    Ok(())
}

/// Drives one complete, successful call of the counter guest.
fn call_counter(vm: &mut VM) {
    let mut s = vm.begin_call();
    counter_guest_run(&mut s).unwrap();
    match s.step(GuestEvent::Return) {
        HostReply::Completed => {},
        r => panic!("unexpected reply: {:?}", r),
    }
    vm.commit_call(s);
}

/// The counter program added to twice, then doubled by a nested program.
#[test]
fn my_test() {
    let addition_bytes = b"counter-bytecode".to_vec();
    let multiply_bytes = b"doubler-bytecode".to_vec();
    let mut vm = VM::new(addition_bytes);

    let increment_msg_bytes = encode_action(&Action::Increment(6));
    vm.set(b"input".to_vec(), increment_msg_bytes);
    vm.set(b"count".to_vec(), le_i32(0));
    call_counter(&mut vm);
    call_counter(&mut vm);
    assert_eq!(i32_of(vm.get(b"count").unwrap()), 12);

    let execute_action_bytes = encode_action(&Action::Execute(multiply_bytes));
    vm.set(b"input".to_vec(), execute_action_bytes);
    call_counter(&mut vm);
    let count = i32_of(vm.get(b"count").unwrap());
    assert_eq!(count, 24);
}

/// The nested program's store survives under its store key, and the
/// child's run never touches the parent's code.
#[test]
fn nested_execution_isolates_child() {
    let mut vm = VM::new(b"counter-bytecode".to_vec());
    vm.set(b"input".to_vec(), encode_action(&Action::Execute(b"doubler".to_vec())));
    vm.set(b"count".to_vec(), le_i32(21));
    call_counter(&mut vm);
    assert_eq!(i32_of(vm.get(b"count").unwrap()), 42);
    // the child's sub-store was written back under its store key
    let sub = vm.get(b"child_store").unwrap();
    let child_store = nomos_vm::codec::decode_store(sub).unwrap();
    assert_eq!(i32_of(child_store.get(b"x").unwrap()), 42);
    // the parent's code is what it always was
    assert_eq!(vm.current_code(), &b"counter-bytecode".to_vec());
}

/// A child's code upgrade is discarded: only its store is written back.
#[test]
fn child_upgrade_does_not_leak() {
    let mut vm = VM::new(b"parent-code".to_vec());
    vm.set(b"child-code".to_vec(), b"child-bytecode".to_vec());
    let mut s = vm.begin_call();
    let child = Child::new(b"child-code".to_vec(), b"cs".to_vec());
    child.call(&mut s, "_run").unwrap();
    // the child upgrades itself, writes a value, and returns
    upgrade(&mut s, b"rogue-code".to_vec());
    nomos_vm::runtime::write(&mut s, b"marker".to_vec(), vec![1]);
    match s.step(GuestEvent::Return) {
        HostReply::ChildCommitted => {},
        r => panic!("unexpected reply: {:?}", r),
    }
    s.step(GuestEvent::Return);
    vm.commit_call(s);
    // the child's store came back; its code mutation did not
    assert_eq!(vm.current_code(), &b"parent-code".to_vec());
    let sub = nomos_vm::codec::decode_store(vm.get(b"cs").unwrap()).unwrap();
    assert_eq!(sub.get(b"marker"), Some(&vec![1u8]));
}

/// Upgrading through the intent message: the next call runs the new code.
#[test]
fn upgrade_scenario() {
    let mut vm = VM::new(b"counter-bytecode".to_vec());
    vm.set(b"input".to_vec(), encode_action(&Action::Upgrade(b"new-code".to_vec())));
    call_counter(&mut vm);
    assert_eq!(vm.current_code(), &b"new-code".to_vec());
}

/// A dispatch naming a code key absent from the store fails the whole
/// call and leaves the VM unchanged.
#[test]
fn missing_code_key_scenario() {
    let mut vm = VM::new(b"counter-bytecode".to_vec());
    vm.set(b"count".to_vec(), le_i32(5));
    let mut s = vm.begin_call();
    nomos_vm::runtime::write(&mut s, b"count".to_vec(), le_i32(99));
    let child = Child::new(b"no-such-key".to_vec(), b"cs".to_vec());
    let r = child.call(&mut s, "_run");
    assert_eq!(r.unwrap_err(), VmError::KeyNotFound);
    assert!(s.has_failed());
    // the session cannot be committed; the VM is untouched
    assert_eq!(i32_of(vm.get(b"count").unwrap()), 5);
    assert_eq!(vm.get(b"cs"), None);
}
