//! A minimal host runtime for sandboxed, stateful bytecode programs.
//!
//! A [`vm::VM`] owns a bytecode module and a byte-keyed store.  Each call
//! stages a working copy of both; host operations issued by the running
//! guest mutate only the staged copy, and the staged copy is committed
//! back onto the VM only when the call completes successfully.  A guest
//! may replace the VM's code in place (effective from the next call) and
//! may dispatch a nested child VM against an isolated sub-store.

pub mod codec;
pub mod error;
pub mod runtime;
pub mod store;
pub mod vm;

pub use codec::Action;
pub use codec::ExecutionMessage;
pub use error::VmError;
pub use runtime::Child;
pub use store::Store;
pub use vm::{GuestEvent, HostReply, Session, SharedContext, VM};
