//! Transfer planning: the queue, the copy and retry rules, the disk space
//! bookkeeping and the session flow of a tool that moves files to removable
//! storage.

use vstd::prelude::*;

pub mod buffers;
pub mod busy;
pub mod channel;
pub mod checkpoint;
pub mod cleanup;
pub mod config;
pub mod copy;
pub mod fields;
pub mod flows;
pub mod format;
pub mod monitor;
pub mod mounts;
pub mod order;
pub mod path;
pub mod pathset;
pub mod pool;
pub mod preflight;
pub mod progress;
pub mod prompts;
pub mod queue;
pub mod session;
pub mod space;
pub mod stats;
pub mod sync;
pub mod text;
pub mod transfer;
pub mod unmount;
pub mod verify;
pub mod worker;

verus! {

} // verus!
