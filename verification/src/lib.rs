pub mod broker;
pub mod channel;
pub mod ident;
pub mod tasks;
pub mod text;

use vstd::prelude::*;

verus! {

/// Capacity of the broker's bounded message channel.
pub const CHANNEL_CAPACITY: usize = 100;

/// Starts the one broker of the process: a fresh bounded channel and an
/// empty identity registry.
pub fn init() -> (c: crate::broker::Console)
    ensures
        c.wf(),
        c.pb() == Seq::<crate::broker::PhonebookRecord>::empty(),
        c.auth_ids() == Seq::<u64>::empty(),
        c.black_ids() == Seq::<u64>::empty(),
        c.queue() == Seq::<Seq<char>>::empty(),
        c.bound() == CHANNEL_CAPACITY as nat,
{
    crate::broker::Console::init()
}

} // verus!
