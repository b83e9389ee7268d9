//! Resource-lifecycle bookkeeping for asynchronous GPU command submission: ring allocators whose
//! space returns as a timeline counter advances, the ordering core of a multi-producer
//! submission queue, and a frame-latency registry for deferred destruction.
use vstd::prelude::*;

pub mod align;
pub mod append;
pub mod arena;
pub mod async_queue;
pub mod fence;
pub mod graveyard;
pub mod layout;
pub mod region;
pub mod ring_alloc;
pub mod ring_state;
pub mod staging;
pub mod submission;
pub mod timeline_ring;

pub use align::align;
pub use arena::{Arena, ArenaAlloc};
pub use fence::{Dead, Disconnected, ShutDown};
pub use graveyard::{Graveyard, HandleKind};
pub use region::align_down;
pub use ring_alloc::{Id, RingAlloc};
pub use ring_state::RingState;
pub use staging::StagingRing;
pub use submission::{DrainState, Message, Work};
pub use timeline_ring::TimelineRing;

verus! {

} // verus!
