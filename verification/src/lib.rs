//! A bounded single-producer single-consumer queue over a ring buffer.
//!
//! [`make`] creates a queue and returns its two ends. Within one thread:
//!
//! ```ignore
//! // Create a queue with capacity to hold 100 values
//! let (mut p, mut c) = make(100);
//!
//! // Push `123` onto the queue
//! p.push(123);
//!
//! // Pop the value back off
//! let t = c.pop();
//! assert!(t == Some(123));
//! ```
//!
//! Both ends can be sent to other threads where the values are `Send` and `Sync`, which makes the
//! queue a bounded one-way channel.
//!
//! The modules build on each other. [`model`] says what a bounded queue is, and [`laws`] what
//! follows from that. [`index`] has the arithmetic of the ring, [`memory`] what it asks for,
//! [`buffer`] the ring itself, and [`ledger`] a ring that keeps account of what passed through it.
//! [`numbered`] numbers its calls, and [`guard`] puts it behind a lock. [`handles`] has the two
//! ends, and [`wait`] what they do after each try. Beneath them, `lock` is a lock that keeps books
//! on its visitors, and `destroyed` an account of values that are destroyed.

pub mod buffer;
mod destroyed;
pub mod guard;
pub mod handles;
pub mod index;
pub mod laws;
pub mod ledger;
mod lock;
pub mod memory;
pub mod model;
pub mod numbered;
pub mod wait;

pub use buffer::Buffer;
pub use handles::{make, make_saying, try_make, Consumer, Producer};
pub use memory::can_make;
