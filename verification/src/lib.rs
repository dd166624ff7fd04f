//! Reliable work-queue consumer core: the task envelope codec, the two
//! task evaluators (arithmetic planning and prime counting), the lease-loop
//! state machine, and a model of the broker's lease/complete protocol.

pub mod broker;
pub mod codec;
pub mod eval;
pub mod json;
pub mod machine;
pub mod primes;
pub mod record;
pub mod render;
pub mod roundtrip;
pub mod strutil;
pub mod worker;
