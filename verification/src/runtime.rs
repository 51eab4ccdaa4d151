//! What the runtime decides when it wires the protocol together.

pub mod benchmark;
pub mod insurance;
pub mod mock_oracle;
pub mod relay_timestamp;
