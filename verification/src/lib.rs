pub mod digest;
pub mod plan;
pub mod shard;
