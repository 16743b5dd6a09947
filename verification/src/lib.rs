//! Core of a PostgreSQL connection pooler: per-(database, user) pools of
//! per-(shard, server) slot pools, an acquisition planner with load
//! balancing, a replica-banning state machine, and a registry snapshot that
//! is rebuilt on configuration reload with warm pools reused.

pub mod acquire;
pub mod builder;
pub mod config;
pub mod outside;
pub mod registry;
pub mod pool;

pub use config::Config;
pub use config::GeneralConfig;
pub use config::PoolConfig;
pub use config::PoolIdentifier;
pub use config::Role;
