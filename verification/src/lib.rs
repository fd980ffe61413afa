//! Verified decision logic of the Firemage VM runtime.
pub mod text;
pub mod catalog_alias;
pub mod addressing;
pub mod process;
pub mod egress;
pub mod lifecycle;
pub mod isolation;
pub mod seed;
pub mod digest;
pub mod assets;
pub mod snapshots;
pub mod disk_swap;
pub mod prepare;
pub mod terminal;
pub mod naming;
pub mod editing;
pub mod provenance;
pub mod locks;
