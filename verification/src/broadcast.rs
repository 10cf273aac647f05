pub mod registry;
pub mod roster;
pub mod v1;
pub mod v2;
