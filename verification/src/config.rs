//! The configuration of the build: which plugins run on which files.

pub mod glob;
pub mod ordered;
pub mod parcel_config;
pub mod parcel_rc;
pub mod parcel_rc_config;
pub mod partial_parcel_config;
pub mod plugin;
