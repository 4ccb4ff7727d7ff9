pub mod modes;
pub mod files;
pub mod gizmos;
pub mod switching;
pub mod validate;
pub mod picking;
pub mod preview;
pub mod rooms;
pub mod state;
