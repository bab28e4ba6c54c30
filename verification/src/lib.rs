pub mod text;
pub mod host;
pub mod quota;
pub mod version_control;
pub mod servers;
pub mod containers;
pub mod auth;
pub mod setup;
