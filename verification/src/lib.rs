pub mod auth;
pub mod codec;
pub mod skeleton;
pub mod store;
