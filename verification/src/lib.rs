pub mod handlers;
pub mod models;
pub mod session;
pub mod store;
