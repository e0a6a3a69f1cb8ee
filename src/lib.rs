pub mod codec;
pub mod commands;
pub mod decimal;
pub mod engine;
pub mod model;
pub mod query;
pub mod reply;
pub mod store;
