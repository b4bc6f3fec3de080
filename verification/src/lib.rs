pub mod broadcast;
pub mod codec;
pub mod error;
pub mod network;
pub mod rows;
pub mod store;
