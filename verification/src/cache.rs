pub mod lock;
pub mod buffer;
pub mod policy;
pub mod inner;
pub mod comment;
pub mod users;
pub mod posts;
pub mod tags;
pub mod objects;
pub mod thread;
pub mod thread_laws;
pub mod tree_law;
pub mod path_law;
pub mod conf;
pub mod store;
pub mod laws;
pub mod order_laws;
pub mod discussion;
pub mod edits;
pub mod views;
