pub mod codec;
pub mod error;
pub mod model;
pub mod perm;
pub mod schema;
