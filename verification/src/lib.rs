pub mod aggregate;
pub mod dir;
pub mod laws;
pub mod utils;
pub mod validate;
