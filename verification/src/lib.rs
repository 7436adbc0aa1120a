pub mod json;
pub mod classify;
pub mod keys;
pub mod vars;
pub mod render;
pub mod compile;
pub mod chunk;
pub mod txn;
pub mod query_text;
pub mod laws;
