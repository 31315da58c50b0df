pub mod eval;
pub mod laws;
pub mod runtime;
pub mod token;
pub mod value;
pub mod verbs;
