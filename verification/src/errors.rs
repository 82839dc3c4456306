//! The error taxonomy of the engine: persistence faults, malformed input
//! documents, and response-construction failures. Each error carries a
//! human-readable cause.

use vstd::prelude::*;

verus! {

#[derive(Debug)]
pub enum AppError {
    /// A persistence-layer fault.
    Database(String),
    /// A failure constructing an outgoing response.
    Response(String),
    /// A malformed input document.
    Serialization(String),
}

impl AppError {
    /// The human-readable cause the error carries.
    pub fn message(&self) -> (r: &String)
        ensures
            match self {
                AppError::Database(m) => r@ == m@,
                AppError::Response(m) => r@ == m@,
                AppError::Serialization(m) => r@ == m@,
            },
    {
        match self {
            AppError::Database(m) => m,
            AppError::Response(m) => m,
            AppError::Serialization(m) => m,
        }
    }
}

} // verus!
