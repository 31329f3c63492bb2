//! Conversion of dynamic values between a native engine and a host object
//! model, the decision logic of a host-facing asynchronous iterator over a
//! native result stream, and the record filter of a minimal logger.

pub mod config;
pub mod logger;
pub mod stream;
pub mod value;
