//! Remote inspection of a running Python interpreter: version detection,
//! layout selection, interpreter-root validation, and stack-trace annotation.

pub mod error;
pub mod process;
pub mod scan;
pub mod spy;
pub mod text;
pub mod version;
