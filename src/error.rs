use vstd::prelude::*;

verus! {

/// The ways in which inspecting a target interpreter can fail.
#[derive(Debug, Clone, Copy, PartialEq, Eq, Structural)]
pub enum SpyError {
    /// The operating system refused to open the target process.
    CannotOpenProcess,
    /// No memory region matches the interpreter's executable.
    RuntimeNotFound,
    /// No version string was found in the interpreter's data.
    VersionNotFound,
    /// A version was found, but no known memory layout covers it.
    UnsupportedVersion,
    /// Neither the symbolic nor the scanning strategy located the interpreter.
    InterpreterNotFound,
    /// Reading the target's memory failed.
    RemoteReadFailed,
    /// A remote structure failed a structural check.
    LayoutViolation,
}

} // verus!
