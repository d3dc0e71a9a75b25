use vstd::prelude::*;

verus! {

/// How a writer device is used; fixed for the lifetime of a session and selects
/// which frame transform applies to its samples.
#[derive(Clone, Copy, Debug, PartialEq, Eq, Structural)]
pub enum FrameType {
    /// A device worn or held as the viewer's head (the secondary role).
    Viewer,
    /// A device used as the manipulated object (the primary role).
    Racket,
}

} // verus!
