//! The ways in which a request to the library can be malformed.

use vstd::prelude::*;

verus! {

/// Why the library turned a request down.
#[derive(Clone, Copy, Debug, PartialEq, Eq, Structural)]
pub enum Error {
    /// The points and triangles handed over do not describe a mesh, or
    /// joining two meshes would take an index out of its sixteen bits.
    InvalidGeometry,
    /// A pass of the static would have chunks of size zero, or of a size
    /// that does not divide the texture's side.
    InvalidTextureParams,
}

} // verus!
