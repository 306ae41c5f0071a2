use vstd::prelude::*;

verus! {

/// Lets `std::path::PathBuf` stand in the fields below; Verus sees nothing inside it.
#[verifier::external_type_specification]
#[verifier::external_body]
pub struct ExPathBuf(std::path::PathBuf);

/// Directories used while building images.
pub struct XTaskPaths {
    /// Absolute path to the cargo home directory.
    pub cargo_home: std::path::PathBuf,
    /// Absolute path to the root of the source tree.
    pub hubris_root: std::path::PathBuf,
    /// Absolute path to the cargo output directory.
    pub output_dir: std::path::PathBuf,
}

} // verus!
