use std::path::PathBuf;
use vstd::prelude::*;

verus! {

#[verifier::external_type_specification]
#[verifier::external_body]
pub struct ExPathBuf(PathBuf);

/// The directory, under the system's temporary directory, that holds the
/// marker files when no output directory is configured.
pub const DEFAULT_DIR_NAME: &'static str = "tracing-samply";

/// Configuration of a [`SamplyLayer`]: where its marker files go.
pub struct SamplyLayerBuilder {
    output_dir: Option<PathBuf>,
}

impl SamplyLayerBuilder {
    /// The configured output directory, if any.
    pub closed spec fn configured_dir(&self) -> Option<PathBuf> {
        self.output_dir
    }

    /// A builder with no output directory configured.
    pub fn new() -> (r: SamplyLayerBuilder)
        ensures
            r.configured_dir().is_none(),
    {
        SamplyLayerBuilder { output_dir: None }
    }

    /// Sets the output directory of the marker files, replacing any set
    /// before.
    pub fn output_dir(self, dir: PathBuf) -> (r: SamplyLayerBuilder)
        ensures
            r.configured_dir() == Some(dir),
    {
        SamplyLayerBuilder { output_dir: Some(dir) }
    }

    /// The base directory of the marker files: the configured one, else
    /// `default_dir` (the temporary directory joined with
    /// [`DEFAULT_DIR_NAME`]). The files of a process go into a subdirectory
    /// named by its process identifier.
    pub fn base_dir(self, default_dir: PathBuf) -> (r: PathBuf)
        ensures
            r == match self.configured_dir() {
                Some(d) => d,
                None => default_dir,
            },
    {
        match self.output_dir {
            Some(d) => d,
            None => default_dir,
        }
    }
}

/// The marker bridge: where the marker files of this process go.
pub struct SamplyLayer {
    dir: PathBuf,
}

impl SamplyLayer {
    /// The directory of the marker files of this process.
    pub closed spec fn spec_dir(&self) -> PathBuf {
        self.dir
    }

    /// A builder with no output directory configured.
    pub fn builder() -> (r: SamplyLayerBuilder)
        ensures
            r.configured_dir().is_none(),
    {
        SamplyLayerBuilder::new()
    }

    /// The layer that writes its marker files into `dir`, which must exist
    /// before the first file is created.
    pub fn with_dir(dir: PathBuf) -> (r: SamplyLayer)
        ensures
            r.spec_dir() == dir,
    {
        SamplyLayer { dir }
    }

    /// The directory of the marker files of this process.
    pub fn dir(&self) -> (r: &PathBuf)
        ensures
            *r == self.spec_dir(),
    {
        &self.dir
    }
}

} // verus!
