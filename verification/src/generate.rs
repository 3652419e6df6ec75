use crate::errors::BuildError;
use vstd::prelude::*;

verus! {

/// The single transport-generation directive: the path and type of the
/// transport output the generated module binds to, and the context type
/// handed to command handlers.
#[derive(Debug)]
pub struct GenerateConfig {
    /// The path and type texts of the transport output, when given.
    pub transport: Option<(Vec<u8>, Vec<u8>)>,
    /// The context type text; the unit type when not given.
    pub context: Vec<u8>,
}

impl GenerateConfig {
    /// A directive must name its transport.
    pub fn validate(&self) -> (r: Result<(), BuildError>)
        ensures
            r is Ok <==> self.transport is Some,
            r is Err ==> r == Err::<(), BuildError>(BuildError::MissingTransport),
    {
        if self.transport.is_some() {
            Ok(())
        } else {
            Err(BuildError::MissingTransport)
        }
    }
}

/// Which of a submodule's two candidate files to walk: `false` for
/// `<name>.rs`, `true` for `<name>/mod.rs`.  Both existing is ambiguous
/// and neither existing leaves the module unresolvable; either is a
/// build error.
pub fn resolve_submodule(file_exists: bool, dir_exists: bool) -> (r: Result<bool, BuildError>)
    ensures
        file_exists && dir_exists ==> r == Err::<bool, BuildError>(BuildError::AmbiguousSubmodule),
        !file_exists && !dir_exists ==> r == Err::<bool, BuildError>(BuildError::MissingSubmodule),
        file_exists && !dir_exists ==> r == Ok::<bool, BuildError>(false),
        !file_exists && dir_exists ==> r == Ok::<bool, BuildError>(true),
{
    if file_exists && dir_exists {
        Err(BuildError::AmbiguousSubmodule)
    } else if file_exists {
        Ok(false)
    } else if dir_exists {
        Ok(true)
    } else {
        Err(BuildError::MissingSubmodule)
    }
}

} // verus!
