//! Generated-assembly protocols, artifact bundles and the link-stage rules
//! that decide which runtime helpers a link needs.

pub mod arguments;
pub mod artifact;
pub mod assembly;
pub mod bridge;
pub mod fingerprint;
pub mod helpers;
pub mod object_file;
pub mod package;
pub mod packaging;
pub mod resolver;
pub mod scan;
pub mod symbols;
pub mod temp_cleanup;
pub mod toolchain;

use vstd::prelude::*;

verus! {

/// A link-stage failure with its diagnostic code.
#[derive(Debug)]
pub struct LinkError {
    pub code: &'static str,
    pub message: String,
}

/// The code of every artifact-verification failure.
pub open spec fn artifact_code() -> Seq<char> {
    "CCC5010"@
}

/// An artifact-verification failure with `message`.
pub fn artifact_error(message: String) -> (result: LinkError)
    ensures
        result.code@ == artifact_code(),
        result.message@ == message@,
{
    LinkError { code: "CCC5010", message }
}

/// The outcome of a check that yields nothing on success: `Ok`, or the
/// message of an artifact error.
pub open spec fn check_outcome(result: Result<(), LinkError>) -> Result<(), Seq<char>> {
    match result {
        Ok(()) => Ok(()),
        Err(error) => Err(error.message@),
    }
}

/// `result` is `Ok`, or an artifact error.
pub open spec fn artifact_failure<T>(result: Result<T, LinkError>) -> bool {
    result matches Err(error) ==> error.code@ == artifact_code()
}

/// Components required by the selected compiler actions.
#[derive(Clone, Copy, Debug, Default, PartialEq, Eq, Hash, Structural)]
pub struct ToolchainRequirements {
    pub system_headers: bool,
    pub disable_system_headers: bool,
    pub assembler: bool,
    pub linker: bool,
    pub object_copier: bool,
    pub archiver: bool,
}

impl ToolchainRequirements {
    pub fn preprocess(default_system_includes: bool) -> (result: Self)
        ensures
            result == (ToolchainRequirements {
                system_headers: default_system_includes,
                disable_system_headers: !default_system_includes,
                assembler: false,
                linker: false,
                object_copier: false,
                archiver: false,
            }),
    {
        Self {
            system_headers: default_system_includes,
            disable_system_headers: !default_system_includes,
            assembler: false,
            linker: false,
            object_copier: false,
            archiver: false,
        }
    }

    pub fn compile(default_system_includes: bool) -> (result: Self)
        ensures
            result == (ToolchainRequirements {
                system_headers: default_system_includes,
                disable_system_headers: !default_system_includes,
                assembler: true,
                linker: false,
                object_copier: false,
                archiver: false,
            }),
    {
        Self {
            system_headers: default_system_includes,
            disable_system_headers: !default_system_includes,
            assembler: true,
            linker: false,
            object_copier: false,
            archiver: false,
        }
    }

    pub fn link() -> (result: Self)
        ensures
            result == (ToolchainRequirements {
                system_headers: false,
                disable_system_headers: false,
                assembler: false,
                linker: true,
                object_copier: false,
                archiver: false,
            }),
    {
        Self {
            system_headers: false,
            disable_system_headers: false,
            assembler: false,
            linker: true,
            object_copier: false,
            archiver: false,
        }
    }

    pub fn archive() -> (result: Self)
        ensures
            result == (ToolchainRequirements {
                system_headers: false,
                disable_system_headers: false,
                assembler: false,
                linker: false,
                object_copier: false,
                archiver: true,
            }),
    {
        Self {
            system_headers: false,
            disable_system_headers: false,
            assembler: false,
            linker: false,
            object_copier: false,
            archiver: true,
        }
    }

    /// Tools needed to turn generated assembly into one relocatable object.
    /// Assembly goes through the compiler driver, so no standalone assembler
    /// is required.
    pub fn package_generated_assembly() -> (result: Self)
        ensures
            result == (ToolchainRequirements {
                system_headers: false,
                disable_system_headers: false,
                assembler: false,
                linker: false,
                object_copier: true,
                archiver: false,
            }),
    {
        Self {
            system_headers: false,
            disable_system_headers: false,
            assembler: false,
            linker: false,
            object_copier: true,
            archiver: false,
        }
    }

    /// Mach-O packaging relies on the driver's partial link and a Mach-native
    /// symbol editor, so no separate tool is required.
    pub fn package_generated_macho_assembly() -> (result: Self)
        ensures
            result == (ToolchainRequirements {
                system_headers: false,
                disable_system_headers: false,
                assembler: false,
                linker: false,
                object_copier: false,
                archiver: false,
            }),
    {
        Self {
            system_headers: false,
            disable_system_headers: false,
            assembler: false,
            linker: false,
            object_copier: false,
            archiver: false,
        }
    }
}

/// What a final link produces.
#[derive(Clone, Copy, Debug, PartialEq, Eq, Structural)]
pub enum LinkOutputKind {
    Executable,
    Shared,
    Relocatable,
}

/// Captured output from a toolchain probe.
#[derive(Clone, Debug, PartialEq, Eq)]
pub struct ProbeOutput {
    pub success: bool,
    pub status: String,
    pub stdout: Vec<u8>,
    pub stderr: Vec<u8>,
}

/// The probe runner that starts real processes.
#[derive(Clone, Copy, Debug, Default)]
pub struct ProcessProbeRunner;

} // verus!
