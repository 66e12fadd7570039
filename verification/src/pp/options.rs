//! Preprocessing options: include paths, command-line macros, dependency
//! output modes and resource limits.

use vstd::prelude::*;

verus! {

/// Where an include directory was named, which decides its search order.
#[derive(Clone, Copy, Debug, PartialEq, Eq, Hash, Structural)]
pub enum IncludePathKind {
    Quote,
    User,
    System,
    Resource,
    After,
}

/// One include directory and how it was named.
#[derive(Clone, Debug)]
pub struct IncludePath {
    pub path: String,
    pub kind: IncludePathKind,
}

impl IncludePath {
    pub fn new(path: String, kind: IncludePathKind) -> (result: Self)
        ensures
            result.path@ == path@,
            result.kind == kind,
    {
        Self { path, kind }
    }
}

/// A `-D` or `-U` option, in command-line order.
#[derive(Clone, Debug)]
pub enum CommandLineMacro {
    Define(String),
    Undefine(String),
}

/// Which dependency output the preprocessor produces.
#[derive(Clone, Copy, Debug, PartialEq, Eq, Structural)]
pub enum DependencyMode {
    Disabled,
    All,
    User,
    SideEffectAll,
    SideEffectUser,
}

impl Default for DependencyMode {
    fn default() -> (result: Self)
        ensures
            result == DependencyMode::Disabled,
    {
        DependencyMode::Disabled
    }
}

impl DependencyMode {
    /// Whether system headers are left out of the dependency list.
    pub fn excludes_system_headers(self) -> (result: bool)
        ensures
            result == (self == DependencyMode::User || self == DependencyMode::SideEffectUser),
    {
        match self {
            DependencyMode::User | DependencyMode::SideEffectUser => true,
            _ => false,
        }
    }

    /// Whether dependency output replaces the preprocessed text.
    pub fn is_dependency_only(self) -> (result: bool)
        ensures
            result == (self == DependencyMode::All || self == DependencyMode::User),
    {
        match self {
            DependencyMode::All | DependencyMode::User => true,
            _ => false,
        }
    }
}

/// Resource limits that keep hostile input from exhausting the preprocessor.
#[derive(Clone, Copy, Debug, PartialEq, Eq, Structural)]
pub struct PreprocessLimits {
    pub include_depth: usize,
    pub expansion_depth: usize,
    pub argument_depth: usize,
    pub output_tokens: usize,
    pub diagnostics: usize,
}

impl Default for PreprocessLimits {
    fn default() -> (result: Self)
        ensures
            result == (PreprocessLimits {
                include_depth: 200,
                expansion_depth: 256,
                argument_depth: 256,
                output_tokens: 2_000_000,
                diagnostics: 100,
            }),
    {
        Self {
            include_depth: 200,
            expansion_depth: 256,
            argument_depth: 256,
            output_tokens: 2_000_000,
            diagnostics: 100,
        }
    }
}

/// The C dialect whose rules the preprocessor applies.
#[derive(Clone, Copy, Debug, PartialEq, Eq, Structural)]
pub enum LanguageMode {
    C11,
    Gnu11,
}

/// Whether trigraphs are replaced: an explicit choice wins, and otherwise
/// only strict ISO C enables them.
pub fn trigraphs_enabled(trigraphs: Option<bool>, language_mode: LanguageMode) -> (result: bool)
    ensures
        result == match trigraphs {
            Some(enabled) => enabled,
            None => language_mode == LanguageMode::C11,
        },
{
    match trigraphs {
        Some(enabled) => enabled,
        None => match language_mode {
            LanguageMode::C11 => true,
            LanguageMode::Gnu11 => false,
        },
    }
}

} // verus!
