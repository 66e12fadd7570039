//! The decisions of a toolchain resolution: whether the driver reports the
//! expected target, which probes the requirements call for, how the
//! driver's include list marks the compiler's own directories, and which
//! object copier is used. Running the probes is the caller's.

use vstd::prelude::*;

use crate::link::fingerprint::EnvironmentEntry;
use crate::link::toolchain::{
    command_view, command_with_target_options, environment_lookup, environment_value,
    parse_tool_command, option_string_view, whitespace_words, ToolCommandSpec,
};
use crate::link::{LinkError, ToolchainRequirements};
use crate::pp::search::{SystemInclude, SystemIncludeKind};
use crate::text::{
    chars_of, lines_of, push_str, str_eq, string_from_chars,
    strings_view, text_lines, trim_chars, trim_ws,
};

verus! {

/// What target comparison reads of a target triple: each part as the triple
/// parser spells it, and whether the operating system is a macOS one.
pub struct TargetTriple {
    pub architecture: String,
    pub operating_system: String,
    pub macos: bool,
    pub environment: String,
    pub binary_format: String,
}

/// Two triples name the same target where architecture, environment and
/// binary format agree and the operating systems agree or are both macOS.
pub open spec fn triples_match(reported: TargetTriple, expected: TargetTriple) -> bool {
    &&& reported.architecture@ == expected.architecture@
    &&& (reported.operating_system@ == expected.operating_system@ || (reported.macos && expected.macos))
    &&& reported.environment@ == expected.environment@
    &&& reported.binary_format@ == expected.binary_format@
}

/// Whether the driver's reported target is the one expected.
pub fn target_matches(reported: &TargetTriple, expected: &TargetTriple) -> (result: bool)
    ensures
        result == triples_match(*reported, *expected),
{
    let operating_system_matches = str_eq(
        reported.operating_system.as_str(),
        expected.operating_system.as_str(),
    ) || (reported.macos && expected.macos);
    str_eq(reported.architecture.as_str(), expected.architecture.as_str()) && operating_system_matches
        && str_eq(reported.environment.as_str(), expected.environment.as_str()) && str_eq(
        reported.binary_format.as_str(),
        expected.binary_format.as_str(),
    )
}

pub open spec fn target_mismatch_message(driver: Seq<char>, reported: Seq<char>, expected: Seq<char>) -> Seq<
    char,
> {
    "compiler driver `"@ + driver + "` reports target `"@ + reported + "`, expected `"@ + expected + "`"@
}

/// Accepts the driver only where its reported target matches the expected
/// one; `driver`, `reported_text` and `expected_text` are how the driver
/// and the two triples are spelled in the error.
pub fn check_reported_target(
    driver: &str,
    reported: &TargetTriple,
    reported_text: &str,
    expected: &TargetTriple,
    expected_text: &str,
) -> (result: Result<(), LinkError>)
    ensures
        match result {
            Ok(()) => triples_match(*reported, *expected),
            Err(error) => !triples_match(*reported, *expected) && error.code@ == "CCC5005"@
                && error.message@ == target_mismatch_message(driver@, reported_text@, expected_text@),
        },
{
    if target_matches(reported, expected) {
        return Ok(());
    }
    let mut text: Vec<char> = Vec::new();
    push_str(&mut text, "compiler driver `");
    push_str(&mut text, driver);
    push_str(&mut text, "` reports target `");
    push_str(&mut text, reported_text);
    push_str(&mut text, "`, expected `");
    push_str(&mut text, expected_text);
    push_str(&mut text, "`");
    assert(text@ =~= target_mismatch_message(driver@, reported_text@, expected_text@));
    Err(LinkError { code: "CCC5005", message: string_from_chars(text.as_slice()) })
}

/// Where the object copier comes from.
pub enum ObjectCopierChoice {
    /// The one the existing toolchain has, or none.
    Existing,
    /// The command an environment entry names.
    Named(ToolCommandSpec),
    /// The one the driver reports for `objcopy`.
    Probe,
    /// An environment entry that names no command.
    Invalid(LinkError),
}

/// The probes a resolution runs, in this order, and what it keeps.
pub struct ResolutionPlan {
    /// Ask the driver for its sysroot (after its version).
    pub probe_sysroot: bool,
    /// Ask the driver for its resource directory.
    pub probe_resource_dir: bool,
    /// Ask the driver for its include search list; otherwise the existing
    /// list is kept.
    pub probe_system_includes: bool,
    /// Drop every system include directory.
    pub clear_system_includes: bool,
    pub probe_assembler: bool,
    /// Ask for `ar` and then `ranlib`.
    pub probe_archiver: bool,
    pub object_copier: ObjectCopierChoice,
    /// The resolved driver also links.
    pub linker_driver: bool,
}

/// The object copier a resolution uses: `CCC_OBJCOPY`, else `OBJCOPY`,
/// else the driver's `objcopy`; the existing one where none is required.
pub open spec fn copier_choice_holds(
    requirements: ToolchainRequirements,
    environment: Seq<EnvironmentEntry>,
    choice: ObjectCopierChoice,
) -> bool {
    if !requirements.object_copier {
        choice is Existing
    } else {
        let named = match environment_lookup(environment, "CCC_OBJCOPY"@) {
            Some(v) => Some(v),
            None => environment_lookup(environment, "OBJCOPY"@),
        };
        match named {
            None => choice is Probe,
            Some(value) => match choice {
                ObjectCopierChoice::Named(command) => whitespace_words(value).len() > 0 && command_view(
                    command,
                ) == (whitespace_words(value)[0], whitespace_words(value).drop_first()),
                ObjectCopierChoice::Invalid(error) => whitespace_words(value).len() == 0 && error.code@
                    == "CCC5002"@ && error.message@ == "object copier environment entry is empty"@,
                _ => false,
            },
        }
    }
}

/// What a resolution probes for `requirements`: the sysroot where system
/// headers or linking need one and none is given, the resource directory
/// and include list for system headers, the assembler, archiver and object
/// copier where required.
pub fn resolution_plan(
    requirements: ToolchainRequirements,
    explicit_sysroot: Option<&str>,
    explicit_resource_dir: Option<&str>,
    environment: &[EnvironmentEntry],
) -> (result: ResolutionPlan)
    ensures
        result.probe_sysroot == ((requirements.system_headers || requirements.linker)
            && explicit_sysroot is None),
        result.probe_resource_dir == (requirements.system_headers && explicit_resource_dir is None),
        result.probe_system_includes == requirements.system_headers,
        result.clear_system_includes == requirements.disable_system_headers,
        result.probe_assembler == requirements.assembler,
        result.probe_archiver == requirements.archiver,
        result.linker_driver == requirements.linker,
        copier_choice_holds(requirements, environment@, result.object_copier),
{
    let object_copier = if requirements.object_copier {
        let named = match environment_value(environment, "CCC_OBJCOPY") {
            Some(v) => Some(v),
            None => environment_value(environment, "OBJCOPY"),
        };
        match named {
            Some(command) => match parse_tool_command(command, "object copier") {
                Ok(parsed) => ObjectCopierChoice::Named(parsed),
                Err(error) => {
                    proof {
                        reveal_strlit("object copier");
                        reveal_strlit(" environment entry is empty");
                        reveal_strlit("object copier environment entry is empty");
                        assert("object copier"@ + " environment entry is empty"@
                            =~= "object copier environment entry is empty"@);
                    }
                    ObjectCopierChoice::Invalid(error)
                },
            },
            None => ObjectCopierChoice::Probe,
        }
    } else {
        ObjectCopierChoice::Existing
    };
    ResolutionPlan {
        probe_sysroot: (requirements.system_headers || requirements.linker) && explicit_sysroot.is_none(),
        probe_resource_dir: requirements.system_headers && explicit_resource_dir.is_none(),
        probe_system_includes: requirements.system_headers,
        clear_system_includes: requirements.disable_system_headers,
        probe_assembler: requirements.assembler,
        probe_archiver: requirements.archiver,
        object_copier,
        linker_driver: requirements.linker,
    }
}

/// The driver's include list with each directory that is the resource
/// directory, or its `include` subdirectory, marked as the compiler's own:
/// `same[i]` says whether entry `i` is one of them.
pub fn mark_builtin_includes(includes: Vec<SystemInclude>, same: &[bool]) -> (result: Vec<SystemInclude>)
    requires
        same@.len() == includes@.len(),
    ensures
        result@.len() == includes@.len(),
        forall|i: int|
            0 <= i < includes@.len() ==> (#[trigger] result@[i]).path@ == includes@[i].path@
                && result@[i].kind == if same@[i] {
                SystemIncludeKind::Builtin
            } else {
                includes@[i].kind
            },
{
    let mut marked: Vec<SystemInclude> = Vec::new();
    let mut i: usize = 0;
    while i < includes.len()
        invariant
            i <= includes@.len(),
            same@.len() == includes@.len(),
            marked@.len() == i,
            forall|k: int|
                0 <= k < i ==> (#[trigger] marked@[k]).path@ == includes@[k].path@ && marked@[k].kind
                    == if same@[k] {
                    SystemIncludeKind::Builtin
                } else {
                    includes@[k].kind
                },
        decreases includes.len() - i,
    {
        let entry = &includes[i];
        let kind = if same[i] {
            SystemIncludeKind::Builtin
        } else {
            entry.kind
        };
        marked.push(SystemInclude { path: entry.path.clone(), kind });
        i = i + 1;
    }
    marked
}

/* Driving the probes */

/// What a resolution has learned from its probes so far; `None` where a
/// probe has not answered yet.
pub struct Gathered {
    /// How the driver spelled its target, once it matched.
    pub reported: Option<String>,
    pub version: Option<String>,
    pub sysroot: Option<Option<String>>,
    pub resource_dir: Option<Option<String>>,
    pub system_includes: Option<Vec<SystemInclude>>,
    /// Whether the include list has had its builtin directories marked.
    pub marked: bool,
    pub assembler: Option<ToolCommandSpec>,
    pub archiver: Option<ToolCommandSpec>,
    pub ranlib: Option<ToolCommandSpec>,
    pub object_copier: Option<ToolCommandSpec>,
}

impl Gathered {
    /// Nothing learned yet; a version the caller already probed counts as
    /// known.
    pub fn new(preprobed_version: Option<String>) -> (result: Self)
        ensures
            result == (Gathered {
                reported: None,
                version: preprobed_version,
                sysroot: None,
                resource_dir: None,
                system_includes: None,
                marked: false,
                assembler: None,
                archiver: None,
                ranlib: None,
                object_copier: None,
            }),
    {
        Gathered {
            reported: None,
            version: preprobed_version,
            sysroot: None,
            resource_dir: None,
            system_includes: None,
            marked: false,
            assembler: None,
            archiver: None,
            ranlib: None,
            object_copier: None,
        }
    }
}

/// The program a driver is asked to name.
#[derive(Clone, Copy, Debug, PartialEq, Eq, Structural)]
pub enum ProgramSlot {
    Assembler,
    Archiver,
    Ranlib,
    ObjectCopier,
}

/// The program name a driver is asked for with `-print-prog-name=`.
pub fn program_name(slot: ProgramSlot) -> (result: &'static str)
    ensures
        result@ == match slot {
            ProgramSlot::Assembler => "as"@,
            ProgramSlot::Archiver => "ar"@,
            ProgramSlot::Ranlib => "ranlib"@,
            ProgramSlot::ObjectCopier => "objcopy"@,
        },
{
    match slot {
        ProgramSlot::Assembler => "as",
        ProgramSlot::Archiver => "ar",
        ProgramSlot::Ranlib => "ranlib",
        ProgramSlot::ObjectCopier => "objcopy",
    }
}

/// What the resolution needs next.
#[derive(Clone, Copy, Debug, PartialEq, Eq, Structural)]
pub enum Need {
    Target,
    Version,
    Sysroot,
    ResourceDir,
    SystemIncludes,
    Marks,
    Program(ProgramSlot),
    CopierError,
    Done,
}

/// What the resolution is for.
pub struct ResolverInputs {
    pub plan: ResolutionPlan,
    pub explicit_resource_dir: Option<String>,
    /// How errors spell the driver.
    pub driver_display: String,
    pub expected: TargetTriple,
    /// How errors spell the expected target.
    pub expected_text: String,
}

/// The resource directory the resolution uses, once known: the explicit
/// one, or the probed one.
pub open spec fn known_resource_dir(inputs: ResolverInputs, g: Gathered) -> Option<String> {
    if inputs.plan.probe_resource_dir {
        match g.resource_dir {
            Some(r) => r,
            None => None,
        }
    } else {
        inputs.explicit_resource_dir
    }
}

/// The probes in their order: target, version, sysroot, resource
/// directory, include list and its marks, assembler, archiver, `ranlib`,
/// object copier; each only where the plan asks for it and it is not known.
pub open spec fn need(inputs: ResolverInputs, g: Gathered) -> Need {
    let plan = inputs.plan;
    if g.reported is None {
        Need::Target
    } else if g.version is None {
        Need::Version
    } else if plan.probe_sysroot && g.sysroot is None {
        Need::Sysroot
    } else if plan.probe_resource_dir && g.resource_dir is None {
        Need::ResourceDir
    } else if plan.probe_system_includes && g.system_includes is None {
        Need::SystemIncludes
    } else if plan.probe_system_includes && known_resource_dir(inputs, g) is Some && !g.marked {
        Need::Marks
    } else if plan.probe_assembler && g.assembler is None {
        Need::Program(ProgramSlot::Assembler)
    } else if plan.probe_archiver && g.archiver is None {
        Need::Program(ProgramSlot::Archiver)
    } else if plan.probe_archiver && g.ranlib is None {
        Need::Program(ProgramSlot::Ranlib)
    } else {
        match plan.object_copier {
            ObjectCopierChoice::Invalid(_) => Need::CopierError,
            ObjectCopierChoice::Probe => if g.object_copier is None {
                Need::Program(ProgramSlot::ObjectCopier)
            } else {
                Need::Done
            },
            _ => Need::Done,
        }
    }
}

fn current_need(inputs: &ResolverInputs, g: &Gathered) -> (result: Need)
    ensures
        result == need(*inputs, *g),
{
    let plan = &inputs.plan;
    let resource_known = if plan.probe_resource_dir {
        match &g.resource_dir {
            Some(r) => r.is_some(),
            None => false,
        }
    } else {
        inputs.explicit_resource_dir.is_some()
    };
    if g.reported.is_none() {
        Need::Target
    } else if g.version.is_none() {
        Need::Version
    } else if plan.probe_sysroot && g.sysroot.is_none() {
        Need::Sysroot
    } else if plan.probe_resource_dir && g.resource_dir.is_none() {
        Need::ResourceDir
    } else if plan.probe_system_includes && g.system_includes.is_none() {
        Need::SystemIncludes
    } else if plan.probe_system_includes && resource_known && !g.marked {
        Need::Marks
    } else if plan.probe_assembler && g.assembler.is_none() {
        Need::Program(ProgramSlot::Assembler)
    } else if plan.probe_archiver && g.archiver.is_none() {
        Need::Program(ProgramSlot::Archiver)
    } else if plan.probe_archiver && g.ranlib.is_none() {
        Need::Program(ProgramSlot::Ranlib)
    } else {
        match &plan.object_copier {
            ObjectCopierChoice::Invalid(_) => Need::CopierError,
            ObjectCopierChoice::Probe => if g.object_copier.is_none() {
                Need::Program(ProgramSlot::ObjectCopier)
            } else {
                Need::Done
            },
            _ => Need::Done,
        }
    }
}

/// The next thing the caller does for the resolution.
pub enum ProbeAction {
    /// Ask the driver for its target (`-dumpmachine`) and parse it.
    ReportTarget,
    /// Ask the driver for its version (`--version`).
    ReadVersion,
    /// Ask the driver for its sysroot.
    ReadSysroot,
    /// Ask the driver for its resource directory; a failed probe is `None`.
    ReadResourceDir,
    /// Ask the driver for its include search list.
    ReadSystemIncludes,
    /// Say of each include directory whether it is the resource directory
    /// or its `include` subdirectory.
    CompareIncludes,
    /// Ask the driver which program it uses.
    ReadProgram(ProgramSlot),
    /// Everything is known.
    Finish,
    /// The resolution fails.
    Fail(LinkError),
}

/// What the caller learned for the last action.
pub enum ProbeOutcome {
    /// The parsed target and how the driver spelled it.
    Target(TargetTriple, String),
    Version(String),
    Sysroot(Option<String>),
    ResourceDir(Option<String>),
    SystemIncludes(Vec<SystemInclude>),
    SamePaths(Vec<bool>),
    Program(ToolCommandSpec),
    Failed(LinkError),
}

/// The action for what is needed.
pub open spec fn action_holds(inputs: ResolverInputs, n: Need, action: ProbeAction) -> bool {
    match n {
        Need::Target => action is ReportTarget,
        Need::Version => action is ReadVersion,
        Need::Sysroot => action is ReadSysroot,
        Need::ResourceDir => action is ReadResourceDir,
        Need::SystemIncludes => action is ReadSystemIncludes,
        Need::Marks => action is CompareIncludes,
        Need::Program(slot) => action == ProbeAction::ReadProgram(slot),
        Need::CopierError => match (inputs.plan.object_copier, action) {
            (ObjectCopierChoice::Invalid(planned), ProbeAction::Fail(error)) => error.code == planned.code
                && error.message@ == planned.message@,
            _ => false,
        },
        Need::Done => action is Finish,
    }
}

fn action_for(inputs: &ResolverInputs, n: Need) -> (result: ProbeAction)
    requires
        n == Need::CopierError ==> inputs.plan.object_copier is Invalid,
    ensures
        action_holds(*inputs, n, result),
{
    match n {
        Need::Target => ProbeAction::ReportTarget,
        Need::Version => ProbeAction::ReadVersion,
        Need::Sysroot => ProbeAction::ReadSysroot,
        Need::ResourceDir => ProbeAction::ReadResourceDir,
        Need::SystemIncludes => ProbeAction::ReadSystemIncludes,
        Need::Marks => ProbeAction::CompareIncludes,
        Need::Program(slot) => ProbeAction::ReadProgram(slot),
        Need::CopierError => match &inputs.plan.object_copier {
            ObjectCopierChoice::Invalid(planned) => ProbeAction::Fail(
                LinkError { code: planned.code, message: planned.message.clone() },
            ),
            _ => ProbeAction::Finish,
        },
        Need::Done => ProbeAction::Finish,
    }
}

/// The first thing to do for a resolution, or the next after `g`.
pub fn next_action(inputs: &ResolverInputs, g: &Gathered) -> (result: ProbeAction)
    ensures
        action_holds(*inputs, need(*inputs, *g), result),
{
    action_for(inputs, current_need(inputs, g))
}

/// Whether `included` is `original` with entry `i` marked builtin where
/// `same[i]` holds.
pub open spec fn marked_as(original: Seq<SystemInclude>, included: Seq<SystemInclude>, same: Seq<bool>) -> bool {
    &&& included.len() == original.len()
    &&& forall|i: int|
        0 <= i < original.len() ==> (#[trigger] included[i]).path@ == original[i].path@ && included[i].kind
            == if same[i] {
            SystemIncludeKind::Builtin
        } else {
            original[i].kind
        }
}

/// `new` is `old` with the answer to `n` recorded; an answer to a question
/// not asked changes nothing.
pub open spec fn answer_recorded(n: Need, outcome: ProbeOutcome, old: Gathered, new: Gathered) -> bool {
    match (n, outcome) {
        (Need::Target, ProbeOutcome::Target(_, text)) => new == Gathered { reported: Some(text), ..old },
        (Need::Version, ProbeOutcome::Version(v)) => new == Gathered { version: Some(v), ..old },
        (Need::Sysroot, ProbeOutcome::Sysroot(r)) => new == Gathered { sysroot: Some(r), ..old },
        (Need::ResourceDir, ProbeOutcome::ResourceDir(r)) => new == Gathered { resource_dir: Some(r), ..old },
        (Need::SystemIncludes, ProbeOutcome::SystemIncludes(v)) => new == Gathered {
            system_includes: Some(v),
            ..old
        },
        (Need::Marks, ProbeOutcome::SamePaths(same)) => {
            &&& new.marked
            &&& new.reported == old.reported && new.version == old.version && new.sysroot == old.sysroot
            &&& new.resource_dir == old.resource_dir && new.assembler == old.assembler
            &&& new.archiver == old.archiver && new.ranlib == old.ranlib
            &&& new.object_copier == old.object_copier
            &&& match (old.system_includes, new.system_includes) {
                (Some(original), Some(included)) => marked_as(original@, included@, same@),
                _ => false,
            }
        },
        (Need::Program(ProgramSlot::Assembler), ProbeOutcome::Program(c)) => new == Gathered {
            assembler: Some(c),
            ..old
        },
        (Need::Program(ProgramSlot::Archiver), ProbeOutcome::Program(c)) => new == Gathered {
            archiver: Some(c),
            ..old
        },
        (Need::Program(ProgramSlot::Ranlib), ProbeOutcome::Program(c)) => new == Gathered { ranlib: Some(c), ..old },
        (Need::Program(ProgramSlot::ObjectCopier), ProbeOutcome::Program(c)) => new == Gathered {
            object_copier: Some(c),
            ..old
        },
        _ => new == old,
    }
}

/// Takes the answer to the last action and says what to do next. A failed
/// probe fails the resolution; a reported target must match the expected
/// one; any other answer is recorded where it answers what was needed.
pub fn resolve_step(inputs: &ResolverInputs, g: &mut Gathered, outcome: ProbeOutcome) -> (action: ProbeAction)
    requires
        need(*inputs, *old(g)) == Need::Marks ==> match outcome {
            ProbeOutcome::SamePaths(same) => old(g).system_includes matches Some(v) && same@.len() == v@.len(),
            _ => true,
        },
    ensures
        match outcome {
            ProbeOutcome::Failed(error) => *final(g) == *old(g) && action == ProbeAction::Fail(error),
            ProbeOutcome::Target(reported, text) => if need(*inputs, *old(g)) == Need::Target && !triples_match(
                reported,
                inputs.expected,
            ) {
                &&& *final(g) == *old(g)
                &&& action matches ProbeAction::Fail(error)
                &&& error.code@ == "CCC5005"@
                &&& error.message@ == target_mismatch_message(
                    inputs.driver_display@,
                    text@,
                    inputs.expected_text@,
                )
            } else {
                answer_recorded(need(*inputs, *old(g)), outcome, *old(g), *final(g)) && action_holds(
                    *inputs,
                    need(*inputs, *final(g)),
                    action,
                )
            },
            _ => answer_recorded(need(*inputs, *old(g)), outcome, *old(g), *final(g)) && action_holds(
                *inputs,
                need(*inputs, *final(g)),
                action,
            ),
        },
{
    let n = current_need(inputs, g);
    match outcome {
        ProbeOutcome::Failed(error) => {
            return ProbeAction::Fail(error);
        },
        ProbeOutcome::Target(reported, text) => {
            if n == Need::Target {
                match check_reported_target(
                    inputs.driver_display.as_str(),
                    &reported,
                    text.as_str(),
                    &inputs.expected,
                    inputs.expected_text.as_str(),
                ) {
                    Err(error) => {
                        return ProbeAction::Fail(error);
                    },
                    Ok(()) => {
                        g.reported = Some(text);
                    },
                }
            }
        },
        ProbeOutcome::Version(v) => {
            if n == Need::Version {
                g.version = Some(v);
            }
        },
        ProbeOutcome::Sysroot(r) => {
            if n == Need::Sysroot {
                g.sysroot = Some(r);
            }
        },
        ProbeOutcome::ResourceDir(r) => {
            if n == Need::ResourceDir {
                g.resource_dir = Some(r);
            }
        },
        ProbeOutcome::SystemIncludes(v) => {
            if n == Need::SystemIncludes {
                g.system_includes = Some(v);
            }
        },
        ProbeOutcome::SamePaths(same) => {
            if n == Need::Marks {
                let includes = g.system_includes.take();
                match includes {
                    Some(v) => {
                        g.system_includes = Some(mark_builtin_includes(v, same.as_slice()));
                        g.marked = true;
                    },
                    None => {},
                }
            }
        },
        ProbeOutcome::Program(c) => {
            match n {
                Need::Program(ProgramSlot::Assembler) => {
                    g.assembler = Some(c);
                },
                Need::Program(ProgramSlot::Archiver) => {
                    g.archiver = Some(c);
                },
                Need::Program(ProgramSlot::Ranlib) => {
                    g.ranlib = Some(c);
                },
                Need::Program(ProgramSlot::ObjectCopier) => {
                    g.object_copier = Some(c);
                },
                _ => {},
            }
        },
    }
    let next = current_need(inputs, g);
    action_for(inputs, next)
}

/// What the toolchain had before this resolution.
pub struct ExistingTools {
    pub compiler_driver: Option<ToolCommandSpec>,
    pub linker_driver: Option<ToolCommandSpec>,
    /// The target its fingerprint records, where it has one.
    pub fingerprint_target: Option<TargetTriple>,
    pub assembler: Option<ToolCommandSpec>,
    pub archiver: Option<ToolCommandSpec>,
    pub ranlib: Option<ToolCommandSpec>,
    pub object_copier: Option<ToolCommandSpec>,
    pub system_includes: Vec<SystemInclude>,
}

/// A resolved toolchain, before its fingerprint.
pub struct ResolvedToolchain {
    pub compiler_driver: ToolCommandSpec,
    pub linker_driver: Option<ToolCommandSpec>,
    pub assembler: Option<ToolCommandSpec>,
    pub archiver: Option<ToolCommandSpec>,
    pub ranlib: Option<ToolCommandSpec>,
    pub object_copier: Option<ToolCommandSpec>,
    pub sysroot: Option<String>,
    pub resource_dir: Option<String>,
    pub system_includes: Vec<SystemInclude>,
    pub driver_version: String,
    pub reported_target: String,
}

pub open spec fn optional_command_view(c: Option<ToolCommandSpec>) -> Option<(Seq<char>, Seq<Seq<char>>)> {
    match c {
        Some(command) => Some(command_view(command)),
        None => None,
    }
}

fn copy_command(c: &ToolCommandSpec) -> (result: ToolCommandSpec)
    ensures
        command_view(result) == command_view(*c),
{
    let copy = command_with_target_options(c, &[], None);
    assert(strings_view(c.arguments@) + strings_view(Seq::<String>::empty()) + Seq::<Seq<char>>::empty()
        =~= strings_view(c.arguments@));
    copy
}

/// The toolchain once everything is known: the driver with the target's
/// options, linking too where required; the probed tools where the plan
/// asked for them and the existing ones otherwise; the sysroot and resource
/// directory given or probed; the include list probed where system headers
/// are required, the existing one otherwise, and none where they are off.
pub fn finish_resolution(
    inputs: &ResolverInputs,
    g: Gathered,
    existing: ExistingTools,
    candidate: &ToolCommandSpec,
    target_arguments: &[String],
    explicit_sysroot: Option<&str>,
) -> (result: ResolvedToolchain)
    requires
        need(*inputs, g) == Need::Done,
    ensures
        command_view(result.compiler_driver) == (
            candidate.program@,
            strings_view(candidate.arguments@) + strings_view(target_arguments@) + match explicit_sysroot {
                Some(root) => seq!["--sysroot="@ + root@],
                None => seq![],
            },
        ),
        optional_command_view(result.linker_driver) == if inputs.plan.linker_driver {
            Some(command_view(result.compiler_driver))
        } else {
            None
        },
        result.assembler == if inputs.plan.probe_assembler {
            g.assembler
        } else {
            existing.assembler
        },
        result.archiver == if inputs.plan.probe_archiver {
            g.archiver
        } else {
            existing.archiver
        },
        result.ranlib == if inputs.plan.probe_archiver {
            g.ranlib
        } else {
            existing.ranlib
        },
        optional_command_view(result.object_copier) == match inputs.plan.object_copier {
            ObjectCopierChoice::Named(command) => Some(command_view(command)),
            ObjectCopierChoice::Probe => optional_command_view(g.object_copier),
            _ => optional_command_view(existing.object_copier),
        },
        option_string_view(result.sysroot) == if inputs.plan.probe_sysroot {
            option_string_view(g.sysroot.unwrap())
        } else {
            match explicit_sysroot {
                Some(root) => Some(root@),
                None => None,
            }
        },
        result.resource_dir == known_resource_dir(*inputs, g),
        result.system_includes@ == if inputs.plan.clear_system_includes {
            Seq::<SystemInclude>::empty()
        } else if inputs.plan.probe_system_includes {
            g.system_includes.unwrap()@
        } else {
            existing.system_includes@
        },
        g.version == Some(result.driver_version),
        g.reported == Some(result.reported_target),
{
    let plan = &inputs.plan;
    let compiler_driver = command_with_target_options(candidate, target_arguments, explicit_sysroot);
    let linker_driver = if plan.linker_driver {
        Some(copy_command(&compiler_driver))
    } else {
        None
    };
    let sysroot = if plan.probe_sysroot {
        match g.sysroot {
            Some(probed) => probed,
            None => None,
        }
    } else {
        match explicit_sysroot {
            Some(root) => Some(root.to_owned()),
            None => None,
        }
    };
    let resource_dir = if plan.probe_resource_dir {
        match g.resource_dir {
            Some(probed) => probed,
            None => None,
        }
    } else {
        match &inputs.explicit_resource_dir {
            Some(given) => Some(given.clone()),
            None => None,
        }
    };
    let system_includes = if plan.clear_system_includes {
        Vec::new()
    } else if plan.probe_system_includes {
        match g.system_includes {
            Some(probed) => probed,
            None => Vec::new(),
        }
    } else {
        existing.system_includes
    };
    let assembler = if plan.probe_assembler {
        g.assembler
    } else {
        existing.assembler
    };
    let (archiver, ranlib) = if plan.probe_archiver {
        (g.archiver, g.ranlib)
    } else {
        (existing.archiver, existing.ranlib)
    };
    let object_copier = match &plan.object_copier {
        ObjectCopierChoice::Named(command) => Some(copy_command(command)),
        ObjectCopierChoice::Probe => g.object_copier,
        _ => existing.object_copier,
    };
    let driver_version = match g.version {
        Some(v) => v,
        None => String::new(),
    };
    let reported_target = match g.reported {
        Some(r) => r,
        None => String::new(),
    };
    ResolvedToolchain {
        compiler_driver,
        linker_driver,
        assembler,
        archiver,
        ranlib,
        object_copier,
        sysroot,
        resource_dir,
        system_includes,
        driver_version,
        reported_target,
    }
}

/// Whether the existing toolchain already serves `requirements` for
/// `target`: it was resolved for that target and has every tool asked for,
/// system include directories exactly where system headers are wanted.
pub open spec fn satisfies(existing: ExistingTools, target: TargetTriple, requirements: ToolchainRequirements) -> bool {
    match existing.fingerprint_target {
        None => false,
        Some(reported) => {
            &&& triples_match(reported, target)
            &&& existing.compiler_driver is Some
            &&& (!requirements.disable_system_headers || existing.system_includes@.len() == 0)
            &&& (!requirements.system_headers || existing.system_includes@.len() > 0)
            &&& (!requirements.assembler || existing.assembler is Some)
            &&& (!requirements.linker || existing.linker_driver is Some)
            &&& (!requirements.object_copier || existing.object_copier is Some)
            &&& (!requirements.archiver || (existing.archiver is Some && existing.ranlib is Some))
        },
    }
}

/// Whether a resolution can be skipped and the existing toolchain kept.
pub fn requirements_satisfied(
    existing: &ExistingTools,
    target: &TargetTriple,
    requirements: ToolchainRequirements,
) -> (result: bool)
    ensures
        result == satisfies(*existing, *target, requirements),
{
    match &existing.fingerprint_target {
        None => false,
        Some(reported) => {
            target_matches(reported, target) && existing.compiler_driver.is_some() && (
            !requirements.disable_system_headers || existing.system_includes.len() == 0) && (
            !requirements.system_headers || existing.system_includes.len() > 0) && (
            !requirements.assembler || existing.assembler.is_some()) && (!requirements.linker
                || existing.linker_driver.is_some()) && (!requirements.object_copier
                || existing.object_copier.is_some()) && (!requirements.archiver || (
            existing.archiver.is_some() && existing.ranlib.is_some()))
        },
    }
}

/// Where a need comes in the order of the probes.
pub open spec fn need_rank(n: Need) -> int {
    match n {
        Need::Target => 0,
        Need::Version => 1,
        Need::Sysroot => 2,
        Need::ResourceDir => 3,
        Need::SystemIncludes => 4,
        Need::Marks => 5,
        Need::Program(ProgramSlot::Assembler) => 6,
        Need::Program(ProgramSlot::Archiver) => 7,
        Need::Program(ProgramSlot::Ranlib) => 8,
        Need::Program(ProgramSlot::ObjectCopier) => 9,
        Need::CopierError => 10,
        Need::Done => 10,
    }
}

/// Whether `outcome` answers what `n` asks.
pub open spec fn answers(n: Need, outcome: ProbeOutcome) -> bool {
    match (n, outcome) {
        (Need::Target, ProbeOutcome::Target(_, _)) => true,
        (Need::Version, ProbeOutcome::Version(_)) => true,
        (Need::Sysroot, ProbeOutcome::Sysroot(_)) => true,
        (Need::ResourceDir, ProbeOutcome::ResourceDir(_)) => true,
        (Need::SystemIncludes, ProbeOutcome::SystemIncludes(_)) => true,
        (Need::Marks, ProbeOutcome::SamePaths(_)) => true,
        (Need::Program(_), ProbeOutcome::Program(_)) => true,
        _ => false,
    }
}

/// A resolution moves on: once an answer to what it needs is recorded, it
/// needs something later in the order, so it asks each probe at most once
/// and ends after at most ten answers.
pub proof fn lemma_recorded_answer_moves_on(
    inputs: ResolverInputs,
    old: Gathered,
    new: Gathered,
    outcome: ProbeOutcome,
)
    requires
        answers(need(inputs, old), outcome),
        answer_recorded(need(inputs, old), outcome, old, new),
    ensures
        need_rank(need(inputs, new)) > need_rank(need(inputs, old)),
{
}

/* Reading what a probe printed */

/// `text` with surrounding whitespace removed, as a string.
fn trimmed(text: &str) -> (result: (String, bool))
    ensures
        result.0@ == trim_ws(text@),
        result.1 == (trim_ws(text@).len() == 0),
{
    let chars = chars_of(text);
    let kept = trim_chars(&chars);
    (string_from_chars(kept.as_slice()), kept.len() == 0)
}

pub open spec fn driver_error_message(driver: Seq<char>, tail: Seq<char>) -> Seq<char> {
    "compiler driver `"@ + driver + "` "@ + tail
}

fn driver_error(code: &'static str, driver: &str, tail: &str) -> (result: LinkError)
    ensures
        result.code == code,
        result.message@ == driver_error_message(driver@, tail@),
{
    let mut text: Vec<char> = Vec::new();
    push_str(&mut text, "compiler driver `");
    push_str(&mut text, driver);
    push_str(&mut text, "` ");
    push_str(&mut text, tail);
    assert(text@ =~= driver_error_message(driver@, tail@));
    LinkError { code, message: string_from_chars(text.as_slice()) }
}

/// The target a driver printed: the text without surrounding whitespace,
/// which must not be empty.
pub fn reported_target_text(stdout: &str, driver: &str) -> (result: Result<String, LinkError>)
    ensures
        match result {
            Ok(text) => trim_ws(stdout@).len() > 0 && text@ == trim_ws(stdout@),
            Err(error) => trim_ws(stdout@).len() == 0 && error.code@ == "CCC5006"@ && error.message@
                == driver_error_message(driver@, "returned an empty target"@),
        },
{
    let (text, empty) = trimmed(stdout);
    if empty {
        return Err(driver_error("CCC5006", driver, "returned an empty target"));
    }
    Ok(text)
}

/// The version a driver printed: its first line without surrounding
/// whitespace, which must not be empty.
pub fn driver_version_text(stdout: &str, driver: &str) -> (result: ProbeOutcome)
    ensures
        ({
            let first = if text_lines(stdout@).len() > 0 {
                trim_ws(text_lines(stdout@)[0])
            } else {
                Seq::<char>::empty()
            };
            match result {
                ProbeOutcome::Version(v) => first.len() > 0 && v@ == first,
                ProbeOutcome::Failed(error) => first.len() == 0 && error.code@ == "CCC5006"@
                    && error.message@ == driver_error_message(driver@, "returned an empty version"@),
                _ => false,
            }
        }),
{
    let lines = lines_of(stdout);
    let (version, empty) = if lines.len() > 0 {
        trimmed(lines[0].as_str())
    } else {
        (String::new(), true)
    };
    if empty {
        ProbeOutcome::Failed(driver_error("CCC5006", driver, "returned an empty version"))
    } else {
        ProbeOutcome::Version(version)
    }
}

/// Whether `c` is `lower` or its ASCII capital.
pub open spec fn folds_to(c: char, lower: char) -> bool {
    c == lower || (0x41 <= c as u32 <= 0x5A && c as u32 + 32 == lower as u32)
}

/// Whether `s` holds `word` (lowercase ASCII) ignoring ASCII case.
pub open spec fn holds_folded(s: Seq<char>, word: Seq<char>) -> bool {
    exists|i: int|
        0 <= i && i + word.len() <= s.len() && #[trigger] folded_at(s, word, i)
}

pub open spec fn folded_at(s: Seq<char>, word: Seq<char>, i: int) -> bool {
    forall|j: int| 0 <= j < word.len() ==> folds_to(#[trigger] s[i + j], word[j])
}

fn folds_to_exec(c: char, lower: char) -> (result: bool)
    ensures
        result == folds_to(c, lower),
{
    let v = c as u32;
    c == lower || (0x41 <= v && v <= 0x5A && v + 32 == lower as u32)
}

/// Whether a driver whose version line is `version` is clang, whose
/// effective sysroot is read from its frontend command rather than asked
/// for: the line holds "clang" in any ASCII case.
pub fn is_clang_version(version: &str) -> (result: bool)
    ensures
        result == holds_folded(version@, "clang"@),
{
    let chars = chars_of(version);
    let word = chars_of("clang");
    proof {
        reveal_strlit("clang");
    }
    assert(word@.len() == 5);
    if word.len() > chars.len() {
        proof {
            if holds_folded(version@, "clang"@) {
                let i = choose|i: int| 0 <= i && i + word@.len() <= version@.len() && #[trigger] folded_at(version@, "clang"@, i);
            }
        }
        return false;
    }
    let n = chars.len();
    let last = n - word.len();
    let mut i: usize = 0;
    while i <= last
        invariant
            last == chars@.len() - word@.len(),
            n == chars@.len(),
            word@.len() == 5,
            chars@ == version@,
            word@ == "clang"@,
            word@.len() <= chars@.len(),
            i <= last + 1,
            forall|k: int| 0 <= k < i ==> !folded_at(version@, "clang"@, k),
        decreases last + 1 - i,
    {
        let mut j: usize = 0;
        let mut all = true;
        while j < word.len()
            invariant
                chars@ == version@,
                word@ == "clang"@,
                i <= last,
                n == chars@.len(),
                word@.len() == 5,
                last == chars@.len() - word@.len(),
                word@.len() <= chars@.len(),
                j <= word@.len(),
                all == (forall|m: int| 0 <= m < j ==> folds_to(#[trigger] version@[i + m], word@[m])),
            decreases word.len() - j,
        {
            assert(i + j < chars@.len());
            let ok = folds_to_exec(chars[i + j], word[j]);
            all = all && ok;
            j = j + 1;
        }
        if all {
            assert(folded_at(version@, "clang"@, i as int));
            return true;
        }
        i = i + 1;
    }
    false
}

/// A path a driver printed: the text without surrounding whitespace, where
/// there is any.
pub fn printed_path(stdout: &str) -> (result: Option<String>)
    ensures
        match result {
            Some(path) => trim_ws(stdout@).len() > 0 && path@ == trim_ws(stdout@),
            None => trim_ws(stdout@).len() == 0,
        },
{
    let (text, empty) = trimmed(stdout);
    if empty {
        None
    } else {
        Some(text)
    }
}

/// The builtin include directory a GCC-style driver printed for
/// `-print-file-name=include`: a bare `include` means it found none.
pub fn builtin_include_directory(printed: Option<String>) -> (result: Option<String>)
    ensures
        result == match printed {
            Some(path) => if path@ == "include"@ {
                None
            } else {
                Some(path)
            },
            None => None,
        },
{
    match printed {
        Some(path) => if str_eq(path.as_str(), "include") {
            None
        } else {
            Some(path)
        },
        None => None,
    }
}

/// The include list a driver reported, which must not be empty.
pub fn system_includes_outcome(includes: Vec<SystemInclude>, driver: &str) -> (result: ProbeOutcome)
    ensures
        match result {
            ProbeOutcome::SystemIncludes(v) => includes@.len() > 0 && v == includes,
            ProbeOutcome::Failed(error) => includes@.len() == 0 && error.code@ == "CCC5006"@
                && error.message@ == driver_error_message(
                driver@,
                "returned no system include search paths"@,
            ),
            _ => false,
        },
{
    if includes.len() == 0 {
        ProbeOutcome::Failed(driver_error("CCC5006", driver, "returned no system include search paths"))
    } else {
        ProbeOutcome::SystemIncludes(includes)
    }
}

/// The program a driver named for `-print-prog-name=`: the printed text
/// without surrounding whitespace, which must not be empty.
pub fn named_program(stdout: &str, slot: ProgramSlot, driver: &str) -> (result: ProbeOutcome)
    ensures
        match result {
            ProbeOutcome::Program(command) => trim_ws(stdout@).len() > 0 && command_view(command) == (
                trim_ws(stdout@),
                Seq::<Seq<char>>::empty(),
            ),
            ProbeOutcome::Failed(error) => {
                let name = match slot {
                    ProgramSlot::Assembler => "as"@,
                    ProgramSlot::Archiver => "ar"@,
                    ProgramSlot::Ranlib => "ranlib"@,
                    ProgramSlot::ObjectCopier => "objcopy"@,
                };
                trim_ws(stdout@).len() == 0 && error.code@ == "CCC5007"@ && error.message@
                    == driver_error_message(driver@, "did not identify target "@ + name)
            },
            _ => false,
        },
{
    let (text, empty) = trimmed(stdout);
    if empty {
        let mut tail: Vec<char> = Vec::new();
        push_str(&mut tail, "did not identify target ");
        push_str(&mut tail, program_name(slot));
        let tail_text = string_from_chars(tail.as_slice());
        return ProbeOutcome::Failed(driver_error("CCC5007", driver, tail_text.as_str()));
    }
    let arguments: Vec<String> = Vec::new();
    let command = ToolCommandSpec { program: text, arguments };
    assert(strings_view(command.arguments@) =~= Seq::<Seq<char>>::empty());
    ProbeOutcome::Program(command)
}

} // verus!
