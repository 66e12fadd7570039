use ccc::link::arguments::{link_arguments, relocation_link_argument, LinkOutputKind, RelocationModel};
use ccc::link::fingerprint::EnvironmentEntry;
use ccc::link::resolver::{
    check_reported_target, mark_builtin_includes, resolution_plan, target_matches,
    ObjectCopierChoice, TargetTriple,
};
use ccc::link::ToolchainRequirements;
use ccc::pp::search::{SystemInclude, SystemIncludeKind};

fn triple(architecture: &str, operating_system: &str, environment: &str, binary_format: &str) -> TargetTriple {
    TargetTriple {
        architecture: architecture.to_owned(),
        operating_system: operating_system.to_owned(),
        macos: operating_system == "darwin" || operating_system == "macosx",
        environment: environment.to_owned(),
        binary_format: binary_format.to_owned(),
    }
}

#[test]
fn recognizes_common_spellings_of_the_primary_target() {
    // x86_64-unknown-linux-gnu, x86_64-linux-gnu and x86_64-redhat-linux-gnu
    // differ only in the vendor, which the comparison does not read.
    let expected = triple("x86_64", "linux", "gnu", "elf");
    assert!(target_matches(&triple("x86_64", "linux", "gnu", "elf"), &expected));
    assert!(target_matches(&triple("x86_64", "linux", "gnu", "elf"), &expected));
    // x86_64-apple-darwin
    assert!(!target_matches(&triple("x86_64", "darwin", "unknown", "macho"), &expected));
    // aarch64-apple-darwin against aarch64-apple-macosx and aarch64-apple-ios
    let macos = triple("aarch64", "darwin", "unknown", "macho");
    assert!(target_matches(&triple("aarch64", "macosx", "unknown", "macho"), &macos));
    assert!(!target_matches(&triple("aarch64", "ios", "unknown", "macho"), &macos));
}

#[test]
fn a_driver_for_another_target_is_refused() {
    let expected = triple("x86_64", "linux", "gnu", "elf");
    let reported = triple("aarch64", "linux", "gnu", "elf");
    let error = check_reported_target(
        "cc",
        &reported,
        "aarch64-unknown-linux-gnu",
        &expected,
        "x86_64-unknown-linux-gnu",
    )
    .unwrap_err();
    assert_eq!(error.code, "CCC5005");
    assert_eq!(
        error.message,
        "compiler driver `cc` reports target `aarch64-unknown-linux-gnu`, expected `x86_64-unknown-linux-gnu`"
    );
    assert!(check_reported_target("cc", &expected, "a", &expected, "b").is_ok());
}

fn entry(name: &str, value: &str) -> EnvironmentEntry {
    EnvironmentEntry { name: name.to_owned(), value: Some(value.to_owned()) }
}

#[test]
fn the_plan_probes_what_the_requirements_need() {
    let plan = resolution_plan(ToolchainRequirements::preprocess(true), None, None, &[]);
    assert!(plan.probe_sysroot && plan.probe_resource_dir && plan.probe_system_includes);
    assert!(!plan.clear_system_includes && !plan.probe_assembler && !plan.linker_driver);
    assert!(matches!(plan.object_copier, ObjectCopierChoice::Existing));

    let plan = resolution_plan(ToolchainRequirements::preprocess(false), Some("/sr"), Some("/rd"), &[]);
    assert!(!plan.probe_sysroot && !plan.probe_resource_dir && !plan.probe_system_includes);
    assert!(plan.clear_system_includes);

    let plan = resolution_plan(ToolchainRequirements::link(), Some("/sr"), None, &[]);
    assert!(!plan.probe_sysroot && plan.linker_driver && !plan.probe_resource_dir);
    let plan = resolution_plan(ToolchainRequirements::archive(), None, None, &[]);
    assert!(plan.probe_archiver && !plan.probe_sysroot);
}

#[test]
fn the_object_copier_comes_from_the_environment_first() {
    let mut requirements = ToolchainRequirements::link();
    requirements.object_copier = true;
    let plan = resolution_plan(requirements, None, None, &[]);
    assert!(matches!(plan.object_copier, ObjectCopierChoice::Probe));

    let environment = [entry("OBJCOPY", "llvm-objcopy --quiet"), entry("CCC_OBJCOPY", "my-objcopy")];
    match resolution_plan(requirements, None, None, &environment).object_copier {
        ObjectCopierChoice::Named(command) => {
            assert_eq!(command.program, "my-objcopy");
            assert!(command.arguments.is_empty());
        }
        _ => panic!("expected a named object copier"),
    }
    match resolution_plan(requirements, None, None, &environment[..1]).object_copier {
        ObjectCopierChoice::Named(command) => {
            assert_eq!(command.program, "llvm-objcopy");
            assert_eq!(command.arguments, ["--quiet"]);
        }
        _ => panic!("expected a named object copier"),
    }
    match resolution_plan(requirements, None, None, &[entry("OBJCOPY", "  ")]).object_copier {
        ObjectCopierChoice::Invalid(error) => {
            assert_eq!(error.code, "CCC5002");
            assert_eq!(error.message, "object copier environment entry is empty");
        }
        _ => panic!("expected an invalid object copier"),
    }
}

#[test]
fn builtin_include_directories_are_marked() {
    let includes = vec![
        SystemInclude { path: "/usr/lib/clang/18/include".to_owned(), kind: SystemIncludeKind::System },
        SystemInclude { path: "/usr/include".to_owned(), kind: SystemIncludeKind::System },
        SystemInclude { path: "/opt/q".to_owned(), kind: SystemIncludeKind::Quote },
    ];
    let marked = mark_builtin_includes(includes, &[true, false, false]);
    assert_eq!(marked.len(), 3);
    assert_eq!(marked[0].kind, SystemIncludeKind::Builtin);
    assert_eq!(marked[0].path, "/usr/lib/clang/18/include");
    assert_eq!(marked[1].kind, SystemIncludeKind::System);
    assert_eq!(marked[2].kind, SystemIncludeKind::Quote);
}

#[test]
fn relocation_arguments_follow_the_binary_format() {
    assert_eq!(relocation_link_argument(false, RelocationModel::Pie), "-pie");
    assert_eq!(relocation_link_argument(false, RelocationModel::Pic), "-pie");
    assert_eq!(relocation_link_argument(false, RelocationModel::Static), "-no-pie");
    assert_eq!(relocation_link_argument(true, RelocationModel::Pic), "-Wl,-pie");
    assert_eq!(relocation_link_argument(true, RelocationModel::Static), "-Wl,-no_pie");
}

use ccc::link::resolver::{
    finish_resolution, requirements_satisfied, resolve_step, ExistingTools, Gathered, ProbeAction, ProbeOutcome,
    ProgramSlot, ResolverInputs,
};
use ccc::link::toolchain::ToolCommandSpec;

fn command(program: &str) -> ToolCommandSpec {
    ToolCommandSpec { program: program.to_owned(), arguments: Vec::new() }
}

fn inputs(requirements: ToolchainRequirements, resource_dir: Option<&str>) -> ResolverInputs {
    ResolverInputs {
        plan: resolution_plan(requirements, None, resource_dir, &[]),
        explicit_resource_dir: resource_dir.map(str::to_owned),
        driver_display: "cc".to_owned(),
        expected: triple("x86_64", "linux", "gnu", "elf"),
        expected_text: "x86_64-unknown-linux-gnu".to_owned(),
    }
}

fn target() -> ProbeOutcome {
    ProbeOutcome::Target(triple("x86_64", "linux", "gnu", "elf"), "x86_64-linux-gnu".to_owned())
}

#[test]
fn a_preprocessing_resolution_asks_in_order_and_marks_builtin_includes() {
    let inputs = inputs(ToolchainRequirements::preprocess(true), None);
    let mut gathered = Gathered::new(None);
    assert!(matches!(
        resolve_step(&inputs, &mut gathered, ProbeOutcome::Version("ignored".to_owned())),
        ProbeAction::ReportTarget
    ));
    assert!(matches!(resolve_step(&inputs, &mut gathered, target()), ProbeAction::ReadVersion));
    assert!(matches!(
        resolve_step(&inputs, &mut gathered, ProbeOutcome::Version("gcc 13".to_owned())),
        ProbeAction::ReadSysroot
    ));
    assert!(matches!(
        resolve_step(&inputs, &mut gathered, ProbeOutcome::Sysroot(Some("/sr".to_owned()))),
        ProbeAction::ReadResourceDir
    ));
    assert!(matches!(
        resolve_step(&inputs, &mut gathered, ProbeOutcome::ResourceDir(Some("/rd".to_owned()))),
        ProbeAction::ReadSystemIncludes
    ));
    let includes = vec![
        SystemInclude { path: "/rd/include".to_owned(), kind: SystemIncludeKind::System },
        SystemInclude { path: "/usr/include".to_owned(), kind: SystemIncludeKind::System },
    ];
    assert!(matches!(
        resolve_step(&inputs, &mut gathered, ProbeOutcome::SystemIncludes(includes)),
        ProbeAction::CompareIncludes
    ));
    assert!(matches!(
        resolve_step(&inputs, &mut gathered, ProbeOutcome::SamePaths(vec![true, false])),
        ProbeAction::Finish
    ));
    let existing = ExistingTools {
        compiler_driver: None,
        linker_driver: None,
        fingerprint_target: None,
        assembler: Some(command("old-as")),
        archiver: None,
        ranlib: None,
        object_copier: None,
        system_includes: Vec::new(),
    };
    let resolved = finish_resolution(&inputs, gathered, existing, &command("cc"), &["-m64".to_owned()], None);
    assert_eq!(resolved.compiler_driver.arguments, ["-m64"]);
    assert!(resolved.linker_driver.is_none());
    assert_eq!(resolved.assembler.unwrap().program, "old-as");
    assert_eq!(resolved.sysroot.as_deref(), Some("/sr"));
    assert_eq!(resolved.resource_dir.as_deref(), Some("/rd"));
    assert_eq!(resolved.system_includes[0].kind, SystemIncludeKind::Builtin);
    assert_eq!(resolved.system_includes[1].kind, SystemIncludeKind::System);
    assert_eq!(resolved.driver_version, "gcc 13");
    assert_eq!(resolved.reported_target, "x86_64-linux-gnu");
}

#[test]
fn an_archive_resolution_asks_for_ar_then_ranlib() {
    let inputs = inputs(ToolchainRequirements::archive(), None);
    let mut gathered = Gathered::new(Some("clang 18".to_owned()));
    assert!(matches!(
        resolve_step(&inputs, &mut gathered, target()),
        ProbeAction::ReadProgram(ProgramSlot::Archiver)
    ));
    assert!(matches!(
        resolve_step(&inputs, &mut gathered, ProbeOutcome::Program(command("llvm-ar"))),
        ProbeAction::ReadProgram(ProgramSlot::Ranlib)
    ));
    assert!(matches!(
        resolve_step(&inputs, &mut gathered, ProbeOutcome::Program(command("llvm-ranlib"))),
        ProbeAction::Finish
    ));
    let existing = ExistingTools {
        compiler_driver: None,
        linker_driver: None,
        fingerprint_target: None,
        assembler: None,
        archiver: None,
        ranlib: None,
        object_copier: None,
        system_includes: vec![SystemInclude { path: "/x".to_owned(), kind: SystemIncludeKind::System }],
    };
    let resolved = finish_resolution(&inputs, gathered, existing, &command("cc"), &[], Some("/root"));
    assert_eq!(resolved.archiver.unwrap().program, "llvm-ar");
    assert_eq!(resolved.ranlib.unwrap().program, "llvm-ranlib");
    assert_eq!(resolved.compiler_driver.arguments, ["--sysroot=/root"]);
    assert_eq!(resolved.sysroot.as_deref(), Some("/root"));
    assert_eq!(resolved.system_includes.len(), 1);
}

#[test]
fn a_resolution_fails_on_a_foreign_target_or_a_failed_probe() {
    let inputs = inputs(ToolchainRequirements::link(), None);
    let mut gathered = Gathered::new(None);
    let foreign = ProbeOutcome::Target(triple("aarch64", "linux", "gnu", "elf"), "aarch64-linux-gnu".to_owned());
    match resolve_step(&inputs, &mut gathered, foreign) {
        ProbeAction::Fail(error) => {
            assert_eq!(error.code, "CCC5005");
            assert_eq!(
                error.message,
                "compiler driver `cc` reports target `aarch64-linux-gnu`, expected `x86_64-unknown-linux-gnu`"
            );
        }
        _ => panic!("expected a failure"),
    }
    assert!(gathered.reported.is_none());
    let failure = ccc::link::LinkError { code: "CCC5003", message: "cannot run".to_owned() };
    match resolve_step(&inputs, &mut gathered, ProbeOutcome::Failed(failure)) {
        ProbeAction::Fail(error) => assert_eq!(error.code, "CCC5003"),
        _ => panic!("expected a failure"),
    }
}

#[test]
fn an_existing_toolchain_is_kept_only_when_it_serves_the_request() {
    let target = triple("x86_64", "linux", "gnu", "elf");
    let complete = || ExistingTools {
        compiler_driver: Some(command("cc")),
        linker_driver: Some(command("cc")),
        fingerprint_target: Some(triple("x86_64", "linux", "gnu", "elf")),
        assembler: Some(command("as")),
        archiver: Some(command("ar")),
        ranlib: None,
        object_copier: None,
        system_includes: vec![SystemInclude { path: "/usr/include".to_owned(), kind: SystemIncludeKind::System }],
    };
    assert!(requirements_satisfied(&complete(), &target, ToolchainRequirements::compile(true)));
    assert!(requirements_satisfied(&complete(), &target, ToolchainRequirements::link()));
    assert!(!requirements_satisfied(&complete(), &target, ToolchainRequirements::archive()));
    assert!(!requirements_satisfied(&complete(), &target, ToolchainRequirements::preprocess(false)));
    let mut foreign = complete();
    foreign.fingerprint_target = Some(triple("aarch64", "linux", "gnu", "elf"));
    assert!(!requirements_satisfied(&foreign, &target, ToolchainRequirements::link()));
    let mut unresolved = complete();
    unresolved.fingerprint_target = None;
    assert!(!requirements_satisfied(&unresolved, &target, ToolchainRequirements::link()));
}

use ccc::link::resolver::{
    builtin_include_directory, driver_version_text, is_clang_version, named_program, printed_path,
    reported_target_text, system_includes_outcome,
};

#[test]
fn probe_output_is_read_as_the_driver_printed_it() {
    assert_eq!(reported_target_text(" x86_64-linux-gnu\n", "cc").unwrap(), "x86_64-linux-gnu");
    let empty = reported_target_text(" \n", "cc").unwrap_err();
    assert_eq!(empty.code, "CCC5006");
    assert_eq!(empty.message, "compiler driver `cc` returned an empty target");

    match driver_version_text("gcc (GCC) 13.2.0 \nCopyright\n", "cc") {
        ProbeOutcome::Version(v) => assert_eq!(v, "gcc (GCC) 13.2.0"),
        _ => panic!("expected a version"),
    }
    match driver_version_text("\nsecond line\n", "cc") {
        ProbeOutcome::Failed(e) => assert_eq!(e.message, "compiler driver `cc` returned an empty version"),
        _ => panic!("expected a failure"),
    }
    assert!(is_clang_version("Apple CLang version 15"));
    assert!(is_clang_version("clang version 18.1.0"));
    assert!(!is_clang_version("gcc (GCC) 13.2.0"));
    assert!(!is_clang_version("cla"));

    assert_eq!(printed_path(" /opt/sysroot\n").as_deref(), Some("/opt/sysroot"));
    assert!(printed_path("\n").is_none());
    assert!(builtin_include_directory(Some("include".to_owned())).is_none());
    assert_eq!(
        builtin_include_directory(Some("/usr/lib/gcc/x86_64/13/include".to_owned())).as_deref(),
        Some("/usr/lib/gcc/x86_64/13/include")
    );
    match system_includes_outcome(Vec::new(), "cc") {
        ProbeOutcome::Failed(e) => {
            assert_eq!(e.code, "CCC5006");
            assert_eq!(e.message, "compiler driver `cc` returned no system include search paths");
        }
        _ => panic!("expected a failure"),
    }
    match named_program(" /usr/bin/as \n", ProgramSlot::Assembler, "cc") {
        ProbeOutcome::Program(c) => {
            assert_eq!(c.program, "/usr/bin/as");
            assert!(c.arguments.is_empty());
        }
        _ => panic!("expected a program"),
    }
    match named_program("", ProgramSlot::Ranlib, "cc") {
        ProbeOutcome::Failed(e) => {
            assert_eq!(e.code, "CCC5007");
            assert_eq!(e.message, "compiler driver `cc` did not identify target ranlib");
        }
        _ => panic!("expected a failure"),
    }
}

#[test]
fn link_arguments_put_helpers_after_the_inputs_and_the_kind_last() {
    let inputs = vec!["a.o".to_owned(), "-lm".to_owned()];
    let providers = vec!["/rt/libclang_rt.builtins.a".to_owned()];
    assert_eq!(
        link_arguments(&inputs, "prog", &providers, LinkOutputKind::Executable, true, false, RelocationModel::Pie),
        ["a.o", "-lm", "-o", "prog", "-Wl,--push-state,--no-whole-archive", "/rt/libclang_rt.builtins.a", "-Wl,--pop-state", "-pie"]
    );
    assert_eq!(
        link_arguments(&inputs, "lib.dylib", &providers, LinkOutputKind::Shared, false, true, RelocationModel::Pic),
        ["a.o", "-lm", "-o", "lib.dylib", "/rt/libclang_rt.builtins.a", "-dynamiclib"]
    );
    assert_eq!(
        link_arguments(&inputs, "part.o", &[], LinkOutputKind::Relocatable, true, false, RelocationModel::Static),
        ["a.o", "-lm", "-o", "part.o", "-r"]
    );
}
