use ccc::link::fingerprint::EnvironmentEntry;
use ccc::link::toolchain::{
    command_with_target_options, driver_from_environment, environment_value,
    parse_clang_sysroot_trace, parse_clang_trace_arguments, parse_system_include_search,
    parse_tool_command, relevant_environment_with, split_words, ClangSysrootTrace,
    TargetArchitecture, TargetOperatingSystem, TargetPlatform, ToolCommandSpec,
};
use ccc::pp::search::{SystemInclude, SystemIncludeKind};

fn summary(entries: &[SystemInclude]) -> Vec<(String, SystemIncludeKind)> {
    entries
        .iter()
        .map(|entry| (entry.path.clone(), entry.kind))
        .collect()
}

fn entry(path: &str, kind: SystemIncludeKind) -> (String, SystemIncludeKind) {
    (path.to_string(), kind)
}

// The driver reports of the original fixtures, in GCC's and clang's format.
const GCC_INCLUDE_SEARCH: &str = "Using built-in specs.\n\
ignoring nonexistent directory \"/usr/local/include/x86_64-linux-gnu\"\n\
ignoring duplicate directory \"/usr/include/x86_64-linux-gnu\"\n\
#include \"...\" search starts here:\n \
/work/project/include\n\
#include <...> search starts here:\n \
/usr/lib/gcc/x86_64-linux-gnu/14/include\n \
=/usr/local/include\n \
$SYSROOT/usr/include\n \
/usr/lib/gcc/x86_64-linux-gnu/14/include\n\
End of search list.\n";

const CLANG_INCLUDE_SEARCH: &str = "clang -cc1 version 20.1.0 based upon LLVM 20.1.0 default target x86_64-unknown-linux-gnu\n\
ignoring nonexistent directory \"/include\"\n\
#include \"...\" search starts here:\n\
#include <...> search starts here:\n \
/opt/clang/lib/clang/20/include\n \
/usr/local/include\n \
/System/Library/Frameworks (framework directory)\n\
End of search list.\n";

#[test]
fn parses_gcc_include_search_output() {
    let output = GCC_INCLUDE_SEARCH;
    assert_eq!(
        summary(&parse_system_include_search(output, Some("/sdk"))),
        [
            entry("/work/project/include", SystemIncludeKind::Quote),
            entry(
                "/usr/lib/gcc/x86_64-linux-gnu/14/include",
                SystemIncludeKind::System,
            ),
            entry("/sdk/usr/local/include", SystemIncludeKind::System),
            entry("/sdk/usr/include", SystemIncludeKind::System),
        ]
    );
}

#[test]
fn parses_clang_include_search_output() {
    let output = CLANG_INCLUDE_SEARCH;
    assert_eq!(
        summary(&parse_system_include_search(output, None)),
        [
            entry("/opt/clang/lib/clang/20/include", SystemIncludeKind::System),
            entry("/usr/local/include", SystemIncludeKind::System),
            entry("/System/Library/Frameworks", SystemIncludeKind::Framework),
        ]
    );
}

#[test]
fn parses_clang_effective_sysroot_traces() {
    let native = r#" "/usr/bin/clang" "-cc1" "-triple" "x86_64-pc-linux-gnu" "-E""#;
    assert_eq!(
        parse_clang_sysroot_trace(native),
        Some(ClangSysrootTrace::Default)
    );

    let configured = r#" "/usr/bin/clang" "-cc1" "-isysroot" "/sdk with space" "-E""#;
    assert_eq!(
        parse_clang_sysroot_trace(configured),
        Some(ClangSysrootTrace::Path("/sdk with space".to_string()))
    );

    let escaped = r#" "/usr/bin/clang" "-cc1" "-isysroot" "/sdk\\root" "-E""#;
    assert_eq!(
        parse_clang_sysroot_trace(escaped),
        Some(ClangSysrootTrace::Path(r"/sdk\root".to_string()))
    );
    assert_eq!(
        parse_clang_sysroot_trace("Target: x86_64-pc-linux-gnu"),
        None
    );
}

#[test]
fn search_lines_outside_a_list_or_unindented_are_ignored() {
    let output = " /before/list\n#include <...> search starts here:\n/not/indented\n ignoring this\n\t/tabbed/dir\r\nEnd of search list.\n /after/list\n";
    assert_eq!(
        summary(&parse_system_include_search(output, None)),
        [entry("/tabbed/dir", SystemIncludeKind::System)]
    );
}

#[test]
fn a_sysroot_marker_without_a_sysroot_is_kept() {
    let output = "#include <...> search starts here:\n =/usr/include\nEnd of search list.\n";
    assert_eq!(
        summary(&parse_system_include_search(output, None)),
        [entry("=/usr/include", SystemIncludeKind::System)]
    );
}

#[test]
fn the_last_sysroot_on_the_frontend_command_wins() {
    let trace = " \"clang\" \"-cc1\" \"--sysroot=/first\" \"-isysroot\" \"/second\"\n";
    assert_eq!(
        parse_clang_sysroot_trace(trace),
        Some(ClangSysrootTrace::Path("/second".to_string()))
    );
    let equals = " \"clang\" \"-cc1\" \"-isysroot=/third\"";
    assert_eq!(
        parse_clang_sysroot_trace(equals),
        Some(ClangSysrootTrace::Path("/third".to_string()))
    );
}

#[test]
fn a_sysroot_flag_without_a_path_is_malformed() {
    assert_eq!(parse_clang_sysroot_trace(" \"clang\" \"-cc1\" \"-isysroot\""), None);
    assert_eq!(parse_clang_sysroot_trace(" \"clang\" \"-cc1\" \"open"), None);
}

#[test]
fn trace_arguments_take_escapes_and_reject_open_quotes() {
    assert_eq!(
        parse_clang_trace_arguments(r#"x "a b" y "c\"d" "e\\f""#),
        Some(vec![
            "a b".to_string(),
            "c\"d".to_string(),
            "e\\f".to_string()
        ])
    );
    assert_eq!(parse_clang_trace_arguments(r#""open"#), None);
    assert_eq!(parse_clang_trace_arguments(r#""escape at end\"#), None);
    assert_eq!(parse_clang_trace_arguments("no quotes"), Some(vec![]));
}

fn host_target() -> TargetPlatform {
    TargetPlatform {
        architecture: TargetArchitecture::X86_64,
        operating_system: TargetOperatingSystem::Linux,
    }
}

#[test]
fn splits_a_compiler_driver_from_its_leading_arguments() {
    let command = parse_tool_command("ccache cc -m64", "target compiler driver").unwrap();
    assert_eq!(command.program, "ccache");
    assert_eq!(command.arguments, ["cc".to_string(), "-m64".to_string()]);
}

#[test]
fn ambient_build_cc_does_not_select_ccc_as_its_own_toolchain_driver() {
    let environment = relevant_environment_with(|name: &str| match name {
        "CC" => Some("ccc".to_string()),
        "CCC_CC" => None,
        _ => None,
    });
    assert!(environment.iter().all(|entry| entry.name != "CC"));

    let driver = driver_from_environment(&environment, host_target()).unwrap();
    assert_ne!(driver.program, "ccc");
}

#[test]
fn the_relevant_environment_lists_each_variable_in_order() {
    let environment = relevant_environment_with(|name: &str| {
        if name == "PATH" {
            Some("/bin".to_string())
        } else {
            None
        }
    });
    assert_eq!(environment.len(), 28);
    assert_eq!(environment[0].name, "CCC_CC");
    assert_eq!(environment[27].name, "DRIVERKIT_DEPLOYMENT_TARGET");
    assert_eq!(environment_value(&environment, "PATH"), Some("/bin"));
    assert_eq!(environment_value(&environment, "SDKROOT"), None);
    assert_eq!(environment_value(&environment, "CC"), None);
}

#[test]
fn drivers_default_by_target_unless_the_environment_names_one() {
    let none = vec![EnvironmentEntry {
        name: "CCC_CC".to_string(),
        value: None,
    }];
    let cases = [
        (TargetArchitecture::Aarch64, TargetOperatingSystem::Linux, "aarch64-linux-gnu-gcc", 0),
        (TargetArchitecture::Riscv64, TargetOperatingSystem::Linux, "riscv64-linux-gnu-gcc", 0),
        (TargetArchitecture::Aarch64, TargetOperatingSystem::Darwin, "xcrun", 1),
        (TargetArchitecture::X86_64, TargetOperatingSystem::Darwin, "cc", 0),
        (TargetArchitecture::Aarch64, TargetOperatingSystem::Other, "cc", 0),
    ];
    for (architecture, operating_system, program, arguments) in cases {
        let driver = driver_from_environment(
            &none,
            TargetPlatform {
                architecture,
                operating_system,
            },
        )
        .unwrap();
        assert_eq!(driver.program, program);
        assert_eq!(driver.arguments.len(), arguments);
    }

    let named = vec![EnvironmentEntry {
        name: "CCC_CC".to_string(),
        value: Some("  clang\t--target=x\n".to_string()),
    }];
    let driver = driver_from_environment(&named, host_target()).unwrap();
    assert_eq!(driver.program, "clang");
    assert_eq!(driver.arguments, ["--target=x".to_string()]);

    let empty = vec![EnvironmentEntry {
        name: "CCC_CC".to_string(),
        value: Some(" \t ".to_string()),
    }];
    let error = driver_from_environment(&empty, host_target()).unwrap_err();
    assert_eq!(error.code, "CCC5002");
    assert_eq!(
        error.message,
        "target compiler driver environment entry is empty"
    );
}

#[test]
fn target_options_follow_the_driver_arguments() {
    let driver = ToolCommandSpec {
        program: "cc".to_string(),
        arguments: vec!["-m64".to_string()],
    };
    let command = command_with_target_options(
        &driver,
        &["--target=x86_64-linux-gnu".to_string()],
        Some("/sdk"),
    );
    assert_eq!(command.program, "cc");
    assert_eq!(
        command.arguments,
        [
            "-m64".to_string(),
            "--target=x86_64-linux-gnu".to_string(),
            "--sysroot=/sdk".to_string()
        ]
    );
    assert_eq!(command_with_target_options(&driver, &[], None), driver);
}

#[test]
fn words_split_at_any_unicode_whitespace() {
    assert_eq!(
        split_words("a\u{3000}b \t c\u{85}"),
        ["a".to_string(), "b".to_string(), "c".to_string()]
    );
    assert!(split_words("   ").is_empty());
}
