use ccc::link::scan::{record_scanned, ScannedInput};
use ccc::link::arguments::{
    LinkStep, LinkerModes, compiler_driver_static_mode, expanded_linker_scan_arguments,
    forced_undefined_symbols, library_search_directories, link_step, linker_option_consumes_next,
    unmodeled_linker_argument_width,
};
use ccc::link::helpers::{
    RuntimeHelperEntry, RuntimeHelperProvider, required_runtime_helpers, runtime_helper_link_plan,
    verify_runtime_helper_symbols,
};
use ccc::link::object_file::read_object;
use ccc::link::scan::{
    LinkSymbolState, apply_dynamic_definitions, object_symbol_facts, process_archive,
    process_object_facts, scan_link_input, thin_member_names,
};
use ccc::link::symbols::SymbolSet;
use object::write::{Object, Symbol, SymbolSection};
use object::{Architecture, BinaryFormat, Endianness, SymbolFlags};

#[derive(Clone, Copy)]
enum FixtureSymbol {
    Strong,
    Weak,
    Common,
    Undefined,
}

fn fixture_object(symbols: &[(&str, FixtureSymbol)]) -> Vec<u8> {
    let mut object = Object::new(BinaryFormat::Elf, Architecture::X86_64, Endianness::Little);
    let text = object.section_id(object::write::StandardSection::Text);
    object.append_section_data(text, &[0xc3], 1);
    for (name, fixture) in symbols {
        let (value, size, kind, scope, weak, section) = match fixture {
            FixtureSymbol::Strong => (
                0,
                1,
                object::SymbolKind::Text,
                object::SymbolScope::Linkage,
                false,
                SymbolSection::Section(text),
            ),
            FixtureSymbol::Weak => (
                0,
                1,
                object::SymbolKind::Text,
                object::SymbolScope::Linkage,
                true,
                SymbolSection::Section(text),
            ),
            FixtureSymbol::Common => (
                8,
                8,
                object::SymbolKind::Data,
                object::SymbolScope::Linkage,
                false,
                SymbolSection::Common,
            ),
            FixtureSymbol::Undefined => (
                0,
                0,
                object::SymbolKind::Unknown,
                object::SymbolScope::Unknown,
                false,
                SymbolSection::Undefined,
            ),
        };
        object.add_symbol(Symbol {
            name: name.as_bytes().to_vec(),
            value,
            size,
            kind,
            scope,
            weak,
            section,
            flags: SymbolFlags::None,
        });
    }
    object.write().unwrap()
}

fn symbol_object(defined: &[&str], undefined: &[&str]) -> Vec<u8> {
    let symbols = defined
        .iter()
        .map(|name| (*name, FixtureSymbol::Strong))
        .chain(undefined.iter().map(|name| (*name, FixtureSymbol::Undefined)))
        .collect::<Vec<_>>();
    fixture_object(&symbols)
}

fn archive(members: &[(&str, Vec<u8>)]) -> Vec<u8> {
    let mut archive = b"!<arch>\n".to_vec();
    for (name, data) in members {
        let name = format!("{name}/");
        let header = format!(
            "{name:<16}{:<12}{:<6}{:<6}{:<8}{:<10}`\n",
            0,
            0,
            0,
            "100644",
            data.len()
        );
        assert_eq!(header.len(), 60);
        archive.extend_from_slice(header.as_bytes());
        archive.extend_from_slice(data);
        if data.len() % 2 != 0 {
            archive.push(b'\n');
        }
    }
    archive
}

fn names(items: &[&str]) -> SymbolSet {
    let mut set = SymbolSet::new();
    for item in items {
        set.insert(item);
    }
    set
}

fn link_object(state: &mut LinkSymbolState, bytes: &[u8]) {
    let summary = read_object(bytes).unwrap();
    process_object_facts(state, &object_symbol_facts(&summary));
}

fn link_archive(state: &mut LinkSymbolState, path: &str, bytes: &[u8], whole: bool) {
    process_archive(path, bytes, &Vec::new(), &Vec::new(), state, whole).unwrap();
}

#[test]
fn dynamic_definitions_follow_as_needed_at_their_link_position() {
    let main_x = fixture_object(&[("x", FixtureSymbol::Undefined)]);
    let main_helper = fixture_object(&[("__divti3", FixtureSymbol::Undefined)]);
    let mut state = LinkSymbolState::new();
    link_object(&mut state, &main_x);
    apply_dynamic_definitions(&mut state, &names(&["x"]), false);
    let archive_bytes = archive(&[("both.o", symbol_object(&["x", "__divti3"], &[]))]);
    link_archive(&mut state, "fixture.a", &archive_bytes, false);
    link_object(&mut state, &main_helper);
    assert!(state.unresolved.contains("__divti3"));

    let mut dropped = LinkSymbolState::new();
    apply_dynamic_definitions(&mut dropped, &names(&["x"]), true);
    link_object(&mut dropped, &main_x);
    let fallback = archive(&[("fallback.o", symbol_object(&["x"], &["__divti3"]))]);
    link_archive(&mut dropped, "fallback.a", &fallback, false);
    assert!(dropped.unresolved.contains("__divti3"));

    let mut retained = LinkSymbolState::new();
    link_object(&mut retained, &main_x);
    apply_dynamic_definitions(&mut retained, &names(&["x"]), true);
    assert!(!retained.unresolved.contains("x"));
    assert!(retained.dynamic_defined.contains("x"));
}

#[test]
fn strong_definitions_override_common_and_weak_ones() {
    let mut state = LinkSymbolState::new();
    link_object(
        &mut state,
        &fixture_object(&[
            ("c", FixtureSymbol::Common),
            ("w", FixtureSymbol::Weak),
            ("u", FixtureSymbol::Undefined),
        ]),
    );
    assert!(state.common.contains("c"));
    assert!(state.weak_defined.contains("w"));
    assert!(state.unresolved.contains("u"));
    link_object(&mut state, &symbol_object(&["c", "w", "u"], &[]));
    assert!(state.defined.contains("c"));
    assert!(!state.common.contains("c"));
    assert!(!state.weak_defined.contains("w"));
    assert!(!state.unresolved.contains("u"));
}

#[test]
fn archive_members_are_extracted_until_nothing_more_resolves() {
    let mut state = LinkSymbolState::new();
    link_object(&mut state, &symbol_object(&["main"], &["a"]));
    let bytes = archive(&[
        ("b.o", symbol_object(&["b"], &["__divti3"])),
        ("a.o", symbol_object(&["a"], &["b"])),
        ("unused.o", symbol_object(&["unused"], &["__modti3"])),
    ]);
    link_archive(&mut state, "lib.a", &bytes, false);
    assert!(state.defined.contains("a"));
    assert!(state.defined.contains("b"));
    assert!(state.unresolved.contains("__divti3"));
    assert!(!state.unresolved.contains("__modti3"));

    let mut whole = LinkSymbolState::new();
    link_archive(&mut whole, "lib.a", &bytes, true);
    assert!(whole.unresolved.contains("__modti3"));
}

#[test]
fn unreadable_inputs_force_every_helper_and_missing_explicit_files_fail() {
    let mut state = LinkSymbolState::new();
    scan_link_input(
        "script.ld",
        &Ok(b"INPUT(libc.so)".to_vec()),
        &Vec::new(),
        &Vec::new(),
        &mut state,
        false,
        false,
        true,
    )
    .unwrap();
    assert!(state.force_all_runtime_helpers);

    let mut quiet = LinkSymbolState::new();
    scan_link_input(
        "missing.o",
        &Err("not found".to_owned()),
        &Vec::new(),
        &Vec::new(),
        &mut quiet,
        false,
        false,
        false,
    )
    .unwrap();
    assert!(!quiet.force_all_runtime_helpers);
    let error = scan_link_input(
        "missing.o",
        &Err("not found".to_owned()),
        &Vec::new(),
        &Vec::new(),
        &mut quiet,
        false,
        false,
        true,
    )
    .unwrap_err();
    assert_eq!(error.code, "CCC5008");
    assert_eq!(
        error.message,
        "cannot inspect `missing.o` for runtime-helper requirements: not found"
    );
}

#[test]
fn a_broken_archive_reports_its_path() {
    let mut state = LinkSymbolState::new();
    let error = process_archive(
        "bad.a",
        b"!<arch>\nshort",
        &Vec::new(),
        &Vec::new(),
        &mut state,
        false,
    )
    .unwrap_err();
    assert_eq!(error.code, "CCC5008");
    assert!(error.message.contains("`bad.a`"));
}

const MANIFEST: [RuntimeHelperEntry; 2] = [
    RuntimeHelperEntry {
        provider: RuntimeHelperProvider::CompilerBuiltins,
        symbol: "__divti3",
    },
    RuntimeHelperEntry {
        provider: RuntimeHelperProvider::CompilerBuiltins,
        symbol: "__modti3",
    },
];

#[test]
fn only_unresolved_helpers_are_required_unless_all_are_forced() {
    let mut state = LinkSymbolState::new();
    link_object(&mut state, &symbol_object(&["main"], &["__modti3"]));
    let plan = required_runtime_helpers(&MANIFEST, &state).unwrap().unwrap();
    assert_eq!(plan.provider, RuntimeHelperProvider::CompilerBuiltins);
    assert_eq!(plan.symbols, ["__modti3"]);

    state.force_all_runtime_helpers = true;
    let plan = required_runtime_helpers(&MANIFEST, &state).unwrap().unwrap();
    assert_eq!(plan.symbols, ["__divti3", "__modti3"]);

    let empty = LinkSymbolState::new();
    assert!(required_runtime_helpers(&MANIFEST, &empty).unwrap().is_none());
    assert!(runtime_helper_link_plan(&[]).is_none());
    assert_eq!(
        runtime_helper_link_plan(&MANIFEST).unwrap().symbols,
        ["__divti3", "__modti3"]
    );
}

#[test]
fn a_provider_without_the_planned_helpers_is_refused() {
    let plan = runtime_helper_link_plan(&MANIFEST).unwrap();
    assert!(verify_runtime_helper_symbols("libgcc.a", &names(&["__divti3", "__modti3"]), &plan).is_ok());
    let error = verify_runtime_helper_symbols("libgcc.a", &names(&["other"]), &plan).unwrap_err();
    assert_eq!(error.code, "CCC5008");
    assert_eq!(
        error.message,
        "compiler builtins provider `libgcc.a` is missing required runtime helpers: __divti3, __modti3"
    );
}

fn strings(items: &[&str]) -> Vec<String> {
    items.iter().map(|item| item.to_string()).collect()
}

#[test]
fn passthrough_arguments_are_expanded_and_renamed() {
    let expanded = expanded_linker_scan_arguments(&strings(&[
        "-Wl,-Bstatic,-lfoo,,x",
        "-Xlinker",
        "-static",
        "main.o",
        "-Xlinker",
    ]));
    assert_eq!(
        expanded,
        strings(&["--ccc-linker-Bstatic", "-lfoo", "", "x", "--ccc-linker-static", "main.o", "-Xlinker"])
    );
    assert!(compiler_driver_static_mode(&strings(&["-O2", "-static"])));
    assert!(!compiler_driver_static_mode(&strings(&["-Xlinker", "-static"])));
}

#[test]
fn forced_symbols_skip_numeric_entry_points() {
    let forced = forced_undefined_symbols(&strings(&[
        "-u",
        "a",
        "--undefined=b",
        "-uc",
        "-e",
        "0x1000",
        "--entry=start",
        "-e",
        "+0777",
        "--require-defined=",
        "-edone",
    ]));
    for symbol in ["a", "b", "c", "start", "done"] {
        assert!(forced.contains(symbol), "{symbol}");
    }
    assert!(!forced.contains("0x1000"));
    assert!(!forced.contains("+0777"));
    assert_eq!(forced.len(), 5);
}

#[test]
fn library_directories_follow_sysroot_markers() {
    let directories = library_search_directories(
        &strings(&["-L", "=/lib", "-L/opt", "--library-path=$SYSROOT//usr/lib", "-L"]),
        Some("/sys"),
    );
    assert_eq!(directories, strings(&["/sys/lib", "/opt", "/sys/usr/lib"]));
    let plain = library_search_directories(&strings(&["-L=/lib"]), None);
    assert_eq!(plain, strings(&["=/lib"]));
}

#[test]
fn options_that_take_operands_and_unmodeled_options_are_recognized() {
    assert!(linker_option_consumes_next("-rpath"));
    assert!(!linker_option_consumes_next("-lfoo"));
    assert_eq!(unmodeled_linker_argument_width("-T"), Some(2));
    assert_eq!(unmodeled_linker_argument_width("-Tlink.ld"), Some(1));
    assert_eq!(unmodeled_linker_argument_width("@args"), Some(1));
    assert_eq!(unmodeled_linker_argument_width("-dT"), Some(2));
    assert_eq!(unmodeled_linker_argument_width("main.o"), None);
}

#[test]
fn the_link_line_scan_tracks_positional_modes() {
    let inputs = strings(&[
        "--push-state",
        "--whole-archive",
        "-Bstatic",
        "--ccc-linker-Bstatic",
        "-lfoo",
        "--pop-state",
        "-l",
        "bar",
        "main.o",
        "-a",
        "weird",
        "-(",
        "-)",
    ]);
    let mut modes = LinkerModes::new(false);
    let mut index = 0;
    let mut steps = Vec::new();
    while index < inputs.len() {
        let step = link_step(&mut modes, &inputs, index);
        let width = match &step {
            LinkStep::Skip(width) | LinkStep::ForceAll(width) | LinkStep::Library(_, width) => *width,
            _ => 1,
        };
        steps.push((format!("{step:?}"), modes.static_libraries, modes.whole_archive));
        index += width;
    }
    assert_eq!(steps[0], ("Skip(1)".to_owned(), false, false));
    assert_eq!(steps[1], ("Skip(1)".to_owned(), false, true));
    assert_eq!(steps[3], ("Skip(1)".to_owned(), true, true));
    assert_eq!(steps[4], ("Library(\"foo\", 1)".to_owned(), true, true));
    assert_eq!(steps[5], ("Skip(1)".to_owned(), false, false));
    assert_eq!(steps[6], ("Library(\"bar\", 2)".to_owned(), false, false));
    assert_eq!(steps[7], ("Input(\"main.o\")".to_owned(), false, false));
    assert_eq!(steps[8].0, "ForceAll(2)");
    assert_eq!(steps[9].0, "StartGroup");
    assert_eq!(steps[10].0, "EndGroup");
}

fn archive_header(name: &str, size: usize) -> Vec<u8> {
    let header = format!("{:<16}{:<12}{:<6}{:<6}{:<8}{:<10}`\n", name, 0, 0, 0, 644, size);
    assert_eq!(header.len(), 60);
    header.into_bytes()
}

#[test]
fn thin_member_names_lists_the_members_kept_beside_a_thin_archive() {
    let mut thin = b"!<thin>\n".to_vec();
    thin.extend(archive_header("a.o/", 10));
    thin.extend(archive_header("b.o/", 12));
    let names = thin_member_names(&thin);
    assert_eq!(names, vec![b"a.o".to_vec(), b"b.o".to_vec()]);

    let mut regular = b"!<arch>\n".to_vec();
    regular.extend(archive_header("a.o/", 2));
    regular.extend(b"xy");
    assert!(thin_member_names(&regular).is_empty());
    assert!(thin_member_names(b"not an archive").is_empty());
}

#[test]
fn scanned_inputs_are_recorded_in_every_open_group() {
    let input = |path: &str| ScannedInput { path: path.to_owned(), whole_archive: false, as_needed: false, explicit: true };
    let mut groups: Vec<Vec<ScannedInput>> = vec![Vec::new(), vec![input("a.o")]];
    record_scanned(&mut groups, &input("libx.a"));
    assert_eq!(groups.len(), 2);
    assert_eq!(groups[0].len(), 1);
    assert_eq!(groups[0][0].path, "libx.a");
    assert_eq!(groups[1].len(), 2);
    assert_eq!(groups[1][1].path, "libx.a");
    let mut none: Vec<Vec<ScannedInput>> = Vec::new();
    record_scanned(&mut none, &input("y.o"));
    assert!(none.is_empty());
}
