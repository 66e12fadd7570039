use ccc::link::artifact::ArtifactBundle;
use ccc::link::object_file::ObjectFormat;
use ccc::link::package::{
    canonical_symbol_name, inspect_combined_object, inspect_final_object,
    inspect_generated_bridge_object, inspect_localized_probe, inspect_path,
};
use object::write::{Object, StandardSection, Symbol, SymbolSection};
use object::{Architecture, BinaryFormat, Endianness, SymbolFlags, SymbolKind, SymbolScope};

fn object_with(symbols: &[(&str, bool, SymbolScope)]) -> Vec<u8> {
    let mut object = Object::new(BinaryFormat::Elf, Architecture::X86_64, Endianness::Little);
    let text = object.section_id(StandardSection::Text);
    object.append_section_data(text, &[0xc3], 1);
    for (name, defined, scope) in symbols {
        object.add_symbol(Symbol {
            name: name.as_bytes().to_vec(),
            value: 0,
            size: 0,
            kind: SymbolKind::Text,
            scope: *scope,
            weak: false,
            section: if *defined {
                SymbolSection::Section(text)
            } else {
                SymbolSection::Undefined
            },
            flags: SymbolFlags::None,
        });
    }
    object.write().unwrap()
}

#[test]
fn generated_bridge_objects_reject_file_symbols() {
    let mut object = Object::new(BinaryFormat::Elf, Architecture::X86_64, Endianness::Little);
    object.add_file_symbol(b"/build/path/bridge.s".to_vec());
    let bytes = object.write().unwrap();

    let error = inspect_generated_bridge_object("bridge.o", &Ok(bytes)).unwrap_err();
    assert_eq!(error.code, "CCC5010");
    assert_eq!(
        error.message,
        "generated bridge object contains an assembler file symbol"
    );
}

#[test]
fn generated_bridge_objects_reject_debug_sections() {
    let mut object = Object::new(BinaryFormat::Elf, Architecture::X86_64, Endianness::Little);
    let debug = object.add_section(Vec::new(), b".debug_info".to_vec(), object::SectionKind::Debug);
    object.append_section_data(debug, &[0], 1);
    let bytes = object.write().unwrap();
    let error = inspect_generated_bridge_object("bridge.o", &Ok(bytes)).unwrap_err();
    assert_eq!(
        error.message,
        "generated bridge object contains path-sensitive debug metadata"
    );
}

#[test]
fn clean_generated_bridge_objects_pass_inspection() {
    let bytes = object_with(&[("__ccc_call_helper_test", true, SymbolScope::Linkage)]);
    inspect_generated_bridge_object("bridge.o", &Ok(bytes)).unwrap();
}

#[test]
fn unreadable_objects_name_their_path_and_reason() {
    let error = inspect_generated_bridge_object("bridge.o", &Err("gone".to_owned())).unwrap_err();
    assert_eq!(error.message, "cannot read generated bridge object `bridge.o`: gone");
    let error = inspect_path("result.o", "published object", &Err("gone".to_owned())).unwrap_err();
    assert_eq!(error.message, "cannot read published object `result.o`: gone");
    assert_eq!(error.code, "CCC5010");
}

#[test]
fn published_objects_must_be_relocatable_objects() {
    let bytes = object_with(&[("main", true, SymbolScope::Linkage)]);
    inspect_path("result.o", "published object", &Ok(bytes)).unwrap();
    assert!(inspect_path("result.o", "published object", &Ok(b"not an object".to_vec())).is_err());
}

#[test]
fn localization_probe_requires_a_local_sentinel() {
    let local = object_with(&[("__ccc_capability_internal", true, SymbolScope::Compilation)]);
    inspect_localized_probe(&Ok(local)).unwrap();

    let global = object_with(&[("__ccc_capability_internal", true, SymbolScope::Linkage)]);
    let error = inspect_localized_probe(&Ok(global)).unwrap_err();
    assert_eq!(error.message, "object copier did not localize the sentinel symbol");

    let missing = object_with(&[("other", true, SymbolScope::Linkage)]);
    let error = inspect_localized_probe(&Ok(missing)).unwrap_err();
    assert_eq!(error.message, "localized capability object lost its sentinel symbol");

    let error = inspect_localized_probe(&Err("gone".to_owned())).unwrap_err();
    assert_eq!(error.message, "cannot read localization probe: gone");
}

#[test]
fn bridge_free_packaging_keeps_the_primary_object() {
    let primary = object_with(&[("main", true, SymbolScope::Linkage)]);
    let verified = ArtifactBundle::bridge_free(primary.clone(), [0; 32]).verify().unwrap();
    inspect_combined_object("result.o", &Ok(primary.clone()), &verified, false).unwrap();
    inspect_final_object("result.o", &Ok(primary), &verified).unwrap();
}

#[test]
fn packaging_that_drops_a_primary_symbol_is_rejected() {
    let primary = object_with(&[("main", true, SymbolScope::Linkage)]);
    let verified = ArtifactBundle::bridge_free(primary, [0; 32]).verify().unwrap();
    let packaged = object_with(&[("other", true, SymbolScope::Linkage)]);
    let error = inspect_combined_object("result.o", &Ok(packaged), &verified, false).unwrap_err();
    assert_eq!(error.message, "partial linking discarded primary-object symbol `main`");
}

#[test]
fn packaging_that_localizes_a_primary_symbol_is_rejected() {
    let primary = object_with(&[("main", true, SymbolScope::Dynamic)]);
    let verified = ArtifactBundle::bridge_free(primary, [0; 32]).verify().unwrap();
    let packaged = object_with(&[("main", true, SymbolScope::Compilation)]);
    let error = inspect_combined_object("result.o", &Ok(packaged), &verified, false).unwrap_err();
    assert_eq!(error.message, "partial linking changed the binding of primary-object symbol `main`");

    let hidden = object_with(&[("main", true, SymbolScope::Linkage)]);
    let error = inspect_combined_object("result.o", &Ok(hidden), &verified, false).unwrap_err();
    assert_eq!(
        error.message,
        "partial linking changed the kind, weak binding, or visibility of primary-object symbol \
         `main`: primary=(Text, weak=false, visibility=Some(0)), packaged=(Text, weak=false, \
         visibility=Some(2))"
    );
}

#[test]
fn packaging_that_introduces_startup_code_is_rejected() {
    let primary = object_with(&[("main", true, SymbolScope::Linkage)]);
    let verified = ArtifactBundle::bridge_free(primary, [0; 32]).verify().unwrap();
    let packaged = object_with(&[
        ("main", true, SymbolScope::Linkage),
        ("_start", true, SymbolScope::Linkage),
    ]);
    let error = inspect_combined_object("result.o", &Ok(packaged), &verified, false).unwrap_err();
    assert_eq!(
        error.message,
        "partial linking unexpectedly introduced startup symbol `_start`"
    );
}

#[test]
fn packaging_that_leaves_generated_symbols_undefined_is_rejected() {
    let primary = object_with(&[("main", true, SymbolScope::Linkage)]);
    let verified = ArtifactBundle::bridge_free(primary, [0; 32]).verify().unwrap();
    let packaged = object_with(&[
        ("main", true, SymbolScope::Linkage),
        ("__ccc_call_helper_x", false, SymbolScope::Unknown),
    ]);
    let error = inspect_combined_object("result.o", &Ok(packaged), &verified, false).unwrap_err();
    assert_eq!(
        error.message,
        "packaged object retains unresolved generated symbol `__ccc_call_helper_x`"
    );
}

#[test]
fn macho_symbol_names_drop_their_leading_underscore() {
    assert_eq!(canonical_symbol_name(ObjectFormat::MachO, "_main"), "main");
    assert_eq!(canonical_symbol_name(ObjectFormat::MachO, "main"), "main");
    assert_eq!(canonical_symbol_name(ObjectFormat::Elf, "_main"), "_main");
}
