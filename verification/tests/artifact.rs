use ccc::link::artifact::{
    ArtifactBundle, BridgeManifestV2, GeneratedSymbol, GeneratedSymbolOwner,
};
use ccc::link::bridge::{GeneratedAssembly, GeneratedSymbolKind};
use ccc::link::object_file::ObjectFormat;
use object::write::{Object, StandardSection, Symbol, SymbolSection};
use object::{Architecture, BinaryFormat, Endianness, SymbolFlags, SymbolKind, SymbolScope};

fn object_with_symbols(symbols: &[(&str, bool)]) -> Vec<u8> {
    let mut object = Object::new(BinaryFormat::Elf, Architecture::X86_64, Endianness::Little);
    let text = object.section_id(StandardSection::Text);
    object.append_section_data(text, &[0xc3], 1);
    for (name, defined) in symbols {
        object.add_symbol(Symbol {
            name: name.as_bytes().to_vec(),
            value: 0,
            size: 0,
            kind: SymbolKind::Text,
            scope: SymbolScope::Linkage,
            weak: false,
            section: if *defined {
                SymbolSection::Section(text)
            } else {
                SymbolSection::Undefined
            },
            flags: SymbolFlags::None,
        });
    }
    object.write().unwrap()
}

fn empty_macho_object() -> Vec<u8> {
    let mut object = Object::new(BinaryFormat::MachO, Architecture::Aarch64, Endianness::Little);
    let text = object.section_id(StandardSection::Text);
    object.append_section_data(text, &[0xc0, 0x03, 0x5f, 0xd6], 4);
    object.write().unwrap()
}

#[test]
fn bridge_free_bundle_verifies_without_a_manifest_surface() {
    let bundle = ArtifactBundle::bridge_free(object_with_symbols(&[("main", true)]), [7; 32]);
    let verified = bundle.verify().unwrap();
    assert!(!verified.needs_packaging_tools());
    assert!(verified.manifest().localization_symbols().is_empty());
}

#[test]
fn manifest_checks_ownership_references_and_exact_localization() {
    let helper = "__ccc_call_helper_0123456789abcdef";
    let assembly =
        GeneratedAssembly::new("helper", ".text\n", vec![helper.to_owned()], Vec::new()).unwrap();
    let manifest = BridgeManifestV2::new(
        [9; 32],
        vec![GeneratedSymbol::internal(
            helper,
            GeneratedSymbolKind::CallHelper,
            GeneratedSymbolOwner::AssemblyUnit("helper".to_owned()),
        )],
    );
    let bundle = ArtifactBundle::new(
        object_with_symbols(&[(helper, false)]),
        vec![assembly],
        manifest,
    )
    .verify()
    .unwrap();
    assert_eq!(bundle.manifest().localization_symbols(), [helper]);
}

#[test]
fn elf_internal_visibility_does_not_request_local_binding() {
    let entry = "variadic_internal";
    let assembly =
        GeneratedAssembly::new("entry", ".text\n", vec![entry.to_owned()], Vec::new()).unwrap();
    let manifest = BridgeManifestV2::new(
        [8; 32],
        vec![GeneratedSymbol::source_elf_internal(
            entry,
            GeneratedSymbolKind::VariadicEntry,
            GeneratedSymbolOwner::AssemblyUnit("entry".to_owned()),
        )],
    );
    let bundle = ArtifactBundle::new(
        object_with_symbols(&[(entry, false)]),
        vec![assembly],
        manifest,
    )
    .verify()
    .unwrap();
    assert!(bundle.manifest().localization_symbols().is_empty());
}

#[test]
fn exact_source_internal_macho_name_is_localized_without_c_mangling() {
    let manifest = BridgeManifestV2::new(
        [4; 32],
        vec![
            GeneratedSymbol::source_internal(
                "physical_local",
                GeneratedSymbolKind::VariadicEntry,
                GeneratedSymbolOwner::AssemblyUnit("entry".to_owned()),
            )
            .with_exact_object_name(),
        ],
    );
    assert_eq!(
        manifest.localization_object_symbols(ObjectFormat::MachO),
        ["physical_local"]
    );
}

#[test]
fn manifest_rejects_an_assembly_collision_in_the_primary_object() {
    let helper = "__ccc_call_helper_collision";
    let assembly =
        GeneratedAssembly::new("helper", ".text\n", vec![helper.to_owned()], Vec::new()).unwrap();
    let error = ArtifactBundle::new(
        object_with_symbols(&[(helper, true)]),
        vec![assembly],
        BridgeManifestV2::new(
            [0; 32],
            vec![GeneratedSymbol::internal(
                helper,
                GeneratedSymbolKind::CallHelper,
                GeneratedSymbolOwner::AssemblyUnit("helper".to_owned()),
            )],
        ),
    )
    .verify()
    .unwrap_err();
    assert!(error.message.contains("collides"));
}

#[test]
fn manifest_rejects_distinct_logical_names_that_collide_on_macho() {
    let ordinary =
        GeneratedAssembly::new("ordinary", ".text\n", vec!["foo".to_owned()], Vec::new()).unwrap();
    let exact =
        GeneratedAssembly::new("exact", ".text\n", vec!["_foo".to_owned()], Vec::new()).unwrap();
    let error = ArtifactBundle::new(
        empty_macho_object(),
        vec![ordinary, exact],
        BridgeManifestV2::new(
            [0; 32],
            vec![
                GeneratedSymbol::public(
                    "foo",
                    GeneratedSymbolKind::VariadicEntry,
                    GeneratedSymbolOwner::AssemblyUnit("ordinary".to_owned()),
                ),
                GeneratedSymbol::public(
                    "_foo",
                    GeneratedSymbolKind::VariadicEntry,
                    GeneratedSymbolOwner::AssemblyUnit("exact".to_owned()),
                )
                .with_exact_object_name(),
            ],
        ),
    )
    .verify()
    .unwrap_err();
    assert!(error.message.contains("same physical object symbol `_foo`"));
}

#[test]
fn a_manifest_assigning_symbols_to_a_missing_assembly_is_refused() {
    let manifest = BridgeManifestV2::new(
        [1; 32],
        vec![GeneratedSymbol::internal(
            "__ccc_call_helper_x",
            GeneratedSymbolKind::CallHelper,
            GeneratedSymbolOwner::AssemblyUnit("absent".to_owned()),
        )],
    );
    let error = ArtifactBundle::new(object_with_symbols(&[]), Vec::new(), manifest)
        .verify()
        .unwrap_err();
    assert_eq!(error.code, "CCC5010");
    assert_eq!(
        error.message,
        "bridge manifest assigns symbols to missing assembly `absent`"
    );
}

#[test]
fn an_unparseable_primary_object_is_refused() {
    let error = ArtifactBundle::bridge_free(b"not an object".to_vec(), [0; 32])
        .verify()
        .unwrap_err();
    assert_eq!(error.code, "CCC5010");
    assert!(error.message.starts_with("cannot parse primary object as an object"));
}

#[test]
fn verified_bundles_keep_their_parts() {
    let primary = object_with_symbols(&[("main", true)]);
    let bundle = ArtifactBundle::bridge_free(primary.clone(), [3; 32]);
    assert!(!bundle.needs_packaging_tools());
    let verified = bundle.verify().unwrap();
    assert_eq!(verified.primary_object(), primary.as_slice());
    assert!(verified.assemblies().is_empty());
    assert_eq!(verified.manifest().translation_unit_digest(), &[3; 32]);
}
