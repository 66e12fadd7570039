//! Verified artifact bundles exchanged between code generation and packaging.

use vstd::prelude::*;

use crate::link::bridge::{
    GeneratedAssembly, GeneratedSymbolKind, bridge_generated, is_bridge_generated_symbol,
    string_views, symbol_check, validate_symbol,
};
use crate::link::object_file::{
    ObjectArchitecture, ObjectFileKind, ObjectFormat, SummaryView, SymbolView, parsed_object,
    read_object,
};
use crate::link::{LinkError, artifact_code, artifact_error, check_outcome};
use crate::text::{
    concat2, concat3, concat4, concat5, concat7, lemma_text_lt_asymmetric, lemma_text_lt_irreflexive, lemma_text_lt_total,
    lemma_text_lt_transitive, push_str, str_eq, string_from_chars, text_le, text_less, text_lt,
};

verus! {

/// Which input defines a generated symbol.
#[derive(Clone, Debug, PartialEq, Eq, PartialOrd, Ord)]
pub enum GeneratedSymbolOwner {
    PrimaryObject,
    AssemblyUnit(String),
}

#[derive(Clone, Copy, Debug, PartialEq, Eq, PartialOrd, Ord, Structural)]
pub enum GeneratedSymbolVisibility {
    /// A source-level externally visible definition, such as a variadic entry.
    Public,
    /// A source-level externally linked definition with hidden ELF visibility.
    SourceHidden,
    /// A source-level externally linked definition with protected visibility.
    SourceProtected,
    /// A source-level externally linked definition with ELF internal visibility.
    SourceElfInternal,
    /// A source-level definition with internal linkage.
    SourceInternal,
    /// A compiler implementation detail localized after the partial link.
    Internal,
}

#[derive(Clone, Copy, Debug, PartialEq, Eq, PartialOrd, Ord, Structural)]
pub enum GeneratedSymbolBinding {
    Strong,
    Weak,
}

#[derive(Clone, Debug, PartialEq, Eq)]
pub struct GeneratedSymbol {
    pub name: String,
    /// Whether `name` is already the physical object-file spelling and must
    /// bypass the target's ordinary C symbol mangling.
    pub object_name_is_exact: bool,
    pub kind: GeneratedSymbolKind,
    pub owner: GeneratedSymbolOwner,
    pub visibility: GeneratedSymbolVisibility,
    pub binding: GeneratedSymbolBinding,
}

/// The plain view of a generated symbol's owner: `None` for the primary
/// object, or the stem of the owning assembly unit.
pub open spec fn owner_view(owner: GeneratedSymbolOwner) -> Option<Seq<char>> {
    match owner {
        GeneratedSymbolOwner::PrimaryObject => None,
        GeneratedSymbolOwner::AssemblyUnit(stem) => Some(stem@),
    }
}

/// The plain view of a generated symbol.
pub struct SymbolEntry {
    pub name: Seq<char>,
    pub exact: bool,
    pub kind: GeneratedSymbolKind,
    pub owner: Option<Seq<char>>,
    pub visibility: GeneratedSymbolVisibility,
    pub binding: GeneratedSymbolBinding,
}

pub open spec fn entry_view(symbol: GeneratedSymbol) -> SymbolEntry {
    SymbolEntry {
        name: symbol.name@,
        exact: symbol.object_name_is_exact,
        kind: symbol.kind,
        owner: owner_view(symbol.owner),
        visibility: symbol.visibility,
        binding: symbol.binding,
    }
}

pub open spec fn entry_views(symbols: Seq<GeneratedSymbol>) -> Seq<SymbolEntry> {
    symbols.map_values(|symbol: GeneratedSymbol| entry_view(symbol))
}

/// The object-file spelling of a symbol: Mach-O prefixes C names with `_`.
pub open spec fn object_spelling(name: Seq<char>, exact: bool, format: ObjectFormat) -> Seq<char> {
    if format == ObjectFormat::MachO && !exact {
        "_"@ + name
    } else {
        name
    }
}

impl GeneratedSymbol {
    pub fn internal(name: &str, kind: GeneratedSymbolKind, owner: GeneratedSymbolOwner) -> (result:
        Self)
        ensures
            result.name@ == name@,
            !result.object_name_is_exact,
            result.kind == kind,
            result.owner == owner,
            result.visibility == GeneratedSymbolVisibility::Internal,
            result.binding == GeneratedSymbolBinding::Strong,
    {
        Self {
            name: name.to_owned(),
            object_name_is_exact: false,
            kind,
            owner,
            visibility: GeneratedSymbolVisibility::Internal,
            binding: GeneratedSymbolBinding::Strong,
        }
    }

    pub fn public(name: &str, kind: GeneratedSymbolKind, owner: GeneratedSymbolOwner) -> (result:
        Self)
        ensures
            result.name@ == name@,
            !result.object_name_is_exact,
            result.kind == kind,
            result.owner == owner,
            result.visibility == GeneratedSymbolVisibility::Public,
            result.binding == GeneratedSymbolBinding::Strong,
    {
        Self {
            name: name.to_owned(),
            object_name_is_exact: false,
            kind,
            owner,
            visibility: GeneratedSymbolVisibility::Public,
            binding: GeneratedSymbolBinding::Strong,
        }
    }

    pub fn source_hidden(
        name: &str,
        kind: GeneratedSymbolKind,
        owner: GeneratedSymbolOwner,
    ) -> (result: Self)
        ensures
            result.name@ == name@,
            !result.object_name_is_exact,
            result.kind == kind,
            result.owner == owner,
            result.visibility == GeneratedSymbolVisibility::SourceHidden,
            result.binding == GeneratedSymbolBinding::Strong,
    {
        Self {
            name: name.to_owned(),
            object_name_is_exact: false,
            kind,
            owner,
            visibility: GeneratedSymbolVisibility::SourceHidden,
            binding: GeneratedSymbolBinding::Strong,
        }
    }

    pub fn source_internal(
        name: &str,
        kind: GeneratedSymbolKind,
        owner: GeneratedSymbolOwner,
    ) -> (result: Self)
        ensures
            result.name@ == name@,
            !result.object_name_is_exact,
            result.kind == kind,
            result.owner == owner,
            result.visibility == GeneratedSymbolVisibility::SourceInternal,
            result.binding == GeneratedSymbolBinding::Strong,
    {
        Self {
            name: name.to_owned(),
            object_name_is_exact: false,
            kind,
            owner,
            visibility: GeneratedSymbolVisibility::SourceInternal,
            binding: GeneratedSymbolBinding::Strong,
        }
    }

    pub fn source_elf_internal(
        name: &str,
        kind: GeneratedSymbolKind,
        owner: GeneratedSymbolOwner,
    ) -> (result: Self)
        ensures
            result.name@ == name@,
            !result.object_name_is_exact,
            result.kind == kind,
            result.owner == owner,
            result.visibility == GeneratedSymbolVisibility::SourceElfInternal,
            result.binding == GeneratedSymbolBinding::Strong,
    {
        Self {
            name: name.to_owned(),
            object_name_is_exact: false,
            kind,
            owner,
            visibility: GeneratedSymbolVisibility::SourceElfInternal,
            binding: GeneratedSymbolBinding::Strong,
        }
    }

    pub fn source_protected(
        name: &str,
        kind: GeneratedSymbolKind,
        owner: GeneratedSymbolOwner,
    ) -> (result: Self)
        ensures
            result.name@ == name@,
            !result.object_name_is_exact,
            result.kind == kind,
            result.owner == owner,
            result.visibility == GeneratedSymbolVisibility::SourceProtected,
            result.binding == GeneratedSymbolBinding::Strong,
    {
        Self {
            name: name.to_owned(),
            object_name_is_exact: false,
            kind,
            owner,
            visibility: GeneratedSymbolVisibility::SourceProtected,
            binding: GeneratedSymbolBinding::Strong,
        }
    }

    pub fn with_weak_binding(self) -> (result: Self)
        ensures
            result == (GeneratedSymbol { binding: GeneratedSymbolBinding::Weak, ..self }),
    {
        let mut symbol = self;
        symbol.binding = GeneratedSymbolBinding::Weak;
        symbol
    }

    pub fn with_exact_object_name(self) -> (result: Self)
        ensures
            result == (GeneratedSymbol { object_name_is_exact: true, ..self }),
    {
        let mut symbol = self;
        symbol.object_name_is_exact = true;
        symbol
    }

    /// The spelling of this symbol in an object file of `format`.
    pub fn object_name(&self, format: ObjectFormat) -> (result: String)
        ensures
            result@ == object_spelling(self.name@, self.object_name_is_exact, format),
    {
        if format == ObjectFormat::MachO && !self.object_name_is_exact {
            concat2("_", self.name.as_str())
        } else {
            self.name.clone()
        }
    }
}

} // verus!

verus! {

/// The plain view of an assembly unit: its stem and the symbols it defines.
pub open spec fn assembly_views(assemblies: Seq<GeneratedAssembly>) -> Seq<(Seq<char>, Seq<Seq<char>>)> {
    assemblies.map_values(|a: GeneratedAssembly| (a.stem_view(), a.symbols_view()))
}

/// The first problem with the manifest's own symbols from index `k` on.
pub open spec fn manifest_symbol_problem(symbols: Seq<SymbolEntry>, k: int) -> Option<Seq<char>>
    decreases symbols.len() - k,
{
    if k < 0 || k >= symbols.len() {
        None
    } else if symbol_check(symbols[k].name) is Err {
        Some(symbol_check(symbols[k].name)->Err_0)
    } else if exists|j: int| 0 <= j < k && symbols[j].name == symbols[k].name {
        Some(
            "generated symbol `"@ + symbols[k].name
                + "` appears more than once in the bridge manifest"@,
        )
    } else if symbols[k].visibility == GeneratedSymbolVisibility::Internal && !bridge_generated(
        symbols[k].name,
    ) {
        Some(
            "internal generated symbol `"@ + symbols[k].name
                + "` is outside the reserved namespace"@,
        )
    } else {
        manifest_symbol_problem(symbols, k + 1)
    }
}

/// The names that the manifest assigns to the assembly unit `stem`.
pub open spec fn owned_names(symbols: Seq<SymbolEntry>, stem: Seq<char>) -> Set<Seq<char>> {
    Set::new(
        |name: Seq<char>|
            exists|k: int|
                0 <= k < symbols.len() && symbols[k].owner == Some(stem) && #[trigger] symbols[k].name
                    == name,
    )
}

/// The first problem with the assembly units from index `a` on.
pub open spec fn assembly_problem(
    symbols: Seq<SymbolEntry>,
    assemblies: Seq<(Seq<char>, Seq<Seq<char>>)>,
    a: int,
) -> Option<Seq<char>>
    decreases assemblies.len() - a,
{
    if a < 0 || a >= assemblies.len() {
        None
    } else if exists|j: int| 0 <= j < a && assemblies[j].0 == assemblies[a].0 {
        Some("generated assembly stem `"@ + assemblies[a].0 + "` appears more than once"@)
    } else if assemblies[a].1.to_set() != owned_names(symbols, assemblies[a].0) {
        Some(
            "generated assembly `"@ + assemblies[a].0
                + "` definitions do not match its bridge manifest ownership"@,
        )
    } else {
        assembly_problem(symbols, assemblies, a + 1)
    }
}

/// `stem` owns manifest symbols but no assembly unit has that stem.
pub open spec fn missing_stem(
    symbols: Seq<SymbolEntry>,
    assemblies: Seq<(Seq<char>, Seq<Seq<char>>)>,
    stem: Seq<char>,
) -> bool {
    &&& exists|k: int| 0 <= k < symbols.len() && symbols[k].owner == Some(stem)
    &&& forall|a: int| 0 <= a < assemblies.len() ==> assemblies[a].0 != stem
}

/// The outcome of checking a manifest against its assembly units.
pub open spec fn shape_check(
    symbols: Seq<SymbolEntry>,
    assemblies: Seq<(Seq<char>, Seq<Seq<char>>)>,
) -> Result<(), Seq<char>> {
    match manifest_symbol_problem(symbols, 0) {
        Some(message) => Err(message),
        None => match assembly_problem(symbols, assemblies, 0) {
            Some(message) => Err(message),
            None => if exists|stem: Seq<char>| missing_stem(symbols, assemblies, stem) {
                let first = choose|stem: Seq<char>|
                    missing_stem(symbols, assemblies, stem) && forall|other: Seq<char>|
                        missing_stem(symbols, assemblies, other) ==> text_le(stem, other);
                Err("bridge manifest assigns symbols to missing assembly `"@ + first + "`"@)
            } else if assemblies.len() == 0 && symbols.len() > 0 {
                Err("a bridge manifest with generated symbols has no generated assembly"@)
            } else {
                Ok(())
            },
        },
    }
}

/* Primary-object checks */

pub open spec fn enabled_target(view: SummaryView) -> bool {
    ||| view.format == ObjectFormat::Elf && (view.architecture == ObjectArchitecture::X86_64
        || view.architecture == ObjectArchitecture::Aarch64 || view.architecture
        == ObjectArchitecture::Riscv64)
    ||| view.format == ObjectFormat::MachO && view.architecture == ObjectArchitecture::Aarch64
}

pub open spec fn is_dynamic_section(name: Seq<char>) -> bool {
    name == ".dynamic"@ || name == ".dynsym"@ || name == ".interp"@
}

/// The first dynamic-link section name from index `i` on.
pub open spec fn first_dynamic_section(names: Seq<Option<Seq<char>>>, i: int) -> Option<Seq<char>>
    decreases names.len() - i,
{
    if i < 0 || i >= names.len() {
        None
    } else if names[i] is Some && is_dynamic_section(names[i]->Some_0) {
        names[i]
    } else {
        first_dynamic_section(names, i + 1)
    }
}

/// The outcome of reading `bytes` as an enabled relocatable object.
pub open spec fn relocatable_check(bytes: Seq<u8>, description: Seq<char>) -> Result<
    SummaryView,
    Seq<char>,
> {
    match parsed_object(bytes) {
        Err(reason) => Err("cannot parse "@ + description + " as an object: "@ + reason),
        Ok(view) => if !enabled_target(view) || view.kind != ObjectFileKind::Relocatable
            || view.entry != 0 {
            Err(description + " is not an enabled relocatable object"@)
        } else {
            match first_dynamic_section(view.section_names, 0) {
                Some(name) => Err(
                    description + " unexpectedly contains dynamic-link section `"@ + name + "`"@,
                ),
                None => Ok(view),
            }
        },
    }
}

/// The object defines `name`.
pub open spec fn object_defines(view: SummaryView, name: Seq<char>) -> bool {
    exists|i: int|
        0 <= i < view.symbols.len() && view.symbols[i].name == Some(name) && name.len() > 0
            && !(#[trigger] view.symbols[i]).undefined
}

/// The object references `name` without defining it in that entry.
pub open spec fn object_references(view: SummaryView, name: Seq<char>) -> bool {
    exists|i: int|
        0 <= i < view.symbols.len() && view.symbols[i].name == Some(name) && name.len() > 0
            && (#[trigger] view.symbols[i]).undefined
}

pub open spec fn spelling_of(entry: SymbolEntry, format: ObjectFormat) -> Seq<char> {
    object_spelling(entry.name, entry.exact, format)
}

/// The first manifest symbol from `k` on whose object spelling repeats an
/// earlier one.
pub open spec fn collision_problem(symbols: Seq<SymbolEntry>, format: ObjectFormat, k: int) -> Option<
    Seq<char>,
>
    decreases symbols.len() - k,
{
    if k < 0 || k >= symbols.len() {
        None
    } else if exists|j: int|
        0 <= j < k && spelling_of(symbols[j], format) == spelling_of(symbols[k], format) {
        let j = choose|j: int|
            0 <= j < k && spelling_of(symbols[j], format) == spelling_of(symbols[k], format);
        Some(
            "generated symbols `"@ + symbols[j].name + "` and `"@ + symbols[k].name
                + "` map to the same physical object symbol `"@ + spelling_of(symbols[k], format)
                + "`"@,
        )
    } else {
        collision_problem(symbols, format, k + 1)
    }
}

pub open spec fn requires_reference(kind: GeneratedSymbolKind) -> bool {
    kind == GeneratedSymbolKind::CallHelper || kind == GeneratedSymbolKind::CallStub || kind
        == GeneratedSymbolKind::TlsAccessor
}

/// The first manifest symbol from `k` on that the primary object fails to
/// define, defines against an assembly unit, or fails to reference.
pub open spec fn reference_problem(symbols: Seq<SymbolEntry>, view: SummaryView, k: int) -> Option<
    Seq<char>,
>
    decreases symbols.len() - k,
{
    if k < 0 || k >= symbols.len() {
        None
    } else {
        let name = symbols[k].name;
        let spelling = spelling_of(symbols[k], view.format);
        if symbols[k].owner is None && !object_defines(view, spelling) {
            Some("primary object does not define manifest symbol `"@ + name + "`"@)
        } else if symbols[k].owner is Some && object_defines(view, spelling) {
            Some("primary object collides with assembly-owned symbol `"@ + name + "`"@)
        } else if symbols[k].owner is Some && requires_reference(symbols[k].kind)
            && !object_references(view, spelling) {
            Some("primary object does not reference required bridge symbol `"@ + name + "`"@)
        } else {
            reference_problem(symbols, view, k + 1)
        }
    }
}

/// The outcome of checking a manifest against the primary object `bytes`.
pub open spec fn primary_check(symbols: Seq<SymbolEntry>, bytes: Seq<u8>) -> Result<(), Seq<char>> {
    match relocatable_check(bytes, "primary object"@) {
        Err(message) => Err(message),
        Ok(view) => match collision_problem(symbols, view.format, 0) {
            Some(message) => Err(message),
            None => match reference_problem(symbols, view, 0) {
                Some(message) => Err(message),
                None => Ok(()),
            },
        },
    }
}

} // verus!

verus! {

fn is_dynamic_section_name(name: &str) -> (result: bool)
    ensures
        result == is_dynamic_section(name@),
{
    str_eq(name, ".dynamic") || str_eq(name, ".dynsym") || str_eq(name, ".interp")
}

/// Reads `bytes` as an enabled relocatable object: ELF for x86-64, AArch64
/// or RISC-V 64, or Mach-O for AArch64, with no entry point and no
/// dynamic-link sections.
#[verifier::loop_isolation(false)]
pub fn parse_relocatable(bytes: &[u8], description: &str) -> (result: Result<
    crate::link::object_file::ObjectSummary,
    LinkError,
>)
    ensures
        match result {
            Ok(summary) => relocatable_check(bytes@, description@) == Ok::<SummaryView, Seq<char>>(
                crate::link::object_file::summary_view(summary),
            ),
            Err(error) => relocatable_check(bytes@, description@) == Err::<SummaryView, Seq<char>>(
                error.message@,
            ) && error.code@ == artifact_code(),
        },
{
    let summary = match read_object(bytes) {
        Ok(summary) => summary,
        Err(reason) => {
            return Err(artifact_error(concat4(
                "cannot parse ",
                description,
                " as an object: ",
                reason.as_str(),
            )));
        },
    };
    let ghost view = crate::link::object_file::summary_view(summary);
    let enabled = match summary.format {
        ObjectFormat::Elf => summary.architecture == ObjectArchitecture::X86_64
            || summary.architecture == ObjectArchitecture::Aarch64 || summary.architecture
            == ObjectArchitecture::Riscv64,
        ObjectFormat::MachO => summary.architecture == ObjectArchitecture::Aarch64,
        ObjectFormat::Other => false,
    };
    if !enabled || summary.kind != ObjectFileKind::Relocatable || summary.entry != 0 {
        return Err(artifact_error(concat2(description, " is not an enabled relocatable object")));
    }
    let mut i: usize = 0;
    while i < summary.section_names.len()
        invariant
            i <= summary.section_names.len(),
            view == crate::link::object_file::summary_view(summary),
            first_dynamic_section(view.section_names, 0) == first_dynamic_section(
                view.section_names,
                i as int,
            ),
        decreases summary.section_names.len() - i,
    {
        if let Some(name) = &summary.section_names[i] {
            if is_dynamic_section_name(name.as_str()) {
                return Err(artifact_error(concat4(
                    description,
                    " unexpectedly contains dynamic-link section `",
                    name.as_str(),
                    "`",
                )));
            }
        }
        i = i + 1;
    }
    Ok(summary)
}

} // verus!

verus! {

/// Versioned ownership and visibility contract for generated symbols.
#[derive(Clone, Debug, PartialEq, Eq)]
pub struct BridgeManifestV2 {
    translation_unit_digest: [u8; 32],
    symbols: Vec<GeneratedSymbol>,
}

fn owner_is(owner: &GeneratedSymbolOwner, stem: &str) -> (result: bool)
    ensures
        result == (owner_view(*owner) == Some(stem@)),
{
    match owner {
        GeneratedSymbolOwner::PrimaryObject => false,
        GeneratedSymbolOwner::AssemblyUnit(unit) => str_eq(unit.as_str(), stem),
    }
}

/// Whether the manifest assigns `name` to the assembly unit `stem`.
fn owns_name(symbols: &Vec<GeneratedSymbol>, stem: &str, name: &str) -> (result: bool)
    ensures
        result == owned_names(entry_views(symbols@), stem@).contains(name@),
{
    let ghost entries = entry_views(symbols@);
    let mut k: usize = 0;
    while k < symbols.len()
        invariant
            k <= symbols.len(),
            entries == entry_views(symbols@),
            forall|j: int|
                0 <= j < k ==> !(entries[j].owner == Some(stem@) && #[trigger] entries[j].name
                    == name@),
        decreases symbols.len() - k,
    {
        assert(entries[k as int] == entry_view(symbols@[k as int]));
        if owner_is(&symbols[k].owner, stem) && str_eq(symbols[k].name.as_str(), name) {
            assert(entries[k as int].owner == Some(stem@) && entries[k as int].name == name@);
            assert(owned_names(entries, stem@).contains(name@));
            return true;
        }
        k = k + 1;
    }
    false
}

/// Checks the manifest's own symbols: valid spellings, no repeats, and
/// internal symbols inside the reserved namespace.
#[verifier::loop_isolation(false)]
fn check_manifest_symbols(symbols: &Vec<GeneratedSymbol>) -> (result: Result<(), LinkError>)
    ensures
        check_outcome(result) == match manifest_symbol_problem(entry_views(symbols@), 0) {
            Some(message) => Err::<(), Seq<char>>(message),
            None => Ok(()),
        },
        result matches Err(error) ==> error.code@ == artifact_code(),
{
    let ghost entries = entry_views(symbols@);
    let mut k: usize = 0;
    while k < symbols.len()
        invariant
            k <= symbols.len(),
            entries == entry_views(symbols@),
            manifest_symbol_problem(entries, 0) == manifest_symbol_problem(entries, k as int),
        decreases symbols.len() - k,
    {
        let symbol = &symbols[k];
        assert(entries[k as int] == entry_view(symbols@[k as int]));
        validate_symbol(symbol.name.as_str())?;
        let mut j: usize = 0;
        while j < k
            invariant
                j <= k < symbols.len(),
                forall|m: int| 0 <= m < j ==> entries[m].name != entries[k as int].name,
            decreases k - j,
        {
            assert(entries[j as int] == entry_view(symbols@[j as int]));
            if str_eq(symbols[j].name.as_str(), symbol.name.as_str()) {
                return Err(artifact_error(concat3(
                    "generated symbol `",
                    symbol.name.as_str(),
                    "` appears more than once in the bridge manifest",
                )));
            }
            j = j + 1;
        }
        if symbol.visibility == GeneratedSymbolVisibility::Internal && !is_bridge_generated_symbol(
            symbol.name.as_str(),
        ) {
            return Err(artifact_error(concat3(
                "internal generated symbol `",
                symbol.name.as_str(),
                "` is outside the reserved namespace",
            )));
        }
        k = k + 1;
    }
    Ok(())
}

} // verus!

verus! {

/// Whether the symbols that `assembly` defines are exactly those the
/// manifest assigns to it.
#[verifier::loop_isolation(false)]
fn ownership_matches(symbols: &Vec<GeneratedSymbol>, assembly: &GeneratedAssembly) -> (result: bool)
    ensures
        result == (assembly.symbols_view().to_set() == owned_names(
            entry_views(symbols@),
            assembly.stem_view(),
        )),
{
    let ghost entries = entry_views(symbols@);
    let ghost defined = assembly.symbols_view();
    let ghost owned = owned_names(entries, assembly.stem_view());
    let stem = assembly.stem();
    let names = assembly.defined_symbols();
    let mut i: usize = 0;
    while i < names.len()
        invariant
            i <= names.len(),
            string_views(names@) == defined,
            forall|m: int| 0 <= m < i ==> owned.contains(#[trigger] defined[m]),
        decreases names.len() - i,
    {
        assert(defined[i as int] == names@[i as int]@);
        if !owns_name(symbols, stem, names[i].as_str()) {
            assert(defined.to_set().contains(defined[i as int]));
            assert(!owned.contains(defined[i as int]));
            return false;
        }
        i = i + 1;
    }
    let mut k: usize = 0;
    while k < symbols.len()
        invariant
            k <= symbols.len(),
            entries == entry_views(symbols@),
            forall|m: int|
                0 <= m < k && entries[m].owner == Some(assembly.stem_view()) ==> defined.contains(
                    #[trigger] entries[m].name,
                ),
        decreases symbols.len() - k,
    {
        assert(entries[k as int] == entry_view(symbols@[k as int]));
        if owner_is(&symbols[k].owner, stem) {
            let mut found = false;
            let mut i: usize = 0;
            while i < names.len()
                invariant
                    i <= names.len(),
                    string_views(names@) == defined,
                    found ==> defined.contains(entries[k as int].name),
                    !found ==> forall|m: int| 0 <= m < i ==> defined[m] != entries[k as int].name,
                decreases names.len() - i,
            {
                assert(defined[i as int] == names@[i as int]@);
                if str_eq(names[i].as_str(), symbols[k].name.as_str()) {
                    found = true;
                }
                i = i + 1;
            }
            if !found {
                assert(owned.contains(entries[k as int].name));
                assert(!defined.to_set().contains(entries[k as int].name));
                return false;
            }
        }
        k = k + 1;
    }
    assert(defined.to_set() =~= owned) by {
        assert forall|name: Seq<char>| owned.contains(name) implies defined.to_set().contains(
            name,
        ) by {
            let m = choose|m: int|
                0 <= m < entries.len() && entries[m].owner == Some(assembly.stem_view())
                    && #[trigger] entries[m].name == name;
            assert(defined.contains(entries[m].name));
        }
        assert forall|name: Seq<char>| defined.to_set().contains(name) implies owned.contains(
            name,
        ) by {
            let m = choose|m: int| 0 <= m < defined.len() && defined[m] == name;
            assert(owned.contains(defined[m]));
        }
    }
    true
}

/// Checks each assembly unit: a unique stem, and exactly the definitions
/// the manifest assigns to it.
#[verifier::loop_isolation(false)]
fn check_assemblies(symbols: &Vec<GeneratedSymbol>, assemblies: &[GeneratedAssembly]) -> (result:
    Result<(), LinkError>)
    ensures
        check_outcome(result) == match assembly_problem(
            entry_views(symbols@),
            assembly_views(assemblies@),
            0,
        ) {
            Some(message) => Err::<(), Seq<char>>(message),
            None => Ok(()),
        },
        result matches Err(error) ==> error.code@ == artifact_code(),
{
    let ghost entries = entry_views(symbols@);
    let ghost units = assembly_views(assemblies@);
    let mut a: usize = 0;
    while a < assemblies.len()
        invariant
            a <= assemblies.len(),
            units == assembly_views(assemblies@),
            assembly_problem(entries, units, 0) == assembly_problem(entries, units, a as int),
        decreases assemblies.len() - a,
    {
        let assembly = &assemblies[a];
        assert(units[a as int] == (assembly.stem_view(), assembly.symbols_view()));
        let mut j: usize = 0;
        while j < a
            invariant
                j <= a < assemblies.len(),
                forall|m: int| 0 <= m < j ==> units[m].0 != units[a as int].0,
            decreases a - j,
        {
            assert(units[j as int] == (assemblies@[j as int].stem_view(), assemblies@[j as int].symbols_view()));
            if str_eq(assemblies[j].stem(), assembly.stem()) {
                return Err(artifact_error(concat3(
                    "generated assembly stem `",
                    assembly.stem(),
                    "` appears more than once",
                )));
            }
            j = j + 1;
        }
        if !ownership_matches(symbols, assembly) {
            return Err(artifact_error(concat3(
                "generated assembly `",
                assembly.stem(),
                "` definitions do not match its bridge manifest ownership",
            )));
        }
        a = a + 1;
    }
    Ok(())
}

/// Whether some assembly unit has the stem `stem`.
fn has_assembly(assemblies: &[GeneratedAssembly], stem: &str) -> (result: bool)
    ensures
        result == exists|a: int| 0 <= a < assemblies@.len() && #[trigger] assembly_views(assemblies@)[a].0 == stem@,
{
    let ghost units = assembly_views(assemblies@);
    let mut a: usize = 0;
    while a < assemblies.len()
        invariant
            a <= assemblies.len(),
            units == assembly_views(assemblies@),
            forall|m: int| 0 <= m < a ==> units[m].0 != stem@,
        decreases assemblies.len() - a,
    {
        assert(units[a as int].0 == assemblies@[a as int].stem_view());
        if str_eq(assemblies[a].stem(), stem) {
            return true;
        }
        a = a + 1;
    }
    false
}

/// The least stem, in byte order, that owns manifest symbols but names no
/// assembly unit.
#[verifier::loop_isolation(false)]
fn least_missing_stem(symbols: &Vec<GeneratedSymbol>, assemblies: &[GeneratedAssembly]) -> (result:
    Option<String>)
    ensures
        match result {
            None => forall|stem: Seq<char>|
                !missing_stem(entry_views(symbols@), assembly_views(assemblies@), stem),
            Some(least) => missing_stem(entry_views(symbols@), assembly_views(assemblies@), least@)
                && forall|other: Seq<char>|
                missing_stem(entry_views(symbols@), assembly_views(assemblies@), other) ==> text_le(
                    least@,
                    other,
                ),
        },
{
    let ghost entries = entry_views(symbols@);
    let ghost units = assembly_views(assemblies@);
    let mut least: Option<String> = None;
    let mut k: usize = 0;
    while k < symbols.len()
        invariant
            k <= symbols.len(),
            entries == entry_views(symbols@),
            units == assembly_views(assemblies@),
            least matches Some(l) ==> missing_stem(entries, units, l@),
            forall|m: int|
                0 <= m < k && entries[m].owner is Some && missing_stem(
                    entries,
                    units,
                    entries[m].owner->Some_0,
                ) ==> least is Some && text_le(least->Some_0@, #[trigger] entries[m].owner->Some_0),
        decreases symbols.len() - k,
    {
        assert(entries[k as int] == entry_view(symbols@[k as int]));
        if let GeneratedSymbolOwner::AssemblyUnit(stem) = &symbols[k].owner {
            if !has_assembly(assemblies, stem.as_str()) {
                let replace = match &least {
                    None => true,
                    Some(current) => text_less(stem.as_str(), current.as_str()),
                };
                proof {
                    assert(missing_stem(entries, units, stem@));
                }
                if replace {
                    proof {
                        assert forall|m: int|
                            0 <= m < k && entries[m].owner is Some && missing_stem(
                                entries,
                                units,
                                entries[m].owner->Some_0,
                            ) implies text_le(stem@, #[trigger] entries[m].owner->Some_0) by {
                            let l = least->Some_0@;
                            if text_lt(l, entries[m].owner->Some_0) {
                                lemma_text_lt_transitive(stem@, l, entries[m].owner->Some_0);
                            }
                        }
                    }
                    least = Some(stem.clone());
                } else {
                    proof {
                        let l = least->Some_0@;
                        lemma_text_lt_total(l, stem@);
                    }
                }
            }
        }
        k = k + 1;
    }
    proof {
        assert forall|other: Seq<char>| missing_stem(entries, units, other) implies least is Some
            && text_le(least->Some_0@, other) by {
            let m = choose|m: int| 0 <= m < entries.len() && entries[m].owner == Some(other);
            assert(entries[m].owner->Some_0 == other);
        }
    }
    least
}

} // verus!

verus! {

/// Localization applies to compiler-internal symbols and to source symbols
/// with internal linkage.
pub open spec fn is_localized(visibility: GeneratedSymbolVisibility) -> bool {
    visibility == GeneratedSymbolVisibility::Internal || visibility
        == GeneratedSymbolVisibility::SourceInternal
}

/// The texts of `names` are in nondecreasing byte order.
pub open spec fn sorted_texts(names: Seq<Seq<char>>) -> bool {
    forall|i: int, j: int| 0 <= i < j < names.len() ==> text_le(#[trigger] names[i], #[trigger] names[j])
}

/// The names of the manifest symbols to localize, in manifest order.
pub open spec fn localized_names(symbols: Seq<SymbolEntry>) -> Seq<Seq<char>>
    decreases symbols.len(),
{
    if symbols.len() == 0 {
        seq![]
    } else if is_localized(symbols.last().visibility) {
        localized_names(symbols.drop_last()).push(symbols.last().name)
    } else {
        localized_names(symbols.drop_last())
    }
}

/// The object spellings of the manifest symbols to localize, in manifest order.
pub open spec fn localized_spellings(symbols: Seq<SymbolEntry>, format: ObjectFormat) -> Seq<
    Seq<char>,
>
    decreases symbols.len(),
{
    if symbols.len() == 0 {
        seq![]
    } else if is_localized(symbols.last().visibility) {
        localized_spellings(symbols.drop_last(), format).push(spelling_of(symbols.last(), format))
    } else {
        localized_spellings(symbols.drop_last(), format)
    }
}

pub open spec fn str_views(names: Seq<&str>) -> Seq<Seq<char>> {
    names.map_values(|name: &str| name@)
}

/// Sorts `names` by byte order.
#[verifier::loop_isolation(false)]
fn sort_texts(names: Vec<String>) -> (result: Vec<String>)
    ensures
        string_views(result@).to_multiset() == string_views(names@).to_multiset(),
        sorted_texts(string_views(result@)),
{
    broadcast use vstd::seq_lib::group_to_multiset_ensures;

    let ghost original = string_views(names@);
    let mut remaining = names;
    let mut output: Vec<String> = Vec::new();
    while remaining.len() > 0
        invariant
            string_views(output@).to_multiset().add(string_views(remaining@).to_multiset())
                == original.to_multiset(),
            sorted_texts(string_views(output@)),
            forall|i: int, j: int|
                0 <= i < output@.len() && 0 <= j < remaining@.len() ==> text_le(
                    #[trigger] string_views(output@)[i],
                    #[trigger] string_views(remaining@)[j],
                ),
        decreases remaining.len(),
    {
        let ghost rest = string_views(remaining@);
        let mut best: usize = 0;
        let mut i: usize = 1;
        while i < remaining.len()
            invariant
                1 <= i <= remaining.len(),
                best < remaining.len(),
                rest == string_views(remaining@),
                forall|j: int| 0 <= j < i ==> text_le(rest[best as int], #[trigger] rest[j]),
            decreases remaining.len() - i,
        {
            if text_less(remaining[i].as_str(), remaining[best].as_str()) {
                proof {
                    assert forall|j: int| 0 <= j < i implies text_le(rest[i as int], #[trigger] rest[j]) by {
                        if text_lt(rest[best as int], rest[j]) {
                            lemma_text_lt_transitive(rest[i as int], rest[best as int], rest[j]);
                        }
                    }
                }
                best = i;
            } else {
                proof {
                    lemma_text_lt_total(rest[i as int], rest[best as int]);
                }
            }
            i = i + 1;
        }
        let ghost before_output = string_views(output@);
        let chosen = remaining.remove(best);
        proof {
            assert(string_views(remaining@) =~= rest.remove(best as int));
            assert(rest.remove(best as int).to_multiset() =~= rest.to_multiset().remove(rest[best as int]));
        }
        output.push(chosen);
        proof {
            assert(string_views(output@) =~= before_output.push(chosen@));
            assert(before_output.push(chosen@).to_multiset() =~= before_output.to_multiset().insert(
                chosen@,
            ));
            assert(rest.to_multiset().count(rest[best as int]) > 0) by {
                assert(rest.contains(rest[best as int]));
            }
            assert(string_views(output@).to_multiset().add(string_views(remaining@).to_multiset())
                =~= original.to_multiset());
            assert forall|a: int, b: int|
                0 <= a < b < string_views(output@).len() implies text_le(
                #[trigger] string_views(output@)[a],
                #[trigger] string_views(output@)[b],
            ) by {
                if b == string_views(output@).len() - 1 {
                    assert(string_views(output@)[b] == rest[best as int]);
                    assert(string_views(output@)[a] == before_output[a]);
                }
            }
            assert forall|a: int, b: int|
                0 <= a < output@.len() && 0 <= b < remaining@.len() implies text_le(
                #[trigger] string_views(output@)[a],
                #[trigger] string_views(remaining@)[b],
            ) by {
                let r = string_views(remaining@)[b];
                if b < best {
                    assert(r == rest[b]);
                } else {
                    assert(r == rest[b + 1]);
                }
                if a == output@.len() - 1 {
                    assert(string_views(output@)[a] == rest[best as int]);
                } else {
                    assert(string_views(output@)[a] == before_output[a]);
                }
            }
        }
    }
    proof {
        assert(string_views(remaining@) =~= Seq::<Seq<char>>::empty());
        assert(string_views(remaining@).to_multiset() =~= vstd::multiset::Multiset::empty());
        assert(string_views(output@).to_multiset() =~= string_views(output@).to_multiset().add(
            vstd::multiset::Multiset::empty(),
        ));
    }
    output
}

} // verus!

verus! {

impl BridgeManifestV2 {
    pub const VERSION: u16 = 2;

    pub closed spec fn digest_view(&self) -> Seq<u8> {
        self.translation_unit_digest@
    }

    pub closed spec fn symbols_seq(&self) -> Seq<GeneratedSymbol> {
        self.symbols@
    }

    pub open spec fn entries(&self) -> Seq<SymbolEntry> {
        entry_views(self.symbols_seq())
    }

    pub fn empty(translation_unit_digest: [u8; 32]) -> (result: Self)
        ensures
            result.digest_view() == translation_unit_digest@,
            result.symbols_seq().len() == 0,
    {
        Self { translation_unit_digest, symbols: Vec::new() }
    }

    pub fn new(translation_unit_digest: [u8; 32], symbols: Vec<GeneratedSymbol>) -> (result: Self)
        ensures
            result.digest_view() == translation_unit_digest@,
            result.symbols_seq() == symbols@,
    {
        Self { translation_unit_digest, symbols }
    }

    pub fn translation_unit_digest(&self) -> (result: &[u8; 32])
        ensures
            result@ == self.digest_view(),
    {
        &self.translation_unit_digest
    }

    pub fn symbols(&self) -> (result: &[GeneratedSymbol])
        ensures
            result@ == self.symbols_seq(),
    {
        self.symbols.as_slice()
    }

    /// The names of the symbols to localize after the partial link, in byte
    /// order: exactly the internal and source-internal ones.
    pub fn localization_symbols(&self) -> (result: Vec<String>)
        ensures
            string_views(result@).to_multiset() == localized_names(self.entries()).to_multiset(),
            sorted_texts(string_views(result@)),
    {
        let ghost entries = self.entries();
        let mut names: Vec<String> = Vec::new();
        let mut k: usize = 0;
        while k < self.symbols.len()
            invariant
                k <= self.symbols.len(),
                entries == entry_views(self.symbols@),
                string_views(names@) == localized_names(entries.take(k as int)),
            decreases self.symbols.len() - k,
        {
            let symbol = &self.symbols[k];
            assert(entries.take(k + 1).drop_last() =~= entries.take(k as int));
            assert(entries.take(k + 1).last() == entry_view(self.symbols@[k as int]));
            if symbol.visibility == GeneratedSymbolVisibility::Internal || symbol.visibility
                == GeneratedSymbolVisibility::SourceInternal {
                let ghost before = string_views(names@);
                names.push(symbol.name.clone());
                assert(string_views(names@) =~= before.push(symbol.name@));
            }
            k = k + 1;
        }
        assert(entries.take(k as int) =~= entries);
        sort_texts(names)
    }

    /// The object spellings of the symbols to localize, in byte order.
    pub fn localization_object_symbols(&self, format: ObjectFormat) -> (result: Vec<String>)
        ensures
            string_views(result@).to_multiset() == localized_spellings(
                self.entries(),
                format,
            ).to_multiset(),
            sorted_texts(string_views(result@)),
    {
        let ghost entries = self.entries();
        let mut names: Vec<String> = Vec::new();
        let mut k: usize = 0;
        while k < self.symbols.len()
            invariant
                k <= self.symbols.len(),
                entries == entry_views(self.symbols@),
                string_views(names@) == localized_spellings(entries.take(k as int), format),
            decreases self.symbols.len() - k,
        {
            let symbol = &self.symbols[k];
            assert(entries.take(k + 1).drop_last() =~= entries.take(k as int));
            assert(entries.take(k + 1).last() == entry_view(self.symbols@[k as int]));
            if symbol.visibility == GeneratedSymbolVisibility::Internal || symbol.visibility
                == GeneratedSymbolVisibility::SourceInternal {
                let ghost before = string_views(names@);
                let spelling = symbol.object_name(format);
                names.push(spelling);
                assert(string_views(names@) =~= before.push(
                    spelling_of(entry_view(self.symbols@[k as int]), format),
                ));
            }
            k = k + 1;
        }
        assert(entries.take(k as int) =~= entries);
        sort_texts(names)
    }

    /// Checks the manifest against its assembly units.
    pub fn verify_shape(&self, assemblies: &[GeneratedAssembly]) -> (result: Result<(), LinkError>)
        ensures
            check_outcome(result) == shape_check(self.entries(), assembly_views(assemblies@)),
            result matches Err(error) ==> error.code@ == artifact_code(),
    {
        let ghost entries = self.entries();
        let ghost units = assembly_views(assemblies@);
        check_manifest_symbols(&self.symbols)?;
        check_assemblies(&self.symbols, assemblies)?;
        if let Some(stem) = least_missing_stem(&self.symbols, assemblies) {
            proof {
                let first = choose|candidate: Seq<char>|
                    missing_stem(entries, units, candidate) && forall|other: Seq<char>|
                        missing_stem(entries, units, other) ==> text_le(candidate, other);
                assert(missing_stem(entries, units, first));
                assert(text_le(first, stem@));
                assert(text_le(stem@, first));
                if first != stem@ {
                    lemma_text_lt_asymmetric(first, stem@);
                }
            }
            return Err(artifact_error(concat3(
                "bridge manifest assigns symbols to missing assembly `",
                stem.as_str(),
                "`",
            )));
        }
        if assemblies.len() == 0 && self.symbols.len() > 0 {
            return Err(
                artifact_error(
                    "a bridge manifest with generated symbols has no generated assembly".to_owned(),
                ),
            );
        }
        Ok(())
    }
}

} // verus!

verus! {

/// Whether some readable, non-empty symbol entry named `name` is defined
/// (`undefined == false`) or only referenced (`undefined == true`).
fn object_has_entry(
    summary: &crate::link::object_file::ObjectSummary,
    name: &str,
    undefined: bool,
) -> (result: bool)
    ensures
        result == if undefined {
            object_references(crate::link::object_file::summary_view(*summary), name@)
        } else {
            object_defines(crate::link::object_file::summary_view(*summary), name@)
        },
{
    let ghost view = crate::link::object_file::summary_view(*summary);
    let empty = chars_of_len_zero(name);
    let mut i: usize = 0;
    while i < summary.symbols.len()
        invariant
            i <= summary.symbols.len(),
            view == crate::link::object_file::summary_view(*summary),
            empty == (name@.len() == 0),
            forall|j: int|
                0 <= j < i ==> !((#[trigger] view.symbols[j]).name == Some(name@) && name@.len() > 0
                    && view.symbols[j].undefined == undefined),
        decreases summary.symbols.len() - i,
    {
        let record = &summary.symbols[i];
        assert(view.symbols[i as int] == crate::link::object_file::symbol_view(
            summary.symbols@[i as int],
        ));
        if let Some(entry_name) = &record.name {
            if !empty && record.undefined == undefined && str_eq(entry_name.as_str(), name) {
                return true;
            }
        }
        i = i + 1;
    }
    false
}

fn chars_of_len_zero(name: &str) -> (result: bool)
    ensures
        result == (name@.len() == 0),
{
    crate::text::chars_of(name).len() == 0
}

impl BridgeManifestV2 {
    /// Checks the manifest against the primary relocatable object.
    #[verifier::loop_isolation(false)]
    pub fn verify_primary_object(&self, primary_object: &[u8]) -> (result: Result<(), LinkError>)
        ensures
            check_outcome(result) == primary_check(self.entries(), primary_object@),
            result matches Err(error) ==> error.code@ == artifact_code(),
    {
        let ghost entries = self.entries();
        let summary = parse_relocatable(primary_object, "primary object")?;
        let ghost view = crate::link::object_file::summary_view(summary);
        let format = summary.format;
        let mut k: usize = 0;
        while k < self.symbols.len()
            invariant
                k <= self.symbols.len(),
                entries == entry_views(self.symbols@),
                collision_problem(entries, format, 0) == collision_problem(entries, format, k as int),
                forall|a: int, b: int|
                    0 <= a < b < k ==> spelling_of(#[trigger] entries[a], format) != spelling_of(
                        #[trigger] entries[b],
                        format,
                    ),
            decreases self.symbols.len() - k,
        {
            let symbol = &self.symbols[k];
            assert(entries[k as int] == entry_view(self.symbols@[k as int]));
            let spelling = symbol.object_name(format);
            let mut j: usize = 0;
            while j < k
                invariant
                    j <= k < self.symbols.len(),
                    forall|m: int|
                        0 <= m < j ==> spelling_of(#[trigger] entries[m], format) != spelling_of(
                            entries[k as int],
                            format,
                        ),
                decreases k - j,
            {
                assert(entries[j as int] == entry_view(self.symbols@[j as int]));
                let other = self.symbols[j].object_name(format);
                if str_eq(other.as_str(), spelling.as_str()) {
                    proof {
                        let c = choose|c: int|
                            0 <= c < k && spelling_of(entries[c], format) == spelling_of(
                                entries[k as int],
                                format,
                            );
                        if c != j {
                            if c < j {
                                assert(spelling_of(entries[c], format) != spelling_of(
                                    entries[j as int],
                                    format,
                                ));
                            } else {
                                assert(spelling_of(entries[j as int], format) != spelling_of(
                                    entries[c],
                                    format,
                                ));
                            }
                        }
                    }
                    return Err(artifact_error(concat7(
                        "generated symbols `",
                        self.symbols[j].name.as_str(),
                        "` and `",
                        symbol.name.as_str(),
                        "` map to the same physical object symbol `",
                        spelling.as_str(),
                        "`",
                    )));
                }
                j = j + 1;
            }
            k = k + 1;
        }
        let mut k: usize = 0;
        while k < self.symbols.len()
            invariant
                k <= self.symbols.len(),
                entries == entry_views(self.symbols@),
                view == crate::link::object_file::summary_view(summary),
                reference_problem(entries, view, 0) == reference_problem(entries, view, k as int),
            decreases self.symbols.len() - k,
        {
            let symbol = &self.symbols[k];
            assert(entries[k as int] == entry_view(self.symbols@[k as int]));
            let spelling = symbol.object_name(format);
            let defined = object_has_entry(&summary, spelling.as_str(), false);
            match &symbol.owner {
                GeneratedSymbolOwner::PrimaryObject => {
                    if !defined {
                        return Err(artifact_error(concat3(
                            "primary object does not define manifest symbol `",
                            symbol.name.as_str(),
                            "`",
                        )));
                    }
                },
                GeneratedSymbolOwner::AssemblyUnit(_) => {
                    if defined {
                        return Err(artifact_error(concat3(
                            "primary object collides with assembly-owned symbol `",
                            symbol.name.as_str(),
                            "`",
                        )));
                    }
                    let needs_reference = symbol.kind == GeneratedSymbolKind::CallHelper
                        || symbol.kind == GeneratedSymbolKind::CallStub || symbol.kind
                        == GeneratedSymbolKind::TlsAccessor;
                    if needs_reference && !object_has_entry(&summary, spelling.as_str(), true) {
                        return Err(artifact_error(concat3(
                            "primary object does not reference required bridge symbol `",
                            symbol.name.as_str(),
                            "`",
                        )));
                    }
                },
            }
            k = k + 1;
        }
        Ok(())
    }
}

} // verus!

verus! {

/// The outcome of verifying a bundle: the shape check against the assembly
/// units first, then the check against the primary object.
pub open spec fn bundle_check(
    manifest: BridgeManifestV2,
    assemblies: Seq<GeneratedAssembly>,
    primary_object: Seq<u8>,
) -> Result<(), Seq<char>> {
    match shape_check(manifest.entries(), assembly_views(assemblies)) {
        Err(message) => Err(message),
        Ok(()) => primary_check(manifest.entries(), primary_object),
    }
}

/// Code generation output plus any deterministic assembly needed to complete
/// the relocatable object.
#[derive(Clone, Debug)]
pub struct ArtifactBundle {
    primary_object: Vec<u8>,
    assemblies: Vec<GeneratedAssembly>,
    manifest: BridgeManifestV2,
}

impl ArtifactBundle {
    pub closed spec fn primary_view(&self) -> Seq<u8> {
        self.primary_object@
    }

    pub closed spec fn assemblies_view(&self) -> Seq<GeneratedAssembly> {
        self.assemblies@
    }

    pub closed spec fn manifest_view(&self) -> BridgeManifestV2 {
        self.manifest
    }

    /// A bundle with no generated assembly and an empty manifest.
    pub fn bridge_free(primary_object: Vec<u8>, translation_unit_digest: [u8; 32]) -> (result: Self)
        ensures
            result.primary_view() == primary_object@,
            result.assemblies_view().len() == 0,
            result.manifest_view().digest_view() == translation_unit_digest@,
            result.manifest_view().symbols_seq().len() == 0,
    {
        Self {
            primary_object,
            assemblies: Vec::new(),
            manifest: BridgeManifestV2::empty(translation_unit_digest),
        }
    }

    pub fn new(
        primary_object: Vec<u8>,
        assemblies: Vec<GeneratedAssembly>,
        manifest: BridgeManifestV2,
    ) -> (result: Self)
        ensures
            result.primary_view() == primary_object@,
            result.assemblies_view() == assemblies@,
            result.manifest_view() == manifest,
    {
        Self { primary_object, assemblies, manifest }
    }

    pub fn primary_object(&self) -> (result: &[u8])
        ensures
            result@ == self.primary_view(),
    {
        self.primary_object.as_slice()
    }

    pub fn assemblies(&self) -> (result: &[GeneratedAssembly])
        ensures
            result@ == self.assemblies_view(),
    {
        self.assemblies.as_slice()
    }

    pub fn manifest(&self) -> (result: &BridgeManifestV2)
        ensures
            *result == self.manifest_view(),
    {
        &self.manifest
    }

    /// Whether packaging has assembly units to assemble.
    pub fn needs_packaging_tools(&self) -> (result: bool)
        ensures
            result == (self.assemblies_view().len() > 0),
    {
        self.assemblies.len() > 0
    }

    /// Checks the manifest against the assembly units and the primary
    /// object; succeeds exactly when both checks pass, keeping the bundle.
    pub fn verify(self) -> (result: Result<VerifiedArtifactBundle, LinkError>)
        ensures
            result is Ok <==> bundle_check(
                self.manifest_view(),
                self.assemblies_view(),
                self.primary_view(),
            ) is Ok,
            result matches Ok(verified) ==> verified.bundle() == self,
            result matches Err(error) ==> error.code@ == artifact_code() && bundle_check(
                self.manifest_view(),
                self.assemblies_view(),
                self.primary_view(),
            ) == Err::<(), Seq<char>>(error.message@),
    {
        self.manifest.verify_shape(self.assemblies.as_slice())?;
        self.manifest.verify_primary_object(self.primary_object.as_slice())?;
        Ok(VerifiedArtifactBundle(self))
    }
}

/// An artifact whose manifest and primary relocatable object agree.
#[derive(Debug)]
pub struct VerifiedArtifactBundle(ArtifactBundle);

impl VerifiedArtifactBundle {
    #[verifier::type_invariant]
    spec fn checks_pass(self) -> bool {
        bundle_check(self.0.manifest_view(), self.0.assemblies_view(), self.0.primary_view()) is Ok
    }

    pub closed spec fn bundle(&self) -> ArtifactBundle {
        self.0
    }

    /// The primary object; the bundle it belongs to passed every check.
    pub fn primary_object(&self) -> (result: &[u8])
        ensures
            result@ == self.bundle().primary_view(),
            bundle_check(
                self.bundle().manifest_view(),
                self.bundle().assemblies_view(),
                self.bundle().primary_view(),
            ) is Ok,
    {
        proof {
            use_type_invariant(self);
        }
        self.0.primary_object()
    }

    pub fn assemblies(&self) -> (result: &[GeneratedAssembly])
        ensures
            result@ == self.bundle().assemblies_view(),
            bundle_check(
                self.bundle().manifest_view(),
                self.bundle().assemblies_view(),
                self.bundle().primary_view(),
            ) is Ok,
    {
        proof {
            use_type_invariant(self);
        }
        self.0.assemblies()
    }

    pub fn manifest(&self) -> (result: &BridgeManifestV2)
        ensures
            *result == self.bundle().manifest_view(),
            bundle_check(
                self.bundle().manifest_view(),
                self.bundle().assemblies_view(),
                self.bundle().primary_view(),
            ) is Ok,
    {
        proof {
            use_type_invariant(self);
        }
        self.0.manifest()
    }

    pub fn needs_packaging_tools(&self) -> (result: bool)
        ensures
            result == (self.bundle().assemblies_view().len() > 0),
    {
        self.0.needs_packaging_tools()
    }
}

} // verus!
