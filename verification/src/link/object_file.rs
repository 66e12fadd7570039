//! What the link stage reads from relocatable objects and shared libraries,
//! as plain values.

use vstd::prelude::*;

use object::read::archive::ArchiveFile;
use object::read::{Object, ObjectSection, ObjectSymbol};

verus! {

#[verifier::external_type_specification]
#[verifier::external_body]
pub struct ExBinaryFormat(object::BinaryFormat);

#[verifier::external_type_specification]
#[verifier::external_body]
pub struct ExArchitecture(object::Architecture);

#[verifier::external_type_specification]
#[verifier::external_body]
pub struct ExObjectKind(object::ObjectKind);

#[verifier::external_type_specification]
#[verifier::external_body]
pub struct ExSymbolSection(object::SymbolSection);

#[verifier::external_type_specification]
#[verifier::external_body]
pub struct ExSymbolScope(object::SymbolScope);

#[verifier::external_type_specification]
#[verifier::external_body]
pub struct ExSymbolKind(object::SymbolKind);

/// The container format of an object file.
#[derive(Clone, Copy, Debug, PartialEq, Eq, Structural)]
pub enum ObjectFormat {
    Elf,
    MachO,
    Other,
}

/// The machine an object file targets.
#[derive(Clone, Copy, Debug, PartialEq, Eq, Structural)]
pub enum ObjectArchitecture {
    X86_64,
    Aarch64,
    Riscv64,
    Other,
}

/// Whether an object file is relocatable, a shared library, or neither.
#[derive(Clone, Copy, Debug, PartialEq, Eq, Structural)]
pub enum ObjectFileKind {
    Relocatable,
    Dynamic,
    Other,
}

/// Where a symbol's value lives, as the object reader reports it.
#[derive(Clone, Copy, Debug, PartialEq, Eq, Structural)]
pub enum SymbolPlacement {
    Unknown,
    /// No section applies (a file symbol).
    NotApplicable,
    Undefined,
    /// An absolute value.
    Absolute,
    /// A zero-initialized symbol merged with its duplicates.
    Common,
    /// Defined in a section.
    Section,
    /// A placement this reader does not name.
    Other,
}

/// A symbol is defined where it lives in a section or at an absolute
/// address.
pub open spec fn is_defined_placement(placement: SymbolPlacement) -> bool {
    placement == SymbolPlacement::Section || placement == SymbolPlacement::Absolute
}

/// Whether a symbol with this placement is defined.
pub fn defined_placement(placement: SymbolPlacement) -> (result: bool)
    ensures
        result == is_defined_placement(placement),
{
    match placement {
        SymbolPlacement::Section | SymbolPlacement::Absolute => true,
        _ => false,
    }
}

/// What a symbol names.
#[derive(Clone, Copy, Debug, PartialEq, Eq, Structural)]
pub enum SymbolCategory {
    Unknown,
    Text,
    Data,
    Section,
    File,
    Label,
    Tls,
    Other,
}

/// How far a symbol is visible.
#[derive(Clone, Copy, Debug, PartialEq, Eq, Structural)]
pub enum SymbolReach {
    Unknown,
    /// Visible to its compilation unit only.
    Compilation,
    /// Visible to the static link.
    Linkage,
    /// Exported to dynamically linked objects.
    Dynamic,
    Other,
}

/// One symbol table entry.
#[derive(Clone, Debug)]
pub struct ObjectSymbolRecord {
    /// The symbol's name, when it is readable text.
    pub name: Option<String>,
    pub global: bool,
    pub weak: bool,
    pub undefined: bool,
    pub placement: SymbolPlacement,
    pub scope: SymbolReach,
    pub category: SymbolCategory,
    /// The ELF `st_other` byte, for ELF symbols.
    pub elf_other: Option<u8>,
}

/// What the link stage reads from one object file.
#[derive(Clone, Debug)]
pub struct ObjectSummary {
    pub format: ObjectFormat,
    pub architecture: ObjectArchitecture,
    pub kind: ObjectFileKind,
    pub entry: u64,
    /// Section names, in section order; `None` where a name is unreadable.
    pub section_names: Vec<Option<String>>,
    /// The ELF `sh_flags` of each section, for ELF sections.
    pub section_elf_flags: Vec<Option<u64>>,
    pub symbols: Vec<ObjectSymbolRecord>,
    pub dynamic_symbols: Vec<ObjectSymbolRecord>,
}

/// The plain view of a symbol table entry.
pub struct SymbolView {
    pub name: Option<Seq<char>>,
    pub global: bool,
    pub weak: bool,
    pub undefined: bool,
    pub placement: SymbolPlacement,
    pub scope: SymbolReach,
    pub category: SymbolCategory,
    pub elf_other: Option<u8>,
}

/// The plain view of an object summary.
pub struct SummaryView {
    pub format: ObjectFormat,
    pub architecture: ObjectArchitecture,
    pub kind: ObjectFileKind,
    pub entry: u64,
    pub section_names: Seq<Option<Seq<char>>>,
    pub section_elf_flags: Seq<Option<u64>>,
    pub symbols: Seq<SymbolView>,
    pub dynamic_symbols: Seq<SymbolView>,
}

pub open spec fn option_text(name: Option<String>) -> Option<Seq<char>> {
    match name {
        Some(text) => Some(text@),
        None => None,
    }
}

pub open spec fn symbol_view(symbol: ObjectSymbolRecord) -> SymbolView {
    SymbolView {
        name: option_text(symbol.name),
        global: symbol.global,
        weak: symbol.weak,
        undefined: symbol.undefined,
        placement: symbol.placement,
        scope: symbol.scope,
        category: symbol.category,
        elf_other: symbol.elf_other,
    }
}

pub open spec fn summary_view(summary: ObjectSummary) -> SummaryView {
    SummaryView {
        format: summary.format,
        architecture: summary.architecture,
        kind: summary.kind,
        entry: summary.entry,
        section_names: summary.section_names@.map_values(|name: Option<String>| option_text(name)),
        section_elf_flags: summary.section_elf_flags@,
        symbols: summary.symbols@.map_values(|symbol: ObjectSymbolRecord| symbol_view(symbol)),
        dynamic_symbols: summary.dynamic_symbols@.map_values(
            |symbol: ObjectSymbolRecord| symbol_view(symbol),
        ),
    }
}

/// The outcome of reading an object file: its summary, or the reader's
/// description of why it could not be read.
pub open spec fn read_outcome(result: Result<ObjectSummary, String>) -> Result<
    SummaryView,
    Seq<char>,
> {
    match result {
        Ok(summary) => Ok(summary_view(summary)),
        Err(message) => Err(message@),
    }
}

/// The header and section table of an object file.
#[derive(Clone, Debug)]
pub struct ObjectHeader {
    pub format: ObjectFormat,
    pub architecture: ObjectArchitecture,
    pub kind: ObjectFileKind,
    pub entry: u64,
    pub section_names: Vec<Option<String>>,
    pub section_elf_flags: Vec<Option<u64>>,
}

/// The plain view of an object header.
pub struct HeaderView {
    pub format: ObjectFormat,
    pub architecture: ObjectArchitecture,
    pub kind: ObjectFileKind,
    pub entry: u64,
    pub section_names: Seq<Option<Seq<char>>>,
    pub section_elf_flags: Seq<Option<u64>>,
}

pub open spec fn header_view(header: ObjectHeader) -> HeaderView {
    HeaderView {
        format: header.format,
        architecture: header.architecture,
        kind: header.kind,
        entry: header.entry,
        section_names: header.section_names@.map_values(|name: Option<String>| option_text(name)),
        section_elf_flags: header.section_elf_flags@,
    }
}

pub open spec fn symbol_views(symbols: Seq<ObjectSymbolRecord>) -> Seq<SymbolView> {
    symbols.map_values(|symbol: ObjectSymbolRecord| symbol_view(symbol))
}

pub open spec fn header_outcome(result: Result<ObjectHeader, String>) -> Result<HeaderView, Seq<char>> {
    match result {
        Ok(header) => Ok(header_view(header)),
        Err(message) => Err(message@),
    }
}

pub open spec fn table_outcome(result: Result<Vec<ObjectSymbolRecord>, String>) -> Result<
    Seq<SymbolView>,
    Seq<char>,
> {
    match result {
        Ok(symbols) => Ok(symbol_views(symbols@)),
        Err(message) => Err(message@),
    }
}

/// What the object reader makes of the header and sections of `bytes`.
pub uninterp spec fn parsed_header(bytes: Seq<u8>) -> Result<HeaderView, Seq<char>>;

/// What the object reader makes of the symbol table of `bytes`.
pub uninterp spec fn parsed_symbol_table(bytes: Seq<u8>) -> Result<Seq<SymbolView>, Seq<char>>;

/// What the object reader makes of the dynamic symbol table of `bytes`.
pub uninterp spec fn parsed_dynamic_symbol_table(bytes: Seq<u8>) -> Result<
    Seq<SymbolView>,
    Seq<char>,
>;

/// What the link stage reads from the object file `bytes`: its header,
/// sections and both symbol tables, or the first reader error.
pub open spec fn parsed_object(bytes: Seq<u8>) -> Result<SummaryView, Seq<char>> {
    match parsed_header(bytes) {
        Err(message) => Err(message),
        Ok(header) => match parsed_symbol_table(bytes) {
            Err(message) => Err(message),
            Ok(symbols) => match parsed_dynamic_symbol_table(bytes) {
                Err(message) => Err(message),
                Ok(dynamic_symbols) => Ok(
                    SummaryView {
                        format: header.format,
                        architecture: header.architecture,
                        kind: header.kind,
                        entry: header.entry,
                        section_names: header.section_names,
                        section_elf_flags: header.section_elf_flags,
                        symbols,
                        dynamic_symbols,
                    },
                ),
            },
        },
    }
}

#[verifier::external_body]
fn format_of(format: object::BinaryFormat) -> ObjectFormat {
    match format {
        object::BinaryFormat::Elf => ObjectFormat::Elf,
        object::BinaryFormat::MachO => ObjectFormat::MachO,
        _ => ObjectFormat::Other,
    }
}

#[verifier::external_body]
fn architecture_of(architecture: object::Architecture) -> ObjectArchitecture {
    match architecture {
        object::Architecture::X86_64 => ObjectArchitecture::X86_64,
        object::Architecture::Aarch64 => ObjectArchitecture::Aarch64,
        object::Architecture::Riscv64 => ObjectArchitecture::Riscv64,
        _ => ObjectArchitecture::Other,
    }
}

#[verifier::external_body]
fn kind_of(kind: object::ObjectKind) -> ObjectFileKind {
    match kind {
        object::ObjectKind::Relocatable => ObjectFileKind::Relocatable,
        object::ObjectKind::Dynamic => ObjectFileKind::Dynamic,
        _ => ObjectFileKind::Other,
    }
}

#[verifier::external_body]
fn category_of(kind: object::SymbolKind) -> SymbolCategory {
    match kind {
        object::SymbolKind::Unknown => SymbolCategory::Unknown,
        object::SymbolKind::Text => SymbolCategory::Text,
        object::SymbolKind::Data => SymbolCategory::Data,
        object::SymbolKind::Section => SymbolCategory::Section,
        object::SymbolKind::File => SymbolCategory::File,
        object::SymbolKind::Label => SymbolCategory::Label,
        object::SymbolKind::Tls => SymbolCategory::Tls,
        _ => SymbolCategory::Other,
    }
}

#[verifier::external_body]
fn reach_of(scope: object::SymbolScope) -> SymbolReach {
    match scope {
        object::SymbolScope::Unknown => SymbolReach::Unknown,
        object::SymbolScope::Compilation => SymbolReach::Compilation,
        object::SymbolScope::Linkage => SymbolReach::Linkage,
        object::SymbolScope::Dynamic => SymbolReach::Dynamic,
    }
}

#[verifier::external_body]
fn placement_of(section: object::SymbolSection) -> SymbolPlacement {
    match section {
        object::SymbolSection::Unknown => SymbolPlacement::Unknown,
        object::SymbolSection::None => SymbolPlacement::NotApplicable,
        object::SymbolSection::Undefined => SymbolPlacement::Undefined,
        object::SymbolSection::Absolute => SymbolPlacement::Absolute,
        object::SymbolSection::Common => SymbolPlacement::Common,
        object::SymbolSection::Section(_) => SymbolPlacement::Section,
        _ => SymbolPlacement::Other,
    }
}

/// object's `File::parse` with its format, architecture, kind, entry and
/// section names: the header of `bytes`, or the text of the parse error.
/// The contract names the result and says nothing of what the reader accepts.
#[verifier::external_body]
fn read_object_header(bytes: &[u8]) -> (result: Result<ObjectHeader, String>)
    ensures
        header_outcome(result) == parsed_header(bytes@),
{
    let file = object::File::parse(bytes).map_err(|error| error.to_string())?;
    Ok(ObjectHeader {
        format: format_of(file.format()),
        architecture: architecture_of(file.architecture()),
        kind: kind_of(file.kind()),
        entry: file.entry(),
        section_names: file.sections().map(|s| s.name().ok().map(str::to_owned)).collect(),
        section_elf_flags: file.sections().map(|s| match s.flags() {
            object::SectionFlags::Elf { sh_flags } => Some(sh_flags),
            _ => None,
        }).collect(),
    })
}

/// object's `File::parse` and `Object::symbols`: the symbol table of
/// `bytes`, or the text of the parse error.
#[verifier::external_body]
fn read_symbol_table(bytes: &[u8]) -> (result: Result<Vec<ObjectSymbolRecord>, String>)
    ensures
        table_outcome(result) == parsed_symbol_table(bytes@),
{
    let file = object::File::parse(bytes).map_err(|error| error.to_string())?;
    Ok(file.symbols().map(|s| ObjectSymbolRecord {
        name: s.name().ok().map(str::to_owned),
        global: s.is_global(),
        weak: s.is_weak(),
        undefined: s.is_undefined(),
        placement: placement_of(s.section()),
        scope: reach_of(s.scope()),
        category: category_of(s.kind()),
        elf_other: match s.flags() {
            object::SymbolFlags::Elf { st_other, .. } => Some(st_other),
            _ => None,
        },
    }).collect())
}

/// object's `File::parse` and `Object::dynamic_symbols`: the dynamic symbol
/// table of `bytes`, or the text of the parse error.
#[verifier::external_body]
fn read_dynamic_symbol_table(bytes: &[u8]) -> (result: Result<Vec<ObjectSymbolRecord>, String>)
    ensures
        table_outcome(result) == parsed_dynamic_symbol_table(bytes@),
{
    let file = object::File::parse(bytes).map_err(|error| error.to_string())?;
    Ok(file.dynamic_symbols().map(|s| ObjectSymbolRecord {
        name: s.name().ok().map(str::to_owned),
        global: s.is_global(),
        weak: s.is_weak(),
        undefined: s.is_undefined(),
        placement: placement_of(s.section()),
        scope: reach_of(s.scope()),
        category: category_of(s.kind()),
        elf_other: match s.flags() {
            object::SymbolFlags::Elf { st_other, .. } => Some(st_other),
            _ => None,
        },
    }).collect())
}

/// Reads what the link stage needs from the object file `bytes`.
pub fn read_object(bytes: &[u8]) -> (result: Result<ObjectSummary, String>)
    ensures
        read_outcome(result) == parsed_object(bytes@),
{
    let header = read_object_header(bytes)?;
    let ghost header_v = header_view(header);
    let symbols = read_symbol_table(bytes)?;
    let dynamic_symbols = read_dynamic_symbol_table(bytes)?;
    let summary = ObjectSummary {
        format: header.format,
        architecture: header.architecture,
        kind: header.kind,
        entry: header.entry,
        section_names: header.section_names,
        section_elf_flags: header.section_elf_flags,
        symbols,
        dynamic_symbols,
    };
    assert(summary_view(summary).symbols == symbol_views(summary.symbols@));
    assert(summary_view(summary).section_names == header_v.section_names);
    Ok(summary)
}

/// One member of an archive: its name, whether its contents live in a
/// separate file, and its contents as stored in the archive (or why they
/// could not be read).
#[derive(Debug)]
pub struct ArchiveMemberRecord {
    pub name: Vec<u8>,
    pub thin: bool,
    pub data: Result<Vec<u8>, String>,
}

/// The plain view of an archive member.
pub struct MemberView {
    pub name: Seq<u8>,
    pub thin: bool,
    pub data: Result<Seq<u8>, Seq<char>>,
}

pub open spec fn member_view(member: ArchiveMemberRecord) -> MemberView {
    MemberView {
        name: member.name@,
        thin: member.thin,
        data: match member.data {
            Ok(bytes) => Ok(bytes@),
            Err(message) => Err(message@),
        },
    }
}

pub open spec fn member_outcome(member: Result<ArchiveMemberRecord, String>) -> Result<
    MemberView,
    Seq<char>,
> {
    match member {
        Ok(record) => Ok(member_view(record)),
        Err(message) => Err(message@),
    }
}

/// The outcome of reading an archive: its members in order (each, or the
/// reader's description of why it could not be read), or why the archive
/// could not be read at all.
pub open spec fn archive_outcome(result: Result<Vec<Result<ArchiveMemberRecord, String>>, String>) -> Result<
    Seq<Result<MemberView, Seq<char>>>,
    Seq<char>,
> {
    match result {
        Ok(members) => Ok(
            members@.map_values(
                |member: Result<ArchiveMemberRecord, String>| member_outcome(member),
            ),
        ),
        Err(message) => Err(message@),
    }
}

/// What the archive reader makes of `bytes`.
pub uninterp spec fn parsed_archive(bytes: Seq<u8>) -> Result<
    Seq<Result<MemberView, Seq<char>>>,
    Seq<char>,
>;

/// object's `ArchiveFile::parse` and its member iterator: the members of the
/// archive `bytes`, or the text of the parse error. The contract names the
/// result and says nothing of what the reader accepts.
#[verifier::external_body]
pub fn read_archive(bytes: &[u8]) -> (result: Result<Vec<Result<ArchiveMemberRecord, String>>, String>)
    ensures
        archive_outcome(result) == parsed_archive(bytes@),
{
    let archive = ArchiveFile::parse(bytes).map_err(|error| error.to_string())?;
    let record = |member: object::read::archive::ArchiveMember<'_>| ArchiveMemberRecord {
        name: member.name().to_vec(),
        thin: member.is_thin(),
        data: member.data(bytes).map(<[u8]>::to_vec).map_err(|error| error.to_string()),
    };
    Ok(archive.members().map(|member| member.map(record).map_err(|e| e.to_string())).collect())
}

/// std's `String::from_utf8_lossy` on `bytes`.
pub uninterp spec fn lossy_text(bytes: Seq<u8>) -> Seq<char>;

/// std's `String::from_utf8_lossy`.
#[verifier::external_body]
pub fn utf8_lossy(bytes: &[u8]) -> (result: String)
    ensures
        result@ == lossy_text(bytes@),
{
    String::from_utf8_lossy(bytes).into_owned()
}

} // verus!
