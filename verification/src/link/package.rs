//! The checks that a packaged relocatable object keeps what its verified
//! artifact bundle promised.

use vstd::prelude::*;

use crate::link::artifact::{
    GeneratedSymbol, GeneratedSymbolOwner, GeneratedSymbolVisibility, SymbolEntry,
    VerifiedArtifactBundle, bundle_check, entry_views, parse_relocatable, relocatable_check,
};
use crate::link::bridge::{bridge_generated, is_bridge_generated_symbol};
use crate::link::object_file::{
    ObjectFormat, ObjectSummary, SummaryView, SymbolCategory, SymbolReach, SymbolView,
    option_text, summary_view, symbol_view,
};
use crate::link::{LinkError, artifact_code, artifact_error};
use crate::text::{
    chars_of, concat2, concat3, concat4, decimal, lemma_text_lt_total, lemma_text_lt_transitive,
    push_decimal, push_str, str_eq, string_from_chars, text_le, text_less, text_lt,
};

verus! {

/* Symbol names and facts */

/// The C-level name of an object symbol: Mach-O drops its leading `_`.
pub open spec fn canonical_name(format: ObjectFormat, name: Seq<char>) -> Seq<char> {
    if format == ObjectFormat::MachO && name.len() > 0 && name[0] == '_' {
        name.drop_first()
    } else {
        name
    }
}

pub fn canonical_symbol_name(format: ObjectFormat, name: &str) -> (result: String)
    ensures
        result@ == canonical_name(format, name@),
{
    let chars = chars_of(name);
    if format == ObjectFormat::MachO && chars.len() > 0 && chars[0] == '_' {
        let mut rest: Vec<char> = Vec::new();
        let mut i: usize = 1;
        while i < chars.len()
            invariant
                1 <= i <= chars@.len(),
                rest@ == chars@.subrange(1, i as int),
            decreases chars.len() - i,
        {
            rest.push(chars[i]);
            i = i + 1;
            assert(rest@ =~= chars@.subrange(1, i as int));
        }
        assert(rest@ =~= name@.drop_first());
        string_from_chars(rest.as_slice())
    } else {
        name.to_owned()
    }
}

/// The ELF visibility of a symbol: the low bits of its `st_other` byte.
pub open spec fn elf_visibility(other: Option<u8>) -> Option<u8> {
    match other {
        Some(o) => Some(o & 3u8),
        None => None,
    }
}

fn elf_visibility_of(other: Option<u8>) -> (result: Option<u8>)
    ensures
        result == elf_visibility(other),
{
    match other {
        Some(o) => Some(o & 3u8),
        None => None,
    }
}

/// What the packaged object says of one defined symbol.
#[derive(Clone, Copy, Debug, PartialEq, Eq, Structural)]
pub struct PackagedFacts {
    pub scope: SymbolReach,
    pub category: SymbolCategory,
    pub weak: bool,
    pub visibility: Option<u8>,
}

pub open spec fn facts_of_symbol(symbol: SymbolView) -> PackagedFacts {
    PackagedFacts {
        scope: symbol.scope,
        category: symbol.category,
        weak: symbol.weak,
        visibility: elf_visibility(symbol.elf_other),
    }
}

/// Whether a symbol names a definition worth comparing: defined, and no file
/// or section symbol.
pub open spec fn compared_symbol(symbol: SymbolView) -> bool {
    !symbol.undefined && symbol.category != SymbolCategory::File && symbol.category
        != SymbolCategory::Section
}

/// The facts of the packaged object's definitions by C-level name; a later
/// entry of the same name replaces an earlier one.
pub open spec fn packaged_map(symbols: Seq<SymbolView>, format: ObjectFormat) -> Map<
    Seq<char>,
    PackagedFacts,
>
    decreases symbols.len(),
{
    if symbols.len() == 0 {
        Map::empty()
    } else {
        let earlier = packaged_map(symbols.drop_last(), format);
        let s = symbols.last();
        if compared_symbol(s) && s.name is Some && canonical_name(format, s.name->0).len() > 0 {
            earlier.insert(canonical_name(format, s.name->0), facts_of_symbol(s))
        } else {
            earlier
        }
    }
}

/* The checks, in order */

/// The first undefined symbol whose name lies in the compiler's namespace.
pub open spec fn retained_generated(symbols: Seq<SymbolView>, format: ObjectFormat, i: int) -> Option<
    Seq<char>,
>
    decreases symbols.len() - i,
{
    if i < 0 || i >= symbols.len() {
        None
    } else {
        let s = symbols[i];
        if s.undefined && s.name is Some && bridge_generated(canonical_name(format, s.name->0)) {
            Some(canonical_name(format, s.name->0))
        } else {
            retained_generated(symbols, format, i + 1)
        }
    }
}

pub open spec fn has_section(names: Seq<Option<Seq<char>>>, name: Seq<char>) -> bool {
    exists|i: int| 0 <= i < names.len() && #[trigger] names[i] == Some(name)
}

/// The index of the first section named `name` from `i` on.
pub open spec fn first_section(names: Seq<Option<Seq<char>>>, name: Seq<char>, i: int) -> Option<int>
    decreases names.len() - i,
{
    if i < 0 || i >= names.len() {
        None
    } else if names[i] == Some(name) {
        Some(i)
    } else {
        first_section(names, name, i + 1)
    }
}

/// The section problem of a packaged object that carries generated
/// assembly: no unwind tables, or (on ELF) no non-executable stack note.
pub open spec fn section_problem(view: SummaryView) -> Option<Seq<char>> {
    if !has_section(view.section_names, ".eh_frame"@) && !has_section(
        view.section_names,
        "__eh_frame"@,
    ) {
        Some("packaged bridge object is missing unwind information"@)
    } else if view.format == ObjectFormat::Elf {
        match first_section(view.section_names, ".note.GNU-stack"@, 0) {
            None => Some("packaged bridge object is missing `.note.GNU-stack`"@),
            Some(i) => if i < view.section_elf_flags.len() && view.section_elf_flags[i] is Some
                && view.section_elf_flags[i]->0 & 4u64 != 0 {
                Some("packaged bridge object requests an executable process stack"@)
            } else {
                None
            },
        }
    } else {
        None
    }
}

pub open spec fn startup_symbols() -> Seq<Seq<char>> {
    seq!["_start"@, "__libc_start_main"@, "__libc_csu_init"@, "__libc_csu_fini"@]
}

/// The first startup symbol that the partial link brought in.
pub open spec fn startup_problem(map: Map<Seq<char>, PackagedFacts>) -> Option<Seq<char>> {
    if exists|i: int| 0 <= i < 4 && map.contains_key(#[trigger] startup_symbols()[i]) {
        let i = choose|i: int|
            0 <= i < 4 && map.contains_key(#[trigger] startup_symbols()[i]) && forall|j: int|
                0 <= j < i ==> !map.contains_key(#[trigger] startup_symbols()[j]);
        Some("partial linking unexpectedly introduced startup symbol `"@ + startup_symbols()[i] + "`"@)
    } else {
        None
    }
}

pub open spec fn manifest_names(entries: Seq<SymbolEntry>) -> Set<Seq<char>> {
    Set::new(|n: Seq<char>| exists|k: int| 0 <= k < entries.len() && #[trigger] entries[k].name == n)
}

/// A generated name that the packaged object defines but the manifest
/// does not list.
pub open spec fn unmanifested(
    map: Map<Seq<char>, PackagedFacts>,
    entries: Seq<SymbolEntry>,
    name: Seq<char>,
) -> bool {
    map.contains_key(name) && bridge_generated(name) && !manifest_names(entries).contains(name)
}

/// The least unmanifested generated name, in byte order.
pub open spec fn unmanifested_problem(
    map: Map<Seq<char>, PackagedFacts>,
    entries: Seq<SymbolEntry>,
) -> Option<Seq<char>> {
    if exists|name: Seq<char>| unmanifested(map, entries, name) {
        let least = choose|name: Seq<char>|
            unmanifested(map, entries, name) && forall|other: Seq<char>|
                unmanifested(map, entries, other) ==> text_le(name, other);
        Some("packaged object contains unmanifested generated symbol `"@ + least + "`"@)
    } else {
        None
    }
}

/// Whether a symbol's binding is local in the object's format.
pub open spec fn still_global(format: ObjectFormat, scope: SymbolReach) -> bool {
    if format == ObjectFormat::MachO {
        scope == SymbolReach::Dynamic
    } else {
        scope != SymbolReach::Compilation
    }
}

/// What is wrong with one manifest symbol in the packaged object.
pub open spec fn entry_problem(
    map: Map<Seq<char>, PackagedFacts>,
    entry: SymbolEntry,
    format: ObjectFormat,
    localized: bool,
) -> Option<Seq<char>> {
    let name = entry.name;
    let v = entry.visibility;
    if !map.contains_key(name) {
        Some("packaged object does not define manifest symbol `"@ + name + "`"@)
    } else if !localized {
        None
    } else {
        let facts = map[name];
        if v == GeneratedSymbolVisibility::Internal && still_global(format, facts.scope) {
            Some("generated symbol `"@ + name + "` was not localized"@)
        } else if v == GeneratedSymbolVisibility::SourceInternal && still_global(
            format,
            facts.scope,
        ) {
            Some("source-internal symbol `"@ + name + "` did not retain local binding"@)
        } else if (v == GeneratedSymbolVisibility::Public || v
            == GeneratedSymbolVisibility::SourceHidden || v
            == GeneratedSymbolVisibility::SourceProtected || v
            == GeneratedSymbolVisibility::SourceElfInternal) && facts.scope
            == SymbolReach::Compilation {
            Some("externally linked symbol `"@ + name + "` was unexpectedly localized"@)
        } else if format == ObjectFormat::Elf && v == GeneratedSymbolVisibility::SourceHidden
            && facts.visibility != Some(2u8) {
            Some("source-hidden symbol `"@ + name + "` lost hidden ELF visibility"@)
        } else if format == ObjectFormat::Elf && v == GeneratedSymbolVisibility::SourceProtected
            && facts.visibility != Some(3u8) {
            Some("source-protected symbol `"@ + name + "` lost protected ELF visibility"@)
        } else if format == ObjectFormat::Elf && v == GeneratedSymbolVisibility::SourceElfInternal
            && facts.visibility != Some(1u8) {
            Some("source-internal-visibility symbol `"@ + name + "` lost internal ELF visibility"@)
        } else if format == ObjectFormat::Elf && v == GeneratedSymbolVisibility::Public
            && !(facts.visibility == None::<u8> || facts.visibility == Some(0u8)) {
            Some("public symbol `"@ + name + "` unexpectedly has non-default ELF visibility"@)
        } else {
            None
        }
    }
}

/// The first manifest symbol with a problem, in manifest order.
pub open spec fn manifest_problem(
    map: Map<Seq<char>, PackagedFacts>,
    entries: Seq<SymbolEntry>,
    format: ObjectFormat,
    localized: bool,
    k: int,
) -> Option<Seq<char>>
    decreases entries.len() - k,
{
    if k < 0 || k >= entries.len() {
        None
    } else {
        match entry_problem(map, entries[k], format, localized) {
            Some(message) => Some(message),
            None => manifest_problem(map, entries, format, localized, k + 1),
        }
    }
}

/// The spelling std's `Debug` gives a symbol kind.
pub open spec fn category_name(category: SymbolCategory) -> Seq<char> {
    match category {
        SymbolCategory::Unknown => "Unknown"@,
        SymbolCategory::Text => "Text"@,
        SymbolCategory::Data => "Data"@,
        SymbolCategory::Section => "Section"@,
        SymbolCategory::File => "File"@,
        SymbolCategory::Label => "Label"@,
        SymbolCategory::Tls => "Tls"@,
        SymbolCategory::Other => "Other"@,
    }
}

/// The spelling std's `Debug` gives an optional visibility.
pub open spec fn visibility_text(visibility: Option<u8>) -> Seq<char> {
    match visibility {
        Some(v) => "Some("@ + decimal(v as nat) + ")"@,
        None => "None"@,
    }
}

pub open spec fn bool_text(b: bool) -> Seq<char> {
    if b {
        "true"@
    } else {
        "false"@
    }
}

pub open spec fn visibility_or_default(visibility: Option<u8>) -> u8 {
    match visibility {
        Some(v) => v,
        None => 0,
    }
}

/// The primary object's definition was localized on purpose: the manifest
/// lists it as an internal symbol of the primary object.
pub open spec fn intentionally_localized(entries: Seq<SymbolEntry>, name: Seq<char>) -> bool {
    exists|k: int|
        0 <= k < entries.len() && #[trigger] entries[k].name == name && entries[k].owner is None
            && entries[k].visibility == GeneratedSymbolVisibility::Internal
}

/// What is wrong with one primary-object symbol after the partial link.
pub open spec fn primary_symbol_problem(
    map: Map<Seq<char>, PackagedFacts>,
    entries: Seq<SymbolEntry>,
    symbol: SymbolView,
    format: ObjectFormat,
) -> Option<Seq<char>> {
    if !compared_symbol(symbol) || symbol.name is None || canonical_name(
        format,
        symbol.name->0,
    ).len() == 0 {
        None
    } else {
        let name = canonical_name(format, symbol.name->0);
        if !map.contains_key(name) {
            Some("partial linking discarded primary-object symbol `"@ + name + "`"@)
        } else {
            let packaged = map[name];
            let own = elf_visibility(symbol.elf_other);
            if packaged.category != symbol.category || packaged.weak != symbol.weak
                || visibility_or_default(packaged.visibility) != visibility_or_default(own) {
                Some(
                    "partial linking changed the kind, weak binding, or visibility of primary-object symbol `"@
                        + name + "`: primary=("@ + category_name(symbol.category) + ", weak="@
                        + bool_text(symbol.weak) + ", visibility="@ + visibility_text(own)
                        + "), packaged=("@ + category_name(packaged.category) + ", weak="@
                        + bool_text(packaged.weak) + ", visibility="@ + visibility_text(
                        packaged.visibility,
                    ) + ")"@,
                )
            } else if !intentionally_localized(entries, name) && packaged.scope != symbol.scope {
                Some("partial linking changed the binding of primary-object symbol `"@ + name + "`"@)
            } else {
                None
            }
        }
    }
}

/// The first primary-object symbol with a problem, in symbol order.
pub open spec fn primary_problem(
    map: Map<Seq<char>, PackagedFacts>,
    entries: Seq<SymbolEntry>,
    symbols: Seq<SymbolView>,
    format: ObjectFormat,
    i: int,
) -> Option<Seq<char>>
    decreases symbols.len() - i,
{
    if i < 0 || i >= symbols.len() {
        None
    } else {
        match primary_symbol_problem(map, entries, symbols[i], format) {
            Some(message) => Some(message),
            None => primary_problem(map, entries, symbols, format, i + 1),
        }
    }
}

/// The outcome of inspecting the packaged object `bytes` against the
/// bundle's manifest (`entries`), primary object and need for assembly.
pub open spec fn combined_check(
    bytes: Seq<u8>,
    entries: Seq<SymbolEntry>,
    primary_object: Seq<u8>,
    needs_tools: bool,
    localized: bool,
) -> Result<(), Seq<char>> {
    match relocatable_check(bytes, "packaged object"@) {
        Err(message) => Err(message),
        Ok(view) => {
            let map = packaged_map(view.symbols, view.format);
            match retained_generated(view.symbols, view.format, 0) {
                Some(name) => Err(
                    "packaged object retains unresolved generated symbol `"@ + name + "`"@,
                ),
                None => if needs_tools && section_problem(view) is Some {
                    Err(section_problem(view)->0)
                } else if startup_problem(map) is Some {
                    Err(startup_problem(map)->0)
                } else if unmanifested_problem(map, entries) is Some {
                    Err(unmanifested_problem(map, entries)->0)
                } else if manifest_problem(map, entries, view.format, localized, 0) is Some {
                    Err(manifest_problem(map, entries, view.format, localized, 0)->0)
                } else {
                    match relocatable_check(primary_object, "primary object"@) {
                        Err(message) => Err(message),
                        Ok(primary) => match primary_problem(
                            map,
                            entries,
                            primary.symbols,
                            primary.format,
                            0,
                        ) {
                            Some(message) => Err(message),
                            None => Ok(()),
                        },
                    }
                },
            }
        },
    }
}

} // verus!

verus! {

/* The packaged symbol table */

pub open spec fn pair_views(entries: Seq<(String, PackagedFacts)>) -> Seq<(Seq<char>, PackagedFacts)> {
    entries.map_values(|entry: (String, PackagedFacts)| (entry.0@, entry.1))
}

/// The map of name-fact pairs, later pairs replacing earlier ones.
pub open spec fn pair_map(pairs: Seq<(Seq<char>, PackagedFacts)>) -> Map<Seq<char>, PackagedFacts>
    decreases pairs.len(),
{
    if pairs.len() == 0 {
        Map::empty()
    } else {
        pair_map(pairs.drop_last()).insert(pairs.last().0, pairs.last().1)
    }
}

proof fn lemma_pair_map_last(pairs: Seq<(Seq<char>, PackagedFacts)>, name: Seq<char>, j: int)
    requires
        0 <= j < pairs.len(),
        pairs[j].0 == name,
        forall|k: int| j < k < pairs.len() ==> #[trigger] pairs[k].0 != name,
    ensures
        pair_map(pairs).contains_key(name),
        pair_map(pairs)[name] == pairs[j].1,
    decreases pairs.len(),
{
    if j < pairs.len() - 1 {
        let rest = pairs.drop_last();
        assert forall|k: int| j < k < rest.len() implies #[trigger] rest[k].0 != name by {
            assert(rest[k] == pairs[k]);
        }
        lemma_pair_map_last(rest, name, j);
        assert(pairs[pairs.len() - 1].0 != name);
    }
}

proof fn lemma_pair_map_keys(pairs: Seq<(Seq<char>, PackagedFacts)>, name: Seq<char>)
    ensures
        pair_map(pairs).contains_key(name) <==> exists|k: int|
            0 <= k < pairs.len() && #[trigger] pairs[k].0 == name,
    decreases pairs.len(),
{
    if pairs.len() > 0 {
        let rest = pairs.drop_last();
        lemma_pair_map_keys(rest, name);
        if exists|k: int| 0 <= k < rest.len() && #[trigger] rest[k].0 == name {
            let k = choose|k: int| 0 <= k < rest.len() && #[trigger] rest[k].0 == name;
            assert(pairs[k] == rest[k]);
        }
        if exists|k: int| 0 <= k < pairs.len() && #[trigger] pairs[k].0 == name {
            let k = choose|k: int| 0 <= k < pairs.len() && #[trigger] pairs[k].0 == name;
            if k < rest.len() {
                assert(rest[k] == pairs[k]);
            }
        }
    }
}

fn packaged_entries(summary: &ObjectSummary) -> (result: Vec<(String, PackagedFacts)>)
    ensures
        pair_map(pair_views(result@)) == packaged_map(
            summary_view(*summary).symbols,
            summary.format,
        ),
{
    let ghost symbols = summary_view(*summary).symbols;
    let mut entries: Vec<(String, PackagedFacts)> = Vec::new();
    let mut i: usize = 0;
    assert(symbols.take(0) =~= Seq::<SymbolView>::empty());
    assert(pair_views(entries@) =~= Seq::<(Seq<char>, PackagedFacts)>::empty());
    while i < summary.symbols.len()
        invariant
            i <= summary.symbols@.len(),
            symbols == summary_view(*summary).symbols,
            pair_map(pair_views(entries@)) == packaged_map(symbols.take(i as int), summary.format),
        decreases summary.symbols.len() - i,
    {
        let symbol = &summary.symbols[i];
        assert(symbols.take(i + 1).drop_last() =~= symbols.take(i as int));
        assert(symbols.take(i + 1).last() == symbol_view(*symbol));
        if !symbol.undefined && symbol.category != SymbolCategory::File && symbol.category
            != SymbolCategory::Section {
            if let Some(name) = &symbol.name {
                let canonical = canonical_symbol_name(summary.format, name.as_str());
                if chars_of(canonical.as_str()).len() > 0 {
                    let facts = PackagedFacts {
                        scope: symbol.scope,
                        category: symbol.category,
                        weak: symbol.weak,
                        visibility: elf_visibility_of(symbol.elf_other),
                    };
                    let ghost before = entries@;
                    entries.push((canonical, facts));
                    assert(pair_views(entries@).drop_last() =~= pair_views(before));
                }
            }
        }
        i = i + 1;
    }
    assert(symbols.take(i as int) =~= symbols);
    entries
}

/// The facts recorded last under `name`.
fn lookup(entries: &Vec<(String, PackagedFacts)>, name: &str) -> (result: Option<PackagedFacts>)
    ensures
        match result {
            Some(facts) => pair_map(pair_views(entries@)).contains_key(name@) && pair_map(
                pair_views(entries@),
            )[name@] == facts,
            None => !pair_map(pair_views(entries@)).contains_key(name@),
        },
{
    let ghost pairs = pair_views(entries@);
    let mut i = entries.len();
    while i > 0
        invariant
            i <= entries@.len(),
            pairs == pair_views(entries@),
            forall|k: int| i <= k < pairs.len() ==> #[trigger] pairs[k].0 != name@,
        decreases i,
    {
        i = i - 1;
        if str_eq(entries[i].0.as_str(), name) {
            proof {
                lemma_pair_map_last(pairs, name@, i as int);
            }
            return Some(entries[i].1);
        }
    }
    proof {
        lemma_pair_map_keys(pairs, name@);
    }
    None
}

fn has_section_named(summary: &ObjectSummary, name: &str) -> (result: Option<usize>)
    ensures
        first_section(summary_view(*summary).section_names, name@, 0) == match result {
            Some(i) => Some(i as int),
            None => None::<int>,
        },
        result is None <==> !has_section(summary_view(*summary).section_names, name@),
        result matches Some(i) ==> i < summary.section_names@.len(),
{
    let ghost names = summary_view(*summary).section_names;
    let mut i: usize = 0;
    while i < summary.section_names.len()
        invariant
            i <= summary.section_names@.len(),
            names == summary_view(*summary).section_names,
            first_section(names, name@, 0) == first_section(names, name@, i as int),
            forall|j: int| 0 <= j < i ==> #[trigger] names[j] != Some(name@),
        decreases summary.section_names.len() - i,
    {
        let matches = match &summary.section_names[i] {
            Some(section) => str_eq(section.as_str(), name),
            None => false,
        };
        if matches {
            assert(names[i as int] == Some(name@));
            return Some(i);
        }
        i = i + 1;
    }
    None
}

} // verus!

verus! {

fn find_retained(summary: &ObjectSummary) -> (result: Option<String>)
    ensures
        option_text(result) == retained_generated(summary_view(*summary).symbols, summary.format, 0),
{
    let ghost symbols = summary_view(*summary).symbols;
    let mut i: usize = 0;
    while i < summary.symbols.len()
        invariant
            i <= summary.symbols@.len(),
            symbols == summary_view(*summary).symbols,
            retained_generated(symbols, summary.format, 0) == retained_generated(
                symbols,
                summary.format,
                i as int,
            ),
        decreases summary.symbols.len() - i,
    {
        let symbol = &summary.symbols[i];
        assert(symbols[i as int] == symbol_view(*symbol));
        if symbol.undefined {
            if let Some(name) = &symbol.name {
                let canonical = canonical_symbol_name(summary.format, name.as_str());
                if is_bridge_generated_symbol(canonical.as_str()) {
                    return Some(canonical);
                }
            }
        }
        i = i + 1;
    }
    None
}

fn check_sections(summary: &ObjectSummary) -> (result: Option<String>)
    ensures
        option_text(result) == section_problem(summary_view(*summary)),
{
    if has_section_named(summary, ".eh_frame").is_none() && has_section_named(
        summary,
        "__eh_frame",
    ).is_none() {
        return Some("packaged bridge object is missing unwind information".to_owned());
    }
    if summary.format == ObjectFormat::Elf {
        match has_section_named(summary, ".note.GNU-stack") {
            None => {
                return Some("packaged bridge object is missing `.note.GNU-stack`".to_owned());
            },
            Some(i) => {
                if i < summary.section_elf_flags.len() {
                    if let Some(flags) = summary.section_elf_flags[i] {
                        if flags & 4u64 != 0 {
                            return Some(
                                "packaged bridge object requests an executable process stack".to_owned(),
                            );
                        }
                    }
                }
            },
        }
    }
    None
}

fn find_startup(entries: &Vec<(String, PackagedFacts)>) -> (result: Option<String>)
    ensures
        option_text(result) == startup_problem(pair_map(pair_views(entries@))),
{
    let ghost map = pair_map(pair_views(entries@));
    let names: [&str; 4] = ["_start", "__libc_start_main", "__libc_csu_init", "__libc_csu_fini"];
    assert(names@.map_values(|n: &str| n@) =~= startup_symbols());
    let mut i: usize = 0;
    while i < 4
        invariant
            i <= 4,
            map == pair_map(pair_views(entries@)),
            names@.map_values(|n: &str| n@) == startup_symbols(),
            forall|j: int| 0 <= j < i ==> !map.contains_key(#[trigger] startup_symbols()[j]),
        decreases 4 - i,
    {
        assert(startup_symbols()[i as int] == names@[i as int]@);
        if lookup(entries, names[i]).is_some() {
            proof {
                let chosen = choose|c: int|
                    0 <= c < 4 && map.contains_key(#[trigger] startup_symbols()[c]) && forall|j: int|
                        0 <= j < c ==> !map.contains_key(#[trigger] startup_symbols()[j]);
                assert(map.contains_key(startup_symbols()[i as int]));
                if chosen < i {
                } else if chosen > i {
                    assert(!map.contains_key(startup_symbols()[i as int]));
                }
            }
            return Some(concat3(
                "partial linking unexpectedly introduced startup symbol `",
                names[i],
                "`",
            ));
        }
        i = i + 1;
    }
    None
}

fn in_manifest(symbols: &[GeneratedSymbol], name: &str) -> (result: bool)
    ensures
        result == manifest_names(entry_views(symbols@)).contains(name@),
{
    let ghost entries = entry_views(symbols@);
    let mut k: usize = 0;
    while k < symbols.len()
        invariant
            k <= symbols@.len(),
            entries == entry_views(symbols@),
            forall|j: int| 0 <= j < k ==> #[trigger] entries[j].name != name@,
        decreases symbols.len() - k,
    {
        assert(entries[k as int].name == symbols@[k as int].name@);
        if str_eq(symbols[k].name.as_str(), name) {
            return true;
        }
        k = k + 1;
    }
    false
}

fn find_unmanifested(entries: &Vec<(String, PackagedFacts)>, symbols: &[GeneratedSymbol]) -> (result:
    Option<String>)
    ensures
        option_text(result) == unmanifested_problem(
            pair_map(pair_views(entries@)),
            entry_views(symbols@),
        ),
{
    let ghost pairs = pair_views(entries@);
    let ghost map = pair_map(pairs);
    let ghost manifest = entry_views(symbols@);
    let mut least: Option<String> = None;
    let mut k: usize = 0;
    while k < entries.len()
        invariant
            k <= entries@.len(),
            pairs == pair_views(entries@),
            map == pair_map(pairs),
            manifest == entry_views(symbols@),
            least matches Some(l) ==> unmanifested(map, manifest, l@),
            forall|m: int|
                0 <= m < k && unmanifested(map, manifest, #[trigger] pairs[m].0) ==> least is Some
                    && text_le(least->Some_0@, pairs[m].0),
        decreases entries.len() - k,
    {
        let name = entries[k].0.as_str();
        assert(pairs[k as int].0 == name@);
        proof {
            lemma_pair_map_keys(pairs, name@);
        }
        if is_bridge_generated_symbol(name) && !in_manifest(symbols, name) {
            let replace = match &least {
                None => true,
                Some(current) => text_less(name, current.as_str()),
            };
            if replace {
                proof {
                    assert forall|m: int|
                        0 <= m < k && unmanifested(map, manifest, #[trigger] pairs[m].0) implies text_le(
                        name@,
                        pairs[m].0,
                    ) by {
                        let l = least->Some_0@;
                        if text_lt(l, pairs[m].0) {
                            lemma_text_lt_transitive(name@, l, pairs[m].0);
                        }
                    }
                }
                least = Some(entries[k].0.clone());
            } else {
                proof {
                    lemma_text_lt_total(least->Some_0@, name@);
                }
            }
        }
        k = k + 1;
    }
    proof {
        assert forall|other: Seq<char>| unmanifested(map, manifest, other) implies least is Some
            && text_le(least->Some_0@, other) by {
            lemma_pair_map_keys(pairs, other);
            let m = choose|m: int| 0 <= m < pairs.len() && #[trigger] pairs[m].0 == other;
        }
    }
    match least {
        None => None,
        Some(name) => {
            proof {
                let l = name@;
                let chosen = choose|n: Seq<char>|
                    unmanifested(map, manifest, n) && forall|other: Seq<char>|
                        unmanifested(map, manifest, other) ==> text_le(n, other);
                assert(text_le(chosen, l));
                assert(text_le(l, chosen));
                if chosen != l {
                    crate::text::lemma_text_lt_asymmetric(chosen, l);
                }
            }
            Some(concat3("packaged object contains unmanifested generated symbol `", name.as_str(), "`"))
        },
    }
}

} // verus!

verus! {

fn visibility_is(v: GeneratedSymbolVisibility, w: GeneratedSymbolVisibility) -> (result: bool)
    ensures
        result == (v == w),
{
    v == w
}

fn still_global_exec(format: ObjectFormat, scope: SymbolReach) -> (result: bool)
    ensures
        result == still_global(format, scope),
{
    if format == ObjectFormat::MachO {
        scope == SymbolReach::Dynamic
    } else {
        scope != SymbolReach::Compilation
    }
}

fn check_entry(
    entries: &Vec<(String, PackagedFacts)>,
    symbol: &GeneratedSymbol,
    format: ObjectFormat,
    localized: bool,
) -> (result: Option<String>)
    ensures
        option_text(result) == entry_problem(
            pair_map(pair_views(entries@)),
            crate::link::artifact::entry_view(*symbol),
            format,
            localized,
        ),
{
    let name = symbol.name.as_str();
    let facts = match lookup(entries, name) {
        None => {
            return Some(concat3("packaged object does not define manifest symbol `", name, "`"));
        },
        Some(facts) => facts,
    };
    if !localized {
        return None;
    }
    let v = symbol.visibility;
    if visibility_is(v, GeneratedSymbolVisibility::Internal) && still_global_exec(format, facts.scope) {
        return Some(concat3("generated symbol `", name, "` was not localized"));
    }
    if visibility_is(v, GeneratedSymbolVisibility::SourceInternal) && still_global_exec(
        format,
        facts.scope,
    ) {
        return Some(concat3("source-internal symbol `", name, "` did not retain local binding"));
    }
    if (visibility_is(v, GeneratedSymbolVisibility::Public) || visibility_is(
        v,
        GeneratedSymbolVisibility::SourceHidden,
    ) || visibility_is(v, GeneratedSymbolVisibility::SourceProtected) || visibility_is(
        v,
        GeneratedSymbolVisibility::SourceElfInternal,
    )) && facts.scope == SymbolReach::Compilation {
        return Some(concat3("externally linked symbol `", name, "` was unexpectedly localized"));
    }
    let elf = format == ObjectFormat::Elf;
    if elf && visibility_is(v, GeneratedSymbolVisibility::SourceHidden) && facts.visibility != Some(
        2u8,
    ) {
        return Some(concat3("source-hidden symbol `", name, "` lost hidden ELF visibility"));
    }
    if elf && visibility_is(v, GeneratedSymbolVisibility::SourceProtected) && facts.visibility
        != Some(3u8) {
        return Some(concat3("source-protected symbol `", name, "` lost protected ELF visibility"));
    }
    if elf && visibility_is(v, GeneratedSymbolVisibility::SourceElfInternal) && facts.visibility
        != Some(1u8) {
        return Some(
            concat3("source-internal-visibility symbol `", name, "` lost internal ELF visibility"),
        );
    }
    if elf && visibility_is(v, GeneratedSymbolVisibility::Public) && !(facts.visibility.is_none()
        || facts.visibility == Some(0u8)) {
        return Some(
            concat3("public symbol `", name, "` unexpectedly has non-default ELF visibility"),
        );
    }
    None
}

fn find_manifest_problem(
    entries: &Vec<(String, PackagedFacts)>,
    symbols: &[GeneratedSymbol],
    format: ObjectFormat,
    localized: bool,
) -> (result: Option<String>)
    ensures
        option_text(result) == manifest_problem(
            pair_map(pair_views(entries@)),
            entry_views(symbols@),
            format,
            localized,
            0,
        ),
{
    let ghost map = pair_map(pair_views(entries@));
    let ghost manifest = entry_views(symbols@);
    let mut k: usize = 0;
    while k < symbols.len()
        invariant
            k <= symbols@.len(),
            map == pair_map(pair_views(entries@)),
            manifest == entry_views(symbols@),
            manifest_problem(map, manifest, format, localized, 0) == manifest_problem(
                map,
                manifest,
                format,
                localized,
                k as int,
            ),
        decreases symbols.len() - k,
    {
        assert(manifest[k as int] == crate::link::artifact::entry_view(symbols@[k as int]));
        if let Some(message) = check_entry(entries, &symbols[k], format, localized) {
            return Some(message);
        }
        k = k + 1;
    }
    None
}

fn primary_localized(symbols: &[GeneratedSymbol], name: &str) -> (result: bool)
    ensures
        result == intentionally_localized(entry_views(symbols@), name@),
{
    let ghost manifest = entry_views(symbols@);
    let mut k: usize = 0;
    while k < symbols.len()
        invariant
            k <= symbols@.len(),
            manifest == entry_views(symbols@),
            forall|j: int|
                0 <= j < k ==> !(#[trigger] manifest[j].name == name@ && manifest[j].owner is None
                    && manifest[j].visibility == GeneratedSymbolVisibility::Internal),
        decreases symbols.len() - k,
    {
        let symbol = &symbols[k];
        assert(manifest[k as int] == crate::link::artifact::entry_view(*symbol));
        let primary = match &symbol.owner {
            GeneratedSymbolOwner::PrimaryObject => true,
            GeneratedSymbolOwner::AssemblyUnit(_) => false,
        };
        if primary && visibility_is(symbol.visibility, GeneratedSymbolVisibility::Internal)
            && str_eq(symbol.name.as_str(), name) {
            assert(manifest[k as int].owner is None);
            assert(manifest[k as int].name == name@);
            return true;
        }
        k = k + 1;
    }
    false
}

fn push_visibility(output: &mut Vec<char>, visibility: Option<u8>)
    ensures
        final(output)@ == old(output)@ + visibility_text(visibility),
{
    match visibility {
        Some(v) => {
            push_str(output, "Some(");
            push_decimal(output, v as u64);
            push_str(output, ")");
        },
        None => push_str(output, "None"),
    }
}

fn category_text(category: SymbolCategory) -> (result: &'static str)
    ensures
        result@ == category_name(category),
{
    match category {
        SymbolCategory::Unknown => "Unknown",
        SymbolCategory::Text => "Text",
        SymbolCategory::Data => "Data",
        SymbolCategory::Section => "Section",
        SymbolCategory::File => "File",
        SymbolCategory::Label => "Label",
        SymbolCategory::Tls => "Tls",
        SymbolCategory::Other => "Other",
    }
}

fn bool_word(b: bool) -> (result: &'static str)
    ensures
        result@ == bool_text(b),
{
    if b {
        "true"
    } else {
        "false"
    }
}

fn changed_symbol_message(
    name: &str,
    category: SymbolCategory,
    weak: bool,
    visibility: Option<u8>,
    packaged: PackagedFacts,
) -> (result: String)
    ensures
        result@ == "partial linking changed the kind, weak binding, or visibility of primary-object symbol `"@
            + name@ + "`: primary=("@ + category_name(category) + ", weak="@ + bool_text(weak)
            + ", visibility="@ + visibility_text(visibility) + "), packaged=("@ + category_name(
            packaged.category,
        ) + ", weak="@ + bool_text(packaged.weak) + ", visibility="@ + visibility_text(
            packaged.visibility,
        ) + ")"@,
{
    let mut m: Vec<char> = Vec::new();
    push_str(
        &mut m,
        "partial linking changed the kind, weak binding, or visibility of primary-object symbol `",
    );
    push_str(&mut m, name);
    push_str(&mut m, "`: primary=(");
    push_str(&mut m, category_text(category));
    push_str(&mut m, ", weak=");
    push_str(&mut m, bool_word(weak));
    push_str(&mut m, ", visibility=");
    push_visibility(&mut m, visibility);
    push_str(&mut m, "), packaged=(");
    push_str(&mut m, category_text(packaged.category));
    push_str(&mut m, ", weak=");
    push_str(&mut m, bool_word(packaged.weak));
    push_str(&mut m, ", visibility=");
    push_visibility(&mut m, packaged.visibility);
    push_str(&mut m, ")");
    string_from_chars(m.as_slice())
}

fn find_primary_problem(
    entries: &Vec<(String, PackagedFacts)>,
    symbols: &[GeneratedSymbol],
    primary: &ObjectSummary,
) -> (result: Option<String>)
    ensures
        option_text(result) == primary_problem(
            pair_map(pair_views(entries@)),
            entry_views(symbols@),
            summary_view(*primary).symbols,
            primary.format,
            0,
        ),
{
    let ghost map = pair_map(pair_views(entries@));
    let ghost manifest = entry_views(symbols@);
    let ghost view = summary_view(*primary).symbols;
    let mut i: usize = 0;
    while i < primary.symbols.len()
        invariant
            i <= primary.symbols@.len(),
            map == pair_map(pair_views(entries@)),
            manifest == entry_views(symbols@),
            view == summary_view(*primary).symbols,
            primary_problem(map, manifest, view, primary.format, 0) == primary_problem(
                map,
                manifest,
                view,
                primary.format,
                i as int,
            ),
        decreases primary.symbols.len() - i,
    {
        let symbol = &primary.symbols[i];
        assert(view[i as int] == symbol_view(*symbol));
        if !symbol.undefined && symbol.category != SymbolCategory::File && symbol.category
            != SymbolCategory::Section {
            if let Some(raw) = &symbol.name {
                let name = canonical_symbol_name(primary.format, raw.as_str());
                if chars_of(name.as_str()).len() > 0 {
                    let packaged = match lookup(entries, name.as_str()) {
                        None => {
                            return Some(concat3(
                                "partial linking discarded primary-object symbol `",
                                name.as_str(),
                                "`",
                            ));
                        },
                        Some(facts) => facts,
                    };
                    let own = elf_visibility_of(symbol.elf_other);
                    let packaged_visibility = match packaged.visibility {
                        Some(v) => v,
                        None => 0u8,
                    };
                    let own_visibility = match own {
                        Some(v) => v,
                        None => 0u8,
                    };
                    if packaged.category != symbol.category || packaged.weak != symbol.weak
                        || packaged_visibility != own_visibility {
                        return Some(
                            changed_symbol_message(
                                name.as_str(),
                                symbol.category,
                                symbol.weak,
                                own,
                                packaged,
                            ),
                        );
                    }
                    if !primary_localized(symbols, name.as_str()) && packaged.scope != symbol.scope {
                        return Some(concat3(
                            "partial linking changed the binding of primary-object symbol `",
                            name.as_str(),
                            "`",
                        ));
                    }
                }
            }
        }
        i = i + 1;
    }
    None
}

/// Inspects the packaged object read from `path` (its contents, or the
/// reader's message) against the verified bundle it packages: `localized`
/// says whether symbol localization has run.
pub fn inspect_combined_object(
    path: &str,
    contents: &Result<Vec<u8>, String>,
    bundle: &VerifiedArtifactBundle,
    localized: bool,
) -> (result: Result<(), LinkError>)
    ensures
        match contents {
            Err(error) => result matches Err(e) && e.message@ == "cannot read packaged object `"@
                + path@ + "`: "@ + error@,
            Ok(bytes) => match combined_check(
                bytes@,
                bundle.bundle().manifest_view().entries(),
                bundle.bundle().primary_view(),
                bundle.bundle().assemblies_view().len() > 0,
                localized,
            ) {
                Ok(()) => result is Ok,
                Err(message) => result matches Err(e) && e.message@ == message,
            },
        },
        result matches Err(e) ==> e.code@ == artifact_code(),
{
    let bytes = match contents {
        Err(error) => {
            return Err(artifact_error(concat4(
                "cannot read packaged object `",
                path,
                "`: ",
                error.as_str(),
            )));
        },
        Ok(bytes) => bytes,
    };
    let summary = parse_relocatable(bytes.as_slice(), "packaged object")?;
    if let Some(name) = find_retained(&summary) {
        return Err(artifact_error(concat3(
            "packaged object retains unresolved generated symbol `",
            name.as_str(),
            "`",
        )));
    }
    let entries = packaged_entries(&summary);
    if bundle.needs_packaging_tools() {
        if let Some(message) = check_sections(&summary) {
            return Err(artifact_error(message));
        }
    }
    if let Some(message) = find_startup(&entries) {
        return Err(artifact_error(message));
    }
    let manifest = bundle.manifest();
    let symbols = manifest.symbols();
    if let Some(message) = find_unmanifested(&entries, symbols) {
        return Err(artifact_error(message));
    }
    if let Some(message) = find_manifest_problem(&entries, symbols, summary.format, localized) {
        return Err(artifact_error(message));
    }
    let primary = parse_relocatable(bundle.primary_object(), "primary object")?;
    if let Some(message) = find_primary_problem(&entries, symbols, &primary) {
        return Err(artifact_error(message));
    }
    Ok(())
}

} // verus!

verus! {

/// Checks that the object read from `path` is an enabled relocatable one.
pub fn inspect_path(path: &str, description: &str, contents: &Result<Vec<u8>, String>) -> (result:
    Result<(), LinkError>)
    ensures
        match contents {
            Err(error) => result matches Err(e) && e.message@ == "cannot read "@ + description@
                + " `"@ + path@ + "`: "@ + error@,
            Ok(bytes) => match relocatable_check(bytes@, description@) {
                Ok(_) => result is Ok,
                Err(message) => result matches Err(e) && e.message@ == message,
            },
        },
        result matches Err(e) ==> e.code@ == artifact_code(),
{
    match contents {
        Err(error) => {
            let mut m: Vec<char> = Vec::new();
            push_str(&mut m, "cannot read ");
            push_str(&mut m, description);
            push_str(&mut m, " `");
            push_str(&mut m, path);
            push_str(&mut m, "`: ");
            push_str(&mut m, error.as_str());
            Err(artifact_error(string_from_chars(m.as_slice())))
        },
        Ok(bytes) => {
            parse_relocatable(bytes.as_slice(), description)?;
            Ok(())
        },
    }
}

/// Whether a section name marks debug metadata that records build paths.
pub open spec fn debug_section(name: Seq<char>) -> bool {
    name == ".gdb_index"@ || crate::text::has_prefix(name, ".debug"@)
}

/// What is wrong with a generated bridge object: a file symbol, or debug
/// metadata.
pub open spec fn bridge_object_problem(view: SummaryView) -> Option<Seq<char>> {
    if exists|i: int|
        0 <= i < view.symbols.len() && (#[trigger] view.symbols[i]).category
            == SymbolCategory::File {
        Some("generated bridge object contains an assembler file symbol"@)
    } else if exists|i: int|
        0 <= i < view.section_names.len() && #[trigger] view.section_names[i] is Some
            && debug_section(view.section_names[i]->0) {
        Some("generated bridge object contains path-sensitive debug metadata"@)
    } else {
        None
    }
}

/// Checks an object assembled from generated assembly: relocatable, with no
/// assembler file symbol and no path-sensitive debug sections.
#[verifier::loop_isolation(false)]
pub fn inspect_generated_bridge_object(path: &str, contents: &Result<Vec<u8>, String>) -> (result:
    Result<(), LinkError>)
    ensures
        match contents {
            Err(error) => result matches Err(e) && e.message@
                == "cannot read generated bridge object `"@ + path@ + "`: "@ + error@,
            Ok(bytes) => match relocatable_check(bytes@, "generated bridge object"@) {
                Err(message) => result matches Err(e) && e.message@ == message,
                Ok(view) => match bridge_object_problem(view) {
                    Some(message) => result matches Err(e) && e.message@ == message,
                    None => result is Ok,
                },
            },
        },
        result matches Err(e) ==> e.code@ == artifact_code(),
{
    let bytes = match contents {
        Err(error) => {
            return Err(artifact_error(concat4(
                "cannot read generated bridge object `",
                path,
                "`: ",
                error.as_str(),
            )));
        },
        Ok(bytes) => bytes,
    };
    let summary = parse_relocatable(bytes.as_slice(), "generated bridge object")?;
    let ghost view = summary_view(summary);
    let mut i: usize = 0;
    while i < summary.symbols.len()
        invariant
            i <= summary.symbols@.len(),
            view == summary_view(summary),
            forall|j: int| 0 <= j < i ==> (#[trigger] view.symbols[j]).category != SymbolCategory::File,
        decreases summary.symbols.len() - i,
    {
        assert(view.symbols[i as int] == symbol_view(summary.symbols@[i as int]));
        if summary.symbols[i].category == SymbolCategory::File {
            return Err(
                artifact_error("generated bridge object contains an assembler file symbol".to_owned()),
            );
        }
        i = i + 1;
    }
    proof {
        reveal_strlit(".debug");
    }
    let mut i: usize = 0;
    while i < summary.section_names.len()
        invariant
            i <= summary.section_names@.len(),
            view == summary_view(summary),
            forall|j: int|
                0 <= j < i ==> !(#[trigger] view.section_names[j] is Some && debug_section(
                    view.section_names[j]->0,
                )),
        decreases summary.section_names.len() - i,
    {
        if let Some(name) = &summary.section_names[i] {
            if str_eq(name.as_str(), ".gdb_index") || crate::text::starts_with(name.as_str(), ".debug") {
                assert(view.section_names[i as int] is Some && debug_section(
                    view.section_names[i as int]->0,
                ));
                return Err(
                    artifact_error(
                        "generated bridge object contains path-sensitive debug metadata".to_owned(),
                    ),
                );
            }
        }
        i = i + 1;
    }
    Ok(())
}

/// The outcome of inspecting the object copier's localization probe: its
/// sentinel symbol must survive, localized.
pub open spec fn probe_problem(view: SummaryView) -> Option<Seq<char>> {
    if exists|i: int|
        0 <= i < view.symbols.len() && #[trigger] view.symbols[i].name == Some(
            "__ccc_capability_internal"@,
        ) {
        let i = choose|i: int|
            0 <= i < view.symbols.len() && #[trigger] view.symbols[i].name == Some(
                "__ccc_capability_internal"@,
            ) && forall|j: int|
                0 <= j < i ==> #[trigger] view.symbols[j].name != Some("__ccc_capability_internal"@);
        if view.symbols[i].scope != SymbolReach::Compilation {
            Some("object copier did not localize the sentinel symbol"@)
        } else {
            None
        }
    } else {
        Some("localized capability object lost its sentinel symbol"@)
    }
}

/// Checks the object copier's localization probe.
#[verifier::loop_isolation(false)]
pub fn inspect_localized_probe(contents: &Result<Vec<u8>, String>) -> (result: Result<(), LinkError>)
    ensures
        match contents {
            Err(error) => result matches Err(e) && e.message@ == "cannot read localization probe: "@
                + error@,
            Ok(bytes) => match relocatable_check(bytes@, "localized capability object"@) {
                Err(message) => result matches Err(e) && e.message@ == message,
                Ok(view) => match probe_problem(view) {
                    Some(message) => result matches Err(e) && e.message@ == message,
                    None => result is Ok,
                },
            },
        },
        result matches Err(e) ==> e.code@ == artifact_code(),
{
    let bytes = match contents {
        Err(error) => {
            return Err(artifact_error(concat2("cannot read localization probe: ", error.as_str())));
        },
        Ok(bytes) => bytes,
    };
    let summary = parse_relocatable(bytes.as_slice(), "localized capability object")?;
    let ghost view = summary_view(summary);
    let mut i: usize = 0;
    while i < summary.symbols.len()
        invariant
            i <= summary.symbols@.len(),
            view == summary_view(summary),
            forall|j: int|
                0 <= j < i ==> #[trigger] view.symbols[j].name != Some("__ccc_capability_internal"@),
        decreases summary.symbols.len() - i,
    {
        let symbol = &summary.symbols[i];
        assert(view.symbols[i as int] == symbol_view(*symbol));
        let matches = match &symbol.name {
            Some(name) => str_eq(name.as_str(), "__ccc_capability_internal"),
            None => false,
        };
        if matches {
            proof {
                let c = choose|c: int|
                    0 <= c < view.symbols.len() && #[trigger] view.symbols[c].name == Some(
                        "__ccc_capability_internal"@,
                    ) && forall|j: int|
                        0 <= j < c ==> #[trigger] view.symbols[j].name != Some(
                            "__ccc_capability_internal"@,
                        );
                if c < i {
                } else if c > i {
                    assert(view.symbols[i as int].name == Some("__ccc_capability_internal"@));
                }
            }
            if symbol.scope != SymbolReach::Compilation {
                return Err(
                    artifact_error("object copier did not localize the sentinel symbol".to_owned()),
                );
            }
            return Ok(());
        }
        i = i + 1;
    }
    Err(artifact_error("localized capability object lost its sentinel symbol".to_owned()))
}

/// Inspects the final packaged object, after localization.
pub fn inspect_final_object(
    path: &str,
    contents: &Result<Vec<u8>, String>,
    bundle: &VerifiedArtifactBundle,
) -> (result: Result<(), LinkError>)
    ensures
        match contents {
            Err(error) => result matches Err(e) && e.message@ == "cannot read packaged object `"@
                + path@ + "`: "@ + error@,
            Ok(bytes) => match combined_check(
                bytes@,
                bundle.bundle().manifest_view().entries(),
                bundle.bundle().primary_view(),
                bundle.bundle().assemblies_view().len() > 0,
                true,
            ) {
                Ok(()) => result is Ok,
                Err(message) => result matches Err(e) && e.message@ == message,
            },
        },
        result matches Err(e) ==> e.code@ == artifact_code(),
{
    inspect_combined_object(path, contents, bundle, true)
}

} // verus!
