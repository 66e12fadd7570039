//! How a static link resolves symbols, as far as the choice of runtime
//! helpers needs it: what each object defines and references, which archive
//! members a link extracts, and which helpers stay unresolved.

use vstd::prelude::*;

use crate::link::LinkError;
use crate::link::helpers::{helper_code, helper_error};
use crate::link::object_file::{
    ArchiveMemberRecord, MemberView, ObjectFileKind, ObjectSummary, SummaryView, SymbolPlacement,
    defined_placement, is_defined_placement,
    SymbolReach, SymbolView, lossy_text, member_outcome, parsed_archive, parsed_object, read_archive,
    read_object, summary_view, symbol_view, utf8_lossy,
};
use crate::text::string_from_chars;
use crate::link::symbols::SymbolSet;

verus! {

/// The symbol facts of one object file, as sets of names.
pub struct FactsView {
    pub defined: Set<Seq<char>>,
    pub weak_defined: Set<Seq<char>>,
    pub common: Set<Seq<char>>,
    pub undefined: Set<Seq<char>>,
}

/// The state of a simulated link, as sets of names.
pub struct LinkStateView {
    pub defined: Set<Seq<char>>,
    pub weak_defined: Set<Seq<char>>,
    pub common: Set<Seq<char>>,
    pub dynamic_defined: Set<Seq<char>>,
    pub unresolved: Set<Seq<char>>,
    pub force_all: bool,
}

/// The global symbols that one object defines (strongly or weakly), leaves
/// common, or references without a weak reference.
pub struct ObjectSymbolFacts {
    pub defined: SymbolSet,
    pub weak_defined: SymbolSet,
    pub common: SymbolSet,
    pub undefined: SymbolSet,
}

impl ObjectSymbolFacts {
    pub open spec fn view(&self) -> FactsView {
        FactsView {
            defined: self.defined@,
            weak_defined: self.weak_defined@,
            common: self.common@,
            undefined: self.undefined@,
        }
    }

    pub open spec fn well_formed(&self) -> bool {
        &&& self.defined.well_formed()
        &&& self.weak_defined.well_formed()
        &&& self.common.well_formed()
        &&& self.undefined.well_formed()
    }

    pub fn new() -> (result: Self)
        ensures
            result.well_formed(),
            result@ == empty_facts(),
    {
        ObjectSymbolFacts {
            defined: SymbolSet::new(),
            weak_defined: SymbolSet::new(),
            common: SymbolSet::new(),
            undefined: SymbolSet::new(),
        }
    }
}

/// The symbols a simulated link has seen so far.
pub struct LinkSymbolState {
    pub defined: SymbolSet,
    pub weak_defined: SymbolSet,
    pub common: SymbolSet,
    pub dynamic_defined: SymbolSet,
    pub unresolved: SymbolSet,
    /// Set when an input could not be simulated, so that every helper must
    /// be linked.
    pub force_all_runtime_helpers: bool,
}

impl LinkSymbolState {
    pub open spec fn view(&self) -> LinkStateView {
        LinkStateView {
            defined: self.defined@,
            weak_defined: self.weak_defined@,
            common: self.common@,
            dynamic_defined: self.dynamic_defined@,
            unresolved: self.unresolved@,
            force_all: self.force_all_runtime_helpers,
        }
    }

    pub open spec fn well_formed(&self) -> bool {
        &&& self.defined.well_formed()
        &&& self.weak_defined.well_formed()
        &&& self.common.well_formed()
        &&& self.dynamic_defined.well_formed()
        &&& self.unresolved.well_formed()
    }

    pub fn new() -> (result: Self)
        ensures
            result.well_formed(),
            result@ == (LinkStateView {
                defined: Set::empty(),
                weak_defined: Set::empty(),
                common: Set::empty(),
                dynamic_defined: Set::empty(),
                unresolved: Set::empty(),
                force_all: false,
            }),
    {
        LinkSymbolState {
            defined: SymbolSet::new(),
            weak_defined: SymbolSet::new(),
            common: SymbolSet::new(),
            dynamic_defined: SymbolSet::new(),
            unresolved: SymbolSet::new(),
            force_all_runtime_helpers: false,
        }
    }
}

pub open spec fn empty_facts() -> FactsView {
    FactsView {
        defined: Set::empty(),
        weak_defined: Set::empty(),
        common: Set::empty(),
        undefined: Set::empty(),
    }
}

/* Facts of an object */

/// The facts of a symbol table, entry by entry.
pub open spec fn facts_of(symbols: Seq<SymbolView>) -> FactsView
    decreases symbols.len(),
{
    if symbols.len() == 0 {
        empty_facts()
    } else {
        let f = facts_of(symbols.drop_last());
        let s = symbols.last();
        if !s.global || s.name is None {
            f
        } else {
            let n = s.name->0;
            if s.placement == SymbolPlacement::Common {
                FactsView { common: f.common.insert(n), ..f }
            } else if is_defined_placement(s.placement) {
                if s.weak {
                    FactsView { weak_defined: f.weak_defined.insert(n), ..f }
                } else {
                    FactsView { defined: f.defined.insert(n), ..f }
                }
            } else if s.placement == SymbolPlacement::Undefined && !s.weak {
                FactsView { undefined: f.undefined.insert(n), ..f }
            } else {
                f
            }
        }
    }
}

/// The symbol facts of an object's symbol table.
pub fn object_symbol_facts(summary: &ObjectSummary) -> (result: ObjectSymbolFacts)
    ensures
        result.well_formed(),
        result@ == facts_of(summary_view(*summary).symbols),
{
    let ghost symbols = summary_view(*summary).symbols;
    let mut facts = ObjectSymbolFacts::new();
    let mut i: usize = 0;
    assert(symbols.take(0) =~= Seq::<SymbolView>::empty());
    while i < summary.symbols.len()
        invariant
            i <= summary.symbols@.len(),
            symbols == summary_view(*summary).symbols,
            facts.well_formed(),
            facts@ == facts_of(symbols.take(i as int)),
        decreases summary.symbols.len() - i,
    {
        let symbol = &summary.symbols[i];
        assert(symbols.take(i + 1).drop_last() =~= symbols.take(i as int));
        assert(symbols.take(i + 1).last() == symbol_view(*symbol));
        if symbol.global {
            if let Some(name) = &symbol.name {
                if symbol.placement == SymbolPlacement::Common {
                    facts.common.insert(name.as_str());
                } else if defined_placement(symbol.placement) {
                    if symbol.weak {
                        facts.weak_defined.insert(name.as_str());
                    } else {
                        facts.defined.insert(name.as_str());
                    }
                } else if symbol.placement == SymbolPlacement::Undefined && !symbol.weak {
                    facts.undefined.insert(name.as_str());
                }
            }
        }
        i = i + 1;
    }
    assert(symbols.take(i as int) =~= symbols);
    facts
}

/* Linking an object */

/// The state after the link takes an object with facts `f`: its strong
/// definitions win over everything, its common symbols over weak definitions
/// and references, its weak definitions over references, and its remaining
/// references stay unresolved.
pub open spec fn after_object(s: LinkStateView, f: FactsView) -> LinkStateView {
    let defined = s.defined.union(f.defined);
    let new_common = f.common.difference(defined);
    let common = s.common.difference(f.defined).union(new_common);
    let new_weak = f.weak_defined.difference(defined).difference(common);
    let weak_defined = s.weak_defined.difference(f.defined).difference(new_common).union(new_weak);
    let unresolved = s.unresolved.difference(f.defined).difference(new_common).difference(
        new_weak,
    );
    let new_undefined = f.undefined.filter(
        |u: Seq<char>|
            !defined.contains(u) && !common.contains(u) && !weak_defined.contains(u)
                && !s.dynamic_defined.contains(u),
    );
    LinkStateView {
        defined,
        weak_defined,
        common,
        dynamic_defined: s.dynamic_defined,
        unresolved: unresolved.union(new_undefined),
        force_all: s.force_all,
    }
}

/// Taking an object: every name it defines strongly is then defined and no
/// longer unresolved; every name it references is afterwards defined in
/// some way or still unresolved; a name defined before stays defined; and
/// no name is both defined and unresolved afterwards when none was before.
pub proof fn lemma_object_resolves_references(s: LinkStateView, f: FactsView)
    ensures
        f.defined.subset_of(after_object(s, f).defined),
        s.defined.subset_of(after_object(s, f).defined),
        forall|n: Seq<char>| #[trigger] f.defined.contains(n) ==> !after_object(s, f).unresolved.contains(n),
        forall|n: Seq<char>|
            #[trigger] f.undefined.contains(n) ==> {
                let t = after_object(s, f);
                t.defined.contains(n) || t.weak_defined.contains(n) || t.common.contains(n)
                    || t.dynamic_defined.contains(n) || t.unresolved.contains(n)
            },
        s.defined.disjoint(s.unresolved) ==> after_object(s, f).defined.disjoint(
            after_object(s, f).unresolved,
        ),
{
}

/// Links an object into the simulated state.
pub fn process_object_facts(state: &mut LinkSymbolState, facts: &ObjectSymbolFacts)
    requires
        old(state).well_formed(),
    ensures
        final(state).well_formed(),
        final(state)@ == after_object(old(state)@, facts@),
{
    let ghost s = state@;
    let ghost f = facts@;
    state.unresolved.remove_all(&facts.defined);
    state.common.remove_all(&facts.defined);
    state.weak_defined.remove_all(&facts.defined);
    state.defined.insert_all(&facts.defined);
    let ghost defined = state.defined@;
    let ghost common1 = state.common@;
    let ghost weak1 = state.weak_defined@;
    let ghost unresolved1 = state.unresolved@;

    let commons = facts.common.names();
    let ghost cs = commons@.map_values(|name: String| name@);
    let mut i: usize = 0;
    assert(cs.take(0).to_set() =~= Set::<Seq<char>>::empty());
    assert(common1.union(Set::<Seq<char>>::empty()) =~= common1);
    assert(weak1.difference(Set::<Seq<char>>::empty()) =~= weak1);
    assert(unresolved1.difference(Set::<Seq<char>>::empty()) =~= unresolved1);
    while i < commons.len()
        invariant
            i <= commons@.len(),
            cs == commons@.map_values(|name: String| name@),
            cs.to_set() == f.common,
            state.well_formed(),
            state.defined@ == defined,
            state.dynamic_defined@ == s.dynamic_defined,
            state.force_all_runtime_helpers == s.force_all,
            state.common@ == common1.union(cs.take(i as int).to_set().difference(defined)),
            state.weak_defined@ == weak1.difference(cs.take(i as int).to_set().difference(defined)),
            state.unresolved@ == unresolved1.difference(
                cs.take(i as int).to_set().difference(defined),
            ),
        decreases commons.len() - i,
    {
        let name = commons[i].as_str();
        proof {
            cs.take(i as int).lemma_push_to_set_commute(cs[i as int]);
            assert(cs.take(i + 1) =~= cs.take(i as int).push(cs[i as int]));
        }
        if !state.defined.contains(name) {
            state.unresolved.remove(name);
            state.weak_defined.remove(name);
            state.common.insert(name);
        }
        i = i + 1;
        proof {
            let p = cs.take(i as int).to_set().difference(defined);
            assert(state.common@ =~= common1.union(p));
            assert(state.weak_defined@ =~= weak1.difference(p));
            assert(state.unresolved@ =~= unresolved1.difference(p));
        }
    }
    assert(cs.take(i as int) =~= cs);
    let ghost common2 = state.common@;
    let ghost weak2 = state.weak_defined@;
    let ghost unresolved2 = state.unresolved@;

    let weaks = facts.weak_defined.names();
    let ghost ws = weaks@.map_values(|name: String| name@);
    let mut i: usize = 0;
    assert(ws.take(0).to_set() =~= Set::<Seq<char>>::empty());
    assert(weak2.union(Set::<Seq<char>>::empty()) =~= weak2);
    assert(unresolved2.difference(Set::<Seq<char>>::empty()) =~= unresolved2);
    while i < weaks.len()
        invariant
            i <= weaks@.len(),
            ws == weaks@.map_values(|name: String| name@),
            ws.to_set() == f.weak_defined,
            state.well_formed(),
            state.defined@ == defined,
            state.common@ == common2,
            state.dynamic_defined@ == s.dynamic_defined,
            state.force_all_runtime_helpers == s.force_all,
            state.weak_defined@ == weak2.union(
                ws.take(i as int).to_set().difference(defined).difference(common2),
            ),
            state.unresolved@ == unresolved2.difference(
                ws.take(i as int).to_set().difference(defined).difference(common2),
            ),
        decreases weaks.len() - i,
    {
        let name = weaks[i].as_str();
        proof {
            ws.take(i as int).lemma_push_to_set_commute(ws[i as int]);
            assert(ws.take(i + 1) =~= ws.take(i as int).push(ws[i as int]));
        }
        if !state.defined.contains(name) && !state.common.contains(name) {
            state.unresolved.remove(name);
            state.weak_defined.insert(name);
        }
        i = i + 1;
        proof {
            let p = ws.take(i as int).to_set().difference(defined).difference(common2);
            assert(state.weak_defined@ =~= weak2.union(p));
            assert(state.unresolved@ =~= unresolved2.difference(p));
        }
    }
    assert(ws.take(i as int) =~= ws);
    let ghost weak3 = state.weak_defined@;
    let ghost unresolved3 = state.unresolved@;

    let undefined = facts.undefined.names();
    let ghost us = undefined@.map_values(|name: String| name@);
    let ghost keep = |u: Seq<char>|
        !defined.contains(u) && !common2.contains(u) && !weak3.contains(u)
            && !s.dynamic_defined.contains(u);
    let mut i: usize = 0;
    assert(us.take(0).to_set() =~= Set::<Seq<char>>::empty());
    assert(unresolved3.union(Set::<Seq<char>>::empty().filter(keep)) =~= unresolved3);
    while i < undefined.len()
        invariant
            i <= undefined@.len(),
            us == undefined@.map_values(|name: String| name@),
            us.to_set() == f.undefined,
            state.well_formed(),
            state.defined@ == defined,
            state.common@ == common2,
            state.weak_defined@ == weak3,
            state.dynamic_defined@ == s.dynamic_defined,
            state.force_all_runtime_helpers == s.force_all,
            keep == (|u: Seq<char>|
                !defined.contains(u) && !common2.contains(u) && !weak3.contains(u)
                    && !s.dynamic_defined.contains(u)),
            state.unresolved@ == unresolved3.union(us.take(i as int).to_set().filter(keep)),
        decreases undefined.len() - i,
    {
        let name = undefined[i].as_str();
        proof {
            us.take(i as int).lemma_push_to_set_commute(us[i as int]);
            assert(us.take(i + 1) =~= us.take(i as int).push(us[i as int]));
        }
        if !state.defined.contains(name) && !state.common.contains(name)
            && !state.weak_defined.contains(name) && !state.dynamic_defined.contains(name) {
            state.unresolved.insert(name);
        }
        i = i + 1;
        proof {
            assert(state.unresolved@ =~= unresolved3.union(us.take(i as int).to_set().filter(keep)));
        }
    }
    assert(us.take(i as int) =~= us);
    proof {
        let expected = after_object(s, f);
        assert(expected.defined =~= defined);
        assert(expected.common =~= common2);
        assert(expected.weak_defined =~= weak3);
        assert(state.unresolved@ =~= expected.unresolved);
    }
}

/* Linking a shared library */

/// The state after the link takes a shared library that exports
/// `definitions`: with `--as-needed`, a library that resolves nothing is
/// skipped.
pub open spec fn after_dynamic(
    s: LinkStateView,
    definitions: Set<Seq<char>>,
    as_needed: bool,
) -> LinkStateView {
    if as_needed && definitions.intersect(s.unresolved) == Set::<Seq<char>>::empty() {
        s
    } else {
        LinkStateView {
            unresolved: s.unresolved.difference(definitions),
            dynamic_defined: s.dynamic_defined.union(definitions),
            ..s
        }
    }
}

/// Whether some name of `definitions` is unresolved.
fn resolves_any(unresolved: &SymbolSet, definitions: &SymbolSet) -> (result: bool)
    ensures
        result == exists|n: Seq<char>| definitions@.contains(n) && unresolved@.contains(n),
{
    let names = definitions.names();
    let ghost ds = names@.map_values(|name: String| name@);
    let mut i: usize = 0;
    while i < names.len()
        invariant
            i <= names@.len(),
            ds == names@.map_values(|name: String| name@),
            ds.to_set() == definitions@,
            forall|j: int| 0 <= j < i ==> !unresolved@.contains(#[trigger] ds[j]),
        decreases names.len() - i,
    {
        if unresolved.contains(names[i].as_str()) {
            assert(definitions@.contains(ds[i as int]));
            return true;
        }
        i = i + 1;
    }
    assert forall|n: Seq<char>| definitions@.contains(n) implies !unresolved@.contains(n) by {
        let j = choose|j: int| 0 <= j < ds.len() && ds[j] == n;
    }
    false
}

/// Links a shared library that exports `definitions`.
pub fn apply_dynamic_definitions(
    state: &mut LinkSymbolState,
    definitions: &SymbolSet,
    as_needed: bool,
)
    requires
        old(state).well_formed(),
    ensures
        final(state).well_formed(),
        final(state)@ == after_dynamic(old(state)@, definitions@, as_needed),
{
    if as_needed && !resolves_any(&state.unresolved, definitions) {
        assert(definitions@.intersect(state.unresolved@) =~= Set::<Seq<char>>::empty());
        return;
    }
    proof {
        if as_needed {
            let n = choose|n: Seq<char>| definitions@.contains(n) && state.unresolved@.contains(n);
            assert(definitions@.intersect(state.unresolved@).contains(n));
        }
    }
    state.unresolved.remove_all(definitions);
    state.dynamic_defined.insert_all(definitions);
}

/// The names a shared library exports: its global, dynamically scoped
/// symbols that are defined.
pub open spec fn exported_names(symbols: Seq<SymbolView>) -> Set<Seq<char>> {
    Set::new(
        |n: Seq<char>|
            exists|k: int|
                0 <= k < symbols.len() && #[trigger] symbols[k].name == Some(n) && symbols[k].global
                    && symbols[k].scope == SymbolReach::Dynamic && is_defined_placement(symbols[k].placement),
    )
}

proof fn lemma_exported_push(symbols: Seq<SymbolView>, s: SymbolView)
    ensures
        exported_names(symbols.push(s)) == if s.global && s.scope == SymbolReach::Dynamic && is_defined_placement(s.placement) && s.name is Some {
            exported_names(symbols).insert(s.name->0)
        } else {
            exported_names(symbols)
        },
{
    let pushed = symbols.push(s);
    let expected = if s.global && s.scope == SymbolReach::Dynamic && is_defined_placement(s.placement)
        && s.name is Some {
        exported_names(symbols).insert(s.name->0)
    } else {
        exported_names(symbols)
    };
    assert forall|n: Seq<char>| exported_names(pushed).contains(n) <==> expected.contains(n) by {
        if exported_names(symbols).contains(n) {
            let k = choose|k: int|
                0 <= k < symbols.len() && #[trigger] symbols[k].name == Some(n) && symbols[k].global
                    && symbols[k].scope == SymbolReach::Dynamic && is_defined_placement(symbols[k].placement);
            assert(pushed[k] == symbols[k]);
        }
        if exported_names(pushed).contains(n) {
            let k = choose|k: int|
                0 <= k < pushed.len() && #[trigger] pushed[k].name == Some(n) && pushed[k].global
                    && pushed[k].scope == SymbolReach::Dynamic && is_defined_placement(pushed[k].placement);
            if k < symbols.len() {
                assert(symbols[k] == pushed[k]);
            }
        }
        assert(pushed[symbols.len() as int] == s);
    }
    assert(exported_names(pushed) =~= expected);
}

fn exported_definitions(summary: &ObjectSummary) -> (result: SymbolSet)
    ensures
        result.well_formed(),
        result@ == exported_names(summary_view(*summary).dynamic_symbols),
{
    let ghost symbols = summary_view(*summary).dynamic_symbols;
    let mut result = SymbolSet::new();
    let mut i: usize = 0;
    while i < summary.dynamic_symbols.len()
        invariant
            i <= summary.dynamic_symbols@.len(),
            symbols == summary_view(*summary).dynamic_symbols,
            result.well_formed(),
            result@ == exported_names(symbols.take(i as int)),
        decreases summary.dynamic_symbols.len() - i,
    {
        let symbol = &summary.dynamic_symbols[i];
        let ghost prefix = symbols.take(i + 1);
        assert(prefix[i as int] == symbol_view(*symbol));
        proof {
            assert(prefix =~= symbols.take(i as int).push(symbols[i as int]));
            lemma_exported_push(symbols.take(i as int), symbols[i as int]);
        }
        if symbol.global && symbol.scope == SymbolReach::Dynamic && defined_placement(symbol.placement) {
            if let Some(name) = &symbol.name {
                result.insert(name.as_str());
            }
        }
        i = i + 1;
    }
    assert(symbols.take(i as int) =~= symbols);
    result
}

/// The state after the link takes the object file `bytes`: an unreadable
/// input forces every helper, a shared library contributes its exports, and
/// any other object its symbol facts.
pub open spec fn after_input(s: LinkStateView, bytes: Seq<u8>, as_needed: bool) -> LinkStateView {
    match parsed_object(bytes) {
        Err(_) => LinkStateView { force_all: true, ..s },
        Ok(view) => if view.kind == ObjectFileKind::Dynamic {
            after_dynamic(s, exported_names(view.dynamic_symbols), as_needed)
        } else {
            after_object(s, facts_of(view.symbols))
        },
    }
}

/// Links one object file or shared library into the simulated state.
pub fn scan_object(state: &mut LinkSymbolState, bytes: &[u8], as_needed: bool)
    requires
        old(state).well_formed(),
    ensures
        final(state).well_formed(),
        final(state)@ == after_input(old(state)@, bytes@, as_needed),
{
    match read_object(bytes) {
        Err(_) => {
            state.force_all_runtime_helpers = true;
        },
        Ok(summary) => {
            if summary.kind == ObjectFileKind::Dynamic {
                let definitions = exported_definitions(&summary);
                apply_dynamic_definitions(state, &definitions, as_needed);
            } else {
                let facts = object_symbol_facts(&summary);
                process_object_facts(state, &facts);
            }
        },
    }
}

} // verus!

verus! {

/* Archive extraction */

pub open spec fn option_facts(member: Option<ObjectSymbolFacts>) -> Option<FactsView> {
    match member {
        Some(facts) => Some(facts@),
        None => None,
    }
}

pub open spec fn member_views(members: Seq<Option<ObjectSymbolFacts>>) -> Seq<Option<FactsView>> {
    members.map_values(|member: Option<ObjectSymbolFacts>| option_facts(member))
}

/// Whether the link extracts an archive member with facts `f`: it defines a
/// name that is unresolved or only common, or has a common symbol for an
/// unresolved name.
pub open spec fn selectable(s: LinkStateView, f: FactsView) -> bool {
    ||| exists|n: Seq<char>| #[trigger] definition_needed(s, f, n)
    ||| exists|n: Seq<char>| #[trigger] common_needed(s, f, n)
}

/// `f` defines `n`, strongly or weakly, and the link needs a definition of it.
pub open spec fn definition_needed(s: LinkStateView, f: FactsView, n: Seq<char>) -> bool {
    (f.defined.contains(n) || f.weak_defined.contains(n)) && (s.unresolved.contains(n)
        || s.common.contains(n))
}

/// `f` has a common symbol `n` that the link references.
pub open spec fn common_needed(s: LinkStateView, f: FactsView, n: Seq<char>) -> bool {
    f.common.contains(n) && s.unresolved.contains(n)
}

/// One pass over the members in order, extracting each selectable one: the
/// state after it, the members left, and whether any was extracted.
pub open spec fn selection_pass(s: LinkStateView, members: Seq<Option<FactsView>>) -> (
    LinkStateView,
    Seq<Option<FactsView>>,
    bool,
)
    decreases members.len(),
{
    if members.len() == 0 {
        (s, members, false)
    } else {
        let (s1, m1, selected) = selection_pass(s, members.drop_last());
        match members.last() {
            Some(f) => if selectable(s1, f) {
                (after_object(s1, f), m1.push(None), true)
            } else {
                (s1, m1.push(Some(f)), selected)
            },
            None => (s1, m1.push(None), selected),
        }
    }
}

/// The number of members not yet extracted.
pub open spec fn present(members: Seq<Option<FactsView>>) -> nat
    decreases members.len(),
{
    if members.len() == 0 {
        0
    } else {
        present(members.drop_last()) + if members.last() is Some {
            1nat
        } else {
            0nat
        }
    }
}

pub proof fn lemma_pass_shrinks(s: LinkStateView, members: Seq<Option<FactsView>>)
    ensures
        selection_pass(s, members).1.len() == members.len(),
        present(selection_pass(s, members).1) <= present(members),
        selection_pass(s, members).2 ==> present(selection_pass(s, members).1) < present(members),
        !selection_pass(s, members).2 ==> selection_pass(s, members).0 == s
            && selection_pass(s, members).1 == members,
    decreases members.len(),
{
    if members.len() > 0 {
        lemma_pass_shrinks(s, members.drop_last());
        let m1 = selection_pass(s, members.drop_last()).1;
        let m = selection_pass(s, members).1;
        assert(m.drop_last() =~= m1);
        if !selection_pass(s, members).2 {
            assert(members =~= members.drop_last().push(members.last()));
        }
    }
}

/// The state after extracting members pass by pass until a pass extracts
/// nothing, as a linker does with a single archive.
pub open spec fn extract_members(s: LinkStateView, members: Seq<Option<FactsView>>) -> LinkStateView
    decreases present(members),
{
    let (s1, m1, selected) = selection_pass(s, members);
    if selected {
        proof {
            lemma_pass_shrinks(s, members);
        }
        extract_members(s1, m1)
    } else {
        s
    }
}

/// The state after linking every member, as `--whole-archive` does.
pub open spec fn link_all_members(s: LinkStateView, members: Seq<Option<FactsView>>) -> LinkStateView
    decreases members.len(),
{
    if members.len() == 0 {
        s
    } else {
        let s1 = link_all_members(s, members.drop_last());
        match members.last() {
            Some(f) => after_object(s1, f),
            None => s1,
        }
    }
}

/// The members an extraction leaves in the archive: those no pass took.
pub open spec fn extraction_leftovers(s: LinkStateView, members: Seq<Option<FactsView>>) -> Seq<
    Option<FactsView>,
>
    decreases present(members),
{
    let (s1, m1, selected) = selection_pass(s, members);
    if selected {
        proof {
            lemma_pass_shrinks(s, members);
        }
        extraction_leftovers(s1, m1)
    } else {
        members
    }
}

proof fn lemma_pass_keeps_or_takes(s: LinkStateView, members: Seq<Option<FactsView>>)
    ensures
        forall|k: int|
            0 <= k < members.len() && (#[trigger] selection_pass(s, members).1[k]) is Some
                ==> selection_pass(s, members).1[k] == members[k],
        !selection_pass(s, members).2 ==> forall|k: int|
            0 <= k < members.len() && (#[trigger] members[k]) is Some ==> !selectable(
                s,
                members[k]->0,
            ),
    decreases members.len(),
{
    lemma_pass_shrinks(s, members);
    if members.len() > 0 {
        let prefix = members.drop_last();
        lemma_pass_keeps_or_takes(s, prefix);
        lemma_pass_shrinks(s, prefix);
        let (s1, m1, selected) = selection_pass(s, prefix);
        let m = selection_pass(s, members).1;
        assert forall|k: int| 0 <= k < members.len() && (#[trigger] m[k]) is Some implies m[k]
            == members[k] by {
            if k < members.len() - 1 {
                assert(m[k] == m1[k]);
                assert(prefix[k] == members[k]);
            }
        }
        if !selection_pass(s, members).2 {
            assert forall|k: int| 0 <= k < members.len() && (#[trigger] members[k]) is Some implies !selectable(
                s,
                members[k]->0,
            ) by {
                if k < members.len() - 1 {
                    assert(prefix[k] == members[k]);
                }
            }
        }
    }
}

/// An archive read without `--whole-archive` is searched until no member
/// left in it is needed: every member that stays defines nothing the link
/// still needs and brings no common symbol it references; and the members
/// that stay are the archive's own, at their places.
pub proof fn lemma_extraction_leaves_nothing_needed(s: LinkStateView, members: Seq<Option<FactsView>>)
    ensures
        extraction_leftovers(s, members).len() == members.len(),
        forall|k: int|
            0 <= k < members.len() && (#[trigger] extraction_leftovers(s, members)[k]) is Some
                ==> extraction_leftovers(s, members)[k] == members[k] && !selectable(
                extract_members(s, members),
                extraction_leftovers(s, members)[k]->0,
            ),
    decreases present(members),
{
    lemma_pass_shrinks(s, members);
    lemma_pass_keeps_or_takes(s, members);
    let (s1, m1, selected) = selection_pass(s, members);
    if selected {
        lemma_extraction_leaves_nothing_needed(s1, m1);
        let left = extraction_leftovers(s, members);
        assert(left == extraction_leftovers(s1, m1));
        assert forall|k: int|
            0 <= k < members.len() && (#[trigger] left[k]) is Some implies left[k] == members[k] && !selectable(
                extract_members(s, members),
                left[k]->0,
            ) by {
            assert(m1[k] is Some);
        }
    }
}

/// `--whole-archive` links every member: each strong definition of every
/// readable member, and every name defined before, ends up defined.
pub proof fn lemma_whole_archive_defines_every_member(s: LinkStateView, members: Seq<Option<FactsView>>)
    ensures
        s.defined.subset_of(link_all_members(s, members).defined),
        forall|k: int|
            0 <= k < members.len() && (#[trigger] members[k]) is Some ==> (members[k]->0).defined.subset_of(
                link_all_members(s, members).defined,
            ),
    decreases members.len(),
{
    if members.len() > 0 {
        let prefix = members.drop_last();
        lemma_whole_archive_defines_every_member(s, prefix);
        let before = link_all_members(s, prefix);
        let after = link_all_members(s, members);
        assert(before.defined.subset_of(after.defined));
        assert forall|k: int| 0 <= k < members.len() && (#[trigger] members[k]) is Some implies (
        members[k]->0).defined.subset_of(after.defined) by {
            if k < members.len() - 1 {
                assert(prefix[k] == members[k]);
            }
        }
    }
}

fn is_selectable(state: &LinkSymbolState, facts: &ObjectSymbolFacts) -> (result: bool)
    ensures
        result == selectable(state@, facts@),
{
    let defined = facts.defined.names();
    let ghost ds = defined@.map_values(|name: String| name@);
    let mut i: usize = 0;
    while i < defined.len()
        invariant
            i <= defined@.len(),
            ds == defined@.map_values(|name: String| name@),
            ds.to_set() == facts.defined@,
            forall|j: int|
                0 <= j < i ==> !state.unresolved@.contains(#[trigger] ds[j])
                    && !state.common@.contains(ds[j]),
        decreases defined.len() - i,
    {
        let name = defined[i].as_str();
        if state.unresolved.contains(name) || state.common.contains(name) {
            assert(facts.defined@.contains(ds[i as int]));
            assert(definition_needed(state@, facts@, ds[i as int]));
            return true;
        }
        i = i + 1;
    }
    let weak = facts.weak_defined.names();
    let ghost ws = weak@.map_values(|name: String| name@);
    let mut i: usize = 0;
    while i < weak.len()
        invariant
            i <= weak@.len(),
            ws == weak@.map_values(|name: String| name@),
            ws.to_set() == facts.weak_defined@,
            forall|j: int|
                0 <= j < i ==> !state.unresolved@.contains(#[trigger] ws[j])
                    && !state.common@.contains(ws[j]),
        decreases weak.len() - i,
    {
        let name = weak[i].as_str();
        if state.unresolved.contains(name) || state.common.contains(name) {
            assert(facts.weak_defined@.contains(ws[i as int]));
            assert(definition_needed(state@, facts@, ws[i as int]));
            return true;
        }
        i = i + 1;
    }
    let common = facts.common.names();
    let ghost cs = common@.map_values(|name: String| name@);
    let mut i: usize = 0;
    while i < common.len()
        invariant
            i <= common@.len(),
            cs == common@.map_values(|name: String| name@),
            cs.to_set() == facts.common@,
            forall|j: int| 0 <= j < i ==> !state.unresolved@.contains(#[trigger] cs[j]),
        decreases common.len() - i,
    {
        if state.unresolved.contains(common[i].as_str()) {
            assert(facts.common@.contains(cs[i as int]));
            assert(common_needed(state@, facts@, cs[i as int]));
            return true;
        }
        i = i + 1;
    }
    proof {
        assert forall|n: Seq<char>| !definition_needed(state@, facts@, n) by {
            if facts.defined@.contains(n) {
                let j = choose|j: int| 0 <= j < ds.len() && ds[j] == n;
            } else if facts.weak_defined@.contains(n) {
                let j = choose|j: int| 0 <= j < ws.len() && ws[j] == n;
            }
        }
        assert forall|n: Seq<char>| !common_needed(state@, facts@, n) by {
            if facts.common@.contains(n) {
                let j = choose|j: int| 0 <= j < cs.len() && cs[j] == n;
            }
        }
    }
    false
}

/// Extracts the members of one archive as a linker does: whole, or by
/// passes until no member resolves anything more.
pub fn link_archive_members(
    state: &mut LinkSymbolState,
    members: &mut Vec<Option<ObjectSymbolFacts>>,
    whole_archive: bool,
)
    requires
        old(state).well_formed(),
    ensures
        final(state).well_formed(),
        final(state)@ == if whole_archive {
            link_all_members(old(state)@, member_views(old(members)@))
        } else {
            extract_members(old(state)@, member_views(old(members)@))
        },
{
    let ghost s0 = state@;
    let ghost m0 = member_views(members@);
    if whole_archive {
        let mut k: usize = 0;
        while k < members.len()
            invariant
                k <= members@.len(),
                members@ == old(members)@,
                m0 == member_views(members@),
                state.well_formed(),
                state@ == link_all_members(s0, m0.take(k as int)),
            decreases members.len() - k,
        {
            assert(m0.take(k + 1).drop_last() =~= m0.take(k as int));
            assert(m0.take(k + 1).last() == option_facts(members@[k as int]));
            if let Some(facts) = &members[k] {
                process_object_facts(state, facts);
            }
            k = k + 1;
        }
        assert(m0.take(k as int) =~= m0);
        return;
    }
    loop
        invariant
            state.well_formed(),
            extract_members(s0, m0) == extract_members(state@, member_views(members@)),
        ensures
            state.well_formed(),
            extract_members(s0, m0) == state@,
        decreases present(member_views(members@)),
    {
        let ghost s_round = state@;
        let ghost m_round = member_views(members@);
        let mut selected = false;
        let mut k: usize = 0;
        assert(m_round.take(0) =~= Seq::<Option<FactsView>>::empty());
        assert(member_views(members@).take(0) =~= Seq::<Option<FactsView>>::empty());
        while k < members.len()
            invariant
                k <= members@.len(),
                members@.len() == m_round.len(),
                state.well_formed(),
                selection_pass(s_round, m_round.take(k as int)) == (
                    state@,
                    member_views(members@).take(k as int),
                    selected,
                ),
                forall|j: int|
                    k <= j < m_round.len() ==> #[trigger] member_views(members@)[j] == m_round[j],
            decreases members.len() - k,
        {
            let ghost before = member_views(members@);
            assert(m_round.take(k + 1).drop_last() =~= m_round.take(k as int));
            assert(before[k as int] == m_round[k as int]);
            let take_it = match &members[k] {
                Some(facts) => {
                    if is_selectable(state, facts) {
                        process_object_facts(state, facts);
                        true
                    } else {
                        false
                    }
                },
                None => false,
            };
            if take_it {
                members.set(k, None);
                selected = true;
            }
            proof {
                let after = member_views(members@);
                assert(after.take(k + 1) =~= before.take(k as int).push(after[k as int]));
                assert forall|j: int| k + 1 <= j < m_round.len() implies #[trigger] after[j]
                    == m_round[j] by {
                    assert(after[j] == before[j]);
                }
            }
            k = k + 1;
        }
        assert(m_round.take(k as int) =~= m_round);
        assert(member_views(members@).take(k as int) =~= member_views(members@));
        proof {
            lemma_pass_shrinks(s_round, m_round);
        }
        if !selected {
            break;
        }
    }
}

/// The state after linking an archive whose members hold `member_bytes`: a
/// member that is no object forces every helper, the others are linked
/// whole or extracted.
pub open spec fn after_archive(
    s: LinkStateView,
    member_bytes: Seq<Seq<u8>>,
    whole_archive: bool,
) -> LinkStateView {
    let members = member_bytes.map_values(
        |bytes: Seq<u8>|
            match parsed_object(bytes) {
                Ok(view) => Some(facts_of(view.symbols)),
                Err(_) => None,
            },
    );
    let unreadable = exists|k: int|
        0 <= k < member_bytes.len() && #[trigger] parsed_object(member_bytes[k]) is Err;
    let s1 = LinkStateView { force_all: s.force_all || unreadable, ..s };
    if whole_archive {
        link_all_members(s1, members)
    } else {
        extract_members(s1, members)
    }
}

proof fn lemma_force_all_kept(s: LinkStateView, f: FactsView)
    ensures
        after_object(s, f).force_all == s.force_all,
{
}

/// Links an archive whose members hold `member_bytes`.
pub fn scan_archive(state: &mut LinkSymbolState, member_bytes: &Vec<Vec<u8>>, whole_archive: bool)
    requires
        old(state).well_formed(),
    ensures
        final(state).well_formed(),
        final(state)@ == after_archive(
            old(state)@,
            member_bytes@.map_values(|bytes: Vec<u8>| bytes@),
            whole_archive,
        ),
{
    let ghost bytes_views = member_bytes@.map_values(|bytes: Vec<u8>| bytes@);
    let ghost expected = bytes_views.map_values(
        |bytes: Seq<u8>|
            match parsed_object(bytes) {
                Ok(view) => Some(facts_of(view.symbols)),
                Err(_) => None,
            },
    );
    let mut members: Vec<Option<ObjectSymbolFacts>> = Vec::new();
    let mut unreadable = false;
    let mut k: usize = 0;
    while k < member_bytes.len()
        invariant
            k <= member_bytes@.len(),
            bytes_views == member_bytes@.map_values(|bytes: Vec<u8>| bytes@),
            member_views(members@) == expected.take(k as int),
            members@.len() == k,
            expected.len() == member_bytes@.len(),
            expected == bytes_views.map_values(
                |bytes: Seq<u8>|
                    match parsed_object(bytes) {
                        Ok(view) => Some(facts_of(view.symbols)),
                        Err(_) => None,
                    },
            ),
            unreadable == exists|j: int|
                0 <= j < k && #[trigger] parsed_object(bytes_views[j]) is Err,
        decreases member_bytes.len() - k,
    {
        let ghost before = members@;
        assert(bytes_views[k as int] == member_bytes@[k as int]@);
        match read_object(member_bytes[k].as_slice()) {
            Ok(summary) => {
                members.push(Some(object_symbol_facts(&summary)));
            },
            Err(_) => {
                members.push(None);
                unreadable = true;
            },
        }
        proof {
            assert(members@ =~= before.push(members@[k as int]));
            assert(member_views(members@) =~= member_views(before).push(
                option_facts(members@[k as int]),
            ));
            assert(expected.take(k + 1) =~= expected.take(k as int).push(expected[k as int]));
            assert(member_views(members@) =~= expected.take(k + 1));
            if unreadable {
                if parsed_object(bytes_views[k as int]) is Err {
                    assert(0 <= k < k + 1);
                }
            }
            assert(unreadable == exists|j: int|
                0 <= j < k + 1 && #[trigger] parsed_object(bytes_views[j]) is Err) by {
                if exists|j: int| 0 <= j < k + 1 && #[trigger] parsed_object(bytes_views[j]) is Err {
                    let j = choose|j: int|
                        0 <= j < k + 1 && #[trigger] parsed_object(bytes_views[j]) is Err;
                    if j < k {
                    } else {
                        assert(j == k);
                    }
                }
            }
        }
        k = k + 1;
    }
    assert(expected.take(k as int) =~= expected);
    if unreadable {
        state.force_all_runtime_helpers = true;
    }
    link_archive_members(state, &mut members, whole_archive);
}

} // verus!

verus! {

/* Archives */

/// The contents of the archive members from the `k`-th on, or the message of
/// the first member that cannot be read. `t` counts the thin members before
/// the `k`-th, whose contents `thin` holds as read from `thin_paths`.
pub open spec fn archive_contents(
    path: Seq<char>,
    members: Seq<Result<MemberView, Seq<char>>>,
    thin: Seq<Result<Seq<u8>, Seq<char>>>,
    thin_paths: Seq<Seq<char>>,
    k: int,
    t: int,
) -> Result<Seq<Seq<u8>>, Seq<char>>
    decreases members.len() - k,
{
    if k < 0 || k >= members.len() {
        Ok(Seq::empty())
    } else {
        match members[k] {
            Err(error) => Err(
                "cannot inspect a member of `"@ + path + "` for runtime-helper requirements: "@
                    + error,
            ),
            Ok(member) => {
                let data = if !member.thin {
                    match member.data {
                        Ok(bytes) => Ok(bytes),
                        Err(error) => Err(
                            "cannot read archive member `"@ + lossy_text(member.name) + "` in `"@
                                + path + "`: "@ + error,
                        ),
                    }
                } else if 0 <= t < thin.len() && t < thin_paths.len() {
                    match thin[t] {
                        Ok(bytes) => Ok(bytes),
                        Err(error) => Err(
                            "cannot read thin archive member `"@ + lossy_text(member.name)
                                + "` from `"@ + thin_paths[t] + "`: "@ + error,
                        ),
                    }
                } else {
                    Err(
                        "thin archive member `"@ + lossy_text(member.name) + "` of `"@ + path
                            + "` was not read"@,
                    )
                };
                match data {
                    Err(message) => Err(message),
                    Ok(bytes) => match archive_contents(
                        path,
                        members,
                        thin,
                        thin_paths,
                        k + 1,
                        if member.thin {
                            t + 1
                        } else {
                            t
                        },
                    ) {
                        Ok(rest) => Ok(seq![bytes] + rest),
                        Err(message) => Err(message),
                    },
                }
            },
        }
    }
}

/// The member contents of the archive `bytes`, or the message of the
/// failure.
pub open spec fn archive_spec(
    path: Seq<char>,
    bytes: Seq<u8>,
    thin: Seq<Result<Seq<u8>, Seq<char>>>,
    thin_paths: Seq<Seq<char>>,
) -> Result<Seq<Seq<u8>>, Seq<char>> {
    match parsed_archive(bytes) {
        Err(error) => Err(
            "cannot parse archive `"@ + path + "` for runtime-helper requirements: "@ + error,
        ),
        Ok(members) => archive_contents(path, members, thin, thin_paths, 0, 0),
    }
}

/// Whether `bytes` is an archive.
pub fn is_archive(bytes: &[u8]) -> (result: bool)
    ensures
        result == parsed_archive(bytes@) is Ok,
{
    read_archive(bytes).is_ok()
}

/// The names of the thin members among `members`, in order; members that
/// could not be read are skipped.
pub open spec fn thin_names(members: Seq<Result<MemberView, Seq<char>>>) -> Seq<Seq<u8>>
    decreases members.len(),
{
    if members.len() == 0 {
        seq![]
    } else {
        let rest = thin_names(members.drop_last());
        match members.last() {
            Ok(member) => if member.thin {
                rest.push(member.name)
            } else {
                rest
            },
            Err(_) => rest,
        }
    }
}

/// The names of the thin members of the archive `bytes`, whose contents
/// live beside it; none when it cannot be read.
pub fn thin_member_names(bytes: &[u8]) -> (result: Vec<Vec<u8>>)
    ensures
        byte_texts(result@) == match parsed_archive(bytes@) {
            Ok(members) => thin_names(members),
            Err(_) => seq![],
        },
{
    let mut names: Vec<Vec<u8>> = Vec::new();
    assert(byte_texts(names@) =~= seq![]);
    match read_archive(bytes) {
        Ok(members) => {
            let ghost views = members@.map_values(
                |member: Result<ArchiveMemberRecord, String>| member_outcome(member),
            );
            assert(views.take(0) =~= Seq::<Result<MemberView, Seq<char>>>::empty());
            let mut k: usize = 0;
            while k < members.len()
                invariant
                    k <= members@.len(),
                    views == members@.map_values(
                        |member: Result<ArchiveMemberRecord, String>| member_outcome(member),
                    ),
                    byte_texts(names@) == thin_names(views.take(k as int)),
                decreases members.len() - k,
            {
                assert(views.take(k + 1).drop_last() =~= views.take(k as int));
                assert(views.take(k + 1).last() == member_outcome(members@[k as int]));
                let ghost before = names@;
                if let Ok(member) = &members[k] {
                    if member.thin {
                        let name = member.name.clone();
                        assert(name@ =~= member.name@);
                        names.push(name);
                        assert(byte_texts(names@) =~= byte_texts(before).push(member.name@));
                    }
                }
                k = k + 1;
            }
            assert(views.take(members@.len() as int) =~= views);
        },
        Err(_) => {},
    }
    names
}

pub open spec fn byte_texts(items: Seq<Vec<u8>>) -> Seq<Seq<u8>> {
    items.map_values(|item: Vec<u8>| item@)
}

pub open spec fn thin_views(items: Seq<Result<Vec<u8>, String>>) -> Seq<Result<Seq<u8>, Seq<char>>> {
    items.map_values(
        |item: Result<Vec<u8>, String>|
            match item {
                Ok(bytes) => Ok(bytes@),
                Err(message) => Err(message@),
            },
    )
}

pub open spec fn string_views(items: Seq<String>) -> Seq<Seq<char>> {
    items.map_values(|item: String| item@)
}

fn append_text(output: &mut Vec<char>, text: &str)
    ensures
        final(output)@ == old(output)@ + text@,
{
    crate::text::push_str(output, text);
}

/// Links the archive at `path`, whose contents are `bytes`; `thin` holds the
/// contents of its thin members, read from `thin_paths`.
#[verifier::loop_isolation(false)]
pub fn process_archive(
    path: &str,
    bytes: &[u8],
    thin: &Vec<Result<Vec<u8>, String>>,
    thin_paths: &Vec<String>,
    state: &mut LinkSymbolState,
    whole_archive: bool,
) -> (result: Result<(), LinkError>)
    requires
        old(state).well_formed(),
    ensures
        final(state).well_formed(),
        match archive_spec(path@, bytes@, thin_views(thin@), string_views(thin_paths@)) {
            Ok(contents) => result is Ok && final(state)@ == after_archive(
                old(state)@,
                contents,
                whole_archive,
            ),
            Err(message) => result matches Err(error) && error.code@ == helper_code()
                && error.message@ == message && final(state)@ == old(state)@,
        },
{
    let ghost thin_v = thin_views(thin@);
    let ghost paths_v = string_views(thin_paths@);
    let members = match read_archive(bytes) {
        Ok(members) => members,
        Err(error) => {
            return Err(helper_error(crate::text::concat4(
                "cannot parse archive `",
                path,
                "` for runtime-helper requirements: ",
                error.as_str(),
            )));
        },
    };
    let ghost views = members@.map_values(
        |member: Result<ArchiveMemberRecord, String>| member_outcome(member),
    );
    assert(parsed_archive(bytes@) == Ok::<Seq<Result<MemberView, Seq<char>>>, Seq<char>>(views));
    let mut contents: Vec<Vec<u8>> = Vec::new();
    let mut k: usize = 0;
    let mut t: usize = 0;
    while k < members.len()
        invariant
            k <= members@.len(),
            t <= k,
            views == members@.map_values(
                |member: Result<ArchiveMemberRecord, String>| member_outcome(member),
            ),
            thin_v == thin_views(thin@),
            paths_v == string_views(thin_paths@),
            state.well_formed(),
            state@ == old(state)@,
            archive_contents(path@, views, thin_v, paths_v, 0, 0) == match archive_contents(
                path@,
                views,
                thin_v,
                paths_v,
                k as int,
                t as int,
            ) {
                Ok(rest) => Ok(byte_texts(contents@) + rest),
                Err(message) => Err(message),
            },
        decreases members.len() - k,
    {
        let ghost before = contents@;
        assert(views[k as int] == member_outcome(members@[k as int]));
        match &members[k] {
            Err(error) => {
                return Err(helper_error(crate::text::concat4(
                    "cannot inspect a member of `",
                    path,
                    "` for runtime-helper requirements: ",
                    error.as_str(),
                )));
            },
            Ok(member) => {
                let data: Vec<u8> = if !member.thin {
                    match &member.data {
                        Ok(data) => data.clone(),
                        Err(error) => {
                            let name = utf8_lossy(member.name.as_slice());
                            let mut message: Vec<char> = Vec::new();
                            append_text(&mut message, "cannot read archive member `");
                            append_text(&mut message, name.as_str());
                            append_text(&mut message, "` in `");
                            append_text(&mut message, path);
                            append_text(&mut message, "`: ");
                            append_text(&mut message, error.as_str());
                            return Err(helper_error(string_from_chars(message.as_slice())));
                        },
                    }
                } else if t < thin.len() && t < thin_paths.len() {
                    match &thin[t] {
                        Ok(data) => data.clone(),
                        Err(error) => {
                            let name = utf8_lossy(member.name.as_slice());
                            let mut message: Vec<char> = Vec::new();
                            append_text(&mut message, "cannot read thin archive member `");
                            append_text(&mut message, name.as_str());
                            append_text(&mut message, "` from `");
                            append_text(&mut message, thin_paths[t].as_str());
                            append_text(&mut message, "`: ");
                            append_text(&mut message, error.as_str());
                            return Err(helper_error(string_from_chars(message.as_slice())));
                        },
                    }
                } else {
                    let name = utf8_lossy(member.name.as_slice());
                    let mut message: Vec<char> = Vec::new();
                    append_text(&mut message, "thin archive member `");
                    append_text(&mut message, name.as_str());
                    append_text(&mut message, "` of `");
                    append_text(&mut message, path);
                    append_text(&mut message, "` was not read");
                    return Err(helper_error(string_from_chars(message.as_slice())));
                };
                if member.thin {
                    t = t + 1;
                }
                contents.push(data);
                proof {
                    assert(byte_texts(contents@) =~= byte_texts(before).push(
                        contents@[contents@.len() - 1]@,
                    ));
                    match archive_contents(path@, views, thin_v, paths_v, k + 1, t as int) {
                        Ok(rest) => {
                            assert(byte_texts(before) + (seq![contents@[contents@.len() - 1]@]
                                + rest) =~= byte_texts(contents@) + rest);
                        },
                        Err(_) => {},
                    }
                }
            },
        }
        k = k + 1;
    }
    assert(byte_texts(contents@) + Seq::<Seq<u8>>::empty() =~= byte_texts(contents@));
    assert(contents@.map_values(|bytes: Vec<u8>| bytes@) =~= byte_texts(contents@));
    scan_archive(state, &contents, whole_archive);
    Ok(())
}

} // verus!

verus! {

/// The outcome of linking one input whose file held `contents` (or could not
/// be read, with the reader's message): an unreadable input that the user
/// named explicitly fails, one found by library search is skipped.
pub open spec fn input_spec(
    path: Seq<char>,
    contents: Result<Seq<u8>, Seq<char>>,
    thin: Seq<Result<Seq<u8>, Seq<char>>>,
    thin_paths: Seq<Seq<char>>,
    s: LinkStateView,
    whole_archive: bool,
    as_needed: bool,
    explicit: bool,
) -> Result<LinkStateView, Seq<char>> {
    match contents {
        Err(error) => if explicit {
            Err("cannot inspect `"@ + path + "` for runtime-helper requirements: "@ + error)
        } else {
            Ok(s)
        },
        Ok(bytes) => if parsed_archive(bytes) is Ok {
            match archive_spec(path, bytes, thin, thin_paths) {
                Ok(members) => Ok(after_archive(s, members, whole_archive)),
                Err(message) => Err(message),
            }
        } else {
            Ok(after_input(s, bytes, as_needed))
        },
    }
}

/// Links one input of the link line into the simulated state.
pub fn scan_link_input(
    path: &str,
    contents: &Result<Vec<u8>, String>,
    thin: &Vec<Result<Vec<u8>, String>>,
    thin_paths: &Vec<String>,
    state: &mut LinkSymbolState,
    whole_archive: bool,
    as_needed: bool,
    explicit: bool,
) -> (result: Result<(), LinkError>)
    requires
        old(state).well_formed(),
    ensures
        final(state).well_formed(),
        match input_spec(
            path@,
            match contents {
                Ok(bytes) => Ok(bytes@),
                Err(message) => Err(message@),
            },
            thin_views(thin@),
            string_views(thin_paths@),
            old(state)@,
            whole_archive,
            as_needed,
            explicit,
        ) {
            Ok(after) => result is Ok && final(state)@ == after,
            Err(message) => result matches Err(error) && error.code@ == helper_code()
                && error.message@ == message && final(state)@ == old(state)@,
        },
{
    match contents {
        Err(error) => {
            if explicit {
                return Err(helper_error(crate::text::concat4(
                    "cannot inspect `",
                    path,
                    "` for runtime-helper requirements: ",
                    error.as_str(),
                )));
            }
            Ok(())
        },
        Ok(bytes) => {
            if is_archive(bytes.as_slice()) {
                return process_archive(
                    path,
                    bytes.as_slice(),
                    thin,
                    thin_paths,
                    state,
                    whole_archive,
                );
            }
            scan_object(state, bytes.as_slice(), as_needed);
            Ok(())
        },
    }
}

fn same_symbols(a: &SymbolSet, b: &SymbolSet) -> (result: bool)
    ensures
        result == (a@ == b@),
{
    let names = a.names();
    let ghost an = names@.map_values(|name: String| name@);
    let mut i: usize = 0;
    while i < names.len()
        invariant
            i <= names@.len(),
            an == names@.map_values(|name: String| name@),
            an.to_set() == a@,
            forall|j: int| 0 <= j < i ==> b@.contains(#[trigger] an[j]),
        decreases names.len() - i,
    {
        if !b.contains(names[i].as_str()) {
            assert(a@.contains(an[i as int]));
            return false;
        }
        i = i + 1;
    }
    let others = b.names();
    let ghost bn = others@.map_values(|name: String| name@);
    let mut i: usize = 0;
    while i < others.len()
        invariant
            i <= others@.len(),
            bn == others@.map_values(|name: String| name@),
            bn.to_set() == b@,
            forall|j: int| 0 <= j < i ==> a@.contains(#[trigger] bn[j]),
        decreases others.len() - i,
    {
        if !a.contains(others[i].as_str()) {
            assert(b@.contains(bn[i as int]));
            return false;
        }
        i = i + 1;
    }
    assert forall|n: Seq<char>| a@.contains(n) <==> b@.contains(n) by {
        if a@.contains(n) {
            let j = choose|j: int| 0 <= j < an.len() && an[j] == n;
        }
        if b@.contains(n) {
            let j = choose|j: int| 0 <= j < bn.len() && bn[j] == n;
        }
    }
    assert(a@ =~= b@);
    true
}

fn copy_symbols(set: &SymbolSet) -> (result: SymbolSet)
    ensures
        result.well_formed(),
        result@ == set@,
{
    let mut result = SymbolSet::new();
    result.insert_all(set);
    assert(Set::<Seq<char>>::empty().union(set@) =~= set@);
    result
}

impl LinkSymbolState {
    /// A copy of the simulated state, taken before a link group is replayed.
    pub fn snapshot(&self) -> (result: LinkSymbolState)
        ensures
            result.well_formed(),
            result@ == self@,
    {
        LinkSymbolState {
            defined: copy_symbols(&self.defined),
            weak_defined: copy_symbols(&self.weak_defined),
            common: copy_symbols(&self.common),
            dynamic_defined: copy_symbols(&self.dynamic_defined),
            unresolved: copy_symbols(&self.unresolved),
            force_all_runtime_helpers: self.force_all_runtime_helpers,
        }
    }

    /// Whether two simulated link states hold the same symbols and flag; a
    /// link group is replayed until its state stops changing.
    pub fn same_as(&self, other: &LinkSymbolState) -> (result: bool)
        ensures
            result == (self@ == other@),
    {
        same_symbols(&self.defined, &other.defined) && same_symbols(
            &self.weak_defined,
            &other.weak_defined,
        ) && same_symbols(&self.common, &other.common) && same_symbols(
            &self.dynamic_defined,
            &other.dynamic_defined,
        ) && same_symbols(&self.unresolved, &other.unresolved) && self.force_all_runtime_helpers
            == other.force_all_runtime_helpers
    }
}

/* Link groups */

/// An input a link scan read, with how it was read; a group replays these.
pub struct ScannedInput {
    pub path: String,
    pub whole_archive: bool,
    pub as_needed: bool,
    /// Named on the command line, rather than found on the search path.
    pub explicit: bool,
}

/// Records a scanned input in every open link group, innermost last.
pub fn record_scanned(groups: &mut Vec<Vec<ScannedInput>>, input: &ScannedInput)
    ensures
        final(groups)@.len() == old(groups)@.len(),
        forall|g: int| 0 <= g < old(groups)@.len() ==> (#[trigger] final(groups)@[g])@ == old(groups)@[g]@.push(*input),
{
    let mut open: Vec<Vec<ScannedInput>> = Vec::new();
    std::mem::swap(&mut open, groups);
    let ghost before = open@;
    let n = open.len();
    let mut g: usize = 0;
    while open.len() > 0
        invariant
            n == before.len(),
            g + open@.len() == before.len(),
            open@ == before.skip(g as int),
            groups@.len() == g,
            forall|j: int| 0 <= j < g ==> (#[trigger] groups@[j])@ == before[j]@.push(*input),
        decreases open.len(),
    {
        let mut group = open.remove(0);
        assert(group == before[g as int]);
        assert(open@ =~= before.skip(g + 1));
        group.push(ScannedInput {
            path: input.path.clone(),
            whole_archive: input.whole_archive,
            as_needed: input.as_needed,
            explicit: input.explicit,
        });
        groups.push(group);
        g = g + 1;
    }
}

} // verus!
