//! Which runtime helpers a link needs, and whether a provider archive has
//! them.

use vstd::prelude::*;

use crate::link::LinkError;
use crate::link::scan::{LinkStateView, LinkSymbolState};
use crate::link::symbols::SymbolSet;
use crate::text::{push_str, string_from_chars};

verus! {

/// Where a target's runtime helpers come from.
#[derive(Clone, Copy, Debug, PartialEq, Eq, Structural)]
pub enum RuntimeHelperProvider {
    /// The compiler's builtins archive (libgcc or compiler-rt).
    CompilerBuiltins,
}

/// One runtime helper of a target ABI and its provider.
#[derive(Clone, Copy, Debug)]
pub struct RuntimeHelperEntry {
    pub provider: RuntimeHelperProvider,
    pub symbol: &'static str,
}

/// How the final link resolves the runtime helpers that generated code may
/// call.
#[derive(Clone, Debug)]
pub struct RuntimeHelperLinkPlan {
    pub provider: RuntimeHelperProvider,
    pub symbols: Vec<&'static str>,
}

/// The code of runtime-helper failures.
pub open spec fn helper_code() -> Seq<char> {
    "CCC5008"@
}

/// A runtime-helper failure with `message`.
pub fn helper_error(message: String) -> (result: LinkError)
    ensures
        result.code@ == helper_code(),
        result.message@ == message@,
{
    LinkError { code: "CCC5008", message }
}

pub open spec fn entry_symbols(entries: Seq<RuntimeHelperEntry>) -> Seq<Seq<char>> {
    entries.map_values(|entry: RuntimeHelperEntry| entry.symbol@)
}

pub open spec fn static_texts(items: Seq<&'static str>) -> Seq<Seq<char>> {
    items.map_values(|item: &'static str| item@)
}

proof fn lemma_static_texts_push(items: Seq<&'static str>, item: &'static str)
    ensures
        static_texts(items.push(item)) == static_texts(items).push(item@),
{
    assert(static_texts(items.push(item)) =~= static_texts(items).push(item@));
}

proof fn lemma_entry_symbols_take(entries: Seq<RuntimeHelperEntry>, k: int)
    requires
        0 <= k < entries.len(),
    ensures
        entry_symbols(entries).take(k + 1) == entry_symbols(entries).take(k).push(
            entries[k].symbol@,
        ),
{
    assert(entry_symbols(entries).take(k + 1) =~= entry_symbols(entries).take(k).push(
        entries[k].symbol@,
    ));
}

pub open spec fn plan_symbols(plan: RuntimeHelperLinkPlan) -> Seq<Seq<char>> {
    static_texts(plan.symbols@)
}

/// The plan that links every helper of `manifest`, from the provider of the
/// first one.
pub fn runtime_helper_link_plan(manifest: &[RuntimeHelperEntry]) -> (result: Option<
    RuntimeHelperLinkPlan,
>)
    ensures
        manifest@.len() == 0 <==> result is None,
        result matches Some(plan) ==> plan.provider == manifest@[0].provider && plan_symbols(plan)
            == entry_symbols(manifest@),
{
    if manifest.len() == 0 {
        return None;
    }
    let mut symbols: Vec<&'static str> = Vec::new();
    let mut k: usize = 0;
    while k < manifest.len()
        invariant
            k <= manifest@.len(),
            static_texts(symbols@) == entry_symbols(manifest@).take(
                k as int,
            ),
        decreases manifest.len() - k,
    {
        let ghost before = symbols@;
        symbols.push(manifest[k].symbol);
        proof {
            lemma_static_texts_push(before, manifest@[k as int].symbol);
            lemma_entry_symbols_take(manifest@, k as int);
        }
        k = k + 1;
    }
    assert(entry_symbols(manifest@).take(k as int) =~= entry_symbols(manifest@));
    Some(RuntimeHelperLinkPlan { provider: manifest[0].provider, symbols })
}

/// The helpers a link needs: all of them when an input could not be
/// simulated, else those left unresolved.
pub open spec fn required_entries(
    manifest: Seq<RuntimeHelperEntry>,
    state: LinkStateView,
) -> Seq<RuntimeHelperEntry> {
    manifest.filter(
        |entry: RuntimeHelperEntry| state.force_all || state.unresolved.contains(entry.symbol@),
    )
}

/// The plan for the helpers that the simulated link leaves unresolved:
/// none when it needs none, a failure when they come from different
/// providers.
pub open spec fn required_plan(manifest: Seq<RuntimeHelperEntry>, state: LinkStateView) -> Result<
    Option<(RuntimeHelperProvider, Seq<Seq<char>>)>,
    Seq<char>,
> {
    let required = required_entries(manifest, state);
    if required.len() == 0 {
        Ok(None)
    } else if exists|k: int|
        0 <= k < required.len() && #[trigger] required[k].provider != required[0].provider {
        Err("runtime-helper requirements select multiple providers"@)
    } else {
        Ok(Some((required[0].provider, entry_symbols(required))))
    }
}

pub open spec fn plan_outcome(result: Result<Option<RuntimeHelperLinkPlan>, LinkError>) -> Result<
    Option<(RuntimeHelperProvider, Seq<Seq<char>>)>,
    Seq<char>,
> {
    match result {
        Ok(Some(plan)) => Ok(Some((plan.provider, plan_symbols(plan)))),
        Ok(None) => Ok(None),
        Err(error) => Err(error.message@),
    }
}

/// The runtime-helper plan once every link input has been simulated.
pub fn required_runtime_helpers(manifest: &[RuntimeHelperEntry], state: &LinkSymbolState) -> (result:
    Result<Option<RuntimeHelperLinkPlan>, LinkError>)
    ensures
        plan_outcome(result) == required_plan(manifest@, state@),
        result matches Err(error) ==> error.code@ == helper_code(),
{
    let ghost pred = |entry: RuntimeHelperEntry|
        state@.force_all || state@.unresolved.contains(entry.symbol@);
    let mut required: Vec<RuntimeHelperEntry> = Vec::new();
    let mut k: usize = 0;
    while k < manifest.len()
        invariant
            k <= manifest@.len(),
            pred == (|entry: RuntimeHelperEntry|
                state@.force_all || state@.unresolved.contains(entry.symbol@)),
            required@ == manifest@.take(k as int).filter(pred),
        decreases manifest.len() - k,
    {
        let entry = manifest[k];
        proof {
            assert(manifest@.take(k + 1).drop_last() =~= manifest@.take(k as int));
            manifest@.take(k as int).lemma_filter_push(entry, pred);
            assert(manifest@.take(k + 1) =~= manifest@.take(k as int).push(entry));
        }
        if state.force_all_runtime_helpers || state.unresolved.contains(entry.symbol) {
            required.push(entry);
        }
        k = k + 1;
    }
    assert(manifest@.take(k as int) =~= manifest@);
    if required.len() == 0 {
        return Ok(None);
    }
    let provider = required[0].provider;
    let mut k: usize = 0;
    while k < required.len()
        invariant
            k <= required@.len(),
            required@.len() > 0,
            provider == required@[0].provider,
            forall|j: int| 0 <= j < k ==> #[trigger] required@[j].provider == provider,
        decreases required.len() - k,
    {
        if required[k].provider != provider {
            return Err(helper_error("runtime-helper requirements select multiple providers".to_owned()));
        }
        k = k + 1;
    }
    let mut symbols: Vec<&'static str> = Vec::new();
    let mut k: usize = 0;
    while k < required.len()
        invariant
            k <= required@.len(),
            static_texts(symbols@) == entry_symbols(required@).take(
                k as int,
            ),
        decreases required.len() - k,
    {
        let ghost before = symbols@;
        symbols.push(required[k].symbol);
        proof {
            lemma_static_texts_push(before, required@[k as int].symbol);
            lemma_entry_symbols_take(required@, k as int);
        }
        k = k + 1;
    }
    assert(entry_symbols(required@).take(k as int) =~= entry_symbols(required@));
    Ok(Some(RuntimeHelperLinkPlan { provider, symbols }))
}

/// The plan's helpers that `symbols` lacks, in plan order.
pub open spec fn missing_helpers(plan: Seq<Seq<char>>, symbols: Set<Seq<char>>) -> Seq<Seq<char>> {
    plan.filter(|symbol: Seq<char>| !symbols.contains(symbol))
}

/// `items` separated by `", "`.
pub open spec fn comma_list(items: Seq<Seq<char>>) -> Seq<char>
    decreases items.len(),
{
    if items.len() == 0 {
        Seq::empty()
    } else if items.len() == 1 {
        items[0]
    } else {
        comma_list(items.drop_last()) + ", "@ + items.last()
    }
}

/// Checks that the provider archive at `path`, whose symbol index holds
/// `symbols`, defines every helper of the plan.
pub fn verify_runtime_helper_symbols(
    path: &str,
    symbols: &SymbolSet,
    plan: &RuntimeHelperLinkPlan,
) -> (result: Result<(), LinkError>)
    ensures
        result is Ok <==> missing_helpers(plan_symbols(*plan), symbols@).len() == 0,
        result matches Err(error) ==> error.code@ == helper_code() && error.message@
            == "compiler builtins provider `"@ + path@ + "` is missing required runtime helpers: "@
            + comma_list(missing_helpers(plan_symbols(*plan), symbols@)),
{
    let ghost names = plan_symbols(*plan);
    let ghost pred = |symbol: Seq<char>| !symbols@.contains(symbol);
    let mut list: Vec<char> = Vec::new();
    let mut count: usize = 0;
    let mut k: usize = 0;
    while k < plan.symbols.len()
        invariant
            k <= plan.symbols@.len(),
            names == plan_symbols(*plan),
            pred == (|symbol: Seq<char>| !symbols@.contains(symbol)),
            count == names.take(k as int).filter(pred).len(),
            count <= k,
            list@ == comma_list(names.take(k as int).filter(pred)),
        decreases plan.symbols.len() - k,
    {
        let symbol = plan.symbols[k];
        proof {
            names.take(k as int).lemma_filter_push(symbol@, pred);
            assert(names.take(k + 1) =~= names.take(k as int).push(symbol@));
        }
        if !symbols.contains(symbol) {
            let ghost before = names.take(k as int).filter(pred);
            if count > 0 {
                push_str(&mut list, ", ");
            }
            push_str(&mut list, symbol);
            count = count + 1;
            proof {
                let after = before.push(symbol@);
                assert(after.drop_last() =~= before);
                if before.len() == 0 {
                    assert(list@ =~= comma_list(after));
                }
            }
        }
        k = k + 1;
    }
    assert(names.take(k as int) =~= names);
    if count > 0 {
        let mut message: Vec<char> = Vec::new();
        push_str(&mut message, "compiler builtins provider `");
        push_str(&mut message, path);
        push_str(&mut message, "` is missing required runtime helpers: ");
        let ghost head = message@;
        let mut j: usize = 0;
        while j < list.len()
            invariant
                j <= list@.len(),
                message@ == head + list@.take(j as int),
            decreases list.len() - j,
        {
            message.push(list[j]);
            j = j + 1;
            assert(message@ =~= head + list@.take(j as int));
        }
        assert(list@.take(j as int) =~= list@);
        return Err(helper_error(string_from_chars(message.as_slice())));
    }
    Ok(())
}

} // verus!
