//! The order in which an artifact bundle is packaged into one object: what
//! is written to the workspace, which tool runs on what, what is inspected,
//! and what is published. Every step works inside the workspace; only the
//! last publishes to the destination, so a failing step leaves the
//! destination as it was.

use vstd::prelude::*;

use crate::text::{push_str, string_from_chars};

verus! {

/// What a written workspace file holds.
#[derive(Clone, Copy, Debug, PartialEq, Eq, Structural)]
pub enum FileContents {
    /// The bundle's primary object.
    PrimaryObject,
    /// The source of the bundle's generated assembly with this index.
    Assembly(usize),
    /// The list of symbols to localize.
    LocalizationList,
}

/// What an inspection checks of a workspace file.
#[derive(Clone, Copy, Debug, PartialEq, Eq, Structural)]
pub enum Inspection {
    /// That it is a relocatable object at all.
    PrimaryObject,
    /// That it is a well-formed generated bridge object.
    GeneratedBridge,
    /// The combined object against the bundle, before or after localization.
    Combined(bool),
    /// The bridge-free final object against the bundle.
    Final,
}

/// One step of packaging; names are workspace file names.
pub enum PackagingStep {
    /// Find an object copier that can localize symbols.
    ProbeObjectCopier,
    Write(String, FileContents),
    Inspect(String, Inspection),
    /// Assemble a source into an object with the compiler driver.
    Assemble(String, String),
    /// Link objects into one relocatable object with the compiler driver.
    PartialLink(Vec<String>, String),
    /// Copy an object with the listed symbols made local.
    Localize(String, String, String),
    /// Move a workspace file to the destination.
    Publish(String),
}

/// A step as plain values.
pub enum StepView {
    ProbeObjectCopier,
    Write(Seq<char>, FileContents),
    Inspect(Seq<char>, Inspection),
    Assemble(Seq<char>, Seq<char>),
    PartialLink(Seq<Seq<char>>, Seq<char>),
    Localize(Seq<char>, Seq<char>, Seq<char>),
    Publish(Seq<char>),
}

pub open spec fn names_view(names: Seq<String>) -> Seq<Seq<char>> {
    names.map_values(|n: String| n@)
}

pub open spec fn step_view(step: PackagingStep) -> StepView {
    match step {
        PackagingStep::ProbeObjectCopier => StepView::ProbeObjectCopier,
        PackagingStep::Write(n, c) => StepView::Write(n@, c),
        PackagingStep::Inspect(n, i) => StepView::Inspect(n@, i),
        PackagingStep::Assemble(a, b) => StepView::Assemble(a@, b@),
        PackagingStep::PartialLink(objects, out) => StepView::PartialLink(names_view(objects@), out@),
        PackagingStep::Localize(l, a, b) => StepView::Localize(l@, a@, b@),
        PackagingStep::Publish(n) => StepView::Publish(n@),
    }
}

pub open spec fn steps_view(steps: Seq<PackagingStep>) -> Seq<StepView> {
    steps.map_values(|s: PackagingStep| step_view(s))
}

/// The steps for the generated assemblies with these stems: each source
/// written, assembled and its object inspected.
pub open spec fn assembly_steps(stems: Seq<Seq<char>>) -> Seq<StepView>
    decreases stems.len(),
{
    if stems.len() == 0 {
        seq![]
    } else {
        let k = stems.len() - 1;
        let stem = stems[k];
        assembly_steps(stems.drop_last()) + seq![
            StepView::Write(stem + ".s"@, FileContents::Assembly(k as usize)),
            StepView::Assemble(stem + ".s"@, stem + ".o"@),
            StepView::Inspect(stem + ".o"@, Inspection::GeneratedBridge),
        ]
    }
}

/// The objects partially linked: the primary one, then each assembly's.
pub open spec fn linked_objects(stems: Seq<Seq<char>>) -> Seq<Seq<char>> {
    seq!["primary.o"@] + stems.map_values(|stem: Seq<char>| stem + ".o"@)
}

/// How packaging goes. A bundle without generated assembly is written,
/// inspected and published as it is, with no tool. Otherwise, where the
/// object format is not Mach-O, an object copier is found first; the
/// primary object is written and inspected, each assembly is assembled and
/// inspected, the objects are linked into one and inspected; Mach-O
/// publishes that object once inspected as localized, other formats first
/// localize the bundle's generated symbols with the copier.
pub open spec fn packaging_plan_spec(needs_tools: bool, macho: bool, stems: Seq<Seq<char>>) -> Seq<StepView> {
    if !needs_tools {
        seq![
            StepView::Write("final.o"@, FileContents::PrimaryObject),
            StepView::Inspect("final.o"@, Inspection::Final),
            StepView::Publish("final.o"@),
        ]
    } else {
        let start = if macho {
            Seq::<StepView>::empty()
        } else {
            seq![StepView::ProbeObjectCopier]
        };
        let finish = if macho {
            seq![
                StepView::Inspect("combined.unlocalized.o"@, Inspection::Combined(true)),
                StepView::Publish("combined.unlocalized.o"@),
            ]
        } else {
            seq![
                StepView::Write("localize-symbols.txt"@, FileContents::LocalizationList),
                StepView::Localize("localize-symbols.txt"@, "combined.unlocalized.o"@, "final.o"@),
                StepView::Inspect("final.o"@, Inspection::Combined(true)),
                StepView::Publish("final.o"@),
            ]
        };
        start + seq![
            StepView::Write("primary.o"@, FileContents::PrimaryObject),
            StepView::Inspect("primary.o"@, Inspection::PrimaryObject),
        ] + assembly_steps(stems) + seq![
            StepView::PartialLink(linked_objects(stems), "combined.unlocalized.o"@),
            StepView::Inspect("combined.unlocalized.o"@, Inspection::Combined(false)),
        ] + finish
    }
}

fn with_suffix(stem: &str, suffix: &str) -> (result: String)
    ensures
        result@ == stem@ + suffix@,
{
    let mut text: Vec<char> = Vec::new();
    push_str(&mut text, stem);
    push_str(&mut text, suffix);
    string_from_chars(text.as_slice())
}

/// The steps that package a bundle: `needs_tools` says whether it has
/// generated assembly, `macho` whether the object format is Mach-O, and
/// `stems` names the generated assemblies in order.
pub fn packaging_plan(needs_tools: bool, macho: bool, stems: &Vec<String>) -> (result: Vec<PackagingStep>)
    ensures
        steps_view(result@) == packaging_plan_spec(needs_tools, macho, names_view(stems@)),
{
    let mut steps: Vec<PackagingStep> = Vec::new();
    if !needs_tools {
        steps.push(PackagingStep::Write("final.o".to_string(), FileContents::PrimaryObject));
        steps.push(PackagingStep::Inspect("final.o".to_string(), Inspection::Final));
        steps.push(PackagingStep::Publish("final.o".to_string()));
        assert(steps_view(steps@) =~= packaging_plan_spec(needs_tools, macho, names_view(stems@)));
        return steps;
    }
    if !macho {
        steps.push(PackagingStep::ProbeObjectCopier);
    }
    steps.push(PackagingStep::Write("primary.o".to_string(), FileContents::PrimaryObject));
    steps.push(PackagingStep::Inspect("primary.o".to_string(), Inspection::PrimaryObject));
    let ghost prefix = steps_view(steps@);
    let mut objects: Vec<String> = Vec::new();
    objects.push("primary.o".to_string());
    let mut k: usize = 0;
    assert(names_view(stems@).take(0) =~= Seq::<Seq<char>>::empty());
    assert(steps_view(steps@) =~= prefix + assembly_steps(names_view(stems@).take(0)));
    assert(names_view(objects@) =~= linked_objects(names_view(stems@).take(0)));
    while k < stems.len()
        invariant
            k <= stems@.len(),
            steps_view(steps@) == prefix + assembly_steps(names_view(stems@).take(k as int)),
            names_view(objects@) == linked_objects(names_view(stems@).take(k as int)),
        decreases stems.len() - k,
    {
        let ghost before = steps@;
        let ghost before_objects = objects@;
        let source = with_suffix(stems[k].as_str(), ".s");
        let object = with_suffix(stems[k].as_str(), ".o");
        let source_again = with_suffix(stems[k].as_str(), ".s");
        let object_again = with_suffix(stems[k].as_str(), ".o");
        let object_listed = with_suffix(stems[k].as_str(), ".o");
        steps.push(PackagingStep::Write(source, FileContents::Assembly(k)));
        steps.push(PackagingStep::Assemble(source_again, object));
        steps.push(PackagingStep::Inspect(object_again, Inspection::GeneratedBridge));
        objects.push(object_listed);
        let ghost taken = names_view(stems@).take(k + 1);
        assert(taken.drop_last() =~= names_view(stems@).take(k as int));
        assert(taken[k as int] == stems@[k as int]@);
        assert(steps_view(steps@) =~= steps_view(before) + seq![
            StepView::Write(stems@[k as int]@ + ".s"@, FileContents::Assembly(k)),
            StepView::Assemble(stems@[k as int]@ + ".s"@, stems@[k as int]@ + ".o"@),
            StepView::Inspect(stems@[k as int]@ + ".o"@, Inspection::GeneratedBridge),
        ]);
        assert(steps_view(steps@) =~= prefix + assembly_steps(taken));
        assert(names_view(objects@) =~= names_view(before_objects).push(stems@[k as int]@ + ".o"@));
        assert(linked_objects(taken) =~= linked_objects(names_view(stems@).take(k as int)).push(
            stems@[k as int]@ + ".o"@,
        ));
        k = k + 1;
    }
    assert(names_view(stems@).take(stems@.len() as int) =~= names_view(stems@));
    let ghost middle = steps_view(steps@);
    steps.push(PackagingStep::PartialLink(objects, "combined.unlocalized.o".to_string()));
    steps.push(PackagingStep::Inspect("combined.unlocalized.o".to_string(), Inspection::Combined(false)));
    if macho {
        steps.push(PackagingStep::Inspect("combined.unlocalized.o".to_string(), Inspection::Combined(true)));
        steps.push(PackagingStep::Publish("combined.unlocalized.o".to_string()));
    } else {
        steps.push(PackagingStep::Write("localize-symbols.txt".to_string(), FileContents::LocalizationList));
        steps.push(
            PackagingStep::Localize(
                "localize-symbols.txt".to_string(),
                "combined.unlocalized.o".to_string(),
                "final.o".to_string(),
            ),
        );
        steps.push(PackagingStep::Inspect("final.o".to_string(), Inspection::Combined(true)));
        steps.push(PackagingStep::Publish("final.o".to_string()));
    }
    proof {
        let all = names_view(stems@);
        let start = if macho {
            Seq::<StepView>::empty()
        } else {
            seq![StepView::ProbeObjectCopier]
        };
        assert(prefix =~= start + seq![
            StepView::Write("primary.o"@, FileContents::PrimaryObject),
            StepView::Inspect("primary.o"@, Inspection::PrimaryObject),
        ]);
        assert(middle == prefix + assembly_steps(all));
        let linked = seq![
            StepView::PartialLink(linked_objects(all), "combined.unlocalized.o"@),
            StepView::Inspect("combined.unlocalized.o"@, Inspection::Combined(false)),
        ];
        let finish = if macho {
            seq![
                StepView::Inspect("combined.unlocalized.o"@, Inspection::Combined(true)),
                StepView::Publish("combined.unlocalized.o"@),
            ]
        } else {
            seq![
                StepView::Write("localize-symbols.txt"@, FileContents::LocalizationList),
                StepView::Localize("localize-symbols.txt"@, "combined.unlocalized.o"@, "final.o"@),
                StepView::Inspect("final.o"@, Inspection::Combined(true)),
                StepView::Publish("final.o"@),
            ]
        };
        assert(steps_view(steps@) =~= middle + linked + finish);
        assert(packaging_plan_spec(needs_tools, macho, all) == prefix + assembly_steps(all) + linked + finish);
    }
    steps
}

/// The list of symbols to localize: each on a line of its own.
pub open spec fn localization_text(symbols: Seq<Seq<char>>) -> Seq<char>
    decreases symbols.len(),
{
    if symbols.len() == 0 {
        seq![]
    } else {
        localization_text(symbols.drop_last()) + symbols.last() + "\n"@
    }
}

/// The text of the localization list.
pub fn localization_list(symbols: &Vec<String>) -> (result: String)
    ensures
        result@ == localization_text(names_view(symbols@)),
{
    let mut text: Vec<char> = Vec::new();
    let mut k: usize = 0;
    while k < symbols.len()
        invariant
            k <= symbols@.len(),
            text@ == localization_text(names_view(symbols@).take(k as int)),
        decreases symbols.len() - k,
    {
        push_str(&mut text, symbols[k].as_str());
        push_str(&mut text, "\n");
        assert(names_view(symbols@).take(k + 1).drop_last() =~= names_view(symbols@).take(k as int));
        k = k + 1;
    }
    assert(names_view(symbols@).take(symbols@.len() as int) =~= names_view(symbols@));
    string_from_chars(text.as_slice())
}

/// Packaging only publishes as its last step, and a bundle without
/// generated assembly is packaged without running any tool.
pub proof fn lemma_packaging_publishes_last(needs_tools: bool, macho: bool, stems: Seq<Seq<char>>)
    ensures
        ({
            let plan = packaging_plan_spec(needs_tools, macho, stems);
            &&& plan.len() > 0 && plan.last() is Publish
            &&& forall|i: int| 0 <= i < plan.len() - 1 ==> !(#[trigger] plan[i] is Publish)
            &&& !needs_tools ==> forall|i: int| 0 <= i < plan.len() ==> {
                &&& !(#[trigger] plan[i] is ProbeObjectCopier)
                &&& !(plan[i] is Assemble)
                &&& !(plan[i] is PartialLink)
                &&& !(plan[i] is Localize)
            }
        }),
{
    lemma_assembly_steps_do_not_publish(stems);
    let plan = packaging_plan_spec(needs_tools, macho, stems);
    if needs_tools {
        let start = if macho {
            Seq::<StepView>::empty()
        } else {
            seq![StepView::ProbeObjectCopier]
        };
        let a = start + seq![
            StepView::Write("primary.o"@, FileContents::PrimaryObject),
            StepView::Inspect("primary.o"@, Inspection::PrimaryObject),
        ];
        let b = a + assembly_steps(stems);
        let c = b + seq![
            StepView::PartialLink(linked_objects(stems), "combined.unlocalized.o"@),
            StepView::Inspect("combined.unlocalized.o"@, Inspection::Combined(false)),
        ];
        assert forall|i: int| 0 <= i < plan.len() - 1 implies !(#[trigger] plan[i] is Publish) by {
            if i < a.len() {
                assert(plan[i] == a[i]);
            } else if i < b.len() {
                assert(plan[i] == b[i]);
                assert(b[i] == assembly_steps(stems)[i - a.len()]);
            } else if i < c.len() {
                assert(plan[i] == c[i]);
            }
        }
    }
}

proof fn lemma_assembly_steps_do_not_publish(stems: Seq<Seq<char>>)
    ensures
        forall|i: int| 0 <= i < assembly_steps(stems).len() ==> !(#[trigger] assembly_steps(stems)[i] is Publish),
        assembly_steps(stems).len() == 3 * stems.len(),
    decreases stems.len(),
{
    if stems.len() > 0 {
        lemma_assembly_steps_do_not_publish(stems.drop_last());
        let rest = assembly_steps(stems.drop_last());
        let all = assembly_steps(stems);
        assert forall|i: int| 0 <= i < all.len() implies !(#[trigger] all[i] is Publish) by {
            if i < rest.len() {
                assert(all[i] == rest[i]);
            }
        }
    }
}

} // verus!
