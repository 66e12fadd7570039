use ccc::link::packaging::{localization_list, packaging_plan, FileContents, Inspection, PackagingStep};

fn describe(steps: &[PackagingStep]) -> Vec<String> {
    steps
        .iter()
        .map(|step| match step {
            PackagingStep::ProbeObjectCopier => "probe".to_owned(),
            PackagingStep::Write(name, FileContents::PrimaryObject) => format!("write {name} primary"),
            PackagingStep::Write(name, FileContents::Assembly(k)) => format!("write {name} assembly {k}"),
            PackagingStep::Write(name, FileContents::LocalizationList) => format!("write {name} list"),
            PackagingStep::Inspect(name, Inspection::PrimaryObject) => format!("inspect {name} primary"),
            PackagingStep::Inspect(name, Inspection::GeneratedBridge) => format!("inspect {name} bridge"),
            PackagingStep::Inspect(name, Inspection::Combined(localized)) => format!("inspect {name} combined {localized}"),
            PackagingStep::Inspect(name, Inspection::Final) => format!("inspect {name} final"),
            PackagingStep::Assemble(source, object) => format!("assemble {source} {object}"),
            PackagingStep::PartialLink(objects, output) => format!("link {} {output}", objects.join(",")),
            PackagingStep::Localize(list, input, output) => format!("localize {list} {input} {output}"),
            PackagingStep::Publish(name) => format!("publish {name}"),
        })
        .collect()
}

#[test]
fn a_bridge_free_bundle_is_published_without_tools() {
    let plan = packaging_plan(false, false, &vec!["ignored".to_owned()]);
    assert_eq!(describe(&plan), ["write final.o primary", "inspect final.o final", "publish final.o"]);
}

#[test]
fn elf_packaging_localizes_before_publishing() {
    let plan = packaging_plan(true, false, &vec!["entry".to_owned(), "va".to_owned()]);
    assert_eq!(
        describe(&plan),
        [
            "probe",
            "write primary.o primary",
            "inspect primary.o primary",
            "write entry.s assembly 0",
            "assemble entry.s entry.o",
            "inspect entry.o bridge",
            "write va.s assembly 1",
            "assemble va.s va.o",
            "inspect va.o bridge",
            "link primary.o,entry.o,va.o combined.unlocalized.o",
            "inspect combined.unlocalized.o combined false",
            "write localize-symbols.txt list",
            "localize localize-symbols.txt combined.unlocalized.o final.o",
            "inspect final.o combined true",
            "publish final.o",
        ]
    );
}

#[test]
fn macho_packaging_publishes_the_combined_object() {
    let plan = packaging_plan(true, true, &vec!["entry".to_owned()]);
    assert_eq!(
        describe(&plan),
        [
            "write primary.o primary",
            "inspect primary.o primary",
            "write entry.s assembly 0",
            "assemble entry.s entry.o",
            "inspect entry.o bridge",
            "link primary.o,entry.o combined.unlocalized.o",
            "inspect combined.unlocalized.o combined false",
            "inspect combined.unlocalized.o combined true",
            "publish combined.unlocalized.o",
        ]
    );
}

#[test]
fn the_localization_list_has_one_symbol_per_line() {
    assert_eq!(localization_list(&vec!["a".to_owned(), "b".to_owned()]), "a\nb\n");
    assert_eq!(localization_list(&Vec::new()), "");
}
