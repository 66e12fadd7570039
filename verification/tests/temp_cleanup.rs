use ccc::link::temp_cleanup::{
    RegisteredTemporaryFile, ReplacementAction, TemporaryKind, TemporaryRegistry,
    next_replacement_action,
};

#[test]
fn registrations_are_owned_until_disarmed() {
    let mut registry = TemporaryRegistry::new();
    let mut file = RegisteredTemporaryFile::create("/tmp/a.o".to_owned(), &mut registry);
    let other = RegisteredTemporaryFile::create("/tmp/b.o".to_owned(), &mut registry);
    assert_eq!(file.path(), "/tmp/a.o");
    assert_eq!(other.path(), "/tmp/b.o");
    let paths = registry.registered_paths();
    assert_eq!(paths.len(), 2);
    assert_eq!(paths[0].path, "/tmp/a.o");
    assert_eq!(paths[1].path, "/tmp/b.o");
    file.disarm(&mut registry);
    let paths = registry.registered_paths();
    assert_eq!(paths.len(), 1);
    assert_eq!(paths[0].path, "/tmp/b.o");
    assert!(file.release(&mut registry).is_none());
}

#[test]
fn a_dropped_registration_hands_back_its_path_once() {
    let mut registry = TemporaryRegistry::new();
    let mut file = RegisteredTemporaryFile::create("/tmp/a.o".to_owned(), &mut registry);
    file.replace_with_directory(&mut registry);
    assert_eq!(registry.registered_paths()[0].kind, TemporaryKind::Directory);
    let released = file.release(&mut registry).unwrap();
    assert_eq!(released.path, "/tmp/a.o");
    assert_eq!(released.kind, TemporaryKind::Directory);
    assert!(registry.registered_paths().is_empty());
    assert!(file.release(&mut registry).is_none());
}

#[test]
fn a_failed_rename_keeps_the_registration() {
    let mut registry = TemporaryRegistry::new();
    let mut file = RegisteredTemporaryFile::create("/tmp/a.o".to_owned(), &mut registry);
    assert_eq!(
        file.rename_to(&mut registry, Err("denied".to_owned())),
        Err("denied".to_owned())
    );
    assert_eq!(registry.registered_paths().len(), 1);
    assert_eq!(file.rename_to(&mut registry, Ok(())), Ok(()));
    assert!(registry.registered_paths().is_empty());
}

#[test]
fn directory_replacement_runs_its_moves_in_order() {
    let mut registry = TemporaryRegistry::new();
    let mut replacement = RegisteredTemporaryFile::create("/tmp/new".to_owned(), &mut registry);
    let _backup = RegisteredTemporaryFile::create("/tmp/backup".to_owned(), &mut registry);
    let mut step = ReplacementAction::RemoveBackupPlaceholder;
    let mut performed = Vec::new();
    while !matches!(
        step,
        ReplacementAction::Replaced | ReplacementAction::Fail | ReplacementAction::FailBoth(_)
    ) {
        performed.push(step.clone());
        step = replacement.replace_directory_with_backup(&mut registry, &step, &Ok(()));
    }
    assert_eq!(step, ReplacementAction::Replaced);
    assert_eq!(
        performed,
        vec![
            ReplacementAction::RemoveBackupPlaceholder,
            ReplacementAction::DisplaceDestination,
            ReplacementAction::Publish,
        ]
    );
    let paths = registry.registered_paths();
    assert_eq!(paths.len(), 1);
    assert_eq!(paths[0].path, "/tmp/backup");
}

#[test]
fn failed_publication_restores_and_reports_both_failures() {
    let publish = next_replacement_action(&ReplacementAction::Publish, &Err("busy".to_owned()));
    assert_eq!(publish, ReplacementAction::RestoreDestination("busy".to_owned()));
    assert_eq!(next_replacement_action(&publish, &Ok(())), ReplacementAction::Fail);
    assert_eq!(
        next_replacement_action(&publish, &Err("gone".to_owned())),
        ReplacementAction::FailBoth(
            "cannot publish replacement (busy) or restore prior directory (gone)".to_owned()
        )
    );
    assert_eq!(
        next_replacement_action(
            &ReplacementAction::DisplaceDestination,
            &Err("denied".to_owned())
        ),
        ReplacementAction::Fail
    );
}
