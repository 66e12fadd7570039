//! The registry of temporary paths that are removed on drop or on a fatal
//! signal, and the bookkeeping of promoting one to its destination.
//!
//! The registry itself is plain data: whoever owns it (one process-wide
//! instance behind a lock) performs the file-system operations and reports
//! their outcomes here, so that a registration is released exactly when the
//! path it tracks has been promoted or disarmed.
use std::collections::BTreeMap;
use crate::text::concat5;
use vstd::prelude::*;
use vstd::std_specs::btree::{axiom_spec_keys_iter, spec_keys_iter};
use vstd::std_specs::iter::IteratorSpec;

verus! {

broadcast use {vstd::std_specs::btree::group_btree_axioms, vstd::laws_cmp::group_laws_cmp};

/// Whether a temporary path is a file or a directory tree.
#[derive(Clone, Copy, Debug, PartialEq, Eq, Structural)]
pub enum TemporaryKind {
    File,
    Directory,
}

/// A path that cleanup would remove, with how to remove it.
#[derive(Clone, Debug)]
pub struct TemporaryPath {
    pub path: String,
    pub kind: TemporaryKind,
}

/// The registered temporaries, keyed by their registration number.
pub struct TemporaryRegistry {
    next_registration: u64,
    temporaries: BTreeMap<u64, TemporaryPath>,
}

/// The tracked paths by registration number, each as its path and kind.
pub open spec fn entries_view(map: Map<u64, TemporaryPath>) -> Map<u64, (Seq<char>, TemporaryKind)> {
    map.map_values(|entry: TemporaryPath| (entry.path@, entry.kind))
}

/// Whether `entries` holds `path` under some registration number.
pub open spec fn holds(entries: Map<u64, (Seq<char>, TemporaryKind)>, path: TemporaryPath) -> bool {
    exists|id: u64| #[trigger] entries.contains_key(id) && entries[id] == (path.path@, path.kind)
}

impl TemporaryRegistry {
    /// What the registry holds.
    pub closed spec fn entries(&self) -> Map<u64, (Seq<char>, TemporaryKind)> {
        entries_view(self.temporaries@)
    }

    /// The number the next registration receives.
    pub closed spec fn next_id(&self) -> u64 {
        self.next_registration
    }

    /// An empty registry.
    pub fn new() -> (result: Self)
        ensures
            result.entries() == Map::<u64, (Seq<char>, TemporaryKind)>::empty(),
            result.next_id() == 0,
    {
        let result = TemporaryRegistry { next_registration: 0, temporaries: BTreeMap::new() };
        assert(result.entries() =~= Map::<u64, (Seq<char>, TemporaryKind)>::empty());
        result
    }

    /// Every registered path, in registration order: what a fatal signal removes.
    pub fn registered_paths(&self) -> (result: Vec<TemporaryPath>)
        ensures
            result.len() == self.entries().len(),
            forall|i: int| 0 <= i < result.len() ==> holds(self.entries(), #[trigger] result[i]),
    {
        let mut result: Vec<TemporaryPath> = Vec::new();
        let ghost map = self.entries();
        proof {
            axiom_spec_keys_iter(&self.temporaries);
        }
        for id in iter: self.temporaries.keys()
            invariant
                map == self.entries(),
                iter.seq() == spec_keys_iter(&self.temporaries).remaining(),
                result.len() == iter.index(),
                forall|i: int| 0 <= i < result.len() ==> holds(map, #[trigger] result[i]),
        {
            proof {
                let k = *iter.seq()[iter.index() as int];
                assert(iter.seq().unref().to_set().contains(k));
                assert(self.temporaries@.contains_key(*id));
            }
            match self.temporaries.get(id) {
                Some(entry) => {
                    result.push(TemporaryPath { path: entry.path.clone(), kind: entry.kind });
                    assert(map.contains_key(*id));
                },
                None => {},
            }
        }
        assert(self.entries().dom() =~= self.temporaries@.dom());
        result
    }

    /// Forgets every registered path, after a fatal signal removed them all.
    pub fn clear(&mut self)
        ensures
            final(self).entries() == Map::<u64, (Seq<char>, TemporaryKind)>::empty(),
            final(self).next_id() == old(self).next_id(),
    {
        self.temporaries.clear();
        assert(self.entries() =~= Map::<u64, (Seq<char>, TemporaryKind)>::empty());
    }
}

impl TemporaryRegistry {
    /// Registers `path` under the next registration number; the counter
    /// wraps around as a process-wide atomic counter does.
    fn insert(&mut self, path: String, kind: TemporaryKind) -> (result: Registration)
        ensures
            final(self).entries() == old(self).entries().insert(old(self).next_id(), (path@, kind)),
            final(self).next_id() == old(self).next_id().wrapping_add(1),
            result@ == (RegistrationView { id: Some(old(self).next_id()), path: path@, kind }),
    {
        let id = self.next_registration;
        self.next_registration = self.next_registration.wrapping_add(1);
        let ghost before = self.temporaries@;
        self.temporaries.insert(id, TemporaryPath { path: path.clone(), kind });
        assert(self.entries() =~= entries_view(before).insert(id, (path@, kind)));
        Registration { id: Some(id), path, kind }
    }

    /// Removes registration `id`, if it is registered.
    fn remove(&mut self, id: u64)
        ensures
            final(self).entries() == old(self).entries().remove(id),
            final(self).next_id() == old(self).next_id(),
    {
        let ghost before = self.temporaries@;
        self.temporaries.remove(&id);
        assert(self.entries() =~= entries_view(before).remove(id));
    }
}

/// What a registration holds: its number while armed, its path and kind.
pub struct RegistrationView {
    pub id: Option<u64>,
    pub path: Seq<char>,
    pub kind: TemporaryKind,
}

/// One registered temporary path. While it holds a registration number,
/// cleanup owns the path.
struct Registration {
    id: Option<u64>,
    path: String,
    kind: TemporaryKind,
}

impl View for Registration {
    type V = RegistrationView;

    closed spec fn view(&self) -> RegistrationView {
        RegistrationView { id: self.id, path: self.path@, kind: self.kind }
    }
}

/// The registry after `registration` gives up its number.
pub open spec fn released(
    entries: Map<u64, (Seq<char>, TemporaryKind)>,
    registration: RegistrationView,
) -> Map<u64, (Seq<char>, TemporaryKind)> {
    match registration.id {
        Some(id) => entries.remove(id),
        None => entries,
    }
}

impl Registration {
    fn path(&self) -> (result: &str)
        ensures
            result@ == self@.path,
    {
        self.path.as_str()
    }

    /// Gives up the registration number, so that cleanup no longer owns the path.
    fn disarm(&mut self, registry: &mut TemporaryRegistry)
        ensures
            final(self)@ == (RegistrationView { id: None, ..old(self)@ }),
            final(registry).entries() == released(old(registry).entries(), old(self)@),
            final(registry).next_id() == old(registry).next_id(),
    {
        if let Some(id) = self.id.take() {
            registry.remove(id);
        }
    }

    /// Records the kind of the path, here and in the registry entry.
    fn set_kind(&mut self, kind: TemporaryKind, registry: &mut TemporaryRegistry)
        ensures
            final(self)@ == (RegistrationView { kind, ..old(self)@ }),
            final(registry).entries() == match old(self)@.id {
                Some(id) => if old(registry).entries().contains_key(id) {
                    old(registry).entries().insert(id, (old(registry).entries()[id].0, kind))
                } else {
                    old(registry).entries()
                },
                None => old(registry).entries(),
            },
            final(registry).next_id() == old(registry).next_id(),
    {
        self.kind = kind;
        if let Some(id) = self.id {
            let ghost before = registry.temporaries@;
            let found = match registry.temporaries.get(&id) {
                Some(entry) => Some(entry.path.clone()),
                None => None,
            };
            if let Some(path) = found {
                registry.temporaries.insert(id, TemporaryPath { path, kind });
                assert(registry.entries() =~= entries_view(before).insert(
                    id,
                    (entries_view(before)[id].0, kind),
                ));
            }
        }
    }

    /// Takes the path away from cleanup and returns what must be removed, if
    /// the registration still owned it.
    fn cleanup(&mut self, registry: &mut TemporaryRegistry) -> (result: Option<TemporaryPath>)
        ensures
            final(self)@ == (RegistrationView { id: None, ..old(self)@ }),
            final(registry).entries() == released(old(registry).entries(), old(self)@),
            final(registry).next_id() == old(registry).next_id(),
            match result {
                Some(entry) => old(self)@.id is Some && entry.path@ == old(self)@.path
                    && entry.kind == old(self)@.kind,
                None => old(self)@.id is None,
            },
    {
        match self.id.take() {
            Some(id) => {
                registry.remove(id);
                Some(TemporaryPath { path: self.path.clone(), kind: self.kind })
            },
            None => None,
        }
    }
}

/// A collision-resistant temporary file, owned by cleanup until it is
/// removed or deliberately promoted to its final destination.
pub struct RegisteredTemporaryFile {
    registration: Registration,
}

impl View for RegisteredTemporaryFile {
    type V = RegistrationView;

    closed spec fn view(&self) -> RegistrationView {
        self.registration@
    }
}

/// The file-system step of replacing a directory while keeping a backup.
#[derive(Clone, Debug, PartialEq, Eq)]
pub enum ReplacementAction {
    /// Remove the empty placeholder directory at the backup path.
    RemoveBackupPlaceholder,
    /// Move the destination directory to the backup path.
    DisplaceDestination,
    /// Move the replacement directory to the destination.
    Publish,
    /// Move the backup back to the destination, after publishing failed
    /// with the given message.
    RestoreDestination(String),
    /// Stop with the error of the step just performed (after a failed
    /// restoration: with the publish error).
    Fail,
    /// Stop: neither publishing nor restoring worked.
    FailBoth(String),
    /// The replacement is in place and no longer owned by cleanup.
    Replaced,
}

/// Whether `next` is the step that follows `done` when it ended with
/// `outcome`: the three moves run in order while each succeeds, a failed
/// publication restores the destination, and a failed restoration reports
/// both failures.
pub open spec fn replacement_follows(
    done: ReplacementAction,
    outcome: Result<(), String>,
    result: ReplacementAction,
) -> bool {
    match done {
        ReplacementAction::RemoveBackupPlaceholder => result == if outcome is Ok {
            ReplacementAction::DisplaceDestination
        } else {
            ReplacementAction::Fail
        },
        ReplacementAction::DisplaceDestination => result == if outcome is Ok {
            ReplacementAction::Publish
        } else {
            ReplacementAction::Fail
        },
        ReplacementAction::Publish => match outcome {
            Ok(()) => result == ReplacementAction::Replaced,
            Err(publish) => result matches ReplacementAction::RestoreDestination(message)
                && message@ == publish@,
        },
        ReplacementAction::RestoreDestination(publish) => match outcome {
            Ok(()) => result == ReplacementAction::Fail,
            Err(restore) => result matches ReplacementAction::FailBoth(message) && message@
                == "cannot publish replacement ("@ + publish@ + ") or restore prior directory ("@
                + restore@ + ")"@,
        },
        _ => result == done,
    }
}

/// The step that follows `done` when it ended with `outcome`.
pub fn next_replacement_action(done: &ReplacementAction, outcome: &Result<(), String>) -> (result:
    ReplacementAction)
    ensures
        replacement_follows(*done, *outcome, result),
{
    match done {
        ReplacementAction::RemoveBackupPlaceholder => match outcome {
            Ok(()) => ReplacementAction::DisplaceDestination,
            Err(_) => ReplacementAction::Fail,
        },
        ReplacementAction::DisplaceDestination => match outcome {
            Ok(()) => ReplacementAction::Publish,
            Err(_) => ReplacementAction::Fail,
        },
        ReplacementAction::Publish => match outcome {
            Ok(()) => ReplacementAction::Replaced,
            Err(publish) => ReplacementAction::RestoreDestination(publish.clone()),
        },
        ReplacementAction::RestoreDestination(publish) => match outcome {
            Ok(()) => ReplacementAction::Fail,
            Err(restore) => ReplacementAction::FailBoth(concat5(
                "cannot publish replacement (",
                publish.as_str(),
                ") or restore prior directory (",
                restore.as_str(),
                ")",
            )),
        },
        ReplacementAction::Fail => ReplacementAction::Fail,
        ReplacementAction::FailBoth(message) => ReplacementAction::FailBoth(message.clone()),
        ReplacementAction::Replaced => ReplacementAction::Replaced,
    }
}

impl RegisteredTemporaryFile {
    /// Registers a file just created at `path` (the caller creates it while
    /// holding the registry).
    pub fn create(path: String, registry: &mut TemporaryRegistry) -> (result: Self)
        ensures
            final(registry).entries() == old(registry).entries().insert(
                old(registry).next_id(),
                (path@, TemporaryKind::File),
            ),
            final(registry).next_id() == old(registry).next_id().wrapping_add(1),
            result@ == (RegistrationView {
                id: Some(old(registry).next_id()),
                path: path@,
                kind: TemporaryKind::File,
            }),
    {
        RegisteredTemporaryFile { registration: registry.insert(path, TemporaryKind::File) }
    }

    /// The path owned by this registration.
    pub fn path(&self) -> (result: &str)
        ensures
            result@ == self@.path,
    {
        self.registration.path()
    }

    /// Records that the placeholder file was replaced by an empty directory,
    /// which cleanup then removes as a tree.
    pub fn replace_with_directory(&mut self, registry: &mut TemporaryRegistry)
        ensures
            final(self)@ == (RegistrationView { kind: TemporaryKind::Directory, ..old(self)@ }),
            final(registry).entries() == match old(self)@.id {
                Some(id) => if old(registry).entries().contains_key(id) {
                    old(registry).entries().insert(
                        id,
                        (old(registry).entries()[id].0, TemporaryKind::Directory),
                    )
                } else {
                    old(registry).entries()
                },
                None => old(registry).entries(),
            },
            final(registry).next_id() == old(registry).next_id(),
    {
        self.registration.set_kind(TemporaryKind::Directory, registry);
    }

    /// Accounts for the rename of the path to its destination, which the
    /// caller performed while holding the registry: once it succeeded, the
    /// registration is released; a failed rename leaves everything owned.
    pub fn rename_to(&mut self, registry: &mut TemporaryRegistry, renamed: Result<(), String>) -> (result:
        Result<(), String>)
        ensures
            result == renamed,
            renamed is Ok ==> final(self)@ == (RegistrationView { id: None, ..old(self)@ }),
            renamed is Ok ==> final(registry).entries() == released(
                old(registry).entries(),
                old(self)@,
            ),
            renamed is Err ==> final(self)@ == old(self)@,
            renamed is Err ==> final(registry).entries() == old(registry).entries(),
            final(registry).next_id() == old(registry).next_id(),
    {
        if renamed.is_ok() {
            self.registration.disarm(registry);
        }
        renamed
    }

    /// Advances the replacement of a destination directory by this one,
    /// keeping `backup` for the displaced tree: `done` is the step the caller
    /// just performed while holding the registry and `outcome` how it ended.
    /// Once the replacement is in place this registration is released; the
    /// backup stays owned by cleanup.
    pub fn replace_directory_with_backup(
        &mut self,
        registry: &mut TemporaryRegistry,
        done: &ReplacementAction,
        outcome: &Result<(), String>,
    ) -> (result: ReplacementAction)
        ensures
            replacement_follows(*done, *outcome, result),
            result == ReplacementAction::Replaced ==> final(self)@ == (RegistrationView {
                id: None,
                ..old(self)@
            }),
            result == ReplacementAction::Replaced ==> final(registry).entries() == released(
                old(registry).entries(),
                old(self)@,
            ),
            result != ReplacementAction::Replaced ==> final(self)@ == old(self)@,
            result != ReplacementAction::Replaced ==> final(registry).entries() == old(
                registry,
            ).entries(),
            final(registry).next_id() == old(registry).next_id(),
    {
        let next = next_replacement_action(done, outcome);
        if matches!(next, ReplacementAction::Replaced) {
            self.registration.disarm(registry);
        }
        next
    }

    /// Stops owning a file that was promoted by other means.
    pub fn disarm(&mut self, registry: &mut TemporaryRegistry)
        ensures
            final(self)@ == (RegistrationView { id: None, ..old(self)@ }),
            final(registry).entries() == released(old(registry).entries(), old(self)@),
            final(registry).next_id() == old(registry).next_id(),
    {
        self.registration.disarm(registry);
    }

    /// Takes the path away from cleanup when the owner is dropped, returning
    /// what must be removed if it still owned it.
    pub fn release(&mut self, registry: &mut TemporaryRegistry) -> (result: Option<TemporaryPath>)
        ensures
            final(self)@ == (RegistrationView { id: None, ..old(self)@ }),
            final(registry).entries() == released(old(registry).entries(), old(self)@),
            final(registry).next_id() == old(registry).next_id(),
            match result {
                Some(entry) => old(self)@.id is Some && entry.path@ == old(self)@.path
                    && entry.kind == old(self)@.kind,
                None => old(self)@.id is None,
            },
    {
        self.registration.cleanup(registry)
    }
}

} // verus!

verus! {

/// A temporary directory tree, removed as a whole unless cleaned up first.
pub struct RegisteredTemporaryDirectory {
    registration: Registration,
}

impl View for RegisteredTemporaryDirectory {
    type V = RegistrationView;

    closed spec fn view(&self) -> RegistrationView {
        self.registration@
    }
}

impl RegisteredTemporaryDirectory {
    /// Registers a directory just created at `path`.
    pub fn create(path: String, registry: &mut TemporaryRegistry) -> (result: Self)
        ensures
            final(registry).entries() == old(registry).entries().insert(
                old(registry).next_id(),
                (path@, TemporaryKind::Directory),
            ),
            final(registry).next_id() == old(registry).next_id().wrapping_add(1),
            result@ == (RegistrationView {
                id: Some(old(registry).next_id()),
                path: path@,
                kind: TemporaryKind::Directory,
            }),
    {
        RegisteredTemporaryDirectory { registration: registry.insert(path, TemporaryKind::Directory) }
    }

    /// The directory owned by this registration.
    pub fn path(&self) -> (result: &str)
        ensures
            result@ == self@.path,
    {
        self.registration.path()
    }

    /// Takes the directory away from cleanup, returning what must be removed
    /// if it still owned it.
    pub fn cleanup(&mut self, registry: &mut TemporaryRegistry) -> (result: Option<TemporaryPath>)
        ensures
            final(self)@ == (RegistrationView { id: None, ..old(self)@ }),
            final(registry).entries() == released(old(registry).entries(), old(self)@),
            final(registry).next_id() == old(registry).next_id(),
            match result {
                Some(entry) => old(self)@.id is Some && entry.path@ == old(self)@.path
                    && entry.kind == old(self)@.kind,
                None => old(self)@.id is None,
            },
    {
        self.registration.cleanup(registry)
    }
}

} // verus!

verus! {

/// Disarming a file right after registering it leaves the registry holding
/// exactly what it held before.
pub proof fn lemma_disarm_undoes_registration(
    entries: Map<u64, (Seq<char>, TemporaryKind)>,
    id: u64,
    path: Seq<char>,
    kind: TemporaryKind,
)
    requires
        !entries.contains_key(id),
    ensures
        released(entries.insert(id, (path, kind)), RegistrationView { id: Some(id), path, kind })
            == entries,
{
    assert(entries.insert(id, (path, kind)).remove(id) =~= entries);
}

} // verus!

verus! {

/// A directory replacement completes only through successful moves: three
/// successful steps from the first one replace the directory, and a step
/// that fails never reports the replacement as done.
pub proof fn lemma_replacement_needs_every_move(
    first: ReplacementAction,
    second: ReplacementAction,
    third: ReplacementAction,
    done: ReplacementAction,
    error: String,
    after_failure: ReplacementAction,
)
    requires
        replacement_follows(ReplacementAction::RemoveBackupPlaceholder, Ok(()), first),
        replacement_follows(first, Ok(()), second),
        replacement_follows(second, Ok(()), third),
        done != ReplacementAction::Replaced,
        replacement_follows(done, Err(error), after_failure),
    ensures
        first == ReplacementAction::DisplaceDestination,
        second == ReplacementAction::Publish,
        third == ReplacementAction::Replaced,
        after_failure != ReplacementAction::Replaced,
{
}

} // verus!
