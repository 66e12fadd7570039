//! Include search: the ordered list of directories that `#include` searches,
//! and the candidate paths one directive tries in turn.

use vstd::prelude::*;

use crate::link::arguments::{is_absolute_path, join_path, path_is_absolute, path_join};
use crate::pp::files::{FileProvider, LoadedFile, ReadError};
use crate::pp::options::{IncludePath, IncludePathKind};
use crate::text::str_eq;

verus! {

/// Where a toolchain-configured include directory stands in the search order.
#[derive(Clone, Copy, Debug, PartialEq, Eq, Structural)]
pub enum SystemIncludeKind {
    Quote,
    Builtin,
    System,
    Framework,
    After,
}

/// An include directory that the toolchain configuration supplies.
#[derive(Clone, Debug)]
pub struct SystemInclude {
    pub path: String,
    pub kind: SystemIncludeKind,
}

/// One directory of the search list: whether headers found there are system
/// headers, and whether only quoted includes search it.
#[derive(Clone, Debug)]
pub struct SearchEntry {
    pub path: String,
    pub system: bool,
    pub quote_only: bool,
}

pub open spec fn entry_view(e: SearchEntry) -> (Seq<char>, bool, bool) {
    (e.path@, e.system, e.quote_only)
}

pub open spec fn entries_view(s: Seq<SearchEntry>) -> Seq<(Seq<char>, bool, bool)> {
    s.map_values(|e: SearchEntry| entry_view(e))
}

/// The command-line directories of one kind, in order.
pub open spec fn option_entries(
    paths: Seq<IncludePath>,
    kind: IncludePathKind,
    system: bool,
) -> Seq<(Seq<char>, bool, bool)>
    decreases paths.len(),
{
    if paths.len() == 0 {
        seq![]
    } else {
        let rest = option_entries(paths.drop_last(), kind, system);
        if paths.last().kind == kind {
            rest.push((paths.last().path@, system, kind == IncludePathKind::Quote))
        } else {
            rest
        }
    }
}

/// The configured directories of one kind, in order.
pub open spec fn configured_entries(
    includes: Seq<SystemInclude>,
    kind: SystemIncludeKind,
    system: bool,
    quote_only: bool,
) -> Seq<(Seq<char>, bool, bool)>
    decreases includes.len(),
{
    if includes.len() == 0 {
        seq![]
    } else {
        let rest = configured_entries(includes.drop_last(), kind, system, quote_only);
        if includes.last().kind == kind {
            rest.push((includes.last().path@, system, quote_only))
        } else {
            rest
        }
    }
}

pub open spec fn has_path(s: Seq<(Seq<char>, bool, bool)>, path: Seq<char>) -> bool {
    exists|i: int| 0 <= i < s.len() && (#[trigger] s[i]).0 == path
}

/// The resource directory's `include`, unless a directory before it has that
/// path already.
pub open spec fn resource_entries(
    before: Seq<(Seq<char>, bool, bool)>,
    resource_dir: Option<Seq<char>>,
) -> Seq<(Seq<char>, bool, bool)> {
    match resource_dir {
        Some(dir) => {
            let path = path_join(dir, "include"@);
            if has_path(before, path) {
                seq![]
            } else {
                seq![(path, true, false)]
            }
        },
        None => seq![],
    }
}

pub open spec fn leading_entries(
    paths: Seq<IncludePath>,
    configured: Seq<SystemInclude>,
) -> Seq<(Seq<char>, bool, bool)> {
    option_entries(paths, IncludePathKind::Quote, false) + configured_entries(
        configured,
        SystemIncludeKind::Quote,
        false,
        true,
    ) + option_entries(paths, IncludePathKind::User, false) + option_entries(
        paths,
        IncludePathKind::System,
        true,
    ) + option_entries(paths, IncludePathKind::Resource, true)
}

pub open spec fn trailing_entries(
    paths: Seq<IncludePath>,
    configured: Seq<SystemInclude>,
) -> Seq<(Seq<char>, bool, bool)> {
    configured_entries(configured, SystemIncludeKind::Builtin, true, false) + configured_entries(
        configured,
        SystemIncludeKind::System,
        true,
        false,
    ) + configured_entries(configured, SystemIncludeKind::Framework, true, false)
        + option_entries(paths, IncludePathKind::After, true) + configured_entries(
        configured,
        SystemIncludeKind::After,
        true,
        false,
    )
}

/// The search list before repeated entries are dropped: quote directories,
/// user directories, system and resource directories, the resource
/// directory's `include`, the configured built-in, system and framework
/// directories, then the `after` directories.
pub open spec fn search_order(
    paths: Seq<IncludePath>,
    configured: Seq<SystemInclude>,
    resource_dir: Option<Seq<char>>,
) -> Seq<(Seq<char>, bool, bool)> {
    let leading = leading_entries(paths, configured);
    leading + resource_entries(leading, resource_dir) + trailing_entries(paths, configured)
}

/// `s` with every item that occurred before dropped, first occurrences kept in order.
pub open spec fn first_occurrences<A>(s: Seq<A>) -> Seq<A>
    decreases s.len(),
{
    if s.len() == 0 {
        s
    } else {
        let rest = first_occurrences(s.drop_last());
        if rest.contains(s.last()) {
            rest
        } else {
            rest.push(s.last())
        }
    }
}

pub open spec fn text_option(o: Option<&str>) -> Option<Seq<char>> {
    match o {
        Some(t) => Some(t@),
        None => None,
    }
}

proof fn lemma_entries_view_push(s: Seq<SearchEntry>, e: SearchEntry)
    ensures
        entries_view(s.push(e)) == entries_view(s).push(entry_view(e)),
{
    assert(entries_view(s.push(e)) =~= entries_view(s).push(entry_view(e)));
}

fn push_option_entries(
    entries: &mut Vec<SearchEntry>,
    paths: &[IncludePath],
    kind: IncludePathKind,
    system: bool,
)
    ensures
        entries_view(final(entries)@) == entries_view(old(entries)@) + option_entries(paths@, kind, system),
{
    let ghost start = entries@;
    let mut i: usize = 0;
    assert(paths@.take(0) =~= Seq::<IncludePath>::empty());
    assert(entries_view(start) + seq![] =~= entries_view(start));
    while i < paths.len()
        invariant
            i <= paths@.len(),
            entries_view(entries@) == entries_view(start) + option_entries(paths@.take(i as int), kind, system),
        decreases paths.len() - i,
    {
        assert(paths@.take(i + 1).drop_last() =~= paths@.take(i as int));
        assert(paths@.take(i + 1).last() == paths@[i as int]);
        if paths[i].kind == kind {
            let entry = SearchEntry {
                path: paths[i].path.clone(),
                system,
                quote_only: kind == IncludePathKind::Quote,
            };
            proof {
                lemma_entries_view_push(entries@, entry);
            }
            entries.push(entry);
            assert(entries_view(entries@) =~= entries_view(start) + option_entries(
                paths@.take(i + 1),
                kind,
                system,
            ));
        }
        i = i + 1;
    }
    assert(paths@.take(paths@.len() as int) =~= paths@);
}

fn push_configured_entries(
    entries: &mut Vec<SearchEntry>,
    includes: &[SystemInclude],
    kind: SystemIncludeKind,
    system: bool,
    quote_only: bool,
)
    ensures
        entries_view(final(entries)@) == entries_view(old(entries)@) + configured_entries(includes@, kind, system, quote_only),
{
    let ghost start = entries@;
    let mut i: usize = 0;
    assert(includes@.take(0) =~= Seq::<SystemInclude>::empty());
    assert(entries_view(start) + seq![] =~= entries_view(start));
    while i < includes.len()
        invariant
            i <= includes@.len(),
            entries_view(entries@) == entries_view(start) + configured_entries(
                includes@.take(i as int),
                kind,
                system,
                quote_only,
            ),
        decreases includes.len() - i,
    {
        assert(includes@.take(i + 1).drop_last() =~= includes@.take(i as int));
        assert(includes@.take(i + 1).last() == includes@[i as int]);
        if includes[i].kind == kind {
            let entry = SearchEntry { path: includes[i].path.clone(), system, quote_only };
            proof {
                lemma_entries_view_push(entries@, entry);
            }
            entries.push(entry);
            assert(entries_view(entries@) =~= entries_view(start) + configured_entries(
                includes@.take(i + 1),
                kind,
                system,
                quote_only,
            ));
        }
        i = i + 1;
    }
    assert(includes@.take(includes@.len() as int) =~= includes@);
}

fn same_entry(a: &SearchEntry, b: &SearchEntry) -> (result: bool)
    ensures
        result == (entry_view(*a) == entry_view(*b)),
{
    a.system == b.system && a.quote_only == b.quote_only && str_eq(a.path.as_str(), b.path.as_str())
}

fn any_has_path(entries: &Vec<SearchEntry>, path: &str) -> (result: bool)
    ensures
        result == has_path(entries_view(entries@), path@),
{
    let mut i: usize = 0;
    while i < entries.len()
        invariant
            i <= entries@.len(),
            forall|j: int| 0 <= j < i ==> entries@[j].path@ != path@,
        decreases entries.len() - i,
    {
        if str_eq(entries[i].path.as_str(), path) {
            assert(entries_view(entries@)[i as int].0 == path@);
            return true;
        }
        i = i + 1;
    }
    proof {
        if has_path(entries_view(entries@), path@) {
            let k = choose|k: int|
                0 <= k < entries_view(entries@).len() && (#[trigger] entries_view(entries@)[k]).0
                    == path@;
            assert(entries@[k].path@ == path@);
        }
    }
    false
}

fn contains_entry(kept: &Vec<SearchEntry>, entry: &SearchEntry) -> (result: bool)
    ensures
        result == entries_view(kept@).contains(entry_view(*entry)),
{
    let mut j: usize = 0;
    while j < kept.len()
        invariant
            j <= kept@.len(),
            forall|k: int| 0 <= k < j ==> entry_view(#[trigger] kept@[k]) != entry_view(*entry),
        decreases kept.len() - j,
    {
        if same_entry(&kept[j], entry) {
            assert(entries_view(kept@)[j as int] == entry_view(*entry));
            return true;
        }
        j = j + 1;
    }
    proof {
        if entries_view(kept@).contains(entry_view(*entry)) {
            let k = choose|k: int|
                0 <= k < entries_view(kept@).len() && entries_view(kept@)[k] == entry_view(*entry);
            assert(entry_view(kept@[k]) == entry_view(*entry));
        }
    }
    false
}

fn keep_first_occurrences(entries: Vec<SearchEntry>) -> (result: Vec<SearchEntry>)
    ensures
        entries_view(result@) == first_occurrences(entries_view(entries@)),
{
    let mut kept: Vec<SearchEntry> = Vec::new();
    let mut i: usize = 0;
    assert(entries_view(entries@).take(0) =~= Seq::<(Seq<char>, bool, bool)>::empty());
    assert(entries_view(kept@) =~= Seq::<(Seq<char>, bool, bool)>::empty());
    while i < entries.len()
        invariant
            i <= entries@.len(),
            entries_view(kept@) == first_occurrences(entries_view(entries@).take(i as int)),
        decreases entries.len() - i,
    {
        let ghost prefix = entries_view(entries@).take(i + 1);
        assert(prefix.drop_last() =~= entries_view(entries@).take(i as int));
        assert(prefix.last() == entry_view(entries@[i as int]));
        if !contains_entry(&kept, &entries[i]) {
            let entry = SearchEntry {
                path: entries[i].path.clone(),
                system: entries[i].system,
                quote_only: entries[i].quote_only,
            };
            proof {
                lemma_entries_view_push(kept@, entry);
            }
            kept.push(entry);
        }
        i = i + 1;
    }
    assert(entries_view(entries@).take(entries@.len() as int) =~= entries_view(entries@));
    kept
}

/// The directories `#include` searches, in order, each once: the
/// command-line and configured directories in `search_order`, with a
/// directory named again with the same flags left out.
pub fn build_search_entries(
    include_paths: &[IncludePath],
    system_includes: &[SystemInclude],
    resource_dir: Option<&str>,
) -> (result: Vec<SearchEntry>)
    ensures
        entries_view(result@) == first_occurrences(
            search_order(include_paths@, system_includes@, text_option(resource_dir)),
        ),
{
    let mut entries: Vec<SearchEntry> = Vec::new();
    push_option_entries(&mut entries, include_paths, IncludePathKind::Quote, false);
    push_configured_entries(&mut entries, system_includes, SystemIncludeKind::Quote, false, true);
    push_option_entries(&mut entries, include_paths, IncludePathKind::User, false);
    push_option_entries(&mut entries, include_paths, IncludePathKind::System, true);
    push_option_entries(&mut entries, include_paths, IncludePathKind::Resource, true);
    let ghost leading = entries_view(entries@);
    assert(leading =~= leading_entries(include_paths@, system_includes@));
    match resource_dir {
        Some(dir) => {
            let path = join_path(dir, "include");
            if !any_has_path(&entries, path.as_str()) {
                let entry = SearchEntry { path, system: true, quote_only: false };
                proof {
                    lemma_entries_view_push(entries@, entry);
                }
                entries.push(entry);
            }
        },
        None => {},
    }
    assert(entries_view(entries@) =~= leading + resource_entries(
        leading,
        text_option(resource_dir),
    ));
    let ghost middle = entries_view(entries@);
    push_configured_entries(&mut entries, system_includes, SystemIncludeKind::Builtin, true, false);
    push_configured_entries(&mut entries, system_includes, SystemIncludeKind::System, true, false);
    push_configured_entries(
        &mut entries,
        system_includes,
        SystemIncludeKind::Framework,
        true,
        false,
    );
    push_option_entries(&mut entries, include_paths, IncludePathKind::After, true);
    push_configured_entries(&mut entries, system_includes, SystemIncludeKind::After, true, false);
    assert(entries_view(entries@) =~= middle + trailing_entries(include_paths@, system_includes@));
    keep_first_occurrences(entries)
}

/* Candidates of one directive */

/// std's `Path::parent`, as text.
pub uninterp spec fn path_parent(path: Seq<char>) -> Option<Seq<char>>;

pub open spec fn string_option(o: Option<String>) -> Option<Seq<char>> {
    match o {
        Some(t) => Some(t@),
        None => None,
    }
}

/// std's `Path::parent`, as text; the empty path has none.
#[verifier::external_body]
fn parent_path(path: &str) -> (result: Option<String>)
    ensures
        string_option(result) == path_parent(path@),
        path@.len() == 0 ==> result is None,
{
    match std::path::Path::new(path).parent() {
        Some(parent) => Some(parent.to_string_lossy().into_owned()),
        None => None,
    }
}

/// The file that holds a directive: its path, the search entry it was found
/// through, and whether it is a system header.
#[derive(Clone, Debug)]
pub struct IncludingFile {
    pub path: String,
    pub found_entry: Option<usize>,
    pub system: bool,
}

/// A path that a directive tries, with the search entry it comes from and
/// whether a header found there is a system header.
#[derive(Clone, Debug)]
pub struct HeaderCandidate {
    pub path: String,
    pub entry_index: Option<usize>,
    pub system: bool,
}

pub open spec fn candidate_view(c: HeaderCandidate) -> (Seq<char>, Option<usize>, bool) {
    (c.path@, c.entry_index, c.system)
}

pub open spec fn candidates_view(s: Seq<HeaderCandidate>) -> Seq<(Seq<char>, Option<usize>, bool)> {
    s.map_values(|c: HeaderCandidate| candidate_view(c))
}

pub open spec fn including_view(current: Option<&IncludingFile>) -> Option<
    (Seq<char>, Option<usize>, bool),
> {
    match current {
        Some(c) => Some((c.path@, c.found_entry, c.system)),
        None => None,
    }
}

/// Whether a directive searches the entry at `index`: an angled include
/// skips quote-only entries, and `#include_next` searches only the entries
/// after the one that `after` names.
pub open spec fn entry_is_searched(
    entries: Seq<(Seq<char>, bool, bool)>,
    index: int,
    angled: bool,
    after: Option<usize>,
) -> bool {
    &&& !angled || !entries[index].2
    &&& match after {
        Some(found) => index > found,
        None => true,
    }
}

/// The searched entries' paths joined with the header, in entry order.
pub open spec fn entry_candidates(
    entries: Seq<(Seq<char>, bool, bool)>,
    header: Seq<char>,
    angled: bool,
    after: Option<usize>,
) -> Seq<(Seq<char>, Option<usize>, bool)>
    decreases entries.len(),
{
    if entries.len() == 0 {
        seq![]
    } else {
        let rest = entry_candidates(entries.drop_last(), header, angled, after);
        let n = entries.len() - 1;
        if entry_is_searched(entries, n, angled, after) {
            rest.push((path_join(entries.last().0, header), Some(n as usize), entries.last().1))
        } else {
            rest
        }
    }
}

/// The paths a directive tries, in order: an absolute header alone; else,
/// for a quoted `#include`, the header beside the including file, then the
/// searched entries.
pub open spec fn header_candidates_spec(
    entries: Seq<(Seq<char>, bool, bool)>,
    current: Option<(Seq<char>, Option<usize>, bool)>,
    header: Seq<char>,
    angled: bool,
    include_next: bool,
) -> Seq<(Seq<char>, Option<usize>, bool)> {
    if path_is_absolute(header) {
        seq![(header, None, false)]
    } else {
        let local: Seq<(Seq<char>, Option<usize>, bool)> = if !angled && !include_next {
            match current {
                Some(c) => match path_parent(c.0) {
                    Some(parent) => seq![(path_join(parent, header), None, c.2)],
                    None => seq![],
                },
                None => seq![],
            }
        } else {
            seq![]
        };
        let after = if include_next {
            match current {
                Some(c) => c.1,
                None => None,
            }
        } else {
            None
        };
        local + entry_candidates(entries, header, angled, after)
    }
}

proof fn lemma_candidates_view_push(s: Seq<HeaderCandidate>, c: HeaderCandidate)
    ensures
        candidates_view(s.push(c)) == candidates_view(s).push(candidate_view(c)),
{
    assert(candidates_view(s.push(c)) =~= candidates_view(s).push(candidate_view(c)));
}

/// The paths a directive tries, in the order it tries them.
pub fn header_candidates(
    entries: &[SearchEntry],
    current: Option<&IncludingFile>,
    header: &str,
    angled: bool,
    include_next: bool,
) -> (result: Vec<HeaderCandidate>)
    ensures
        candidates_view(result@) == header_candidates_spec(
            entries_view(entries@),
            including_view(current),
            header@,
            angled,
            include_next,
        ),
{
    let mut candidates: Vec<HeaderCandidate> = Vec::new();
    if is_absolute_path(header) {
        let c = HeaderCandidate { path: header.to_string(), entry_index: None, system: false };
        proof {
            lemma_candidates_view_push(candidates@, c);
        }
        candidates.push(c);
        assert(candidates_view(candidates@) =~= seq![(header@, None::<usize>, false)]);
        return candidates;
    }
    if !angled && !include_next {
        match current {
            Some(frame) => match parent_path(frame.path.as_str()) {
                Some(parent) => {
                    let c = HeaderCandidate {
                        path: join_path(parent.as_str(), header),
                        entry_index: None,
                        system: frame.system,
                    };
                    proof {
                        lemma_candidates_view_push(candidates@, c);
                    }
                    candidates.push(c);
                },
                None => {},
            },
            None => {},
        }
    }
    let after: Option<usize> = if include_next {
        match current {
            Some(frame) => frame.found_entry,
            None => None,
        }
    } else {
        None
    };
    let ghost local = candidates_view(candidates@);
    let ghost all = entries_view(entries@);
    assert(all.take(0) =~= Seq::<(Seq<char>, bool, bool)>::empty());
    assert(local + seq![] =~= local);
    let mut i: usize = 0;
    while i < entries.len()
        invariant
            i <= entries@.len(),
            all == entries_view(entries@),
            candidates_view(candidates@) == local + entry_candidates(all.take(i as int), header@, angled, after),
        decreases entries.len() - i,
    {
        let ghost prefix = all.take(i + 1);
        assert(prefix.drop_last() =~= all.take(i as int));
        assert(prefix.last() == entry_view(entries@[i as int]));
        let searched = (!angled || !entries[i].quote_only) && match after {
            Some(found) => i > found,
            None => true,
        };
        assert(searched == entry_is_searched(prefix, i as int, angled, after));
        if searched {
            let c = HeaderCandidate {
                path: join_path(entries[i].path.as_str(), header),
                entry_index: Some(i),
                system: entries[i].system,
            };
            proof {
                lemma_candidates_view_push(candidates@, c);
            }
            candidates.push(c);
            assert(candidates_view(candidates@) =~= local + entry_candidates(prefix, header@, angled, after));
        }
        i = i + 1;
    }
    assert(all.take(entries@.len() as int) =~= all);
    candidates
}

/// A header found for a directive, with the search entry it was found
/// through and whether it is a system header.
#[derive(Clone, Debug)]
pub struct ResolvedHeader {
    pub loaded: LoadedFile,
    pub entry_index: Option<usize>,
    pub system: bool,
}

/// A candidate whose read failed for another reason than its absence.
#[derive(Clone, Debug)]
pub struct HeaderReadFailure {
    pub path: String,
    pub message: String,
}

/// What one candidate's read decides: a missing file lets the search go on;
/// a file read ends it with the header, any other failure ends it with that
/// failure.
pub fn candidate_outcome(candidate: HeaderCandidate, read: Result<LoadedFile, ReadError>) -> (result:
    Option<Result<ResolvedHeader, HeaderReadFailure>>)
    ensures
        match read {
            Ok(loaded) => result == Some(
                Ok::<ResolvedHeader, HeaderReadFailure>(
                    (ResolvedHeader {
                        loaded,
                        entry_index: candidate.entry_index,
                        system: candidate.system,
                    }),
                ),
            ),
            Err(ReadError::NotFound) => result is None,
            Err(ReadError::Failed(message)) => result == Some(
                Err::<ResolvedHeader, HeaderReadFailure>(
                    (HeaderReadFailure { path: candidate.path, message }),
                ),
            ),
        },
{
    match read {
        Ok(loaded) => Some(
            Ok(ResolvedHeader { loaded, entry_index: candidate.entry_index, system: candidate.system }),
        ),
        Err(ReadError::NotFound) => None,
        Err(ReadError::Failed(message)) => Some(
            Err(HeaderReadFailure { path: candidate.path, message }),
        ),
    }
}

/// Whether a read reported the candidate missing.
pub open spec fn read_missing(outcome: Result<LoadedFile, ReadError>) -> bool {
    outcome matches Err(ReadError::NotFound)
}

/// Whether the read at `k` is the first that does not report its candidate
/// missing.
pub open spec fn decided_at(outcomes: Seq<Result<LoadedFile, ReadError>>, k: int) -> bool {
    &&& 0 <= k < outcomes.len()
    &&& forall|j: int| 0 <= j < k ==> read_missing(#[trigger] outcomes[j])
}

/// What reading the candidates in order decides, given each read's
/// outcome: the first read that does not report its candidate missing
/// decides, with the header found there or that read's failure; when every
/// read reports its candidate missing, there is no header.
pub fn select_header(
    candidates: &Vec<HeaderCandidate>,
    outcomes: Vec<Result<LoadedFile, ReadError>>,
) -> (result: Result<Option<ResolvedHeader>, HeaderReadFailure>)
    requires
        outcomes@.len() == candidates@.len(),
    ensures
        match result {
            Ok(None) => forall|k: int| 0 <= k < outcomes@.len() ==> read_missing(#[trigger] outcomes@[k]),
            Ok(Some(found)) => exists|k: int|
                #[trigger] decided_at(outcomes@, k) && outcomes@[k] == Ok::<LoadedFile, ReadError>(
                    found.loaded,
                ) && found.entry_index == candidates@[k].entry_index && found.system
                    == candidates@[k].system,
            Err(failure) => exists|k: int|
                #[trigger] decided_at(outcomes@, k) && outcomes@[k] == Err::<LoadedFile, ReadError>(
                    ReadError::Failed(failure.message),
                ) && failure.path@ == candidates@[k].path@,
        },
{
    let ghost all = outcomes@;
    let mut rest = outcomes;
    let mut i: usize = 0;
    assert(all.skip(0) =~= all);
    while i < candidates.len()
        invariant
            i <= candidates@.len() == all.len(),
            all == outcomes@,
            rest@ == all.skip(i as int),
            forall|j: int| 0 <= j < i ==> read_missing(#[trigger] all[j]),
        decreases candidates.len() - i,
    {
        let outcome = rest.remove(0);
        assert(outcome == all[i as int]);
        assert(rest@ =~= all.skip(i + 1));
        let candidate = HeaderCandidate {
            path: candidates[i].path.clone(),
            entry_index: candidates[i].entry_index,
            system: candidates[i].system,
        };
        let ghost read = outcome;
        match candidate_outcome(candidate, outcome) {
            Some(Ok(found)) => {
                assert(all[i as int] == Ok::<LoadedFile, ReadError>(found.loaded));
                assert(found.entry_index == candidates@[i as int].entry_index);
                assert(decided_at(all, i as int));
                return Ok(Some(found));
            },
            Some(Err(failure)) => {
                assert(all[i as int] == Err::<LoadedFile, ReadError>(ReadError::Failed(failure.message)));
                assert(failure.path@ == candidates@[i as int].path@);
                assert(decided_at(all, i as int));
                return Err(failure);
            },
            None => {
                assert(read_missing(all[i as int]));
            },
        }
        i = i + 1;
    }
    Ok(None)
}

/// Finds the header a directive names: reads the candidates in order and
/// stops at the first that is there or whose read fails otherwise. What a
/// read gives back is the provider's; whatever it is, a header found comes
/// from one of the candidates, with that candidate's entry and system flag,
/// and a failure names one of the candidates.
pub fn resolve_header<F: FileProvider>(
    files: &F,
    entries: &[SearchEntry],
    current: Option<&IncludingFile>,
    header: &str,
    angled: bool,
    include_next: bool,
) -> (result: Result<Option<ResolvedHeader>, HeaderReadFailure>)
    ensures
        ({
            let candidates = header_candidates_spec(
                entries_view(entries@),
                including_view(current),
                header@,
                angled,
                include_next,
            );
            match result {
                Ok(Some(found)) => exists|k: int|
                    0 <= k < candidates.len() && found.entry_index == (#[trigger] candidates[k]).1
                        && found.system == candidates[k].2,
                Ok(None) => true,
                Err(failure) => exists|k: int|
                    0 <= k < candidates.len() && failure.path@ == (#[trigger] candidates[k]).0,
            }
        }),
{
    let candidates = header_candidates(entries, current, header, angled, include_next);
    let mut i: usize = 0;
    while i < candidates.len()
        invariant
            i <= candidates@.len(),
            candidates_view(candidates@) == header_candidates_spec(
                entries_view(entries@),
                including_view(current),
                header@,
                angled,
                include_next,
            ),
        decreases candidates.len() - i,
    {
        let candidate = HeaderCandidate {
            path: candidates[i].path.clone(),
            entry_index: candidates[i].entry_index,
            system: candidates[i].system,
        };
        assert(candidate_view(candidate) == candidates_view(candidates@)[i as int]);
        let read = files.read(candidate.path.as_str());
        match candidate_outcome(candidate, read) {
            Some(Ok(found)) => {
                return Ok(Some(found));
            },
            Some(Err(failure)) => {
                return Err(failure);
            },
            None => {},
        }
        i = i + 1;
    }
    Ok(None)
}

/* Laws */

/// Every directory of the search list appears in it once, and every
/// directory named appears in it.
pub proof fn lemma_search_entries_once<A>(s: Seq<A>)
    ensures
        forall|i: int, j: int|
            0 <= i < j < first_occurrences(s).len() ==> first_occurrences(s)[i]
                != first_occurrences(s)[j],
        forall|x: A| s.contains(x) <==> first_occurrences(s).contains(x),
    decreases s.len(),
{
    if s.len() > 0 {
        lemma_search_entries_once(s.drop_last());
        let rest = first_occurrences(s.drop_last());
        let all = first_occurrences(s);
        assert forall|x: A| s.contains(x) <==> all.contains(x) by {
            if s.contains(x) {
                let k = choose|k: int| 0 <= k < s.len() && s[k] == x;
                if k < s.len() - 1 {
                    assert(s.drop_last()[k] == x);
                    assert(s.drop_last().contains(x));
                    assert(rest.contains(x));
                    let i = choose|i: int| 0 <= i < rest.len() && rest[i] == x;
                    assert(all[i] == x);
                } else if rest.contains(x) {
                    let i = choose|i: int| 0 <= i < rest.len() && rest[i] == x;
                    assert(all[i] == x);
                } else {
                    assert(all[rest.len() as int] == x);
                }
            }
            if all.contains(x) {
                let i = choose|i: int| 0 <= i < all.len() && all[i] == x;
                if i < rest.len() {
                    assert(rest[i] == x);
                    assert(rest.contains(x));
                    assert(s.drop_last().contains(x));
                    let k = choose|k: int| 0 <= k < s.drop_last().len() && s.drop_last()[k] == x;
                    assert(s[k] == x);
                } else {
                    assert(x == s.last());
                    assert(s[s.len() - 1] == x);
                }
            }
        }
    }
}

proof fn lemma_entry_candidates_searched(
    entries: Seq<(Seq<char>, bool, bool)>,
    header: Seq<char>,
    angled: bool,
    after: Option<usize>,
)
    requires
        entries.len() <= usize::MAX,
    ensures
        forall|j: int|
            #![trigger entry_candidates(entries, header, angled, after)[j]]
            0 <= j < entry_candidates(entries, header, angled, after).len() ==> {
                let c = entry_candidates(entries, header, angled, after)[j];
                &&& c.1 is Some
                &&& c.1.unwrap() < entries.len()
                &&& entry_is_searched(entries, c.1.unwrap() as int, angled, after)
                &&& c.0 == path_join(entries[c.1.unwrap() as int].0, header)
                &&& c.2 == entries[c.1.unwrap() as int].1
            },
    decreases entries.len(),
{
    if entries.len() > 0 {
        let front = entries.drop_last();
        lemma_entry_candidates_searched(front, header, angled, after);
        let rest = entry_candidates(front, header, angled, after);
        let all = entry_candidates(entries, header, angled, after);
        assert forall|j: int| 0 <= j < all.len() implies {
            let c = #[trigger] all[j];
            &&& c.1 is Some
            &&& c.1.unwrap() < entries.len()
            &&& entry_is_searched(entries, c.1.unwrap() as int, angled, after)
            &&& c.0 == path_join(entries[c.1.unwrap() as int].0, header)
            &&& c.2 == entries[c.1.unwrap() as int].1
        } by {
            if j < rest.len() {
                let c = rest[j];
                assert(all[j] == c);
                assert(entries[c.1.unwrap() as int] == front[c.1.unwrap() as int]);
            }
        }
    }
}

/// An angled `#include` never tries a quote-only directory, `#include_next`
/// tries only directories after the one the including file was found
/// through, and each directory's candidate is the header joined to it, with
/// the directory's system flag.
pub proof fn lemma_candidates_respect_search_rules(
    entries: Seq<(Seq<char>, bool, bool)>,
    current: Option<(Seq<char>, Option<usize>, bool)>,
    header: Seq<char>,
    angled: bool,
    include_next: bool,
)
    requires
        entries.len() <= usize::MAX,
    ensures
        forall|j: int|
            #![trigger header_candidates_spec(entries, current, header, angled, include_next)[j]]
            0 <= j < header_candidates_spec(entries, current, header, angled, include_next).len()
                && header_candidates_spec(
                entries,
                current,
                header,
                angled,
                include_next,
            )[j].1 is Some ==> {
                let c = header_candidates_spec(entries, current, header, angled, include_next)[j];
                let k = c.1.unwrap() as int;
                &&& k < entries.len()
                &&& angled ==> !entries[k].2
                &&& (include_next && current is Some && current.unwrap().1 is Some) ==> k
                    > current.unwrap().1.unwrap()
                &&& c.0 == path_join(entries[k].0, header)
                &&& c.2 == entries[k].1
            },
{
    if !path_is_absolute(header) {
        let after = if include_next {
            match current {
                Some(c) => c.1,
                None => None,
            }
        } else {
            None
        };
        lemma_entry_candidates_searched(entries, header, angled, after);
        let all = header_candidates_spec(entries, current, header, angled, include_next);
        let tail = entry_candidates(entries, header, angled, after);
        let local_len = all.len() - tail.len();
        assert(local_len <= 1);
        assert forall|j: int| 0 <= j < all.len() && (#[trigger] all[j]).1 is Some implies {
            let c = all[j];
            let k = c.1.unwrap() as int;
            &&& k < entries.len()
            &&& angled ==> !entries[k].2
            &&& (include_next && current is Some && current.unwrap().1 is Some) ==> k
                > current.unwrap().1.unwrap()
            &&& c.0 == path_join(entries[k].0, header)
            &&& c.2 == entries[k].1
        } by {
            if j >= local_len {
                assert(all[j] == tail[j - local_len]);
            } else {
                assert(all[j].1 is None);
            }
        }
    }
}

} // verus!
