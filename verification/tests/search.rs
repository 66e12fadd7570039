use std::collections::BTreeMap;

use ccc::pp::files::{FileIdentity, FileProvider, LoadedFile, ReadError};
use ccc::pp::options::{IncludePath, IncludePathKind};
use ccc::pp::search::{
    build_search_entries, candidate_outcome, header_candidates, resolve_header, select_header,
    HeaderCandidate,
    IncludingFile, SearchEntry, SystemInclude, SystemIncludeKind,
};

struct MemoryFiles {
    files: BTreeMap<String, String>,
    broken: Vec<String>,
}

impl MemoryFiles {
    fn new(files: &[(&str, &str)]) -> Self {
        MemoryFiles {
            files: files
                .iter()
                .map(|(path, source)| (path.to_string(), source.to_string()))
                .collect(),
            broken: Vec::new(),
        }
    }
}

impl FileProvider for MemoryFiles {
    fn read(&self, path: &str) -> Result<LoadedFile, ReadError> {
        if self.broken.iter().any(|broken| broken == path) {
            return Err(ReadError::Failed("permission denied".to_string()));
        }
        match self.files.get(path) {
            Some(source) => Ok(LoadedFile {
                path: path.to_string(),
                source: source.clone(),
                identity: FileIdentity(path.to_string()),
            }),
            None => Err(ReadError::NotFound),
        }
    }
}

fn entry(path: &str, system: bool, quote_only: bool) -> SearchEntry {
    SearchEntry {
        path: path.to_string(),
        system,
        quote_only,
    }
}

fn summary(entries: &[SearchEntry]) -> Vec<(String, bool, bool)> {
    entries
        .iter()
        .map(|entry| (entry.path.clone(), entry.system, entry.quote_only))
        .collect()
}

#[test]
fn search_list_follows_the_documented_order() {
    let paths = vec![
        IncludePath::new("user".to_string(), IncludePathKind::User),
        IncludePath::new("quote".to_string(), IncludePathKind::Quote),
        IncludePath::new("system".to_string(), IncludePathKind::System),
        IncludePath::new("after".to_string(), IncludePathKind::After),
        IncludePath::new("resource".to_string(), IncludePathKind::Resource),
    ];
    let configured = vec![
        SystemInclude {
            path: "builtin".to_string(),
            kind: SystemIncludeKind::Builtin,
        },
        SystemInclude {
            path: "configured-quote".to_string(),
            kind: SystemIncludeKind::Quote,
        },
        SystemInclude {
            path: "configured-after".to_string(),
            kind: SystemIncludeKind::After,
        },
        SystemInclude {
            path: "framework".to_string(),
            kind: SystemIncludeKind::Framework,
        },
        SystemInclude {
            path: "configured-system".to_string(),
            kind: SystemIncludeKind::System,
        },
    ];
    let entries = build_search_entries(&paths, &configured, Some("/res"));
    let expected = vec![
        ("quote".to_string(), false, true),
        ("configured-quote".to_string(), false, true),
        ("user".to_string(), false, false),
        ("system".to_string(), true, false),
        ("resource".to_string(), true, false),
        ("/res/include".to_string(), true, false),
        ("builtin".to_string(), true, false),
        ("configured-system".to_string(), true, false),
        ("framework".to_string(), true, false),
        ("after".to_string(), true, false),
        ("configured-after".to_string(), true, false),
    ];
    assert_eq!(summary(&entries), expected);
}

#[test]
fn repeated_search_directories_are_listed_once() {
    let paths = vec![
        IncludePath::new("inc".to_string(), IncludePathKind::User),
        IncludePath::new("inc".to_string(), IncludePathKind::User),
        IncludePath::new("inc".to_string(), IncludePathKind::System),
    ];
    let entries = build_search_entries(&paths, &[], None);
    assert_eq!(
        summary(&entries),
        vec![
            ("inc".to_string(), false, false),
            ("inc".to_string(), true, false)
        ]
    );
}

#[test]
fn the_resource_include_directory_is_not_added_twice() {
    let paths = vec![IncludePath::new(
        "/res/include".to_string(),
        IncludePathKind::User,
    )];
    let entries = build_search_entries(&paths, &[], Some("/res"));
    assert_eq!(summary(&entries), vec![("/res/include".to_string(), false, false)]);
}

#[test]
fn quoted_includes_try_the_including_directory_first() {
    let entries = vec![entry("quote", false, true), entry("sys", true, false)];
    let current = IncludingFile {
        path: "src/main.c".to_string(),
        found_entry: None,
        system: false,
    };
    let candidates = header_candidates(&entries, Some(&current), "a.h", false, false);
    let paths: Vec<(String, Option<usize>, bool)> = candidates
        .iter()
        .map(|c| (c.path.clone(), c.entry_index, c.system))
        .collect();
    assert_eq!(
        paths,
        vec![
            ("src/a.h".to_string(), None, false),
            ("quote/a.h".to_string(), Some(0), false),
            ("sys/a.h".to_string(), Some(1), true),
        ]
    );
}

#[test]
fn angled_includes_skip_quote_only_directories() {
    let entries = vec![entry("quote", false, true), entry("sys", true, false)];
    let current = IncludingFile {
        path: "src/main.c".to_string(),
        found_entry: None,
        system: false,
    };
    let candidates = header_candidates(&entries, Some(&current), "a.h", true, false);
    assert_eq!(candidates.len(), 1);
    assert_eq!(candidates[0].path, "sys/a.h");
    assert_eq!(candidates[0].entry_index, Some(1));
}

#[test]
fn include_next_searches_after_the_current_entry() {
    let entries = vec![
        entry("first", true, false),
        entry("second", true, false),
        entry("third", true, false),
    ];
    let current = IncludingFile {
        path: "second/a.h".to_string(),
        found_entry: Some(1),
        system: true,
    };
    let candidates = header_candidates(&entries, Some(&current), "a.h", true, true);
    assert_eq!(candidates.len(), 1);
    assert_eq!(candidates[0].path, "third/a.h");
    assert_eq!(candidates[0].entry_index, Some(2));
}

#[test]
fn an_absolute_header_is_its_only_candidate() {
    let entries = vec![entry("inc", false, false)];
    let candidates = header_candidates(&entries, None, "/abs/a.h", false, false);
    assert_eq!(candidates.len(), 1);
    assert_eq!(candidates[0].path, "/abs/a.h");
    assert_eq!(candidates[0].entry_index, None);
    assert!(!candidates[0].system);
}

#[test]
fn resolving_finds_the_first_present_candidate() {
    let files = MemoryFiles::new(&[("sys/a.h", "int a;\n"), ("other/a.h", "int b;\n")]);
    let entries = vec![
        entry("quote", false, true),
        entry("sys", true, false),
        entry("other", true, false),
    ];
    let resolved = resolve_header(&files, &entries, None, "a.h", true, false)
        .unwrap()
        .unwrap();
    assert_eq!(resolved.loaded.path, "sys/a.h");
    assert_eq!(resolved.loaded.source, "int a;\n");
    assert_eq!(resolved.entry_index, Some(1));
    assert!(resolved.system);
}

#[test]
fn resolving_reports_a_missing_header() {
    let files = MemoryFiles::new(&[]);
    let entries = vec![entry("inc", false, false)];
    assert!(resolve_header(&files, &entries, None, "a.h", false, false)
        .unwrap()
        .is_none());
}

#[test]
fn a_failed_read_ends_the_search() {
    let mut files = MemoryFiles::new(&[("later/a.h", "int a;\n")]);
    files.broken.push("first/a.h".to_string());
    let entries = vec![entry("first", false, false), entry("later", false, false)];
    let failure = resolve_header(&files, &entries, None, "a.h", false, false).unwrap_err();
    assert_eq!(failure.path, "first/a.h");
    assert_eq!(failure.message, "permission denied");
}

#[test]
fn candidate_outcomes_follow_the_read() {
    let candidate = || HeaderCandidate {
        path: "inc/a.h".to_string(),
        entry_index: Some(3),
        system: true,
    };
    assert!(candidate_outcome(candidate(), Err(ReadError::NotFound)).is_none());
    let failed = candidate_outcome(candidate(), Err(ReadError::Failed("bad".to_string())))
        .unwrap()
        .unwrap_err();
    assert_eq!(failed.path, "inc/a.h");
    assert_eq!(failed.message, "bad");
    let loaded = LoadedFile {
        path: "inc/a.h".to_string(),
        source: "x".to_string(),
        identity: FileIdentity("id".to_string()),
    };
    let found = candidate_outcome(candidate(), Ok(loaded)).unwrap().unwrap();
    assert_eq!(found.entry_index, Some(3));
    assert!(found.system);
    assert_eq!(found.loaded.source, "x");
}

#[test]
fn the_first_read_that_is_not_missing_decides() {
    let candidates: Vec<HeaderCandidate> = ["a/x.h", "b/x.h", "c/x.h"]
        .iter()
        .enumerate()
        .map(|(index, path)| HeaderCandidate {
            path: path.to_string(),
            entry_index: Some(index),
            system: index == 1,
        })
        .collect();
    let loaded = |path: &str| LoadedFile {
        path: path.to_string(),
        source: String::new(),
        identity: FileIdentity(path.to_string()),
    };
    let found = select_header(
        &candidates,
        vec![Err(ReadError::NotFound), Ok(loaded("b/x.h")), Ok(loaded("c/x.h"))],
    )
    .unwrap()
    .unwrap();
    assert_eq!(found.loaded.path, "b/x.h");
    assert_eq!(found.entry_index, Some(1));
    assert!(found.system);

    let failure = select_header(
        &candidates,
        vec![
            Err(ReadError::NotFound),
            Err(ReadError::Failed("denied".to_string())),
            Ok(loaded("c/x.h")),
        ],
    )
    .unwrap_err();
    assert_eq!(failure.path, "b/x.h");
    assert_eq!(failure.message, "denied");

    assert!(select_header(
        &candidates,
        vec![Err(ReadError::NotFound), Err(ReadError::NotFound), Err(ReadError::NotFound)],
    )
    .unwrap()
    .is_none());
}
