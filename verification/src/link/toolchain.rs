//! Reading what a compiler driver reports about itself: its include search
//! list, and the sysroot its frontend command runs with.

use vstd::prelude::*;

use crate::link::arguments::{option_str, resolve_sysroot_path, sysroot_path};
use crate::link::fingerprint::EnvironmentEntry;
use crate::link::LinkError;
use crate::pp::search::{SystemInclude, SystemIncludeKind};
use crate::text::{
    chars_of, has_prefix, has_suffix, lines_of, str_eq, string_from_chars, strings_view,
    strip_suffix_chars, text_lines, trim_chars, trim_ws, unicode_whitespace,
    is_unicode_whitespace, starts_with, contains_text, find_text, strip_prefix, concat2,
};

verus! {

/* The include search report */

/// Which list of the driver's search report a line belongs to.
#[derive(Clone, Copy, Debug, PartialEq, Eq, Structural)]
pub enum SearchSection {
    Quote,
    System,
}

pub open spec fn includes_view(s: Seq<SystemInclude>) -> Seq<(Seq<char>, SystemIncludeKind)> {
    s.map_values(|entry: SystemInclude| (entry.path@, entry.kind))
}

pub open spec fn path_listed(found: Seq<(Seq<char>, SystemIncludeKind)>, path: Seq<char>) -> bool {
    exists|i: int| 0 <= i < found.len() && (#[trigger] found[i]).0 == path
}

/// The directory a line of a search list names, with its kind: an indented
/// line that is neither empty nor an `ignoring` notice; a framework directory
/// is marked so, and the sysroot stands for a leading `$SYSROOT` or `=`.
pub open spec fn listed_directory(
    line: Seq<char>,
    section: SearchSection,
    sysroot: Option<Seq<char>>,
) -> Option<(Seq<char>, SystemIncludeKind)> {
    let t = trim_ws(line);
    if !(line.len() > 0 && unicode_whitespace(line[0])) || t.len() == 0 || has_prefix(
        t,
        "ignoring "@,
    ) {
        None
    } else {
        let framework = has_suffix(t, " (framework directory)"@);
        let path = if framework {
            t.take(t.len() - " (framework directory)"@.len())
        } else {
            t
        };
        let kind = if framework {
            SystemIncludeKind::Framework
        } else {
            match section {
                SearchSection::Quote => SystemIncludeKind::Quote,
                SearchSection::System => SystemIncludeKind::System,
            }
        };
        Some((sysroot_path(path, sysroot), kind))
    }
}

/// The state after one more line: the section headers open and close the
/// lists, and a directory inside a list is kept unless its path came before.
pub open spec fn search_line_step(
    line: Seq<char>,
    section: Option<SearchSection>,
    found: Seq<(Seq<char>, SystemIncludeKind)>,
    sysroot: Option<Seq<char>>,
) -> (Option<SearchSection>, Seq<(Seq<char>, SystemIncludeKind)>) {
    let t = trim_ws(line);
    if t == "#include \"...\" search starts here:"@ {
        (Some(SearchSection::Quote), found)
    } else if t == "#include <...> search starts here:"@ {
        (Some(SearchSection::System), found)
    } else if t == "End of search list."@ {
        (None, found)
    } else {
        match section {
            None => (None, found),
            Some(s) => match listed_directory(line, s, sysroot) {
                Some(entry) => if path_listed(found, entry.0) {
                    (section, found)
                } else {
                    (section, found.push(entry))
                },
                None => (section, found),
            },
        }
    }
}

/// The section open after `lines`, and the directories they listed.
pub open spec fn include_search_state(lines: Seq<Seq<char>>, sysroot: Option<Seq<char>>) -> (
    Option<SearchSection>,
    Seq<(Seq<char>, SystemIncludeKind)>,
)
    decreases lines.len(),
{
    if lines.len() == 0 {
        (None, seq![])
    } else {
        let before = include_search_state(lines.drop_last(), sysroot);
        search_line_step(lines.last(), before.0, before.1, sysroot)
    }
}

fn listed_before(found: &Vec<SystemInclude>, path: &str) -> (result: bool)
    ensures
        result == path_listed(includes_view(found@), path@),
{
    let mut i: usize = 0;
    while i < found.len()
        invariant
            i <= found@.len(),
            forall|j: int| 0 <= j < i ==> found@[j].path@ != path@,
        decreases found.len() - i,
    {
        if str_eq(found[i].path.as_str(), path) {
            assert(includes_view(found@)[i as int].0 == path@);
            return true;
        }
        i = i + 1;
    }
    proof {
        if path_listed(includes_view(found@), path@) {
            let k = choose|k: int|
                0 <= k < includes_view(found@).len() && (#[trigger] includes_view(found@)[k]).0
                    == path@;
            assert(found@[k].path@ == path@);
        }
    }
    false
}

fn directory_of_line(line: &str, section: SearchSection, sysroot: Option<&str>) -> (result: Option<
    SystemInclude,
>)
    ensures
        match result {
            Some(entry) => listed_directory(line@, section, option_str(sysroot)) == Some(
                (entry.path@, entry.kind),
            ),
            None => listed_directory(line@, section, option_str(sysroot)) is None,
        },
{
    proof {
        reveal_strlit("ignoring ");
    }
    let chars = chars_of(line);
    let trimmed = trim_chars(&chars);
    let text = string_from_chars(trimmed.as_slice());
    if chars.len() == 0 || !is_unicode_whitespace(chars[0]) || trimmed.len() == 0 || starts_with(
        text.as_str(),
        "ignoring ",
    ) {
        return None;
    }
    let (path, kind) = match strip_suffix_chars(&trimmed, " (framework directory)") {
        Some(rest) => (string_from_chars(rest.as_slice()), SystemIncludeKind::Framework),
        None => (
            text,
            match section {
                SearchSection::Quote => SystemIncludeKind::Quote,
                SearchSection::System => SystemIncludeKind::System,
            },
        ),
    };
    let resolved = resolve_sysroot_path(path.as_str(), sysroot);
    Some(SystemInclude { path: resolved, kind })
}

/// The directories of a driver's verbose include-search report, in order,
/// each path once: the quote list's as quote directories, the angle list's
/// as system directories, framework directories marked so, with the sysroot
/// in place of a leading `$SYSROOT` or `=`.
pub fn parse_system_include_search(output: &str, sysroot: Option<&str>) -> (result: Vec<
    SystemInclude,
>)
    ensures
        includes_view(result@) == include_search_state(text_lines(output@), option_str(sysroot)).1,
{
    let lines = lines_of(output);
    let ghost all = strings_view(lines@);
    let mut section: Option<SearchSection> = None;
    let mut entries: Vec<SystemInclude> = Vec::new();
    let mut i: usize = 0;
    assert(all.take(0) =~= Seq::<Seq<char>>::empty());
    assert(includes_view(entries@) =~= Seq::<(Seq<char>, SystemIncludeKind)>::empty());
    while i < lines.len()
        invariant
            i <= lines@.len(),
            all == strings_view(lines@),
            all == text_lines(output@),
            (section, includes_view(entries@)) == include_search_state(
                all.take(i as int),
                option_str(sysroot),
            ),
        decreases lines.len() - i,
    {
        let ghost prefix = all.take(i + 1);
        assert(prefix.drop_last() =~= all.take(i as int));
        assert(prefix.last() == lines@[i as int]@);
        let line = lines[i].as_str();
        let trimmed = trim_chars(&chars_of(line));
        let text = string_from_chars(trimmed.as_slice());
        if str_eq(text.as_str(), "#include \"...\" search starts here:") {
            section = Some(SearchSection::Quote);
        } else if str_eq(text.as_str(), "#include <...> search starts here:") {
            section = Some(SearchSection::System);
        } else if str_eq(text.as_str(), "End of search list.") {
            section = None;
        } else {
            match section {
                None => {},
                Some(current) => match directory_of_line(line, current, sysroot) {
                    Some(entry) => {
                        if !listed_before(&entries, entry.path.as_str()) {
                            let ghost before = entries@;
                            entries.push(entry);
                            assert(includes_view(entries@) =~= includes_view(before).push(
                                (entry.path@, entry.kind),
                            ));
                        }
                    },
                    None => {},
                },
            }
        }
        i = i + 1;
    }
    assert(all.take(lines@.len() as int) =~= all);
    entries
}

/// A search report lists each directory path once.
pub proof fn lemma_search_report_paths_distinct(lines: Seq<Seq<char>>, sysroot: Option<Seq<char>>)
    ensures
        forall|i: int, j: int|
            0 <= i < j < include_search_state(lines, sysroot).1.len() ==> (
            #[trigger] include_search_state(lines, sysroot).1[i]).0 != (
            #[trigger] include_search_state(lines, sysroot).1[j]).0,
    decreases lines.len(),
{
    if lines.len() > 0 {
        lemma_search_report_paths_distinct(lines.drop_last(), sysroot);
        let before = include_search_state(lines.drop_last(), sysroot);
        let after = include_search_state(lines, sysroot);
        assert forall|i: int, j: int| 0 <= i < j < after.1.len() implies (#[trigger] after.1[i]).0
            != (#[trigger] after.1[j]).0 by {
            if j >= before.1.len() {
                assert(!path_listed(before.1, after.1[j].0));
                assert(after.1[i] == before.1[i]);
            } else {
                assert(after.1[i] == before.1[i]);
                assert(after.1[j] == before.1[j]);
            }
        }
    }
}

/* The effective sysroot of a clang frontend command */

/// The sysroot a clang frontend command runs with: the driver's default, or
/// a path.
#[derive(Clone, Debug, PartialEq, Eq)]
pub enum ClangSysrootTrace {
    Default,
    Path(String),
}

/// One character of a trace line: a quote opens or closes an argument, and
/// inside one a backslash takes the next character as it is. `None` where a
/// backslash ends the line.
pub open spec fn trace_step(
    t: Seq<char>,
    i: int,
    state: (bool, Seq<char>, Seq<Seq<char>>),
) -> Option<((bool, Seq<char>, Seq<Seq<char>>), int)> {
    let (in_quote, current, done) = state;
    if !in_quote {
        if t[i] == '"' {
            Some(((true, seq![], done), 1))
        } else {
            Some((state, 1))
        }
    } else if t[i] == '"' {
        Some(((false, seq![], done.push(current)), 1))
    } else if t[i] == '\\' {
        if i + 1 < t.len() {
            Some(((true, current.push(t[i + 1]), done), 2))
        } else {
            None
        }
    } else {
        Some(((true, current.push(t[i]), done), 1))
    }
}

/// The quoted arguments of a trace line from `i` on; `None` where a quote or
/// an escape is left open.
pub open spec fn trace_scan(t: Seq<char>, i: int, state: (bool, Seq<char>, Seq<Seq<char>>)) -> Option<
    Seq<Seq<char>>,
>
    decreases t.len() - i,
{
    if i < 0 || i >= t.len() {
        if state.0 {
            None
        } else {
            Some(state.2)
        }
    } else {
        match trace_step(t, i, state) {
            None => None,
            Some(next) => trace_scan(t, i + next.1, next.0),
        }
    }
}

pub open spec fn trace_arguments(line: Seq<char>) -> Option<Seq<Seq<char>>> {
    trace_scan(line, 0, (false, seq![], seq![]))
}

/// One argument of a frontend command: `-isysroot` and `--sysroot` take the
/// next argument as the sysroot, their `=` forms the rest of the argument.
/// `None` where the last argument asks for a path.
pub open spec fn sysroot_step(args: Seq<Seq<char>>, i: int, current: Option<Seq<char>>) -> Option<
    (Option<Seq<char>>, int),
> {
    let a = args[i];
    if a == "-isysroot"@ || a == "--sysroot"@ {
        if i + 1 < args.len() {
            Some((Some(args[i + 1]), 2))
        } else {
            None
        }
    } else if has_prefix(a, "-isysroot="@) {
        Some((Some(a.skip("-isysroot="@.len() as int)), 1))
    } else if has_prefix(a, "--sysroot="@) {
        Some((Some(a.skip("--sysroot="@.len() as int)), 1))
    } else {
        Some((current, 1))
    }
}

/// The sysroot the arguments from `i` on leave in effect, the last one named
/// winning over `current`.
pub open spec fn sysroot_scan(args: Seq<Seq<char>>, i: int, current: Option<Seq<char>>) -> Option<
    Option<Seq<char>>,
>
    decreases args.len() - i,
{
    if i < 0 || i >= args.len() {
        Some(current)
    } else {
        match sysroot_step(args, i, current) {
            None => None,
            Some(next) => sysroot_scan(args, i + next.1, next.0),
        }
    }
}

/// The state after one more line: whether a frontend command came, and the
/// sysroot in effect. A line that names `"-cc1"` is read as a command.
pub open spec fn trace_line_step(line: Seq<char>, state: (bool, Option<Seq<char>>)) -> Option<
    (bool, Option<Seq<char>>),
> {
    if !contains_text(line, "\"-cc1\""@) {
        Some(state)
    } else {
        match trace_arguments(line) {
            None => None,
            Some(args) => if !args.contains("-cc1"@) {
                Some(state)
            } else {
                match sysroot_scan(args, 0, state.1) {
                    None => None,
                    Some(sysroot) => Some((true, sysroot)),
                }
            },
        }
    }
}

pub open spec fn trace_state(lines: Seq<Seq<char>>) -> Option<(bool, Option<Seq<char>>)>
    decreases lines.len(),
{
    if lines.len() == 0 {
        Some((false, None))
    } else {
        match trace_state(lines.drop_last()) {
            None => None,
            Some(state) => trace_line_step(lines.last(), state),
        }
    }
}

/// The sysroot the trace's frontend commands run with (`Some(None)` for the
/// default), or `None` where no frontend command came or one is malformed.
pub open spec fn sysroot_trace(output: Seq<char>) -> Option<Option<Seq<char>>> {
    match trace_state(text_lines(output)) {
        Some((true, sysroot)) => Some(sysroot),
        _ => None,
    }
}

pub open spec fn trace_view(result: Option<ClangSysrootTrace>) -> Option<Option<Seq<char>>> {
    match result {
        Some(ClangSysrootTrace::Default) => Some(None),
        Some(ClangSysrootTrace::Path(path)) => Some(Some(path@)),
        None => None,
    }
}

/// The quoted arguments of a `-###` trace line, backslash escapes taken;
/// `None` where a quote or an escape is left open.
pub fn parse_clang_trace_arguments(line: &str) -> (result: Option<Vec<String>>)
    ensures
        match result {
            Some(args) => trace_arguments(line@) == Some(strings_view(args@)),
            None => trace_arguments(line@) is None,
        },
{
    let t = chars_of(line);
    let mut in_quote = false;
    let mut current: Vec<char> = Vec::new();
    let mut done: Vec<String> = Vec::new();
    let mut i: usize = 0;
    assert(strings_view(done@) =~= Seq::<Seq<char>>::empty());
    assert(current@ =~= Seq::<char>::empty());
    while i < t.len()
        invariant
            i <= t@.len(),
            t@ == line@,
            trace_arguments(line@) == trace_scan(t@, i as int, (in_quote, current@, strings_view(done@))),
        decreases t.len() - i,
    {
        if !in_quote {
            if t[i] == '"' {
                in_quote = true;
                current = Vec::new();
            }
            i = i + 1;
        } else if t[i] == '"' {
            let arg = string_from_chars(current.as_slice());
            let ghost before = done@;
            done.push(arg);
            assert(strings_view(done@) =~= strings_view(before).push(current@));
            in_quote = false;
            current = Vec::new();
            i = i + 1;
        } else if t[i] == '\\' {
            if i + 1 < t.len() {
                current.push(t[i + 1]);
                i = i + 2;
            } else {
                return None;
            }
        } else {
            current.push(t[i]);
            i = i + 1;
        }
    }
    if in_quote {
        None
    } else {
        Some(done)
    }
}

fn names_frontend(args: &Vec<String>) -> (result: bool)
    ensures
        result == strings_view(args@).contains("-cc1"@),
{
    let mut i: usize = 0;
    while i < args.len()
        invariant
            i <= args@.len(),
            forall|j: int| 0 <= j < i ==> args@[j]@ != "-cc1"@,
        decreases args.len() - i,
    {
        if str_eq(args[i].as_str(), "-cc1") {
            assert(strings_view(args@)[i as int] == "-cc1"@);
            return true;
        }
        i = i + 1;
    }
    proof {
        if strings_view(args@).contains("-cc1"@) {
            let k = choose|k: int| 0 <= k < strings_view(args@).len() && strings_view(args@)[k] == "-cc1"@;
            assert(args@[k]@ == "-cc1"@);
        }
    }
    false
}

fn effective_sysroot(args: &Vec<String>, start: Option<String>) -> (result: Option<Option<String>>)
    ensures
        match result {
            Some(sysroot) => sysroot_scan(strings_view(args@), 0, option_string_view(start)) == Some(
                option_string_view(sysroot),
            ),
            None => sysroot_scan(strings_view(args@), 0, option_string_view(start)) is None,
        },
{
    let ghost all = strings_view(args@);
    let mut current = start;
    let mut i: usize = 0;
    while i < args.len()
        invariant
            i <= args@.len(),
            all == strings_view(args@),
            sysroot_scan(all, 0, option_string_view(start)) == sysroot_scan(all, i as int, option_string_view(current)),
        decreases args.len() - i,
    {
        let a = args[i].as_str();
        if str_eq(a, "-isysroot") || str_eq(a, "--sysroot") {
            if i + 1 < args.len() {
                current = Some(args[i + 1].clone());
                i = i + 2;
            } else {
                return None;
            }
        } else {
            match strip_prefix(a, "-isysroot=") {
                Some(rest) => {
                    current = Some(rest);
                },
                None => match strip_prefix(a, "--sysroot=") {
                    Some(rest) => {
                        current = Some(rest);
                    },
                    None => {},
                },
            }
            i = i + 1;
        }
    }
    Some(current)
}

pub open spec fn option_string_view(o: Option<String>) -> Option<Seq<char>> {
    match o {
        Some(t) => Some(t@),
        None => None,
    }
}

/// The sysroot a clang `-###` trace shows its frontend commands running
/// with: the last `-isysroot` or `--sysroot` named on a `-cc1` command, or
/// the default where none is; `None` where the trace holds no frontend
/// command or a malformed one.
pub fn parse_clang_sysroot_trace(output: &str) -> (result: Option<ClangSysrootTrace>)
    ensures
        trace_view(result) == sysroot_trace(output@),
{
    let lines = lines_of(output);
    let ghost all = strings_view(lines@);
    let mut saw_frontend = false;
    let mut sysroot: Option<String> = None;
    let mut i: usize = 0;
    assert(all.take(0) =~= Seq::<Seq<char>>::empty());
    while i < lines.len()
        invariant
            i <= lines@.len(),
            all == strings_view(lines@),
            all == text_lines(output@),
            trace_state(all.take(i as int)) == Some((saw_frontend, option_string_view(sysroot))),
        decreases lines.len() - i,
    {
        let ghost prefix = all.take(i + 1);
        assert(prefix.drop_last() =~= all.take(i as int));
        assert(prefix.last() == lines@[i as int]@);
        let line = lines[i].as_str();
        if find_text(&chars_of(line), "\"-cc1\"") {
            match parse_clang_trace_arguments(line) {
                None => {
                    proof {
                        lemma_trace_state_stays_failed(all, i as int + 1);
                    }
                    return None;
                },
                Some(args) => {
                    if names_frontend(&args) {
                        match effective_sysroot(&args, sysroot) {
                            None => {
                                proof {
                                    lemma_trace_state_stays_failed(all, i as int + 1);
                                }
                                return None;
                            },
                            Some(next) => {
                                saw_frontend = true;
                                sysroot = next;
                            },
                        }
                    }
                },
            }
        }
        i = i + 1;
    }
    assert(all.take(lines@.len() as int) =~= all);
    if saw_frontend {
        match sysroot {
            Some(path) => Some(ClangSysrootTrace::Path(path)),
            None => Some(ClangSysrootTrace::Default),
        }
    } else {
        None
    }
}

/// Once a line is malformed, the trace stays so.
proof fn lemma_trace_state_stays_failed(lines: Seq<Seq<char>>, n: int)
    requires
        0 <= n <= lines.len(),
        trace_state(lines.take(n)) is None,
    ensures
        trace_state(lines) is None,
    decreases lines.len() - n,
{
    if n < lines.len() {
        assert(lines.take(n + 1).drop_last() =~= lines.take(n));
        lemma_trace_state_stays_failed(lines, n + 1);
    } else {
        assert(lines.take(n) =~= lines);
    }
}

/* Driver commands and the environment */

/// A program and the arguments it is run with.
#[derive(Clone, Debug, PartialEq, Eq)]
pub struct ToolCommandSpec {
    pub program: String,
    pub arguments: Vec<String>,
}

pub open spec fn command_view(c: ToolCommandSpec) -> (Seq<char>, Seq<Seq<char>>) {
    (c.program@, strings_view(c.arguments@))
}

/// The words of `t` from `i` on, split at whitespace, with `current` the
/// word being read.
pub open spec fn words_scan(t: Seq<char>, i: int, current: Seq<char>, done: Seq<Seq<char>>) -> Seq<
    Seq<char>,
>
    decreases t.len() - i,
{
    if i < 0 || i >= t.len() {
        if current.len() > 0 {
            done.push(current)
        } else {
            done
        }
    } else if unicode_whitespace(t[i]) {
        if current.len() > 0 {
            words_scan(t, i + 1, seq![], done.push(current))
        } else {
            words_scan(t, i + 1, seq![], done)
        }
    } else {
        words_scan(t, i + 1, current.push(t[i]), done)
    }
}

/// The words of `t`, as `str::split_whitespace` gives them.
pub open spec fn whitespace_words(t: Seq<char>) -> Seq<Seq<char>> {
    words_scan(t, 0, seq![], seq![])
}

/// `str::split_whitespace`.
pub fn split_words(text: &str) -> (result: Vec<String>)
    ensures
        strings_view(result@) == whitespace_words(text@),
{
    let t = chars_of(text);
    let mut words: Vec<String> = Vec::new();
    let mut current: Vec<char> = Vec::new();
    let mut i: usize = 0;
    assert(strings_view(words@) =~= seq![]);
    assert(current@ =~= seq![]);
    while i < t.len()
        invariant
            i <= t@.len(),
            t@ == text@,
            whitespace_words(text@) == words_scan(t@, i as int, current@, strings_view(words@)),
        decreases t.len() - i,
    {
        if is_unicode_whitespace(t[i]) {
            if current.len() > 0 {
                let word = string_from_chars(current.as_slice());
                let ghost before = words@;
                words.push(word);
                assert(strings_view(words@) =~= strings_view(before).push(current@));
                current = Vec::new();
                assert(current@ =~= seq![]);
            } else {
                assert(current@ =~= seq![]);
            }
        } else {
            current.push(t[i]);
        }
        i = i + 1;
    }
    if current.len() > 0 {
        let word = string_from_chars(current.as_slice());
        let ghost before = words@;
        words.push(word);
        assert(strings_view(words@) =~= strings_view(before).push(current@));
    }
    words
}

/// A command from an environment entry: its first word the program, the
/// others its arguments; an entry without words is an error.
pub fn parse_tool_command(value: &str, description: &str) -> (result: Result<ToolCommandSpec, LinkError>)
    ensures
        match result {
            Ok(command) => whitespace_words(value@).len() > 0 && command_view(command) == (
                whitespace_words(value@)[0],
                whitespace_words(value@).drop_first(),
            ),
            Err(error) => whitespace_words(value@).len() == 0 && error.code@ == "CCC5002"@
                && error.message@ == description@ + " environment entry is empty"@,
        },
{
    let words = split_words(value);
    if words.len() == 0 {
        return Err(
            LinkError { code: "CCC5002", message: concat2(description, " environment entry is empty") },
        );
    }
    let program = words[0].clone();
    let mut arguments: Vec<String> = Vec::new();
    let mut i: usize = 1;
    while i < words.len()
        invariant
            1 <= i <= words@.len(),
            strings_view(arguments@) == strings_view(words@).subrange(1, i as int),
        decreases words.len() - i,
    {
        let ghost before = arguments@;
        arguments.push(words[i].clone());
        assert(strings_view(arguments@) =~= strings_view(before).push(words@[i as int]@));
        assert(strings_view(words@).subrange(1, i + 1) =~= strings_view(words@).subrange(1, i as int).push(
            words@[i as int]@,
        ));
        i = i + 1;
    }
    assert(strings_view(words@).subrange(1, words@.len() as int) =~= strings_view(words@).drop_first());
    Ok(ToolCommandSpec { program, arguments })
}

/// The environment variables that can change what a toolchain resolves to.
pub open spec fn relevant_variable_names() -> Seq<Seq<char>> {
    seq![
        "CCC_CC"@,
        "CCC_OBJCOPY"@,
        "CCC_NMEDIT"@,
        "OBJCOPY"@,
        "PATH"@,
        "SDKROOT"@,
        "DEVELOPER_DIR"@,
        "TOOLCHAINS"@,
        "CLANG_CONFIG_FILE_SYSTEM_DIR"@,
        "CLANG_CONFIG_FILE_USER_DIR"@,
        "GCC_EXEC_PREFIX"@,
        "COMPILER_PATH"@,
        "LIBRARY_PATH"@,
        "CPATH"@,
        "C_INCLUDE_PATH"@,
        "CPLUS_INCLUDE_PATH"@,
        "OBJC_INCLUDE_PATH"@,
        "DEPENDENCIES_OUTPUT"@,
        "SUNPRO_DEPENDENCIES"@,
        "LC_ALL"@,
        "LC_MESSAGES"@,
        "LANG"@,
        "MACOSX_DEPLOYMENT_TARGET"@,
        "IPHONEOS_DEPLOYMENT_TARGET"@,
        "TVOS_DEPLOYMENT_TARGET"@,
        "WATCHOS_DEPLOYMENT_TARGET"@,
        "XROS_DEPLOYMENT_TARGET"@,
        "DRIVERKIT_DEPLOYMENT_TARGET"@,
    ]
}

pub fn relevant_environment_variables() -> (result: Vec<&'static str>)
    ensures
        result@.map_values(|name: &str| name@) == relevant_variable_names(),
{
    let names: Vec<&'static str> = vec![
        "CCC_CC",
        "CCC_OBJCOPY",
        "CCC_NMEDIT",
        "OBJCOPY",
        "PATH",
        "SDKROOT",
        "DEVELOPER_DIR",
        "TOOLCHAINS",
        "CLANG_CONFIG_FILE_SYSTEM_DIR",
        "CLANG_CONFIG_FILE_USER_DIR",
        "GCC_EXEC_PREFIX",
        "COMPILER_PATH",
        "LIBRARY_PATH",
        "CPATH",
        "C_INCLUDE_PATH",
        "CPLUS_INCLUDE_PATH",
        "OBJC_INCLUDE_PATH",
        "DEPENDENCIES_OUTPUT",
        "SUNPRO_DEPENDENCIES",
        "LC_ALL",
        "LC_MESSAGES",
        "LANG",
        "MACOSX_DEPLOYMENT_TARGET",
        "IPHONEOS_DEPLOYMENT_TARGET",
        "TVOS_DEPLOYMENT_TARGET",
        "WATCHOS_DEPLOYMENT_TARGET",
        "XROS_DEPLOYMENT_TARGET",
        "DRIVERKIT_DEPLOYMENT_TARGET",
    ];
    assert(names@.map_values(|name: &str| name@) =~= relevant_variable_names());
    names
}

pub open spec fn entries_view(entries: Seq<EnvironmentEntry>) -> Seq<Seq<char>> {
    entries.map_values(|entry: EnvironmentEntry| entry.name@)
}

/// The relevant environment as `lookup` reports it, in the list's order,
/// each value one that `lookup` gave for the name.
pub fn relevant_environment_with<L: Fn(&str) -> Option<String>>(lookup: L) -> (result: Vec<EnvironmentEntry>)
    requires
        forall|name: &str| lookup.requires((name,)),
    ensures
        entries_view(result@) == relevant_variable_names(),
        forall|k: int| #![trigger result@[k]] 0 <= k < result@.len() ==> exists|name: &str|
            #![trigger lookup.ensures((name,), result@[k].value)]
            name@ == result@[k].name@ && lookup.ensures((name,), result@[k].value),
{
    let names = relevant_environment_variables();
    let mut entries: Vec<EnvironmentEntry> = Vec::new();
    let mut i: usize = 0;
    while i < names.len()
        invariant
            i <= names@.len(),
            names@.map_values(|name: &str| name@) == relevant_variable_names(),
            forall|name: &str| lookup.requires((name,)),
            entries@.len() == i,
            forall|k: int| 0 <= k < i ==> (#[trigger] entries@[k]).name@ == names@[k]@,
            forall|k: int| #![trigger entries@[k]] 0 <= k < i ==> exists|name: &str|
                #![trigger lookup.ensures((name,), entries@[k].value)]
                name@ == entries@[k].name@ && lookup.ensures((name,), entries@[k].value),
        decreases names.len() - i,
    {
        let name = names[i];
        let value = lookup(name);
        let entry = EnvironmentEntry { name: name.to_string(), value };
        assert(lookup.ensures((name,), entry.value));
        entries.push(entry);
        i = i + 1;
    }
    assert(entries_view(entries@) =~= names@.map_values(|name: &str| name@));
    entries
}

/// The value of the first entry named `name`, where it has one.
pub open spec fn environment_lookup(environment: Seq<EnvironmentEntry>, name: Seq<char>) -> Option<
    Seq<char>,
>
    decreases environment.len(),
{
    if environment.len() == 0 {
        None
    } else if environment[0].name@ == name {
        match environment[0].value {
            Some(v) => Some(v@),
            None => None,
        }
    } else {
        environment_lookup(environment.drop_first(), name)
    }
}

pub fn environment_value<'a>(environment: &'a [EnvironmentEntry], name: &str) -> (result: Option<
    &'a str,
>)
    ensures
        match result {
            Some(v) => environment_lookup(environment@, name@) == Some(v@),
            None => environment_lookup(environment@, name@) is None,
        },
{
    let mut i: usize = 0;
    assert(environment@.skip(0) =~= environment@);
    while i < environment.len()
        invariant
            i <= environment@.len(),
            environment_lookup(environment@, name@) == environment_lookup(environment@.skip(i as int), name@),
        decreases environment.len() - i,
    {
        assert(environment@.skip(i as int)[0] == environment@[i as int]);
        if str_eq(environment[i].name.as_str(), name) {
            return match &environment[i].value {
                Some(v) => Some(v.as_str()),
                None => None,
            };
        }
        assert(environment@.skip(i as int).drop_first() =~= environment@.skip(i + 1));
        i = i + 1;
    }
    None
}

/// The processor family of a target.
#[derive(Clone, Copy, Debug, PartialEq, Eq, Structural)]
pub enum TargetArchitecture {
    X86_64,
    Aarch64,
    Riscv64,
    Other,
}

/// The operating system of a target.
#[derive(Clone, Copy, Debug, PartialEq, Eq, Structural)]
pub enum TargetOperatingSystem {
    Linux,
    Darwin,
    Other,
}

/// What the driver choice reads of a target.
#[derive(Clone, Copy, Debug, PartialEq, Eq, Structural)]
pub struct TargetPlatform {
    pub architecture: TargetArchitecture,
    pub operating_system: TargetOperatingSystem,
}

/// The driver for a target when the environment names none: the GNU cross
/// compilers for AArch64 Linux and RISC-V, `xcrun clang` for AArch64 Darwin,
/// `cc` otherwise.
pub open spec fn default_driver(target: TargetPlatform) -> (Seq<char>, Seq<Seq<char>>) {
    match target.architecture {
        TargetArchitecture::Aarch64 => match target.operating_system {
            TargetOperatingSystem::Linux => ("aarch64-linux-gnu-gcc"@, seq![]),
            TargetOperatingSystem::Darwin => ("xcrun"@, seq!["clang"@]),
            TargetOperatingSystem::Other => ("cc"@, seq![]),
        },
        TargetArchitecture::Riscv64 => ("riscv64-linux-gnu-gcc"@, seq![]),
        _ => ("cc"@, seq![]),
    }
}

/// The compiler driver: the command `CCC_CC` names, else the target's
/// default.
pub fn driver_from_environment(environment: &[EnvironmentEntry], target: TargetPlatform) -> (result:
    Result<ToolCommandSpec, LinkError>)
    ensures
        match environment_lookup(environment@, "CCC_CC"@) {
            Some(value) => match result {
                Ok(command) => whitespace_words(value).len() > 0 && command_view(command) == (
                    whitespace_words(value)[0],
                    whitespace_words(value).drop_first(),
                ),
                Err(error) => whitespace_words(value).len() == 0 && error.code@ == "CCC5002"@
                    && error.message@ == "target compiler driver environment entry is empty"@,
            },
            None => result matches Ok(command) && command_view(command) == default_driver(target),
        },
{
    match environment_value(environment, "CCC_CC") {
        Some(value) => {
            let parsed = parse_tool_command(value, "target compiler driver");
            proof {
                reveal_strlit("target compiler driver");
                reveal_strlit(" environment entry is empty");
                reveal_strlit("target compiler driver environment entry is empty");
                assert("target compiler driver"@ + " environment entry is empty"@
                    =~= "target compiler driver environment entry is empty"@);
            }
            parsed
        },
        None => {
            let (program, arguments): (&str, Vec<String>) = match target.architecture {
                TargetArchitecture::Aarch64 => match target.operating_system {
                    TargetOperatingSystem::Linux => ("aarch64-linux-gnu-gcc", Vec::new()),
                    TargetOperatingSystem::Darwin => ("xcrun", vec!["clang".to_string()]),
                    TargetOperatingSystem::Other => ("cc", Vec::new()),
                },
                TargetArchitecture::Riscv64 => ("riscv64-linux-gnu-gcc", Vec::new()),
                _ => ("cc", Vec::new()),
            };
            let command = ToolCommandSpec { program: program.to_string(), arguments };
            assert(command_view(command) =~= default_driver(target));
            Ok(command)
        },
    }
}

/// The driver with the target's arguments after its own, and a
/// `--sysroot=` argument for an explicit sysroot.
pub fn command_with_target_options(
    driver: &ToolCommandSpec,
    target_arguments: &[String],
    explicit_sysroot: Option<&str>,
) -> (result: ToolCommandSpec)
    ensures
        command_view(result) == (
            driver.program@,
            strings_view(driver.arguments@) + strings_view(target_arguments@) + match explicit_sysroot {
                Some(root) => seq!["--sysroot="@ + root@],
                None => seq![],
            },
        ),
{
    let mut arguments: Vec<String> = Vec::new();
    let mut i: usize = 0;
    while i < driver.arguments.len()
        invariant
            i <= driver.arguments@.len(),
            strings_view(arguments@) == strings_view(driver.arguments@).take(i as int),
        decreases driver.arguments.len() - i,
    {
        let ghost before = arguments@;
        arguments.push(driver.arguments[i].clone());
        assert(strings_view(arguments@) =~= strings_view(before).push(driver.arguments@[i as int]@));
        assert(strings_view(driver.arguments@).take(i + 1) =~= strings_view(driver.arguments@).take(
            i as int,
        ).push(driver.arguments@[i as int]@));
        i = i + 1;
    }
    let ghost own = strings_view(arguments@);
    assert(own =~= strings_view(driver.arguments@));
    let mut k: usize = 0;
    while k < target_arguments.len()
        invariant
            k <= target_arguments@.len(),
            own == strings_view(driver.arguments@),
            strings_view(arguments@) == own + strings_view(target_arguments@).take(k as int),
        decreases target_arguments.len() - k,
    {
        let ghost before = arguments@;
        arguments.push(target_arguments[k].clone());
        assert(strings_view(arguments@) =~= strings_view(before).push(target_arguments@[k as int]@));
        assert(strings_view(target_arguments@).take(k + 1) =~= strings_view(target_arguments@).take(
            k as int,
        ).push(target_arguments@[k as int]@));
        assert(strings_view(arguments@) =~= own + strings_view(target_arguments@).take(k + 1));
        k = k + 1;
    }
    assert(strings_view(target_arguments@).take(target_arguments@.len() as int) =~= strings_view(target_arguments@));
    let ghost joined = strings_view(arguments@);
    match explicit_sysroot {
        Some(root) => {
            arguments.push(concat2("--sysroot=", root));
            assert(strings_view(arguments@) =~= joined + seq!["--sysroot="@ + root@]);
        },
        None => {
            assert(strings_view(arguments@) =~= joined + seq![]);
        },
    }
    ToolCommandSpec { program: driver.program.clone(), arguments }
}

} // verus!
