//! Rendering of preprocessed output as C text, of the macros defined at
//! the end as `#define` lines, and of dependency information as a make rule.

use vstd::prelude::*;

use crate::pp::engine::{
    Dependency, DependencyGraph, DiagnosticPragmaAction, LineMarker, MacroSnapshot,
    MacroSnapshotEntry, PpItem, PragmaEvent, PreprocessOutput,
};
use crate::pp::lexer::{separator_needed, tokens_require_separator};
use crate::pp::token::{PpToken, PpTokenKind};
use crate::text::{
    char_utf8_width, char_utf8_width_exec, chars_of, decimal, push_decimal, push_str, str_eq,
    string_from_chars,
};

verus! {

/* Text measures */

/// The number of bytes in the UTF-8 encoding of `t`.
pub open spec fn byte_len(t: Seq<char>) -> int {
    vstd::utf8::encode_utf8(t).len() as int
}

pub proof fn lemma_byte_len_concat(a: Seq<char>, b: Seq<char>)
    ensures
        byte_len(a + b) == byte_len(a) + byte_len(b),
    decreases a.len(),
{
    if a.len() == 0 {
        assert(a + b =~= b);
    } else {
        assert((a + b).drop_first() =~= a.drop_first() + b);
        assert((a + b)[0] == a[0]);
        lemma_byte_len_concat(a.drop_first(), b);
    }
}

pub proof fn lemma_byte_len_bound(t: Seq<char>)
    ensures
        t.len() <= byte_len(t) <= 4 * t.len(),
    decreases t.len(),
{
    if t.len() > 0 {
        lemma_byte_len_bound(t.drop_first());
        let s = vstd::utf8::encode_scalar(t[0] as u32);
        assert(1 <= s.len() <= 4);
    }
}

/// A character below U+0080 takes one byte.
pub proof fn lemma_byte_len_ascii(c: char)
    requires
        (c as u32) < 0x80,
    ensures
        byte_len(seq![c]) == 1,
{
    assert(seq![c].drop_first() =~= Seq::<char>::empty());
    assert(vstd::utf8::encode_utf8(Seq::<char>::empty()).len() == 0);
    assert(vstd::utf8::encode_scalar(c as u32).len() == 1);
}

/// A character takes as many bytes as its UTF-8 width.
pub proof fn lemma_byte_len_char(c: char)
    ensures
        byte_len(seq![c]) == char_utf8_width(c),
{
    vstd::utf8::char_is_scalar(c);
    assert(seq![c].drop_first() =~= Seq::<char>::empty());
    assert(vstd::utf8::encode_utf8(Seq::<char>::empty()).len() == 0);
}

/// The number of bytes in the UTF-8 encoding of `text`.
fn byte_length(text: &str) -> (n: u128)
    ensures
        n == byte_len(text@),
        n <= 4 * text@.len(),
        n <= 4 * (usize::MAX as int),
{
    let s = chars_of(text);
    let mut n: u128 = 0;
    let mut i: usize = 0;
    while i < s.len()
        invariant
            i <= s.len(),
            s@ == text@,
            n == byte_len(s@.take(i as int)),
            n <= 4 * i,
        decreases s.len() - i,
    {
        proof {
            assert(s@.take(i + 1) =~= s@.take(i as int) + seq![s@[i as int]]);
            lemma_byte_len_concat(s@.take(i as int), seq![s@[i as int]]);
            lemma_byte_len_char(s@[i as int]);
        }
        n = n + char_utf8_width_exec(s[i]) as u128;
        i = i + 1;
    }
    assert(s@.take(i as int) =~= s@);
    n
}

pub proof fn lemma_string_texts_push(items: Seq<String>, item: String)
    ensures
        string_texts(items.push(item)) == string_texts(items).push(item@),
{
    assert(string_texts(items.push(item)) =~= string_texts(items).push(item@));
}

/* Make escaping */

/// `n` backslashes.
pub open spec fn backslashes(n: nat) -> Seq<char> {
    Seq::new(n, |i: int| '\\')
}

/// The make escaping of `t` after `pending` backslashes that no blank or
/// `#` has followed yet.
pub open spec fn escape_make_from(t: Seq<char>, pending: nat) -> Seq<char>
    decreases t.len(),
{
    if t.len() == 0 {
        Seq::empty()
    } else {
        let c = t[0];
        let rest = t.drop_first();
        if c == '\\' {
            seq!['\\'] + escape_make_from(rest, pending + 1)
        } else if c == ' ' || c == '\t' || c == '#' {
            backslashes(pending + 1) + seq![c] + escape_make_from(rest, 0)
        } else if c == '$' {
            seq!['$', '$'] + escape_make_from(rest, 0)
        } else {
            seq![c] + escape_make_from(rest, 0)
        }
    }
}

/// `t` escaped for a make rule: blanks and `#` get a backslash (doubling the
/// backslashes before them), and `$` is doubled.
pub open spec fn escape_make_spec(t: Seq<char>) -> Seq<char> {
    escape_make_from(t, 0)
}

/// Whether `t` holds none of the characters make escaping touches.
pub open spec fn make_plain(t: Seq<char>) -> bool {
    forall|i: int| 0 <= i < t.len() ==> !(t[i] == '\\' || t[i] == ' ' || t[i] == '\t' || t[i] == '#' || t[i] == '$')
}

/// Make escaping, piece by piece: text with no blank, `#`, `$` or
/// backslash is left alone; a `$` becomes `$$`; a blank or `#` gets one
/// backslash, and so do the backslashes just before it; text that does not
/// end in a backslash escapes on its own, whatever follows it.
pub proof fn lemma_make_escaping(a: Seq<char>, b: Seq<char>, p: nat)
    ensures
        make_plain(a) ==> escape_make_from(a, p) == a,
        escape_make_spec(seq!['$']) == seq!['$', '$'],
        escape_make_spec(seq![' ']) == seq!['\\', ' '],
        escape_make_spec(seq!['#']) == seq!['\\', '#'],
        escape_make_spec(seq!['\\', ' ']) == seq!['\\', '\\', '\\', ' '],
        escape_make_spec(seq!['\\', 'a']) == seq!['\\', 'a'],
        a.len() > 0 && a.last() != '\\' ==> escape_make_from(a + b, p) == escape_make_from(a, p)
            + escape_make_from(b, 0),
    decreases a.len(),
{
    if a.len() > 0 {
        lemma_make_escaping(a.drop_first(), b, if a[0] == '\\' { p + 1 } else { 0 });
        assert((a + b).drop_first() =~= a.drop_first() + b);
        assert((a + b)[0] == a[0]);
        if make_plain(a) {
            assert(make_plain(a.drop_first())) by {
                assert forall|i: int| 0 <= i < a.drop_first().len() implies !(a.drop_first()[i] == '\\'
                    || a.drop_first()[i] == ' ' || a.drop_first()[i] == '\t' || a.drop_first()[i] == '#'
                    || a.drop_first()[i] == '$') by {
                    assert(a.drop_first()[i] == a[i + 1]);
                }
            }
            assert(!(a[0] == '\\' || a[0] == ' ' || a[0] == '\t' || a[0] == '#' || a[0] == '$'));
            assert(a =~= seq![a[0]] + a.drop_first());
        }
        if a.len() == 1 && a.last() != '\\' {
            assert(a.drop_first() + b =~= b);
            assert(a.drop_first() =~= Seq::<char>::empty());
        }
    }
    let empty = Seq::<char>::empty();
    assert(seq!['$'].drop_first() =~= empty);
    assert(seq![' '].drop_first() =~= empty);
    assert(seq!['#'].drop_first() =~= empty);
    assert(seq!['\\', ' '].drop_first() =~= seq![' ']);
    assert(seq!['\\', 'a'].drop_first() =~= seq!['a']);
    assert(seq!['a'].drop_first() =~= empty);
    assert(backslashes(1) =~= seq!['\\']);
    assert(backslashes(2) =~= seq!['\\', '\\']);
    assert(seq!['$', '$'] + empty =~= seq!['$', '$']);
    assert(backslashes(1) + seq![' '] + empty =~= seq!['\\', ' ']);
    assert(backslashes(1) + seq!['#'] + empty =~= seq!['\\', '#']);
    assert(escape_make_from(empty, 0) == empty);
    assert(backslashes((1 + 1) as nat) + seq![' '] + empty =~= seq!['\\', '\\', ' ']);
    assert(escape_make_from(seq![' '], 1) =~= seq!['\\', '\\', ' ']);
    assert(seq!['\\'] + seq!['\\', '\\', ' '] =~= seq!['\\', '\\', '\\', ' ']);
    assert(escape_make_from(seq!['a'], 1) =~= seq!['a']);
    assert(seq!['\\'] + seq!['a'] =~= seq!['\\', 'a']);
}

#[verifier::loop_isolation(false)]
fn escape_make(text: &str) -> (result: String)
    ensures
        result@ == escape_make_spec(text@),
{
    let s = chars_of(text);
    let mut output: Vec<char> = Vec::new();
    let mut pending: usize = 0;
    let mut i: usize = 0;
    assert(s@.skip(0) =~= s@);
    while i < s.len()
        invariant
            i <= s.len(),
            pending <= i,
            s@ == text@,
            escape_make_spec(s@) == output@ + escape_make_from(s@.skip(i as int), pending as nat),
        decreases s.len() - i,
    {
        let ghost before = output@;
        let ghost rest = s@.skip(i as int);
        let c = s[i];
        assert(rest[0] == c);
        assert(rest.drop_first() =~= s@.skip(i + 1));
        if c == '\\' {
            output.push('\\');
            pending = pending + 1;
            assert(before + (seq!['\\'] + escape_make_from(s@.skip(i + 1), pending as nat))
                =~= output@ + escape_make_from(s@.skip(i + 1), pending as nat));
        } else if c == ' ' || c == '\t' || c == '#' {
            let mut k: usize = 0;
            while k < pending + 1
                invariant
                    k <= pending + 1,
                    output@ == before + backslashes(k as nat),
                decreases pending + 1 - k,
            {
                output.push('\\');
                k = k + 1;
                assert(before + backslashes(k as nat) =~= (before + backslashes((k - 1) as nat)).push(
                    '\\',
                ));
            }
            output.push(c);
            assert(before + (backslashes((pending + 1) as nat) + seq![c] + escape_make_from(
                s@.skip(i + 1),
                0,
            )) =~= output@ + escape_make_from(s@.skip(i + 1), 0));
            pending = 0;
        } else if c == '$' {
            output.push('$');
            output.push('$');
            assert(before + (seq!['$', '$'] + escape_make_from(s@.skip(i + 1), 0)) =~= output@
                + escape_make_from(s@.skip(i + 1), 0));
            pending = 0;
        } else {
            output.push(c);
            assert(before + (seq![c] + escape_make_from(s@.skip(i + 1), 0)) =~= output@
                + escape_make_from(s@.skip(i + 1), 0));
            pending = 0;
        }
        i = i + 1;
    }
    assert(output@ + Seq::<char>::empty() =~= output@);
    string_from_chars(output.as_slice())
}

/* Default target */

/// std's `Path::file_name` on `path`: its last component, if it has one.
pub uninterp spec fn path_file_name(path: Seq<char>) -> Option<Seq<char>>;

/// std's `PathBuf::set_extension` on `path` with `extension`.
pub uninterp spec fn path_with_extension(path: Seq<char>, extension: Seq<char>) -> Seq<char>;

/// std's `Path::file_name`, as text.
#[verifier::external_body]
fn file_name_of(path: &str) -> (result: Option<String>)
    ensures
        match result {
            Some(name) => path_file_name(path@) == Some(name@),
            None => path_file_name(path@) is None,
        },
{
    match std::path::Path::new(path).file_name() {
        Some(name) => Some(name.to_string_lossy().into_owned()),
        None => None,
    }
}

/// std's `PathBuf::set_extension` with the extension `o`, as text. The
/// extension holds no path separator, so the call cannot panic.
#[verifier::external_body]
fn with_object_extension(path: &str) -> (result: String)
    ensures
        result@ == path_with_extension(path@, "o"@),
{
    let mut buffer = std::path::PathBuf::from(path);
    buffer.set_extension("o");
    buffer.to_string_lossy().into_owned()
}

/// The object file named after the input: its file name with the
/// extension `o`.
pub open spec fn default_object_target_spec(input: Seq<char>) -> Seq<char> {
    let name = match path_file_name(input) {
        Some(name) => name,
        None => input,
    };
    path_with_extension(name, "o"@)
}

fn default_object_target(input: &str) -> (result: String)
    ensures
        result@ == default_object_target_spec(input@),
{
    let name = match file_name_of(input) {
        Some(name) => name,
        None => input.to_owned(),
    };
    with_object_extension(name.as_str())
}

/* Dependency rules */

/// How a dependency rule is written.
#[derive(Clone, Debug)]
pub struct DependencyRenderOptions {
    pub targets: Vec<String>,
    pub quote_targets: bool,
    pub phony_targets: bool,
    pub exclude_system_headers: bool,
    pub wrap_column: usize,
}

impl Default for DependencyRenderOptions {
    fn default() -> (result: Self)
        ensures
            result.targets@.len() == 0,
            result.quote_targets,
            !result.phony_targets,
            !result.exclude_system_headers,
            result.wrap_column == 80,
    {
        Self {
            targets: Vec::new(),
            quote_targets: true,
            phony_targets: false,
            exclude_system_headers: false,
            wrap_column: 80,
        }
    }
}

pub open spec fn string_texts(items: Seq<String>) -> Seq<Seq<char>> {
    items.map_values(|item: String| item@)
}

/// The targets of the rule: those given, or the object named after the main
/// file; each escaped when targets are quoted.
pub open spec fn target_names(files: Seq<Dependency>, options: DependencyRenderOptions) -> Seq<
    Seq<char>,
> {
    let raw = if options.targets@.len() == 0 {
        seq![default_object_target_spec(files[0].path@)]
    } else {
        string_texts(options.targets@)
    };
    if options.quote_targets {
        raw.map_values(|t: Seq<char>| escape_make_spec(t))
    } else {
        raw
    }
}

/// `items` separated by single spaces.
pub open spec fn join_spaced(items: Seq<Seq<char>>) -> Seq<char>
    decreases items.len(),
{
    if items.len() == 0 {
        Seq::empty()
    } else if items.len() == 1 {
        items[0]
    } else {
        join_spaced(items.drop_last()) + seq![' '] + items.last()
    }
}

/// Joining with single spaces: nothing gives nothing, one item is itself,
/// and two nonempty lists join as the first's text, one space, and the
/// second's text, wherever the lists are split.
pub proof fn lemma_join_spaced_splits(a: Seq<Seq<char>>, b: Seq<Seq<char>>)
    ensures
        join_spaced(Seq::<Seq<char>>::empty()) == Seq::<char>::empty(),
        a.len() == 1 ==> join_spaced(a) == a[0],
        a.len() > 0 && b.len() > 0 ==> join_spaced(a + b) == join_spaced(a) + seq![' '] + join_spaced(b),
    decreases b.len(),
{
    if a.len() > 0 && b.len() > 0 {
        if b.len() == 1 {
            assert((a + b).drop_last() =~= a);
        } else {
            lemma_join_spaced_splits(a, b.drop_last());
            assert((a + b).drop_last() =~= a + b.drop_last());
            assert((a + b).last() == b.last());
        }
    }
}

/// The head of a make rule names each target, in order, separated by
/// single spaces and followed by `:`.
pub proof fn lemma_rule_head_lists_the_targets(files: Seq<Dependency>, options: DependencyRenderOptions)
    requires
        files.len() > 0,
        options.targets@.len() > 0,
        !options.quote_targets,
    ensures
        ({
            let head = join_spaced(string_texts(options.targets@)) + seq![':'];
            dependencies_text(files, options).take(head.len() as int) == head
        }),
{
    let head = join_spaced(string_texts(options.targets@)) + seq![':'];
    assert(dependencies_text(files, options).take(head.len() as int) =~= head);
}

/// Whether the dependency at `index` is listed: the main file always is,
/// system headers only when they are not excluded.
pub open spec fn dependency_listed(index: int, dependency: Dependency, exclude_system: bool) -> bool {
    index == 0 || !exclude_system || !dependency.system
}

/// The paths of the listed dependencies, each once, in first-read order.
pub open spec fn kept_paths(files: Seq<Dependency>, exclude_system: bool) -> Seq<Seq<char>>
    decreases files.len(),
{
    if files.len() == 0 {
        Seq::empty()
    } else {
        let earlier = kept_paths(files.drop_last(), exclude_system);
        let index = files.len() - 1;
        let dependency = files[index];
        if dependency_listed(index, dependency, exclude_system) && !earlier.contains(
            dependency.path@,
        ) {
            earlier.push(dependency.path@)
        } else {
            earlier
        }
    }
}

/// The dependency list that follows `targets:`, each entry after a blank or,
/// when the line would pass `wrap` columns, after a continuation; with the
/// column where it ends. `head` is the width of the targets.
pub open spec fn wrapped(deps: Seq<Seq<char>>, head: int, wrap: int) -> (Seq<char>, int)
    decreases deps.len(),
{
    if deps.len() == 0 {
        (Seq::empty(), head + 1)
    } else {
        let (text, column) = wrapped(deps.drop_last(), head, wrap);
        let dependency = deps.last();
        let required = byte_len(dependency) + 1;
        if wrap > 0 && column + required > wrap && column > head + 1 {
            (text + " \\\n  "@ + dependency, 2 + byte_len(dependency))
        } else {
            (text + seq![' '] + dependency, column + 1 + byte_len(dependency))
        }
    }
}

/// An empty rule for each dependency, so that make survives its removal.
pub open spec fn phony_rules(deps: Seq<Seq<char>>) -> Seq<char>
    decreases deps.len(),
{
    if deps.len() == 0 {
        Seq::empty()
    } else {
        phony_rules(deps.drop_last()) + seq!['\n'] + deps.last() + ":\n"@
    }
}

/// The dependencies after the main file.
pub open spec fn headers(deps: Seq<Seq<char>>) -> Seq<Seq<char>> {
    if deps.len() == 0 {
        deps
    } else {
        deps.drop_first()
    }
}

/// The make rule for the files of a dependency graph.
pub open spec fn dependencies_text(files: Seq<Dependency>, options: DependencyRenderOptions) -> Seq<
    char,
> {
    if files.len() == 0 {
        Seq::empty()
    } else {
        let targets = join_spaced(target_names(files, options));
        let deps = kept_paths(files, options.exclude_system_headers).map_values(
            |p: Seq<char>| escape_make_spec(p),
        );
        targets + seq![':'] + wrapped(deps, byte_len(targets), options.wrap_column as int).0 + seq![
            '\n',
        ] + if options.phony_targets {
            phony_rules(headers(deps))
        } else {
            Seq::empty()
        }
    }
}

fn target_list(files: &Vec<Dependency>, options: &DependencyRenderOptions) -> (result: Vec<String>)
    requires
        files@.len() > 0,
    ensures
        string_texts(result@) == target_names(files@, *options),
{
    let mut raw: Vec<String> = Vec::new();
    if options.targets.len() == 0 {
        raw.push(default_object_target(files[0].path.as_str()));
        assert(string_texts(raw@) =~= seq![default_object_target_spec(files@[0].path@)]);
    } else {
        let mut k: usize = 0;
        while k < options.targets.len()
            invariant
                k <= options.targets@.len(),
                string_texts(raw@) == string_texts(options.targets@).take(k as int),
            decreases options.targets.len() - k,
        {
            let ghost before = raw@;
            raw.push(options.targets[k].clone());
            proof {
                lemma_string_texts_push(before, raw@[k as int]);
                assert(string_texts(options.targets@).take(k + 1) =~= string_texts(
                    options.targets@,
                ).take(k as int).push(options.targets@[k as int]@));
            }
            k = k + 1;
        }
        assert(string_texts(options.targets@).take(k as int) =~= string_texts(options.targets@));
    }
    if !options.quote_targets {
        return raw;
    }
    let mut quoted: Vec<String> = Vec::new();
    let mut k: usize = 0;
    while k < raw.len()
        invariant
            k <= raw@.len(),
            string_texts(quoted@) == string_texts(raw@).take(k as int).map_values(
                |t: Seq<char>| escape_make_spec(t),
            ),
        decreases raw.len() - k,
    {
        let ghost before = quoted@;
        quoted.push(escape_make(raw[k].as_str()));
        proof {
            lemma_string_texts_push(before, quoted@[k as int]);
            assert(string_texts(raw@).take(k + 1).map_values(|t: Seq<char>| escape_make_spec(t))
                =~= string_texts(raw@).take(k as int).map_values(
                |t: Seq<char>| escape_make_spec(t),
            ).push(escape_make_spec(raw@[k as int]@)));
        }
        k = k + 1;
    }
    assert(string_texts(raw@).take(k as int) =~= string_texts(raw@));
    quoted
}

fn join_with_spaces(items: &Vec<String>) -> (result: Vec<char>)
    ensures
        result@ == join_spaced(string_texts(items@)),
{
    let mut output: Vec<char> = Vec::new();
    let mut k: usize = 0;
    while k < items.len()
        invariant
            k <= items@.len(),
            output@ == join_spaced(string_texts(items@).take(k as int)),
        decreases items.len() - k,
    {
        let ghost before = output@;
        let ghost prefix = string_texts(items@).take(k + 1);
        assert(prefix.drop_last() =~= string_texts(items@).take(k as int));
        if k > 0 {
            output.push(' ');
        } else {
            assert(before =~= Seq::<char>::empty());
        }
        push_str(&mut output, items[k].as_str());
        assert(output@ =~= join_spaced(prefix));
        k = k + 1;
    }
    assert(string_texts(items@).take(k as int) =~= string_texts(items@));
    output
}

fn contains_text(items: &Vec<String>, text: &str) -> (result: bool)
    ensures
        result == string_texts(items@).contains(text@),
{
    let mut k: usize = 0;
    while k < items.len()
        invariant
            k <= items@.len(),
            forall|j: int| 0 <= j < k ==> items@[j]@ != text@,
        decreases items.len() - k,
    {
        if str_eq(items[k].as_str(), text) {
            assert(string_texts(items@)[k as int] == text@);
            return true;
        }
        k = k + 1;
    }
    assert(!string_texts(items@).contains(text@)) by {
        if string_texts(items@).contains(text@) {
            let j = choose|j: int| 0 <= j < items@.len() && string_texts(items@)[j] == text@;
            assert(items@[j]@ == text@);
        }
    }
    false
}

fn listed_paths(files: &Vec<Dependency>, exclude_system: bool) -> (result: Vec<String>)
    ensures
        string_texts(result@) == kept_paths(files@, exclude_system),
{
    let mut kept: Vec<String> = Vec::new();
    let mut i: usize = 0;
    while i < files.len()
        invariant
            i <= files@.len(),
            string_texts(kept@) == kept_paths(files@.take(i as int), exclude_system),
        decreases files.len() - i,
    {
        let ghost prefix = files@.take(i + 1);
        assert(prefix.drop_last() =~= files@.take(i as int));
        assert(prefix[i as int] == files@[i as int]);
        let dependency = &files[i];
        if (i == 0 || !exclude_system || !dependency.system) && !contains_text(
            &kept,
            dependency.path.as_str(),
        ) {
            let ghost before = kept@;
            kept.push(dependency.path.clone());
            proof {
                lemma_string_texts_push(before, kept@[kept@.len() - 1]);
            }
        }
        i = i + 1;
    }
    assert(files@.take(i as int) =~= files@);
    kept
}

fn escape_all(items: &Vec<String>) -> (result: Vec<String>)
    ensures
        string_texts(result@) == string_texts(items@).map_values(
            |p: Seq<char>| escape_make_spec(p),
        ),
{
    let mut escaped: Vec<String> = Vec::new();
    let mut k: usize = 0;
    while k < items.len()
        invariant
            k <= items@.len(),
            string_texts(escaped@) == string_texts(items@).take(k as int).map_values(
                |p: Seq<char>| escape_make_spec(p),
            ),
        decreases items.len() - k,
    {
        let ghost before = escaped@;
        escaped.push(escape_make(items[k].as_str()));
        proof {
            lemma_string_texts_push(before, escaped@[k as int]);
            assert(string_texts(items@).take(k + 1).map_values(|p: Seq<char>| escape_make_spec(p))
                =~= string_texts(items@).take(k as int).map_values(
                |p: Seq<char>| escape_make_spec(p),
            ).push(escape_make_spec(items@[k as int]@)));
        }
        k = k + 1;
    }
    assert(string_texts(items@).take(k as int) =~= string_texts(items@));
    escaped
}

/// Appends the wrapped dependency list to `output`, which holds the targets
/// and the colon.
fn push_wrapped(output: &mut Vec<char>, deps: &Vec<String>, head: u128, wrap: usize)
    requires
        byte_len(old(output)@) == head + 1,
        head <= 4 * (usize::MAX as int),
    ensures
        final(output)@ == old(output)@ + wrapped(string_texts(deps@), head as int, wrap as int).0,
{
    let ghost start = output@;
    let ghost texts = string_texts(deps@);
    let mut column: u128 = head + 1;
    let mut k: usize = 0;
    proof {
        lemma_byte_len_bound(output@);
        assert(texts.take(0) =~= Seq::<Seq<char>>::empty());
        assert(start + Seq::<char>::empty() =~= start);
    }
    while k < deps.len()
        invariant
            k <= deps@.len(),
            texts == string_texts(deps@),
            output@ == start + wrapped(texts.take(k as int), head as int, wrap as int).0,
            column as int == wrapped(texts.take(k as int), head as int, wrap as int).1,
            column <= byte_len(output@),
            byte_len(output@) <= 4 * output@.len(),
            head <= 4 * (usize::MAX as int),
        decreases deps.len() - k,
    {
        let length = output.len();
        assert(column <= 4 * (usize::MAX as int));
        let ghost before = output@;
        let ghost prefix = texts.take(k + 1);
        assert(prefix.drop_last() =~= texts.take(k as int));
        assert(prefix.last() == deps@[k as int]@);
        let dependency = deps[k].as_str();
        let width = byte_length(dependency);
        let required = width + 1;
        if wrap > 0 && column + required > wrap as u128 && column > head + 1 {
            push_str(output, " \\\n  ");
            push_str(output, dependency);
            column = 2 + width;
            proof {
                lemma_byte_len_concat(before, " \\\n  "@);
                lemma_byte_len_concat(before + " \\\n  "@, dependency@);
                reveal_strlit(" \\\n  ");
                lemma_byte_len_bound(" \\\n  "@);
            }
        } else {
            output.push(' ');
            push_str(output, dependency);
            column = column + 1 + width;
            proof {
                assert(before.push(' ') =~= before + seq![' ']);
                lemma_byte_len_concat(before, seq![' ']);
                lemma_byte_len_concat(before + seq![' '], dependency@);
                lemma_byte_len_ascii(' ');
            }
        }
        proof {
            lemma_byte_len_bound(output@);
        }
        assert(output@ =~= start + wrapped(prefix, head as int, wrap as int).0);
        k = k + 1;
    }
    assert(texts.take(k as int) =~= texts);
}

fn push_phony_rules(output: &mut Vec<char>, deps: &Vec<String>)
    ensures
        final(output)@ == old(output)@ + phony_rules(headers(string_texts(deps@))),
{
    if deps.len() <= 1 {
        assert(headers(string_texts(deps@)) =~= Seq::<Seq<char>>::empty());
        assert(old(output)@ + Seq::<char>::empty() =~= old(output)@);
        return;
    }
    let ghost start = output@;
    let ghost texts = headers(string_texts(deps@));
    let mut k: usize = 1;
    assert(texts.take(0) =~= Seq::<Seq<char>>::empty());
    assert(start + Seq::<char>::empty() =~= start);
    while k < deps.len()
        invariant
            1 <= k <= deps@.len(),
            texts == headers(string_texts(deps@)),
            output@ == start + phony_rules(texts.take(k - 1)),
        decreases deps.len() - k,
    {
        let ghost before = output@;
        let ghost prefix = texts.take(k as int);
        assert(prefix.drop_last() =~= texts.take(k - 1));
        assert(prefix.last() == deps@[k as int]@);
        output.push('\n');
        push_str(output, deps[k].as_str());
        push_str(output, ":\n");
        assert(output@ =~= start + phony_rules(prefix));
        k = k + 1;
    }
    assert(texts.take(k - 1) =~= texts);
}

/// Renders the make rule for the files of `graph`: the targets, a colon, the
/// listed dependencies, and optionally an empty rule for each header.
pub fn render_dependencies(graph: &DependencyGraph, options: &DependencyRenderOptions) -> (result:
    String)
    ensures
        result@ == dependencies_text(graph.files@, *options),
{
    if graph.files.len() == 0 {
        return String::new();
    }
    let names = target_list(&graph.files, options);
    let mut output = join_with_spaces(&names);
    let ghost targets = output@;
    let head = byte_length(string_from_chars(output.as_slice()).as_str());
    output.push(':');
    proof {
        assert(output@ =~= targets + seq![':']);
        lemma_byte_len_concat(targets, seq![':']);
        lemma_byte_len_ascii(':');
    }
    let kept = listed_paths(&graph.files, options.exclude_system_headers);
    let deps = escape_all(&kept);
    push_wrapped(&mut output, &deps, head, options.wrap_column);
    output.push('\n');
    if options.phony_targets {
        push_phony_rules(&mut output, &deps);
    }
    proof {
        let d = kept_paths(graph.files@, options.exclude_system_headers).map_values(
            |p: Seq<char>| escape_make_spec(p),
        );
        assert(string_texts(deps@) == d);
        if options.phony_targets {
            assert(output@ =~= dependencies_text(graph.files@, *options));
        } else {
            assert(output@ =~= dependencies_text(graph.files@, *options));
        }
    }
    string_from_chars(output.as_slice())
}

} // verus!

verus! {

/* Preprocessed text */

/// `text` with a space after a final backslash, so that the newline that
/// follows cannot splice the line.
pub open spec fn splice_guard(text: Seq<char>) -> Seq<char> {
    if text.len() > 0 && text.last() == '\\' {
        text.push(' ')
    } else {
        text
    }
}

pub open spec fn end_line(text: Seq<char>) -> Seq<char> {
    splice_guard(text).push('\n')
}

/// `text` ending a line: a line left open is ended first.
pub open spec fn open_line(text: Seq<char>) -> Seq<char> {
    if text.len() > 0 && text.last() != '\n' {
        end_line(text)
    } else {
        text
    }
}

pub open spec fn c_escape(c: char) -> Seq<char> {
    if c == '\\' {
        seq!['\\', '\\']
    } else if c == '"' {
        seq!['\\', '"']
    } else {
        seq![c]
    }
}

pub open spec fn c_quoted_body(s: Seq<char>) -> Seq<char>
    decreases s.len(),
{
    if s.len() == 0 {
        seq![]
    } else {
        c_quoted_body(s.drop_last()) + c_escape(s.last())
    }
}

/// `s` as a C string literal, its backslashes and quotes escaped.
pub open spec fn c_quoted(s: Seq<char>) -> Seq<char> {
    seq!['"'] + c_quoted_body(s) + seq!['"']
}

/// C quoting, piece by piece: the body of two texts is the body of one then
/// the other; a backslash or a double quote gets a backslash before it and
/// every other character stands as it is; the quoted text is the body
/// between double quotes.
pub proof fn lemma_c_quoting(a: Seq<char>, b: Seq<char>, c: char)
    ensures
        c_quoted_body(a + b) == c_quoted_body(a) + c_quoted_body(b),
        c_quoted_body(seq![c]) == if c == '\\' || c == '"' {
            seq!['\\', c]
        } else {
            seq![c]
        },
        c_quoted(a) == seq!['"'] + c_quoted_body(a) + seq!['"'],
        (forall|i: int| 0 <= i < a.len() ==> a[i] != '\\' && a[i] != '"') ==> c_quoted_body(a) == a,
    decreases b.len() + a.len(),
{
    if b.len() > 0 {
        lemma_c_quoting(a, b.drop_last(), c);
        assert((a + b).drop_last() =~= a + b.drop_last());
        assert((a + b).last() == b.last());
    } else {
        assert(a + b =~= a);
    }
    assert(seq![c].drop_last() =~= Seq::<char>::empty());
    assert(seq![c].last() == c);
    assert(c_quoted_body(Seq::<char>::empty()) == Seq::<char>::empty());
    assert(c_quoted_body(seq![c]) == Seq::<char>::empty() + c_escape(c));
    assert(Seq::<char>::empty() + c_escape(c) =~= c_escape(c));
    if a.len() > 0 && (forall|i: int| 0 <= i < a.len() ==> a[i] != '\\' && a[i] != '"') {
        lemma_c_quoting(a.drop_last(), Seq::<char>::empty(), c);
        assert(forall|i: int| 0 <= i < a.drop_last().len() ==> a.drop_last()[i] == a[i]);
        assert(c_quoted_body(a.drop_last()) == a.drop_last());
        assert(a =~= a.drop_last().push(a.last()));
        assert(a.drop_last() + seq![a.last()] =~= a);
    }
}

fn push_c_quoted(output: &mut Vec<char>, text: &str)
    ensures
        final(output)@ == old(output)@ + c_quoted(text@),
{
    let s = chars_of(text);
    let ghost start = output@;
    output.push('"');
    let mut i: usize = 0;
    assert(s@.take(0) =~= Seq::<char>::empty());
    while i < s.len()
        invariant
            i <= s@.len(),
            s@ == text@,
            output@ == start + seq!['"'] + c_quoted_body(s@.take(i as int)),
        decreases s.len() - i,
    {
        assert(s@.take(i + 1).drop_last() =~= s@.take(i as int));
        let c = s[i];
        if c == '\\' || c == '"' {
            output.push('\\');
        }
        output.push(c);
        assert(output@ =~= start + seq!['"'] + c_quoted_body(s@.take(i + 1)));
        i = i + 1;
    }
    assert(s@.take(s@.len() as int) =~= s@);
    output.push('"');
    assert(output@ =~= start + c_quoted(text@));
}

/// Tokens as text: a space where a token had whitespace before it or could
/// otherwise join the one before.
pub open spec fn token_sequence_text(tokens: Seq<PpToken>) -> Seq<char>
    decreases tokens.len(),
{
    if tokens.len() == 0 {
        seq![]
    } else {
        let rest = token_sequence_text(tokens.drop_last());
        let t = tokens.last();
        let separated = rest.len() > 0 && (t.leading_space || (tokens.len() > 1 && separator_needed(
            tokens[tokens.len() - 2].kind,
            tokens[tokens.len() - 2].spelling@,
            t.kind,
            t.spelling@,
        )));
        rest + (if separated {
            seq![' ']
        } else {
            seq![]
        }) + t.spelling@
    }
}

fn render_token_sequence(tokens: &[PpToken]) -> (result: Vec<char>)
    ensures
        result@ == token_sequence_text(tokens@),
{
    let mut output: Vec<char> = Vec::new();
    let mut i: usize = 0;
    assert(tokens@.take(0) =~= Seq::<PpToken>::empty());
    while i < tokens.len()
        invariant
            i <= tokens@.len(),
            output@ == token_sequence_text(tokens@.take(i as int)),
        decreases tokens.len() - i,
    {
        let ghost prefix = tokens@.take(i + 1);
        assert(prefix.drop_last() =~= tokens@.take(i as int));
        assert(prefix.last() == tokens@[i as int]);
        let t = &tokens[i];
        let separated = output.len() > 0 && (t.leading_space || (i > 0 && tokens_require_separator(
            &tokens[i - 1],
            t,
        )));
        if i > 0 {
            assert(prefix[prefix.len() - 2] == tokens@[i - 1]);
        }
        if separated {
            output.push(' ');
        }
        push_str(&mut output, t.spelling.as_str());
        assert(output@ =~= token_sequence_text(prefix));
        i = i + 1;
    }
    assert(tokens@.take(tokens@.len() as int) =~= tokens@);
    output
}

pub open spec fn action_name(action: DiagnosticPragmaAction) -> Seq<char> {
    match action {
        DiagnosticPragmaAction::Push => "push"@,
        DiagnosticPragmaAction::Pop => "pop"@,
        DiagnosticPragmaAction::Ignored => "ignored"@,
        DiagnosticPragmaAction::Warning => "warning"@,
        DiagnosticPragmaAction::Error => "error"@,
    }
}

/// A keyword and its payload tokens, a space between when there are any.
pub open spec fn with_payload(keyword: Seq<char>, payload: Seq<PpToken>) -> Seq<char> {
    if payload.len() == 0 {
        keyword
    } else {
        keyword + seq![' '] + token_sequence_text(payload)
    }
}

/// What follows `#pragma` for a recognized pragma.
pub open spec fn pragma_text(pragma: PragmaEvent) -> Seq<char> {
    match pragma {
        PragmaEvent::Once { .. } => "once"@,
        PragmaEvent::SystemHeader { .. } => "GCC system_header"@,
        PragmaEvent::Diagnostic { action, option, .. } => match option {
            None => "GCC diagnostic "@ + action_name(action),
            Some(o) => "GCC diagnostic "@ + action_name(action) + seq![' '] + c_quoted(o@),
        },
        PragmaEvent::GccOptimize { payload, .. } => with_payload("GCC optimize"@, payload@),
        PragmaEvent::Pack { payload, .. } => with_payload("pack"@, payload@),
        PragmaEvent::Unknown { text, .. } => text@,
    }
}

fn push_with_payload(output: &mut Vec<char>, keyword: &str, payload: &Vec<PpToken>)
    ensures
        final(output)@ == old(output)@ + with_payload(keyword@, payload@),
{
    push_str(output, keyword);
    if payload.len() > 0 {
        output.push(' ');
        let rendered = render_token_sequence(payload.as_slice());
        push_chars(output, &rendered);
    }
}

fn push_pragma(output: &mut Vec<char>, pragma: &PragmaEvent)
    ensures
        final(output)@ == old(output)@ + pragma_text(*pragma),
{
    match pragma {
        PragmaEvent::Once { .. } => push_str(output, "once"),
        PragmaEvent::SystemHeader { .. } => push_str(output, "GCC system_header"),
        PragmaEvent::Diagnostic { action, option, .. } => {
            push_str(output, "GCC diagnostic ");
            let name = match action {
                DiagnosticPragmaAction::Push => "push",
                DiagnosticPragmaAction::Pop => "pop",
                DiagnosticPragmaAction::Ignored => "ignored",
                DiagnosticPragmaAction::Warning => "warning",
                DiagnosticPragmaAction::Error => "error",
            };
            push_str(output, name);
            match option {
                Some(o) => {
                    output.push(' ');
                    push_c_quoted(output, o.as_str());
                },
                None => {},
            }
        },
        PragmaEvent::GccOptimize { payload, .. } => push_with_payload(output, "GCC optimize", payload),
        PragmaEvent::Pack { payload, .. } => push_with_payload(output, "pack", payload),
        PragmaEvent::Unknown { text, .. } => push_str(output, text.as_str()),
    }
}

pub open spec fn flags_text(flags: Seq<u8>) -> Seq<char>
    decreases flags.len(),
{
    if flags.len() == 0 {
        seq![]
    } else {
        flags_text(flags.drop_last()) + seq![' '] + decimal(flags.last() as nat)
    }
}

/// A `# line "file" flags` line.
pub open spec fn marker_text(marker: LineMarker) -> Seq<char> {
    "# "@ + decimal(marker.line as nat) + seq![' '] + c_quoted(marker.file@) + flags_text(
        marker.flags@,
    ) + seq!['\n']
}

fn push_marker(output: &mut Vec<char>, marker: &LineMarker)
    ensures
        final(output)@ == old(output)@ + marker_text(*marker),
{
    let ghost start = output@;
    push_str(output, "# ");
    push_decimal(output, marker.line as u64);
    output.push(' ');
    push_c_quoted(output, marker.file.as_str());
    let ghost head = output@;
    let mut i: usize = 0;
    assert(marker.flags@.take(0) =~= Seq::<u8>::empty());
    assert(head + flags_text(marker.flags@.take(0)) =~= head);
    while i < marker.flags.len()
        invariant
            i <= marker.flags@.len(),
            output@ == head + flags_text(marker.flags@.take(i as int)),
        decreases marker.flags.len() - i,
    {
        assert(marker.flags@.take(i + 1).drop_last() =~= marker.flags@.take(i as int));
        output.push(' ');
        push_decimal(output, marker.flags[i] as u64);
        assert(output@ =~= head + flags_text(marker.flags@.take(i + 1)));
        i = i + 1;
    }
    assert(marker.flags@.take(marker.flags@.len() as int) =~= marker.flags@);
    output.push('\n');
    assert(output@ =~= start + marker_text(*marker));
}

/// The rendered text so far, the token before (its class and spelling) on
/// the current line, and whether the next token starts a line.
pub type RenderState = (Seq<char>, Option<(PpTokenKind, Seq<char>)>, bool);

/// One item rendered: a token after a space where it had whitespace before
/// it or could join the token before; a newline with a final backslash
/// guarded; a line marker, unless suppressed, and a pragma other than
/// `once` and `GCC system_header` on lines of their own.
pub open spec fn render_item(item: PpItem, state: RenderState, suppress_line_markers: bool) -> RenderState {
    let (text, previous, at_start) = state;
    match item {
        PpItem::Token(t) => {
            let separated = !at_start && (t.leading_space || match previous {
                Some(p) => separator_needed(p.0, p.1, t.kind, t.spelling@),
                None => false,
            });
            (
                text + (if separated {
                    seq![' ']
                } else {
                    seq![]
                }) + t.spelling@,
                Some((t.kind, t.spelling@)),
                false,
            )
        },
        PpItem::Newline => (end_line(text), None, true),
        PpItem::LineMarker(marker) => if suppress_line_markers {
            state
        } else {
            (open_line(text) + marker_text(marker), None, true)
        },
        PpItem::Pragma(pragma) => match pragma {
            PragmaEvent::Once { .. } => state,
            PragmaEvent::SystemHeader { .. } => state,
            _ => (end_line(open_line(text) + "#pragma "@ + pragma_text(pragma)), None, true),
        },
    }
}

pub open spec fn render_items(items: Seq<PpItem>, suppress_line_markers: bool) -> RenderState
    decreases items.len(),
{
    if items.len() == 0 {
        (seq![], None, true)
    } else {
        render_item(items.last(), render_items(items.drop_last(), suppress_line_markers), suppress_line_markers)
    }
}

fn guard_splice(output: &mut Vec<char>)
    ensures
        final(output)@ == splice_guard(old(output)@),
{
    if output.len() > 0 && output[output.len() - 1] == '\\' {
        output.push(' ');
    }
}

fn finish_open_line(output: &mut Vec<char>)
    ensures
        final(output)@ == open_line(old(output)@),
{
    if output.len() > 0 && output[output.len() - 1] != '\n' {
        guard_splice(output);
        output.push('\n');
    }
}

pub open spec fn previous_view(items: Seq<PpItem>, previous: Option<usize>) -> Option<(PpTokenKind, Seq<char>)> {
    match previous {
        Some(k) => match items[k as int] {
            PpItem::Token(t) => Some((t.kind, t.spelling@)),
            _ => None,
        },
        None => None,
    }
}

/// Renders preprocessed output as C text.
pub fn render_preprocessed(output: &PreprocessOutput, suppress_line_markers: bool) -> (result: String)
    ensures
        result@ == render_items(output.items@, suppress_line_markers).0,
{
    let items = &output.items;
    let mut rendered: Vec<char> = Vec::new();
    let mut previous: Option<usize> = None;
    let mut at_start = true;
    let mut i: usize = 0;
    assert(items@.take(0) =~= Seq::<PpItem>::empty());
    while i < items.len()
        invariant
            i <= items@.len(),
            match previous {
                Some(k) => k < i && items@[k as int] is Token,
                None => true,
            },
            render_items(items@.take(i as int), suppress_line_markers) == (
                rendered@,
                previous_view(items@, previous),
                at_start,
            ),
        decreases items.len() - i,
    {
        let ghost prefix = items@.take(i + 1);
        assert(prefix.drop_last() =~= items@.take(i as int));
        assert(prefix.last() == items@[i as int]);
        match &items[i] {
            PpItem::Token(t) => {
                let separated = !at_start && (t.leading_space || match previous {
                    Some(k) => match &items[k] {
                        PpItem::Token(p) => tokens_require_separator(p, t),
                        _ => false,
                    },
                    None => false,
                });
                if separated {
                    rendered.push(' ');
                }
                push_str(&mut rendered, t.spelling.as_str());
                previous = Some(i);
                at_start = false;
            },
            PpItem::Newline => {
                guard_splice(&mut rendered);
                rendered.push('\n');
                previous = None;
                at_start = true;
            },
            PpItem::LineMarker(marker) => {
                if !suppress_line_markers {
                    finish_open_line(&mut rendered);
                    push_marker(&mut rendered, marker);
                    previous = None;
                    at_start = true;
                }
            },
            PpItem::Pragma(pragma) => match pragma {
                PragmaEvent::Once { .. } => {},
                PragmaEvent::SystemHeader { .. } => {},
                _ => {
                    finish_open_line(&mut rendered);
                    push_str(&mut rendered, "#pragma ");
                    push_pragma(&mut rendered, pragma);
                    guard_splice(&mut rendered);
                    rendered.push('\n');
                    previous = None;
                    at_start = true;
                },
            },
        }
        assert(rendered@ =~= render_items(prefix, suppress_line_markers).0);
        i = i + 1;
    }
    assert(items@.take(items@.len() as int) =~= items@);
    string_from_chars(rendered.as_slice())
}

/// Names joined by `, `.
pub open spec fn joined_with_commas(items: Seq<Seq<char>>) -> Seq<char>
    decreases items.len(),
{
    if items.len() == 0 {
        seq![]
    } else if items.len() == 1 {
        items[0]
    } else {
        joined_with_commas(items.drop_last()) + ", "@ + items.last()
    }
}

/// Joining with `, `: one name is itself, and two nonempty lists join as
/// the first's text, `, ` and the second's text, wherever the lists are
/// split.
pub proof fn lemma_joined_with_commas_splits(a: Seq<Seq<char>>, b: Seq<Seq<char>>)
    ensures
        a.len() == 1 ==> joined_with_commas(a) == a[0],
        a.len() > 0 && b.len() > 0 ==> joined_with_commas(a + b) == joined_with_commas(a) + ", "@
            + joined_with_commas(b),
    decreases b.len(),
{
    if a.len() > 0 && b.len() > 0 {
        if b.len() == 1 {
            assert((a + b).drop_last() =~= a);
        } else {
            lemma_joined_with_commas_splits(a, b.drop_last());
            assert((a + b).drop_last() =~= a + b.drop_last());
            assert((a + b).last() == b.last());
        }
    }
}

pub open spec fn string_views(items: Seq<String>) -> Seq<Seq<char>> {
    items.map_values(|item: String| item@)
}

/// A parameter list: the names joined by `, `, and `...` for a variadic
/// macro, in parentheses.
pub open spec fn parameter_list(parameters: Seq<Seq<char>>, variadic: bool) -> Seq<char> {
    seq!['('] + joined_with_commas(parameters) + (if variadic {
        (if parameters.len() > 0 {
            ", "@
        } else {
            seq![]
        }) + "..."@
    } else {
        seq![]
    }) + seq![')']
}

/// A `#define` line without its newline: the name, the parameter list of a
/// function-like macro, and the replacement.
pub open spec fn definition_text(entry: MacroSnapshotEntry) -> Seq<char> {
    let head = "#define "@ + entry.name@ + match entry.parameters {
        None => seq![],
        Some(parameters) => parameter_list(string_views(parameters@), entry.variadic),
    };
    if entry.replacement@.len() > 0 {
        head + seq![' '] + token_sequence_text(entry.replacement@)
    } else {
        head
    }
}

pub open spec fn macro_dump(definitions: Seq<MacroSnapshotEntry>) -> Seq<char>
    decreases definitions.len(),
{
    if definitions.len() == 0 {
        seq![]
    } else {
        macro_dump(definitions.drop_last()) + end_line(definition_text(definitions.last()))
    }
}

/// A macro dump is one line per definition, in order: the dump of two
/// lists is the dump of the first then of the second; each line starts
/// with `#define ` and the macro's name, a function-like macro's name is
/// followed directly by `(`, and a variadic macro's list ends in `...)`.
pub proof fn lemma_macro_dump_lines(a: Seq<MacroSnapshotEntry>, b: Seq<MacroSnapshotEntry>, e: MacroSnapshotEntry)
    ensures
        macro_dump(a + b) == macro_dump(a) + macro_dump(b),
        macro_dump(seq![e]) == end_line(definition_text(e)),
        definition_text(e).take(8 + e.name@.len() as int) == "#define "@ + e.name@,
        e.parameters is Some ==> definition_text(e)[8 + e.name@.len() as int] == '(',
        ({
            let list = parameter_list(string_views(e.parameters->0@), true);
            e.parameters is Some ==> list.skip(list.len() - 4) == "...)"@
        }),
    decreases b.len(),
{
    if b.len() > 0 {
        lemma_macro_dump_lines(a, b.drop_last(), e);
        assert((a + b).drop_last() =~= a + b.drop_last());
        assert((a + b).last() == b.last());
    } else {
        assert(a + b =~= a);
        assert(macro_dump(b) == Seq::<char>::empty());
    }
    assert(seq![e].drop_last() =~= Seq::<MacroSnapshotEntry>::empty());
    assert(macro_dump(Seq::<MacroSnapshotEntry>::empty()) == Seq::<char>::empty());
    assert(Seq::<char>::empty() + end_line(definition_text(e)) =~= end_line(definition_text(e)));
    reveal_strlit("#define ");
    reveal_strlit("...");
    reveal_strlit("...)");
    let head = "#define "@ + e.name@ + match e.parameters {
        None => seq![],
        Some(parameters) => parameter_list(string_views(parameters@), e.variadic),
    };
    assert(definition_text(e).take(8 + e.name@.len() as int) =~= "#define "@ + e.name@) by {
        assert(head.take(8 + e.name@.len() as int) =~= "#define "@ + e.name@);
        if e.replacement@.len() > 0 {
            assert((head + seq![' '] + token_sequence_text(e.replacement@)).take(8 + e.name@.len() as int)
                =~= head.take(8 + e.name@.len() as int));
        }
    }
    if e.parameters is Some {
        let list = parameter_list(string_views(e.parameters->0@), e.variadic);
        assert(list[0] == '(');
        assert(head[8 + e.name@.len() as int] == '(');
        if e.replacement@.len() > 0 {
            assert((head + seq![' '] + token_sequence_text(e.replacement@))[8 + e.name@.len() as int] == head[8
                + e.name@.len() as int]);
        }
        let full = parameter_list(string_views(e.parameters->0@), true);
        assert(full.skip(full.len() - 4) =~= "...)"@);
    }
}

fn push_chars(output: &mut Vec<char>, chars: &Vec<char>)
    ensures
        final(output)@ == old(output)@ + chars@,
{
    let ghost before = output@;
    let mut i: usize = 0;
    while i < chars.len()
        invariant
            i <= chars@.len(),
            output@ == before + chars@.take(i as int),
        decreases chars.len() - i,
    {
        output.push(chars[i]);
        i = i + 1;
        assert(output@ =~= before + chars@.take(i as int));
    }
    assert(chars@.take(chars@.len() as int) =~= chars@);
}

fn push_parameter_list(output: &mut Vec<char>, parameters: &Vec<String>, variadic: bool)
    ensures
        final(output)@ == old(output)@ + parameter_list(string_views(parameters@), variadic),
{
    let ghost start = output@;
    output.push('(');
    let ghost names = string_views(parameters@);
    let ghost open = output@;
    let mut i: usize = 0;
    assert(names.take(0) =~= Seq::<Seq<char>>::empty());
    assert(open + joined_with_commas(names.take(0)) =~= open);
    while i < parameters.len()
        invariant
            i <= parameters@.len(),
            names == string_views(parameters@),
            output@ == open + joined_with_commas(names.take(i as int)),
        decreases parameters.len() - i,
    {
        assert(names.take(i + 1).drop_last() =~= names.take(i as int));
        if i > 0 {
            push_str(output, ", ");
        }
        push_str(output, parameters[i].as_str());
        assert(output@ =~= open + joined_with_commas(names.take(i + 1)));
        i = i + 1;
    }
    assert(names.take(parameters@.len() as int) =~= names);
    if variadic {
        if parameters.len() > 0 {
            push_str(output, ", ");
        }
        push_str(output, "...");
    }
    output.push(')');
    assert(output@ =~= start + parameter_list(names, variadic));
}

fn push_definition(output: &mut Vec<char>, entry: &MacroSnapshotEntry)
    ensures
        final(output)@ == old(output)@ + definition_text(*entry),
{
    let ghost start = output@;
    push_str(output, "#define ");
    push_str(output, entry.name.as_str());
    match &entry.parameters {
        Some(parameters) => push_parameter_list(output, parameters, entry.variadic),
        None => {},
    }
    if entry.replacement.len() > 0 {
        output.push(' ');
        let rendered = render_token_sequence(entry.replacement.as_slice());
        push_chars(output, &rendered);
    }
    assert(output@ =~= start + definition_text(*entry));
}

/// The macros defined at the end of preprocessing as `#define` lines, in
/// order, a final backslash on a line guarded against splicing.
pub fn render_macro_definitions(macros: &MacroSnapshot) -> (result: String)
    ensures
        result@ == macro_dump(macros.definitions@),
{
    let definitions = &macros.definitions;
    let mut output: Vec<char> = Vec::new();
    let mut i: usize = 0;
    assert(definitions@.take(0) =~= Seq::<MacroSnapshotEntry>::empty());
    while i < definitions.len()
        invariant
            i <= definitions@.len(),
            output@ == macro_dump(definitions@.take(i as int)),
        decreases definitions.len() - i,
    {
        let ghost prefix = definitions@.take(i + 1);
        assert(prefix.drop_last() =~= definitions@.take(i as int));
        assert(prefix.last() == definitions@[i as int]);
        let ghost before = output@;
        let mut line: Vec<char> = Vec::new();
        push_definition(&mut line, &definitions[i]);
        guard_splice(&mut line);
        line.push('\n');
        let mut k: usize = 0;
        while k < line.len()
            invariant
                k <= line@.len(),
                output@ == before + line@.take(k as int),
            decreases line.len() - k,
        {
            output.push(line[k]);
            k = k + 1;
            assert(output@ =~= before + line@.take(k as int));
        }
        assert(line@.take(line@.len() as int) =~= line@);
        assert(line@ =~= end_line(definition_text(definitions@[i as int])));
        i = i + 1;
    }
    assert(definitions@.take(definitions@.len() as int) =~= definitions@);
    string_from_chars(output.as_slice())
}

} // verus!
