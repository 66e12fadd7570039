//! The linker arguments that decide what a link reads: pass-through
//! expansion, forced undefined symbols, library search directories and the
//! options whose operands are not inputs.

use vstd::prelude::*;

use crate::link::symbols::SymbolSet;
use crate::text::{
    chars_of, has_prefix, lines_of, push_str, str_eq, string_from_chars, strip_prefix, text_lines,
    trim_chars, trim_ws,
};

verus! {

pub open spec fn texts(items: Seq<String>) -> Seq<Seq<char>> {
    items.map_values(|item: String| item@)
}

proof fn lemma_texts_push(items: Seq<String>, item: String)
    ensures
        texts(items.push(item)) == texts(items).push(item@),
{
    assert(texts(items.push(item)) =~= texts(items).push(item@));
}

/// Whether `s` is one of `options`.
pub open spec fn one_of(s: Seq<char>, options: Seq<Seq<char>>) -> bool {
    options.contains(s)
}

fn is_one_of(s: &str, options: &[&str]) -> (result: bool)
    ensures
        result == one_of(s@, options@.map_values(|o: &str| o@)),
{
    let ghost views = options@.map_values(|o: &str| o@);
    let mut i: usize = 0;
    while i < options.len()
        invariant
            i <= options@.len(),
            views == options@.map_values(|o: &str| o@),
            forall|j: int| 0 <= j < i ==> views[j] != s@,
        decreases options.len() - i,
    {
        if str_eq(s, options[i]) {
            assert(views[i as int] == s@);
            return true;
        }
        i = i + 1;
    }
    false
}

/* Pass-through arguments */

/// A linker option passed through the compiler driver, renamed where the
/// driver gives the same spelling another meaning.
pub open spec fn passthrough_spec(argument: Seq<char>) -> Seq<char> {
    if argument == "-static"@ {
        "--ccc-linker-static"@
    } else if argument == "-Bstatic"@ {
        "--ccc-linker-Bstatic"@
    } else if argument == "-Bdynamic"@ {
        "--ccc-linker-Bdynamic"@
    } else {
        argument
    }
}

pub fn normalize_linker_passthrough(argument: &str) -> (result: String)
    ensures
        result@ == passthrough_spec(argument@),
{
    if str_eq(argument, "-static") {
        "--ccc-linker-static".to_owned()
    } else if str_eq(argument, "-Bstatic") {
        "--ccc-linker-Bstatic".to_owned()
    } else if str_eq(argument, "-Bdynamic") {
        "--ccc-linker-Bdynamic".to_owned()
    } else {
        argument.to_owned()
    }
}

/// The fields of `t` between occurrences of `separator`.
pub open spec fn split_fields(t: Seq<char>, separator: char) -> Seq<Seq<char>>
    decreases t.len(),
{
    if t.len() == 0 {
        seq![Seq::empty()]
    } else {
        let rest = split_fields(t.drop_first(), separator);
        if t[0] == separator {
            seq![Seq::empty()] + rest
        } else {
            rest.update(0, seq![t[0]] + rest[0])
        }
    }
}

proof fn lemma_split_fields_nonempty(t: Seq<char>, separator: char)
    ensures
        split_fields(t, separator).len() >= 1,
    decreases t.len(),
{
    if t.len() > 0 {
        lemma_split_fields_nonempty(t.drop_first(), separator);
    }
}

/// `done` (the fields so far, the last still open) followed by the fields
/// of the rest `t`.
pub open spec fn continue_fields(done: Seq<Seq<char>>, t: Seq<char>, separator: char) -> Seq<
    Seq<char>,
> {
    let rest = split_fields(t, separator);
    done.drop_last() + seq![done.last() + rest[0]] + rest.drop_first()
}

/// Splits `text` at every comma, as std's `str::split` does.
fn split_commas(text: &str) -> (result: Vec<String>)
    ensures
        texts(result@) == split_fields(text@, ','),
{
    let s = chars_of(text);
    let mut fields: Vec<String> = Vec::new();
    let mut current: Vec<char> = Vec::new();
    let mut i: usize = 0;
    proof {
        lemma_split_fields_nonempty(s@, ',');
        assert(s@.skip(0) =~= s@);
        let rest = split_fields(s@, ',');
        assert(seq![Seq::<char>::empty()].drop_last() + seq![Seq::<char>::empty() + rest[0]]
            + rest.drop_first() =~= rest);
    }
    while i < s.len()
        invariant
            i <= s@.len(),
            s@ == text@,
            continue_fields(texts(fields@).push(current@), s@.skip(i as int), ',') == split_fields(
                s@,
                ',',
            ),
        decreases s.len() - i,
    {
        let ghost done = texts(fields@).push(current@);
        let ghost t = s@.skip(i as int);
        assert(t[0] == s@[i as int]);
        assert(t.drop_first() =~= s@.skip(i + 1));
        proof {
            lemma_split_fields_nonempty(t.drop_first(), ',');
        }
        if s[i] == ',' {
            let ghost before = fields@;
            fields.push(string_from_chars(current.as_slice()));
            current = Vec::new();
            proof {
                lemma_texts_push(before, fields@[fields@.len() - 1]);
                let rest = split_fields(t.drop_first(), ',');
                let next = texts(fields@).push(current@);
                assert(next.drop_last() + seq![next.last() + rest[0]] + rest.drop_first() =~= done.drop_last()
                    + seq![done.last() + (seq![Seq::<char>::empty()] + rest)[0]] + (seq![
                    Seq::<char>::empty(),
                ] + rest).drop_first());
            }
        } else {
            let ghost cur = current@;
            current.push(s[i]);
            proof {
                let rest = split_fields(t.drop_first(), ',');
                assert(cur.push(t[0]) + rest[0] =~= cur + (seq![t[0]] + rest[0]));
                let next = texts(fields@).push(current@);
                let updated = rest.update(0, seq![t[0]] + rest[0]);
                assert(next.drop_last() + seq![next.last() + rest[0]] + rest.drop_first() =~= done.drop_last()
                    + seq![done.last() + updated[0]] + updated.drop_first());
            }
        }
        i = i + 1;
    }
    let ghost before = fields@;
    fields.push(string_from_chars(current.as_slice()));
    proof {
        lemma_texts_push(before, fields@[fields@.len() - 1]);
        assert(s@.skip(i as int) =~= Seq::<char>::empty());
        let done = texts(before).push(current@);
        let rest = split_fields(Seq::<char>::empty(), ',');
        assert(done.drop_last() + seq![done.last() + rest[0]] + rest.drop_first() =~= texts(
            fields@,
        ));
    }
    fields
}

/// The linker's view of the driver's arguments: `-Xlinker` operands and the
/// comma-separated parts of `-Wl,` and `-Wl=` become arguments of their own.
pub open spec fn expanded_arguments(inputs: Seq<Seq<char>>, i: int) -> Seq<Seq<char>>
    decreases inputs.len() - i,
{
    if i < 0 || i >= inputs.len() {
        Seq::empty()
    } else {
        let argument = inputs[i];
        if argument == "-Xlinker"@ {
            if i + 1 < inputs.len() {
                seq![passthrough_spec(inputs[i + 1])] + expanded_arguments(inputs, i + 2)
            } else {
                seq![argument] + expanded_arguments(inputs, i + 1)
            }
        } else if has_prefix(argument, "-Wl,"@) || has_prefix(argument, "-Wl="@) {
            split_fields(argument.skip(4), ',').map_values(|part: Seq<char>| passthrough_spec(part))
                + expanded_arguments(inputs, i + 1)
        } else {
            seq![argument] + expanded_arguments(inputs, i + 1)
        }
    }
}

proof fn lemma_prefix_length(a: Seq<char>, p: Seq<char>)
    requires
        has_prefix(a, p),
    ensures
        a.len() >= p.len(),
{
}

pub fn expanded_linker_scan_arguments(inputs: &Vec<String>) -> (result: Vec<String>)
    ensures
        texts(result@) == expanded_arguments(texts(inputs@), 0),
{
    let ghost all = texts(inputs@);
    let mut expanded: Vec<String> = Vec::new();
    let mut index: usize = 0;
    while index < inputs.len()
        invariant
            index <= inputs@.len(),
            all == texts(inputs@),
            texts(expanded@) + expanded_arguments(all, index as int) == expanded_arguments(all, 0),
        decreases inputs.len() - index,
    {
        let ghost before = texts(expanded@);
        let argument = inputs[index].as_str();
        assert(all[index as int] == argument@);
        if str_eq(argument, "-Xlinker") {
            if index + 1 < inputs.len() {
                assert(all[index + 1] == inputs@[index + 1]@);
                let ghost old_expanded = expanded@;
                expanded.push(normalize_linker_passthrough(inputs[index + 1].as_str()));
                proof {
                    lemma_texts_push(old_expanded, expanded@[expanded@.len() - 1]);
                    assert(texts(expanded@) + expanded_arguments(all, index + 2) =~= before + (seq![
                        passthrough_spec(all[index + 1]),
                    ] + expanded_arguments(all, index + 2)));
                }
                index = index + 2;
            } else {
                let ghost old_expanded = expanded@;
                expanded.push(inputs[index].clone());
                proof {
                    lemma_texts_push(old_expanded, expanded@[expanded@.len() - 1]);
                    assert(texts(expanded@) + expanded_arguments(all, index + 1) =~= before + (seq![
                        all[index as int],
                    ] + expanded_arguments(all, index + 1)));
                }
                index = index + 1;
            }
        } else {
            let parts = match strip_prefix(argument, "-Wl,") {
                Some(rest) => Some(rest),
                None => strip_prefix(argument, "-Wl="),
            };
            match parts {
                Some(rest) => {
                    proof {
                        reveal_strlit("-Wl,");
                        reveal_strlit("-Wl=");
                    }
                    let fields = split_commas(rest.as_str());
                    let ghost mapped = split_fields(argument@.skip(4), ',').map_values(
                        |part: Seq<char>| passthrough_spec(part),
                    );
                    let mut k: usize = 0;
                    while k < fields.len()
                        invariant
                            k <= fields@.len(),
                            texts(fields@) == split_fields(argument@.skip(4), ','),
                            mapped == split_fields(argument@.skip(4), ',').map_values(
                                |part: Seq<char>| passthrough_spec(part),
                            ),
                            texts(expanded@) == before + mapped.take(k as int),
                        decreases fields.len() - k,
                    {
                        let ghost old_expanded = expanded@;
                        assert(texts(fields@)[k as int] == fields@[k as int]@);
                        expanded.push(normalize_linker_passthrough(fields[k].as_str()));
                        proof {
                            lemma_texts_push(old_expanded, expanded@[expanded@.len() - 1]);
                            assert(mapped.take(k + 1) =~= mapped.take(k as int).push(
                                mapped[k as int],
                            ));
                            assert(before + mapped.take(k + 1) =~= (before + mapped.take(
                                k as int,
                            )).push(mapped[k as int]));
                        }
                        k = k + 1;
                    }
                    assert(mapped.take(k as int) =~= mapped);
                    assert(texts(expanded@) + expanded_arguments(all, index + 1) =~= before + (
                    mapped + expanded_arguments(all, index + 1)));
                    index = index + 1;
                },
                None => {
                    let ghost old_expanded = expanded@;
                    expanded.push(inputs[index].clone());
                    proof {
                        lemma_texts_push(old_expanded, expanded@[expanded@.len() - 1]);
                        assert(texts(expanded@) + expanded_arguments(all, index + 1) =~= before + (
                        seq![all[index as int]] + expanded_arguments(all, index + 1)));
                    }
                    index = index + 1;
                },
            }
        }
    }
    assert(texts(expanded@) + Seq::<Seq<char>>::empty() =~= texts(expanded@));
    expanded
}

/// Whether a compiler driver links statically: `-static` anywhere but as an
/// `-Xlinker` operand.
pub open spec fn driver_static(arguments: Seq<Seq<char>>, i: int) -> bool
    decreases arguments.len() - i,
{
    if i < 0 || i >= arguments.len() {
        false
    } else if arguments[i] == "-Xlinker"@ {
        if i + 1 >= arguments.len() {
            false
        } else {
            driver_static(arguments, i + 2)
        }
    } else if arguments[i] == "-static"@ {
        true
    } else {
        driver_static(arguments, i + 1)
    }
}

pub fn compiler_driver_static_mode(arguments: &Vec<String>) -> (result: bool)
    ensures
        result == driver_static(texts(arguments@), 0),
{
    let ghost all = texts(arguments@);
    let mut index: usize = 0;
    while index < arguments.len()
        invariant
            all == texts(arguments@),
            driver_static(all, index as int) == driver_static(all, 0),
        decreases arguments.len() - index,
    {
        assert(all[index as int] == arguments@[index as int]@);
        if str_eq(arguments[index].as_str(), "-Xlinker") {
            if arguments.len() - index < 2 {
                assert(driver_static(all, index + 2) == false);
                return false;
            }
            index = index + 2;
            continue;
        }
        if str_eq(arguments[index].as_str(), "-static") {
            return true;
        }
        index = index + 1;
    }
    false
}

/* Options and their operands */

/// The linker options whose operand is the next argument.
pub open spec fn consuming_options() -> Seq<Seq<char>> {
    seq![
        "-u"@,
        "--undefined"@,
        "-require-defined"@,
        "--require-defined"@,
        "-rpath"@,
        "--rpath"@,
        "-rpath-link"@,
        "--rpath-link"@,
        "-soname"@,
        "--soname"@,
        "-h"@,
        "-Map"@,
        "--Map"@,
        "--version-script"@,
        "--dynamic-list"@,
        "--retain-symbols-file"@,
        "-z"@,
        "-m"@,
        "-e"@,
        "--entry"@,
        "--dynamic-linker"@,
        "-plugin"@,
        "-plugin-opt"@,
        "-framework"@,
        "-install_name"@,
        "-compatibility_version"@,
        "-current_version"@,
        "-undefined"@,
        "-arch"@,
    ]
}

pub fn linker_option_consumes_next(argument: &str) -> (result: bool)
    ensures
        result == one_of(argument@, consuming_options()),
{
    let options: [&str; 29] = [
        "-u",
        "--undefined",
        "-require-defined",
        "--require-defined",
        "-rpath",
        "--rpath",
        "-rpath-link",
        "--rpath-link",
        "-soname",
        "--soname",
        "-h",
        "-Map",
        "--Map",
        "--version-script",
        "--dynamic-list",
        "--retain-symbols-file",
        "-z",
        "-m",
        "-e",
        "--entry",
        "--dynamic-linker",
        "-plugin",
        "-plugin-opt",
        "-framework",
        "-install_name",
        "-compatibility_version",
        "-current_version",
        "-undefined",
        "-arch",
    ];
    assert(options@.map_values(|o: &str| o@) =~= consuming_options());
    is_one_of(argument, &options)
}

/// The options whose effect the simulation does not model, with an operand.
pub open spec fn unmodeled_with_operand() -> Seq<Seq<char>> {
    seq![
        "-T"@,
        "-dT"@,
        "--script"@,
        "--default-script"@,
        "--just-symbols"@,
        "-R"@,
        "--defsym"@,
        "--wrap"@,
    ]
}

/// How many arguments an option that the simulation cannot model spans:
/// two for one with a separate operand, one for one with an attached
/// operand or none.
pub open spec fn unmodeled_width(argument: Seq<char>) -> Option<usize> {
    if one_of(argument, unmodeled_with_operand()) {
        Some(2)
    } else if has_prefix(argument, "@"@) || argument == "--start-lib"@ || argument == "--end-lib"@
        || (has_prefix(argument, "-T"@) && argument.len() > 2) || (has_prefix(argument, "-dT"@)
        && argument.len() > 3) || has_prefix(argument, "--script="@) || has_prefix(
        argument,
        "--default-script="@,
    ) || has_prefix(argument, "--just-symbols="@) || has_prefix(argument, "--defsym="@)
        || has_prefix(argument, "--wrap="@) {
        Some(1)
    } else {
        None
    }
}

pub fn unmodeled_linker_argument_width(argument: &str) -> (result: Option<usize>)
    ensures
        result == unmodeled_width(argument@),
{
    let options: [&str; 8] = [
        "-T",
        "-dT",
        "--script",
        "--default-script",
        "--just-symbols",
        "-R",
        "--defsym",
        "--wrap",
    ];
    assert(options@.map_values(|o: &str| o@) =~= unmodeled_with_operand());
    if is_one_of(argument, &options) {
        return Some(2);
    }
    let length = chars_of(argument).len();
    if crate::text::starts_with(argument, "@") || str_eq(argument, "--start-lib") || str_eq(
        argument,
        "--end-lib",
    ) || (crate::text::starts_with(argument, "-T") && length > 2) || (crate::text::starts_with(
        argument,
        "-dT",
    ) && length > 3) || crate::text::starts_with(argument, "--script=")
        || crate::text::starts_with(argument, "--default-script=") || crate::text::starts_with(
        argument,
        "--just-symbols=",
    ) || crate::text::starts_with(argument, "--defsym=") || crate::text::starts_with(
        argument,
        "--wrap=",
    ) {
        return Some(1);
    }
    None
}

} // verus!

verus! {

/* Entry symbols and forced references */

pub open spec fn is_ascii_digit(c: char) -> bool {
    '0' <= c && c <= '9'
}

pub open spec fn is_octal_digit_char(c: char) -> bool {
    '0' <= c && c <= '7'
}

pub open spec fn is_hex_digit_char(c: char) -> bool {
    ('0' <= c && c <= '9') || ('a' <= c && c <= 'f') || ('A' <= c && c <= 'F')
}

/// Whether an `--entry` operand is an address rather than a symbol: a
/// hexadecimal, octal or decimal number after an optional sign.
pub open spec fn numeric_entry(entry: Seq<char>) -> bool {
    let unsigned = if entry.len() > 0 && (entry[0] == '+' || entry[0] == '-') {
        entry.drop_first()
    } else {
        entry
    };
    let hexadecimal = (has_prefix(unsigned, "0x"@) || has_prefix(unsigned, "0X"@)) && unsigned.len()
        > 2 && all_of_kind(unsigned, 2, 0);
    let plain = unsigned.len() > 0 && ((unsigned[0] == '0' && all_of_kind(unsigned, 0, 1)) || (
    unsigned[0] != '0' && all_of_kind(unsigned, 0, 2)));
    hexadecimal || plain
}

/// The symbol an entry operand forces, if it names one.
pub open spec fn entry_symbol(entry: Seq<char>) -> Set<Seq<char>> {
    if entry.len() > 0 && !numeric_entry(entry) {
        set![entry]
    } else {
        Set::empty()
    }
}

/// Whether `c` is a digit of the kind named by `kind`: hexadecimal (0),
/// octal (1) or decimal (any other).
pub open spec fn digit_of_kind(kind: u8, c: char) -> bool {
    if kind == 0 {
        is_hex_digit_char(c)
    } else if kind == 1 {
        is_octal_digit_char(c)
    } else {
        is_ascii_digit(c)
    }
}

/// Every character of `s` from `start` on is a digit of the kind `kind`.
pub open spec fn all_of_kind(s: Seq<char>, start: int, kind: u8) -> bool {
    forall|k: int| start <= k < s.len() ==> #[trigger] digit_of_kind(kind, s[k])
}

fn all_chars_in(s: &Vec<char>, start: usize, kind: u8) -> (result: bool)
    requires
        start <= s@.len(),
    ensures
        result == all_of_kind(s@, start as int, kind),
{
    let mut i = start;
    while i < s.len()
        invariant
            start <= i <= s@.len(),
            forall|k: int| start <= k < i ==> #[trigger] digit_of_kind(kind, s@[k]),
        decreases s.len() - i,
    {
        let c = s[i];
        let ok = if kind == 0 {
            ('0' <= c && c <= '9') || ('a' <= c && c <= 'f') || ('A' <= c && c <= 'F')
        } else if kind == 1 {
            '0' <= c && c <= '7'
        } else {
            '0' <= c && c <= '9'
        };
        if !ok {
            assert(!digit_of_kind(kind, s@[i as int]));
            return false;
        }
        i = i + 1;
    }
    true
}

fn is_numeric_entry(entry: &str) -> (result: bool)
    ensures
        result == numeric_entry(entry@),
{
    let all = chars_of(entry);
    let mut unsigned: Vec<char> = Vec::new();
    let start: usize = if all.len() > 0 && (all[0] == '+' || all[0] == '-') {
        1
    } else {
        0
    };
    let mut i = start;
    while i < all.len()
        invariant
            start <= i <= all@.len(),
            unsigned@ == all@.subrange(start as int, i as int),
        decreases all.len() - i,
    {
        unsigned.push(all[i]);
        i = i + 1;
        assert(unsigned@ =~= all@.subrange(start as int, i as int));
    }
    let ghost u = if entry@.len() > 0 && (entry@[0] == '+' || entry@[0] == '-') {
        entry@.drop_first()
    } else {
        entry@
    };
    assert(unsigned@ =~= u);
    let hex_prefix = unsigned.len() > 2 && unsigned[0] == '0' && (unsigned[1] == 'x' || unsigned[1]
        == 'X');
    proof {
        reveal_strlit("0x");
        reveal_strlit("0X");
        assert("0x"@ =~= seq!['0', 'x']);
        assert("0X"@ =~= seq!['0', 'X']);
        if unsigned@.len() >= 2 {
            assert(unsigned@.take(2) =~= seq![unsigned@[0], unsigned@[1]]);
        }
    }
    let hexadecimal = hex_prefix && all_chars_in(&unsigned, 2, 0);
    if hexadecimal {
        return true;
    }
    if unsigned.len() == 0 {
        return false;
    }
    if unsigned[0] == '0' {
        all_chars_in(&unsigned, 0, 1)
    } else {
        all_chars_in(&unsigned, 0, 2)
    }
}

/// Adds the symbol an entry operand names, unless it is an address.
pub fn insert_symbolic_entry(symbols: &mut SymbolSet, entry: &str)
    requires
        old(symbols).well_formed(),
    ensures
        final(symbols).well_formed(),
        final(symbols)@ == old(symbols)@.union(entry_symbol(entry@)),
{
    if chars_of(entry).len() > 0 && !is_numeric_entry(entry) {
        symbols.insert(entry);
        assert(old(symbols)@.insert(entry@) =~= old(symbols)@.union(set![entry@]));
    } else {
        assert(old(symbols)@.union(Set::<Seq<char>>::empty()) =~= old(symbols)@);
    }
}

/// The options that force a reference to their operand.
pub open spec fn undefined_options() -> Seq<Seq<char>> {
    seq!["-u"@, "--undefined"@, "-require-defined"@, "--require-defined"@]
}

/// The symbols that the arguments from `i` on force the link to resolve:
/// `-u` and `--require-defined` operands and symbolic entry points.
pub open spec fn forced_symbols(inputs: Seq<Seq<char>>, i: int) -> Set<Seq<char>>
    decreases inputs.len() - i,
{
    if i < 0 || i >= inputs.len() {
        Set::empty()
    } else {
        let argument = inputs[i];
        if one_of(argument, undefined_options()) && i + 1 < inputs.len() {
            set![inputs[i + 1]].union(forced_symbols(inputs, i + 2))
        } else if (argument == "-e"@ || argument == "--entry"@) && i + 1 < inputs.len() {
            entry_symbol(inputs[i + 1]).union(forced_symbols(inputs, i + 2))
        } else if one_of(argument, undefined_options()) || argument == "-e"@ || argument
            == "--entry"@ {
            forced_symbols(inputs, i + 1)
        } else if has_prefix(argument, "--undefined="@) {
            let symbol = argument.skip(12);
            (if symbol.len() > 0 {
                set![symbol]
            } else {
                Set::empty()
            }).union(forced_symbols(inputs, i + 1))
        } else if has_prefix(argument, "--require-defined="@) {
            let symbol = argument.skip(18);
            (if symbol.len() > 0 {
                set![symbol]
            } else {
                Set::empty()
            }).union(forced_symbols(inputs, i + 1))
        } else if has_prefix(argument, "-require-defined="@) {
            let symbol = argument.skip(17);
            (if symbol.len() > 0 {
                set![symbol]
            } else {
                Set::empty()
            }).union(forced_symbols(inputs, i + 1))
        } else if has_prefix(argument, "--entry="@) {
            entry_symbol(argument.skip(8)).union(forced_symbols(inputs, i + 1))
        } else if !has_prefix(argument, "--"@) && has_prefix(argument, "-u"@) && argument.len()
            > 2 {
            set![argument.skip(2)].union(forced_symbols(inputs, i + 1))
        } else if !has_prefix(argument, "--"@) && !has_prefix(argument, "-u"@) && has_prefix(
            argument,
            "-e"@,
        ) {
            entry_symbol(argument.skip(2)).union(forced_symbols(inputs, i + 1))
        } else {
            forced_symbols(inputs, i + 1)
        }
    }
}

/// Inserts `symbol` unless it is empty.
fn insert_nonempty(symbols: &mut SymbolSet, symbol: &str)
    requires
        old(symbols).well_formed(),
    ensures
        final(symbols).well_formed(),
        final(symbols)@ == old(symbols)@.union(
            if symbol@.len() > 0 {
                set![symbol@]
            } else {
                Set::empty()
            },
        ),
{
    if chars_of(symbol).len() > 0 {
        symbols.insert(symbol);
        assert(old(symbols)@.insert(symbol@) =~= old(symbols)@.union(set![symbol@]));
    } else {
        assert(old(symbols)@.union(Set::<Seq<char>>::empty()) =~= old(symbols)@);
    }
}

/// The symbols that the link arguments force the link to resolve.
pub fn forced_undefined_symbols(inputs: &Vec<String>) -> (result: SymbolSet)
    ensures
        result.well_formed(),
        result@ == forced_symbols(texts(inputs@), 0),
{
    let ghost all = texts(inputs@);
    let mut symbols = SymbolSet::new();
    let mut index: usize = 0;
    let undefined: [&str; 4] = ["-u", "--undefined", "-require-defined", "--require-defined"];
    assert(undefined@.map_values(|o: &str| o@) =~= undefined_options());
    while index < inputs.len()
        invariant
            all == texts(inputs@),
            undefined@.map_values(|o: &str| o@) == undefined_options(),
            symbols.well_formed(),
            symbols@.union(forced_symbols(all, index as int)) == forced_symbols(all, 0),
        decreases inputs.len() - index,
    {
        let ghost before = symbols@;
        let argument = inputs[index].as_str();
        assert(all[index as int] == argument@);
        proof {
            reveal_strlit("--undefined=");
            reveal_strlit("--require-defined=");
            reveal_strlit("-require-defined=");
            reveal_strlit("--entry=");
            reveal_strlit("-u");
            reveal_strlit("-e");
            reveal_strlit("--");
        }
        let consumes_symbol = is_one_of(argument, &undefined);
        let is_entry = str_eq(argument, "-e") || str_eq(argument, "--entry");
        if (consumes_symbol || is_entry) && index + 1 < inputs.len() {
            let operand = inputs[index + 1].as_str();
            assert(all[index + 1] == operand@);
            if consumes_symbol {
                symbols.insert(operand);
                assert(before.insert(operand@) =~= before.union(set![operand@]));
            } else {
                insert_symbolic_entry(&mut symbols, operand);
            }
            proof {
                assert(symbols@.union(forced_symbols(all, index + 2)) =~= before.union(
                    forced_symbols(all, index as int),
                ));
            }
            index = index + 2;
            continue;
        }
        if !(consumes_symbol || is_entry) {
            if let Some(symbol) = strip_prefix(argument, "--undefined=") {
                insert_nonempty(&mut symbols, symbol.as_str());
                proof {
                    assert(symbols@.union(forced_symbols(all, index + 1)) =~= before.union(
                        forced_symbols(all, index as int),
                    ));
                }
            } else if let Some(symbol) = strip_prefix(argument, "--require-defined=") {
                insert_nonempty(&mut symbols, symbol.as_str());
                proof {
                    assert(symbols@.union(forced_symbols(all, index + 1)) =~= before.union(
                        forced_symbols(all, index as int),
                    ));
                }
            } else if let Some(symbol) = strip_prefix(argument, "-require-defined=") {
                insert_nonempty(&mut symbols, symbol.as_str());
                proof {
                    assert(symbols@.union(forced_symbols(all, index + 1)) =~= before.union(
                        forced_symbols(all, index as int),
                    ));
                }
            } else if let Some(symbol) = strip_prefix(argument, "--entry=") {
                insert_symbolic_entry(&mut symbols, symbol.as_str());
                proof {
                    assert(symbols@.union(forced_symbols(all, index + 1)) =~= before.union(
                        forced_symbols(all, index as int),
                    ));
                }
            } else if !crate::text::starts_with(argument, "--") {
                match strip_prefix(argument, "-u") {
                    Some(symbol) if chars_of(symbol.as_str()).len() > 0 => {
                        symbols.insert(symbol.as_str());
                        proof {
                            assert(before.insert(symbol@) =~= before.union(set![symbol@]));
                            assert(symbols@.union(forced_symbols(all, index + 1)) =~= before.union(
                                forced_symbols(all, index as int),
                            ));
                        }
                    },
                    _ => {
                        if !crate::text::starts_with(argument, "-u") {
                            if let Some(symbol) = strip_prefix(argument, "-e") {
                                insert_symbolic_entry(&mut symbols, symbol.as_str());
                                proof {
                                    assert(symbols@.union(forced_symbols(all, index + 1))
                                        =~= before.union(forced_symbols(all, index as int)));
                                }
                            } else {
                                proof {
                                    assert(symbols@.union(forced_symbols(all, index + 1))
                                        =~= before.union(forced_symbols(all, index as int)));
                                }
                            }
                        } else {
                            proof {
                                assert(argument@.len() == 2);
                                assert(symbols@.union(forced_symbols(all, index + 1))
                                    =~= before.union(forced_symbols(all, index as int)));
                            }
                        }
                    },
                }
            } else {
                proof {
                    assert(symbols@.union(forced_symbols(all, index + 1)) =~= before.union(
                        forced_symbols(all, index as int),
                    ));
                }
            }
        } else {
            proof {
                assert(symbols@.union(forced_symbols(all, index + 1)) =~= before.union(
                    forced_symbols(all, index as int),
                ));
            }
        }
        index = index + 1;
    }
    assert(symbols@.union(Set::<Seq<char>>::empty()) =~= symbols@);
    symbols
}

} // verus!

verus! {

/* Library search directories */

/// `path` names a place from the root: it starts with a slash.
pub open spec fn path_is_absolute(path: Seq<char>) -> bool {
    path.len() > 0 && path[0] == '/'
}

/// `relative` placed under `base`: an absolute `relative` stands alone;
/// otherwise a slash separates the two unless `base` is empty or already
/// ends in one.
pub open spec fn path_join(base: Seq<char>, relative: Seq<char>) -> Seq<char> {
    if path_is_absolute(relative) {
        relative
    } else if base.len() == 0 || base.last() == '/' {
        base + relative
    } else {
        base + seq!['/'] + relative
    }
}

/// Whether `path` starts with a slash.
pub fn is_absolute_path(path: &str) -> (result: bool)
    ensures
        result == path_is_absolute(path@),
{
    let chars = chars_of(path);
    chars.len() > 0 && chars[0] == '/'
}

/// `relative` placed under `base`, as text.
pub fn join_path(base: &str, relative: &str) -> (result: String)
    ensures
        result@ == path_join(base@, relative@),
{
    if is_absolute_path(relative) {
        return string_from_chars(chars_of(relative).as_slice());
    }
    let mut chars = chars_of(base);
    let n = chars.len();
    if n > 0 && chars[n - 1] != '/' {
        chars.push('/');
    }
    push_str(&mut chars, relative);
    string_from_chars(chars.as_slice())
}

/// `t` without its leading slashes.
pub open spec fn trim_leading_slashes(t: Seq<char>) -> Seq<char>
    decreases t.len(),
{
    if t.len() > 0 && t[0] == '/' {
        trim_leading_slashes(t.drop_first())
    } else {
        t
    }
}

fn trim_slashes(text: &str) -> (result: String)
    ensures
        result@ == trim_leading_slashes(text@),
{
    let s = chars_of(text);
    let mut start: usize = 0;
    assert(s@.skip(0) =~= s@);
    while start < s.len() && s[start] == '/'
        invariant
            start <= s@.len(),
            s@ == text@,
            trim_leading_slashes(s@.skip(start as int)) == trim_leading_slashes(text@),
        decreases s.len() - start,
    {
        assert(s@.skip(start as int).drop_first() =~= s@.skip(start + 1));
        start = start + 1;
    }
    let mut rest: Vec<char> = Vec::new();
    let mut i = start;
    while i < s.len()
        invariant
            start <= i <= s@.len(),
            rest@ == s@.subrange(start as int, i as int),
        decreases s.len() - i,
    {
        rest.push(s[i]);
        i = i + 1;
        assert(rest@ =~= s@.subrange(start as int, i as int));
    }
    assert(rest@ =~= s@.skip(start as int));
    string_from_chars(rest.as_slice())
}

/// A search path as the driver reports it, with a leading `$SYSROOT` or `=`
/// standing for the sysroot when there is one.
pub open spec fn sysroot_path(path: Seq<char>, sysroot: Option<Seq<char>>) -> Seq<char> {
    let suffix = if has_prefix(path, "$SYSROOT"@) {
        Some(path.skip(8))
    } else if has_prefix(path, "="@) {
        Some(path.skip(1))
    } else {
        None
    };
    match (suffix, sysroot) {
        (Some(suffix), Some(root)) => path_join(root, trim_leading_slashes(suffix)),
        _ => path,
    }
}

pub open spec fn option_str(value: Option<&str>) -> Option<Seq<char>> {
    match value {
        Some(text) => Some(text@),
        None => None,
    }
}

pub fn resolve_sysroot_path(path: &str, sysroot: Option<&str>) -> (result: String)
    ensures
        result@ == sysroot_path(path@, option_str(sysroot)),
{
    proof {
        reveal_strlit("$SYSROOT");
        reveal_strlit("=");
    }
    let suffix = match strip_prefix(path, "$SYSROOT") {
        Some(rest) => Some(rest),
        None => strip_prefix(path, "="),
    };
    match (suffix, sysroot) {
        (Some(suffix), Some(root)) => {
            let relative = trim_slashes(suffix.as_str());
            join_path(root, relative.as_str())
        },
        _ => path.to_owned(),
    }
}

/// The `-L` directories of the arguments from `i` on, in order.
pub open spec fn search_directories(
    inputs: Seq<Seq<char>>,
    i: int,
    sysroot: Option<Seq<char>>,
) -> Seq<Seq<char>>
    decreases inputs.len() - i,
{
    if i < 0 || i >= inputs.len() {
        Seq::empty()
    } else {
        let argument = inputs[i];
        if (argument == "-L"@ || argument == "--library-path"@) && i + 1 < inputs.len() {
            seq![sysroot_path(inputs[i + 1], sysroot)] + search_directories(inputs, i + 2, sysroot)
        } else if argument == "-L"@ || argument == "--library-path"@ {
            search_directories(inputs, i + 1, sysroot)
        } else if has_prefix(argument, "-L"@) && argument.len() > 2 {
            seq![sysroot_path(argument.skip(2), sysroot)] + search_directories(inputs, i + 1, sysroot)
        } else if has_prefix(argument, "--library-path="@) && argument.len() > 15 {
            seq![sysroot_path(argument.skip(15), sysroot)] + search_directories(
                inputs,
                i + 1,
                sysroot,
            )
        } else {
            search_directories(inputs, i + 1, sysroot)
        }
    }
}

/// The library search directories that `-L` options name, each resolved
/// against the sysroot.
pub fn library_search_directories(inputs: &Vec<String>, sysroot: Option<&str>) -> (result: Vec<
    String,
>)
    ensures
        texts(result@) == search_directories(texts(inputs@), 0, option_str(sysroot)),
{
    let ghost all = texts(inputs@);
    let ghost root = option_str(sysroot);
    let mut directories: Vec<String> = Vec::new();
    let mut index: usize = 0;
    while index < inputs.len()
        invariant
            all == texts(inputs@),
            root == option_str(sysroot),
            texts(directories@) + search_directories(all, index as int, root) == search_directories(
                all,
                0,
                root,
            ),
        decreases inputs.len() - index,
    {
        let ghost before = directories@;
        let argument = inputs[index].as_str();
        assert(all[index as int] == argument@);
        proof {
            reveal_strlit("-L");
            reveal_strlit("--library-path=");
        }
        if str_eq(argument, "-L") || str_eq(argument, "--library-path") {
            if index + 1 < inputs.len() {
                assert(all[index + 1] == inputs@[index + 1]@);
                directories.push(resolve_sysroot_path(inputs[index + 1].as_str(), sysroot));
                proof {
                    lemma_texts_push(before, directories@[directories@.len() - 1]);
                    assert(texts(directories@) + search_directories(all, index + 2, root) =~= texts(
                        before,
                    ) + search_directories(all, index as int, root));
                }
                index = index + 2;
                continue;
            }
        } else {
            let directory = match strip_prefix(argument, "-L") {
                Some(rest) => Some(rest),
                None => strip_prefix(argument, "--library-path="),
            };
            if let Some(directory) = directory {
                if chars_of(directory.as_str()).len() > 0 {
                    directories.push(resolve_sysroot_path(directory.as_str(), sysroot));
                    proof {
                        lemma_texts_push(before, directories@[directories@.len() - 1]);
                        assert(texts(directories@) + search_directories(all, index + 1, root)
                            =~= texts(before) + search_directories(all, index as int, root));
                    }
                }
            }
        }
        index = index + 1;
    }
    assert(texts(directories@) + Seq::<Seq<char>>::empty() =~= texts(directories@));
    directories
}

} // verus!

verus! {

/* The positional scan of a link line */

/// What the scan of a link line does at one argument.
#[derive(Debug)]
pub enum LinkStep {
    /// Moves on by this many arguments.
    Skip(usize),
    /// Opens a link group.
    StartGroup,
    /// Closes the innermost link group.
    EndGroup,
    /// An argument the simulation cannot model, spanning this many
    /// arguments: every helper must be linked.
    ForceAll(usize),
    /// A library to find on the search path, and how many arguments name it.
    Library(String, usize),
    /// A file operand.
    Input(String),
}

/// The plain view of a scan step.
pub enum StepView {
    Skip(int),
    StartGroup,
    EndGroup,
    ForceAll(int),
    Library(Seq<char>, int),
    Input(Seq<char>),
}

pub open spec fn step_view(step: LinkStep) -> StepView {
    match step {
        LinkStep::Skip(n) => StepView::Skip(n as int),
        LinkStep::StartGroup => StepView::StartGroup,
        LinkStep::EndGroup => StepView::EndGroup,
        LinkStep::ForceAll(n) => StepView::ForceAll(n as int),
        LinkStep::Library(name, n) => StepView::Library(name@, n as int),
        LinkStep::Input(path) => StepView::Input(path@),
    }
}

/// The positional linker modes: whether `-l` finds only static archives,
/// whether archives are linked whole, whether shared libraries are linked
/// only when needed, and the modes saved by `--push-state`.
pub struct LinkerModes {
    pub static_libraries: bool,
    pub whole_archive: bool,
    pub as_needed: bool,
    pub saved: Vec<(bool, bool, bool)>,
}

pub struct ModesView {
    pub static_libraries: bool,
    pub whole_archive: bool,
    pub as_needed: bool,
    pub saved: Seq<(bool, bool, bool)>,
}

impl LinkerModes {
    pub open spec fn view(&self) -> ModesView {
        ModesView {
            static_libraries: self.static_libraries,
            whole_archive: self.whole_archive,
            as_needed: self.as_needed,
            saved: self.saved@,
        }
    }

    /// The modes at the start of a link line; `static_libraries` comes from
    /// the driver's `-static`.
    pub fn new(static_libraries: bool) -> (result: Self)
        ensures
            result@ == (ModesView {
                static_libraries,
                whole_archive: false,
                as_needed: false,
                saved: Seq::empty(),
            }),
    {
        LinkerModes { static_libraries, whole_archive: false, as_needed: false, saved: Vec::new() }
    }
}

pub open spec fn start_group_options() -> Seq<Seq<char>> {
    seq!["--start-group"@, "-start-group"@, "-("@]
}

pub open spec fn end_group_options() -> Seq<Seq<char>> {
    seq!["--end-group"@, "-end-group"@, "-)"@]
}

pub open spec fn static_options() -> Seq<Seq<char>> {
    seq!["--ccc-linker-static"@, "--ccc-linker-Bstatic"@, "-dn"@, "-non_shared"@, "-aarchive"@]
}

pub open spec fn dynamic_options() -> Seq<Seq<char>> {
    seq!["--ccc-linker-Bdynamic"@, "-dy"@, "-call_shared"@, "-ashared"@, "-adefault"@]
}

pub open spec fn whole_options() -> Seq<Seq<char>> {
    seq!["--whole-archive"@, "-whole-archive"@, "-Wl,--whole-archive"@]
}

pub open spec fn no_whole_options() -> Seq<Seq<char>> {
    seq!["--no-whole-archive"@, "-no-whole-archive"@, "-Wl,--no-whole-archive"@]
}

/// What the scan does at the argument `i`, and the modes after it.
pub open spec fn link_step_spec(m: ModesView, inputs: Seq<Seq<char>>, i: int) -> (ModesView, StepView)
    recommends
        0 <= i < inputs.len(),
{
    let a = inputs[i];
    if one_of(a, start_group_options()) {
        (m, StepView::StartGroup)
    } else if a == "--push-state"@ || a == "-push-state"@ {
        (
            ModesView {
                saved: m.saved.push((m.static_libraries, m.whole_archive, m.as_needed)),
                ..m
            },
            StepView::Skip(1),
        )
    } else if a == "--pop-state"@ || a == "-pop-state"@ {
        if m.saved.len() > 0 {
            let (s, w, n) = m.saved.last();
            (
                ModesView {
                    static_libraries: s,
                    whole_archive: w,
                    as_needed: n,
                    saved: m.saved.drop_last(),
                },
                StepView::Skip(1),
            )
        } else {
            (m, StepView::Skip(1))
        }
    } else if one_of(a, end_group_options()) {
        (m, StepView::EndGroup)
    } else if a == "-L"@ || a == "--library-path"@ {
        (m, StepView::Skip(2))
    } else if has_prefix(a, "-L"@) || has_prefix(a, "--library-path="@) {
        (m, StepView::Skip(1))
    } else if one_of(a, static_options()) {
        (ModesView { static_libraries: true, ..m }, StepView::Skip(1))
    } else if one_of(a, dynamic_options()) {
        (ModesView { static_libraries: false, ..m }, StepView::Skip(1))
    } else if a == "-static"@ {
        (m, StepView::Skip(1))
    } else if a == "-a"@ {
        if i + 1 < inputs.len() {
            let mode = inputs[i + 1];
            if mode == "archive"@ {
                (ModesView { static_libraries: true, ..m }, StepView::Skip(2))
            } else if mode == "shared"@ || mode == "default"@ {
                (ModesView { static_libraries: false, ..m }, StepView::Skip(2))
            } else {
                (m, StepView::ForceAll(2))
            }
        } else {
            (m, StepView::Skip(2))
        }
    } else if one_of(a, whole_options()) {
        (ModesView { whole_archive: true, ..m }, StepView::Skip(1))
    } else if one_of(a, no_whole_options()) {
        (ModesView { whole_archive: false, ..m }, StepView::Skip(1))
    } else if a == "--as-needed"@ || a == "-as-needed"@ {
        (ModesView { as_needed: true, ..m }, StepView::Skip(1))
    } else if a == "--no-as-needed"@ || a == "-no-as-needed"@ {
        (ModesView { as_needed: false, ..m }, StepView::Skip(1))
    } else if a == "-nostartfiles"@ || a == "-nostdlib"@ {
        (m, StepView::ForceAll(1))
    } else if unmodeled_width(a) is Some {
        (m, StepView::ForceAll(unmodeled_width(a)->0 as int))
    } else if one_of(a, consuming_options()) {
        (m, StepView::Skip(2))
    } else if a == "-l"@ || a == "--library"@ {
        if i + 1 < inputs.len() {
            (m, StepView::Library(inputs[i + 1], 2))
        } else {
            (m, StepView::Skip(3))
        }
    } else if has_prefix(a, "-l"@) {
        if a.len() > 2 {
            (m, StepView::Library(a.skip(2), 1))
        } else {
            (m, StepView::Skip(2))
        }
    } else if has_prefix(a, "--library="@) {
        if a.len() > 10 {
            (m, StepView::Library(a.skip(10), 1))
        } else {
            (m, StepView::Skip(2))
        }
    } else if has_prefix(a, "-"@) {
        (m, StepView::Skip(1))
    } else {
        (m, StepView::Input(a))
    }
}

/// Decides what the scan does at the argument `index`, updating the modes.
#[verifier::rlimit(40)]
pub fn link_step(modes: &mut LinkerModes, inputs: &Vec<String>, index: usize) -> (result: LinkStep)
    requires
        index < inputs@.len(),
    ensures
        (final(modes)@, step_view(result)) == link_step_spec(old(modes)@, texts(inputs@), index as int),
{
    let count = inputs.len();
    let a = inputs[index].as_str();
    assert(texts(inputs@)[index as int] == a@);
    proof {
        reveal_strlit("-L");
        reveal_strlit("--library-path=");
        reveal_strlit("-l");
        reveal_strlit("--library=");
        reveal_strlit("-");
    }
    let start_group: [&str; 3] = ["--start-group", "-start-group", "-("];
    assert(start_group@.map_values(|o: &str| o@) =~= start_group_options());
    let end_group: [&str; 3] = ["--end-group", "-end-group", "-)"];
    assert(end_group@.map_values(|o: &str| o@) =~= end_group_options());
    let static_modes: [&str; 5] = [
        "--ccc-linker-static",
        "--ccc-linker-Bstatic",
        "-dn",
        "-non_shared",
        "-aarchive",
    ];
    assert(static_modes@.map_values(|o: &str| o@) =~= static_options());
    let dynamic_modes: [&str; 5] = ["--ccc-linker-Bdynamic", "-dy", "-call_shared", "-ashared", "-adefault"];
    assert(dynamic_modes@.map_values(|o: &str| o@) =~= dynamic_options());
    let whole: [&str; 3] = ["--whole-archive", "-whole-archive", "-Wl,--whole-archive"];
    assert(whole@.map_values(|o: &str| o@) =~= whole_options());
    let no_whole: [&str; 3] = ["--no-whole-archive", "-no-whole-archive", "-Wl,--no-whole-archive"];
    assert(no_whole@.map_values(|o: &str| o@) =~= no_whole_options());
    if is_one_of(a, &start_group) {
        return LinkStep::StartGroup;
    }
    if str_eq(a, "--push-state") || str_eq(a, "-push-state") {
        modes.saved.push((modes.static_libraries, modes.whole_archive, modes.as_needed));
        return LinkStep::Skip(1);
    }
    if str_eq(a, "--pop-state") || str_eq(a, "-pop-state") {
        if let Some((s, w, n)) = modes.saved.pop() {
            modes.static_libraries = s;
            modes.whole_archive = w;
            modes.as_needed = n;
        }
        return LinkStep::Skip(1);
    }
    if is_one_of(a, &end_group) {
        return LinkStep::EndGroup;
    }
    if str_eq(a, "-L") || str_eq(a, "--library-path") {
        return LinkStep::Skip(2);
    }
    if crate::text::starts_with(a, "-L") || crate::text::starts_with(a, "--library-path=") {
        return LinkStep::Skip(1);
    }
    if is_one_of(a, &static_modes) {
        modes.static_libraries = true;
        return LinkStep::Skip(1);
    }
    if is_one_of(a, &dynamic_modes) {
        modes.static_libraries = false;
        return LinkStep::Skip(1);
    }
    if str_eq(a, "-static") {
        return LinkStep::Skip(1);
    }
    if str_eq(a, "-a") {
        if index + 1 < count {
            let mode = inputs[index + 1].as_str();
            assert(texts(inputs@)[index + 1] == mode@);
            if str_eq(mode, "archive") {
                modes.static_libraries = true;
                return LinkStep::Skip(2);
            } else if str_eq(mode, "shared") || str_eq(mode, "default") {
                modes.static_libraries = false;
                return LinkStep::Skip(2);
            } else {
                return LinkStep::ForceAll(2);
            }
        }
        return LinkStep::Skip(2);
    }
    if is_one_of(a, &whole) {
        modes.whole_archive = true;
        return LinkStep::Skip(1);
    }
    if is_one_of(a, &no_whole) {
        modes.whole_archive = false;
        return LinkStep::Skip(1);
    }
    if str_eq(a, "--as-needed") || str_eq(a, "-as-needed") {
        modes.as_needed = true;
        return LinkStep::Skip(1);
    }
    if str_eq(a, "--no-as-needed") || str_eq(a, "-no-as-needed") {
        modes.as_needed = false;
        return LinkStep::Skip(1);
    }
    if str_eq(a, "-nostartfiles") || str_eq(a, "-nostdlib") {
        return LinkStep::ForceAll(1);
    }
    if let Some(width) = unmodeled_linker_argument_width(a) {
        return LinkStep::ForceAll(width);
    }
    if linker_option_consumes_next(a) {
        return LinkStep::Skip(2);
    }
    if str_eq(a, "-l") || str_eq(a, "--library") {
        if index + 1 < count {
            assert(texts(inputs@)[index + 1] == inputs@[index + 1]@);
            return LinkStep::Library(inputs[index + 1].clone(), 2);
        }
        return LinkStep::Skip(3);
    }
    if let Some(library) = strip_prefix(a, "-l") {
        if chars_of(library.as_str()).len() > 0 {
            return LinkStep::Library(library, 1);
        }
        return LinkStep::Skip(2);
    }
    if let Some(library) = strip_prefix(a, "--library=") {
        if chars_of(library.as_str()).len() > 0 {
            return LinkStep::Library(library, 1);
        }
        return LinkStep::Skip(2);
    }
    if crate::text::starts_with(a, "-") {
        return LinkStep::Skip(1);
    }
    LinkStep::Input(a.to_owned())
}

/// Each positional mode option sets its own mode, keeps the others and the
/// saved modes, and moves on by one argument: `--whole-archive` (also
/// `-whole-archive`, `-Wl,--whole-archive`) makes archives link whole and
/// `--no-whole-archive` (also `-no-whole-archive`,
/// `-Wl,--no-whole-archive`) ends that; `--as-needed` and `--no-as-needed`
/// (each also with one dash) turn as-needed linking on and off.
pub proof fn lemma_mode_options_set_their_mode(m: ModesView, inputs: Seq<Seq<char>>, i: int)
    requires
        0 <= i < inputs.len(),
    ensures
        (inputs[i] == "--whole-archive"@ || inputs[i] == "-whole-archive"@ || inputs[i]
            == "-Wl,--whole-archive"@) ==> link_step_spec(m, inputs, i) == (
        ModesView { static_libraries: m.static_libraries, whole_archive: true, as_needed: m.as_needed, saved: m.saved },
        StepView::Skip(1),
        ),
        (inputs[i] == "--no-whole-archive"@ || inputs[i] == "-no-whole-archive"@ || inputs[i]
            == "-Wl,--no-whole-archive"@) ==> link_step_spec(m, inputs, i) == (
        ModesView { static_libraries: m.static_libraries, whole_archive: false, as_needed: m.as_needed, saved: m.saved },
        StepView::Skip(1),
        ),
        (inputs[i] == "--as-needed"@ || inputs[i] == "-as-needed"@) ==> link_step_spec(m, inputs, i) == (
        ModesView { static_libraries: m.static_libraries, whole_archive: m.whole_archive, as_needed: true, saved: m.saved },
        StepView::Skip(1),
        ),
        (inputs[i] == "--no-as-needed"@ || inputs[i] == "-no-as-needed"@) ==> link_step_spec(m, inputs, i) == (
        ModesView { static_libraries: m.static_libraries, whole_archive: m.whole_archive, as_needed: false, saved: m.saved },
        StepView::Skip(1),
        ),
{
    let a = inputs[i];
    if (a == "--whole-archive"@ || a == "-whole-archive"@ || a == "-Wl,--whole-archive"@ || a
        == "--no-whole-archive"@ || a == "-no-whole-archive"@ || a == "-Wl,--no-whole-archive"@ || a
        == "--as-needed"@ || a == "-as-needed"@ || a == "--no-as-needed"@ || a == "-no-as-needed"@) {
        lemma_mode_option_passes_earlier_branches(a);
        lemma_among_three(a, "--whole-archive"@, "-whole-archive"@, "-Wl,--whole-archive"@);
        lemma_among_three(a, "--no-whole-archive"@, "-no-whole-archive"@, "-Wl,--no-whole-archive"@);
    }
}

/// The group, state and library-kind options of a link line: a group
/// option opens or closes a group and changes no mode; `--push-state`
/// saves the three modes and changes none; `--pop-state` brings back the
/// modes saved last, or changes nothing when none are saved; the static
/// options make `-l` find only archives, the dynamic ones let it find
/// shared libraries again.
pub proof fn lemma_positional_options(m: ModesView, inputs: Seq<Seq<char>>, i: int)
    requires
        0 <= i < inputs.len(),
    ensures
        (inputs[i] == "--start-group"@ || inputs[i] == "-start-group"@ || inputs[i] == "-("@)
            ==> link_step_spec(m, inputs, i) == (m, StepView::StartGroup),
        (inputs[i] == "--end-group"@ || inputs[i] == "-end-group"@ || inputs[i] == "-)"@)
            ==> link_step_spec(m, inputs, i) == (m, StepView::EndGroup),
        (inputs[i] == "--push-state"@ || inputs[i] == "-push-state"@) ==> link_step_spec(m, inputs, i)
            == (
        ModesView {
            static_libraries: m.static_libraries,
            whole_archive: m.whole_archive,
            as_needed: m.as_needed,
            saved: m.saved.push((m.static_libraries, m.whole_archive, m.as_needed)),
        },
        StepView::Skip(1),
        ),
        (inputs[i] == "--pop-state"@ || inputs[i] == "-pop-state"@) && m.saved.len() > 0
            ==> link_step_spec(m, inputs, i) == (
        ModesView {
            static_libraries: m.saved.last().0,
            whole_archive: m.saved.last().1,
            as_needed: m.saved.last().2,
            saved: m.saved.drop_last(),
        },
        StepView::Skip(1),
        ),
        (inputs[i] == "--pop-state"@ || inputs[i] == "-pop-state"@) && m.saved.len() == 0
            ==> link_step_spec(m, inputs, i) == (m, StepView::Skip(1)),
        (inputs[i] == "--ccc-linker-static"@ || inputs[i] == "--ccc-linker-Bstatic"@ || inputs[i] == "-dn"@
            || inputs[i] == "-non_shared"@ || inputs[i] == "-aarchive"@) ==> link_step_spec(m, inputs, i)
            == (
        ModesView { static_libraries: true, whole_archive: m.whole_archive, as_needed: m.as_needed, saved: m.saved },
        StepView::Skip(1),
        ),
        (inputs[i] == "--ccc-linker-Bdynamic"@ || inputs[i] == "-dy"@ || inputs[i] == "-call_shared"@
            || inputs[i] == "-ashared"@ || inputs[i] == "-adefault"@) ==> link_step_spec(m, inputs, i)
            == (
        ModesView { static_libraries: false, whole_archive: m.whole_archive, as_needed: m.as_needed, saved: m.saved },
        StepView::Skip(1),
        ),
{
    let a = inputs[i];
    lemma_among_three(a, "--start-group"@, "-start-group"@, "-("@);
    lemma_among_three(a, "--end-group"@, "-end-group"@, "-)"@);
    lemma_among_five(a, "--ccc-linker-static"@, "--ccc-linker-Bstatic"@, "-dn"@, "-non_shared"@, "-aarchive"@);
    lemma_among_five(a, "--ccc-linker-Bdynamic"@, "-dy"@, "-call_shared"@, "-ashared"@, "-adefault"@);
    reveal_strlit("--start-group");
    reveal_strlit("-start-group");
    reveal_strlit("-(");
    reveal_strlit("--push-state");
    reveal_strlit("-push-state");
    reveal_strlit("--pop-state");
    reveal_strlit("-pop-state");
    reveal_strlit("--end-group");
    reveal_strlit("-end-group");
    reveal_strlit("-)");
    reveal_strlit("-L");
    reveal_strlit("--library-path");
    reveal_strlit("--library-path=");
    reveal_strlit("--ccc-linker-static");
    reveal_strlit("--ccc-linker-Bstatic");
    reveal_strlit("-dn");
    reveal_strlit("-non_shared");
    reveal_strlit("-aarchive");
    reveal_strlit("--ccc-linker-Bdynamic");
    reveal_strlit("-dy");
    reveal_strlit("-call_shared");
    reveal_strlit("-ashared");
    reveal_strlit("-adefault");
    if a == "--push-state"@ {
        assert(a[1] != "-start-group"@[1]);
    } else if a == "--pop-state"@ {
        assert(a[1] != "-push-state"@[1]);
    } else if a == "--end-group"@ {
        assert(a[1] != "-push-state"@[1] && a[2] != "--pop-state"@[2]);
    } else if a == "-end-group"@ {
        assert(a[1] != "-pop-state"@[1]);
    } else if a == "-)"@ {
        assert(a[1] != "-("@[1]);
    } else if a == "-non_shared"@ {
        assert(a[1] != "-push-state"@[1] && a[1] != "--pop-state"@[1] && a[1] != "--end-group"@[1]);
    } else if a == "-dy"@ {
        assert(a[2] != "-dn"@[2]);
    } else if a == "-call_shared"@ {
        assert(a[1] != "-start-group"@[1] && a[1] != "--push-state"@[1]);
    } else if a == "-adefault"@ {
        assert(a[2] != "-aarchive"@[2]);
    }
    if a.len() >= 2 && a[0] == '-' && a[1] != 'L' {
        assert(a.take(2)[1] == a[1]);
    }
    if a.len() >= 15 {
        assert(a.take(15)[2] == a[2]);
    }
}

/// Popping the linker state right after pushing it, whatever the modes
/// became in between, gives back the modes there were before the push.
pub proof fn lemma_pop_undoes_push(
    m: ModesView,
    changed: ModesView,
    pushes: Seq<Seq<char>>,
    i: int,
    pops: Seq<Seq<char>>,
    j: int,
)
    requires
        0 <= i < pushes.len(),
        0 <= j < pops.len(),
        pushes[i] == "--push-state"@ || pushes[i] == "-push-state"@,
        pops[j] == "--pop-state"@ || pops[j] == "-pop-state"@,
        changed.saved == link_step_spec(m, pushes, i).0.saved,
    ensures
        link_step_spec(changed, pops, j).0 == m,
{
    lemma_positional_options(m, pushes, i);
    lemma_positional_options(changed, pops, j);
    assert(changed.saved.drop_last() =~= m.saved);
}

/// Every option of `consuming_options()` starts with `-` and has no `l` second.
proof fn lemma_consuming_options_shape()
    ensures
        forall|j: int|
            0 <= j < consuming_options().len() ==> {
                let o = #[trigger] consuming_options()[j];
                o.len() >= 2 && o[0] == '-' && o[1] != 'l'
            },
{
    reveal_strlit("-u");
    reveal_strlit("--undefined");
    reveal_strlit("-require-defined");
    reveal_strlit("--require-defined");
    reveal_strlit("-rpath");
    reveal_strlit("--rpath");
    reveal_strlit("-rpath-link");
    reveal_strlit("--rpath-link");
    reveal_strlit("-soname");
    reveal_strlit("--soname");
    reveal_strlit("-h");
    reveal_strlit("-Map");
    reveal_strlit("--Map");
    reveal_strlit("--version-script");
    reveal_strlit("--dynamic-list");
    reveal_strlit("--retain-symbols-file");
    reveal_strlit("-z");
    reveal_strlit("-m");
    reveal_strlit("-e");
    reveal_strlit("--entry");
    reveal_strlit("--dynamic-linker");
    reveal_strlit("-plugin");
    reveal_strlit("-plugin-opt");
    reveal_strlit("-framework");
    reveal_strlit("-install_name");
    reveal_strlit("-compatibility_version");
    reveal_strlit("-current_version");
    reveal_strlit("-undefined");
    reveal_strlit("-arch");
    let list = consuming_options();
    assert forall|j: int| 0 <= j < list.len() implies {
        let o = #[trigger] list[j];
        o.len() >= 2 && o[0] == '-' && o[1] != 'l'
    } by {
        if j == 0 {
            assert(list[j] == "-u"@);
        } else if j == 1 {
            assert(list[j] == "--undefined"@);
        } else if j == 2 {
            assert(list[j] == "-require-defined"@);
        } else if j == 3 {
            assert(list[j] == "--require-defined"@);
        } else if j == 4 {
            assert(list[j] == "-rpath"@);
        } else if j == 5 {
            assert(list[j] == "--rpath"@);
        } else if j == 6 {
            assert(list[j] == "-rpath-link"@);
        } else if j == 7 {
            assert(list[j] == "--rpath-link"@);
        } else if j == 8 {
            assert(list[j] == "-soname"@);
        } else if j == 9 {
            assert(list[j] == "--soname"@);
        } else if j == 10 {
            assert(list[j] == "-h"@);
        } else if j == 11 {
            assert(list[j] == "-Map"@);
        } else if j == 12 {
            assert(list[j] == "--Map"@);
        } else if j == 13 {
            assert(list[j] == "--version-script"@);
        } else if j == 14 {
            assert(list[j] == "--dynamic-list"@);
        } else if j == 15 {
            assert(list[j] == "--retain-symbols-file"@);
        } else if j == 16 {
            assert(list[j] == "-z"@);
        } else if j == 17 {
            assert(list[j] == "-m"@);
        } else if j == 18 {
            assert(list[j] == "-e"@);
        } else if j == 19 {
            assert(list[j] == "--entry"@);
        } else if j == 20 {
            assert(list[j] == "--dynamic-linker"@);
        } else if j == 21 {
            assert(list[j] == "-plugin"@);
        } else if j == 22 {
            assert(list[j] == "-plugin-opt"@);
        } else if j == 23 {
            assert(list[j] == "-framework"@);
        } else if j == 24 {
            assert(list[j] == "-install_name"@);
        } else if j == 25 {
            assert(list[j] == "-compatibility_version"@);
        } else if j == 26 {
            assert(list[j] == "-current_version"@);
        } else if j == 27 {
            assert(list[j] == "-undefined"@);
        } else if j == 28 {
            assert(list[j] == "-arch"@);
        }
    }
}

/// Every option of `unmodeled_with_operand()` starts with `-` and has no `l` second.
proof fn lemma_unmodeled_options_shape()
    ensures
        forall|j: int|
            0 <= j < unmodeled_with_operand().len() ==> {
                let o = #[trigger] unmodeled_with_operand()[j];
                o.len() >= 2 && o[0] == '-' && o[1] != 'l'
            },
{
    reveal_strlit("-T");
    reveal_strlit("-dT");
    reveal_strlit("--script");
    reveal_strlit("--default-script");
    reveal_strlit("--just-symbols");
    reveal_strlit("-R");
    reveal_strlit("--defsym");
    reveal_strlit("--wrap");
    let list = unmodeled_with_operand();
    assert forall|j: int| 0 <= j < list.len() implies {
        let o = #[trigger] list[j];
        o.len() >= 2 && o[0] == '-' && o[1] != 'l'
    } by {
        if j == 0 {
            assert(list[j] == "-T"@);
        } else if j == 1 {
            assert(list[j] == "-dT"@);
        } else if j == 2 {
            assert(list[j] == "--script"@);
        } else if j == 3 {
            assert(list[j] == "--default-script"@);
        } else if j == 4 {
            assert(list[j] == "--just-symbols"@);
        } else if j == 5 {
            assert(list[j] == "-R"@);
        } else if j == 6 {
            assert(list[j] == "--defsym"@);
        } else if j == 7 {
            assert(list[j] == "--wrap"@);
        }
    }
}

/// Whether `a` can be told from every option the scan of a link line
/// knows by its first two characters.
spec fn unlike_options(a: Seq<char>) -> bool {
    (a.len() > 0 && a[0] != '-' && a[0] != '@') || (a.len() > 2 && a[0] == '-' && a[1] == 'l')
}

proof fn lemma_unlike_options_pass_earlier_branches(a: Seq<char>)
    requires
        unlike_options(a),
    ensures
        !one_of(a, start_group_options()),
        a != "--push-state"@ && a != "-push-state"@,
        a != "--pop-state"@ && a != "-pop-state"@,
        !one_of(a, end_group_options()),
        a != "-L"@ && a != "--library-path"@,
        !has_prefix(a, "-L"@) && !has_prefix(a, "--library-path="@),
        !one_of(a, static_options()),
        !one_of(a, dynamic_options()),
        a != "-static"@ && a != "-a"@,
        !one_of(a, whole_options()),
        !one_of(a, no_whole_options()),
        a != "--as-needed"@ && a != "-as-needed"@,
        a != "--no-as-needed"@ && a != "-no-as-needed"@,
        a != "-nostartfiles"@ && a != "-nostdlib"@,
        unmodeled_width(a) is None,
        !one_of(a, consuming_options()),
        a != "-l"@ && a != "--library"@,
        !has_prefix(a, "--library="@),
{
    lemma_among_three(a, "--start-group"@, "-start-group"@, "-("@);
    lemma_among_three(a, "--end-group"@, "-end-group"@, "-)"@);
    lemma_among_three(a, "--whole-archive"@, "-whole-archive"@, "-Wl,--whole-archive"@);
    lemma_among_three(a, "--no-whole-archive"@, "-no-whole-archive"@, "-Wl,--no-whole-archive"@);
    lemma_among_five(a, "--ccc-linker-static"@, "--ccc-linker-Bstatic"@, "-dn"@, "-non_shared"@, "-aarchive"@);
    lemma_among_five(a, "--ccc-linker-Bdynamic"@, "-dy"@, "-call_shared"@, "-ashared"@, "-adefault"@);
    lemma_consuming_options_shape();
    lemma_unmodeled_options_shape();
    reveal_strlit("--start-group");
    reveal_strlit("-start-group");
    reveal_strlit("-(");
    reveal_strlit("--push-state");
    reveal_strlit("-push-state");
    reveal_strlit("--pop-state");
    reveal_strlit("-pop-state");
    reveal_strlit("--end-group");
    reveal_strlit("-end-group");
    reveal_strlit("-)");
    reveal_strlit("-L");
    reveal_strlit("--library-path");
    reveal_strlit("--ccc-linker-static");
    reveal_strlit("--ccc-linker-Bstatic");
    reveal_strlit("-dn");
    reveal_strlit("-non_shared");
    reveal_strlit("-aarchive");
    reveal_strlit("--ccc-linker-Bdynamic");
    reveal_strlit("-dy");
    reveal_strlit("-call_shared");
    reveal_strlit("-ashared");
    reveal_strlit("-adefault");
    reveal_strlit("-static");
    reveal_strlit("-a");
    reveal_strlit("--whole-archive");
    reveal_strlit("-whole-archive");
    reveal_strlit("-Wl,--whole-archive");
    reveal_strlit("--no-whole-archive");
    reveal_strlit("-no-whole-archive");
    reveal_strlit("-Wl,--no-whole-archive");
    reveal_strlit("--as-needed");
    reveal_strlit("-as-needed");
    reveal_strlit("--no-as-needed");
    reveal_strlit("-no-as-needed");
    reveal_strlit("-nostartfiles");
    reveal_strlit("-nostdlib");
    reveal_strlit("--start-lib");
    reveal_strlit("--end-lib");
    reveal_strlit("--library");
    reveal_strlit("-l");
    reveal_strlit("--library=");
    reveal_strlit("@");
    reveal_strlit("-T");
    reveal_strlit("-dT");
    reveal_strlit("--script=");
    reveal_strlit("--default-script=");
    reveal_strlit("--just-symbols=");
    reveal_strlit("--defsym=");
    reveal_strlit("--wrap=");
    reveal_strlit("-");
    if one_of(a, consuming_options()) {
        let j = choose|j: int| 0 <= j < consuming_options().len() && consuming_options()[j] == a;
        assert(consuming_options()[j][0] == '-' && consuming_options()[j][1] != 'l');
    }
    if one_of(a, unmodeled_with_operand()) {
        let j = choose|j: int| 0 <= j < unmodeled_with_operand().len() && unmodeled_with_operand()[j] == a;
        assert(unmodeled_with_operand()[j][0] == '-' && unmodeled_with_operand()[j][1] != 'l');
    }
    assert(a.take(1)[0] == a[0]);
    if a.len() >= 2 {
        assert(a.take(2)[0] == a[0] && a.take(2)[1] == a[1]);
    }
    if a.len() >= 3 {
        assert(a.take(3)[0] == a[0] && a.take(3)[1] == a[1]);
    }
    if a.len() >= 9 {
        assert(a.take(9)[0] == a[0] && a.take(9)[1] == a[1]);
    }
    if a.len() >= 10 {
        assert(a.take(10)[0] == a[0] && a.take(10)[1] == a[1]);
    }
    if a.len() >= 15 {
        assert(a.take(15)[0] == a[0] && a.take(15)[1] == a[1]);
    }
    if a.len() >= 16 {
        assert(a.take(16)[0] == a[0] && a.take(16)[1] == a[1]);
    }
    if a.len() >= 17 {
        assert(a.take(17)[0] == a[0] && a.take(17)[1] == a[1]);
    }
    if has_prefix(a, "-L"@) {
        assert(a.take(2)[1] == "-L"@[1]);
        assert(a.take(2)[0] == "-L"@[0]);
    }
    reveal_strlit("--library-path=");
    if has_prefix(a, "--library-path="@) {
        assert(a.take(15)[1] == "--library-path="@[1]);
        assert(a.take(15)[0] == "--library-path="@[0]);
    }
}

/// How the scan reads operands: an argument that does not start with `-`
/// (or `@`) is an input file; `-l` with a name is that library, one
/// argument long; neither changes a mode.
pub proof fn lemma_operands_of_a_link_line(m: ModesView, inputs: Seq<Seq<char>>, i: int)
    requires
        0 <= i < inputs.len(),
    ensures
        inputs[i].len() > 0 && inputs[i][0] != '-' && inputs[i][0] != '@' ==> link_step_spec(m, inputs, i)
            == (m, StepView::Input(inputs[i])),
        inputs[i].len() > 2 && inputs[i][0] == '-' && inputs[i][1] == 'l' ==> link_step_spec(m, inputs, i)
            == (m, StepView::Library(inputs[i].skip(2), 1)),
{
    let a = inputs[i];
    if unlike_options(a) {
        lemma_unlike_options_pass_earlier_branches(a);
        reveal_strlit("-l");
        reveal_strlit("-");
        assert(a.take(1)[0] == a[0]);
        if a.len() >= 2 {
            assert(a.take(2)[0] == a[0] && a.take(2)[1] == a[1]);
        }
        if a.len() > 2 && a[0] == '-' && a[1] == 'l' {
            assert(a.take(2) =~= "-l"@);
        }
    }
}

proof fn lemma_among_three(a: Seq<char>, x: Seq<char>, y: Seq<char>, z: Seq<char>)
    ensures
        seq![x, y, z].contains(a) == (a == x || a == y || a == z),
{
    let s = seq![x, y, z];
    if s.contains(a) {
        let j = choose|j: int| 0 <= j < s.len() && s[j] == a;
        assert(j == 0 || j == 1 || j == 2);
    }
    if a == x {
        assert(s[0] == a);
    } else if a == y {
        assert(s[1] == a);
    } else if a == z {
        assert(s[2] == a);
    }
}

proof fn lemma_among_five(a: Seq<char>, v: Seq<char>, w: Seq<char>, x: Seq<char>, y: Seq<char>, z: Seq<char>)
    ensures
        seq![v, w, x, y, z].contains(a) == (a == v || a == w || a == x || a == y || a == z),
{
    let s = seq![v, w, x, y, z];
    if s.contains(a) {
        let j = choose|j: int| 0 <= j < s.len() && s[j] == a;
        assert(j == 0 || j == 1 || j == 2 || j == 3 || j == 4);
    }
    if a == v {
        assert(s[0] == a);
    } else if a == w {
        assert(s[1] == a);
    } else if a == x {
        assert(s[2] == a);
    } else if a == y {
        assert(s[3] == a);
    } else if a == z {
        assert(s[4] == a);
    }
}

/// The mode options are none of the arguments the scan tests before them.
proof fn lemma_mode_option_passes_earlier_branches(a: Seq<char>)
    requires
        a == "--whole-archive"@ || a == "-whole-archive"@ || a == "-Wl,--whole-archive"@ || a
            == "--no-whole-archive"@ || a == "-no-whole-archive"@ || a == "-Wl,--no-whole-archive"@
            || a == "--as-needed"@ || a == "-as-needed"@ || a == "--no-as-needed"@ || a
            == "-no-as-needed"@,
    ensures
        !one_of(a, start_group_options()),
        a != "--push-state"@ && a != "-push-state"@,
        a != "--pop-state"@ && a != "-pop-state"@,
        !one_of(a, end_group_options()),
        a != "-L"@ && a != "--library-path"@,
        !has_prefix(a, "-L"@) && !has_prefix(a, "--library-path="@),
        !one_of(a, static_options()),
        !one_of(a, dynamic_options()),
        a != "-static"@ && a != "-a"@,
        (a == "--no-whole-archive"@ || a == "-no-whole-archive"@ || a == "-Wl,--no-whole-archive"@
            || a == "--as-needed"@ || a == "-as-needed"@ || a == "--no-as-needed"@ || a
            == "-no-as-needed"@) ==> !one_of(a, whole_options()),
        (a == "--as-needed"@ || a == "-as-needed"@ || a == "--no-as-needed"@ || a == "-no-as-needed"@)
            ==> !one_of(a, no_whole_options()),
        (a == "--no-as-needed"@ || a == "-no-as-needed"@) ==> a != "--as-needed"@ && a != "-as-needed"@,
{
    lemma_among_three(a, "--start-group"@, "-start-group"@, "-("@);
    lemma_among_three(a, "--end-group"@, "-end-group"@, "-)"@);
    lemma_among_three(a, "--whole-archive"@, "-whole-archive"@, "-Wl,--whole-archive"@);
    lemma_among_three(a, "--no-whole-archive"@, "-no-whole-archive"@, "-Wl,--no-whole-archive"@);
    lemma_among_five(a, "--ccc-linker-static"@, "--ccc-linker-Bstatic"@, "-dn"@, "-non_shared"@, "-aarchive"@);
    lemma_among_five(a, "--ccc-linker-Bdynamic"@, "-dy"@, "-call_shared"@, "-ashared"@, "-adefault"@);
    reveal_strlit("--whole-archive");
    reveal_strlit("-whole-archive");
    reveal_strlit("-Wl,--whole-archive");
    reveal_strlit("--no-whole-archive");
    reveal_strlit("-no-whole-archive");
    reveal_strlit("-Wl,--no-whole-archive");
    reveal_strlit("--as-needed");
    reveal_strlit("-as-needed");
    reveal_strlit("--no-as-needed");
    reveal_strlit("-no-as-needed");
    reveal_strlit("--start-group");
    reveal_strlit("-start-group");
    reveal_strlit("-(");
    reveal_strlit("--end-group");
    reveal_strlit("-end-group");
    reveal_strlit("-)");
    reveal_strlit("--push-state");
    reveal_strlit("-push-state");
    reveal_strlit("--pop-state");
    reveal_strlit("-pop-state");
    reveal_strlit("-L");
    reveal_strlit("--library-path");
    reveal_strlit("--library-path=");
    reveal_strlit("--ccc-linker-static");
    reveal_strlit("--ccc-linker-Bstatic");
    reveal_strlit("-dn");
    reveal_strlit("-non_shared");
    reveal_strlit("-aarchive");
    reveal_strlit("--ccc-linker-Bdynamic");
    reveal_strlit("-dy");
    reveal_strlit("-call_shared");
    reveal_strlit("-ashared");
    reveal_strlit("-adefault");
    reveal_strlit("-static");
    reveal_strlit("-a");
    assert(a.len() >= 10);
    assert(a[1] != 'L');
    assert(a.take(2)[1] == a[1]);
    if a == "--as-needed"@ {
        assert(a[1] != "-push-state"@[1] && a[1] != "-non_shared"@[1]);
        assert(a[2] != "--pop-state"@[2] && a[2] != "--end-group"@[2]);
    } else if a == "-as-needed"@ {
        assert(a[1] != "-pop-state"@[1] && a[1] != "-end-group"@[1]);
    } else if a == "--no-as-needed"@ {
        assert(a[2] != "--library-path"@[2] && a[1] != "-whole-archive"@[1]);
    } else if a == "-no-as-needed"@ {
        assert(a[1] != "--start-group"@[1]);
    } else if a == "-Wl,--whole-archive"@ {
        assert(a[1] != "--ccc-linker-static"@[1]);
    } else if a == "-whole-archive"@ {
        assert(a[1] != "--library-path"@[1]);
    }
    if a.len() >= 15 {
        if a[1] == '-' {
            assert(a[2] != 'l');
            assert(a.take(15)[2] == a[2]);
        } else {
            assert(a.take(15)[1] == a[1]);
        }
    }
}

/// How the code of an executable may be placed.
#[derive(Clone, Copy, Debug, PartialEq, Eq, Structural)]
pub enum RelocationModel {
    Static,
    Pic,
    Pie,
}

pub open spec fn relocation_argument(macho: bool, model: RelocationModel) -> Seq<char> {
    match (macho, model) {
        (true, RelocationModel::Static) => "-Wl,-no_pie"@,
        (true, _) => "-Wl,-pie"@,
        (false, RelocationModel::Static) => "-no-pie"@,
        (false, _) => "-pie"@,
    }
}

/// The driver argument that makes an executable position-dependent or
/// position-independent, as the target's linker spells it: through
/// `-Wl,` for Mach-O, directly otherwise.
pub fn relocation_link_argument(macho: bool, model: RelocationModel) -> (result: &'static str)
    ensures
        result@ == relocation_argument(macho, model),
{
    match (macho, model) {
        (true, RelocationModel::Static) => "-Wl,-no_pie",
        (true, _) => "-Wl,-pie",
        (false, RelocationModel::Static) => "-no-pie",
        (false, _) => "-pie",
    }
}

/// What a link produces.
#[derive(Clone, Copy, Debug, PartialEq, Eq, Structural)]
pub enum LinkOutputKind {
    Executable,
    Shared,
    Relocatable,
}

/// The argument that asks the driver for the output kind.
pub open spec fn output_kind_argument(kind: LinkOutputKind, macho: bool, model: RelocationModel) -> Seq<char> {
    match kind {
        LinkOutputKind::Executable => relocation_argument(macho, model),
        LinkOutputKind::Shared => if macho {
            "-dynamiclib"@
        } else {
            "-shared"@
        },
        LinkOutputKind::Relocatable => "-r"@,
    }
}

/// The runtime-helper providers as link arguments: after everything else,
/// and on ELF kept out of any `--whole-archive` state of the user's.
pub open spec fn provider_arguments(providers: Seq<Seq<char>>, elf: bool) -> Seq<Seq<char>> {
    if providers.len() == 0 {
        seq![]
    } else if elf {
        seq!["-Wl,--push-state,--no-whole-archive"@] + providers + seq!["-Wl,--pop-state"@]
    } else {
        providers
    }
}

/// The arguments a link runs the driver with: the inputs in order, the
/// output, the runtime-helper providers, and the output kind.
pub open spec fn link_arguments_spec(
    inputs: Seq<Seq<char>>,
    output: Seq<char>,
    providers: Seq<Seq<char>>,
    kind: LinkOutputKind,
    elf: bool,
    macho: bool,
    model: RelocationModel,
) -> Seq<Seq<char>> {
    inputs + seq!["-o"@, output] + provider_arguments(providers, elf) + seq![
        output_kind_argument(kind, macho, model),
    ]
}

/// A link line starts with the inputs in order, then `-o` and the output;
/// it ends with the output kind: `-shared` for a shared library (Mach-O's
/// `-dynamiclib` there), `-r` for a relocatable object, and for an
/// executable `-no-pie` or `-pie` (`-Wl,-no_pie` or `-Wl,-pie` on
/// Mach-O) as the code is static or position-independent. Runtime-helper
/// providers stand between, on ELF inside a pushed linker state, and add
/// nothing when there are none.
pub proof fn lemma_link_line_shape(
    inputs: Seq<Seq<char>>,
    output: Seq<char>,
    providers: Seq<Seq<char>>,
    kind: LinkOutputKind,
    elf: bool,
    macho: bool,
    model: RelocationModel,
)
    ensures
        ({
            let line = link_arguments_spec(inputs, output, providers, kind, elf, macho, model);
            let n = inputs.len() as int;
            let p = providers.len() as int;
            &&& line.take(n) == inputs
            &&& line[n] == "-o"@
            &&& line[n + 1] == output
            &&& kind == LinkOutputKind::Shared && !macho ==> line.last() == "-shared"@
            &&& kind == LinkOutputKind::Shared && macho ==> line.last() == "-dynamiclib"@
            &&& kind == LinkOutputKind::Relocatable ==> line.last() == "-r"@
            &&& kind == LinkOutputKind::Executable && !macho ==> line.last() == if model
                == RelocationModel::Static {
                "-no-pie"@
            } else {
                "-pie"@
            }
            &&& kind == LinkOutputKind::Executable && macho ==> line.last() == if model
                == RelocationModel::Static {
                "-Wl,-no_pie"@
            } else {
                "-Wl,-pie"@
            }
            &&& providers.len() == 0 ==> line.len() == inputs.len() + 3
            &&& providers.len() > 0 && elf ==> line.len() == inputs.len() + providers.len() + 5
                && line[n + 2] == "-Wl,--push-state,--no-whole-archive"@
                && line.subrange(n + 3, n + 3 + p) == providers
                && line[n + 3 + p] == "-Wl,--pop-state"@
            &&& providers.len() > 0 && !elf ==> line.len() == inputs.len() + providers.len() + 3
                && line.subrange(n + 2, n + 2 + p) == providers
        }),
{
    let line = link_arguments_spec(inputs, output, providers, kind, elf, macho, model);
    let n = inputs.len() as int;
    assert(line.take(n) =~= inputs);
    if providers.len() > 0 && elf {
        assert(line.subrange(n + 3, n + 3 + providers.len()) =~= providers);
    }
    if providers.len() > 0 && !elf {
        assert(line.subrange(n + 2, n + 2 + providers.len()) =~= providers);
    }
}

fn push_all(out: &mut Vec<String>, items: &[String])
    ensures
        texts(final(out)@) == texts(old(out)@) + texts(items@),
{
    let mut k: usize = 0;
    while k < items.len()
        invariant
            k <= items@.len(),
            texts(out@) == texts(old(out)@) + texts(items@.take(k as int)),
        decreases items.len() - k,
    {
        let ghost before = out@;
        out.push(items[k].clone());
        assert(texts(out@) =~= texts(before).push(items@[k as int]@));
        assert(texts(items@.take(k + 1)) =~= texts(items@.take(k as int)).push(items@[k as int]@));
        k = k + 1;
    }
    assert(items@.take(items@.len() as int) =~= items@);
}

/// The arguments a link runs the driver with.
pub fn link_arguments(
    inputs: &[String],
    output: &str,
    providers: &[String],
    kind: LinkOutputKind,
    elf: bool,
    macho: bool,
    model: RelocationModel,
) -> (result: Vec<String>)
    ensures
        texts(result@) == link_arguments_spec(texts(inputs@), output@, texts(providers@), kind, elf, macho, model),
{
    let mut out: Vec<String> = Vec::new();
    push_all(&mut out, inputs);
    let ghost first = texts(out@);
    out.push("-o".to_string());
    out.push(output.to_string());
    assert(texts(out@) =~= first + seq!["-o"@, output@]);
    let ghost second = texts(out@);
    if providers.len() > 0 {
        if elf {
            out.push("-Wl,--push-state,--no-whole-archive".to_string());
            let ghost opened = texts(out@);
            assert(opened =~= second.push("-Wl,--push-state,--no-whole-archive"@));
            push_all(&mut out, providers);
            let ghost listed = texts(out@);
            out.push("-Wl,--pop-state".to_string());
            assert(texts(out@) =~= listed.push("-Wl,--pop-state"@));
            assert(texts(out@) =~= second + (seq!["-Wl,--push-state,--no-whole-archive"@] + texts(
                providers@,
            ) + seq!["-Wl,--pop-state"@]));
        } else {
            push_all(&mut out, providers);
        }
    } else {
        assert(texts(providers@) =~= Seq::<Seq<char>>::empty());
    }
    assert(texts(out@) =~= second + provider_arguments(texts(providers@), elf));
    let ghost third = texts(out@);
    let last = match kind {
        LinkOutputKind::Executable => relocation_link_argument(macho, model),
        LinkOutputKind::Shared => if macho {
            "-dynamiclib"
        } else {
            "-shared"
        },
        LinkOutputKind::Relocatable => "-r",
    };
    out.push(last.to_string());
    assert(texts(out@) =~= third + seq![output_kind_argument(kind, macho, model)]);
    out
}

/* Directories a driver reports */

/// The pieces of `s` between colons, in order; the empty text is one empty
/// piece.
pub open spec fn colon_pieces(s: Seq<char>) -> Seq<Seq<char>>
    decreases s.len(),
{
    if s.len() == 0 {
        seq![seq![]]
    } else {
        let before = colon_pieces(s.drop_last());
        if s.last() == ':' {
            before.push(seq![])
        } else {
            before.update(before.len() - 1, before.last().push(s.last()))
        }
    }
}

proof fn lemma_colon_pieces_nonempty(s: Seq<char>)
    ensures
        colon_pieces(s).len() >= 1,
    decreases s.len(),
{
    if s.len() > 0 {
        lemma_colon_pieces_nonempty(s.drop_last());
    }
}

/// The value of the first `libraries:` line of `lines`, trimmed and without
/// a leading `=`.
pub open spec fn libraries_value(lines: Seq<Seq<char>>) -> Option<Seq<char>>
    decreases lines.len(),
{
    if lines.len() == 0 {
        None
    } else if has_prefix(lines[0], "libraries:"@) {
        let value = trim_ws(lines[0].skip("libraries:"@.len() as int));
        Some(
            if has_prefix(value, "="@) {
                value.skip(1)
            } else {
                value
            },
        )
    } else {
        libraries_value(lines.drop_first())
    }
}

/// The library directories in a driver's `-print-search-dirs` output, each
/// resolved against the sysroot.
pub open spec fn reported_library_directories(output: Seq<char>, sysroot: Option<Seq<char>>) -> Seq<
    Seq<char>,
> {
    match libraries_value(text_lines(output)) {
        Some(value) => colon_pieces(value).map_values(|piece: Seq<char>| sysroot_path(piece, sysroot)),
        None => seq![],
    }
}

fn split_at_colons(s: &Vec<char>) -> (result: Vec<String>)
    ensures
        texts(result@) == colon_pieces(s@),
{
    let mut out: Vec<String> = Vec::new();
    let mut current: Vec<char> = Vec::new();
    let mut i: usize = 0;
    while i < s.len()
        invariant
            i <= s@.len(),
            colon_pieces(s@.take(i as int)) == texts(out@).push(current@),
        decreases s@.len() - i,
    {
        assert(s@.take(i + 1).drop_last() =~= s@.take(i as int));
        if s[i] == ':' {
            out.push(string_from_chars(current.as_slice()));
            current = Vec::new();
            assert(texts(out@) =~= colon_pieces(s@.take(i as int)));
        } else {
            let ghost before = texts(out@).push(current@);
            current.push(s[i]);
            assert(texts(out@).push(current@) =~= before.update(before.len() - 1, before.last().push(s@[i as int])));
        }
        i = i + 1;
    }
    assert(s@.take(s@.len() as int) =~= s@);
    out.push(string_from_chars(current.as_slice()));
    out
}

/// The library directories a driver reported for `-print-search-dirs`:
/// the colon-separated value of its first `libraries:` line, without a
/// leading `=`, each directory resolved against the sysroot; none when no
/// such line is there.
pub fn driver_library_directories(output: &str, sysroot: Option<&str>) -> (result: Vec<String>)
    ensures
        texts(result@) == reported_library_directories(output@, option_str(sysroot)),
{
    let lines = lines_of(output);
    let ghost all = texts(lines@);
    let mut k: usize = 0;
    let n = lines.len();
    assert(all.skip(0) =~= all);
    while k < n
        invariant
            n == lines@.len(),
            k <= n,
            all == texts(lines@),
            all == text_lines(output@),
            libraries_value(all) == libraries_value(all.skip(k as int)),
        decreases n - k,
    {
        assert(all.skip(k as int).drop_first() =~= all.skip(k + 1));
        assert(all.skip(k as int)[0] == lines@[k as int]@);
        match strip_prefix(lines[k].as_str(), "libraries:") {
            Some(rest) => {
                let trimmed = trim_chars(&chars_of(rest.as_str()));
                let value: Vec<char> = if trimmed.len() > 0 && trimmed[0] == '=' {
                    let mut tail: Vec<char> = Vec::new();
                    let mut j: usize = 1;
                    while j < trimmed.len()
                        invariant
                            1 <= j <= trimmed@.len(),
                            tail@ == trimmed@.subrange(1, j as int),
                        decreases trimmed@.len() - j,
                    {
                        tail.push(trimmed[j]);
                        assert(tail@ =~= trimmed@.subrange(1, j + 1));
                        j = j + 1;
                    }
                    proof {
                        reveal_strlit("=");
                        assert(trimmed@.take(1) =~= "="@);
                        assert(has_prefix(trimmed@, "="@));
                        assert(tail@ =~= trimmed@.skip(1));
                    }
                    tail
                } else {
                    proof {
                        reveal_strlit("=");
                        if has_prefix(trimmed@, "="@) {
                            assert(trimmed@.take(1)[0] == trimmed@[0]);
                        }
                    }
                    trimmed
                };
                let pieces = split_at_colons(&value);
                proof {
                    lemma_colon_pieces_nonempty(value@);
                }
                let mut result: Vec<String> = Vec::new();
                let mut p: usize = 0;
                while p < pieces.len()
                    invariant
                        p <= pieces@.len(),
                        texts(pieces@) == colon_pieces(value@),
                        texts(result@) == texts(pieces@).take(p as int).map_values(
                            |piece: Seq<char>| sysroot_path(piece, option_str(sysroot)),
                        ),
                    decreases pieces@.len() - p,
                {
                    let ghost before = texts(result@);
                    result.push(resolve_sysroot_path(pieces[p].as_str(), sysroot));
                    assert(texts(result@) =~= before.push(sysroot_path(pieces@[p as int]@, option_str(sysroot))));
                    assert(texts(pieces@).take(p + 1) =~= texts(pieces@).take(p as int).push(pieces@[p as int]@));
                    assert(texts(result@) =~= texts(pieces@).take(p + 1).map_values(
                        |piece: Seq<char>| sysroot_path(piece, option_str(sysroot)),
                    ));
                    p = p + 1;
                }
                assert(texts(pieces@).take(pieces@.len() as int) =~= texts(pieces@));
                return result;
            },
            None => {},
        }
        k = k + 1;
    }
    assert(all.skip(n as int) =~= seq![]);
    Vec::new()
}

/* File names a library option may stand for */

/// The file names `-l` looks for: `-l:name` names the file itself;
/// otherwise `lib` and the name with the shared suffix of the target
/// (`dylib` on Mach-O, `so` elsewhere), then the static one, or only the
/// static one where `-l` finds only static archives.
pub open spec fn library_file_candidates(library: Seq<char>, static_libraries: bool, macho: bool) -> Seq<
    Seq<char>,
> {
    if has_prefix(library, ":"@) {
        seq![library.skip(1)]
    } else if static_libraries {
        seq!["lib"@ + library + ".a"@]
    } else {
        seq!["lib"@ + library + (if macho { ".dylib"@ } else { ".so"@ }), "lib"@ + library + ".a"@]
    }
}

/// The file names a library option asks for, in the order they are tried.
pub fn library_file_names(library: &str, static_libraries: bool, macho: bool) -> (result: Vec<String>)
    ensures
        texts(result@) == library_file_candidates(library@, static_libraries, macho),
{
    let mut out: Vec<String> = Vec::new();
    match strip_prefix(library, ":") {
        Some(name) => {
            out.push(name);
            proof {
                reveal_strlit(":");
            }
            assert(texts(out@) =~= library_file_candidates(library@, static_libraries, macho));
            return out;
        },
        None => {},
    }
    if !static_libraries {
        let suffix = if macho { ".dylib" } else { ".so" };
        out.push(crate::text::concat3("lib", library, suffix));
    }
    out.push(crate::text::concat3("lib", library, ".a"));
    assert(texts(out@) =~= library_file_candidates(library@, static_libraries, macho));
    out
}

} // verus!
