//! The source normalization that precedes tokenization: a leading byte-order
//! mark is dropped, `\r\n` and `\r` become `\n`, trigraphs are replaced when
//! the language mode asks for it, and backslash-newline pairs are spliced
//! away. Every normalized character remembers the original bytes it came
//! from and the physical line they were on.

use vstd::prelude::*;

use crate::text::{char_utf8_width, char_utf8_width_exec, utf8_len};

verus! {

/// Whether trigraphs are replaced, and whether each one is reported.
#[derive(Clone, Copy, Debug, PartialEq, Eq, Structural)]
pub struct NormalizeOptions {
    pub trigraphs: bool,
    pub warn_trigraphs: bool,
}

/// One normalized character: the original bytes `start..end` it came from,
/// and the physical line of its first byte.
#[derive(Clone, Copy, Debug, PartialEq, Eq, Structural)]
pub struct SourceChar {
    pub ch: char,
    pub start: usize,
    pub end: usize,
    pub line: usize,
}

/* Newlines */

/// How many characters of `s` the normalized character at `i` takes: two
/// for `\r\n`, one otherwise.
pub open spec fn newline_step(s: Seq<char>, i: int) -> int {
    if s[i] == '\r' && i + 1 < s.len() && s[i + 1] == '\n' {
        2
    } else {
        1
    }
}

/// The normalized character at `i`: `\n` for a `\r`.
pub open spec fn normalized_char(s: Seq<char>, i: int) -> char {
    if s[i] == '\r' {
        '\n'
    } else {
        s[i]
    }
}

/// How many original bytes the normalized character at `i` covers.
pub open spec fn byte_step(s: Seq<char>, i: int) -> int {
    if s[i] == '\r' {
        newline_step(s, i)
    } else {
        char_utf8_width(s[i])
    }
}

/// The characters of `s` from `i` on, with `\r\n` and a lone `\r` each
/// turned into one `\n`; `byte` is the original offset of `s[i]` and `line`
/// its physical line.
pub open spec fn newline_units(s: Seq<char>, i: int, byte: int, line: int) -> Seq<SourceChar>
    decreases s.len() - i,
{
    if i < 0 || i >= s.len() {
        Seq::empty()
    } else {
        seq![SourceChar {
            ch: normalized_char(s, i),
            start: byte as usize,
            end: (byte + byte_step(s, i)) as usize,
            line: line as usize,
        }] + newline_units(
            s,
            i + newline_step(s, i),
            byte + byte_step(s, i),
            line_after(normalized_char(s, i), line),
        )
    }
}

/// The physical line after the character `c` on line `line`.
pub open spec fn line_after(c: char, line: int) -> int {
    if c == '\n' {
        line + 1
    } else {
        line
    }
}

/// Whether `s` starts with a byte-order mark.
pub open spec fn has_bom(s: Seq<char>) -> bool {
    s.len() > 0 && s[0] == '\u{feff}'
}

/// The characters of the source `s` after newline normalization.
pub open spec fn source_units(s: Seq<char>) -> Seq<SourceChar> {
    if has_bom(s) {
        newline_units(s, 1, 3, 1)
    } else {
        newline_units(s, 0, 0, 1)
    }
}

pub proof fn lemma_utf8_len_take_step(s: Seq<char>, i: int)
    requires
        0 <= i < s.len(),
    ensures
        utf8_len(s.take(i + 1)) == utf8_len(s.take(i)) + char_utf8_width(s[i]),
{
    assert(s.take(i + 1).drop_last() =~= s.take(i));
}

pub proof fn lemma_utf8_len_take_bound(s: Seq<char>, i: int)
    requires
        0 <= i <= s.len(),
    ensures
        utf8_len(s.take(i)) <= utf8_len(s),
        utf8_len(s.take(i)) >= i,
    decreases s.len() - i,
{
    if i < s.len() {
        lemma_utf8_len_take_bound(s, i + 1);
        lemma_utf8_len_take_step(s, i);
    } else {
        assert(s.take(i) =~= s);
    }
    crate::text::lemma_utf8_len_nonneg(s.take(i));
}

/// Turns the characters of a source into normalized units, dropping a
/// leading byte-order mark and normalizing newlines.
fn decode_newlines(s: &Vec<char>) -> (result: Vec<SourceChar>)
    requires
        utf8_len(s@) < usize::MAX,
    ensures
        result@ == source_units(s@),
{
    let n = s.len();
    let bom = n > 0 && s[0] == '\u{feff}';
    let mut i: usize = if bom {
        1
    } else {
        0
    };
    let mut byte: usize = if bom {
        3
    } else {
        0
    };
    let mut line: usize = 1;
    let mut output: Vec<SourceChar> = Vec::new();
    proof {
        if bom {
            lemma_utf8_len_take_step(s@, 0);
            assert(s@.take(0).len() == 0);
        }
    }
    while i < n
        invariant
            i <= n == s.len(),
            utf8_len(s@) < usize::MAX,
            byte == utf8_len(s@.take(i as int)),
            1 <= line <= i + 1,
            output@ + newline_units(s@, i as int, byte as int, line as int) == source_units(s@),
        decreases n - i,
    {
        proof {
            lemma_utf8_len_take_step(s@, i as int);
            lemma_utf8_len_take_bound(s@, i + 1);
        }
        let c = s[i];
        let (ch, step, width): (char, usize, usize) = if c == '\r' {
            if i + 1 < n && s[i + 1] == '\n' {
                ('\n', 2, 2)
            } else {
                ('\n', 1, 1)
            }
        } else {
            (c, 1, char_utf8_width_exec(c))
        };
        proof {
            if step == 2 {
                lemma_utf8_len_take_step(s@, i + 1);
                lemma_utf8_len_take_bound(s@, i + 2);
            }
        }
        assert(step == newline_step(s@, i as int));
        assert(width == byte_step(s@, i as int));
        let unit = SourceChar { ch, start: byte, end: byte + width, line };
        let next_line = if ch == '\n' {
            line + 1
        } else {
            line
        };
        let ghost before = output@;
        output.push(unit);
        assert(before + newline_units(s@, i as int, byte as int, line as int) =~= output@
            + newline_units(s@, i + step, byte + width, next_line as int));
        i = i + step;
        byte = byte + width;
        line = next_line;
    }
    assert(output@ =~= source_units(s@));
    output
}

/* Trigraphs */

/// The character a trigraph `??c` stands for.
pub open spec fn trigraph_char(c: char) -> Option<char> {
    if c == '=' {
        Some('#')
    } else if c == '/' {
        Some('\\')
    } else if c == '\'' {
        Some('^')
    } else if c == '(' {
        Some('[')
    } else if c == ')' {
        Some(']')
    } else if c == '!' {
        Some('|')
    } else if c == '<' {
        Some('{')
    } else if c == '>' {
        Some('}')
    } else if c == '-' {
        Some('~')
    } else {
        None
    }
}

fn trigraph_char_exec(c: char) -> (result: Option<char>)
    ensures
        result == trigraph_char(c),
{
    match c {
        '=' => Some('#'),
        '/' => Some('\\'),
        '\'' => Some('^'),
        '(' => Some('['),
        ')' => Some(']'),
        '!' => Some('|'),
        '<' => Some('{'),
        '>' => Some('}'),
        '-' => Some('~'),
        _ => None,
    }
}

/// Whether a trigraph starts at `u[i]`.
pub open spec fn trigraph_at(u: Seq<SourceChar>, i: int) -> bool {
    0 <= i && i + 2 < u.len() && u[i].ch == '?' && u[i + 1].ch == '?' && trigraph_char(
        u[i + 2].ch,
    ) is Some
}

/// The units from `i` on, with each trigraph replaced when `enabled`.
pub open spec fn trigraph_units(u: Seq<SourceChar>, i: int, enabled: bool) -> Seq<SourceChar>
    decreases u.len() - i,
{
    if i < 0 || i >= u.len() {
        Seq::empty()
    } else if enabled && trigraph_at(u, i) {
        seq![SourceChar {
            ch: trigraph_char(u[i + 2].ch)->0,
            start: u[i].start,
            end: u[i + 2].end,
            line: u[i].line,
        }] + trigraph_units(u, i + 3, enabled)
    } else {
        seq![u[i]] + trigraph_units(u, i + 1, enabled)
    }
}

/// The original byte ranges of the trigraphs seen from `i` on: each is
/// skipped as a whole when trigraphs are replaced.
pub open spec fn trigraph_spans(u: Seq<SourceChar>, i: int, enabled: bool) -> Seq<(usize, usize)>
    decreases u.len() - i,
{
    if i < 0 || i >= u.len() {
        Seq::empty()
    } else if trigraph_at(u, i) {
        seq![(u[i].start, u[i + 2].end)] + trigraph_spans(
            u,
            if enabled {
                i + 3
            } else {
                i + 1
            },
            enabled,
        )
    } else {
        trigraph_spans(u, i + 1, enabled)
    }
}

fn replace_trigraphs(u: &Vec<SourceChar>, enabled: bool) -> (result: (
    Vec<SourceChar>,
    Vec<(usize, usize)>,
))
    ensures
        result.0@ == trigraph_units(u@, 0, enabled),
        result.1@ == trigraph_spans(u@, 0, enabled),
{
    let n = u.len();
    let mut output: Vec<SourceChar> = Vec::new();
    let mut spans: Vec<(usize, usize)> = Vec::new();
    let mut i: usize = 0;
    while i < n
        invariant
            i <= n == u.len(),
            output@ + trigraph_units(u@, i as int, enabled) == trigraph_units(u@, 0, enabled),
            spans@ + trigraph_spans(u@, i as int, enabled) == trigraph_spans(u@, 0, enabled),
        decreases n - i,
    {
        let ghost before = output@;
        let ghost before_spans = spans@;
        let replacement = if n - i > 2 && u[i].ch == '?' && u[i + 1].ch == '?' {
            trigraph_char_exec(u[i + 2].ch)
        } else {
            None
        };
        assert(replacement is Some <==> trigraph_at(u@, i as int));
        match replacement {
            Some(r) => {
                spans.push((u[i].start, u[i + 2].end));
                if enabled {
                    output.push(SourceChar { ch: r, start: u[i].start, end: u[i + 2].end, line: u[i].line });
                    assert(before + trigraph_units(u@, i as int, enabled) =~= output@
                        + trigraph_units(u@, i + 3, enabled));
                    assert(before_spans + trigraph_spans(u@, i as int, enabled) =~= spans@
                        + trigraph_spans(u@, i + 3, enabled));
                    i = i + 3;
                } else {
                    output.push(u[i]);
                    assert(before + trigraph_units(u@, i as int, enabled) =~= output@
                        + trigraph_units(u@, i + 1, enabled));
                    assert(before_spans + trigraph_spans(u@, i as int, enabled) =~= spans@
                        + trigraph_spans(u@, i + 1, enabled));
                    i = i + 1;
                }
            },
            None => {
                output.push(u[i]);
                assert(before + trigraph_units(u@, i as int, enabled) =~= output@
                    + trigraph_units(u@, i + 1, enabled));
                assert(before_spans + trigraph_spans(u@, i as int, enabled) =~= spans@
                    + trigraph_spans(u@, i + 1, enabled));
                i = i + 1;
            },
        }
    }
    assert(output@ =~= trigraph_units(u@, 0, enabled));
    assert(spans@ =~= trigraph_spans(u@, 0, enabled));
    (output, spans)
}

/* Line splices */

/// The units from `i` on, with every backslash-newline pair removed.
pub open spec fn splice_units(u: Seq<SourceChar>, i: int) -> Seq<SourceChar>
    decreases u.len() - i,
{
    if i < 0 || i >= u.len() {
        Seq::empty()
    } else if i + 1 < u.len() && u[i].ch == '\\' && u[i + 1].ch == '\n' {
        splice_units(u, i + 2)
    } else {
        seq![u[i]] + splice_units(u, i + 1)
    }
}

fn splice_lines(u: &Vec<SourceChar>) -> (result: Vec<SourceChar>)
    ensures
        result@ == splice_units(u@, 0),
{
    let n = u.len();
    let mut output: Vec<SourceChar> = Vec::new();
    let mut i: usize = 0;
    while i < n
        invariant
            i <= n == u.len(),
            output@ + splice_units(u@, i as int) == splice_units(u@, 0),
        decreases n - i,
    {
        if i + 1 < n && u[i].ch == '\\' && u[i + 1].ch == '\n' {
            i = i + 2;
        } else {
            let ghost before = output@;
            output.push(u[i]);
            assert(before + splice_units(u@, i as int) =~= output@ + splice_units(u@, i + 1));
            i = i + 1;
        }
    }
    assert(output@ =~= splice_units(u@, 0));
    output
}

/* The normalized source */

/// A normalized source: its characters with their origins, the length of
/// the original text in bytes, and the original byte ranges of the
/// trigraphs to report.
pub struct NormalizedSource {
    pub units: Vec<SourceChar>,
    pub original_len: usize,
    pub trigraph_reports: Vec<(usize, usize)>,
}

/// The normalized units of the source `s`.
pub open spec fn normalized_units(s: Seq<char>, options: NormalizeOptions) -> Seq<SourceChar> {
    splice_units(trigraph_units(source_units(s), 0, options.trigraphs), 0)
}

/// The trigraphs of the source `s` that normalization reports.
pub open spec fn reported_trigraphs(s: Seq<char>, options: NormalizeOptions) -> Seq<(usize, usize)> {
    if options.warn_trigraphs {
        trigraph_spans(source_units(s), 0, options.trigraphs)
    } else {
        Seq::empty()
    }
}

/// Normalizes `source`; a source's length in bytes always fits the
/// address space.
pub fn normalize(source: &str, options: NormalizeOptions) -> (result: NormalizedSource)
    requires
        utf8_len(source@) < usize::MAX,
    ensures
        result.units@ == normalized_units(source@, options),
        result.original_len == utf8_len(source@),
        result.trigraph_reports@ == reported_trigraphs(source@, options),
{
    let chars = crate::text::chars_of(source);
    let units = decode_newlines(&chars);
    let (replaced, spans) = replace_trigraphs(&units, options.trigraphs);
    let spliced = splice_lines(&replaced);
    let original_len = utf8_len_exec(&chars);
    NormalizedSource {
        units: spliced,
        original_len,
        trigraph_reports: if options.warn_trigraphs {
            spans
        } else {
            Vec::new()
        },
    }
}

/// The UTF-8 length of `s`.
fn utf8_len_exec(s: &Vec<char>) -> (result: usize)
    requires
        utf8_len(s@) < usize::MAX,
    ensures
        result == utf8_len(s@),
{
    let mut total: usize = 0;
    let mut i: usize = 0;
    while i < s.len()
        invariant
            i <= s.len(),
            utf8_len(s@) < usize::MAX,
            total == utf8_len(s@.take(i as int)),
        decreases s.len() - i,
    {
        proof {
            lemma_utf8_len_take_step(s@, i as int);
            lemma_utf8_len_take_bound(s@, i + 1);
        }
        total = total + char_utf8_width_exec(s[i]);
        i = i + 1;
    }
    assert(s@.take(i as int) =~= s@);
    total
}

/// The original byte range of the normalized characters `start..end`.
pub open spec fn original_range(
    units: Seq<SourceChar>,
    original_len: usize,
    start: int,
    end: int,
) -> (usize, usize) {
    let first = if 0 <= start < units.len() {
        units[start].start
    } else {
        original_len
    };
    let last_index = if end > 0 {
        end - 1
    } else {
        0
    };
    let last = if end == start {
        first
    } else if 0 <= last_index < units.len() {
        units[last_index].end
    } else {
        first
    };
    (first, last)
}

/// The physical line of the normalized character at `offset`: past the
/// end, that of the last character, and 1 for an empty source.
pub open spec fn physical_line_at(units: Seq<SourceChar>, offset: int) -> usize {
    if 0 <= offset < units.len() {
        units[offset].line
    } else if units.len() > 0 {
        units.last().line
    } else {
        1
    }
}

impl NormalizedSource {
    /// The normalized characters.
    pub fn text(&self) -> (result: Vec<char>)
        ensures
            result.len() == self.units.len(),
            forall|i: int| 0 <= i < result.len() ==> result[i] == #[trigger] self.units@[i].ch,
    {
        let mut result: Vec<char> = Vec::new();
        let mut i: usize = 0;
        while i < self.units.len()
            invariant
                i <= self.units.len(),
                result.len() == i,
                forall|j: int| 0 <= j < i ==> result[j] == #[trigger] self.units@[j].ch,
            decreases self.units.len() - i,
        {
            result.push(self.units[i].ch);
            i = i + 1;
        }
        result
    }

    /// The original byte range of the normalized characters `start..end`.
    pub fn original_span(&self, start: usize, end: usize) -> (result: (usize, usize))
        ensures
            result == original_range(self.units@, self.original_len, start as int, end as int),
    {
        let first = if start < self.units.len() {
            self.units[start].start
        } else {
            self.original_len
        };
        let last_index = if end > 0 {
            end - 1
        } else {
            0
        };
        let last = if end == start {
            first
        } else if last_index < self.units.len() {
            self.units[last_index].end
        } else {
            first
        };
        (first, last)
    }

    /// The physical line of the normalized character at `offset`.
    pub fn physical_line(&self, offset: usize) -> (result: usize)
        ensures
            result == physical_line_at(self.units@, offset as int),
    {
        if offset < self.units.len() {
            self.units[offset].line
        } else if self.units.len() > 0 {
            self.units[self.units.len() - 1].line
        } else {
            1
        }
    }
}

} // verus!


verus! {

/// With trigraph replacement off, the trigraph pass changes nothing.
pub proof fn lemma_disabled_trigraphs_change_nothing(u: Seq<SourceChar>, i: int)
    requires
        0 <= i <= u.len(),
    ensures
        trigraph_units(u, i, false) == u.skip(i),
    decreases u.len() - i,
{
    if i < u.len() {
        lemma_disabled_trigraphs_change_nothing(u, i + 1);
        assert(seq![u[i]] + u.skip(i + 1) =~= u.skip(i));
    } else {
        assert(u.skip(i) =~= Seq::<SourceChar>::empty());
    }
}

/// Without backslashes, splicing changes nothing.
pub proof fn lemma_splicing_without_backslashes(u: Seq<SourceChar>, i: int)
    requires
        0 <= i <= u.len(),
        forall|k: int| 0 <= k < u.len() ==> (#[trigger] u[k]).ch != '\\',
    ensures
        splice_units(u, i) == u.skip(i),
    decreases u.len() - i,
{
    if i < u.len() {
        lemma_splicing_without_backslashes(u, i + 1);
        assert(seq![u[i]] + u.skip(i + 1) =~= u.skip(i));
    } else {
        assert(u.skip(i) =~= Seq::<SourceChar>::empty());
    }
}

} // verus!
