//! Source-text model: an immutable character buffer with a precomputed line
//! index, span-to-substring extraction, and binary-search position-to-line
//! lookup.
//!
//! The line index is specified by `lines_of`, a single forward pass that
//! closes a line at every line break (`\r\n` counts as one two-character
//! break) and always appends one final line, so a source ending on a break
//! still yields a trailing empty line.

use crate::plumbing::ObjectKind;
use vstd::prelude::*;

verus! {

/// A half-open `[start, start + length)` range into a source buffer.
#[derive(Debug, Clone, PartialEq, Eq, Structural)]
pub struct TextSpan {
    pub start: usize,
    pub length: usize,
}

impl TextSpan {
    pub fn new(start: usize, length: usize) -> (r: TextSpan)
        ensures
            r.start == start,
            r.length == length,
    {
        TextSpan { start, length }
    }

    /// The exclusive end offset of the span.
    pub fn end(&self) -> (r: usize)
        requires
            self.start + self.length <= usize::MAX,
        ensures
            r == self.start + self.length,
    {
        self.start + self.length
    }

    pub(crate) fn from_bounds(start: usize, end: usize) -> (r: TextSpan)
        requires
            start <= end,
        ensures
            r.start == start,
            r.length == end - start,
    {
        TextSpan { start, length: end - start }
    }
}

/// A named variable as the binder records it: identity is the name; the
/// kind and mutability are fixed when the declaration is first bound.
#[derive(Debug, Clone, PartialEq, Eq, Hash)]
pub struct VariableSymbol {
    pub name: String,
    pub is_read_only: bool,
    pub kind: ObjectKind,
}

/// One line of a source: `length` excludes the trailing line break,
/// `length_including_line_break` includes it.
#[derive(Debug, Clone, Copy, PartialEq, Eq, Structural)]
pub struct TextLine {
    pub start: usize,
    pub length: usize,
    pub length_including_line_break: usize,
}

impl TextLine {
    /// The span of the line's content, without its line break.
    pub fn span(&self) -> (r: TextSpan)
        ensures
            r.start == self.start,
            r.length == self.length,
    {
        TextSpan::new(self.start, self.length)
    }

    /// The span of the line together with its line break.
    pub fn span_including_line_break(&self) -> (r: TextSpan)
        ensures
            r.start == self.start,
            r.length == self.length_including_line_break,
    {
        TextSpan::new(self.start, self.length_including_line_break)
    }

    /// The offset just past the line's content.
    pub fn end(&self) -> (r: usize)
        requires
            self.start + self.length <= usize::MAX,
        ensures
            r == self.start + self.length,
    {
        self.start + self.length
    }
}

/// Width of the line break starting at position `p`: 2 for the pair
/// `\r\n`, 1 for a lone `\r` or `\n`, and 0 otherwise.
pub open spec fn break_width(s: Seq<char>, p: int) -> int {
    if 0 <= p < s.len() && s[p] == '\r' && p + 1 < s.len() && s[p + 1] == '\n' {
        2
    } else if 0 <= p < s.len() && (s[p] == '\r' || s[p] == '\n') {
        1
    } else {
        0
    }
}

/// The lines of `s` from scan position `p`, the current line having begun
/// at `line_start`. A line is closed at every break; one final line is
/// always appended when the scan reaches the end, even if it is empty.
pub open spec fn lines_from(s: Seq<char>, line_start: int, p: int) -> Seq<TextLine>
    decreases s.len() - p,
{
    if p < 0 || p >= s.len() {
        seq![
            TextLine {
                start: line_start as usize,
                length: (p - line_start) as usize,
                length_including_line_break: (p - line_start) as usize,
            },
        ]
    } else {
        let w = break_width(s, p);
        if w == 0 {
            lines_from(s, line_start, p + 1)
        } else {
            seq![
                TextLine {
                    start: line_start as usize,
                    length: (p - line_start) as usize,
                    length_including_line_break: (p - line_start + w) as usize,
                },
            ] + lines_from(s, p + w, p + w)
        }
    }
}

/// The full line decomposition of a source.
pub open spec fn lines_of(s: Seq<char>) -> Seq<TextLine> {
    lines_from(s, 0, 0)
}

/// The lines tile `[from, to]`: the first starts at `from`, each line's
/// break-inclusive length reaches exactly the next line's start, the last
/// line ends at `to`, and every line but the last has a break of width at
/// least one.
pub open spec fn lines_tile(lines: Seq<TextLine>, from: int, to: int) -> bool {
    &&& lines.len() >= 1
    &&& lines[0].start == from
    &&& forall|i: int|
        0 <= i < lines.len() ==> (#[trigger] lines[i]).start + lines[i].length_including_line_break
            == (if i + 1 < lines.len() {
            lines[i + 1].start as int
        } else {
            to
        })
    &&& forall|i: int|
        0 <= i < lines.len() ==> (#[trigger] lines[i]).length
            <= lines[i].length_including_line_break
    &&& forall|i: int|
        0 <= i < lines.len() - 1 ==> (#[trigger] lines[i]).length_including_line_break >= 1
}

/// The sum of `length_including_line_break` over a sequence of lines.
pub open spec fn sum_of_lengths(lines: Seq<TextLine>) -> int
    decreases lines.len(),
{
    if lines.len() == 0 {
        0
    } else {
        sum_of_lengths(lines.drop_last()) + lines.last().length_including_line_break
    }
}

/// The index of the rightmost line whose start is at most `position`,
/// found by a linear scan from the end.
pub open spec fn line_index_of(lines: Seq<TextLine>, position: int) -> int
    decreases lines.len(),
{
    if lines.len() <= 1 {
        0
    } else if lines[lines.len() - 1].start <= position {
        lines.len() - 1
    } else {
        line_index_of(lines.drop_last(), position)
    }
}

/// Line `j` holds position `p`: `p` lies in the line's break-inclusive
/// range, or past the end of text on the final line.
pub open spec fn line_contains(lines: Seq<TextLine>, j: int, p: int) -> bool {
    &&& lines[j].start <= p
    &&& (p < lines[j].start + lines[j].length_including_line_break || j == lines.len() - 1)
}

/// An immutable character buffer and its derived ordered line index, both
/// computed once at construction.
#[derive(Clone)]
pub struct SourceText {
    text: Vec<char>,
    pub lines: Vec<TextLine>,
}

/// Appends a line running from `line_start` to `position` whose break has
/// width `line_break_width`.
fn add_line(
    lines: &mut Vec<TextLine>,
    line_start: usize,
    position: usize,
    line_break_width: usize,
)
    requires
        line_start <= position,
        position + line_break_width <= usize::MAX,
    ensures
        final(lines)@ == old(lines)@.push(
            TextLine {
                start: line_start,
                length: (position - line_start) as usize,
                length_including_line_break: (position - line_start + line_break_width) as usize,
            },
        ),
{
    lines.push(
        TextLine {
            start: line_start,
            length: position - line_start,
            length_including_line_break: position - line_start + line_break_width,
        },
    );
}

/// Relies on String::push: appends the given character to the end of the
/// string.
#[verifier::external_body]
pub(crate) fn push_char(s: &mut String, c: char)
    ensures
        final(s)@ == old(s)@.push(c),
{
    s.push(c);
}

/// Builds the string of the characters of `text` in `[start, end)`.
pub(crate) fn string_of_range(text: &Vec<char>, start: usize, end: usize) -> (r: String)
    requires
        start <= end <= text@.len(),
    ensures
        r@ == text@.subrange(start as int, end as int),
{
    let mut r = String::new();
    let mut i: usize = start;
    while i < end
        invariant
            start <= i <= end <= text@.len(),
            r@ == text@.subrange(start as int, i as int),
        decreases end - i,
    {
        push_char(&mut r, text[i]);
        proof {
            assert(r@ =~= text@.subrange(start as int, i + 1 as int));
        }
        i = i + 1;
    }
    r
}

impl SourceText {
    /// The characters of the source.
    pub closed spec fn chars(&self) -> Seq<char> {
        self.text@
    }

    /// The line index, as a sequence.
    pub closed spec fn lines_view(&self) -> Seq<TextLine> {
        self.lines@
    }

    /// The line index is exactly the line decomposition of the text.
    pub open spec fn wf(&self) -> bool {
        self.lines_view() == lines_of(self.chars())
    }

    fn new(text: Vec<char>) -> (r: SourceText)
        ensures
            r.chars() == text@,
            r.wf(),
    {
        let lines = Self::parse_lines(&text);
        SourceText { lines, text }
    }

    /// Constructs the source text and computes its line index in one
    /// forward pass.
    pub fn from(text: Vec<char>) -> (r: SourceText)
        ensures
            r.chars() == text@,
            r.wf(),
    {
        Self::new(text)
    }

    /// Binary search for the index of the rightmost line whose start is at
    /// most `position`; positions beyond the end of text resolve to the
    /// last line.
    pub fn get_line_index(&self, position: usize) -> (index: usize)
        requires
            self.wf(),
        ensures
            index == line_index_of(self.lines_view(), position as int),
            index < self.lines_view().len(),
            self.lines_view()[index as int].start <= position,
            index + 1 < self.lines_view().len() ==> position < self.lines_view()[
                index as int + 1
            ].start,
    {
        let text_len = self.text.len();
        proof {
            assert(self.chars().len() == text_len as int);
            lemma_lines_from_tile(self.chars(), 0, 0);
            lemma_tile_sorted(self.lines@, 0, self.chars().len() as int);
        }
        let ghost lines = self.lines@;
        let ghost pos = position as int;
        let mut lower: usize = 0;
        let mut upper: usize = self.lines.len() - 1;
        while lower <= upper
            invariant
                lines == self.lines@,
                pos == position as int,
                lines.len() >= 1,
                lines[0].start == 0,
                forall|i: int, j: int|
                    0 <= i < j < lines.len() ==> (#[trigger] lines[i]).start
                        < (#[trigger] lines[j]).start,
                lower <= upper + 1,
                upper < lines.len(),
                lines.len() <= usize::MAX,
                forall|j: int| 0 <= j < lower ==> (#[trigger] lines[j]).start <= pos,
                forall|j: int| upper < j < lines.len() ==> (#[trigger] lines[j]).start > pos,
            decreases upper + 1 - lower,
        {
            let index = lower + (upper - lower) / 2;
            assert(lower <= index && index <= upper);
            let start = self.lines[index].start;
            if start < position {
                proof {
                    assert forall|j: int| 0 <= j < index + 1 implies (#[trigger] lines[j]).start
                        <= pos by {
                        if j < index {
                            assert(lines[j].start < lines[index as int].start);
                        }
                    }
                }
                lower = index + 1;
            } else if start == position {
                proof {
                    if index + 1 < lines.len() {
                        assert(lines[index as int].start < lines[index as int + 1].start);
                    }
                    lemma_line_index_of_characterization(lines, pos, index as int);
                }
                return index;
            } else {
                assert(index >= 1);
                proof {
                    assert forall|j: int| index - 1 < j < lines.len() implies (
                    #[trigger] lines[j]).start > pos by {
                        if j > index {
                            assert(lines[index as int].start < lines[j].start);
                        }
                    }
                }
                upper = index - 1;
            }
        }
        proof {
            assert(lines[lower - 1].start <= pos);
            lemma_line_index_of_characterization(lines, pos, lower - 1);
        }
        lower - 1
    }

    fn parse_lines(text: &Vec<char>) -> (lines: Vec<TextLine>)
        ensures
            lines@ == lines_of(text@),
    {
        let mut lines: Vec<TextLine> = Vec::new();
        let mut line_start: usize = 0;
        let mut position: usize = 0;
        while position < text.len()
            invariant
                line_start <= position <= text@.len(),
                lines_of(text@) == lines@ + lines_from(
                    text@,
                    line_start as int,
                    position as int,
                ),
            decreases text@.len() - position,
        {
            let line_break_width = Self::get_line_break_width(text, position);

            if line_break_width == 0 {
                position += 1;
            } else {
                proof {
                    let l = TextLine {
                        start: line_start,
                        length: (position - line_start) as usize,
                        length_including_line_break: (position - line_start
                            + line_break_width) as usize,
                    };
                    assert(lines@.push(l) + lines_from(
                        text@,
                        position + line_break_width,
                        position + line_break_width,
                    ) =~= lines@ + (seq![l] + lines_from(
                        text@,
                        position + line_break_width,
                        position + line_break_width,
                    )));
                }
                add_line(&mut lines, line_start, position, line_break_width);
                position += line_break_width;
                line_start = position;
            }
        }
        proof {
            let l = TextLine {
                start: line_start,
                length: (position - line_start) as usize,
                length_including_line_break: (position - line_start) as usize,
            };
            assert(lines@.push(l) =~= lines@ + seq![l]);
        }
        if position >= line_start {
            add_line(&mut lines, line_start, position, 0);
        }
        lines
    }

    fn get_line_break_width(text: &Vec<char>, i: usize) -> (w: usize)
        requires
            i < text@.len(),
        ensures
            w == break_width(text@, i as int),
    {
        let n = text.len();
        let c = text[i];
        let l = if n - i <= 1 {
            '\0'
        } else {
            text[i + 1]
        };
        if c == '\r' && l == '\n' {
            2
        } else if c == '\r' || c == '\n' {
            1
        } else {
            0
        }
    }

    /// The characters of the source, as a slice.
    pub fn as_chars(&self) -> (r: &[char])
        ensures
            r@ == self.chars(),
    {
        self.text.as_slice()
    }

    /// The substring covering `[start, start + length)`. The span must lie
    /// within the buffer.
    pub fn to_string_bounded(&self, start: usize, length: usize) -> (r: String)
        requires
            start + length <= self.chars().len(),
        ensures
            r@ == self.chars().subrange(start as int, start + length),
    {
        let n = self.text.len();
        proof {
            assert(self.chars().len() == n as int);
        }
        string_of_range(&self.text, start, start + length)
    }

    /// The substring covering the given span, which must lie within the
    /// buffer.
    pub fn to_string_spanned(&self, span: TextSpan) -> (r: String)
        requires
            span.start + span.length <= self.chars().len(),
        ensures
            r@ == self.chars().subrange(span.start as int, span.start + span.length),
    {
        self.to_string_bounded(span.start, span.length)
    }

    /// The content of a line, without its line break.
    pub fn to_string_line(&self, line: &TextLine) -> (r: String)
        requires
            line.start + line.length <= self.chars().len(),
        ensures
            r@ == self.chars().subrange(line.start as int, line.start + line.length),
    {
        self.to_string_spanned(line.span())
    }

    /// The content of a line together with its line break.
    pub fn to_string_line_including_line_break(&self, line: &TextLine) -> (r: String)
        requires
            line.start + line.length_including_line_break <= self.chars().len(),
        ensures
            r@ == self.chars().subrange(
                line.start as int,
                line.start + line.length_including_line_break,
            ),
    {
        self.to_string_spanned(line.span_including_line_break())
    }
}

/// The line decomposition of any source tiles `[line_start, s.len()]`.
pub proof fn lemma_lines_from_tile(s: Seq<char>, line_start: int, p: int)
    requires
        s.len() <= usize::MAX,
        0 <= line_start <= p <= s.len(),
    ensures
        lines_tile(lines_from(s, line_start, p), line_start, s.len() as int),
    decreases s.len() - p,
{
    if p >= s.len() {
    } else {
        let w = break_width(s, p);
        if w == 0 {
            lemma_lines_from_tile(s, line_start, p + 1);
        } else {
            lemma_lines_from_tile(s, p + w, p + w);
            let l = TextLine {
                start: line_start as usize,
                length: (p - line_start) as usize,
                length_including_line_break: (p - line_start + w) as usize,
            };
            let rest = lines_from(s, p + w, p + w);
            let all = seq![l] + rest;
            assert forall|i: int| 0 <= i < all.len() implies (#[trigger] all[i]).start
                + all[i].length_including_line_break == (if i + 1 < all.len() {
                all[i + 1].start as int
            } else {
                s.len() as int
            }) by {
                if i >= 1 {
                    assert(all[i] == rest[i - 1]);
                    if i + 1 < all.len() {
                        assert(all[i + 1] == rest[i]);
                    }
                }
            }
            assert forall|i: int| 0 <= i < all.len() implies (#[trigger] all[i]).length
                <= all[i].length_including_line_break by {
                if i >= 1 {
                    assert(all[i] == rest[i - 1]);
                }
            }
            assert forall|i: int| 0 <= i < all.len() - 1 implies (#[trigger] all[i]).length_including_line_break >= 1 by {
                if i >= 1 {
                    assert(all[i] == rest[i - 1]);
                }
            }
        }
    }
}

/// In a tiling, starts are strictly increasing.
pub proof fn lemma_tile_sorted(lines: Seq<TextLine>, from: int, to: int)
    requires
        lines_tile(lines, from, to),
    ensures
        forall|i: int, j: int|
            0 <= i < j < lines.len() ==> (#[trigger] lines[i]).start < (#[trigger] lines[j]).start,
{
    assert forall|i: int, j: int| 0 <= i < j < lines.len() implies (#[trigger] lines[i]).start
        < (#[trigger] lines[j]).start by {
        lemma_tile_start_increases(lines, from, to, i, j);
    }
}

proof fn lemma_tile_start_increases(lines: Seq<TextLine>, from: int, to: int, i: int, j: int)
    requires
        lines_tile(lines, from, to),
        0 <= i < j < lines.len(),
    ensures
        lines[i].start < lines[j].start,
    decreases j - i,
{
    if j == i + 1 {
        assert(lines[i].start + lines[i].length_including_line_break == lines[j].start);
        assert(lines[i].length_including_line_break >= 1);
    } else {
        lemma_tile_start_increases(lines, from, to, i, j - 1);
        lemma_tile_start_increases(lines, from, to, j - 1, j);
    }
}

/// Any index satisfying the rightmost-start-at-most-position property is
/// the one the linear scan finds.
proof fn lemma_line_index_of_characterization(lines: Seq<TextLine>, position: int, j: int)
    requires
        forall|a: int, b: int|
            0 <= a < b < lines.len() ==> (#[trigger] lines[a]).start < (#[trigger] lines[b]).start,
        0 <= j < lines.len(),
        lines[j].start <= position,
        j + 1 < lines.len() ==> lines[j + 1].start > position,
    ensures
        line_index_of(lines, position) == j,
    decreases lines.len(),
{
    if j == lines.len() - 1 {
    } else {
        assert(lines[lines.len() - 1].start >= lines[j + 1].start > position);
        let shorter = lines.drop_last();
        assert forall|a: int, b: int| 0 <= a < b < shorter.len() implies (#[trigger] shorter[a]).start < (#[trigger] shorter[b]).start by {
            assert(shorter[a] == lines[a]);
            assert(shorter[b] == lines[b]);
        }
        assert(shorter[j] == lines[j]);
        if j + 1 < shorter.len() {
            assert(shorter[j + 1] == lines[j + 1]);
        }
        lemma_line_index_of_characterization(shorter, position, j);
    }
}

/// Law: the sum of `length_including_line_break` over the lines of any
/// source equals the source length.
pub proof fn lemma_lines_cover_length(s: Seq<char>)
    requires
        s.len() <= usize::MAX,
    ensures
        sum_of_lengths(lines_of(s)) == s.len(),
{
    lemma_lines_from_tile(s, 0, 0);
    lemma_tile_sum(lines_of(s), 0, s.len() as int);
}

/// In a tiling of `[from, to]`, the break-inclusive lengths sum to
/// `to - from`.
proof fn lemma_tile_sum(lines: Seq<TextLine>, from: int, to: int)
    requires
        lines_tile(lines, from, to),
    ensures
        sum_of_lengths(lines) == to - from,
    decreases lines.len(),
{
    if lines.len() == 1 {
        assert(lines[0].start + lines[0].length_including_line_break == to);
        assert(lines.drop_last().len() == 0);
        assert(sum_of_lengths(lines.drop_last()) == 0);
        assert(lines.last() == lines[0]);
    } else {
        let shorter = lines.drop_last();
        let last_start = lines[lines.len() - 1].start as int;
        assert forall|i: int| 0 <= i < shorter.len() implies (#[trigger] shorter[i]).start
            + shorter[i].length_including_line_break == (if i + 1 < shorter.len() {
            shorter[i + 1].start as int
        } else {
            last_start
        }) by {
            assert(shorter[i] == lines[i]);
            if i + 1 < shorter.len() {
                assert(shorter[i + 1] == lines[i + 1]);
            }
        }
        assert forall|i: int| 0 <= i < shorter.len() implies (#[trigger] shorter[i]).length
            <= shorter[i].length_including_line_break by {
            assert(shorter[i] == lines[i]);
        }
        assert forall|i: int| 0 <= i < shorter.len() - 1 implies (#[trigger] shorter[i]).length_including_line_break >= 1 by {
            assert(shorter[i] == lines[i]);
        }
        assert(lines_tile(shorter, from, last_start));
        lemma_tile_sum(shorter, from, last_start);
        assert(sum_of_lengths(lines) == sum_of_lengths(shorter)
            + lines.last().length_including_line_break);
        assert(lines.last() == lines[lines.len() - 1]);
        assert(lines[lines.len() - 1].start + lines[lines.len() - 1].length_including_line_break
            == to);
    }
}

/// Law: every position in `[0, s.len()]` belongs to exactly one line — the
/// line found by the linear scan holds it, and no other line does.
pub proof fn lemma_position_to_unique_line(s: Seq<char>, p: int)
    requires
        s.len() <= usize::MAX,
        0 <= p <= s.len(),
    ensures
        ({
            let lines = lines_of(s);
            let idx = line_index_of(lines, p);
            &&& 0 <= idx < lines.len()
            &&& line_contains(lines, idx, p)
            &&& forall|j: int| 0 <= j < lines.len() && j != idx ==> !line_contains(lines, j, p)
        }),
{
    let lines = lines_of(s);
    lemma_lines_from_tile(s, 0, 0);
    lemma_tile_sorted(lines, 0, s.len() as int);
    let idx = lemma_rightmost_start_at_most(lines, 0, s.len() as int, p);
    lemma_line_index_of_characterization(lines, p, idx);
    assert forall|j: int| 0 <= j < lines.len() && j != idx implies !line_contains(
        lines,
        j,
        p,
    ) by {
        if j < idx {
            lemma_tile_start_increases(lines, 0, s.len() as int, j, idx);
            if j + 1 < lines.len() {
                if j + 1 < idx {
                    lemma_tile_start_increases(lines, 0, s.len() as int, j + 1, idx);
                } else {
                    assert(lines[j + 1].start <= p);
                }
                assert(lines[j].start + lines[j].length_including_line_break
                    == lines[j + 1].start);
            }
        } else {
            assert(lines[j].start > p);
        }
    }
}

/// There is an index whose line start is at most `p` while the next line
/// starts beyond `p`; returns it.
proof fn lemma_rightmost_start_at_most(lines: Seq<TextLine>, from: int, to: int, p: int) -> (idx:
    int)
    requires
        lines_tile(lines, from, to),
        from <= p,
    ensures
        0 <= idx < lines.len(),
        lines[idx].start <= p,
        idx + 1 < lines.len() ==> lines[idx + 1].start > p,
        line_contains(lines, idx, p) || p >= to,
    decreases lines.len(),
{
    let n = lines.len() as int;
    if lines[n - 1].start <= p {
        n - 1
    } else {
        let shorter = lines.drop_last();
        let last_start = lines[n - 1].start as int;
        assert forall|i: int| 0 <= i < shorter.len() implies (#[trigger] shorter[i]).start
            + shorter[i].length_including_line_break == (if i + 1 < shorter.len() {
            shorter[i + 1].start as int
        } else {
            last_start
        }) by {
            assert(shorter[i] == lines[i]);
            if i + 1 < shorter.len() {
                assert(shorter[i + 1] == lines[i + 1]);
            }
        }
        assert forall|i: int| 0 <= i < shorter.len() implies (#[trigger] shorter[i]).length
            <= shorter[i].length_including_line_break by {
            assert(shorter[i] == lines[i]);
        }
        assert forall|i: int| 0 <= i < shorter.len() - 1 implies (#[trigger] shorter[i]).length_including_line_break >= 1 by {
            assert(shorter[i] == lines[i]);
        }
        assert(lines_tile(shorter, from, last_start));
        let idx = lemma_rightmost_start_at_most(shorter, from, last_start, p);
        assert(shorter[idx] == lines[idx]);
        if idx + 1 < shorter.len() {
            assert(shorter[idx + 1] == lines[idx + 1]);
        }
        assert(lines[idx].start + lines[idx].length_including_line_break == (if idx + 1
            < shorter.len() {
            lines[idx + 1].start as int
        } else {
            last_start
        }));
        idx
    }
}

} // verus!
