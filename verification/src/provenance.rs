//! Where in the source text a token or a node came from.

use vstd::prelude::*;

verus! {

/// A span of a source text, from a start position to an end position,
/// both given as a line (from 1) and an offset within the line.
#[derive(Clone, Debug, PartialEq, Eq, Hash)]
pub struct SourceRange {
    pub source_name: String,
    pub start_line: u32,
    pub start_offset: u32,
    pub end_line: u32,
    pub end_offset: u32,
}

/// One position in a source text.
#[derive(Clone, Debug, PartialEq, Eq, Hash)]
pub struct SourceMarker {
    pub source_name: String,
    pub line: u32,
    pub offset: u32,
}

/// Whether `(line, col)` lies between `(start_line, start_offset)` and
/// `(end_line, end_offset)`, both ends included, in reading order.
pub open spec fn spans(
    start_line: u32,
    start_offset: u32,
    end_line: u32,
    end_offset: u32,
    line: u32,
    col: u32,
) -> bool {
    &&& start_line <= line <= end_line
    &&& (line == start_line ==> col >= start_offset)
    &&& (line == end_line ==> col <= end_offset)
}

/// The number of line breaks among the first `n` characters of `text`.
pub open spec fn breaks_before(text: Seq<char>, n: int) -> int
    decreases n,
{
    if n <= 0 || n > text.len() {
        0
    } else {
        breaks_before(text, n - 1) + if text[n - 1] == '\n' {
            1int
        } else {
            0int
        }
    }
}

/// How many line breaks come before line `line`. Lines are counted from
/// 1; line 0 begins where the first line does.
pub open spec fn breaks_before_line(line: u32) -> int {
    if line == 0 {
        0
    } else {
        line - 1
    }
}

/// Whether `i` is where line `line` begins: the first place with as many
/// line breaks before it as come before the line.
pub open spec fn line_starts_at(text: Seq<char>, line: u32, i: int) -> bool {
    &&& 0 <= i <= text.len()
    &&& breaks_before(text, i) == breaks_before_line(line)
    &&& forall|k: int| 0 <= k < i ==> breaks_before(text, k) < breaks_before_line(line)
}

/// Whether the text has a line of that number.
pub open spec fn has_line(text: Seq<char>, line: u32) -> bool {
    breaks_before(text, text.len() as int) >= breaks_before_line(line)
}

/// Where line `line` begins in `text`, when the text has that line.
pub open spec fn line_start(text: Seq<char>, line: u32) -> int {
    choose|i: int| line_starts_at(text, line, i)
}

/// The place of a position as a count of characters from the start of the
/// text: where its line begins, plus its offset. `None` when the text has no
/// such line, or when the sum does not fit the machine word.
pub open spec fn index_of(text: Seq<char>, line: u32, offset: u32) -> Option<usize> {
    if has_line(text, line) && line_start(text, line) + offset <= usize::MAX {
        Some((line_start(text, line) + offset) as usize)
    } else {
        None
    }
}

/// The count of line breaks never falls as the prefix grows.
pub proof fn lemma_breaks_monotone(text: Seq<char>, a: int, b: int)
    requires
        0 <= a <= b <= text.len(),
    ensures
        breaks_before(text, a) <= breaks_before(text, b),
    decreases b - a,
{
    if a < b {
        lemma_breaks_monotone(text, a, b - 1);
    }
}

/// A text has at most one place where a given line begins.
pub proof fn lemma_line_start_unique(text: Seq<char>, line: u32, i: int, j: int)
    requires
        line_starts_at(text, line, i),
        line_starts_at(text, line, j),
    ensures
        i == j,
{
}

impl SourceMarker {
    pub fn new(source_name: String, line: u32, offset: u32) -> (m: SourceMarker)
        ensures
            m.source_name == source_name,
            m.line == line,
            m.offset == offset,
    {
        SourceMarker { source_name, line, offset }
    }

    pub fn line(&self) -> (l: u32)
        ensures
            l == self.line,
    {
        self.line
    }

    pub fn offset(&self) -> (o: u32)
        ensures
            o == self.offset,
    {
        self.offset
    }

    /// The marker's place in `text` as a count of characters from its
    /// start; see `index_of`.
    pub fn index(&self, text: &Vec<char>) -> (r: Option<usize>)
        ensures
            r == index_of(text@, self.line, self.offset),
    {
        let line: u32 = if self.line == 0 {
            1
        } else {
            self.line
        };
        let mut i: usize = 0;
        let mut current_line: u32 = 1;
        let n: usize = text.len();
        while current_line < line && i < n
            invariant
                n == text@.len(),
                0 <= i <= n,
                1 <= current_line <= line,
                line - 1 == breaks_before_line(self.line),
                breaks_before(text@, i as int) == current_line - 1,
                forall|k: int| 0 <= k < i ==> breaks_before(text@, k) < line - 1,
            decreases n - i,
        {
            let c: char = text[i];
            if c == '\n' {
                current_line = current_line + 1;
            }
            i = i + 1;
        }
        if current_line < line {
            return None;
        }
        proof {
            assert(line_starts_at(text@, self.line, i as int));
            lemma_breaks_monotone(text@, i as int, n as int);
            lemma_line_start_unique(text@, self.line, i as int, line_start(text@, self.line));
        }
        let r = i.checked_add(self.offset as usize);
        r
    }

    /// The empty range at this marker.
    pub fn to_range(&self) -> (r: SourceRange)
        ensures
            r.source_name@ == self.source_name@,
            r.start_line == self.line,
            r.start_offset == self.offset,
            r.end_line == self.line,
            r.end_offset == self.offset,
    {
        SourceRange {
            source_name: self.source_name.clone(),
            start_line: self.line,
            start_offset: self.offset,
            end_line: self.line,
            end_offset: self.offset,
        }
    }
}

impl SourceRange {
    /// The range of what stands nowhere in a source: it has no name and
    /// holds line 0 only, where no text is.
    pub fn nowhere() -> (r: SourceRange)
        ensures
            r.source_name@.len() == 0,
            r.start_line == 0,
            r.start_offset == 0,
            r.end_line == 0,
            r.end_offset == 0,
    {
        SourceRange {
            source_name: String::new(),
            start_line: 0,
            start_offset: 0,
            end_line: 0,
            end_offset: 0,
        }
    }

    /// A copy of the range.
    pub fn duplicate(&self) -> (r: SourceRange)
        ensures
            r == *self,
    {
        SourceRange {
            source_name: self.source_name.clone(),
            start_line: self.start_line,
            start_offset: self.start_offset,
            end_line: self.end_line,
            end_offset: self.end_offset,
        }
    }

    /// The range from `start` to the position of `end`.
    pub fn new(start: SourceMarker, end: &SourceMarker) -> (r: SourceRange)
        ensures
            r.source_name == start.source_name,
            r.start_line == start.line,
            r.start_offset == start.offset,
            r.end_line == end.line,
            r.end_offset == end.offset,
    {
        SourceRange::new_offset(start, end.line, end.offset)
    }

    /// The range from `start` to the given line and offset.
    pub fn new_offset(start: SourceMarker, end_line: u32, end_offset: u32) -> (r: SourceRange)
        ensures
            r.source_name == start.source_name,
            r.start_line == start.line,
            r.start_offset == start.offset,
            r.end_line == end_line,
            r.end_offset == end_offset,
    {
        SourceRange {
            source_name: start.source_name,
            start_line: start.line,
            start_offset: start.offset,
            end_line,
            end_offset,
        }
    }

    /// The marker at which the range starts.
    pub fn start(&self) -> (m: SourceMarker)
        ensures
            m.source_name@ == self.source_name@,
            m.line == self.start_line,
            m.offset == self.start_offset,
    {
        SourceMarker {
            source_name: self.source_name.clone(),
            line: self.start_line,
            offset: self.start_offset,
        }
    }

    /// The marker at which the range ends.
    pub fn end(&self) -> (m: SourceMarker)
        ensures
            m.source_name@ == self.source_name@,
            m.line == self.end_line,
            m.offset == self.end_offset,
    {
        SourceMarker {
            source_name: self.source_name.clone(),
            line: self.end_line,
            offset: self.end_offset,
        }
    }

    /// Moves the end of the range to `end`; the start stays.
    pub fn set_end(&mut self, end: SourceMarker)
        ensures
            final(self).end_line == end.line,
            final(self).end_offset == end.offset,
            final(self).start_line == old(self).start_line,
            final(self).start_offset == old(self).start_offset,
            final(self).source_name == old(self).source_name,
    {
        self.end_line = end.line;
        self.end_offset = end.offset;
    }

    /// Whether the range starts and ends at the same position.
    pub fn is_one_char(&self) -> (b: bool)
        ensures
            b == (self.start_line == self.end_line && self.start_offset == self.end_offset),
    {
        self.start_line == self.end_line && self.start_offset == self.end_offset
    }

    /// Whether the position lies within the range, both ends included.
    pub fn contains(&self, line: u32, col: u32) -> (b: bool)
        ensures
            b == spans(
                self.start_line,
                self.start_offset,
                self.end_line,
                self.end_offset,
                line,
                col,
            ),
    {
        line >= self.start_line && line <= self.end_line && (line != self.start_line || col
            >= self.start_offset) && (line != self.end_line || col <= self.end_offset)
    }

    /// The places in `text` of the two ends of the range, when both exist
    /// and the start does not come after the end, nor the end after the
    /// text.
    pub open spec fn bounds(&self, text: Seq<char>) -> Option<(usize, usize)> {
        match (
            index_of(text, self.start_line, self.start_offset),
            index_of(text, self.end_line, self.end_offset),
        ) {
            (Some(s), Some(e)) => if s <= e && e <= text.len() {
                Some((s, e))
            } else {
                None
            },
            _ => None,
        }
    }

    /// The characters of `text` between the start and the end of the
    /// range. `None` when either end has no place in the text or the end
    /// comes first.
    pub fn text(&self, text: &Vec<char>) -> (r: Option<Vec<char>>)
        ensures
            r.is_some() == self.bounds(text@).is_some(),
            r matches Some(t) ==> t@ == text@.subrange(
                self.bounds(text@).unwrap().0 as int,
                self.bounds(text@).unwrap().1 as int,
            ),
    {
        let start = self.start().index(text);
        let end = self.end().index(text);
        match (start, end) {
            (Some(s), Some(e)) => {
                if s <= e && e <= text.len() {
                    let mut out: Vec<char> = Vec::new();
                    let mut i: usize = s;
                    while i < e
                        invariant
                            s <= i <= e <= text@.len(),
                            out@ == text@.subrange(s as int, i as int),
                        decreases e - i,
                    {
                        out.push(text[i]);
                        i = i + 1;
                        assert(out@ =~= text@.subrange(s as int, i as int));
                    }
                    Some(out)
                } else {
                    None
                }
            },
            _ => None,
        }
    }
}

} // verus!
