//! Source files: where each line starts, and human readable positions.

use vstd::prelude::*;
use vstd::utf8::*;
use crate::diagnostics::Loc;
use crate::text::{decimal, push_decimal, push_str, string_from_chars};
use crate::utf8::{byte_offset, lemma_byte_offset_mono, lemma_encode_utf8_take_step, utf8_width};

verus! {

/// How much of the path of a file to show in front of a position.
#[derive(Clone, Copy, Debug, PartialEq, Eq, Structural)]
pub enum PathDisplay {
    /// No path at all.
    NoPath,
    /// The file name only.
    Filename,
    /// The whole path.
    FullPath,
}

/// A source file: its path, the byte offset at which each line after the
/// first starts, the number of the file in the file cache for the top level
/// source unit, and the import it came from.
pub struct File {
    pub path: String,
    pub line_starts: Vec<usize>,
    pub cache_no: Option<usize>,
    pub import_no: Option<usize>,
}

/// The offsets just past each newline among the first `n` characters of `s`.
pub open spec fn line_starts_upto(s: Seq<char>, n: int) -> Seq<usize>
    decreases n,
{
    if n <= 0 {
        Seq::empty()
    } else if s[n - 1] == '\n' {
        line_starts_upto(s, n - 1).push((byte_offset(s, n - 1) + 1) as usize)
    } else {
        line_starts_upto(s, n - 1)
    }
}

/// The offsets at which the lines of `contents` after the first begin.
pub open spec fn line_starts_of(contents: Seq<char>) -> Seq<usize> {
    line_starts_upto(contents, contents.len() as int)
}

/// Strictly increasing, each after the first byte.
pub open spec fn strictly_increasing(starts: Seq<usize>) -> bool {
    forall|i: int, j: int| 0 <= i < j < starts.len() ==> #[trigger] starts[i] < #[trigger] starts[j]
}

/// The number of line starts at or before `loc`: the line of `loc`, from zero.
pub open spec fn line_of(starts: Seq<usize>, loc: usize) -> int
    decreases starts.len(),
{
    if starts.len() == 0 {
        0
    } else if starts.last() <= loc {
        line_of(starts.drop_last(), loc) + 1
    } else {
        line_of(starts.drop_last(), loc)
    }
}

/// The line and column of byte offset `loc`, both from zero.
pub open spec fn line_column(starts: Seq<usize>, loc: usize) -> (usize, usize) {
    let line = line_of(starts, loc);
    if line > 0 {
        (line as usize, (loc - starts[line - 1]) as usize)
    } else {
        (0, loc)
    }
}

/// The byte offset of column `column` of line `line`, both from zero, if the
/// line exists.
pub open spec fn offset_of(starts: Seq<usize>, line: usize, column: usize) -> Option<usize> {
    if line == 0 {
        Some(column)
    } else if line - 1 < starts.len() {
        Some((starts[line - 1] + column) as usize)
    } else {
        None
    }
}

/// In strictly increasing starts, the line of `loc` splits them into those
/// at or before `loc` and those after.
pub proof fn lemma_line_of_split(starts: Seq<usize>, loc: usize)
    requires
        strictly_increasing(starts),
    ensures
        0 <= line_of(starts, loc) <= starts.len(),
        forall|j: int| 0 <= j < line_of(starts, loc) ==> #[trigger] starts[j] <= loc,
        forall|j: int| line_of(starts, loc) <= j < starts.len() ==> #[trigger] starts[j] > loc,
    decreases starts.len(),
{
    if starts.len() > 0 {
        let d = starts.drop_last();
        let n = starts.len() - 1;
        assert(strictly_increasing(d));
        lemma_line_of_split(d, loc);
        assert(forall|j: int| 0 <= j < n ==> #[trigger] d[j] == starts[j]);
        if starts.last() <= loc {
            if line_of(d, loc) < n {
                assert(d[line_of(d, loc)] > loc);
                assert(starts[line_of(d, loc)] < starts[n]);
            }
            assert(line_of(starts, loc) == starts.len());
            assert forall|j: int| 0 <= j < line_of(starts, loc) implies #[trigger] starts[j] <= loc by {
                if j < n {
                    assert(d[j] <= loc);
                }
            }
        } else {
            assert forall|j: int| 0 <= j < line_of(starts, loc) implies #[trigger] starts[j] <= loc by {
                assert(d[j] <= loc);
            }
            assert forall|j: int| line_of(starts, loc) <= j < starts.len() implies #[trigger] starts[j] > loc by {
                if j < n {
                    assert(d[j] > loc);
                }
            }
        }
    }
}

/// Any split point of strictly increasing starts at `loc` is the line of `loc`.
pub proof fn lemma_line_of_unique(starts: Seq<usize>, loc: usize, l: int)
    requires
        strictly_increasing(starts),
        0 <= l <= starts.len(),
        forall|j: int| 0 <= j < l ==> #[trigger] starts[j] <= loc,
        forall|j: int| l <= j < starts.len() ==> #[trigger] starts[j] > loc,
    ensures
        line_of(starts, loc) == l,
{
    lemma_line_of_split(starts, loc);
    let m = line_of(starts, loc);
    if m < l {
        assert(starts[m] <= loc);
    } else if l < m {
        assert(starts[l] > loc);
    }
}

/// The line starts of a prefix are strictly increasing, past every offset
/// before them and at most one past the encoded prefix.
proof fn lemma_line_starts_upto(s: Seq<char>, n: int)
    requires
        0 <= n <= s.len(),
        encode_utf8(s).len() < usize::MAX,
    ensures
        strictly_increasing(line_starts_upto(s, n)),
        forall|j: int| 0 <= j < line_starts_upto(s, n).len()
            ==> 0 < #[trigger] line_starts_upto(s, n)[j] <= byte_offset(s, n),
        line_starts_upto(s, n).len() <= n <= byte_offset(s, n),
    decreases n,
{
    if n > 0 {
        lemma_line_starts_upto(s, n - 1);
        lemma_encode_utf8_take_step(s, n - 1);
        vstd::utf8::char_is_scalar(s[n - 1]);
        lemma_byte_offset_mono(s, n - 1, s.len() as int);
        lemma_byte_offset_mono(s, n, s.len() as int);
        let prev = line_starts_upto(s, n - 1);
        if s[n - 1] == '\n' {
            let cur = line_starts_upto(s, n);
            assert(cur == prev.push((byte_offset(s, n - 1) + 1) as usize));
            assert(forall|j: int| 0 <= j < prev.len() ==> #[trigger] cur[j] == prev[j]);
        }
    }
}

/// Well formed: line starts strictly increasing and after the first byte.
pub open spec fn starts_wf(starts: Seq<usize>) -> bool {
    &&& strictly_increasing(starts)
    &&& forall|j: int| 0 <= j < starts.len() ==> 0 < #[trigger] starts[j]
    &&& starts.len() < usize::MAX
}

/// The last segment of a path that is neither empty nor `.`, scanning from
/// index `k` with the segment so far `cur` and the last such segment `last`.
pub open spec fn last_segment(p: Seq<char>, k: int, cur: Seq<char>, last: Option<Seq<char>>) -> Option<Seq<char>>
    decreases p.len() - k,
{
    if k >= p.len() {
        end_segment(cur, last)
    } else if p[k] == '/' {
        last_segment(p, k + 1, Seq::empty(), end_segment(cur, last))
    } else {
        last_segment(p, k + 1, cur.push(p[k]), last)
    }
}

/// A finished segment replaces the last one unless it is empty or `.`.
pub open spec fn end_segment(cur: Seq<char>, last: Option<Seq<char>>) -> Option<Seq<char>> {
    if cur.len() == 0 || cur == seq!['.'] {
        last
    } else {
        Some(cur)
    }
}

/// The file name of a `/` separated path: its final component, unless the
/// path has none or ends in `..`.
pub open spec fn path_file_name(p: Seq<char>) -> Option<Seq<char>> {
    match last_segment(p, 0, Seq::empty(), None) {
        Some(c) => if c == seq!['.', '.'] { None } else { Some(c) },
        None => None,
    }
}

/// The text in front of a position for `display`.
pub open spec fn path_prefix(path: Seq<char>, display: PathDisplay) -> Seq<char> {
    match display {
        PathDisplay::NoPath => Seq::empty(),
        PathDisplay::Filename => path_file_name(path)->0 + seq![':'],
        PathDisplay::FullPath => path + seq![':'],
    }
}

/// The human readable text for the range from `start` to `end`: line and
/// column from one, the end line or column only where they differ.
pub open spec fn range_text(prefix: Seq<char>, from: (usize, usize), to: (usize, usize)) -> Seq<char> {
    let head = prefix + decimal((from.0 + 1) as nat) + seq![':'] + decimal((from.1 + 1) as nat);
    if from.0 == to.0 && from.1 == to.1 {
        head
    } else if from.0 == to.0 {
        head + seq!['-'] + decimal((to.1 + 1) as nat)
    } else {
        head + seq!['-'] + decimal((to.0 + 1) as nat) + seq![':'] + decimal((to.1 + 1) as nat)
    }
}

fn push_segment(last: &mut Option<Vec<char>>, cur: Vec<char>)
    ensures
        (match *final(last) { Some(v) => Some(v@), None => None::<Seq<char>> }) == end_segment(
            cur@,
            match *old(last) { Some(v) => Some(v@), None => None::<Seq<char>> },
        ),
{
    if cur.len() == 0 || (cur.len() == 1 && cur[0] == '.') {
        assert(cur.len() == 0 || cur@ =~= seq!['.']);
    } else {
        assert(cur@ != seq!['.']);
        *last = Some(cur);
    }
}

impl File {
    /// A file at `path` holding `contents`.
    pub fn new(path: String, contents: &str, cache_no: usize, import_no: Option<usize>) -> (res: File)
        requires
            encode_utf8(contents@).len() < usize::MAX,
        ensures
            res.path@ == path@,
            res.line_starts@ == line_starts_of(contents@),
            res.cache_no == Some(cache_no),
            res.import_no == import_no,
            starts_wf(res.line_starts@),
    {
        let chars = crate::text::chars_of(contents);
        let mut line_starts: Vec<usize> = Vec::new();
        let mut offset: usize = 0;
        let mut k: usize = 0;
        while k < chars.len()
            invariant
                chars@ == contents@,
                k <= chars@.len(),
                offset == byte_offset(chars@, k as int),
                encode_utf8(chars@).len() < usize::MAX,
                line_starts@ == line_starts_upto(chars@, k as int),
            decreases chars@.len() - k,
        {
            proof {
                vstd::utf8::char_is_scalar(chars@[k as int]);
                lemma_encode_utf8_take_step(chars@, k as int);
                lemma_byte_offset_mono(chars@, k as int + 1, chars@.len() as int);
            }
            let c = chars[k];
            if c == '\n' {
                line_starts.push(offset + 1);
            }
            let width = utf8_width(c as u32);
            offset = offset + width;
            k = k + 1;
        }
        proof {
            lemma_line_starts_upto(chars@, chars@.len() as int);
            assert(chars@.take(chars@.len() as int) =~= chars@);
        }
        File { path, line_starts, cache_no: Some(cache_no), import_no }
    }

    /// Convert an offset to line and column number, based zero.
    pub fn offset_to_line_column(&self, loc: usize) -> (res: (usize, usize))
        requires
            starts_wf(self.line_starts@),
        ensures
            res == line_column(self.line_starts@, loc),
    {
        let ghost starts = self.line_starts@;
        let mut lo: usize = 0;
        let mut hi: usize = self.line_starts.len();
        while lo < hi
            invariant
                starts == self.line_starts@,
                starts_wf(starts),
                lo <= hi <= starts.len(),
                forall|j: int| 0 <= j < lo ==> #[trigger] starts[j] <= loc,
                forall|j: int| hi <= j < starts.len() ==> #[trigger] starts[j] > loc,
            decreases hi - lo,
        {
            let mid = lo + (hi - lo) / 2;
            if loc >= self.line_starts[mid] {
                assert forall|j: int| 0 <= j < mid + 1 implies #[trigger] starts[j] <= loc by {
                    if j < mid {
                        assert(starts[j] < starts[mid as int]);
                    }
                }
                lo = mid + 1;
            } else {
                assert forall|j: int| mid <= j < starts.len() implies #[trigger] starts[j] > loc by {
                    if j > mid {
                        assert(starts[mid as int] < starts[j]);
                    }
                }
                hi = mid;
            }
        }
        proof {
            lemma_line_of_unique(starts, loc, lo as int);
        }
        let line_no = lo;
        let col_no = if line_no > 0 {
            loc - self.line_starts[line_no - 1]
        } else {
            loc
        };
        (line_no, col_no)
    }

    /// Convert line + char to offset.
    pub fn get_offset(&self, line_no: usize, column_no: usize) -> (res: Option<usize>)
        requires
            line_no == 0 || line_no - 1 >= self.line_starts@.len()
                || self.line_starts@[line_no - 1] + column_no <= usize::MAX,
        ensures
            res == offset_of(self.line_starts@, line_no, column_no),
    {
        if line_no == 0 {
            Some(column_no)
        } else if line_no - 1 < self.line_starts.len() {
            Some(self.line_starts[line_no - 1] + column_no)
        } else {
            None
        }
    }

    /// The final component of the path of this file.
    pub fn file_name(&self) -> (res: String)
        requires
            path_file_name(self.path@) is Some,
        ensures
            res@ == path_file_name(self.path@)->0,
    {
        let p = crate::text::chars_of(self.path.as_str());
        let mut last: Option<Vec<char>> = None;
        let mut cur: Vec<char> = Vec::new();
        let mut k: usize = 0;
        while k < p.len()
            invariant
                k <= p@.len(),
                p@ == self.path@,
                last_segment(p@, 0, Seq::empty(), None) == last_segment(
                    p@,
                    k as int,
                    cur@,
                    match last { Some(v) => Some(v@), None => None::<Seq<char>> },
                ),
            decreases p@.len() - k,
        {
            if p[k] == '/' {
                let finished = cur;
                cur = Vec::new();
                push_segment(&mut last, finished);
                assert(cur@ =~= Seq::<char>::empty());
            } else {
                cur.push(p[k]);
            }
            k = k + 1;
        }
        push_segment(&mut last, cur);
        match last {
            Some(v) => string_from_chars(&v),
            None => String::new(),
        }
    }

    /// Give a position as a human readable position.
    #[verifier::spinoff_prover]
    #[verifier::rlimit(40)]
    pub fn loc_to_string(&self, display: PathDisplay, start: usize, end: usize) -> (res: String)
        requires
            starts_wf(self.line_starts@),
            start < usize::MAX,
            end < usize::MAX,
            display == PathDisplay::Filename ==> path_file_name(self.path@) is Some,
        ensures
            res@ == range_text(
                path_prefix(self.path@, display),
                line_column(self.line_starts@, start),
                line_column(self.line_starts@, end),
            ),
    {
        let (from_line, from_column) = self.offset_to_line_column(start);
        let (to_line, to_column) = self.offset_to_line_column(end);
        proof {
            lemma_line_of_split(self.line_starts@, start);
            lemma_line_of_split(self.line_starts@, end);
        }
        let mut out: Vec<char> = Vec::new();
        match display {
            PathDisplay::NoPath => {},
            PathDisplay::Filename => {
                let name = self.file_name();
                push_str(&mut out, name.as_str());
                out.push(':');
            },
            PathDisplay::FullPath => {
                push_str(&mut out, self.path.as_str());
                out.push(':');
            },
        }
        assert(out@ =~= path_prefix(self.path@, display));
        push_decimal(&mut out, from_line + 1);
        out.push(':');
        push_decimal(&mut out, from_column + 1);
        if from_line == to_line && from_column == to_column {
        } else if from_line == to_line {
            out.push('-');
            push_decimal(&mut out, to_column + 1);
        } else {
            out.push('-');
            push_decimal(&mut out, to_line + 1);
            out.push(':');
            push_decimal(&mut out, to_column + 1);
        }
        assert(out@ =~= range_text(
            path_prefix(self.path@, display),
            line_column(self.line_starts@, start),
            line_column(self.line_starts@, end),
        ));
        string_from_chars(&out)
    }
}

/// A byte offset turned into a line and column and back is the same offset.
pub proof fn law_offset_line_column_roundtrip(starts: Seq<usize>, loc: usize)
    requires
        starts_wf(starts),
    ensures
        offset_of(starts, line_column(starts, loc).0, line_column(starts, loc).1) == Some(loc),
{
    lemma_line_of_split(starts, loc);
}

/// A line and a column within that line turned into a byte offset and back
/// are the same line and column.
pub proof fn law_line_column_offset_roundtrip(starts: Seq<usize>, line: usize, column: usize)
    requires
        starts_wf(starts),
        line <= starts.len(),
        line == 0 || starts[line - 1] + column <= usize::MAX,
        line < starts.len() ==> offset_of(starts, line, column)->0 < starts[line as int],
    ensures
        offset_of(starts, line, column) is Some,
        line_column(starts, offset_of(starts, line, column)->0) == (line, column),
{
    let loc = offset_of(starts, line, column)->0;
    assert forall|j: int| 0 <= j < line implies #[trigger] starts[j] <= loc by {
        if j < line - 1 {
            assert(starts[j] < starts[line - 1]);
        }
    }
    assert forall|j: int| line <= j < starts.len() implies #[trigger] starts[j] > loc by {
        if j > line {
            assert(starts[line as int] < starts[j]);
        }
    }
    lemma_line_of_unique(starts, loc, line as int);
}

/// Every line start of a file is at the start of its own line: line `i + 1`,
/// column 0.
pub proof fn law_line_start_is_column_zero(starts: Seq<usize>, i: int)
    requires
        starts_wf(starts),
        0 <= i < starts.len(),
    ensures
        line_column(starts, starts[i]) == ((i + 1) as usize, 0usize),
{
    law_line_column_offset_roundtrip(starts, (i + 1) as usize, 0);
}

} // verus!
