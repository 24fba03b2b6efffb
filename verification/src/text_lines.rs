//! Where the lines of a text start, for `\n`, `\r`, `\r\n` and `\n\r` line endings.

use vstd::prelude::*;
use vstd::string::StringSliceAdditionalSpecFns;
use crate::utf8_text::{sliceable, slice_str, utf8_bytes};

verus! {

/// The length of the line ending at byte `i`: 2 for `\r\n` or `\n\r`, 1 for a lone
/// `\r` or `\n`, 0 when no line ends there.
pub open spec fn line_break_len(b: Seq<u8>, i: int) -> int {
    if b[i] == 13u8 && i + 1 < b.len() && b[i + 1] == 10u8 {
        2
    } else if b[i] == 10u8 && i + 1 < b.len() && b[i + 1] == 13u8 {
        2
    } else if b[i] == 13u8 || b[i] == 10u8 {
        1
    } else {
        0
    }
}

/// The starts of the lines that begin after a line ending found at or beyond byte `i`.
pub open spec fn line_starts_from(b: Seq<u8>, i: int) -> Seq<int>
    decreases b.len() - i,
{
    if i < 0 || i >= b.len() {
        Seq::empty()
    } else if line_break_len(b, i) > 0 {
        seq![i + line_break_len(b, i)] + line_starts_from(b, i + line_break_len(b, i))
    } else {
        line_starts_from(b, i + 1)
    }
}

/// The byte offsets at which the lines of a text start: 0, then after each line ending.
pub open spec fn line_starts(b: Seq<u8>) -> Seq<int> {
    seq![0int] + line_starts_from(b, 0)
}

proof fn lemma_line_starts_from_bounds(b: Seq<u8>, i: int)
    requires
        0 <= i,
    ensures
        forall|k: int|
            0 <= k < line_starts_from(b, i).len() ==> i < #[trigger] line_starts_from(b, i)[k]
                <= b.len(),
        forall|k: int, l: int|
            0 <= k < l < line_starts_from(b, i).len() ==> #[trigger] line_starts_from(b, i)[k]
                < #[trigger] line_starts_from(b, i)[l],
    decreases b.len() - i,
{
    if i >= b.len() {
        assert(line_starts_from(b, i).len() == 0);
    } else if line_break_len(b, i) > 0 {
        let n = i + line_break_len(b, i);
        lemma_line_starts_from_bounds(b, n);
        let rest = line_starts_from(b, n);
        let s = line_starts_from(b, i);
        assert(s == seq![n] + rest);
        assert forall|k: int| 0 <= k < s.len() implies i < #[trigger] s[k] <= b.len() by {
            if k > 0 {
                assert(s[k] == rest[k - 1]);
            }
        }
        assert forall|k: int, l: int| 0 <= k < l < s.len() implies #[trigger] s[k] < #[trigger] s[l] by {
            assert(s[l] == rest[l - 1]);
            if k > 0 {
                assert(s[k] == rest[k - 1]);
            }
        }
    } else {
        lemma_line_starts_from_bounds(b, i + 1);
        assert(line_starts_from(b, i) == line_starts_from(b, i + 1));
    }
}

/// Line starts are strictly increasing, begin at 0 and lie within the text.
pub proof fn lemma_line_starts_sorted(b: Seq<u8>)
    ensures
        line_starts(b)[0] == 0,
        forall|k: int| 0 <= k < line_starts(b).len() ==> 0 <= #[trigger] line_starts(b)[k] <= b.len(),
        forall|k: int, l: int|
            0 <= k < l < line_starts(b).len() ==> #[trigger] line_starts(b)[k] < #[trigger] line_starts(
                b,
            )[l],
{
    lemma_line_starts_from_bounds(b, 0);
    let s = line_starts(b);
    let r = line_starts_from(b, 0);
    assert forall|k: int| 0 <= k < s.len() implies 0 <= #[trigger] s[k] <= b.len() by {
        if k > 0 {
            assert(s[k] == r[k - 1]);
        }
    }
    assert forall|k: int, l: int| 0 <= k < l < s.len() implies #[trigger] s[k] < #[trigger] s[l] by {
        assert(s[l] == r[l - 1]);
        if k > 0 {
            assert(s[k] == r[k - 1]);
        } else {
            assert(r[l - 1] > 0);
        }
    }
}

/// The byte offsets at which the lines of `text` start.
pub fn line_start_offsets(text: &str) -> (r: Vec<usize>)
    ensures
        r@.map_values(|x: usize| x as int) == line_starts(text.spec_bytes()),
{
    let bytes = text.as_bytes();
    let ghost b = text.spec_bytes();
    let mut starts: Vec<usize> = Vec::new();
    starts.push(0);
    let mut index: usize = 0;
    let len = bytes.len();
    while index < len
        invariant
            bytes@ == b,
            len == b.len(),
            index <= len,
            starts@.map_values(|x: usize| x as int) + line_starts_from(b, index as int) == line_starts(
                b,
            ),
        decreases len - index,
    {
        let c = bytes[index];
        if c == 13u8 && index + 1 < len && bytes[index + 1] == 10u8 {
            index += 2;
            starts.push(index);
        } else if c == 10u8 && index + 1 < len && bytes[index + 1] == 13u8 {
            index += 2;
            starts.push(index);
        } else if c == 13u8 || c == 10u8 {
            index += 1;
            starts.push(index);
        } else {
            index += 1;
        }
        proof {
            assert(starts@.map_values(|x: usize| x as int) + line_starts_from(b, index as int)
                =~= line_starts(b));
        }
    }
    proof {
        assert(line_starts_from(b, len as int) =~= Seq::<int>::empty());
        assert(starts@.map_values(|x: usize| x as int) =~= line_starts(b));
    }
    starts
}


/// The bytes `[start, end)` of `s`, or `None` where `str::get` gives none: when
/// `start > end` or either end is not a character boundary of `s`.
pub fn get_slice(s: &str, start: usize, end: usize) -> (r: Option<&str>)
    ensures
        r is Some <==> sliceable(s.spec_bytes(), start as int, end as int),
        r matches Some(t) ==> t.spec_bytes() == s.spec_bytes().subrange(start as int, end as int),
{
    if start <= end && s.is_char_boundary(start) && s.is_char_boundary(end) {
        Some(slice_str(s, start, end))
    } else {
        None
    }
}

/// Where the line numbered `line_i` starts, the end of the text past the last line.
pub open spec fn line_start_at(line_starts: Seq<usize>, line_i: int, text_len: int) -> int {
    if 0 <= line_i < line_starts.len() {
        line_starts[line_i] as int
    } else {
        text_len
    }
}

/// The first byte of its line that a laid-out run covers: its first glyph's start,
/// or, for a run without glyphs, how far the line has been consumed (at most the
/// run's length).
pub open spec fn run_local_start(glyphs: Option<(usize, usize)>, consumed: int, run_len: int) -> int {
    match glyphs {
        Some(g) => g.0 as int,
        None => if consumed < run_len { consumed } else { run_len },
    }
}

/// The end of what a run covers in its line: its last glyph's end, or its start
/// when it has no glyphs.
pub open spec fn run_local_end(glyphs: Option<(usize, usize)>, consumed: int, run_len: int) -> int {
    match glyphs {
        Some(g) => g.1 as int,
        None => run_local_start(glyphs, consumed, run_len),
    }
}

/// The part of a text that one laid-out run shows, for accessibility.
pub struct RunSpan {
    /// Where the run starts in the whole text.
    pub byte_start: usize,
    /// The run's bytes of its line; empty where they do not form a slice of it.
    pub text: String,
    /// How far into the line the runs seen so far reach.
    pub consumed: usize,
}

/// Whether `r` is the span of a run on line `line_i` whose glyphs cover `glyphs` in the
/// line's bytes `run_bytes`, when the runs before it on the line reached `consumed`.
pub open spec fn span_of_run(
    line_starts: Seq<usize>,
    text_len: int,
    line_i: int,
    glyphs: Option<(usize, usize)>,
    consumed: int,
    run_bytes: Seq<u8>,
    r: RunSpan,
) -> bool {
    let len = run_bytes.len() as int;
    let lo = run_local_start(glyphs, consumed, len);
    let hi = run_local_end(glyphs, consumed, len);
    &&& r.byte_start == line_start_at(line_starts, line_i, text_len) + lo
    &&& r.consumed == if consumed < hi { hi } else { consumed }
    &&& sliceable(run_bytes, lo, hi) ==> utf8_bytes(r.text@) == run_bytes.subrange(lo, hi)
    &&& !sliceable(run_bytes, lo, hi) ==> r.text@ == Seq::<char>::empty()
}

/// The span of a run on line `line_i`, whose glyphs cover `glyphs` (the first
/// glyph's start and the last one's end, in bytes of the line `run_text`), when
/// the runs before it on the line reached `consumed`. `line_starts` are the line
/// starts of a text of `text_len` bytes.
pub fn run_span(
    line_starts: &Vec<usize>,
    text_len: usize,
    line_i: usize,
    glyphs: Option<(usize, usize)>,
    consumed: usize,
    run_text: &str,
) -> (r: RunSpan)
    requires
        line_start_at(line_starts@, line_i as int, text_len as int) + run_local_start(
            glyphs,
            consumed as int,
            run_text.spec_bytes().len() as int,
        ) <= usize::MAX,
    ensures
        span_of_run(line_starts@, text_len as int, line_i as int, glyphs, consumed as int, run_text.spec_bytes(), r),
{
    let line_start = if line_i < line_starts.len() {
        line_starts[line_i]
    } else {
        text_len
    };
    let run_len = run_text.as_bytes().len();
    let local_start = match glyphs {
        Some(g) => g.0,
        None => if consumed < run_len { consumed } else { run_len },
    };
    let local_end = match glyphs {
        Some(g) => g.1,
        None => local_start,
    };
    let text = match get_slice(run_text, local_start, local_end) {
        Some(t) => t.to_owned(),
        None => String::new(),
    };
    RunSpan {
        byte_start: line_start + local_start,
        text,
        consumed: if consumed < local_end { local_end } else { consumed },
    }
}

/// A laid-out run as the accessibility spans see it: its line, the byte range its glyphs
/// cover in the line (none without glyphs), and the line's text.
pub type LaidOutRun = (usize, Option<(usize, usize)>, String);

/// How far into its line the runs before run `k` reached: 0 at the first run of a line.
pub open spec fn consumed_before(runs: Seq<LaidOutRun>, k: int) -> int
    decreases k, 0int,
{
    if k <= 0 || runs[k].0 != runs[k - 1].0 {
        0
    } else {
        consumed_after(runs, k - 1)
    }
}

/// How far into its line the runs up to and including run `k` reach.
pub open spec fn consumed_after(runs: Seq<LaidOutRun>, k: int) -> int
    decreases k, 1int,
{
    let c = consumed_before(runs, k);
    let hi = run_local_end(runs[k].1, c, utf8_bytes(runs[k].2@).len() as int);
    if c < hi {
        hi
    } else {
        c
    }
}

/// The spans of the laid-out runs of a text of `text_len` bytes whose lines start at
/// `line_starts`, in order; the count of bytes consumed restarts at each new line. Without
/// runs the result is a single empty span at 0.
pub fn run_spans(line_starts: &Vec<usize>, text_len: usize, runs: &Vec<LaidOutRun>) -> (r: Vec<
    RunSpan,
>)
    requires
        forall|k: int|
            0 <= k < runs.len() ==> line_start_at(line_starts@, #[trigger] runs@[k].0 as int, text_len as int)
                + run_local_start(runs@[k].1, consumed_before(runs@, k), utf8_bytes(runs@[k].2@).len() as int)
                <= usize::MAX,
    ensures
        runs.len() == 0 ==> r.len() == 1 && r@[0].byte_start == 0 && r@[0].text@ == Seq::<char>::empty()
            && r@[0].consumed == 0,
        runs.len() > 0 ==> r.len() == runs.len(),
        forall|k: int|
            0 <= k < runs.len() ==> span_of_run(
                line_starts@,
                text_len as int,
                runs@[k].0 as int,
                runs@[k].1,
                consumed_before(runs@, k),
                utf8_bytes(runs@[k].2@),
                #[trigger] r@[k],
            ),
{
    let mut r: Vec<RunSpan> = Vec::new();
    let mut consumed: usize = 0;
    let n = runs.len();
    let mut k: usize = 0;
    while k < n
        invariant
            n == runs@.len(),
            k <= n,
            r@.len() == k,
            k > 0 ==> consumed == consumed_after(runs@, k - 1),
            forall|j: int|
                0 <= j < n ==> line_start_at(line_starts@, #[trigger] runs@[j].0 as int, text_len as int)
                    + run_local_start(runs@[j].1, consumed_before(runs@, j), utf8_bytes(runs@[j].2@).len() as int)
                    <= usize::MAX,
            forall|j: int|
                0 <= j < k ==> span_of_run(
                    line_starts@,
                    text_len as int,
                    runs@[j].0 as int,
                    runs@[j].1,
                    consumed_before(runs@, j),
                    utf8_bytes(runs@[j].2@),
                    #[trigger] r@[j],
                ),
        decreases n - k,
    {
        let run = &runs[k];
        let start = if k == 0 || run.0 != runs[k - 1].0 {
            0
        } else {
            consumed
        };
        assert(start == consumed_before(runs@, k as int));
        let span = run_span(line_starts, text_len, run.0, run.1, start, run.2.as_str());
        consumed = span.consumed;
        r.push(span);
        proof {
            assert(consumed == consumed_after(runs@, k as int));
        }
        k += 1;
    }
    if n == 0 {
        r.push(RunSpan { byte_start: 0, text: String::new(), consumed: 0 });
    }
    r
}

} // verus!
