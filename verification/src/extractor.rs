//! Finds the annotated `sub` definitions of a Perl source file.

use vstd::prelude::*;

use crate::text::{copy_string, decimal, push_str, push_string, push_u64};

verus! {

/// An annotated function as found in a source file: its name, its
/// annotation lines, the text of its body and the line of its `sub`.
#[derive(Debug, PartialEq, Eq)]
pub struct ExtractedFunction {
    pub name: String,
    pub annotations: Vec<String>,
    pub body: String,
    pub start_line: usize,
}

impl ExtractedFunction {
    /// A copy of the function.
    pub fn duplicate(&self) -> (r: Self)
        ensures
            r.name@ == self.name@,
            r.body@ == self.body@,
            r.start_line == self.start_line,
            r.annotations@.len() == self.annotations@.len(),
            forall|i: int| 0 <= i < self.annotations@.len() ==> (#[trigger] r.annotations@[i])@ == self.annotations@[i]@,
    {
        let mut annotations: Vec<String> = Vec::new();
        let mut i: usize = 0;
        while i < self.annotations.len()
            invariant
                i <= self.annotations@.len(),
                annotations@.len() == i,
                forall|j: int| 0 <= j < i ==> (#[trigger] annotations@[j])@ == self.annotations@[j]@,
            decreases self.annotations.len() - i,
        {
            annotations.push(copy_string(&self.annotations[i]));
            i += 1;
        }
        ExtractedFunction {
            name: copy_string(&self.name),
            annotations,
            body: copy_string(&self.body),
            start_line: self.start_line,
        }
    }
}

} // verus!

verus! {

/// A source file whose annotation blocks are not each followed by a `sub`.
#[derive(Debug, PartialEq, Eq)]
pub enum ExtractorError {
    MissingSub { line: usize },
    InvalidSubHeader { line: usize, header: String },
    UnmatchedBraces { function: String, line: usize },
}

impl ExtractorError {
    /// The text that reports the error.
    pub open spec fn describe(&self) -> Seq<char> {
        match self {
            ExtractorError::MissingSub { line } => "annotation block at line "@ + decimal(*line as nat) + " must be followed immediately by `sub NAME {`"@,
            ExtractorError::InvalidSubHeader { line, header } => "invalid sub declaration at line "@ + decimal(*line as nat) + ": "@ + header@,
            ExtractorError::UnmatchedBraces { function, line } => "function `"@ + function@ + "` starting at line "@ + decimal(*line as nat) + " has unmatched braces"@,
        }
    }

    /// The text that reports the error.
    pub fn message(&self) -> (r: String)
        ensures
            r@ == self.describe(),
    {
        match self {
            ExtractorError::MissingSub { line } => {
                let mut m = String::new();
                push_str(&mut m, "annotation block at line ");
                push_u64(&mut m, *line as u64);
                push_str(&mut m, " must be followed immediately by `sub NAME {`");
                m
            },
            ExtractorError::InvalidSubHeader { line, header } => {
                let mut m = String::new();
                push_str(&mut m, "invalid sub declaration at line ");
                push_u64(&mut m, *line as u64);
                push_str(&mut m, ": ");
                push_string(&mut m, header);
                m
            },
            ExtractorError::UnmatchedBraces { function, line } => {
                let mut m = String::new();
                push_str(&mut m, "function `");
                push_string(&mut m, function);
                push_str(&mut m, "` starting at line ");
                push_u64(&mut m, *line as u64);
                push_str(&mut m, " has unmatched braces");
                m
            },
        }
    }
}

/// The end of the line that starts at `start` and stops at `end`, without a
/// `\r` just before `end`.
pub open spec fn line_end(s: Seq<char>, start: int, end: int) -> int {
    if end > start && s[end - 1] == '\r' {
        end - 1
    } else {
        end
    }
}

/// The bounds of the lines of `s` from position `i` on, where the current
/// line began at `start`: each line without its `\n` or a `\r` before it,
/// and a last line without a `\n` when it is not empty.
pub open spec fn lines_from(s: Seq<char>, start: int, i: int) -> Seq<(int, int)>
    decreases s.len() - i,
{
    if i >= s.len() {
        if start < s.len() {
            seq![(start, line_end(s, start, s.len() as int))]
        } else {
            Seq::empty()
        }
    } else if s[i] == '\n' {
        seq![(start, line_end(s, start, i))] + lines_from(s, i + 1, i + 1)
    } else {
        lines_from(s, start, i + 1)
    }
}

/// The bounds of the lines of `s`.
pub open spec fn lines_of(s: Seq<char>) -> Seq<(int, int)> {
    lines_from(s, 0, 0)
}

/// Line bounds as integers.
pub open spec fn bounds(v: Seq<(usize, usize)>) -> Seq<(int, int)> {
    Seq::new(v.len(), |k: int| (v[k].0 as int, v[k].1 as int))
}

/// The bounds of each line of `chars`, without its `\n` or a `\r` before it.
fn line_bounds(chars: &Vec<char>) -> (r: Vec<(usize, usize)>)
    ensures
        bounds(r@) == lines_of(chars@),
        forall|i: int| 0 <= i < r@.len() ==> (#[trigger] r@[i]).0 <= r@[i].1 <= chars@.len(),
{
    let n = chars.len();
    let mut out: Vec<(usize, usize)> = Vec::new();
    let mut start: usize = 0;
    let mut i: usize = 0;
    proof {
        assert(bounds(out@) =~= Seq::<(int, int)>::empty());
        assert(lines_of(chars@) =~= bounds(out@) + lines_from(chars@, 0, 0));
    }
    while i < n
        invariant
            start <= i <= n,
            n == chars@.len(),
            lines_of(chars@) == bounds(out@) + lines_from(chars@, start as int, i as int),
            forall|k: int| 0 <= k < out@.len() ==> (#[trigger] out@[k]).0 <= out@[k].1 <= n,
        decreases n - i,
    {
        if chars[i] == '\n' {
            let end = if i > start && chars[i - 1] == '\r' { i - 1 } else { i };
            proof {
                let rest = lines_from(chars@, i + 1, i + 1);
                assert(bounds(out@.push((start, end))) =~= bounds(out@).push((start as int, end as int)));
                assert(bounds(out@) + (seq![(start as int, end as int)] + rest) =~= bounds(out@).push(
                    (start as int, end as int),
                ) + rest);
            }
            out.push((start, end));
            start = i + 1;
        }
        i += 1;
    }
    if start < n {
        let end = if n > start && chars[n - 1] == '\r' { n - 1 } else { n };
        proof {
            assert(bounds(out@.push((start, end))) =~= bounds(out@).push((start as int, end as int)));
            assert(bounds(out@) + seq![(start as int, end as int)] =~= bounds(out@).push((start as int, end as int)));
        }
        out.push((start, end));
    } else {
        proof {
            assert(bounds(out@) + Seq::<(int, int)>::empty() =~= bounds(out@));
        }
    }
    out
}

/// The first position of `s[a..b]` that is not a space, or `b`.
pub open spec fn text_start(s: Seq<char>, a: int, b: int) -> int
    decreases b - a,
{
    if a < b && crate::text::is_space(s[a]) {
        text_start(s, a + 1, b)
    } else {
        a
    }
}

/// The end of `s[a..b]` without its trailing spaces.
pub open spec fn text_end(s: Seq<char>, a: int, b: int) -> int
    decreases b - a,
{
    if a < b && crate::text::is_space(s[b - 1]) {
        text_end(s, a, b - 1)
    } else {
        b
    }
}

/// Decides `text_start`.
pub(crate) fn skip_spaces(chars: &Vec<char>, start: usize, end: usize) -> (r: usize)
    requires
        start <= end <= chars@.len(),
    ensures
        r == text_start(chars@, start as int, end as int),
        start <= r <= end,
{
    let mut a = start;
    while a < end && crate::text::space(chars[a])
        invariant
            start <= a <= end <= chars@.len(),
            text_start(chars@, start as int, end as int) == text_start(chars@, a as int, end as int),
        decreases end - a,
    {
        a += 1;
    }
    a
}

/// Decides `text_end`.
pub(crate) fn drop_spaces(chars: &Vec<char>, start: usize, end: usize) -> (r: usize)
    requires
        start <= end <= chars@.len(),
    ensures
        r == text_end(chars@, start as int, end as int),
        start <= r <= end,
{
    let mut b = end;
    while b > start && crate::text::space(chars[b - 1])
        invariant
            start <= b <= end <= chars@.len(),
            text_end(chars@, start as int, end as int) == text_end(chars@, start as int, b as int),
        decreases b,
    {
        b -= 1;
    }
    b
}

/// The first position of `s[a..b]` that holds `{`, or `None`.
pub open spec fn brace_in(s: Seq<char>, a: int, b: int) -> Option<int>
    decreases b - a,
{
    if a >= b {
        None
    } else if s[a] == '{' {
        Some(a)
    } else {
        brace_in(s, a + 1, b)
    }
}

/// Whether `s[a..b]` holds a space.
pub open spec fn has_space(s: Seq<char>, a: int, b: int) -> bool {
    exists|k: int| a <= k < b && crate::text::is_space(#[trigger] s[k])
}

/// The name and the position of the brace of a line `sub NAME {` that is
/// `s[a..b]`: with the spaces around the line and around the name dropped,
/// the line starts with `sub `, has a `{` after it, nothing but spaces after
/// the brace, and a name between with no space in it.
pub open spec fn sub_header(s: Seq<char>, a: int, b: int) -> Option<(Seq<char>, int)> {
    let ta = text_start(s, a, b);
    let tb = text_end(s, ta, b);
    if !crate::text::has_prefix(s, ta, tb, "sub "@) {
        None
    } else {
        match brace_in(s, ta + 4, tb) {
            None => None,
            Some(brace) => {
                let na = text_start(s, ta + 4, brace);
                let nb = text_end(s, na, brace);
                if text_start(s, brace + 1, tb) < text_end(s, text_start(s, brace + 1, tb), tb) || na >= nb
                    || has_space(s, na, nb) {
                    None
                } else {
                    Some((s.subrange(na, nb), brace))
                }
            },
        }
    }
}

/// Decides `brace_in`.
fn find_brace(chars: &Vec<char>, a: usize, b: usize) -> (r: Option<usize>)
    requires
        a <= b <= chars@.len(),
    ensures
        r == (match brace_in(chars@, a as int, b as int) {
            Some(k) => Some(k as usize),
            None => None::<usize>,
        }),
        r matches Some(k) ==> a <= k < b && brace_in(chars@, a as int, b as int) == Some(k as int),
{
    let mut k = a;
    while k < b
        invariant
            a <= k <= b <= chars@.len(),
            brace_in(chars@, a as int, b as int) == brace_in(chars@, k as int, b as int),
        decreases b - k,
    {
        if chars[k] == '{' {
            return Some(k);
        }
        k += 1;
    }
    None
}

/// The name in a `sub NAME {` line, with nothing after the brace.
#[verifier::loop_isolation(false)]
fn parse_sub_header(chars: &Vec<char>, start: usize, end: usize) -> (r: Option<(String, usize)>)
    requires
        start <= end <= chars@.len(),
    ensures
        match sub_header(chars@, start as int, end as int) {
            Some((name, brace)) => r matches Some((n, k)) && n@ == name && k == brace && start <= k < end
                && chars@[k as int] == '{',
            None => r is None,
        },
{
    let a = skip_spaces(chars, start, end);
    let b = drop_spaces(chars, a, end);
    proof {
        reveal_strlit("sub ");
    }
    if !crate::text::starts_with_at(chars, a, b, "sub ") {
        return None;
    }
    let brace = match find_brace(chars, a + 4, b) {
        Some(k) => k,
        None => {
            return None;
        },
    };
    proof {
        lemma_brace_found(chars@, (a + 4) as int, b as int);
    }
    let ta = skip_spaces(chars, brace + 1, b);
    let tb = drop_spaces(chars, ta, b);
    if ta < tb {
        return None;
    }
    let na = skip_spaces(chars, a + 4, brace);
    let nb = drop_spaces(chars, na, brace);
    if na >= nb {
        return None;
    }
    let mut k = na;
    while k < nb
        invariant
            na <= k <= nb <= chars@.len(),
            forall|j: int| na <= j < k ==> !crate::text::is_space(#[trigger] chars@[j]),
        decreases nb - k,
    {
        if crate::text::space(chars[k]) {
            return None;
        }
        k += 1;
    }
    Some((crate::text::slice_string(chars, na, nb), brace))
}

/// A brace found in `s[a..b]` is a `{` within it.
proof fn lemma_brace_found(s: Seq<char>, a: int, b: int)
    ensures
        brace_in(s, a, b) matches Some(k) ==> a <= k < b && s[k] == '{',
    decreases b - a,
{
    if a < b && s[a] != '{' {
        lemma_brace_found(s, a + 1, b);
    }
}

/// The position of the `}` that closes a brace, scanning from `i` with
/// `depth` braces open.
pub open spec fn brace_close(s: Seq<char>, i: int, depth: int) -> Option<int>
    decreases s.len() - i,
{
    if i >= s.len() {
        None
    } else if s[i] == '{' {
        brace_close(s, i + 1, depth + 1)
    } else if s[i] == '}' {
        if depth <= 1 {
            Some(i)
        } else {
            brace_close(s, i + 1, depth - 1)
        }
    } else {
        brace_close(s, i + 1, depth)
    }
}

/// A closing position is a position after `i` within `s`.
proof fn lemma_brace_close_bounds(s: Seq<char>, i: int, depth: int)
    ensures
        brace_close(s, i, depth) matches Some(k) ==> i <= k < s.len(),
    decreases s.len() - i,
{
    if i < s.len() {
        if s[i] == '{' {
            lemma_brace_close_bounds(s, i + 1, depth + 1);
        } else if s[i] == '}' {
            if depth > 1 {
                lemma_brace_close_bounds(s, i + 1, depth - 1);
            }
        } else {
            lemma_brace_close_bounds(s, i + 1, depth);
        }
    }
}

/// The position of the `}` that closes the `{` at `open`.
fn find_matching_brace(chars: &Vec<char>, open: usize) -> (r: Option<usize>)
    requires
        open < chars.len(),
        chars@[open as int] == '{',
    ensures
        r == (match brace_close(chars@, open + 1, 1) {
            Some(k) => Some(k as usize),
            None => None::<usize>,
        }),
        r matches Some(k) ==> open < k < chars@.len() && brace_close(chars@, open + 1, 1) == Some(k as int),
{
    proof {
        lemma_brace_close_bounds(chars@, open + 1, 1);
    }
    let mut depth: usize = 1;
    let mut i = open + 1;
    while i < chars.len()
        invariant
            open < i <= chars.len(),
            1 <= depth <= i - open,
            brace_close(chars@, open + 1, 1) == brace_close(chars@, i as int, depth as int),
        decreases chars.len() - i,
    {
        let c = chars[i];
        if c == '{' {
            depth += 1;
        } else if c == '}' {
            if depth <= 1 {
                return Some(i);
            }
            depth -= 1;
        }
        i += 1;
    }
    None
}

/// The number of line breaks in `s[..end]`.
pub open spec fn breaks_before(s: Seq<char>, end: int) -> int
    decreases end,
{
    if end <= 0 {
        0
    } else {
        breaks_before(s, end - 1) + if s[end - 1] == '\n' { 1int } else { 0int }
    }
}

/// The number of line breaks before position `end`.
fn line_index(chars: &Vec<char>, end: usize) -> (r: usize)
    requires
        end < chars.len(),
    ensures
        r == breaks_before(chars@, end as int),
        r <= end,
{
    let mut count: usize = 0;
    let mut i: usize = 0;
    while i < end
        invariant
            i <= end < chars.len(),
            count == breaks_before(chars@, i as int),
            count <= i,
        decreases end - i,
    {
        if chars[i] == '\n' {
            count += 1;
        }
        i += 1;
    }
    count
}

} // verus!

verus! {

/// An extracted function as a value.
pub struct ExtractedView {
    pub name: Seq<char>,
    pub annotations: Seq<Seq<char>>,
    pub body: Seq<char>,
    pub start_line: usize,
}

impl View for ExtractedFunction {
    type V = ExtractedView;

    open spec fn view(&self) -> ExtractedView {
        ExtractedView {
            name: self.name@,
            annotations: self.annotations@.map_values(|a: String| a@),
            body: self.body@,
            start_line: self.start_line,
        }
    }
}

/// An extraction error as a value.
pub enum ExtractFailure {
    MissingSub(usize),
    InvalidSubHeader(usize, Seq<char>),
    UnmatchedBraces(Seq<char>, usize),
}

impl View for ExtractorError {
    type V = ExtractFailure;

    open spec fn view(&self) -> ExtractFailure {
        match self {
            ExtractorError::MissingSub { line } => ExtractFailure::MissingSub(*line),
            ExtractorError::InvalidSubHeader { line, header } => ExtractFailure::InvalidSubHeader(*line, header@),
            ExtractorError::UnmatchedBraces { function, line } => ExtractFailure::UnmatchedBraces(function@, *line),
        }
    }
}

/// The line `l` of `s` is a comment: its first non-space character is `#`.
pub open spec fn is_comment_line(s: Seq<char>, l: (int, int)) -> bool {
    let t = text_start(s, l.0, l.1);
    t < l.1 && s[t] == '#'
}

/// The line `l` of `s` opens an annotation block: after its leading spaces it starts with `# sig:`.
pub open spec fn is_sig_line(s: Seq<char>, l: (int, int)) -> bool {
    crate::text::has_prefix(s, text_start(s, l.0, l.1), l.1, crate::annotations::SIG_PREFIX@)
}

/// The first line from `i` on that is not a comment.
pub open spec fn block_end(s: Seq<char>, lines: Seq<(int, int)>, i: int) -> int
    decreases lines.len() - i,
{
    if 0 <= i < lines.len() && is_comment_line(s, lines[i]) {
        block_end(s, lines, i + 1)
    } else {
        i
    }
}

/// The block from a line reaches at least that line.
pub proof fn lemma_block_end(s: Seq<char>, lines: Seq<(int, int)>, i: int)
    ensures
        block_end(s, lines, i) >= i,
    decreases lines.len() - i,
{
    if 0 <= i < lines.len() && is_comment_line(s, lines[i]) {
        lemma_block_end(s, lines, i + 1);
    }
}

/// The line to resume at after a function whose header is line `stop` and
/// whose body closes at position `close`.
pub open spec fn resume_line(s: Seq<char>, lines: Seq<(int, int)>, stop: int, close: int) -> int {
    let end_line = breaks_before(s, close);
    let next = if end_line < stop { stop + 1 } else { end_line + 1 };
    if next > lines.len() { lines.len() as int } else { next }
}

/// The annotated functions of `s`, whose lines are `lines`, from line `index` on,
/// or the first error met there.
pub open spec fn extract_from(s: Seq<char>, lines: Seq<(int, int)>, index: int) -> Result<Seq<ExtractedView>, ExtractFailure>
    decreases lines.len() - index,
{
    if index < 0 || index >= lines.len() {
        Ok(Seq::empty())
    } else if !is_sig_line(s, lines[index]) {
        extract_from(s, lines, index + 1)
    } else {
        let stop = block_end(s, lines, index);
        proof {
            lemma_block_end(s, lines, index);
        }
        if stop >= lines.len() {
            Err(ExtractFailure::MissingSub((index + 1) as usize))
        } else {
            match sub_header(s, lines[stop].0, lines[stop].1) {
                None => Err(
                    ExtractFailure::InvalidSubHeader((stop + 1) as usize, s.subrange(lines[stop].0, lines[stop].1)),
                ),
                Some((name, brace)) => match brace_close(s, brace + 1, 1) {
                    None => Err(ExtractFailure::UnmatchedBraces(name, (stop + 1) as usize)),
                    Some(close) => {
                        let f = ExtractedView {
                            name,
                            annotations: Seq::new(
                                (stop - index) as nat,
                                |k: int| s.subrange(lines[index + k].0, lines[index + k].1),
                            ),
                            body: s.subrange(brace + 1, close),
                            start_line: (stop + 1) as usize,
                        };
                        match extract_from(s, lines, resume_line(s, lines, stop, close)) {
                            Ok(rest) => Ok(seq![f] + rest),
                            Err(e) => Err(e),
                        }
                    },
                },
            }
        }
    }
}

/// The functions found before a point, followed by the outcome from that point on.
pub open spec fn after_found(
    found: Seq<ExtractedView>,
    rest: Result<Seq<ExtractedView>, ExtractFailure>,
) -> Result<Seq<ExtractedView>, ExtractFailure> {
    match rest {
        Ok(r) => Ok(found + r),
        Err(e) => Err(e),
    }
}

/// Whether line `index` of `chars` is a comment.
fn comment_line(chars: &Vec<char>, lines: &Vec<(usize, usize)>, index: usize) -> (r: bool)
    requires
        index < lines@.len(),
        forall|i: int| 0 <= i < lines@.len() ==> (#[trigger] lines@[i]).0 <= lines@[i].1 <= chars@.len(),
    ensures
        r == is_comment_line(chars@, bounds(lines@)[index as int]),
{
    let (a, b) = lines[index];
    let t = skip_spaces(chars, a, b);
    t < b && chars[t] == '#'
}

/// The annotated functions of a source file: each block of `#` lines that
/// starts with `# sig:`, with the `sub NAME {` that follows it and the body
/// up to its matching brace.
#[verifier::loop_isolation(false)]
pub fn extract_annotated_functions(source: &str) -> (r: Result<Vec<ExtractedFunction>, ExtractorError>)
    ensures
        match r {
            Ok(fs) => extract_from(source@, lines_of(source@), 0) == Ok::<Seq<ExtractedView>, ExtractFailure>(
                fs@.map_values(|f: ExtractedFunction| f@),
            ),
            Err(e) => extract_from(source@, lines_of(source@), 0) == Err::<Seq<ExtractedView>, ExtractFailure>(e@),
        },
{
    let chars = crate::text::chars_of(source);
    let lines = line_bounds(&chars);
    let ghost s = chars@;
    let ghost ls = bounds(lines@);
    let mut extracted: Vec<ExtractedFunction> = Vec::new();
    let mut index: usize = 0;
    proof {
        assert(extracted@.map_values(|f: ExtractedFunction| f@) =~= Seq::<ExtractedView>::empty());
        assert(Seq::<ExtractedView>::empty() + Seq::<ExtractedView>::empty() =~= Seq::<ExtractedView>::empty());
    }
    while index < lines.len()
        invariant
            s == source@,
            ls == lines_of(s),
            ls == bounds(lines@),
            forall|i: int| 0 <= i < lines@.len() ==> (#[trigger] lines@[i]).0 <= lines@[i].1 <= chars@.len(),
            extract_from(s, ls, 0) == after_found(
                extracted@.map_values(|f: ExtractedFunction| f@),
                extract_from(s, ls, index as int),
            ),
        decreases lines.len() - index,
    {
        let (ls0, le0) = lines[index];
        let t = skip_spaces(&chars, ls0, le0);
        if !crate::text::starts_with_at(&chars, t, le0, crate::annotations::SIG_PREFIX) {
            assert(!is_sig_line(s, ls[index as int]));
            assert(extract_from(s, ls, index as int) == extract_from(s, ls, index + 1));
            index += 1;
            continue;
        }
        let annotation_start = index;
        proof {
            lemma_block_end(s, ls, index as int);
        }
        let mut annotations: Vec<String> = Vec::new();
        while index < lines.len() && comment_line(&chars, &lines, index)
            invariant
                annotation_start <= index <= lines@.len(),
                annotations@.len() == index - annotation_start,
                block_end(s, ls, annotation_start as int) == block_end(s, ls, index as int),
                forall|k: int| 0 <= k < annotations@.len() ==> (#[trigger] annotations@[k])@ == s.subrange(
                    ls[annotation_start + k].0,
                    ls[annotation_start + k].1,
                ),
            decreases lines.len() - index,
        {
            let (a, b) = lines[index];
            annotations.push(crate::text::slice_string(&chars, a, b));
            index += 1;
        }
        assert(index as int == block_end(s, ls, annotation_start as int));
        if index >= lines.len() {
            return Err(ExtractorError::MissingSub { line: annotation_start + 1 });
        }
        let (hs, he) = lines[index];
        let (name, brace) = match parse_sub_header(&chars, hs, he) {
            Some(p) => p,
            None => {
                return Err(
                    ExtractorError::InvalidSubHeader { line: index + 1, header: crate::text::slice_string(&chars, hs, he) },
                );
            },
        };
        let close = match find_matching_brace(&chars, brace) {
            Some(k) => k,
            None => {
                return Err(ExtractorError::UnmatchedBraces { function: name, line: index + 1 });
            },
        };
        let body = crate::text::slice_string(&chars, brace + 1, close);
        let end_line = line_index(&chars, close);
        let ghost header = sub_header(s, ls[index as int].0, ls[index as int].1);
        let ghost name_v = name@;
        let f = ExtractedFunction { name, annotations, body, start_line: index + 1 };
        let ghost done = extracted@.map_values(|g: ExtractedFunction| g@);
        let ghost stop = index as int;
        let ghost sig = annotation_start as int;
        proof {
            assert(f@.annotations =~= Seq::new(
                (index - annotation_start) as nat,
                |k: int| s.subrange(ls[annotation_start + k].0, ls[annotation_start + k].1),
            ));
            assert(is_sig_line(s, ls[sig]));
            assert(block_end(s, ls, sig) == stop);
            assert(header == Some((name_v, brace as int)));
            assert(brace_close(s, brace + 1, 1) == Some(close as int));
            assert(f@ == ExtractedView {
                name: name_v,
                annotations: Seq::new((stop - sig) as nat, |k: int| s.subrange(ls[sig + k].0, ls[sig + k].1)),
                body: s.subrange(brace + 1, close as int),
                start_line: (stop + 1) as usize,
            });
        }
        extracted.push(f);
        let next = if end_line < index { index + 1 } else { end_line + 1 };
        let resume = if next > lines.len() { lines.len() } else { next };
        proof {
            assert(resume as int == resume_line(s, ls, index as int, close as int));
            assert(extracted@.map_values(|g: ExtractedFunction| g@) =~= done.push(f@));
            let rest = extract_from(s, ls, resume as int);
            if let Ok(r) = rest {
                assert(done.push(f@) + r =~= done + (seq![f@] + r));
            }
        }
        index = resume;
    }
    proof {
        assert(extracted@.map_values(|f: ExtractedFunction| f@) + Seq::<ExtractedView>::empty() =~= extracted@.map_values(
            |f: ExtractedFunction| f@,
        ));
    }
    Ok(extracted)
}

} // verus!
