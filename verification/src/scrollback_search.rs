//! Searching a pane: history and viewport together, in line numbers with viewport row 0 and
//! history below zero.
//!
//! History is searched by the server, so a search has two halves: [`begin_search`] says what
//! to ask for, and [`search_scrollback`] joins the answer with the viewport.
use crate::pattern::{regex_compiles, regex_is_match};
use vstd::prelude::*;
use vstd::string::*;

verus! {

/// Direction and limit of a search.
#[derive(Clone, Copy, Debug, PartialEq, Eq, Structural)]
pub struct SearchOptions {
    /// Line to start from; without one the whole pane is searched.
    pub start: Option<i32>,
    /// Towards newer lines, keeping the oldest hits; else towards older lines, keeping the
    /// newest.
    pub forward: bool,
    pub max_results: u32,
}

impl Default for SearchOptions {
    fn default() -> (options: Self)
        ensures
            options == (SearchOptions { start: None, forward: false, max_results: 0 }),
    {
        SearchOptions { start: None, forward: false, max_results: 0 }
    }
}

/// One hit: the line and its text.
#[derive(Clone, Debug, PartialEq, Eq)]
pub struct SearchHit {
    pub line: i32,
    pub text: String,
}

/// What a [`SearchHit`] says.
#[verifier::ext_equal]
pub struct HitView {
    pub line: i32,
    pub text: Seq<char>,
}

impl View for SearchHit {
    type V = HitView;

    open spec fn view(&self) -> HitView {
        HitView { line: self.line, text: self.text@ }
    }
}

/// What a list of hits says.
pub open spec fn hit_views(hits: Seq<SearchHit>) -> Seq<HitView> {
    hits.map_values(|h: SearchHit| h@)
}

/// What a search covers, as one piece of history and one of the viewport.
#[derive(Clone, Copy, Debug, PartialEq, Eq)]
pub struct SearchSpan {
    /// First history row (0 = oldest) and direction (0 = towards older, 1 = towards newer).
    pub history: Option<(u32, u32)>,
    /// First and last viewport row.
    pub visible: Option<(u32, u32)>,
}

/// A number as an `i32`, or the largest one.
pub open spec fn clamped(value: u32) -> int {
    if value <= i32::MAX {
        value as int
    } else {
        i32::MAX as int
    }
}

/// A number as an `i32`, or the largest one.
pub fn clamp_to_i32(value: u32) -> (n: i32)
    ensures
        n == clamped(value),
{
    if value <= i32::MAX as u32 {
        value as i32
    } else {
        i32::MAX
    }
}

/// The line that a search starts from: the far end against the direction unless one is given,
/// and never outside the pane.
pub open spec fn start_line(history_size: u32, rows: u32, start: Option<i32>, forward: bool) -> int {
    let oldest = -clamped(history_size);
    let newest = clamped(rows) - 1;
    match start {
        None => if forward {
            oldest
        } else {
            newest
        },
        Some(line) => if line < oldest {
            oldest
        } else if line > newest {
            newest
        } else {
            line as int
        },
    }
}

/// The history row of a line below zero, counted from the oldest.
pub open spec fn history_row(history_size: u32, line: int) -> u32 {
    if history_size + line > 0 {
        (history_size + line) as u32
    } else {
        0
    }
}

/// What a search covers.
pub open spec fn span_of(history_size: u32, rows: u32, start: Option<i32>, forward: bool) -> SearchSpan {
    let line = start_line(history_size, rows, start, forward);
    SearchSpan {
        history: if history_size == 0 {
            None
        } else if forward {
            if line < 0 {
                Some((history_row(history_size, line), 1))
            } else {
                None
            }
        } else if line < 0 {
            Some((history_row(history_size, line), 0))
        } else {
            Some(((history_size - 1) as u32, 0))
        },
        visible: if rows == 0 {
            None
        } else if forward {
            Some(
                (
                    if line > 0 {
                        line as u32
                    } else {
                        0
                    },
                    (clamped(rows) - 1) as u32,
                ),
            )
        } else if line >= 0 {
            Some((0, line as u32))
        } else {
            None
        },
    }
}

/// What a search covers.
pub fn search_span(history_size: u32, rows: u32, start: Option<i32>, forward: bool) -> (span:
    SearchSpan)
    ensures
        span == span_of(history_size, rows, start, forward),
{
    let oldest = -clamp_to_i32(history_size);
    let newest = clamp_to_i32(rows) - 1;
    if rows == 0 && history_size == 0 {
        return SearchSpan { history: None, visible: None };
    }
    let line: i32 = match start {
        None => if forward {
            oldest
        } else {
            newest
        },
        Some(line) => if line < oldest {
            oldest
        } else if line > newest {
            newest
        } else {
            line
        },
    };
    let row: i64 = history_size as i64 + line as i64;
    let row: u32 = if line < 0 && row > 0 {
        row as u32
    } else {
        0
    };
    let history = if history_size == 0 {
        None
    } else if forward {
        if line < 0 {
            Some((row, 1))
        } else {
            None
        }
    } else if line < 0 {
        Some((row, 0))
    } else {
        Some((history_size - 1, 0))
    };
    let visible = if rows == 0 {
        None
    } else if forward {
        Some(
            (
                if line > 0 {
                    line as u32
                } else {
                    0
                },
                newest as u32,
            ),
        )
    } else if line >= 0 {
        Some((0, line as u32))
    } else {
        None
    };
    SearchSpan { history, visible }
}

/// Whether a span covers a line of a pane with `history_size` rows of history.
pub open spec fn covers(span: SearchSpan, history_size: u32, line: int) -> bool {
    if line < 0 {
        match span.history {
            Some((row, direction)) => if direction == 0 {
                history_size + line <= row
            } else {
                history_size + line >= row
            },
            None => false,
        }
    } else {
        match span.visible {
            Some((first, last)) => first <= line <= last,
            None => false,
        }
    }
}

/// A search covers the start line and every line of the pane beyond it in its direction, and no
/// other.
pub proof fn law_search_covers_one_side(
    history_size: u32,
    rows: u32,
    start: Option<i32>,
    forward: bool,
    line: int,
)
    requires
        history_size <= i32::MAX,
        rows <= i32::MAX,
        -(history_size as int) <= line < rows,
    ensures
        ({
            let from = start_line(history_size, rows, start, forward);
            covers(span_of(history_size, rows, start, forward), history_size, line) <==> if forward {
                line >= from
            } else {
                line <= from
            }
        }),
{
}

/// A search without a start covers the whole pane.
pub proof fn law_search_without_start_covers_the_pane(
    history_size: u32,
    rows: u32,
    forward: bool,
    line: int,
)
    requires
        history_size <= i32::MAX,
        rows <= i32::MAX,
        -(history_size as int) <= line < rows,
    ensures
        covers(span_of(history_size, rows, None, forward), history_size, line),
{
    law_search_covers_one_side(history_size, rows, None, forward, line);
}

/// How a cell of a wide character is marked.
#[derive(Clone, Copy, Debug, PartialEq, Eq, Structural)]
pub struct WideCharStyle {
    /// The second cell of a wide character.
    pub wide_char_spacer: bool,
    /// A cell left empty at the end of a line because a wide character did not fit.
    pub leading_wide_char_spacer: bool,
}

/// A cell as a client gets it.
#[derive(Debug)]
pub struct GridCell {
    pub character: String,
    /// Combining characters.
    pub zerowidth: String,
    pub style: Option<WideCharStyle>,
}

/// A grid as a client gets it.
#[derive(Debug)]
pub struct GridSnapshot {
    pub rows: u32,
    pub cols: u32,
    pub history_size: u32,
    /// Row-major cells.
    pub cells: Vec<GridCell>,
}

/// Whether a cell carries no text of its own.
pub open spec fn is_spacer(cell: GridCell) -> bool {
    match cell.style {
        Some(style) => style.wide_char_spacer || style.leading_wide_char_spacer,
        None => false,
    }
}

/// The text of a row of cells, without those that only hold the place of a wide character.
pub open spec fn cells_text(cells: Seq<GridCell>) -> Seq<char>
    decreases cells.len(),
{
    if cells.len() == 0 {
        Seq::empty()
    } else {
        let head = cells_text(cells.drop_last());
        let cell = cells.last();
        if is_spacer(cell) {
            head
        } else {
            head + cell.character@ + cell.zerowidth@
        }
    }
}

/// The text of a row of cells, as a regular expression sees it.
pub fn plain_text(cells: &[GridCell]) -> (text: String)
    ensures
        text@ == cells_text(cells@),
{
    let mut text = String::new();
    let mut i: usize = 0;
    assert(cells@.take(0) =~= Seq::<GridCell>::empty());
    while i < cells.len()
        invariant
            i <= cells@.len(),
            text@ == cells_text(cells@.take(i as int)),
        decreases cells@.len() - i,
    {
        assert(cells@.take(i + 1).drop_last() =~= cells@.take(i as int));
        let cell = &cells[i];
        let spacer = match &cell.style {
            Some(style) => style.wide_char_spacer || style.leading_wide_char_spacer,
            None => false,
        };
        if !spacer {
            text.append(cell.character.as_str());
            text.append(cell.zerowidth.as_str());
        }
        i += 1;
    }
    assert(cells@.take(i as int) =~= cells@);
    text
}

/// The smaller of two numbers.
pub open spec fn smaller(a: int, b: int) -> int {
    if a <= b {
        a
    } else {
        b
    }
}

impl GridSnapshot {
    /// The cells of a row, as far as there are any.
    pub open spec fn row_cells(&self, row: int) -> Seq<GridCell> {
        let len = self.cells@.len() as int;
        let from = smaller(row * self.cols, len);
        self.cells@.subrange(from, smaller(row * self.cols + self.cols, len))
    }

    /// The matching rows from `first` on, `count` rows in all.
    pub open spec fn matching(&self, pattern: Seq<char>, first: int, count: nat) -> Seq<HitView>
        decreases count,
    {
        if count == 0 {
            Seq::empty()
        } else {
            let before = self.matching(pattern, first, (count - 1) as nat);
            let row = first + count - 1;
            let text = cells_text(self.row_cells(row));
            if crate::pattern::regex_matches(pattern, text) {
                before.push(HitView { line: row as i32, text })
            } else {
                before
            }
        }
    }
}

/// How many rows an inclusive range has.
pub open spec fn row_count(first: u32, last: u32) -> nat {
    if first <= last {
        (last - first + 1) as nat
    } else {
        0
    }
}

/// The matching rows of the viewport from `first` to `last`.
pub fn visible_hits(snapshot: &GridSnapshot, first: u32, last: u32, pattern: &str) -> (hits: Vec<
    SearchHit,
>)
    requires
        crate::pattern::regex_is_valid(pattern@),
    ensures
        hit_views(hits@) == snapshot.matching(pattern@, first as int, row_count(first, last)),
{
    let mut hits: Vec<SearchHit> = Vec::new();
    assert(hit_views(hits@) =~= Seq::<HitView>::empty());
    let cols = snapshot.cols as u64;
    let mut row: u64 = first as u64;
    while row <= last as u64
        invariant
            first <= row,
            row <= last + 1 || row == first,
            cols == snapshot.cols,
            crate::pattern::regex_is_valid(pattern@),
            hit_views(hits@) == snapshot.matching(pattern@, first as int, (row - first) as nat),
        decreases last + 1 - row,
    {
        proof {
            assert(0 <= row * cols <= 0xffff_ffff * 0xffff_ffff) by (nonlinear_arith)
                requires
                    0 <= row <= 0xffff_ffff,
                    0 <= cols <= 0xffff_ffff,
            ;
        }
        let offset: u64 = row * cols;
        let total = snapshot.cells.len();
        let from: usize = if offset < total as u64 {
            offset as usize
        } else {
            total
        };
        let to: usize = if offset + cols < total as u64 {
            (offset + cols) as usize
        } else {
            total
        };
        let cells = vstd::slice::slice_subrange(snapshot.cells.as_slice(), from, to);
        assert(row as int * snapshot.cols as int == offset);
        assert(cells@ =~= snapshot.row_cells(row as int));
        let text = plain_text(cells);
        if regex_is_match(pattern, text.as_str()) {
            hits.push(SearchHit { line: row as i32, text });
        }
        assert(hit_views(hits@) =~= snapshot.matching(
            pattern@,
            first as int,
            (row + 1 - first) as nat,
        ));
        row += 1;
    }
    hits
}

/// A row of history that the server found.
#[derive(Debug)]
pub struct HistoryMatch {
    /// Row of history, 0 = oldest.
    pub line_number: u32,
    pub context: Vec<GridCell>,
}

/// The hits of history rows.
pub open spec fn history_hits(matches: Seq<HistoryMatch>, history_size: u32) -> Seq<HitView> {
    matches.map_values(
        |m: HistoryMatch|
            HitView {
                line: (m.line_number - clamped(history_size)) as i32,
                text: cells_text(m.context@),
            },
    )
}

/// A hit taken in among hits by ascending line: a line that is there already stays as it is.
pub open spec fn placed(out: Seq<HitView>, hit: HitView) -> Seq<HitView>
    decreases out.len(),
{
    if out.len() == 0 || out.last().line < hit.line {
        out.push(hit)
    } else if out.last().line == hit.line {
        out
    } else {
        placed(out.drop_last(), hit).push(out.last())
    }
}

/// The hits by ascending line, of each line the first that came.
pub open spec fn merged(hits: Seq<HitView>) -> Seq<HitView>
    decreases hits.len(),
{
    if hits.len() == 0 {
        Seq::empty()
    } else {
        placed(merged(hits.drop_last()), hits.last())
    }
}

/// Put one more hit among ascending ones, unless its line is there.
fn place_hit(out: &mut Vec<SearchHit>, hit: SearchHit)
    ensures
        hit_views(final(out)@) == placed(hit_views(old(out)@), hit@),
{
    let mut at: usize = out.len();
    let ghost views = hit_views(out@);
    assert(views.take(at as int) =~= views);
    assert(placed(views, hit@) + views.skip(at as int) =~= placed(views, hit@));
    while at > 0 && out[at - 1].line > hit.line
        invariant
            at <= out@.len(),
            *out == *old(out),
            views == hit_views(out@),
            placed(views, hit@) == placed(views.take(at as int), hit@) + views.skip(at as int),
        decreases at,
    {
        let ghost head = views.take(at as int);
        assert(head.last() == views[at - 1]);
        assert(head.drop_last() =~= views.take(at - 1));
        assert(placed(head.drop_last(), hit@).push(head.last()) + views.skip(at as int) =~= placed(
            head.drop_last(),
            hit@,
        ) + views.skip(at - 1));
        at -= 1;
    }
    let ghost head = views.take(at as int);
    if at > 0 {
        assert(head.last() == views[at - 1]);
        if out[at - 1].line == hit.line {
            assert(head + views.skip(at as int) =~= views);
            return ;
        }
    }
    out.insert(at, hit);
    assert(hit_views(out@) =~= head.push(hit@) + views.skip(at as int));
}

/// Hits by ascending line, of each line the first that came.
pub fn merge_hits(hits: &Vec<SearchHit>) -> (out: Vec<SearchHit>)
    ensures
        hit_views(out@) == merged(hit_views(hits@)),
{
    let mut out: Vec<SearchHit> = Vec::new();
    let ghost all = hit_views(hits@);
    let mut i: usize = 0;
    assert(hit_views(out@) =~= Seq::<HitView>::empty());
    assert(all.take(0) =~= Seq::<HitView>::empty());
    while i < hits.len()
        invariant
            i <= hits@.len(),
            all == hit_views(hits@),
            hit_views(out@) == merged(all.take(i as int)),
        decreases hits@.len() - i,
    {
        let hit = SearchHit { line: hits[i].line, text: hits[i].text.clone() };
        assert(hit@ == all[i as int]);
        assert(all.take(i + 1).drop_last() =~= all.take(i as int));
        assert(all.take(i + 1).last() == hit@);
        place_hit(&mut out, hit);
        i += 1;
    }
    assert(all.take(i as int) =~= all);
    out
}

/// Whether lines strictly ascend.
pub open spec fn ascending(hits: Seq<HitView>) -> bool {
    forall|i: int, j: int|
        0 <= i < j < hits.len() ==> (#[trigger] hits[i]).line < (#[trigger] hits[j]).line
}

/// The text that hits have for a line: that of the first hit on it.
pub open spec fn text_at(hits: Seq<HitView>, line: i32) -> Option<Seq<char>>
    decreases hits.len(),
{
    if hits.len() == 0 {
        None
    } else {
        match text_at(hits.drop_last(), line) {
            Some(text) => Some(text),
            None => if hits.last().line == line {
                Some(hits.last().text)
            } else {
                None
            },
        }
    }
}

proof fn lemma_placed(out: Seq<HitView>, hit: HitView, line: i32)
    requires
        ascending(out),
    ensures
        ascending(placed(out, hit)),
        text_at(placed(out, hit), line) == (match text_at(out, line) {
            Some(text) => Some(text),
            None => if hit.line == line {
                Some(hit.text)
            } else {
                None
            },
        }),
        forall|i: int|
            0 <= i < placed(out, hit).len() ==> (#[trigger] placed(out, hit)[i]).line == hit.line
                || exists|k: int| 0 <= k < out.len() && #[trigger] out[k] == placed(out, hit)[i],
    decreases out.len(),
{
    let next = placed(out, hit);
    if out.len() == 0 {
        assert(next.drop_last() =~= out);
    } else if out.last().line < hit.line {
        assert(next.drop_last() =~= out);
        assert forall|i: int, j: int| 0 <= i < j < next.len() implies (#[trigger] next[i]).line < (
        #[trigger] next[j]).line by {
            if j == out.len() && i < out.len() - 1 {
                assert(out[i].line < out[out.len() - 1].line);
            }
        }
        assert forall|i: int| 0 <= i < next.len() implies (#[trigger] next[i]).line == hit.line
            || exists|k: int| 0 <= k < out.len() && #[trigger] out[k] == next[i] by {
            if i < out.len() {
                assert(out[i] == next[i]);
            }
        }
    } else if out.last().line == hit.line {
        lemma_text_at_last(out);
        assert forall|i: int| 0 <= i < next.len() implies (#[trigger] next[i]).line == hit.line
            || exists|k: int| 0 <= k < out.len() && #[trigger] out[k] == next[i] by {
            assert(out[i] == next[i]);
        }
    } else {
        let head = out.drop_last();
        let last = out.last();
        assert forall|i: int, j: int| 0 <= i < j < head.len() implies (#[trigger] head[i]).line < (
        #[trigger] head[j]).line by {
            assert(head[i] == out[i] && head[j] == out[j]);
        }
        lemma_placed(head, hit, line);
        let inner = placed(head, hit);
        assert(next.drop_last() =~= inner);
        assert forall|i: int| 0 <= i < inner.len() implies (#[trigger] inner[i]).line
            < last.line by {
            if inner[i].line != hit.line {
                let k = choose|k: int| 0 <= k < head.len() && #[trigger] head[k] == inner[i];
                assert(out[k].line < out[out.len() - 1].line);
            }
        }
        assert forall|i: int, j: int| 0 <= i < j < next.len() implies (#[trigger] next[i]).line < (
        #[trigger] next[j]).line by {
            assert(next[i] == inner[i]);
            if j < inner.len() {
                assert(next[j] == inner[j]);
            }
        }
        assert forall|i: int| 0 <= i < next.len() implies (#[trigger] next[i]).line == hit.line
            || exists|k: int| 0 <= k < out.len() && #[trigger] out[k] == next[i] by {
            if i < inner.len() {
                assert(next[i] == inner[i]);
                if inner[i].line != hit.line {
                    let k = choose|k: int| 0 <= k < head.len() && #[trigger] head[k] == inner[i];
                    assert(out[k] == next[i]);
                }
            } else {
                assert(out[out.len() - 1] == next[i]);
            }
        }
    }
}

proof fn lemma_text_at_last(hits: Seq<HitView>)
    requires
        hits.len() > 0,
    ensures
        text_at(hits, hits.last().line) is Some,
{
}

/// Merged hits strictly ascend by line, and have for every line the text of the first hit on it.
pub proof fn law_merged_hits_ascend_and_keep_the_first(hits: Seq<HitView>, line: i32)
    ensures
        ascending(merged(hits)),
        text_at(merged(hits), line) == text_at(hits, line),
    decreases hits.len(),
{
    if hits.len() > 0 {
        law_merged_hits_ascend_and_keep_the_first(hits.drop_last(), line);
        lemma_placed(merged(hits.drop_last()), hits.last(), line);
    }
}

/// The hits that a limit keeps: the oldest of a search towards newer lines, else the newest.
pub open spec fn kept(hits: Seq<HitView>, max_results: nat, forward: bool) -> Seq<HitView> {
    if hits.len() <= max_results {
        hits
    } else if forward {
        hits.take(max_results as int)
    } else {
        hits.skip(hits.len() - max_results)
    }
}

/// Cut hits to a limit, at the far end of the search direction.
pub fn truncate_by_direction(hits: &mut Vec<SearchHit>, max_results: u32, forward: bool)
    ensures
        hit_views(final(hits)@) == kept(hit_views(old(hits)@), max_results as nat, forward),
{
    let max = max_results as usize;
    if hits.len() <= max {
        return ;
    }
    if forward {
        hits.truncate(max);
        assert(hit_views(hits@) =~= hit_views(old(hits)@).take(max as int));
    } else {
        let cut = hits.len() - max;
        let tail = hits.split_off(cut);
        *hits = tail;
        assert(hit_views(hits@) =~= hit_views(old(hits)@).skip(cut as int));
    }
}

/// Why a search did not run.
#[derive(Debug)]
pub enum SearchError {
    /// The pattern does not compile.
    InvalidPattern(String),
    /// The server did not send its whole grid.
    ExpectedSnapshot,
}

impl SearchError {
    /// The error in words.
    pub fn message(&self) -> (text: String)
        ensures
            match *self {
                SearchError::InvalidPattern(pattern) => text@ == "invalid regular expression: "@
                    + pattern@,
                SearchError::ExpectedSnapshot => text@
                    == "search-scrollback expected a full grid snapshot"@,
            },
    {
        match self {
            SearchError::InvalidPattern(pattern) => {
                let mut text = String::new();
                text.append("invalid regular expression: ");
                text.append(pattern.as_str());
                text
            },
            SearchError::ExpectedSnapshot => {
                "search-scrollback expected a full grid snapshot".to_owned()
            },
        }
    }
}

/// Refuses a pattern that does not compile. It is tried before the server is asked for anything.
pub fn check_pattern(pattern: &str) -> (checked: Result<(), SearchError>)
    ensures
        crate::pattern::regex_is_valid(pattern@) ==> checked is Ok,
        !crate::pattern::regex_is_valid(pattern@) ==> (checked matches Err(
            SearchError::InvalidPattern(p),
        ) && p@ == pattern@),
{
    if regex_compiles(pattern) {
        Ok(())
    } else {
        Err(SearchError::InvalidPattern(pattern.to_owned()))
    }
}

/// What to ask the server for, given the grid that it sent, if that is its whole grid. A pattern
/// that does not compile is refused here, since the server would answer it with silence.
pub fn begin_search(pattern: &str, snapshot: Option<&GridSnapshot>, options: &SearchOptions) -> (
span: Result<SearchSpan, SearchError>)
    ensures
        !crate::pattern::regex_is_valid(pattern@) ==> (span matches Err(
            SearchError::InvalidPattern(p),
        ) && p@ == pattern@),
        crate::pattern::regex_is_valid(pattern@) ==> match snapshot {
            Some(snapshot) => span == Ok::<SearchSpan, SearchError>(
                span_of(snapshot.history_size, snapshot.rows, options.start, options.forward),
            ),
            None => span == Err::<SearchSpan, SearchError>(SearchError::ExpectedSnapshot),
        },
        span matches Ok(span) ==> (snapshot matches Some(snapshot) && (snapshot.history_size
            <= i32::MAX && snapshot.rows <= i32::MAX ==> forall|line: int|
            -(snapshot.history_size as int) <= line < snapshot.rows ==> (#[trigger] covers(
                span,
                snapshot.history_size,
                line,
            ) <==> on_side(
                -(snapshot.history_size as int),
                snapshot.rows - 1,
                options.start,
                options.forward,
                line,
            )))),
{
    if let Err(error) = check_pattern(pattern) {
        return Err(error);
    }
    match snapshot {
        Some(snapshot) => Ok(
            search_span(snapshot.history_size, snapshot.rows, options.start, options.forward),
        ),
        None => Err(SearchError::ExpectedSnapshot),
    }
}

/// All hits of a search in arrival order: the server's, then those of the viewport.
pub open spec fn all_hits(
    pattern: Seq<char>,
    snapshot: &GridSnapshot,
    options: SearchOptions,
    matches: Seq<HistoryMatch>,
) -> Seq<HitView> {
    let span = span_of(snapshot.history_size, snapshot.rows, options.start, options.forward);
    (if span.history is Some {
        history_hits(matches, snapshot.history_size)
    } else {
        Seq::empty()
    }) + (match span.visible {
        Some((first, last)) => snapshot.matching(pattern, first as int, row_count(first, last)),
        None => Seq::empty(),
    })
}

/// Join the server's matches with those of the viewport: by ascending line, each line once, cut
/// to the limit.
pub fn search_scrollback(
    pattern: &str,
    snapshot: &GridSnapshot,
    options: &SearchOptions,
    matches: &Vec<HistoryMatch>,
) -> (found: Result<Vec<SearchHit>, SearchError>)
    requires
        forall|i: int|
            0 <= i < matches@.len() ==> (#[trigger] matches@[i]).line_number <= i32::MAX,
    ensures
        crate::pattern::regex_is_valid(pattern@) ==> (found matches Ok(hits) && hit_views(hits@)
            == kept(
            merged(all_hits(pattern@, snapshot, *options, matches@)),
            options.max_results as nat,
            options.forward,
        )),
        !crate::pattern::regex_is_valid(pattern@) ==> (found matches Err(
            SearchError::InvalidPattern(p),
        ) && p@ == pattern@),
{
    if let Err(error) = check_pattern(pattern) {
        return Err(error);
    }
    let span = search_span(snapshot.history_size, snapshot.rows, options.start, options.forward);
    let mut hits: Vec<SearchHit> = Vec::new();
    let ghost from_history = history_hits(matches@, snapshot.history_size);
    if span.history.is_some() {
        let base = clamp_to_i32(snapshot.history_size);
        let mut i: usize = 0;
        while i < matches.len()
            invariant
                i <= matches@.len(),
                base == clamped(snapshot.history_size),
                from_history == history_hits(matches@, snapshot.history_size),
                forall|k: int|
                    0 <= k < matches@.len() ==> (#[trigger] matches@[k]).line_number <= i32::MAX,
                hit_views(hits@) == from_history.take(i as int),
            decreases matches@.len() - i,
        {
            let found = &matches[i];
            let ghost before = hit_views(hits@);
            let hit = SearchHit {
                line: found.line_number as i32 - base,
                text: plain_text(found.context.as_slice()),
            };
            assert(hit@ == from_history[i as int]);
            hits.push(hit);
            assert(hit_views(hits@) =~= before.push(hit@));
            assert(hit_views(hits@) =~= from_history.take(i + 1));
            i += 1;
        }
        assert(from_history.take(i as int) =~= from_history);
    }
    let ghost first_half = hit_views(hits@);
    assert(first_half =~= if span.history is Some {
        from_history
    } else {
        Seq::empty()
    });
    if let Some((first, last)) = span.visible {
        let mut visible = visible_hits(snapshot, first, last, pattern);
        let ghost tail = hit_views(visible@);
        hits.append(&mut visible);
        assert(hit_views(hits@) =~= first_half + tail);
    }
    assert(hit_views(hits@) =~= all_hits(pattern@, snapshot, *options, matches@));
    let mut out = merge_hits(&hits);
    truncate_by_direction(&mut out, options.max_results, options.forward);
    Ok(out)
}

/// Whether a line of a pane lies on the side that a search runs to: at the start line or newer
/// when it runs forward, at the start line or older otherwise. A start outside the pane counts as
/// the line of the pane that is nearest to it, and without a start every line is on the side.
pub open spec fn on_side(oldest: int, newest: int, start: Option<i32>, forward: bool, line: int) -> bool {
    match start {
        None => true,
        Some(start) => if forward {
            line >= start || line == newest
        } else {
            line <= start || line == oldest
        },
    }
}

/// What is asked of the server and looked at in the viewport is exactly the side that the search
/// runs to: in history towards newer rows for direction 1 and towards older ones for direction 0.
pub proof fn law_span_is_the_side(
    history_size: u32,
    rows: u32,
    start: Option<i32>,
    forward: bool,
    line: int,
)
    requires
        history_size <= i32::MAX,
        rows <= i32::MAX,
        -(history_size as int) <= line < rows,
    ensures
        ({
            let span = span_of(history_size, rows, start, forward);
            let searched = if line < 0 {
                match span.history {
                    Some((row, 1)) => history_size + line >= row,
                    Some((row, 0)) => history_size + line <= row,
                    _ => false,
                }
            } else {
                match span.visible {
                    Some((first, last)) => first <= line <= last,
                    None => false,
                }
            };
            &&& searched <==> on_side(-(history_size as int), rows - 1, start, forward, line)
            &&& span.history matches Some((row, direction)) ==> direction == (if forward {
                1u32
            } else {
                0
            }) && row < history_size
            &&& span.visible matches Some((first, last)) ==> last < rows
        }),
{
}

/// Whether some hit is on a line.
pub open spec fn hits_line(hits: Seq<HitView>, line: int) -> bool {
    exists|i: int| 0 <= i < hits.len() && (#[trigger] hits[i]).line == line
}

proof fn lemma_text_at(hits: Seq<HitView>, line: i32)
    ensures
        text_at(hits, line) is Some <==> hits_line(hits, line as int),
        text_at(hits, line) matches Some(text) ==> exists|i: int|
            0 <= i < hits.len() && #[trigger] hits[i] == (HitView { line, text }),
    decreases hits.len(),
{
    if hits.len() > 0 {
        let head = hits.drop_last();
        lemma_text_at(head, line);
        if hits_line(head, line as int) {
            let i = choose|i: int| 0 <= i < head.len() && (#[trigger] head[i]).line == line;
            assert(hits[i].line == line);
            let text = text_at(head, line)->0;
            let k = choose|k: int| 0 <= k < head.len() && #[trigger] head[k] == (HitView { line, text });
            assert(hits[k] == (HitView { line, text }));
        } else if hits.last().line == line {
            assert(hits[hits.len() - 1].line == line);
            assert(hits[hits.len() - 1] == (HitView { line, text: hits.last().text }));
        } else {
            if hits_line(hits, line as int) {
                let i = choose|i: int| 0 <= i < hits.len() && (#[trigger] hits[i]).line == line;
                assert(head[i].line == line);
            }
        }
    }
}

proof fn lemma_matching(snapshot: &GridSnapshot, pattern: Seq<char>, first: int, count: nat, line: int)
    requires
        0 <= first,
        first + count <= i32::MAX + 1,
    ensures
        hits_line(snapshot.matching(pattern, first, count), line) <==> first <= line < first + count
            && crate::pattern::regex_matches(pattern, cells_text(snapshot.row_cells(line))),
        forall|i: int|
            0 <= i < snapshot.matching(pattern, first, count).len() ==> (
            #[trigger] snapshot.matching(pattern, first, count)[i]).text == cells_text(
                snapshot.row_cells(snapshot.matching(pattern, first, count)[i].line as int),
            ),
    decreases count,
{
    let hits = snapshot.matching(pattern, first, count);
    if count > 0 {
        lemma_matching(snapshot, pattern, first, (count - 1) as nat, line);
        let before = snapshot.matching(pattern, first, (count - 1) as nat);
        let row = first + count - 1;
        if hits_line(before, line) {
            let i = choose|i: int| 0 <= i < before.len() && (#[trigger] before[i]).line == line;
            assert(hits[i].line == line);
        }
        if hits_line(hits, line) {
            let i = choose|i: int| 0 <= i < hits.len() && (#[trigger] hits[i]).line == line;
            if i < before.len() {
                assert(before[i].line == line);
            }
        }
        if crate::pattern::regex_matches(pattern, cells_text(snapshot.row_cells(row))) {
            assert(hits[before.len() as int].line == row);
        }
        assert forall|i: int| 0 <= i < hits.len() implies (#[trigger] hits[i]).text == cells_text(
            snapshot.row_cells(hits[i].line as int),
        ) by {
            if i < before.len() {
                assert(before[i] == hits[i]);
            }
        }
    }
}

proof fn lemma_hits_of_both(a: Seq<HitView>, b: Seq<HitView>, line: int)
    ensures
        hits_line(a + b, line) <==> hits_line(a, line) || hits_line(b, line),
{
    if hits_line(a, line) {
        let i = choose|i: int| 0 <= i < a.len() && (#[trigger] a[i]).line == line;
        assert((a + b)[i].line == line);
    }
    if hits_line(b, line) {
        let i = choose|i: int| 0 <= i < b.len() && (#[trigger] b[i]).line == line;
        assert((a + b)[a.len() + i].line == line);
    }
    if hits_line(a + b, line) {
        let i = choose|i: int| 0 <= i < (a + b).len() && (#[trigger] (a + b)[i]).line == line;
        if i < a.len() {
            assert(a[i].line == line);
        } else {
            assert(b[i - a.len()].line == line);
        }
    }
}

/// The hits of a search that no limit cuts: a line of the viewport is among them exactly if its
/// text matches and it lies on the side that the search runs to, and then with its text. A line of
/// history is among them exactly if the server found it, where the search reaches history.
pub proof fn law_hits_are_the_matches_on_the_side(
    pattern: Seq<char>,
    snapshot: GridSnapshot,
    options: SearchOptions,
    matches: Seq<HistoryMatch>,
    line: int,
)
    requires
        snapshot.history_size <= i32::MAX,
        snapshot.rows <= i32::MAX,
        forall|i: int|
            0 <= i < matches.len() ==> (#[trigger] matches[i]).line_number < snapshot.history_size,
        merged(all_hits(pattern, &snapshot, options, matches)).len() <= options.max_results,
        -(snapshot.history_size as int) <= line < snapshot.rows,
    ensures
        ({
            let oldest = -(snapshot.history_size as int);
            let hits = kept(
                merged(all_hits(pattern, &snapshot, options, matches)),
                options.max_results as nat,
                options.forward,
            );
            let text = cells_text(snapshot.row_cells(line));
            &&& line >= 0 ==> (hits_line(hits, line) <==> crate::pattern::regex_matches(
                pattern,
                text,
            ) && on_side(oldest, snapshot.rows - 1, options.start, options.forward, line))
            &&& line >= 0 && hits_line(hits, line) ==> exists|i: int|
                0 <= i < hits.len() && #[trigger] hits[i] == (HitView { line: line as i32, text })
            &&& line < 0 && on_side(
                oldest,
                snapshot.rows - 1,
                options.start,
                options.forward,
                line,
            ) ==> (hits_line(hits, line) <==> exists|i: int|
                0 <= i < matches.len() && (#[trigger] matches[i]).line_number
                    == snapshot.history_size + line)
        }),
{
    let all = all_hits(pattern, &snapshot, options, matches);
    let hits = merged(all);
    let span = span_of(snapshot.history_size, snapshot.rows, options.start, options.forward);
    law_span_is_the_side(snapshot.history_size, snapshot.rows, options.start, options.forward, line);
    law_merged_hits_ascend_and_keep_the_first(all, line as i32);
    lemma_text_at(hits, line as i32);
    lemma_text_at(all, line as i32);
    let from_history: Seq<HitView> = if span.history is Some {
        history_hits(matches, snapshot.history_size)
    } else {
        Seq::empty()
    };
    let visible = match span.visible {
        Some((first, last)) => snapshot.matching(pattern, first as int, row_count(first, last)),
        None => Seq::empty(),
    };
    lemma_hits_of_both(from_history, visible, line);
    match span.visible {
        Some((first, last)) => {
            lemma_matching(&snapshot, pattern, first as int, row_count(first, last), line);
        },
        None => {},
    }
    assert forall|i: int| 0 <= i < from_history.len() implies (#[trigger] from_history[i]).line
        == matches[i].line_number - snapshot.history_size by {}
    if line >= 0 {
        assert(!hits_line(from_history, line));
        if hits_line(hits, line) {
            let text = text_at(all, line as i32)->0;
            let k = choose|k: int|
                0 <= k < all.len() && #[trigger] all[k] == (HitView { line: line as i32, text });
            if k < from_history.len() {
                assert(from_history[k].line == line);
            } else {
                assert(visible[k - from_history.len()] == all[k]);
            }
        }
    } else {
        assert(!hits_line(visible, line));
        if exists|i: int|
            0 <= i < matches.len() && (#[trigger] matches[i]).line_number == snapshot.history_size
                + line {
            if span.history is Some {
                let i = choose|i: int|
                    0 <= i < matches.len() && (#[trigger] matches[i]).line_number
                        == snapshot.history_size + line;
                assert(from_history[i].line == line);
            }
        }
        if hits_line(from_history, line) {
            let i = choose|i: int|
                0 <= i < from_history.len() && (#[trigger] from_history[i]).line == line;
            assert(matches[i].line_number == snapshot.history_size + line);
        }
    }
}

/// A limit keeps no more hits than it says and drops none without need; of a search towards newer
/// lines it drops the newest, else the oldest. The hits come by ascending line, each line once.
pub proof fn law_limit_drops_the_far_end(all: Seq<HitView>, max_results: u32, forward: bool, line: i32)
    ensures
        ({
            let hits = merged(all);
            let left = kept(hits, max_results as nat, forward);
            &&& left.len() <= max_results
            &&& left.len() <= hits.len()
            &&& left.len() < max_results ==> left == hits
            &&& hits_line(hits, line as int) <==> hits_line(all, line as int)
            &&& forall|i: int, j: int|
                0 <= i < j < left.len() ==> (#[trigger] left[i]).line < (#[trigger] left[j]).line
            &&& hits_line(hits, line as int) && !hits_line(left, line as int) ==> forall|i: int|
                0 <= i < left.len() ==> if forward {
                    (#[trigger] left[i]).line < line
                } else {
                    left[i].line > line
                }
            &&& hits_line(left, line as int) ==> hits_line(all, line as int)
        }),
{
    let hits = merged(all);
    let left = kept(hits, max_results as nat, forward);
    law_merged_hits_ascend_and_keep_the_first(all, line);
    lemma_text_at(hits, line);
    lemma_text_at(all, line);
    let from = if hits.len() <= max_results || forward {
        0
    } else {
        hits.len() - max_results
    };
    assert forall|i: int| 0 <= i < left.len() implies #[trigger] left[i] == hits[from + i] by {}
    if hits_line(hits, line as int) {
        let k = choose|k: int| 0 <= k < hits.len() && (#[trigger] hits[k]).line == line;
        if from <= k < from + left.len() {
            assert(left[k - from].line == line);
        }
    }
    if hits_line(left, line as int) {
        let i = choose|i: int| 0 <= i < left.len() && (#[trigger] left[i]).line == line;
        assert(hits[from + i].line == line);
    }
}

/// A row of a whole grid has the cells from its first column to its last.
pub proof fn law_row_holds_its_columns(snapshot: GridSnapshot, row: int, column: int)
    requires
        snapshot.cells@.len() == snapshot.rows * snapshot.cols,
        0 <= row < snapshot.rows,
        0 <= column < snapshot.cols,
    ensures
        snapshot.row_cells(row).len() == snapshot.cols,
        0 <= row * snapshot.cols + column < snapshot.cells@.len(),
        snapshot.row_cells(row)[column] == snapshot.cells@[row * snapshot.cols + column],
{
    let cols = snapshot.cols as int;
    let rows = snapshot.rows as int;
    assert(0 <= row * cols && row * cols + cols <= rows * cols) by (nonlinear_arith)
        requires
            0 <= row < rows,
            0 <= cols,
    ;
}

/// The text of a row is that of its cells one after the other: the character of a cell and what
/// combines with it, and nothing of a cell that only holds the place of a wide character.
pub proof fn law_text_is_that_of_the_cells(cells: Seq<GridCell>, cell: GridCell)
    ensures
        cells_text(Seq::empty()) == Seq::<char>::empty(),
        cells_text(cells.push(cell)) == cells_text(cells) + (match cell.style {
            Some(WideCharStyle { wide_char_spacer: true, .. }) => Seq::empty(),
            Some(WideCharStyle { leading_wide_char_spacer: true, .. }) => Seq::empty(),
            _ => cell.character@ + cell.zerowidth@,
        }),
{
    assert(cells.push(cell).drop_last() =~= cells);
    assert(cells_text(cells) + Seq::<char>::empty() =~= cells_text(cells));
    assert(cells_text(cells) + cell.character@ + cell.zerowidth@ =~= cells_text(cells) + (
    cell.character@ + cell.zerowidth@));
}

} // verus!
