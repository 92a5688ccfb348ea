//! Pull-based grid synchronisation: a ring of row diffs keyed by generation, full
//! snapshots, and the scrollback buffer with its cache version.
use crate::clock::unix_seconds;
use crate::pattern::{regex_compiles, regex_is_match};
use std::collections::VecDeque;
use vstd::prelude::*;
use vstd::string::*;

verus! {

/// Rendition flags of one cell.
#[derive(Clone, Copy, Debug, PartialEq, Eq, Structural)]
pub struct CellStyle {
    pub bold: bool,
    pub italic: bool,
    pub underline: bool,
    pub strikethrough: bool,
    pub dim: bool,
    pub reverse: bool,
}

impl CellStyle {
    /// No flag set.
    pub open spec fn plain() -> CellStyle {
        CellStyle {
            bold: false,
            italic: false,
            underline: false,
            strikethrough: false,
            dim: false,
            reverse: false,
        }
    }
}

impl Default for CellStyle {
    fn default() -> (style: Self)
        ensures
            style == CellStyle::plain(),
    {
        CellStyle {
            bold: false,
            italic: false,
            underline: false,
            strikethrough: false,
            dim: false,
            reverse: false,
        }
    }
}

/// One cell of the grid.
#[derive(Debug)]
pub struct Cell {
    pub character: String,
    pub style: CellStyle,
    /// Foreground colour: 0xRRGGBB, or an entry of the palette with a mark in the top byte.
    pub foreground: u32,
    /// Background colour: 0xRRGGBB, or an entry of the palette with a mark in the top byte.
    pub background: u32,
}

/// What a [`Cell`] shows.
pub struct CellView {
    pub character: Seq<char>,
    pub style: CellStyle,
    pub foreground: u32,
    pub background: u32,
}

impl View for Cell {
    type V = CellView;

    open spec fn view(&self) -> CellView {
        CellView {
            character: self.character@,
            style: self.style,
            foreground: self.foreground,
            background: self.background,
        }
    }
}

impl CellView {
    /// An empty cell in black on black, without flags.
    pub open spec fn blank() -> CellView {
        CellView {
            character: Seq::empty(),
            style: CellStyle::plain(),
            foreground: 0,
            background: 0,
        }
    }
}

impl Default for Cell {
    fn default() -> (cell: Self)
        ensures
            cell@ == CellView::blank(),
    {
        Cell { character: String::new(), style: CellStyle::default(), foreground: 0, background: 0 }
    }
}

impl Clone for Cell {
    fn clone(&self) -> (copy: Self)
        ensures
            copy@ == self@,
    {
        Cell {
            character: self.character.clone(),
            style: self.style,
            foreground: self.foreground,
            background: self.background,
        }
    }
}

/// What a row of cells shows.
pub open spec fn cell_views(cells: Seq<Cell>) -> Seq<CellView> {
    cells.map_values(|c: Cell| c@)
}

/// The same cells again.
fn clone_cells(cells: &Vec<Cell>) -> (copy: Vec<Cell>)
    ensures
        cell_views(copy@) == cell_views(cells@),
{
    let mut copy: Vec<Cell> = Vec::new();
    let mut i: usize = 0;
    while i < cells.len()
        invariant
            i <= cells@.len(),
            copy@.len() == i,
            forall|j: int| 0 <= j < i ==> (#[trigger] copy@[j])@ == cells@[j]@,
        decreases cells@.len() - i,
    {
        copy.push(cells[i].clone());
        i += 1;
    }
    assert(cell_views(copy@) =~= cell_views(cells@));
    copy
}

/// The new content of one row.
#[derive(Debug)]
pub struct RowChange {
    /// Row number, counted from 0.
    pub row: u32,
    pub cells: Vec<Cell>,
}

/// What a [`RowChange`] says.
#[verifier::ext_equal]
pub struct RowView {
    pub row: u32,
    pub cells: Seq<CellView>,
}

impl View for RowChange {
    type V = RowView;

    open spec fn view(&self) -> RowView {
        RowView { row: self.row, cells: cell_views(self.cells@) }
    }
}

impl Clone for RowChange {
    fn clone(&self) -> (copy: Self)
        ensures
            copy@ == self@,
    {
        RowChange { row: self.row, cells: clone_cells(&self.cells) }
    }
}

/// What a list of row changes says.
pub open spec fn row_views(rows: Seq<RowChange>) -> Seq<RowView> {
    rows.map_values(|r: RowChange| r@)
}

/// The rows that changed between two generations.
#[derive(Debug)]
pub struct GridDiff {
    pub rows: Vec<RowChange>,
}

impl View for GridDiff {
    type V = Seq<RowView>;

    open spec fn view(&self) -> Seq<RowView> {
        row_views(self.rows@)
    }
}

impl Default for GridDiff {
    fn default() -> (diff: Self)
        ensures
            diff@ == Seq::<RowView>::empty(),
    {
        let diff = GridDiff { rows: Vec::new() };
        assert(diff@ =~= Seq::<RowView>::empty());
        diff
    }
}

/// Cursor shapes.
#[derive(Clone, Copy, Debug, PartialEq, Eq, Structural)]
pub enum CursorShape {
    Block,
    Bar,
    Underline,
}

impl Default for CursorShape {
    fn default() -> (shape: Self)
        ensures
            shape == CursorShape::Block,
    {
        CursorShape::Block
    }
}

/// Where the cursor stands and how it looks.
#[derive(Clone, Copy, Debug, PartialEq, Eq, Structural)]
pub struct CursorState {
    pub col: u32,
    pub row: u32,
    pub style: CursorShape,
    pub visible: bool,
}

/// The whole grid at one generation.
#[derive(Debug)]
pub struct FullGridSnapshot {
    pub cols: u32,
    pub rows: u32,
    /// Row-major cells: `cells[row * cols + col]`.
    pub cells: Vec<Cell>,
    pub cursor: CursorState,
    /// Whether the alternate screen is showing.
    pub alternate_screen: bool,
    /// Version of the scrollback that belongs to this grid.
    pub history_version: u64,
}

/// One published diff.
#[derive(Debug)]
pub struct DiffEntry {
    pub generation: u64,
    pub diff: GridDiff,
    /// The generation also changed state that row diffs do not carry.
    pub requires_full_snapshot: bool,
}

/// What a [`DiffEntry`] says.
#[verifier::ext_equal]
pub struct EntryView {
    pub generation: u64,
    pub rows: Seq<RowView>,
    pub requires_full_snapshot: bool,
}

impl View for DiffEntry {
    type V = EntryView;

    open spec fn view(&self) -> EntryView {
        EntryView {
            generation: self.generation,
            rows: self.diff@,
            requires_full_snapshot: self.requires_full_snapshot,
        }
    }
}

/// The last diffs, oldest first, bounded by a capacity.
pub struct GridDiffRing {
    entries: VecDeque<DiffEntry>,
    capacity: usize,
}

/// What a client gets for its generation.
#[derive(Debug)]
pub enum GridUpdate {
    /// The rows that changed since.
    Diff { from_generation: u64, to_generation: u64, diff: GridDiff },
    /// The ring no longer reaches back far enough, or rows alone do not tell the change.
    FullSnapshot { to_generation: u64, snapshot: FullGridSnapshot },
    /// The client is current.
    NoChange(u64),
}

/// The newest `n` items of a list.
pub open spec fn newest<A>(items: Seq<A>, n: nat) -> Seq<A> {
    if items.len() > n {
        items.skip(items.len() - n)
    } else {
        items
    }
}

/// Where row number `row` stands among changed rows, if it does.
pub open spec fn row_index(rows: Seq<RowView>, row: u32) -> Option<int>
    decreases rows.len(),
{
    if rows.len() == 0 {
        None
    } else {
        match row_index(rows.drop_last(), row) {
            Some(i) => Some(i),
            None => if rows.last().row == row {
                Some(rows.len() - 1)
            } else {
                None
            },
        }
    }
}

/// A changed row taken into a merged diff: it replaces the cells of the same row, or goes
/// to the end.
pub open spec fn put_row(merged: Seq<RowView>, change: RowView) -> Seq<RowView> {
    match row_index(merged, change.row) {
        Some(i) => merged.update(i, change),
        None => merged.push(change),
    }
}

/// Changed rows taken in one after the other.
pub open spec fn put_rows(merged: Seq<RowView>, changes: Seq<RowView>) -> Seq<RowView>
    decreases changes.len(),
{
    if changes.len() == 0 {
        merged
    } else {
        put_row(put_rows(merged, changes.drop_last()), changes.last())
    }
}

/// The diffs of the entries after `since`, merged in order.
pub open spec fn merged_since(entries: Seq<EntryView>, since: u64) -> Seq<RowView>
    decreases entries.len(),
{
    if entries.len() == 0 {
        Seq::empty()
    } else {
        let before = merged_since(entries.drop_last(), since);
        if entries.last().generation > since {
            put_rows(before, entries.last().rows)
        } else {
            before
        }
    }
}

/// Whether an entry after `since` needs a full snapshot.
pub open spec fn needs_snapshot(entries: Seq<EntryView>, since: u64) -> bool {
    exists|i: int|
        0 <= i < entries.len() && (#[trigger] entries[i]).generation > since
            && entries[i].requires_full_snapshot
}

proof fn lemma_row_index(rows: Seq<RowView>, row: u32)
    ensures
        match row_index(rows, row) {
            Some(i) => 0 <= i < rows.len() && rows[i].row == row && (forall|j: int|
                0 <= j < i ==> (#[trigger] rows[j]).row != row),
            None => forall|j: int| 0 <= j < rows.len() ==> (#[trigger] rows[j]).row != row,
        },
    decreases rows.len(),
{
    if rows.len() > 0 {
        lemma_row_index(rows.drop_last(), row);
        assert forall|j: int| 0 <= j < rows.len() - 1 implies rows.drop_last()[j]
            == #[trigger] rows[j] by {}
    }
}

impl GridDiffRing {
    /// The entries, oldest first.
    pub closed spec fn view(&self) -> Seq<EntryView> {
        self.entries@.map_values(|e: DiffEntry| e@)
    }

    /// How many entries are kept.
    pub closed spec fn bound(&self) -> nat {
        self.capacity as nat
    }

    /// No more entries are held than are kept.
    pub open spec fn wf(&self) -> bool {
        self@.len() <= self.bound()
    }

    /// An empty ring.
    pub fn new(capacity: usize) -> (ring: Self)
        ensures
            ring.wf(),
            ring@ == Seq::<EntryView>::empty(),
            ring.bound() == capacity,
    {
        let ring = GridDiffRing { entries: VecDeque::new(), capacity };
        assert(ring@ =~= Seq::<EntryView>::empty());
        ring
    }

    fn push_entry(&mut self, entry: DiffEntry)
        ensures
            final(self).wf(),
            final(self).bound() == old(self).bound(),
            final(self)@ == newest(old(self)@.push(entry@), old(self).bound()),
    {
        self.entries.push_back(entry);
        let ghost all = self@;
        assert(all =~= old(self)@.push(entry@));
        let ghost mut dropped: int = 0;
        assert(all.skip(0) =~= all);
        while self.entries.len() > self.capacity
            invariant
                self.capacity == old(self).capacity,
                0 <= dropped,
                dropped + self@.len() == all.len(),
                self@ == all.skip(dropped),
                dropped > 0 ==> self@.len() >= self.capacity,
            decreases self.entries@.len(),
        {
            let ghost before = self@;
            self.entries.pop_front();
            proof {
                dropped = dropped + 1;
                assert(self@ =~= before.skip(1));
                assert(self@ =~= all.skip(dropped));
            }
        }
    }

    /// Add a generation's diff, dropping the oldest entries beyond the capacity.
    pub fn push(&mut self, generation: u64, diff: GridDiff)
        ensures
            final(self).wf(),
            final(self).bound() == old(self).bound(),
            final(self)@ == newest(
                old(self)@.push(
                    EntryView { generation, rows: diff@, requires_full_snapshot: false },
                ),
                old(self).bound(),
            ),
    {
        self.push_entry(DiffEntry { generation, diff, requires_full_snapshot: false });
    }

    /// Add a generation that also changed state which row diffs do not carry.
    pub fn push_requiring_full_snapshot(&mut self, generation: u64, diff: GridDiff)
        ensures
            final(self).wf(),
            final(self).bound() == old(self).bound(),
            final(self)@ == newest(
                old(self)@.push(
                    EntryView { generation, rows: diff@, requires_full_snapshot: true },
                ),
                old(self).bound(),
            ),
    {
        self.push_entry(DiffEntry { generation, diff, requires_full_snapshot: true });
    }

    /// The diffs after `since`, merged.
    fn merge_since(&self, since_generation: u64) -> (merged: GridDiff)
        ensures
            merged@ == merged_since(self@, since_generation),
    {
        let mut merged = GridDiff::default();
        let mut i: usize = 0;
        assert(self@.take(0) =~= Seq::<EntryView>::empty());
        while i < self.entries.len()
            invariant
                i <= self.entries@.len(),
                merged@ == merged_since(self@.take(i as int), since_generation),
            decreases self.entries@.len() - i,
        {
            let entry = &self.entries[i];
            let ghost before = merged@;
            assert(self@.take(i + 1).drop_last() =~= self@.take(i as int));
            assert(self@.take(i + 1).last() == entry@);
            if entry.generation > since_generation {
                let mut k: usize = 0;
                assert(entry.diff@.take(0) =~= Seq::<RowView>::empty());
                while k < entry.diff.rows.len()
                    invariant
                        k <= entry.diff.rows@.len(),
                        merged@ == put_rows(before, entry.diff@.take(k as int)),
                    decreases entry.diff.rows@.len() - k,
                {
                    assert(entry.diff@.take(k + 1).drop_last() =~= entry.diff@.take(k as int));
                    assert(entry.diff@.take(k + 1).last() == entry.diff.rows@[k as int]@);
                    merge_row(&mut merged, &entry.diff.rows[k]);
                    k += 1;
                }
                assert(entry.diff@.take(k as int) =~= entry.diff@);
            }
            i += 1;
        }
        assert(self@.take(i as int) =~= self@);
        merged
    }

    fn any_snapshot_needed(&self, since_generation: u64) -> (needed: bool)
        ensures
            needed == needs_snapshot(self@, since_generation),
    {
        let mut i: usize = 0;
        while i < self.entries.len()
            invariant
                i <= self.entries@.len(),
                forall|j: int|
                    0 <= j < i ==> !((#[trigger] self@[j]).generation > since_generation
                        && self@[j].requires_full_snapshot),
            decreases self.entries@.len() - i,
        {
            assert(self@[i as int] == self.entries@[i as int]@);
            if self.entries[i].generation > since_generation
                && self.entries[i].requires_full_snapshot {
                return true;
            }
            i += 1;
        }
        false
    }

    /// What a client at `since_generation` needs to reach `current`. The snapshot is only
    /// taken when one is sent.
    pub fn fetch_update<F: FnOnce() -> FullGridSnapshot>(
        &self,
        since_generation: u64,
        current: u64,
        take_snapshot: F,
    ) -> (update: GridUpdate)
        requires
            call_requires(take_snapshot, ()),
        ensures
            since_generation >= current ==> update == GridUpdate::NoChange(current),
            since_generation < current && ((self@.len() > 0 && since_generation
                < self@[0].generation) || needs_snapshot(self@, since_generation)) ==> (
            update matches GridUpdate::FullSnapshot { to_generation, snapshot } && to_generation
                == current && call_ensures(take_snapshot, (), snapshot)),
            since_generation < current && !((self@.len() > 0 && since_generation
                < self@[0].generation) || needs_snapshot(self@, since_generation)) ==> (
            update matches GridUpdate::Diff { from_generation, to_generation, diff }
                && from_generation == since_generation && to_generation == current && diff@
                == merged_since(self@, since_generation)),
    {
        if since_generation >= current {
            return GridUpdate::NoChange(current);
        }
        if self.entries.len() > 0 {
            assert(self@[0] == self.entries@[0]@);
            if since_generation < self.entries[0].generation {
                return GridUpdate::FullSnapshot {
                    to_generation: current,
                    snapshot: take_snapshot(),
                };
            }
        }
        if self.any_snapshot_needed(since_generation) {
            return GridUpdate::FullSnapshot { to_generation: current, snapshot: take_snapshot() };
        }
        GridUpdate::Diff {
            from_generation: since_generation,
            to_generation: current,
            diff: self.merge_since(since_generation),
        }
    }

    /// How many entries are held.
    pub fn len(&self) -> (n: usize)
        ensures
            n == self@.len(),
    {
        self.entries.len()
    }

    /// Whether no entry is held.
    pub fn is_empty(&self) -> (empty: bool)
        ensures
            empty == (self@.len() == 0),
    {
        self.entries.len() == 0
    }
}

/// Take one changed row into a merged diff.
fn merge_row(merged: &mut GridDiff, change: &RowChange)
    ensures
        final(merged)@ == put_row(old(merged)@, change@),
{
    let mut i: usize = 0;
    proof {
        lemma_row_index(merged@, change.row);
    }
    while i < merged.rows.len()
        invariant
            i <= merged.rows@.len(),
            *merged == *old(merged),
            forall|j: int| 0 <= j < i ==> (#[trigger] merged@[j]).row != change.row,
        decreases merged.rows@.len() - i,
    {
        assert(merged@[i as int] == merged.rows@[i as int]@);
        if merged.rows[i].row == change.row {
            proof {
                lemma_row_index(merged@, change.row);
            }
            let replacement = change.clone();
            merged.rows.set(i, replacement);
            assert(merged@ =~= put_row(old(merged)@, change@));
            return ;
        }
        i += 1;
    }
    proof {
        lemma_row_index(merged@, change.row);
    }
    merged.rows.push(change.clone());
    assert(merged@ =~= put_row(old(merged)@, change@));
}

/// A grid, row by row, after changed rows were drawn on it in order.
pub open spec fn drawn(grid: Map<u32, Seq<CellView>>, rows: Seq<RowView>) -> Map<
    u32,
    Seq<CellView>,
>
    decreases rows.len(),
{
    if rows.len() == 0 {
        grid
    } else {
        drawn(grid, rows.drop_last()).insert(rows.last().row, rows.last().cells)
    }
}

/// A grid after every diff beyond `since` was drawn on it in order.
pub open spec fn drawn_since(
    grid: Map<u32, Seq<CellView>>,
    entries: Seq<EntryView>,
    since: u64,
) -> Map<u32, Seq<CellView>>
    decreases entries.len(),
{
    if entries.len() == 0 {
        grid
    } else {
        let before = drawn_since(grid, entries.drop_last(), since);
        if entries.last().generation > since {
            drawn(before, entries.last().rows)
        } else {
            before
        }
    }
}

/// Whether no row number occurs twice.
pub open spec fn rows_distinct(rows: Seq<RowView>) -> bool {
    forall|i: int, j: int|
        0 <= i < j < rows.len() ==> (#[trigger] rows[i]).row != (#[trigger] rows[j]).row
}

/// Of distinct rows, each shows its own cells once drawn, and other rows stay.
proof fn lemma_drawn_distinct(grid: Map<u32, Seq<CellView>>, rows: Seq<RowView>)
    requires
        rows_distinct(rows),
    ensures
        forall|i: int|
            0 <= i < rows.len() ==> drawn(grid, rows).dom().contains((#[trigger] rows[i]).row)
                && drawn(grid, rows)[rows[i].row] == rows[i].cells,
        forall|r: u32|
            (forall|i: int| 0 <= i < rows.len() ==> (#[trigger] rows[i]).row != r) ==> (
            #[trigger] drawn(grid, rows).dom().contains(r) <==> grid.dom().contains(r)) && (
            grid.dom().contains(r) ==> drawn(grid, rows)[r] == grid[r]),
    decreases rows.len(),
{
    if rows.len() > 0 {
        let head = rows.drop_last();
        assert forall|i: int, j: int| 0 <= i < j < head.len() implies (#[trigger] head[i]).row != (
        #[trigger] head[j]).row by {
            assert(head[i] == rows[i] && head[j] == rows[j]);
        }
        lemma_drawn_distinct(grid, head);
        assert forall|i: int| 0 <= i < rows.len() implies drawn(grid, rows).dom().contains(
            (#[trigger] rows[i]).row,
        ) && drawn(grid, rows)[rows[i].row] == rows[i].cells by {
            if i < rows.len() - 1 {
                assert(head[i] == rows[i]);
                assert(rows[i].row != rows[rows.len() - 1].row);
            }
        }
        assert forall|r: u32|
            (forall|i: int| 0 <= i < rows.len() ==> (#[trigger] rows[i]).row != r) implies (
        #[trigger] drawn(grid, rows).dom().contains(r) <==> grid.dom().contains(r)) && (
        grid.dom().contains(r) ==> drawn(grid, rows)[r] == grid[r]) by {
            assert(rows[rows.len() - 1].row != r);
            assert forall|i: int| 0 <= i < head.len() implies (#[trigger] head[i]).row != r by {
                assert(head[i] == rows[i]);
            }
            assert(drawn(grid, head).dom().contains(r) <==> grid.dom().contains(r));
        }
    }
}

/// Drawing a merged row draws the change over what was merged before.
proof fn lemma_put_row(grid: Map<u32, Seq<CellView>>, merged: Seq<RowView>, change: RowView)
    requires
        rows_distinct(merged),
    ensures
        rows_distinct(put_row(merged, change)),
        drawn(grid, put_row(merged, change)) == drawn(grid, merged).insert(
            change.row,
            change.cells,
        ),
{
    let put = put_row(merged, change);
    lemma_row_index(merged, change.row);
    lemma_drawn_distinct(grid, merged);
    assert(rows_distinct(put)) by {
        assert forall|i: int, j: int| 0 <= i < j < put.len() implies (#[trigger] put[i]).row != (
        #[trigger] put[j]).row by {
            if i < merged.len() && j < merged.len() {
                assert(merged[i].row != merged[j].row);
            }
        }
    }
    lemma_drawn_distinct(grid, put);
    let lhs = drawn(grid, put);
    let rhs = drawn(grid, merged).insert(change.row, change.cells);
    assert forall|r: u32| true implies (#[trigger] lhs.dom().contains(r) <==> rhs.dom().contains(r))
        && (lhs.dom().contains(r) ==> lhs[r] == rhs[r]) by {
        if r == change.row {
            match row_index(merged, change.row) {
                Some(i) => {
                    assert(put[i] == change);
                },
                None => {
                    assert(put[put.len() - 1] == change);
                },
            }
        } else if exists|i: int| 0 <= i < merged.len() && (#[trigger] merged[i]).row == r {
            let i = choose|i: int| 0 <= i < merged.len() && (#[trigger] merged[i]).row == r;
            assert(put[i] == merged[i]);
        } else {
            assert forall|i: int| 0 <= i < put.len() implies (#[trigger] put[i]).row != r by {
                if i < merged.len() {
                    assert(merged[i].row != r);
                }
            }
            assert(lhs.dom().contains(r) <==> grid.dom().contains(r));
            assert(drawn(grid, merged).dom().contains(r) <==> grid.dom().contains(r));
        }
    }
    assert(lhs =~= rhs);
}

proof fn lemma_put_rows(
    grid: Map<u32, Seq<CellView>>,
    merged: Seq<RowView>,
    changes: Seq<RowView>,
)
    requires
        rows_distinct(merged),
    ensures
        rows_distinct(put_rows(merged, changes)),
        drawn(grid, put_rows(merged, changes)) == drawn(drawn(grid, merged), changes),
    decreases changes.len(),
{
    if changes.len() > 0 {
        lemma_put_rows(grid, merged, changes.drop_last());
        lemma_put_row(grid, put_rows(merged, changes.drop_last()), changes.last());
    }
}

/// A merged diff names every row once, and drawing it gives the same grid as drawing every
/// diff beyond `since` one after the other.
pub proof fn law_merged_diff_draws_every_change(
    grid: Map<u32, Seq<CellView>>,
    entries: Seq<EntryView>,
    since: u64,
)
    ensures
        rows_distinct(merged_since(entries, since)),
        drawn(grid, merged_since(entries, since)) == drawn_since(grid, entries, since),
    decreases entries.len(),
{
    if entries.len() > 0 {
        law_merged_diff_draws_every_change(grid, entries.drop_last(), since);
        if entries.last().generation > since {
            lemma_put_rows(
                grid,
                merged_since(entries.drop_last(), since),
                entries.last().rows,
            );
        }
    }
}

/// Cache version of a scrollback: a counter that advances when the ring wraps, and the time
/// it last did, in Unix seconds.
#[derive(Clone, Copy, Debug, PartialEq, Eq, Structural)]
pub struct ScrollbackVersion {
    pub counter: u64,
    pub timestamp: u64,
}

impl Default for ScrollbackVersion {
    fn default() -> (version: Self)
        ensures
            version == (ScrollbackVersion { counter: 0, timestamp: 0 }),
    {
        ScrollbackVersion { counter: 0, timestamp: 0 }
    }
}

impl ScrollbackVersion {
    /// The first version, stamped with the clock's time.
    pub fn new() -> (version: Self)
        ensures
            version.counter == 1,
    {
        Self::first_at(unix_seconds())
    }

    /// The first version, stamped with a given time.
    pub fn first_at(timestamp: u64) -> (version: Self)
        ensures
            version == (ScrollbackVersion { counter: 1, timestamp }),
    {
        ScrollbackVersion { counter: 1, timestamp }
    }

    /// The next version, stamped with the clock's time.
    pub fn bump(&mut self)
        requires
            old(self).counter < u64::MAX,
        ensures
            final(self).counter == old(self).counter + 1,
    {
        self.bump_at(unix_seconds());
    }

    /// The next version, stamped with a given time.
    pub fn bump_at(&mut self, timestamp: u64)
        requires
            old(self).counter < u64::MAX,
        ensures
            *final(self) == (ScrollbackVersion {
                counter: (old(self).counter + 1) as u64,
                timestamp,
            }),
    {
        self.counter = self.counter + 1;
        self.timestamp = timestamp;
    }

    /// What a version is on the wire: the low 32 bits of the counter above the low 32 bits of
    /// the time.
    pub open spec fn encoded(self) -> int {
        (self.counter as int % 0x1_0000_0000) * 0x1_0000_0000 + self.timestamp as int
            % 0x1_0000_0000
    }

    /// The version that a number on the wire stands for.
    pub open spec fn decoded(encoded: u64) -> ScrollbackVersion {
        ScrollbackVersion {
            counter: (encoded as int / 0x1_0000_0000) as u64,
            timestamp: (encoded as int % 0x1_0000_0000) as u64,
        }
    }

    /// The version in one number.
    pub fn encode(&self) -> (encoded: u64)
        ensures
            encoded == self.encoded(),
    {
        let counter = self.counter;
        let timestamp = self.timestamp;
        let encoded: u64 = (counter << 32) | (timestamp & 0xFFFF_FFFF);
        assert(encoded == (counter % 0x1_0000_0000) * 0x1_0000_0000 + timestamp % 0x1_0000_0000)
            by (bit_vector)
            requires
                encoded == (counter << 32) | (timestamp & 0xFFFF_FFFF),
        ;
        encoded
    }

    /// The version that a number stands for.
    pub fn decode(encoded: u64) -> (version: Self)
        ensures
            version == Self::decoded(encoded),
    {
        assert(encoded >> 32 == encoded / 0x1_0000_0000) by (bit_vector);
        assert(encoded & 0xFFFF_FFFF == encoded % 0x1_0000_0000) by (bit_vector);
        ScrollbackVersion { counter: encoded >> 32, timestamp: encoded & 0xFFFF_FFFF }
    }
}

/// A version whose two halves fit 32 bits survives the wire.
pub proof fn law_scrollback_version_round_trip(version: ScrollbackVersion)
    requires
        version.counter < 0x1_0000_0000,
        version.timestamp < 0x1_0000_0000,
    ensures
        version.encoded() <= u64::MAX,
        ScrollbackVersion::decoded(version.encoded() as u64) == version,
{
}

/// Every number on the wire is the encoding of the version it decodes to.
pub proof fn law_scrollback_version_wire_round_trip(encoded: u64)
    ensures
        ScrollbackVersion::decoded(encoded).encoded() == encoded,
{
}

/// History rows, oldest first, bounded by a capacity.
#[derive(Debug)]
pub struct ScrollbackBuffer {
    pub rows: Vec<RowChange>,
    pub capacity: usize,
}

/// The characters of a row's cells, joined.
pub open spec fn row_text(cells: Seq<CellView>) -> Seq<char>
    decreases cells.len(),
{
    if cells.len() == 0 {
        Seq::empty()
    } else {
        row_text(cells.drop_last()) + cells.last().character
    }
}

/// The rows that a request names: those that end at a line for direction 0, else those that begin
/// there.
pub open spec fn fetched(rows: Seq<RowView>, from_line: int, count: int, direction: u32) -> Seq<
    RowView,
> {
    if rows.len() == 0 || (direction != 0 && from_line >= rows.len()) {
        Seq::empty()
    } else if direction == 0 {
        rows.subrange(
            if from_line + 1 >= count {
                from_line + 1 - count
            } else {
                0
            },
            from_line + 1,
        )
    } else {
        rows.subrange(
            from_line,
            if from_line + count <= rows.len() {
                from_line + count
            } else {
                rows.len() as int
            },
        )
    }
}

/// The order in which rows are searched: upwards from `from` to the oldest row, or downwards
/// from `from` to the newest. Upwards, a start beyond the newest row means the newest.
pub open spec fn search_order(total: nat, from: nat, direction: u32) -> Seq<int> {
    if direction == 0 {
        let start = if from >= total {
            total - 1
        } else {
            from as int
        };
        Seq::new((start + 1) as nat, |i: int| start - i)
    } else if from >= total {
        Seq::empty()
    } else {
        Seq::new((total - from) as nat, |i: int| from + i)
    }
}

/// The matching rows with their numbers, in search order.
pub open spec fn matching_rows(
    rows: Seq<RowView>,
    pattern: Seq<char>,
    order: Seq<int>,
) -> Seq<(u32, RowView)>
    decreases order.len(),
{
    if order.len() == 0 {
        Seq::empty()
    } else {
        let before = matching_rows(rows, pattern, order.drop_last());
        let at = order.last();
        if crate::pattern::regex_matches(pattern, row_text(rows[at].cells)) {
            before.push((at as u32, rows[at]))
        } else {
            before
        }
    }
}

/// At most the first `max` items.
pub open spec fn at_most<A>(items: Seq<A>, max: nat) -> Seq<A> {
    if items.len() > max {
        items.take(max as int)
    } else {
        items
    }
}

/// What a list of numbered rows says.
pub open spec fn numbered_views(hits: Seq<(u32, RowChange)>) -> Seq<(u32, RowView)> {
    hits.map_values(|h: (u32, RowChange)| (h.0, h.1@))
}

proof fn lemma_matching_rows_prefix(
    rows: Seq<RowView>,
    pattern: Seq<char>,
    order: Seq<int>,
    n: int,
)
    requires
        0 <= n <= order.len(),
    ensures
        matching_rows(rows, pattern, order.take(n)).len() <= matching_rows(
            rows,
            pattern,
            order,
        ).len(),
        matching_rows(rows, pattern, order).take(
            matching_rows(rows, pattern, order.take(n)).len() as int,
        ) == matching_rows(rows, pattern, order.take(n)),
    decreases order.len() - n,
{
    let here = matching_rows(rows, pattern, order.take(n));
    if n == order.len() {
        assert(order.take(n) =~= order);
        assert(here.take(here.len() as int) =~= here);
    } else {
        lemma_matching_rows_prefix(rows, pattern, order, n + 1);
        assert(order.take(n + 1).drop_last() =~= order.take(n));
        let next = matching_rows(rows, pattern, order.take(n + 1));
        assert(next.take(here.len() as int) =~= here);
        assert(matching_rows(rows, pattern, order).take(here.len() as int) =~= next.take(
            here.len() as int,
        ));
    }
}

/// The characters of a row, joined.
fn joined_text(cells: &Vec<Cell>) -> (text: String)
    ensures
        text@ == row_text(cell_views(cells@)),
{
    let mut text = String::new();
    let mut i: usize = 0;
    let ghost views = cell_views(cells@);
    assert(views.take(0) =~= Seq::<CellView>::empty());
    while i < cells.len()
        invariant
            i <= cells@.len(),
            views == cell_views(cells@),
            text@ == row_text(views.take(i as int)),
        decreases cells@.len() - i,
    {
        assert(views.take(i + 1).drop_last() =~= views.take(i as int));
        text.append(cells[i].character.as_str());
        i += 1;
    }
    assert(views.take(i as int) =~= views);
    text
}

impl ScrollbackBuffer {
    /// The rows, oldest first.
    pub open spec fn view(&self) -> Seq<RowView> {
        row_views(self.rows@)
    }

    /// How many rows are kept.
    pub open spec fn bound(&self) -> nat {
        self.capacity as nat
    }

    /// An empty buffer.
    pub fn new(capacity: usize) -> (buffer: Self)
        ensures
            buffer@ == Seq::<RowView>::empty(),
            buffer.bound() == capacity,
    {
        let buffer = ScrollbackBuffer { rows: Vec::new(), capacity };
        assert(buffer@ =~= Seq::<RowView>::empty());
        buffer
    }

    /// Add the newest row, dropping the oldest rows beyond the capacity.
    pub fn push_row(&mut self, row: RowChange)
        ensures
            final(self)@ == newest(old(self)@.push(row@), old(self).bound()),
            final(self)@.len() <= old(self).bound(),
            final(self).bound() == old(self).bound(),
    {
        self.rows.push(row);
        let ghost all = self@;
        assert(all =~= old(self)@.push(row@));
        let ghost mut dropped: int = 0;
        assert(all.skip(0) =~= all);
        while self.rows.len() > self.capacity
            invariant
                self.capacity == old(self).capacity,
                0 <= dropped,
                dropped + self@.len() == all.len(),
                self@ == all.skip(dropped),
                dropped > 0 ==> self@.len() >= self.capacity,
            decreases self.rows@.len(),
        {
            let ghost before = self@;
            self.rows.remove(0);
            proof {
                dropped = dropped + 1;
                assert(self@ =~= before.skip(1));
                assert(self@ =~= all.skip(dropped));
            }
        }
    }

    /// How many rows are held, in 32 bits.
    pub fn total_lines(&self) -> (n: u32)
        ensures
            n == self@.len() as u32,
    {
        self.rows.len() as u32
    }

    /// Up to `count` rows: ending at `from_line` when `direction` is 0 (towards the oldest),
    /// else starting there (towards the newest). Rows come out oldest first.
    pub fn fetch_lines(&self, from_line: u32, count: u32, direction: u32) -> (lines: Vec<RowChange>)
        requires
            direction == 0 && self@.len() > 0 ==> from_line < self@.len(),
        ensures
            row_views(lines@) == fetched(self@, from_line as int, count as int, direction),
    {
        let total = self.rows.len();
        if total == 0 {
            let none: Vec<RowChange> = Vec::new();
            assert(row_views(none@) =~= Seq::<RowView>::empty());
            return none;
        }
        let from = from_line as usize;
        let count = count as usize;
        if direction == 0 {
            let start: usize = if from + 1 >= count {
                from + 1 - count
            } else {
                0
            };
            self.copy_rows(start, from + 1)
        } else {
            if from >= total {
                let none: Vec<RowChange> = Vec::new();
                assert(row_views(none@) =~= Seq::<RowView>::empty());
                return none;
            }
            let end: usize = if count <= total - from {
                from + count
            } else {
                total
            };
            self.copy_rows(from, end)
        }
    }

    fn copy_rows(&self, start: usize, end: usize) -> (lines: Vec<RowChange>)
        requires
            start <= end <= self@.len(),
        ensures
            row_views(lines@) == self@.subrange(start as int, end as int),
    {
        let mut lines: Vec<RowChange> = Vec::new();
        let mut i: usize = start;
        while i < end
            invariant
                start <= i <= end <= self.rows@.len(),
                lines@.len() == i - start,
                forall|j: int| 0 <= j < i - start ==> (#[trigger] lines@[j])@ == self@[start + j],
            decreases end - i,
        {
            lines.push(self.rows[i].clone());
            i += 1;
        }
        assert(row_views(lines@) =~= self@.subrange(start as int, end as int));
        lines
    }

    /// Up to `max_results` rows that match a regular expression, with their numbers, in search
    /// order. A pattern that does not compile matches nothing.
    pub fn search(
        &self,
        regex: &str,
        from_line: u32,
        direction: u32,
        max_results: u32,
    ) -> (hits: Vec<(u32, RowChange)>)
        ensures
            numbered_views(hits@) == (if crate::pattern::regex_is_valid(regex@) {
                at_most(
                    matching_rows(
                        self@,
                        regex@,
                        search_order(self@.len(), from_line as nat, direction),
                    ),
                    max_results as nat,
                )
            } else {
                Seq::empty()
            }),
    {
        let mut hits: Vec<(u32, RowChange)> = Vec::new();
        let total = self.rows.len();
        let from = from_line as usize;
        let max = max_results as usize;
        let ghost order = search_order(self@.len(), from_line as nat, direction);
        assert(numbered_views(hits@) =~= Seq::<(u32, RowView)>::empty());
        if total == 0 {
            assert(order =~= Seq::<int>::empty());
            return hits;
        }
        if !regex_compiles(regex) {
            return hits;
        }
        let steps: usize = if direction == 0 {
            if from >= total {
                total
            } else {
                from + 1
            }
        } else if from >= total {
            0
        } else {
            total - from
        };
        assert(order.len() == steps);
        let mut k: usize = 0;
        assert(order.take(0) =~= Seq::<int>::empty());
        while k < steps && hits.len() < max
            invariant
                k <= steps == order.len(),
                order == search_order(self@.len(), from_line as nat, direction),
                total == self@.len() == self.rows@.len(),
                total > 0,
                from == from_line,
                max == max_results,
                steps <= total,
                direction == 0 && from >= total ==> steps == total,
                direction == 0 && from < total ==> steps == from + 1,
                direction != 0 && from < total ==> steps == total - from,
                direction != 0 && from >= total ==> steps == 0,
                crate::pattern::regex_is_valid(regex@),
                hits@.len() <= max,
                numbered_views(hits@) == matching_rows(self@, regex@, order.take(k as int)),
            decreases steps - k,
        {
            let idx: usize = if direction == 0 {
                steps - 1 - k
            } else {
                from + k
            };
            assert(order[k as int] == idx);
            assert(order.take(k + 1).drop_last() =~= order.take(k as int));
            assert(order.take(k + 1).last() == idx);
            let text = joined_text(&self.rows[idx].cells);
            if regex_is_match(regex, text.as_str()) {
                hits.push((idx as u32, self.rows[idx].clone()));
            }
            assert(numbered_views(hits@) =~= matching_rows(self@, regex@, order.take(k + 1)));
            k += 1;
        }
        proof {
            lemma_matching_rows_prefix(self@, regex@, order, k as int);
            let all = matching_rows(self@, regex@, order);
            if k == steps {
                assert(order.take(k as int) =~= order);
                assert(at_most(all, max as nat) =~= all);
            } else if all.len() == max {
                assert(all.take(max as int) =~= all);
            }
        }
        hits
    }

    /// Whether the next row makes the buffer wrap.
    pub fn is_full(&self) -> (full: bool)
        ensures
            full == (self@.len() >= self.bound()),
    {
        self.rows.len() >= self.capacity
    }

    /// Drop every row.
    pub fn clear(&mut self)
        ensures
            final(self)@ == Seq::<RowView>::empty(),
            final(self).bound() == old(self).bound(),
    {
        self.rows.clear();
        assert(self@ =~= Seq::<RowView>::empty());
    }
}

/// A snapshot of a grid with nothing on it and a visible block cursor in the corner.
pub fn build_empty_snapshot(cols: u32, rows: u32) -> (snapshot: FullGridSnapshot)
    requires
        cols * rows <= usize::MAX,
    ensures
        snapshot.cols == cols,
        snapshot.rows == rows,
        cell_views(snapshot.cells@) == Seq::new((cols * rows) as nat, |i: int| CellView::blank()),
        snapshot.cursor == (CursorState {
            col: 0,
            row: 0,
            style: CursorShape::Block,
            visible: true,
        }),
        !snapshot.alternate_screen,
        snapshot.history_version == 0,
{
    assert(cols * rows <= 0xffff_ffff_ffff_ffff) by (nonlinear_arith)
        requires
            cols <= 0xffff_ffff,
            rows <= 0xffff_ffff,
    ;
    assert(0 <= cols * rows) by (nonlinear_arith);
    let cell_count: u64 = cols as u64 * rows as u64;
    let mut cells: Vec<Cell> = Vec::new();
    let mut i: u64 = 0;
    while i < cell_count
        invariant
            i <= cell_count,
            cells@.len() == i,
            forall|j: int| 0 <= j < i ==> (#[trigger] cells@[j])@ == CellView::blank(),
        decreases cell_count - i,
    {
        cells.push(Cell::default());
        i += 1;
    }
    assert(cell_views(cells@) =~= Seq::new((cols * rows) as nat, |i: int| CellView::blank()));
    FullGridSnapshot {
        cols,
        rows,
        cells,
        cursor: CursorState { col: 0, row: 0, style: CursorShape::Block, visible: true },
        alternate_screen: false,
        history_version: 0,
    }
}

proof fn lemma_drawn_from(
    grid: Map<u32, Seq<CellView>>,
    entries: Seq<EntryView>,
    since: u64,
    skipped: int,
)
    requires
        0 <= skipped <= entries.len(),
        forall|i: int| 0 <= i < skipped ==> (#[trigger] entries[i]).generation <= since,
    ensures
        drawn_since(grid, entries, since) == drawn_since(grid, entries.skip(skipped), since),
    decreases entries.len(),
{
    let rest = entries.skip(skipped);
    if skipped == entries.len() {
        if entries.len() > 0 {
            assert(entries[entries.len() - 1].generation <= since);
            let head = entries.drop_last();
            assert forall|i: int| 0 <= i < head.len() implies (#[trigger] head[i]).generation
                <= since by {
                assert(head[i] == entries[i]);
            }
            lemma_drawn_from(grid, head, since, head.len() as int);
            assert(head.skip(head.len() as int) =~= rest);
        } else {
            assert(rest =~= entries);
        }
    } else {
        let head = entries.drop_last();
        assert forall|i: int| 0 <= i < skipped implies (#[trigger] head[i]).generation
            <= since by {
            assert(head[i] == entries[i]);
        }
        lemma_drawn_from(grid, head, since, skipped);
        assert(rest.drop_last() =~= head.skip(skipped));
        assert(rest.last() == entries.last());
    }
}

/// A client whose generation the ring still reaches gets there by the merged diff: it draws what
/// drawing every diff that was ever published beyond its generation draws, though the ring only
/// keeps the newest ones.
pub proof fn law_ring_brings_a_client_up_to_date(
    grid: Map<u32, Seq<CellView>>,
    published: Seq<EntryView>,
    capacity: nat,
    since: u64,
)
    requires
        capacity > 0,
        forall|i: int, j: int|
            0 <= i < j < published.len() ==> (#[trigger] published[i]).generation < (
            #[trigger] published[j]).generation,
        newest(published, capacity).len() > 0 ==> since >= newest(published, capacity)[0].generation,
    ensures
        newest(published, capacity).len() <= capacity,
        drawn(grid, merged_since(newest(published, capacity), since)) == drawn_since(
            grid,
            published,
            since,
        ),
{
    let ring = newest(published, capacity);
    law_merged_diff_draws_every_change(grid, ring, since);
    let skipped = published.len() - ring.len();
    assert(ring =~= published.skip(skipped));
    if published.len() > 0 {
        assert(ring[0] == published[skipped]);
        assert forall|i: int| 0 <= i < skipped implies (#[trigger] published[i]).generation
            <= since by {
            assert(published[i].generation < published[skipped].generation);
        }
    }
    lemma_drawn_from(grid, published, since, skipped);
}

/// Whether found rows hold a row under its number.
pub open spec fn finds(found: Seq<(u32, RowView)>, number: int, row: RowView) -> bool {
    exists|i: int| 0 <= i < found.len() && #[trigger] found[i] == (number as u32, row)
}

proof fn lemma_matching_rows(rows: Seq<RowView>, pattern: Seq<char>, order: Seq<int>, number: int)
    requires
        rows.len() <= u32::MAX,
        0 <= number < rows.len(),
        forall|i: int| 0 <= i < order.len() ==> 0 <= #[trigger] order[i] < rows.len(),
    ensures
        finds(matching_rows(rows, pattern, order), number, rows[number]) <==> order.contains(number)
            && crate::pattern::regex_matches(pattern, row_text(rows[number].cells)),
        forall|i: int|
            0 <= i < matching_rows(rows, pattern, order).len() ==> order.contains(
                (#[trigger] matching_rows(rows, pattern, order)[i]).0 as int,
            ) && matching_rows(rows, pattern, order)[i].1 == rows[matching_rows(
                rows,
                pattern,
                order,
            )[i].0 as int],
    decreases order.len(),
{
    let found = matching_rows(rows, pattern, order);
    if order.len() > 0 {
        let head = order.drop_last();
        assert forall|i: int| 0 <= i < head.len() implies 0 <= #[trigger] head[i] < rows.len() by {
            assert(head[i] == order[i]);
        }
        lemma_matching_rows(rows, pattern, head, number);
        let before = matching_rows(rows, pattern, head);
        let at = order[order.len() - 1];
        assert(order.contains(at));
        if head.contains(number) {
            let i = choose|i: int| 0 <= i < head.len() && head[i] == number;
            assert(order[i] == number);
        }
        if order.contains(number) && number != at {
            let i = choose|i: int| 0 <= i < order.len() && order[i] == number;
            assert(head[i] == number);
        }
        if finds(before, number, rows[number]) {
            let i = choose|i: int|
                0 <= i < before.len() && #[trigger] before[i] == (number as u32, rows[number]);
            assert(found[i] == (number as u32, rows[number]));
        }
        if found.len() > before.len() {
            assert(found[before.len() as int] == (at as u32, rows[at]));
        }
        if finds(found, number, rows[number]) && number != at {
            let i = choose|i: int|
                0 <= i < found.len() && #[trigger] found[i] == (number as u32, rows[number]);
            assert(before[i] == (number as u32, rows[number]));
        }
        assert forall|i: int| 0 <= i < found.len() implies order.contains(
            (#[trigger] found[i]).0 as int,
        ) && found[i].1 == rows[found[i].0 as int] by {
            if i < before.len() {
                assert(before[i] == found[i]);
                let k = choose|k: int| 0 <= k < head.len() && head[k] == before[i].0;
                assert(order[k] == before[i].0);
            }
        }
    }
}

/// A search of a buffer that no limit cuts finds a row exactly if its text matches and it lies at
/// the line it starts from or beyond: older rows for direction 0, newer ones otherwise. A start
/// behind the newest row counts as that row towards older ones, and finds nothing towards newer.
pub proof fn law_search_finds_the_rows_on_its_side(
    rows: Seq<RowView>,
    pattern: Seq<char>,
    from_line: u32,
    direction: u32,
    number: int,
)
    requires
        rows.len() <= u32::MAX,
        0 <= number < rows.len(),
    ensures
        finds(
            matching_rows(rows, pattern, search_order(rows.len(), from_line as nat, direction)),
            number,
            rows[number],
        ) <==> crate::pattern::regex_matches(pattern, row_text(rows[number].cells)) && if direction
            == 0 {
            number <= from_line
        } else {
            number >= from_line
        },
{
    let order = search_order(rows.len(), from_line as nat, direction);
    lemma_matching_rows(rows, pattern, order, number);
    if direction == 0 && number <= from_line {
        let start = if from_line >= rows.len() {
            rows.len() - 1
        } else {
            from_line as int
        };
        assert(order[start - number] == number);
    }
    if direction != 0 && number >= from_line {
        assert(order[number - from_line] == number);
    }
}

proof fn lemma_matching_rows_ordered(
    rows: Seq<RowView>,
    pattern: Seq<char>,
    order: Seq<int>,
    up: bool,
)
    requires
        rows.len() <= u32::MAX,
        forall|i: int| 0 <= i < order.len() ==> 0 <= #[trigger] order[i] < rows.len(),
        forall|i: int, j: int|
            0 <= i < j < order.len() ==> if up {
                #[trigger] order[i] < #[trigger] order[j]
            } else {
                order[i] > order[j]
            },
    ensures
        forall|i: int, j: int|
            0 <= i < j < matching_rows(rows, pattern, order).len() ==> if up {
                (#[trigger] matching_rows(rows, pattern, order)[i]).0 < (#[trigger] matching_rows(
                    rows,
                    pattern,
                    order,
                )[j]).0
            } else {
                matching_rows(rows, pattern, order)[i].0 > matching_rows(rows, pattern, order)[j].0
            },
    decreases order.len(),
{
    if order.len() > 0 {
        let found = matching_rows(rows, pattern, order);
        let head = order.drop_last();
        let before = matching_rows(rows, pattern, head);
        assert forall|i: int| 0 <= i < head.len() implies 0 <= #[trigger] head[i] < rows.len() by {
            assert(head[i] == order[i]);
        }
        assert forall|i: int, j: int| 0 <= i < j < head.len() implies if up {
            #[trigger] head[i] < #[trigger] head[j]
        } else {
            head[i] > head[j]
        } by {
            assert(head[i] == order[i] && head[j] == order[j]);
        }
        lemma_matching_rows_ordered(rows, pattern, head, up);
        let at = order[order.len() - 1];
        lemma_matching_rows(rows, pattern, head, at);
        assert forall|i: int, j: int| 0 <= i < j < found.len() implies if up {
            (#[trigger] found[i]).0 < (#[trigger] found[j]).0
        } else {
            found[i].0 > found[j].0
        } by {
            assert(before[i] == found[i]);
            if j < before.len() {
                assert(before[j] == found[j]);
            } else {
                let k = choose|k: int| 0 <= k < head.len() && head[k] == before[i].0;
                assert(order[k] == before[i].0);
            }
        }
    }
}

/// Found rows come in the order of the search: descending for direction 0, ascending otherwise; a
/// limit keeps those that are found first.
pub proof fn law_search_goes_on_from_the_start(
    rows: Seq<RowView>,
    pattern: Seq<char>,
    from_line: u32,
    direction: u32,
    max_results: nat,
)
    requires
        rows.len() <= u32::MAX,
    ensures
        ({
            let all = matching_rows(
                rows,
                pattern,
                search_order(rows.len(), from_line as nat, direction),
            );
            let left = at_most(all, max_results);
            &&& left.len() <= max_results
            &&& left.len() < max_results ==> left == all
            &&& left.len() <= all.len()
            &&& forall|i: int| 0 <= i < left.len() ==> #[trigger] left[i] == all[i]
            &&& forall|i: int, j: int|
                0 <= i < j < all.len() ==> if direction == 0 {
                    (#[trigger] all[i]).0 > (#[trigger] all[j]).0
                } else {
                    all[i].0 < all[j].0
                }
        }),
{
    let order = search_order(rows.len(), from_line as nat, direction);
    lemma_matching_rows_ordered(rows, pattern, order, direction != 0);
}

/// The rows that are handed out stand one behind the other: for direction 0 they end at the line,
/// else they begin there. There are as many as were asked for, or as there are.
pub proof fn law_handed_out_rows_stand_at_the_line(
    rows: Seq<RowView>,
    from_line: int,
    count: int,
    direction: u32,
    at: int,
)
    requires
        0 <= from_line < rows.len(),
        0 <= count,
        0 <= at < fetched(rows, from_line, count, direction).len(),
    ensures
        ({
            let lines = fetched(rows, from_line, count, direction);
            &&& lines.len() <= count
            &&& direction == 0 ==> lines[at] == rows[from_line - (lines.len() - 1 - at)] && (
            lines.len() == count || lines.len() == from_line + 1)
            &&& direction != 0 ==> lines[at] == rows[from_line + at] && (lines.len() == count
                || lines.len() == rows.len() - from_line)
        }),
{
}

/// The text of a row is that of its cells one after the other.
pub proof fn law_row_text_is_that_of_the_cells(cells: Seq<CellView>, cell: CellView)
    ensures
        row_text(Seq::empty()) == Seq::<char>::empty(),
        row_text(cells.push(cell)) == row_text(cells) + cell.character,
{
    assert(cells.push(cell).drop_last() =~= cells);
}

/// A cell that was never written is empty, black on black and without flags.
pub proof fn law_unwritten_cell_is_blank()
    ensures
        CellView::blank().character.len() == 0,
        CellView::blank().foreground == 0,
        CellView::blank().background == 0,
        !CellView::blank().style.bold,
        !CellView::blank().style.italic,
        !CellView::blank().style.underline,
        !CellView::blank().style.strikethrough,
        !CellView::blank().style.dim,
        !CellView::blank().style.reverse,
{
}

/// A client needs the whole screen just where something it has not seen yet asks for that.
pub proof fn law_unseen_change_may_need_the_whole_screen(
    entries: Seq<EntryView>,
    entry: EntryView,
    since: u64,
)
    ensures
        !needs_snapshot(Seq::<EntryView>::empty(), since),
        needs_snapshot(entries.push(entry), since) <==> needs_snapshot(entries, since) || (
        entry.generation > since && entry.requires_full_snapshot),
{
    let more = entries.push(entry);
    if needs_snapshot(entries, since) {
        let i = choose|i: int|
            0 <= i < entries.len() && (#[trigger] entries[i]).generation > since
                && entries[i].requires_full_snapshot;
        assert(more[i] == entries[i]);
    }
    if entry.generation > since && entry.requires_full_snapshot {
        assert(more[entries.len() as int] == entry);
    }
    if needs_snapshot(more, since) {
        let i = choose|i: int|
            0 <= i < more.len() && (#[trigger] more[i]).generation > since
                && more[i].requires_full_snapshot;
        if i < entries.len() {
            assert(more[i] == entries[i]);
        }
    }
}

/// The newest items are the last ones, in their order, and as many as there is room for.
pub proof fn law_newest_are_the_last<A>(items: Seq<A>, n: nat, back: int)
    requires
        1 <= back <= n,
        back <= items.len(),
    ensures
        newest(items, n).len() == (if items.len() < n {
            items.len()
        } else {
            n
        }),
        newest(items, n)[newest(items, n).len() - back] == items[items.len() - back],
{
}

} // verus!
