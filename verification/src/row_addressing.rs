//! Absolute row numbers across scrolling.
//!
//! An emulator addresses scrollback as `0 .. history_size` with 0 the oldest row, so every
//! eviction renumbers every row, and at capacity it evicts exactly as many rows as it appends
//! without reporting either. A batch is therefore parsed in steps against a raised limit and
//! trimmed back afterwards, which keeps the distance that rows moved equal to the growth of
//! the scrollback.
use crate::emulator::{Emulator, EmulatorStep};
use vstd::prelude::*;
use vstd::slice::slice_subrange;

verus! {

/// Rows of scrollback the emulator may hold above the configured capacity while a batch is
/// being parsed. The same value bounds the bytes of one parse step: scrolling driven by line
/// feeds appends at most one row per byte, so a step this size cannot outgrow the headroom.
pub const ROW_ADDRESSING_HEADROOM: usize = 960;

/// Row bookkeeping for one batch.
#[derive(Clone, Copy, Debug, PartialEq, Eq, Structural)]
pub struct RowAddressing {
    /// Absolute row id of viewport line 0.
    pub viewport_top: u64,
    /// Scrollback rows the emulator holds, re-read after every parse step.
    pub history_size: usize,
    /// Configured scrollback capacity.
    pub capacity: usize,
    /// Bytes of the batch already handed to the emulator.
    pub consumed: usize,
    /// Whether the primary grid was active at the end of the last parse step. The alternate
    /// grid has no scrollback, so its size says nothing about rows leaving the viewport.
    pub primary_screen: bool,
    /// Whether the primary grid currently carries the raised limit.
    pub headroom_granted: bool,
    /// Set when a parse step filled the raised limit, the one case where the emulator can
    /// still have evicted rows it did not report.
    pub saturated: bool,
}

/// One step for the emulator: raise its scrollback limit if a limit is given, then parse
/// `bytes[start .. end]`.
#[derive(Clone, Copy, Debug, PartialEq, Eq, Structural)]
pub struct ParseStep {
    pub raise_limit_to: Option<usize>,
    pub start: usize,
    pub end: usize,
}

/// The smaller of two numbers.
pub open spec fn least(a: int, b: int) -> int {
    if a <= b {
        a
    } else {
        b
    }
}

/// A sum that stops at the largest `u64`.
pub open spec fn u64_sum(a: int, b: int) -> u64 {
    least(a + b, u64::MAX as int) as u64
}

impl RowAddressing {
    /// The bookkeeping at the start of a batch.
    pub fn start(viewport_top: u64, history_size: usize, capacity: usize, primary_screen: bool) -> (
    addressing: Self)
        ensures
            addressing == (RowAddressing {
                viewport_top,
                history_size,
                capacity,
                consumed: 0,
                primary_screen,
                headroom_granted: false,
                saturated: false,
            }),
    {
        RowAddressing {
            viewport_top,
            history_size,
            capacity,
            consumed: 0,
            primary_screen,
            headroom_granted: false,
            saturated: false,
        }
    }

    /// The limit that leaves the headroom above the capacity.
    pub open spec fn raised(self) -> int {
        least(self.capacity + ROW_ADDRESSING_HEADROOM, usize::MAX as int)
    }

    /// The limit that leaves the headroom above the capacity.
    pub fn raised_limit(&self) -> (limit: usize)
        ensures
            limit == self.raised(),
    {
        self.capacity.saturating_add(ROW_ADDRESSING_HEADROOM)
    }

    /// How many bytes the next step may take. On the primary grid a step is capped at the
    /// rows that the raised limit can still absorb; the alternate grid has no scrollback to
    /// account for.
    pub open spec fn room(self) -> int {
        if !self.primary_screen {
            usize::MAX as int
        } else if self.raised() > self.history_size {
            self.raised() - self.history_size
        } else {
            1
        }
    }

    /// The next step towards byte `offset` of a batch of `len` bytes, unless it is reached.
    pub open spec fn next_step(self, len: int, offset: int) -> Option<ParseStep> {
        let target = least(offset, len);
        if self.consumed >= target {
            None
        } else {
            Some(
                ParseStep {
                    raise_limit_to: if self.primary_screen && !self.headroom_granted {
                        Some(self.raised() as usize)
                    } else {
                        None
                    },
                    start: self.consumed,
                    end: least(target, self.consumed + self.room()) as usize,
                },
            )
        }
    }

    /// Hand out the next step towards `offset`, or nothing once it is reached.
    pub fn begin_step(&mut self, len: usize, offset: usize) -> (step: Option<ParseStep>)
        ensures
            step == old(self).next_step(len as int, offset as int),
            step is None ==> *final(self) == *old(self),
            step is Some ==> *final(self) == (RowAddressing {
                headroom_granted: old(self).headroom_granted || old(self).primary_screen,
                ..*old(self)
            }),
            step matches Some(s) ==> s.start < s.end <= len && s.end <= offset,
    {
        let target: usize = if offset < len {
            offset
        } else {
            len
        };
        if self.consumed >= target {
            return None;
        }
        let raise_limit_to = if self.primary_screen && !self.headroom_granted {
            self.headroom_granted = true;
            Some(self.raised_limit())
        } else {
            None
        };
        let room: usize = if self.primary_screen {
            let spare = self.raised_limit().saturating_sub(self.history_size);
            if spare < 1 {
                1
            } else {
                spare
            }
        } else {
            usize::MAX
        };
        let reach = self.consumed.saturating_add(room);
        let end: usize = if target < reach {
            target
        } else {
            reach
        };
        Some(ParseStep { raise_limit_to, start: self.consumed, end })
    }

    /// The bookkeeping after a step up to `end`, given what the grid reads then.
    pub open spec fn stepped(self, end: usize, alternate_screen: bool, history_size: usize) -> Self {
        if alternate_screen {
            // The primary grid is out of reach and keeps the raised limit until a batch that
            // switches back settles it.
            RowAddressing { consumed: end, primary_screen: false, ..self }
        } else if self.primary_screen {
            RowAddressing {
                consumed: end,
                history_size,
                saturated: self.saturated || history_size >= self.raised(),
                viewport_top: if history_size > self.history_size {
                    u64_sum(self.viewport_top as int, history_size - self.history_size)
                } else {
                    self.viewport_top
                },
                ..self
            }
        } else {
            RowAddressing { consumed: end, history_size, primary_screen: true, ..self }
        }
    }

    /// Take in what the grid reads after a step up to `end`. The answer is the limit to trim
    /// the scrollback to, when it has grown past it; [`RowAddressing::evicted`] then takes in
    /// the size after the trim.
    pub fn end_step(&mut self, end: usize, alternate_screen: bool, history_size: usize) -> (trim:
        Option<usize>)
        ensures
            *final(self) == old(self).stepped(end, alternate_screen, history_size),
            trim == (if !alternate_screen && history_size > old(self).capacity {
                Some(old(self).capacity)
            } else {
                None
            }),
    {
        self.consumed = end;
        let primary_before = self.primary_screen;
        self.primary_screen = !alternate_screen;
        if alternate_screen {
            return None;
        }
        if primary_before {
            if history_size >= self.raised_limit() {
                self.saturated = true;
            }
            let growth = history_size.saturating_sub(self.history_size);
            self.viewport_top = self.viewport_top.saturating_add(growth as u64);
        }
        self.history_size = history_size;
        if history_size > self.capacity {
            Some(self.capacity)
        } else {
            None
        }
    }

    /// Take in the size of the scrollback after it was trimmed to the configured capacity.
    /// Only the oldest rows went, so the viewport did not move.
    pub fn evicted(&mut self, history_size: usize)
        ensures
            *final(self) == (RowAddressing {
                headroom_granted: false,
                history_size,
                ..*old(self)
            }),
    {
        self.headroom_granted = false;
        self.history_size = history_size;
    }
}

/// What the grid reads after one step: which screen it shows, how many scrollback rows it
/// holds, and how many it holds after a trim, where one is asked for.
#[derive(Clone, Copy, Debug, PartialEq, Eq, Structural)]
pub struct GridReading {
    pub alternate_screen: bool,
    pub history_size: usize,
    pub trimmed_size: usize,
}

impl RowAddressing {
    /// One whole step towards `offset`: handed out, parsed, read back and trimmed.
    pub open spec fn after_reading(self, len: int, offset: int, reading: GridReading) -> Self {
        match self.next_step(len, offset) {
            None => self,
            Some(step) => {
                let granted = RowAddressing {
                    headroom_granted: self.headroom_granted || self.primary_screen,
                    ..self
                };
                let done = granted.stepped(
                    step.end,
                    reading.alternate_screen,
                    reading.history_size,
                );
                if !reading.alternate_screen && reading.history_size > self.capacity {
                    RowAddressing {
                        headroom_granted: false,
                        history_size: reading.trimmed_size,
                        ..done
                    }
                } else {
                    done
                }
            },
        }
    }

    /// The bookkeeping after as many whole steps as there are readings.
    pub open spec fn after_readings(self, len: int, offset: int, readings: Seq<GridReading>) -> Self
        decreases readings.len(),
    {
        if readings.len() == 0 {
            self
        } else {
            self.after_readings(len, offset, readings.drop_last()).after_reading(
                len,
                offset,
                readings.last(),
            )
        }
    }
}

/// How far a walk through a batch has come: the bookkeeping, and what the emulator has gone
/// through.
#[verifier::ext_equal]
pub struct WalkPoint {
    pub addressing: RowAddressing,
    pub steps: Seq<EmulatorStep>,
}

impl WalkPoint {
    /// What the emulator has gone through once it parsed a step: the raised limit, where one is
    /// due, and the bytes.
    pub open spec fn parsed(self, bytes: Seq<u8>, step: ParseStep) -> Seq<EmulatorStep> {
        let raised = match step.raise_limit_to {
            Some(limit) => self.steps.push(EmulatorStep::Limit(limit)),
            None => self.steps,
        };
        raised.push(EmulatorStep::Feed(bytes.subrange(step.start as int, step.end as int)))
    }

    /// What the emulator has gone through after a step, and what its grid read: history above
    /// the capacity goes.
    pub open spec fn settled(self, bytes: Seq<u8>, step: ParseStep) -> (
        Seq<EmulatorStep>,
        GridReading,
    ) {
        let parsed = self.parsed(bytes, step);
        let alternate_screen = crate::emulator::alternate_at(parsed);
        let history_size = crate::emulator::history_at(parsed);
        let settled = if !alternate_screen && history_size > self.addressing.capacity {
            parsed.push(EmulatorStep::Limit(self.addressing.capacity))
        } else {
            parsed
        };
        (
            settled,
            GridReading {
                alternate_screen,
                history_size,
                trimmed_size: crate::emulator::history_at(settled),
            },
        )
    }

    /// The walk once it has come to an offset of the batch, or to its end.
    pub open spec fn to(self, bytes: Seq<u8>, offset: int) -> WalkPoint
        decreases bytes.len() - self.addressing.consumed,
    {
        match self.addressing.next_step(bytes.len() as int, offset) {
            None => self,
            Some(step) => if self.addressing.consumed < step.end <= bytes.len() {
                let (settled, reading) = self.settled(bytes, step);
                WalkPoint {
                    addressing: self.addressing.after_reading(
                        bytes.len() as int,
                        offset,
                        reading,
                    ),
                    steps: settled,
                }.to(bytes, offset)
            } else {
                self
            },
        }
    }

    /// The walk at the end of a batch, with the limit of the primary grid handed back.
    pub open spec fn finished(self) -> WalkPoint {
        if self.addressing.primary_screen {
            let steps = self.steps.push(EmulatorStep::Limit(self.addressing.capacity));
            WalkPoint {
                addressing: RowAddressing {
                    headroom_granted: false,
                    history_size: crate::emulator::history_at(steps),
                    ..self.addressing
                },
                steps,
            }
        } else {
            self
        }
    }
}

/// Walking to an offset feeds exactly the bytes up to it, and changes neither the size of the
/// grid nor the capacity.
pub proof fn law_walk_feeds_up_to_the_offset(start: WalkPoint, bytes: Seq<u8>, offset: int)
    requires
        bytes.len() <= usize::MAX,
        start.addressing.consumed <= bytes.len(),
    ensures
        ({
            let end = start.to(bytes, offset);
            let reached = if start.addressing.consumed >= least(offset, bytes.len() as int) {
                start.addressing.consumed as int
            } else {
                least(offset, bytes.len() as int)
            };
            &&& end.addressing.consumed == reached
            &&& end.addressing.capacity == start.addressing.capacity
            &&& crate::emulator::fed_in(end.steps) == crate::emulator::fed_in(start.steps)
                + bytes.subrange(start.addressing.consumed as int, reached)
            &&& crate::emulator::size_after(end.steps) == crate::emulator::size_after(start.steps)
        }),
    decreases bytes.len() - start.addressing.consumed,
{
    let from = start.addressing.consumed as int;
    match start.addressing.next_step(bytes.len() as int, offset) {
        None => {
            assert(bytes.subrange(from, from) =~= Seq::<u8>::empty());
            assert(crate::emulator::fed_in(start.steps) + Seq::<u8>::empty()
                =~= crate::emulator::fed_in(start.steps));
        },
        Some(step) => {
            let (settled, reading) = start.settled(bytes, step);
            let next = WalkPoint {
                addressing: start.addressing.after_reading(bytes.len() as int, offset, reading),
                steps: settled,
            };
            let raised = match step.raise_limit_to {
                Some(limit) => start.steps.push(EmulatorStep::Limit(limit)),
                None => start.steps,
            };
            let piece = EmulatorStep::Feed(bytes.subrange(step.start as int, step.end as int));
            if step.raise_limit_to is Some {
                crate::emulator::lemma_step(
                    start.steps,
                    EmulatorStep::Limit(step.raise_limit_to->0),
                );
            }
            crate::emulator::lemma_step(raised, piece);
            crate::emulator::lemma_step(
                start.parsed(bytes, step),
                EmulatorStep::Limit(start.addressing.capacity),
            );
            law_walk_feeds_up_to_the_offset(next, bytes, offset);
            let reached = least(offset, bytes.len() as int);
            assert(bytes.subrange(from, step.end as int) + bytes.subrange(step.end as int, reached)
                =~= bytes.subrange(from, reached));
            assert(crate::emulator::fed_in(start.steps) + bytes.subrange(from, step.end as int)
                + bytes.subrange(step.end as int, reached) =~= crate::emulator::fed_in(start.steps)
                + bytes.subrange(from, reached));
        },
    }
}

impl RowAddressing {
    /// Feed the batch to the emulator up to an offset, keeping the viewport in step with the rows
    /// that the emulator pushed above it. Rows above the capacity are evicted as they come.
    pub fn advance_to(&mut self, emulator: &mut Emulator, bytes: &[u8], offset: usize)
        requires
            crate::emulator::usable(crate::emulator::steps(*old(emulator))),
            crate::emulator::takes(crate::emulator::steps(*old(emulator)), bytes@),
            old(self).capacity <= crate::pane::MAX_SCROLLBACK_LINES,
            old(self).consumed <= bytes@.len(),
        ensures
            (WalkPoint { addressing: *final(self), steps: crate::emulator::steps(*final(emulator)) })
                == (WalkPoint {
                addressing: *old(self),
                steps: crate::emulator::steps(*old(emulator)),
            }).to(bytes@, offset as int),
            crate::emulator::usable(crate::emulator::steps(*final(emulator))),
            crate::emulator::takes(crate::emulator::steps(*final(emulator)), bytes@),
            final(self).consumed <= bytes@.len(),
            old(self).consumed <= offset ==> final(self).consumed == least(
                offset as int,
                bytes@.len() as int,
            ),
            final(self).capacity == old(self).capacity,
    {
        let len = bytes.len();
        let ghost start = WalkPoint {
            addressing: *self,
            steps: crate::emulator::steps(*emulator),
        };
        let ghost end = start.to(bytes@, offset as int);
        proof {
            law_walk_feeds_up_to_the_offset(start, bytes@, offset as int);
        }
        loop
            invariant
                len == bytes@.len(),
                self.capacity <= crate::pane::MAX_SCROLLBACK_LINES,
                self.consumed <= bytes@.len(),
                crate::emulator::usable(crate::emulator::steps(*emulator)),
                crate::emulator::takes(crate::emulator::steps(*emulator), bytes@),
                (WalkPoint { addressing: *self, steps: crate::emulator::steps(*emulator) }).to(
                    bytes@,
                    offset as int,
                ) == end,
            ensures
                (WalkPoint { addressing: *self, steps: crate::emulator::steps(*emulator) }) == end,
                crate::emulator::usable(crate::emulator::steps(*emulator)),
                crate::emulator::takes(crate::emulator::steps(*emulator), bytes@),
            decreases bytes@.len() - self.consumed,
        {
            let ghost here = WalkPoint {
                addressing: *self,
                steps: crate::emulator::steps(*emulator),
            };
            match self.begin_step(len, offset) {
                None => {
                    break;
                },
                Some(step) => {
                    proof {
                        if step.raise_limit_to is Some {
                            crate::emulator::lemma_step(
                                here.steps,
                                EmulatorStep::Limit(step.raise_limit_to->0),
                            );
                        }
                    }
                    match step.raise_limit_to {
                        Some(limit) => {
                            emulator.limit_history(limit);
                        },
                        None => {},
                    }
                    proof {
                        crate::emulator::lemma_step(
                            crate::emulator::steps(*emulator),
                            EmulatorStep::Feed(
                                bytes@.subrange(step.start as int, step.end as int),
                            ),
                        );
                    }
                    emulator.feed(slice_subrange(bytes, step.start, step.end));
                    let alternate_screen = emulator.shows_alternate();
                    let history_size = emulator.history_size();
                    match self.end_step(step.end, alternate_screen, history_size) {
                        Some(limit) => {
                            proof {
                                crate::emulator::lemma_step(
                                    crate::emulator::steps(*emulator),
                                    EmulatorStep::Limit(limit),
                                );
                            }
                            self.evict_down_to(emulator, limit);
                        },
                        None => {},
                    }
                },
            }
        }
    }

    /// Hand a limit to the grid, which drops exactly the oldest rows above it, and read the size
    /// that is left.
    fn evict_down_to(&mut self, emulator: &mut Emulator, limit: usize)
        requires
            limit <= crate::emulator::MAX_HISTORY_LIMIT,
        ensures
            crate::emulator::steps(*final(emulator)) == crate::emulator::steps(*old(emulator)).push(
                EmulatorStep::Limit(limit),
            ),
            *final(self) == (RowAddressing {
                headroom_granted: false,
                history_size: crate::emulator::history_at(
                    crate::emulator::steps(*final(emulator)),
                ),
                ..*old(self)
            }),
    {
        emulator.limit_history(limit);
        self.evicted(emulator.history_size());
    }

    /// Hand the configured limit back at the end of a batch, so that a raised limit never
    /// outlives it. This is done whenever the primary grid is active: an earlier batch that
    /// switched to the alternate screen may have left it raised.
    pub fn finish(&mut self, emulator: &mut Emulator)
        requires
            old(self).capacity <= crate::pane::MAX_SCROLLBACK_LINES,
            crate::emulator::usable(crate::emulator::steps(*old(emulator))),
        ensures
            crate::emulator::usable(crate::emulator::steps(*final(emulator))),
            (WalkPoint { addressing: *final(self), steps: crate::emulator::steps(*final(emulator)) })
                == (WalkPoint {
                addressing: *old(self),
                steps: crate::emulator::steps(*old(emulator)),
            }).finished(),
    {
        proof {
            crate::emulator::lemma_step(
                crate::emulator::steps(*emulator),
                EmulatorStep::Limit(self.capacity),
            );
        }
        if self.primary_screen {
            let capacity = self.capacity;
            self.evict_down_to(emulator, capacity);
        }
    }
}

/// Whatever the grid reads, feeding never passes the target and never stalls: after enough
/// steps exactly the bytes up to the target have been handed out.
pub proof fn law_feeding_reaches_the_target(
    start: RowAddressing,
    len: int,
    offset: int,
    readings: Seq<GridReading>,
)
    requires
        0 <= len <= usize::MAX,
        0 <= offset,
        start.consumed <= least(offset, len),
    ensures
        start.consumed <= start.after_readings(len, offset, readings).consumed <= least(
            offset,
            len,
        ),
        start.after_readings(len, offset, readings).consumed >= least(
            least(offset, len),
            start.consumed + readings.len(),
        ),
        start.after_readings(len, offset, readings).capacity == start.capacity,
    decreases readings.len(),
{
    if readings.len() > 0 {
        law_feeding_reaches_the_target(start, len, offset, readings.drop_last());
    }
}

/// Row ids never go backwards, and a step on the primary screen moves the viewport by exactly
/// the rows by which the scrollback grew.
pub proof fn law_viewport_moves_by_the_growth(
    before: RowAddressing,
    len: int,
    offset: int,
    reading: GridReading,
)
    requires
        before.next_step(len, offset) is Some,
        before.viewport_top + reading.history_size <= u64::MAX,
    ensures
        ({
            let after = before.after_reading(len, offset, reading);
            &&& after.viewport_top >= before.viewport_top
            &&& before.primary_screen && !reading.alternate_screen && reading.history_size
                >= before.history_size ==> after.viewport_top - before.viewport_top
                == reading.history_size - before.history_size
            &&& !before.primary_screen || reading.alternate_screen ==> after.viewport_top
                == before.viewport_top
        }),
{
}

/// On the primary screen a step takes no more bytes than the raised limit has rows left, so
/// line feeds alone cannot fill it, except for the single byte that a full limit still lets
/// through.
pub proof fn law_step_fits_the_headroom(before: RowAddressing, len: int, offset: int)
    requires
        before.primary_screen,
        0 <= len <= usize::MAX,
        before.next_step(len, offset) is Some,
    ensures
        ({
            let step = before.next_step(len, offset)->0;
            let bytes = step.end - step.start;
            &&& bytes >= 1
            &&& before.history_size < before.raised() ==> before.history_size + bytes
                <= before.raised()
            &&& before.history_size >= before.raised() ==> bytes == 1
        }),
{
}

/// While a batch is parsed on the primary screen, the limit of history lies 960 rows above the
/// capacity, and it is raised once; on the alternate screen it is left alone.
pub proof fn law_headroom_is_granted_once(before: RowAddressing, len: int, offset: int)
    requires
        0 <= len <= usize::MAX,
        before.capacity + 960 <= usize::MAX,
        before.next_step(len, offset) is Some,
    ensures
        ({
            let step = before.next_step(len, offset)->0;
            &&& step.raise_limit_to matches Some(limit) ==> limit == before.capacity + 960
            &&& step.raise_limit_to is Some <==> before.primary_screen && !before.headroom_granted
            &&& step.start == before.consumed
            &&& step.end <= offset && step.end <= len
        }),
{
}

/// Rows above the capacity leave at once, and give the headroom back; a history that reaches the
/// raised limit cannot be counted on any more.
pub proof fn law_rows_above_the_capacity_leave(
    before: RowAddressing,
    len: int,
    offset: int,
    reading: GridReading,
)
    requires
        before.next_step(len, offset) is Some,
        before.capacity + 960 <= usize::MAX,
        !reading.alternate_screen,
    ensures
        ({
            let after = before.after_reading(len, offset, reading);
            &&& after.primary_screen
            &&& reading.history_size > before.capacity ==> after.history_size
                == reading.trimmed_size && !after.headroom_granted
            &&& reading.history_size <= before.capacity ==> after.history_size
                == reading.history_size
            &&& before.primary_screen ==> (after.saturated <==> before.saturated
                || reading.history_size >= before.capacity + 960)
        }),
{
}

/// A batch that ends on the primary screen hands the capacity back as the limit of history.
pub proof fn law_capacity_is_handed_back(end: WalkPoint)
    ensures
        end.addressing.primary_screen ==> end.finished().steps.len() > 0
            && end.finished().steps.last() == EmulatorStep::Limit(end.addressing.capacity)
            && end.finished().steps.drop_last() == end.steps
            && !end.finished().addressing.headroom_granted,
        !end.addressing.primary_screen ==> end.finished() == end,
        end.finished().addressing.viewport_top == end.addressing.viewport_top,
{
    assert(end.steps.push(EmulatorStep::Limit(end.addressing.capacity)).drop_last() =~= end.steps);
}

/// On the primary screen there is room for the rows that the history still lacks to its raised
/// capacity, and for one where it lacks none; on the alternate screen there is room without end.
pub proof fn law_room_is_what_the_history_lacks(addressing: RowAddressing)
    requires
        addressing.capacity + 960 <= usize::MAX,
    ensures
        !addressing.primary_screen ==> addressing.room() == usize::MAX,
        addressing.primary_screen && addressing.history_size < addressing.capacity + 960
            ==> addressing.room() == addressing.capacity + 960 - addressing.history_size,
        addressing.primary_screen && addressing.history_size >= addressing.capacity + 960
            ==> addressing.room() == 1,
{
}

/// A step raises the limit of the history first where it does, and then reads just its bytes.
pub proof fn law_step_reads_its_bytes(point: WalkPoint, bytes: Seq<u8>, step: ParseStep)
    requires
        step.start <= step.end <= bytes.len(),
    ensures
        point.parsed(bytes, step).last() == EmulatorStep::Feed(
            bytes.subrange(step.start as int, step.end as int),
        ),
        step.raise_limit_to is None ==> point.parsed(bytes, step).drop_last() == point.steps,
        step.raise_limit_to matches Some(limit) ==> point.parsed(bytes, step).drop_last()
            == point.steps.push(EmulatorStep::Limit(limit)),
{
    assert(step.raise_limit_to is None ==> point.parsed(bytes, step).drop_last() =~= point.steps);
    match step.raise_limit_to {
        Some(limit) => {
            assert(point.parsed(bytes, step).drop_last() =~= point.steps.push(
                EmulatorStep::Limit(limit),
            ));
        },
        None => {},
    }
}

} // verus!
