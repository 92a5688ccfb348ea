//! Command boundaries from shell markers: where each command started and ended, in line
//! numbers with viewport row 0 and history below zero.
use vstd::prelude::*;

verus! {

/// One marker of a command. A marker whose row is no longer addressable has no line.
#[derive(Clone, Copy, Debug, PartialEq, Eq, Structural)]
pub struct CommandMarker {
    pub line: Option<i64>,
    pub column: u32,
}

/// The markers of one command.
#[derive(Clone, Copy, Debug, PartialEq, Eq, Structural)]
pub struct CommandRange {
    pub id: u64,
    pub prompt: Option<CommandMarker>,
    pub command: Option<CommandMarker>,
    pub output_start: Option<CommandMarker>,
    pub command_end: Option<CommandMarker>,
}

impl Default for CommandRange {
    fn default() -> (range: Self)
        ensures
            range == (CommandRange {
                id: 0,
                prompt: None,
                command: None,
                output_start: None,
                command_end: None,
            }),
    {
        CommandRange { id: 0, prompt: None, command: None, output_start: None, command_end: None }
    }
}

/// The lines that a command's output takes.
#[derive(Clone, Copy, Debug, PartialEq, Eq, Structural)]
pub enum CommandSpan {
    /// The start is known. Without an `end` the command still runs, up to the end of the
    /// viewport.
    Located { start: i64, end: Option<i64> },
    /// Markers were recorded, but their rows are no longer addressable.
    Unaddressable,
    /// The shell never reported where this command starts.
    Unmarked,
}

/// The line of a marker, where there is a marker and it has one.
pub open spec fn line_of(marker: Option<CommandMarker>) -> Option<i64> {
    match marker {
        Some(m) => m.line,
        None => None,
    }
}

/// The first line there is of three.
pub open spec fn first_line(a: Option<i64>, b: Option<i64>, c: Option<i64>) -> Option<i64> {
    if a is Some {
        a
    } else if b is Some {
        b
    } else {
        c
    }
}

/// A line number before, stopping at the smallest.
pub open spec fn line_before(line: i64) -> i64 {
    if line > i64::MIN {
        (line - 1) as i64
    } else {
        i64::MIN
    }
}

impl CommandRange {
    /// Where the output starts: a missing marker falls back to the earlier one, since a command
    /// line too much is better than output too little.
    pub open spec fn start_line(self) -> Option<i64> {
        first_line(line_of(self.output_start), line_of(self.command), line_of(self.prompt))
    }

    /// The prompt's line, falling back to the later markers.
    pub open spec fn prompt_line(self) -> Option<i64> {
        first_line(line_of(self.prompt), line_of(self.command), line_of(self.output_start))
    }

    /// The lines of the output. An end marker in column 0 was reported on the line after the
    /// output. A start without an addressable end does not make a pair.
    pub open spec fn span(self) -> CommandSpan {
        match self.start_line() {
            None => if self.output_start is None && self.command is None && self.prompt is None {
                CommandSpan::Unmarked
            } else {
                CommandSpan::Unaddressable
            },
            Some(start) => match self.command_end {
                None => CommandSpan::Located { start, end: None },
                Some(end) => match end.line {
                    None => CommandSpan::Unaddressable,
                    Some(line) => CommandSpan::Located {
                        start,
                        end: Some(
                            if end.column == 0 {
                                line_before(line)
                            } else {
                                line
                            },
                        ),
                    },
                },
            },
        }
    }
}

fn marker_line(marker: &Option<CommandMarker>) -> (line: Option<i64>)
    ensures
        line == line_of(*marker),
{
    match marker {
        Some(m) => m.line,
        None => None,
    }
}

fn first_of(a: Option<i64>, b: Option<i64>, c: Option<i64>) -> (line: Option<i64>)
    ensures
        line == first_line(a, b, c),
{
    if a.is_some() {
        a
    } else if b.is_some() {
        b
    } else {
        c
    }
}

/// The lines of a command's output.
pub fn command_output_span(command: &CommandRange) -> (span: CommandSpan)
    ensures
        span == command.span(),
{
    let start = first_of(
        marker_line(&command.output_start),
        marker_line(&command.command),
        marker_line(&command.prompt),
    );
    let start = match start {
        Some(line) => line,
        None => {
            if command.output_start.is_some() || command.command.is_some()
                || command.prompt.is_some() {
                return CommandSpan::Unaddressable;
            }
            return CommandSpan::Unmarked;
        },
    };
    let end = match &command.command_end {
        None => None,
        Some(marker) => match marker.line {
            None => return CommandSpan::Unaddressable,
            Some(line) => {
                if marker.column == 0 {
                    if line > i64::MIN {
                        Some(line - 1)
                    } else {
                        Some(line)
                    }
                } else {
                    Some(line)
                }
            },
        },
    };
    CommandSpan::Located { start, end }
}

/// The line of a command's prompt, which is where a jump to the command lands.
pub fn command_prompt_line(command: &CommandRange) -> (line: Option<i64>)
    ensures
        line == command.prompt_line(),
{
    first_of(
        marker_line(&command.prompt),
        marker_line(&command.command),
        marker_line(&command.output_start),
    )
}

/// Whether a line lies ahead in the direction of a jump.
pub open spec fn lies_ahead(line: i64, from_line: i64, backward: bool) -> bool {
    if backward {
        line < from_line
    } else {
        line > from_line
    }
}

/// The prompt nearest to `from_line` in one direction, by line number: commands need not come
/// in order. Nothing when none lies ahead.
pub fn adjacent_prompt_line(commands: &[CommandRange], from_line: i64, backward: bool) -> (nearest:
    Option<i64>)
    ensures
        match nearest {
            Some(line) => {
                &&& lies_ahead(line, from_line, backward)
                &&& exists|i: int|
                    0 <= i < commands@.len() && (#[trigger] commands@[i]).prompt_line() == Some(
                        line,
                    )
                &&& forall|i: int|
                    0 <= i < commands@.len() ==> match (#[trigger] commands@[i]).prompt_line() {
                        Some(other) => lies_ahead(other, from_line, backward) ==> if backward {
                            other <= line
                        } else {
                            other >= line
                        },
                        None => true,
                    }
            },
            None => forall|i: int|
                0 <= i < commands@.len() ==> match (#[trigger] commands@[i]).prompt_line() {
                    Some(other) => !lies_ahead(other, from_line, backward),
                    None => true,
                },
        },
{
    let mut nearest: Option<i64> = None;
    let mut i: usize = 0;
    let ghost mut at: int = 0;
    while i < commands.len()
        invariant
            i <= commands@.len(),
            match nearest {
                Some(line) => {
                    &&& lies_ahead(line, from_line, backward)
                    &&& 0 <= at < i
                    &&& commands@[at].prompt_line() == Some(line)
                    &&& forall|k: int|
                        0 <= k < i ==> match (#[trigger] commands@[k]).prompt_line() {
                            Some(other) => lies_ahead(other, from_line, backward) ==> if backward {
                                other <= line
                            } else {
                                other >= line
                            },
                            None => true,
                        }
                },
                None => forall|k: int|
                    0 <= k < i ==> match (#[trigger] commands@[k]).prompt_line() {
                        Some(other) => !lies_ahead(other, from_line, backward),
                        None => true,
                    },
            },
        decreases commands@.len() - i,
    {
        match command_prompt_line(&commands[i]) {
            Some(line) => {
                let ahead = if backward {
                    line < from_line
                } else {
                    line > from_line
                };
                if ahead {
                    let closer = match nearest {
                        None => true,
                        Some(best) => if backward {
                            line > best
                        } else {
                            line < best
                        },
                    };
                    if closer {
                        nearest = Some(line);
                        proof {
                            at = i as int;
                        }
                    }
                }
            },
            None => {},
        }
        i += 1;
    }
    proof {
        if nearest is Some {
            assert(commands@[at].prompt_line() == nearest);
        }
    }
    nearest
}

/// A span is only located where a marker has a line: no row is guessed.
pub proof fn law_span_never_guesses(command: CommandRange)
    ensures
        command.span() matches CommandSpan::Located { start, .. } ==> command.start_line() == Some(
            start,
        ),
        command.start_line() is None ==> command.span() !is Located,
        (command.command_end matches Some(end) && end.line is None) ==> command.span() !is Located,
{
}

/// The output of a command begins at its own marker, or where that has no line, at the command's,
/// or at the prompt's; a jump to the command prefers them the other way round.
pub proof fn law_nearest_marker_counts(command: CommandRange, line: i64)
    ensures
        (command.output_start matches Some(marker) && marker.line == Some(line))
            ==> command.start_line() == Some(line),
        (command.output_start matches Some(marker) ==> marker.line is None) && (
        command.command matches Some(marker) && marker.line == Some(line)) ==> command.start_line()
            == Some(line),
        (command.output_start matches Some(marker) ==> marker.line is None) && (
        command.command matches Some(marker) ==> marker.line is None) && (
        command.prompt matches Some(marker) && marker.line == Some(line)) ==> command.start_line()
            == Some(line),
        (command.prompt matches Some(marker) && marker.line == Some(line))
            ==> command.prompt_line() == Some(line),
        (command.prompt matches Some(marker) ==> marker.line is None) && (
        command.command matches Some(marker) && marker.line == Some(line)) ==> command.prompt_line()
            == Some(line),
        (command.prompt matches Some(marker) ==> marker.line is None) && (
        command.command matches Some(marker) ==> marker.line is None) && (
        command.output_start matches Some(marker) && marker.line == Some(line))
            ==> command.prompt_line() == Some(line),
{
}

/// The output of a command ends on the line of its end, or on the line before where the end stands
/// in the first column; a command without an end still runs. A command of which no marker is known
/// is unmarked, and one whose lines are gone cannot be addressed.
pub proof fn law_output_ends_before_the_end(command: CommandRange)
    ensures
        command.span() matches CommandSpan::Located { start, end } ==> match command.command_end {
            None => end is None,
            Some(marker) => marker.line matches Some(line) && if marker.column > 0 {
                end == Some(line)
            } else {
                line > i64::MIN ==> end == Some((line - 1) as i64)
            },
        },
        command.span() is Unmarked <==> command.output_start is None && command.command is None
            && command.prompt is None,
        command.start_line() is Some && (command.command_end matches Some(end) ==> end.line is Some)
            ==> command.span() is Located,
{
}

/// Ahead of a line lie the smaller ones backward and the larger ones forward, and never the line
/// itself.
pub proof fn law_ahead_is_beyond_the_line(line: i64, from_line: i64)
    ensures
        lies_ahead(line, from_line, true) <==> line < from_line,
        lies_ahead(line, from_line, false) <==> line > from_line,
{
}

/// The line before a line is the one above it; the first line has none above it and stays.
pub proof fn law_line_before_is_above(line: i64)
    ensures
        line > i64::MIN ==> line_before(line) == line - 1,
        line_before(i64::MIN) == i64::MIN,
{
}

} // verus!
