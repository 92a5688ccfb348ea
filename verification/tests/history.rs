//! Commands in a pane's history, and the search of its scrollback.

use z3rm::command_history::{
    adjacent_prompt_line, command_output_span, command_prompt_line, CommandMarker, CommandRange,
    CommandSpan,
};
use z3rm::scrollback_search::{
    begin_search, check_pattern, clamp_to_i32, merge_hits, plain_text, search_scrollback, search_span,
    truncate_by_direction, visible_hits, GridCell, GridSnapshot, HistoryMatch, SearchError,
    SearchHit, SearchOptions, SearchSpan, WideCharStyle,
};

fn marker(line: i64, column: u32) -> Option<CommandMarker> {
    Some(CommandMarker { line: Some(line), column })
}

fn command(id: u64, prompt: Option<i64>) -> CommandRange {
    CommandRange { id, prompt: prompt.and_then(|line| marker(line, 0)), ..Default::default() }
}

fn cell(character: &str) -> GridCell {
    GridCell {
        character: character.to_string(),
        zerowidth: String::new(),
        style: Some(WideCharStyle { wide_char_spacer: false, leading_wide_char_spacer: false }),
    }
}

fn snapshot(rows: u32, cols: u32, lines: &[&str]) -> GridSnapshot {
    let mut cells = Vec::new();
    for line in lines {
        let mut row: Vec<GridCell> = line.chars().map(|c| cell(&c.to_string())).collect();
        row.resize_with(cols as usize, || cell(" "));
        cells.append(&mut row);
    }
    GridSnapshot { rows, cols, history_size: 0, cells }
}

#[test]
fn a_span_falls_back_to_the_earlier_marker() {
    let with_output = CommandRange {
        id: 1,
        output_start: marker(-5, 0),
        command: marker(-6, 2),
        prompt: marker(-6, 0),
        ..Default::default()
    };
    assert_eq!(
        command_output_span(&with_output),
        CommandSpan::Located {
            start: -5,
            end: None
        }
    );

    let without_output = CommandRange {
        id: 2,
        command: marker(-6, 2),
        prompt: marker(-6, 0),
        ..Default::default()
    };
    assert_eq!(
        command_output_span(&without_output),
        CommandSpan::Located {
            start: -6,
            end: None
        }
    );
}

#[test]
fn a_marker_without_a_line_is_unaddressable_not_guessed() {
    let retired = CommandRange {
        id: 3,
        prompt: Some(CommandMarker {
            line: None,
            column: 0,
        }),
        ..Default::default()
    };
    assert_eq!(command_output_span(&retired), CommandSpan::Unaddressable);
    assert_eq!(command_output_span(&CommandRange::default()), CommandSpan::Unmarked);
}

#[test]
fn an_end_marker_in_column_zero_excludes_its_own_line() {
    let wrapped = CommandRange {
        id: 4,
        output_start: marker(-9, 0),
        command_end: marker(-4, 0),
        ..Default::default()
    };
    assert_eq!(
        command_output_span(&wrapped),
        CommandSpan::Located {
            start: -9,
            end: Some(-5)
        }
    );

    let inline = CommandRange {
        id: 5,
        output_start: marker(-9, 0),
        command_end: marker(-4, 12),
        ..Default::default()
    };
    assert_eq!(
        command_output_span(&inline),
        CommandSpan::Located {
            start: -9,
            end: Some(-4)
        }
    );
}

#[test]
fn jumping_finds_the_nearest_prompt_in_the_asked_direction() {
    let commands = [
        command(1, Some(-40)),
        command(2, Some(-20)),
        command(3, Some(-5)),
    ];

    assert_eq!(adjacent_prompt_line(&commands, -20, true), Some(-40));
    assert_eq!(adjacent_prompt_line(&commands, -20, false), Some(-5));
    assert_eq!(adjacent_prompt_line(&commands, 0, true), Some(-5));
}

#[test]
fn jumping_past_the_last_prompt_stays_put() {
    let commands = [command(1, Some(-40)), command(2, Some(-20))];

    assert_eq!(adjacent_prompt_line(&commands, -40, true), None);
    assert_eq!(adjacent_prompt_line(&commands, -20, false), None);
}

#[test]
fn jumping_uses_line_numbers_not_the_order_they_arrived_in() {
    let commands = [
        command(1, Some(-5)),
        command(2, Some(-40)),
        command(3, Some(-20)),
    ];

    assert_eq!(adjacent_prompt_line(&commands, 0, true), Some(-5));
    assert_eq!(adjacent_prompt_line(&commands, -5, true), Some(-20));
    assert_eq!(adjacent_prompt_line(&commands, -40, false), Some(-20));
}

#[test]
fn commands_without_a_line_are_skipped_rather_than_jumped_to() {
    let commands = [command(1, Some(-30)), command(2, None), command(3, Some(-10))];

    assert_eq!(adjacent_prompt_line(&commands, 0, true), Some(-10));
    assert_eq!(adjacent_prompt_line(&commands, -10, true), Some(-30));
}

#[test]
fn default_span_covers_history_and_the_whole_viewport() {
    assert_eq!(
        search_span(50, 24, None, false),
        SearchSpan {
            history: Some((49, 0)),
            visible: Some((0, 23)),
        }
    );
    assert_eq!(
        search_span(50, 24, None, true),
        SearchSpan {
            history: Some((0, 1)),
            visible: Some((0, 23)),
        }
    );
}

#[test]
fn a_start_inside_the_viewport_splits_the_two_segments() {
    assert_eq!(
        search_span(50, 24, Some(5), false),
        SearchSpan {
            history: Some((49, 0)),
            visible: Some((0, 5)),
        }
    );
    assert_eq!(
        search_span(50, 24, Some(5), true),
        SearchSpan {
            history: None,
            visible: Some((5, 23)),
        }
    );
}

#[test]
fn a_start_inside_history_splits_the_two_segments() {
    assert_eq!(
        search_span(50, 24, Some(-10), false),
        SearchSpan {
            history: Some((40, 0)),
            visible: None,
        }
    );
    assert_eq!(
        search_span(50, 24, Some(-10), true),
        SearchSpan {
            history: Some((40, 1)),
            visible: Some((0, 23)),
        }
    );
}

#[test]
fn a_start_beyond_the_pane_is_clamped_not_sent_out_of_range() {
    assert_eq!(
        search_span(3, 24, Some(-999), false),
        SearchSpan {
            history: Some((0, 0)),
            visible: None,
        }
    );
    assert_eq!(
        search_span(3, 24, Some(999), true),
        SearchSpan {
            history: None,
            visible: Some((23, 23)),
        }
    );
}

#[test]
fn a_pane_without_history_searches_only_the_viewport() {
    assert_eq!(
        search_span(0, 24, None, false),
        SearchSpan {
            history: None,
            visible: Some((0, 23)),
        }
    );
}

#[test]
fn visible_matches_carry_viewport_line_numbers() {
    let grid = snapshot(3, 6, &["alpha", "beta", "alpha2"]);
    let hits = visible_hits(&grid, 0, 2, "alpha");
    assert_eq!(hits.len(), 2, "{hits:?}");
    assert_eq!(hits[0].line, 0);
    assert_eq!(hits[0].text, "alpha ");
    assert_eq!(hits[1].line, 2);
}

#[test]
fn backward_search_keeps_the_newest_results() {
    let mut hits: Vec<SearchHit> = (-5..0)
        .map(|line| SearchHit {
            line,
            text: String::new(),
        })
        .collect();
    truncate_by_direction(&mut hits, 2, false);
    assert_eq!(
        hits.iter().map(|hit| hit.line).collect::<Vec<_>>(),
        vec![-2, -1]
    );
}

#[test]
fn forward_search_keeps_the_oldest_results() {
    let mut hits: Vec<SearchHit> = (-5..0)
        .map(|line| SearchHit {
            line,
            text: String::new(),
        })
        .collect();
    truncate_by_direction(&mut hits, 2, true);
    assert_eq!(
        hits.iter().map(|hit| hit.line).collect::<Vec<_>>(),
        vec![-5, -4]
    );
}

#[test]
fn a_prompt_falls_back_to_the_later_markers() {
    assert_eq!(command_prompt_line(&command(1, Some(-3))), Some(-3));
    let typed = CommandRange { id: 2, command: marker(-2, 4), ..Default::default() };
    assert_eq!(command_prompt_line(&typed), Some(-2));
    let printed = CommandRange { id: 3, output_start: marker(-1, 0), ..Default::default() };
    assert_eq!(command_prompt_line(&printed), Some(-1));
    assert_eq!(command_prompt_line(&CommandRange::default()), None);
}

#[test]
fn a_line_beyond_the_signed_range_is_clamped() {
    assert_eq!(clamp_to_i32(7), 7);
    assert_eq!(clamp_to_i32(u32::MAX), i32::MAX);
}

#[test]
fn an_empty_pane_has_nothing_to_search() {
    assert_eq!(search_span(0, 0, None, false), SearchSpan { history: None, visible: None });
}

#[test]
fn spacers_of_wide_characters_carry_no_text() {
    let mut spacer = cell("x");
    spacer.style = Some(WideCharStyle { wide_char_spacer: true, leading_wide_char_spacer: false });
    let mut accented = cell("e");
    accented.zerowidth = "\u{301}".to_string();
    assert_eq!(plain_text(&[cell("\u{4e2d}"), spacer, accented]), "\u{4e2d}e\u{301}");
    assert_eq!(plain_text(&[]), "");
}

#[test]
fn merged_hits_ascend_and_keep_the_first_of_a_line() {
    let hit = |line: i32, text: &str| SearchHit { line, text: text.to_string() };
    let merged = merge_hits(&vec![hit(3, "a"), hit(-1, "b"), hit(3, "c"), hit(0, "d")]);
    let seen: Vec<(i32, &str)> = merged.iter().map(|h| (h.line, h.text.as_str())).collect();
    assert_eq!(seen, vec![(-1, "b"), (0, "d"), (3, "a")]);
}

#[test]
fn a_pattern_that_is_no_expression_is_refused() {
    let options = SearchOptions { start: None, forward: false, max_results: 10 };
    assert!(check_pattern("a+").is_ok());
    assert_eq!(check_pattern("(").unwrap_err().message(), "invalid regular expression: (");
    let error = begin_search("(", None, &options).unwrap_err();
    assert!(matches!(&error, SearchError::InvalidPattern(p) if p == "("));
    assert_eq!(error.message(), "invalid regular expression: (");
    let grid = snapshot(1, 1, &["a"]);
    assert!(search_scrollback("(", &grid, &options, &Vec::new()).is_err());
    let pane = GridSnapshot { rows: 24, cols: 80, history_size: 50, cells: Vec::new() };
    assert_eq!(
        begin_search("a+", Some(&pane), &options).unwrap(),
        SearchSpan { history: Some((49, 0)), visible: Some((0, 23)) }
    );
    let error = begin_search("a+", None, &options).unwrap_err();
    assert_eq!(error.message(), "search-scrollback expected a full grid snapshot");
}

#[test]
fn a_search_joins_history_and_viewport() {
    let mut grid = snapshot(2, 3, &["foo", "bar"]);
    grid.history_size = 10;
    let matches = vec![HistoryMatch { line_number: 4, context: vec![cell("f"), cell("o")] }];
    let options = SearchOptions { start: None, forward: false, max_results: 10 };
    let hits = search_scrollback("^f", &grid, &options, &matches).unwrap();
    let seen: Vec<(i32, &str)> = hits.iter().map(|h| (h.line, h.text.as_str())).collect();
    assert_eq!(seen, vec![(-6, "fo"), (0, "foo")]);
    let one = SearchOptions { start: None, forward: true, max_results: 1 };
    let hits = search_scrollback("^f", &grid, &one, &matches).unwrap();
    assert_eq!(hits.len(), 1);
    assert_eq!(hits[0].line, -6);
}
