use glicol_lsp::semantic_token::{
    highlight_names, semantic_tokens_from_events, HighlightEvent, SemanticToken,
};
use ropey::Rope;

fn start(c: usize) -> HighlightEvent {
    HighlightEvent::HighlightStart(c)
}

fn span(a: usize, b: usize) -> HighlightEvent {
    HighlightEvent::Source { start: a, end: b }
}

fn end() -> HighlightEvent {
    HighlightEvent::HighlightEnd
}

/// The event stream the highlighter reports for the two-line source below:
/// a function token per label, a number token per literal, unclassified
/// text in between as bare spans.
fn two_line_events() -> Vec<HighlightEvent> {
    vec![
        span(0, 1),
        start(0),
        span(1, 4),
        end(),
        span(4, 10),
        start(1),
        span(10, 12),
        end(),
        span(12, 13),
        start(1),
        span(13, 15),
        end(),
        span(15, 16),
        start(1),
        span(16, 18),
        end(),
        span(18, 19),
        start(0),
        span(19, 22),
        end(),
        span(22, 28),
        start(1),
        span(28, 30),
        end(),
        span(30, 31),
        start(1),
        span(31, 33),
        end(),
        span(33, 34),
        start(1),
        span(34, 36),
        end(),
        span(36, 37),
    ]
}

#[test]
fn test_highlight() {
    let line = "\n~t1: seq 60 60 60\n~t2: seq 60 60 60\n";
    let rope = Rope::from_str(line);

    let tokens = semantic_tokens_from_events(&rope, &two_line_events());

    assert_eq!(
        tokens.into_iter().map(|token| token.token_type).collect::<Vec<_>>(),
        vec![0, 1, 1, 1, 0, 1, 1, 1]
    );
}

#[test]
fn highlight_delta_positions_are_exact() {
    let line = "\n~t1: seq 60 60 60\n~t2: seq 60 60 60\n";
    let rope = Rope::from_str(line);
    let tokens = semantic_tokens_from_events(&rope, &two_line_events());
    let quads: Vec<(usize, usize, usize, usize)> = tokens
        .iter()
        .map(|t| (t.delta_line, t.delta_start, t.length, t.token_type))
        .collect();
    assert_eq!(
        quads,
        vec![
            (1, 0, 3, 0),
            (0, 9, 2, 1),
            (0, 3, 2, 1),
            (0, 3, 2, 1),
            (1, 0, 3, 0),
            (0, 9, 2, 1),
            (0, 3, 2, 1),
            (0, 3, 2, 1),
        ]
    );
}

#[test]
fn highlight_twice_yields_identical_tokens() {
    // An unedited document highlighted twice gives identical token lists.
    let line = "\n~t1: seq 60 60 60\n~t2: seq 60 60 60\n";
    let rope = Rope::from_str(line);
    let once: Vec<SemanticToken> = semantic_tokens_from_events(&rope, &two_line_events());
    let twice: Vec<SemanticToken> = semantic_tokens_from_events(&rope, &two_line_events());
    assert_eq!(once, twice);
}

#[test]
fn delta_round_trip_reconstructs_positions() {
    // Cumulatively summing the emitted deltas reproduces the absolute
    // (line, column) position of every highlighted span.
    let line = "\n~t1: seq 60 60 60\n~t2: seq 60 60 60\n";
    let rope = Rope::from_str(line);
    let tokens = semantic_tokens_from_events(&rope, &two_line_events());

    let expected_absolute = vec![
        (1usize, 0usize),
        (1, 9),
        (1, 12),
        (1, 15),
        (2, 0),
        (2, 9),
        (2, 12),
        (2, 15),
    ];
    let mut line_acc: usize = 0;
    let mut col_acc: usize = 0;
    let mut rebuilt = Vec::new();
    for t in &tokens {
        line_acc += t.delta_line;
        if t.delta_line == 0 {
            col_acc += t.delta_start;
        } else {
            col_acc = t.delta_start;
        }
        rebuilt.push((line_acc, col_acc));
    }
    assert_eq!(rebuilt, expected_absolute);
}

#[test]
fn first_span_is_discarded_even_when_open() {
    // A document whose very first character is itself a highlighted token:
    // the first source span precedes any real classification and is
    // dropped, so the opening token keeps zero width.
    let rope = Rope::from_str("mul 0.5\n");
    let events = vec![start(0), span(0, 3), end(), span(3, 4), start(1), span(4, 7), end()];
    let tokens = semantic_tokens_from_events(&rope, &events);
    let quads: Vec<(usize, usize, usize, usize)> = tokens
        .iter()
        .map(|t| (t.delta_line, t.delta_start, t.length, t.token_type))
        .collect();
    assert_eq!(quads, vec![(0, 0, 0, 0), (0, 4, 3, 1)]);
}

#[test]
fn spans_while_closed_are_discarded() {
    let rope = Rope::from_str("abc def\n");
    let events = vec![span(0, 3), span(3, 4), start(2), span(4, 7), end(), span(7, 8)];
    let tokens = semantic_tokens_from_events(&rope, &events);
    let quads: Vec<(usize, usize, usize, usize)> = tokens
        .iter()
        .map(|t| (t.delta_line, t.delta_start, t.length, t.token_type))
        .collect();
    assert_eq!(quads, vec![(0, 4, 3, 2)]);
}

#[test]
fn nested_highlights_fill_the_innermost_token() {
    // Start, Start, Source, End, End: the span belongs to the innermost
    // open token; the outer one keeps zero width.
    let rope = Rope::from_str("abc def\n");
    let events = vec![span(0, 1), start(3), start(4), span(4, 7), end(), end()];
    let tokens = semantic_tokens_from_events(&rope, &events);
    let quads: Vec<(usize, usize, usize, usize)> = tokens
        .iter()
        .map(|t| (t.delta_line, t.delta_start, t.length, t.token_type))
        .collect();
    assert_eq!(quads, vec![(0, 0, 0, 3), (0, 4, 3, 4)]);
}

#[test]
fn multibyte_span_columns_count_characters() {
    // The span over "60" starts at byte 3 ("é" takes two bytes) but at
    // character column 2.
    let rope = Rope::from_str("é 60\n");
    let events = vec![span(0, 3), start(1), span(3, 5), end()];
    let tokens = semantic_tokens_from_events(&rope, &events);
    let quads: Vec<(usize, usize, usize, usize)> = tokens
        .iter()
        .map(|t| (t.delta_line, t.delta_start, t.length, t.token_type))
        .collect();
    assert_eq!(quads, vec![(0, 2, 2, 1)]);
}

#[test]
fn empty_event_stream_gives_no_tokens() {
    let rope = Rope::from_str("");
    let tokens = semantic_tokens_from_events(&rope, &Vec::new());
    assert!(tokens.is_empty());
}

#[test]
fn legend_names_are_fixed() {
    assert_eq!(
        highlight_names(),
        vec!["function", "number", "operator", "comment", "string"]
    );
}
