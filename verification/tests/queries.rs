use glicol_lsp::goto_definition::goto_definition;
use glicol_lsp::helpers::{find_node_for_point, traverse_rec, SyntaxNode};
use glicol_lsp::hover::hover;
use ropey::Rope;

fn node(kind: &str, start: usize, end: usize, children: Vec<SyntaxNode>) -> SyntaxNode {
    SyntaxNode { kind: kind.to_string(), start, end, children }
}

fn leaf(kind: &str, start: usize, end: usize) -> SyntaxNode {
    node(kind, start, end, Vec::new())
}

/// The tree the glicol grammar gives the two-statement source used below:
/// a top-level `line` per statement, its label first.
fn two_statement_tree() -> SyntaxNode {
    node(
        "source_file",
        0,
        50,
        vec![
            node(
                "line",
                1,
                28,
                vec![
                    leaf("reference", 1, 4),
                    leaf(":", 4, 5),
                    node(
                        "chain",
                        6,
                        27,
                        vec![
                            leaf("ident", 6, 8),
                            leaf("symbol", 9, 16),
                            leaf(">>", 17, 19),
                            leaf("ident", 20, 23),
                            leaf("number", 24, 27),
                        ],
                    ),
                ],
            ),
            node(
                "line",
                29,
                49,
                vec![
                    leaf("ident", 29, 32),
                    leaf(":", 32, 33),
                    node(
                        "chain",
                        34,
                        48,
                        vec![
                            leaf("reference", 34, 37),
                            leaf(">>", 38, 40),
                            leaf("ident", 41, 44),
                            leaf("number", 45, 48),
                        ],
                    ),
                ],
            ),
        ],
    )
}

#[test]
fn test_goto_definition() {
    let source_code = "\n~s1: sp \\guitar >> mul 0.8;\nmix: ~s1 >> mul 0.1;\n";
    let tree = two_statement_tree();
    let rope = Rope::from_str(source_code);

    let m = goto_definition(&tree, &rope, 2, 5).unwrap();
    assert_eq!(rope.byte_slice(m.0..m.1).to_string(), "~s1");

    assert!(goto_definition(&tree, &rope, 2, 10).is_none());
}

#[test]
fn test_goto_definition2() {
    let source_code = "\n~a: choose 70 71\n~m: choose 67 68\n\n~t1: speed 0.25 >> seq 60 _ _ 69 _ _ 69 _ _ 67 _ 67 >> sp \\guitar >> mul 0.15\n~t2: speed 0.25 >> seq 64 _ _ 72 _ _ 72 _ _ 73 _ 71 >> sp \\guitar >> mul 0.15\n~t3: speed 0.25 >> seq ~m _ _ 64 _ _ 74 _ _ 74 _ 74 >> sp \\guitar >> mul 0.15\n~t4: speed 0.25 >> seq ~a _ _ 79 _ _ 77 _ _ 77 _ 77 >> sp \\guitar >> mul 0.15\n\n// ~u1: speed 4.0 >> seq 72 74 76 77 67 69 71 72 >> sawsynth 0.1 0.1 >> lpf 1000.0 1.0 >> mul 0.1\n~u2: speed 4.0 >> seq 60 64 67 71 74 71 67 64 60 >> squsynth 0.5 0.1 >> mul ~mod2 >> lpf 400.0 1.0\n\n~mod: sin 800 >> mul 0.1\n\n~mod2: sin 0.3 \n\n~c: choose 88 89 90\n\n~l: choose 48 58\n\n~b1: speed 2.0 >> seq ~l _ ~l _ >> sp \\bass3 >> mul 0.2\n~b2: speed 2.0 >> seq 79 _ 74 _ >> sp \\kick1 >> mul 0.4\n~b3: speed 2.0 >> seq ~c _ ~c _~c >> sp \\snare1 >> mul 0.3\n\nout: mix ~t.. ~b.. ~u.. >> mul 1\n\n// out: seq 60 61 >> sp \\peri007_xbigclang >> mul 0.5\n";
    let rope = Rope::from_str(source_code);

    // One top-level `line` per statement; the two statements the queries
    // land in keep their reference leaves, the rest are collapsed.
    let stmt = |ls: usize, le: usize, ll: usize| -> SyntaxNode {
        node(
            "line",
            ls,
            le,
            vec![leaf("reference", ls, ls + ll), node("rest", ls + ll, le, Vec::new())],
        )
    };
    let tree = node(
        "source_file",
        0,
        889,
        vec![
            stmt(1, 17, 2),
            stmt(18, 34, 2),
            stmt(36, 113, 3),
            stmt(114, 191, 3),
            node(
                "line",
                192,
                269,
                vec![
                    leaf("reference", 192, 195),
                    node("rest", 195, 269, vec![leaf("reference", 215, 217)]),
                ],
            ),
            node(
                "line",
                270,
                347,
                vec![
                    leaf("reference", 270, 273),
                    node("rest", 273, 347, vec![leaf("reference", 293, 295)]),
                ],
            ),
            leaf("comment", 349, 446),
            stmt(447, 545, 3),
            stmt(547, 571, 4),
            stmt(573, 588, 5),
            stmt(590, 609, 2),
            stmt(611, 627, 2),
            stmt(629, 684, 3),
            stmt(685, 740, 3),
            stmt(741, 799, 3),
            stmt(801, 833, 3),
            leaf("comment", 835, 888),
        ],
    );

    let m = goto_definition(&tree, &rope, 6, 24).unwrap();
    assert_eq!(rope.byte_slice(m.0..m.1).to_string(), "~m");

    let m = goto_definition(&tree, &rope, 7, 24).unwrap();
    assert_eq!(rope.byte_slice(m.0..m.1).to_string(), "~a");
}

#[test]
fn test_parse() {
    let source_code = "\n~a: choose 70 71\n";
    let rope = Rope::from_str(source_code);
    let tree = node(
        "source_file",
        0,
        18,
        vec![node(
            "line",
            1,
            17,
            vec![
                leaf("reference", 1, 3),
                node(
                    "rest",
                    3,
                    17,
                    vec![leaf("ident", 5, 11), leaf("number", 12, 14), leaf("number", 15, 17)],
                ),
            ],
        )],
    );
    let docs = vec![(
        "choose".to_string(),
        "## Description\nrandomly choose a value from a list\n".to_string(),
    )];

    hover(&tree, &rope, 1, 5, &docs).unwrap();
}

#[test]
fn hover_unknown_word_is_none() {
    let source_code = "\n~a: choose 70 71\n";
    let rope = Rope::from_str(source_code);
    let tree = node(
        "source_file",
        0,
        18,
        vec![node("line", 1, 17, vec![leaf("reference", 1, 3), leaf("rest", 3, 17)])],
    );
    let docs = vec![("mul".to_string(), "## Description\nmultiply\n".to_string())];
    assert!(hover(&tree, &rope, 1, 5, &docs).is_none());
}

#[test]
fn label_resolves_to_itself() {
    // Querying inside a declared label's own span returns that label's own
    // byte range.
    let source_code = "\n~s1: sp \\guitar >> mul 0.8;\nmix: ~s1 >> mul 0.1;\n";
    let tree = two_statement_tree();
    let rope = Rope::from_str(source_code);

    let m = goto_definition(&tree, &rope, 1, 1).unwrap();
    assert_eq!(m, (1, 4));
    let m = goto_definition(&tree, &rope, 2, 0).unwrap();
    assert_eq!(m, (29, 32));
}

#[test]
fn later_declaration_wins() {
    // ~a: X followed by ~a: Y; a reference to ~a resolves to the later
    // declaration's label span.
    let source_code = "~a: sin 440\n~a: sin 220\nout: ~a\n";
    // bytes: line0 0..11 label 0..2; line1 12..23 label 12..14;
    // line2 24..31 label 24..27, reference ~a at 29..31.
    let rope = Rope::from_str(source_code);
    let tree = node(
        "source_file",
        0,
        32,
        vec![
            node("line", 0, 11, vec![leaf("reference", 0, 2), leaf("rest", 2, 11)]),
            node("line", 12, 23, vec![leaf("reference", 12, 14), leaf("rest", 14, 23)]),
            node(
                "line",
                24,
                31,
                vec![leaf("ident", 24, 27), node("rest", 27, 31, vec![leaf("reference", 29, 31)])],
            ),
        ],
    );
    let m = goto_definition(&tree, &rope, 2, 6).unwrap();
    assert_eq!(m, (12, 14));
}

#[test]
fn undeclared_reference_is_none() {
    let source_code = "out: ~a\n";
    let rope = Rope::from_str(source_code);
    let tree = node(
        "source_file",
        0,
        7,
        vec![node(
            "line",
            0,
            7,
            vec![leaf("ident", 0, 3), node("rest", 3, 7, vec![leaf("reference", 5, 7)])],
        )],
    );
    assert!(goto_definition(&tree, &rope, 0, 5).is_none());
}

#[test]
fn point_outside_buffer_is_none() {
    let source_code = "~a: sin 440\n";
    let rope = Rope::from_str(source_code);
    let tree = node(
        "source_file",
        0,
        11,
        vec![node("line", 0, 11, vec![leaf("reference", 0, 2), leaf("rest", 2, 11)])],
    );
    assert!(goto_definition(&tree, &rope, 5, 0).is_none());
    assert!(goto_definition(&tree, &rope, 0, 99).is_none());
    assert!(find_node_for_point(&tree, &rope, 9, 9).is_none());
}

#[test]
fn point_in_gap_returns_enclosing_parent() {
    // No child covers byte 3 (the space); the deepest containing node is
    // the statement itself.
    let source_code = "ab c\n";
    let rope = Rope::from_str(source_code);
    let tree = node(
        "source_file",
        0,
        5,
        vec![node("line", 0, 5, vec![leaf("ident", 0, 2), leaf("ident", 3, 4)])],
    );
    assert_eq!(find_node_for_point(&tree, &rope, 0, 2), Some((0, 5)));
    assert_eq!(find_node_for_point(&tree, &rope, 0, 3), Some((3, 4)));
}

#[test]
fn traverse_visits_preorder() {
    let tree = node(
        "a",
        0,
        10,
        vec![node("b", 0, 4, vec![leaf("c", 1, 2)]), leaf("d", 5, 9)],
    );
    assert_eq!(traverse_rec(&tree), vec![(0, 10), (0, 4), (1, 2), (5, 9)]);
}
