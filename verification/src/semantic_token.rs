//! The semantic-token encoder: turns the flat event stream of an external
//! highlighter into the delta-encoded token list an editor client expects.
//!
//! Events arrive in time order: a category start opens a token, a source
//! span gives the open token its position and width, a category end closes
//! it.  The token list is then converted from absolute (line, column)
//! positions to deltas against the previous token.  The very first source
//! span of a stream precedes any real classification and is discarded, as
//! are spans seen while no token is open.

use vstd::prelude::*;
use tree_sitter_highlight::HighlightEvent as TshEvent;
use crate::text::{byte_len, byte_to_point, byte_to_position, rope_len_bytes, rope_text};

verus! {

/// One step of an external highlighter's output.
#[derive(Debug, Clone, Copy, PartialEq, Eq, Structural)]
pub enum HighlightEvent {
    /// A token of the given category index opens.
    HighlightStart(usize),
    /// The byte range belonging to the most recently opened token.
    Source { start: usize, end: usize },
    /// The most recently opened token closes.
    HighlightEnd,
}

/// A client-facing token: position deltas against the previous token, byte
/// length, and the category index into the legend.
#[derive(Debug, Clone, Copy, PartialEq, Eq, Structural)]
pub struct SemanticToken {
    pub delta_line: usize,
    pub delta_start: usize,
    pub length: usize,
    pub token_type: usize,
    pub token_modifiers_bitset: u32,
}

/// The (line, column, length, category) quadruple of a token.
pub open spec fn token_view(t: SemanticToken) -> (int, int, int, int) {
    (t.delta_line as int, t.delta_start as int, t.length as int, t.token_type as int)
}

/// One step of the event machine.  The state is (no token open, some span
/// already seen, tokens so far) with positions still absolute.
pub open spec fn hl_step(
    s: Seq<char>,
    st: (bool, bool, Seq<(int, int, int, int)>),
    ev: HighlightEvent,
) -> (bool, bool, Seq<(int, int, int, int)>) {
    match ev {
        HighlightEvent::HighlightStart(c) => (false, st.1, st.2 + seq![(0int, 0int, 0int, c as int)]),
        HighlightEvent::HighlightEnd => (true, st.1, st.2),
        HighlightEvent::Source { start, end } => {
            if !st.1 {
                (st.0, true, st.2)
            } else if st.0 {
                st
            } else if st.2.len() == 0 {
                st
            } else if start > byte_len(s) {
                st
            } else {
                let p = byte_to_point(s, start as int);
                let w = if end >= start {
                    end - start
                } else {
                    0int
                };
                (st.0, st.1, st.2.update(st.2.len() - 1, (p.0, p.1, w, st.2.last().3)))
            }
        },
    }
}

/// The event machine run over a whole stream, starting closed and with no
/// span seen.
pub open spec fn hl_fold(s: Seq<char>, evs: Seq<HighlightEvent>) -> (
    bool,
    bool,
    Seq<(int, int, int, int)>,
)
    decreases evs.len(),
{
    if evs.len() == 0 {
        (true, false, Seq::empty())
    } else {
        hl_step(s, hl_fold(s, evs.drop_last()), evs.last())
    }
}

/// The token list of an event stream, positions still absolute.
pub open spec fn abs_tokens(s: Seq<char>, evs: Seq<HighlightEvent>) -> Seq<(int, int, int, int)> {
    hl_fold(s, evs).2
}

/// Delta form of one token against its predecessor: the line delta, and the
/// column delta within a line or the absolute column on a new line.
/// A predecessor positioned after its successor contributes delta zero.
pub open spec fn delta_pair(prev: (int, int, int, int), cur: (int, int, int, int)) -> (
    int,
    int,
    int,
    int,
) {
    let dl = if cur.0 >= prev.0 {
        cur.0 - prev.0
    } else {
        0int
    };
    let dc = if cur.0 == prev.0 {
        if cur.1 >= prev.1 {
            cur.1 - prev.1
        } else {
            0int
        }
    } else {
        cur.1
    };
    (dl, dc, cur.2, cur.3)
}

/// Absolute positions turned into successive deltas; the first token keeps
/// its absolute position.
pub open spec fn delta_encode(toks: Seq<(int, int, int, int)>) -> Seq<(int, int, int, int)> {
    Seq::new(
        toks.len(),
        |i: int|
            if i == 0 {
                toks[0]
            } else {
                delta_pair(toks[i - 1], toks[i])
            },
    )
}

/// What the encoder emits for a document text and an event stream.
pub open spec fn spec_semantic_tokens(s: Seq<char>, evs: Seq<HighlightEvent>) -> Seq<
    (int, int, int, int),
> {
    delta_encode(abs_tokens(s, evs))
}

/// Absolute positions reconstructed from deltas by cumulative summing.
pub open spec fn delta_decode(dts: Seq<(int, int, int, int)>) -> Seq<(int, int, int, int)>
    decreases dts.len(),
{
    if dts.len() == 0 {
        Seq::empty()
    } else if dts.len() == 1 {
        seq![dts[0]]
    } else {
        let prev = delta_decode(dts.drop_last());
        let p = prev.last();
        let d = dts.last();
        prev + seq![
            (p.0 + d.0, if d.0 == 0 {
                p.1 + d.1
            } else {
                d.1
            }, d.2, d.3),
        ]
    }
}

/// Tokens are emitted in non-decreasing (line, column) order.
pub open spec fn tokens_sorted(toks: Seq<(int, int, int, int)>) -> bool {
    forall|i: int|
        0 <= i < toks.len() - 1 ==> (#[trigger] toks[i]).0 < toks[i + 1].0 || (toks[i].0 == toks[i
            + 1].0 && toks[i].1 <= toks[i + 1].1)
}

/// Delta round-trip: summing the emitted deltas cumulatively reproduces the
/// absolute position of every token, for any token list in emission order.
#[verifier::rlimit(50)]
pub proof fn lemma_delta_round_trip(toks: Seq<(int, int, int, int)>)
    requires
        tokens_sorted(toks),
    ensures
        delta_decode(delta_encode(toks)) == toks,
    decreases toks.len(),
{
    let dts = delta_encode(toks);
    if toks.len() == 0 {
        assert(delta_decode(dts) =~= toks);
    } else if toks.len() == 1 {
        assert(dts.len() == 1);
        assert(dts[0] == toks[0]);
        assert(delta_decode(dts) =~= toks);
    } else {
        let shorter = toks.drop_last();
        assert(tokens_sorted(shorter)) by {
            assert forall|i: int| 0 <= i < shorter.len() - 1 implies (#[trigger] shorter[i]).0
                < shorter[i + 1].0 || (shorter[i].0 == shorter[i + 1].0 && shorter[i].1 <= shorter[i
                + 1].1) by {
                assert(shorter[i] == toks[i]);
                assert(shorter[i + 1] == toks[i + 1]);
            }
        }
        lemma_delta_round_trip(shorter);
        assert(dts.drop_last() =~= delta_encode(shorter));
        let n = toks.len();
        let p = toks[n - 2];
        let c = toks[n - 1];
        assert(dts.last() == delta_pair(p, c));
        let rebuilt = delta_decode(dts);
        assert(rebuilt == delta_decode(dts.drop_last()) + seq![
            (shorter.last().0 + dts.last().0, if dts.last().0 == 0 {
                shorter.last().1 + dts.last().1
            } else {
                dts.last().1
            }, dts.last().2, dts.last().3),
        ]);
        assert(p.0 < c.0 || (p.0 == c.0 && p.1 <= c.1));
        assert(rebuilt.last() == c);
        assert(rebuilt =~= toks);
    }
}

/// Idempotence on the encoder's side: the token list is a function of the
/// document text and the highlight event stream alone, so highlighting an
/// unedited document twice yields identical token lists whenever the
/// external highlighter reports the same events for it.
pub proof fn lemma_highlight_idempotent(
    s: Seq<char>,
    evs: Seq<HighlightEvent>,
    t1: Seq<(int, int, int, int)>,
    t2: Seq<(int, int, int, int)>,
)
    requires
        t1 == spec_semantic_tokens(s, evs),
        t2 == spec_semantic_tokens(s, evs),
    ensures
        t1 == t2,
{
}

/// Encodes a highlight event stream against the buffer into the
/// delta-encoded token list: exactly the machine of `spec_semantic_tokens`.
pub fn semantic_tokens_from_events(rope: &ropey::Rope, events: &Vec<HighlightEvent>) -> (r: Vec<
    SemanticToken,
>)
    ensures
        r@.map_values(|t: SemanticToken| token_view(t)) == spec_semantic_tokens(rope_text(*rope), events@),
        forall|k: int| 0 <= k < r@.len() ==> (#[trigger] r@[k]).token_modifiers_bitset == 0,
{
    let ghost s = rope_text(*rope);
    let nb = rope_len_bytes(rope);
    let mut toks: Vec<SemanticToken> = Vec::new();
    let mut skip: bool = true;
    let mut seen: bool = false;
    let mut i: usize = 0;
    while i < events.len()
        invariant
            i <= events.len(),
            s == rope_text(*rope),
            nb == byte_len(s),
            hl_fold(s, events@.take(i as int)).0 == skip,
            hl_fold(s, events@.take(i as int)).1 == seen,
            hl_fold(s, events@.take(i as int)).2 == toks@.map_values(|t: SemanticToken| token_view(t)),
            forall|k: int| 0 <= k < toks@.len() ==> (#[trigger] toks@[k]).token_modifiers_bitset
                == 0,
        decreases events.len() - i,
    {
        let ghost pre = events@.take(i as int);
        let ghost cur = events@.take(i + 1);
        proof {
            assert(cur.drop_last() =~= pre);
            assert(cur.last() == events@[i as int]);
        }
        match events[i] {
            HighlightEvent::HighlightStart(c) => {
                toks.push(
                    SemanticToken {
                        delta_line: 0,
                        delta_start: 0,
                        length: 0,
                        token_type: c,
                        token_modifiers_bitset: 0,
                    },
                );
                skip = false;
                proof {
                    assert(toks@.map_values(|t: SemanticToken| token_view(t)) =~= hl_fold(s, cur).2);
                }
            },
            HighlightEvent::HighlightEnd => {
                skip = true;
            },
            HighlightEvent::Source { start, end } => {
                if !seen {
                    seen = true;
                } else if !skip && toks.len() > 0 && start <= nb {
                    match byte_to_position(rope, start) {
                        Some(p) => {
                            let w: usize = if end >= start {
                                end - start
                            } else {
                                0
                            };
                            let last = toks.len() - 1;
                            let prev_type = toks[last].token_type;
                            toks.set(
                                last,
                                SemanticToken {
                                    delta_line: p.0,
                                    delta_start: p.1,
                                    length: w,
                                    token_type: prev_type,
                                    token_modifiers_bitset: 0,
                                },
                            );
                            proof {
                                assert(toks@.map_values(|t: SemanticToken| token_view(t)) =~= hl_fold(s, cur).2);
                            }
                        },
                        None => {},
                    }
                }
            },
        }
        i = i + 1;
    }
    proof {
        assert(events@.take(events@.len() as int) =~= events@);
    }
    let ghost abs = abs_tokens(s, events@);
    let n = toks.len();
    let mut out: Vec<SemanticToken> = Vec::new();
    let mut j: usize = 0;
    while j < n
        invariant
            j <= n,
            n == toks@.len(),
            abs == toks@.map_values(|t: SemanticToken| token_view(t)),
            out@.map_values(|t: SemanticToken| token_view(t)) == delta_encode(abs).take(j as int),
            forall|k: int| 0 <= k < toks@.len() ==> (#[trigger] toks@[k]).token_modifiers_bitset
                == 0,
            forall|k: int| 0 <= k < out@.len() ==> (#[trigger] out@[k]).token_modifiers_bitset == 0,
        decreases n - j,
    {
        let ghost pre_out = out@;
        if j == 0 {
            let first = toks[0];
            out.push(first);
        } else {
            let prev = toks[j - 1];
            let cur = toks[j];
            let dl: usize = if cur.delta_line >= prev.delta_line {
                cur.delta_line - prev.delta_line
            } else {
                0
            };
            let dc: usize = if cur.delta_line == prev.delta_line {
                if cur.delta_start >= prev.delta_start {
                    cur.delta_start - prev.delta_start
                } else {
                    0
                }
            } else {
                cur.delta_start
            };
            out.push(
                SemanticToken {
                    delta_line: dl,
                    delta_start: dc,
                    length: cur.length,
                    token_type: cur.token_type,
                    token_modifiers_bitset: 0,
                },
            );
        }
        proof {
            let de = delta_encode(abs);
            assert(abs[j as int] == token_view(toks@[j as int]));
            if j > 0 {
                assert(abs[j - 1] == token_view(toks@[j - 1]));
                assert(de[j as int] == delta_pair(abs[j - 1], abs[j as int]));
            } else {
                assert(de[0] == abs[0]);
            }
            let mapped = out@.map_values(|t: SemanticToken| token_view(t));
            let pre_mapped = pre_out.map_values(|t: SemanticToken| token_view(t));
            assert(out@.len() == pre_out.len() + 1);
            assert(pre_mapped == de.take(j as int));
            assert(de.len() == abs.len());
            assert(abs.len() == n);
            assert(de.take(j as int).len() == j as int);
            assert(pre_out.len() == j as int);
            assert(mapped.len() == j + 1);
            assert forall|k: int| 0 <= k < j + 1 implies mapped[k] == de.take(j + 1)[k] by {
                assert(de.take(j + 1)[k] == de[k]);
                if k < j {
                    assert(out@[k] == pre_out[k]);
                    assert(mapped[k] == token_view(out@[k]));
                    assert(pre_mapped[k] == token_view(pre_out[k]));
                    assert(pre_mapped[k] == de.take(j as int)[k]);
                    assert(de.take(j as int)[k] == de[k]);
                } else {
                    assert(mapped[k] == token_view(out@[k]));
                }
            }
            assert(mapped =~= de.take(j + 1));
        }
        j = j + 1;
    }
    proof {
        assert(delta_encode(abs).take(n as int) =~= delta_encode(abs));
    }
    out
}

#[verifier::external_type_specification]
#[verifier::external_body]
pub struct ExTsHighlighter(tree_sitter_highlight::Highlighter);

#[verifier::external_type_specification]
#[verifier::external_body]
pub struct ExHighlightConfiguration(tree_sitter_highlight::HighlightConfiguration);

#[verifier::external_type_specification]
#[verifier::external_body]
pub struct ExLanguage(tree_sitter::Language);

/// The fixed legend of recognized highlight categories, in the order their
/// indices refer to.
pub fn highlight_names() -> (r: Vec<String>)
    ensures
        r@.map_values(|x: String| x@) == seq![
            "function"@,
            "number"@,
            "operator"@,
            "comment"@,
            "string"@,
        ],
{
    let mut v: Vec<String> = Vec::new();
    v.push(String::from_str("function"));
    v.push(String::from_str("number"));
    v.push(String::from_str("operator"));
    v.push(String::from_str("comment"));
    v.push(String::from_str("string"));
    proof {
        assert(v@.map_values(|x: String| x@) =~= seq![
            "function"@,
            "number"@,
            "operator"@,
            "comment"@,
            "string"@,
        ]);
    }
    v
}

/// The external highlighter and its configuration for one language, reused
/// across highlighting calls.
pub struct SemanticHighlighter {
    highlighter: tree_sitter_highlight::Highlighter,
    configuration: tree_sitter_highlight::HighlightConfiguration,
}

/// Relies on `tree_sitter_highlight::Highlighter::highlight`: the event
/// stream for the source, cut short at the first event error, or `None`
/// when highlighting fails to start.  Nothing is assumed about the events.
#[verifier::external_body]
fn hl_events(h: &mut SemanticHighlighter, src: &str) -> (r: Option<Vec<HighlightEvent>>) {
    let run = h.highlighter.highlight(&h.configuration, src.as_bytes(), None, |_| None);
    let iter = match run { Ok(i) => i, Err(_) => return None };
    let mut out = Vec::new();
    for ev in iter {
        match ev {
            Ok(TshEvent::HighlightStart(c)) => out.push(HighlightEvent::HighlightStart(c.0)),
            Ok(TshEvent::Source { start, end }) => out.push(HighlightEvent::Source { start, end }),
            Ok(TshEvent::HighlightEnd) => out.push(HighlightEvent::HighlightEnd),
            Err(_) => break,
        }
    }
    Some(out)
}

impl SemanticHighlighter {
    /// Relies on `tree_sitter_highlight::Highlighter::new` and
    /// `HighlightConfiguration::{new, configure}`: builds the reusable
    /// highlighter for the given language and queries, recognizing the
    /// given category names; `None` when the queries are rejected.
    #[verifier::external_body]
    pub fn new(
        language: tree_sitter::Language,
        highlights_query: &str,
        injections_query: &str,
        names: &Vec<String>,
    ) -> (r: Option<SemanticHighlighter>) {
        let built = tree_sitter_highlight::HighlightConfiguration::new(
            language, highlights_query, injections_query, "");
        let mut configuration = match built { Ok(c) => c, Err(_) => return None };
        configuration.configure(names.as_slice());
        let highlighter = tree_sitter_highlight::Highlighter::new();
        Some(SemanticHighlighter { highlighter, configuration })
    }

    /// The delta-encoded token list for the buffer: the encoder of
    /// `spec_semantic_tokens` run over whatever events the external
    /// highlighter reports, or an empty list when it fails.
    pub fn semantic_tokens(&mut self, rope: &ropey::Rope) -> (r: Vec<SemanticToken>)
        ensures
            exists|evs: Seq<HighlightEvent>|
                r@.map_values(|t: SemanticToken| token_view(t)) == spec_semantic_tokens(
                    rope_text(*rope),
                    evs,
                ),
            forall|k: int| 0 <= k < r@.len() ==> (#[trigger] r@[k]).token_modifiers_bitset == 0,
    {
        let ghost s = rope_text(*rope);
        let src = crate::text::rope_to_string(rope);
        match hl_events(self, src.as_str()) {
            Some(events) => {
                let r = semantic_tokens_from_events(rope, &events);
                proof {
                    assert(r@.map_values(|t: SemanticToken| token_view(t))
                        == spec_semantic_tokens(s, events@));
                }
                r
            },
            None => {
                let r: Vec<SemanticToken> = Vec::new();
                proof {
                    let evs0 = Seq::<HighlightEvent>::empty();
                    assert(spec_semantic_tokens(s, evs0) =~= Seq::<(int, int, int, int)>::empty());
                    assert(r@.map_values(|t: SemanticToken| token_view(t)) =~= Seq::<
                        (int, int, int, int),
                    >::empty());
                    assert(r@.map_values(|t: SemanticToken| token_view(t))
                        == spec_semantic_tokens(s, evs0));
                }
                r
            },
        }
    }
}

} // verus!
