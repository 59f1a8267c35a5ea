//! Hover: resolve the identifier at a query point and look its text up in
//! a prepared documentation table (identifier text to rendered entry).
//! Building that table is the caller's business; this side only resolves
//! and passes the text through.

use vstd::prelude::*;
use crate::helpers::{node_at_point, SyntaxNode};
use crate::text::{rope_text, span_string, span_text, valid_span};

verus! {

/// The entry of the first table row whose key is the given name.
pub open spec fn doc_lookup(entries: Seq<(Seq<char>, Seq<char>)>, name: Seq<char>) -> Option<
    Seq<char>,
>
    decreases entries.len(),
{
    if entries.len() == 0 {
        None
    } else if entries.first().0 == name {
        Some(entries.first().1)
    } else {
        doc_lookup(entries.drop_first(), name)
    }
}

/// What a hover query returns: the documentation entry keyed by the text
/// of the deepest node at the query point.
pub open spec fn hover_spec(
    root: SyntaxNode,
    s: Seq<char>,
    line: int,
    col: int,
    entries: Seq<(Seq<char>, Seq<char>)>,
) -> Option<Seq<char>> {
    match node_at_point(root, s, line, col) {
        None => None,
        Some(node) => if valid_span(s, node.start as int, node.end as int) {
            doc_lookup(entries, span_text(s, node.start as int, node.end as int))
        } else {
            None
        },
    }
}

/// Resolves the identifier at (line, col) and returns its documentation
/// from the given table, or `None` when the point is out of range or the
/// identifier has no entry.
pub fn hover(
    root: &SyntaxNode,
    rope: &ropey::Rope,
    line: usize,
    col: usize,
    docs: &Vec<(String, String)>,
) -> (r: Option<String>)
    ensures
        ({
            let spec_r = hover_spec(
                *root,
                rope_text(*rope),
                line as int,
                col as int,
                docs@.map_values(|p: (String, String)| (p.0@, p.1@)),
            );
            match r {
                Some(t) => spec_r == Some(t@),
                None => spec_r is None,
            }
        }),
{
    let ghost s = rope_text(*rope);
    let ghost entries = docs@.map_values(|p: (String, String)| (p.0@, p.1@));
    let (qa, qb) = match crate::helpers::find_node_for_point(root, rope, line, col) {
        Some(p) => p,
        None => {
            return None;
        },
    };
    let query = match span_string(rope, qa, qb) {
        Some(q) => q,
        None => {
            return None;
        },
    };
    let mut i: usize = 0;
    proof {
        assert(entries.skip(0) =~= entries);
    }
    while i < docs.len()
        invariant
            i <= docs.len(),
            s == rope_text(*rope),
            entries == docs@.map_values(|p: (String, String)| (p.0@, p.1@)),
            doc_lookup(entries, query@) == doc_lookup(entries.skip(i as int), query@),
            node_at_point(*root, s, line as int, col as int) matches Some(m) && m.start == qa
                && m.end == qb,
            valid_span(s, qa as int, qb as int),
            query@ == span_text(s, qa as int, qb as int),
        decreases docs.len() - i,
    {
        let ghost rest = entries.skip(i as int);
        proof {
            assert(rest.first() == entries[i as int]);
            assert(rest.drop_first() =~= entries.skip(i + 1));
            assert(entries[i as int] == (docs@[i as int].0@, docs@[i as int].1@));
        }
        if docs[i].0 == query {
            return Some(docs[i].1.clone());
        }
        i = i + 1;
    }
    proof {
        assert(entries.skip(docs@.len() as int) =~= Seq::<(Seq<char>, Seq<char>)>::empty());
    }
    None
}

} // verus!
