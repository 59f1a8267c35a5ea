//! Definition resolution: a one-shot symbol table over the tree's top-level
//! statements, answered against the node at the query point.
//!
//! A top-level statement declares a name when its syntactic shape is "label
//! colon expression"; the grammar marks such statements with the kind
//! `line`, and the statement's first child is the label.  Later declarations
//! of the same name overwrite earlier ones.

use vstd::prelude::*;
use crate::helpers::{descend, first_containing, lemma_first_containing_is, node_at_point, node_contains, wf_node, SyntaxNode};
use crate::text::{point_to_byte, rope_text, span_string, span_text, valid_span};

verus! {

/// The symbol-table entry a top-level statement contributes: the label's
/// text as key and the label's byte span as value.  `None` when the
/// statement declares nothing, or when its label's span does not denote
/// text of the buffer.
pub open spec fn def_entry(s: Seq<char>, stmt: SyntaxNode) -> Option<(Seq<char>, (int, int))> {
    if stmt.kind@ == "line"@ && stmt.children@.len() > 0 {
        let lab = stmt.children@[0];
        if valid_span(s, lab.start as int, lab.end as int) {
            Some((span_text(s, lab.start as int, lab.end as int), (lab.start as int, lab.end as int)))
        } else {
            None
        }
    } else {
        None
    }
}

/// The symbol table of a statement sequence, in source order.
pub open spec fn def_entries(s: Seq<char>, cs: Seq<SyntaxNode>) -> Seq<(Seq<char>, (int, int))>
    decreases cs.len(),
{
    if cs.len() == 0 {
        Seq::empty()
    } else {
        def_entries(s, cs.drop_last()) + match def_entry(s, cs.last()) {
            Some(kv) => seq![kv],
            None => Seq::empty(),
        }
    }
}

/// The value of the last entry with the given key: insertion with
/// overwrite-on-duplicate, read back.
pub open spec fn lookup_last(entries: Seq<(Seq<char>, (int, int))>, name: Seq<char>) -> Option<
    (int, int),
>
    decreases entries.len(),
{
    if entries.len() == 0 {
        None
    } else if entries.last().0 == name {
        Some(entries.last().1)
    } else {
        lookup_last(entries.drop_last(), name)
    }
}

/// The declaration span a name resolves to among the given top-level
/// statements: that of the last declaration of the name, if any.
pub open spec fn resolve_name(s: Seq<char>, cs: Seq<SyntaxNode>, name: Seq<char>) -> Option<
    (int, int),
> {
    lookup_last(def_entries(s, cs), name)
}

/// What a definition query returns: the span of the last declaration whose
/// name is the text of the deepest node at the query point.
pub open spec fn goto_def_spec(root: SyntaxNode, s: Seq<char>, line: int, col: int) -> Option<
    (int, int),
> {
    match node_at_point(root, s, line, col) {
        None => None,
        Some(node) => if valid_span(s, node.start as int, node.end as int) {
            resolve_name(s, root.children@, span_text(s, node.start as int, node.end as int))
        } else {
            None
        },
    }
}

/// `resolve_name` visits statements from the last to the first.
pub proof fn lemma_resolve_step(s: Seq<char>, cs: Seq<SyntaxNode>, name: Seq<char>)
    requires
        cs.len() > 0,
    ensures
        resolve_name(s, cs, name) == (match def_entry(s, cs.last()) {
            Some(kv) => if kv.0 == name {
                Some(kv.1)
            } else {
                resolve_name(s, cs.drop_last(), name)
            },
            None => resolve_name(s, cs.drop_last(), name),
        }),
{
    match def_entry(s, cs.last()) {
        Some(kv) => {
            let prefix = def_entries(s, cs.drop_last());
            assert(def_entries(s, cs) == prefix + seq![kv]);
            assert((prefix + seq![kv]).last() == kv);
            assert((prefix + seq![kv]).drop_last() =~= prefix);
        },
        None => {
            assert(def_entries(s, cs) =~= def_entries(s, cs.drop_last()));
        },
    }
}

/// A reference to a name that no top-level statement declares resolves to
/// nothing.
pub proof fn lemma_undeclared_resolves_none(s: Seq<char>, cs: Seq<SyntaxNode>, name: Seq<char>)
    requires
        forall|i: int|
            0 <= i < cs.len() ==> match def_entry(s, #[trigger] cs[i]) {
                Some(kv) => kv.0 != name,
                None => true,
            },
    ensures
        resolve_name(s, cs, name) is None,
    decreases cs.len(),
{
    if cs.len() > 0 {
        lemma_resolve_step(s, cs, name);
        assert(cs.last() == cs[cs.len() - 1]);
        assert forall|i: int| 0 <= i < cs.len() - 1 implies match def_entry(
            s,
            #[trigger] cs.drop_last()[i],
        ) {
            Some(kv) => kv.0 != name,
            None => true,
        } by {
            assert(cs.drop_last()[i] == cs[i]);
        }
        lemma_undeclared_resolves_none(s, cs.drop_last(), name);
    }
}

/// A name resolves to the span declared by the last statement declaring it:
/// given two declarations of one name, the later one wins.
pub proof fn lemma_last_declaration_wins(
    s: Seq<char>,
    cs: Seq<SyntaxNode>,
    name: Seq<char>,
    j: int,
)
    requires
        0 <= j < cs.len(),
        match def_entry(s, cs[j]) {
            Some(kv) => kv.0 == name,
            None => false,
        },
        forall|k: int|
            j < k < cs.len() ==> match def_entry(s, #[trigger] cs[k]) {
                Some(kv) => kv.0 != name,
                None => true,
            },
    ensures
        resolve_name(s, cs, name) == Some(def_entry(s, cs[j])->Some_0.1),
    decreases cs.len(),
{
    lemma_resolve_step(s, cs, name);
    assert(cs.last() == cs[cs.len() - 1]);
    if j == cs.len() - 1 {
    } else {
        assert forall|k: int| j < k < cs.len() - 1 implies match def_entry(
            s,
            #[trigger] cs.drop_last()[k],
        ) {
            Some(kv) => kv.0 != name,
            None => true,
        } by {
            assert(cs.drop_last()[k] == cs[k]);
        }
        assert(cs.drop_last()[j] == cs[j]);
        lemma_last_declaration_wins(s, cs.drop_last(), name, j);
    }
}

/// Self-resolution: a query at any valid position inside a declared label's
/// own span returns that label's own byte span, provided the label is the
/// last declaration of its name (a later declaration of the same name wins
/// instead) and the label is a leaf of a well-formed tree.
pub proof fn lemma_label_self_resolves(
    root: SyntaxNode,
    s: Seq<char>,
    line: int,
    col: int,
    i: int,
    lab: SyntaxNode,
    b: int,
)
    requires
        wf_node(root),
        0 <= i < root.children@.len(),
        root.children@[i].kind@ == "line"@,
        root.children@[i].children@.len() > 0,
        lab == root.children@[i].children@[0],
        lab.children@.len() == 0,
        valid_span(s, lab.start as int, lab.end as int),
        forall|k: int|
            i < k < root.children@.len() ==> match def_entry(s, #[trigger] root.children@[k]) {
                Some(kv) => kv.0 != span_text(s, lab.start as int, lab.end as int),
                None => true,
            },
        point_to_byte(s, line, col) == Some(b),
        lab.start <= b < lab.end,
    ensures
        goto_def_spec(root, s, line, col) == Some((lab.start as int, lab.end as int)),
{
    let cs = root.children@;
    let st = cs[i];
    assert(wf_node(st));
    assert(st.start <= lab.start && lab.end <= st.end);
    assert(root.start <= st.start && st.end <= root.end);
    assert(node_contains(root, b));
    assert(node_contains(st, b));
    assert forall|j: int| 0 <= j < i implies !node_contains(#[trigger] cs[j], b) by {
        assert(cs[j].end <= st.start);
    }
    lemma_first_containing_is(cs, b, i);
    assert(node_contains(st.children@[0], b));
    assert(first_containing(st.children@, b) == Some(0int));
    assert(first_containing(lab.children@, b) is None);
    assert(descend(lab, b) == lab);
    assert(descend(st, b) == lab);
    assert(descend(root, b) == lab);
    assert(node_at_point(root, s, line, col) == Some(lab));
    let name = span_text(s, lab.start as int, lab.end as int);
    assert(def_entry(s, st) == Some((name, (lab.start as int, lab.end as int))));
    lemma_last_declaration_wins(s, cs, name, i);
}

/// Resolves the identifier at (line, col) to the byte span of its
/// definition's label among the tree's top-level statements, or `None` when
/// the point is out of range or the identifier is undeclared.
pub fn goto_definition(root: &SyntaxNode, rope: &ropey::Rope, line: usize, col: usize) -> (r:
    Option<(usize, usize)>)
    ensures
        match r {
            Some(p) => goto_def_spec(*root, rope_text(*rope), line as int, col as int) == Some(
                (p.0 as int, p.1 as int),
            ),
            None => goto_def_spec(*root, rope_text(*rope), line as int, col as int) is None,
        },
{
    let ghost s = rope_text(*rope);
    let (qa, qb) = match crate::helpers::find_node_for_point(root, rope, line, col) {
        Some(p) => p,
        None => {
            return None;
        },
    };
    let query = match span_string(rope, qa, qb) {
        Some(q) => q,
        None => {
            return None;
        },
    };
    let line_kind: String = String::from_str("line");
    let mut table: Vec<(String, (usize, usize))> = Vec::new();
    let mut i: usize = 0;
    while i < root.children.len()
        invariant
            i <= root.children.len(),
            line_kind@ == "line"@,
            table@.map_values(
                |p: (String, (usize, usize))| (p.0@, (p.1.0 as int, p.1.1 as int)),
            ) == def_entries(s, root.children@.take(i as int)),
            s == rope_text(*rope),
        decreases root.children.len() - i,
    {
        let ghost pre = root.children@.take(i as int);
        let ghost cur = root.children@.take(i + 1);
        proof {
            assert(cur.drop_last() =~= pre);
            assert(cur.last() == root.children@[i as int]);
        }
        let st = &root.children[i];
        if st.kind == line_kind && st.children.len() > 0 {
            let lab = &st.children[0];
            match span_string(rope, lab.start, lab.end) {
                Some(txt) => {
                    table.push((txt, (lab.start, lab.end)));
                    proof {
                        assert(def_entries(s, cur) == def_entries(s, pre) + seq![
                            (txt@, (lab.start as int, lab.end as int)),
                        ]);
                        assert(table@.map_values(
                            |p: (String, (usize, usize))| (p.0@, (p.1.0 as int, p.1.1 as int)),
                        ) =~= def_entries(s, cur));
                    }
                },
                None => {
                    proof {
                        assert(def_entries(s, cur) =~= def_entries(s, pre));
                    }
                },
            }
        } else {
            proof {
                assert(def_entries(s, cur) =~= def_entries(s, pre));
            }
        }
        i = i + 1;
    }
    proof {
        assert(root.children@.take(root.children@.len() as int) =~= root.children@);
    }
    let ghost entries = def_entries(s, root.children@);
    let mut j: usize = table.len();
    proof {
        assert(entries.take(j as int) =~= entries);
    }
    while j > 0
        invariant
            j <= table.len(),
            s == rope_text(*rope),
            entries == def_entries(s, root.children@),
            table@.map_values(
                |p: (String, (usize, usize))| (p.0@, (p.1.0 as int, p.1.1 as int)),
            ) == entries,
            lookup_last(entries, query@) == lookup_last(entries.take(j as int), query@),
            node_at_point(*root, s, line as int, col as int) matches Some(m) && m.start == qa
                && m.end == qb,
            valid_span(s, qa as int, qb as int),
            query@ == span_text(s, qa as int, qb as int),
        decreases j,
    {
        j = j - 1;
        let ghost upto = entries.take(j + 1);
        proof {
            assert(upto.last() == entries[j as int]);
            assert(upto.drop_last() =~= entries.take(j as int));
        }
        if table[j].0 == query {
            proof {
                assert(entries[j as int] == (table@[j as int].0@, (
                    table@[j as int].1.0 as int,
                    table@[j as int].1.1 as int,
                )));
                assert(lookup_last(upto, query@) == Some(entries[j as int].1));
                assert(lookup_last(entries, query@) == Some((
                    table@[j as int].1.0 as int,
                    table@[j as int].1.1 as int,
                )));
            }
            return Some(table[j].1);
        }
    }
    proof {
        assert(entries.take(0) =~= Seq::<(Seq<char>, (int, int))>::empty());
    }
    None
}

} // verus!
