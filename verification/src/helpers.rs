//! The syntax tree model and point queries against it.
//!
//! The parser (`tree_sitter`) is an opaque collaborator: it turns source
//! text into a tree, and nothing is assumed about which tree.  Its output is
//! converted once, by the trusted wrappers at the bottom, into the plain
//! [`SyntaxNode`] shape; every query over the tree is verified for all
//! values of that shape.

use vstd::prelude::*;
use crate::text::{point_to_byte, rope_text, to_byte_offset};

verus! {

/// One node of the syntax tree: its kind name, its byte span in the source
/// buffer, and its children in source order.
#[derive(Debug)]
pub struct SyntaxNode {
    pub kind: String,
    pub start: usize,
    pub end: usize,
    pub children: Vec<SyntaxNode>,
}

/// True when byte offset `b` lies inside the node's span.
pub open spec fn node_contains(n: SyntaxNode, b: int) -> bool {
    n.start <= b < n.end
}

/// Index of the first child whose span contains `b`, if any.
pub open spec fn first_containing(cs: Seq<SyntaxNode>, b: int) -> Option<int>
    decreases cs.len(),
{
    if cs.len() == 0 {
        None
    } else if node_contains(cs[0], b) {
        Some(0int)
    } else {
        match first_containing(cs.drop_first(), b) {
            Some(i) => Some(i + 1),
            None => None,
        }
    }
}

pub proof fn lemma_first_containing_bounds(cs: Seq<SyntaxNode>, b: int)
    ensures
        match first_containing(cs, b) {
            Some(i) => 0 <= i < cs.len() && node_contains(cs[i], b) && (forall|j: int|
                0 <= j < i ==> !node_contains(cs[j], b)),
            None => forall|j: int| 0 <= j < cs.len() ==> !node_contains(cs[j], b),
        },
    decreases cs.len(),
{
    if cs.len() > 0 && !node_contains(cs[0], b) {
        lemma_first_containing_bounds(cs.drop_first(), b);
        match first_containing(cs.drop_first(), b) {
            Some(i) => {
                assert(cs.drop_first()[i] == cs[i + 1]);
                assert forall|j: int| 0 <= j < i + 1 implies !node_contains(cs[j], b) by {
                    if j > 0 {
                        assert(cs.drop_first()[j - 1] == cs[j]);
                    }
                }
            },
            None => {
                assert forall|j: int| 0 <= j < cs.len() implies !node_contains(cs[j], b) by {
                    if j > 0 {
                        assert(cs.drop_first()[j - 1] == cs[j]);
                    }
                }
            },
        }
    }
}

/// The deepest node reached from `n` by repeatedly descending into the
/// first child whose span contains `b`.
pub open spec fn descend(n: SyntaxNode, b: int) -> SyntaxNode
    decreases n,
    via descend_decreases
{
    match first_containing(n.children@, b) {
        Some(i) => descend(n.children@[i], b),
        None => n,
    }
}

#[via_fn]
proof fn descend_decreases(n: SyntaxNode, b: int) {
    lemma_first_containing_bounds(n.children@, b);
}

/// Well-formedness of a parsed tree: every child's span lies within its
/// parent's, siblings come in source order without overlap, and the same
/// holds all the way down.  Trees produced by a parser have this shape;
/// point queries are proved exact under it.
pub open spec fn wf_node(n: SyntaxNode) -> bool
    decreases n,
{
    &&& forall|i: int|
        0 <= i < n.children@.len() ==> n.start <= (#[trigger] n.children@[i]).start
            && n.children@[i].start <= n.children@[i].end && n.children@[i].end <= n.end
    &&& forall|i: int, j: int|
        0 <= i < j < n.children@.len() ==> (#[trigger] n.children@[i]).end <= (
        #[trigger] n.children@[j]).start
    &&& forall|i: int| 0 <= i < n.children@.len() ==> wf_node(#[trigger] n.children@[i])
}

/// When `cs[i]` contains `b` and no earlier sibling does, `i` is the index
/// the descent picks.
pub proof fn lemma_first_containing_is(cs: Seq<SyntaxNode>, b: int, i: int)
    requires
        0 <= i < cs.len(),
        node_contains(cs[i], b),
        forall|j: int| 0 <= j < i ==> !node_contains(#[trigger] cs[j], b),
    ensures
        first_containing(cs, b) == Some(i),
    decreases cs.len(),
{
    if i > 0 {
        assert(!node_contains(cs[0], b));
        assert(cs.drop_first()[i - 1] == cs[i]);
        assert forall|j: int| 0 <= j < i - 1 implies !node_contains(
            #[trigger] cs.drop_first()[j],
            b,
        ) by {
            assert(cs.drop_first()[j] == cs[j + 1]);
        }
        lemma_first_containing_is(cs.drop_first(), b, i - 1);
    }
}

/// The node answering a point query: the deepest node containing the byte
/// offset addressed by (line, col), or `None` when the point is outside the
/// buffer or outside the root's span.
pub open spec fn node_at_point(root: SyntaxNode, s: Seq<char>, line: int, col: int) -> Option<
    SyntaxNode,
> {
    match point_to_byte(s, line, col) {
        None => None,
        Some(b) => if node_contains(root, b) {
            Some(descend(root, b))
        } else {
            None
        },
    }
}

/// Index of the first child of `n` whose span contains `b`.
fn first_child_containing(n: &SyntaxNode, b: usize) -> (r: Option<usize>)
    ensures
        match r {
            Some(i) => first_containing(n.children@, b as int) == Some(i as int),
            None => first_containing(n.children@, b as int) is None,
        },
{
    let mut i: usize = 0;
    while i < n.children.len()
        invariant
            i <= n.children.len(),
            forall|j: int| 0 <= j < i ==> !node_contains(n.children@[j], b as int),
        decreases n.children.len() - i,
    {
        if n.children[i].start <= b && b < n.children[i].end {
            proof {
                lemma_first_containing_bounds(n.children@, b as int);
            }
            return Some(i);
        }
        i = i + 1;
    }
    proof {
        lemma_first_containing_bounds(n.children@, b as int);
    }
    None
}

/// The deepest node under `n` whose span contains `b`, assuming `n`'s own
/// span does: the walk descends into the first containing child until no
/// child contains the offset, in O(depth) steps.
pub fn enclosing_node<'a>(n: &'a SyntaxNode, b: usize) -> (r: &'a SyntaxNode)
    ensures
        *r == descend(*n, b as int),
    decreases *n,
{
    proof {
        lemma_first_containing_bounds(n.children@, b as int);
    }
    match first_child_containing(n, b) {
        Some(i) => enclosing_node(&n.children[i], b),
        None => n,
    }
}

/// Resolves a (line, col) query to the byte span of the deepest syntax node
/// containing that point, or `None` when the point is out of range.
pub fn find_node_for_point(root: &SyntaxNode, rope: &ropey::Rope, line: usize, col: usize) -> (r:
    Option<(usize, usize)>)
    ensures
        match r {
            Some(p) => node_at_point(*root, rope_text(*rope), line as int, col as int) matches Some(
                m,
            ) && p.0 == m.start && p.1 == m.end,
            None => node_at_point(*root, rope_text(*rope), line as int, col as int) is None,
        },
{
    let b = match to_byte_offset(rope, line, col) {
        Some(b) => b,
        None => {
            return None;
        },
    };
    if root.start <= b && b < root.end {
        let node = enclosing_node(root, b);
        Some((node.start, node.end))
    } else {
        None
    }
}

/// The preorder listing of a tree's nodes: each node before its children,
/// children in source order.
pub open spec fn preorder(n: SyntaxNode) -> Seq<SyntaxNode>
    decreases n,
{
    seq![n] + preorder_all(n.children@)
}

/// Preorder listings of a forest, concatenated in order.
pub open spec fn preorder_all(cs: Seq<SyntaxNode>) -> Seq<SyntaxNode>
    decreases cs,
{
    if cs.len() == 0 {
        Seq::empty()
    } else {
        preorder(cs[0]) + preorder_all(cs.drop_first())
    }
}

/// Walks the whole tree, visiting every node in preorder (each node before
/// its children, children in source order), and returns each visited
/// node's byte span.
pub fn traverse_rec(n: &SyntaxNode) -> (r: Vec<(usize, usize)>)
    ensures
        r@ == preorder(*n).map_values(|m: SyntaxNode| (m.start, m.end)),
    decreases *n,
{
    let mut out: Vec<(usize, usize)> = Vec::new();
    out.push((n.start, n.end));
    let mut i: usize = 0;
    while i < n.children.len()
        invariant
            i <= n.children.len(),
            out@ == (seq![*n] + preorder_all(n.children@.take(i as int))).map_values(
                |m: SyntaxNode| (m.start, m.end),
            ),
        decreases n.children.len() - i,
    {
        let mut sub = traverse_rec(&n.children[i]);
        out.append(&mut sub);
        proof {
            assert(n.children@.take(i + 1).drop_last() =~= n.children@.take(i as int));
            lemma_preorder_all_push(n.children@.take(i + 1));
        }
        i = i + 1;
    }
    proof {
        assert(n.children@.take(n.children@.len() as int) =~= n.children@);
    }
    out
}

proof fn lemma_preorder_all_push(cs: Seq<SyntaxNode>)
    requires
        cs.len() > 0,
    ensures
        preorder_all(cs) == preorder_all(cs.drop_last()) + preorder(cs.last()),
    decreases cs.len(),
{
    if cs.len() == 1 {
        assert(cs.drop_last() =~= Seq::<SyntaxNode>::empty());
        assert(cs[0] == cs.last());
        assert(cs.drop_first() =~= Seq::<SyntaxNode>::empty());
        assert(preorder_all(cs) == preorder(cs[0]) + preorder_all(Seq::<SyntaxNode>::empty()));
        assert(preorder_all(cs) =~= preorder(cs.last()));
        assert(preorder_all(cs.drop_last()) + preorder(cs.last()) =~= preorder(cs.last()));
    } else {
        lemma_preorder_all_push(cs.drop_first());
        assert(cs.drop_first().drop_last() =~= cs.drop_last().drop_first());
        assert(cs.drop_first().last() == cs.last());
        assert(cs.drop_last()[0] == cs[0]);
        assert(preorder_all(cs.drop_last()) == preorder(cs[0]) + preorder_all(
            cs.drop_last().drop_first(),
        ));
        assert(preorder_all(cs) =~= preorder_all(cs.drop_last()) + preorder(cs.last()));
    }
}

#[verifier::external_type_specification]
#[verifier::external_body]
pub struct ExParser(tree_sitter::Parser);

#[verifier::external_type_specification]
#[verifier::external_body]
pub struct ExTree(tree_sitter::Tree);

#[verifier::external_type_specification]
#[verifier::external_body]
pub struct ExNode<'a>(tree_sitter::Node<'a>);

/// Relies on `tree_sitter::Parser::parse`: parses the text, seeded with the
/// edited previous tree when one is given; `None` when the parser has no
/// language or parsing was interrupted.  Nothing is assumed about the tree.
#[verifier::external_body]
pub(crate) fn ts_parse(
    parser: &mut tree_sitter::Parser,
    text: &str,
    old: Option<&tree_sitter::Tree>,
) -> (r: Option<tree_sitter::Tree>) {
    parser.parse(text, old)
}

/// Relies on `tree_sitter::Tree::edit`: marks the tree's spans stale around
/// a replacement, given the byte offsets and (row, column) points of the
/// edit's start, old end and new end.
#[verifier::external_body]
pub(crate) fn ts_tree_edit(
    tree: &mut tree_sitter::Tree,
    start_byte: usize,
    old_end_byte: usize,
    new_end_byte: usize,
    start_point: (usize, usize),
    old_end_point: (usize, usize),
    new_end_point: (usize, usize),
) {
    tree.edit(
        &tree_sitter::InputEdit {
            start_byte,
            old_end_byte,
            new_end_byte,
            start_position: tree_sitter::Point { row: start_point.0, column: start_point.1 },
            old_end_position: tree_sitter::Point { row: old_end_point.0, column: old_end_point.1 },
            new_end_position: tree_sitter::Point { row: new_end_point.0, column: new_end_point.1 },
        },
    )
}

/// Relies on `tree_sitter::Node::kind`, `child_count`, `child`,
/// `start_byte` and `end_byte`: copies a parsed node and its descendants
/// into the plain tree shape, field for field.
#[verifier::external_body]
pub(crate) fn syntax_node_of(node: tree_sitter::Node) -> (r: SyntaxNode) {
    let mut children = Vec::new();
    for i in 0..node.child_count() {
        children.push(syntax_node_of(node.child(i).unwrap()));
    }
    SyntaxNode {
        kind: node.kind().to_string(),
        start: node.start_byte(),
        end: node.end_byte(),
        children,
    }
}

/// Relies on `tree_sitter::Tree::root_node`: the root of a parsed tree,
/// converted to the plain tree shape.
#[verifier::external_body]
pub(crate) fn tree_view(tree: &tree_sitter::Tree) -> (r: SyntaxNode) {
    syntax_node_of(tree.root_node())
}

} // verus!
