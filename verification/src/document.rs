//! The document state manager: one (buffer, syntax tree) pair per open
//! document, kept in sync by applying editor edits to the rope and feeding
//! the incremental parser the edited previous tree.
//!
//! Each edit's coordinates are interpreted against the buffer as left by
//! the edits before it, so a batch is applied strictly in order.  An edit
//! whose coordinates fall outside the buffer is rejected and changes
//! nothing.  When a reparse yields no tree, the previous tree stays in
//! place so queries still have a usable, possibly stale, view.

use vstd::prelude::*;
use crate::helpers::{tree_view, ts_parse, ts_tree_edit, SyntaxNode};
use crate::text::{
    break_count,
    byte_len,
    byte_of_char,
    line_start,
    rope_char_to_byte,
    rope_char_to_line,
    rope_from_str,
    rope_insert,
    rope_len_bytes,
    rope_len_chars,
    rope_len_lines,
    rope_line_to_char,
    rope_remove,
    rope_text,
    rope_to_string,
    lemma_break_count_take_le,
    lemma_byte_len_concat,
    lemma_line_start_bounds,
    lemma_line_start_of_containing_line,
};

verus! {

/// One text replacement as the editor reports it: a (line, column) range
/// against the buffer before the edit, and the replacement text.
#[derive(Debug, Clone)]
pub struct Edit {
    pub start_line: usize,
    pub start_col: usize,
    pub end_line: usize,
    pub end_col: usize,
    pub text: String,
}

/// The char range an edit addresses, or `None` when a line or column lies
/// outside the buffer or the range is reversed.
pub open spec fn edit_char_range(s: Seq<char>, e: Edit) -> Option<(int, int)> {
    if e.start_line > break_count(s) || e.end_line > break_count(s) {
        None
    } else {
        let a = line_start(s, e.start_line as int) + e.start_col;
        let b = line_start(s, e.end_line as int) + e.end_col;
        if a > s.len() || b > s.len() || a > b {
            None
        } else {
            Some((a, b))
        }
    }
}

/// The buffer text after one edit: the addressed range replaced by the
/// edit's text, or the buffer unchanged when the edit is out of range.
pub open spec fn apply_edit_spec(s: Seq<char>, e: Edit) -> Seq<char> {
    match edit_char_range(s, e) {
        None => s,
        Some((a, b)) => s.take(a) + e.text@ + s.skip(b),
    }
}

/// The buffer text after a batch of edits, applied strictly in order.
pub open spec fn apply_edits_spec(s: Seq<char>, es: Seq<Edit>) -> Seq<char>
    decreases es.len(),
{
    if es.len() == 0 {
        s
    } else {
        apply_edit_spec(apply_edits_spec(s, es.drop_last()), es.last())
    }
}

/// A batch applied in one call equals the same edits applied across two
/// calls split anywhere: applying edits one by one produces the same buffer
/// content as applying them as a single batch in order.
pub proof fn lemma_edit_batch_consistency(s: Seq<char>, es1: Seq<Edit>, es2: Seq<Edit>)
    ensures
        apply_edits_spec(s, es1 + es2) == apply_edits_spec(apply_edits_spec(s, es1), es2),
    decreases es2.len(),
{
    if es2.len() == 0 {
        assert(es1 + es2 =~= es1);
    } else {
        assert((es1 + es2).drop_last() =~= es1 + es2.drop_last());
        assert((es1 + es2).last() == es2.last());
        lemma_edit_batch_consistency(s, es1, es2.drop_last());
    }
}

/// One edit is one singleton batch.
pub proof fn lemma_single_edit(s: Seq<char>, e: Edit)
    ensures
        apply_edits_spec(s, seq![e]) == apply_edit_spec(s, e),
{
    assert(seq![e].drop_last() =~= Seq::<Edit>::empty());
    assert(seq![e].last() == e);
    assert(apply_edits_spec(s, Seq::<Edit>::empty()) == s);
}

/// What the incremental parser must be told about one applied edit: byte
/// offsets and (row, column) points of the edit's start, old end and new
/// end, the first two against the buffer before the edit, the new end
/// against the buffer after it.
#[derive(Debug, Clone, Copy)]
pub struct EditSummary {
    pub start_byte: usize,
    pub old_end_byte: usize,
    pub new_end_byte: usize,
    pub start_point: (usize, usize),
    pub old_end_point: (usize, usize),
    pub new_end_point: (usize, usize),
}

/// Applies one edit to the buffer and derives the offsets the incremental
/// parser needs.  Returns `None`, changing nothing, when the edit's
/// coordinates are out of range.
pub fn apply_edit_to_rope(rope: &mut ropey::Rope, e: &Edit) -> (r: Option<EditSummary>)
    ensures
        rope_text(*final(rope)) == apply_edit_spec(rope_text(*old(rope)), *e),
        r is Some <==> edit_char_range(rope_text(*old(rope)), *e) is Some,
        r matches Some(su) ==> ({
            let s = rope_text(*old(rope));
            let ab = edit_char_range(s, *e)->Some_0;
            let s2 = rope_text(*final(rope));
            let nec = ab.0 + e.text@.len();
            &&& su.start_byte == byte_of_char(s, ab.0)
            &&& su.old_end_byte == byte_of_char(s, ab.1)
            &&& su.new_end_byte == su.start_byte + byte_len(e.text@)
            &&& su.start_point == (e.start_line, e.start_col)
            &&& su.old_end_point == (e.end_line, e.end_col)
            &&& su.new_end_point.0 == break_count(s2.take(nec))
            &&& su.new_end_point.1 == nec - line_start(s2, break_count(s2.take(nec)))
        }),
{
    let ghost s = rope_text(*rope);
    let lines = rope_len_lines(rope);
    if e.start_line >= lines || e.end_line >= lines {
        return None;
    }
    let n = rope_len_chars(rope);
    let ls_a = rope_line_to_char(rope, e.start_line);
    let ls_b = rope_line_to_char(rope, e.end_line);
    proof {
        lemma_line_start_bounds(s, e.start_line as int);
        lemma_line_start_bounds(s, e.end_line as int);
    }
    if e.start_col > n - ls_a || e.end_col > n - ls_b {
        return None;
    }
    let a = ls_a + e.start_col;
    let b = ls_b + e.end_col;
    if a > b {
        return None;
    }
    let start_byte = rope_char_to_byte(rope, a);
    let old_end_byte = rope_char_to_byte(rope, b);
    rope_remove(rope, a, b);
    let ghost s1 = rope_text(*rope);
    let n1 = rope_len_chars(rope);
    let nb1 = rope_len_bytes(rope);
    rope_insert(rope, a, e.text.as_str());
    let ghost s2 = rope_text(*rope);
    let n2 = rope_len_chars(rope);
    let nb2 = rope_len_bytes(rope);
    proof {
        assert(s1.take(a as int) =~= s.take(a as int));
        assert(s1.skip(a as int) =~= s.skip(b as int));
        assert(s2 =~= s.take(a as int) + e.text@ + s.skip(b as int));
        lemma_byte_len_concat(s.take(a as int), s.skip(b as int));
        lemma_byte_len_concat(s.take(a as int) + e.text@, s.skip(b as int));
        lemma_byte_len_concat(s.take(a as int), e.text@);
        crate::text::lemma_byte_len_nonneg(s.take(a as int));
        crate::text::lemma_byte_len_nonneg(s.skip(b as int));
        crate::text::lemma_byte_len_nonneg(e.text@);
        assert((s.take(a as int) + e.text@) + s.skip(b as int) =~= s2);
        assert(nb2 - nb1 == byte_len(e.text@));
        assert(n2 - n1 == e.text@.len());
        assert(byte_len(s.take(a as int)) <= nb1);
    }
    let tbytes = nb2 - nb1;
    let tchars = n2 - n1;
    let nec = a + tchars;
    let l2 = rope_char_to_line(rope, nec);
    proof {
        lemma_break_count_take_le(s2, nec as int);
        lemma_line_start_of_containing_line(s2, nec as int);
    }
    let ls2 = rope_line_to_char(rope, l2);
    Some(
        EditSummary {
            start_byte,
            old_end_byte,
            new_end_byte: start_byte + tbytes,
            start_point: (e.start_line, e.start_col),
            old_end_point: (e.end_line, e.end_col),
            new_end_point: (l2, nec - ls2),
        },
    )
}

/// One open document: its buffer, the parser's current tree, and that
/// tree's plain view answered to queries.
pub struct Document {
    pub rope: ropey::Rope,
    pub tree: tree_sitter::Tree,
    pub view: SyntaxNode,
}

impl Document {
    /// Opens a document over the given initial text; `None` when the
    /// parser produces no tree for it.
    pub fn open(parser: &mut tree_sitter::Parser, text: &str) -> (r: Option<Document>)
        ensures
            r matches Some(d) ==> rope_text(d.rope) == text@,
    {
        let rope = rope_from_str(text);
        match ts_parse(parser, text, None) {
            Some(tree) => {
                let view = tree_view(&tree);
                Some(Document { rope, tree, view })
            },
            None => None,
        }
    }

    /// Applies a batch of edits in order: each edit updates the buffer,
    /// informs the tree of the changed ranges, and reparses incrementally.
    /// Returns false when some reparse produced no tree; the last
    /// successfully parsed tree then stays in place.
    pub fn apply_edits(&mut self, parser: &mut tree_sitter::Parser, edits: &Vec<Edit>) -> (ok:
        bool)
        ensures
            rope_text(final(self).rope) == apply_edits_spec(rope_text(old(self).rope), edits@),
    {
        let ghost s0 = rope_text(self.rope);
        let mut ok: bool = true;
        let mut i: usize = 0;
        while i < edits.len()
            invariant
                i <= edits.len(),
                rope_text(self.rope) == apply_edits_spec(s0, edits@.take(i as int)),
            decreases edits.len() - i,
        {
            let ghost pre = edits@.take(i as int);
            let ghost cur = edits@.take(i + 1);
            proof {
                assert(cur.drop_last() =~= pre);
                assert(cur.last() == edits@[i as int]);
            }
            match apply_edit_to_rope(&mut self.rope, &edits[i]) {
                Some(su) => {
                    ts_tree_edit(
                        &mut self.tree,
                        su.start_byte,
                        su.old_end_byte,
                        su.new_end_byte,
                        su.start_point,
                        su.old_end_point,
                        su.new_end_point,
                    );
                },
                None => {},
            }
            let src = rope_to_string(&self.rope);
            match ts_parse(parser, src.as_str(), Some(&self.tree)) {
                Some(new_tree) => {
                    self.tree = new_tree;
                    self.view = tree_view(&self.tree);
                },
                None => {
                    ok = false;
                },
            }
            i = i + 1;
        }
        proof {
            assert(edits@.take(edits@.len() as int) =~= edits@);
        }
        ok
    }
}

} // verus!
