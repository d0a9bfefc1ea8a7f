//! The mathematical model of the reduction engine.
//!
//! A parse is a single left-to-right pass over the token sequence that
//! drives two stacks: a stack of finished sub-trees and a stack of pending
//! operator frames.  [`spec_parse`] folds [`spec_step`] over the sequence
//! and states exactly which tree (if any) a parse produces; the executable
//! code in [`crate::parser`] is proved against it.

use crate::ast::NodeView;
use vstd::prelude::*;

verus! {

/// A pending frame on the operator stack: a real operator with its
/// binding rank, or the barrier pushed for an opening parenthesis.
pub ghost enum FrameView {
    Op(Seq<char>, int),
    Paren,
}

/// The two working stacks of one parse pass.  The top of each stack is
/// the last element of its sequence.
pub ghost struct ParseState {
    pub nodes: Seq<NodeView>,
    pub ops: Seq<FrameView>,
}

pub open spec fn empty_state() -> ParseState {
    ParseState { nodes: Seq::empty(), ops: Seq::empty() }
}

/// The opening-group token.
pub open spec fn open_token() -> Seq<char> {
    "("@
}

/// The closing-group token.
pub open spec fn close_token() -> Seq<char> {
    ")"@
}

/// The binding rank of a token under a priority order: the position of
/// its last occurrence in the order (later entries win, and bind
/// tighter), or `None` if the token is not registered.
pub open spec fn rank_of(prio: Seq<Seq<char>>, tok: Seq<char>) -> Option<int>
    decreases prio.len(),
{
    if prio.len() == 0 {
        None
    } else if prio.last() == tok {
        Some(prio.len() - 1)
    } else {
        rank_of(prio.drop_last(), tok)
    }
}

/// Whether a token is registered as an operator.
pub open spec fn is_operator(prio: Seq<Seq<char>>, tok: Seq<char>) -> bool {
    rank_of(prio, tok) is Some
}

/// Whether the token on the left of a gap demands an operand after it:
/// it is the start of the input, an opening parenthesis, or an operator.
pub open spec fn needs_operand_after(prio: Seq<Seq<char>>, before: Option<Seq<char>>) -> bool {
    match before {
        None => true,
        Some(t) => t == open_token() || is_operator(prio, t),
    }
}

/// Whether the token on the right of a gap demands an operand before it:
/// it is the end of the input, a closing parenthesis, or an operator.
pub open spec fn needs_operand_before(prio: Seq<Seq<char>>, after: Option<Seq<char>>) -> bool {
    match after {
        None => true,
        Some(t) => t == close_token() || is_operator(prio, t),
    }
}

/// The placeholder policy: a placeholder leaf is synthesized in the gap
/// between `before` and `after` exactly when both sides demand one.
pub open spec fn gap_fills(
    prio: Seq<Seq<char>>,
    before: Option<Seq<char>>,
    after: Option<Seq<char>>,
) -> bool {
    needs_operand_after(prio, before) && needs_operand_before(prio, after)
}

/// The node stack after the placeholder policy ran on one gap.
pub open spec fn gap_nodes(
    prio: Seq<Seq<char>>,
    nodes: Seq<NodeView>,
    before: Option<Seq<char>>,
    after: Option<Seq<char>>,
) -> Seq<NodeView> {
    if gap_fills(prio, before, after) {
        nodes.push(NodeView::Placeholder)
    } else {
        nodes
    }
}

/// The whole state after the placeholder policy ran on one gap.
pub open spec fn gap_step(
    prio: Seq<Seq<char>>,
    st: ParseState,
    before: Option<Seq<char>>,
    after: Option<Seq<char>>,
) -> ParseState {
    ParseState { nodes: gap_nodes(prio, st.nodes, before, after), ops: st.ops }
}

/// One reduction: pop the top operator frame and combine the two topmost
/// nodes under it (the earlier-pushed node becomes the left operand).
/// Fails on an empty operator stack, on a barrier, or when fewer than two
/// nodes are available.
pub open spec fn spec_pop_operator(st: ParseState) -> Option<ParseState> {
    if st.ops.len() == 0 {
        None
    } else {
        match st.ops.last() {
            FrameView::Paren => None,
            FrameView::Op(label, _rank) => {
                if st.nodes.len() < 2 {
                    None
                } else {
                    let o2 = st.nodes.last();
                    let o1 = st.nodes[st.nodes.len() - 2];
                    Some(
                        ParseState {
                            nodes: st.nodes.drop_last().drop_last().push(
                                NodeView::Operator(label, Box::new(o1), Box::new(o2)),
                            ),
                            ops: st.ops.drop_last(),
                        },
                    )
                }
            },
        }
    }
}

/// Drain the operator stack: reduce while the top frame is an operator
/// of rank at least `rank0`.  A barrier is never removed by draining.
pub open spec fn spec_pop_ge(st: ParseState, rank0: int) -> Option<ParseState>
    decreases st.ops.len(),
{
    if st.ops.len() > 0 && (st.ops.last() matches FrameView::Op(_label, r) && r >= rank0) {
        match spec_pop_operator(st) {
            None => None,
            Some(st2) => spec_pop_ge(st2, rank0),
        }
    } else {
        Some(st)
    }
}

/// One step of the engine: run the placeholder policy on the gap before
/// `tok`, then dispatch `tok` as opening group, closing group, operator,
/// or operand.
pub open spec fn spec_step(
    prio: Seq<Seq<char>>,
    st: ParseState,
    before: Option<Seq<char>>,
    tok: Seq<char>,
) -> Option<ParseState> {
    let st1 = gap_step(prio, st, before, Some(tok));
    if tok == open_token() {
        Some(ParseState { nodes: st1.nodes, ops: st1.ops.push(FrameView::Paren) })
    } else if tok == close_token() {
        match spec_pop_ge(st1, 0) {
            None => None,
            Some(st2) => {
                if st2.ops.len() == 0 || st2.nodes.len() == 0 {
                    None
                } else {
                    Some(
                        ParseState {
                            nodes: st2.nodes.drop_last().push(
                                NodeView::Parentheses(Box::new(st2.nodes.last())),
                            ),
                            ops: st2.ops.drop_last(),
                        },
                    )
                }
            },
        }
    } else {
        match rank_of(prio, tok) {
            Some(r) => match spec_pop_ge(st1, r) {
                None => None,
                Some(st2) => Some(
                    ParseState { nodes: st2.nodes, ops: st2.ops.push(FrameView::Op(tok, r)) },
                ),
            },
            None => Some(ParseState { nodes: st1.nodes.push(NodeView::Primitive(tok)), ops: st1.ops }),
        }
    }
}

/// The token standing immediately before position `i`, if any.
pub open spec fn prev_token(toks: Seq<Seq<char>>, i: int) -> Option<Seq<char>> {
    if i <= 0 {
        None
    } else {
        Some(toks[i - 1])
    }
}

/// The state of the engine after consuming the first `n` tokens, or
/// `None` once any step has failed.
pub open spec fn run_prefix(prio: Seq<Seq<char>>, toks: Seq<Seq<char>>, n: int) -> Option<
    ParseState,
>
    decreases n,
{
    if n <= 0 {
        Some(empty_state())
    } else {
        match run_prefix(prio, toks, n - 1) {
            None => None,
            Some(st) => spec_step(prio, st, prev_token(toks, n - 1), toks[n - 1]),
        }
    }
}

/// The tree produced by parsing `toks` under the priority order `prio`,
/// or `None` when the input is malformed.  After the last token the
/// placeholder policy runs once more against the end of input, the
/// operator stack is drained unconditionally, and the parse succeeds
/// exactly when no operator frame is left and exactly one node remains.
pub open spec fn spec_parse(prio: Seq<Seq<char>>, toks: Seq<Seq<char>>) -> Option<NodeView> {
    match run_prefix(prio, toks, toks.len() as int) {
        None => None,
        Some(st) => {
            let st1 = gap_step(prio, st, prev_token(toks, toks.len() as int), None);
            match spec_pop_ge(st1, 0) {
                None => None,
                Some(st2) => {
                    if st2.ops.len() == 0 && st2.nodes.len() == 1 {
                        Some(st2.nodes[0])
                    } else {
                        None
                    }
                },
            }
        },
    }
}

/// Whether an abstract parse outcome is the one the model prescribes.
pub open spec fn parse_result_matches(
    prio: Seq<Seq<char>>,
    toks: Seq<Seq<char>>,
    r: Option<NodeView>,
) -> bool {
    match r {
        Some(v) => spec_parse(prio, toks) == Some(v),
        None => spec_parse(prio, toks) is None,
    }
}

/// A failed step poisons every longer prefix.
pub proof fn lemma_run_prefix_none_mono(prio: Seq<Seq<char>>, toks: Seq<Seq<char>>, i: int, j: int)
    requires
        0 <= i <= j,
        run_prefix(prio, toks, i) is None,
    ensures
        run_prefix(prio, toks, j) is None,
    decreases j - i,
{
    if j > i {
        lemma_run_prefix_none_mono(prio, toks, i, j - 1);
    }
}

/// A failed step makes the whole parse fail.
pub proof fn lemma_prefix_failure(prio: Seq<Seq<char>>, toks: Seq<Seq<char>>, n: int)
    requires
        0 <= n <= toks.len(),
        run_prefix(prio, toks, n) is None,
    ensures
        spec_parse(prio, toks) is None,
{
    lemma_run_prefix_none_mono(prio, toks, n, toks.len() as int);
}

} // verus!
