//! General properties of the engine, proved once and for all.
//!
//! Two laws are stated here over the model in [`crate::model`]:
//! determinism of parsing ([`lemma_parse_deterministic`]) and the shape
//! invariant of every accepted input ([`lemma_parse_shape`]): the tree
//! holds one `Operator` node per operator token consumed, and one leaf
//! more than it holds `Operator` nodes.

use crate::ast::NodeView;
use crate::model::{
    gap_step, is_operator, open_token, close_token, parse_result_matches, prev_token, rank_of,
    run_prefix, spec_parse, spec_pop_ge, spec_pop_operator, spec_step, FrameView, ParseState,
};
use vstd::prelude::*;

verus! {

/// Law: parsing is deterministic.  Two parse outcomes that both match
/// the model for the same priority order and token sequence are the
/// same outcome.
pub proof fn lemma_parse_deterministic(
    prio: Seq<Seq<char>>,
    toks: Seq<Seq<char>>,
    r1: Option<NodeView>,
    r2: Option<NodeView>,
)
    requires
        parse_result_matches(prio, toks, r1),
        parse_result_matches(prio, toks, r2),
    ensures
        r1 == r2,
{
}

/// The number of `Operator` nodes in a tree.
pub open spec fn operator_count(v: NodeView) -> nat
    decreases v,
{
    match v {
        NodeView::Operator(_label, left, right) => 1 + operator_count(*left) + operator_count(
            *right,
        ),
        NodeView::Parentheses(inner) => operator_count(*inner),
        NodeView::Primitive(_label) => 0,
        NodeView::Placeholder => 0,
    }
}

/// The number of leaves in a tree: `Primitive` and `Placeholder` nodes.
pub open spec fn leaf_count(v: NodeView) -> nat
    decreases v,
{
    match v {
        NodeView::Operator(_label, left, right) => leaf_count(*left) + leaf_count(*right),
        NodeView::Parentheses(inner) => leaf_count(*inner),
        NodeView::Primitive(_label) => 1,
        NodeView::Placeholder => 1,
    }
}

/// Law: every tree is a binary tree over its leaves, so it holds exactly
/// one leaf more than it holds `Operator` nodes.
pub proof fn lemma_leaf_count(v: NodeView)
    ensures
        leaf_count(v) == operator_count(v) + 1,
    decreases v,
{
    match v {
        NodeView::Operator(_label, left, right) => {
            lemma_leaf_count(*left);
            lemma_leaf_count(*right);
        },
        NodeView::Parentheses(inner) => {
            lemma_leaf_count(*inner);
        },
        NodeView::Primitive(_label) => {},
        NodeView::Placeholder => {},
    }
}

/// Whether a token is dispatched as an operator: registered, and not a
/// grouping marker (the grouping markers are dispatched first, whatever
/// the priority order says of them).
pub open spec fn is_operator_token(prio: Seq<Seq<char>>, tok: Seq<char>) -> bool {
    tok != open_token() && tok != close_token() && is_operator(prio, tok)
}

/// The number of operator tokens among the first `n` tokens.
pub open spec fn operator_token_count(prio: Seq<Seq<char>>, toks: Seq<Seq<char>>, n: int) -> nat
    decreases n,
{
    if n <= 0 {
        0
    } else {
        operator_token_count(prio, toks, n - 1) + (if is_operator_token(prio, toks[n - 1]) {
            1nat
        } else {
            0nat
        })
    }
}

/// The `Operator` nodes held by a node stack.
spec fn stack_operator_count(s: Seq<NodeView>) -> nat
    decreases s.len(),
{
    if s.len() == 0 {
        0
    } else {
        stack_operator_count(s.drop_last()) + operator_count(s.last())
    }
}

/// The real operator frames held by an operator stack.
spec fn frame_operator_count(s: Seq<FrameView>) -> nat
    decreases s.len(),
{
    if s.len() == 0 {
        0
    } else {
        frame_operator_count(s.drop_last()) + (match s.last() {
            FrameView::Op(_label, _rank) => 1nat,
            FrameView::Paren => 0nat,
        })
    }
}

/// The `Operator` nodes a state accounts for: finished ones in its trees
/// and pending ones on its operator stack.
spec fn state_operator_count(st: ParseState) -> nat {
    stack_operator_count(st.nodes) + frame_operator_count(st.ops)
}

/// Every operator frame of the state carries a non-negative rank, as
/// every frame the engine pushes does.
spec fn frames_ranked(st: ParseState) -> bool {
    forall|k: int|
        0 <= k < st.ops.len() ==> (#[trigger] st.ops[k] matches FrameView::Op(_label, r) ==> r
            >= 0)
}

proof fn lemma_stack_count_push(s: Seq<NodeView>, v: NodeView)
    ensures
        stack_operator_count(s.push(v)) == stack_operator_count(s) + operator_count(v),
{
    assert(s.push(v).drop_last() =~= s);
}

proof fn lemma_frame_count_push(s: Seq<FrameView>, f: FrameView)
    ensures
        frame_operator_count(s.push(f)) == frame_operator_count(s) + (match f {
            FrameView::Op(_label, _rank) => 1nat,
            FrameView::Paren => 0nat,
        }),
{
    assert(s.push(f).drop_last() =~= s);
}

/// A registered rank is a position in the priority order.
proof fn lemma_rank_of_range(prio: Seq<Seq<char>>, tok: Seq<char>)
    ensures
        rank_of(prio, tok) matches Some(r) ==> 0 <= r < prio.len(),
    decreases prio.len(),
{
    if prio.len() > 0 {
        lemma_rank_of_range(prio.drop_last(), tok);
    }
}

/// One reduction moves one pending operator into the trees: the total
/// count is unchanged, and ranks stay non-negative.
proof fn lemma_pop_operator_count(st: ParseState, st2: ParseState)
    requires
        spec_pop_operator(st) == Some(st2),
    ensures
        state_operator_count(st2) == state_operator_count(st),
        frames_ranked(st) ==> frames_ranked(st2),
{
    let dl = st.nodes.drop_last();
    let o2 = st.nodes.last();
    let o1 = st.nodes[st.nodes.len() - 2];
    assert(dl.last() == o1);
    assert(stack_operator_count(st.nodes) == stack_operator_count(dl) + operator_count(o2));
    assert(stack_operator_count(dl) == stack_operator_count(dl.drop_last()) + operator_count(o1));
    assert(frame_operator_count(st.ops) == frame_operator_count(st.ops.drop_last()) + (
    match st.ops.last() {
        FrameView::Op(_label, _rank) => 1nat,
        FrameView::Paren => 0nat,
    }));
    match st.ops.last() {
        FrameView::Op(label, _rank) => {
            let combined = NodeView::Operator(label, Box::new(o1), Box::new(o2));
            assert(operator_count(combined) == 1 + operator_count(o1) + operator_count(o2));
            lemma_stack_count_push(dl.drop_last(), combined);
        },
        FrameView::Paren => {
            assert(false);
        },
    }
}

/// Draining keeps the total count, keeps ranks non-negative, and stops
/// only once the top frame is no operator frame of sufficient rank.
proof fn lemma_pop_ge_count(st: ParseState, rank0: int, st2: ParseState)
    requires
        spec_pop_ge(st, rank0) == Some(st2),
    ensures
        state_operator_count(st2) == state_operator_count(st),
        frames_ranked(st) ==> frames_ranked(st2),
        st2.ops.len() > 0 ==> !(st2.ops.last() matches FrameView::Op(_label, r) && r >= rank0),
    decreases st.ops.len(),
{
    if st.ops.len() > 0 && (st.ops.last() matches FrameView::Op(_label, r) && r >= rank0) {
        match spec_pop_operator(st) {
            None => {
                assert(false);
            },
            Some(stx) => {
                lemma_pop_operator_count(st, stx);
                lemma_pop_ge_count(stx, rank0, st2);
            },
        }
    }
}

/// One engine step accounts for exactly the operator tokens it consumes:
/// the total count grows by one on an operator token and is otherwise
/// unchanged.
proof fn lemma_step_count(
    prio: Seq<Seq<char>>,
    st: ParseState,
    before: Option<Seq<char>>,
    tok: Seq<char>,
    st2: ParseState,
)
    requires
        spec_step(prio, st, before, tok) == Some(st2),
        frames_ranked(st),
    ensures
        state_operator_count(st2) == state_operator_count(st) + (if is_operator_token(prio, tok) {
            1nat
        } else {
            0nat
        }),
        frames_ranked(st2),
{
    let st1 = gap_step(prio, st, before, Some(tok));
    lemma_stack_count_push(st.nodes, NodeView::Placeholder);
    assert(state_operator_count(st1) == state_operator_count(st));
    assert(frames_ranked(st1));
    if tok == open_token() {
        lemma_frame_count_push(st1.ops, FrameView::Paren);
        assert(st2.ops.drop_last() =~= st1.ops);
        assert(forall|k: int| 0 <= k < st1.ops.len() ==> st2.ops[k] == st1.ops[k]);
    } else if tok == close_token() {
        match spec_pop_ge(st1, 0) {
            None => {
                assert(false);
            },
            Some(stx) => {
                lemma_pop_ge_count(st1, 0, stx);
                match stx.ops.last() {
                    FrameView::Op(_label, r) => {
                        assert(r >= 0);
                        assert(false);
                    },
                    FrameView::Paren => {},
                }
                lemma_stack_count_push(
                    stx.nodes.drop_last(),
                    NodeView::Parentheses(Box::new(stx.nodes.last())),
                );
                assert(forall|k: int| 0 <= k < st2.ops.len() ==> st2.ops[k] == stx.ops[k]);
            },
        }
    } else {
        match rank_of(prio, tok) {
            Some(r) => {
                match spec_pop_ge(st1, r) {
                    None => {
                        assert(false);
                    },
                    Some(stx) => {
                        lemma_pop_ge_count(st1, r, stx);
                        lemma_frame_count_push(stx.ops, FrameView::Op(tok, r));
                        lemma_rank_of_range(prio, tok);
                        assert(st2.ops.drop_last() =~= stx.ops);
                        assert(forall|k: int|
                            0 <= k < stx.ops.len() ==> st2.ops[k] == stx.ops[k]);
                    },
                }
            },
            None => {
                lemma_stack_count_push(st1.nodes, NodeView::Primitive(tok));
            },
        }
    }
}

/// After `n` tokens the state accounts for exactly the operator tokens
/// among them.
proof fn lemma_run_prefix_count(prio: Seq<Seq<char>>, toks: Seq<Seq<char>>, n: int, st: ParseState)
    requires
        run_prefix(prio, toks, n) == Some(st),
    ensures
        state_operator_count(st) == operator_token_count(prio, toks, n),
        frames_ranked(st),
    decreases n,
{
    if n <= 0 {
        assert(stack_operator_count(st.nodes) == 0);
        assert(frame_operator_count(st.ops) == 0);
    } else {
        match run_prefix(prio, toks, n - 1) {
            None => {
                assert(false);
            },
            Some(stp) => {
                lemma_run_prefix_count(prio, toks, n - 1, stp);
                lemma_step_count(prio, stp, prev_token(toks, n - 1), toks[n - 1], st);
            },
        }
    }
}

/// Law: the shape invariant of every accepted input.  The tree of a
/// successful parse holds exactly one `Operator` node per operator token
/// consumed (grouping markers excluded), and exactly one leaf more than
/// it holds `Operator` nodes.
pub proof fn lemma_parse_shape(prio: Seq<Seq<char>>, toks: Seq<Seq<char>>, v: NodeView)
    requires
        spec_parse(prio, toks) == Some(v),
    ensures
        operator_count(v) == operator_token_count(prio, toks, toks.len() as int),
        leaf_count(v) == operator_count(v) + 1,
{
    let n = toks.len() as int;
    match run_prefix(prio, toks, n) {
        None => {
            assert(false);
        },
        Some(st) => {
            lemma_run_prefix_count(prio, toks, n, st);
            let st1 = gap_step(prio, st, prev_token(toks, n), None);
            lemma_stack_count_push(st.nodes, NodeView::Placeholder);
            match spec_pop_ge(st1, 0) {
                None => {
                    assert(false);
                },
                Some(st2) => {
                    lemma_pop_ge_count(st1, 0, st2);
                    assert(st2.nodes.len() == 1);
                    assert(st2.nodes.drop_last().len() == 0);
                    assert(stack_operator_count(st2.nodes.drop_last()) == 0);
                    assert(stack_operator_count(st2.nodes) == stack_operator_count(
                        st2.nodes.drop_last(),
                    ) + operator_count(st2.nodes.last()));
                    assert(frame_operator_count(st2.ops) == 0);
                    assert(v == st2.nodes[0]);
                },
            }
        },
    }
    lemma_leaf_count(v);
}

} // verus!
