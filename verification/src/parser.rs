//! The executable reduction engine, verified against [`crate::model`].

use crate::ast::{node_view, result_view, Node, NodeView};
use crate::model::{
    close_token, gap_nodes, gap_step, lemma_prefix_failure, open_token, parse_result_matches,
    prev_token, rank_of, run_prefix, spec_pop_ge, spec_pop_operator, FrameView, ParseState,
};
use vstd::prelude::*;

verus! {

/// A pending frame on the operator stack: a real operator with its
/// binding rank, or the barrier pushed for an opening parenthesis.
enum Operator {
    Operator(String, usize),
    Parenthesis(),
}

spec fn frame_view(f: Operator) -> FrameView {
    match f {
        Operator::Operator(label, rank) => FrameView::Op(label@, rank as int),
        Operator::Parenthesis() => FrameView::Paren,
    }
}

spec fn nodes_view(s: Seq<Node>) -> Seq<NodeView> {
    s.map_values(|n: Node| node_view(n))
}

spec fn frames_view(s: Seq<Operator>) -> Seq<FrameView> {
    s.map_values(|f: Operator| frame_view(f))
}

spec fn abs_state(nodes: Seq<Node>, ops: Seq<Operator>) -> ParseState {
    ParseState { nodes: nodes_view(nodes), ops: frames_view(ops) }
}

/// String equality, related to the views.
fn string_eq(a: &String, b: &String) -> (r: bool)
    ensures
        r == (a@ == b@),
{
    a.eq(b)
}

/// Whether a token is the opening-group token.
fn is_open(token: &String) -> (r: bool)
    ensures
        r == (token@ == open_token()),
{
    let marker: String = "(".to_owned();
    string_eq(token, &marker)
}

/// Whether a token is the closing-group token.
fn is_close(token: &String) -> (r: bool)
    ensures
        r == (token@ == close_token()),
{
    let marker: String = ")".to_owned();
    string_eq(token, &marker)
}

/// The view of an optional borrowed token.
spec fn opt_token_view(t: Option<&String>) -> Option<Seq<char>> {
    match t {
        None => None,
        Some(s) => Some(s@),
    }
}

proof fn lemma_nodes_view_push(s: Seq<Node>, n: Node)
    ensures
        nodes_view(s.push(n)) == nodes_view(s).push(node_view(n)),
{
    assert(nodes_view(s.push(n)) =~= nodes_view(s).push(node_view(n)));
}

proof fn lemma_nodes_view_drop_last(s: Seq<Node>)
    requires
        s.len() > 0,
    ensures
        nodes_view(s.drop_last()) == nodes_view(s).drop_last(),
        node_view(s.last()) == nodes_view(s).last(),
{
    assert(nodes_view(s.drop_last()) =~= nodes_view(s).drop_last());
}

proof fn lemma_frames_view_push(s: Seq<Operator>, f: Operator)
    ensures
        frames_view(s.push(f)) == frames_view(s).push(frame_view(f)),
{
    assert(frames_view(s.push(f)) =~= frames_view(s).push(frame_view(f)));
}

proof fn lemma_frames_view_drop_last(s: Seq<Operator>)
    requires
        s.len() > 0,
    ensures
        frames_view(s.drop_last()) == frames_view(s).drop_last(),
        frame_view(s.last()) == frames_view(s).last(),
{
    assert(frames_view(s.drop_last()) =~= frames_view(s).drop_last());
}

/// A reusable parser configuration: the ordered list of operator tokens.
/// Later entries bind tighter; on duplicates the later entry wins.
pub struct Parser {
    priorities: Vec<String>,
}

impl View for Parser {
    type V = Seq<Seq<char>>;

    closed spec fn view(&self) -> Seq<Seq<char>> {
        self.priorities.deep_view()
    }
}

impl Parser {
    /// Build a parser from a priority order: rank equals position in the
    /// list, so operators listed later bind tighter.
    pub fn new(operators: Vec<String>) -> (parser: Parser)
        ensures
            parser@ == operators.deep_view(),
    {
        Parser { priorities: operators }
    }

    /// Look a token up in the priority table.
    fn rank(&self, token: &String) -> (r: Option<usize>)
        ensures
            match r {
                Some(p) => rank_of(self@, token@) == Some(p as int),
                None => rank_of(self@, token@) is None,
            },
    {
        let mut i: usize = self.priorities.len();
        proof {
            assert(self@.take(i as int) =~= self@);
        }
        while i > 0
            invariant
                i <= self.priorities.len(),
                rank_of(self@, token@) == rank_of(self@.take(i as int), token@),
            decreases i,
        {
            let j = i - 1;
            if string_eq(&self.priorities[j], token) {
                proof {
                    assert(self@[j as int] == self.priorities@[j as int]@);
                    assert(self@.take(i as int).last() == token@);
                }
                return Some(j);
            }
            proof {
                assert(self@[j as int] == self.priorities@[j as int]@);
                assert(self@.take(i as int).drop_last() =~= self@.take(j as int));
            }
            i = j;
        }
        proof {
            assert(self@.take(0) =~= Seq::<Seq<char>>::empty());
        }
        None
    }

    /// Decide, from the tokens on either side of a gap, whether a
    /// placeholder operand must be synthesized there, and push it.
    fn insert_placeholder(
        &self,
        stack_node: &mut Vec<Node>,
        token_before: Option<&String>,
        token_after: Option<&String>,
    )
        ensures
            nodes_view(final(stack_node)@) == gap_nodes(
                self@,
                nodes_view(old(stack_node)@),
                opt_token_view(token_before),
                opt_token_view(token_after),
            ),
    {
        let needs_placeholder_after: bool = match token_before {
            None => true,
            Some(token) => is_open(token) || self.rank(token).is_some(),
        };
        let needs_placeholder_before: bool = match token_after {
            None => true,
            Some(token) => is_close(token) || self.rank(token).is_some(),
        };
        if needs_placeholder_after && needs_placeholder_before {
            stack_node.push(Node::Placeholder());
            proof {
                lemma_nodes_view_push(old(stack_node)@, Node::Placeholder());
            }
        }
    }

    /// Pop one operator frame and combine the two topmost nodes under it:
    /// the earlier-pushed node becomes the left operand.  `None` marks a
    /// malformed expression: a barrier or an empty stack where an operator
    /// and two operands were required.
    fn pop_operator(&self, stack_node: &mut Vec<Node>, stack_operator: &mut Vec<Operator>) -> (r:
        Option<()>)
        ensures
            r is Some ==> spec_pop_operator(abs_state(old(stack_node)@, old(stack_operator)@))
                == Some(abs_state(final(stack_node)@, final(stack_operator)@)),
            r is None ==> spec_pop_operator(abs_state(old(stack_node)@, old(stack_operator)@))
                is None,
    {
        match stack_operator.pop() {
            None => None,
            Some(frame) => {
                proof {
                    lemma_frames_view_drop_last(old(stack_operator)@);
                }
                match frame {
                    Operator::Parenthesis() => None,
                    Operator::Operator(label, _priority) => {
                        match stack_node.pop() {
                            None => None,
                            Some(o2) => {
                                proof {
                                    lemma_nodes_view_drop_last(old(stack_node)@);
                                }
                                match stack_node.pop() {
                                    None => None,
                                    Some(o1) => {
                                        proof {
                                            lemma_nodes_view_drop_last(
                                                old(stack_node)@.drop_last(),
                                            );
                                        }
                                        let node = Node::Operator(label, Box::new(o1), Box::new(o2));
                                        stack_node.push(node);
                                        proof {
                                            lemma_nodes_view_push(
                                                old(stack_node)@.drop_last().drop_last(),
                                                node,
                                            );
                                        }
                                        Some(())
                                    },
                                }
                            },
                        }
                    },
                }
            },
        }
    }

    /// Repeatedly reduce while the top frame is an operator of rank at
    /// least `priority0`.  A barrier stops the drain without being removed.
    #[verifier::loop_isolation(false)]
    fn pop_operators_ge(
        &self,
        stack_node: &mut Vec<Node>,
        stack_operator: &mut Vec<Operator>,
        priority0: usize,
    ) -> (r: Option<()>)
        ensures
            r is Some ==> spec_pop_ge(
                abs_state(old(stack_node)@, old(stack_operator)@),
                priority0 as int,
            ) == Some(abs_state(final(stack_node)@, final(stack_operator)@)),
            r is None ==> spec_pop_ge(
                abs_state(old(stack_node)@, old(stack_operator)@),
                priority0 as int,
            ) is None,
    {
        loop
            invariant
                spec_pop_ge(abs_state(old(stack_node)@, old(stack_operator)@), priority0 as int)
                    == spec_pop_ge(abs_state(stack_node@, stack_operator@), priority0 as int),
            decreases stack_operator@.len(),
        {
            let ghost st_cur = abs_state(stack_node@, stack_operator@);
            let len = stack_operator.len();
            let proceed: bool = if len == 0 {
                false
            } else {
                proof {
                    assert(st_cur.ops.last() == frame_view(stack_operator@.last()));
                }
                match &stack_operator[len - 1] {
                    Operator::Operator(_label, priority) => *priority >= priority0,
                    Operator::Parenthesis() => false,
                }
            };
            if !proceed {
                return Some(());
            }
            match self.pop_operator(stack_node, stack_operator) {
                None => {
                    return None;
                },
                Some(_unit) => {
                    proof {
                        assert(spec_pop_ge(st_cur, priority0 as int) == spec_pop_ge(
                            abs_state(stack_node@, stack_operator@),
                            priority0 as int,
                        ));
                    }
                },
            }
        }
    }

    /// Parse a token sequence into a tree, or report a malformed
    /// expression as `None`.  The result is exactly what the model
    /// ([`crate::model::spec_parse`]) prescribes for this priority order
    /// and input.
    /// The working stacks are local to the call, so the configuration is
    /// the only state a parser carries between calls.
    #[verifier::loop_isolation(false)]
    pub fn parse(&self, tokens: &Vec<String>) -> (r: Option<Node>)
        ensures
            parse_result_matches(self@, tokens.deep_view(), result_view(r)),
    {
        let ghost prio = self@;
        let ghost toks = tokens.deep_view();
        proof {
            assert(toks.len() == tokens@.len());
        }
        let mut stack_node: Vec<Node> = Vec::new();
        let mut stack_operator: Vec<Operator> = Vec::new();
        proof {
            assert(nodes_view(stack_node@) =~= Seq::<NodeView>::empty());
            assert(frames_view(stack_operator@) =~= Seq::<FrameView>::empty());
        }
        let mut i: usize = 0;
        while i < tokens.len()
            invariant
                i <= tokens@.len(),
                run_prefix(prio, toks, i as int) == Some(abs_state(stack_node@, stack_operator@)),
            decreases tokens@.len() - i,
        {
            let ghost st_entry = abs_state(stack_node@, stack_operator@);
            let token_previous: Option<&String> = if i == 0 {
                None
            } else {
                Some(&tokens[i - 1])
            };
            let token = &tokens[i];
            proof {
                assert(toks[i as int] == tokens@[i as int]@);
                if i > 0 {
                    assert(toks[i as int - 1] == tokens@[i as int - 1]@);
                }
                assert(opt_token_view(token_previous) == prev_token(toks, i as int));
            }
            self.insert_placeholder(&mut stack_node, token_previous, Some(token));
            let ghost st1 = gap_step(prio, st_entry, prev_token(toks, i as int), Some(toks[i as int]));
            proof {
                assert(abs_state(stack_node@, stack_operator@) == st1);
            }
            if is_open(token) {
                let ghost pre_ops = stack_operator@;
                stack_operator.push(Operator::Parenthesis());
                proof {
                    lemma_frames_view_push(pre_ops, Operator::Parenthesis());
                }
            } else if is_close(token) {
                match self.pop_operators_ge(&mut stack_node, &mut stack_operator, 0) {
                    Some(_unit) => {},
                    None => {
                        proof {
                            assert(run_prefix(prio, toks, i as int + 1) is None);
                            lemma_prefix_failure(prio, toks, i as int + 1);
                        }
                        return None;
                    },
                }
                let ghost pre_ops = stack_operator@;
                match stack_operator.pop() {
                    Some(_frame) => {
                        proof {
                            lemma_frames_view_drop_last(pre_ops);
                        }
                    },
                    None => {
                        proof {
                            assert(run_prefix(prio, toks, i as int + 1) is None);
                            lemma_prefix_failure(prio, toks, i as int + 1);
                        }
                        return None;
                    },
                }
                let ghost pre_nodes = stack_node@;
                match stack_node.pop() {
                    Some(node) => {
                        proof {
                            lemma_nodes_view_drop_last(pre_nodes);
                        }
                        let wrapped = Node::Parentheses(Box::new(node));
                        let ghost gwrapped = wrapped;
                        stack_node.push(wrapped);
                        proof {
                            lemma_nodes_view_push(pre_nodes.drop_last(), gwrapped);
                        }
                    },
                    None => {
                        proof {
                            assert(run_prefix(prio, toks, i as int + 1) is None);
                            lemma_prefix_failure(prio, toks, i as int + 1);
                        }
                        return None;
                    },
                }
            } else {
                match self.rank(token) {
                    Some(priority) => {
                        match self.pop_operators_ge(&mut stack_node, &mut stack_operator, priority) {
                            Some(_unit) => {},
                            None => {
                                proof {
                                    assert(run_prefix(prio, toks, i as int + 1) is None);
                                    lemma_prefix_failure(prio, toks, i as int + 1);
                                }
                                return None;
                            },
                        }
                        let frame = Operator::Operator(token.clone(), priority);
                        let ghost gframe = frame;
                        let ghost pre_ops = stack_operator@;
                        stack_operator.push(frame);
                        proof {
                            lemma_frames_view_push(pre_ops, gframe);
                        }
                    },
                    None => {
                        let leaf = Node::Primitive(token.clone());
                        let ghost gleaf = leaf;
                        let ghost pre_nodes = stack_node@;
                        stack_node.push(leaf);
                        proof {
                            lemma_nodes_view_push(pre_nodes, gleaf);
                        }
                    },
                }
            }
            proof {
                assert(run_prefix(prio, toks, i as int + 1) == Some(
                    abs_state(stack_node@, stack_operator@),
                ));
            }
            i = i + 1;
        }
        let token_previous: Option<&String> = if tokens.len() == 0 {
            None
        } else {
            Some(&tokens[tokens.len() - 1])
        };
        proof {
            if tokens@.len() > 0 {
                assert(toks[toks.len() - 1] == tokens@[tokens@.len() - 1]@);
            }
            assert(opt_token_view(token_previous) == prev_token(toks, toks.len() as int));
        }
        self.insert_placeholder(&mut stack_node, token_previous, None);
        match self.pop_operators_ge(&mut stack_node, &mut stack_operator, 0) {
            Some(_unit) => {},
            None => {
                return None;
            },
        }
        if stack_operator.is_empty() && stack_node.len() == 1 {
            let ghost pre_nodes = stack_node@;
            match stack_node.pop() {
                Some(node) => {
                    proof {
                        lemma_nodes_view_drop_last(pre_nodes);
                    }
                    Some(node)
                },
                None => {
                    proof {
                        assert(false);
                    }
                    None
                },
            }
        } else {
            None
        }
    }
}

} // verus!
