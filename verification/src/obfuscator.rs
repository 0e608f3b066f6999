//! The transformer: rewrites a tree into a structurally different but
//! matching-equivalent one. A literal becomes a one-member character class; a
//! non-negated character class becomes a non-capturing group holding an
//! alternation of its members as one-member classes; negated classes and the
//! remaining leaf variants pass through unchanged; every other construct is
//! rewritten in its children only.
//!
//! The obfuscator carries a source of randomness as a reserved hook for a
//! future randomized choice among equivalent encodings; the current rewrite
//! is deterministic and never consults it.

use vstd::prelude::*;

use crate::ast::{
    branches_view, lemma_branches_view, lemma_nodes_view, node_view, nodes_view, GroupKind,
    GroupKindView, NodeView, RegexNode,
};

verus! {

/// What the rewrite makes of one node.
pub open spec fn sp_transform_node(n: NodeView) -> NodeView
    decreases n,
{
    match n {
        NodeView::Literal(c) => NodeView::CharacterClass { negated: false, chars: seq![c] },
        NodeView::CharacterClass { negated, chars } => {
            if negated {
                n
            } else {
                NodeView::Group(
                    GroupKindView::NonCapturing,
                    seq![NodeView::Alternation(singleton_branches(chars))],
                )
            }
        },
        NodeView::Quantified(node, q) => NodeView::Quantified(
            Box::new(sp_transform_node(*node)),
            q,
        ),
        NodeView::Group(kind, nodes) => NodeView::Group(kind, sp_transform_nodes(nodes)),
        NodeView::Alternation(bs) => NodeView::Alternation(sp_transform_branches(bs)),
        NodeView::Lookaround(kind, nodes) => NodeView::Lookaround(kind, sp_transform_nodes(nodes)),
        NodeView::FlagSet(flags, nodes) => NodeView::FlagSet(flags, sp_transform_nodes(nodes)),
        _ => n,
    }
}

/// One alternation branch per class member: a one-element sequence holding
/// that member as a one-member class.
pub open spec fn singleton_branches(chars: Seq<char>) -> Seq<Seq<NodeView>> {
    Seq::new(
        chars.len(),
        |i: int| seq![NodeView::CharacterClass { negated: false, chars: seq![chars[i]] }],
    )
}

/// The rewrite of a node sequence, element by element.
pub open spec fn sp_transform_nodes(ns: Seq<NodeView>) -> Seq<NodeView>
    decreases ns,
{
    if ns.len() == 0 {
        Seq::empty()
    } else {
        sp_transform_nodes(ns.drop_last()).push(sp_transform_node(ns.last()))
    }
}

/// The rewrite of an alternation's branches, branch by branch.
pub open spec fn sp_transform_branches(bs: Seq<Seq<NodeView>>) -> Seq<Seq<NodeView>>
    decreases bs,
{
    if bs.len() == 0 {
        Seq::empty()
    } else {
        sp_transform_branches(bs.drop_last()).push(sp_transform_nodes(bs.last()))
    }
}

/// `sp_transform_nodes` maps the sequence element by element.
pub proof fn lemma_transform_nodes(ns: Seq<NodeView>)
    ensures
        sp_transform_nodes(ns).len() == ns.len(),
        forall|i: int| 0 <= i < ns.len() ==> sp_transform_nodes(ns)[i] == sp_transform_node(ns[i]),
    decreases ns,
{
    if ns.len() > 0 {
        lemma_transform_nodes(ns.drop_last());
    }
}

/// `sp_transform_branches` maps the branches one by one.
pub proof fn lemma_transform_branches(bs: Seq<Seq<NodeView>>)
    ensures
        sp_transform_branches(bs).len() == bs.len(),
        forall|i: int|
            0 <= i < bs.len() ==> sp_transform_branches(bs)[i] == sp_transform_nodes(bs[i]),
    decreases bs,
{
    if bs.len() > 0 {
        lemma_transform_branches(bs.drop_last());
    }
}

/// The thread-local random number generator of the rand crate, opaque here.
#[verifier::external_type_specification]
#[verifier::external_body]
pub struct ExThreadRng(rand::rngs::ThreadRng);

/// Relies on rand::thread_rng: a handle to the thread-local generator. It is
/// kept as a reserved hook for randomized encoding choices; nothing is
/// assumed about it.
#[verifier::external_body]
fn fresh_rng() -> rand::rngs::ThreadRng {
    rand::thread_rng()
}

/// The tree rewriter. Its randomness source is a reserved extension point;
/// the current rewrite policy is deterministic.
pub struct Obfuscator {
    rng: rand::rngs::ThreadRng,
}

impl Obfuscator {
    pub fn new() -> Obfuscator {
        Obfuscator { rng: fresh_rng() }
    }

    /// Rewrites a whole node sequence: exactly [`sp_transform_nodes`] of its
    /// abstraction. The input is consumed; the result is independently owned.
    pub fn obfuscate(&mut self, ast: Vec<RegexNode>) -> (r: Vec<RegexNode>)
        ensures
            nodes_view(r@) == sp_transform_nodes(nodes_view(ast@)),
    {
        self.obfuscate_nodes(ast)
    }

    /// Rewrites each node of a sequence in order.
    #[verifier::loop_isolation(false)]
    fn obfuscate_nodes(&mut self, nodes: Vec<RegexNode>) -> (r: Vec<RegexNode>)
        ensures
            nodes_view(r@) == sp_transform_nodes(nodes_view(nodes@)),
        decreases nodes@,
    {
        let ghost orig = nodes@;
        let mut rest = nodes;
        let mut out: Vec<RegexNode> = Vec::new();
        proof {
            lemma_nodes_view(orig);
        }
        while rest.len() > 0
            invariant
                out@.len() + rest@.len() == orig.len(),
                rest@ == orig.subrange(out@.len() as int, orig.len() as int),
                nodes_view(out@) == sp_transform_nodes(
                    nodes_view(orig.subrange(0, out@.len() as int)),
                ),
            decreases rest@.len(),
        {
            let ghost k = out@.len() as int;
            let node = rest.remove(0);
            proof {
                assert(node == orig[k]);
                assert(decreases_to!(orig => orig[k]));
                assert(rest@ =~= orig.subrange(k + 1, orig.len() as int));
            }
            let t = self.obfuscate_node(node);
            let ghost out_pre = out@;
            out.push(t);
            proof {
                let pre = orig.subrange(0, k);
                let post = orig.subrange(0, k + 1);
                assert(post.drop_last() =~= pre);
                assert(nodes_view(pre).push(node_view(orig[k])).drop_last() =~= nodes_view(pre));
                assert(nodes_view(post) == nodes_view(pre).push(node_view(orig[k])));
                assert(out@.drop_last() =~= out_pre);
                assert(nodes_view(out@) == nodes_view(out_pre).push(node_view(t)));
                assert(nodes_view(out@) == sp_transform_nodes(nodes_view(post)));
            }
        }
        proof {
            assert(orig.subrange(0, orig.len() as int) =~= orig);
        }
        out
    }

    /// Rewrites each branch of an alternation.
    #[verifier::loop_isolation(false)]
    fn obfuscate_branches(&mut self, branches: Vec<Vec<RegexNode>>) -> (r: Vec<Vec<RegexNode>>)
        ensures
            branches_view(r@) == sp_transform_branches(branches_view(branches@)),
        decreases branches@,
    {
        let ghost orig = branches@;
        let mut rest = branches;
        let mut out: Vec<Vec<RegexNode>> = Vec::new();
        proof {
            lemma_branches_view(orig);
        }
        while rest.len() > 0
            invariant
                out@.len() + rest@.len() == orig.len(),
                rest@ == orig.subrange(out@.len() as int, orig.len() as int),
                branches_view(out@) == sp_transform_branches(
                    branches_view(orig.subrange(0, out@.len() as int)),
                ),
            decreases rest@.len(),
        {
            let ghost k = out@.len() as int;
            let branch = rest.remove(0);
            proof {
                assert(branch == orig[k]);
                assert(decreases_to!(orig => orig[k]));
                assert(decreases_to!(orig[k] => orig[k]@));
                assert(rest@ =~= orig.subrange(k + 1, orig.len() as int));
            }
            let t = self.obfuscate_nodes(branch);
            let ghost out_pre = out@;
            out.push(t);
            proof {
                let pre = orig.subrange(0, k);
                let post = orig.subrange(0, k + 1);
                assert(post.drop_last() =~= pre);
                assert(branches_view(pre).push(nodes_view(orig[k]@)).drop_last() =~= branches_view(
                    pre,
                ));
                assert(branches_view(post) == branches_view(pre).push(nodes_view(orig[k]@)));
                assert(out@.drop_last() =~= out_pre);
                assert(branches_view(out@) == branches_view(out_pre).push(nodes_view(t@)));
                assert(branches_view(out@) == sp_transform_branches(branches_view(post)));
            }
        }
        proof {
            assert(orig.subrange(0, orig.len() as int) =~= orig);
        }
        out
    }

    /// Rewrites one node under the policy above.
    #[verifier::loop_isolation(false)]
    fn obfuscate_node(&mut self, node: RegexNode) -> (r: RegexNode)
        ensures
            node_view(r) == sp_transform_node(node_view(node)),
        decreases node,
    {
        let ghost n0 = node;
        match node {
            RegexNode::Literal(c) => self.obfuscate_literal(c),
            RegexNode::CharacterClass { negated, chars } => {
                if negated {
                    RegexNode::CharacterClass { negated, chars }
                } else {
                    let ghost cs = chars@;
                    let mut rest = chars;
                    let mut alternatives: Vec<Vec<RegexNode>> = Vec::new();
                    while rest.len() > 0
                        invariant
                            alternatives@.len() + rest@.len() == cs.len(),
                            rest@ == cs.subrange(alternatives@.len() as int, cs.len() as int),
                            branches_view(alternatives@) == singleton_branches(cs).subrange(
                                0,
                                alternatives@.len() as int,
                            ),
                        decreases rest@.len(),
                    {
                        let ghost k = alternatives@.len() as int;
                        let c = rest.remove(0);
                        let mut member: Vec<char> = Vec::new();
                        member.push(c);
                        proof {
                            assert(member@ =~= seq![c]);
                        }
                        let cls = RegexNode::CharacterClass { negated: false, chars: member };
                        let mut branch: Vec<RegexNode> = Vec::new();
                        branch.push(cls);
                        let ghost alts_pre = alternatives@;
                        let ghost branch_view = branch@;
                        alternatives.push(branch);
                        proof {
                            assert(c == cs[k]);
                            assert(rest@ =~= cs.subrange(k + 1, cs.len() as int));
                            assert(branch_view.drop_last() =~= Seq::<RegexNode>::empty());
                            assert(nodes_view(branch_view) == nodes_view(Seq::empty()).push(
                                node_view(cls),
                            ));
                            assert(nodes_view(branch_view) =~= seq![node_view(cls)]);
                            assert(nodes_view(branch_view) == singleton_branches(cs)[k]);
                            assert(alternatives@.drop_last() =~= alts_pre);
                            assert(branches_view(alternatives@) == branches_view(alts_pre).push(
                                nodes_view(branch_view),
                            ));
                            assert(branches_view(alternatives@) =~= singleton_branches(
                                cs,
                            ).subrange(0, k + 1));
                        }
                    }
                    proof {
                        assert(branches_view(alternatives@) =~= singleton_branches(cs));
                    }
                    let alt = RegexNode::Alternation(alternatives);
                    let mut group_body: Vec<RegexNode> = Vec::new();
                    group_body.push(alt);
                    let r = RegexNode::Group(GroupKind::NonCapturing, group_body);
                    proof {
                        assert(group_body@.drop_last() =~= Seq::<RegexNode>::empty());
                        assert(nodes_view(group_body@) == nodes_view(Seq::empty()).push(
                            node_view(alt),
                        ));
                        assert(nodes_view(group_body@) =~= seq![node_view(alt)]);
                        assert(node_view(r) == sp_transform_node(node_view(n0)));
                    }
                    r
                }
            },
            RegexNode::Quantified { node: child, quantifier } => {
                proof {
                    assert(decreases_to!(n0 => *child));
                }
                let t = self.obfuscate_node(*child);
                RegexNode::Quantified { node: Box::new(t), quantifier }
            },
            RegexNode::Group(kind, nodes) => {
                proof {
                    assert(decreases_to!(n0 => nodes));
                }
                let t = self.obfuscate_nodes(nodes);
                RegexNode::Group(kind, t)
            },
            RegexNode::Alternation(alternatives) => {
                proof {
                    assert(decreases_to!(n0 => alternatives));
                }
                let t = self.obfuscate_branches(alternatives);
                RegexNode::Alternation(t)
            },
            RegexNode::Lookaround(kind, nodes) => {
                proof {
                    assert(decreases_to!(n0 => nodes));
                }
                let t = self.obfuscate_nodes(*nodes);
                RegexNode::Lookaround(kind, Box::new(t))
            },
            RegexNode::FlagSet(flags, nodes) => {
                proof {
                    assert(decreases_to!(n0 => nodes));
                }
                let t = self.obfuscate_nodes(*nodes);
                RegexNode::FlagSet(flags, Box::new(t))
            },
            other => other,
        }
    }

    /// A literal becomes the one-member class holding the same character.
    fn obfuscate_literal(&mut self, c: char) -> (r: RegexNode)
        ensures
            node_view(r) == sp_transform_node(NodeView::Literal(c)),
    {
        let mut member: Vec<char> = Vec::new();
        member.push(c);
        proof {
            assert(member@ =~= seq![c]);
        }
        RegexNode::CharacterClass { negated: false, chars: member }
    }
}

} // verus!
