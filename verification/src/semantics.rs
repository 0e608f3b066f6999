//! A reference matcher for trees, as a mathematical definition: whether a
//! node sequence matches exactly a given subject segment. It exists to state
//! and prove that the transformer preserves match outcomes.
//!
//! The interpretation is compositional and deliberately simple where full
//! pattern semantics would need context:
//! - zero-width constructs (anchors, word boundaries, lookarounds) match the
//!   empty segment; their assertions on surrounding text are not evaluated;
//! - a backreference matches any segment (no capture environment is kept);
//! - a Unicode category matches any single code point; the predefined classes
//!   are read over ASCII; flags and laziness do not change the language;
//! - quantifiers have their usual language reading; a range with its minimum
//!   above its maximum matches nothing.
//!
//! The transformer rewrites only literals and non-negated character classes
//! and passes everything else through structurally, so its preservation
//! theorem below holds under any such compositional reading; the interesting
//! cases are exactly the rewritten ones.

use vstd::prelude::*;

use crate::ast::{CharacterTypeKind, EscapedChar, NodeView, Quantifier};
use crate::obfuscator::{
    lemma_transform_branches, lemma_transform_nodes, singleton_branches, sp_transform_branches,
    sp_transform_node, sp_transform_nodes,
};
use crate::text::is_digit_char;

verus! {

/// Word characters, read over ASCII: letters, digits and underscore.
pub open spec fn word_char(c: char) -> bool {
    (65 <= c as u32 && c as u32 <= 90) || (97 <= c as u32 && c as u32 <= 122) || is_digit_char(c)
        || c == '_'
}

/// Whitespace characters, read over ASCII.
pub open spec fn space_char(c: char) -> bool {
    c == ' ' || c == '\t' || c == '\n' || c == '\r' || c as u32 == 11 || c as u32 == 12
}

/// The single character a control or code-point escape stands for.
pub open spec fn escape_char_matches(e: EscapedChar, c: char) -> bool {
    match e {
        EscapedChar::Tab => c == '\t',
        EscapedChar::NewLine => c == '\n',
        EscapedChar::CarriageReturn => c == '\r',
        EscapedChar::FormFeed => c as u32 == 12,
        EscapedChar::VerticalTab => c as u32 == 11,
        EscapedChar::Null => c as u32 == 0,
        EscapedChar::Hex(n) => c as u32 == n,
        EscapedChar::Unicode(n) => c as u32 == n,
    }
}

/// Which single characters a predefined class matches.
pub open spec fn char_in_type(k: CharacterTypeKind, c: char) -> bool {
    match k {
        CharacterTypeKind::Word => word_char(c),
        CharacterTypeKind::NotWord => !word_char(c),
        CharacterTypeKind::Digit => is_digit_char(c),
        CharacterTypeKind::NotDigit => !is_digit_char(c),
        CharacterTypeKind::Whitespace => space_char(c),
        CharacterTypeKind::NotWhitespace => !space_char(c),
        CharacterTypeKind::EscapedChar(e) => escape_char_matches(e, c),
    }
}

/// Whether one node matches exactly the segment `s`.
pub open spec fn node_matches(n: NodeView, s: Seq<char>) -> bool
    decreases n, 0int, s.len(), 0int,
{
    match n {
        NodeView::Literal(c) => s.len() == 1 && s[0] == c,
        NodeView::CharacterClass { negated, chars } => s.len() == 1 && (chars.contains(s[0])
            != negated),
        NodeView::Dot => s.len() == 1,
        NodeView::Anchor(a) => s.len() == 0,
        NodeView::WordBoundary => s.len() == 0,
        NodeView::Quantified(node, q) => quantifier_matches(*node, q, s),
        NodeView::Group(kind, nodes) => seq_matches(nodes, s),
        NodeView::Backreference(b) => true,
        NodeView::CharacterType(k) => s.len() == 1 && char_in_type(k, s[0]),
        NodeView::UnicodeCategory { negated, category } => s.len() == 1,
        NodeView::Alternation(bs) => exists|i: int|
            0 <= i < bs.len() && seq_matches(#[trigger] bs[i], s),
        NodeView::Lookaround(kind, nodes) => s.len() == 0,
        NodeView::FlagSet(flags, nodes) => seq_matches(nodes, s),
    }
}

/// Whether a repetition of `child` under `q` matches exactly `s`.
pub open spec fn quantifier_matches(child: NodeView, q: Quantifier, s: Seq<char>) -> bool
    decreases child, 2int, s.len(), 0int,
{
    match q {
        Quantifier::ZeroOrMore { lazy } => star_matches(child, s),
        Quantifier::OneOrMore { lazy } => exists|k: int|
            0 <= k <= s.len() && node_matches(child, #[trigger] s.subrange(0, k)) && star_matches(
                child,
                s.subrange(k, s.len() as int),
            ),
        Quantifier::ZeroOrOne { lazy } => s.len() == 0 || node_matches(child, s),
        Quantifier::Exactly(n) => rep_matches(child, n as nat, s),
        Quantifier::AtLeast(n) => exists|k: int|
            0 <= k <= s.len() && rep_matches(child, n as nat, #[trigger] s.subrange(0, k))
                && star_matches(child, s.subrange(k, s.len() as int)),
        Quantifier::Range { min, max } => min <= max && exists|k: int|
            0 <= k <= s.len() && rep_matches(child, min as nat, #[trigger] s.subrange(0, k))
                && rep_upto(child, (max - min) as nat, s.subrange(k, s.len() as int)),
    }
}

/// Whether zero or more repetitions of `child` match exactly `s`; each
/// repetition consumes at least one character, which loses no generality.
pub open spec fn star_matches(child: NodeView, s: Seq<char>) -> bool
    decreases child, 1int, s.len(), 0int,
{
    s.len() == 0 || exists|k: int|
        1 <= k <= s.len() && node_matches(child, #[trigger] s.subrange(0, k)) && star_matches(
            child,
            s.subrange(k, s.len() as int),
        )
}

/// Whether exactly `cnt` repetitions of `child` match exactly `s`.
pub open spec fn rep_matches(child: NodeView, cnt: nat, s: Seq<char>) -> bool
    decreases child, 1int, s.len(), cnt,
{
    if cnt == 0 {
        s.len() == 0
    } else {
        exists|k: int|
            0 <= k <= s.len() && node_matches(child, #[trigger] s.subrange(0, k)) && rep_matches(
                child,
                (cnt - 1) as nat,
                s.subrange(k, s.len() as int),
            )
    }
}

/// Whether at most `bound` repetitions of `child` match exactly `s`; each
/// consumes at least one character, which loses no generality.
pub open spec fn rep_upto(child: NodeView, bound: nat, s: Seq<char>) -> bool
    decreases child, 1int, s.len(), bound,
{
    if s.len() == 0 {
        true
    } else if bound == 0 {
        false
    } else {
        exists|k: int|
            1 <= k <= s.len() && node_matches(child, #[trigger] s.subrange(0, k)) && rep_upto(
                child,
                (bound - 1) as nat,
                s.subrange(k, s.len() as int),
            )
    }
}

/// Whether a node sequence matches exactly `s`: the empty sequence matches
/// the empty segment, and otherwise some prefix matches the first node and
/// the rest matches the remaining nodes.
pub open spec fn seq_matches(ns: Seq<NodeView>, s: Seq<char>) -> bool
    decreases ns, 0int, s.len(), 0int,
{
    if ns.len() == 0 {
        s.len() == 0
    } else {
        exists|k: int|
            0 <= k <= s.len() && node_matches(ns[0], #[trigger] s.subrange(0, k)) && seq_matches(
                ns.drop_first(),
                s.subrange(k, s.len() as int),
            )
    }
}

/// A one-node sequence matches exactly what its node matches.
proof fn lemma_singleton_seq_matches(n: NodeView, s: Seq<char>)
    ensures
        seq_matches(seq![n], s) == node_matches(n, s),
{
    let ns = seq![n];
    assert(ns.len() == 1);
    assert(ns[0] == n);
    assert(ns.drop_first() =~= Seq::<NodeView>::empty());
    if node_matches(n, s) {
        let k = s.len() as int;
        assert(s.subrange(0, k) =~= s);
        assert(s.subrange(k, s.len() as int).len() == 0);
        assert(node_matches(ns[0], s.subrange(0, k)));
        assert(seq_matches(ns.drop_first(), s.subrange(k, s.len() as int)));
        assert(seq_matches(ns, s));
    }
    if seq_matches(ns, s) {
        let k = choose|k: int|
            0 <= k <= s.len() && node_matches(ns[0], #[trigger] s.subrange(0, k)) && seq_matches(
                ns.drop_first(),
                s.subrange(k, s.len() as int),
            );
        assert(s.subrange(k, s.len() as int).len() == 0);
        assert(k == s.len());
        assert(s.subrange(0, k) =~= s);
        assert(node_matches(n, s));
    }
}

/// The transformer's rewrite of a non-negated class is matched by exactly
/// the segments that are one of its members.
proof fn lemma_class_group_matches(chars: Seq<char>, s: Seq<char>)
    ensures
        node_matches(
            NodeView::Group(
                crate::ast::GroupKindView::NonCapturing,
                seq![NodeView::Alternation(singleton_branches(chars))],
            ),
            s,
        ) == (s.len() == 1 && chars.contains(s[0])),
{
    let alt = NodeView::Alternation(singleton_branches(chars));
    lemma_singleton_seq_matches(alt, s);
    let bs = singleton_branches(chars);
    assert(alt->Alternation_0 == bs);
    assert forall|i: int| 0 <= i < bs.len() implies seq_matches(#[trigger] bs[i], s) == (s.len()
        == 1 && s[0] == chars[i]) by {
        let cls = NodeView::CharacterClass { negated: false, chars: seq![chars[i]] };
        assert(bs[i] =~= seq![cls]);
        lemma_singleton_seq_matches(cls, s);
        assert(node_matches(cls, s) == (s.len() == 1 && seq![chars[i]].contains(s[0])));
        assert(seq![chars[i]][0] == chars[i]);
        assert(seq![chars[i]].contains(chars[i]));
        if s.len() == 1 && seq![chars[i]].contains(s[0]) {
            let j = choose|j: int| 0 <= j < seq![chars[i]].len() && seq![chars[i]][j] == s[0];
            assert(s[0] == chars[i]);
        }
    }
    if s.len() == 1 && chars.contains(s[0]) {
        let i = choose|i: int| 0 <= i < chars.len() && chars[i] == s[0];
        assert(bs.len() == chars.len());
        assert(seq_matches(bs[i], s));
        assert(node_matches(alt, s));
    }
    if node_matches(alt, s) {
        let i = choose|i: int| 0 <= i < bs.len() && seq_matches(#[trigger] bs[i], s);
        assert(s.len() == 1 && s[0] == chars[i]);
        assert(chars.contains(s[0]));
    }
}

/// The rewrite of one node is matched by exactly the same segments.
pub proof fn lemma_transform_preserves_node(n: NodeView, s: Seq<char>)
    ensures
        node_matches(sp_transform_node(n), s) == node_matches(n, s),
    decreases n, 0int, s.len(), 0int,
{
    match n {
        NodeView::Literal(c) => {
            let cls = NodeView::CharacterClass { negated: false, chars: seq![c] };
            assert(seq![c][0] == c);
            assert(seq![c].contains(c));
            if s.len() == 1 && seq![c].contains(s[0]) {
                let j = choose|j: int| 0 <= j < seq![c].len() && seq![c][j] == s[0];
                assert(s[0] == c);
            }
            assert(node_matches(cls, s) == node_matches(n, s));
        },
        NodeView::CharacterClass { negated, chars } => {
            if !negated {
                lemma_class_group_matches(chars, s);
            }
        },
        NodeView::Quantified(node, q) => {
            assert(decreases_to!(n => *node));
            lemma_transform_preserves_quant(*node, q, s);
        },
        NodeView::Group(kind, nodes) => {
            assert(decreases_to!(n => nodes));
            lemma_transform_preserves_seq(nodes, s);
        },
        NodeView::Alternation(bs) => {
            lemma_transform_branches(bs);
            let tbs = sp_transform_branches(bs);
            assert(n->Alternation_0 == bs);
            assert(sp_transform_node(n) == NodeView::Alternation(tbs));
            assert(sp_transform_node(n)->Alternation_0 == tbs);
            assert forall|i: int| 0 <= i < bs.len() implies seq_matches(#[trigger] tbs[i], s)
                == seq_matches(bs[i], s) by {
                assert(decreases_to!(n => bs));
                assert(decreases_to!(bs => bs[i]));
                lemma_transform_preserves_seq(bs[i], s);
            }
            assert(tbs.len() == bs.len());
            if node_matches(n, s) {
                let i = choose|i: int| 0 <= i < bs.len() && seq_matches(#[trigger] bs[i], s);
                assert(seq_matches(tbs[i], s));
            }
            if node_matches(sp_transform_node(n), s) {
                let i = choose|i: int| 0 <= i < tbs.len() && seq_matches(#[trigger] tbs[i], s);
                assert(seq_matches(bs[i], s));
            }
        },
        NodeView::Lookaround(kind, nodes) => {},
        NodeView::FlagSet(flags, nodes) => {
            assert(decreases_to!(n => nodes));
            lemma_transform_preserves_seq(nodes, s);
        },
        _ => {},
    }
}

/// The rewrite under any quantifier is matched by exactly the same segments.
proof fn lemma_transform_preserves_quant(child: NodeView, q: Quantifier, s: Seq<char>)
    ensures
        quantifier_matches(sp_transform_node(child), q, s) == quantifier_matches(child, q, s),
    decreases child, 2int, s.len(), 0int,
{
    let tc = sp_transform_node(child);
    match q {
        Quantifier::ZeroOrMore { lazy } => {
            lemma_transform_preserves_star(child, s);
        },
        Quantifier::OneOrMore { lazy } => {
            assert forall|k: int| 0 <= k <= s.len() implies (node_matches(
                tc,
                #[trigger] s.subrange(0, k),
            ) == node_matches(child, s.subrange(0, k)) && star_matches(
                tc,
                s.subrange(k, s.len() as int),
            ) == star_matches(child, s.subrange(k, s.len() as int))) by {
                lemma_transform_preserves_node(child, s.subrange(0, k));
                lemma_transform_preserves_star(child, s.subrange(k, s.len() as int));
            }
            assert(quantifier_matches(tc, q, s) == quantifier_matches(child, q, s));
        },
        Quantifier::ZeroOrOne { lazy } => {
            lemma_transform_preserves_node(child, s);
        },
        Quantifier::Exactly(nrep) => {
            lemma_transform_preserves_rep(child, nrep as nat, s);
        },
        Quantifier::AtLeast(nrep) => {
            assert forall|k: int| 0 <= k <= s.len() implies (rep_matches(
                tc,
                nrep as nat,
                #[trigger] s.subrange(0, k),
            ) == rep_matches(child, nrep as nat, s.subrange(0, k)) && star_matches(
                tc,
                s.subrange(k, s.len() as int),
            ) == star_matches(child, s.subrange(k, s.len() as int))) by {
                lemma_transform_preserves_rep(child, nrep as nat, s.subrange(0, k));
                lemma_transform_preserves_star(child, s.subrange(k, s.len() as int));
            }
            assert(quantifier_matches(tc, q, s) == quantifier_matches(child, q, s));
        },
        Quantifier::Range { min, max } => {
            assert forall|k: int| 0 <= k <= s.len() implies (rep_matches(
                tc,
                min as nat,
                #[trigger] s.subrange(0, k),
            ) == rep_matches(child, min as nat, s.subrange(0, k)) && rep_upto(
                tc,
                (max - min) as nat,
                s.subrange(k, s.len() as int),
            ) == rep_upto(child, (max - min) as nat, s.subrange(k, s.len() as int))) by {
                lemma_transform_preserves_rep(child, min as nat, s.subrange(0, k));
                lemma_transform_preserves_upto(
                    child,
                    (max - min) as nat,
                    s.subrange(k, s.len() as int),
                );
            }
            assert(quantifier_matches(tc, q, s) == quantifier_matches(child, q, s));
        },
    }
}

/// The rewrite under a star is matched by exactly the same segments.
proof fn lemma_transform_preserves_star(child: NodeView, s: Seq<char>)
    ensures
        star_matches(sp_transform_node(child), s) == star_matches(child, s),
    decreases child, 1int, s.len(), 0int,
{
    let tc = sp_transform_node(child);
    assert forall|k: int| 1 <= k <= s.len() implies (node_matches(
        tc,
        #[trigger] s.subrange(0, k),
    ) == node_matches(child, s.subrange(0, k)) && star_matches(
        tc,
        s.subrange(k, s.len() as int),
    ) == star_matches(child, s.subrange(k, s.len() as int))) by {
        lemma_transform_preserves_node(child, s.subrange(0, k));
        lemma_transform_preserves_star(child, s.subrange(k, s.len() as int));
    }
    assert(star_matches(tc, s) == star_matches(child, s));
}

/// The rewrite under an exact repetition is matched by exactly the same
/// segments.
proof fn lemma_transform_preserves_rep(child: NodeView, cnt: nat, s: Seq<char>)
    ensures
        rep_matches(sp_transform_node(child), cnt, s) == rep_matches(child, cnt, s),
    decreases child, 1int, s.len(), cnt,
{
    let tc = sp_transform_node(child);
    if cnt > 0 {
        assert forall|k: int| 0 <= k <= s.len() implies (node_matches(
            tc,
            #[trigger] s.subrange(0, k),
        ) == node_matches(child, s.subrange(0, k)) && rep_matches(
            tc,
            (cnt - 1) as nat,
            s.subrange(k, s.len() as int),
        ) == rep_matches(child, (cnt - 1) as nat, s.subrange(k, s.len() as int))) by {
            lemma_transform_preserves_node(child, s.subrange(0, k));
            if k == 0 {
                assert(s.subrange(0, s.len() as int) =~= s);
            }
            lemma_transform_preserves_rep(child, (cnt - 1) as nat, s.subrange(k, s.len() as int));
        }
        assert(rep_matches(tc, cnt, s) == rep_matches(child, cnt, s));
    }
}

/// The rewrite under a bounded repetition is matched by exactly the same
/// segments.
proof fn lemma_transform_preserves_upto(child: NodeView, bound: nat, s: Seq<char>)
    ensures
        rep_upto(sp_transform_node(child), bound, s) == rep_upto(child, bound, s),
    decreases child, 1int, s.len(), bound,
{
    let tc = sp_transform_node(child);
    if s.len() > 0 && bound > 0 {
        assert forall|k: int| 1 <= k <= s.len() implies (node_matches(
            tc,
            #[trigger] s.subrange(0, k),
        ) == node_matches(child, s.subrange(0, k)) && rep_upto(
            tc,
            (bound - 1) as nat,
            s.subrange(k, s.len() as int),
        ) == rep_upto(child, (bound - 1) as nat, s.subrange(k, s.len() as int))) by {
            lemma_transform_preserves_node(child, s.subrange(0, k));
            lemma_transform_preserves_upto(
                child,
                (bound - 1) as nat,
                s.subrange(k, s.len() as int),
            );
        }
        assert(rep_upto(tc, bound, s) == rep_upto(child, bound, s));
    }
}

/// Semantic preservation: for every tree and every subject segment, the
/// reference matcher agrees on the tree and on its rewrite.
pub proof fn lemma_transform_preserves_seq(ns: Seq<NodeView>, s: Seq<char>)
    ensures
        seq_matches(sp_transform_nodes(ns), s) == seq_matches(ns, s),
    decreases ns, 0int, s.len(), 0int,
{
    lemma_transform_nodes(ns);
    let tns = sp_transform_nodes(ns);
    if ns.len() > 0 {
        lemma_transform_nodes(ns.drop_first());
        assert(tns.drop_first() =~= sp_transform_nodes(ns.drop_first()));
        assert(tns[0] == sp_transform_node(ns[0]));
        assert forall|k: int| 0 <= k <= s.len() implies (node_matches(
            tns[0],
            #[trigger] s.subrange(0, k),
        ) == node_matches(ns[0], s.subrange(0, k)) && seq_matches(
            tns.drop_first(),
            s.subrange(k, s.len() as int),
        ) == seq_matches(ns.drop_first(), s.subrange(k, s.len() as int))) by {
            assert(decreases_to!(ns => ns[0]));
            lemma_transform_preserves_node(ns[0], s.subrange(0, k));
            lemma_transform_preserves_seq(ns.drop_first(), s.subrange(k, s.len() as int));
        }
        assert(seq_matches(tns, s) == seq_matches(ns, s));
    }
}

} // verus!
