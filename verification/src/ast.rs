//! The tree model of a parsed pattern: a pattern is an ordered sequence of
//! nodes, each node one of the variants below. Nodes own their children, so a
//! tree is strictly hierarchical. The mathematical abstraction of a node is
//! [`NodeView`], in which child vectors become sequences and strings become
//! sequences of characters.

use vstd::prelude::*;

verus! {

/// One node of a parsed pattern.
#[derive(Debug, PartialEq)]
pub enum RegexNode {
    /// Matches exactly one given character.
    Literal(char),
    /// Matches any (or, when negated, none) of the listed characters.
    CharacterClass { negated: bool, chars: Vec<char> },
    /// Matches any character (subject to flags).
    Dot,
    /// Zero-width position assertion.
    Anchor(AnchorType),
    /// Zero-width word/non-word transition assertion.
    WordBoundary,
    /// Repetition of the owned child node.
    Quantified { node: Box<RegexNode>, quantifier: Quantifier },
    /// Capturing, named or non-capturing grouping construct.
    Group(GroupKind, Vec<RegexNode>),
    /// Reference to an earlier capturing group's match.
    Backreference(BackreferenceKind),
    /// Predefined class or control-character escape.
    CharacterType(CharacterTypeKind),
    /// Unicode general-category class.
    UnicodeCategory { negated: bool, category: UnicodeCategoryKind },
    /// First-match-wins choice among two or more branch sequences.
    Alternation(Vec<Vec<RegexNode>>),
    /// Zero-width assertion on adjacent text.
    Lookaround(LookaroundKind, Box<Vec<RegexNode>>),
    /// Scoped or trailing inline-flag application.
    FlagSet(RegexFlags, Box<Vec<RegexNode>>),
}

/// The inline flags a pattern can set; nested sets combine by logical OR.
#[derive(Debug, Clone, Copy, PartialEq)]
pub struct RegexFlags {
    pub case_insensitive: bool,
    pub multiline: bool,
    pub dot_all: bool,
}

/// Predefined character classes and control-character escapes.
#[derive(Debug, Clone, Copy, PartialEq)]
pub enum CharacterTypeKind {
    Word,
    NotWord,
    Digit,
    NotDigit,
    Whitespace,
    NotWhitespace,
    EscapedChar(EscapedChar),
}

/// Control-character escapes and numeric code-point escapes.
#[derive(Debug, Clone, Copy, PartialEq)]
pub enum EscapedChar {
    Tab,
    NewLine,
    CarriageReturn,
    FormFeed,
    VerticalTab,
    Null,
    /// A code point given as exactly two hexadecimal digits.
    Hex(u32),
    /// A code point given as one to six hexadecimal digits in braces.
    Unicode(u32),
}

/// Unicode general categories.
#[derive(Debug, Clone, Copy, PartialEq)]
pub enum UnicodeCategoryKind {
    Letter,
    Number,
    Punctuation,
    Symbol,
    Mark,
    Separator,
    Other,
}

/// Whether a group captures, and under which name.
#[derive(Debug, Clone, PartialEq)]
pub enum GroupKind {
    /// `None` for an unnamed group, `Some(name)` for a named one.
    Capturing(Option<String>),
    NonCapturing,
}

/// How a backreference designates its group.
#[derive(Debug, Clone, PartialEq)]
pub enum BackreferenceKind {
    NumberBased(usize),
    NameBased(String),
}

/// Zero-width position assertions.
#[derive(Debug, Clone, Copy, PartialEq)]
pub enum AnchorType {
    Start,
    End,
}

/// Repetition operators.
#[derive(Debug, Clone, Copy, PartialEq)]
pub enum Quantifier {
    ZeroOrMore { lazy: bool },
    OneOrMore { lazy: bool },
    ZeroOrOne { lazy: bool },
    Exactly(usize),
    AtLeast(usize),
    Range { min: usize, max: usize },
}

/// The four lookaround assertions.
#[derive(Debug, Clone, Copy, PartialEq)]
pub enum LookaroundKind {
    PositiveLookahead,
    NegativeLookahead,
    PositiveLookbehind,
    NegativeLookbehind,
}

// ---------------------------------------------------------------------------
// Mathematical abstraction
// ---------------------------------------------------------------------------

/// The abstraction of a [`GroupKind`]: names become character sequences.
pub enum GroupKindView {
    Capturing(Option<Seq<char>>),
    NonCapturing,
}

/// The abstraction of a [`BackreferenceKind`].
pub enum BackrefView {
    NumberBased(usize),
    NameBased(Seq<char>),
}

/// The abstraction of a [`RegexNode`]: child vectors become sequences.
#[verifier::ext_equal]
pub enum NodeView {
    Literal(char),
    CharacterClass { negated: bool, chars: Seq<char> },
    Dot,
    Anchor(AnchorType),
    WordBoundary,
    Quantified(Box<NodeView>, Quantifier),
    Group(GroupKindView, Seq<NodeView>),
    Backreference(BackrefView),
    CharacterType(CharacterTypeKind),
    UnicodeCategory { negated: bool, category: UnicodeCategoryKind },
    Alternation(Seq<Seq<NodeView>>),
    Lookaround(LookaroundKind, Seq<NodeView>),
    FlagSet(RegexFlags, Seq<NodeView>),
}

pub open spec fn group_kind_view(k: GroupKind) -> GroupKindView {
    match k {
        GroupKind::Capturing(None) => GroupKindView::Capturing(None),
        GroupKind::Capturing(Some(name)) => GroupKindView::Capturing(Some(name@)),
        GroupKind::NonCapturing => GroupKindView::NonCapturing,
    }
}

pub open spec fn backref_view(b: BackreferenceKind) -> BackrefView {
    match b {
        BackreferenceKind::NumberBased(n) => BackrefView::NumberBased(n),
        BackreferenceKind::NameBased(name) => BackrefView::NameBased(name@),
    }
}

pub open spec fn node_view(n: RegexNode) -> NodeView
    decreases n,
{
    match n {
        RegexNode::Literal(c) => NodeView::Literal(c),
        RegexNode::CharacterClass { negated, chars } => NodeView::CharacterClass {
            negated,
            chars: chars@,
        },
        RegexNode::Dot => NodeView::Dot,
        RegexNode::Anchor(a) => NodeView::Anchor(a),
        RegexNode::WordBoundary => NodeView::WordBoundary,
        RegexNode::Quantified { node, quantifier } => NodeView::Quantified(
            Box::new(node_view(*node)),
            quantifier,
        ),
        RegexNode::Group(kind, nodes) => NodeView::Group(group_kind_view(kind), nodes_view(nodes@)),
        RegexNode::Backreference(b) => NodeView::Backreference(backref_view(b)),
        RegexNode::CharacterType(k) => NodeView::CharacterType(k),
        RegexNode::UnicodeCategory { negated, category } => NodeView::UnicodeCategory {
            negated,
            category,
        },
        RegexNode::Alternation(alts) => NodeView::Alternation(branches_view(alts@)),
        RegexNode::Lookaround(kind, nodes) => NodeView::Lookaround(kind, nodes_view(nodes@)),
        RegexNode::FlagSet(flags, nodes) => NodeView::FlagSet(flags, nodes_view(nodes@)),
    }
}

/// The abstraction of a node sequence, element by element.
pub open spec fn nodes_view(s: Seq<RegexNode>) -> Seq<NodeView>
    decreases s,
{
    if s.len() == 0 {
        Seq::empty()
    } else {
        nodes_view(s.drop_last()).push(node_view(s.last()))
    }
}

/// The abstraction of a list of alternation branches.
pub open spec fn branches_view(s: Seq<Vec<RegexNode>>) -> Seq<Seq<NodeView>>
    decreases s,
{
    if s.len() == 0 {
        Seq::empty()
    } else {
        branches_view(s.drop_last()).push(nodes_view(s.last()@))
    }
}

impl View for RegexNode {
    type V = NodeView;

    open spec fn view(&self) -> NodeView {
        node_view(*self)
    }
}

/// `nodes_view` maps the sequence element by element.
pub proof fn lemma_nodes_view(s: Seq<RegexNode>)
    ensures
        nodes_view(s).len() == s.len(),
        forall|i: int| 0 <= i < s.len() ==> nodes_view(s)[i] == node_view(s[i]),
    decreases s,
{
    if s.len() > 0 {
        lemma_nodes_view(s.drop_last());
    }
}

/// `branches_view` maps the sequence element by element.
pub proof fn lemma_branches_view(s: Seq<Vec<RegexNode>>)
    ensures
        branches_view(s).len() == s.len(),
        forall|i: int| 0 <= i < s.len() ==> branches_view(s)[i] == nodes_view(s[i]@),
    decreases s,
{
    if s.len() > 0 {
        lemma_branches_view(s.drop_last());
    }
}

/// The data-model invariant of one node: an alternation never has fewer
/// than two branches and no branch of it is empty, recursively.
pub open spec fn node_wf(n: NodeView) -> bool
    decreases n,
{
    match n {
        NodeView::Quantified(node, q) => node_wf(*node),
        NodeView::Group(kind, nodes) => nodes_wf(nodes),
        NodeView::Alternation(bs) => bs.len() >= 2 && branches_wf(bs),
        NodeView::Lookaround(kind, nodes) => nodes_wf(nodes),
        NodeView::FlagSet(flags, nodes) => nodes_wf(nodes),
        _ => true,
    }
}

/// The data-model invariant of a node sequence, element by element.
pub open spec fn nodes_wf(ns: Seq<NodeView>) -> bool
    decreases ns,
{
    if ns.len() == 0 {
        true
    } else {
        nodes_wf(ns.drop_last()) && node_wf(ns.last())
    }
}

/// The data-model invariant of an alternation's branches: none is empty.
pub open spec fn branches_wf(bs: Seq<Seq<NodeView>>) -> bool
    decreases bs,
{
    if bs.len() == 0 {
        true
    } else {
        branches_wf(bs.drop_last()) && bs.last().len() > 0 && nodes_wf(bs.last())
    }
}

/// `nodes_wf` holds exactly when every element is well-formed.
pub proof fn lemma_nodes_wf_index(ns: Seq<NodeView>)
    ensures
        nodes_wf(ns) <==> (forall|i: int| 0 <= i < ns.len() ==> node_wf(#[trigger] ns[i])),
    decreases ns.len(),
{
    if ns.len() > 0 {
        lemma_nodes_wf_index(ns.drop_last());
        if nodes_wf(ns) {
            assert forall|i: int| 0 <= i < ns.len() implies node_wf(#[trigger] ns[i]) by {
                if i < ns.len() - 1 {
                    assert(node_wf(ns.drop_last()[i]));
                }
            }
        }
        if forall|i: int| 0 <= i < ns.len() ==> node_wf(#[trigger] ns[i]) {
            assert forall|i: int| 0 <= i < ns.drop_last().len() implies node_wf(
                #[trigger] ns.drop_last()[i],
            ) by {
                assert(ns.drop_last()[i] == ns[i]);
            }
            assert(node_wf(ns.last()));
        }
    }
}

/// `branches_wf` holds exactly when every branch is non-empty and
/// well-formed.
pub proof fn lemma_branches_wf_index(bs: Seq<Seq<NodeView>>)
    ensures
        branches_wf(bs) <==> (forall|i: int|
            0 <= i < bs.len() ==> #[trigger] bs[i].len() > 0 && nodes_wf(bs[i])),
    decreases bs.len(),
{
    if bs.len() > 0 {
        lemma_branches_wf_index(bs.drop_last());
        if branches_wf(bs) {
            assert forall|i: int| 0 <= i < bs.len() implies #[trigger] bs[i].len() > 0
                && nodes_wf(bs[i]) by {
                if i < bs.len() - 1 {
                    assert(bs.drop_last()[i].len() > 0 && nodes_wf(bs.drop_last()[i]));
                }
            }
        }
        if forall|i: int| 0 <= i < bs.len() ==> #[trigger] bs[i].len() > 0 && nodes_wf(bs[i]) {
            assert forall|i: int| 0 <= i < bs.drop_last().len() implies #[trigger] bs.drop_last()[i].len()
                > 0 && nodes_wf(bs.drop_last()[i]) by {
                assert(bs.drop_last()[i] == bs[i]);
            }
            assert(bs.last().len() > 0 && nodes_wf(bs.last()));
        }
    }
}

impl RegexNode {
    pub fn new_literal(c: char) -> (r: Self)
        ensures
            r@ == NodeView::Literal(c),
    {
        RegexNode::Literal(c)
    }

    pub fn new_char_class(chars: Vec<char>, negated: bool) -> (r: Self)
        ensures
            r@ == (NodeView::CharacterClass { negated, chars: chars@ }),
    {
        RegexNode::CharacterClass { chars, negated }
    }

    pub fn new_anchor(anchor_type: AnchorType) -> (r: Self)
        ensures
            r@ == NodeView::Anchor(anchor_type),
    {
        RegexNode::Anchor(anchor_type)
    }

    pub fn with_quantifier(self, quantifier: Quantifier) -> (r: Self)
        ensures
            r@ == NodeView::Quantified(Box::new(self@), quantifier),
    {
        RegexNode::Quantified { node: Box::new(self), quantifier }
    }

    pub fn new_group(kind: GroupKind, nodes: Vec<RegexNode>) -> (r: Self)
        ensures
            r@ == NodeView::Group(group_kind_view(kind), nodes_view(nodes@)),
    {
        RegexNode::Group(kind, nodes)
    }

    pub fn new_backreference(kind: BackreferenceKind) -> (r: Self)
        ensures
            r@ == NodeView::Backreference(backref_view(kind)),
    {
        RegexNode::Backreference(kind)
    }

    pub fn new_character_type(kind: CharacterTypeKind) -> (r: Self)
        ensures
            r@ == NodeView::CharacterType(kind),
    {
        RegexNode::CharacterType(kind)
    }

    pub fn new_unicode_category(category: UnicodeCategoryKind, negated: bool) -> (r: Self)
        ensures
            r@ == (NodeView::UnicodeCategory { negated, category }),
    {
        RegexNode::UnicodeCategory { category, negated }
    }

    pub fn new_alternation(alternatives: Vec<Vec<RegexNode>>) -> (r: Self)
        ensures
            r@ == NodeView::Alternation(branches_view(alternatives@)),
    {
        RegexNode::Alternation(alternatives)
    }

    pub fn new_lookaround(kind: LookaroundKind, nodes: Vec<RegexNode>) -> (r: Self)
        ensures
            r@ == NodeView::Lookaround(kind, nodes_view(nodes@)),
    {
        RegexNode::Lookaround(kind, Box::new(nodes))
    }

    pub fn new_flag_set(flags: RegexFlags, nodes: Vec<RegexNode>) -> (r: Self)
        ensures
            r@ == NodeView::FlagSet(flags, nodes_view(nodes@)),
    {
        RegexNode::FlagSet(flags, Box::new(nodes))
    }
}

/// The flag set in which no flag is enabled.
pub open spec fn no_flags() -> RegexFlags {
    RegexFlags { case_insensitive: false, multiline: false, dot_all: false }
}

/// What [`RegexFlags::from_char`] returns: the single flag a letter stands
/// for, or `None` for an unrecognized letter.
pub open spec fn flags_from_char(c: char) -> Option<RegexFlags> {
    if c == 'i' {
        Some(RegexFlags { case_insensitive: true, multiline: false, dot_all: false })
    } else if c == 'm' {
        Some(RegexFlags { case_insensitive: false, multiline: true, dot_all: false })
    } else if c == 's' {
        Some(RegexFlags { case_insensitive: false, multiline: false, dot_all: true })
    } else {
        None
    }
}

/// What [`RegexFlags::merge`] returns: the field-wise OR of two flag sets.
pub open spec fn merge_flags(a: RegexFlags, b: RegexFlags) -> RegexFlags {
    RegexFlags {
        case_insensitive: a.case_insensitive || b.case_insensitive,
        multiline: a.multiline || b.multiline,
        dot_all: a.dot_all || b.dot_all,
    }
}

impl Default for RegexFlags {
    /// The default flag set has every flag disabled.
    fn default() -> (r: Self)
        ensures
            r == no_flags(),
    {
        RegexFlags { case_insensitive: false, multiline: false, dot_all: false }
    }
}

impl RegexFlags {
    pub fn new() -> (r: Self)
        ensures
            r == no_flags(),
    {
        RegexFlags::default()
    }

    /// Recognizes `i`, `m` and `s`; any other letter is no flag.
    pub fn from_char(c: char) -> (r: Option<RegexFlags>)
        ensures
            r == flags_from_char(c),
    {
        let mut flags = RegexFlags::new();
        match c {
            'i' => flags.case_insensitive = true,
            'm' => flags.multiline = true,
            's' => flags.dot_all = true,
            _ => {
                return None;
            },
        }
        Some(flags)
    }

    /// Combines two flag sets by logical OR, field by field.
    pub fn merge(&self, other: &RegexFlags) -> (r: RegexFlags)
        ensures
            r == merge_flags(*self, *other),
    {
        RegexFlags {
            case_insensitive: self.case_insensitive || other.case_insensitive,
            multiline: self.multiline || other.multiline,
            dot_all: self.dot_all || other.dot_all,
        }
    }
}

} // verus!
