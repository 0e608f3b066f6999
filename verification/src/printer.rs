//! The printer: renders a tree back to pattern text. Every variant has one
//! canonical, non-empty rendering; the escape-mode flag only controls how the
//! characters of a `Literal` or of a `CharacterClass` member are rendered
//! (verbatim, or as a `\u{HEX}` escape of the code point).

use vstd::prelude::*;

use crate::ast::{
    node_view, nodes_view, AnchorType, BackrefView, BackreferenceKind, CharacterTypeKind,
    EscapedChar, GroupKind, GroupKindView, LookaroundKind, NodeView, Quantifier, RegexFlags,
    RegexNode, UnicodeCategoryKind,
};
use crate::text::chars_to_string;

verus! {

/// The decimal digit characters.
pub open spec fn dec_char(d: nat) -> char {
    if d == 0 {
        '0'
    } else if d == 1 {
        '1'
    } else if d == 2 {
        '2'
    } else if d == 3 {
        '3'
    } else if d == 4 {
        '4'
    } else if d == 5 {
        '5'
    } else if d == 6 {
        '6'
    } else if d == 7 {
        '7'
    } else if d == 8 {
        '8'
    } else {
        '9'
    }
}

/// The uppercase hexadecimal digit characters.
pub open spec fn hex_char(d: nat) -> char {
    if d < 10 {
        dec_char(d)
    } else if d == 10 {
        'A'
    } else if d == 11 {
        'B'
    } else if d == 12 {
        'C'
    } else if d == 13 {
        'D'
    } else if d == 14 {
        'E'
    } else {
        'F'
    }
}

/// The decimal rendering of `n`, without leading zeros (`0` for zero).
pub open spec fn dec_str(n: nat) -> Seq<char>
    decreases n,
{
    if n < 10 {
        seq![dec_char(n)]
    } else {
        dec_str(n / 10).push(dec_char(n % 10))
    }
}

/// The uppercase hexadecimal rendering of `n`, without leading zeros.
pub open spec fn hex_str(n: nat) -> Seq<char>
    decreases n,
{
    if n < 16 {
        seq![hex_char(n)]
    } else {
        hex_str(n / 16).push(hex_char(n % 16))
    }
}

/// The uppercase hexadecimal rendering of `n`, zero-padded to two digits.
pub open spec fn hex2_str(n: nat) -> Seq<char> {
    if n < 16 {
        seq!['0', hex_char(n)]
    } else {
        hex_str(n)
    }
}

/// How one source character renders: verbatim, or as a `\u{HEX}` escape of
/// its code point when escape mode is on.
pub open spec fn sp_print_char(c: char, esc: bool) -> Seq<char> {
    if esc {
        seq!['\\', 'u', '{'] + hex_str(c as u32 as nat) + seq!['}']
    } else {
        seq![c]
    }
}

/// The members of a character class, each rendered by [`sp_print_char`].
pub open spec fn sp_print_class_chars(chars: Seq<char>, esc: bool) -> Seq<char>
    decreases chars,
{
    if chars.len() == 0 {
        Seq::empty()
    } else {
        sp_print_class_chars(chars.drop_last(), esc) + sp_print_char(chars.last(), esc)
    }
}

/// The canonical rendering of a quantifier.
pub open spec fn sp_print_quantifier(q: Quantifier) -> Seq<char> {
    match q {
        Quantifier::ZeroOrMore { lazy } => if lazy {
            seq!['*', '?']
        } else {
            seq!['*']
        },
        Quantifier::OneOrMore { lazy } => if lazy {
            seq!['+', '?']
        } else {
            seq!['+']
        },
        Quantifier::ZeroOrOne { lazy } => if lazy {
            seq!['?', '?']
        } else {
            seq!['?']
        },
        Quantifier::Exactly(n) => seq!['{'] + dec_str(n as nat) + seq!['}'],
        Quantifier::AtLeast(n) => seq!['{'] + dec_str(n as nat) + seq![',', '}'],
        Quantifier::Range { min, max } => seq!['{'] + dec_str(min as nat) + seq![','] + dec_str(
            max as nat,
        ) + seq!['}'],
    }
}

/// The canonical rendering of a control-character or code-point escape.
pub open spec fn sp_print_escaped(e: EscapedChar) -> Seq<char> {
    match e {
        EscapedChar::Tab => seq!['\\', 't'],
        EscapedChar::NewLine => seq!['\\', 'n'],
        EscapedChar::CarriageReturn => seq!['\\', 'r'],
        EscapedChar::FormFeed => seq!['\\', 'f'],
        EscapedChar::VerticalTab => seq!['\\', 'v'],
        EscapedChar::Null => seq!['\\', '0'],
        EscapedChar::Hex(n) => seq!['\\', 'x'] + hex2_str(n as nat),
        EscapedChar::Unicode(n) => seq!['\\', 'u', '{'] + hex_str(n as nat) + seq!['}'],
    }
}

/// The canonical rendering of a predefined class or escape.
pub open spec fn sp_print_ctype(k: CharacterTypeKind) -> Seq<char> {
    match k {
        CharacterTypeKind::Word => seq!['\\', 'w'],
        CharacterTypeKind::NotWord => seq!['\\', 'W'],
        CharacterTypeKind::Digit => seq!['\\', 'd'],
        CharacterTypeKind::NotDigit => seq!['\\', 'D'],
        CharacterTypeKind::Whitespace => seq!['\\', 's'],
        CharacterTypeKind::NotWhitespace => seq!['\\', 'S'],
        CharacterTypeKind::EscapedChar(e) => sp_print_escaped(e),
    }
}

/// The one-letter name of a Unicode general category.
pub open spec fn sp_category_letter(c: UnicodeCategoryKind) -> char {
    match c {
        UnicodeCategoryKind::Letter => 'L',
        UnicodeCategoryKind::Number => 'N',
        UnicodeCategoryKind::Punctuation => 'P',
        UnicodeCategoryKind::Symbol => 'S',
        UnicodeCategoryKind::Mark => 'M',
        UnicodeCategoryKind::Separator => 'Z',
        UnicodeCategoryKind::Other => 'C',
    }
}

/// The letters of the flags enabled in a flag set, in the order `i`, `m`,
/// `s`.
pub open spec fn sp_flag_letters(f: RegexFlags) -> Seq<char> {
    (if f.case_insensitive {
        seq!['i']
    } else {
        Seq::empty()
    }) + (if f.multiline {
        seq!['m']
    } else {
        Seq::empty()
    }) + (if f.dot_all {
        seq!['s']
    } else {
        Seq::empty()
    })
}

/// The opening of a lookaround assertion.
pub open spec fn sp_lookaround_opening(k: LookaroundKind) -> Seq<char> {
    match k {
        LookaroundKind::PositiveLookahead => seq!['(', '?', '='],
        LookaroundKind::NegativeLookahead => seq!['(', '?', '!'],
        LookaroundKind::PositiveLookbehind => seq!['(', '?', '<', '='],
        LookaroundKind::NegativeLookbehind => seq!['(', '?', '<', '!'],
    }
}

/// The canonical rendering of one node.
pub open spec fn sp_print_node(n: NodeView, esc: bool) -> Seq<char>
    decreases n,
{
    match n {
        NodeView::Literal(c) => sp_print_char(c, esc),
        NodeView::CharacterClass { negated, chars } => seq!['['] + (if negated {
            seq!['^']
        } else {
            Seq::empty()
        }) + sp_print_class_chars(chars, esc) + seq![']'],
        NodeView::Dot => seq!['.'],
        NodeView::Anchor(a) => match a {
            AnchorType::Start => seq!['^'],
            AnchorType::End => seq!['$'],
        },
        NodeView::WordBoundary => seq!['\\', 'b'],
        NodeView::Quantified(node, q) => sp_print_node(*node, esc) + sp_print_quantifier(q),
        NodeView::Group(kind, nodes) => match kind {
            GroupKindView::Capturing(None) => seq!['('] + sp_print_nodes(nodes, esc) + seq![')'],
            GroupKindView::Capturing(Some(name)) => seq!['(', '?', '<'] + name + seq!['>']
                + sp_print_nodes(nodes, esc) + seq![')'],
            GroupKindView::NonCapturing => seq!['(', '?', ':'] + sp_print_nodes(nodes, esc)
                + seq![')'],
        },
        NodeView::Backreference(b) => match b {
            BackrefView::NumberBased(k) => seq!['\\'] + dec_str(k as nat),
            BackrefView::NameBased(name) => seq!['\\', 'k', '<'] + name + seq!['>'],
        },
        NodeView::CharacterType(k) => sp_print_ctype(k),
        NodeView::UnicodeCategory { negated, category } => seq![
            '\\',
            if negated {
                'P'
            } else {
                'p'
            },
            '{',
            sp_category_letter(category),
            '}',
        ],
        NodeView::Alternation(branches) => sp_print_branches(branches, esc),
        NodeView::Lookaround(kind, nodes) => sp_lookaround_opening(kind) + sp_print_nodes(
            nodes,
            esc,
        ) + seq![')'],
        NodeView::FlagSet(flags, nodes) => seq!['(', '?'] + sp_flag_letters(flags) + seq![':']
            + sp_print_nodes(nodes, esc) + seq![')'],
    }
}

/// A node sequence renders as the concatenation of its nodes' renderings,
/// with nothing in between.
pub open spec fn sp_print_nodes(ns: Seq<NodeView>, esc: bool) -> Seq<char>
    decreases ns,
{
    if ns.len() == 0 {
        Seq::empty()
    } else {
        sp_print_nodes(ns.drop_last(), esc) + sp_print_node(ns.last(), esc)
    }
}

/// Alternation branches render joined by `|`.
pub open spec fn sp_print_branches(bs: Seq<Seq<NodeView>>, esc: bool) -> Seq<char>
    decreases bs,
{
    if bs.len() == 0 {
        Seq::empty()
    } else if bs.len() == 1 {
        sp_print_nodes(bs[0], esc)
    } else {
        sp_print_branches(bs.drop_last(), esc) + seq!['|'] + sp_print_nodes(bs.last(), esc)
    }
}

/// Every well-formed node renders as non-empty text, under either escape
/// mode.
pub proof fn lemma_print_node_nonempty(n: NodeView, esc: bool)
    requires
        crate::ast::node_wf(n),
    ensures
        sp_print_node(n, esc).len() > 0,
    decreases n,
{
    match n {
        NodeView::Quantified(node, q) => {
            lemma_print_node_nonempty(*node, esc);
        },
        NodeView::Alternation(bs) => {
            assert(bs.len() >= 2);
            assert(sp_print_branches(bs, esc) == sp_print_branches(bs.drop_last(), esc)
                + seq!['|'] + sp_print_nodes(bs.last(), esc));
        },
        _ => {},
    }
}

// ---------------------------------------------------------------------------
// The executable printer
// ---------------------------------------------------------------------------

/// Renders trees back to pattern text under a fixed escape mode.
pub struct Printer {
    use_unicode_escapes: bool,
}

/// Appends one decimal digit character.
fn push_dec_char(d: usize, out: &mut Vec<char>)
    requires
        d < 10,
    ensures
        final(out)@ == old(out)@.push(dec_char(d as nat)),
{
    let c = match d {
        0 => '0',
        1 => '1',
        2 => '2',
        3 => '3',
        4 => '4',
        5 => '5',
        6 => '6',
        7 => '7',
        8 => '8',
        _ => '9',
    };
    out.push(c);
}

/// Appends one uppercase hexadecimal digit character.
fn push_hex_char(d: u32, out: &mut Vec<char>)
    requires
        d < 16,
    ensures
        final(out)@ == old(out)@.push(hex_char(d as nat)),
{
    let c = match d {
        0 => '0',
        1 => '1',
        2 => '2',
        3 => '3',
        4 => '4',
        5 => '5',
        6 => '6',
        7 => '7',
        8 => '8',
        9 => '9',
        10 => 'A',
        11 => 'B',
        12 => 'C',
        13 => 'D',
        14 => 'E',
        _ => 'F',
    };
    out.push(c);
}

/// Appends the decimal rendering of `n`.
fn push_dec(n: usize, out: &mut Vec<char>)
    ensures
        final(out)@ == old(out)@ + dec_str(n as nat),
    decreases n,
{
    if n < 10 {
        push_dec_char(n, out);
        proof {
            assert(final(out)@ =~= old(out)@ + dec_str(n as nat));
        }
    } else {
        push_dec(n / 10, out);
        push_dec_char(n % 10, out);
        proof {
            assert(final(out)@ =~= old(out)@ + dec_str(n as nat));
        }
    }
}

/// Appends the uppercase hexadecimal rendering of `n`.
fn push_hex(n: u32, out: &mut Vec<char>)
    ensures
        final(out)@ == old(out)@ + hex_str(n as nat),
    decreases n,
{
    if n < 16 {
        push_hex_char(n, out);
        proof {
            assert(final(out)@ =~= old(out)@ + hex_str(n as nat));
        }
    } else {
        push_hex(n / 16, out);
        push_hex_char(n % 16, out);
        proof {
            assert(final(out)@ =~= old(out)@ + hex_str(n as nat));
        }
    }
}

/// Appends the two-digit-padded hexadecimal rendering of `n`.
fn push_hex2(n: u32, out: &mut Vec<char>)
    ensures
        final(out)@ == old(out)@ + hex2_str(n as nat),
{
    if n < 16 {
        out.push('0');
        push_hex_char(n, out);
        proof {
            assert(final(out)@ =~= old(out)@ + hex2_str(n as nat));
        }
    } else {
        push_hex(n, out);
    }
}

impl Printer {
    /// Whether this printer renders source characters as `\u{HEX}` escapes.
    pub closed spec fn escapes(&self) -> bool {
        self.use_unicode_escapes
    }

    pub fn new(use_unicode_escapes: bool) -> (p: Printer)
        ensures
            p.escapes() == use_unicode_escapes,
    {
        Printer { use_unicode_escapes }
    }

    /// Appends the rendering of one source character.
    fn print_char(&self, c: char, out: &mut Vec<char>)
        ensures
            final(out)@ == old(out)@ + sp_print_char(c, self.escapes()),
    {
        if self.use_unicode_escapes {
            out.push('\\');
            out.push('u');
            out.push('{');
            push_hex(c as u32, out);
            out.push('}');
            proof {
                assert(final(out)@ =~= old(out)@ + sp_print_char(c, self.escapes()));
            }
        } else {
            out.push(c);
            proof {
                assert(final(out)@ =~= old(out)@ + sp_print_char(c, self.escapes()));
            }
        }
    }

    /// Appends the canonical rendering of a quantifier.
    fn print_quantifier(&self, q: &Quantifier, out: &mut Vec<char>)
        ensures
            final(out)@ == old(out)@ + sp_print_quantifier(*q),
    {
        match q {
            Quantifier::ZeroOrMore { lazy } => {
                out.push('*');
                if *lazy {
                    out.push('?');
                }
            },
            Quantifier::OneOrMore { lazy } => {
                out.push('+');
                if *lazy {
                    out.push('?');
                }
            },
            Quantifier::ZeroOrOne { lazy } => {
                out.push('?');
                if *lazy {
                    out.push('?');
                }
            },
            Quantifier::Exactly(n) => {
                out.push('{');
                push_dec(*n, out);
                out.push('}');
            },
            Quantifier::AtLeast(n) => {
                out.push('{');
                push_dec(*n, out);
                out.push(',');
                out.push('}');
            },
            Quantifier::Range { min, max } => {
                out.push('{');
                push_dec(*min, out);
                out.push(',');
                push_dec(*max, out);
                out.push('}');
            },
        }
        proof {
            assert(final(out)@ =~= old(out)@ + sp_print_quantifier(*q));
        }
    }

    /// Appends the canonical rendering of a control or code-point escape.
    fn print_escaped_char(&self, e: &EscapedChar, out: &mut Vec<char>)
        ensures
            final(out)@ == old(out)@ + sp_print_escaped(*e),
    {
        match e {
            EscapedChar::Tab => {
                out.push('\\');
                out.push('t');
            },
            EscapedChar::NewLine => {
                out.push('\\');
                out.push('n');
            },
            EscapedChar::CarriageReturn => {
                out.push('\\');
                out.push('r');
            },
            EscapedChar::FormFeed => {
                out.push('\\');
                out.push('f');
            },
            EscapedChar::VerticalTab => {
                out.push('\\');
                out.push('v');
            },
            EscapedChar::Null => {
                out.push('\\');
                out.push('0');
            },
            EscapedChar::Hex(n) => {
                out.push('\\');
                out.push('x');
                push_hex2(*n, out);
            },
            EscapedChar::Unicode(n) => {
                out.push('\\');
                out.push('u');
                out.push('{');
                push_hex(*n, out);
                out.push('}');
            },
        }
        proof {
            assert(final(out)@ =~= old(out)@ + sp_print_escaped(*e));
        }
    }

    /// Appends the rendering of every node of a sequence, in order.
    fn print_nodes(&self, nodes: &Vec<RegexNode>, out: &mut Vec<char>)
        ensures
            final(out)@ == old(out)@ + sp_print_nodes(nodes_view(nodes@), self.escapes()),
        decreases nodes@,
    {
        let ghost nsv = nodes_view(nodes@);
        let mut i: usize = 0;
        while i < nodes.len()
            invariant
                i <= nodes@.len(),
                nsv == nodes_view(nodes@),
                out@ == old(out)@ + sp_print_nodes(
                    nodes_view(nodes@.subrange(0, i as int)),
                    self.escapes(),
                ),
            decreases nodes@.len() - i,
        {
            proof {
                assert(decreases_to!(nodes@ => nodes@[i as int]));
            }
            self.print_node(&nodes[i], out);
            proof {
                let pre = nodes@.subrange(0, i as int);
                let post = nodes@.subrange(0, i + 1 as int);
                assert(post.drop_last() =~= pre);
                assert(post.last() == nodes@[i as int]);
                assert(nodes_view(post) == nodes_view(pre).push(node_view(nodes@[i as int])));
                assert(nodes_view(pre).push(node_view(nodes@[i as int])).drop_last() =~= nodes_view(
                    pre,
                ));
                assert(sp_print_nodes(nodes_view(post), self.escapes()) == sp_print_nodes(
                    nodes_view(pre),
                    self.escapes(),
                ) + sp_print_node(node_view(nodes@[i as int]), self.escapes()));
            }
            i = i + 1;
            proof {
                assert(out@ =~= old(out)@ + sp_print_nodes(
                    nodes_view(nodes@.subrange(0, i as int)),
                    self.escapes(),
                ));
            }
        }
        proof {
            assert(nodes@.subrange(0, nodes@.len() as int) =~= nodes@);
        }
    }

    /// Appends the canonical rendering of one node.
    #[verifier::rlimit(60)]
    fn print_node(&self, node: &RegexNode, out: &mut Vec<char>)
        ensures
            final(out)@ == old(out)@ + sp_print_node(node_view(*node), self.escapes()),
        decreases *node,
    {
        match node {
            RegexNode::Literal(c) => {
                self.print_char(*c, out);
            },
            RegexNode::CharacterClass { negated, chars } => {
                out.push('[');
                if *negated {
                    out.push('^');
                }
                let ghost base = out@;
                let mut i: usize = 0;
                while i < chars.len()
                    invariant
                        i <= chars@.len(),
                        out@ == base + sp_print_class_chars(
                            chars@.subrange(0, i as int),
                            self.escapes(),
                        ),
                    decreases chars@.len() - i,
                {
                    self.print_char(chars[i], out);
                    i = i + 1;
                    proof {
                        let post = chars@.subrange(0, i as int);
                        assert(post.drop_last() =~= chars@.subrange(0, i - 1));
                        assert(out@ =~= base + sp_print_class_chars(post, self.escapes()));
                    }
                }
                out.push(']');
                proof {
                    assert(chars@.subrange(0, chars@.len() as int) =~= chars@);
                    assert(final(out)@ =~= old(out)@ + sp_print_node(
                        node_view(*node),
                        self.escapes(),
                    ));
                }
            },
            RegexNode::Dot => {
                out.push('.');
            },
            RegexNode::Anchor(a) => {
                match a {
                    AnchorType::Start => out.push('^'),
                    AnchorType::End => out.push('$'),
                }
            },
            RegexNode::WordBoundary => {
                out.push('\\');
                out.push('b');
            },
            RegexNode::Quantified { node: child, quantifier } => {
                proof {
                    assert(decreases_to!(*node => *child));
                }
                self.print_node(&*child, out);
                self.print_quantifier(quantifier, out);
            },
            RegexNode::Group(kind, nodes) => {
                match kind {
                    GroupKind::Capturing(None) => {
                        out.push('(');
                    },
                    GroupKind::Capturing(Some(name)) => {
                        out.push('(');
                        out.push('?');
                        out.push('<');
                        push_str_chars(name, out);
                        out.push('>');
                    },
                    GroupKind::NonCapturing => {
                        out.push('(');
                        out.push('?');
                        out.push(':');
                    },
                }
                proof {
                    assert(decreases_to!(*node => *nodes));
                }
                self.print_nodes(nodes, out);
                out.push(')');
                proof {
                    assert(final(out)@ =~= old(out)@ + sp_print_node(
                        node_view(*node),
                        self.escapes(),
                    ));
                }
            },
            RegexNode::Backreference(b) => {
                match b {
                    BackreferenceKind::NumberBased(k) => {
                        out.push('\\');
                        push_dec(*k, out);
                    },
                    BackreferenceKind::NameBased(name) => {
                        out.push('\\');
                        out.push('k');
                        out.push('<');
                        push_str_chars(name, out);
                        out.push('>');
                    },
                }
                proof {
                    assert(final(out)@ =~= old(out)@ + sp_print_node(
                        node_view(*node),
                        self.escapes(),
                    ));
                }
            },
            RegexNode::CharacterType(k) => {
                match k {
                    CharacterTypeKind::Word => {
                        out.push('\\');
                        out.push('w');
                    },
                    CharacterTypeKind::NotWord => {
                        out.push('\\');
                        out.push('W');
                    },
                    CharacterTypeKind::Digit => {
                        out.push('\\');
                        out.push('d');
                    },
                    CharacterTypeKind::NotDigit => {
                        out.push('\\');
                        out.push('D');
                    },
                    CharacterTypeKind::Whitespace => {
                        out.push('\\');
                        out.push('s');
                    },
                    CharacterTypeKind::NotWhitespace => {
                        out.push('\\');
                        out.push('S');
                    },
                    CharacterTypeKind::EscapedChar(e) => {
                        self.print_escaped_char(e, out);
                    },
                }
            },
            RegexNode::UnicodeCategory { negated, category } => {
                out.push('\\');
                if *negated {
                    out.push('P');
                } else {
                    out.push('p');
                }
                out.push('{');
                let letter = match category {
                    UnicodeCategoryKind::Letter => 'L',
                    UnicodeCategoryKind::Number => 'N',
                    UnicodeCategoryKind::Punctuation => 'P',
                    UnicodeCategoryKind::Symbol => 'S',
                    UnicodeCategoryKind::Mark => 'M',
                    UnicodeCategoryKind::Separator => 'Z',
                    UnicodeCategoryKind::Other => 'C',
                };
                out.push(letter);
                out.push('}');
                proof {
                    assert(final(out)@ =~= old(out)@ + sp_print_node(
                        node_view(*node),
                        self.escapes(),
                    ));
                }
            },
            RegexNode::Alternation(branches) => {
                let ghost base = out@;
                let ghost bsv = crate::ast::branches_view(branches@);
                proof {
                    crate::ast::lemma_branches_view(branches@);
                }
                let mut i: usize = 0;
                while i < branches.len()
                    invariant
                        i <= branches@.len(),
                        *node == RegexNode::Alternation(*branches),
                        bsv == crate::ast::branches_view(branches@),
                        bsv.len() == branches@.len(),
                        out@ == base + sp_print_branches(
                            bsv.subrange(0, i as int),
                            self.escapes(),
                        ),
                        forall|j: int|
                            0 <= j < branches@.len() ==> bsv[j] == nodes_view(branches@[j]@),
                    decreases branches@.len() - i,
                {
                    if i > 0 {
                        out.push('|');
                    }
                    proof {
                        assert(decreases_to!(*node => node->Alternation_0));
                        assert(decreases_to!(branches@ => branches@[i as int]));
                        assert(decreases_to!(branches@[i as int] => branches@[i as int]@));
                    }
                    self.print_nodes(&branches[i], out);
                    i = i + 1;
                    proof {
                        let post = bsv.subrange(0, i as int);
                        assert(post.drop_last() =~= bsv.subrange(0, i - 1));
                        assert(post.last() == bsv[i - 1]);
                        assert(out@ =~= base + sp_print_branches(post, self.escapes()));
                    }
                }
                proof {
                    crate::ast::lemma_branches_view(branches@);
                    assert(bsv.subrange(0, bsv.len() as int) =~= bsv);
                    assert(final(out)@ =~= old(out)@ + sp_print_node(
                        node_view(*node),
                        self.escapes(),
                    ));
                }
            },
            RegexNode::Lookaround(kind, nodes) => {
                out.push('(');
                out.push('?');
                match kind {
                    LookaroundKind::PositiveLookahead => {
                        out.push('=');
                    },
                    LookaroundKind::NegativeLookahead => {
                        out.push('!');
                    },
                    LookaroundKind::PositiveLookbehind => {
                        out.push('<');
                        out.push('=');
                    },
                    LookaroundKind::NegativeLookbehind => {
                        out.push('<');
                        out.push('!');
                    },
                }
                proof {
                    assert(decreases_to!(*node => *nodes));
                }
                self.print_nodes(&*nodes, out);
                out.push(')');
                proof {
                    assert(final(out)@ =~= old(out)@ + sp_print_node(
                        node_view(*node),
                        self.escapes(),
                    ));
                }
            },
            RegexNode::FlagSet(flags, nodes) => {
                out.push('(');
                out.push('?');
                if flags.case_insensitive {
                    out.push('i');
                }
                if flags.multiline {
                    out.push('m');
                }
                if flags.dot_all {
                    out.push('s');
                }
                out.push(':');
                proof {
                    assert(decreases_to!(*node => *nodes));
                }
                self.print_nodes(&*nodes, out);
                out.push(')');
                proof {
                    assert(final(out)@ =~= old(out)@ + sp_print_node(
                        node_view(*node),
                        self.escapes(),
                    ));
                }
            },
        }
        proof {
            assert(final(out)@ =~= old(out)@ + sp_print_node(node_view(*node), self.escapes()));
        }
    }

    /// Renders a whole node sequence to pattern text: exactly
    /// [`sp_print_nodes`] of its abstraction, under this printer's escape
    /// mode.
    pub fn print(&self, ast: &[RegexNode]) -> (r: String)
        ensures
            r@ == sp_print_nodes(nodes_view(ast@), self.escapes()),
    {
        let mut out: Vec<char> = Vec::new();
        let mut i: usize = 0;
        while i < ast.len()
            invariant
                i <= ast@.len(),
                out@ == sp_print_nodes(nodes_view(ast@.subrange(0, i as int)), self.escapes()),
            decreases ast@.len() - i,
        {
            self.print_node(&ast[i], &mut out);
            i = i + 1;
            proof {
                let pre = ast@.subrange(0, i - 1);
                let post = ast@.subrange(0, i as int);
                assert(post.drop_last() =~= pre);
                assert(nodes_view(post) == nodes_view(pre).push(node_view(ast@[i - 1])));
                assert(nodes_view(pre).push(node_view(ast@[i - 1])).drop_last() =~= nodes_view(
                    pre,
                ));
                assert(out@ =~= sp_print_nodes(nodes_view(post), self.escapes()));
            }
        }
        proof {
            assert(ast@.subrange(0, ast@.len() as int) =~= ast@);
        }
        chars_to_string(&out)
    }
}

/// Appends every character of a string.
fn push_str_chars(s: &String, out: &mut Vec<char>)
    ensures
        final(out)@ == old(out)@ + s@,
{
    let n = s.as_str().unicode_len();
    let mut i: usize = 0;
    while i < n
        invariant
            i <= n,
            n == s@.len(),
            out@ == old(out)@ + s@.subrange(0, i as int),
        decreases n - i,
    {
        out.push(s.as_str().get_char(i));
        i = i + 1;
        proof {
            assert(out@ =~= old(out)@ + s@.subrange(0, i as int));
        }
    }
    proof {
        assert(s@.subrange(0, s@.len() as int) =~= s@);
        assert(final(out)@ =~= old(out)@ + s@);
    }
}

} // verus!
