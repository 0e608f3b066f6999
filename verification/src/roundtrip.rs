//! The round-trip law: re-parsing a tree's canonical printed text (with
//! escapes off) yields the tree back. It is stated and proved for the
//! fragment of trees on which it holds character for character: sequences of
//! simple atoms — plain literals, `.`, anchors, word boundaries, predefined
//! classes, control and code-point escapes, Unicode categories — each
//! optionally under any quantifier.
//!
//! Outside this fragment the law fails on the text level: a literal `*`
//! prints as `*` and re-parses as a quantifier of what precedes it, a `\x`
//! escape of a code point above two hex digits prints in a normalized form,
//! and a trailing flag group prints in its scoped form.

use vstd::prelude::*;

use crate::ast::{AnchorType, CharacterTypeKind, EscapedChar, NodeView, Quantifier};
use crate::parser::{
    digit_run_len, digits_val, pow16, sp_alternation, sp_atom, sp_branches, sp_node, sp_parse,
    step_pos, ParseError,
};
use crate::printer::{
    dec_char, dec_str, hex2_str, hex_char, hex_str, sp_print_node, sp_print_nodes,
    sp_print_quantifier,
};
use crate::text::{digit_of, hex_of, is_digit_char, is_hex_char};

verus! {

/// Characters the grammar gives no role at an atom position: printing such a
/// literal verbatim re-parses as the same literal.
pub open spec fn plain_char(c: char) -> bool {
    c != '.' && c != '^' && c != '$' && c != '\\' && c != '[' && c != '(' && c != ')' && c != '|'
        && c != '*' && c != '+' && c != '?' && c != '{'
}

/// The characters that begin a quantifier.
pub open spec fn quant_start(c: char) -> bool {
    c == '*' || c == '+' || c == '?' || c == '{'
}

/// The unquantified atoms of the round-trip fragment.
pub open spec fn simple_leaf(n: NodeView) -> bool {
    match n {
        NodeView::Literal(c) => plain_char(c),
        NodeView::Dot => true,
        NodeView::Anchor(a) => true,
        NodeView::WordBoundary => true,
        NodeView::CharacterType(k) => match k {
            CharacterTypeKind::EscapedChar(e) => match e {
                EscapedChar::Hex(v) => v <= 255,
                EscapedChar::Unicode(v) => v <= 0xFFFFFF,
                _ => true,
            },
            _ => true,
        },
        NodeView::UnicodeCategory { negated, category } => true,
        _ => false,
    }
}


/// One atom of the round-trip fragment: a simple leaf, optionally under any
/// quantifier.
pub open spec fn simple_atom(n: NodeView) -> bool {
    match n {
        NodeView::Quantified(child, q) => simple_leaf(*child),
        _ => simple_leaf(n),
    }
}

/// A tree of the round-trip fragment.
pub open spec fn simple_nodes(ns: Seq<NodeView>) -> bool {
    forall|i: int| 0 <= i < ns.len() ==> simple_atom(#[trigger] ns[i])
}

/// Decimal digit characters carry their digit's value.
proof fn lemma_dec_char(d: nat)
    requires
        d < 10,
    ensures
        is_digit_char(dec_char(d)),
        digit_of(dec_char(d)) == d,
{
}

/// Hexadecimal digit characters carry their digit's value.
proof fn lemma_hex_char(d: nat)
    requires
        d < 16,
    ensures
        is_hex_char(hex_char(d)),
        hex_of(hex_char(d)) == d,
{
}

/// A decimal rendering is a non-empty run of digit characters.
proof fn lemma_dec_str_digits(n: nat)
    ensures
        dec_str(n).len() >= 1,
        forall|i: int| 0 <= i < dec_str(n).len() ==> is_digit_char(#[trigger] dec_str(n)[i]),
    decreases n,
{
    if n < 10 {
        lemma_dec_char(n);
    } else {
        lemma_dec_str_digits(n / 10);
        lemma_dec_char(n % 10);
        assert forall|i: int| 0 <= i < dec_str(n).len() implies is_digit_char(
            #[trigger] dec_str(n)[i],
        ) by {
            if i < dec_str(n).len() - 1 {
                assert(dec_str(n)[i] == dec_str(n / 10)[i]);
            }
        }
    }
}

/// A hexadecimal rendering is a non-empty run of hexadecimal characters.
proof fn lemma_hex_str_digits(n: nat)
    ensures
        hex_str(n).len() >= 1,
        forall|i: int| 0 <= i < hex_str(n).len() ==> is_hex_char(#[trigger] hex_str(n)[i]),
    decreases n,
{
    if n < 16 {
        lemma_hex_char(n);
    } else {
        lemma_hex_str_digits(n / 16);
        lemma_hex_char(n % 16);
        assert forall|i: int| 0 <= i < hex_str(n).len() implies is_hex_char(
            #[trigger] hex_str(n)[i],
        ) by {
            if i < hex_str(n).len() - 1 {
                assert(hex_str(n)[i] == hex_str(n / 16)[i]);
            }
        }
    }
}

/// A value below the `k`-th power of sixteen renders in at most `k` digits.
proof fn lemma_hex_str_len(n: nat, k: nat)
    requires
        k >= 1,
        n < pow16(k),
    ensures
        hex_str(n).len() <= k,
    decreases k,
{
    if n < 16 {
    } else {
        reveal_with_fuel(pow16, 2);
        assert(k >= 2) by {
            if k == 1 {
                assert(pow16(1int as nat) == 16);
            }
        }
        assert(pow16(k) == 16 * pow16((k - 1) as nat));
        assert(n / 16 < pow16((k - 1) as nat));
        lemma_hex_str_len(n / 16, (k - 1) as nat);
    }
}

/// A run of exactly `count` digit characters, ended by a non-digit or the
/// end of input, scans as a digit run of that length.
proof fn lemma_digit_run(s: Seq<char>, pos: nat, count: nat)
    requires
        pos + count <= s.len(),
        forall|i: int| 0 <= i < count ==> is_digit_char(#[trigger] s[pos + i]),
        pos + count == s.len() || !is_digit_char(s[(pos + count) as int]),
    ensures
        digit_run_len(s, pos) == count,
    decreases count,
{
    if count > 0 {
        assert(is_digit_char(s[pos as int + 0]));
        assert forall|i: int| 0 <= i < count - 1 implies is_digit_char(
            #[trigger] s[pos + 1 + i],
        ) by {
            assert(is_digit_char(s[pos + (i + 1)]));
        }
        lemma_digit_run(s, pos + 1, (count - 1) as nat);
    }
}

/// Digits placed as a decimal rendering scan back to the rendered value.
proof fn lemma_dec_str_val(n: nat, s: Seq<char>, pos: nat)
    requires
        pos + dec_str(n).len() <= s.len(),
        forall|i: int| 0 <= i < dec_str(n).len() ==> s[pos + i] == #[trigger] dec_str(n)[i],
    ensures
        digits_val(s, pos, dec_str(n).len()) == n,
    decreases n,
{
    let p = dec_str(n);
    let len = p.len();
    if n < 10 {
        lemma_dec_char(n);
        assert(s[pos as int + 0] == p[0]);
        assert(digits_val(s, pos, 0) == 0);
        assert(digits_val(s, pos, 1) == digit_of(s[pos + 1 - 1]));
    } else {
        let pp = dec_str(n / 10);
        assert(p == pp.push(dec_char(n % 10)));
        assert forall|i: int| 0 <= i < pp.len() implies s[pos + i] == #[trigger] pp[i] by {
            assert(s[pos + i] == p[i]);
        }
        lemma_dec_str_val(n / 10, s, pos);
        lemma_dec_char(n % 10);
        assert(s[pos + (len - 1)] == p[len - 1]);
        assert(digits_val(s, pos, len as nat) == digits_val(s, pos, (len - 1) as nat) * 10
            + digit_of(s[pos + len - 1]));
    }
}

/// The value of `k` hexadecimal digit characters starting at `pos`, most
/// significant first.
spec fn hex_digits_val(s: Seq<char>, pos: nat, k: nat) -> nat
    decreases k,
{
    if k == 0 {
        0
    } else {
        hex_digits_val(s, pos, (k - 1) as nat) * 16 + hex_of(s[pos + k - 1])
    }
}

/// Expanding a hexadecimal run at its most significant digit.
proof fn lemma_hex_digits_front(s: Seq<char>, pos: nat, k: nat)
    requires
        k >= 1,
    ensures
        hex_digits_val(s, pos, k) == hex_of(s[pos as int]) * pow16((k - 1) as nat)
            + hex_digits_val(s, pos + 1, (k - 1) as nat),
    decreases k,
{
    if k == 1 {
        assert(pow16(0) == 1);
        assert(hex_digits_val(s, pos, 0) == 0);
        assert(hex_digits_val(s, pos, 1) == hex_of(s[pos + 1 - 1]));
    } else {
        lemma_hex_digits_front(s, pos, (k - 1) as nat);
        let h0 = hex_of(s[pos as int]);
        let a = hex_digits_val(s, pos + 1, (k - 2) as nat);
        assert(hex_digits_val(s, pos, (k - 1) as nat) == h0 * pow16((k - 2) as nat) + a);
        assert(s[pos + 1 + (k - 2)] == s[pos + k - 1]);
        assert(hex_digits_val(s, pos + 1, (k - 1) as nat) == a * 16 + hex_of(s[pos + k - 1]));
        assert(hex_digits_val(s, pos, k) == (h0 * pow16((k - 2) as nat) + a) * 16 + hex_of(
            s[pos + k - 1],
        ));
        assert((h0 * pow16((k - 2) as nat) + a) * 16 == h0 * (16 * pow16((k - 2) as nat)) + a
            * 16) by (nonlinear_arith);
        assert(pow16((k - 1) as nat) == 16 * pow16((k - 2) as nat));
    }
}

/// Digits placed as a hexadecimal rendering scan back to the rendered value.
proof fn lemma_hex_str_val(n: nat, s: Seq<char>, pos: nat)
    requires
        pos + hex_str(n).len() <= s.len(),
        forall|i: int| 0 <= i < hex_str(n).len() ==> s[pos + i] == #[trigger] hex_str(n)[i],
    ensures
        hex_digits_val(s, pos, hex_str(n).len()) == n,
    decreases n,
{
    let p = hex_str(n);
    let len = p.len();
    if n < 16 {
        lemma_hex_char(n);
        assert(s[pos as int + 0] == p[0]);
        assert(hex_digits_val(s, pos, 0) == 0);
        assert(hex_digits_val(s, pos, 1) == hex_of(s[pos + 1 - 1]));
    } else {
        let pp = hex_str(n / 16);
        assert(p == pp.push(hex_char(n % 16)));
        assert forall|i: int| 0 <= i < pp.len() implies s[pos + i] == #[trigger] pp[i] by {
            assert(s[pos + i] == p[i]);
        }
        lemma_hex_str_val(n / 16, s, pos);
        lemma_hex_char(n % 16);
        assert(s[pos + (len - 1)] == p[len - 1]);
        assert(hex_digits_val(s, pos, len as nat) == hex_digits_val(s, pos, (len - 1) as nat) * 16
            + hex_of(s[pos + len - 1]));
    }
}

/// Scanning a run of hexadecimal digits ended by `}` accumulates their value.
proof fn lemma_uval_scan(s: Seq<char>, pos: nat, k: nat, count: nat, acc: nat)
    requires
        k >= 1,
        pos + k < s.len(),
        forall|i: int| 0 <= i < k ==> is_hex_char(#[trigger] s[pos + i]),
        s[(pos + k) as int] == '}',
        count + k <= 6,
    ensures
        crate::parser::sp_uval(s, pos, count, acc) == Ok::<(nat, nat), ParseError>(
            (acc * pow16(k) + hex_digits_val(s, pos, k), pos + k),
        ),
    decreases k,
{
    assert(is_hex_char(s[pos as int + 0]));
    assert(s[pos as int] != '}');
    let h0 = hex_of(s[pos as int]);
    if k == 1 {
        assert(pow16(1int as nat) == 16 * pow16(0));
        assert(pow16(0) == 1);
        assert(hex_digits_val(s, pos, 0) == 0);
        assert(hex_digits_val(s, pos, 1) == hex_of(s[pos + 1 - 1]));
        assert(crate::parser::sp_uval(s, pos + 1, count + 1, acc * 16 + h0) == Ok::<
            (nat, nat),
            ParseError,
        >((acc * 16 + h0, pos + 1)));
        assert(acc * 16 + h0 == acc * pow16(1) + hex_digits_val(s, pos, 1)) by (nonlinear_arith)
            requires
                pow16(1int as nat) == 16,
                hex_digits_val(s, pos, 1) == h0,
        ;
    } else {
        assert forall|i: int| 0 <= i < k - 1 implies is_hex_char(#[trigger] s[pos + 1 + i]) by {
            assert(is_hex_char(s[pos + (i + 1)]));
        }
        lemma_uval_scan(s, pos + 1, (k - 1) as nat, count + 1, acc * 16 + h0);
        lemma_hex_digits_front(s, pos, k);
        let rest = hex_digits_val(s, pos + 1, (k - 1) as nat);
        assert((acc * 16 + h0) * pow16((k - 1) as nat) + rest == acc * pow16(k) + (h0 * pow16(
            (k - 1) as nat,
        ) + rest)) by (nonlinear_arith)
            requires
                pow16(k) == 16 * pow16((k - 1) as nat),
        ;
        assert(pow16(k) == 16 * pow16((k - 1) as nat));
    }
}

/// The printed form of a simple atom is non-empty and starts with a
/// character that neither closes a group, separates branches, nor begins a
/// quantifier.
proof fn lemma_simple_atom_print(n: NodeView)
    requires
        simple_atom(n),
    ensures
        sp_print_node(n, false).len() >= 1,
        !quant_start(sp_print_node(n, false)[0]),
        sp_print_node(n, false)[0] != ')',
        sp_print_node(n, false)[0] != '|',
    decreases n,
{
    match n {
        NodeView::Quantified(child, q) => {
            lemma_simple_atom_print(*child);
            let pc = sp_print_node(*child, false);
            assert(sp_print_node(n, false) == pc + sp_print_quantifier(q));
            assert(sp_print_node(n, false)[0] == pc[0]);
        },
        _ => {},
    }
}

/// Parsing at the printed form of a simple leaf yields the leaf, ending
/// right after its text.
#[verifier::rlimit(100)]
proof fn lemma_parse_printed_leaf(n: NodeView, s: Seq<char>, pos: nat, gc: nat)
    requires
        simple_leaf(n),
        pos + sp_print_node(n, false).len() <= s.len(),
        forall|i: int|
            0 <= i < sp_print_node(n, false).len() ==> s[pos + i] == sp_print_node(n, false)[i],
    ensures
        sp_atom(s, pos, gc) == Ok::<(NodeView, nat, nat), ParseError>(
            (n, pos + sp_print_node(n, false).len(), gc),
        ),
{
    let p = sp_print_node(n, false);
    let len = p.len();
    assert(s[pos as int + 0] == p[0]);
    if len > 1 {
        assert(s[pos as int + 1] == p[1]);
    }
    if len > 2 {
        assert(s[pos as int + 2] == p[2]);
    }
    if len > 3 {
        assert(s[pos as int + 3] == p[3]);
    }
    if len > 4 {
        assert(s[pos as int + 4] == p[4]);
    }
    match n {
        NodeView::Literal(c) => {
            assert(p =~= seq![c]);
            assert(s[pos as int] == c);
        },
        NodeView::Dot => {
            assert(p =~= seq!['.']);
            assert(s[pos as int] == '.');
        },
        NodeView::Anchor(a) => {
            match a {
                AnchorType::Start => {
                    assert(p =~= seq!['^']);
                    assert(s[pos as int] == '^');
                },
                AnchorType::End => {
                    assert(p =~= seq!['$']);
                    assert(s[pos as int] == '$');
                },
            }
        },
        NodeView::WordBoundary => {
            assert(p =~= seq!['\\', 'b']);
            assert(s[pos as int] == '\\' && s[pos + 1 as int] == 'b');
        },
        NodeView::CharacterType(k) => {
            assert(s[pos as int] == '\\');
            assert(s[pos as int + 1] == p[1]);
            match k {
                CharacterTypeKind::Word => {
                    assert(p =~= seq!['\\', 'w']);
                    assert(sp_atom(s, pos, gc) == Ok::<(NodeView, nat, nat), ParseError>(
                        (n, pos + 2, gc),
                    ));
                },
                CharacterTypeKind::NotWord => {
                    assert(p =~= seq!['\\', 'W']);
                    assert(sp_atom(s, pos, gc) == Ok::<(NodeView, nat, nat), ParseError>(
                        (n, pos + 2, gc),
                    ));
                },
                CharacterTypeKind::Digit => {
                    assert(p =~= seq!['\\', 'd']);
                    assert(sp_atom(s, pos, gc) == Ok::<(NodeView, nat, nat), ParseError>(
                        (n, pos + 2, gc),
                    ));
                },
                CharacterTypeKind::NotDigit => {
                    assert(p =~= seq!['\\', 'D']);
                    assert(sp_atom(s, pos, gc) == Ok::<(NodeView, nat, nat), ParseError>(
                        (n, pos + 2, gc),
                    ));
                },
                CharacterTypeKind::Whitespace => {
                    assert(p =~= seq!['\\', 's']);
                    assert(sp_atom(s, pos, gc) == Ok::<(NodeView, nat, nat), ParseError>(
                        (n, pos + 2, gc),
                    ));
                },
                CharacterTypeKind::NotWhitespace => {
                    assert(p =~= seq!['\\', 'S']);
                    assert(sp_atom(s, pos, gc) == Ok::<(NodeView, nat, nat), ParseError>(
                        (n, pos + 2, gc),
                    ));
                },
                CharacterTypeKind::EscapedChar(e) => {
                    match e {
                        EscapedChar::Tab => {
                            assert(p =~= seq!['\\', 't']);
                            assert(sp_atom(s, pos, gc) == Ok::<(NodeView, nat, nat), ParseError>(
                                (n, pos + 2, gc),
                            ));
                        },
                        EscapedChar::NewLine => {
                            assert(p =~= seq!['\\', 'n']);
                            assert(sp_atom(s, pos, gc) == Ok::<(NodeView, nat, nat), ParseError>(
                                (n, pos + 2, gc),
                            ));
                        },
                        EscapedChar::CarriageReturn => {
                            assert(p =~= seq!['\\', 'r']);
                            assert(sp_atom(s, pos, gc) == Ok::<(NodeView, nat, nat), ParseError>(
                                (n, pos + 2, gc),
                            ));
                        },
                        EscapedChar::FormFeed => {
                            assert(p =~= seq!['\\', 'f']);
                            assert(sp_atom(s, pos, gc) == Ok::<(NodeView, nat, nat), ParseError>(
                                (n, pos + 2, gc),
                            ));
                        },
                        EscapedChar::VerticalTab => {
                            assert(p =~= seq!['\\', 'v']);
                            assert(sp_atom(s, pos, gc) == Ok::<(NodeView, nat, nat), ParseError>(
                                (n, pos + 2, gc),
                            ));
                        },
                        EscapedChar::Null => {
                            assert(p =~= seq!['\\', '0']);
                            assert(sp_atom(s, pos, gc) == Ok::<(NodeView, nat, nat), ParseError>(
                                (n, pos + 2, gc),
                            ));
                        },
                        EscapedChar::Hex(v) => {
                            if v >= 16 {
                                assert(hex_str((v / 16) as nat) =~= seq![
                                    hex_char((v / 16) as nat),
                                ]);
                                assert(hex_str(v as nat) =~= hex_str((v / 16) as nat).push(
                                    hex_char((v % 16) as nat),
                                ));
                            }
                            assert(hex2_str(v as nat) =~= seq![
                                hex_char((v / 16) as nat),
                                hex_char((v % 16) as nat),
                            ]);
                            assert(p =~= seq![
                                '\\',
                                'x',
                                hex_char((v / 16) as nat),
                                hex_char((v % 16) as nat),
                            ]);
                            lemma_hex_char((v / 16) as nat);
                            lemma_hex_char((v % 16) as nat);
                            assert(s[pos as int + 2] == hex_char((v / 16) as nat));
                            assert(s[pos as int + 3] == hex_char((v % 16) as nat));
                            assert(hex_of(s[pos as int + 2]) * 16 + hex_of(s[pos as int + 3])
                                == v);
                            assert(sp_atom(s, pos, gc) == Ok::<(NodeView, nat, nat), ParseError>(
                                (n, pos + 4, gc),
                            ));
                        },
                        EscapedChar::Unicode(v) => {
                            let hs = hex_str(v as nat);
                            let hl = hs.len();
                            lemma_hex_str_digits(v as nat);
                            reveal_with_fuel(pow16, 7);
                            lemma_hex_str_len(v as nat, 6);
                            assert(p == seq!['\\', 'u', '{'] + hs + seq!['}']);
                            assert(len == 4 + hl);
                            assert(s[pos as int + 2] == p[2]);
                            assert(p[2] == '{');
                            assert forall|i: int| 0 <= i < hl implies #[trigger] s[pos + 3 + i]
                                == hs[i] && is_hex_char(s[pos + 3 + i]) by {
                                assert(s[pos + (3 + i)] == p[3 + i]);
                                assert(p[3 + i] == hs[i]);
                            }
                            assert(s[pos + (3 + hl) as int] == p[(3 + hl) as int]);
                            assert(p[(3 + hl) as int] == '}');
                            assert(s[((pos + 3) + hl) as int] == '}');
                            lemma_uval_scan(s, pos + 3, hl, 0, 0);
                            lemma_hex_str_val(v as nat, s, pos + 3);
                            assert(0 * pow16(hl) + hex_digits_val(s, pos + 3, hl) == v);
                            assert(crate::parser::sp_uval(s, pos + 3, 0, 0) == Ok::<
                                (nat, nat),
                                ParseError,
                            >((v as nat, pos + 3 + hl)));
                            assert(sp_atom(s, pos, gc) == Ok::<(NodeView, nat, nat), ParseError>(
                                (n, pos + len, gc),
                            ));
                        },
                    }
                },
            }
        },
        NodeView::UnicodeCategory { negated, category } => {
            let letter = crate::printer::sp_category_letter(category);
            assert(p =~= seq![
                '\\',
                if negated {
                    'P'
                } else {
                    'p'
                },
                '{',
                letter,
                '}',
            ]);
            assert(s[pos as int] == '\\');
            assert(s[pos + 1 as int] == (if negated {
                'P'
            } else {
                'p'
            }));
            assert(s[pos + 2 as int] == '{');
            assert(s[pos + 3 as int] == letter);
            assert(s[pos + 4 as int] == '}');
            assert(sp_atom(s, pos, gc) == Ok::<(NodeView, nat, nat), ParseError>(
                (n, pos + 5, gc),
            ));
        },
        _ => {
            assert(false);
        },
    }
}

/// Parsing at the printed form of a simple atom yields the atom, ending
/// right after its text, provided no quantifier character follows it.
#[verifier::rlimit(100)]
proof fn lemma_parse_printed_atom(n: NodeView, s: Seq<char>, pos: nat, gc: nat)
    requires
        simple_atom(n),
        pos + sp_print_node(n, false).len() <= s.len(),
        s.subrange(pos as int, (pos + sp_print_node(n, false).len()) as int) == sp_print_node(
            n,
            false,
        ),
        pos + sp_print_node(n, false).len() == s.len() || !quant_start(
            s[(pos + sp_print_node(n, false).len()) as int],
        ),
    ensures
        sp_node(s, pos, gc) == Ok::<(NodeView, nat, nat), ParseError>(
            (n, pos + sp_print_node(n, false).len(), gc),
        ),
{
    let p = sp_print_node(n, false);
    let len = p.len();
    lemma_simple_atom_print(n);
    assert forall|i: int| 0 <= i < len implies s[pos + i] == p[i] by {
        assert(s.subrange(pos as int, (pos + len) as int)[i] == s[pos + i]);
        assert(s.subrange(pos as int, (pos + len) as int)[i] == p[i]);
    }
    match n {
        NodeView::Quantified(child, q) => {
            let pc = sp_print_node(*child, false);
            let pq = sp_print_quantifier(q);
            assert(p == pc + pq);
            assert forall|i: int| 0 <= i < pc.len() implies s[pos + i] == pc[i] by {
                assert(p[i] == pc[i]);
            }
            lemma_parse_printed_leaf(*child, s, pos, gc);
            let mid = pos + pc.len();
            assert forall|i: int| 0 <= i < pq.len() implies s[mid + i] == pq[i] by {
                assert(s[pos + (pc.len() + i)] == p[pc.len() + i]);
                assert(p[pc.len() + i] == pq[i]);
            }
            assert(s[mid as int + 0] == pq[0]);
            if pq.len() > 1 {
                assert(s[mid as int + 1] == pq[1]);
            }
            match q {
                Quantifier::ZeroOrMore { lazy } => {
                    if lazy {
                        assert(pq =~= seq!['*', '?']);
                    } else {
                        assert(pq =~= seq!['*']);
                    }
                },
                Quantifier::OneOrMore { lazy } => {
                    if lazy {
                        assert(pq =~= seq!['+', '?']);
                    } else {
                        assert(pq =~= seq!['+']);
                    }
                },
                Quantifier::ZeroOrOne { lazy } => {
                    if lazy {
                        assert(pq =~= seq!['?', '?']);
                    } else {
                        assert(pq =~= seq!['?']);
                    }
                },
                Quantifier::Exactly(nq) => {
                    let ds = dec_str(nq as nat);
                    let dl = ds.len();
                    lemma_dec_str_digits(nq as nat);
                    assert(pq == seq!['{'] + ds + seq!['}']);
                    assert forall|i: int| 0 <= i < dl implies #[trigger] s[mid + 1 + i] == ds[i]
                        && is_digit_char(s[mid + 1 + i]) by {
                        assert(s[mid + (1 + i)] == pq[1 + i]);
                        assert(pq[1 + i] == ds[i]);
                    }
                    assert(s[mid + (1 + dl) as int] == pq[(1 + dl) as int]);
                    assert(pq[(1 + dl) as int] == '}');
                    lemma_digit_run(s, mid + 1, dl);
                    lemma_dec_str_val(nq as nat, s, mid + 1);
                    assert(crate::parser::sp_curly(s, mid + 1) == Ok::<
                        (Quantifier, nat),
                        ParseError,
                    >((q, mid + 1 + dl + 1)));
                },
                Quantifier::AtLeast(nq) => {
                    let ds = dec_str(nq as nat);
                    let dl = ds.len();
                    lemma_dec_str_digits(nq as nat);
                    assert(pq == seq!['{'] + ds + seq![',', '}']);
                    assert forall|i: int| 0 <= i < dl implies #[trigger] s[mid + 1 + i] == ds[i]
                        && is_digit_char(s[mid + 1 + i]) by {
                        assert(s[mid + (1 + i)] == pq[1 + i]);
                        assert(pq[1 + i] == ds[i]);
                    }
                    assert(s[mid + (1 + dl) as int] == pq[(1 + dl) as int]);
                    assert(pq[(1 + dl) as int] == ',');
                    assert(s[mid + (2 + dl) as int] == pq[(2 + dl) as int]);
                    assert(pq[(2 + dl) as int] == '}');
                    lemma_digit_run(s, mid + 1, dl);
                    lemma_dec_str_val(nq as nat, s, mid + 1);
                    assert(crate::parser::sp_curly(s, mid + 1) == Ok::<
                        (Quantifier, nat),
                        ParseError,
                    >((q, mid + 1 + dl + 2)));
                },
                Quantifier::Range { min, max } => {
                    let ds1 = dec_str(min as nat);
                    let dl1 = ds1.len();
                    let ds2 = dec_str(max as nat);
                    let dl2 = ds2.len();
                    lemma_dec_str_digits(min as nat);
                    lemma_dec_str_digits(max as nat);
                    assert(pq == seq!['{'] + ds1 + seq![','] + ds2 + seq!['}']);
                    assert forall|i: int| 0 <= i < dl1 implies #[trigger] s[mid + 1 + i] == ds1[i]
                        && is_digit_char(s[mid + 1 + i]) by {
                        assert(s[mid + (1 + i)] == pq[1 + i]);
                        assert(pq[1 + i] == ds1[i]);
                    }
                    assert(s[mid + (1 + dl1) as int] == pq[(1 + dl1) as int]);
                    assert(pq[(1 + dl1) as int] == ',');
                    lemma_digit_run(s, mid + 1, dl1);
                    lemma_dec_str_val(min as nat, s, mid + 1);
                    let second = mid + 2 + dl1;
                    assert forall|i: int| 0 <= i < dl2 implies #[trigger] s[second + i] == ds2[i]
                        && is_digit_char(s[second + i]) by {
                        assert(s[mid + (2 + dl1 + i)] == pq[2 + dl1 + i]);
                        assert(pq[2 + dl1 + i] == ds2[i]);
                    }
                    assert(s[second as int + dl2 as int] == pq[(2 + dl1 + dl2) as int]) by {
                        assert(s[mid + (2 + dl1 + dl2) as int] == pq[(2 + dl1 + dl2) as int]);
                    }
                    assert(pq[(2 + dl1 + dl2) as int] == '}');
                    lemma_digit_run(s, second, dl2);
                    lemma_dec_str_val(max as nat, s, second);
                    assert(s[(mid + 1 + dl1 + 1) as int] == ds2[0]) by {
                        assert(s[second as int + 0] == ds2[0]);
                    }
                    assert(crate::parser::sp_curly(s, mid + 1) == Ok::<
                        (Quantifier, nat),
                        ParseError,
                    >((q, second + dl2 + 1)));
                },
            }
            assert(Box::new(*child) == child);
            assert(sp_node(s, pos, gc) == Ok::<(NodeView, nat, nat), ParseError>(
                (n, pos + len, gc),
            ));
        },
        _ => {
            lemma_parse_printed_leaf(n, s, pos, gc);
            assert(sp_node(s, pos, gc) == Ok::<(NodeView, nat, nat), ParseError>(
                (n, pos + len, gc),
            ));
        },
    }
}

/// A non-empty sequence prints as its first node's text followed by the
/// rest's.
proof fn lemma_print_nodes_first(ns: Seq<NodeView>, esc: bool)
    requires
        ns.len() > 0,
    ensures
        sp_print_nodes(ns, esc) == sp_print_node(ns[0], esc) + sp_print_nodes(
            ns.drop_first(),
            esc,
        ),
    decreases ns.len(),
{
    if ns.len() == 1 {
        assert(ns.drop_last() =~= Seq::<NodeView>::empty());
        assert(ns.drop_first() =~= Seq::<NodeView>::empty());
        assert(ns.last() == ns[0]);
        assert(sp_print_nodes(ns, esc) =~= sp_print_node(ns[0], esc) + sp_print_nodes(
            ns.drop_first(),
            esc,
        ));
    } else {
        let head = ns.drop_last();
        lemma_print_nodes_first(head, esc);
        assert(head[0] == ns[0]);
        assert(ns.drop_first().drop_last() =~= head.drop_first());
        assert(ns.drop_first().last() == ns.last());
        assert(sp_print_nodes(ns.drop_first(), esc) == sp_print_nodes(head.drop_first(), esc)
            + sp_print_node(ns.last(), esc));
        assert(sp_print_nodes(ns, esc) =~= sp_print_node(ns[0], esc) + sp_print_nodes(
            ns.drop_first(),
            esc,
        ));
    }
}

/// Scanning the printed text of a simple tree collects exactly its atoms
/// into the current branch and stops at the end of the input.
proof fn lemma_parse_printed_seq(
    ns: Seq<NodeView>,
    s: Seq<char>,
    pos: nat,
    gc: nat,
    done: Seq<Seq<NodeView>>,
    cur: Seq<NodeView>,
)
    requires
        simple_nodes(ns),
        pos <= s.len(),
        s.subrange(pos as int, s.len() as int) == sp_print_nodes(ns, false),
    ensures
        sp_branches(s, pos, gc, done, cur) == Ok::<(Seq<Seq<NodeView>>, nat, nat), ParseError>(
            (done.push(cur + ns), s.len(), gc),
        ),
    decreases ns.len(),
{
    if ns.len() == 0 {
        assert(pos == s.len());
        assert(cur + ns =~= cur);
    } else {
        lemma_print_nodes_first(ns, false);
        let p0 = sp_print_node(ns[0], false);
        let rest = sp_print_nodes(ns.drop_first(), false);
        assert(simple_atom(ns[0]));
        lemma_simple_atom_print(ns[0]);
        let mid = pos + p0.len();
        assert(s.subrange(pos as int, s.len() as int) == p0 + rest);
        assert(s.subrange(pos as int, s.len() as int).len() == s.len() - pos);
        assert((p0 + rest).len() == p0.len() + rest.len());
        assert(mid + rest.len() == s.len());
        assert(mid <= s.len());
        assert forall|i: int| 0 <= i < p0.len() implies s[pos + i] == p0[i] by {
            assert(s.subrange(pos as int, s.len() as int)[i] == s[pos + i]);
            assert((p0 + rest)[i] == p0[i]);
        }
        assert forall|i: int| 0 <= i < rest.len() implies s[mid + i] == rest[i] by {
            assert(s.subrange(pos as int, s.len() as int)[p0.len() + i] == s[pos + (p0.len()
                + i)]);
            assert((p0 + rest)[p0.len() + i] == rest[i]);
        }
        assert(s.subrange(pos as int, mid as int) =~= p0) by {
            assert forall|i: int| 0 <= i < p0.len() implies s.subrange(
                pos as int,
                mid as int,
            )[i] == p0[i] by {
                assert(s.subrange(pos as int, mid as int)[i] == s[pos + i]);
            }
        }
        assert(s.subrange(mid as int, s.len() as int) =~= rest) by {
            assert forall|i: int| 0 <= i < rest.len() implies s.subrange(
                mid as int,
                s.len() as int,
            )[i] == rest[i] by {
                assert(s.subrange(mid as int, s.len() as int)[i] == s[mid + i]);
            }
        }
        // What follows the atom: the end, or the next atom's first character.
        if mid < s.len() {
            assert(rest.len() > 0);
            assert(ns.drop_first().len() > 0);
            lemma_print_nodes_first(ns.drop_first(), false);
            assert(ns.drop_first()[0] == ns[1]);
            assert(simple_atom(ns.drop_first()[0]));
            lemma_simple_atom_print(ns.drop_first()[0]);
            assert(s[mid as int + 0] == rest[0]);
            assert(s[mid as int] == rest[0]);
            assert(rest[0] == sp_print_node(ns.drop_first()[0], false)[0]);
            assert(!quant_start(s[mid as int]));
            assert(s[mid as int] != ')' && s[mid as int] != '|');
        }
        lemma_parse_printed_atom(ns[0], s, pos, gc);
        assert(pos < s.len());
        assert(s[pos as int + 0] == p0[0]);
        assert(s[pos as int] == p0[0]);
        assert(s[pos as int] != ')' && s[pos as int] != '|');
        assert(step_pos(s, pos, mid) == mid);
        lemma_parse_printed_seq(ns.drop_first(), s, mid, gc, done, cur.push(ns[0]));
        assert(cur.push(ns[0]) + ns.drop_first() =~= cur + ns);
        assert(sp_branches(s, pos, gc, done, cur) == sp_branches(
            s,
            mid,
            gc,
            done,
            cur.push(ns[0]),
        ));
    }
}

/// The round-trip law, on the simple fragment: re-parsing the canonical
/// printed text of a simple tree (escapes off) yields exactly that tree.
pub proof fn lemma_print_parse_round_trip(ns: Seq<NodeView>)
    requires
        simple_nodes(ns),
    ensures
        sp_parse(sp_print_nodes(ns, false)) == Ok::<Seq<NodeView>, ParseError>(ns),
{
    let s = sp_print_nodes(ns, false);
    assert(s.subrange(0, s.len() as int) =~= s);
    lemma_parse_printed_seq(ns, s, 0, 0, Seq::empty(), Seq::empty());
    let branches = Seq::<Seq<NodeView>>::empty().push(Seq::empty() + ns);
    assert(branches.len() == 1);
    assert(branches[0] =~= ns);
    assert(sp_alternation(s, 0, 0) == Ok::<(Seq<NodeView>, nat, nat), ParseError>(
        (ns, s.len(), 0),
    ));
}

} // verus!
