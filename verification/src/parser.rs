//! Single-pass recursive-descent parser for the extended pattern syntax.
//!
//! The grammar is stated once, as the spec functions `sp_*` below, which map a
//! character sequence, a position and a count of capturing groups opened so
//! far to either a parsed piece with its end position or a typed error. The
//! executable parser is proved to return exactly what those functions say.
//!
//! Points the grammar leaves open are settled as follows, matching the
//! observed behavior of the syntax:
//! - a top-level `)` ends the parse, leaving the rest of the input unread;
//! - end of input directly after `(?`, inside `[`'s leading `^` test, or
//!   inside `\p{` yields `UnexpectedEndOfInput`, `UnclosedCharacterClass`
//!   and `InvalidUnicodeCategory` respectively, never a fault;
//! - `{min,max}` with `min > max` is accepted as a zero-repetition range;
//! - a trailing flag group `(?i)` wraps every atom parsed in the remainder
//!   of its enclosing alternation branch only;
//! - flag letters may be preceded or followed by `-` and further letters
//!   (`(?-i)`, `(?i-m:`): the letters after `-` are recognized but enable
//!   nothing, since nested flag sets combine by OR.

use vstd::prelude::*;

use crate::ast::{
    branches_view, flags_from_char, lemma_branches_view, lemma_nodes_view, merge_flags, no_flags,
    node_view, node_wf, nodes_view, nodes_wf, AnchorType,
    BackrefView, BackreferenceKind, CharacterTypeKind, EscapedChar, GroupKind, GroupKindView,
    LookaroundKind, NodeView, Quantifier, RegexFlags, RegexNode, UnicodeCategoryKind,
};
use crate::text::{
    ascii_digit, chars_to_string, digit_of, digit_value, hex_digit, hex_of, hex_value,
    is_digit_char, is_hex_char, is_name_char, name_char,
};

verus! {

/// The closed taxonomy of parse errors; the first violation aborts the parse.
#[derive(Debug, Clone, Copy, PartialEq, Eq)]
pub enum ParseError {
    UnexpectedEndOfInput,
    UnexpectedCharacter(char),
    UnclosedCharacterClass,
    InvalidQuantifier,
    InvalidNumber,
    UnclosedGroup,
    InvalidGroupSyntax,
    InvalidBackreference,
    InvalidGroupName,
    InvalidUnicodeCategory,
    InvalidHexNumber,
    InvalidUnicodeValue,
    EmptyAlternation,
    InvalidLookaround,
}

// ---------------------------------------------------------------------------
// Scans over the input: runs of digits, name characters and flag letters
// ---------------------------------------------------------------------------

/// Length of the run of ASCII digits starting at `pos`.
pub open spec fn digit_run_len(s: Seq<char>, pos: nat) -> nat
    decreases s.len() - pos,
{
    if pos < s.len() && is_digit_char(s[pos as int]) {
        1 + digit_run_len(s, pos + 1)
    } else {
        0
    }
}

/// The value of the `k` decimal digits starting at `pos`.
pub open spec fn digits_val(s: Seq<char>, pos: nat, k: nat) -> nat
    decreases k,
{
    if k == 0 {
        0
    } else {
        digits_val(s, pos, (k - 1) as nat) * 10 + digit_of(s[pos + k - 1])
    }
}

/// Length of the run of group-name characters starting at `pos`; a `>` ends
/// the run whatever kind of character it is.
pub open spec fn name_run_len(s: Seq<char>, pos: nat) -> nat
    decreases s.len() - pos,
{
    if pos < s.len() && s[pos as int] != '>' && is_name_char(s[pos as int]) {
        1 + name_run_len(s, pos + 1)
    } else {
        0
    }
}

/// Length of the run of recognized flag letters starting at `pos`.
pub open spec fn flag_run_len(s: Seq<char>, pos: nat) -> nat
    decreases s.len() - pos,
{
    if pos < s.len() && flags_from_char(s[pos as int]) is Some {
        1 + flag_run_len(s, pos + 1)
    } else {
        0
    }
}

/// The OR of the flags named by the `k` flag letters starting at `pos`,
/// merged left to right.
pub open spec fn run_flags(s: Seq<char>, pos: nat, k: nat) -> RegexFlags
    decreases k,
{
    if k == 0 {
        no_flags()
    } else {
        merge_flags(
            run_flags(s, pos, (k - 1) as nat),
            match flags_from_char(s[pos + k - 1]) {
                Some(f) => f,
                None => no_flags(),
            },
        )
    }
}

// ---------------------------------------------------------------------------
// Leaf pieces of the grammar
// ---------------------------------------------------------------------------

/// A group name: a nonempty run of alphanumeric or `_` characters ended by
/// `>`. Returns the name and its length; the parse continues after the `>`.
pub open spec fn sp_group_name(s: Seq<char>, pos: nat) -> Result<(Seq<char>, nat), ParseError> {
    let k = name_run_len(s, pos);
    if pos + k >= s.len() {
        Err(ParseError::InvalidGroupName)
    } else if s[pos + k as int] != '>' {
        Err(ParseError::InvalidGroupName)
    } else if k == 0 {
        Err(ParseError::InvalidGroupName)
    } else {
        Ok((s.subrange(pos as int, (pos + k) as int), k))
    }
}

/// Exactly two hexadecimal digits, as in `\xHH`; the value and the position
/// after them.
pub open spec fn sp_hex2(s: Seq<char>, pos: nat) -> Result<(nat, nat), ParseError> {
    if pos >= s.len() || !is_hex_char(s[pos as int]) {
        Err(ParseError::InvalidHexNumber)
    } else if pos + 1 >= s.len() || !is_hex_char(s[pos + 1 as int]) {
        Err(ParseError::InvalidHexNumber)
    } else {
        Ok((hex_of(s[pos as int]) * 16 + hex_of(s[pos + 1 as int]), pos + 2))
    }
}

/// One to six hexadecimal digits of a `\u{...}` escape, accumulated into
/// `acc`; stops at `}`, at end of input or after six digits.
pub open spec fn sp_uval(s: Seq<char>, pos: nat, count: nat, acc: nat) -> Result<
    (nat, nat),
    ParseError,
>
    decreases s.len() - pos,
{
    if pos < s.len() && s[pos as int] != '}' && count < 6 {
        if is_hex_char(s[pos as int]) {
            sp_uval(s, pos + 1, count + 1, acc * 16 + hex_of(s[pos as int]))
        } else {
            Err(ParseError::InvalidUnicodeValue)
        }
    } else {
        if count == 0 {
            Err(ParseError::InvalidUnicodeValue)
        } else {
            Ok((acc, pos))
        }
    }
}

/// The members of a character class, collected verbatim up to an unescaped
/// `]`; a `\` keeps the following character literally.
pub open spec fn sp_class_chars(s: Seq<char>, pos: nat, acc: Seq<char>) -> Result<
    (Seq<char>, nat),
    ParseError,
>
    decreases s.len() - pos,
{
    if pos >= s.len() {
        Err(ParseError::UnclosedCharacterClass)
    } else if s[pos as int] == ']' {
        Ok((acc, pos + 1))
    } else if s[pos as int] == '\\' {
        if pos + 1 >= s.len() {
            Err(ParseError::UnexpectedEndOfInput)
        } else {
            sp_class_chars(s, pos + 2, acc.push(s[pos + 1 as int]))
        }
    } else {
        sp_class_chars(s, pos + 1, acc.push(s[pos as int]))
    }
}

/// A whole character class, from its opening `[`.
pub open spec fn sp_class(s: Seq<char>, pos: nat) -> Result<(NodeView, nat), ParseError> {
    let negated = pos + 1 < s.len() && s[pos + 1 as int] == '^';
    let body = if negated {
        pos + 2
    } else {
        pos + 1
    };
    match sp_class_chars(s, body, Seq::empty()) {
        Err(e) => Err(e),
        Ok((chars, p)) => Ok((NodeView::CharacterClass { negated, chars }, p)),
    }
}

/// A Unicode category escape after `\p` or `\P`: `{`, one category letter,
/// `}`.
pub open spec fn sp_ucat(s: Seq<char>, pos: nat, negated: bool) -> Result<
    (NodeView, nat),
    ParseError,
> {
    if pos >= s.len() || s[pos as int] != '{' {
        Err(ParseError::InvalidUnicodeCategory)
    } else if pos + 1 >= s.len() {
        Err(ParseError::InvalidUnicodeCategory)
    } else {
        let c = s[pos + 1 as int];
        let cat = if c == 'L' {
            Some(UnicodeCategoryKind::Letter)
        } else if c == 'N' {
            Some(UnicodeCategoryKind::Number)
        } else if c == 'P' {
            Some(UnicodeCategoryKind::Punctuation)
        } else if c == 'S' {
            Some(UnicodeCategoryKind::Symbol)
        } else if c == 'M' {
            Some(UnicodeCategoryKind::Mark)
        } else if c == 'Z' {
            Some(UnicodeCategoryKind::Separator)
        } else if c == 'C' {
            Some(UnicodeCategoryKind::Other)
        } else {
            None
        };
        match cat {
            None => Err(ParseError::InvalidUnicodeCategory),
            Some(category) => {
                if pos + 2 >= s.len() || s[pos + 2 as int] != '}' {
                    Err(ParseError::InvalidUnicodeCategory)
                } else {
                    Ok((NodeView::UnicodeCategory { negated, category }, pos + 3))
                }
            },
        }
    }
}

/// An escape, from the character after the `\`. `gc` is the count of
/// capturing groups opened so far, against which a numeric backreference is
/// validated.
pub open spec fn sp_escape(s: Seq<char>, pos: nat, gc: nat) -> Result<
    (NodeView, nat),
    ParseError,
> {
    if pos >= s.len() {
        Err(ParseError::UnexpectedEndOfInput)
    } else {
        let c = s[pos as int];
        if c == 'b' {
            Ok((NodeView::WordBoundary, pos + 1))
        } else if c == 'k' {
            if pos + 1 >= s.len() || s[pos + 1 as int] != '<' {
                Err(ParseError::InvalidBackreference)
            } else {
                match sp_group_name(s, pos + 2) {
                    Err(e) => Err(e),
                    Ok((name, k)) => Ok(
                        (
                            NodeView::Backreference(BackrefView::NameBased(name)),
                            pos + 2 + k + 1,
                        ),
                    ),
                }
            }
        } else if c == 'w' {
            Ok((NodeView::CharacterType(CharacterTypeKind::Word), pos + 1))
        } else if c == 'W' {
            Ok((NodeView::CharacterType(CharacterTypeKind::NotWord), pos + 1))
        } else if c == 'd' {
            Ok((NodeView::CharacterType(CharacterTypeKind::Digit), pos + 1))
        } else if c == 'D' {
            Ok((NodeView::CharacterType(CharacterTypeKind::NotDigit), pos + 1))
        } else if c == 's' {
            Ok((NodeView::CharacterType(CharacterTypeKind::Whitespace), pos + 1))
        } else if c == 'S' {
            Ok((NodeView::CharacterType(CharacterTypeKind::NotWhitespace), pos + 1))
        } else if c == 'p' || c == 'P' {
            sp_ucat(s, pos + 1, c == 'P')
        } else if c == 'n' {
            Ok((NodeView::CharacterType(CharacterTypeKind::EscapedChar(EscapedChar::NewLine)), pos + 1))
        } else if c == 't' {
            Ok((NodeView::CharacterType(CharacterTypeKind::EscapedChar(EscapedChar::Tab)), pos + 1))
        } else if c == 'r' {
            Ok(
                (
                    NodeView::CharacterType(CharacterTypeKind::EscapedChar(
                        EscapedChar::CarriageReturn,
                    )),
                    pos + 1,
                ),
            )
        } else if c == 'f' {
            Ok((NodeView::CharacterType(CharacterTypeKind::EscapedChar(EscapedChar::FormFeed)), pos + 1))
        } else if c == 'v' {
            Ok(
                (
                    NodeView::CharacterType(CharacterTypeKind::EscapedChar(
                        EscapedChar::VerticalTab,
                    )),
                    pos + 1,
                ),
            )
        } else if c == '0' {
            Ok((NodeView::CharacterType(CharacterTypeKind::EscapedChar(EscapedChar::Null)), pos + 1))
        } else if c == 'x' {
            match sp_hex2(s, pos + 1) {
                Err(e) => Err(e),
                Ok((v, p)) => Ok(
                    (
                        NodeView::CharacterType(CharacterTypeKind::EscapedChar(
                            EscapedChar::Hex(v as u32),
                        )),
                        p,
                    ),
                ),
            }
        } else if c == 'u' {
            if pos + 1 >= s.len() || s[pos + 1 as int] != '{' {
                Err(ParseError::InvalidUnicodeValue)
            } else {
                match sp_uval(s, pos + 2, 0, 0) {
                    Err(e) => Err(e),
                    Ok((v, p)) => {
                        if p >= s.len() || s[p as int] != '}' {
                            Err(ParseError::InvalidUnicodeValue)
                        } else {
                            Ok(
                                (
                                    NodeView::CharacterType(CharacterTypeKind::EscapedChar(
                                        EscapedChar::Unicode(v as u32),
                                    )),
                                    p + 1,
                                ),
                            )
                        }
                    },
                }
            }
        } else if is_digit_char(c) {
            let k = digit_run_len(s, pos);
            let n = digits_val(s, pos, k);
            if n == 0 || n > gc {
                Err(ParseError::InvalidBackreference)
            } else {
                Ok((NodeView::Backreference(BackrefView::NumberBased(n as usize)), pos + k))
            }
        } else {
            Ok((NodeView::Literal(c), pos + 1))
        }
    }
}

/// A curly quantifier, from the character after the `{`: digits, then `}`,
/// or `,` and either `}` or more digits and `}`. A digit string that is
/// empty or does not fit the host's integer range is `InvalidNumber`.
pub open spec fn sp_curly(s: Seq<char>, pos: nat) -> Result<(Quantifier, nat), ParseError> {
    let k = digit_run_len(s, pos);
    let n = digits_val(s, pos, k);
    if k == 0 || n > usize::MAX as nat {
        Err(ParseError::InvalidNumber)
    } else {
        let p = pos + k;
        if p >= s.len() {
            Err(ParseError::UnexpectedEndOfInput)
        } else if s[p as int] == '}' {
            Ok((Quantifier::Exactly(n as usize), p + 1))
        } else if s[p as int] == ',' {
            if p + 1 >= s.len() {
                Err(ParseError::UnexpectedEndOfInput)
            } else if s[p + 1 as int] == '}' {
                Ok((Quantifier::AtLeast(n as usize), p + 2))
            } else {
                let k2 = digit_run_len(s, p + 1);
                let q = p + 1 + k2;
                if q >= s.len() || s[q as int] != '}' {
                    Err(ParseError::InvalidQuantifier)
                } else {
                    let m = digits_val(s, p + 1, k2);
                    if m > usize::MAX as nat {
                        Err(ParseError::InvalidNumber)
                    } else {
                        Ok((Quantifier::Range { min: n as usize, max: m as usize }, q + 1))
                    }
                }
            }
        } else {
            Err(ParseError::InvalidQuantifier)
        }
    }
}

/// The optional quantifier after an atom: `*`, `+` or `?`, each optionally
/// followed by `?` for laziness, or a curly quantifier.
pub open spec fn sp_quant(s: Seq<char>, pos: nat) -> Result<(Option<Quantifier>, nat), ParseError> {
    if pos >= s.len() {
        Ok((None, pos))
    } else {
        let c = s[pos as int];
        let lazy = pos + 1 < s.len() && s[pos + 1 as int] == '?';
        let after = if lazy {
            pos + 2
        } else {
            pos + 1
        };
        if c == '*' {
            Ok((Some(Quantifier::ZeroOrMore { lazy }), after))
        } else if c == '+' {
            Ok((Some(Quantifier::OneOrMore { lazy }), after))
        } else if c == '?' {
            Ok((Some(Quantifier::ZeroOrOne { lazy }), after))
        } else if c == '{' {
            match sp_curly(s, pos + 1) {
                Err(e) => Err(e),
                Ok((q, p)) => Ok((Some(q), p)),
            }
        } else {
            Ok((None, pos))
        }
    }
}

// ---------------------------------------------------------------------------
// The mutually recursive core: alternations, atoms and groups
// ---------------------------------------------------------------------------

/// The position a sub-parse continues at. A successful sub-parse always
/// consumes at least one character and stays within the input; clamping to
/// `pos + 1` makes that fact available to the termination measure.
pub open spec fn step_pos(s: Seq<char>, pos: nat, sub: nat) -> nat {
    if pos < sub && sub <= s.len() {
        sub
    } else {
        pos + 1
    }
}

/// The branch list of an alternation body: atoms are appended to the current
/// branch `cur`, `|` closes it, and `)` or the end of input closes the list.
/// Returns all branches (the finished ones in `done`, then `cur`), the stop
/// position and the group count.
pub open spec fn sp_branches(
    s: Seq<char>,
    pos: nat,
    gc: nat,
    done: Seq<Seq<NodeView>>,
    cur: Seq<NodeView>,
) -> Result<(Seq<Seq<NodeView>>, nat, nat), ParseError>
    decreases s.len() - pos, 4int,
{
    if pos >= s.len() || s[pos as int] == ')' {
        Ok((done.push(cur), pos, gc))
    } else if s[pos as int] == '|' {
        sp_branches(s, pos + 1, gc, done.push(cur), Seq::empty())
    } else {
        match sp_node(s, pos, gc) {
            Err(e) => Err(e),
            Ok((nv, p2, g2)) => sp_branches(s, step_pos(s, pos, p2), g2, done, cur.push(nv)),
        }
    }
}

/// An alternation body. One branch is returned as the node sequence itself;
/// two or more are wrapped in a single `Alternation` node, after rejecting
/// any empty branch as `EmptyAlternation`.
pub open spec fn sp_alternation(s: Seq<char>, pos: nat, gc: nat) -> Result<
    (Seq<NodeView>, nat, nat),
    ParseError,
>
    decreases s.len() - pos, 5int,
{
    match sp_branches(s, pos, gc, Seq::empty(), Seq::empty()) {
        Err(e) => Err(e),
        Ok((branches, p, g)) => {
            if branches.len() <= 1 {
                Ok((branches[0], p, g))
            } else if exists|i: int| 0 <= i < branches.len() && branches[i].len() == 0 {
                Err(ParseError::EmptyAlternation)
            } else {
                Ok((seq![NodeView::Alternation(branches)], p, g))
            }
        },
    }
}

/// The children of a trailing flag group: every atom in the remainder of the
/// enclosing branch, up to `|`, `)` or the end of input, none of which is
/// consumed.
pub open spec fn sp_flag_tail(s: Seq<char>, pos: nat, gc: nat, acc: Seq<NodeView>) -> Result<
    (Seq<NodeView>, nat, nat),
    ParseError,
>
    decreases s.len() - pos, 4int,
{
    if pos >= s.len() || s[pos as int] == ')' || s[pos as int] == '|' {
        Ok((acc, pos, gc))
    } else {
        match sp_node(s, pos, gc) {
            Err(e) => Err(e),
            Ok((nv, p2, g2)) => sp_flag_tail(s, step_pos(s, pos, p2), g2, acc.push(nv)),
        }
    }
}

/// A group, from its opening `(`: non-capturing `(?:`, lookbehind `(?<=` and
/// `(?<!`, named capturing `(?<name>`, lookahead `(?=` and `(?!`, scoped or
/// trailing inline flags, or a plain capturing group, whose number is taken
/// before its body is parsed.
pub open spec fn sp_group(s: Seq<char>, pos: nat, gc: nat) -> Result<
    (NodeView, nat, nat),
    ParseError,
>
    decreases s.len() - pos, 1int,
{
    if pos >= s.len() {
        Err(ParseError::UnexpectedEndOfInput)
    } else if pos + 1 < s.len() && s[pos + 1 as int] == '?' {
        if pos + 2 >= s.len() {
            Err(ParseError::UnexpectedEndOfInput)
        } else {
            let c = s[pos + 2 as int];
            if c == ':' {
                match sp_alternation(s, pos + 3, gc) {
                    Err(e) => Err(e),
                    Ok((ns, p, g)) => {
                        if p >= s.len() || s[p as int] != ')' {
                            Err(ParseError::UnclosedGroup)
                        } else {
                            Ok((NodeView::Group(GroupKindView::NonCapturing, ns), p + 1, g))
                        }
                    },
                }
            } else if c == '<' {
                if pos + 3 < s.len() && (s[pos + 3 as int] == '=' || s[pos + 3 as int] == '!') {
                    let kind = if s[pos + 3 as int] == '!' {
                        LookaroundKind::NegativeLookbehind
                    } else {
                        LookaroundKind::PositiveLookbehind
                    };
                    match sp_alternation(s, pos + 4, gc) {
                        Err(e) => Err(e),
                        Ok((ns, p, g)) => {
                            if p >= s.len() || s[p as int] != ')' {
                                Err(ParseError::UnclosedGroup)
                            } else {
                                Ok((NodeView::Lookaround(kind, ns), p + 1, g))
                            }
                        },
                    }
                } else {
                    match sp_group_name(s, pos + 3) {
                        Err(e) => Err(e),
                        Ok((name, k)) => {
                            match sp_alternation(s, step_pos(s, pos, pos + 4 + k), gc) {
                                Err(e) => Err(e),
                                Ok((ns, p, g)) => {
                                    if p >= s.len() || s[p as int] != ')' {
                                        Err(ParseError::UnclosedGroup)
                                    } else {
                                        Ok(
                                            (
                                                NodeView::Group(
                                                    GroupKindView::Capturing(Some(name)),
                                                    ns,
                                                ),
                                                p + 1,
                                                g,
                                            ),
                                        )
                                    }
                                },
                            }
                        },
                    }
                }
            } else if c == '=' || c == '!' {
                let kind = if c == '!' {
                    LookaroundKind::NegativeLookahead
                } else {
                    LookaroundKind::PositiveLookahead
                };
                match sp_alternation(s, pos + 3, gc) {
                    Err(e) => Err(e),
                    Ok((ns, p, g)) => {
                        if p >= s.len() || s[p as int] != ')' {
                            Err(ParseError::UnclosedGroup)
                        } else {
                            Ok((NodeView::Lookaround(kind, ns), p + 1, g))
                        }
                    },
                }
            } else {
                // Inline flags: letters, an optional `-` and further letters.
                let k1 = flag_run_len(s, pos + 2);
                let flags = run_flags(s, pos + 2, k1);
                let pa = pos + 2 + k1;
                let minus = pa < s.len() && s[pa as int] == '-';
                let k2 = if minus {
                    flag_run_len(s, pa + 1)
                } else {
                    0
                };
                let pb = if minus {
                    pa + 1 + k2
                } else {
                    pa
                };
                if k1 + k2 == 0 {
                    Err(ParseError::InvalidGroupSyntax)
                } else if pb >= s.len() {
                    Err(ParseError::InvalidGroupSyntax)
                } else if s[pb as int] == ':' {
                    match sp_alternation(s, pb + 1, gc) {
                        Err(e) => Err(e),
                        Ok((ns, p, g)) => {
                            if p >= s.len() || s[p as int] != ')' {
                                Err(ParseError::UnclosedGroup)
                            } else {
                                Ok((NodeView::FlagSet(flags, ns), p + 1, g))
                            }
                        },
                    }
                } else if s[pb as int] == ')' {
                    match sp_flag_tail(s, pb + 1, gc, Seq::empty()) {
                        Err(e) => Err(e),
                        Ok((ns, p, g)) => Ok((NodeView::FlagSet(flags, ns), p, g)),
                    }
                } else {
                    Err(ParseError::InvalidGroupSyntax)
                }
            }
        }
    } else {
        // Plain capturing group: it takes its number before the body parse.
        match sp_alternation(s, pos + 1, gc + 1) {
            Err(e) => Err(e),
            Ok((ns, p, g)) => {
                if p >= s.len() || s[p as int] != ')' {
                    Err(ParseError::UnclosedGroup)
                } else {
                    Ok((NodeView::Group(GroupKindView::Capturing(None), ns), p + 1, g))
                }
            },
        }
    }
}

/// One atom, before its optional quantifier.
pub open spec fn sp_atom(s: Seq<char>, pos: nat, gc: nat) -> Result<
    (NodeView, nat, nat),
    ParseError,
>
    decreases s.len() - pos, 2int,
{
    if pos >= s.len() {
        Err(ParseError::UnexpectedEndOfInput)
    } else {
        let c = s[pos as int];
        if c == '.' {
            Ok((NodeView::Dot, pos + 1, gc))
        } else if c == '^' {
            Ok((NodeView::Anchor(AnchorType::Start), pos + 1, gc))
        } else if c == '$' {
            Ok((NodeView::Anchor(AnchorType::End), pos + 1, gc))
        } else if c == '\\' {
            match sp_escape(s, pos + 1, gc) {
                Err(e) => Err(e),
                Ok((nv, p)) => Ok((nv, p, gc)),
            }
        } else if c == '[' {
            match sp_class(s, pos) {
                Err(e) => Err(e),
                Ok((nv, p)) => Ok((nv, p, gc)),
            }
        } else if c == '(' {
            sp_group(s, pos, gc)
        } else {
            Ok((NodeView::Literal(c), pos + 1, gc))
        }
    }
}

/// One atom with its optional quantifier.
pub open spec fn sp_node(s: Seq<char>, pos: nat, gc: nat) -> Result<
    (NodeView, nat, nat),
    ParseError,
>
    decreases s.len() - pos, 3int,
{
    if pos >= s.len() {
        Err(ParseError::UnexpectedEndOfInput)
    } else {
        match sp_atom(s, pos, gc) {
            Err(e) => Err(e),
            Ok((nv, p2, g2)) => match sp_quant(s, p2) {
                Err(e) => Err(e),
                Ok((None, _)) => Ok((nv, p2, g2)),
                Ok((Some(q), p3)) => Ok((NodeView::Quantified(Box::new(nv), q), p3, g2)),
            },
        }
    }
}

/// What parsing a whole pattern yields: the top-level node sequence or the
/// first error. A top-level `)` ends the parse early, leaving the rest of
/// the input unread.
pub open spec fn sp_parse(s: Seq<char>) -> Result<Seq<NodeView>, ParseError> {
    match sp_alternation(s, 0, 0) {
        Err(e) => Err(e),
        Ok((ns, p, g)) => Ok(ns),
    }
}

// ---------------------------------------------------------------------------
// The executable parser
// ---------------------------------------------------------------------------

/// The scan state threaded through the recursive descent: the code-point
/// cursor and the count of capturing groups opened so far.
#[derive(Clone, Copy)]
struct Cursor {
    pos: usize,
    gc: usize,
}

/// The cursor stays within the input, and groups are only counted at
/// positions already scanned.
spec fn cur_wf(s: Seq<char>, c: Cursor) -> bool {
    c.pos <= s.len() && c.gc <= c.pos
}

/// Reads the run of decimal digits at `pos`: its value (exact unless the
/// overflow flag is set, in which case the value exceeds the host's integer
/// range) and the position after the run.
fn scan_number(input: &Vec<char>, pos: usize) -> (r: (usize, bool, usize))
    requires
        pos <= input@.len(),
    ensures
        r.2 == pos + digit_run_len(input@, pos as nat),
        r.2 <= input@.len(),
        !r.1 ==> r.0 == digits_val(input@, pos as nat, digit_run_len(input@, pos as nat)),
        r.1 ==> digits_val(input@, pos as nat, digit_run_len(input@, pos as nat)) > usize::MAX
            as nat,
{
    let ghost s = input@;
    let mut i: usize = pos;
    let mut num: usize = 0;
    let mut over: bool = false;
    while i < input.len() && ascii_digit(input[i])
        invariant
            pos <= i <= s.len(),
            input@ == s,
            digit_run_len(s, pos as nat) == (i - pos) + digit_run_len(s, i as nat),
            !over ==> num == digits_val(s, pos as nat, (i - pos) as nat),
            over ==> digits_val(s, pos as nat, (i - pos) as nat) > usize::MAX as nat,
        decreases s.len() - i,
    {
        let d = digit_value(input[i]) as usize;
        proof {
            assert(digits_val(s, pos as nat, (i - pos + 1) as nat) == digits_val(
                s,
                pos as nat,
                (i - pos) as nat,
            ) * 10 + digit_of(s[i as int]));
        }
        if !over {
            match num.checked_mul(10) {
                None => {
                    over = true;
                },
                Some(t) => {
                    match t.checked_add(d) {
                        None => {
                            over = true;
                        },
                        Some(v) => {
                            num = v;
                        },
                    }
                },
            }
        } else {
            proof {
                let vi = digits_val(s, pos as nat, (i - pos) as nat);
                assert(vi * 10 >= vi) by (nonlinear_arith)
                    requires
                        vi >= 0,
                ;
            }
        }
        i = i + 1;
    }
    (num, over, i)
}

/// Reads a group name at `pos`: a nonempty run of alphanumeric or `_`
/// characters, ended by `>`, which is consumed.
fn parse_group_name(input: &Vec<char>, pos: usize) -> (r: (Result<String, ParseError>, usize))
    requires
        pos <= input@.len(),
    ensures
        ({
            let out = sp_group_name(input@, pos as nat);
            match r.0 {
                Ok(name) => out matches Ok(t) && name@ == t.0 && r.1 == pos + t.1 + 1 && pos + t.1
                    < input@.len(),
                Err(e) => out == Err::<(Seq<char>, nat), ParseError>(e),
            }
        }),
{
    let ghost s = input@;
    let mut i: usize = pos;
    let mut chars: Vec<char> = Vec::new();
    while i < input.len() && input[i] != '>'
        invariant
            pos <= i <= s.len(),
            input@ == s,
            name_run_len(s, pos as nat) == (i - pos) + name_run_len(s, i as nat),
            chars@ == s.subrange(pos as int, i as int),
        decreases s.len() - i,
    {
        if name_char(input[i]) {
            chars.push(input[i]);
            i = i + 1;
            proof {
                assert(chars@ =~= s.subrange(pos as int, i as int));
            }
        } else {
            return (Err(ParseError::InvalidGroupName), i);
        }
    }
    if i == input.len() {
        return (Err(ParseError::InvalidGroupName), i);
    }
    if chars.len() == 0 {
        return (Err(ParseError::InvalidGroupName), i);
    }
    let name = chars_to_string(&chars);
    (Ok(name), i + 1)
}

/// Reads the two hexadecimal digits of a `\x` escape.
fn parse_hex(input: &Vec<char>, pos: usize) -> (r: (Result<u32, ParseError>, usize))
    requires
        pos <= input@.len(),
    ensures
        ({
            let out = sp_hex2(input@, pos as nat);
            match r.0 {
                Ok(v) => out matches Ok(t) && v as nat == t.0 && r.1 == t.1 && r.1 <= input@.len(),
                Err(e) => out == Err::<(nat, nat), ParseError>(e),
            }
        }),
{
    if pos >= input.len() || !hex_digit(input[pos]) {
        return (Err(ParseError::InvalidHexNumber), pos);
    }
    let h1 = hex_value(input[pos]);
    if pos + 1 >= input.len() || !hex_digit(input[pos + 1]) {
        return (Err(ParseError::InvalidHexNumber), pos);
    }
    let h2 = hex_value(input[pos + 1]);
    (Ok(h1 * 16 + h2), pos + 2)
}

/// Powers of sixteen: the bound on a value of `k` hexadecimal digits.
pub open spec fn pow16(k: nat) -> nat
    decreases k,
{
    if k == 0 {
        1nat
    } else {
        16 * pow16((k - 1) as nat)
    }
}

pub proof fn lemma_pow16_le(a: nat, b: nat)
    requires
        a <= b,
    ensures
        pow16(a) <= pow16(b),
    decreases b,
{
    if a < b {
        lemma_pow16_le(a, (b - 1) as nat);
    }
}

/// Reads the one to six hexadecimal digits of a `\u{...}` escape; stops at
/// `}` (left unconsumed), at the end of input, or after six digits.
fn parse_unicode_value(input: &Vec<char>, pos: usize) -> (r: (Result<u32, ParseError>, usize))
    requires
        pos <= input@.len(),
    ensures
        ({
            let out = sp_uval(input@, pos as nat, 0, 0);
            match r.0 {
                Ok(v) => out matches Ok(t) && v as nat == t.0 && r.1 == t.1 && pos <= r.1
                    <= input@.len(),
                Err(e) => out == Err::<(nat, nat), ParseError>(e),
            }
        }),
{
    let ghost s = input@;
    let mut i: usize = pos;
    let mut count: usize = 0;
    let mut acc: u32 = 0;
    while i < input.len() && input[i] != '}' && count < 6
        invariant
            pos <= i <= s.len(),
            input@ == s,
            count <= 6,
            (acc as nat) < pow16(count as nat),
            sp_uval(s, pos as nat, 0, 0) == sp_uval(s, i as nat, count as nat, acc as nat),
        decreases s.len() - i,
    {
        if !hex_digit(input[i]) {
            return (Err(ParseError::InvalidUnicodeValue), i);
        }
        let h = hex_value(input[i]);
        proof {
            reveal_with_fuel(pow16, 7);
            lemma_pow16_le(count as nat, 5);
            assert(acc < 0x100000);
            assert(hex_of(s[i as int]) < 16);
        }
        acc = acc * 16 + h;
        count = count + 1;
        i = i + 1;
    }
    if count == 0 {
        return (Err(ParseError::InvalidUnicodeValue), i);
    }
    (Ok(acc), i)
}

/// Reads a whole character class, `pos` standing on the opening `[`.
fn parse_character_class(input: &Vec<char>, pos: usize) -> (r: (Result<RegexNode, ParseError>, usize))
    requires
        pos < input@.len(),
    ensures
        ({
            let out = sp_class(input@, pos as nat);
            match r.0 {
                Ok(node) => out matches Ok(t) && node_view(node) == t.0 && r.1 == t.1 && pos < r.1
                    <= input@.len(),
                Err(e) => out == Err::<(NodeView, nat), ParseError>(e),
            }
        }),
{
    let ghost s = input@;
    let n = input.len();
    let negated = pos + 1 < n && input[pos + 1] == '^';
    let body: usize = if negated {
        pos + 2
    } else {
        pos + 1
    };
    let mut i: usize = body;
    let mut chars: Vec<char> = Vec::new();
    while i < input.len() && input[i] != ']'
        invariant
            body <= i <= s.len(),
            pos < s.len(),
            input@ == s,
            negated == (pos + 1 < s.len() && s[pos + 1 as int] == '^'),
            body == if negated {
                pos + 2int
            } else {
                pos + 1int
            },
            sp_class_chars(s, body as nat, Seq::empty()) == sp_class_chars(
                s,
                i as nat,
                chars@,
            ),
        decreases s.len() - i,
    {
        if input[i] == '\\' {
            if i + 1 >= input.len() {
                return (Err(ParseError::UnexpectedEndOfInput), i);
            }
            chars.push(input[i + 1]);
            i = i + 2;
        } else {
            chars.push(input[i]);
            i = i + 1;
        }
    }
    if i >= input.len() {
        return (Err(ParseError::UnclosedCharacterClass), i);
    }
    (Ok(RegexNode::new_char_class(chars, negated)), i + 1)
}

/// Reads the `{X}` of a Unicode category escape, `pos` standing right after
/// the `p` or `P`.
fn parse_unicode_category(input: &Vec<char>, pos: usize, negated: bool) -> (r: (
    Result<RegexNode, ParseError>,
    usize,
))
    requires
        pos <= input@.len(),
    ensures
        ({
            let out = sp_ucat(input@, pos as nat, negated);
            match r.0 {
                Ok(node) => out matches Ok(t) && node_view(node) == t.0 && r.1 == t.1 && pos < r.1
                    <= input@.len(),
                Err(e) => out == Err::<(NodeView, nat), ParseError>(e),
            }
        }),
{
    if pos >= input.len() || input[pos] != '{' {
        return (Err(ParseError::InvalidUnicodeCategory), pos);
    }
    if pos + 1 >= input.len() {
        return (Err(ParseError::InvalidUnicodeCategory), pos);
    }
    let c = input[pos + 1];
    let cat = match c {
        'L' => Some(UnicodeCategoryKind::Letter),
        'N' => Some(UnicodeCategoryKind::Number),
        'P' => Some(UnicodeCategoryKind::Punctuation),
        'S' => Some(UnicodeCategoryKind::Symbol),
        'M' => Some(UnicodeCategoryKind::Mark),
        'Z' => Some(UnicodeCategoryKind::Separator),
        'C' => Some(UnicodeCategoryKind::Other),
        _ => None,
    };
    match cat {
        None => (Err(ParseError::InvalidUnicodeCategory), pos),
        Some(category) => {
            if pos + 2 >= input.len() || input[pos + 2] != '}' {
                (Err(ParseError::InvalidUnicodeCategory), pos)
            } else {
                (Ok(RegexNode::new_unicode_category(category, negated)), pos + 3)
            }
        },
    }
}

/// Whether a `?` follows, marking a quantifier lazy; consumes it if so.
fn check_lazy(input: &Vec<char>, pos: usize) -> (r: (bool, usize))
    requires
        pos <= input@.len(),
    ensures
        r.0 == (pos < input@.len() && input@[pos as int] == '?'),
        r.0 ==> r.1 == pos + 1,
        !r.0 ==> r.1 == pos,
        r.1 <= input@.len(),
{
    if pos < input.len() && input[pos] == '?' {
        (true, pos + 1)
    } else {
        (false, pos)
    }
}

/// Reads a curly quantifier body, `pos` standing right after the `{`.
fn parse_curly_quantifier(input: &Vec<char>, pos: usize) -> (r: (
    Result<Quantifier, ParseError>,
    usize,
))
    requires
        pos <= input@.len(),
    ensures
        ({
            let out = sp_curly(input@, pos as nat);
            match r.0 {
                Ok(q) => out matches Ok(t) && q == t.0 && r.1 == t.1 && pos < r.1 <= input@.len(),
                Err(e) => out == Err::<(Quantifier, nat), ParseError>(e),
            }
        }),
{
    let (num, over, p) = scan_number(input, pos);
    if p == pos || over {
        return (Err(ParseError::InvalidNumber), p);
    }
    if p >= input.len() {
        return (Err(ParseError::UnexpectedEndOfInput), p);
    }
    if input[p] == '}' {
        (Ok(Quantifier::Exactly(num)), p + 1)
    } else if input[p] == ',' {
        if p + 1 >= input.len() {
            return (Err(ParseError::UnexpectedEndOfInput), p);
        }
        if input[p + 1] == '}' {
            return (Ok(Quantifier::AtLeast(num)), p + 2);
        }
        let (num2, over2, q) = scan_number(input, p + 1);
        if q >= input.len() || input[q] != '}' {
            return (Err(ParseError::InvalidQuantifier), q);
        }
        if over2 {
            return (Err(ParseError::InvalidNumber), q);
        }
        (Ok(Quantifier::Range { min: num, max: num2 }), q + 1)
    } else {
        (Err(ParseError::InvalidQuantifier), p)
    }
}

/// Reads the quantifier following an atom, if any.
fn try_parse_quantifier(input: &Vec<char>, pos: usize) -> (r: (
    Result<Option<Quantifier>, ParseError>,
    usize,
))
    requires
        pos <= input@.len(),
    ensures
        ({
            let out = sp_quant(input@, pos as nat);
            match r.0 {
                Ok(oq) => out matches Ok(t) && oq == t.0 && r.1 == t.1 && r.1 <= input@.len() && (
                oq is Some ==> r.1 > pos) && (oq is None ==> r.1 == pos),
                Err(e) => out == Err::<(Option<Quantifier>, nat), ParseError>(e),
            }
        }),
{
    if pos >= input.len() {
        return (Ok(None), pos);
    }
    let c = input[pos];
    if c == '*' {
        let (lazy, p) = check_lazy(input, pos + 1);
        (Ok(Some(Quantifier::ZeroOrMore { lazy })), p)
    } else if c == '+' {
        let (lazy, p) = check_lazy(input, pos + 1);
        (Ok(Some(Quantifier::OneOrMore { lazy })), p)
    } else if c == '?' {
        let (lazy, p) = check_lazy(input, pos + 1);
        (Ok(Some(Quantifier::ZeroOrOne { lazy })), p)
    } else if c == '{' {
        let (rq, p) = parse_curly_quantifier(input, pos + 1);
        match rq {
            Err(e) => (Err(e), p),
            Ok(q) => (Ok(Some(q)), p),
        }
    } else {
        (Ok(None), pos)
    }
}

/// Whether a character is a recognized flag letter.
fn is_flag_char(c: char) -> (b: bool)
    ensures
        b == (flags_from_char(c) is Some),
{
    c == 'i' || c == 'm' || c == 's'
}

/// Reads the run of flag letters at `pos`, merging the flags they name.
fn parse_flags(input: &Vec<char>, pos: usize) -> (r: (RegexFlags, usize))
    requires
        pos <= input@.len(),
    ensures
        r.1 == pos + flag_run_len(input@, pos as nat),
        r.1 <= input@.len(),
        r.0 == run_flags(input@, pos as nat, flag_run_len(input@, pos as nat)),
{
    let ghost s = input@;
    let mut i: usize = pos;
    let mut flags = RegexFlags::new();
    while i < input.len() && is_flag_char(input[i])
        invariant
            pos <= i <= s.len(),
            input@ == s,
            flag_run_len(s, pos as nat) == (i - pos) + flag_run_len(s, i as nat),
            flags == run_flags(s, pos as nat, (i - pos) as nat),
        decreases s.len() - i,
    {
        let f = RegexFlags::from_char(input[i]).unwrap();
        flags = flags.merge(&f);
        i = i + 1;
    }
    (flags, i)
}

/// Reads an escape, `pos` standing on the character after the `\`. `gc` is
/// the count of capturing groups opened so far.
fn parse_escape(input: &Vec<char>, pos: usize, gc: usize) -> (r: (
    Result<RegexNode, ParseError>,
    usize,
))
    requires
        pos <= input@.len(),
    ensures
        ({
            let out = sp_escape(input@, pos as nat, gc as nat);
            match r.0 {
                Ok(node) => out matches Ok(t) && node_view(node) == t.0 && r.1 == t.1 && pos < r.1
                    <= input@.len(),
                Err(e) => out == Err::<(NodeView, nat), ParseError>(e),
            }
        }),
{
    if pos >= input.len() {
        return (Err(ParseError::UnexpectedEndOfInput), pos);
    }
    let c = input[pos];
    match c {
        'b' => (Ok(RegexNode::WordBoundary), pos + 1),
        'k' => {
            if pos + 1 >= input.len() || input[pos + 1] != '<' {
                return (Err(ParseError::InvalidBackreference), pos);
            }
            let (rn, p) = parse_group_name(input, pos + 2);
            match rn {
                Err(e) => (Err(e), p),
                Ok(name) => (
                    Ok(RegexNode::new_backreference(BackreferenceKind::NameBased(name))),
                    p,
                ),
            }
        },
        'w' => (Ok(RegexNode::new_character_type(CharacterTypeKind::Word)), pos + 1),
        'W' => (Ok(RegexNode::new_character_type(CharacterTypeKind::NotWord)), pos + 1),
        'd' => (Ok(RegexNode::new_character_type(CharacterTypeKind::Digit)), pos + 1),
        'D' => (Ok(RegexNode::new_character_type(CharacterTypeKind::NotDigit)), pos + 1),
        's' => (Ok(RegexNode::new_character_type(CharacterTypeKind::Whitespace)), pos + 1),
        'S' => (Ok(RegexNode::new_character_type(CharacterTypeKind::NotWhitespace)), pos + 1),
        'p' => parse_unicode_category(input, pos + 1, false),
        'P' => parse_unicode_category(input, pos + 1, true),
        'n' => (
            Ok(RegexNode::new_character_type(CharacterTypeKind::EscapedChar(EscapedChar::NewLine))),
            pos + 1,
        ),
        't' => (
            Ok(RegexNode::new_character_type(CharacterTypeKind::EscapedChar(EscapedChar::Tab))),
            pos + 1,
        ),
        'r' => (
            Ok(
                RegexNode::new_character_type(
                    CharacterTypeKind::EscapedChar(EscapedChar::CarriageReturn),
                ),
            ),
            pos + 1,
        ),
        'f' => (
            Ok(RegexNode::new_character_type(CharacterTypeKind::EscapedChar(EscapedChar::FormFeed))),
            pos + 1,
        ),
        'v' => (
            Ok(
                RegexNode::new_character_type(
                    CharacterTypeKind::EscapedChar(EscapedChar::VerticalTab),
                ),
            ),
            pos + 1,
        ),
        '0' => (
            Ok(RegexNode::new_character_type(CharacterTypeKind::EscapedChar(EscapedChar::Null))),
            pos + 1,
        ),
        'x' => {
            let (rv, p) = parse_hex(input, pos + 1);
            match rv {
                Err(e) => (Err(e), p),
                Ok(v) => (
                    Ok(
                        RegexNode::new_character_type(
                            CharacterTypeKind::EscapedChar(EscapedChar::Hex(v)),
                        ),
                    ),
                    p,
                ),
            }
        },
        'u' => {
            if pos + 1 >= input.len() || input[pos + 1] != '{' {
                return (Err(ParseError::InvalidUnicodeValue), pos);
            }
            let (rv, p) = parse_unicode_value(input, pos + 2);
            match rv {
                Err(e) => (Err(e), p),
                Ok(v) => {
                    if p >= input.len() || input[p] != '}' {
                        (Err(ParseError::InvalidUnicodeValue), p)
                    } else {
                        (
                            Ok(
                                RegexNode::new_character_type(
                                    CharacterTypeKind::EscapedChar(EscapedChar::Unicode(v)),
                                ),
                            ),
                            p + 1,
                        )
                    }
                },
            }
        },
        _ => {
            if ascii_digit(c) {
                let (num, over, p) = scan_number(input, pos);
                if over || num == 0 || num > gc {
                    (Err(ParseError::InvalidBackreference), p)
                } else {
                    (
                        Ok(RegexNode::new_backreference(BackreferenceKind::NumberBased(num))),
                        p,
                    )
                }
            } else {
                (Ok(RegexNode::new_literal(c)), pos + 1)
            }
        },
    }
}

/// Reads one atom with its optional quantifier.
fn parse_node(input: &Vec<char>, cur: Cursor) -> (r: (Result<RegexNode, ParseError>, Cursor))
    requires
        cur_wf(input@, cur),
    ensures
        ({
            let out = sp_node(input@, cur.pos as nat, cur.gc as nat);
            match r.0 {
                Ok(node) => out matches Ok(t) && node_view(node) == t.0 && r.1.pos == t.1
                    && r.1.gc == t.2 && cur_wf(input@, r.1) && cur.pos < r.1.pos && cur.gc
                    <= r.1.gc,
                Err(e) => out == Err::<(NodeView, nat, nat), ParseError>(e),
            }
        }),
    decreases input@.len() - cur.pos, 2int,
{
    let pos = cur.pos;
    let gc = cur.gc;
    if pos >= input.len() {
        return (Err(ParseError::UnexpectedEndOfInput), cur);
    }
    let c = input[pos];
    let atom: (Result<RegexNode, ParseError>, Cursor) = if c == '.' {
        (Ok(RegexNode::Dot), Cursor { pos: pos + 1, gc })
    } else if c == '^' {
        (Ok(RegexNode::new_anchor(AnchorType::Start)), Cursor { pos: pos + 1, gc })
    } else if c == '$' {
        (Ok(RegexNode::new_anchor(AnchorType::End)), Cursor { pos: pos + 1, gc })
    } else if c == '\\' {
        let (re, p) = parse_escape(input, pos + 1, gc);
        match re {
            Err(e) => (Err(e), cur),
            Ok(node) => (Ok(node), Cursor { pos: p, gc }),
        }
    } else if c == '[' {
        let (rc, p) = parse_character_class(input, pos);
        match rc {
            Err(e) => (Err(e), cur),
            Ok(node) => (Ok(node), Cursor { pos: p, gc }),
        }
    } else if c == '(' {
        parse_group(input, cur)
    } else {
        (Ok(RegexNode::new_literal(c)), Cursor { pos: pos + 1, gc })
    };
    match atom.0 {
        Err(e) => (Err(e), atom.1),
        Ok(node) => {
            let c2 = atom.1;
            let (rq, p3) = try_parse_quantifier(input, c2.pos);
            match rq {
                Err(e) => (Err(e), c2),
                Ok(None) => (Ok(node), c2),
                Ok(Some(q)) => (Ok(node.with_quantifier(q)), Cursor { pos: p3, gc: c2.gc }),
            }
        },
    }
}

/// Reads a group, `cur` standing on the opening `(`.
fn parse_group(input: &Vec<char>, cur: Cursor) -> (r: (Result<RegexNode, ParseError>, Cursor))
    requires
        cur_wf(input@, cur),
    ensures
        ({
            let out = sp_group(input@, cur.pos as nat, cur.gc as nat);
            match r.0 {
                Ok(node) => out matches Ok(t) && node_view(node) == t.0 && r.1.pos == t.1
                    && r.1.gc == t.2 && cur_wf(input@, r.1) && cur.pos < r.1.pos && cur.gc
                    <= r.1.gc,
                Err(e) => out == Err::<(NodeView, nat, nat), ParseError>(e),
            }
        }),
    decreases input@.len() - cur.pos, 1int,
{
    let ghost s = input@;
    let pos = cur.pos;
    let gc = cur.gc;
    if pos >= input.len() {
        return (Err(ParseError::UnexpectedEndOfInput), cur);
    }
    if pos + 1 < input.len() && input[pos + 1] == '?' {
        if pos + 2 >= input.len() {
            return (Err(ParseError::UnexpectedEndOfInput), cur);
        }
        let c = input[pos + 2];
        if c == ':' {
            let (rb, c2) = parse_alternation(input, Cursor { pos: pos + 3, gc });
            match rb {
                Err(e) => (Err(e), c2),
                Ok(nodes) => {
                    if c2.pos >= input.len() || input[c2.pos] != ')' {
                        (Err(ParseError::UnclosedGroup), c2)
                    } else {
                        (
                            Ok(RegexNode::new_group(GroupKind::NonCapturing, nodes)),
                            Cursor { pos: c2.pos + 1, gc: c2.gc },
                        )
                    }
                },
            }
        } else if c == '<' {
            if pos + 3 < input.len() && (input[pos + 3] == '=' || input[pos + 3] == '!') {
                let kind = if input[pos + 3] == '!' {
                    LookaroundKind::NegativeLookbehind
                } else {
                    LookaroundKind::PositiveLookbehind
                };
                let (rb, c2) = parse_alternation(input, Cursor { pos: pos + 4, gc });
                match rb {
                    Err(e) => (Err(e), c2),
                    Ok(nodes) => {
                        if c2.pos >= input.len() || input[c2.pos] != ')' {
                            (Err(ParseError::UnclosedGroup), c2)
                        } else {
                            (
                                Ok(RegexNode::new_lookaround(kind, nodes)),
                                Cursor { pos: c2.pos + 1, gc: c2.gc },
                            )
                        }
                    },
                }
            } else {
                let (rn, pn) = parse_group_name(input, pos + 3);
                match rn {
                    Err(e) => (Err(e), cur),
                    Ok(name) => {
                        let (rb, c2) = parse_alternation(input, Cursor { pos: pn, gc });
                        match rb {
                            Err(e) => (Err(e), c2),
                            Ok(nodes) => {
                                if c2.pos >= input.len() || input[c2.pos] != ')' {
                                    (Err(ParseError::UnclosedGroup), c2)
                                } else {
                                    (
                                        Ok(
                                            RegexNode::new_group(
                                                GroupKind::Capturing(Some(name)),
                                                nodes,
                                            ),
                                        ),
                                        Cursor { pos: c2.pos + 1, gc: c2.gc },
                                    )
                                }
                            },
                        }
                    },
                }
            }
        } else if c == '=' || c == '!' {
            let kind = if c == '!' {
                LookaroundKind::NegativeLookahead
            } else {
                LookaroundKind::PositiveLookahead
            };
            let (rb, c2) = parse_alternation(input, Cursor { pos: pos + 3, gc });
            match rb {
                Err(e) => (Err(e), c2),
                Ok(nodes) => {
                    if c2.pos >= input.len() || input[c2.pos] != ')' {
                        (Err(ParseError::UnclosedGroup), c2)
                    } else {
                        (
                            Ok(RegexNode::new_lookaround(kind, nodes)),
                            Cursor { pos: c2.pos + 1, gc: c2.gc },
                        )
                    }
                },
            }
        } else {
            // Inline flags: letters, an optional `-` and further letters.
            let (flags, pa) = parse_flags(input, pos + 2);
            let minus = pa < input.len() && input[pa] == '-';
            let pb = if minus {
                let (_unused, pb) = parse_flags(input, pa + 1);
                pb
            } else {
                pa
            };
            let no_letters = pa == pos + 2 && (!minus || pb == pa + 1);
            if no_letters {
                return (Err(ParseError::InvalidGroupSyntax), cur);
            }
            if pb >= input.len() {
                return (Err(ParseError::InvalidGroupSyntax), cur);
            }
            if input[pb] == ':' {
                let (rb, c2) = parse_alternation(input, Cursor { pos: pb + 1, gc });
                match rb {
                    Err(e) => (Err(e), c2),
                    Ok(nodes) => {
                        if c2.pos >= input.len() || input[c2.pos] != ')' {
                            (Err(ParseError::UnclosedGroup), c2)
                        } else {
                            (
                                Ok(RegexNode::new_flag_set(flags, nodes)),
                                Cursor { pos: c2.pos + 1, gc: c2.gc },
                            )
                        }
                    },
                }
            } else if input[pb] == ')' {
                let (rt, c3) = parse_flag_tail(input, Cursor { pos: pb + 1, gc });
                match rt {
                    Err(e) => (Err(e), c3),
                    Ok(nodes) => (Ok(RegexNode::new_flag_set(flags, nodes)), c3),
                }
            } else {
                (Err(ParseError::InvalidGroupSyntax), cur)
            }
        }
    } else {
        // A plain capturing group takes its number before the body parse.
        let (rb, c2) = parse_alternation(input, Cursor { pos: pos + 1, gc: gc + 1 });
        match rb {
            Err(e) => (Err(e), c2),
            Ok(nodes) => {
                if c2.pos >= input.len() || input[c2.pos] != ')' {
                    (Err(ParseError::UnclosedGroup), c2)
                } else {
                    (
                        Ok(RegexNode::new_group(GroupKind::Capturing(None), nodes)),
                        Cursor { pos: c2.pos + 1, gc: c2.gc },
                    )
                }
            },
        }
    }
}

/// Reads the children of a trailing flag group: atoms up to `|`, `)` or the
/// end of input, none of which is consumed.
fn parse_flag_tail(input: &Vec<char>, cur: Cursor) -> (r: (
    Result<Vec<RegexNode>, ParseError>,
    Cursor,
))
    requires
        cur_wf(input@, cur),
    ensures
        ({
            let out = sp_flag_tail(input@, cur.pos as nat, cur.gc as nat, Seq::empty());
            match r.0 {
                Ok(nodes) => out matches Ok(t) && nodes_view(nodes@) == t.0 && r.1.pos == t.1
                    && r.1.gc == t.2 && cur_wf(input@, r.1) && cur.pos <= r.1.pos && cur.gc
                    <= r.1.gc,
                Err(e) => out == Err::<(Seq<NodeView>, nat, nat), ParseError>(e),
            }
        }),
    decreases input@.len() - cur.pos, 3int,
{
    let ghost s = input@;
    let mut pos = cur.pos;
    let mut gc = cur.gc;
    let mut nodes: Vec<RegexNode> = Vec::new();
    while pos < input.len() && input[pos] != ')' && input[pos] != '|'
        invariant
            input@ == s,
            cur.pos <= pos <= s.len(),
            cur.gc <= gc <= pos,
            sp_flag_tail(s, cur.pos as nat, cur.gc as nat, Seq::empty()) == sp_flag_tail(
                s,
                pos as nat,
                gc as nat,
                nodes_view(nodes@),
            ),
        decreases s.len() - pos,
    {
        let (rn, c2) = parse_node(input, Cursor { pos, gc });
        match rn {
            Err(e) => {
                return (Err(e), c2);
            },
            Ok(node) => {
                let ghost nv = nodes@;
                nodes.push(node);
                proof {
                    assert(nodes@.drop_last() =~= nv);
                    assert(nodes_view(nodes@) == nodes_view(nv).push(node_view(node)));
                    assert(step_pos(s, pos as nat, c2.pos as nat) == c2.pos as nat);
                }
                pos = c2.pos;
                gc = c2.gc;
            },
        }
    }
    (Ok(nodes), Cursor { pos, gc })
}

/// Reads an alternation body: atoms are appended to the current branch, `|`
/// closes it, and `)` or the end of input closes the list. One branch is
/// returned directly; two or more are wrapped in a single alternation node,
/// after rejecting any empty branch.
fn parse_alternation(input: &Vec<char>, cur: Cursor) -> (r: (
    Result<Vec<RegexNode>, ParseError>,
    Cursor,
))
    requires
        cur_wf(input@, cur),
    ensures
        ({
            let out = sp_alternation(input@, cur.pos as nat, cur.gc as nat);
            match r.0 {
                Ok(nodes) => out matches Ok(t) && nodes_view(nodes@) == t.0 && r.1.pos == t.1
                    && r.1.gc == t.2 && cur_wf(input@, r.1) && cur.pos <= r.1.pos && cur.gc
                    <= r.1.gc,
                Err(e) => out == Err::<(Seq<NodeView>, nat, nat), ParseError>(e),
            }
        }),
    decreases input@.len() - cur.pos, 4int,
{
    let ghost s = input@;
    let mut pos = cur.pos;
    let mut gc = cur.gc;
    let mut done: Vec<Vec<RegexNode>> = Vec::new();
    let mut current: Vec<RegexNode> = Vec::new();
    while pos < input.len() && input[pos] != ')'
        invariant
            input@ == s,
            cur.pos <= pos <= s.len(),
            cur.gc <= gc <= pos,
            sp_branches(s, cur.pos as nat, cur.gc as nat, Seq::empty(), Seq::empty()) == sp_branches(
                s,
                pos as nat,
                gc as nat,
                branches_view(done@),
                nodes_view(current@),
            ),
        decreases s.len() - pos,
    {
        if input[pos] == '|' {
            let ghost dv = done@;
            let ghost cv = current@;
            done.push(current);
            current = Vec::new();
            proof {
                assert(done@.drop_last() =~= dv);
                assert(branches_view(done@) == branches_view(dv).push(nodes_view(cv)));
                assert(nodes_view(current@) =~= Seq::<NodeView>::empty());
            }
            pos = pos + 1;
        } else {
            let (rn, c2) = parse_node(input, Cursor { pos, gc });
            match rn {
                Err(e) => {
                    return (Err(e), c2);
                },
                Ok(node) => {
                    let ghost cv = current@;
                    current.push(node);
                    proof {
                        assert(current@.drop_last() =~= cv);
                        assert(nodes_view(current@) == nodes_view(cv).push(node_view(node)));
                        assert(step_pos(s, pos as nat, c2.pos as nat) == c2.pos as nat);
                    }
                    pos = c2.pos;
                    gc = c2.gc;
                },
            }
        }
    }
    if done.len() == 0 {
        return (Ok(current), Cursor { pos, gc });
    }
    let ghost dv = done@;
    let ghost cv = current@;
    done.push(current);
    proof {
        assert(done@.drop_last() =~= dv);
        assert(branches_view(done@) == branches_view(dv).push(nodes_view(cv)));
        lemma_branches_view(done@);
        lemma_nodes_view(cv);
    }
    let ghost dall = done@;
    let ghost branches = branches_view(done@);
    let mut i: usize = 0;
    while i < done.len()
        invariant
            input@ == s,
            done@ == dall,
            branches == branches_view(done@),
            branches.len() == done@.len() >= 2,
            cur.pos <= pos <= s.len(),
            cur.gc <= gc <= pos,
            sp_branches(s, cur.pos as nat, cur.gc as nat, Seq::empty(), Seq::empty())
                == Ok::<(Seq<Seq<NodeView>>, nat, nat), ParseError>((branches, pos as nat, gc as nat)),
            i <= done@.len(),
            forall|j: int| 0 <= j < i ==> branches[j].len() != 0,
            forall|j: int| 0 <= j < done@.len() ==> branches[j] == nodes_view(done@[j]@),
        decreases done@.len() - i,
    {
        if done[i].len() == 0 {
            proof {
                lemma_nodes_view(done@[i as int]@);
                assert(0 <= (i as int) && (i as int) < branches.len() && branches[i as int].len() == 0);
                assert(exists|j: int| 0 <= j < branches.len() && #[trigger] branches[j].len() == 0);
            }
            return (Err(ParseError::EmptyAlternation), Cursor { pos, gc });
        }
        proof {
            lemma_nodes_view(done@[i as int]@);
        }
        i = i + 1;
    }
    let alt = RegexNode::new_alternation(done);
    let mut result: Vec<RegexNode> = Vec::new();
    result.push(alt);
    proof {
        assert(result@.drop_last() =~= Seq::<RegexNode>::empty());
        assert(nodes_view(result@) =~= Seq::empty().push(node_view(alt)));
        assert(nodes_view(result@) =~= seq![NodeView::Alternation(branches)]);
    }
    (Ok(result), Cursor { pos, gc })
}

/// The parser: the pattern text as code points, the scan position, and the
/// count of capturing groups opened so far.
pub struct Parser {
    input: Vec<char>,
    position: usize,
    group_count: usize,
}

impl Parser {
    /// The pattern text being parsed, as a sequence of code points.
    pub closed spec fn text(&self) -> Seq<char> {
        self.input@
    }

    /// The current scan position.
    pub closed spec fn offset(&self) -> nat {
        self.position as nat
    }

    /// How many capturing groups have been opened so far.
    pub closed spec fn groups(&self) -> nat {
        self.group_count as nat
    }

    /// The scan position stays within the text, and groups are only counted
    /// at positions already scanned.
    pub open spec fn wf(&self) -> bool {
        self.offset() <= self.text().len() && self.groups() <= self.offset()
    }

    /// A parser over the given pattern text, at its start.
    pub fn new(input: &str) -> (p: Parser)
        ensures
            p.wf(),
            p.text() == input@,
            p.offset() == 0,
            p.groups() == 0,
    {
        let n = input.unicode_len();
        let mut v: Vec<char> = Vec::new();
        let mut i: usize = 0;
        while i < n
            invariant
                i <= n,
                n == input@.len(),
                v@ == input@.subrange(0, i as int),
            decreases n - i,
        {
            v.push(input.get_char(i));
            i = i + 1;
            proof {
                assert(v@ =~= input@.subrange(0, i as int));
            }
        }
        proof {
            assert(v@ =~= input@);
        }
        Parser { input: v, position: 0, group_count: 0 }
    }

    /// Parses an alternation body from the current position: exactly what
    /// [`sp_alternation`] says, as the top-level node sequence or the first
    /// error. On a fresh parser this is [`sp_parse`] of the whole text.
    pub fn parse(&mut self) -> (r: Result<Vec<RegexNode>, ParseError>)
        requires
            old(self).wf(),
        ensures
            final(self).text() == old(self).text(),
            final(self).wf(),
            ({
                let out = sp_alternation(old(self).text(), old(self).offset(), old(self).groups());
                match r {
                    Ok(nodes) => out matches Ok(t) && nodes_view(nodes@) == t.0
                        && final(self).offset() == t.1 && final(self).groups() == t.2,
                    Err(e) => out == Err::<(Seq<NodeView>, nat, nat), ParseError>(e) && *final(self)
                        == *old(self),
                }
            }),
    {
        let (rb, c2) = parse_alternation(
            &self.input,
            Cursor { pos: self.position, gc: self.group_count },
        );
        match rb {
            Err(e) => Err(e),
            Ok(nodes) => {
                self.position = c2.pos;
                self.group_count = c2.gc;
                Ok(nodes)
            },
        }
    }
}

// ---------------------------------------------------------------------------
// The parser's output satisfies the data model's invariant
// ---------------------------------------------------------------------------

/// An escape yields a well-formed (leaf) node.
proof fn lemma_escape_wf(s: Seq<char>, pos: nat, gc: nat)
    ensures
        sp_escape(s, pos, gc) matches Ok(t) ==> node_wf(t.0),
{
}

/// A character class yields a well-formed (leaf) node.
proof fn lemma_class_wf(s: Seq<char>, pos: nat)
    ensures
        sp_class(s, pos) matches Ok(t) ==> node_wf(t.0),
{
}

/// An atom yields a well-formed node.
proof fn lemma_atom_wf(s: Seq<char>, pos: nat, gc: nat)
    ensures
        sp_atom(s, pos, gc) matches Ok(t) ==> node_wf(t.0),
    decreases s.len() - pos, 2int,
{
    if pos < s.len() {
        let c = s[pos as int];
        if c == '\\' {
            lemma_escape_wf(s, pos + 1, gc);
        } else if c == '[' {
            lemma_class_wf(s, pos);
        } else if c == '(' {
            lemma_group_wf(s, pos, gc);
        }
    }
}

/// An atom with its optional quantifier yields a well-formed node.
proof fn lemma_node_wf(s: Seq<char>, pos: nat, gc: nat)
    ensures
        sp_node(s, pos, gc) matches Ok(t) ==> node_wf(t.0),
    decreases s.len() - pos, 3int,
{
    if pos < s.len() {
        lemma_atom_wf(s, pos, gc);
    }
}

/// A group yields a well-formed node.
proof fn lemma_group_wf(s: Seq<char>, pos: nat, gc: nat)
    ensures
        sp_group(s, pos, gc) matches Ok(t) ==> node_wf(t.0),
    decreases s.len() - pos, 1int,
{
    if pos >= s.len() {
    } else if pos + 1 < s.len() && s[pos + 1 as int] == '?' {
        if pos + 2 >= s.len() {
        } else {
            let c = s[pos + 2 as int];
            if c == ':' {
                lemma_alternation_wf(s, pos + 3, gc);
            } else if c == '<' {
                if pos + 3 < s.len() && (s[pos + 3 as int] == '=' || s[pos + 3 as int] == '!') {
                    lemma_alternation_wf(s, pos + 4, gc);
                } else {
                    match sp_group_name(s, pos + 3) {
                        Err(e) => {},
                        Ok((name, k)) => {
                            lemma_alternation_wf(s, step_pos(s, pos, pos + 4 + k), gc);
                        },
                    }
                }
            } else if c == '=' || c == '!' {
                lemma_alternation_wf(s, pos + 3, gc);
            } else {
                let k1 = flag_run_len(s, pos + 2);
                let pa = pos + 2 + k1;
                let minus = pa < s.len() && s[pa as int] == '-';
                let k2 = if minus {
                    flag_run_len(s, pa + 1)
                } else {
                    0
                };
                let pb = if minus {
                    pa + 1 + k2
                } else {
                    pa
                };
                if k1 + k2 == 0 {
                } else if pb >= s.len() {
                } else if s[pb as int] == ':' {
                    lemma_alternation_wf(s, pb + 1, gc);
                } else if s[pb as int] == ')' {
                    lemma_flag_tail_wf(s, pb + 1, gc, Seq::empty());
                    proof_nodes_wf_empty();
                }
            }
        }
    } else {
        lemma_alternation_wf(s, pos + 1, gc + 1);
    }
}

/// The empty node sequence is well-formed.
proof fn proof_nodes_wf_empty()
    ensures
        nodes_wf(Seq::<NodeView>::empty()),
{
}

/// Scanning branches keeps every branch's nodes well-formed.
proof fn lemma_branches_wf_scan(
    s: Seq<char>,
    pos: nat,
    gc: nat,
    done: Seq<Seq<NodeView>>,
    cur: Seq<NodeView>,
)
    requires
        forall|i: int| 0 <= i < done.len() ==> nodes_wf(#[trigger] done[i]),
        nodes_wf(cur),
    ensures
        sp_branches(s, pos, gc, done, cur) matches Ok(t) ==> t.0.len() >= 1 && (forall|i: int|
            0 <= i < t.0.len() ==> nodes_wf(#[trigger] t.0[i])),
    decreases s.len() - pos, 4int,
{
    if pos >= s.len() || s[pos as int] == ')' {
        assert forall|i: int| 0 <= i < done.push(cur).len() implies nodes_wf(
            #[trigger] done.push(cur)[i],
        ) by {
            if i < done.len() {
                assert(done.push(cur)[i] == done[i]);
            } else {
                assert(done.push(cur)[i] == cur);
            }
        }
    } else if s[pos as int] == '|' {
        assert forall|i: int| 0 <= i < done.push(cur).len() implies nodes_wf(
            #[trigger] done.push(cur)[i],
        ) by {
            if i < done.len() {
                assert(done.push(cur)[i] == done[i]);
            } else {
                assert(done.push(cur)[i] == cur);
            }
        }
        proof_nodes_wf_empty();
        lemma_branches_wf_scan(s, pos + 1, gc, done.push(cur), Seq::empty());
    } else {
        lemma_node_wf(s, pos, gc);
        match sp_node(s, pos, gc) {
            Err(e) => {},
            Ok((nv, p2, g2)) => {
                assert(cur.push(nv).drop_last() =~= cur);
                assert(nodes_wf(cur.push(nv)));
                lemma_branches_wf_scan(s, step_pos(s, pos, p2), g2, done, cur.push(nv));
            },
        }
    }
}

/// Scanning a trailing flag group's children keeps them well-formed.
proof fn lemma_flag_tail_wf(s: Seq<char>, pos: nat, gc: nat, acc: Seq<NodeView>)
    requires
        nodes_wf(acc),
    ensures
        sp_flag_tail(s, pos, gc, acc) matches Ok(t) ==> nodes_wf(t.0),
    decreases s.len() - pos, 4int,
{
    if pos >= s.len() || s[pos as int] == ')' || s[pos as int] == '|' {
    } else {
        lemma_node_wf(s, pos, gc);
        match sp_node(s, pos, gc) {
            Err(e) => {},
            Ok((nv, p2, g2)) => {
                assert(acc.push(nv).drop_last() =~= acc);
                assert(nodes_wf(acc.push(nv)));
                lemma_flag_tail_wf(s, step_pos(s, pos, p2), g2, acc.push(nv));
            },
        }
    }
}

/// An alternation body yields a well-formed node sequence: in particular any
/// alternation node it wraps has at least two branches, none empty.
proof fn lemma_alternation_wf(s: Seq<char>, pos: nat, gc: nat)
    ensures
        sp_alternation(s, pos, gc) matches Ok(t) ==> nodes_wf(t.0),
    decreases s.len() - pos, 5int,
{
    proof_nodes_wf_empty();
    lemma_branches_wf_scan(s, pos, gc, Seq::empty(), Seq::empty());
    match sp_branches(s, pos, gc, Seq::empty(), Seq::empty()) {
        Err(e) => {},
        Ok((branches, p, g)) => {
            if branches.len() <= 1 {
                assert(nodes_wf(branches[0]));
            } else if exists|i: int| 0 <= i < branches.len() && branches[i].len() == 0 {
            } else {
                let alt = NodeView::Alternation(branches);
                crate::ast::lemma_branches_wf_index(branches);
                assert forall|i: int| 0 <= i < branches.len() implies #[trigger] branches[i].len()
                    > 0 && nodes_wf(branches[i]) by {}
                assert(node_wf(alt));
                assert(seq![alt].drop_last() =~= Seq::<NodeView>::empty());
                assert(nodes_wf(seq![alt]));
            }
        },
    }
}

/// Every tree the parser returns satisfies the data model's invariant: an
/// alternation never has fewer than two branches and no branch of it is
/// empty, at every depth.
pub proof fn lemma_parse_wf(s: Seq<char>)
    ensures
        sp_parse(s) matches Ok(ns) ==> nodes_wf(ns),
{
    lemma_alternation_wf(s, 0, 0);
}

} // verus!
