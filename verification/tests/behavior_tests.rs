use regex_tree::ast::{
    BackreferenceKind, CharacterTypeKind, EscapedChar, GroupKind, Quantifier, RegexFlags,
    RegexNode,
};
use regex_tree::obfuscator::Obfuscator;
use regex_tree::parser::{ParseError, Parser};
use regex_tree::printer::Printer;
use regex_tree::text::chars_to_string;

#[test]
fn test_empty_pattern() {
    let mut parser = Parser::new("");
    assert_eq!(parser.parse().unwrap(), vec![]);
}

#[test]
fn test_non_ascii_literal() {
    let mut parser = Parser::new("é");
    assert_eq!(parser.parse().unwrap(), vec![RegexNode::new_literal('é')]);
}

#[test]
fn test_top_level_close_paren_stops_parse() {
    // A top-level `)` ends the parse, leaving the rest of the input unread.
    let mut parser = Parser::new("a)b");
    assert_eq!(parser.parse().unwrap(), vec![RegexNode::new_literal('a')]);
}

#[test]
fn test_empty_alternation_error_value() {
    let mut parser = Parser::new("a||b");
    assert_eq!(parser.parse(), Err(ParseError::EmptyAlternation));
}

#[test]
fn test_backreference_to_missing_group() {
    // Group 2 does not exist at the point of the backreference.
    let mut parser = Parser::new("(a)\\2");
    assert_eq!(parser.parse(), Err(ParseError::InvalidBackreference));
}

#[test]
fn test_backreference_zero_is_not_a_backreference() {
    // `\0` is the null escape, not a backreference.
    let mut parser = Parser::new("(a)\\0");
    assert_eq!(
        parser.parse().unwrap(),
        vec![
            RegexNode::new_group(GroupKind::Capturing(None), vec![RegexNode::new_literal('a')]),
            RegexNode::new_character_type(CharacterTypeKind::EscapedChar(EscapedChar::Null)),
        ]
    );
}

#[test]
fn test_group_number_assigned_at_opening() {
    // The opening `(` counts before its body is parsed, so `\1` inside the
    // first group refers to that same group.
    let mut parser = Parser::new("(a\\1)");
    assert_eq!(
        parser.parse().unwrap(),
        vec![RegexNode::new_group(
            GroupKind::Capturing(None),
            vec![
                RegexNode::new_literal('a'),
                RegexNode::new_backreference(BackreferenceKind::NumberBased(1)),
            ]
        )]
    );
}

#[test]
fn test_min_greater_than_max_is_accepted() {
    // `{3,1}` is kept as a zero-repetition range rather than rejected.
    let mut parser = Parser::new("a{3,1}");
    assert_eq!(
        parser.parse().unwrap(),
        vec![RegexNode::new_literal('a').with_quantifier(Quantifier::Range { min: 3, max: 1 })]
    );
}

#[test]
fn test_unexpected_end_of_input() {
    let mut parser = Parser::new("ab\\");
    assert_eq!(parser.parse(), Err(ParseError::UnexpectedEndOfInput));
}

#[test]
fn test_unclosed_character_class() {
    let mut parser = Parser::new("[ab");
    assert_eq!(parser.parse(), Err(ParseError::UnclosedCharacterClass));
    let mut lone = Parser::new("[");
    assert_eq!(lone.parse(), Err(ParseError::UnclosedCharacterClass));
}

#[test]
fn test_invalid_quantifier() {
    let mut parser = Parser::new("a{1,x}");
    assert_eq!(parser.parse(), Err(ParseError::InvalidQuantifier));
    let mut unterminated = Parser::new("a{1,2");
    assert_eq!(unterminated.parse(), Err(ParseError::InvalidQuantifier));
}

#[test]
fn test_invalid_number() {
    let mut parser = Parser::new("a{}");
    assert_eq!(parser.parse(), Err(ParseError::InvalidNumber));
    let mut huge = Parser::new("a{99999999999999999999999999}");
    assert_eq!(huge.parse(), Err(ParseError::InvalidNumber));
}

#[test]
fn test_unclosed_group() {
    let mut parser = Parser::new("(ab");
    assert_eq!(parser.parse(), Err(ParseError::UnclosedGroup));
    let mut non_capturing = Parser::new("(?:ab");
    assert_eq!(non_capturing.parse(), Err(ParseError::UnclosedGroup));
}

#[test]
fn test_invalid_group_syntax() {
    let mut parser = Parser::new("(?x)");
    assert_eq!(parser.parse(), Err(ParseError::InvalidGroupSyntax));
}

#[test]
fn test_group_question_mark_at_end() {
    let mut parser = Parser::new("(?");
    assert_eq!(parser.parse(), Err(ParseError::UnexpectedEndOfInput));
}

#[test]
fn test_invalid_group_name() {
    let mut parser = Parser::new("(?<>a)");
    assert_eq!(parser.parse(), Err(ParseError::InvalidGroupName));
    let mut with_space = Parser::new("(?<a b>x)");
    assert_eq!(with_space.parse(), Err(ParseError::InvalidGroupName));
}

#[test]
fn test_invalid_unicode_category() {
    let mut parser = Parser::new("\\p{X}");
    assert_eq!(parser.parse(), Err(ParseError::InvalidUnicodeCategory));
    let mut unterminated = Parser::new("\\p{");
    assert_eq!(unterminated.parse(), Err(ParseError::InvalidUnicodeCategory));
}

#[test]
fn test_invalid_hex_number() {
    let mut parser = Parser::new("\\xG1");
    assert_eq!(parser.parse(), Err(ParseError::InvalidHexNumber));
    let mut short = Parser::new("\\x2");
    assert_eq!(short.parse(), Err(ParseError::InvalidHexNumber));
}

#[test]
fn test_invalid_unicode_value() {
    let mut parser = Parser::new("\\u{}");
    assert_eq!(parser.parse(), Err(ParseError::InvalidUnicodeValue));
    let mut unterminated = Parser::new("\\u{12");
    assert_eq!(unterminated.parse(), Err(ParseError::InvalidUnicodeValue));
    let mut too_long = Parser::new("\\u{1234567}");
    assert_eq!(too_long.parse(), Err(ParseError::InvalidUnicodeValue));
}

#[test]
fn test_trailing_flags_nest() {
    // A later trailing flag group becomes a child of the earlier one, since
    // the earlier one wraps the whole remainder of its branch.
    let mut parser = Parser::new("a(?i)b(?-i)c");
    let mut on = RegexFlags::new();
    on.case_insensitive = true;
    let off = RegexFlags::new();
    assert_eq!(
        parser.parse().unwrap(),
        vec![
            RegexNode::new_literal('a'),
            RegexNode::new_flag_set(
                on,
                vec![
                    RegexNode::new_literal('b'),
                    RegexNode::new_flag_set(off, vec![RegexNode::new_literal('c')]),
                ]
            ),
        ]
    );
}

#[test]
fn test_trailing_flags_stop_at_branch_end() {
    // The trailing flag group wraps the rest of its own branch only.
    let mut parser = Parser::new("(?i)a|b");
    let mut on = RegexFlags::new();
    on.case_insensitive = true;
    assert_eq!(
        parser.parse().unwrap(),
        vec![RegexNode::new_alternation(vec![
            vec![RegexNode::new_flag_set(on, vec![RegexNode::new_literal('a')])],
            vec![RegexNode::new_literal('b')],
        ])]
    );
}

#[test]
fn test_print_plain_pattern() {
    let mut parser = Parser::new("(cat|dog)+");
    let nodes = parser.parse().unwrap();
    let printer = Printer::new(false);
    assert_eq!(printer.print(&nodes), "(cat|dog)+");
}

#[test]
fn test_print_escapes_and_classes() {
    let mut parser = Parser::new("\\w+\\s*\\p{L}+[^ab]\\x20\\u{1F600}\\b^$.");
    let nodes = parser.parse().unwrap();
    let printer = Printer::new(false);
    assert_eq!(
        printer.print(&nodes),
        "\\w+\\s*\\p{L}+[^ab]\\x20\\u{1F600}\\b^$."
    );
}

#[test]
fn test_print_quantifiers() {
    let mut parser = Parser::new("a{3}b{2,}c{1,3}d*?e+?f??");
    let nodes = parser.parse().unwrap();
    let printer = Printer::new(false);
    assert_eq!(printer.print(&nodes), "a{3}b{2,}c{1,3}d*?e+?f??");
}

#[test]
fn test_print_multi_digit_numbers() {
    let nodes = vec![
        RegexNode::new_literal('a').with_quantifier(Quantifier::Range { min: 10, max: 255 }),
    ];
    let printer = Printer::new(false);
    assert_eq!(printer.print(&nodes), "a{10,255}");
}

#[test]
fn test_print_backreferences_and_names() {
    // Only plain capturing groups take numbers: `(b)` here is group 1.
    let mut parser = Parser::new("(?<test>a)\\k<test>(b)\\1");
    let nodes = parser.parse().unwrap();
    let printer = Printer::new(false);
    assert_eq!(printer.print(&nodes), "(?<test>a)\\k<test>(b)\\1");
}

#[test]
fn test_print_lookarounds() {
    let mut parser = Parser::new("(?=a)(?!b)(?<=c)(?<!d)");
    let nodes = parser.parse().unwrap();
    let printer = Printer::new(false);
    assert_eq!(printer.print(&nodes), "(?=a)(?!b)(?<=c)(?<!d)");
}

#[test]
fn test_print_flag_set_canonical_form() {
    // A trailing flag group prints in the scoped canonical form.
    let mut parser = Parser::new("(?im)a.");
    let nodes = parser.parse().unwrap();
    let printer = Printer::new(false);
    assert_eq!(printer.print(&nodes), "(?im:a.)");
}

#[test]
fn test_print_with_unicode_escapes() {
    let mut parser = Parser::new("ab");
    let nodes = parser.parse().unwrap();
    let printer = Printer::new(true);
    assert_eq!(printer.print(&nodes), "\\u{61}\\u{62}");
}

#[test]
fn test_reparse_printed_pattern() {
    // Re-parsing the canonical printed form yields the same tree.
    let patterns = vec![
        "abc",
        "^a.c$",
        "[abc][^xyz]",
        "(cat|dog)+",
        "(?:ab)(?<name>c)\\k<name>",
        "\\w+\\s*?\\p{L}{2,4}",
        "(?=foo)(?<!bar)\\b",
        "a{3,1}\\x0A\\u{1F600}",
    ];
    for pattern in patterns {
        let mut parser = Parser::new(pattern);
        let nodes = parser.parse().unwrap();
        let text = Printer::new(false).print(&nodes);
        let mut reparser = Parser::new(&text);
        assert_eq!(reparser.parse().unwrap(), nodes);
    }
}

#[test]
fn test_obfuscate_literal_to_class() {
    let mut parser = Parser::new("ab");
    let nodes = parser.parse().unwrap();
    let mut obfuscator = Obfuscator::new();
    let rewritten = obfuscator.obfuscate(nodes);
    assert_eq!(
        rewritten,
        vec![
            RegexNode::new_char_class(vec!['a'], false),
            RegexNode::new_char_class(vec!['b'], false),
        ]
    );
}

#[test]
fn test_obfuscate_character_class() {
    let mut parser = Parser::new("[abc]");
    let nodes = parser.parse().unwrap();
    let mut obfuscator = Obfuscator::new();
    let rewritten = obfuscator.obfuscate(nodes);
    assert_eq!(
        rewritten,
        vec![RegexNode::new_group(
            GroupKind::NonCapturing,
            vec![RegexNode::new_alternation(vec![
                vec![RegexNode::new_char_class(vec!['a'], false)],
                vec![RegexNode::new_char_class(vec!['b'], false)],
                vec![RegexNode::new_char_class(vec!['c'], false)],
            ])]
        )]
    );
}

#[test]
fn test_obfuscate_character_class_prints_escaped() {
    let mut parser = Parser::new("[abc]");
    let nodes = parser.parse().unwrap();
    let mut obfuscator = Obfuscator::new();
    let rewritten = obfuscator.obfuscate(nodes);
    let printer = Printer::new(true);
    assert_eq!(
        printer.print(&rewritten),
        "(?:[\\u{61}]|[\\u{62}]|[\\u{63}])"
    );
}

#[test]
fn test_obfuscate_keeps_negated_class_and_leaves() {
    let mut parser = Parser::new("[^ab].^$\\b\\w\\p{L}(x)\\1");
    let nodes = parser.parse().unwrap();
    let mut reference = Parser::new("[^ab].^$\\b\\w\\p{L}(x)\\1");
    let mut expected = reference.parse().unwrap();
    // Only the literal inside the group is rewritten.
    if let RegexNode::Group(_, children) = &mut expected[7] {
        children[0] = RegexNode::new_char_class(vec!['x'], false);
    } else {
        panic!("expected a group");
    }
    let mut obfuscator = Obfuscator::new();
    let rewritten = obfuscator.obfuscate(nodes);
    assert_eq!(rewritten, expected);
}

#[test]
fn test_obfuscate_recurses_into_wrappers() {
    let mut parser = Parser::new("(?i:a)(?=b)(c|d)e*");
    let nodes = parser.parse().unwrap();
    let mut obfuscator = Obfuscator::new();
    let rewritten = obfuscator.obfuscate(nodes);
    let printed = Printer::new(false).print(&rewritten);
    assert_eq!(printed, "(?i:[a])(?=[b])([c]|[d])[e]*");
}

#[test]
fn test_flags_from_char() {
    let i = RegexFlags::from_char('i').unwrap();
    assert!(i.case_insensitive && !i.multiline && !i.dot_all);
    let m = RegexFlags::from_char('m').unwrap();
    assert!(!m.case_insensitive && m.multiline && !m.dot_all);
    let s = RegexFlags::from_char('s').unwrap();
    assert!(!s.case_insensitive && !s.multiline && s.dot_all);
    assert_eq!(RegexFlags::from_char('x'), None);
}

#[test]
fn test_flags_merge() {
    let i = RegexFlags::from_char('i').unwrap();
    let s = RegexFlags::from_char('s').unwrap();
    let both = i.merge(&s);
    assert!(both.case_insensitive && !both.multiline && both.dot_all);
}

#[test]
fn test_chars_to_string() {
    assert_eq!(chars_to_string(&vec!['a', 'é', '😀']), "aé😀");
    assert_eq!(chars_to_string(&vec![]), "");
}
