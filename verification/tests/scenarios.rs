use inline_markdown::parser::{get_language, text_to_html2, Parser};
use inline_markdown::tag::{Tag, TagType};

fn root() -> Tag {
    Tag::from(TagType::Paragraph)
}

fn code(language: &str) -> TagType {
    TagType::Code(language.to_string())
}

#[test]
fn empty_text_gives_empty_root() {
    assert_eq!(text_to_html2(""), root());
}

#[test]
fn lone_line_break_gives_one_line_break_node() {
    let mut expected = root();
    expected.add_tag(TagType::NewLine.into());
    assert_eq!(text_to_html2("\n"), expected);
}

#[test]
fn unterminated_markers_stay_as_written() {
    for text in ["abcd**bold", "a*b", "a_b", "a`b", "a~b", "a~~b", "*", "**", "``", "```", "a\\"] {
        let mut expected = root();
        expected.add_text(text);
        assert_eq!(text_to_html2(text), expected, "{}", text);
    }
}

#[test]
fn single_star_is_italics_double_star_is_bold() {
    let mut italics = root();
    italics.add_tag_w_text(TagType::Italics, "x");
    assert_eq!(text_to_html2("*x*"), italics);

    let mut bold = root();
    bold.add_tag_w_text(TagType::Bold, "x");
    assert_eq!(text_to_html2("**x**"), bold);
}

#[test]
fn triple_star_leaves_one_star_on_each_side() {
    let mut expected = root();
    expected.add_text("*");
    expected.add_tag_w_text(TagType::Bold, "x");
    expected.add_text("*");
    assert_eq!(text_to_html2("***x***"), expected);
}

#[test]
fn backslash_takes_exactly_the_next_special_character() {
    let mut expected = root();
    expected.add_text("`");
    expected.add_tag_w_text(code("text"), "hello");
    assert_eq!(text_to_html2("\\``hello`"), expected);

    let mut literal = root();
    literal.add_text("`hello`");
    assert_eq!(text_to_html2("\\`hello`"), literal);

    let mut star = root();
    star.add_text("*a*");
    assert_eq!(text_to_html2("\\*a\\*"), star);

    let mut underscore = root();
    underscore.add_text("_a");
    assert_eq!(text_to_html2("\\_a"), underscore);
}

#[test]
fn backslash_before_another_character_stays() {
    let mut expected = root();
    expected.add_text("a\\b\\~c\\\\");
    assert_eq!(text_to_html2("a\\b\\~c\\\\"), expected);
}

#[test]
fn backslash_at_the_end_of_a_line_stays_and_the_line_ends() {
    let mut expected = root();
    expected.add_text("\\");
    expected.add_tag(TagType::NewLine.into());
    expected.add_tag_w_text(TagType::Italics, "a");
    assert_eq!(text_to_html2("\\\n*a*"), expected);
}

#[test]
fn fence_language_by_line_break_by_space_and_by_default() {
    let mut by_line = root();
    by_line.add_tag_w_text(code("rust"), "hello");
    assert_eq!(text_to_html2("```rust\nhello```"), by_line);

    let mut by_space = root();
    by_space.add_tag_w_text(code("rust"), "hello");
    assert_eq!(text_to_html2("```rust hello```"), by_space);

    let mut by_default = root();
    by_default.add_tag_w_text(code("text"), "hello");
    assert_eq!(text_to_html2("```hello```"), by_default);
}

#[test]
fn get_language_splits_at_the_first_line_break() {
    assert_eq!(
        get_language("rust\n hello\n world"),
        ("rust".to_string(), " hello\n world".to_string())
    );
    assert_eq!(
        get_language("rust more\nhello"),
        ("rust more".to_string(), "hello".to_string())
    );
}

#[test]
fn get_language_splits_at_the_first_space_without_a_line_break() {
    assert_eq!(
        get_language("rust hello world"),
        ("rust".to_string(), "hello world".to_string())
    );
}

#[test]
fn get_language_defaults_to_text() {
    assert_eq!(get_language("hello"), ("text".to_string(), "hello".to_string()));
    assert_eq!(get_language(""), ("text".to_string(), "".to_string()));
    assert_eq!(get_language("\ncode"), ("text".to_string(), "code".to_string()));
    assert_eq!(get_language(" code"), ("text".to_string(), "code".to_string()));
    assert_eq!(get_language(" \t \ncode"), ("text".to_string(), "code".to_string()));
}

#[test]
fn get_language_trims_white_space_around_the_language() {
    assert_eq!(
        get_language("  rust \t\nfn main() {}"),
        ("rust".to_string(), "fn main() {}".to_string())
    );
    assert_eq!(
        get_language("\u{a0}rust\u{2003}\nx"),
        ("rust".to_string(), "x".to_string())
    );
}

#[test]
fn get_language_counts_characters_not_bytes() {
    assert_eq!(
        get_language("r\u{fc}st\n\u{e9}t\u{e9}"),
        ("r\u{fc}st".to_string(), "\u{e9}t\u{e9}".to_string())
    );
}

#[test]
fn emphasis_does_not_cross_a_line_break() {
    let mut expected = root();
    expected.add_text("**bold");
    expected.add_tag(TagType::NewLine.into());
    expected.add_text("still");
    assert_eq!(text_to_html2("**bold\nstill"), expected);

    let mut closed_too_late = root();
    closed_too_late.add_text("*a");
    closed_too_late.add_tag(TagType::NewLine.into());
    closed_too_late.add_text("b*");
    assert_eq!(text_to_html2("*a\nb*"), closed_too_late);
}

#[test]
fn inline_code_does_not_cross_a_line_break() {
    let mut expected = root();
    expected.add_text("`a");
    expected.add_tag(TagType::NewLine.into());
    expected.add_text("b`");
    assert_eq!(text_to_html2("`a\nb`"), expected);
}

#[test]
fn heading_does_not_cross_a_line_break() {
    let mut expected = root();
    expected.add_tag_w_text(TagType::H1, "a");
    expected.add_tag(TagType::NewLine.into());
    expected.add_text("b");
    assert_eq!(text_to_html2("# a\nb"), expected);
}

#[test]
fn fence_keeps_its_line_breaks() {
    let mut expected = root();
    expected.add_tag_w_text(code("text"), "let s = `x`;\n");
    assert_eq!(text_to_html2("```\nlet s = `x`;\n```"), expected);
}

#[test]
fn unclosed_fence_stays_as_written() {
    let mut expected = root();
    expected.add_text("```rust\nhello");
    assert_eq!(text_to_html2("```rust\nhello"), expected);

    let mut half_closed = root();
    half_closed.add_text("```a``");
    assert_eq!(text_to_html2("```a``"), half_closed);
}

#[test]
fn heading_needs_a_space_after_the_marker() {
    let mut literal = root();
    literal.add_text("#heading");
    assert_eq!(text_to_html2("#heading"), literal);

    let mut heading = root();
    heading.add_tag_w_text(TagType::H1, "heading");
    assert_eq!(text_to_html2("# heading"), heading);

    let mut bare = root();
    bare.add_text("##");
    assert_eq!(text_to_html2("##"), bare);
}

#[test]
fn heading_marker_counts_only_at_the_start_of_a_line() {
    let mut expected = root();
    expected.add_text("a # b");
    assert_eq!(text_to_html2("a # b"), expected);

    let mut second_line = root();
    second_line.add_tag_w_text(TagType::H1, "a");
    second_line.add_tag(TagType::NewLine.into());
    second_line.add_tag_w_text(TagType::H2, "b");
    assert_eq!(text_to_html2("# a\n## b"), second_line);
}

#[test]
fn heading_without_content_is_an_empty_heading() {
    let mut expected = root();
    expected.add_tag(TagType::H1.into());
    assert_eq!(text_to_html2("# "), expected);
}

#[test]
fn heading_with_unclosed_markup_keeps_it_as_text() {
    let mut expected = root();
    expected.add_tag_w_text(TagType::H2, "a **b");
    assert_eq!(text_to_html2("## a **b"), expected);
}

#[test]
fn block_quote_needs_mark_and_space_at_the_start_of_a_line() {
    let mut literal = root();
    literal.add_text(">a");
    assert_eq!(text_to_html2(">a"), literal);

    let mut inside = root();
    inside.add_text("a > b");
    assert_eq!(text_to_html2("a > b"), inside);

    let mut empty = root();
    empty.add_tag(TagType::BlockQuote.into());
    assert_eq!(text_to_html2("> "), empty);
}

#[test]
fn block_quotes_on_neighbouring_lines_are_joined() {
    let mut quote = Tag::from(TagType::BlockQuote);
    quote.add_text("a");
    quote.add_tag(TagType::NewLine.into());
    quote.add_text("b");
    let mut expected = root();
    expected.add_tag(quote);
    assert_eq!(text_to_html2("> a\n> b"), expected);
}

#[test]
fn three_block_quote_lines_are_one_block_quote() {
    let mut quote = Tag::from(TagType::BlockQuote);
    quote.add_text("a");
    quote.add_tag(TagType::NewLine.into());
    quote.add_tag_w_text(TagType::Bold, "b");
    quote.add_tag(TagType::NewLine.into());
    quote.add_text("c");
    let mut expected = root();
    expected.add_tag(quote);
    assert_eq!(text_to_html2("> a\n> **b**\n> c"), expected);
}

#[test]
fn block_quotes_with_a_line_between_them_stay_apart() {
    let mut expected = root();
    expected.add_tag_w_text(TagType::BlockQuote, "a");
    expected.add_tag(TagType::NewLine.into());
    expected.add_text("x");
    expected.add_tag(TagType::NewLine.into());
    expected.add_tag_w_text(TagType::BlockQuote, "b");
    assert_eq!(text_to_html2("> a\nx\n> b"), expected);

    let mut blank_line = root();
    blank_line.add_tag_w_text(TagType::BlockQuote, "a");
    blank_line.add_tag(TagType::NewLine.into());
    blank_line.add_tag(TagType::NewLine.into());
    blank_line.add_tag_w_text(TagType::BlockQuote, "b");
    assert_eq!(text_to_html2("> a\n\n> b"), blank_line);
}

#[test]
fn double_tilde_is_strikethrough() {
    let mut expected = root();
    expected.add_tag_w_text(TagType::Strikethrough, "gone");
    assert_eq!(text_to_html2("~~gone~~"), expected);
}

#[test]
fn single_tilde_has_no_meaning() {
    let mut expected = root();
    expected.add_text("a ~b~ c");
    assert_eq!(text_to_html2("a ~b~ c"), expected);

    let mut inside = root();
    inside.add_tag_w_text(TagType::Strikethrough, "a~b");
    assert_eq!(text_to_html2("~~a~b~~"), inside);
}

#[test]
fn closing_marker_gives_up_what_is_open_inside() {
    let mut expected = root();
    expected.add_tag_w_text(TagType::Bold, "a ~~b");
    expected.add_text(" c~~");
    assert_eq!(text_to_html2("**a ~~b** c~~"), expected);
}

#[test]
fn space_after_an_opening_marker_undoes_it() {
    for text in ["* a*", "** a**", "_ a_", "__ a__"] {
        let mut expected = root();
        expected.add_text(text);
        assert_eq!(text_to_html2(text), expected, "{}", text);
    }
}

#[test]
fn doubled_backtick_closed_by_one_keeps_one_backtick() {
    let mut expected = root();
    expected.add_text("`");
    expected.add_tag_w_text(code("text"), "x");
    assert_eq!(text_to_html2("``x`"), expected);
}

#[test]
fn fourth_backtick_is_text_before_the_fence() {
    let mut expected = root();
    expected.add_text("`");
    expected.add_tag_w_text(code("text"), "a");
    assert_eq!(text_to_html2("````a```"), expected);
}

#[test]
fn markup_inside_code_is_text() {
    let mut expected = root();
    expected.add_tag_w_text(code("text"), "*a* _b_ ~~c~~ # > \\ d");
    assert_eq!(text_to_html2("`*a* _b_ ~~c~~ # > \\ d`"), expected);
}

#[test]
fn code_inside_emphasis_is_nested() {
    let mut bold = Tag::from(TagType::Bold);
    bold.add_text("a ");
    bold.add_tag_w_text(code("text"), "b");
    let mut expected = root();
    expected.add_tag(bold);
    assert_eq!(text_to_html2("**a `b`**"), expected);
}

#[test]
fn characters_outside_ascii_are_kept() {
    let mut expected = root();
    expected.add_text("gr\u{fc}\u{df} ");
    expected.add_tag_w_text(TagType::Italics, "\u{4e16}\u{754c}");
    expected.add_text(" \u{1f642}");
    assert_eq!(text_to_html2("gr\u{fc}\u{df} *\u{4e16}\u{754c}* \u{1f642}"), expected);
}

#[test]
fn parser_fed_by_hand_gives_the_same_tree() {
    let text = "# a **b**\n> c `d`\n```rust\nfn e() {}```";
    let mut parser = Parser::new();
    for c in text.chars() {
        parser.process(c);
    }
    assert_eq!(parser.finish(), text_to_html2(text));
}

#[test]
fn parser_that_read_nothing_finishes_with_the_empty_root() {
    assert_eq!(Parser::new().finish(), root());
}

#[test]
fn parse_result_has_no_empty_and_no_neighbouring_texts() {
    fn check(tag: &Tag) {
        let mut previous_was_text = false;
        for value in tag.values.iter() {
            match value {
                inline_markdown::tag::TagValue::Text(text) => {
                    assert!(!text.is_empty());
                    assert!(!previous_was_text);
                    previous_was_text = true;
                }
                inline_markdown::tag::TagValue::Tag(inner) => {
                    check(inner);
                    previous_was_text = false;
                }
            }
        }
    }
    for text in [
        "a*b*c", "**a** **b**", "~a~b~c", "a\\*b", "# a\n> b\n> c", "```x\ny```z", "* a ** b",
        "``a`b", "_a *b_ c*", "\\\n\\\n", "a\n\nb", "***a***", "> \n> ", "#\n##\n",
    ] {
        let tree = text_to_html2(text);
        assert_eq!(tree.tag_type, TagType::Paragraph);
        check(&tree);
    }
}

#[test]
fn every_unclosed_marker_stays_as_written() {
    for marker in ["*", "**", "_", "__", "`", "~", "~~"] {
        for before in ["", "a", "a b", " "] {
            for after in ["", "c", " c", "c d ", " "] {
                let text = format!("{}{}{}", before, marker, after);
                let mut expected = root();
                expected.add_text(&text);
                assert_eq!(text_to_html2(&text), expected, "{:?}", text);
            }
        }
    }
}

#[test]
fn no_text_holds_a_line_break_and_line_breaks_stand_at_the_root() {
    fn check(tag: &Tag, at_root: bool) {
        for value in tag.values.iter() {
            match value {
                inline_markdown::tag::TagValue::Text(text) => assert!(!text.contains('\n')),
                inline_markdown::tag::TagValue::Tag(inner) => {
                    assert_ne!(inner.tag_type, TagType::BlockQuote);
                    if inner.tag_type == TagType::NewLine {
                        assert!(at_root);
                        assert!(inner.values.is_empty());
                    } else {
                        check(inner, false);
                    }
                }
            }
        }
    }
    for text in [
        "**bold\nstill", "*a\nb*", "# a **b\nc** d", "~~a\n~~b", "a\n\n\nb", "__a *b\n c* d__",
        "\n", "## \n# x\n#y", "* a\n** b\n_ c\n__ d", "***a\n***", "a ~b\n~ c",
    ] {
        check(&text_to_html2(text), true);
    }
}
