use inline_markdown::adapter::{tree_of_events, Builder};
use inline_markdown::events::{Level, MdEvent, MdTag};
use inline_markdown::tag::{Tag, TagType};
use inline_markdown::text_to_html;

fn root() -> Tag {
    Tag::from(TagType::Paragraph)
}

fn text(s: &str) -> MdEvent {
    MdEvent::Text(s.to_string())
}

#[test]
fn no_event_gives_the_empty_root() {
    assert_eq!(tree_of_events(&Vec::new()), root());
    assert_eq!(Builder::new().finish(), root());
}

#[test]
fn texts_in_a_row_are_joined() {
    let events = vec![text("a"), text("b"), MdEvent::Html("<c>".to_string())];
    let mut expected = root();
    expected.add_text("ab<c>");
    assert_eq!(tree_of_events(&events), expected);
}

#[test]
fn elements_nest() {
    let events = vec![
        MdEvent::Start(MdTag::Heading(Level::H2)),
        text("a "),
        MdEvent::Start(MdTag::Strong),
        text("b"),
        MdEvent::Start(MdTag::Emphasis),
        text("c"),
        MdEvent::End(MdTag::Emphasis),
        MdEvent::End(MdTag::Strong),
        MdEvent::Start(MdTag::Strikethrough),
        MdEvent::End(MdTag::Strikethrough),
        MdEvent::End(MdTag::Heading(Level::H2)),
    ];
    let mut bold = Tag::from(TagType::Bold);
    bold.add_text("b");
    bold.add_tag_w_text(TagType::Italics, "c");
    let mut heading = Tag::from(TagType::H2);
    heading.add_text("a ");
    heading.add_tag(bold);
    heading.add_tag(TagType::Strikethrough.into());
    let mut expected = root();
    expected.add_tag(heading);
    assert_eq!(tree_of_events(&events), expected);
}

#[test]
fn every_heading_level_has_its_node() {
    let levels = [
        (Level::H1, TagType::H1),
        (Level::H2, TagType::H2),
        (Level::H3, TagType::H3),
        (Level::H4, TagType::H4),
        (Level::H5, TagType::H5),
        (Level::H6, TagType::H6),
    ];
    for (level, kind) in levels {
        let events = vec![MdEvent::Start(MdTag::Heading(level)), MdEvent::End(MdTag::Heading(level))];
        let mut expected = root();
        expected.add_tag(kind.into());
        assert_eq!(tree_of_events(&events), expected);
    }
}

#[test]
fn open_elements_are_closed_at_the_end() {
    let events = vec![MdEvent::Start(MdTag::Strong), text("a"), MdEvent::Start(MdTag::Emphasis)];
    let mut bold = Tag::from(TagType::Bold);
    bold.add_text("a");
    bold.add_tag(TagType::Italics.into());
    let mut expected = root();
    expected.add_tag(bold);
    assert_eq!(tree_of_events(&events), expected);
}

#[test]
fn end_without_start_changes_nothing() {
    let events = vec![
        MdEvent::End(MdTag::Paragraph),
        text("a"),
        MdEvent::End(MdTag::CodeBlock(None)),
        MdEvent::Rule,
    ];
    let mut expected = root();
    expected.add_text("a");
    assert_eq!(tree_of_events(&events), expected);
}

#[test]
fn code_block_language_and_closing_fence() {
    let fenced = vec![
        MdEvent::Start(MdTag::CodeBlock(Some("rust".to_string()))),
        text("a\n"),
        text("b```"),
        MdEvent::End(MdTag::CodeBlock(Some("rust".to_string()))),
    ];
    let mut expected = root();
    expected.add_tag_w_text(TagType::Code("rust".to_string()), "a\nb");
    assert_eq!(tree_of_events(&fenced), expected);

    let unnamed = vec![
        MdEvent::Start(MdTag::CodeBlock(Some(String::new()))),
        text("a`"),
        MdEvent::End(MdTag::CodeBlock(Some(String::new()))),
    ];
    let mut expected = root();
    expected.add_tag_w_text(TagType::Code("text".to_string()), "a");
    assert_eq!(tree_of_events(&unnamed), expected);

    let indented = vec![
        MdEvent::Start(MdTag::CodeBlock(None)),
        text("``"),
        MdEvent::End(MdTag::CodeBlock(None)),
    ];
    let mut expected = root();
    expected.add_tag_w_text(TagType::Code("text".to_string()), "`");
    assert_eq!(tree_of_events(&indented), expected);

    let only_fence = vec![
        MdEvent::Start(MdTag::CodeBlock(None)),
        text("```"),
        MdEvent::End(MdTag::CodeBlock(None)),
    ];
    let mut expected = root();
    expected.add_tag(TagType::Code("text".to_string()).into());
    assert_eq!(tree_of_events(&only_fence), expected);
}

#[test]
fn line_break_is_a_character_inside_a_code_block_and_a_node_outside() {
    let events = vec![
        text("a"),
        MdEvent::SoftBreak,
        MdEvent::Start(MdTag::CodeBlock(None)),
        text("b"),
        MdEvent::HardBreak,
        text("c"),
        MdEvent::End(MdTag::CodeBlock(None)),
        MdEvent::HardBreak,
    ];
    let mut block = Tag::from(TagType::Code("text".to_string()));
    block.add_text("b\nc");
    block.add_tag(TagType::NewLine.into());
    let mut expected = root();
    expected.add_text("a");
    expected.add_tag(TagType::NewLine.into());
    expected.add_tag(block);
    assert_eq!(tree_of_events(&events), expected);
}

#[test]
fn inline_code_is_a_code_node_in_the_default_language() {
    let events = vec![MdEvent::Code("x".to_string())];
    let mut expected = root();
    expected.add_tag_w_text(TagType::Code("text".to_string()), "x");
    assert_eq!(tree_of_events(&events), expected);
}

#[test]
fn end_of_an_element_without_a_node_closes_nothing() {
    let events = vec![
        MdEvent::Start(MdTag::BlockQuote),
        MdEvent::Start(MdTag::Paragraph),
        text("a"),
        MdEvent::End(MdTag::Paragraph),
        MdEvent::Start(MdTag::Paragraph),
        text("b"),
        MdEvent::End(MdTag::Paragraph),
        MdEvent::End(MdTag::BlockQuote),
        MdEvent::Start(MdTag::List),
        MdEvent::Start(MdTag::Item),
        text("c"),
        MdEvent::End(MdTag::Item),
        MdEvent::End(MdTag::List),
        MdEvent::FootnoteReference,
        MdEvent::TaskListMarker,
        MdEvent::Start(MdTag::Link),
        MdEvent::End(MdTag::Link),
        MdEvent::Start(MdTag::Image),
        MdEvent::End(MdTag::Image),
        MdEvent::Start(MdTag::Table),
        MdEvent::Start(MdTag::TableHead),
        MdEvent::Start(MdTag::TableRow),
        MdEvent::Start(MdTag::TableCell),
        MdEvent::End(MdTag::TableCell),
        MdEvent::End(MdTag::TableRow),
        MdEvent::End(MdTag::TableHead),
        MdEvent::End(MdTag::Table),
        MdEvent::Start(MdTag::FootnoteDefinition),
        MdEvent::End(MdTag::FootnoteDefinition),
    ];
    let mut quote = Tag::from(TagType::BlockQuote);
    quote.add_text("ab");
    let mut expected = root();
    expected.add_tag(quote);
    expected.add_text("c");
    assert_eq!(tree_of_events(&events), expected);
}

#[test]
fn engine_keeps_both_paragraphs_of_a_quote_inside_it() {
    let mut quote = Tag::from(TagType::BlockQuote);
    quote.add_text("ab");
    let mut expected = root();
    expected.add_tag(quote);
    assert_eq!(text_to_html("> a\n>\n> b"), expected);
}

#[test]
fn engine_reports_lists_links_and_rules_without_nodes() {
    let mut expected = root();
    expected.add_text("ab");
    assert_eq!(text_to_html("- a\n\n---\n\n[b](c)"), expected);
}

#[test]
fn builder_fed_by_hand_gives_the_same_tree() {
    let events = vec![MdEvent::Start(MdTag::BlockQuote), text("a"), MdEvent::End(MdTag::BlockQuote)];
    let mut builder = Builder::new();
    for event in &events {
        builder.event(event);
    }
    assert_eq!(builder.finish(), tree_of_events(&events));
}

#[test]
fn engine_reports_strikethrough() {
    let mut expected = root();
    expected.add_tag_w_text(TagType::Strikethrough, "gone");
    assert_eq!(text_to_html("~~gone~~"), expected);
}

#[test]
fn engine_reports_block_quotes_and_soft_breaks() {
    let mut quote = Tag::from(TagType::BlockQuote);
    quote.add_text("a");
    quote.add_tag(TagType::NewLine.into());
    quote.add_text("b");
    let mut expected = root();
    expected.add_tag(quote);
    assert_eq!(text_to_html("> a\n> b"), expected);
}

#[test]
fn engine_gives_the_empty_root_for_the_empty_text() {
    assert_eq!(text_to_html(""), root());
}
