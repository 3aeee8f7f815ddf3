use std::collections::VecDeque;

use inline_markdown::md::Markdown;
use inline_markdown::tag::{Tag, TagType, TagValue};
use inline_markdown::tag_builder::TagBuilder;

fn text(s: &str) -> TagValue {
    TagValue::Text(s.to_string())
}

fn node(kind: TagType) -> TagValue {
    TagValue::Tag(Tag::from(kind))
}

#[test]
fn add_text_joins_text_to_text() {
    let mut tag = Tag::from(TagType::Bold);
    tag.add_text("ab");
    tag.add_text("");
    tag.add_text("cd");
    assert_eq!(tag.values, VecDeque::from(vec![text("abcd")]));
}

#[test]
fn add_text_after_a_node_starts_a_new_text() {
    let mut tag = Tag::from(TagType::Paragraph);
    tag.add_text("a");
    tag.add_tag(TagType::NewLine.into());
    tag.add_text("b");
    assert_eq!(tag.values, VecDeque::from(vec![text("a"), node(TagType::NewLine), text("b")]));
}

#[test]
fn add_text_of_nothing_adds_nothing() {
    let mut tag = Tag::from(TagType::Paragraph);
    tag.add_text("");
    assert_eq!(tag.values.len(), 0);
}

#[test]
fn add_tags_keeps_the_order() {
    let mut tag = Tag::from(TagType::Paragraph);
    tag.add_text("a");
    tag.add_tags(VecDeque::from(vec![Tag::from(TagType::Bold), Tag::from(TagType::Italics)]));
    assert_eq!(
        tag.values,
        VecDeque::from(vec![text("a"), node(TagType::Bold), node(TagType::Italics)])
    );
}

#[test]
fn append_values_joins_texts_and_leaves_out_empty_ones() {
    let mut tag = Tag::from(TagType::Paragraph);
    tag.add_text("a");
    tag.append_values(VecDeque::from(vec![
        text("b"),
        text(""),
        text("c"),
        node(TagType::NewLine),
        text(""),
        text("d"),
    ]));
    assert_eq!(tag.values, VecDeque::from(vec![text("abc"), node(TagType::NewLine), text("d")]));
}

#[test]
fn add_tag_w_text_adds_a_node_with_one_text() {
    let mut tag = Tag::from(TagType::Paragraph);
    tag.add_tag_w_text(TagType::Code("rust".to_string()), "x");
    let mut inner = Tag::from(TagType::Code("rust".to_string()));
    inner.add_text("x");
    assert_eq!(tag.values, VecDeque::from(vec![TagValue::Tag(inner)]));

    let mut empty = Tag::from(TagType::Paragraph);
    empty.add_tag_w_text(TagType::Bold, "");
    assert_eq!(empty.values, VecDeque::from(vec![node(TagType::Bold)]));
}

#[test]
fn default_tag_is_the_empty_root() {
    assert_eq!(Tag::default(), Tag::from(TagType::Paragraph));
}

#[test]
fn clone_copies_the_whole_tree() {
    let mut inner = Tag::from(TagType::Bold);
    inner.add_text("b");
    inner.add_tag_w_text(TagType::Code("c".to_string()), "d");
    let mut tag = Tag::from(TagType::H3);
    tag.add_text("a");
    tag.add_tag(inner);
    let copy = tag.clone();
    assert_eq!(copy, tag);
    assert_eq!(TagValue::Tag(copy).clone(), TagValue::Tag(tag));
    assert_eq!(TagType::Code("x".to_string()).clone(), TagType::Code("x".to_string()));
}

#[test]
fn markdown_literals() {
    let expected = [
        (Markdown::Line, ""),
        (Markdown::NewLine, "\n"),
        (Markdown::Star, "*"),
        (Markdown::DoubleStar, "**"),
        (Markdown::Underscore, "_"),
        (Markdown::DoubleUnderscore, "__"),
        (Markdown::Backslash, "\\"),
        (Markdown::Backtick, "`"),
        (Markdown::DoubleBacktick, "``"),
        (Markdown::TripleBacktick, "```"),
        (Markdown::Tilde, "~"),
        (Markdown::DoubleTilde, "~~"),
        (Markdown::H1, "#"),
        (Markdown::H2, "##"),
        (Markdown::H3, "###"),
        (Markdown::H4, "####"),
        (Markdown::H5, "#####"),
        (Markdown::GreaterThan, ">"),
        (Markdown::BlockQuote, ""),
    ];
    for (md, literal) in expected {
        assert_eq!(md.to_string(), literal);
    }
}

#[test]
fn entry_without_children_is_one_text() {
    let mut entry = TagBuilder::from(Markdown::DoubleStar);
    entry.in_progress.push_str("bold");
    assert_eq!(entry.to_values(), VecDeque::from(vec![text("**bold")]));
    assert_eq!(entry.in_progress, "bold");
    assert_eq!(entry.completed.len(), 0);
}

#[test]
fn entry_with_children_keeps_its_marker_in_front() {
    let mut entry = TagBuilder::from(Markdown::Underscore);
    entry.append_value(text("a"));
    entry.append_value(node(TagType::Bold));
    entry.in_progress.push_str("b");
    assert_eq!(
        entry.to_values(),
        VecDeque::from(vec![text("_"), text("a"), node(TagType::Bold), text("b")])
    );
    assert_eq!(entry.in_progress, "");
    assert_eq!(entry.completed.len(), 0);

    let mut no_pending = TagBuilder::from(Markdown::Tilde);
    no_pending.append_value(node(TagType::Italics));
    assert_eq!(no_pending.to_values(), VecDeque::from(vec![text("~"), node(TagType::Italics)]));
}

#[test]
fn entry_saves_its_pending_characters() {
    let mut entry = TagBuilder::default();
    assert_eq!(entry.md, Markdown::Line);
    entry.save_progress();
    assert_eq!(entry.completed.len(), 0);
    entry.in_progress.push_str("a");
    entry.save_progress();
    entry.in_progress.push_str("b");
    entry.save_progress();
    assert_eq!(entry.completed, VecDeque::from(vec![text("ab")]));
    assert_eq!(entry.in_progress, "");
}

#[test]
fn entry_appends_values_in_order() {
    let mut entry = TagBuilder::from(Markdown::Line);
    entry.append_values(VecDeque::from(vec![text("a"), text("b"), node(TagType::NewLine)]));
    entry.append_value(text(""));
    entry.append_value(text("c"));
    assert_eq!(entry.completed, VecDeque::from(vec![text("ab"), node(TagType::NewLine), text("c")]));
}
