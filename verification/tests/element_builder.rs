use std::collections::VecDeque;

use inline_markdown::element_builder::{text_to_html2, Element, Tag};

fn element_to_vecdeque(tag: Tag, value: &str) -> VecDeque<Element> {
    let mut m = VecDeque::new();
    m.push_back(Element::new(tag, value.into()));
    m
}

fn vec_to_vecdeque(mut v: Vec<(Tag, &str)>) -> VecDeque<Element> {
    VecDeque::from_iter(
        v.drain(..)
            .map(|(tag, value)| Element::new(tag, value.into())),
    )
}

#[test]
fn element_builder_test_plain_test() {
    let test = text_to_html2("abcd");
    let expected = element_to_vecdeque(Tag::Span, "abcd");
    assert_eq!(test, expected);
}

#[test]
fn element_builder_test_plain_bold1() {
    let test = text_to_html2("abcd**bold**");
    let expected = vec_to_vecdeque(vec![(Tag::Span, "abcd"), (Tag::Bold, "bold")]);
    assert_eq!(test, expected);
}

#[test]
fn flat_italics_after_text() {
    let test = text_to_html2("ab*cd*");
    let expected = vec_to_vecdeque(vec![(Tag::Span, "ab"), (Tag::Italics, "cd")]);
    assert_eq!(test, expected);
}

#[test]
fn flat_unclosed_markup_stays_as_text() {
    let test = text_to_html2("ab**cd");
    let expected = vec_to_vecdeque(vec![(Tag::Span, "ab"), (Tag::Span, "**cd")]);
    assert_eq!(test, expected);
}

#[test]
fn flat_text_after_bold_opens_a_new_span() {
    let test = text_to_html2("**a**b");
    let expected = vec_to_vecdeque(vec![(Tag::Span, ""), (Tag::Bold, "a"), (Tag::Span, "b")]);
    assert_eq!(test, expected);
}

#[test]
fn flat_empty_text_is_one_empty_span() {
    let test = text_to_html2("");
    let expected = element_to_vecdeque(Tag::Span, "");
    assert_eq!(test, expected);
}

#[test]
fn element_from_kind_has_no_text() {
    assert_eq!(Element::from(Tag::Bold), Element::new(Tag::Bold, String::new()));
}

#[test]
fn elements_and_kinds_can_be_copied() {
    let element = Element::new(Tag::Code("rust".to_string()), "x".to_string());
    assert_eq!(element.clone(), element);
    assert_eq!(Tag::Italics.clone(), Tag::Italics);
    let parsed = text_to_html2("a**b**");
    assert_eq!(parsed.clone(), parsed);
}
