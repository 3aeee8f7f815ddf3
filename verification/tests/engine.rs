use inline_markdown::parser::LANGUAGE_TEXT;
use inline_markdown::tag::{Tag, TagType};
use inline_markdown::text_to_html;

#[test]
fn lib_test_edge1() {
    let test = text_to_html("*abc _def*");
    let mut expected = Tag::from(TagType::Paragraph);
    expected.add_tag_w_text(TagType::Italics, "abc _def");
    assert_eq!(test, expected);
}

#[test]
fn lib_test_plain_test() {
    let mut expected = Tag::from(TagType::Paragraph);
    expected.add_text("abcd");

    let test = text_to_html("abcd");
    assert_eq!(test, expected);
}

#[test]
fn lib_test_plain_bold1() {
    let test = text_to_html("abcd**bold**");
    let mut expected = Tag::from(TagType::Paragraph);
    expected.add_text("abcd");
    expected.add_tag_w_text(TagType::Bold, "bold");

    assert_eq!(test, expected);
}

#[test]
fn lib_test_plain_bold2() {
    let test = text_to_html("abcd__bold__");
    let mut expected = Tag::from(TagType::Paragraph);
    expected.add_text("abcd__bold__");
    assert_eq!(test, expected);
}

#[test]
fn lib_test_partial_bold1() {
    let test = text_to_html("abcd**bold");
    let mut expected = Tag::from(TagType::Paragraph);
    expected.add_text("abcd**bold");
    assert_eq!(test, expected);
}

#[test]
fn lib_test_partial_bold2() {
    let test = text_to_html("abcd__bold");
    let mut expected = Tag::from(TagType::Paragraph);
    expected.add_text("abcd__bold");
    assert_eq!(test, expected);
}

#[test]
fn lib_test_nesting1() {
    let test = text_to_html("**bold _end bold**");
    let mut expected = Tag::from(TagType::Paragraph);
    expected.add_tag_w_text(TagType::Bold, "bold _end bold");
    assert_eq!(test, expected);
}

#[test]
fn lib_test_nesting2() {
    let test = text_to_html("**bold _end bold_");
    let mut expected = Tag::from(TagType::Paragraph);
    expected.add_text("**bold ");
    expected.add_tag_w_text(TagType::Italics, "end bold");
    assert_eq!(test, expected);
}

#[test]
fn lib_test_bold1() {
    let test = text_to_html("**bold**");
    let mut expected = Tag::from(TagType::Paragraph);
    expected.add_tag_w_text(TagType::Bold, "bold");
    assert_eq!(test, expected);
}

#[test]
fn lib_test_bold2() {
    let test = text_to_html("__bold__");
    let mut expected = Tag::from(TagType::Paragraph);
    expected.add_tag_w_text(TagType::Bold, "bold");
    assert_eq!(test, expected);
}

#[test]
fn lib_test_bold3() {
    let test = text_to_html("** bold**");
    let mut expected = Tag::from(TagType::Paragraph);
    expected.add_text("** bold**");
    assert_eq!(test, expected);
}

#[test]
fn lib_test_bold4() {
    let test = text_to_html("**bold bold**");
    let mut expected = Tag::from(TagType::Paragraph);
    expected.add_tag_w_text(TagType::Bold, "bold bold");
    assert_eq!(test, expected);
}

#[test]
fn lib_test_triple_star1() {
    let test = text_to_html("***question**");
    let mut expected = Tag::from(TagType::Paragraph);
    expected.add_text("*");
    expected.add_tag_w_text(TagType::Bold, "question");
    assert_eq!(test, expected);
}

#[test]
fn lib_test_triple_star2() {
    let test = text_to_html("***question*");
    let mut expected = Tag::from(TagType::Paragraph);
    expected.add_text("**");
    expected.add_tag_w_text(TagType::Italics, "question");
    assert_eq!(test, expected);
}

#[test]
fn lib_test_triple_star3() {
    let test = text_to_html("***question***");
    let mut expected = Tag::from(TagType::Paragraph);
    let mut italics = Tag::from(TagType::Italics);
    italics.add_tag_w_text(TagType::Bold, "question");
    expected.add_tag(italics);
    assert_eq!(test, expected);
}

#[test]
fn lib_test_triple_underscore1() {
    let test = text_to_html("___question__");
    let mut expected = Tag::from(TagType::Paragraph);
    expected.add_text("_");
    expected.add_tag_w_text(TagType::Bold, "question");
    assert_eq!(test, expected);
}

#[test]
fn lib_test_triple_underscore2() {
    let test = text_to_html("___question_");
    let mut expected = Tag::from(TagType::Paragraph);
    expected.add_text("__");
    expected.add_tag_w_text(TagType::Italics, "question");
    assert_eq!(test, expected);
}

#[test]
fn lib_test_triple_underscore3() {
    let test = text_to_html("___question___");
    let mut expected = Tag::from(TagType::Paragraph);
    let mut italics = Tag::from(TagType::Italics);
    italics.add_tag_w_text(TagType::Bold, "question");
    expected.add_tag(italics);
    assert_eq!(test, expected);
}

#[test]
fn lib_test_plain_italics() {
    let test = text_to_html("abcd*italics*");
    let mut expected = Tag::from(TagType::Paragraph);
    expected.add_text("abcd");
    expected.add_tag_w_text(TagType::Italics, "italics");
    assert_eq!(test, expected);
}

#[test]
fn lib_test_italics1() {
    let test = text_to_html("*italics*");
    let mut expected = Tag::from(TagType::Paragraph);
    expected.add_tag_w_text(TagType::Italics, "italics");
    assert_eq!(test, expected);
}

#[test]
fn lib_test_italics2() {
    let test = text_to_html("_italics_");
    let mut expected = Tag::from(TagType::Paragraph);
    expected.add_tag_w_text(TagType::Italics, "italics");
    assert_eq!(test, expected);
}

#[test]
fn lib_test_nested_bold_italics1() {
    let test = text_to_html("abcd**bold *italics***");
    let mut expected = Tag::from(TagType::Paragraph);
    expected.add_text("abcd");
    let mut bold = Tag::from(TagType::Bold);
    bold.add_text("bold ");
    bold.add_tag_w_text(TagType::Italics, "italics");
    expected.add_tag(bold);
    assert_eq!(test, expected);
}

#[test]
fn lib_test_nested_bold_italics2() {
    let test = text_to_html("abcd__bold *italics*__");
    let mut expected = Tag::from(TagType::Paragraph);
    expected.add_text("abcd__bold ");
    expected.add_tag_w_text(TagType::Italics, "italics");
    expected.add_text("__");
    assert_eq!(test, expected);
}

#[test]
fn lib_test_code1() {
    let test = text_to_html("`hello world`");
    let mut expected = Tag::from(TagType::Paragraph);
    expected.add_tag_w_text(TagType::Code(LANGUAGE_TEXT.into()), "hello world");
    assert_eq!(test, expected);
}

#[test]
fn lib_test_code3() {
    let test = text_to_html(r"\``hello world`");
    let mut expected = Tag::from(TagType::Paragraph);
    expected.add_text(r"`");
    expected.add_tag_w_text(TagType::Code(LANGUAGE_TEXT.into()), "hello world");
    assert_eq!(test, expected);
}

#[test]
fn lib_test_code4() {
    let test = text_to_html(r"```rust hello world```");
    let mut expected = Tag::from(TagType::Paragraph);
    expected.add_tag_w_text(TagType::Code("text".into()), "rust hello world");
    assert_eq!(test, expected);
}

#[test]
fn lib_test_code5() {
    let test = text_to_html(r"```rust \`hello world```");
    let mut expected = Tag::from(TagType::Paragraph);
    expected.add_tag_w_text(TagType::Code("text".into()), r"rust \`hello world");
    assert_eq!(test, expected);
}

#[test]
fn lib_test_code6() {
    let test = text_to_html("```rust\n hello\n world```");
    let mut expected = Tag::from(TagType::Paragraph);
    expected.add_tag_w_text(TagType::Code("rust".into()), " hello\n world");
    assert_eq!(test, expected);
}

#[test]
fn lib_test_blockquote1() {
    let test = text_to_html("> some blockquote");
    let mut expected = Tag::from(TagType::Paragraph);
    expected.add_tag_w_text(TagType::BlockQuote, "some blockquote");
    assert_eq!(test, expected);
}

#[test]
fn lib_test_blockquote2() {
    let test = text_to_html("> some blockquote __bold__");
    let mut expected = Tag::from(TagType::Paragraph);
    let mut bq = Tag::from(TagType::BlockQuote);
    bq.add_text("some blockquote ");
    bq.add_tag_w_text(TagType::Bold, "bold");
    expected.add_tag(bq);
    assert_eq!(test, expected);
}

#[test]
fn lib_test_h1() {
    let text = text_to_html("# heading");
    let mut expected = Tag::from(TagType::Paragraph);
    expected.add_tag_w_text(TagType::H1, "heading");
    assert_eq!(text, expected);
}

#[test]
fn lib_test_h1_1() {
    let text = text_to_html("# heading **bold**");
    let mut expected = Tag::from(TagType::Paragraph);
    let mut h1 = Tag::from(TagType::H1);
    h1.add_text("heading ");
    h1.add_tag_w_text(TagType::Bold, "bold");
    expected.add_tag(h1);
    assert_eq!(text, expected);
}

#[test]
fn lib_test_h1_2() {
    let text = text_to_html("# heading **bold**\n# heading **bold**");
    let mut expected = Tag::from(TagType::Paragraph);
    let mut h1 = Tag::from(TagType::H1);
    h1.add_text("heading ");
    h1.add_tag_w_text(TagType::Bold, "bold");
    expected.add_tag(h1.clone());
    expected.add_tag(h1);
    assert_eq!(text, expected);
}

#[test]
fn lib_test_h1_fail() {
    let text = text_to_html("#heading");
    let mut expected = Tag::from(TagType::Paragraph);
    expected.add_text("#heading");
    assert_eq!(text, expected);
}

#[test]
fn lib_test_h2() {
    let text = text_to_html("## heading");
    let mut expected = Tag::from(TagType::Paragraph);
    expected.add_tag_w_text(TagType::H2, "heading");
    assert_eq!(text, expected);
}

#[test]
fn lib_test_h3() {
    let text = text_to_html("### heading");
    let mut expected = Tag::from(TagType::Paragraph);
    expected.add_tag_w_text(TagType::H3, "heading");
    assert_eq!(text, expected);
}

#[test]
fn lib_test_h4() {
    let text = text_to_html("#### heading");
    let mut expected = Tag::from(TagType::Paragraph);
    expected.add_tag_w_text(TagType::H4, "heading");
    assert_eq!(text, expected);
}

#[test]
fn lib_test_h5() {
    let text = text_to_html("##### heading");
    let mut expected = Tag::from(TagType::Paragraph);
    expected.add_tag_w_text(TagType::H5, "heading");
    assert_eq!(text, expected);
}

#[test]
fn lib_test_h6() {
    let text = text_to_html("###### heading");
    let mut expected = Tag::from(TagType::Paragraph);
    expected.add_tag_w_text(TagType::H6, "heading");
    assert_eq!(text, expected);
}
