use inline_markdown::emojis::{process_stack, replace_emojis};

#[test]
fn replace_emojis_test1() {
    let input = ":)";
    let expected = "ğŸ™‚";
    assert_eq!(&replace_emojis(input), expected);
}

#[test]
fn replace_emojis_keeps_other_tokens() {
    assert_eq!(&replace_emojis("hello world"), "hello world");
    assert_eq!(&replace_emojis(""), "");
    assert_eq!(&replace_emojis("  "), "  ");
}

#[test]
fn replace_emojis_only_whole_tokens() {
    assert_eq!(&replace_emojis("a:)"), "a:)");
    assert_eq!(&replace_emojis(":) :)"), "ğŸ™‚ ğŸ™‚");
    assert_eq!(&replace_emojis("I <3 you"), "I â¤ï¸ you");
}

#[test]
fn process_stack_known_and_unknown() {
    assert_eq!(process_stack("xD"), "ğŸ˜†");
    assert_eq!(process_stack(":("), " ğŸ™");
    assert_eq!(process_stack("xd"), "xd");
    assert_eq!(process_stack(""), "");
}

#[test]
fn replace_emojis_cuts_tokens_at_a_tab() {
    let smile = replace_emojis(":)");
    assert_ne!(smile, ":)");
    assert_eq!(replace_emojis(":)\t:)"), format!("{}\t{}", smile, smile));
}

#[test]
fn replace_emojis_cuts_tokens_at_a_line_break() {
    let smile = replace_emojis(":)");
    let heart = replace_emojis("<3");
    assert_eq!(replace_emojis(":)\n<3"), format!("{}\n{}", smile, heart));
    assert_eq!(replace_emojis("<3\r\n:)\n"), format!("{}\r\n{}\n", heart, smile));
}

#[test]
fn replace_emojis_cuts_tokens_at_white_space_outside_ascii() {
    let smile = replace_emojis(":)");
    assert_eq!(
        replace_emojis(":)\u{a0}:)\u{3000}:)"),
        format!("{}\u{a0}{}\u{3000}{}", smile, smile, smile)
    );
}

#[test]
fn replace_emojis_keeps_runs_of_white_space() {
    let smile = replace_emojis(":)");
    assert_eq!(replace_emojis(" \t :) \n\n"), format!(" \t {} \n\n", smile));
    assert_eq!(replace_emojis("a\u{200b}:)"), "a\u{200b}:)");
}
