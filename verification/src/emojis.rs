//! Emoji shorthands: a token between spaces that is a known shorthand is
//! replaced by its glyph.
use crate::text::{
    char_is_whitespace, chars_of, first_whitespace, is_whitespace, lemma_first_whitespace_is,
    push_char, string_of,
};
use vstd::prelude::*;
use vstd::string::StringExecFns;

verus! {

/// The glyph that a shorthand stands for; any other token is itself.
pub open spec fn emoji_for(token: Seq<char>) -> Seq<char> {
    if token == "<3"@ {
        "â¤ï¸"@
    } else if token == ">:)"@ {
        "ğŸ˜ˆ"@
    } else if token == ">:("@ {
        "ğŸ˜ "@
    } else if token == ":)"@ {
        "ğŸ™‚"@
    } else if token == ":("@ {
        " ğŸ™"@
    } else if token == ":/"@ {
        "ğŸ«¤"@
    } else if token == ";)"@ {
        "ğŸ˜‰"@
    } else if token == ":D"@ {
        "ğŸ˜"@
    } else if token == "xD"@ {
        "ğŸ˜†"@
    } else if token == ":p"@ {
        "ğŸ˜›"@
    } else if token == ";p"@ {
        "ğŸ˜œ"@
    } else if token == "xp"@ {
        "ğŸ˜"@
    } else if token == ":|"@ {
        "ğŸ˜"@
    } else if token == ":O"@ {
        "ğŸ˜®"@
    } else {
        token
    }
}

/// The text with each of its tokens replaced by what `emoji_for` gives for
/// it. The tokens are what stands between the white space of the text, and
/// every white-space character stays where it is.
pub open spec fn substitute(text: Seq<char>) -> Seq<char>
    decreases text.len(),
{
    let at = first_whitespace(text);
    if 0 <= at < text.len() {
        emoji_for(text.take(at)).push(text[at]) + substitute(text.skip(at + 1))
    } else {
        emoji_for(text)
    }
}

/// Whether two texts hold the same characters.
pub fn same_text(a: &str, b: &str) -> (same: bool)
    ensures
        same == (a@ == b@),
{
    let x = chars_of(a);
    let y = chars_of(b);
    if x.len() != y.len() {
        return false;
    }
    let mut i: usize = 0;
    while i < x.len()
        invariant
            i <= x@.len(),
            x@.len() == y@.len(),
            x@ == a@,
            y@ == b@,
            forall|j: int| 0 <= j < i ==> x@[j] == y@[j],
        decreases x@.len() - i,
    {
        if x[i] != y[i] {
            return false;
        }
        i += 1;
    }
    assert(x@ =~= y@);
    true
}

/// The glyph of one token, or the token itself where it is no shorthand.
pub fn process_stack<'a>(stack: &'a str) -> (glyph: &'a str)
    ensures
        glyph@ == emoji_for(stack@),
{
    if same_text(stack, "<3") {
        "â¤ï¸"
    } else if same_text(stack, ">:)") {
        "ğŸ˜ˆ"
    } else if same_text(stack, ">:(") {
        "ğŸ˜ "
    } else if same_text(stack, ":)") {
        "ğŸ™‚"
    } else if same_text(stack, ":(") {
        " ğŸ™"
    } else if same_text(stack, ":/") {
        "ğŸ«¤"
    } else if same_text(stack, ";)") {
        "ğŸ˜‰"
    } else if same_text(stack, ":D") {
        "ğŸ˜"
    } else if same_text(stack, "xD") {
        "ğŸ˜†"
    } else if same_text(stack, ":p") {
        "ğŸ˜›"
    } else if same_text(stack, ";p") {
        "ğŸ˜œ"
    } else if same_text(stack, "xp") {
        "ğŸ˜"
    } else if same_text(stack, ":|") {
        "ğŸ˜"
    } else if same_text(stack, ":O") {
        "ğŸ˜®"
    } else {
        stack
    }
}

/// Replaces the emoji shorthands of a text by their glyphs. A shorthand
/// counts only as a whole token between white space; everything else, the
/// white space too, stays as it is.
pub fn replace_emojis(input: &str) -> (output: String)
    ensures
        output@ == substitute(input@),
{
    let chars = chars_of(input);
    let n = chars.len();
    let mut builder = String::new();
    let mut from: usize = 0;
    assert(chars@.skip(0) =~= chars@);
    loop
        invariant_except_break
            builder@ + substitute(chars@.skip(from as int)) == substitute(input@),
        invariant
            from <= n == chars@.len(),
            chars@ == input@,
        ensures
            builder@ == substitute(input@),
        decreases n - from,
    {
        let ghost rest = chars@.skip(from as int);
        let mut to: usize = from;
        while to < n && !is_whitespace(chars[to])
            invariant
                from <= to <= n == chars@.len(),
                forall|j: int| from <= j < to ==> !char_is_whitespace(chars@[j]),
            decreases n - to,
        {
            to += 1;
        }
        proof {
            assert forall|j: int| 0 <= j < to - from implies !char_is_whitespace(rest[j]) by {
                assert(rest[j] == chars@[from + j]);
            }
            if to < n {
                assert(rest[to - from] == chars@[to as int]);
            }
            lemma_first_whitespace_is(rest, to - from);
            assert(rest.take(to - from) =~= chars@.subrange(from as int, to as int));
        }
        let token = string_of(&chars, from, to);
        let ghost before = builder@;
        builder.append(process_stack(token.as_str()));
        if to < n {
            push_char(&mut builder, chars[to]);
            proof {
                assert(rest.skip(to - from + 1) =~= chars@.skip(to + 1));
                assert(builder@ + substitute(chars@.skip(to + 1)) =~= before + substitute(rest));
            }
            from = to + 1;
        } else {
            proof {
                assert(rest.take(to - from) =~= rest);
                assert(builder@ =~= before + substitute(rest));
            }
            break ;
        }
    }
    builder
}

/// A text without white space is one token.
pub proof fn lemma_substitute_one_token(token: Seq<char>)
    requires
        forall|i: int| 0 <= i < token.len() ==> !char_is_whitespace(token[i]),
    ensures
        substitute(token) == emoji_for(token),
{
    lemma_first_whitespace_is(token, token.len() as int);
}

/// Substitution goes token by token: what stands before the first white
/// space of a text is replaced on its own, the white space stays, and the
/// rest follows.
pub proof fn lemma_substitute_at_whitespace(token: Seq<char>, white: char, rest: Seq<char>)
    requires
        forall|i: int| 0 <= i < token.len() ==> !char_is_whitespace(token[i]),
        char_is_whitespace(white),
    ensures
        substitute(token + seq![white] + rest) == emoji_for(token).push(white) + substitute(
            rest,
        ),
{
    let text = token + seq![white] + rest;
    let at = token.len() as int;
    assert forall|j: int| 0 <= j < at implies !char_is_whitespace(text[j]) by {
        assert(text[j] == token[j]);
    }
    assert(text[at] == white);
    lemma_first_whitespace_is(text, at);
    assert(text.take(at) =~= token);
    assert(text.skip(at + 1) =~= rest);
}

/// Two shorthands with one white-space character between them are both
/// replaced, and the character between them stays.
pub proof fn lemma_substitute_two_tokens(a: Seq<char>, white: char, b: Seq<char>)
    requires
        forall|i: int| 0 <= i < a.len() ==> !char_is_whitespace(a[i]),
        forall|i: int| 0 <= i < b.len() ==> !char_is_whitespace(b[i]),
        char_is_whitespace(white),
    ensures
        substitute(a + seq![white] + b) == substitute(a).push(white) + substitute(b),
{
    lemma_substitute_at_whitespace(a, white, b);
    lemma_substitute_one_token(a);
}

/// No token of the text is a shorthand: each is its own glyph.
pub open spec fn without_shorthand(text: Seq<char>) -> bool
    decreases text.len(),
{
    let at = first_whitespace(text);
    if 0 <= at < text.len() {
        emoji_for(text.take(at)) == text.take(at) && without_shorthand(text.skip(at + 1))
    } else {
        emoji_for(text) == text
    }
}

/// A text in which no token is a shorthand comes back unchanged.
pub proof fn lemma_substitute_keeps_other_tokens(text: Seq<char>)
    requires
        without_shorthand(text),
    ensures
        substitute(text) == text,
    decreases text.len(),
{
    let at = first_whitespace(text);
    if 0 <= at < text.len() {
        lemma_substitute_keeps_other_tokens(text.skip(at + 1));
        assert(text.take(at).push(text[at]) + text.skip(at + 1) =~= text);
    }
}

} // verus!
