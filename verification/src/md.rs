//! The kinds of open constructs and the source text of each.
use vstd::prelude::*;

verus! {

/// The kind of an open construct on the parser's stack: one case per marker
/// that the scanner recognises.
#[derive(Clone, Copy, PartialEq, Eq, Structural, Debug)]
pub enum Markdown {
    /// A run of ordinary characters.
    Line,
    NewLine,
    /// `*`, opens italics.
    Star,
    /// `**`, opens bold.
    DoubleStar,
    /// `_`, opens italics.
    Underscore,
    /// `__`, opens bold.
    DoubleUnderscore,
    /// `\`, escapes the next character.
    Backslash,
    /// `` ` ``, opens inline code.
    Backtick,
    DoubleBacktick,
    /// Three backticks, a code fence.
    TripleBacktick,
    Tilde,
    /// `~~`, opens strikethrough.
    DoubleTilde,
    H1,
    H2,
    H3,
    H4,
    H5,
    /// `>` at the start of a line, not yet followed by a space.
    GreaterThan,
    BlockQuote,
}

impl Markdown {
    /// The source text that a construct of this kind falls back to when it
    /// is never closed.
    pub open spec fn literal(self) -> Seq<char> {
        match self {
            Markdown::Line | Markdown::BlockQuote => Seq::empty(),
            Markdown::NewLine => seq!['\n'],
            Markdown::Star => seq!['*'],
            Markdown::DoubleStar => seq!['*', '*'],
            Markdown::Underscore => seq!['_'],
            Markdown::DoubleUnderscore => seq!['_', '_'],
            Markdown::Backtick => seq!['`'],
            Markdown::Backslash => seq!['\\'],
            Markdown::DoubleBacktick => seq!['`', '`'],
            Markdown::TripleBacktick => seq!['`', '`', '`'],
            Markdown::Tilde => seq!['~'],
            Markdown::DoubleTilde => seq!['~', '~'],
            Markdown::H1 => seq!['#'],
            Markdown::H2 => seq!['#', '#'],
            Markdown::H3 => seq!['#', '#', '#'],
            Markdown::H4 => seq!['#', '#', '#', '#'],
            Markdown::H5 => seq!['#', '#', '#', '#', '#'],
            Markdown::GreaterThan => seq!['>'],
        }
    }

    /// True of the three kinds that hold code, where every character but a
    /// backtick is taken as it is.
    pub open spec fn is_code(self) -> bool {
        self == Markdown::Backtick || self == Markdown::DoubleBacktick || self
            == Markdown::TripleBacktick
    }

    /// True of the five heading kinds.
    pub open spec fn is_heading(self) -> bool {
        self == Markdown::H1 || self == Markdown::H2 || self == Markdown::H3 || self
            == Markdown::H4 || self == Markdown::H5
    }

    /// The literal text of this kind.
    pub fn to_string(&self) -> (text: String)
        ensures
            text@ == self.literal(),
    {
        let text: &str = match self {
            Markdown::Line | Markdown::BlockQuote => "",
            Markdown::NewLine => "\n",
            Markdown::Star => "*",
            Markdown::DoubleStar => "**",
            Markdown::Underscore => "_",
            Markdown::DoubleUnderscore => "__",
            Markdown::Backtick => "`",
            Markdown::Backslash => "\\",
            Markdown::DoubleBacktick => "``",
            Markdown::TripleBacktick => "```",
            Markdown::Tilde => "~",
            Markdown::DoubleTilde => "~~",
            Markdown::H1 => "#",
            Markdown::H2 => "##",
            Markdown::H3 => "###",
            Markdown::H4 => "####",
            Markdown::H5 => "#####",
            Markdown::GreaterThan => ">",
        };
        proof {
            reveal_strlit("");
            reveal_strlit("\n");
            reveal_strlit("*");
            reveal_strlit("**");
            reveal_strlit("_");
            reveal_strlit("__");
            reveal_strlit("`");
            reveal_strlit("\\");
            reveal_strlit("``");
            reveal_strlit("```");
            reveal_strlit("~");
            reveal_strlit("~~");
            reveal_strlit("#");
            reveal_strlit("##");
            reveal_strlit("###");
            reveal_strlit("####");
            reveal_strlit("#####");
            reveal_strlit(">");
            assert(text@ =~= self.literal());
        }
        text.to_owned()
    }
}

} // verus!
