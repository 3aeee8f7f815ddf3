//! What the parser computes, as specification functions: the state of a
//! parse, the step that one character makes, and the finished tree.
use crate::md::Markdown;
use crate::tag::{push_text, push_values, TagTypeView, TagValueView, TagView};
use crate::tag_builder::TagBuilderView;
use crate::text::{first_index, trim};
use vstd::prelude::*;

verus! {

/// The language of code that names none.
pub open spec fn default_language() -> Seq<char> {
    seq!['t', 'e', 'x', 't']
}

/// The text of a fence cut at position `at`: the trimmed text before it as
/// the language, or the default where that is empty, and the text after it
/// as the body.
pub open spec fn split_at(raw: Seq<char>, at: int) -> (Seq<char>, Seq<char>) {
    let name = trim(raw.take(at));
    (
        if name.len() > 0 {
            name
        } else {
            default_language()
        },
        raw.skip(at + 1),
    )
}

/// The language and the body of a fence's text: cut at its first line
/// break; without one, at its first space; without either, the default
/// language and the whole text.
pub open spec fn split_language(raw: Seq<char>) -> (Seq<char>, Seq<char>) {
    if first_index(raw, '\n') < raw.len() {
        split_at(raw, first_index(raw, '\n'))
    } else if first_index(raw, ' ') < raw.len() {
        split_at(raw, first_index(raw, ' '))
    } else {
        (default_language(), raw)
    }
}

/// The position of the entry of kind `md` nearest to the top of `stack`, or
/// -1 where it holds none.
pub open spec fn nearest(stack: Seq<TagBuilderView>, md: Markdown) -> int
    decreases stack.len(),
{
    if stack.len() == 0 {
        -1
    } else if stack.last().md == md {
        stack.len() - 1
    } else {
        nearest(stack.drop_last(), md)
    }
}

/// The heading kind that one more `#` makes of `md`, if there is one.
pub open spec fn next_heading(md: Markdown) -> Option<Markdown> {
    match md {
        Markdown::Line => Some(Markdown::H1),
        Markdown::H1 => Some(Markdown::H2),
        Markdown::H2 => Some(Markdown::H3),
        Markdown::H3 => Some(Markdown::H4),
        Markdown::H4 => Some(Markdown::H5),
        _ => None,
    }
}

/// The node kind of a heading entry.
pub open spec fn heading_kind(md: Markdown) -> TagTypeView {
    match md {
        Markdown::H1 => TagTypeView::H1,
        Markdown::H2 => TagTypeView::H2,
        Markdown::H3 => TagTypeView::H3,
        Markdown::H4 => TagTypeView::H4,
        _ => TagTypeView::H5,
    }
}

/// True of the four kinds that open emphasis.
pub open spec fn is_emphasis(md: Markdown) -> bool {
    md == Markdown::Star || md == Markdown::DoubleStar || md == Markdown::Underscore || md
        == Markdown::DoubleUnderscore
}

/// `vals` without the first character of its first child, which is a text.
pub open spec fn without_first_char(vals: Seq<TagValueView>) -> Seq<TagValueView> {
    push_values(push_text(Seq::empty(), vals.first()->Text_0.drop_first()), vals.drop_first())
}

/// What an entry leaves behind when its line ends. A block quote becomes a
/// node. A heading whose marker was followed by a space becomes a node,
/// without that space. Every other entry falls back to source text.
pub open spec fn line_end(entry: TagBuilderView) -> Seq<TagValueView> {
    if entry.md == Markdown::BlockQuote {
        seq![
            TagValueView::Tag(TagView { kind: TagTypeView::BlockQuote, values: entry.content() }),
        ]
    } else if entry.md.is_heading() && entry.begins_with_space() {
        seq![
            TagValueView::Tag(
                TagView {
                    kind: heading_kind(entry.md),
                    values: without_first_char(entry.content()),
                },
            ),
        ]
    } else {
        entry.to_values()
    }
}

/// A node that stands for a line break.
pub open spec fn line_break() -> TagValueView {
    TagValueView::Tag(TagView::empty(TagTypeView::NewLine))
}

/// True of two block quotes with one line break between them at the end of
/// `acc` and in `v`.
pub open spec fn continues_quote(acc: Seq<TagValueView>, v: TagValueView) -> bool {
    &&& v is Tag
    &&& v->Tag_0.kind == TagTypeView::BlockQuote
    &&& acc.len() >= 2
    &&& acc[acc.len() - 1] is Tag
    &&& acc[acc.len() - 1]->Tag_0.kind == TagTypeView::NewLine
    &&& acc[acc.len() - 2] is Tag
    &&& acc[acc.len() - 2]->Tag_0.kind == TagTypeView::BlockQuote
}

/// `acc` with `v` added: a block quote that follows a block quote and one
/// line break is joined to it, the line break kept between the two lines;
/// anything else is added as it is.
pub open spec fn merge_one(acc: Seq<TagValueView>, v: TagValueView) -> Seq<TagValueView> {
    if continues_quote(acc, v) {
        let quote = acc[acc.len() - 2]->Tag_0;
        acc.take(acc.len() - 2).push(
            TagValueView::Tag(
                TagView {
                    kind: TagTypeView::BlockQuote,
                    values: push_values(quote.values.push(acc[acc.len() - 1]), v->Tag_0.values),
                },
            ),
        )
    } else {
        acc.push(v)
    }
}

/// The children of the root with block quotes on neighbouring lines joined.
pub open spec fn merge_quotes(vals: Seq<TagValueView>) -> Seq<TagValueView>
    decreases vals.len(),
{
    if vals.len() == 0 {
        vals
    } else {
        merge_one(merge_quotes(vals.drop_last()), vals.last())
    }
}

/// The child is a text without characters.
pub open spec fn is_empty_text(v: TagValueView) -> bool {
    v is Text && v->Text_0.len() == 0
}

/// `vals` without the empty texts at its start.
pub open spec fn strip_front(vals: Seq<TagValueView>) -> Seq<TagValueView>
    decreases vals.len(),
{
    if vals.len() > 0 && is_empty_text(vals.first()) {
        strip_front(vals.drop_first())
    } else {
        vals
    }
}

/// `vals` without the empty texts at its end.
pub open spec fn strip_back(vals: Seq<TagValueView>) -> Seq<TagValueView>
    decreases vals.len(),
{
    if vals.len() > 0 && is_empty_text(vals.last()) {
        strip_back(vals.drop_last())
    } else {
        vals
    }
}

/// The state of a parse: the root built so far and the stack of open
/// entries, the innermost last.
pub struct ParserView {
    pub root: TagView,
    pub stack: Seq<TagBuilderView>,
}

impl ParserView {
    /// The state before the first character.
    pub open spec fn start() -> ParserView {
        ParserView { root: TagView::empty(TagTypeView::Paragraph), stack: Seq::empty() }
    }

    /// The innermost open entry.
    pub open spec fn top(self) -> TagBuilderView
        recommends
            self.stack.len() > 0,
    {
        self.stack.last()
    }

    /// The state without its innermost entry.
    pub open spec fn pop(self) -> ParserView {
        ParserView { root: self.root, stack: self.stack.drop_last() }
    }

    /// The state with its innermost entry replaced.
    pub open spec fn set_top(self, entry: TagBuilderView) -> ParserView {
        ParserView { root: self.root, stack: self.stack.drop_last().push(entry) }
    }

    /// The state with one more entry, put on as it is.
    pub open spec fn push(self, entry: TagBuilderView) -> ParserView {
        ParserView { root: self.root, stack: self.stack.push(entry) }
    }

    /// The state with a line entry where it had no entry at all.
    pub open spec fn ready(self) -> ParserView {
        if self.stack.len() == 0 {
            self.push(TagBuilderView::fresh(Markdown::Line))
        } else {
            self
        }
    }

    /// The children `vals` handed to the innermost entry, after its pending
    /// characters, or to the root where no entry is open.
    pub open spec fn emit_values(self, vals: Seq<TagValueView>) -> ParserView {
        if self.stack.len() > 0 {
            self.set_top(self.top().save_progress().append_values(vals))
        } else {
            ParserView { root: self.root.append_values(vals), stack: self.stack }
        }
    }

    /// The characters `t` added to the pending characters of the innermost
    /// entry, or to the root where no entry is open.
    pub open spec fn emit_text(self, t: Seq<char>) -> ParserView {
        if self.stack.len() > 0 {
            self.set_top(self.top().push_pending(t))
        } else {
            ParserView { root: self.root.add_text(t), stack: self.stack }
        }
    }

    /// A new entry of kind `md` opened on the stack; the pending characters
    /// of the entry below it are saved first.
    pub open spec fn open(self, md: Markdown) -> ParserView {
        if self.stack.len() > 0 {
            self.set_top(self.top().save_progress()).push(TagBuilderView::fresh(md))
        } else {
            self.push(TagBuilderView::fresh(md))
        }
    }

    /// The innermost entry closed into a node of kind `kind`, which goes to
    /// the entry below it.
    pub open spec fn resolve(self, kind: TagTypeView) -> ParserView {
        if self.stack.len() > 0 {
            self.pop().emit_values(
                seq![TagValueView::Tag(TagView { kind, values: self.top().content() })],
            )
        } else {
            self
        }
    }

    /// The innermost entry given up: it goes to the entry below it as source
    /// text.
    pub open spec fn fold_top(self) -> ParserView {
        if self.stack.len() > 0 {
            self.pop().emit_values(self.top().to_values())
        } else {
            self
        }
    }

    /// The entries above the first `keep` given up one after the other,
    /// innermost first.
    pub open spec fn fold_down(self, keep: int) -> ParserView
        decreases self.stack.len(),
    {
        if self.stack.len() > keep && self.stack.len() > 0 {
            self.fold_top().fold_down(keep)
        } else {
            self
        }
    }

    /// The nearest entry of kind `md` closed into a node of kind `kind`;
    /// the entries above it are given up and become part of its content.
    pub open spec fn close_nearest(self, md: Markdown, kind: TagTypeView) -> ParserView {
        self.fold_down(nearest(self.stack, md) + 1).resolve(kind)
    }

    /// Every entry taken off the stack, innermost first, each leaving what
    /// `line_end` says to the entry below it, the outermost to the root.
    pub open spec fn drain(self) -> ParserView
        decreases self.stack.len(),
    {
        if self.stack.len() > 0 {
            self.pop().emit_values(line_end(self.top())).drain()
        } else {
            self
        }
    }

    /// The end of a line: the stack is drained and a line break follows in
    /// the root.
    pub open spec fn newline(self) -> ParserView {
        let done = self.drain();
        ParserView {
            root: done.root.add_tag(TagView::empty(TagTypeView::NewLine)),
            stack: done.stack,
        }
    }

    /// A `*` or `_`, where `single` and `double` are the kinds that one and
    /// two of that character open.
    pub open spec fn emphasis(self, c: char, single: Markdown, double: Markdown) -> ParserView {
        let top = self.top();
        if top.md == single {
            if top.is_blank() {
                if nearest(self.pop().stack, double) >= 0 {
                    self.pop().close_nearest(double, TagTypeView::Bold)
                } else {
                    self.pop().open(double)
                }
            } else {
                self.resolve(TagTypeView::Italics)
            }
        } else if top.md == double && top.is_blank() {
            self.pop().emit_text(seq![c]).open(double)
        } else if nearest(self.stack, single) >= 0 {
            self.close_nearest(single, TagTypeView::Italics)
        } else {
            self.open(single)
        }
    }

    /// A `~`.
    pub open spec fn tilde(self) -> ParserView {
        let top = self.top();
        if top.md == Markdown::Tilde {
            if top.is_blank() {
                if nearest(self.pop().stack, Markdown::DoubleTilde) >= 0 {
                    self.pop().close_nearest(Markdown::DoubleTilde, TagTypeView::Strikethrough)
                } else {
                    self.pop().open(Markdown::DoubleTilde)
                }
            } else {
                self.fold_top().open(Markdown::Tilde)
            }
        } else {
            self.open(Markdown::Tilde)
        }
    }

    /// A `#`: one more heading level at the start of a line, up to five; a
    /// character like any other elsewhere.
    pub open spec fn hash(self) -> ParserView {
        let top = self.top();
        if top.is_blank() && self.stack.len() == 1 && next_heading(top.md) is Some {
            self.set_top(top.with_kind(next_heading(top.md)->Some_0))
        } else {
            self.emit_text(seq!['#'])
        }
    }

    /// A `>`: the mark of a block quote at the start of a line; a character
    /// like any other elsewhere.
    pub open spec fn quote_mark(self) -> ParserView {
        let top = self.top();
        if top.is_blank() && self.stack.len() == 1 && top.md == Markdown::Line {
            self.set_top(top.with_kind(Markdown::GreaterThan))
        } else {
            self.emit_text(seq!['>'])
        }
    }

    /// A space. Right after `>` at the start of a line it opens a block
    /// quote. Right after a marker of emphasis it undoes that marker, which
    /// becomes text. Elsewhere it is a character like any other.
    pub open spec fn space(self) -> ParserView {
        let top = self.top();
        if top.is_blank() && top.md == Markdown::GreaterThan {
            self.set_top(top.with_kind(Markdown::BlockQuote))
        } else if top.is_blank() && is_emphasis(top.md) {
            self.pop().emit_text(top.md.literal().push(' '))
        } else {
            self.emit_text(seq![' '])
        }
    }

    /// The entry below the innermost one is a code fence.
    pub open spec fn above_fence(self) -> bool {
        self.stack.len() >= 2 && self.stack[self.stack.len() - 2].md == Markdown::TripleBacktick
    }

    /// The innermost entry is a run of one or two backticks, with nothing
    /// after it yet, inside a code fence: the fence may be about to close.
    pub open spec fn closing_fence(self) -> bool {
        self.top().is_blank() && self.top().md != Markdown::TripleBacktick && self.above_fence()
    }

    /// A character is taken as content of a code fence, line breaks too.
    pub open spec fn in_fence(self) -> bool {
        self.stack.len() > 0 && self.top().md.is_code() && (self.top().md
            == Markdown::TripleBacktick || self.closing_fence())
    }

    /// The innermost entry, a code fence, closed into a code node: its
    /// pending text is split into language and body.
    pub open spec fn resolve_fence(self) -> ParserView {
        if self.stack.len() > 0 {
            let parts = split_language(self.top().in_progress);
            self.pop().emit_values(
                seq![
                    TagValueView::Tag(
                        TagView {
                            kind: TagTypeView::Code(parts.0),
                            values: push_text(self.top().completed, parts.1),
                        },
                    ),
                ],
            )
        } else {
            self
        }
    }

    /// A backtick while the innermost entry holds code.
    pub open spec fn backtick_in_code(self) -> ParserView {
        let top = self.top();
        if top.is_blank() {
            if top.md == Markdown::Backtick {
                self.set_top(top.with_kind(Markdown::DoubleBacktick))
            } else if top.md == Markdown::DoubleBacktick {
                if self.above_fence() {
                    self.pop().resolve_fence()
                } else {
                    self.set_top(top.with_kind(Markdown::TripleBacktick))
                }
            } else {
                self.pop().emit_text(seq!['`']).open(Markdown::TripleBacktick)
            }
        } else if top.in_progress.len() > 0 && top.in_progress.last() == '\\' {
            self.emit_text(seq!['`'])
        } else if top.md == Markdown::Backtick {
            self.resolve(TagTypeView::Code(default_language()))
        } else if top.md == Markdown::DoubleBacktick {
            self.pop().emit_text(seq!['`']).emit_values(
                seq![
                    TagValueView::Tag(
                        TagView {
                            kind: TagTypeView::Code(default_language()),
                            values: top.content(),
                        },
                    ),
                ],
            )
        } else {
            self.push(TagBuilderView::fresh(Markdown::Backtick))
        }
    }

    /// A character while the innermost entry holds code: only backticks and,
    /// outside a fence, line breaks have a meaning.
    pub open spec fn scan_code(self, c: char) -> ParserView {
        if c == '`' {
            self.backtick_in_code()
        } else if self.closing_fence() {
            self.pop().emit_text(self.top().md.literal().push(c))
        } else if c == '\n' && self.top().md != Markdown::TripleBacktick {
            self.newline()
        } else {
            self.emit_text(seq![c])
        }
    }

    /// The character after a backslash: `*`, `_` and a backtick stand for
    /// themselves; a line break ends the line after the backslash; any
    /// other character follows the backslash as text.
    pub open spec fn escape(self, c: char) -> ParserView {
        if c == '*' || c == '_' || c == '`' {
            self.pop().emit_text(seq![c])
        } else if c == '\n' {
            self.pop().emit_text(seq!['\\']).newline()
        } else {
            self.pop().emit_text(seq!['\\', c])
        }
    }

    /// A character while the innermost entry holds neither code nor a
    /// backslash.
    pub open spec fn scan(self, c: char) -> ParserView {
        if c == '*' {
            self.emphasis(c, Markdown::Star, Markdown::DoubleStar)
        } else if c == '_' {
            self.emphasis(c, Markdown::Underscore, Markdown::DoubleUnderscore)
        } else if c == '`' {
            self.open(Markdown::Backtick)
        } else if c == '~' {
            self.tilde()
        } else if c == '\\' {
            self.open(Markdown::Backslash)
        } else if c == '#' {
            self.hash()
        } else if c == '>' {
            self.quote_mark()
        } else if c == ' ' {
            self.space()
        } else if c == '\n' {
            self.newline()
        } else {
            self.emit_text(seq![c])
        }
    }

    /// The state after one more character.
    #[verifier::opaque]
    pub open spec fn step(self, c: char) -> ParserView {
        let state = self.ready();
        if state.top().md == Markdown::Backslash {
            state.escape(c)
        } else if state.top().md.is_code() {
            state.scan_code(c)
        } else {
            state.scan(c)
        }
    }

    /// The state after the characters of `text`, in order.
    pub open spec fn run(self, text: Seq<char>) -> ParserView
        decreases text.len(),
    {
        if text.len() == 0 {
            self
        } else {
            self.run(text.drop_last()).step(text.last())
        }
    }

    /// The finished tree: the stack is drained, block quotes on neighbouring
    /// lines are joined, and empty texts at either end of the root are
    /// dropped.
    pub open spec fn finish(self) -> TagView {
        TagView {
            kind: self.drain().root.kind,
            values: strip_back(strip_front(merge_quotes(self.drain().root.values))),
        }
    }
}

/// The tree that a text stands for.
pub open spec fn parse(text: Seq<char>) -> TagView {
    ParserView::start().run(text).finish()
}

} // verus!
