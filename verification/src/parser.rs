//! The parser: one character at a time, with a stack of open entries.
use crate::md::Markdown;
use crate::scan::{
    default_language, heading_kind, is_empty_text, line_end, merge_one, merge_quotes, nearest,
    parse, split_at, split_language, strip_back, strip_front, without_first_char, ParserView,
};
use crate::tag::{
    lemma_tag_view, lemma_values_view_push, push_text_value, push_values_back, values_view, Tag,
    TagType, TagTypeView, TagValue, TagValueView, TagView,
};
use crate::tag_builder::{TagBuilder, TagBuilderView};
use crate::text::{
    char_is_whitespace, chars_of, first_index, is_whitespace, lemma_first_index_is,
    lemma_trim_end_is, lemma_trim_start_is, push_char, string_of,
};
use std::collections::VecDeque;
use vstd::prelude::*;
use vstd::string::{StrSliceExecFns, StringExecFns};

verus! {

/// The views of the entries of a stack, in order.
pub open spec fn stack_view(stack: Seq<TagBuilder>) -> Seq<TagBuilderView> {
    Seq::new(stack.len(), |i: int| stack[i]@)
}

/// A parser in the middle of a text: the root built so far and the stack of
/// open entries, the innermost last.
pub struct Parser {
    pub root: Tag,
    pub stack: Vec<TagBuilder>,
}

impl View for Parser {
    type V = ParserView;

    open spec fn view(&self) -> ParserView {
        ParserView { root: self.root@, stack: stack_view(self.stack@) }
    }
}

/// One child alone in a deque.
pub fn single_value(v: TagValue) -> (values: VecDeque<TagValue>)
    ensures
        values_view(values@) == seq![v@],
{
    let mut values: VecDeque<TagValue> = VecDeque::new();
    values.push_back(v);
    assert(values_view(values@) =~= seq![v@]);
    values
}

/// The children of the node that an entry becomes when it is closed.
pub fn content_of(entry: TagBuilder) -> (values: VecDeque<TagValue>)
    ensures
        values_view(values@) == entry@.content(),
{
    let mut entry = entry;
    push_text_value(&mut entry.completed, entry.in_progress.as_str());
    entry.completed
}

/// A node of the given kind over the given children.
pub fn node_of(kind: TagType, values: VecDeque<TagValue>) -> (node: TagValue)
    ensures
        node@ == TagValueView::Tag(TagView { kind: kind@, values: values_view(values@) }),
{
    let tag = Tag { tag_type: kind, values };
    proof {
        lemma_tag_view(tag);
    }
    TagValue::Tag(tag)
}

/// The language of code that names none.
pub const LANGUAGE_TEXT: &'static str = "text";

/// The language of code that names none, as a string of its own.
pub fn language_text() -> (name: String)
    ensures
        name@ == default_language(),
{
    proof {
        reveal_strlit("text");
    }
    let name = LANGUAGE_TEXT.to_owned();
    assert(name@ =~= default_language());
    name
}

/// The position of the first `c` in `chars`, or their number where there is
/// none.
pub fn find_char(chars: &Vec<char>, c: char) -> (at: usize)
    ensures
        at as int == first_index(chars@, c),
        at <= chars@.len(),
{
    let mut i: usize = 0;
    while i < chars.len() && chars[i] != c
        invariant
            i <= chars@.len(),
            forall|j: int| 0 <= j < i ==> chars@[j] != c,
        decreases chars@.len() - i,
    {
        i += 1;
    }
    proof {
        lemma_first_index_is(chars@, c, i as int);
    }
    i
}

/// The language and the body of a fence's text, cut at position `at`.
fn cut_language(chars: &Vec<char>, at: usize) -> (parts: (String, String))
    requires
        at < chars@.len(),
    ensures
        parts.0@ == split_at(chars@, at as int).0,
        parts.1@ == split_at(chars@, at as int).1,
{
    let ghost head = chars@.take(at as int);
    let mut a: usize = 0;
    while a < at && is_whitespace(chars[a])
        invariant
            a <= at < chars@.len(),
            forall|j: int| 0 <= j < a ==> char_is_whitespace(chars@[j]),
        decreases at - a,
    {
        a += 1;
    }
    let mut b: usize = at;
    while b > a && is_whitespace(chars[b - 1])
        invariant
            a <= b <= at < chars@.len(),
            forall|j: int| b <= j < at ==> char_is_whitespace(chars@[j]),
        decreases b,
    {
        b -= 1;
    }
    proof {
        let rest = head.skip(a as int);
        lemma_trim_start_is(head, a as int);
        assert forall|j: int| b - a <= j < rest.len() implies char_is_whitespace(
            rest[j],
        ) by {
            assert(rest[j] == chars@[a + j]);
        }
        lemma_trim_end_is(rest, b - a);
        assert(rest.take(b - a) =~= chars@.subrange(a as int, b as int));
        assert(chars@.skip(at + 1) =~= chars@.subrange(at + 1, chars@.len() as int));
    }
    let name = if a < b {
        string_of(chars, a, b)
    } else {
        language_text()
    };
    let n = chars.len();
    let body = string_of(chars, at + 1, n);
    (name, body)
}

/// Splits the text of a code fence into its language and its body. The
/// text is cut at its first line break or, without one, at its first space:
/// what stands before the cut, trimmed, is the language, or `text` where
/// that is empty, and what stands after it is the body. A text with neither
/// is the body, in the language `text`.
pub fn get_language(text: &str) -> (parts: (String, String))
    ensures
        parts.0@ == split_language(text@).0,
        parts.1@ == split_language(text@).1,
{
    let chars = chars_of(text);
    let line = find_char(&chars, '\n');
    if line < chars.len() {
        return cut_language(&chars, line);
    }
    let space = find_char(&chars, ' ');
    if space < chars.len() {
        return cut_language(&chars, space);
    }
    (language_text(), text.to_owned())
}

/// The node kind of a heading entry.
pub fn heading_type(md: Markdown) -> (kind: TagType)
    ensures
        kind@ == heading_kind(md),
{
    match md {
        Markdown::H1 => TagType::H1,
        Markdown::H2 => TagType::H2,
        Markdown::H3 => TagType::H3,
        Markdown::H4 => TagType::H4,
        _ => TagType::H5,
    }
}

/// Whether the first thing that an entry collected is a space.
pub fn begins_with_space(entry: &TagBuilder) -> (yes: bool)
    ensures
        yes == entry@.begins_with_space(),
{
    if entry.completed.len() > 0 {
        match &entry.completed[0] {
            TagValue::Text(s) => !s.as_str().is_empty() && s.as_str().get_char(0) == ' ',
            TagValue::Tag(_) => false,
        }
    } else {
        !entry.in_progress.as_str().is_empty() && entry.in_progress.as_str().get_char(0) == ' '
    }
}

/// The children without the first character of the first, which is a text.
pub fn drop_first_char(values: VecDeque<TagValue>) -> (rest: VecDeque<TagValue>)
    requires
        values@.len() > 0,
        values@[0]@ is Text,
        values@[0]@->Text_0.len() > 0,
    ensures
        values_view(rest@) == without_first_char(values_view(values@)),
{
    let ghost given = values@;
    let mut values = values;
    let mut rest: VecDeque<TagValue> = VecDeque::new();
    assert(values_view(rest@) =~= Seq::empty());
    match values.pop_front() {
        Some(TagValue::Text(s)) => {
            let n = s.as_str().unicode_len();
            let tail = s.as_str().substring_char(1, n);
            assert(tail@ =~= s@.drop_first());
            push_text_value(&mut rest, tail);
            assert(values_view(values@) =~= values_view(given).drop_first());
            push_values_back(&mut rest, values);
        },
        _ => {
            assert(false);
        },
    }
    rest
}

/// What an entry leaves behind when its line ends.
pub fn close_line(entry: TagBuilder) -> (values: VecDeque<TagValue>)
    ensures
        values_view(values@) == line_end(entry@),
{
    let mut entry = entry;
    match entry.md {
        Markdown::BlockQuote => single_value(node_of(TagType::BlockQuote, content_of(entry))),
        Markdown::H1 | Markdown::H2 | Markdown::H3 | Markdown::H4 | Markdown::H5 => {
            if begins_with_space(&entry) {
                let kind = heading_type(entry.md);
                let content = content_of(entry);
                single_value(node_of(kind, drop_first_char(content)))
            } else {
                entry.to_values()
            }
        },
        _ => entry.to_values(),
    }
}

/// Whether a child is a block quote.
fn is_quote(v: &TagValue) -> (yes: bool)
    ensures
        yes == (v@ is Tag && v@->Tag_0.kind == TagTypeView::BlockQuote),
{
    match v {
        TagValue::Text(_) => false,
        TagValue::Tag(t) => {
            proof {
                lemma_tag_view(*t);
            }
            match t.tag_type {
                TagType::BlockQuote => true,
                _ => false,
            }
        },
    }
}

/// Whether a child is a line break.
fn is_line_break(v: &TagValue) -> (yes: bool)
    ensures
        yes == (v@ is Tag && v@->Tag_0.kind == TagTypeView::NewLine),
{
    match v {
        TagValue::Text(_) => false,
        TagValue::Tag(t) => {
            proof {
                lemma_tag_view(*t);
            }
            match t.tag_type {
                TagType::NewLine => true,
                _ => false,
            }
        },
    }
}

/// Whether a child is a text without characters.
fn is_blank_text(v: &TagValue) -> (yes: bool)
    ensures
        yes == is_empty_text(v@),
{
    match v {
        TagValue::Text(s) => s.as_str().is_empty(),
        TagValue::Tag(_) => false,
    }
}

/// Adds `v` to `acc`; a block quote that follows a block quote and one line
/// break is joined to it.
fn join_one(acc: &mut VecDeque<TagValue>, v: TagValue)
    ensures
        values_view(final(acc)@) == merge_one(values_view(old(acc)@), v@),
{
    let ghost before = acc@;
    let n = acc.len();
    if is_quote(&v) && n >= 2 && is_line_break(&acc[n - 1]) && is_quote(&acc[n - 2]) {
        let line_break = acc.pop_back().unwrap();
        let first = acc.pop_back().unwrap();
        assert(values_view(acc@) =~= values_view(before).take(n - 2));
        match (first, v) {
            (TagValue::Tag(quote), TagValue::Tag(line)) => {
                proof {
                    lemma_tag_view(quote);
                    lemma_tag_view(line);
                    lemma_values_view_push(quote.values@, line_break);
                }
                let mut children = quote.values;
                children.push_back(line_break);
                push_values_back(&mut children, line.values);
                let joined = node_of(TagType::BlockQuote, children);
                proof {
                    lemma_values_view_push(acc@, joined);
                }
                acc.push_back(joined);
            },
            _ => {
                assert(false);
            },
        }
    } else {
        proof {
            lemma_values_view_push(acc@, v);
        }
        acc.push_back(v);
    }
}

/// Joins block quotes on neighbouring lines.
pub fn join_quotes(values: VecDeque<TagValue>) -> (joined: VecDeque<TagValue>)
    ensures
        values_view(joined@) == merge_quotes(values_view(values@)),
{
    let ghost given = values_view(values@);
    let mut left = values;
    let mut acc: VecDeque<TagValue> = VecDeque::new();
    let ghost mut k: int = 0;
    assert(values_view(acc@) =~= merge_quotes(given.take(0)));
    assert(given.skip(0) =~= given);
    loop
        invariant
            0 <= k <= given.len(),
            values_view(left@) == given.skip(k),
            values_view(acc@) == merge_quotes(given.take(k)),
        ensures
            k == given.len(),
        decreases left@.len(),
    {
        let ghost rest = left@;
        match left.pop_front() {
            Some(v) => {
                proof {
                    assert(values_view(rest).len() == rest.len());
                    assert(k < given.len());
                    assert(values_view(rest).first() == v@);
                    assert(given[k] == given.skip(k)[0]);
                    assert forall|j: int| 0 <= j < left@.len() implies values_view(left@)[j]
                        == given.skip(k + 1)[j] by {
                        assert(left@[j] == rest[j + 1]);
                        assert(values_view(rest)[j + 1] == given.skip(k)[j + 1]);
                    }
                    assert(values_view(left@) =~= given.skip(k + 1));
                    assert(given.take(k + 1).drop_last() =~= given.take(k));
                    assert(given.take(k + 1).last() == v@);
                    k = k + 1;
                }
                join_one(&mut acc, v);
            },
            None => {
                assert(values_view(rest).len() == 0);
                break ;
            },
        }
    }
    assert(given.take(k) =~= given);
    acc
}

/// Drops the empty texts at the start.
pub fn strip_empty_front(values: VecDeque<TagValue>) -> (rest: VecDeque<TagValue>)
    ensures
        values_view(rest@) == strip_front(values_view(values@)),
{
    let mut rest = values;
    while rest.len() > 0 && is_blank_text(&rest[0])
        invariant
            strip_front(values_view(rest@)) == strip_front(values_view(values@)),
        decreases rest@.len(),
    {
        let ghost before = rest@;
        let _ = rest.pop_front();
        assert(values_view(rest@) =~= values_view(before).drop_first());
    }
    rest
}

/// Drops the empty texts at the end.
pub fn strip_empty_back(values: VecDeque<TagValue>) -> (rest: VecDeque<TagValue>)
    ensures
        values_view(rest@) == strip_back(values_view(values@)),
{
    let mut rest = values;
    while rest.len() > 0 && is_blank_text(&rest[rest.len() - 1])
        invariant
            strip_back(values_view(rest@)) == strip_back(values_view(values@)),
        decreases rest@.len(),
    {
        let ghost before = rest@;
        let _ = rest.pop_back();
        assert(values_view(rest@) =~= values_view(before).drop_last());
    }
    rest
}

impl Parser {
    /// A parser that has read nothing.
    pub fn new() -> (parser: Self)
        ensures
            parser@ == ParserView::start(),
    {
        let parser = Parser { root: Tag::from(TagType::Paragraph), stack: Vec::new() };
        assert(parser@.stack =~= Seq::empty());
        parser
    }

    /// Takes the innermost entry off the stack.
    fn pop_entry(&mut self) -> (entry: TagBuilder)
        requires
            old(self)@.stack.len() > 0,
        ensures
            final(self)@ == old(self)@.pop(),
            entry@ == old(self)@.top(),
    {
        let entry = self.stack.pop().unwrap();
        assert(self@.stack =~= old(self)@.stack.drop_last());
        entry
    }

    /// Puts an entry on the stack as it is.
    fn push_entry(&mut self, entry: TagBuilder)
        ensures
            final(self)@ == old(self)@.push(entry@),
    {
        let ghost e = entry@;
        self.stack.push(entry);
        assert(self@.stack =~= old(self)@.stack.push(e));
    }

    /// Hands children to the innermost entry, or to the root.
    fn emit_values(&mut self, values: VecDeque<TagValue>)
        ensures
            final(self)@ == old(self)@.emit_values(values_view(values@)),
    {
        if self.stack.len() > 0 {
            let mut top = self.pop_entry();
            top.save_progress();
            top.append_values(values);
            self.push_entry(top);
        } else {
            self.root.append_values(values);
        }
    }

    /// Adds text to the pending characters of the innermost entry, or to
    /// the root.
    fn emit_text(&mut self, text: &str)
        ensures
            final(self)@ == old(self)@.emit_text(text@),
    {
        if self.stack.len() > 0 {
            let mut top = self.pop_entry();
            top.in_progress.append(text);
            self.push_entry(top);
        } else {
            self.root.add_text(text);
        }
    }

    /// Adds one character to the pending characters of the innermost entry,
    /// or to the root.
    fn emit_char(&mut self, c: char)
        ensures
            final(self)@ == old(self)@.emit_text(seq![c]),
    {
        if self.stack.len() > 0 {
            let mut top = self.pop_entry();
            let ghost before = top.in_progress@;
            push_char(&mut top.in_progress, c);
            assert(top.in_progress@ =~= before + seq![c]);
            self.push_entry(top);
        } else {
            let mut text = String::new();
            push_char(&mut text, c);
            assert(text@ =~= seq![c]);
            self.root.add_text(text.as_str());
        }
    }

    /// Opens a new entry of kind `md`.
    fn open(&mut self, md: Markdown)
        ensures
            final(self)@ == old(self)@.open(md),
    {
        if self.stack.len() > 0 {
            let mut top = self.pop_entry();
            top.save_progress();
            self.push_entry(top);
        }
        self.push_entry(TagBuilder::from(md));
    }

    /// Gives the innermost entry another kind.
    fn set_kind(&mut self, md: Markdown)
        requires
            old(self)@.stack.len() > 0,
        ensures
            final(self)@ == old(self)@.set_top(old(self)@.top().with_kind(md)),
    {
        let mut top = self.pop_entry();
        top.md = md;
        self.push_entry(top);
    }

    /// Closes the innermost entry into a node of kind `kind`.
    fn resolve(&mut self, kind: TagType)
        ensures
            final(self)@ == old(self)@.resolve(kind@),
    {
        if self.stack.len() > 0 {
            let top = self.pop_entry();
            let node = node_of(kind, content_of(top));
            self.emit_values(single_value(node));
        }
    }

    /// Gives up the innermost entry: it becomes source text in the entry
    /// below it.
    fn fold_top(&mut self)
        ensures
            final(self)@ == old(self)@.fold_top(),
    {
        if self.stack.len() > 0 {
            let mut top = self.pop_entry();
            let values = top.to_values();
            self.emit_values(values);
        }
    }

    /// Gives up the entries above the first `keep`.
    fn fold_down(&mut self, keep: usize)
        ensures
            final(self)@ == old(self)@.fold_down(keep as int),
    {
        while self.stack.len() > keep && self.stack.len() > 0
            invariant
                self@.fold_down(keep as int) == old(self)@.fold_down(keep as int),
            decreases self.stack.len(),
        {
            self.fold_top();
        }
    }

    /// The position of the entry of kind `md` nearest to the top.
    fn find_nearest(&self, md: Markdown) -> (found: Option<usize>)
        ensures
            match found {
                Some(i) => i as int == nearest(self@.stack, md) && i < self.stack@.len(),
                None => nearest(self@.stack, md) == -1,
            },
    {
        let mut i: usize = self.stack.len();
        assert(self@.stack.take(i as int) =~= self@.stack);
        while i > 0
            invariant
                i <= self.stack.len(),
                nearest(self@.stack, md) == nearest(self@.stack.take(i as int), md),
            decreases i,
        {
            if self.stack[i - 1].md == md {
                return Some(i - 1);
            }
            assert(self@.stack.take(i as int).drop_last() =~= self@.stack.take(i - 1));
            i -= 1;
        }
        None
    }

    /// Closes the nearest entry of kind `md`, at position `at`, into a node
    /// of kind `kind`; the entries above it become part of its content.
    fn close_at(&mut self, at: usize, kind: TagType)
        requires
            at < old(self)@.stack.len(),
        ensures
            final(self)@ == old(self)@.fold_down(at + 1).resolve(kind@),
    {
        let n = self.stack.len();
        assert(at < n);
        self.fold_down(at + 1);
        self.resolve(kind);
    }

    /// Takes every entry off the stack, innermost first.
    fn drain(&mut self)
        ensures
            final(self)@ == old(self)@.drain(),
    {
        while self.stack.len() > 0
            invariant
                self@.drain() == old(self)@.drain(),
            decreases self.stack.len(),
        {
            let top = self.pop_entry();
            self.emit_values(close_line(top));
        }
    }

    /// Ends a line.
    fn newline(&mut self)
        ensures
            final(self)@ == old(self)@.newline(),
    {
        self.drain();
        self.root.add_tag(Tag::from(TagType::NewLine));
    }

    /// The kind of the innermost entry.
    fn top_kind(&self) -> (md: Markdown)
        requires
            self@.stack.len() > 0,
        ensures
            md == self@.top().md,
    {
        self.stack[self.stack.len() - 1].md
    }

    /// Whether the innermost entry has collected nothing.
    fn top_is_blank(&self) -> (blank: bool)
        requires
            self@.stack.len() > 0,
        ensures
            blank == self@.top().is_blank(),
    {
        let top = &self.stack[self.stack.len() - 1];
        top.in_progress.as_str().is_empty() && top.completed.len() == 0
    }

    /// Whether the pending characters of the innermost entry end in a
    /// backslash.
    fn top_ends_in_backslash(&self) -> (yes: bool)
        requires
            self@.stack.len() > 0,
        ensures
            yes == (self@.top().in_progress.len() > 0 && self@.top().in_progress.last() == '\\'),
    {
        let pending = self.stack[self.stack.len() - 1].in_progress.as_str();
        let n = pending.unicode_len();
        n > 0 && pending.get_char(n - 1) == '\\'
    }

    /// Whether the entry below the innermost one is a code fence.
    fn is_above_fence(&self) -> (yes: bool)
        ensures
            yes == self@.above_fence(),
    {
        self.stack.len() >= 2 && self.stack[self.stack.len() - 2].md == Markdown::TripleBacktick
    }

    /// Handles a `*` or `_`.
    fn emphasis(&mut self, c: char, single: Markdown, double: Markdown)
        requires
            old(self)@.stack.len() > 0,
        ensures
            final(self)@ == old(self)@.emphasis(c, single, double),
    {
        let kind = self.top_kind();
        let blank = self.top_is_blank();
        if kind == single {
            if blank {
                let _ = self.pop_entry();
                match self.find_nearest(double) {
                    Some(at) => self.close_at(at, TagType::Bold),
                    None => self.open(double),
                }
            } else {
                self.resolve(TagType::Italics);
            }
        } else if kind == double && blank {
            let _ = self.pop_entry();
            self.emit_char(c);
            self.open(double);
        } else {
            match self.find_nearest(single) {
                Some(at) => self.close_at(at, TagType::Italics),
                None => self.open(single),
            }
        }
    }

    /// Handles a `~`.
    fn tilde(&mut self)
        requires
            old(self)@.stack.len() > 0,
        ensures
            final(self)@ == old(self)@.tilde(),
    {
        if self.top_kind() == Markdown::Tilde {
            if self.top_is_blank() {
                let _ = self.pop_entry();
                match self.find_nearest(Markdown::DoubleTilde) {
                    Some(at) => self.close_at(at, TagType::Strikethrough),
                    None => self.open(Markdown::DoubleTilde),
                }
            } else {
                self.fold_top();
                self.open(Markdown::Tilde);
            }
        } else {
            self.open(Markdown::Tilde);
        }
    }

    /// Handles a `#`.
    fn hash(&mut self)
        requires
            old(self)@.stack.len() > 0,
        ensures
            final(self)@ == old(self)@.hash(),
    {
        if self.top_is_blank() && self.stack.len() == 1 {
            let next = match self.top_kind() {
                Markdown::Line => Some(Markdown::H1),
                Markdown::H1 => Some(Markdown::H2),
                Markdown::H2 => Some(Markdown::H3),
                Markdown::H3 => Some(Markdown::H4),
                Markdown::H4 => Some(Markdown::H5),
                _ => None,
            };
            match next {
                Some(md) => self.set_kind(md),
                None => self.emit_char('#'),
            }
        } else {
            self.emit_char('#');
        }
    }

    /// Handles a `>`.
    fn quote_mark(&mut self)
        requires
            old(self)@.stack.len() > 0,
        ensures
            final(self)@ == old(self)@.quote_mark(),
    {
        if self.top_is_blank() && self.stack.len() == 1 && self.top_kind() == Markdown::Line {
            self.set_kind(Markdown::GreaterThan);
        } else {
            self.emit_char('>');
        }
    }

    /// Takes the innermost entry off the stack and adds its marker and the
    /// character `c` to the entry below it as text.
    fn undo_marker(&mut self, c: char)
        requires
            old(self)@.stack.len() > 0,
        ensures
            final(self)@ == old(self)@.pop().emit_text(old(self)@.top().md.literal().push(c)),
    {
        let top = self.pop_entry();
        let mut text = top.md.to_string();
        push_char(&mut text, c);
        self.emit_text(text.as_str());
    }

    /// Handles a space.
    fn space(&mut self)
        requires
            old(self)@.stack.len() > 0,
        ensures
            final(self)@ == old(self)@.space(),
    {
        let kind = self.top_kind();
        let blank = self.top_is_blank();
        if blank && kind == Markdown::GreaterThan {
            self.set_kind(Markdown::BlockQuote);
        } else if blank && (kind == Markdown::Star || kind == Markdown::DoubleStar || kind
            == Markdown::Underscore || kind == Markdown::DoubleUnderscore) {
            self.undo_marker(' ');
        } else {
            self.emit_char(' ');
        }
    }

    /// Closes the innermost entry, a code fence, into a code node.
    fn resolve_fence(&mut self)
        ensures
            final(self)@ == old(self)@.resolve_fence(),
    {
        if self.stack.len() > 0 {
            let mut top = self.pop_entry();
            let (language, body) = get_language(top.in_progress.as_str());
            push_text_value(&mut top.completed, body.as_str());
            let node = node_of(TagType::Code(language), top.completed);
            self.emit_values(single_value(node));
        }
    }

    /// Handles a backtick while the innermost entry holds code.
    fn backtick_in_code(&mut self)
        requires
            old(self)@.stack.len() > 0,
        ensures
            final(self)@ == old(self)@.backtick_in_code(),
    {
        let kind = self.top_kind();
        if self.top_is_blank() {
            if kind == Markdown::Backtick {
                self.set_kind(Markdown::DoubleBacktick);
            } else if kind == Markdown::DoubleBacktick {
                if self.is_above_fence() {
                    let _ = self.pop_entry();
                    self.resolve_fence();
                } else {
                    self.set_kind(Markdown::TripleBacktick);
                }
            } else {
                let _ = self.pop_entry();
                self.emit_char('`');
                self.open(Markdown::TripleBacktick);
            }
        } else if self.top_ends_in_backslash() {
            self.emit_char('`');
        } else if kind == Markdown::Backtick {
            self.resolve(TagType::Code(language_text()));
        } else if kind == Markdown::DoubleBacktick {
            let top = self.pop_entry();
            self.emit_char('`');
            let node = node_of(TagType::Code(language_text()), content_of(top));
            self.emit_values(single_value(node));
        } else {
            self.push_entry(TagBuilder::from(Markdown::Backtick));
        }
    }

    /// Handles a character while the innermost entry holds code.
    fn scan_code(&mut self, c: char)
        requires
            old(self)@.stack.len() > 0,
        ensures
            final(self)@ == old(self)@.scan_code(c),
    {
        if c == '`' {
            self.backtick_in_code();
        } else if self.top_is_blank() && self.top_kind() != Markdown::TripleBacktick
            && self.is_above_fence() {
            self.undo_marker(c);
        } else if c == '\n' && self.top_kind() != Markdown::TripleBacktick {
            self.newline();
        } else {
            self.emit_char(c);
        }
    }

    /// Handles the character after a backslash.
    fn escape(&mut self, c: char)
        requires
            old(self)@.stack.len() > 0,
        ensures
            final(self)@ == old(self)@.escape(c),
    {
        let _ = self.pop_entry();
        if c == '*' || c == '_' || c == '`' {
            self.emit_char(c);
        } else if c == '\n' {
            self.emit_char('\\');
            self.newline();
        } else {
            let mut text = String::new();
            push_char(&mut text, '\\');
            push_char(&mut text, c);
            assert(text@ =~= seq!['\\', c]);
            self.emit_text(text.as_str());
        }
    }

    /// Handles a character while the innermost entry holds neither code nor
    /// a backslash.
    fn scan(&mut self, c: char)
        requires
            old(self)@.stack.len() > 0,
        ensures
            final(self)@ == old(self)@.scan(c),
    {
        if c == '*' {
            self.emphasis(c, Markdown::Star, Markdown::DoubleStar);
        } else if c == '_' {
            self.emphasis(c, Markdown::Underscore, Markdown::DoubleUnderscore);
        } else if c == '`' {
            self.open(Markdown::Backtick);
        } else if c == '~' {
            self.tilde();
        } else if c == '\\' {
            self.open(Markdown::Backslash);
        } else if c == '#' {
            self.hash();
        } else if c == '>' {
            self.quote_mark();
        } else if c == ' ' {
            self.space();
        } else if c == '\n' {
            self.newline();
        } else {
            self.emit_char(c);
        }
    }

    /// Reads one more character.
    pub fn process(&mut self, c: char)
        ensures
            final(self)@ == old(self)@.step(c),
    {
        proof {
            reveal(ParserView::step);
        }
        if self.stack.len() == 0 {
            self.push_entry(TagBuilder::from(Markdown::Line));
        }
        let kind = self.top_kind();
        if kind == Markdown::Backslash {
            self.escape(c);
        } else if kind == Markdown::Backtick || kind == Markdown::DoubleBacktick || kind
            == Markdown::TripleBacktick {
            self.scan_code(c);
        } else {
            self.scan(c);
        }
    }

    /// Ends the text and gives the finished tree.
    pub fn finish(self) -> (root: Tag)
        ensures
            root@ == self@.finish(),
    {
        let mut parser = self;
        parser.drain();
        let ghost drained = parser@;
        let Parser { root, stack: _ } = parser;
        proof {
            lemma_tag_view(root);
        }
        let Tag { tag_type, values } = root;
        assert(values_view(values@) == drained.root.values);
        let values = strip_empty_back(strip_empty_front(join_quotes(values)));
        let done = Tag { tag_type, values };
        proof {
            lemma_tag_view(done);
        }
        assert(done@.kind == drained.root.kind);
        done
    }
}

/// Turns a text with inline markup into a tree of nodes. Every text gives a
/// tree: markup that is never closed stays in it as the characters it was
/// written with.
pub fn text_to_html2(text: &str) -> (root: Tag)
    ensures
        root@ == parse(text@),
{
    let chars = chars_of(text);
    let mut parser = Parser::new();
    let mut i: usize = 0;
    assert(chars@.take(0) =~= Seq::empty());
    while i < chars.len()
        invariant
            i <= chars@.len(),
            parser@ == ParserView::start().run(chars@.take(i as int)),
        decreases chars@.len() - i,
    {
        assert(chars@.take(i + 1).drop_last() =~= chars@.take(i as int));
        parser.process(chars[i]);
        i += 1;
    }
    assert(chars@.take(i as int) =~= chars@);
    parser.finish()
}

} // verus!
