//! A flat scan for italics and bold: the text becomes a sequence of
//! elements, each a kind and its text, without nesting.
use crate::md::Markdown;
use crate::text::{chars_of, push_char};
use std::collections::VecDeque;
use vstd::prelude::*;
use vstd::std_specs::convert::FromSpecImpl;
use vstd::string::StringExecFns;

verus! {

/// The kind of an element of the flat output.
#[derive(Clone, Eq, PartialEq, Debug)]
pub enum Tag {
    Span,
    NewLine,
    Bold,
    Italics,
    Strikethrough,
    H1,
    H2,
    H3,
    H4,
    H5,
    BlockQuote,
    Code(String),
}

/// A run of text under one kind.
#[derive(Clone, Debug, Eq, PartialEq)]
pub struct Element {
    tag: Tag,
    value: String,
}

/// An open construct of the flat scan: its marker and the characters read
/// since.
pub struct StackEntry {
    pub md: Markdown,
    pub text: String,
}

/// What a `Tag` of this module stands for in contracts.
pub enum KindView {
    Span,
    NewLine,
    Bold,
    Italics,
    Strikethrough,
    H1,
    H2,
    H3,
    H4,
    H5,
    BlockQuote,
    Code(Seq<char>),
}

/// What an `Element` stands for in contracts.
pub struct ElementView {
    pub tag: KindView,
    pub value: Seq<char>,
}

/// What a `StackEntry` stands for in contracts.
pub struct EntryView {
    pub md: Markdown,
    pub text: Seq<char>,
}

impl View for Tag {
    type V = KindView;

    open spec fn view(&self) -> KindView {
        match self {
            Tag::Span => KindView::Span,
            Tag::NewLine => KindView::NewLine,
            Tag::Bold => KindView::Bold,
            Tag::Italics => KindView::Italics,
            Tag::Strikethrough => KindView::Strikethrough,
            Tag::H1 => KindView::H1,
            Tag::H2 => KindView::H2,
            Tag::H3 => KindView::H3,
            Tag::H4 => KindView::H4,
            Tag::H5 => KindView::H5,
            Tag::BlockQuote => KindView::BlockQuote,
            Tag::Code(language) => KindView::Code(language@),
        }
    }
}

impl View for Element {
    type V = ElementView;

    closed spec fn view(&self) -> ElementView {
        ElementView { tag: self.tag@, value: self.value@ }
    }
}

impl View for StackEntry {
    type V = EntryView;

    open spec fn view(&self) -> EntryView {
        EntryView { md: self.md, text: self.text@ }
    }
}

impl Element {
    /// An element of the given kind and text.
    pub fn new(tag: Tag, value: String) -> (element: Self)
        ensures
            element@ == (ElementView { tag: tag@, value: value@ }),
    {
        Self { tag, value }
    }
}

impl From<Tag> for Element {
    /// An element of the given kind without text.
    fn from(tag: Tag) -> (element: Self)
        ensures
            element@ == (ElementView { tag: tag@, value: Seq::empty() }),
    {
        Self { tag, value: String::new() }
    }
}

impl FromSpecImpl<Tag> for Element {
    /// Two empty strings need not be the same value, so `from` is described
    /// by its own `ensures`, over the view.
    open spec fn obeys_from_spec() -> bool {
        false
    }

    open spec fn from_spec(tag: Tag) -> Self {
        choose|element: Element| element@ == (ElementView { tag: tag@, value: Seq::empty() })
    }
}

impl StackEntry {
    /// An entry of the given kind and text.
    pub fn new(md: Markdown, text: String) -> (entry: Self)
        ensures
            entry@ == (EntryView { md, text: text@ }),
    {
        Self { md, text }
    }
}

impl From<Markdown> for StackEntry {
    /// An entry of the given kind without text.
    fn from(md: Markdown) -> (entry: Self)
        ensures
            entry@ == (EntryView { md, text: Seq::empty() }),
    {
        Self { md, text: String::new() }
    }
}

impl FromSpecImpl<Markdown> for StackEntry {
    /// Two empty strings need not be the same value, so `from` is described
    /// by its own `ensures`, over the view.
    open spec fn obeys_from_spec() -> bool {
        false
    }

    open spec fn from_spec(md: Markdown) -> Self {
        choose|entry: StackEntry| entry@ == (EntryView { md, text: Seq::empty() })
    }
}

/// The views of the elements of a deque, in order.
pub open spec fn elements_view(elements: Seq<Element>) -> Seq<ElementView> {
    Seq::new(elements.len(), |i: int| elements[i]@)
}

/// The views of the entries of a stack, in order.
pub open spec fn entries_view(entries: Seq<StackEntry>) -> Seq<EntryView> {
    Seq::new(entries.len(), |i: int| entries[i]@)
}

/// An entry as a span of text: its marker, then its characters.
pub open spec fn span_of(entry: EntryView) -> ElementView {
    ElementView { tag: KindView::Span, value: entry.md.literal() + entry.text }
}

/// The entries as spans of text, outermost first.
pub open spec fn spans_of(stack: Seq<EntryView>) -> Seq<ElementView> {
    Seq::new(stack.len(), |i: int| span_of(stack[i]))
}

/// The state of a flat scan: the open entries, the innermost last, and the
/// elements that are finished.
pub struct FlatView {
    pub stack: Seq<EntryView>,
    pub done: Seq<ElementView>,
}

impl FlatView {
    /// The state before the first character: one line entry and no
    /// element.
    pub open spec fn start() -> FlatView {
        FlatView {
            stack: seq![EntryView { md: Markdown::Line, text: Seq::empty() }],
            done: Seq::empty(),
        }
    }

    /// The state with a line entry where it had no entry at all.
    pub open spec fn ready(self) -> FlatView {
        if self.stack.len() == 0 {
            FlatView {
                stack: seq![EntryView { md: Markdown::Line, text: Seq::empty() }],
                done: self.done,
            }
        } else {
            self
        }
    }

    /// The state without its innermost entry.
    pub open spec fn pop(self) -> FlatView {
        FlatView { stack: self.stack.drop_last(), done: self.done }
    }

    /// The state with a new entry of kind `md`.
    pub open spec fn open(self, md: Markdown) -> FlatView {
        FlatView {
            stack: self.stack.push(EntryView { md, text: Seq::empty() }),
            done: self.done,
        }
    }

    /// The state with `c` added to the text of its innermost entry.
    pub open spec fn push_char(self, c: char) -> FlatView {
        let top = self.stack.last();
        FlatView {
            stack: self.stack.drop_last().push(EntryView { md: top.md, text: top.text.push(c) }),
            done: self.done,
        }
    }

    /// Every open entry turned into a span of text, outermost first, and
    /// then one more element of kind `tag` and text `value`.
    pub open spec fn flush_with(self, tag: KindView, value: Seq<char>) -> FlatView {
        FlatView {
            stack: Seq::empty(),
            done: (self.done + spans_of(self.stack)).push(ElementView { tag, value }),
        }
    }

    /// The state after one more character. A `*` after text that follows a
    /// `*` closes italics; two of them after text that follows two of them
    /// close bold; either ends every span that was open before it.
    pub open spec fn step(self, c: char) -> FlatView {
        let state = self.ready();
        let top = state.stack.last();
        if c != '*' {
            state.push_char(c)
        } else if top.md != Markdown::Star {
            state.open(Markdown::Star)
        } else if top.text.len() > 0 {
            state.pop().flush_with(KindView::Italics, top.text)
        } else if state.stack.len() >= 2 && state.stack[state.stack.len() - 2].md
            == Markdown::DoubleStar {
            state.pop().pop().flush_with(KindView::Bold, state.stack[state.stack.len() - 2].text)
        } else {
            state.pop().open(Markdown::DoubleStar)
        }
    }

    /// The state after the characters of `text`, in order.
    pub open spec fn run(self, text: Seq<char>) -> FlatView
        decreases text.len(),
    {
        if text.len() == 0 {
            self
        } else {
            self.run(text.drop_last()).step(text.last())
        }
    }

    /// The finished elements: those that are done, then every entry that is
    /// still open as a span of text.
    pub open spec fn finish(self) -> Seq<ElementView> {
        self.done + spans_of(self.stack)
    }
}

/// The elements that a text stands for.
pub open spec fn flat_parse(text: Seq<char>) -> Seq<ElementView> {
    FlatView::start().run(text).finish()
}

/// Turns every entry of the stack into a span of text at the end of `done`,
/// outermost first, and empties the stack.
fn clear_stack(stack: &mut VecDeque<StackEntry>, done: &mut VecDeque<Element>)
    ensures
        final(stack)@.len() == 0,
        elements_view(final(done)@) == elements_view(old(done)@) + spans_of(
            entries_view(old(stack)@),
        ),
{
    let ghost given = entries_view(stack@);
    let ghost first = elements_view(done@);
    let ghost mut k: int = 0;
    assert(given.skip(0) =~= given);
    assert(first + spans_of(given.take(0)) =~= first);
    loop
        invariant
            0 <= k <= given.len(),
            entries_view(stack@) == given.skip(k),
            elements_view(done@) == first + spans_of(given.take(k)),
        ensures
            stack@.len() == 0,
            k == given.len(),
        decreases stack@.len(),
    {
        let ghost rest = stack@;
        match stack.pop_front() {
            Some(entry) => {
                proof {
                    assert(entries_view(rest).len() == rest.len());
                    assert(k < given.len());
                    assert(entries_view(rest)[0] == entry@);
                    assert(given[k] == given.skip(k)[0]);
                    assert forall|j: int| 0 <= j < stack@.len() implies entries_view(stack@)[j]
                        == given.skip(k + 1)[j] by {
                        assert(stack@[j] == rest[j + 1]);
                        assert(entries_view(rest)[j + 1] == given.skip(k)[j + 1]);
                    }
                    assert(entries_view(stack@) =~= given.skip(k + 1));
                }
                let mut value = entry.md.to_string();
                value.append(entry.text.as_str());
                let span = Element::new(Tag::Span, value);
                let ghost before = done@;
                done.push_back(span);
                proof {
                    assert(elements_view(done@) =~= elements_view(before).push(span_of(entry@)));
                    assert(spans_of(given.take(k + 1)) =~= spans_of(given.take(k)).push(
                        span_of(given[k]),
                    ));
                    k = k + 1;
                }
            },
            None => {
                assert(entries_view(rest).len() == 0);
                break ;
            },
        }
    }
    assert(given.take(k) =~= given);
}

/// Turns a text in which `*` marks italics and `**` marks bold into a flat
/// sequence of elements. Text outside markup becomes spans. Markup that is
/// not closed stays in the output as the characters it was written with.
pub fn text_to_html2(text: &str) -> (elements: VecDeque<Element>)
    ensures
        elements_view(elements@) == flat_parse(text@),
{
    let chars = chars_of(text);
    let mut stack: VecDeque<StackEntry> = VecDeque::new();
    stack.push_back(StackEntry::from(Markdown::Line));
    let mut done: VecDeque<Element> = VecDeque::new();
    let mut i: usize = 0;
    assert(chars@.take(0) =~= Seq::empty());
    assert(entries_view(stack@) =~= FlatView::start().stack);
    assert(elements_view(done@) =~= FlatView::start().done);
    while i < chars.len()
        invariant
            i <= chars@.len(),
            (FlatView { stack: entries_view(stack@), done: elements_view(done@) })
                == FlatView::start().run(chars@.take(i as int)),
        decreases chars@.len() - i,
    {
        let c = chars[i];
        let ghost before = FlatView { stack: entries_view(stack@), done: elements_view(done@) };
        assert(chars@.take(i + 1).drop_last() =~= chars@.take(i as int));
        if stack.len() == 0 {
            stack.push_back(StackEntry::from(Markdown::Line));
            assert(entries_view(stack@) =~= before.ready().stack);
        }
        let ghost state = before.ready();
        let ghost open = stack@;
        match stack.pop_back() {
            Some(top) => {
                assert(entries_view(stack@) =~= state.stack.drop_last());
                assert(top@ == state.stack.last());
                if c != '*' {
                    let mut top = top;
                    push_char(&mut top.text, c);
                    stack.push_back(top);
                    assert(entries_view(stack@) =~= state.push_char(c).stack);
                } else if top.md != Markdown::Star {
                    stack.push_back(top);
                    assert(stack@ =~= open);
                    stack.push_back(StackEntry::from(Markdown::Star));
                    assert(entries_view(stack@) =~= state.open(Markdown::Star).stack);
                } else if !top.text.as_str().is_empty() {
                    clear_stack(&mut stack, &mut done);
                    done.push_back(Element::new(Tag::Italics, top.text));
                    assert(entries_view(stack@) =~= Seq::empty());
                    assert(elements_view(done@) =~= state.pop().flush_with(
                        KindView::Italics,
                        top@.text,
                    ).done);
                } else if stack.len() > 0 && stack[stack.len() - 1].md == Markdown::DoubleStar {
                    let bold = stack.pop_back().unwrap();
                    assert(entries_view(stack@) =~= state.pop().pop().stack);
                    clear_stack(&mut stack, &mut done);
                    done.push_back(Element::new(Tag::Bold, bold.text));
                    assert(entries_view(stack@) =~= Seq::empty());
                    assert(elements_view(done@) =~= state.pop().pop().flush_with(
                        KindView::Bold,
                        bold@.text,
                    ).done);
                } else {
                    stack.push_back(StackEntry::from(Markdown::DoubleStar));
                    assert(entries_view(stack@) =~= state.pop().open(Markdown::DoubleStar).stack);
                }
            },
            None => {
                assert(false);
            },
        }
        i += 1;
    }
    assert(chars@.take(i as int) =~= chars@);
    clear_stack(&mut stack, &mut done);
    done
}

/// Reading a text without `*` collects it, unchanged, in the one line
/// entry.
pub proof fn lemma_flat_run_without_star(text: Seq<char>)
    requires
        forall|i: int| 0 <= i < text.len() ==> text[i] != '*',
    ensures
        FlatView::start().run(text) == (FlatView {
            stack: seq![EntryView { md: Markdown::Line, text }],
            done: Seq::empty(),
        }),
    decreases text.len(),
{
    if text.len() == 0 {
        assert(text =~= Seq::<char>::empty());
        assert(FlatView::start().run(text) == FlatView::start());
    } else {
        let head = text.drop_last();
        lemma_flat_run_without_star(head);
        let before = FlatView::start().run(head);
        assert(text[text.len() - 1] != '*');
        assert(head.push(text.last()) =~= text);
        assert(before.step(text.last()).stack =~= seq![EntryView { md: Markdown::Line, text }]);
    }
}

/// A text without `*` is one span that holds it.
pub proof fn lemma_flat_text_without_star_is_one_span(text: Seq<char>)
    requires
        forall|i: int| 0 <= i < text.len() ==> text[i] != '*',
    ensures
        flat_parse(text) == seq![ElementView { tag: KindView::Span, value: text }],
{
    lemma_flat_run_without_star(text);
    let state = FlatView::start().run(text);
    assert(Markdown::Line.literal() + text =~= text);
    assert(state.finish() =~= seq![ElementView { tag: KindView::Span, value: text }]);
}

} // verus!
