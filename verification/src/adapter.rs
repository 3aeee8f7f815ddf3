//! Builds the tree from the events of a markdown engine: an element that
//! the tree has a node for opens one, text goes to the innermost open node.
use crate::events::{events_view, Level, MdEvent, MdEventView, MdTag, MdTagView};
use crate::parser::language_text;
use crate::scan::default_language;
use crate::tag::{
    lemma_tag_view, push_text, push_text_value, values_view, Tag, TagType, TagTypeView, TagValue,
    TagView,
};
use crate::text::{chars_of, string_of};
use std::collections::VecDeque;
use vstd::prelude::*;

verus! {

/// The node kind of a heading of the given level.
pub open spec fn level_kind(level: Level) -> TagTypeView {
    match level {
        Level::H1 => TagTypeView::H1,
        Level::H2 => TagTypeView::H2,
        Level::H3 => TagTypeView::H3,
        Level::H4 => TagTypeView::H4,
        Level::H5 => TagTypeView::H5,
        Level::H6 => TagTypeView::H6,
    }
}

/// The language of a code block: the one that its fence names, or the
/// default where it names none.
pub open spec fn block_language(language: Option<Seq<char>>) -> Seq<char> {
    match language {
        Some(name) => if name.len() > 0 {
            name
        } else {
            default_language()
        },
        None => default_language(),
    }
}

/// The node that an element opens in the tree, if it has one.
pub open spec fn node_kind(tag: MdTagView) -> Option<TagTypeView> {
    match tag {
        MdTagView::Heading(level) => Some(level_kind(level)),
        MdTagView::BlockQuote => Some(TagTypeView::BlockQuote),
        MdTagView::CodeBlock(language) => Some(TagTypeView::Code(block_language(language))),
        MdTagView::Emphasis => Some(TagTypeView::Italics),
        MdTagView::Strong => Some(TagTypeView::Bold),
        MdTagView::Strikethrough => Some(TagTypeView::Strikethrough),
        MdTagView::Paragraph
        | MdTagView::List
        | MdTagView::Item
        | MdTagView::FootnoteDefinition
        | MdTagView::Table
        | MdTagView::TableHead
        | MdTagView::TableRow
        | MdTagView::TableCell
        | MdTagView::Link
        | MdTagView::Image => None,
    }
}

/// `t` ends in three backticks.
pub open spec fn ends_in_fence(t: Seq<char>) -> bool {
    t.len() >= 3 && t[t.len() - 1] == '`' && t[t.len() - 2] == '`' && t[t.len() - 3] == '`'
}

/// `t` without the closing fence that the engine left at its end: three
/// backticks or, failing that, one.
pub open spec fn without_fence(t: Seq<char>) -> Seq<char> {
    if ends_in_fence(t) {
        t.take(t.len() - 3)
    } else if t.len() > 0 && t.last() == '`' {
        t.drop_last()
    } else {
        t
    }
}

/// The node with the closing fence cut from its last child, where that is a
/// text.
pub open spec fn trim_fence(tag: TagView) -> TagView {
    if tag.values.len() > 0 && tag.values.last() is Text {
        TagView {
            kind: tag.kind,
            values: push_text(tag.values.drop_last(), without_fence(tag.values.last()->Text_0)),
        }
    } else {
        tag
    }
}

/// The state of a walk over the events: the root built so far, the nodes
/// that are open, the innermost last, and whether a code block is open.
pub struct BuildView {
    pub root: TagView,
    pub stack: Seq<TagView>,
    pub in_code_block: bool,
}

impl BuildView {
    /// The state before the first event.
    pub open spec fn start() -> BuildView {
        BuildView {
            root: TagView::empty(TagTypeView::Paragraph),
            stack: Seq::empty(),
            in_code_block: false,
        }
    }

    /// The state with its innermost open node replaced.
    pub open spec fn set_top(self, tag: TagView) -> BuildView {
        BuildView {
            root: self.root,
            stack: self.stack.drop_last().push(tag),
            in_code_block: self.in_code_block,
        }
    }

    /// Text added to the innermost open node, or to the root.
    pub open spec fn add_text(self, t: Seq<char>) -> BuildView {
        if self.stack.len() > 0 {
            self.set_top(self.stack.last().add_text(t))
        } else {
            BuildView {
                root: self.root.add_text(t),
                stack: self.stack,
                in_code_block: self.in_code_block,
            }
        }
    }

    /// A node added to the innermost open node, or to the root.
    pub open spec fn add_tag(self, tag: TagView) -> BuildView {
        if self.stack.len() > 0 {
            self.set_top(self.stack.last().add_tag(tag))
        } else {
            BuildView {
                root: self.root.add_tag(tag),
                stack: self.stack,
                in_code_block: self.in_code_block,
            }
        }
    }

    /// The innermost open node closed: it becomes a child of the node below
    /// it, or of the root.
    pub open spec fn close(self) -> BuildView {
        if self.stack.len() > 0 {
            BuildView {
                root: self.root,
                stack: self.stack.drop_last(),
                in_code_block: self.in_code_block,
            }.add_tag(self.stack.last())
        } else {
            self
        }
    }

    /// The start of an element: a node is opened for it, if the tree has
    /// one.
    pub open spec fn start_tag(self, tag: MdTagView) -> BuildView {
        match node_kind(tag) {
            Some(kind) => BuildView {
                root: self.root,
                stack: self.stack.push(TagView::empty(kind)),
                in_code_block: self.in_code_block || tag is CodeBlock,
            },
            None => self,
        }
    }

    /// The end of an element. The end of a code block cuts the closing
    /// fence from the text of the innermost open node, which stays open.
    /// The end of any other element that has a node closes the innermost
    /// open node. The end of an element without a node changes nothing.
    pub open spec fn end_tag(self, tag: MdTagView) -> BuildView {
        if tag is CodeBlock {
            let inside = if self.stack.len() > 0 {
                self.set_top(trim_fence(self.stack.last()))
            } else {
                self
            };
            BuildView { root: inside.root, stack: inside.stack, in_code_block: false }
        } else if node_kind(tag) is Some {
            self.close()
        } else {
            self
        }
    }

    /// A line break: a line break character inside a code block, a line
    /// break node elsewhere.
    pub open spec fn line_break(self) -> BuildView {
        if self.in_code_block {
            if self.stack.len() > 0 {
                self.add_text(seq!['\n'])
            } else {
                self
            }
        } else {
            self.add_tag(TagView::empty(TagTypeView::NewLine))
        }
    }

    /// The state after one more event.
    pub open spec fn step(self, event: MdEventView) -> BuildView {
        match event {
            MdEventView::Start(tag) => self.start_tag(tag),
            MdEventView::End(tag) => self.end_tag(tag),
            MdEventView::Text(t) => self.add_text(t),
            MdEventView::Code(t) => self.add_tag(
                TagView::with_text(TagTypeView::Code(default_language()), t),
            ),
            MdEventView::Html(t) => self.add_text(t),
            MdEventView::SoftBreak => self.line_break(),
            MdEventView::HardBreak => self.line_break(),
            MdEventView::FootnoteReference | MdEventView::Rule | MdEventView::TaskListMarker => self,
        }
    }

    /// The state after the events of `events`, in order.
    pub open spec fn run(self, events: Seq<MdEventView>) -> BuildView
        decreases events.len(),
    {
        if events.len() == 0 {
            self
        } else {
            self.run(events.drop_last()).step(events.last())
        }
    }

    /// Every open node closed, innermost first.
    pub open spec fn close_all(self) -> BuildView
        decreases self.stack.len(),
    {
        if self.stack.len() > 0 {
            self.close().close_all()
        } else {
            self
        }
    }
}

/// The tree that a sequence of events stands for.
pub open spec fn events_tree(events: Seq<MdEventView>) -> TagView {
    BuildView::start().run(events).close_all().root
}

/// The views of the nodes of a stack, in order.
pub open spec fn tags_view(tags: Seq<Tag>) -> Seq<TagView> {
    Seq::new(tags.len(), |i: int| tags[i]@)
}

/// A walk over the events of a document that builds its tree.
pub struct Builder {
    pub root: Tag,
    pub stack: VecDeque<Tag>,
    pub in_code_block: bool,
}

impl View for Builder {
    type V = BuildView;

    open spec fn view(&self) -> BuildView {
        BuildView {
            root: self.root@,
            stack: tags_view(self.stack@),
            in_code_block: self.in_code_block,
        }
    }
}

/// The node kind of a heading of the given level.
pub fn level_type(level: Level) -> (kind: TagType)
    ensures
        kind@ == level_kind(level),
{
    match level {
        Level::H1 => TagType::H1,
        Level::H2 => TagType::H2,
        Level::H3 => TagType::H3,
        Level::H4 => TagType::H4,
        Level::H5 => TagType::H5,
        Level::H6 => TagType::H6,
    }
}

/// The node that an element opens in the tree, if it has one.
pub fn node_type(tag: &MdTag) -> (kind: Option<TagType>)
    ensures
        match kind {
            Some(k) => node_kind(tag@) == Some(k@),
            None => node_kind(tag@) is None,
        },
{
    match tag {
        MdTag::Heading(level) => Some(level_type(*level)),
        MdTag::BlockQuote => Some(TagType::BlockQuote),
        MdTag::CodeBlock(Some(name)) => {
            if name.as_str().is_empty() {
                Some(TagType::Code(language_text()))
            } else {
                Some(TagType::Code(name.clone()))
            }
        },
        MdTag::CodeBlock(None) => Some(TagType::Code(language_text())),
        MdTag::Emphasis => Some(TagType::Italics),
        MdTag::Strong => Some(TagType::Bold),
        MdTag::Strikethrough => Some(TagType::Strikethrough),
        MdTag::Paragraph
        | MdTag::List
        | MdTag::Item
        | MdTag::FootnoteDefinition
        | MdTag::Table
        | MdTag::TableHead
        | MdTag::TableRow
        | MdTag::TableCell
        | MdTag::Link
        | MdTag::Image => None,
    }
}

/// The text without the closing fence at its end.
pub fn cut_fence(text: &str) -> (cut: String)
    ensures
        cut@ == without_fence(text@),
{
    let chars = chars_of(text);
    let n = chars.len();
    let keep = if n >= 3 && chars[n - 1] == '`' && chars[n - 2] == '`' && chars[n - 3] == '`' {
        n - 3
    } else if n > 0 && chars[n - 1] == '`' {
        n - 1
    } else {
        n
    };
    proof {
        assert(chars@.subrange(0, keep as int) =~= without_fence(text@));
    }
    string_of(&chars, 0, keep)
}

/// The node with the closing fence cut from its last child, where that is a
/// text.
pub fn cut_fence_of(tag: Tag) -> (cut: Tag)
    ensures
        cut@ == trim_fence(tag@),
{
    let mut tag = tag;
    proof {
        lemma_tag_view(tag);
    }
    let ghost before = tag.values@;
    match tag.values.pop_back() {
        Some(TagValue::Text(s)) => {
            assert(values_view(tag.values@) =~= values_view(before).drop_last());
            let cut = cut_fence(s.as_str());
            push_text_value(&mut tag.values, cut.as_str());
        },
        Some(other) => {
            tag.values.push_back(other);
            assert(tag.values@ =~= before);
        },
        None => {},
    }
    proof {
        lemma_tag_view(tag);
    }
    tag
}

impl Builder {
    /// A walk that has seen no event.
    pub fn new() -> (builder: Self)
        ensures
            builder@ == BuildView::start(),
    {
        let builder = Builder {
            root: Tag::from(TagType::Paragraph),
            stack: VecDeque::new(),
            in_code_block: false,
        };
        assert(builder@.stack =~= Seq::empty());
        builder
    }

    /// Opens a node of the given kind.
    fn open(&mut self, kind: TagType)
        ensures
            final(self)@.root == old(self)@.root,
            final(self)@.stack == old(self)@.stack.push(TagView::empty(kind@)),
            final(self)@.in_code_block == old(self)@.in_code_block,
    {
        self.stack.push_back(Tag::from(kind));
        assert(self@.stack =~= old(self)@.stack.push(TagView::empty(kind@)));
    }

    /// Adds text to the innermost open node, or to the root.
    fn add_text(&mut self, text: &str)
        ensures
            final(self)@ == old(self)@.add_text(text@),
    {
        match self.stack.pop_back() {
            Some(mut top) => {
                assert(self@.stack =~= old(self)@.stack.drop_last());
                top.add_text(text);
                self.stack.push_back(top);
                assert(self@.stack =~= old(self)@.stack.drop_last().push(top@));
            },
            None => {
                self.root.add_text(text);
            },
        }
    }

    /// Adds a node to the innermost open node, or to the root.
    fn add_tag(&mut self, tag: Tag)
        ensures
            final(self)@ == old(self)@.add_tag(tag@),
    {
        match self.stack.pop_back() {
            Some(mut top) => {
                assert(self@.stack =~= old(self)@.stack.drop_last());
                top.add_tag(tag);
                self.stack.push_back(top);
                assert(self@.stack =~= old(self)@.stack.drop_last().push(top@));
            },
            None => {
                self.root.add_tag(tag);
            },
        }
    }

    /// Closes the innermost open node.
    fn close(&mut self)
        ensures
            final(self)@ == old(self)@.close(),
    {
        match self.stack.pop_back() {
            Some(top) => {
                assert(self@.stack =~= old(self)@.stack.drop_last());
                self.add_tag(top);
            },
            None => {},
        }
    }

    /// Handles the end of a code block.
    fn end_code_block(&mut self)
        ensures
            final(self)@ == old(self)@.end_tag(MdTagView::CodeBlock(None)),
    {
        match self.stack.pop_back() {
            Some(top) => {
                assert(self@.stack =~= old(self)@.stack.drop_last());
                let cut = cut_fence_of(top);
                self.stack.push_back(cut);
                assert(self@.stack =~= old(self)@.stack.drop_last().push(cut@));
            },
            None => {},
        }
        self.in_code_block = false;
    }

    /// Handles a soft or hard line break.
    fn line_break(&mut self)
        ensures
            final(self)@ == old(self)@.line_break(),
    {
        if self.in_code_block {
            if self.stack.len() > 0 {
                proof {
                    reveal_strlit("\n");
                }
                assert("\n"@ =~= seq!['\n']);
                self.add_text("\n");
            }
        } else {
            self.add_tag(Tag::from(TagType::NewLine));
        }
    }

    /// Takes one more event.
    pub fn event(&mut self, event: &MdEvent)
        ensures
            final(self)@ == old(self)@.step(event@),
    {
        match event {
            MdEvent::Start(tag) => {
                let is_code = match tag {
                    MdTag::CodeBlock(_) => true,
                    _ => false,
                };
                match node_type(tag) {
                    Some(kind) => {
                        self.open(kind);
                        if is_code {
                            self.in_code_block = true;
                        }
                    },
                    None => {},
                }
            },
            MdEvent::End(MdTag::CodeBlock(_)) => {
                self.end_code_block();
            },
            MdEvent::End(tag) => {
                if node_type(tag).is_some() {
                    self.close();
                }
            },
            MdEvent::Text(text) => {
                self.add_text(text.as_str());
            },
            MdEvent::Code(text) => {
                let mut node = Tag::from(TagType::Code(language_text()));
                node.add_text(text.as_str());
                self.add_tag(node);
            },
            MdEvent::Html(text) => {
                self.add_text(text.as_str());
            },
            MdEvent::SoftBreak | MdEvent::HardBreak => {
                self.line_break();
            },
            MdEvent::FootnoteReference | MdEvent::Rule | MdEvent::TaskListMarker => {},
        }
    }

    /// Closes every open node and gives the finished tree.
    pub fn finish(self) -> (root: Tag)
        ensures
            root@ == self@.close_all().root,
    {
        let mut builder = self;
        while builder.stack.len() > 0
            invariant
                builder@.close_all() == self@.close_all(),
            decreases builder.stack.len(),
        {
            builder.close();
        }
        builder.root
    }
}

/// Builds the tree that a sequence of events stands for. An element that
/// the tree has a node for opens one; text and code go to the innermost
/// open node, or to the root; whatever is still open at the end is closed.
pub fn tree_of_events(events: &Vec<MdEvent>) -> (root: Tag)
    ensures
        root@ == events_tree(events_view(events@)),
{
    let ghost given = events_view(events@);
    let mut builder = Builder::new();
    let mut i: usize = 0;
    assert(given.take(0) =~= Seq::empty());
    while i < events.len()
        invariant
            i <= events@.len(),
            given == events_view(events@),
            builder@ == BuildView::start().run(given.take(i as int)),
        decreases events@.len() - i,
    {
        assert(given.take(i + 1).drop_last() =~= given.take(i as int));
        builder.event(&events[i]);
        i += 1;
    }
    assert(given.take(i as int) =~= given);
    builder.finish()
}

} // verus!
