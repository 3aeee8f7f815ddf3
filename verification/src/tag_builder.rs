//! One entry of the parser's stack.
use crate::md::Markdown;
use crate::tag::{
    lemma_values_view_push, push_text, push_text_value, push_value, push_value_back, push_values,
    push_values_back, values_view, TagValue, TagValueView,
};
use std::collections::VecDeque;
use vstd::prelude::*;
use vstd::std_specs::convert::FromSpecImpl;
use vstd::string::StringExecFns;

verus! {

/// One entry of the parser's stack: a construct that has been opened and not
/// yet closed.
pub struct TagBuilder {
    /// The marker that opened it.
    pub md: Markdown,
    /// The characters read since the last child was completed.
    pub in_progress: String,
    /// The children completed so far.
    pub completed: VecDeque<TagValue>,
}

/// What a `TagBuilder` stands for in contracts.
pub struct TagBuilderView {
    pub md: Markdown,
    pub in_progress: Seq<char>,
    pub completed: Seq<TagValueView>,
}

impl TagBuilderView {
    /// An entry of the given kind that holds nothing.
    pub open spec fn fresh(md: Markdown) -> TagBuilderView {
        TagBuilderView { md, in_progress: Seq::empty(), completed: Seq::empty() }
    }

    /// Nothing has been collected since the entry was opened.
    pub open spec fn is_blank(self) -> bool {
        self.in_progress.len() == 0 && self.completed.len() == 0
    }

    /// The entry with its pending characters moved to the end of its
    /// children.
    pub open spec fn save_progress(self) -> TagBuilderView {
        TagBuilderView {
            md: self.md,
            in_progress: Seq::empty(),
            completed: push_text(self.completed, self.in_progress),
        }
    }

    pub open spec fn append_value(self, v: TagValueView) -> TagBuilderView {
        TagBuilderView {
            md: self.md,
            in_progress: self.in_progress,
            completed: push_value(self.completed, v),
        }
    }

    pub open spec fn append_values(self, more: Seq<TagValueView>) -> TagBuilderView {
        TagBuilderView {
            md: self.md,
            in_progress: self.in_progress,
            completed: push_values(self.completed, more),
        }
    }

    /// The entry with `t` added to its pending characters.
    pub open spec fn push_pending(self, t: Seq<char>) -> TagBuilderView {
        TagBuilderView {
            md: self.md,
            in_progress: self.in_progress + t,
            completed: self.completed,
        }
    }

    /// The entry under another kind, its contents unchanged.
    pub open spec fn with_kind(self, md: Markdown) -> TagBuilderView {
        TagBuilderView { md, in_progress: self.in_progress, completed: self.completed }
    }

    /// The entry as source text: one text of marker and pending characters
    /// where it has no children, else the marker as text, the children, and
    /// the pending characters as a last text if there are any.
    pub open spec fn to_values(self) -> Seq<TagValueView> {
        if self.completed.len() == 0 {
            seq![TagValueView::Text(self.md.literal() + self.in_progress)]
        } else if self.in_progress.len() == 0 {
            seq![TagValueView::Text(self.md.literal())] + self.completed
        } else {
            (seq![TagValueView::Text(self.md.literal())] + self.completed).push(
                TagValueView::Text(self.in_progress),
            )
        }
    }

    /// What `to_values` leaves in the entry: no children, and the pending
    /// characters only where there were no children.
    pub open spec fn emptied(self) -> TagBuilderView {
        TagBuilderView {
            md: self.md,
            in_progress: if self.completed.len() == 0 {
                self.in_progress
            } else {
                Seq::empty()
            },
            completed: Seq::empty(),
        }
    }

    /// The children of the node that the entry becomes when it is closed:
    /// its children, then its pending characters.
    pub open spec fn content(self) -> Seq<TagValueView> {
        push_text(self.completed, self.in_progress)
    }

    /// The first thing collected since the entry was opened is a space.
    pub open spec fn begins_with_space(self) -> bool {
        if self.completed.len() > 0 {
            self.completed.first() is Text && self.completed.first()->Text_0.len() > 0
                && self.completed.first()->Text_0.first() == ' '
        } else {
            self.in_progress.len() > 0 && self.in_progress.first() == ' '
        }
    }
}

impl View for TagBuilder {
    type V = TagBuilderView;

    open spec fn view(&self) -> TagBuilderView {
        TagBuilderView {
            md: self.md,
            in_progress: self.in_progress@,
            completed: values_view(self.completed@),
        }
    }
}

/// The views of two deques of children, one after the other, are the views
/// of the joined deque.
pub proof fn lemma_values_view_add(a: Seq<TagValue>, b: Seq<TagValue>)
    ensures
        values_view(a + b) == values_view(a) + values_view(b),
{
    assert(values_view(a + b) =~= values_view(a) + values_view(b));
}

impl TagBuilder {
    /// Turns the entry into source text and children, and empties it.
    pub fn to_values(&mut self) -> (values: VecDeque<TagValue>)
        ensures
            values_view(values@) == old(self)@.to_values(),
            final(self)@ == old(self)@.emptied(),
    {
        let mut values: VecDeque<TagValue> = VecDeque::new();
        if self.completed.len() == 0 {
            let mut text = self.md.to_string();
            text.append(self.in_progress.as_str());
            values.push_back(TagValue::Text(text));
            proof {
                assert(values_view(values@) =~= old(self)@.to_values());
                assert(self@.completed =~= Seq::empty());
            }
        } else {
            let marker = TagValue::Text(self.md.to_string());
            values.push_back(marker);
            let ghost head = values@;
            let ghost children = self.completed@;
            values.append(&mut self.completed);
            proof {
                lemma_values_view_add(head, children);
                assert(values_view(head) =~= seq![TagValueView::Text(self.md.literal())]);
                assert(values_view(self.completed@) =~= Seq::empty());
            }
            if !self.in_progress.as_str().is_empty() {
                let pending = TagValue::Text(self.in_progress.clone());
                self.in_progress = String::new();
                proof {
                    lemma_values_view_push(values@, pending);
                }
                values.push_back(pending);
            } else {
                assert(self.in_progress@ =~= Seq::empty());
            }
        }
        values
    }

    /// Adds the children `values`, in their order, at the end of the
    /// children.
    pub fn append_values(&mut self, values: VecDeque<TagValue>)
        ensures
            final(self)@ == old(self)@.append_values(values_view(values@)),
    {
        push_values_back(&mut self.completed, values);
    }

    /// Adds one child at the end of the children: text is joined to text
    /// before it, empty text is left out.
    pub fn append_value(&mut self, v: TagValue)
        ensures
            final(self)@ == old(self)@.append_value(v@),
    {
        push_value_back(&mut self.completed, v);
    }

    /// Moves the pending characters to the end of the children.
    pub fn save_progress(&mut self)
        ensures
            final(self)@ == old(self)@.save_progress(),
    {
        if !self.in_progress.as_str().is_empty() {
            push_text_value(&mut self.completed, self.in_progress.as_str());
            self.in_progress = String::new();
        } else {
            assert(self.in_progress@ =~= Seq::empty());
        }
    }
}

impl Default for TagBuilder {
    fn default() -> (entry: Self)
        ensures
            entry@ == TagBuilderView::fresh(Markdown::Line),
    {
        let entry = TagBuilder {
            md: Markdown::Line,
            in_progress: String::new(),
            completed: VecDeque::new(),
        };
        assert(entry@.completed =~= Seq::empty());
        entry
    }
}

impl From<Markdown> for TagBuilder {
    /// An entry of the given kind that holds nothing.
    fn from(value: Markdown) -> (entry: Self)
        ensures
            entry@ == TagBuilderView::fresh(value),
    {
        let entry = TagBuilder {
            md: value,
            in_progress: String::new(),
            completed: VecDeque::new(),
        };
        assert(entry@.completed =~= Seq::empty());
        entry
    }
}

impl FromSpecImpl<Markdown> for TagBuilder {
    /// Two empty entries need not be the same value, so `from` is described
    /// by its own `ensures`, over the view.
    open spec fn obeys_from_spec() -> bool {
        false
    }

    open spec fn from_spec(value: Markdown) -> Self {
        choose|entry: TagBuilder| entry@ == TagBuilderView::fresh(value)
    }
}

} // verus!
