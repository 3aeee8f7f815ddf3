//! The tree: nodes, their kinds and their children.
use std::collections::VecDeque;
use vstd::prelude::*;
use vstd::std_specs::convert::FromSpecImpl;
use vstd::string::StringExecFns;

verus! {

/// The kind of a node of the output tree.
#[derive(Eq, PartialEq, Debug)]
pub enum TagType {
    /// The root node.
    Paragraph,
    NewLine,
    Bold,
    Italics,
    Strikethrough,
    H1,
    H2,
    H3,
    H4,
    H5,
    H6,
    BlockQuote,
    /// A code span or block, with its language.
    Code(String),
}

/// A child of a node: a run of text or a nested node.
#[derive(Eq, PartialEq, Debug)]
pub enum TagValue {
    Text(String),
    Tag(Tag),
}

/// A node of the output tree.
#[derive(Eq, PartialEq, Debug)]
pub struct Tag {
    pub tag_type: TagType,
    pub values: VecDeque<TagValue>,
}

/// What a `TagType` stands for in contracts.
pub enum TagTypeView {
    Paragraph,
    NewLine,
    Bold,
    Italics,
    Strikethrough,
    H1,
    H2,
    H3,
    H4,
    H5,
    H6,
    BlockQuote,
    Code(Seq<char>),
}

/// What a `TagValue` stands for in contracts.
pub enum TagValueView {
    Text(Seq<char>),
    Tag(TagView),
}

/// What a `Tag` stands for in contracts: its kind and its children in order.
pub struct TagView {
    pub kind: TagTypeView,
    pub values: Seq<TagValueView>,
}

/// `vals` with the text `t` added at its end: nothing for an empty text,
/// merged into a text that already ends `vals`, a new child otherwise.
pub open spec fn push_text(vals: Seq<TagValueView>, t: Seq<char>) -> Seq<TagValueView> {
    if t.len() == 0 {
        vals
    } else if vals.len() > 0 && vals.last() is Text {
        vals.drop_last().push(TagValueView::Text(vals.last()->Text_0 + t))
    } else {
        vals.push(TagValueView::Text(t))
    }
}

/// `vals` with one more child: a text is merged as `push_text` says, a node
/// is added as it is.
pub open spec fn push_value(vals: Seq<TagValueView>, v: TagValueView) -> Seq<TagValueView> {
    match v {
        TagValueView::Text(t) => push_text(vals, t),
        TagValueView::Tag(_) => vals.push(v),
    }
}

/// `vals` with the children `more` added one after the other.
pub open spec fn push_values(vals: Seq<TagValueView>, more: Seq<TagValueView>) -> Seq<
    TagValueView,
>
    decreases more.len(),
{
    if more.len() == 0 {
        vals
    } else {
        push_values(push_value(vals, more.first()), more.drop_first())
    }
}

/// No child is an empty text and no two neighbours are both text, here and
/// in every nested node.
pub open spec fn well_formed(vals: Seq<TagValueView>) -> bool
    decreases vals,
{
    forall|i: int|
        0 <= i < vals.len() ==> match #[trigger] vals[i] {
            TagValueView::Text(t) => t.len() > 0 && (i + 1 < vals.len() ==> !(vals[i + 1] is Text)),
            TagValueView::Tag(n) => well_formed(n.values),
        }
}

impl TagView {
    /// A node of the given kind without children.
    pub open spec fn empty(kind: TagTypeView) -> TagView {
        TagView { kind, values: Seq::empty() }
    }

    pub open spec fn add_text(self, t: Seq<char>) -> TagView {
        TagView { kind: self.kind, values: push_text(self.values, t) }
    }

    pub open spec fn add_tag(self, tag: TagView) -> TagView {
        TagView { kind: self.kind, values: self.values.push(TagValueView::Tag(tag)) }
    }

    pub open spec fn append_values(self, more: Seq<TagValueView>) -> TagView {
        TagView { kind: self.kind, values: push_values(self.values, more) }
    }

    /// A node of the given kind whose only child is the text `t`, if that is
    /// not empty.
    pub open spec fn with_text(kind: TagTypeView, t: Seq<char>) -> TagView {
        TagView::empty(kind).add_text(t)
    }
}

impl View for TagType {
    type V = TagTypeView;

    open spec fn view(&self) -> TagTypeView {
        match self {
            TagType::Paragraph => TagTypeView::Paragraph,
            TagType::NewLine => TagTypeView::NewLine,
            TagType::Bold => TagTypeView::Bold,
            TagType::Italics => TagTypeView::Italics,
            TagType::Strikethrough => TagTypeView::Strikethrough,
            TagType::H1 => TagTypeView::H1,
            TagType::H2 => TagTypeView::H2,
            TagType::H3 => TagTypeView::H3,
            TagType::H4 => TagTypeView::H4,
            TagType::H5 => TagTypeView::H5,
            TagType::H6 => TagTypeView::H6,
            TagType::BlockQuote => TagTypeView::BlockQuote,
            TagType::Code(language) => TagTypeView::Code(language@),
        }
    }
}

/// The view of a child.
pub open spec fn value_view(v: TagValue) -> TagValueView
    decreases v,
{
    match v {
        TagValue::Text(s) => TagValueView::Text(s@),
        TagValue::Tag(t) => TagValueView::Tag(tag_view(t)),
    }
}

/// The view of a node.
pub open spec fn tag_view(t: Tag) -> TagView
    decreases t,
{
    TagView {
        kind: t.tag_type@,
        values: Seq::new(
            t.values@.len(),
            |i: int|
                if 0 <= i < t.values@.len() {
                    value_view(t.values@[i])
                } else {
                    TagValueView::Text(Seq::empty())
                },
        ),
    }
}

/// The views of a sequence of children, in order.
pub open spec fn values_view(vs: Seq<TagValue>) -> Seq<TagValueView> {
    Seq::new(vs.len(), |i: int| value_view(vs[i]))
}

/// The views of a sequence of nodes, each as a child.
pub open spec fn tags_as_values(ts: Seq<Tag>) -> Seq<TagValueView> {
    Seq::new(ts.len(), |i: int| TagValueView::Tag(tag_view(ts[i])))
}

impl View for TagValue {
    type V = TagValueView;

    open spec fn view(&self) -> TagValueView {
        value_view(*self)
    }
}

impl View for Tag {
    type V = TagView;

    open spec fn view(&self) -> TagView {
        tag_view(*self)
    }
}

/// The view of a node holds the views of its children.
pub proof fn lemma_tag_view(t: Tag)
    ensures
        t@.kind == t.tag_type@,
        t@.values == values_view(t.values@),
{
    assert(t@.values =~= values_view(t.values@));
}

/// Adding a child at the end of a deque adds its view at the end of the views.
pub proof fn lemma_values_view_push(vs: Seq<TagValue>, v: TagValue)
    ensures
        values_view(vs.push(v)) == values_view(vs).push(v@),
{
    assert(values_view(vs.push(v)) =~= values_view(vs).push(v@));
}

impl Clone for TagType {
    fn clone(&self) -> (copy: Self)
        ensures
            copy@ == self@,
    {
        match self {
            TagType::Paragraph => TagType::Paragraph,
            TagType::NewLine => TagType::NewLine,
            TagType::Bold => TagType::Bold,
            TagType::Italics => TagType::Italics,
            TagType::Strikethrough => TagType::Strikethrough,
            TagType::H1 => TagType::H1,
            TagType::H2 => TagType::H2,
            TagType::H3 => TagType::H3,
            TagType::H4 => TagType::H4,
            TagType::H5 => TagType::H5,
            TagType::H6 => TagType::H6,
            TagType::BlockQuote => TagType::BlockQuote,
            TagType::Code(language) => TagType::Code(language.clone()),
        }
    }
}

/// A copy of a child, with every node below it.
pub fn clone_value(v: &TagValue) -> (copy: TagValue)
    ensures
        copy@ == v@,
    decreases v,
{
    match v {
        TagValue::Text(s) => TagValue::Text(s.clone()),
        TagValue::Tag(t) => TagValue::Tag(clone_tag(t)),
    }
}

/// A copy of a node, with every node below it.
pub fn clone_tag(t: &Tag) -> (copy: Tag)
    ensures
        copy@ == t@,
    decreases t,
{
    let mut values: VecDeque<TagValue> = VecDeque::new();
    let mut i: usize = 0;
    while i < t.values.len()
        invariant
            i <= t.values@.len(),
            values_view(values@) == values_view(t.values@).take(i as int),
        decreases t.values@.len() - i,
    {
        let ghost before = values@;
        let child = clone_value(&t.values[i]);
        let ghost last = child;
        values.push_back(child);
        proof {
            lemma_values_view_push(before, last);
            assert(values_view(t.values@).take(i + 1) =~= values_view(t.values@).take(
                i as int,
            ).push(t.values@[i as int]@));
        }
        i += 1;
    }
    let copy = Tag { tag_type: t.tag_type.clone(), values };
    proof {
        lemma_tag_view(copy);
        lemma_tag_view(*t);
        assert(values_view(t.values@).take(t.values@.len() as int) =~= values_view(t.values@));
    }
    copy
}

impl Clone for TagValue {
    fn clone(&self) -> (copy: Self)
        ensures
            copy@ == self@,
    {
        clone_value(self)
    }
}

impl Clone for Tag {
    fn clone(&self) -> (copy: Self)
        ensures
            copy@ == self@,
    {
        clone_tag(self)
    }
}

/// Adds `text` at the end of `values`, as `push_text` says.
pub fn push_text_value(values: &mut VecDeque<TagValue>, text: &str)
    ensures
        values_view(final(values)@) == push_text(values_view(old(values)@), text@),
{
    if text.is_empty() {
        return ;
    }
    let ghost before = values@;
    match values.pop_back() {
        Some(TagValue::Text(mut s)) => {
            let ghost rest = values@;
            s.append(text);
            let joined = TagValue::Text(s);
            let ghost last = joined;
            values.push_back(joined);
            proof {
                lemma_values_view_push(rest, last);
                assert(values_view(rest) =~= values_view(before).drop_last());
            }
        },
        Some(other) => {
            values.push_back(other);
            assert(values@ =~= before);
            let fresh = TagValue::Text(text.to_owned());
            let ghost last = fresh;
            values.push_back(fresh);
            proof {
                lemma_values_view_push(before, last);
            }
        },
        None => {
            let fresh = TagValue::Text(text.to_owned());
            let ghost last = fresh;
            values.push_back(fresh);
            proof {
                lemma_values_view_push(before, last);
            }
        },
    }
}

/// Adds `v` at the end of `values`, as `push_value` says.
pub fn push_value_back(values: &mut VecDeque<TagValue>, v: TagValue)
    ensures
        values_view(final(values)@) == push_value(values_view(old(values)@), v@),
{
    match v {
        TagValue::Text(s) => {
            push_text_value(values, s.as_str());
        },
        TagValue::Tag(t) => {
            let ghost before = values@;
            let node = TagValue::Tag(t);
            let ghost last = node;
            values.push_back(node);
            proof {
                lemma_values_view_push(before, last);
            }
        },
    }
}

/// Adds the children `more` at the end of `values`, as `push_values` says.
pub fn push_values_back(values: &mut VecDeque<TagValue>, more: VecDeque<TagValue>)
    ensures
        values_view(final(values)@) == push_values(values_view(old(values)@), values_view(more@)),
{
    let ghost given = values_view(more@);
    let mut left = more;
    loop
        invariant
            push_values(values_view(values@), values_view(left@)) == push_values(
                values_view(old(values)@),
                given,
            ),
        ensures
            left@.len() == 0,
        decreases left@.len(),
    {
        let ghost rest = left@;
        match left.pop_front() {
            Some(v) => {
                proof {
                    assert(values_view(rest).first() == v@);
                    assert(values_view(rest).drop_first() =~= values_view(left@));
                }
                push_value_back(values, v);
            },
            None => {
                break ;
            },
        }
    }
    assert(values_view(left@).len() == 0);
}

impl Tag {
    /// Adds text at the end of the children; an empty text adds nothing, and
    /// text after text is joined to it.
    pub fn add_text(&mut self, text: &str)
        ensures
            final(self)@ == old(self)@.add_text(text@),
    {
        proof {
            lemma_tag_view(*self);
        }
        push_text_value(&mut self.values, text);
        proof {
            lemma_tag_view(*self);
        }
    }

    /// Adds a node at the end of the children.
    pub fn add_tag(&mut self, tag: Tag)
        ensures
            final(self)@ == old(self)@.add_tag(tag@),
    {
        proof {
            lemma_tag_view(*self);
            lemma_values_view_push(self.values@, TagValue::Tag(tag));
        }
        self.values.push_back(TagValue::Tag(tag));
        proof {
            lemma_tag_view(*self);
        }
    }

    /// Adds the nodes of `tags`, in their order, at the end of the children.
    pub fn add_tags(&mut self, tags: VecDeque<Tag>)
        ensures
            final(self)@.kind == old(self)@.kind,
            final(self)@.values == old(self)@.values + tags_as_values(tags@),
    {
        let ghost given = tags_as_values(tags@);
        let mut left = tags;
        loop
            invariant
                self@.kind == old(self)@.kind,
                self@.values + tags_as_values(left@) == old(self)@.values + given,
            ensures
                left@.len() == 0,
            decreases left@.len(),
        {
            let ghost rest = left@;
            let ghost seen = self@.values;
            match left.pop_front() {
                Some(t) => {
                    let ghost node = t@;
                    self.add_tag(t);
                    proof {
                        assert(seen.push(TagValueView::Tag(node)) + tags_as_values(left@) =~= seen
                            + tags_as_values(rest));
                    }
                },
                None => {
                    break ;
                },
            }
        }
        assert(self@.values + tags_as_values(left@) =~= self@.values);
    }

    /// Adds the children `values`, in their order, at the end of the
    /// children: text is joined to text before it, empty text is left out.
    pub fn append_values(&mut self, values: VecDeque<TagValue>)
        ensures
            final(self)@ == old(self)@.append_values(values_view(values@)),
    {
        proof {
            lemma_tag_view(*self);
        }
        push_values_back(&mut self.values, values);
        proof {
            lemma_tag_view(*self);
        }
    }

    /// Adds a node of kind `tag_type` that holds `text`.
    pub fn add_tag_w_text(&mut self, tag_type: TagType, text: &str)
        ensures
            final(self)@ == old(self)@.add_tag(TagView::with_text(tag_type@, text@)),
    {
        let mut n: Tag = Tag::from(tag_type);
        n.add_text(text);
        self.add_tag(n);
    }
}

impl From<TagType> for Tag {
    /// A node of the given kind without children.
    fn from(value: TagType) -> (tag: Self)
        ensures
            tag.tag_type == value,
            tag@ == TagView::empty(value@),
    {
        let tag = Tag { tag_type: value, values: VecDeque::new() };
        proof {
            lemma_tag_view(tag);
            assert(tag@.values =~= Seq::empty());
        }
        tag
    }
}

impl FromSpecImpl<TagType> for Tag {
    /// Two empty deques need not be the same value, so `from` is described
    /// by its own `ensures`, over the view.
    open spec fn obeys_from_spec() -> bool {
        false
    }

    open spec fn from_spec(value: TagType) -> Self {
        choose|tag: Tag| tag.tag_type == value && tag.values@.len() == 0
    }
}

impl Default for Tag {
    fn default() -> (tag: Self)
        ensures
            tag@ == TagView::empty(TagTypeView::Paragraph),
    {
        let tag = Tag { tag_type: TagType::Paragraph, values: VecDeque::new() };
        proof {
            lemma_tag_view(tag);
            assert(tag@.values =~= Seq::empty());
        }
        tag
    }
}

} // verus!
