//! The shape of every tree: no node holds an empty text or two texts side by
//! side.
use crate::scan::{
    line_end, merge_one, merge_quotes, nearest, parse, strip_back, strip_front,
    without_first_char, ParserView,
};
use crate::adapter::{events_tree, trim_fence, BuildView};
use crate::events::MdEventView;
use crate::md::Markdown;
use crate::tag::{push_text, push_value, push_values, well_formed, TagValueView, TagView};
use crate::tag_builder::TagBuilderView;
use vstd::prelude::*;

verus! {

/// Every node among the children is well formed inside; the children
/// themselves may hold empty texts and texts side by side.
pub open spec fn nodes_well_formed(vals: Seq<TagValueView>) -> bool {
    forall|i: int| 0 <= i < vals.len() && (#[trigger] vals[i]) is Tag ==> well_formed(vals[i]->Tag_0.values)
}

/// The root and the children of every open entry are well formed.
pub open spec fn state_well_formed(state: ParserView) -> bool {
    &&& well_formed(state.root.values)
    &&& forall|i: int|
        0 <= i < state.stack.len() ==> well_formed((#[trigger] state.stack[i]).completed)
}

/// Well-formed children hold well-formed nodes.
pub proof fn lemma_well_formed_nodes(vals: Seq<TagValueView>)
    requires
        well_formed(vals),
    ensures
        nodes_well_formed(vals),
{
    assert forall|i: int| 0 <= i < vals.len() && (#[trigger] vals[i]) is Tag implies well_formed(
        vals[i]->Tag_0.values,
    ) by {}
}

/// The first children of well-formed children are well formed.
pub proof fn lemma_well_formed_take(vals: Seq<TagValueView>, n: int)
    requires
        well_formed(vals),
        0 <= n <= vals.len(),
    ensures
        well_formed(vals.take(n)),
{
    let head = vals.take(n);
    assert forall|i: int| 0 <= i < head.len() implies match #[trigger] head[i] {
        TagValueView::Text(t) => t.len() > 0 && (i + 1 < head.len() ==> !(head[i + 1] is Text)),
        TagValueView::Tag(node) => well_formed(node.values),
    } by {
        assert(head[i] == vals[i]);
        if i + 1 < head.len() {
            assert(head[i + 1] == vals[i + 1]);
        }
    }
}

/// The last children of well-formed children are well formed.
pub proof fn lemma_well_formed_skip(vals: Seq<TagValueView>, n: int)
    requires
        well_formed(vals),
        0 <= n <= vals.len(),
    ensures
        well_formed(vals.skip(n)),
{
    let tail = vals.skip(n);
    assert forall|i: int| 0 <= i < tail.len() implies match #[trigger] tail[i] {
        TagValueView::Text(t) => t.len() > 0 && (i + 1 < tail.len() ==> !(tail[i + 1] is Text)),
        TagValueView::Tag(node) => well_formed(node.values),
    } by {
        assert(tail[i] == vals[n + i]);
        if i + 1 < tail.len() {
            assert(tail[i + 1] == vals[n + i + 1]);
        }
    }
}

/// A well-formed node added to well-formed children leaves them well
/// formed.
pub proof fn lemma_push_node_well_formed(vals: Seq<TagValueView>, v: TagValueView)
    requires
        well_formed(vals),
        v is Tag,
        well_formed(v->Tag_0.values),
    ensures
        well_formed(vals.push(v)),
{
    let out = vals.push(v);
    assert forall|i: int| 0 <= i < out.len() implies match #[trigger] out[i] {
        TagValueView::Text(t) => t.len() > 0 && (i + 1 < out.len() ==> !(out[i + 1] is Text)),
        TagValueView::Tag(node) => well_formed(node.values),
    } by {
        if i < vals.len() {
            assert(out[i] == vals[i]);
            if i + 1 < vals.len() {
                assert(out[i + 1] == vals[i + 1]);
            }
        }
    }
}

/// Text added to well-formed children leaves them well formed: empty text
/// is left out and text after text is joined to it.
pub proof fn lemma_push_text_well_formed(vals: Seq<TagValueView>, t: Seq<char>)
    requires
        well_formed(vals),
    ensures
        well_formed(push_text(vals, t)),
{
    let out = push_text(vals, t);
    if t.len() > 0 {
        assert forall|i: int| 0 <= i < out.len() implies match #[trigger] out[i] {
            TagValueView::Text(s) => s.len() > 0 && (i + 1 < out.len() ==> !(out[i + 1] is Text)),
            TagValueView::Tag(node) => well_formed(node.values),
        } by {
            if vals.len() > 0 && vals.last() is Text {
                if i < vals.len() - 1 {
                    assert(out[i] == vals[i]);
                    if i + 1 < vals.len() - 1 {
                        assert(out[i + 1] == vals[i + 1]);
                    } else {
                        assert(vals[i + 1] is Text);
                    }
                }
            } else {
                if i < vals.len() {
                    assert(out[i] == vals[i]);
                    if i + 1 < vals.len() {
                        assert(out[i + 1] == vals[i + 1]);
                    }
                }
            }
        }
    }
}

/// A child added to well-formed children leaves them well formed, if it is
/// a text or a well-formed node.
pub proof fn lemma_push_value_well_formed(vals: Seq<TagValueView>, v: TagValueView)
    requires
        well_formed(vals),
        v is Tag ==> well_formed(v->Tag_0.values),
    ensures
        well_formed(push_value(vals, v)),
{
    match v {
        TagValueView::Text(t) => lemma_push_text_well_formed(vals, t),
        TagValueView::Tag(_) => lemma_push_node_well_formed(vals, v),
    }
}

/// Children added one after the other to well-formed children leave them
/// well formed, whatever texts they hold, if their nodes are well formed.
pub proof fn lemma_push_values_well_formed(vals: Seq<TagValueView>, more: Seq<TagValueView>)
    requires
        well_formed(vals),
        nodes_well_formed(more),
    ensures
        well_formed(push_values(vals, more)),
    decreases more.len(),
{
    if more.len() > 0 {
        assert(more[0] is Tag ==> well_formed(more[0]->Tag_0.values));
        lemma_push_value_well_formed(vals, more.first());
        let rest = more.drop_first();
        assert forall|i: int| 0 <= i < rest.len() && (#[trigger] rest[i]) is Tag implies well_formed(
            rest[i]->Tag_0.values,
        ) by {
            assert(rest[i] == more[i + 1]);
        }
        lemma_push_values_well_formed(push_value(vals, more.first()), rest);
    }
}

/// The children that an entry closes into are well formed.
pub proof fn lemma_content_well_formed(entry: TagBuilderView)
    requires
        well_formed(entry.completed),
    ensures
        well_formed(entry.content()),
        well_formed(entry.save_progress().completed),
{
    lemma_push_text_well_formed(entry.completed, entry.in_progress);
}

/// The nodes of an entry that is given up are well formed.
pub proof fn lemma_to_values_nodes(entry: TagBuilderView)
    requires
        well_formed(entry.completed),
    ensures
        nodes_well_formed(entry.to_values()),
{
    let out = entry.to_values();
    assert forall|i: int| 0 <= i < out.len() && (#[trigger] out[i]) is Tag implies well_formed(
        out[i]->Tag_0.values,
    ) by {
        if entry.completed.len() > 0 {
            assert(0 < i <= entry.completed.len());
            assert(out[i] == entry.completed[i - 1]);
        }
    }
}

/// What an entry leaves behind at the end of its line holds well-formed
/// nodes.
pub proof fn lemma_line_end_nodes(entry: TagBuilderView)
    requires
        well_formed(entry.completed),
    ensures
        nodes_well_formed(line_end(entry)),
{
    lemma_content_well_formed(entry);
    lemma_to_values_nodes(entry);
    if entry.md != Markdown::BlockQuote && entry.md.is_heading() && entry.begins_with_space() {
        let content = entry.content();
        assert(well_formed(Seq::<TagValueView>::empty()));
        lemma_push_text_well_formed(Seq::empty(), content.first()->Text_0.drop_first());
        lemma_well_formed_skip(content, 1);
        lemma_well_formed_nodes(content.skip(1));
        assert(content.skip(1) =~= content.drop_first());
        lemma_push_values_well_formed(
            push_text(Seq::empty(), content.first()->Text_0.drop_first()),
            content.drop_first(),
        );
        assert(well_formed(without_first_char(content)));
    }
}

/// Replacing the innermost entry by one with well-formed children, or
/// taking it off, keeps the state well formed.
pub proof fn lemma_set_top_well_formed(state: ParserView, entry: TagBuilderView)
    requires
        state_well_formed(state),
        state.stack.len() > 0,
        well_formed(entry.completed),
    ensures
        state_well_formed(state.set_top(entry)),
        state_well_formed(state.pop()),
{
    let a = state.set_top(entry);
    assert forall|i: int| 0 <= i < a.stack.len() implies well_formed(
        (#[trigger] a.stack[i]).completed,
    ) by {
        if i < a.stack.len() - 1 {
            assert(a.stack[i] == state.stack[i]);
        }
    }
    let c = state.pop();
    assert forall|i: int| 0 <= i < c.stack.len() implies well_formed(
        (#[trigger] c.stack[i]).completed,
    ) by {
        assert(c.stack[i] == state.stack[i]);
    }
}

/// Putting an entry with well-formed children on the stack keeps the state
/// well formed.
pub proof fn lemma_push_well_formed(state: ParserView, entry: TagBuilderView)
    requires
        state_well_formed(state),
        well_formed(entry.completed),
    ensures
        state_well_formed(state.push(entry)),
{
    let b = state.push(entry);
    assert forall|i: int| 0 <= i < b.stack.len() implies well_formed(
        (#[trigger] b.stack[i]).completed,
    ) by {
        if i < b.stack.len() - 1 {
            assert(b.stack[i] == state.stack[i]);
        }
    }
}

/// Handing children with well-formed nodes to a well-formed state keeps it
/// well formed.
pub proof fn lemma_emit_values_well_formed(state: ParserView, vals: Seq<TagValueView>)
    requires
        state_well_formed(state),
        nodes_well_formed(vals),
    ensures
        state_well_formed(state.emit_values(vals)),
{
    if state.stack.len() > 0 {
        let top = state.top();
        assert(well_formed(state.stack[state.stack.len() - 1].completed));
        lemma_content_well_formed(top);
        lemma_push_values_well_formed(top.save_progress().completed, vals);
        lemma_set_top_well_formed(state, top.save_progress().append_values(vals));
    } else {
        lemma_push_values_well_formed(state.root.values, vals);
    }
}

/// Adding text to a well-formed state keeps it well formed.
pub proof fn lemma_emit_text_well_formed(state: ParserView, t: Seq<char>)
    requires
        state_well_formed(state),
    ensures
        state_well_formed(state.emit_text(t)),
{
    if state.stack.len() > 0 {
        assert(well_formed(state.stack[state.stack.len() - 1].completed));
        lemma_set_top_well_formed(state, state.top().push_pending(t));
    } else {
        lemma_push_text_well_formed(state.root.values, t);
    }
}

/// Opening an entry in a well-formed state keeps it well formed.
pub proof fn lemma_open_well_formed(state: ParserView, md: Markdown)
    requires
        state_well_formed(state),
    ensures
        state_well_formed(state.open(md)),
        state_well_formed(state.push(TagBuilderView::fresh(md))),
{
    assert(well_formed(Seq::<TagValueView>::empty()));
    if state.stack.len() > 0 {
        assert(well_formed(state.stack[state.stack.len() - 1].completed));
        lemma_content_well_formed(state.top());
        lemma_set_top_well_formed(state, state.top().save_progress());
        lemma_push_well_formed(
            state.set_top(state.top().save_progress()),
            TagBuilderView::fresh(md),
        );
    }
    lemma_push_well_formed(state, TagBuilderView::fresh(md));
}

/// Giving the innermost entry another kind keeps the state well formed.
pub proof fn lemma_with_kind_well_formed(state: ParserView, md: Markdown)
    requires
        state_well_formed(state),
        state.stack.len() > 0,
    ensures
        state_well_formed(state.set_top(state.top().with_kind(md))),
{
    assert(well_formed(state.stack[state.stack.len() - 1].completed));
    lemma_set_top_well_formed(state, state.top().with_kind(md));
}

/// A single well-formed node has well-formed nodes.
pub proof fn lemma_one_node(v: TagValueView)
    requires
        v is Tag,
        well_formed(v->Tag_0.values),
    ensures
        nodes_well_formed(seq![v]),
{
}

/// Closing the innermost entry into a node keeps the state well formed.
pub proof fn lemma_resolve_well_formed(state: ParserView, kind: crate::tag::TagTypeView)
    requires
        state_well_formed(state),
    ensures
        state_well_formed(state.resolve(kind)),
{
    if state.stack.len() > 0 {
        assert(well_formed(state.stack[state.stack.len() - 1].completed));
        lemma_content_well_formed(state.top());
        lemma_set_top_well_formed(state, state.top());
        let node = TagValueView::Tag(crate::tag::TagView { kind, values: state.top().content() });
        lemma_one_node(node);
        lemma_emit_values_well_formed(state.pop(), seq![node]);
    }
}

/// Closing a code fence into a node keeps the state well formed.
pub proof fn lemma_resolve_fence_well_formed(state: ParserView)
    requires
        state_well_formed(state),
    ensures
        state_well_formed(state.resolve_fence()),
{
    if state.stack.len() > 0 {
        assert(well_formed(state.stack[state.stack.len() - 1].completed));
        let parts = crate::scan::split_language(state.top().in_progress);
        lemma_push_text_well_formed(state.top().completed, parts.1);
        lemma_set_top_well_formed(state, state.top());
        let node = TagValueView::Tag(
            crate::tag::TagView {
                kind: crate::tag::TagTypeView::Code(parts.0),
                values: push_text(state.top().completed, parts.1),
            },
        );
        lemma_one_node(node);
        lemma_emit_values_well_formed(state.pop(), seq![node]);
    }
}

/// Giving up the innermost entry keeps the state well formed.
pub proof fn lemma_fold_top_well_formed(state: ParserView)
    requires
        state_well_formed(state),
    ensures
        state_well_formed(state.fold_top()),
{
    if state.stack.len() > 0 {
        assert(well_formed(state.stack[state.stack.len() - 1].completed));
        lemma_to_values_nodes(state.top());
        lemma_set_top_well_formed(state, state.top());
        lemma_emit_values_well_formed(state.pop(), state.top().to_values());
    }
}

/// Giving up the entries above the first `keep` keeps the state well
/// formed.
pub proof fn lemma_fold_down_well_formed(state: ParserView, keep: int)
    requires
        state_well_formed(state),
    ensures
        state_well_formed(state.fold_down(keep)),
    decreases state.stack.len(),
{
    if state.stack.len() > keep && state.stack.len() > 0 {
        lemma_fold_top_well_formed(state);
        lemma_fold_down_well_formed(state.fold_top(), keep);
    }
}

/// Closing the nearest entry of a kind keeps the state well formed.
pub proof fn lemma_close_nearest_well_formed(
    state: ParserView,
    md: Markdown,
    kind: crate::tag::TagTypeView,
)
    requires
        state_well_formed(state),
    ensures
        state_well_formed(state.close_nearest(md, kind)),
{
    lemma_fold_down_well_formed(state, nearest(state.stack, md) + 1);
    lemma_resolve_well_formed(state.fold_down(nearest(state.stack, md) + 1), kind);
}

/// Draining the stack keeps the state well formed.
pub proof fn lemma_drain_well_formed(state: ParserView)
    requires
        state_well_formed(state),
    ensures
        state_well_formed(state.drain()),
    decreases state.stack.len(),
{
    if state.stack.len() > 0 {
        assert(well_formed(state.stack[state.stack.len() - 1].completed));
        lemma_line_end_nodes(state.top());
        lemma_set_top_well_formed(state, state.top());
        lemma_emit_values_well_formed(state.pop(), line_end(state.top()));
        lemma_drain_well_formed(state.pop().emit_values(line_end(state.top())));
    }
}

/// Ending a line keeps the state well formed.
pub proof fn lemma_newline_well_formed(state: ParserView)
    requires
        state_well_formed(state),
    ensures
        state_well_formed(state.newline()),
{
    lemma_drain_well_formed(state);
    assert(well_formed(Seq::<TagValueView>::empty()));
    lemma_push_node_well_formed(state.drain().root.values, crate::scan::line_break());
}

/// Whatever the character, a well-formed state stays well formed.
pub proof fn lemma_step_well_formed(state: ParserView, c: char)
    requires
        state_well_formed(state),
    ensures
        state_well_formed(state.step(c)),
{
    reveal(ParserView::step);
    lemma_open_well_formed(state, Markdown::Line);
    let ready = state.ready();
    let top = ready.top();
    assert(well_formed(ready.stack[ready.stack.len() - 1].completed));
    lemma_set_top_well_formed(ready, top);
    let below = ready.pop();
    if top.md == Markdown::Backslash {
        lemma_emit_text_well_formed(below, seq![c]);
        lemma_emit_text_well_formed(below, seq!['\\']);
        lemma_emit_text_well_formed(below, seq!['\\', c]);
        lemma_newline_well_formed(below.emit_text(seq!['\\']));
    } else if top.md.is_code() {
        lemma_code_well_formed(ready, c);
    } else {
        lemma_scan_well_formed(ready, c);
    }
}

/// A character in code keeps a well-formed state well formed.
pub proof fn lemma_code_well_formed(state: ParserView, c: char)
    requires
        state_well_formed(state),
        state.stack.len() > 0,
    ensures
        state_well_formed(state.scan_code(c)),
{
    let top = state.top();
    assert(well_formed(state.stack[state.stack.len() - 1].completed));
    lemma_set_top_well_formed(state, top);
    let below = state.pop();
    lemma_emit_text_well_formed(state, seq![c]);
    lemma_emit_text_well_formed(below, top.md.literal().push(c));
    lemma_newline_well_formed(state);
    if c == '`' {
        lemma_with_kind_well_formed(state, Markdown::DoubleBacktick);
        lemma_with_kind_well_formed(state, Markdown::TripleBacktick);
        lemma_resolve_fence_well_formed(below);
        lemma_emit_text_well_formed(below, seq!['`']);
        lemma_open_well_formed(below.emit_text(seq!['`']), Markdown::TripleBacktick);
        lemma_resolve_well_formed(
            state,
            crate::tag::TagTypeView::Code(crate::scan::default_language()),
        );
        lemma_content_well_formed(top);
        let node = TagValueView::Tag(
            crate::tag::TagView {
                kind: crate::tag::TagTypeView::Code(crate::scan::default_language()),
                values: top.content(),
            },
        );
        lemma_one_node(node);
        lemma_emit_values_well_formed(below.emit_text(seq!['`']), seq![node]);
        lemma_open_well_formed(state, Markdown::Backtick);
    }
}

/// A character outside code keeps a well-formed state well formed.
pub proof fn lemma_scan_well_formed(state: ParserView, c: char)
    requires
        state_well_formed(state),
        state.stack.len() > 0,
    ensures
        state_well_formed(state.scan(c)),
{
    let top = state.top();
    assert(well_formed(state.stack[state.stack.len() - 1].completed));
    lemma_set_top_well_formed(state, top);
    let below = state.pop();
    lemma_emit_text_well_formed(state, seq![c]);
    if c == '*' {
        lemma_emphasis_well_formed(state, c, Markdown::Star, Markdown::DoubleStar);
    } else if c == '_' {
        lemma_emphasis_well_formed(state, c, Markdown::Underscore, Markdown::DoubleUnderscore);
    } else if c == '`' {
        lemma_open_well_formed(state, Markdown::Backtick);
    } else if c == '~' {
        lemma_close_nearest_well_formed(
            below,
            Markdown::DoubleTilde,
            crate::tag::TagTypeView::Strikethrough,
        );
        lemma_open_well_formed(below, Markdown::DoubleTilde);
        lemma_fold_top_well_formed(state);
        lemma_open_well_formed(state.fold_top(), Markdown::Tilde);
        lemma_open_well_formed(state, Markdown::Tilde);
    } else if c == '\\' {
        lemma_open_well_formed(state, Markdown::Backslash);
    } else if c == '#' {
        if crate::scan::next_heading(top.md) is Some {
            lemma_with_kind_well_formed(state, crate::scan::next_heading(top.md)->Some_0);
        }
    } else if c == '>' {
        lemma_with_kind_well_formed(state, Markdown::GreaterThan);
    } else if c == ' ' {
        lemma_with_kind_well_formed(state, Markdown::BlockQuote);
        lemma_emit_text_well_formed(below, top.md.literal().push(' '));
    } else if c == '\n' {
        lemma_newline_well_formed(state);
    }
}

/// A `*` or `_` keeps a well-formed state well formed.
pub proof fn lemma_emphasis_well_formed(
    state: ParserView,
    c: char,
    single: Markdown,
    double: Markdown,
)
    requires
        state_well_formed(state),
        state.stack.len() > 0,
    ensures
        state_well_formed(state.emphasis(c, single, double)),
{
    let top = state.top();
    assert(well_formed(state.stack[state.stack.len() - 1].completed));
    lemma_set_top_well_formed(state, top);
    let below = state.pop();
    lemma_close_nearest_well_formed(below, double, crate::tag::TagTypeView::Bold);
    lemma_open_well_formed(below, double);
    lemma_resolve_well_formed(state, crate::tag::TagTypeView::Italics);
    lemma_emit_text_well_formed(below, seq![c]);
    lemma_open_well_formed(below.emit_text(seq![c]), double);
    lemma_close_nearest_well_formed(state, single, crate::tag::TagTypeView::Italics);
    lemma_open_well_formed(state, single);
}

/// Whatever the text, a well-formed state stays well formed.
pub proof fn lemma_run_well_formed(state: ParserView, text: Seq<char>)
    requires
        state_well_formed(state),
    ensures
        state_well_formed(state.run(text)),
    decreases text.len(),
{
    if text.len() > 0 {
        lemma_run_well_formed(state, text.drop_last());
        lemma_step_well_formed(state.run(text.drop_last()), text.last());
    }
}

/// Joining one more child to well-formed children, block quotes on
/// neighbouring lines merged, leaves them well formed.
pub proof fn lemma_merge_one_well_formed(acc: Seq<TagValueView>, v: TagValueView)
    requires
        well_formed(acc),
        v is Tag ==> well_formed(v->Tag_0.values),
        v is Text ==> v->Text_0.len() > 0 && (acc.len() > 0 ==> !(acc.last() is Text)),
    ensures
        well_formed(merge_one(acc, v)),
{
    if crate::scan::continues_quote(acc, v) {
        let n = acc.len() as int;
        let quote = acc[n - 2]->Tag_0;
        assert(well_formed(quote.values));
        assert(well_formed(acc[n - 1]->Tag_0.values));
        lemma_push_node_well_formed(quote.values, acc[n - 1]);
        lemma_well_formed_nodes(v->Tag_0.values);
        lemma_push_values_well_formed(quote.values.push(acc[n - 1]), v->Tag_0.values);
        lemma_well_formed_take(acc, n - 2);
        lemma_push_node_well_formed(acc.take(n - 2), merge_one(acc, v).last());
    } else {
        match v {
            TagValueView::Tag(_) => lemma_push_node_well_formed(acc, v),
            TagValueView::Text(t) => {
                lemma_push_text_well_formed(acc, t);
                assert(push_text(acc, t) =~= acc.push(v));
            },
        }
    }
}

/// Merging the block quotes of well-formed children leaves them well
/// formed; where the last child is a node, it stays a node.
pub proof fn lemma_merge_quotes_well_formed(vals: Seq<TagValueView>)
    requires
        well_formed(vals),
    ensures
        well_formed(merge_quotes(vals)),
        vals.len() > 0 ==> merge_quotes(vals).len() > 0 && (merge_quotes(vals).last() is Text
            <==> vals.last() is Text),
    decreases vals.len(),
{
    if vals.len() > 0 {
        let head = vals.drop_last();
        lemma_well_formed_take(vals, vals.len() - 1);
        assert(vals.take(vals.len() - 1) =~= head);
        lemma_merge_quotes_well_formed(head);
        let v = vals.last();
        assert(vals[vals.len() - 1] == v);
        if v is Text {
            if head.len() > 0 {
                assert(vals[vals.len() - 2] == head.last());
                assert(!(vals[vals.len() - 2] is Text)) by {
                    if vals[vals.len() - 2] is Text {
                        assert(!(vals[vals.len() - 2 + 1] is Text));
                    }
                }
            }
        }
        lemma_merge_one_well_formed(merge_quotes(head), v);
    }
}

/// Well-formed children hold no empty text, so nothing is stripped from
/// their ends.
pub proof fn lemma_strip_well_formed(vals: Seq<TagValueView>)
    requires
        well_formed(vals),
    ensures
        strip_front(vals) == vals,
        strip_back(vals) == vals,
{
    if vals.len() > 0 {
        assert(vals[0] == vals.first());
        assert(vals[vals.len() - 1] == vals.last());
    }
}

/// The tree of every text is well formed: no node in it holds an empty
/// text or two texts side by side.
pub proof fn lemma_parse_well_formed(text: Seq<char>)
    ensures
        well_formed(parse(text).values),
{
    let start = ParserView::start();
    assert(well_formed(Seq::<TagValueView>::empty()));
    assert(state_well_formed(start));
    lemma_run_well_formed(start, text);
    lemma_drain_well_formed(start.run(text));
    let children = start.run(text).drain().root.values;
    lemma_merge_quotes_well_formed(children);
    lemma_strip_well_formed(merge_quotes(children));
}

/// The root and every open node of a walk over events are well formed.
pub open spec fn build_well_formed(state: BuildView) -> bool {
    &&& well_formed(state.root.values)
    &&& forall|i: int| 0 <= i < state.stack.len() ==> well_formed((#[trigger] state.stack[i]).values)
}

/// Replacing the innermost open node by a well-formed one, or taking it
/// off, keeps the walk well formed.
pub proof fn lemma_build_set_top(state: BuildView, tag: TagView)
    requires
        build_well_formed(state),
        state.stack.len() > 0,
        well_formed(tag.values),
    ensures
        build_well_formed(state.set_top(tag)),
        build_well_formed(
            BuildView {
                root: state.root,
                stack: state.stack.drop_last(),
                in_code_block: state.in_code_block,
            },
        ),
{
    let a = state.set_top(tag);
    assert forall|i: int| 0 <= i < a.stack.len() implies well_formed(
        (#[trigger] a.stack[i]).values,
    ) by {
        if i < a.stack.len() - 1 {
            assert(a.stack[i] == state.stack[i]);
        }
    }
    let b = state.stack.drop_last();
    assert forall|i: int| 0 <= i < b.len() implies well_formed((#[trigger] b[i]).values) by {
        assert(b[i] == state.stack[i]);
    }
}

/// Adding text keeps the walk well formed.
pub proof fn lemma_build_add_text(state: BuildView, t: Seq<char>)
    requires
        build_well_formed(state),
    ensures
        build_well_formed(state.add_text(t)),
{
    if state.stack.len() > 0 {
        assert(well_formed(state.stack[state.stack.len() - 1].values));
        lemma_push_text_well_formed(state.stack.last().values, t);
        lemma_build_set_top(state, state.stack.last().add_text(t));
    } else {
        lemma_push_text_well_formed(state.root.values, t);
    }
}

/// Adding a well-formed node keeps the walk well formed.
pub proof fn lemma_build_add_tag(state: BuildView, tag: TagView)
    requires
        build_well_formed(state),
        well_formed(tag.values),
    ensures
        build_well_formed(state.add_tag(tag)),
{
    if state.stack.len() > 0 {
        assert(well_formed(state.stack[state.stack.len() - 1].values));
        lemma_push_node_well_formed(state.stack.last().values, TagValueView::Tag(tag));
        lemma_build_set_top(state, state.stack.last().add_tag(tag));
    } else {
        lemma_push_node_well_formed(state.root.values, TagValueView::Tag(tag));
    }
}

/// Closing the innermost open node keeps the walk well formed.
pub proof fn lemma_build_close(state: BuildView)
    requires
        build_well_formed(state),
    ensures
        build_well_formed(state.close()),
{
    if state.stack.len() > 0 {
        assert(well_formed(state.stack[state.stack.len() - 1].values));
        lemma_build_set_top(state, state.stack.last());
        lemma_build_add_tag(
            BuildView {
                root: state.root,
                stack: state.stack.drop_last(),
                in_code_block: state.in_code_block,
            },
            state.stack.last(),
        );
    }
}

/// Whatever the event, a well-formed walk stays well formed.
pub proof fn lemma_build_step(state: BuildView, event: MdEventView)
    requires
        build_well_formed(state),
    ensures
        build_well_formed(state.step(event)),
{
    assert(well_formed(Seq::<TagValueView>::empty()));
    match event {
        MdEventView::Start(tag) => {
            match crate::adapter::node_kind(tag) {
                Some(kind) => {
                    let out = state.start_tag(tag);
                    assert forall|i: int| 0 <= i < out.stack.len() implies well_formed(
                        (#[trigger] out.stack[i]).values,
                    ) by {
                        if i < out.stack.len() - 1 {
                            assert(out.stack[i] == state.stack[i]);
                        }
                    }
                },
                None => {},
            }
        },
        MdEventView::End(tag) => {
            if tag is CodeBlock {
                if state.stack.len() > 0 {
                    let top = state.stack.last();
                    assert(well_formed(state.stack[state.stack.len() - 1].values));
                    if top.values.len() > 0 && top.values.last() is Text {
                        lemma_well_formed_take(top.values, top.values.len() - 1);
                        assert(top.values.take(top.values.len() - 1) =~= top.values.drop_last());
                        lemma_push_text_well_formed(
                            top.values.drop_last(),
                            crate::adapter::without_fence(top.values.last()->Text_0),
                        );
                    }
                    lemma_build_set_top(state, trim_fence(top));
                }
            } else if crate::adapter::node_kind(tag) is Some {
                lemma_build_close(state);
            }
        },
        MdEventView::Text(t) => lemma_build_add_text(state, t),
        MdEventView::Html(t) => lemma_build_add_text(state, t),
        MdEventView::Code(t) => {
            lemma_push_text_well_formed(Seq::empty(), t);
            lemma_build_add_tag(
                state,
                TagView::with_text(
                    crate::tag::TagTypeView::Code(crate::scan::default_language()),
                    t,
                ),
            );
        },
        MdEventView::SoftBreak | MdEventView::HardBreak => {
            lemma_build_add_text(state, seq!['\n']);
            lemma_build_add_tag(state, TagView::empty(crate::tag::TagTypeView::NewLine));
        },
        MdEventView::FootnoteReference | MdEventView::Rule | MdEventView::TaskListMarker => {},
    }
}

/// Whatever the events, a well-formed walk stays well formed.
pub proof fn lemma_build_run(state: BuildView, events: Seq<MdEventView>)
    requires
        build_well_formed(state),
    ensures
        build_well_formed(state.run(events)),
    decreases events.len(),
{
    if events.len() > 0 {
        lemma_build_run(state, events.drop_last());
        lemma_build_step(state.run(events.drop_last()), events.last());
    }
}

/// Closing every open node keeps the walk well formed and its root a node
/// of the same kind.
pub proof fn lemma_build_close_all(state: BuildView)
    requires
        build_well_formed(state),
    ensures
        build_well_formed(state.close_all()),
        state.close_all().root.kind == state.root.kind,
    decreases state.stack.len(),
{
    if state.stack.len() > 0 {
        lemma_build_close(state);
        lemma_build_close_all(state.close());
    }
}

/// Whatever the events, the root stays a node of the same kind.
pub proof fn lemma_build_run_keeps_root_kind(state: BuildView, events: Seq<MdEventView>)
    ensures
        state.run(events).root.kind == state.root.kind,
    decreases events.len(),
{
    if events.len() > 0 {
        lemma_build_run_keeps_root_kind(state, events.drop_last());
    }
}

/// Whatever events the engine reports, the tree built from them has the
/// root node at its top and is well formed: no node in it holds an empty
/// text or two texts side by side.
pub proof fn lemma_events_tree_well_formed(events: Seq<MdEventView>)
    ensures
        events_tree(events).kind == crate::tag::TagTypeView::Paragraph,
        well_formed(events_tree(events).values),
{
    let start = BuildView::start();
    assert(well_formed(Seq::<TagValueView>::empty()));
    assert(build_well_formed(start));
    lemma_build_run(start, events);
    lemma_build_run_keeps_root_kind(start, events);
    lemma_build_close_all(start.run(events));
}

} // verus!
