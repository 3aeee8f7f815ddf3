//! Lines stay apart: outside code, block quotes and escapes no text of the
//! tree holds a line break, and line break nodes stand at the root only.
use crate::md::Markdown;
use crate::scan::{
    line_break, line_end, merge_quotes, nearest, next_heading, parse, strip_back, strip_front,
    without_first_char, ParserView,
};
use crate::tag::{push_text, push_value, push_values, TagTypeView, TagValueView, TagView};
use crate::tag_builder::TagBuilderView;
use vstd::prelude::*;

verus! {

/// The text holds no line break.
pub open spec fn on_one_line(t: Seq<char>) -> bool {
    forall|j: int| 0 <= j < t.len() ==> #[trigger] t[j] != '\n'
}

/// No text among the children, at any depth, holds a line break; no node
/// is a block quote; and a line break node has no children and stands
/// among these children themselves, not below them, and only where
/// `at_root` allows it.
pub open spec fn lines_apart(vals: Seq<TagValueView>, at_root: bool) -> bool
    decreases vals,
{
    forall|i: int|
        0 <= i < vals.len() ==> match #[trigger] vals[i] {
            TagValueView::Text(t) => on_one_line(t),
            TagValueView::Tag(node) => node.kind != TagTypeView::BlockQuote && if node.kind
                == TagTypeView::NewLine {
                at_root && node.values.len() == 0
            } else {
                lines_apart(node.values, false)
            },
        }
}

/// The child may stand inside a node: a text on one line, or a node that
/// is neither a line break nor a block quote and holds such children.
pub open spec fn inner_value(v: TagValueView) -> bool {
    match v {
        TagValueView::Text(t) => on_one_line(t),
        TagValueView::Tag(node) => node.kind != TagTypeView::BlockQuote && node.kind
            != TagTypeView::NewLine && lines_apart(node.values, false),
    }
}

/// The entry is an open construct of one line: not code, not an escape,
/// not a block quote, with no line break in what it holds.
pub open spec fn entry_on_line(entry: TagBuilderView) -> bool {
    &&& !entry.md.is_code()
    &&& entry.md != Markdown::Backslash
    &&& entry.md != Markdown::GreaterThan
    &&& entry.md != Markdown::BlockQuote
    &&& entry.md != Markdown::NewLine
    &&& on_one_line(entry.in_progress)
    &&& lines_apart(entry.completed, false)
}

/// Every open entry is one of one line, and the root keeps its lines apart.
pub open spec fn state_on_lines(state: ParserView) -> bool {
    &&& lines_apart(state.root.values, true)
    &&& forall|i: int| 0 <= i < state.stack.len() ==> entry_on_line(#[trigger] state.stack[i])
}

/// The character is none of those that open code, a block quote or an
/// escape.
pub open spec fn keeps_lines(c: char) -> bool {
    c != '`' && c != '>' && c != '\\'
}

/// What may stand inside a node may stand at the root.
pub proof fn lemma_apart_at_root(vals: Seq<TagValueView>)
    requires
        lines_apart(vals, false),
    ensures
        lines_apart(vals, true),
{
    assert forall|i: int| 0 <= i < vals.len() implies match #[trigger] vals[i] {
        TagValueView::Text(t) => on_one_line(t),
        TagValueView::Tag(node) => node.kind != TagTypeView::BlockQuote && if node.kind
            == TagTypeView::NewLine {
            true && node.values.len() == 0
        } else {
            lines_apart(node.values, false)
        },
    } by {}
}

/// One more child that keeps to its line leaves the children apart.
pub proof fn lemma_apart_push(vals: Seq<TagValueView>, v: TagValueView, at_root: bool)
    requires
        lines_apart(vals, at_root),
        inner_value(v) || (at_root && v == line_break()),
    ensures
        lines_apart(vals.push(v), at_root),
{
    let out = vals.push(v);
    assert forall|i: int| 0 <= i < out.len() implies match #[trigger] out[i] {
        TagValueView::Text(t) => on_one_line(t),
        TagValueView::Tag(node) => node.kind != TagTypeView::BlockQuote && if node.kind
            == TagTypeView::NewLine {
            at_root && node.values.len() == 0
        } else {
            lines_apart(node.values, false)
        },
    } by {
        if i < vals.len() {
            assert(out[i] == vals[i]);
        }
    }
}

/// The first children of children that are apart are apart.
pub proof fn lemma_apart_part(vals: Seq<TagValueView>, from: int, to: int, at_root: bool)
    requires
        lines_apart(vals, at_root),
        0 <= from <= to <= vals.len(),
    ensures
        lines_apart(vals.subrange(from, to), at_root),
{
    let part = vals.subrange(from, to);
    assert forall|i: int| 0 <= i < part.len() implies match #[trigger] part[i] {
        TagValueView::Text(t) => on_one_line(t),
        TagValueView::Tag(node) => node.kind != TagTypeView::BlockQuote && if node.kind
            == TagTypeView::NewLine {
            at_root && node.values.len() == 0
        } else {
            lines_apart(node.values, false)
        },
    } by {
        assert(part[i] == vals[from + i]);
    }
}

/// Text on one line added to children that are apart leaves them apart.
pub proof fn lemma_apart_push_text(vals: Seq<TagValueView>, t: Seq<char>, at_root: bool)
    requires
        lines_apart(vals, at_root),
        on_one_line(t),
    ensures
        lines_apart(push_text(vals, t), at_root),
{
    if t.len() > 0 {
        if vals.len() > 0 && vals.last() is Text {
            let before = vals.last()->Text_0;
            assert(vals[vals.len() - 1] == vals.last());
            assert(on_one_line(before));
            let joined = before + t;
            assert forall|j: int| 0 <= j < joined.len() implies #[trigger] joined[j] != '\n' by {
                if j < before.len() {
                    assert(joined[j] == before[j]);
                } else {
                    assert(joined[j] == t[j - before.len()]);
                }
            }
            lemma_apart_part(vals, 0, vals.len() - 1, at_root);
            assert(vals.subrange(0, vals.len() - 1) =~= vals.drop_last());
            lemma_apart_push(vals.drop_last(), TagValueView::Text(joined), at_root);
        } else {
            lemma_apart_push(vals, TagValueView::Text(t), at_root);
        }
    }
}

/// A child that keeps to its line, added to children that are apart,
/// leaves them apart.
pub proof fn lemma_apart_push_value(vals: Seq<TagValueView>, v: TagValueView, at_root: bool)
    requires
        lines_apart(vals, at_root),
        inner_value(v),
    ensures
        lines_apart(push_value(vals, v), at_root),
{
    match v {
        TagValueView::Text(t) => lemma_apart_push_text(vals, t, at_root),
        TagValueView::Tag(_) => lemma_apart_push(vals, v, at_root),
    }
}

/// Children that may stand inside a node, added one after the other to
/// children that are apart, leave them apart.
pub proof fn lemma_apart_push_values(
    vals: Seq<TagValueView>,
    more: Seq<TagValueView>,
    at_root: bool,
)
    requires
        lines_apart(vals, at_root),
        lines_apart(more, false),
    ensures
        lines_apart(push_values(vals, more), at_root),
    decreases more.len(),
{
    if more.len() > 0 {
        assert(more[0] == more.first());
        assert(inner_value(more.first()));
        lemma_apart_push_value(vals, more.first(), at_root);
        lemma_apart_part(more, 1, more.len() as int, false);
        assert(more.subrange(1, more.len() as int) =~= more.drop_first());
        lemma_apart_push_values(push_value(vals, more.first()), more.drop_first(), at_root);
    }
}

/// No children are apart.
pub proof fn lemma_apart_empty(at_root: bool)
    ensures
        lines_apart(Seq::<TagValueView>::empty(), at_root),
{
}

/// One child that keeps to its line is apart.
pub proof fn lemma_apart_one(v: TagValueView)
    requires
        inner_value(v),
    ensures
        lines_apart(seq![v], false),
{
    lemma_apart_empty(false);
    lemma_apart_push(Seq::empty(), v, false);
    assert(Seq::<TagValueView>::empty().push(v) =~= seq![v]);
}

/// The marker of an entry of one line holds no line break.
pub proof fn lemma_literal_on_one_line(md: Markdown)
    requires
        md != Markdown::NewLine,
    ensures
        on_one_line(md.literal()),
{
}

/// Two texts on one line, one after the other, are on one line.
pub proof fn lemma_add_on_one_line(a: Seq<char>, b: Seq<char>)
    requires
        on_one_line(a),
        on_one_line(b),
    ensures
        on_one_line(a + b),
{
    let joined = a + b;
    assert forall|j: int| 0 <= j < joined.len() implies #[trigger] joined[j] != '\n' by {
        if j < a.len() {
            assert(joined[j] == a[j]);
        } else {
            assert(joined[j] == b[j - a.len()]);
        }
    }
}

/// What an entry of one line closes into, gives up, or leaves at the end of
/// its line may stand inside a node.
pub proof fn lemma_entry_values(entry: TagBuilderView)
    requires
        entry_on_line(entry),
    ensures
        lines_apart(entry.content(), false),
        entry_on_line(entry.save_progress()),
        lines_apart(entry.to_values(), false),
        lines_apart(line_end(entry), false),
{
    lemma_apart_push_text(entry.completed, entry.in_progress, false);
    lemma_literal_on_one_line(entry.md);
    assert(on_one_line(Seq::<char>::empty()));
    // given up
    let marker = TagValueView::Text(entry.md.literal());
    if entry.completed.len() == 0 {
        lemma_add_on_one_line(entry.md.literal(), entry.in_progress);
        lemma_apart_one(TagValueView::Text(entry.md.literal() + entry.in_progress));
    } else {
        let out = entry.to_values();
        assert forall|i: int| 0 <= i < out.len() implies match #[trigger] out[i] {
            TagValueView::Text(t) => on_one_line(t),
            TagValueView::Tag(node) => node.kind != TagTypeView::BlockQuote && if node.kind
                == TagTypeView::NewLine {
                false && node.values.len() == 0
            } else {
                lines_apart(node.values, false)
            },
        } by {
            if 0 < i <= entry.completed.len() {
                assert(out[i] == entry.completed[i - 1]);
            }
        }
    }
    // end of line
    if entry.md.is_heading() && entry.begins_with_space() {
        let content = entry.content();
        assert(content.len() > 0 && content[0] == content.first());
        let first = content.first()->Text_0;
        assert(on_one_line(first));
        assert forall|j: int| 0 <= j < first.drop_first().len() implies #[trigger] first.drop_first()[j]
            != '\n' by {
            assert(first.drop_first()[j] == first[j + 1]);
        }
        lemma_apart_empty(false);
        lemma_apart_push_text(Seq::empty(), first.drop_first(), false);
        lemma_apart_part(content, 1, content.len() as int, false);
        assert(content.subrange(1, content.len() as int) =~= content.drop_first());
        lemma_apart_push_values(
            push_text(Seq::empty(), first.drop_first()),
            content.drop_first(),
            false,
        );
        lemma_apart_one(
            TagValueView::Tag(
                TagView {
                    kind: crate::scan::heading_kind(entry.md),
                    values: without_first_char(content),
                },
            ),
        );
    }
}

/// Replacing the innermost entry by one of one line, or taking it off,
/// keeps the state on its lines.
pub proof fn lemma_lines_set_top(state: ParserView, entry: TagBuilderView)
    requires
        state_on_lines(state),
        state.stack.len() > 0,
        entry_on_line(entry),
    ensures
        state_on_lines(state.set_top(entry)),
        state_on_lines(state.pop()),
        entry_on_line(state.top()),
{
    let a = state.set_top(entry);
    assert forall|i: int| 0 <= i < a.stack.len() implies entry_on_line(#[trigger] a.stack[i]) by {
        if i < a.stack.len() - 1 {
            assert(a.stack[i] == state.stack[i]);
        }
    }
    let c = state.pop();
    assert forall|i: int| 0 <= i < c.stack.len() implies entry_on_line(#[trigger] c.stack[i]) by {
        assert(c.stack[i] == state.stack[i]);
    }
    assert(state.stack[state.stack.len() - 1] == state.top());
}

/// Putting an entry of one line on the stack keeps the state on its lines.
pub proof fn lemma_lines_push(state: ParserView, entry: TagBuilderView)
    requires
        state_on_lines(state),
        entry_on_line(entry),
    ensures
        state_on_lines(state.push(entry)),
{
    let b = state.push(entry);
    assert forall|i: int| 0 <= i < b.stack.len() implies entry_on_line(#[trigger] b.stack[i]) by {
        if i < b.stack.len() - 1 {
            assert(b.stack[i] == state.stack[i]);
        }
    }
}

/// Handing over children that may stand inside a node keeps the state on
/// its lines.
pub proof fn lemma_lines_emit_values(state: ParserView, vals: Seq<TagValueView>)
    requires
        state_on_lines(state),
        lines_apart(vals, false),
    ensures
        state_on_lines(state.emit_values(vals)),
{
    if state.stack.len() > 0 {
        let top = state.top();
        assert(state.stack[state.stack.len() - 1] == top);
        lemma_entry_values(top);
        lemma_apart_push_values(top.save_progress().completed, vals, false);
        lemma_lines_set_top(state, top.save_progress().append_values(vals));
    } else {
        lemma_apart_push_values(state.root.values, vals, true);
    }
}

/// Adding text on one line keeps the state on its lines.
pub proof fn lemma_lines_emit_text(state: ParserView, t: Seq<char>)
    requires
        state_on_lines(state),
        on_one_line(t),
    ensures
        state_on_lines(state.emit_text(t)),
{
    if state.stack.len() > 0 {
        let top = state.top();
        assert(state.stack[state.stack.len() - 1] == top);
        lemma_add_on_one_line(top.in_progress, t);
        lemma_lines_set_top(state, top.push_pending(t));
    } else {
        lemma_apart_push_text(state.root.values, t, true);
    }
}

/// The kind is one that an entry of one line may have.
pub open spec fn kind_on_line(md: Markdown) -> bool {
    !md.is_code() && md != Markdown::Backslash && md != Markdown::GreaterThan && md
        != Markdown::BlockQuote && md != Markdown::NewLine
}

/// Opening an entry of such a kind keeps the state on its lines.
pub proof fn lemma_lines_open(state: ParserView, md: Markdown)
    requires
        state_on_lines(state),
        kind_on_line(md),
    ensures
        state_on_lines(state.open(md)),
{
    lemma_apart_empty(false);
    let fresh = TagBuilderView::fresh(md);
    assert(on_one_line(fresh.in_progress));
    if state.stack.len() > 0 {
        assert(state.stack[state.stack.len() - 1] == state.top());
        lemma_entry_values(state.top());
        lemma_lines_set_top(state, state.top().save_progress());
        lemma_lines_push(state.set_top(state.top().save_progress()), fresh);
    } else {
        lemma_lines_push(state, fresh);
    }
}

/// Giving the innermost entry another such kind keeps the state on its
/// lines.
pub proof fn lemma_lines_with_kind(state: ParserView, md: Markdown)
    requires
        state_on_lines(state),
        state.stack.len() > 0,
        kind_on_line(md),
    ensures
        state_on_lines(state.set_top(state.top().with_kind(md))),
{
    assert(state.stack[state.stack.len() - 1] == state.top());
    lemma_lines_set_top(state, state.top().with_kind(md));
}

/// Closing the innermost entry into a node that is neither a line break
/// nor a block quote keeps the state on its lines.
pub proof fn lemma_lines_resolve(state: ParserView, kind: TagTypeView)
    requires
        state_on_lines(state),
        kind != TagTypeView::NewLine,
        kind != TagTypeView::BlockQuote,
    ensures
        state_on_lines(state.resolve(kind)),
{
    if state.stack.len() > 0 {
        assert(state.stack[state.stack.len() - 1] == state.top());
        lemma_entry_values(state.top());
        lemma_lines_set_top(state, state.top());
        let node = TagValueView::Tag(TagView { kind, values: state.top().content() });
        lemma_apart_one(node);
        lemma_lines_emit_values(state.pop(), seq![node]);
    }
}

/// Giving up the innermost entry keeps the state on its lines.
pub proof fn lemma_lines_fold_top(state: ParserView)
    requires
        state_on_lines(state),
    ensures
        state_on_lines(state.fold_top()),
{
    if state.stack.len() > 0 {
        assert(state.stack[state.stack.len() - 1] == state.top());
        lemma_entry_values(state.top());
        lemma_lines_set_top(state, state.top());
        lemma_lines_emit_values(state.pop(), state.top().to_values());
    }
}

/// Giving up the entries above the first `keep` keeps the state on its
/// lines.
pub proof fn lemma_lines_fold_down(state: ParserView, keep: int)
    requires
        state_on_lines(state),
    ensures
        state_on_lines(state.fold_down(keep)),
    decreases state.stack.len(),
{
    if state.stack.len() > keep && state.stack.len() > 0 {
        lemma_lines_fold_top(state);
        lemma_lines_fold_down(state.fold_top(), keep);
    }
}

/// Closing the nearest entry of a kind into such a node keeps the state on
/// its lines.
pub proof fn lemma_lines_close_nearest(state: ParserView, md: Markdown, kind: TagTypeView)
    requires
        state_on_lines(state),
        kind != TagTypeView::NewLine,
        kind != TagTypeView::BlockQuote,
    ensures
        state_on_lines(state.close_nearest(md, kind)),
{
    lemma_lines_fold_down(state, nearest(state.stack, md) + 1);
    lemma_lines_resolve(state.fold_down(nearest(state.stack, md) + 1), kind);
}

/// Draining the stack keeps the state on its lines and leaves nothing
/// open.
pub proof fn lemma_lines_drain(state: ParserView)
    requires
        state_on_lines(state),
    ensures
        state_on_lines(state.drain()),
        state.drain().stack.len() == 0,
    decreases state.stack.len(),
{
    if state.stack.len() > 0 {
        assert(state.stack[state.stack.len() - 1] == state.top());
        lemma_entry_values(state.top());
        lemma_lines_set_top(state, state.top());
        lemma_lines_emit_values(state.pop(), line_end(state.top()));
        lemma_lines_drain(state.pop().emit_values(line_end(state.top())));
    }
}

/// Ending a line keeps the state on its lines: the line break node goes to
/// the root.
pub proof fn lemma_lines_newline(state: ParserView)
    requires
        state_on_lines(state),
    ensures
        state_on_lines(state.newline()),
{
    lemma_lines_drain(state);
    lemma_apart_push(state.drain().root.values, line_break(), true);
}

/// A `*` or `_` keeps the state on its lines.
pub proof fn lemma_lines_emphasis(state: ParserView, c: char, single: Markdown, double: Markdown)
    requires
        state_on_lines(state),
        state.stack.len() > 0,
        c != '\n',
        kind_on_line(single),
        kind_on_line(double),
    ensures
        state_on_lines(state.emphasis(c, single, double)),
{
    assert(state.stack[state.stack.len() - 1] == state.top());
    lemma_lines_set_top(state, state.top());
    let below = state.pop();
    lemma_lines_close_nearest(below, double, TagTypeView::Bold);
    lemma_lines_open(below, double);
    lemma_lines_resolve(state, TagTypeView::Italics);
    lemma_lines_emit_text(below, seq![c]);
    lemma_lines_open(below.emit_text(seq![c]), double);
    lemma_lines_close_nearest(state, single, TagTypeView::Italics);
    lemma_lines_open(state, single);
}

/// A character that opens neither code nor a block quote nor an escape
/// keeps the state on its lines.
pub proof fn lemma_lines_step(state: ParserView, c: char)
    requires
        state_on_lines(state),
        keeps_lines(c),
    ensures
        state_on_lines(state.step(c)),
{
    reveal(ParserView::step);
    lemma_apart_empty(false);
    let line = TagBuilderView::fresh(Markdown::Line);
    assert(on_one_line(line.in_progress));
    lemma_lines_push(state, line);
    let ready = state.ready();
    let top = ready.top();
    assert(ready.stack[ready.stack.len() - 1] == top);
    lemma_lines_set_top(ready, top);
    let below = ready.pop();
    if c == '*' {
        lemma_lines_emphasis(ready, c, Markdown::Star, Markdown::DoubleStar);
    } else if c == '_' {
        lemma_lines_emphasis(ready, c, Markdown::Underscore, Markdown::DoubleUnderscore);
    } else if c == '~' {
        lemma_lines_close_nearest(below, Markdown::DoubleTilde, TagTypeView::Strikethrough);
        lemma_lines_open(below, Markdown::DoubleTilde);
        lemma_lines_fold_top(ready);
        lemma_lines_open(ready.fold_top(), Markdown::Tilde);
        lemma_lines_open(ready, Markdown::Tilde);
    } else if c == '#' {
        lemma_lines_emit_text(ready, seq![c]);
        if next_heading(top.md) is Some {
            lemma_lines_with_kind(ready, next_heading(top.md)->Some_0);
        }
    } else if c == ' ' {
        lemma_lines_emit_text(ready, seq![c]);
        lemma_literal_on_one_line(top.md);
        lemma_add_on_one_line(top.md.literal(), seq![' ']);
        assert(top.md.literal().push(' ') =~= top.md.literal() + seq![' ']);
        lemma_lines_emit_text(below, top.md.literal().push(' '));
    } else if c == '\n' {
        lemma_lines_newline(ready);
    } else {
        lemma_lines_emit_text(ready, seq![c]);
    }
}

/// A text without such characters keeps the state on its lines.
pub proof fn lemma_lines_run(state: ParserView, text: Seq<char>)
    requires
        state_on_lines(state),
        forall|i: int| 0 <= i < text.len() ==> keeps_lines(#[trigger] text[i]),
    ensures
        state_on_lines(state.run(text)),
    decreases text.len(),
{
    if text.len() > 0 {
        let head = text.drop_last();
        assert forall|i: int| 0 <= i < head.len() implies keeps_lines(#[trigger] head[i]) by {
            assert(head[i] == text[i]);
        }
        lemma_lines_run(state, head);
        assert(keeps_lines(text[text.len() - 1]));
        lemma_lines_step(state.run(head), text.last());
    }
}

/// Where no child is a block quote, merging block quotes changes nothing.
pub proof fn lemma_merge_without_quotes(vals: Seq<TagValueView>)
    requires
        lines_apart(vals, true),
    ensures
        merge_quotes(vals) == vals,
    decreases vals.len(),
{
    if vals.len() > 0 {
        lemma_apart_part(vals, 0, vals.len() - 1, true);
        assert(vals.subrange(0, vals.len() - 1) =~= vals.drop_last());
        lemma_merge_without_quotes(vals.drop_last());
        assert(vals[vals.len() - 1] == vals.last());
        assert(vals.drop_last().push(vals.last()) =~= vals);
    }
}

/// Stripping empty texts from the ends of children that are apart leaves
/// them apart.
pub proof fn lemma_strip_apart(vals: Seq<TagValueView>)
    requires
        lines_apart(vals, true),
    ensures
        lines_apart(strip_front(vals), true),
        lines_apart(strip_back(vals), true),
    decreases vals.len(),
{
    if vals.len() > 0 {
        lemma_apart_part(vals, 1, vals.len() as int, true);
        assert(vals.subrange(1, vals.len() as int) =~= vals.drop_first());
        lemma_strip_apart(vals.drop_first());
        lemma_apart_part(vals, 0, vals.len() - 1, true);
        assert(vals.subrange(0, vals.len() - 1) =~= vals.drop_last());
        lemma_strip_apart(vals.drop_last());
    }
}

/// No span crosses the end of a line. In the tree of a text without
/// backtick, `>` and backslash, no text at any depth holds a line break,
/// and every line break node is a child of the root: none stands inside
/// bold, italics, strikethrough or a heading.
pub proof fn lemma_lines_stay_apart(text: Seq<char>)
    requires
        forall|i: int| 0 <= i < text.len() ==> keeps_lines(#[trigger] text[i]),
    ensures
        lines_apart(parse(text).values, true),
{
    let start = ParserView::start();
    lemma_apart_empty(true);
    assert(state_on_lines(start));
    lemma_lines_run(start, text);
    lemma_lines_drain(start.run(text));
    let children = start.run(text).drain().root.values;
    lemma_merge_without_quotes(children);
    lemma_strip_apart(children);
    lemma_strip_apart(strip_front(children));
}

} // verus!
