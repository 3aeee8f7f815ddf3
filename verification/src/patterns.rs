//! What the tree is for texts of a given shape: text without markup,
//! emphasis, headings, block quotes, escapes.
use crate::md::Markdown;
use crate::scan::{
    is_emphasis, line_break, line_end, merge_quotes, nearest, next_heading, parse, strip_back,
    strip_front, without_first_char, ParserView,
};
use crate::tag::{push_value, push_values, TagTypeView, TagValueView, TagView};
use crate::tag_builder::TagBuilderView;
use vstd::prelude::*;

verus! {

/// True of the characters that can start or end markup.
pub open spec fn is_markup(c: char) -> bool {
    c == '*' || c == '_' || c == '`' || c == '~' || c == '\\' || c == '#' || c == '>' || c
        == '\n'
}

/// No character of the text can start or end markup.
pub open spec fn without_markup(text: Seq<char>) -> bool {
    forall|i: int| 0 <= i < text.len() ==> !is_markup(#[trigger] text[i])
}

/// The innermost entry holds neither code nor a backslash.
pub open spec fn in_plain_entry(state: ParserView) -> bool {
    state.stack.len() > 0 && !state.top().md.is_code() && state.top().md != Markdown::Backslash
}

/// The tree whose root holds the text `t` and nothing else.
pub open spec fn root_with_text(t: Seq<char>) -> TagView {
    TagView { kind: TagTypeView::Paragraph, values: seq![TagValueView::Text(t)] }
}

/// A node of kind `kind` over the text `t`.
pub open spec fn node_with_text(kind: TagTypeView, t: Seq<char>) -> TagValueView {
    TagValueView::Tag(TagView { kind, values: seq![TagValueView::Text(t)] })
}

/// The tree whose root holds one node of kind `kind` over the text `t`.
pub open spec fn root_with_node(kind: TagTypeView, t: Seq<char>) -> TagView {
    TagView { kind: TagTypeView::Paragraph, values: seq![node_with_text(kind, t)] }
}

/// Reading one text after another is reading both in a row.
pub proof fn lemma_run_add(state: ParserView, a: Seq<char>, b: Seq<char>)
    ensures
        state.run(a + b) == state.run(a).run(b),
    decreases b.len(),
{
    if b.len() == 0 {
        assert(a + b =~= a);
    } else {
        lemma_run_add(state, a, b.drop_last());
        assert((a + b).drop_last() =~= a + b.drop_last());
        assert((a + b).last() == b.last());
    }
}

/// Reading a text of one character is one step.
pub proof fn lemma_run_one(state: ParserView, c: char)
    ensures
        state.run(seq![c]) == state.step(c),
{
    assert(seq![c].drop_last() =~= Seq::<char>::empty());
    assert(state.run(Seq::<char>::empty()) == state);
}

/// Reading a text of two characters is two steps.
pub proof fn lemma_run_two(state: ParserView, a: char, b: char)
    ensures
        state.run(seq![a, b]) == state.step(a).step(b),
{
    assert(seq![a, b].drop_last() =~= seq![a]);
    lemma_run_one(state, a);
}

/// A step starts by opening a line entry where nothing is open.
pub proof fn lemma_step_from_nothing(state: ParserView, c: char)
    requires
        state.stack.len() == 0,
    ensures
        state.step(c) == state.ready().step(c),
        state.ready().root == state.root,
        state.ready().stack == seq![TagBuilderView::fresh(Markdown::Line)],
{
    reveal(ParserView::step);
    assert(state.ready().stack =~= seq![TagBuilderView::fresh(Markdown::Line)]);
    assert(state.ready().ready() == state.ready());
}

/// A character that is no markup is added to the pending characters of the
/// innermost entry, if that holds neither code nor a backslash. A space
/// right after `>` or after a marker of emphasis is the one exception.
pub proof fn lemma_step_text(state: ParserView, c: char)
    requires
        in_plain_entry(state),
        !is_markup(c),
        c == ' ' ==> !(state.top().is_blank() && (state.top().md == Markdown::GreaterThan
            || is_emphasis(state.top().md))),
    ensures
        state.step(c) == state.emit_text(seq![c]),
{
    reveal(ParserView::step);
}

/// A `*` opens an entry for italics where none is open and the innermost
/// entry is not one that was just opened by `*` or `**`.
pub proof fn lemma_step_star_opens(state: ParserView)
    requires
        in_plain_entry(state),
        state.top().md != Markdown::Star,
        !(state.top().md == Markdown::DoubleStar && state.top().is_blank()),
        nearest(state.stack, Markdown::Star) == -1,
    ensures
        state.step('*') == state.open(Markdown::Star),
{
    reveal(ParserView::step);
}

/// A `*` right after a `*` makes `**` of it: an entry for bold, where none
/// is open.
pub proof fn lemma_step_star_doubles(state: ParserView)
    requires
        state.stack.len() > 0,
        state.top().md == Markdown::Star,
        state.top().is_blank(),
        nearest(state.pop().stack, Markdown::DoubleStar) == -1,
    ensures
        state.step('*') == state.pop().open(Markdown::DoubleStar),
{
    reveal(ParserView::step);
}

/// A `*` right after a `*` closes the nearest entry for bold, where one is
/// open.
pub proof fn lemma_step_star_closes_bold(state: ParserView)
    requires
        state.stack.len() > 0,
        state.top().md == Markdown::Star,
        state.top().is_blank(),
        nearest(state.pop().stack, Markdown::DoubleStar) >= 0,
    ensures
        state.step('*') == state.pop().close_nearest(Markdown::DoubleStar, TagTypeView::Bold),
{
    reveal(ParserView::step);
}

/// A `*` after content that follows a `*` closes italics.
pub proof fn lemma_step_star_closes_italics(state: ParserView)
    requires
        state.stack.len() > 0,
        state.top().md == Markdown::Star,
        !state.top().is_blank(),
    ensures
        state.step('*') == state.resolve(TagTypeView::Italics),
{
    reveal(ParserView::step);
}

/// A `#` at the start of a line raises the heading level, up to five.
pub proof fn lemma_step_hash(state: ParserView)
    requires
        state.stack.len() == 1,
        state.top().is_blank(),
        next_heading(state.top().md) is Some,
    ensures
        state.step('#') == state.set_top(state.top().with_kind(next_heading(state.top().md)->Some_0)),
{
    reveal(ParserView::step);
}

/// A `>` at the start of a line is the mark of a block quote.
pub proof fn lemma_step_quote_mark(state: ParserView)
    requires
        state.stack.len() == 1,
        state.top().is_blank(),
        state.top().md == Markdown::Line,
    ensures
        state.step('>') == state.set_top(state.top().with_kind(Markdown::GreaterThan)),
{
    reveal(ParserView::step);
}

/// A space right after the mark of a block quote opens the block quote.
pub proof fn lemma_step_space_after_quote_mark(state: ParserView)
    requires
        state.stack.len() > 0,
        state.top().is_blank(),
        state.top().md == Markdown::GreaterThan,
    ensures
        state.step(' ') == state.set_top(state.top().with_kind(Markdown::BlockQuote)),
{
    reveal(ParserView::step);
}

/// A line break ends the line where the innermost entry holds neither code
/// nor a backslash.
pub proof fn lemma_step_line_break(state: ParserView)
    requires
        in_plain_entry(state),
    ensures
        state.step('\n') == state.newline(),
{
    reveal(ParserView::step);
}

/// Inside an open entry that holds neither code nor a backslash, a text
/// without markup characters is collected as it is: it is added to the
/// pending characters of that entry. Only a space right after `>` or after
/// a marker of emphasis is not such a text.
pub proof fn lemma_run_text(state: ParserView, text: Seq<char>)
    requires
        in_plain_entry(state),
        text.len() > 0,
        without_markup(text),
        text[0] == ' ' ==> !(state.top().is_blank() && (state.top().md == Markdown::GreaterThan
            || is_emphasis(state.top().md))),
    ensures
        state.run(text) == state.emit_text(text),
    decreases text.len(),
{
    let head = text.drop_last();
    let c = text.last();
    assert(!is_markup(text[text.len() - 1]));
    let top = state.top();
    if head.len() == 0 {
        assert(state.run(head) == state);
        assert(c == text[0]);
        assert(seq![c] =~= text);
        lemma_step_text(state, c);
    } else {
        assert forall|i: int| 0 <= i < head.len() implies !is_markup(#[trigger] head[i]) by {
            assert(head[i] == text[i]);
        }
        assert(head[0] == text[0]);
        lemma_run_text(state, head);
        let mid = state.emit_text(head);
        assert(mid.top().in_progress.len() > 0);
        lemma_step_text(mid, c);
        assert(top.push_pending(head).push_pending(seq![c]).in_progress =~= top.push_pending(
            text,
        ).in_progress);
        assert(mid.emit_text(seq![c]).stack =~= state.emit_text(text).stack);
    }
}

/// Saving the pending characters of an entry that has none changes
/// nothing.
pub proof fn lemma_save_nothing(entry: TagBuilderView)
    requires
        entry.in_progress.len() == 0,
    ensures
        entry.save_progress() == entry,
{
    assert(entry.in_progress =~= Seq::<char>::empty());
}

/// One child handed to children gives what `push_value` gives.
pub proof fn lemma_push_one(vals: Seq<TagValueView>, v: TagValueView)
    ensures
        push_values(vals, seq![v]) == push_value(vals, v),
{
    let given = seq![v];
    assert(given.drop_first() =~= Seq::<TagValueView>::empty());
    assert(push_values(push_value(vals, given.first()), given.drop_first()) == push_value(
        vals,
        given.first(),
    ));
}

/// The finished tree of a state in which nothing is open and whose root
/// holds one child, which is no empty text.
pub proof fn lemma_finish_of_one(state: ParserView, v: TagValueView)
    requires
        state.stack.len() == 0,
        state.root == (TagView { kind: TagTypeView::Paragraph, values: seq![v] }),
        !crate::scan::is_empty_text(v),
    ensures
        state.finish() == state.root,
{
    let vals = seq![v];
    let empty = Seq::<TagValueView>::empty();
    assert(state.drain() == state);
    assert(vals.drop_last() =~= empty);
    assert(merge_quotes(empty) =~= empty);
    assert(merge_quotes(vals) =~= vals);
    assert(strip_front(vals) == vals);
    assert(strip_back(vals) == vals);
}

/// A lone entry that leaves one child at the end of its line, over an empty
/// root, finishes as a root that holds that child.
pub proof fn lemma_finish_of_entry(state: ParserView, v: TagValueView)
    requires
        state.root == TagView::empty(TagTypeView::Paragraph),
        state.stack.len() == 1,
        push_values(Seq::empty(), line_end(state.stack[0])) == seq![v],
        !crate::scan::is_empty_text(v),
    ensures
        state.finish() == (TagView { kind: TagTypeView::Paragraph, values: seq![v] }),
{
    assert(state.pop().stack =~= Seq::empty());
    let drained = state.pop().emit_values(line_end(state.top()));
    assert(drained.root == (TagView { kind: TagTypeView::Paragraph, values: seq![v] }));
    assert(drained.drain() == drained);
    assert(state.drain() == drained);
    lemma_finish_of_one(drained, v);
    assert(state.finish() == drained.finish());
}

/// A line entry that holds one child and no pending text leaves that child
/// at the end of its line.
pub proof fn lemma_line_with_one(entry: TagBuilderView, v: TagValueView)
    requires
        entry.md == Markdown::Line,
        entry.in_progress.len() == 0,
        entry.completed == seq![v],
        !crate::scan::is_empty_text(v),
    ensures
        push_values(Seq::empty(), line_end(entry)) == seq![v],
{
    let empty = Seq::<TagValueView>::empty();
    let marker = TagValueView::Text(Seq::<char>::empty());
    let given = seq![marker, v];
    assert(entry.md.literal() =~= Seq::<char>::empty());
    assert(line_end(entry) =~= given);
    assert(given.drop_first() =~= seq![v]);
    assert(push_value(empty, marker) == empty);
    assert(push_values(empty, given) == push_values(empty, seq![v]));
    lemma_push_one(empty, v);
    assert(push_value(empty, v) =~= seq![v]);
}

/// A text without markup characters is its own tree: the root holds it as
/// one text, and holds nothing where the text is empty.
pub proof fn lemma_text_without_markup_is_kept(text: Seq<char>)
    requires
        without_markup(text),
    ensures
        parse(text) == if text.len() > 0 {
            root_with_text(text)
        } else {
            TagView::empty(TagTypeView::Paragraph)
        },
{
    let start = ParserView::start();
    let empty = Seq::<TagValueView>::empty();
    if text.len() == 0 {
        assert(start.run(text) == start);
        assert(start.drain() == start);
        assert(merge_quotes(start.root.values) =~= Seq::empty());
        assert(parse(text).values =~= Seq::empty());
    } else {
        let line = TagBuilderView::fresh(Markdown::Line);
        let ready = start.ready();
        assert(ready.stack =~= seq![line]);
        lemma_run_from_nothing(start, text);
        lemma_run_text(ready, text);
        let state = ready.emit_text(text);
        assert(state.stack =~= seq![line.push_pending(text)]);
        let entry = state.stack[0];
        let only = TagValueView::Text(text);
        assert(entry.md.literal() + entry.in_progress =~= text);
        assert(line_end(entry) =~= seq![only]);
        lemma_push_one(empty, only);
        assert(push_value(empty, only) =~= seq![only]);
        lemma_finish_of_entry(state, only);
    }
}

/// Reading a text where nothing is open is reading it in a fresh line
/// entry.
pub proof fn lemma_run_from_nothing(state: ParserView, text: Seq<char>)
    requires
        state.stack.len() == 0,
        text.len() > 0,
    ensures
        state.run(text) == state.ready().run(text),
    decreases text.len(),
{
    let head = text.drop_last();
    if head.len() == 0 {
        assert(state.run(head) == state);
        assert(state.ready().run(head) == state.ready());
        lemma_step_from_nothing(state, text.last());
    } else {
        lemma_run_from_nothing(state, head);
    }
}

/// A `#` at the start of a text, a space, and a text without markup
/// characters make a heading over that text.
pub proof fn lemma_heading_after_space(t: Seq<char>)
    requires
        t.len() > 0,
        without_markup(t),
    ensures
        parse(seq!['#', ' '] + t) == root_with_node(TagTypeView::H1, t),
{
    let start = ParserView::start();
    let ready = start.ready();
    let empty = Seq::<TagValueView>::empty();
    let heading = TagBuilderView::fresh(Markdown::H1);
    lemma_run_add(start, seq!['#', ' '], t);
    lemma_run_two(start, '#', ' ');
    lemma_step_from_nothing(start, '#');
    lemma_step_hash(ready);
    let marked = start.step('#');
    assert(marked.stack =~= seq![heading]);
    lemma_step_text(marked, ' ');
    let opened = marked.step(' ');
    assert(opened.stack =~= seq![heading.push_pending(seq![' '])]);
    assert(opened.top().in_progress.len() > 0);
    lemma_run_text(opened, t);
    let state = opened.emit_text(t);
    assert(state.stack =~= seq![heading.push_pending(seq![' ']).push_pending(t)]);
    let entry = state.stack[0];
    assert(entry.in_progress =~= seq![' '] + t);
    assert(entry.begins_with_space());
    let content = entry.content();
    assert(content =~= seq![TagValueView::Text(seq![' '] + t)]);
    assert(content.first()->Text_0.drop_first() =~= t);
    assert(content.drop_first() =~= empty);
    assert(without_first_char(content) =~= seq![TagValueView::Text(t)]);
    let node = node_with_text(TagTypeView::H1, t);
    assert(line_end(entry) =~= seq![node]);
    lemma_push_one(empty, node);
    assert(push_value(empty, node) =~= seq![node]);
    lemma_finish_of_entry(state, node);
}

/// Without a space after it, a `#` is text: followed at once by a text
/// without markup characters that does not begin with a space, it stays in
/// the tree as it was written.
pub proof fn lemma_heading_needs_space(t: Seq<char>)
    requires
        t.len() > 0,
        t[0] != ' ',
        without_markup(t),
    ensures
        parse(seq!['#'] + t) == root_with_text(seq!['#'] + t),
{
    let start = ParserView::start();
    let ready = start.ready();
    let empty = Seq::<TagValueView>::empty();
    let heading = TagBuilderView::fresh(Markdown::H1);
    lemma_run_add(start, seq!['#'], t);
    lemma_run_one(start, '#');
    lemma_step_from_nothing(start, '#');
    lemma_step_hash(ready);
    let marked = start.step('#');
    assert(marked.stack =~= seq![heading]);
    lemma_run_text(marked, t);
    let state = marked.emit_text(t);
    assert(state.stack =~= seq![heading.push_pending(t)]);
    let entry = state.stack[0];
    assert(entry.in_progress =~= t);
    assert(!entry.begins_with_space());
    let only = TagValueView::Text(seq!['#'] + t);
    assert(entry.md.literal() + entry.in_progress =~= seq!['#'] + t);
    assert(line_end(entry) =~= seq![only]);
    lemma_push_one(empty, only);
    assert(push_value(empty, only) =~= seq![only]);
    lemma_finish_of_entry(state, only);
}

/// A stack of one entry holds no entry of another kind.
pub proof fn lemma_nearest_in_one(entry: TagBuilderView, md: Markdown)
    requires
        entry.md != md,
    ensures
        nearest(seq![entry], md) == -1,
{
    let stack = seq![entry];
    assert(stack.drop_last() =~= Seq::<TagBuilderView>::empty());
    assert(nearest(stack.drop_last(), md) == -1);
}

/// A stack of two entries holds no entry of a third kind.
pub proof fn lemma_nearest_in_two(first: TagBuilderView, second: TagBuilderView, md: Markdown)
    requires
        first.md != md,
        second.md != md,
    ensures
        nearest(seq![first, second], md) == -1,
{
    let stack = seq![first, second];
    assert(stack.drop_last() =~= seq![first]);
    lemma_nearest_in_one(first, md);
}

/// In a line entry with nothing pending, `*`, a text without markup
/// characters that does not begin with a space, and `*` leave an italics
/// node over that text.
pub proof fn lemma_run_italics(state: ParserView, t: Seq<char>)
    requires
        state.stack.len() == 1,
        state.stack[0].md == Markdown::Line,
        state.stack[0].in_progress.len() == 0,
        t.len() > 0,
        t[0] != ' ',
        without_markup(t),
    ensures
        state.run(seq!['*'] + t + seq!['*']).root == state.root,
        state.run(seq!['*'] + t + seq!['*']).stack == seq![
            state.stack[0].append_value(node_with_text(TagTypeView::Italics, t)),
        ],
{
    let base = state.stack[0];
    let star = TagBuilderView::fresh(Markdown::Star);
    assert(state.stack =~= seq![base]);
    lemma_save_nothing(base);
    lemma_run_add(state, seq!['*'] + t, seq!['*']);
    lemma_run_add(state, seq!['*'], t);
    lemma_run_one(state, '*');
    lemma_nearest_in_one(base, Markdown::Star);
    lemma_step_star_opens(state);
    let opened = state.step('*');
    assert(opened.stack =~= seq![base, star]);
    lemma_run_text(opened, t);
    let filled = opened.emit_text(t);
    assert(filled.stack =~= seq![base, star.push_pending(t)]);
    assert(filled.top().in_progress =~= t);
    lemma_run_one(filled, '*');
    lemma_step_star_closes_italics(filled);
    let node = node_with_text(TagTypeView::Italics, t);
    assert(filled.top().content() =~= seq![TagValueView::Text(t)]);
    assert(filled.pop().stack =~= seq![base]);
    lemma_push_one(base.completed, node);
    let closed = filled.resolve(TagTypeView::Italics);
    assert(closed.stack =~= seq![base.append_value(node)]);
}

/// A text without markup characters between two `*` is italics, if it
/// does not begin with a space.
pub proof fn lemma_single_star_is_italics(t: Seq<char>)
    requires
        t.len() > 0,
        t[0] != ' ',
        without_markup(t),
    ensures
        parse(seq!['*'] + t + seq!['*']) == root_with_node(TagTypeView::Italics, t),
{
    let start = ParserView::start();
    let ready = start.ready();
    let line = TagBuilderView::fresh(Markdown::Line);
    let text = seq!['*'] + t + seq!['*'];
    assert(ready.stack =~= seq![line]);
    lemma_run_from_nothing(start, text);
    lemma_run_italics(ready, t);
    let node = node_with_text(TagTypeView::Italics, t);
    let closed = ready.run(text);
    assert(line.append_value(node).completed =~= seq![node]);
    lemma_line_with_one(closed.stack[0], node);
    lemma_finish_of_entry(closed, node);
}

/// In a line entry, `**` opens an entry for bold above it; what was
/// pending in the line entry is saved first.
pub proof fn lemma_run_open_bold(state: ParserView)
    requires
        state.stack.len() == 1,
        state.stack[0].md == Markdown::Line,
    ensures
        state.run(seq!['*', '*']).root == state.root,
        state.run(seq!['*', '*']).stack == seq![
            state.stack[0].save_progress(),
            TagBuilderView::fresh(Markdown::DoubleStar),
        ],
{
    let base = state.stack[0];
    let saved = base.save_progress();
    let star = TagBuilderView::fresh(Markdown::Star);
    assert(state.stack =~= seq![base]);
    lemma_run_two(state, '*', '*');
    lemma_nearest_in_one(base, Markdown::Star);
    lemma_step_star_opens(state);
    let one = state.step('*');
    assert(one.stack =~= seq![saved, star]);
    assert(one.pop().stack =~= seq![saved]);
    lemma_nearest_in_one(saved, Markdown::DoubleStar);
    lemma_step_star_doubles(one);
    lemma_save_nothing(saved);
    let two = one.pop().open(Markdown::DoubleStar);
    assert(two.stack =~= seq![saved, TagBuilderView::fresh(Markdown::DoubleStar)]);
}

/// Above a line entry with nothing pending, `**` after a text that follows
/// `**` closes it into a bold node, which goes to the line entry.
pub proof fn lemma_run_close_bold(state: ParserView, t: Seq<char>)
    requires
        t.len() > 0,
        state.stack.len() == 2,
        state.stack[0].md == Markdown::Line,
        state.stack[0].in_progress.len() == 0,
        state.stack[1] == TagBuilderView::fresh(Markdown::DoubleStar).push_pending(t),
    ensures
        state.run(seq!['*', '*']).root == state.root,
        state.run(seq!['*', '*']).stack == seq![
            state.stack[0].append_value(node_with_text(TagTypeView::Bold, t)),
        ],
{
    let base = state.stack[0];
    let star = TagBuilderView::fresh(Markdown::Star);
    let double = state.stack[1];
    let saved = double.save_progress();
    assert(state.stack =~= seq![base, double]);
    assert(double.in_progress =~= t);
    assert(saved.completed =~= seq![TagValueView::Text(t)]);
    lemma_run_two(state, '*', '*');
    lemma_nearest_in_two(base, double, Markdown::Star);
    lemma_step_star_opens(state);
    let closing = state.step('*');
    assert(closing.stack =~= seq![base, saved, star]);
    let below = closing.pop();
    assert(below.stack =~= seq![base, saved]);
    assert(nearest(below.stack, Markdown::DoubleStar) == 1);
    lemma_step_star_closes_bold(closing);
    assert(below.fold_down(2) == below);
    assert(saved.content() =~= seq![TagValueView::Text(t)]);
    assert(below.pop().stack =~= seq![base]);
    lemma_save_nothing(base);
    let node = node_with_text(TagTypeView::Bold, t);
    lemma_push_one(base.completed, node);
    let closed = below.resolve(TagTypeView::Bold);
    assert(closed.stack =~= seq![base.append_value(node)]);
}

/// A text without markup characters between two `**` is bold, if it does
/// not begin with a space.
pub proof fn lemma_double_star_is_bold(t: Seq<char>)
    requires
        t.len() > 0,
        t[0] != ' ',
        without_markup(t),
    ensures
        parse(seq!['*', '*'] + t + seq!['*', '*']) == root_with_node(TagTypeView::Bold, t),
{
    let start = ParserView::start();
    let ready = start.ready();
    let line = TagBuilderView::fresh(Markdown::Line);
    let double = TagBuilderView::fresh(Markdown::DoubleStar);
    let text = seq!['*', '*'] + t + seq!['*', '*'];
    assert(ready.stack =~= seq![line]);
    lemma_save_nothing(line);
    lemma_run_from_nothing(start, text);
    lemma_run_add(ready, seq!['*', '*'] + t, seq!['*', '*']);
    lemma_run_add(ready, seq!['*', '*'], t);
    lemma_run_open_bold(ready);
    let opened = ready.run(seq!['*', '*']);
    assert(opened.top() == double);
    lemma_run_text(opened, t);
    let filled = opened.emit_text(t);
    assert(filled.stack =~= seq![line, double.push_pending(t)]);
    lemma_run_close_bold(filled, t);
    let node = node_with_text(TagTypeView::Bold, t);
    let closed = filled.run(seq!['*', '*']);
    assert(line.append_value(node).completed =~= seq![node]);
    lemma_line_with_one(closed.stack[0], node);
    lemma_finish_of_entry(closed, node);
}

/// A backslash opens an entry of its own where the innermost entry holds
/// neither code nor a backslash.
pub proof fn lemma_step_backslash_opens(state: ParserView)
    requires
        in_plain_entry(state),
    ensures
        state.step('\\') == state.open(Markdown::Backslash),
{
    reveal(ParserView::step);
}

/// The character after a backslash is handled as an escaped one.
pub proof fn lemma_step_escaped(state: ParserView, c: char)
    requires
        state.stack.len() > 0,
        state.top().md == Markdown::Backslash,
    ensures
        state.step(c) == state.escape(c),
{
    reveal(ParserView::step);
}

/// A backslash takes exactly the next character: before `*`, `_` or a
/// backtick it makes that character text and disappears itself.
pub proof fn lemma_backslash_escapes_marker(state: ParserView, c: char)
    requires
        in_plain_entry(state),
        c == '*' || c == '_' || c == '`',
    ensures
        state.step('\\').step(c) == state.set_top(
            state.top().save_progress().push_pending(seq![c]),
        ),
{
    let saved = state.top().save_progress();
    lemma_step_backslash_opens(state);
    let opened = state.open(Markdown::Backslash);
    lemma_step_escaped(opened, c);
    assert(opened.pop().stack =~= state.set_top(saved).stack);
    assert(opened.pop().emit_text(seq![c]).stack =~= state.set_top(
        saved.push_pending(seq![c]),
    ).stack);
}

/// Before any other character but a line break, a backslash stays: both
/// become text.
pub proof fn lemma_backslash_before_other_stays(state: ParserView, c: char)
    requires
        in_plain_entry(state),
        c != '*' && c != '_' && c != '`' && c != '\n',
    ensures
        state.step('\\').step(c) == state.set_top(
            state.top().save_progress().push_pending(seq!['\\', c]),
        ),
{
    let saved = state.top().save_progress();
    lemma_step_backslash_opens(state);
    let opened = state.open(Markdown::Backslash);
    lemma_step_escaped(opened, c);
    assert(opened.pop().stack =~= state.set_top(saved).stack);
    assert(opened.pop().emit_text(seq!['\\', c]).stack =~= state.set_top(
        saved.push_pending(seq!['\\', c]),
    ).stack);
}

/// Where nothing is open, `> ` and a text without markup characters leave
/// one open entry: a block quote that holds the text.
pub proof fn lemma_run_quote_line(state: ParserView, t: Seq<char>)
    requires
        state.stack.len() == 0,
        t.len() > 0,
        without_markup(t),
    ensures
        state.run(seq!['>', ' '] + t).root == state.root,
        state.run(seq!['>', ' '] + t).stack == seq![
            TagBuilderView::fresh(Markdown::BlockQuote).push_pending(t),
        ],
{
    let quote = TagBuilderView::fresh(Markdown::BlockQuote);
    let ready = state.ready();
    lemma_run_add(state, seq!['>', ' '], t);
    lemma_run_two(state, '>', ' ');
    lemma_step_from_nothing(state, '>');
    lemma_step_quote_mark(ready);
    let marked = state.step('>');
    assert(marked.stack =~= seq![TagBuilderView::fresh(Markdown::GreaterThan)]);
    lemma_step_space_after_quote_mark(marked);
    let opened = marked.step(' ');
    assert(opened.stack =~= seq![quote]);
    lemma_run_text(opened, t);
    assert(opened.emit_text(t).stack =~= seq![quote.push_pending(t)]);
}

/// Draining a stack that holds one block quote entry over `t` adds a block
/// quote node over `t` to the root.
pub proof fn lemma_drain_quote_line(state: ParserView, t: Seq<char>)
    requires
        t.len() > 0,
        state.stack == seq![TagBuilderView::fresh(Markdown::BlockQuote).push_pending(t)],
    ensures
        state.drain().stack.len() == 0,
        state.drain().root.kind == state.root.kind,
        state.drain().root.values == state.root.values.push(
            node_with_text(TagTypeView::BlockQuote, t),
        ),
{
    let entry = state.top();
    assert(entry.in_progress =~= t);
    assert(entry.content() =~= seq![TagValueView::Text(t)]);
    let node = node_with_text(TagTypeView::BlockQuote, t);
    assert(line_end(entry) =~= seq![node]);
    assert(state.pop().stack =~= Seq::empty());
    lemma_push_one(state.root.values, node);
    let drained = state.pop().emit_values(seq![node]);
    assert(drained.drain() == drained);
}

/// A block quote, a line break and a block quote are merged into one block
/// quote that holds the children of both with the line break between them.
pub proof fn lemma_merge_two_quotes(a: Seq<char>, b: Seq<char>)
    requires
        a.len() > 0,
        b.len() > 0,
    ensures
        merge_quotes(
            seq![
                node_with_text(TagTypeView::BlockQuote, a),
                line_break(),
                node_with_text(TagTypeView::BlockQuote, b),
            ],
        ) == seq![
            TagValueView::Tag(
                TagView {
                    kind: TagTypeView::BlockQuote,
                    values: seq![TagValueView::Text(a), line_break(), TagValueView::Text(b)],
                },
            ),
        ],
{
    let empty = Seq::<TagValueView>::empty();
    let first = node_with_text(TagTypeView::BlockQuote, a);
    let second = node_with_text(TagTypeView::BlockQuote, b);
    let children = seq![first, line_break(), second];
    let two = seq![first, line_break()];
    assert(children.drop_last() =~= two);
    assert(two.drop_last() =~= seq![first]);
    assert(seq![first].drop_last() =~= empty);
    assert(merge_quotes(empty) =~= empty);
    assert(merge_quotes(seq![first]) =~= seq![first]);
    assert(merge_quotes(two) =~= two);
    let inner = seq![TagValueView::Text(a), line_break()];
    lemma_push_one(inner, TagValueView::Text(b));
    assert(push_value(inner, TagValueView::Text(b)) =~= seq![
        TagValueView::Text(a),
        line_break(),
        TagValueView::Text(b),
    ]);
    assert(seq![TagValueView::Text(a)].push(two[1]) =~= inner);
    assert(seq![TagValueView::Text(b)] == second->Tag_0.values);
    assert(two.take(0) =~= empty);
    assert(merge_quotes(children) =~= seq![
        TagValueView::Tag(
            TagView {
                kind: TagTypeView::BlockQuote,
                values: seq![TagValueView::Text(a), line_break(), TagValueView::Text(b)],
            },
        ),
    ]);
}

/// Two lines that each begin with `> ` are one block quote: it holds the
/// text of the first line, a line break, and the text of the second, if
/// neither text holds a markup character.
pub proof fn lemma_neighbouring_quotes_are_joined(a: Seq<char>, b: Seq<char>)
    requires
        a.len() > 0,
        b.len() > 0,
        without_markup(a),
        without_markup(b),
    ensures
        parse(seq!['>', ' '] + a + seq!['\n'] + (seq!['>', ' '] + b)) == (TagView {
            kind: TagTypeView::Paragraph,
            values: seq![
                TagValueView::Tag(
                    TagView {
                        kind: TagTypeView::BlockQuote,
                        values: seq![TagValueView::Text(a), line_break(), TagValueView::Text(b)],
                    },
                ),
            ],
        }),
{
    let start = ParserView::start();
    let first_line = seq!['>', ' '] + a;
    let second_line = seq!['>', ' '] + b;
    lemma_run_add(start, first_line + seq!['\n'], second_line);
    lemma_run_add(start, first_line, seq!['\n']);
    lemma_run_quote_line(start, a);
    let first = start.run(first_line);
    lemma_run_one(first, '\n');
    lemma_drain_quote_line(first, a);
    lemma_step_line_break(first);
    let ended = first.newline();
    assert(ended.root.values =~= seq![node_with_text(TagTypeView::BlockQuote, a), line_break()]);
    lemma_run_quote_line(ended, b);
    let second = ended.run(second_line);
    lemma_drain_quote_line(second, b);
    let children = second.drain().root.values;
    assert(children =~= seq![
        node_with_text(TagTypeView::BlockQuote, a),
        line_break(),
        node_with_text(TagTypeView::BlockQuote, b),
    ]);
    lemma_merge_two_quotes(a, b);
    let merged = merge_quotes(children);
    assert(strip_front(merged) == merged);
    assert(strip_back(merged) == merged);
}

/// True of the seven kinds that a marker of emphasis, code or
/// strikethrough opens.
pub open spec fn is_marker(md: Markdown) -> bool {
    md == Markdown::Star || md == Markdown::DoubleStar || md == Markdown::Underscore || md
        == Markdown::DoubleUnderscore || md == Markdown::Backtick || md == Markdown::Tilde || md
        == Markdown::DoubleTilde
}

/// A line entry that has saved the text `x` and holds the pending
/// characters `q`.
pub open spec fn line_holding(x: Seq<char>, q: Seq<char>) -> TagBuilderView {
    TagBuilderView {
        md: Markdown::Line,
        in_progress: q,
        completed: crate::tag::push_text(Seq::empty(), x),
    }
}

/// A `*` or `_` is handled as emphasis where the innermost entry holds
/// neither code nor a backslash.
pub proof fn lemma_step_emphasis(state: ParserView, c: char)
    requires
        in_plain_entry(state),
        c == '*' || c == '_',
    ensures
        state.step(c) == if c == '*' {
            state.emphasis(c, Markdown::Star, Markdown::DoubleStar)
        } else {
            state.emphasis(c, Markdown::Underscore, Markdown::DoubleUnderscore)
        },
{
    reveal(ParserView::step);
}

/// A `~` is handled as a tilde where the innermost entry holds neither code
/// nor a backslash.
pub proof fn lemma_step_tilde(state: ParserView)
    requires
        in_plain_entry(state),
    ensures
        state.step('~') == state.tilde(),
{
    reveal(ParserView::step);
}

/// A backtick opens an entry for code where the innermost entry holds
/// neither code nor a backslash.
pub proof fn lemma_step_backtick_opens(state: ParserView)
    requires
        in_plain_entry(state),
    ensures
        state.step('`') == state.open(Markdown::Backtick),
{
    reveal(ParserView::step);
}

/// A character other than a backtick or a line break is content of the
/// code that the innermost entry holds, unless that entry is the start of a
/// closing fence.
pub proof fn lemma_step_text_in_code(state: ParserView, c: char)
    requires
        state.stack.len() > 0,
        state.top().md.is_code(),
        !state.above_fence(),
        c != '`',
        c != '\n',
    ensures
        state.step(c) == state.emit_text(seq![c]),
{
    reveal(ParserView::step);
}

/// A space right after a marker of emphasis undoes the marker: marker and
/// space become text of the entry below.
pub proof fn lemma_step_space_undoes_marker(state: ParserView)
    requires
        state.stack.len() > 0,
        state.top().is_blank(),
        is_emphasis(state.top().md),
    ensures
        state.step(' ') == state.pop().emit_text(state.top().md.literal().push(' ')),
{
    reveal(ParserView::step);
}

/// Inside code that is no closing fence, a text without markup characters
/// is collected as it is.
pub proof fn lemma_run_text_in_code(state: ParserView, text: Seq<char>)
    requires
        state.stack.len() > 0,
        state.top().md.is_code(),
        !state.above_fence(),
        text.len() > 0,
        without_markup(text),
    ensures
        state.run(text) == state.emit_text(text),
    decreases text.len(),
{
    let head = text.drop_last();
    let c = text.last();
    assert(!is_markup(text[text.len() - 1]));
    let top = state.top();
    if head.len() == 0 {
        assert(state.run(head) == state);
        assert(seq![c] =~= text);
        lemma_step_text_in_code(state, c);
    } else {
        assert forall|i: int| 0 <= i < head.len() implies !is_markup(#[trigger] head[i]) by {
            assert(head[i] == text[i]);
        }
        lemma_run_text_in_code(state, head);
        let mid = state.emit_text(head);
        assert(mid.stack.len() == state.stack.len());
        let below = state.stack.len() - 2;
        assert(mid.stack.len() >= 2 ==> mid.stack[below] == state.stack[below]);
        lemma_step_text_in_code(mid, c);
        assert(top.push_pending(head).push_pending(seq![c]).in_progress =~= top.push_pending(
            text,
        ).in_progress);
        assert(mid.emit_text(seq![c]).stack =~= state.emit_text(text).stack);
    }
}

/// A lone line entry that has saved `x` and holds `q` pending, over an
/// empty root, finishes as a root that holds the one text `x` and `q`.
pub proof fn lemma_finish_line_holding(state: ParserView, x: Seq<char>, q: Seq<char>)
    requires
        state.root == TagView::empty(TagTypeView::Paragraph),
        state.stack == seq![line_holding(x, q)],
        x.len() + q.len() > 0,
    ensures
        state.finish() == root_with_text(x + q),
{
    let empty = Seq::<TagValueView>::empty();
    let entry = state.stack[0];
    let whole = TagValueView::Text(x + q);
    let marker = TagValueView::Text(Seq::<char>::empty());
    assert(entry.md.literal() =~= Seq::<char>::empty());
    assert(push_value(empty, marker) == empty);
    if x.len() == 0 {
        assert(entry.completed =~= empty);
        assert(entry.md.literal() + q =~= x + q);
        assert(line_end(entry) =~= seq![whole]);
        lemma_push_one(empty, whole);
        assert(push_value(empty, whole) =~= seq![whole]);
    } else {
        let saved = TagValueView::Text(x);
        assert(entry.completed =~= seq![saved]);
        if q.len() == 0 {
            assert(x + q =~= x);
            let given = seq![marker, saved];
            assert(line_end(entry) =~= given);
            assert(given.drop_first() =~= seq![saved]);
            assert(push_values(empty, given) == push_values(empty, seq![saved]));
            lemma_push_one(empty, saved);
            assert(push_value(empty, saved) =~= seq![whole]);
        } else {
            let pending = TagValueView::Text(q);
            let given = seq![marker, saved, pending];
            assert(line_end(entry) =~= given);
            assert(given.drop_first() =~= seq![saved, pending]);
            assert(push_values(empty, given) == push_values(empty, seq![saved, pending]));
            assert(seq![saved, pending].drop_first() =~= seq![pending]);
            assert(push_value(empty, saved) =~= seq![saved]);
            assert(push_values(empty, seq![saved, pending]) == push_values(
                seq![saved],
                seq![pending],
            ));
            lemma_push_one(seq![saved], pending);
            assert(push_value(seq![saved], pending) =~= seq![whole]);
        }
    }
    lemma_finish_of_entry(state, whole);
}

/// At the end of the text, an open marker over `s` above a line entry that
/// has saved `x` leaves one text: `x`, the marker, and `s`.
pub proof fn lemma_finish_open_marker(state: ParserView, x: Seq<char>, md: Markdown, s: Seq<char>)
    requires
        state.root == TagView::empty(TagTypeView::Paragraph),
        state.stack == seq![line_holding(x, Seq::empty()), TagBuilderView::fresh(md).push_pending(s)],
        is_marker(md),
    ensures
        state.finish() == root_with_text(x + md.literal() + s),
{
    let empty = Seq::<TagValueView>::empty();
    let base = state.stack[0];
    let top = state.top();
    let text = md.literal() + s;
    let marked = TagValueView::Text(text);
    assert(top.in_progress =~= s);
    assert(top.completed =~= empty);
    assert(md.literal().len() > 0);
    assert(line_end(top) =~= seq![marked]);
    assert(state.pop().stack =~= seq![base]);
    lemma_save_nothing(base);
    lemma_push_one(base.completed, marked);
    let joined = line_holding(x + text, Seq::empty());
    assert(push_value(base.completed, marked) =~= joined.completed) by {
        if x.len() == 0 {
            assert(x + text =~= text);
            assert(base.completed =~= empty);
        } else {
            assert(base.completed =~= seq![TagValueView::Text(x)]);
        }
    }
    let folded = state.pop().emit_values(seq![marked]);
    assert(folded.stack =~= seq![joined]);
    assert(state.drain() == folded.drain());
    lemma_finish_line_holding(folded, x + text, Seq::empty());
    assert(x + text + Seq::<char>::empty() =~= x + md.literal() + s);
    assert(state.finish() == folded.finish());
}

/// After an open marker above a line entry that has saved `x`, a text
/// without markup characters changes nothing about the marker: at the end
/// of the text all of it is one text.
pub proof fn lemma_finish_after_marker(state: ParserView, x: Seq<char>, md: Markdown, s: Seq<char>)
    requires
        state.root == TagView::empty(TagTypeView::Paragraph),
        state.stack == seq![line_holding(x, Seq::empty()), TagBuilderView::fresh(md)],
        is_marker(md),
        without_markup(s),
    ensures
        state.run(s).finish() == root_with_text(x + md.literal() + s),
{
    let base = state.stack[0];
    let fresh = TagBuilderView::fresh(md);
    if s.len() == 0 {
        assert(state.run(s) == state);
        assert(fresh.push_pending(s) == fresh) by {
            assert(fresh.in_progress + s =~= fresh.in_progress);
        }
        lemma_finish_open_marker(state, x, md, s);
    } else if is_emphasis(md) && s[0] == ' ' {
        let rest = s.skip(1);
        assert(seq![' '] + rest =~= s);
        lemma_run_add(state, seq![' '], rest);
        lemma_run_one(state, ' ');
        lemma_step_space_undoes_marker(state);
        let undone = state.step(' ');
        let literal = md.literal().push(' ');
        assert(state.pop().stack =~= seq![base]);
        assert(undone.stack =~= seq![line_holding(x, literal)]) by {
            assert(base.push_pending(literal).in_progress =~= literal);
        }
        if rest.len() == 0 {
            assert(undone.run(rest) == undone);
            assert(literal =~= md.literal() + s);
            lemma_finish_line_holding(undone, x, literal);
            assert(x + literal =~= x + md.literal() + s);
        } else {
            assert forall|i: int| 0 <= i < rest.len() implies !is_markup(#[trigger] rest[i]) by {
                assert(rest[i] == s[i + 1]);
            }
            lemma_run_text(undone, rest);
            let whole = undone.emit_text(rest);
            assert(literal + rest =~= md.literal() + s);
            assert(whole.stack =~= seq![line_holding(x, md.literal() + s)]) by {
                assert(line_holding(x, literal).push_pending(rest).in_progress =~= md.literal()
                    + s);
            }
            lemma_finish_line_holding(whole, x, md.literal() + s);
            assert(x + (md.literal() + s) =~= x + md.literal() + s);
        }
    } else {
        if md == Markdown::Backtick {
            lemma_run_text_in_code(state, s);
        } else {
            lemma_run_text(state, s);
        }
        let filled = state.emit_text(s);
        assert(filled.stack =~= seq![line_holding(x, Seq::empty()), fresh.push_pending(s)]);
        lemma_finish_open_marker(filled, x, md, s);
    }
}

/// In a line entry without children, a marker opens its entry above it;
/// what was pending in the line entry is saved first.
pub proof fn lemma_run_marker(state: ParserView, p: Seq<char>, md: Markdown)
    requires
        state.stack == seq![line_holding(Seq::empty(), p)],
        is_marker(md),
    ensures
        state.run(md.literal()).root == state.root,
        state.run(md.literal()).stack == seq![
            line_holding(p, Seq::empty()),
            TagBuilderView::fresh(md),
        ],
{
    let base = state.stack[0];
    let saved = base.save_progress();
    assert(base.completed =~= Seq::<TagValueView>::empty());
    assert(saved == line_holding(p, Seq::empty()));
    lemma_save_nothing(saved);
    let single = if md == Markdown::Star || md == Markdown::DoubleStar {
        Markdown::Star
    } else if md == Markdown::Underscore || md == Markdown::DoubleUnderscore {
        Markdown::Underscore
    } else if md == Markdown::Backtick {
        Markdown::Backtick
    } else {
        Markdown::Tilde
    };
    let c = single.literal()[0];
    lemma_nearest_in_one(base, Markdown::Star);
    lemma_nearest_in_one(base, Markdown::Underscore);
    if c == '*' || c == '_' {
        lemma_step_emphasis(state, c);
    } else if c == '`' {
        lemma_step_backtick_opens(state);
    } else {
        lemma_step_tilde(state);
    }
    let one = state.step(c);
    assert(one == state.open(single));
    assert(one.stack =~= seq![saved, TagBuilderView::fresh(single)]);
    if md == single {
        assert(md.literal() =~= seq![c]);
        lemma_run_one(state, c);
    } else {
        assert(md.literal() =~= seq![c, c]);
        lemma_run_two(state, c, c);
        assert(one.pop().stack =~= seq![saved]);
        lemma_nearest_in_one(saved, md);
        if c == '*' || c == '_' {
            lemma_step_emphasis(one, c);
        } else {
            lemma_step_tilde(one);
        }
        let two = one.step(c);
        assert(two == one.pop().open(md));
        assert(two.stack =~= seq![saved, TagBuilderView::fresh(md)]);
    }
}

/// Markup that is never closed stays as it was written. A text, one of the
/// markers `*`, `**`, `_`, `__`, a backtick, `~`, `~~`, and another text
/// give one text that holds all of it, char for char, if neither text holds
/// a markup character. Either text may be empty.
pub proof fn lemma_unclosed_marker_is_kept(p: Seq<char>, md: Markdown, s: Seq<char>)
    requires
        is_marker(md),
        without_markup(p),
        without_markup(s),
    ensures
        parse(p + md.literal() + s) == root_with_text(p + md.literal() + s),
{
    let start = ParserView::start();
    let ready = start.ready();
    let line = TagBuilderView::fresh(Markdown::Line);
    let whole = p + md.literal() + s;
    assert(md.literal().len() > 0);
    assert(ready.stack =~= seq![line]);
    lemma_run_from_nothing(start, whole);
    lemma_run_add(ready, p + md.literal(), s);
    lemma_run_add(ready, p, md.literal());
    let first = ready.run(p);
    assert(first.root == ready.root && first.stack =~= seq![line_holding(Seq::empty(), p)]) by {
        if p.len() == 0 {
            assert(ready.run(p) == ready);
            assert(line.in_progress =~= p);
        } else {
            lemma_run_text(ready, p);
            assert(line.push_pending(p).in_progress =~= p);
        }
    }
    lemma_run_marker(first, p, md);
    let opened = first.run(md.literal());
    lemma_finish_after_marker(opened, p, md, s);
}

} // verus!
