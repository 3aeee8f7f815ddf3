//! What holds of every text and every state: no character is lost when
//! markup is given up, the root stays the root, and a line break outside a
//! code fence closes everything that is open.
use crate::md::Markdown;
use crate::scan::{parse, ParserView};
use crate::tag::{push_text, push_value, push_values, TagTypeView, TagValueView};
use crate::tag_builder::TagBuilderView;
use vstd::prelude::*;

verus! {

/// All the characters of a sequence of children, in reading order: those
/// of its texts and, for a node, those of its own children.
pub open spec fn plain_text(vals: Seq<TagValueView>) -> Seq<char>
    decreases vals, 1int,
{
    if vals.len() == 0 {
        Seq::empty()
    } else {
        plain_text(vals.drop_last()) + value_text(vals.last())
    }
}

/// All the characters of one child.
pub open spec fn value_text(v: TagValueView) -> Seq<char>
    decreases v, 0int,
{
    match v {
        TagValueView::Text(t) => t,
        TagValueView::Tag(n) => plain_text(n.values),
    }
}

/// The characters of one child alone are its own.
pub proof fn lemma_plain_text_one(v: TagValueView)
    ensures
        plain_text(seq![v]) == value_text(v),
{
    let one = seq![v];
    assert(one.drop_last() =~= Seq::<TagValueView>::empty());
    assert(plain_text(Seq::<TagValueView>::empty()) =~= Seq::<char>::empty());
    assert(plain_text(one) =~= value_text(v));
}

/// One more child at the end adds its characters at the end.
pub proof fn lemma_plain_text_push(vals: Seq<TagValueView>, v: TagValueView)
    ensures
        plain_text(vals.push(v)) == plain_text(vals) + value_text(v),
{
    assert(vals.push(v).drop_last() =~= vals);
}

/// Adding text at the end of a sequence of children adds its characters
/// at the end of theirs, whether or not it is joined to a text before it.
pub proof fn lemma_push_text_keeps_text(vals: Seq<TagValueView>, t: Seq<char>)
    ensures
        plain_text(push_text(vals, t)) == plain_text(vals) + t,
{
    if t.len() == 0 {
        assert(plain_text(vals) + t =~= plain_text(vals));
    } else if vals.len() > 0 && vals.last() is Text {
        let joined = TagValueView::Text(vals.last()->Text_0 + t);
        lemma_plain_text_push(vals.drop_last(), joined);
        assert(plain_text(vals) == plain_text(vals.drop_last()) + value_text(vals.last()));
        assert(plain_text(vals.drop_last()) + (vals.last()->Text_0 + t) =~= plain_text(vals) + t);
    } else {
        lemma_plain_text_push(vals, TagValueView::Text(t));
    }
}

/// Adding a child at the end of a sequence of children adds its characters
/// at the end of theirs.
pub proof fn lemma_push_value_keeps_text(vals: Seq<TagValueView>, v: TagValueView)
    ensures
        plain_text(push_value(vals, v)) == plain_text(vals) + value_text(v),
{
    match v {
        TagValueView::Text(t) => {
            lemma_push_text_keeps_text(vals, t);
        },
        TagValueView::Tag(_) => {
            lemma_plain_text_push(vals, v);
        },
    }
}

/// The characters of two sequences of children, one after the other.
pub proof fn lemma_plain_text_add(a: Seq<TagValueView>, b: Seq<TagValueView>)
    ensures
        plain_text(a + b) == plain_text(a) + plain_text(b),
    decreases b.len(),
{
    if b.len() == 0 {
        assert(a + b =~= a);
        assert(plain_text(a) + plain_text(b) =~= plain_text(a));
    } else {
        lemma_plain_text_add(a, b.drop_last());
        assert((a + b).drop_last() =~= a + b.drop_last());
        assert(plain_text(a + b) =~= plain_text(a) + plain_text(b));
    }
}

/// Adding children one after the other keeps every character in its place:
/// joining texts moves none and drops none.
pub proof fn lemma_push_values_keeps_text(vals: Seq<TagValueView>, more: Seq<TagValueView>)
    ensures
        plain_text(push_values(vals, more)) == plain_text(vals) + plain_text(more),
    decreases more.len(),
{
    if more.len() == 0 {
        assert(plain_text(vals) + plain_text(more) =~= plain_text(vals));
    } else {
        lemma_push_value_keeps_text(vals, more.first());
        lemma_push_values_keeps_text(push_value(vals, more.first()), more.drop_first());
        lemma_plain_text_add(seq![more.first()], more.drop_first());
        assert(seq![more.first()] + more.drop_first() =~= more);
        lemma_plain_text_one(more.first());
        assert(plain_text(push_values(vals, more)) =~= plain_text(vals) + plain_text(more));
    }
}

/// An entry that is given up turns back into what was written: its marker,
/// then everything it had collected, in order.
pub proof fn lemma_given_up_entry_keeps_text(entry: TagBuilderView)
    ensures
        plain_text(entry.to_values()) == entry.md.literal() + plain_text(entry.completed)
            + entry.in_progress,
{
    let marker = seq![TagValueView::Text(entry.md.literal())];
    lemma_plain_text_one(TagValueView::Text(entry.md.literal()));
    if entry.completed.len() == 0 {
        lemma_plain_text_one(TagValueView::Text(entry.md.literal() + entry.in_progress));
        assert(plain_text(entry.completed) =~= Seq::<char>::empty());
        assert(plain_text(entry.to_values()) =~= entry.md.literal() + plain_text(entry.completed)
            + entry.in_progress);
    } else {
        lemma_plain_text_add(marker, entry.completed);
        if entry.in_progress.len() == 0 {
            assert(plain_text(marker + entry.completed) =~= entry.md.literal() + plain_text(
                entry.completed,
            ) + entry.in_progress);
        } else {
            lemma_plain_text_push(marker + entry.completed, TagValueView::Text(entry.in_progress));
        }
    }
}

/// Giving up every entry above the first `keep` leaves that many entries,
/// or all of them where there were fewer, and the root as it was while one
/// entry is left.
pub proof fn lemma_fold_down(state: ParserView, keep: int)
    requires
        keep >= 0,
    ensures
        state.fold_down(keep).stack.len() == if state.stack.len() > keep {
            keep
        } else {
            state.stack.len() as int
        },
        state.fold_down(keep).root.kind == state.root.kind,
    decreases state.stack.len(),
{
    if state.stack.len() > keep && state.stack.len() > 0 {
        lemma_fold_down(state.fold_top(), keep);
    }
}

/// Draining the stack leaves no entry open and the root a root.
pub proof fn lemma_drain(state: ParserView)
    ensures
        state.drain().stack.len() == 0,
        state.drain().root.kind == state.root.kind,
    decreases state.stack.len(),
{
    if state.stack.len() > 0 {
        lemma_drain(state.pop().emit_values(crate::scan::line_end(state.top())));
    }
}

/// Whatever the character, the root stays a node of the same kind.
pub proof fn lemma_step_keeps_root_kind(state: ParserView, c: char)
    ensures
        state.step(c).root.kind == state.root.kind,
{
    reveal(ParserView::step);
    let ready = state.ready();
    let below = ready.pop();
    lemma_drain(ready);
    lemma_drain(below.emit_text(seq!['\\']));
    lemma_nearest_bounds(ready.stack, Markdown::Star);
    lemma_nearest_bounds(ready.stack, Markdown::Underscore);
    lemma_nearest_bounds(below.stack, Markdown::DoubleStar);
    lemma_nearest_bounds(below.stack, Markdown::DoubleUnderscore);
    lemma_nearest_bounds(below.stack, Markdown::DoubleTilde);
    lemma_fold_down(ready, crate::scan::nearest(ready.stack, Markdown::Star) + 1);
    lemma_fold_down(ready, crate::scan::nearest(ready.stack, Markdown::Underscore) + 1);
    lemma_fold_down(below, crate::scan::nearest(below.stack, Markdown::DoubleStar) + 1);
    lemma_fold_down(below, crate::scan::nearest(below.stack, Markdown::DoubleUnderscore) + 1);
    lemma_fold_down(below, crate::scan::nearest(below.stack, Markdown::DoubleTilde) + 1);
}

/// `nearest` is -1 or a position of the stack, and that position holds an
/// entry of the kind asked for.
pub proof fn lemma_nearest_bounds(stack: Seq<TagBuilderView>, md: Markdown)
    ensures
        -1 <= crate::scan::nearest(stack, md) < stack.len(),
        crate::scan::nearest(stack, md) >= 0 ==> stack[crate::scan::nearest(stack, md)].md == md,
    decreases stack.len(),
{
    if stack.len() > 0 && stack.last().md != md {
        lemma_nearest_bounds(stack.drop_last(), md);
    }
}

/// Whatever the text, the root stays a node of the same kind.
pub proof fn lemma_run_keeps_root_kind(state: ParserView, text: Seq<char>)
    ensures
        state.run(text).root.kind == state.root.kind,
    decreases text.len(),
{
    if text.len() > 0 {
        lemma_run_keeps_root_kind(state, text.drop_last());
        lemma_step_keeps_root_kind(state.run(text.drop_last()), text.last());
    }
}

/// Every text has a tree, and its root is the one root node.
pub proof fn lemma_parse_gives_root(text: Seq<char>)
    ensures
        parse(text).kind == TagTypeView::Paragraph,
{
    lemma_run_keeps_root_kind(ParserView::start(), text);
    lemma_drain(ParserView::start().run(text));
}

/// A line break outside a code fence closes the line: no entry stays open
/// across it, so no emphasis, code span, heading or block quote reaches
/// into the next line, and the root ends in a line break node.
pub proof fn lemma_line_break_closes_line(state: ParserView)
    requires
        !state.ready().in_fence(),
    ensures
        state.step('\n').stack.len() == 0,
        state.step('\n').root.values.len() > 0,
        state.step('\n').root.values.last() == crate::scan::line_break(),
{
    reveal(ParserView::step);
    let ready = state.ready();
    lemma_drain(ready);
    lemma_drain(ready.pop().emit_text(seq!['\\']));
}

/// Inside a code fence a line break is content: the fence stays open.
pub proof fn lemma_line_break_stays_in_fence(state: ParserView)
    requires
        state.stack.len() > 0,
        state.in_fence(),
    ensures
        state.step('\n').stack.len() > 0,
        state.step('\n').root == state.root,
{
    reveal(ParserView::step);
}

/// What stands before the first line break of a fence's text is its
/// language and what stands after it is its body, if the language is not
/// empty and has no white space at either end.
pub proof fn lemma_language_before_line_break(language: Seq<char>, body: Seq<char>)
    requires
        language.len() > 0,
        forall|i: int| 0 <= i < language.len() ==> language[i] != '\n',
        !crate::text::char_is_whitespace(language.first()),
        !crate::text::char_is_whitespace(language.last()),
    ensures
        crate::scan::split_language(language + seq!['\n'] + body) == (language, body),
{
    let raw = language + seq!['\n'] + body;
    let at = language.len() as int;
    crate::text::lemma_first_index_is(raw, '\n', at);
    assert(raw.take(at) =~= language);
    assert(raw.skip(at + 1) =~= body);
    crate::text::lemma_trim_start_is(language, 0);
    assert(language.skip(0) =~= language);
    crate::text::lemma_trim_end_is(language, at);
    assert(language.take(at) =~= language);
}

/// Without a line break, what stands before the first space of a fence's
/// text is its language and what stands after it is its body, if the
/// language is not empty and has no white space at either end.
pub proof fn lemma_language_before_space(language: Seq<char>, body: Seq<char>)
    requires
        language.len() > 0,
        forall|i: int| 0 <= i < language.len() ==> language[i] != '\n' && language[i] != ' ',
        forall|i: int| 0 <= i < body.len() ==> body[i] != '\n',
        !crate::text::char_is_whitespace(language.first()),
        !crate::text::char_is_whitespace(language.last()),
    ensures
        crate::scan::split_language(language + seq![' '] + body) == (language, body),
{
    let raw = language + seq![' '] + body;
    let at = language.len() as int;
    crate::text::lemma_first_index_is(raw, '\n', raw.len() as int);
    crate::text::lemma_first_index_is(raw, ' ', at);
    assert(raw.take(at) =~= language);
    assert(raw.skip(at + 1) =~= body);
    crate::text::lemma_trim_start_is(language, 0);
    assert(language.skip(0) =~= language);
    crate::text::lemma_trim_end_is(language, at);
    assert(language.take(at) =~= language);
}

/// A fence's text without line break and without space is all body, in
/// the default language.
pub proof fn lemma_language_by_default(raw: Seq<char>)
    requires
        forall|i: int| 0 <= i < raw.len() ==> raw[i] != '\n' && raw[i] != ' ',
    ensures
        crate::scan::split_language(raw) == (crate::scan::default_language(), raw),
{
    crate::text::lemma_first_index_is(raw, '\n', raw.len() as int);
    crate::text::lemma_first_index_is(raw, ' ', raw.len() as int);
}

} // verus!
