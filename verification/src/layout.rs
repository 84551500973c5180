//! The layout of a plan source: comments, blank lines and spacing.
//!
//! What counts of a source are its statements, the words of its lines that
//! have any. Sources with the same statements read as the same plan, and
//! changes of layout keep the statements.
use crate::ir::{
    line_words, lines_read, parsing_is_deterministic, readable_sources_do_not_stop,
    reader_is_functional, reading_stops, words_read, IrModel,
};
use crate::source::{
    is_space, lines_are_some, lines_of, trim_back, trim_front, trimmed, uncommented, words_of,
};
use vstd::prelude::*;

verus! {

/// The words of the lines that have any, in order.
pub open spec fn statements_in(lines: Seq<Seq<char>>) -> Seq<Seq<Seq<char>>>
    decreases lines.len(),
{
    if lines.len() == 0 {
        Seq::empty()
    } else {
        let before = statements_in(lines.drop_last());
        let words = line_words(lines.last());
        if words.len() == 0 {
            before
        } else {
            before.push(words)
        }
    }
}

/// The statements of a source.
pub open spec fn statements(source: Seq<char>) -> Seq<Seq<Seq<char>>> {
    statements_in(lines_of(source))
}

/// Reading the statements one after the other gives the plan `model`.
pub open spec fn statements_read<N: Fn(String) -> Option<u32>>(
    single: N,
    statements: Seq<Seq<Seq<char>>>,
    model: IrModel,
) -> bool
    decreases statements.len(),
{
    if statements.len() == 0 {
        model == (IrModel { ops: Seq::empty(), input_length: None })
    } else {
        exists|before: IrModel|
            statements_read(single, statements.drop_last(), before) && #[trigger] words_read(
                single,
                statements.last(),
                before,
                model,
            )
    }
}

/// To read lines is to read their statements.
proof fn lines_read_as_statements<N: Fn(String) -> Option<u32>>(
    single: N,
    lines: Seq<Seq<char>>,
    model: IrModel,
)
    ensures
        lines_read(single, lines, model) <==> statements_read(
            single,
            statements_in(lines),
            model,
        ),
    decreases lines.len(),
{
    if lines.len() > 0 {
        let front = lines.drop_last();
        let words = line_words(lines.last());
        if words.len() == 0 {
            lines_read_as_statements(single, front, model);
            if lines_read(single, front, model) {
                assert(words_read(single, words, model, model));
            }
        } else {
            let all = statements_in(lines);
            assert(all.drop_last() =~= statements_in(front));
            if lines_read(single, lines, model) {
                let before = choose|before: IrModel|
                    lines_read(single, front, before) && #[trigger] words_read(
                        single,
                        words,
                        before,
                        model,
                    );
                lines_read_as_statements(single, front, before);
                assert(words_read(single, all.last(), before, model));
            }
            if statements_read(single, all, model) {
                let before = choose|before: IrModel|
                    statements_read(single, all.drop_last(), before) && #[trigger] words_read(
                        single,
                        all.last(),
                        before,
                        model,
                    );
                lines_read_as_statements(single, front, before);
                assert(words_read(single, line_words(lines.last()), before, model));
            }
        }
    }
}

/// Where a source reads as a plan, every source with the same statements reads
/// as that plan, as no other, and stops at no line: comments, blank lines and
/// spacing do not matter.
pub proof fn layout_does_not_matter<N: Fn(String) -> Option<u32>>(
    single: N,
    source: Seq<char>,
    other: Seq<char>,
    model: IrModel,
)
    requires
        reader_is_functional(single),
        lines_read(single, lines_of(source), model),
        statements(source) == statements(other),
    ensures
        lines_read(single, lines_of(other), model),
        forall|read: IrModel| #[trigger]
            lines_read(single, lines_of(other), read) ==> read == model,
        forall|done: int, message: Seq<char>| !#[trigger]
            reading_stops(single, lines_of(other), done, message),
{
    lines_read_as_statements(single, lines_of(source), model);
    lines_read_as_statements(single, lines_of(other), model);
    assert forall|read: IrModel| #[trigger] lines_read(single, lines_of(other), read) implies read
        == model by {
        parsing_is_deterministic(single, lines_of(other), read, model);
    }
    assert forall|done: int, message: Seq<char>| !#[trigger]
        reading_stops(single, lines_of(other), done, message) by {
        readable_sources_do_not_stop(single, lines_of(other), model, done, message);
    }
}

/// A line feed stands nowhere in the text.
pub open spec fn on_one_line(text: Seq<char>) -> bool {
    forall|i: int| 0 <= i < text.len() ==> #[trigger] text[i] != '\n'
}

/// The text is white space within a line.
pub open spec fn is_gap(text: Seq<char>) -> bool {
    on_one_line(text) && forall|i: int| 0 <= i < text.len() ==> is_space(#[trigger] text[i])
}

/// The text is a comment: a number sign and whatever follows it on its line.
pub open spec fn is_comment(text: Seq<char>) -> bool {
    on_one_line(text) && text.len() > 0 && text[0] == '#'
}

/// Where two texts meet, the last line of the first and the first line of the
/// second become one line.
pub proof fn lines_meet(front: Seq<char>, back: Seq<char>)
    ensures
        lines_of(front + back) == lines_of(front).drop_last() + seq![
            lines_of(front).last() + lines_of(back).first(),
        ] + lines_of(back).skip(1),
    decreases back.len(),
{
    let head = lines_of(front);
    lines_are_some(front);
    lines_are_some(back);
    if back.len() == 0 {
        assert(front + back =~= front);
        assert(head.last() + Seq::<char>::empty() =~= head.last());
        assert(head =~= head.drop_last() + seq![head.last()] + lines_of(back).skip(1));
    } else {
        let shorter = back.drop_last();
        let whole = front + back;
        assert(whole.drop_last() =~= front + shorter);
        assert(whole.last() == back.last());
        lines_meet(front, shorter);
        lines_are_some(shorter);
        let tail = lines_of(shorter);
        let before = lines_of(front + shorter);
        if back.last() == '\n' {
            assert(lines_of(back) =~= tail.push(Seq::empty()));
            assert(lines_of(whole) =~= head.drop_last() + seq![
                head.last() + lines_of(back).first(),
            ] + lines_of(back).skip(1));
        } else {
            let longer = tail.drop_last().push(tail.last().push(back.last()));
            assert(lines_of(back) == longer);
            if tail.len() == 1 {
                assert(before.last() == head.last() + tail.first());
                assert((head.last() + tail.first()).push(back.last()) =~= head.last()
                    + longer.first());
            } else {
                assert(before.last() == tail.last());
            }
            assert(lines_of(whole) =~= head.drop_last() + seq![head.last() + longer.first()]
                + longer.skip(1));
        }
    }
}

/// A text without line feeds is one line.
pub proof fn one_line(text: Seq<char>)
    requires
        on_one_line(text),
    ensures
        lines_of(text) == seq![text],
    decreases text.len(),
{
    if text.len() > 0 {
        one_line(text.drop_last());
        assert(text.drop_last().push(text.last()) =~= text);
        assert(lines_of(text) =~= seq![text]);
    } else {
        assert(text =~= Seq::empty());
    }
}

/// Statements of consecutive lines are consecutive.
proof fn statements_join(first: Seq<Seq<char>>, second: Seq<Seq<char>>)
    ensures
        statements_in(first + second) == statements_in(first) + statements_in(second),
    decreases second.len(),
{
    if second.len() == 0 {
        assert(first + second =~= first);
        assert(statements_in(first) + statements_in(second) =~= statements_in(first));
    } else {
        assert((first + second).drop_last() =~= first + second.drop_last());
        statements_join(first, second.drop_last());
        assert(statements_in(first + second) =~= statements_in(first) + statements_in(second));
    }
}

/// A line feed ends the line in front of it.
pub proof fn lines_follow_line_feeds(front: Seq<char>, back: Seq<char>)
    ensures
        lines_of(front + seq!['\n'] + back) == lines_of(front) + lines_of(back),
{
    let ended = front + seq!['\n'];
    let head = lines_of(front);
    let tail = lines_of(back);
    lines_are_some(front);
    lines_are_some(back);
    assert(ended.drop_last() =~= front);
    assert(lines_of(ended) =~= head.push(Seq::empty()));
    lines_meet(ended, back);
    assert(Seq::<char>::empty() + tail.first() =~= tail.first());
    assert(lines_of(ended + back) =~= head + tail);
}

/// A line feed ends the line in front of it: the statements before and behind
/// it are those of two sources.
pub proof fn statements_follow_line_feeds(front: Seq<char>, back: Seq<char>)
    ensures
        statements(front + seq!['\n'] + back) == statements(front) + statements(back),
{
    lines_follow_line_feeds(front, back);
    statements_join(lines_of(front), lines_of(back));
}

/// The lines around a stretch of a source that is within one line.
proof fn stretch_in_line(front: Seq<char>, stretch: Seq<char>, back: Seq<char>)
    requires
        on_one_line(stretch),
    ensures
        lines_of(front + stretch + back) == lines_of(front).drop_last() + seq![
            lines_of(front).last() + stretch + lines_of(back).first(),
        ] + lines_of(back).skip(1),
{
    let head = lines_of(front);
    lines_are_some(front);
    one_line(stretch);
    lines_meet(front, stretch);
    assert(lines_of(front + stretch) =~= head.drop_last() + seq![head.last() + stretch]);
    lines_meet(front + stretch, back);
    assert(lines_of(front + stretch).drop_last() =~= head.drop_last());
}

/// Exchanging a stretch within a line for another keeps the statements where
/// it keeps the words of the line.
proof fn stretches_exchange(
    front: Seq<char>,
    stretch: Seq<char>,
    other: Seq<char>,
    back: Seq<char>,
)
    requires
        on_one_line(stretch),
        on_one_line(other),
        line_words(lines_of(front).last() + stretch + lines_of(back).first()) == line_words(
            lines_of(front).last() + other + lines_of(back).first(),
        ),
    ensures
        statements(front + stretch + back) == statements(front + other + back),
{
    let head = lines_of(front).drop_last();
    let tail = lines_of(back).skip(1);
    let one = seq![lines_of(front).last() + stretch + lines_of(back).first()];
    let two = seq![lines_of(front).last() + other + lines_of(back).first()];
    stretch_in_line(front, stretch, back);
    stretch_in_line(front, other, back);
    statements_join(head + one, tail);
    statements_join(head + two, tail);
    statements_join(head, one);
    statements_join(head, two);
    assert(one.drop_last().len() == 0 && two.drop_last().len() == 0);
    reveal_with_fuel(statements_in, 2);
    assert(statements_in(one) =~= statements_in(two));
}

/// What a number sign in the first of two texts means for both.
pub proof fn uncommented_join(first: Seq<char>, second: Seq<char>)
    ensures
        first.contains('#') ==> uncommented(first + second) == uncommented(first),
        !first.contains('#') ==> uncommented(first + second) == first + uncommented(second),
        !first.contains('#') ==> uncommented(first) == first,
    decreases first.len(),
{
    let whole = first + second;
    if first.len() == 0 {
        assert(whole =~= second);
        assert(first + uncommented(second) =~= uncommented(second));
        assert(uncommented(first) =~= first);
    } else {
        assert(whole[0] == first[0]);
        assert(first.contains(first[0]));
        if first[0] != '#' {
            let rest = first.skip(1);
            assert(whole.skip(1) =~= rest + second);
            uncommented_join(rest, second);
            if first.contains('#') {
                let place = choose|i: int| 0 <= i < first.len() && first[i] == '#';
                assert(rest[place - 1] == '#');
            } else {
                assert forall|i: int| 0 <= i < rest.len() implies rest[i] != '#' by {
                    assert(rest[i] == first[i + 1]);
                }
                assert(!rest.contains('#'));
                assert(seq![first[0]] + (rest + uncommented(second)) =~= first + uncommented(
                    second,
                ));
                assert(seq![first[0]] + rest =~= first);
            }
        }
    }
}

/// A text that does not end in white space ends in a word.
proof fn last_word(text: Seq<char>)
    requires
        text.len() > 0,
        !is_space(text.last()),
    ensures
        words_of(text).len() > 0,
    decreases text.len(),
{
    let front = text.drop_last();
    if front.len() > 0 && !is_space(front.last()) {
        last_word(front);
    }
}

/// White space at the end is part of no word.
pub proof fn words_in_front(text: Seq<char>, gap: Seq<char>)
    requires
        forall|i: int| 0 <= i < gap.len() ==> is_space(#[trigger] gap[i]),
    ensures
        words_of(text + gap) == words_of(text),
    decreases gap.len(),
{
    let whole = text + gap;
    if gap.len() == 0 {
        assert(whole =~= text);
    } else {
        assert(whole.last() == gap[gap.len() - 1]);
        assert(whole.drop_last() =~= text + gap.drop_last());
        words_in_front(text, gap.drop_last());
    }
}

/// White space parts the words in front of it from those behind it.
pub proof fn words_part(front: Seq<char>, gap: Seq<char>, back: Seq<char>)
    requires
        gap.len() > 0,
        forall|i: int| 0 <= i < gap.len() ==> is_space(#[trigger] gap[i]),
    ensures
        words_of(front + gap + back) == words_of(front) + words_of(back),
    decreases back.len(),
{
    let whole = front + gap + back;
    if back.len() == 0 {
        assert(whole =~= front + gap);
        words_in_front(front, gap);
        assert(words_of(front) + words_of(back) =~= words_of(front));
    } else {
        let shorter = back.drop_last();
        let seen = front + gap + shorter;
        assert(whole.drop_last() =~= seen);
        assert(whole.last() == back.last());
        words_part(front, gap, shorter);
        if shorter.len() == 0 {
            assert(seen.last() == gap[gap.len() - 1]);
        } else {
            assert(seen.last() == shorter.last());
            if !is_space(shorter.last()) {
                last_word(shorter);
            }
        }
        assert(words_of(whole) =~= words_of(front) + words_of(back));
    }
}

/// Trimming drops no word.
pub proof fn trimming_keeps_words(text: Seq<char>)
    ensures
        words_of(trimmed(text)) == words_of(text),
{
    front_keeps_words(text);
    back_keeps_words(trim_front(text));
}

/// Trimming in front drops no word.
proof fn front_keeps_words(text: Seq<char>)
    ensures
        words_of(trim_front(text)) == words_of(text),
    decreases text.len(),
{
    if text.len() > 0 && is_space(text[0]) {
        let nothing = Seq::<char>::empty();
        front_keeps_words(text.skip(1));
        words_part(nothing, seq![text[0]], text.skip(1));
        assert(nothing + seq![text[0]] + text.skip(1) =~= text);
        assert(words_of(nothing) + words_of(text.skip(1)) =~= words_of(text.skip(1)));
    }
}

/// Trimming at the end drops no word.
proof fn back_keeps_words(text: Seq<char>)
    ensures
        words_of(trim_back(text)) == words_of(text),
    decreases text.len(),
{
    if text.len() > 0 && is_space(text.last()) {
        back_keeps_words(text.drop_last());
    }
}

/// A line feed or the end of the source follows.
pub open spec fn line_ends(back: Seq<char>) -> bool {
    back.len() == 0 || back[0] == '\n'
}

/// The front of a source ends a line, or there is nothing in front.
pub open spec fn line_starts(front: Seq<char>) -> bool {
    front.len() == 0 || front.last() == '\n'
}

/// Where a line ends, nothing of it follows.
proof fn nothing_follows(back: Seq<char>)
    requires
        line_ends(back),
    ensures
        lines_of(back).first() == Seq::<char>::empty(),
{
    if back.len() > 0 {
        let start = seq!['\n'];
        let rest = back.skip(1);
        assert(back =~= start + rest);
        assert(start.drop_last().len() == 0);
        reveal_with_fuel(lines_of, 2);
        assert(lines_of(start) =~= seq![Seq::<char>::empty(), Seq::<char>::empty()]);
        lines_meet(start, rest);
    }
}

/// Where a comment follows, the rest of the line says nothing.
proof fn comment_follows(back: Seq<char>)
    requires
        back.len() > 0,
        back[0] == '#',
    ensures
        uncommented(lines_of(back).first()) == Seq::<char>::empty(),
{
    let start = seq!['#'];
    let rest = back.skip(1);
    assert(back =~= start + rest);
    one_line(start);
    lines_meet(start, rest);
    assert(lines_of(back).first() == start + lines_of(rest).first());
    assert(lines_of(back).first()[0] == '#');
}

/// A blank line, of white space or with a comment alone, adds no statement
/// between two lines, in front of the first or behind the last.
pub proof fn blank_lines_do_not_matter(
    front: Seq<char>,
    gap: Seq<char>,
    comment: Seq<char>,
    back: Seq<char>,
)
    requires
        is_gap(gap),
        comment.len() == 0 || is_comment(comment),
    ensures
        statements(front + seq!['\n'] + (gap + comment) + seq!['\n'] + back) == statements(
            front + seq!['\n'] + back,
        ),
        statements(gap + comment + seq!['\n'] + back) == statements(back),
        statements(front + seq!['\n'] + (gap + comment)) == statements(front),
{
    let line = gap + comment;
    let nothing = Seq::<char>::empty();
    assert(on_one_line(line)) by {
        assert forall|i: int| 0 <= i < line.len() implies #[trigger] line[i] != '\n' by {
            if i < gap.len() {
                assert(line[i] == gap[i]);
            } else {
                assert(line[i] == comment[i - gap.len()]);
            }
        }
    }
    one_line(line);
    gap_has_no_comment(gap);
    uncommented_join(gap, comment);
    assert(uncommented(comment) =~= nothing);
    assert(gap + nothing =~= gap);
    trimming_keeps_words(gap);
    words_in_front(nothing, gap);
    assert(nothing + gap =~= gap);
    assert(line_words(line).len() == 0);
    assert(seq![line].drop_last().len() == 0);
    reveal_with_fuel(statements_in, 2);
    assert(statements(line) =~= Seq::empty());
    statements_follow_line_feeds(front + seq!['\n'] + line, back);
    statements_follow_line_feeds(front, line);
    statements_follow_line_feeds(front, back);
    statements_follow_line_feeds(line, back);
    assert(statements(front) + statements(line) =~= statements(front));
    assert(statements(line) + statements(back) =~= statements(back));
}

/// White space holds no number sign.
proof fn gap_has_no_comment(gap: Seq<char>)
    requires
        is_gap(gap),
    ensures
        !gap.contains('#'),
{
    assert(!is_space('#'));
}

/// A comment at the end of a line adds nothing to it.
pub proof fn comments_do_not_matter(front: Seq<char>, comment: Seq<char>, back: Seq<char>)
    requires
        is_comment(comment),
        line_ends(back),
    ensures
        statements(front + comment + back) == statements(front + back),
{
    let nothing = Seq::<char>::empty();
    let line = lines_of(front).last();
    nothing_follows(back);
    assert(line + comment + nothing =~= line + comment);
    assert(line + nothing + nothing =~= line);
    uncommented_join(line, comment);
    assert(uncommented(comment) =~= nothing);
    assert(line + nothing =~= line);
    stretches_exchange(front, comment, nothing, back);
    assert(front + nothing + back =~= front + back);
}

/// The white space between two words, and that in front of a line, behind it
/// or in front of its comment, can be exchanged for other white space; where
/// no word could run into another, for none.
pub proof fn spacing_does_not_matter(
    front: Seq<char>,
    gap: Seq<char>,
    other: Seq<char>,
    back: Seq<char>,
)
    requires
        is_gap(gap),
        is_gap(other),
        (gap.len() > 0 && other.len() > 0) || line_starts(front) || line_ends(back) || back[0]
            == '#',
    ensures
        statements(front + gap + back) == statements(front + other + back),
{
    gap_keeps_words(front, gap, back);
    gap_keeps_words(front, other, back);
    stretches_exchange(front, gap, other, back);
}

/// The words of a line with a gap in it are those in front of the gap and
/// those behind it.
proof fn gap_keeps_words(front: Seq<char>, gap: Seq<char>, back: Seq<char>)
    requires
        is_gap(gap),
        gap.len() > 0 || line_starts(front) || line_ends(back) || back[0] == '#',
    ensures
        ({
            let head = lines_of(front).last();
            let tail = lines_of(back).first();
            line_words(head + gap + tail) == (if head.contains('#') {
                words_of(uncommented(head))
            } else {
                words_of(head) + words_of(uncommented(tail))
            })
        }),
{
    let head = lines_of(front).last();
    let tail = lines_of(back).first();
    let behind = uncommented(tail);
    let line = head + gap + tail;
    trimming_keeps_words(uncommented(line));
    gap_has_no_comment(gap);
    uncommented_join(head, gap + tail);
    uncommented_join(gap, tail);
    assert(line =~= head + (gap + tail));
    if !head.contains('#') {
        assert(uncommented(line) =~= head + gap + behind);
        if gap.len() > 0 {
            words_part(head, gap, behind);
        } else if line_starts(front) {
            assert(head =~= Seq::<char>::empty());
            assert(uncommented(line) =~= behind);
            assert(words_of(head) + words_of(behind) =~= words_of(behind));
        } else {
            if line_ends(back) {
                nothing_follows(back);
            } else {
                comment_follows(back);
            }
            assert(behind =~= Seq::<char>::empty());
            assert(uncommented(line) =~= head);
            assert(words_of(head) + words_of(behind) =~= words_of(head));
        }
    }
}

} // verus!
