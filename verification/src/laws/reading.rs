//! What a plan source says, from the side of who writes it.
use crate::ir::{
    line_words, lines_read, reading_stops, single_reads, words_fail, words_read, IrModel, IrOpModel,
};
use crate::laws::formats::{decimals_are_worth_their_number, is_decimal};
use crate::laws::formats::printed_numbers_are_read_back;
use crate::layout::{
    lines_follow_line_feeds, on_one_line, one_line, trimming_keeps_words, uncommented_join,
    words_part,
};
use crate::source::{
    is_space, lines_of, trim_back, trim_front, trimmed, uncommented, unsigned_value, words_of,
};
use crate::text::decimal;
use vstd::prelude::*;

verus! {

/// The words that an operation is written in: its keyword, then its arguments
/// in their order. The value of an addition is written as `number`.
pub open spec fn written(op: IrOpModel, number: Seq<char>) -> Seq<Seq<char>> {
    match op {
        IrOpModel::Copy => seq!["copy"@],
        IrOpModel::AddScalar { .. } => seq!["add_scalar"@, number],
        IrOpModel::PluginElementwise { kernel } => seq!["elementwise"@, kernel],
        IrOpModel::Matmul { kernel, m, k, n } => seq![
            "matmul"@,
            kernel,
            decimal(m as nat),
            decimal(k as nat),
            decimal(n as nat),
        ],
        IrOpModel::MatmulAct { kernel, m, k, n, activation } => seq![
            "matmul_act"@,
            kernel,
            decimal(m as nat),
            decimal(k as nat),
            decimal(n as nat),
            decimal(activation as nat),
        ],
    }
}

/// `number` is read as the value of an addition, and as nothing else.
pub open spec fn number_is_read<N: Fn(String) -> Option<u32>>(
    single: N,
    op: IrOpModel,
    number: Seq<char>,
) -> bool {
    op matches IrOpModel::AddScalar { value } ==> forall|read: Option<u32>| #[trigger]
        single_reads(single, number, read) <==> read == Some(value)
}

/// The plan with an operation at its end.
pub open spec fn with_operation(model: IrModel, op: IrOpModel) -> IrModel {
    IrModel { ops: model.ops.push(op), input_length: model.input_length }
}

/// A written operation reads as itself: its words append exactly it, with every
/// argument in its own place, and are never refused.
pub proof fn written_operations_read_as_themselves<N: Fn(String) -> Option<u32>>(
    single: N,
    op: IrOpModel,
    number: Seq<char>,
    before: IrModel,
    after: IrModel,
)
    requires
        number_is_read(single, op, number),
    ensures
        words_read(single, written(op, number), before, after) <==> after == with_operation(
            before,
            op,
        ),
        forall|text: Seq<char>, message: Seq<char>| !#[trigger]
            words_fail(single, written(op, number), text, before, message),
{
    keywords_differ();
    let words = written(op, number);
    match op {
        IrOpModel::Copy => {},
        IrOpModel::AddScalar { value } => {
            assert(single_reads(single, number, Some(value)));
            assert(!single_reads(single, number, None));
        },
        IrOpModel::PluginElementwise { kernel } => {},
        IrOpModel::Matmul { kernel, m, k, n } => {
            printed_numbers_are_read_back(m as nat, u32::MAX as nat);
            printed_numbers_are_read_back(k as nat, u32::MAX as nat);
            printed_numbers_are_read_back(n as nat, u32::MAX as nat);
            assert(words.skip(2) =~= seq![
                decimal(m as nat),
                decimal(k as nat),
                decimal(n as nat),
            ]);
            no_bad_token(words.skip(2), u32::MAX as nat);
        },
        IrOpModel::MatmulAct { kernel, m, k, n, activation } => {
            printed_numbers_are_read_back(m as nat, u16::MAX as nat);
            printed_numbers_are_read_back(k as nat, u16::MAX as nat);
            printed_numbers_are_read_back(n as nat, u16::MAX as nat);
            printed_numbers_are_read_back(activation as nat, u16::MAX as nat);
            assert(words.skip(2) =~= seq![
                decimal(m as nat),
                decimal(k as nat),
                decimal(n as nat),
                decimal(activation as nat),
            ]);
            no_bad_token(words.skip(2), u16::MAX as nat);
        },
    }
}

/// Where every token is a number, none is bad.
proof fn no_bad_token(tokens: Seq<Seq<char>>, limit: nat)
    requires
        forall|i: int|
            0 <= i < tokens.len() ==> unsigned_value(#[trigger] tokens[i], limit) is Some,
    ensures
        crate::ir::first_bad(tokens, limit) is None,
    decreases tokens.len(),
{
    if tokens.len() > 0 {
        assert(unsigned_value(tokens[tokens.len() - 1], limit) is Some);
        assert forall|i: int| 0 <= i < tokens.drop_last().len() implies unsigned_value(
            #[trigger] tokens.drop_last()[i],
            limit,
        ) is Some by {
            assert(unsigned_value(tokens[i], limit) is Some);
        }
        no_bad_token(tokens.drop_last(), limit);
    }
}

/// The keywords differ from one another.
proof fn keywords_differ()
    ensures
        "input"@ != "copy"@,
        "input"@ != "add_scalar"@,
        "input"@ != "elementwise"@,
        "input"@ != "matmul"@,
        "input"@ != "matmul_act"@,
        "copy"@ != "add_scalar"@,
        "copy"@ != "elementwise"@,
        "copy"@ != "matmul"@,
        "copy"@ != "matmul_act"@,
        "add_scalar"@ != "elementwise"@,
        "add_scalar"@ != "matmul"@,
        "add_scalar"@ != "matmul_act"@,
        "elementwise"@ != "matmul"@,
        "elementwise"@ != "matmul_act"@,
        "matmul"@ != "matmul_act"@,
{
    reveal_strlit("input");
    reveal_strlit("copy");
    reveal_strlit("add_scalar");
    reveal_strlit("elementwise");
    reveal_strlit("matmul");
    reveal_strlit("matmul_act");
    assert("input"@[0] == 'i' && "copy"@[0] == 'c' && "add_scalar"@[0] == 'a' && "elementwise"@[0]
        == 'e' && "matmul"@[0] == 'm' && "matmul_act"@[0] == 'm');
    assert("matmul"@.len() == 6 && "matmul_act"@.len() == 10);
}

/// A written input length is the plan's, once: a second one is refused.
pub proof fn written_lengths_read_as_themselves<N: Fn(String) -> Option<u32>>(
    single: N,
    length: u32,
    before: IrModel,
    after: IrModel,
    text: Seq<char>,
    message: Seq<char>,
)
    ensures
        words_read(single, seq!["input"@, decimal(length as nat)], before, after) <==> {
            &&& before.input_length is None
            &&& after == (IrModel { ops: before.ops, input_length: Some(length as int) })
        },
        words_fail(
            single,
            seq!["input"@, decimal(length as nat)],
            text,
            before,
            message,
        ) <==> before.input_length is Some && message == "duplicate input directive"@,
{
    keywords_differ();
    let words = seq!["input"@, decimal(length as nat)];
    printed_numbers_are_read_back(length as nat, u32::MAX as nat);
    assert(words.skip(1) =~= seq![decimal(length as nat)]);
    no_bad_token(words.skip(1), u32::MAX as nat);
}

/// The words have the keyword and the number of arguments of something that a
/// line can say.
pub open spec fn has_known_shape(words: Seq<Seq<char>>) -> bool {
    ||| words.len() == 1 && words[0] == "copy"@
    ||| words.len() == 2 && words[0] == "input"@
    ||| words.len() == 2 && words[0] == "add_scalar"@
    ||| words.len() == 2 && words[0] == "elementwise"@
    ||| words.len() == 5 && words[0] == "matmul"@
    ||| words.len() == 6 && words[0] == "matmul_act"@
}

/// A line says nothing, or one thing of a known shape: it leaves the operations
/// that were there and adds one at most. Every other line is refused with its
/// text.
pub proof fn other_lines_are_refused<N: Fn(String) -> Option<u32>>(
    single: N,
    words: Seq<Seq<char>>,
    text: Seq<char>,
    before: IrModel,
    after: IrModel,
    message: Seq<char>,
)
    ensures
        words.len() == 0 ==> (words_read(single, words, before, after) <==> after == before),
        words.len() == 0 ==> !words_fail(single, words, text, before, message),
        words.len() > 0 && words_read(single, words, before, after) ==> {
            &&& has_known_shape(words)
            &&& words[0] == "input"@ ==> after.ops == before.ops
            &&& words[0] != "input"@ ==> after.ops.len() == before.ops.len() + 1
                && after.ops.drop_last() == before.ops && after.input_length
                == before.input_length
        },
        words.len() > 0 && !has_known_shape(words) ==> {
            &&& !words_read(single, words, before, after)
            &&& words_fail(single, words, text, before, message) <==> message
                == "unrecognized operation: "@ + text
        },
{
    keywords_differ();
    if words_read(single, words, before, after) && words.len() > 0 && words[0] != "input"@ {
        let op = after.ops.last();
        assert(after.ops =~= before.ops.push(op));
        assert(after.ops.drop_last() =~= before.ops);
    }
}

/// Where the words of a matmul line are no numbers, the line is refused with
/// the first that is none.
pub proof fn bad_dimensions_are_named<N: Fn(String) -> Option<u32>>(
    single: N,
    kernel: Seq<char>,
    m: Seq<char>,
    k: Seq<char>,
    n: Seq<char>,
    activation: Seq<char>,
    text: Seq<char>,
    before: IrModel,
    message: Seq<char>,
)
    ensures
        words_fail(single, seq!["matmul"@, kernel, m, k, n], text, before, message) <==> {
            ||| unsigned_value(m, 4_294_967_295) is None && message == "invalid dimension: "@ + m
            ||| unsigned_value(m, 4_294_967_295) is Some && unsigned_value(k, 4_294_967_295) is None
                && message == "invalid dimension: "@ + k
            ||| unsigned_value(m, 4_294_967_295) is Some && unsigned_value(k, 4_294_967_295) is Some
                && unsigned_value(n, 4_294_967_295) is None && message == "invalid dimension: "@ + n
        },
        words_fail(
            single,
            seq!["matmul_act"@, kernel, m, k, n, activation],
            text,
            before,
            message,
        ) <==> {
            ||| unsigned_value(m, 65_535) is None && message == "invalid dimension: "@ + m
            ||| unsigned_value(m, 65_535) is Some && unsigned_value(k, 65_535) is None && message
                == "invalid dimension: "@ + k
            ||| unsigned_value(m, 65_535) is Some && unsigned_value(k, 65_535) is Some
                && unsigned_value(n, 65_535) is None && message == "invalid dimension: "@ + n
            ||| unsigned_value(m, 65_535) is Some && unsigned_value(k, 65_535) is Some
                && unsigned_value(n, 65_535) is Some && unsigned_value(activation, 65_535) is None
                && message == "invalid dimension: "@ + activation
        },
        before.input_length is None ==> (words_fail(
            single,
            seq!["input"@, m],
            text,
            before,
            message,
        ) <==> unsigned_value(m, 4_294_967_295) is None && message == "invalid dimension: "@ + m),
        words_fail(single, seq!["add_scalar"@, m], text, before, message) <==> single_reads(
            single,
            m,
            None,
        ) && message == "invalid number: "@ + m,
{
    keywords_differ();
    reveal_with_fuel(crate::ir::first_bad, 5);
    assert(seq!["matmul"@, kernel, m, k, n].skip(2) =~= seq![m, k, n]);
    assert(seq!["matmul_act"@, kernel, m, k, n, activation].skip(2) =~= seq![m, k, n, activation]);
    assert(seq!["input"@, m].skip(1) =~= seq![m]);
    assert(seq![m, k, n].drop_last() =~= seq![m, k]);
    assert(seq![m, k].drop_last() =~= seq![m]);
    assert(seq![m, k, n, activation].drop_last() =~= seq![m, k, n]);
}

/// The words with a space between each two.
pub open spec fn spaced(words: Seq<Seq<char>>) -> Seq<char>
    decreases words.len(),
{
    if words.len() == 0 {
        Seq::empty()
    } else if words.len() == 1 {
        words[0]
    } else {
        spaced(words.drop_last()) + seq![' '] + words.last()
    }
}

/// A word that can be written as it is: no white space and no number sign.
pub open spec fn is_word(word: Seq<char>) -> bool {
    word.len() > 0 && forall|i: int|
        0 <= i < word.len() ==> !is_space(#[trigger] word[i]) && word[i] != '#'
}

/// All of these can be written as they are.
pub open spec fn are_words(words: Seq<Seq<char>>) -> bool {
    forall|i: int| 0 <= i < words.len() ==> is_word(#[trigger] words[i])
}

/// White space is what Unicode calls so.
pub proof fn white_space_is_that_of_unicode(character: char)
    ensures
        is_space(character) <==> {
            let code = character as int;
            ||| code == 9 || code == 10 || code == 11 || code == 12 || code == 13
            ||| code == 32 || code == 133 || code == 160 || code == 5760
            ||| 8192 <= code && code <= 8202
            ||| code == 8232 || code == 8233 || code == 8239 || code == 8287 || code == 12288
        },
{
}

/// Written words are read as themselves.
pub proof fn written_words_are_read(words: Seq<Seq<char>>)
    requires
        are_words(words),
    ensures
        line_words(spaced(words)) == words,
        on_one_line(spaced(words)),
{
    let nothing = Seq::<char>::empty();
    spaced_is_plain(words);
    let line = spaced(words);
    uncommented_join(line, nothing);
    assert(line + nothing =~= line);
    trimming_keeps_words(line);
}

/// What is known of written words as characters, and as words.
proof fn spaced_is_plain(words: Seq<Seq<char>>)
    requires
        are_words(words),
    ensures
        !spaced(words).contains('#'),
        on_one_line(spaced(words)),
        words_of(spaced(words)) == words,
    decreases words.len(),
{
    let line = spaced(words);
    assert(is_space('\n'));
    if words.len() == 0 {
        assert(words_of(line) =~= words);
    } else if words.len() == 1 {
        assert(is_word(words[0]));
        word_is_one_word(words[0]);
        assert(seq![words[0]] =~= words);
        assert forall|i: int| 0 <= i < line.len() implies line[i] != '#' && #[trigger] line[i]
            != '\n' by {
            assert(!is_space(words[0][i]));
        }
    } else {
        let front = words.drop_last();
        let last = words.last();
        assert(is_word(words[words.len() - 1]));
        assert forall|i: int| 0 <= i < front.len() implies is_word(#[trigger] front[i]) by {
            assert(is_word(words[i]));
        }
        spaced_is_plain(front);
        word_is_one_word(last);
        words_part(spaced(front), seq![' '], last);
        assert(front + seq![last] =~= words);
        assert forall|i: int| 0 <= i < line.len() implies line[i] != '#' && #[trigger] line[i]
            != '\n' by {
            let head = spaced(front);
            if i < head.len() {
                assert(line[i] == head[i]);
                assert(head.contains(head[i]));
                assert(head[i] != '\n');
            } else if i > head.len() {
                assert(line[i] == last[i - head.len() - 1]);
                assert(!is_space(last[i - head.len() - 1]));
            }
        }
    }
}

/// A word is one word.
proof fn word_is_one_word(word: Seq<char>)
    requires
        is_word(word),
    ensures
        words_of(word) == seq![word],
    decreases word.len(),
{
    let front = word.drop_last();
    assert(!is_space(word[word.len() - 1]));
    if front.len() == 0 {
        assert(words_of(front) =~= Seq::<Seq<char>>::empty());
        assert(seq![word.last()] =~= word);
        assert(words_of(word) =~= seq![word]);
    } else {
        assert forall|i: int| 0 <= i < front.len() implies !is_space(#[trigger] front[i])
            && front[i] != '#' by {
            assert(!is_space(word[i]));
        }
        word_is_one_word(front);
        assert(!is_space(front[front.len() - 1]));
        assert(front.push(word.last()) =~= word);
        assert(words_of(word) =~= seq![word]);
    }
}

/// Printed numbers are words.
proof fn decimal_is_word(value: nat)
    ensures
        is_word(decimal(value)),
{
    decimals_are_worth_their_number(value);
    assert forall|i: int| 0 <= i < decimal(value).len() implies !is_space(
        #[trigger] decimal(value)[i],
    ) && decimal(value)[i] != '#' by {
        assert(is_decimal(decimal(value)[i]));
    }
}

/// The keywords are words.
proof fn keywords_are_words()
    ensures
        is_word("input"@),
        is_word("copy"@),
        is_word("add_scalar"@),
        is_word("elementwise"@),
        is_word("matmul"@),
        is_word("matmul_act"@),
{
    reveal_strlit("input");
    reveal_strlit("copy");
    reveal_strlit("add_scalar");
    reveal_strlit("elementwise");
    reveal_strlit("matmul");
    reveal_strlit("matmul_act");
}

/// The kernel's name, if the operation has one, and the written number can be
/// written as they are.
pub open spec fn can_be_written(op: IrOpModel, number: Seq<char>) -> bool {
    match op {
        IrOpModel::Copy => true,
        IrOpModel::AddScalar { .. } => is_word(number),
        IrOpModel::PluginElementwise { kernel } => is_word(kernel),
        IrOpModel::Matmul { kernel, .. } => is_word(kernel),
        IrOpModel::MatmulAct { kernel, .. } => is_word(kernel),
    }
}

/// The words of an operation can be written as they are.
proof fn written_is_words(op: IrOpModel, number: Seq<char>)
    requires
        can_be_written(op, number),
    ensures
        are_words(written(op, number)),
{
    keywords_are_words();
    match op {
        IrOpModel::Matmul { kernel, m, k, n } => {
            decimal_is_word(m as nat);
            decimal_is_word(k as nat);
            decimal_is_word(n as nat);
        },
        IrOpModel::MatmulAct { kernel, m, k, n, activation } => {
            decimal_is_word(m as nat);
            decimal_is_word(k as nat);
            decimal_is_word(n as nat);
            decimal_is_word(activation as nat);
        },
        _ => {},
    }
}

/// A plan source: the input length on the first line, then one operation per
/// line.
pub open spec fn plan_source(length: u32, ops: Seq<IrOpModel>, numbers: Seq<Seq<char>>) -> Seq<char>
    decreases ops.len(),
{
    if ops.len() == 0 {
        spaced(seq!["input"@, decimal(length as nat)])
    } else {
        plan_source(length, ops.drop_last(), numbers) + seq!['\n'] + spaced(
            written(ops.last(), numbers[ops.len() - 1]),
        )
    }
}

/// A written plan reads as itself: its source, character by character, gives
/// its operations in their order and its input length, and nothing else.
pub proof fn written_plans_read_as_themselves<N: Fn(String) -> Option<u32>>(
    single: N,
    length: u32,
    ops: Seq<IrOpModel>,
    numbers: Seq<Seq<char>>,
    model: IrModel,
)
    requires
        forall|i: int|
            0 <= i < ops.len() ==> can_be_written(#[trigger] ops[i], numbers[i]) && number_is_read(
                single,
                ops[i],
                numbers[i],
            ),
    ensures
        lines_read(single, lines_of(plan_source(length, ops, numbers)), model) <==> model == (
        IrModel { ops, input_length: Some(length as int) }),
    decreases ops.len(),
{
    let source = plan_source(length, ops, numbers);
    let empty = IrModel { ops: Seq::empty(), input_length: None };
    if ops.len() == 0 {
        let words = seq!["input"@, decimal(length as nat)];
        keywords_are_words();
        decimal_is_word(length as nat);
        written_words_are_read(words);
        one_line(source);
        let lines = lines_of(source);
        assert(lines.drop_last().len() == 0);
        assert(ops =~= Seq::empty());
        assert forall|before: IrModel|
            lines_read(single, lines.drop_last(), before) implies before == empty by {}
        written_lengths_read_as_themselves(single, length, empty, model, source, source);
        assert(lines_read(single, lines.drop_last(), empty));
        assert(lines.last() == source);
        assert((IrModel { ops: empty.ops, input_length: Some(length as int) }) == (IrModel {
            ops,
            input_length: Some(length as int),
        }));
        if lines_read(single, lines, model) {
            let before = choose|before: IrModel|
                lines_read(single, lines.drop_last(), before) && #[trigger] words_read(
                    single,
                    line_words(lines.last()),
                    before,
                    model,
                );
            assert(before == empty);
        }
        if words_read(single, words, empty, model) {
            assert(words_read(single, line_words(lines.last()), empty, model));
        }
    } else {
        let front = plan_source(length, ops.drop_last(), numbers);
        let op = ops.last();
        let number = numbers[ops.len() - 1];
        let line = spaced(written(op, number));
        let shorter = IrModel { ops: ops.drop_last(), input_length: Some(length as int) };
        assert(can_be_written(ops[ops.len() - 1], number));
        written_is_words(op, number);
        written_words_are_read(written(op, number));
        one_line(line);
        lines_follow_line_feeds(front, line);
        let lines = lines_of(source);
        assert(lines.drop_last() =~= lines_of(front));
        assert(lines.last() == line);
        assert(with_operation(shorter, op).ops =~= ops);
        assert(with_operation(shorter, op) == (IrModel { ops, input_length: Some(length as int) }));
        assert forall|i: int| 0 <= i < ops.drop_last().len() implies can_be_written(
            #[trigger] ops.drop_last()[i],
            numbers[i],
        ) && number_is_read(single, ops.drop_last()[i], numbers[i]) by {
            assert(can_be_written(ops[i], numbers[i]));
        }
        written_plans_read_as_themselves(single, length, ops.drop_last(), numbers, shorter);
        written_operations_read_as_themselves(single, op, number, shorter, model);
        if lines_read(single, lines, model) {
            let before = choose|before: IrModel|
                lines_read(single, lines.drop_last(), before) && #[trigger] words_read(
                    single,
                    line_words(lines.last()),
                    before,
                    model,
                );
            written_plans_read_as_themselves(single, length, ops.drop_last(), numbers, before);
        }
        if model == with_operation(shorter, op) {
            assert(words_read(single, line_words(lines.last()), shorter, model));
        }
    }
}

/// A matmul line over any words: it is read exactly when the words behind the
/// kernel are whole numbers that fit, and says the rows, the inner dimension and
/// the columns in this order, and in a fused one the activation.
pub proof fn matmul_lines_say_their_dimensions<N: Fn(String) -> Option<u32>>(
    single: N,
    kernel: Seq<char>,
    m: Seq<char>,
    k: Seq<char>,
    n: Seq<char>,
    activation: Seq<char>,
    before: IrModel,
    after: IrModel,
)
    ensures
        words_read(single, seq!["matmul"@, kernel, m, k, n], before, after) <==> {
            &&& unsigned_value(m, 4_294_967_295) is Some
            &&& unsigned_value(k, 4_294_967_295) is Some
            &&& unsigned_value(n, 4_294_967_295) is Some
            &&& after == with_operation(
                before,
                IrOpModel::Matmul {
                    kernel,
                    m: unsigned_value(m, 4_294_967_295)->Some_0 as u32,
                    k: unsigned_value(k, 4_294_967_295)->Some_0 as u32,
                    n: unsigned_value(n, 4_294_967_295)->Some_0 as u32,
                },
            )
        },
        words_read(single, seq!["matmul_act"@, kernel, m, k, n, activation], before, after) <==> {
            &&& unsigned_value(m, 65_535) is Some
            &&& unsigned_value(k, 65_535) is Some
            &&& unsigned_value(n, 65_535) is Some
            &&& unsigned_value(activation, 65_535) is Some
            &&& after == with_operation(
                before,
                IrOpModel::MatmulAct {
                    kernel,
                    m: unsigned_value(m, 65_535)->Some_0 as u16,
                    k: unsigned_value(k, 65_535)->Some_0 as u16,
                    n: unsigned_value(n, 65_535)->Some_0 as u16,
                    activation: unsigned_value(activation, 65_535)->Some_0 as u16,
                },
            )
        },
        words_read(single, seq!["input"@, m], before, after) <==> {
            &&& before.input_length is None
            &&& unsigned_value(m, 4_294_967_295) is Some
            &&& after == (IrModel {
                ops: before.ops,
                input_length: Some(unsigned_value(m, 4_294_967_295)->Some_0 as int),
            })
        },
        words_read(single, seq!["add_scalar"@, m], before, after) <==> exists|value: u32| #[trigger]
            single_reads(single, m, Some(value)) && after == with_operation(
                before,
                IrOpModel::AddScalar { value },
            ),
{
    keywords_differ();
    reveal_with_fuel(crate::ir::first_bad, 5);
    assert(seq!["matmul"@, kernel, m, k, n].skip(2) =~= seq![m, k, n]);
    assert(seq!["matmul_act"@, kernel, m, k, n, activation].skip(2) =~= seq![m, k, n, activation]);
    assert(seq!["input"@, m].skip(1) =~= seq![m]);
    assert(seq![m, k, n].drop_last() =~= seq![m, k]);
    assert(seq![m, k].drop_last() =~= seq![m]);
    assert(seq![m, k, n, activation].drop_last() =~= seq![m, k, n]);
}

/// What is read of a line ends in front of its first number sign.
pub proof fn comments_are_cut_off(line: Seq<char>)
    ensures
        uncommented(line).len() <= line.len(),
        uncommented(line) == line.take(uncommented(line).len() as int),
        !uncommented(line).contains('#'),
        uncommented(line).len() < line.len() ==> line[uncommented(line).len() as int] == '#',
    decreases line.len(),
{
    if line.len() > 0 && line[0] != '#' {
        let rest = line.skip(1);
        comments_are_cut_off(rest);
        let front = uncommented(rest);
        assert(uncommented(line) =~= line.take(uncommented(line).len() as int)) by {
            assert forall|i: int| 0 <= i < front.len() implies front[i] == #[trigger] rest[i] by {
                assert(rest.take(front.len() as int)[i] == rest[i]);
            }
        }
        assert forall|i: int| 0 <= i < uncommented(line).len() implies #[trigger] uncommented(line)[i]
            != '#' by {
            if i > 0 {
                assert(uncommented(line)[i] == front[i - 1]);
                assert(front.contains(front[i - 1]));
            }
        }
    } else {
        assert(uncommented(line) =~= line.take(0));
    }
}

/// A text is trimmed by cutting white space off both ends until none is left.
pub proof fn only_white_space_is_trimmed(text: Seq<char>)
    ensures
        exists|start: int, end: int|
            0 <= start <= end <= text.len() && trimmed(text) == #[trigger] text.subrange(start, end)
                && (forall|i: int| 0 <= i < start ==> is_space(#[trigger] text[i])) && (forall|
                i: int,
            |
                end <= i < text.len() ==> is_space(#[trigger] text[i])),
        trimmed(text).len() > 0 ==> !is_space(trimmed(text)[0]) && !is_space(trimmed(text).last()),
{
    front_is_trimmed(text);
    let start = choose|start: int|
        0 <= start <= text.len() && trim_front(text) == #[trigger] text.skip(start) && (forall|i: int|
            0 <= i < start ==> is_space(#[trigger] text[i]));
    let middle = text.skip(start);
    back_is_trimmed(middle);
    let length = choose|end: int|
        0 <= end <= middle.len() && trim_back(middle) == #[trigger] middle.take(end) && (forall|
            i: int,
        |
            end <= i < middle.len() ==> is_space(#[trigger] middle[i]));
    let end = start + length;
    assert(middle.take(length) =~= text.subrange(start, end));
    assert forall|i: int| end <= i < text.len() implies is_space(#[trigger] text[i]) by {
        assert(is_space(middle[i - start]));
    }
}

/// What is cut off in front is white space, and none is left there.
proof fn front_is_trimmed(text: Seq<char>)
    ensures
        exists|start: int|
            0 <= start <= text.len() && trim_front(text) == #[trigger] text.skip(start) && (forall|
                i: int,
            |
                0 <= i < start ==> is_space(#[trigger] text[i])),
        trim_front(text).len() > 0 ==> !is_space(trim_front(text)[0]),
    decreases text.len(),
{
    if text.len() > 0 && is_space(text[0]) {
        let rest = text.skip(1);
        front_is_trimmed(rest);
        let start = choose|start: int|
            0 <= start <= rest.len() && trim_front(rest) == #[trigger] rest.skip(start) && (forall|
                i: int,
            |
                0 <= i < start ==> is_space(#[trigger] rest[i]));
        assert(rest.skip(start) =~= text.skip(start + 1));
        assert forall|i: int| 0 <= i < start + 1 implies is_space(#[trigger] text[i]) by {
            if i > 0 {
                assert(is_space(rest[i - 1]));
            }
        }
    } else {
        assert(text.skip(0) =~= text);
    }
}

/// What is cut off at the end is white space, and none is left there.
proof fn back_is_trimmed(text: Seq<char>)
    ensures
        exists|end: int|
            0 <= end <= text.len() && trim_back(text) == #[trigger] text.take(end) && (forall|i: int|
                end <= i < text.len() ==> is_space(#[trigger] text[i])),
        trim_back(text).len() > 0 ==> !is_space(trim_back(text).last()),
    decreases text.len(),
{
    if text.len() > 0 && is_space(text.last()) {
        let rest = text.drop_last();
        back_is_trimmed(rest);
        let end = choose|end: int|
            0 <= end <= rest.len() && trim_back(rest) == #[trigger] rest.take(end) && (forall|i: int|
                end <= i < rest.len() ==> is_space(#[trigger] rest[i]));
        assert(rest.take(end) =~= text.take(end));
        assert forall|i: int| end <= i < text.len() implies is_space(#[trigger] text[i]) by {
            if i < rest.len() {
                assert(is_space(rest[i]));
            }
        }
    } else {
        assert(text.take(text.len() as int) =~= text);
    }
}

/// Reading stops at the first line that cannot be read, with what is wrong with
/// that line after the lines before it were read; the line's text is what is in
/// front of its comment, trimmed.
pub proof fn reading_stops_at_the_bad_line<N: Fn(String) -> Option<u32>>(
    single: N,
    lines: Seq<Seq<char>>,
    bad: Seq<char>,
    rest: Seq<Seq<char>>,
    before: IrModel,
    message: Seq<char>,
)
    requires
        lines_read(single, lines, before),
        words_fail(
            single,
            words_of(trimmed(uncommented(bad))),
            trimmed(uncommented(bad)),
            before,
            message,
        ),
    ensures
        reading_stops(single, lines.push(bad) + rest, lines.len() as int, message),
{
    let all = lines.push(bad) + rest;
    assert(all.take(lines.len() as int) =~= lines);
    assert(all[lines.len() as int] == bad);
    assert(words_fail(
        single,
        line_words(all[lines.len() as int]),
        trimmed(uncommented(all[lines.len() as int])),
        before,
        message,
    ));
}

/// Where reading stops, the lines before were read and that line was not.
pub proof fn lines_before_a_stop_were_read<N: Fn(String) -> Option<u32>>(
    single: N,
    lines: Seq<Seq<char>>,
    done: int,
    message: Seq<char>,
)
    requires
        reading_stops(single, lines, done, message),
    ensures
        0 <= done < lines.len(),
        exists|before: IrModel|
            lines_read(single, lines.take(done), before) && #[trigger] words_fail(
                single,
                words_of(trimmed(uncommented(lines[done]))),
                trimmed(uncommented(lines[done])),
                before,
                message,
            ),
{
    let before = choose|before: IrModel|
        lines_read(single, lines.take(done), before) && #[trigger] words_fail(
            single,
            line_words(lines[done]),
            trimmed(uncommented(lines[done])),
            before,
            message,
        );
    assert(words_fail(
        single,
        words_of(trimmed(uncommented(lines[done]))),
        trimmed(uncommented(lines[done])),
        before,
        message,
    ));
}

} // verus!
