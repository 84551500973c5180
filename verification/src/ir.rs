//! Source-independent intermediate representation of operation plans.
//!
//! A front end produces an [`IrPlan`], lowering emits fixed-width operation
//! records, and the runtime compiles and executes them. Certification executes
//! a lowered plan and compares it bitwise against a direct evaluation.
use crate::ops::ExecuteError;
use crate::plugin::PluginError;
use crate::source::{
    characters, lines, parse_unsigned, spells, strip_comment, trim, words,
};
use crate::source::{lines_of, trimmed, uncommented, unsigned_value, words_of};
use crate::text::text_of;
use vstd::prelude::*;
use vstd::string::StringExecFns;

verus! {

#[derive(Clone, Debug, PartialEq, Eq)]
#[allow(inconsistent_fields)]
pub enum IrOp {
    Copy,
    AddScalar { value: u32 },
    PluginElementwise { kernel: String },
    Matmul { kernel: String, m: u32, k: u32, n: u32 },
    MatmulAct { kernel: String, m: u16, k: u16, n: u16, activation: u16 },
}

/// An operation with its kernel's name as text.
#[allow(inconsistent_fields)]
pub enum IrOpModel {
    Copy,
    AddScalar { value: u32 },
    PluginElementwise { kernel: Seq<char> },
    Matmul { kernel: Seq<char>, m: u32, k: u32, n: u32 },
    MatmulAct { kernel: Seq<char>, m: u16, k: u16, n: u16, activation: u16 },
}

impl IrOp {
    /// The operation with its kernel's name as text.
    pub open spec fn model(self) -> IrOpModel {
        match self {
            IrOp::Copy => IrOpModel::Copy,
            IrOp::AddScalar { value } => IrOpModel::AddScalar { value },
            IrOp::PluginElementwise { kernel } => IrOpModel::PluginElementwise { kernel: kernel@ },
            IrOp::Matmul { kernel, m, k, n } => IrOpModel::Matmul { kernel: kernel@, m, k, n },
            IrOp::MatmulAct { kernel, m, k, n, activation } => IrOpModel::MatmulAct {
                kernel: kernel@,
                m,
                k,
                n,
                activation,
            },
        }
    }
}

#[derive(Debug, PartialEq, Eq)]
pub enum IrError {
    /// The kernel is not registered.
    UnknownKernel(String),
    /// A line of the plan source cannot be read.
    Parse { line: usize, message: String },
    /// An operation does not match the chain length.
    Chain { index: usize },
    /// The kernel has another operation kind than the operation needs.
    KernelKind { kernel: String, expected: u16, actual: u16 },
    /// The lowered plan does not compile.
    Compile(ExecuteError),
    /// The compiled plan does not run.
    Execute(ExecuteError),
    /// A kernel dispatch failed.
    Plugin(PluginError),
    /// The input does not fit the session arena.
    InputTooLarge { required: usize, capacity: usize },
    /// The plan's output differs from the direct evaluation.
    Certification { index: usize, plan: u32, reference: u32 },
}

/// What a plan says: its operations and its declared input length.
#[verifier::ext_equal]
pub struct IrModel {
    pub ops: Seq<IrOpModel>,
    pub input_length: Option<int>,
}

/// A plan as a list of operations.
#[derive(Debug)]
pub struct IrPlan {
    ops: Vec<IrOp>,
    input_length: Option<usize>,
}

impl IrPlan {
    /// What the plan says.
    pub closed spec fn model(&self) -> IrModel {
        IrModel {
            ops: Seq::new(self.ops@.len(), |i: int| self.ops@[i].model()),
            input_length: match self.input_length {
                Some(length) => Some(length as int),
                None => None,
            },
        }
    }

    /// A plan without operations.
    pub fn new() -> (plan: Self)
        ensures
            plan.model() == (IrModel { ops: Seq::empty(), input_length: None }),
    {
        let plan = IrPlan { ops: Vec::new(), input_length: None };
        assert(plan.model().ops =~= Seq::<IrOpModel>::empty());
        plan
    }

    /// Appends an operation.
    pub fn push(&mut self, op: IrOp)
        ensures
            final(self).model() == (IrModel {
                ops: old(self).model().ops.push(op.model()),
                input_length: old(self).model().input_length,
            }),
    {
        let ghost added = op.model();
        self.ops.push(op);
        assert(self.model().ops =~= old(self).model().ops.push(added));
    }

    /// The operations, in order.
    pub fn ops(&self) -> (ops: &[IrOp])
        ensures
            ops@.len() == self.model().ops.len(),
            forall|i: int|
                0 <= i < ops@.len() ==> (#[trigger] ops@[i]).model() == self.model().ops[i],
    {
        self.ops.as_slice()
    }

    /// The input length that the source declares.
    pub fn input_length(&self) -> (length: Option<usize>)
        ensures
            match self.model().input_length {
                Some(declared) => length matches Some(value) && value == declared,
                None => length is None,
            },
    {
        self.input_length
    }
}

impl Default for IrPlan {
    fn default() -> (plan: Self)
        ensures
            plan.model() == (IrModel { ops: Seq::empty(), input_length: None }),
    {
        IrPlan::new()
    }
}

/// `single` can be called on every text.
pub open spec fn reader_is_total<N: Fn(String) -> Option<u32>>(single: N) -> bool {
    forall|text: String| call_requires(single, (text,))
}

/// Reading a token as a single gives `value`.
pub open spec fn single_reads<N: Fn(String) -> Option<u32>>(
    single: N,
    token: Seq<char>,
    value: Option<u32>,
) -> bool {
    exists|text: String| text@ == token && #[trigger] call_ensures(single, (text,), value)
}

/// The first token that is no whole number up to `limit`.
pub open spec fn first_bad(tokens: Seq<Seq<char>>, limit: nat) -> Option<Seq<char>>
    decreases tokens.len(),
{
    if tokens.len() == 0 {
        None
    } else {
        match first_bad(tokens.drop_last(), limit) {
            Some(token) => Some(token),
            None => if unsigned_value(tokens.last(), limit) is None {
                Some(tokens.last())
            } else {
                None
            },
        }
    }
}

/// The words have the shape of this operation: its keyword and its number of
/// arguments.
pub open spec fn shaped_like(words: Seq<Seq<char>>, keyword: Seq<char>, arguments: nat) -> bool {
    words.len() == arguments + 1 && words[0] == keyword
}

/// The tokens of a line that must be whole numbers, with their limit.
pub open spec fn dimensions(words: Seq<Seq<char>>) -> (Seq<Seq<char>>, nat) {
    if shaped_like(words, "input"@, 1) {
        (words.skip(1), u32::MAX as nat)
    } else if shaped_like(words, "matmul"@, 4) {
        (words.skip(2), u32::MAX as nat)
    } else if shaped_like(words, "matmul_act"@, 5) {
        (words.skip(2), u16::MAX as nat)
    } else {
        (Seq::empty(), 0)
    }
}

/// The words of a line are one that is understood.
pub open spec fn understood(words: Seq<Seq<char>>) -> bool {
    ||| words.len() == 0
    ||| shaped_like(words, "input"@, 1)
    ||| shaped_like(words, "copy"@, 0)
    ||| shaped_like(words, "add_scalar"@, 1)
    ||| shaped_like(words, "elementwise"@, 1)
    ||| shaped_like(words, "matmul"@, 4)
    ||| shaped_like(words, "matmul_act"@, 5)
}

/// The whole number that a token stands for.
pub open spec fn number(token: Seq<char>, limit: nat) -> nat {
    unsigned_value(token, limit)->Some_0
}

/// Reading the words of a line turns the plan `before` into the plan `after`.
pub open spec fn words_read<N: Fn(String) -> Option<u32>>(
    single: N,
    words: Seq<Seq<char>>,
    before: IrModel,
    after: IrModel,
) -> bool {
    let (tokens, limit) = dimensions(words);
    if words.len() == 0 {
        after == before
    } else if shaped_like(words, "input"@, 1) {
        before.input_length is None && first_bad(tokens, limit) is None && after == (IrModel {
            ops: before.ops,
            input_length: Some(number(words[1], limit) as int),
        })
    } else if shaped_like(words, "copy"@, 0) {
        after == appended(before, IrOpModel::Copy)
    } else if shaped_like(words, "add_scalar"@, 1) {
        exists|value: u32| #[trigger]
            single_reads(single, words[1], Some(value)) && after == appended(
                before,
                IrOpModel::AddScalar { value },
            )
    } else if shaped_like(words, "elementwise"@, 1) {
        after == appended(before, IrOpModel::PluginElementwise { kernel: words[1] })
    } else if shaped_like(words, "matmul"@, 4) {
        first_bad(tokens, limit) is None && after == appended(
            before,
            IrOpModel::Matmul {
                kernel: words[1],
                m: number(words[2], limit) as u32,
                k: number(words[3], limit) as u32,
                n: number(words[4], limit) as u32,
            },
        )
    } else if shaped_like(words, "matmul_act"@, 5) {
        first_bad(tokens, limit) is None && after == appended(
            before,
            IrOpModel::MatmulAct {
                kernel: words[1],
                m: number(words[2], limit) as u16,
                k: number(words[3], limit) as u16,
                n: number(words[4], limit) as u16,
                activation: number(words[5], limit) as u16,
            },
        )
    } else {
        false
    }
}

/// The plan with one more operation.
pub open spec fn appended(model: IrModel, op: IrOpModel) -> IrModel {
    IrModel { ops: model.ops.push(op), input_length: model.input_length }
}

/// The words of a line, which reads `text`, cannot be read: `message` says why.
pub open spec fn words_fail<N: Fn(String) -> Option<u32>>(
    single: N,
    words: Seq<Seq<char>>,
    text: Seq<char>,
    before: IrModel,
    message: Seq<char>,
) -> bool {
    let (tokens, limit) = dimensions(words);
    if !understood(words) {
        message == "unrecognized operation: "@ + text
    } else if shaped_like(words, "input"@, 1) && before.input_length is Some {
        message == "duplicate input directive"@
    } else if first_bad(tokens, limit) is Some {
        message == "invalid dimension: "@ + first_bad(tokens, limit)->Some_0
    } else if shaped_like(words, "add_scalar"@, 1) {
        single_reads(single, words[1], None) && message == "invalid number: "@ + words[1]
    } else {
        false
    }
}

/// The words of a line.
pub open spec fn line_words(line: Seq<char>) -> Seq<Seq<char>> {
    words_of(trimmed(uncommented(line)))
}

/// Reading the lines one after the other gives the plan `model`.
pub open spec fn lines_read<N: Fn(String) -> Option<u32>>(
    single: N,
    lines: Seq<Seq<char>>,
    model: IrModel,
) -> bool
    decreases lines.len(),
{
    if lines.len() == 0 {
        model == (IrModel { ops: Seq::empty(), input_length: None })
    } else {
        exists|before: IrModel|
            lines_read(single, lines.drop_last(), before) && #[trigger] words_read(
                single,
                line_words(lines.last()),
                before,
                model,
            )
    }
}

/// Reading stops at the line after the first `done`, and `message` says why.
pub open spec fn reading_stops<N: Fn(String) -> Option<u32>>(
    single: N,
    lines: Seq<Seq<char>>,
    done: int,
    message: Seq<char>,
) -> bool {
    0 <= done < lines.len() && exists|before: IrModel|
        lines_read(single, lines.take(done), before) && #[trigger] words_fail(
            single,
            line_words(lines[done]),
            trimmed(uncommented(lines[done])),
            before,
            message,
        )
}

/// A message followed by what it is about.
fn message_about(message: &str, subject: &[char]) -> (text: String)
    ensures
        text@ == message@ + subject@,
{
    let mut text = String::from_str(message);
    let tail = text_of(subject);
    text.append(tail.as_str());
    text
}

/// Reads a token as a whole number that fits 32 bits.
pub fn parse_u32(token: &[char], line: usize) -> (result: Result<u32, IrError>)
    ensures
        match unsigned_value(token@, u32::MAX as nat) {
            Some(value) => result matches Ok(number) && number == value,
            None => result matches Err(IrError::Parse { line: at, message }) && at == line
                && message@ == "invalid dimension: "@ + token@,
        },
{
    match parse_unsigned(token, u32::MAX) {
        Some(value) => Ok(value),
        None => Err(IrError::Parse { line, message: message_about("invalid dimension: ", token) }),
    }
}

/// Reads a token as a whole number that fits 16 bits.
pub fn parse_u16(token: &[char], line: usize) -> (result: Result<u16, IrError>)
    ensures
        match unsigned_value(token@, u16::MAX as nat) {
            Some(value) => result matches Ok(number) && number == value,
            None => result matches Err(IrError::Parse { line: at, message }) && at == line
                && message@ == "invalid dimension: "@ + token@,
        },
{
    match parse_unsigned(token, 0xffff) {
        Some(value) => Ok(value as u16),
        None => Err(IrError::Parse { line, message: message_about("invalid dimension: ", token) }),
    }
}

/// Reads a token as a single.
pub fn parse_f32<N: Fn(String) -> Option<u32>>(token: &[char], line: usize, single: &N) -> (result:
    Result<u32, IrError>)
    requires
        reader_is_total(*single),
    ensures
        match result {
            Ok(value) => single_reads(*single, token@, Some(value)),
            Err(IrError::Parse { line: at, message }) => {
                &&& single_reads(*single, token@, None)
                &&& at == line
                &&& message@ == "invalid number: "@ + token@
            },
            Err(_) => false,
        },
{
    let text = text_of(token);
    let ghost read = text;
    match single(text) {
        Some(value) => {
            assert(call_ensures(*single, (read,), Some(value)));
            Ok(value)
        },
        None => {
            assert(call_ensures(*single, (read,), None::<u32>));
            Err(IrError::Parse { line, message: message_about("invalid number: ", token) })
        },
    }
}

/// What a failed line reports.
spec fn reports(error: IrError, line: int, message: Seq<char>) -> bool {
    error matches IrError::Parse { line: at, message: text } && at == line && text@ == message
}

/// The first bad one of three tokens.
proof fn first_bad_of_three(tokens: Seq<Seq<char>>, limit: nat)
    requires
        tokens.len() == 3,
    ensures
        first_bad(tokens, limit) == (if unsigned_value(tokens[0], limit) is None {
            Some(tokens[0])
        } else if unsigned_value(tokens[1], limit) is None {
            Some(tokens[1])
        } else if unsigned_value(tokens[2], limit) is None {
            Some(tokens[2])
        } else {
            None
        }),
{
    reveal_with_fuel(first_bad, 4);
}

/// The first bad one of four tokens.
proof fn first_bad_of_four(tokens: Seq<Seq<char>>, limit: nat)
    requires
        tokens.len() == 4,
    ensures
        first_bad(tokens, limit) == (if unsigned_value(tokens[0], limit) is None {
            Some(tokens[0])
        } else if unsigned_value(tokens[1], limit) is None {
            Some(tokens[1])
        } else if unsigned_value(tokens[2], limit) is None {
            Some(tokens[2])
        } else if unsigned_value(tokens[3], limit) is None {
            Some(tokens[3])
        } else {
            None
        }),
{
    reveal_with_fuel(first_bad, 5);
}

/// The keywords differ.
proof fn keywords_differ()
    ensures
        "input"@ != "copy"@,
        "input"@ != "add_scalar"@,
        "input"@ != "elementwise"@,
        "input"@ != "matmul"@,
        "input"@ != "matmul_act"@,
        "copy"@ != "add_scalar"@,
        "copy"@ != "elementwise"@,
        "add_scalar"@ != "elementwise"@,
        "matmul"@ != "matmul_act"@,
{
    reveal_strlit("input");
    reveal_strlit("copy");
    reveal_strlit("add_scalar");
    reveal_strlit("elementwise");
    reveal_strlit("matmul");
    reveal_strlit("matmul_act");
    assert("input"@[0] == 'i' && "copy"@[0] == 'c' && "add_scalar"@[0] == 'a' && "elementwise"@[0]
        == 'e' && "matmul"@[0] == 'm' && "matmul_act"@[0] == 'm');
    assert("matmul"@.len() != "matmul_act"@.len());
}

impl IrPlan {
    /// Reads the words of one line into the plan.
    fn read_words<N: Fn(String) -> Option<u32>>(
        &mut self,
        words: &Vec<Vec<char>>,
        text: &[char],
        line: usize,
        single: &N,
    ) -> (result: Result<(), IrError>)
        requires
            reader_is_total(*single),
        ensures
            ({
                let seen = words@.map_values(|word: Vec<char>| word@);
                match result {
                    Ok(_) => words_read(*single, seen, old(self).model(), final(self).model()),
                    Err(error) => exists|message: Seq<char>|
                        reports(error, line as int, message) && #[trigger] words_fail(
                            *single,
                            seen,
                            text@,
                            old(self).model(),
                            message,
                        ),
                }
            }),
    {
        let ghost seen = words@.map_values(|word: Vec<char>| word@);
        let ghost before = self.model();
        proof {
            keywords_differ();
            assert forall|i: int| 0 <= i < words@.len() implies #[trigger] seen[i]
                == words@[i]@ by {}
        }
        if words.len() == 0 {
            return Ok(());
        }
        let keyword: &[char] = words[0].as_slice();
        if words.len() == 2 && spells(keyword, "input") {
            proof {
                assert(shaped_like(seen, "input"@, 1));
                assert(seen.skip(1) =~= seq![seen[1]]);
                reveal_with_fuel(first_bad, 2);
                assert(first_bad(seen.skip(1), u32::MAX as nat) is None <==> unsigned_value(
                    seen[1],
                    u32::MAX as nat,
                ) is Some);
            }
            if self.input_length.is_some() {
                let error = IrError::Parse {
                    line,
                    message: String::from_str("duplicate input directive"),
                };
                assert(words_fail(
                    *single,
                    seen,
                    text@,
                    before,
                    "duplicate input directive"@,
                ));
                return Err(error);
            }
            match parse_u32(words[1].as_slice(), line) {
                Ok(value) => {
                    self.input_length = Some(value as usize);
                    assert(self.model().ops =~= before.ops);
                    return Ok(());
                },
                Err(error) => {
                    assert(words_fail(
                        *single,
                        seen,
                        text@,
                        before,
                        "invalid dimension: "@ + seen[1],
                    ));
                    return Err(error);
                },
            }
        }
        if words.len() == 1 && spells(keyword, "copy") {
            assert(shaped_like(seen, "copy"@, 0));
            self.push(IrOp::Copy);
            return Ok(());
        }
        if words.len() == 2 && spells(keyword, "add_scalar") {
            assert(shaped_like(seen, "add_scalar"@, 1));
            match parse_f32(words[1].as_slice(), line, single) {
                Ok(value) => {
                    assert(single_reads(*single, seen[1], Some(value)));
                    self.push(IrOp::AddScalar { value });
                    return Ok(());
                },
                Err(error) => {
                    assert(words_fail(
                        *single,
                        seen,
                        text@,
                        before,
                        "invalid number: "@ + seen[1],
                    ));
                    return Err(error);
                },
            }
        }
        if words.len() == 2 && spells(keyword, "elementwise") {
            assert(shaped_like(seen, "elementwise"@, 1));
            let kernel = text_of(words[1].as_slice());
            self.push(IrOp::PluginElementwise { kernel });
            return Ok(());
        }
        if words.len() == 5 && spells(keyword, "matmul") {
            proof {
                assert(shaped_like(seen, "matmul"@, 4));
                first_bad_of_three(seen.skip(2), u32::MAX as nat);
            }
            match read_matmul(words, line) {
                Ok(op) => {
                    self.push(op);
                    return Ok(());
                },
                Err(error) => {
                    assert(words_fail(
                        *single,
                        seen,
                        text@,
                        before,
                        "invalid dimension: "@ + first_bad(seen.skip(2), u32::MAX as nat)->Some_0,
                    ));
                    return Err(error);
                },
            }
        }
        if words.len() == 6 && spells(keyword, "matmul_act") {
            proof {
                assert(shaped_like(seen, "matmul_act"@, 5));
                first_bad_of_four(seen.skip(2), u16::MAX as nat);
            }
            match read_matmul_act(words, line) {
                Ok(op) => {
                    self.push(op);
                    return Ok(());
                },
                Err(error) => {
                    assert(words_fail(
                        *single,
                        seen,
                        text@,
                        before,
                        "invalid dimension: "@ + first_bad(seen.skip(2), u16::MAX as nat)->Some_0,
                    ));
                    return Err(error);
                },
            }
        }
        assert(!understood(seen));
        assert(words_fail(*single, seen, text@, before, "unrecognized operation: "@ + text@));
        Err(
            IrError::Parse { line, message: message_about("unrecognized operation: ", text) },
        )
    }

    /// Parses a plan source: one operation per line, with `#` comments and blank
    /// lines ignored. An optional `input N` directive declares the plan's input
    /// length.
    ///
    /// ```text
    /// input VALUES
    /// copy
    /// add_scalar VALUE
    /// elementwise KERNEL
    /// matmul KERNEL M K N
    /// matmul_act KERNEL M K N ACTIVATION
    /// ```
    pub fn parse<N: Fn(String) -> Option<u32>>(source: &str, single: &N) -> (result: Result<
        Self,
        IrError,
    >)
        requires
            reader_is_total(*single),
        ensures
            match result {
                Ok(plan) => lines_read(*single, lines_of(source@), plan.model()),
                Err(IrError::Parse { line, message }) => reading_stops(
                    *single,
                    lines_of(source@),
                    line - 1,
                    message@,
                ),
                Err(_) => false,
            },
    {
        let text: Vec<char> = characters(source);
        let pieces: Vec<Vec<char>> = lines(text.as_slice());
        let ghost all = lines_of(source@);
        let mut plan = IrPlan::new();
        let mut index: usize = 0;
        assert(all.take(0).len() == 0);
        while index < pieces.len()
            invariant
                reader_is_total(*single),
                index <= pieces@.len(),
                pieces@.len() == all.len(),
                all == lines_of(source@),
                forall|i: int| 0 <= i < pieces@.len() ==> (#[trigger] pieces@[i])@ == all[i],
                lines_read(*single, all.take(index as int), plan.model()),
            decreases pieces@.len() - index,
        {
            let line: usize = index + 1;
            let content: &[char] = trim(strip_comment(pieces[index].as_slice()));
            let tokens: Vec<Vec<char>> = words(content);
            let ghost before = plan.model();
            proof {
                assert(pieces@[index as int]@ == all[index as int]);
                assert(tokens@.map_values(|word: Vec<char>| word@) =~= line_words(
                    all[index as int],
                ));
            }
            match plan.read_words(&tokens, content, line, single) {
                Ok(()) => {},
                Err(error) => return Err(error),
            }
            proof {
                let longer = all.take(index + 1);
                assert(longer.drop_last() =~= all.take(index as int));
                assert(longer.last() == all[index as int]);
                assert(words_read(*single, line_words(longer.last()), before, plan.model()));
            }
            index += 1;
        }
        assert(all.take(index as int) =~= all);
        Ok(plan)
    }
}

/// Reads the arguments of a matmul line.
fn read_matmul(words: &Vec<Vec<char>>, line: usize) -> (result: Result<IrOp, IrError>)
    requires
        words@.len() == 5,
    ensures
        ({
            let limit = u32::MAX as nat;
            let m = unsigned_value(words@[2]@, limit);
            let k = unsigned_value(words@[3]@, limit);
            let n = unsigned_value(words@[4]@, limit);
            match result {
                Ok(op) => m is Some && k is Some && n is Some && op.model() == (IrOpModel::Matmul {
                    kernel: words@[1]@,
                    m: m->Some_0 as u32,
                    k: k->Some_0 as u32,
                    n: n->Some_0 as u32,
                }),
                Err(error) => {
                    ||| m is None && reports(
                        error,
                        line as int,
                        "invalid dimension: "@ + words@[2]@,
                    )
                    ||| m is Some && k is None && reports(
                        error,
                        line as int,
                        "invalid dimension: "@ + words@[3]@,
                    )
                    ||| m is Some && k is Some && n is None && reports(
                        error,
                        line as int,
                        "invalid dimension: "@ + words@[4]@,
                    )
                },
            }
        }),
{
    let m: u32 = match parse_u32(words[2].as_slice(), line) {
        Ok(value) => value,
        Err(error) => return Err(error),
    };
    let k: u32 = match parse_u32(words[3].as_slice(), line) {
        Ok(value) => value,
        Err(error) => return Err(error),
    };
    let n: u32 = match parse_u32(words[4].as_slice(), line) {
        Ok(value) => value,
        Err(error) => return Err(error),
    };
    Ok(IrOp::Matmul { kernel: text_of(words[1].as_slice()), m, k, n })
}

/// Reads the arguments of a fused matmul line.
fn read_matmul_act(words: &Vec<Vec<char>>, line: usize) -> (result: Result<IrOp, IrError>)
    requires
        words@.len() == 6,
    ensures
        ({
            let limit = u16::MAX as nat;
            let m = unsigned_value(words@[2]@, limit);
            let k = unsigned_value(words@[3]@, limit);
            let n = unsigned_value(words@[4]@, limit);
            let activation = unsigned_value(words@[5]@, limit);
            match result {
                Ok(op) => m is Some && k is Some && n is Some && activation is Some && op.model()
                    == (IrOpModel::MatmulAct {
                    kernel: words@[1]@,
                    m: m->Some_0 as u16,
                    k: k->Some_0 as u16,
                    n: n->Some_0 as u16,
                    activation: activation->Some_0 as u16,
                }),
                Err(error) => {
                    ||| m is None && reports(
                        error,
                        line as int,
                        "invalid dimension: "@ + words@[2]@,
                    )
                    ||| m is Some && k is None && reports(
                        error,
                        line as int,
                        "invalid dimension: "@ + words@[3]@,
                    )
                    ||| m is Some && k is Some && n is None && reports(
                        error,
                        line as int,
                        "invalid dimension: "@ + words@[4]@,
                    )
                    ||| m is Some && k is Some && n is Some && activation is None && reports(
                        error,
                        line as int,
                        "invalid dimension: "@ + words@[5]@,
                    )
                },
            }
        }),
{
    let m: u16 = match parse_u16(words[2].as_slice(), line) {
        Ok(value) => value,
        Err(error) => return Err(error),
    };
    let k: u16 = match parse_u16(words[3].as_slice(), line) {
        Ok(value) => value,
        Err(error) => return Err(error),
    };
    let n: u16 = match parse_u16(words[4].as_slice(), line) {
        Ok(value) => value,
        Err(error) => return Err(error),
    };
    let activation: u16 = match parse_u16(words[5].as_slice(), line) {
        Ok(value) => value,
        Err(error) => return Err(error),
    };
    Ok(IrOp::MatmulAct { kernel: text_of(words[1].as_slice()), m, k, n, activation })
}

/// A reader that gives one answer for each text makes parsing deterministic: a
/// source reads as at most one plan.
pub proof fn parsing_is_deterministic<N: Fn(String) -> Option<u32>>(
    single: N,
    lines: Seq<Seq<char>>,
    first: IrModel,
    second: IrModel,
)
    requires
        reader_is_functional(single),
        lines_read(single, lines, first),
        lines_read(single, lines, second),
    ensures
        first == second,
    decreases lines.len(),
{
    if lines.len() > 0 {
        let words = line_words(lines.last());
        let one = choose|before: IrModel|
            lines_read(single, lines.drop_last(), before) && #[trigger] words_read(
                single,
                words,
                before,
                first,
            );
        let two = choose|before: IrModel|
            lines_read(single, lines.drop_last(), before) && #[trigger] words_read(
                single,
                words,
                before,
                second,
            );
        parsing_is_deterministic(single, lines.drop_last(), one, two);
    }
}

/// Where the lines read as a plan, so do the first of them.
proof fn first_lines_read<N: Fn(String) -> Option<u32>>(
    single: N,
    lines: Seq<Seq<char>>,
    model: IrModel,
    count: int,
)
    requires
        0 <= count <= lines.len(),
        lines_read(single, lines, model),
    ensures
        exists|reached: IrModel| #[trigger] lines_read(single, lines.take(count), reached),
    decreases lines.len(),
{
    if count == lines.len() {
        assert(lines.take(count) =~= lines);
    } else {
        let before = choose|before: IrModel|
            lines_read(single, lines.drop_last(), before) && #[trigger] words_read(
                single,
                line_words(lines.last()),
                before,
                model,
            );
        first_lines_read(single, lines.drop_last(), before, count);
        assert(lines.drop_last().take(count) =~= lines.take(count));
    }
}

/// A reader that gives one answer for each text leaves no choice between a
/// plan and an error: a source that reads as a plan stops at no line.
pub proof fn readable_sources_do_not_stop<N: Fn(String) -> Option<u32>>(
    single: N,
    lines: Seq<Seq<char>>,
    model: IrModel,
    done: int,
    message: Seq<char>,
)
    requires
        reader_is_functional(single),
        lines_read(single, lines, model),
    ensures
        !reading_stops(single, lines, done, message),
{
    if reading_stops(single, lines, done, message) {
        let words = line_words(lines[done]);
        let stopped = choose|before: IrModel|
            lines_read(single, lines.take(done), before) && #[trigger] words_fail(
                single,
                words,
                trimmed(uncommented(lines[done])),
                before,
                message,
            );
        first_lines_read(single, lines, model, done + 1);
        let longer = lines.take(done + 1);
        let reached = choose|reached: IrModel| #[trigger] lines_read(single, longer, reached);
        assert(longer.drop_last() =~= lines.take(done));
        assert(longer.last() == lines[done]);
        let before = choose|before: IrModel|
            lines_read(single, longer.drop_last(), before) && #[trigger] words_read(
                single,
                line_words(longer.last()),
                before,
                reached,
            );
        parsing_is_deterministic(single, lines.take(done), stopped, before);
        keywords_differ();
    }
}

/// `single` gives one answer for each text.
pub open spec fn reader_is_functional<N: Fn(String) -> Option<u32>>(single: N) -> bool {
    forall|token: Seq<char>, first: Option<u32>, second: Option<u32>|
        #![trigger single_reads(single, token, first), single_reads(single, token, second)]
        single_reads(single, token, first) && single_reads(single, token, second) ==> first
            == second
}

} // verus!
