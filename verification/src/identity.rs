//! The content address of a compiled plan.
//!
//! A plan's address is that of a JSON document which lists its segments, with
//! operands as bit patterns. Different segments give different documents.
use crate::digest::address_of_json;
use crate::digest::{
    addresses_tell_canonical_forms_apart, canonical_json, json_address, sha256_digest,
};
use crate::ops::ExecuteError;
use crate::plan::SegmentModel;
use crate::plan::{CompiledPlan, PlanSegment};
use crate::text::push_decimal;
use crate::text::{decimal, digit, digit_is_injective};
use vstd::prelude::*;
use vstd::string::StringExecFns;
use vstd::utf8::{encode_utf8, encode_utf8_decode_utf8};

verus! {

/// The numbers separated by commas.
pub open spec fn operands_text(operands: Seq<u32>) -> Seq<char>
    decreases operands.len(),
{
    if operands.len() == 0 {
        Seq::empty()
    } else if operands.len() == 1 {
        decimal(operands[0] as nat)
    } else {
        operands_text(operands.drop_last()) + ","@ + decimal(operands.last() as nat)
    }
}

/// How the entry of a segment begins.
pub open spec fn segment_head(segment: SegmentModel) -> Seq<char> {
    match segment {
        SegmentModel::Builtin { .. } => "{\"kind\":\"builtin\",\"operands\":["@,
        SegmentModel::Plugin { .. } => "{\"kind\":\"plugin\",\"index\":"@,
        SegmentModel::Matmul { .. } => "{\"kind\":\"matmul\",\"index\":"@,
        SegmentModel::MatmulAct { .. } => "{\"kind\":\"matmul_act\",\"index\":"@,
    }
}

/// How the entry of a segment goes on.
pub open spec fn segment_tail(segment: SegmentModel) -> Seq<char> {
    match segment {
        SegmentModel::Builtin { operands } => operands_text(operands) + "]}"@,
        SegmentModel::Plugin { index } => decimal(index as nat) + "}"@,
        SegmentModel::Matmul { index, m, k, n } => decimal(index as nat) + (",\"m\":"@ + (decimal(
            m as nat,
        ) + (",\"k\":"@ + (decimal(k as nat) + (",\"n\":"@ + (decimal(n as nat) + "}"@)))))),
        SegmentModel::MatmulAct { index, m, k, n, activation } => decimal(index as nat) + (
        ",\"m\":"@ + (decimal(m as nat) + (",\"k\":"@ + (decimal(k as nat) + (",\"n\":"@ + (decimal(
            n as nat,
        ) + (",\"activation\":"@ + (decimal(activation as nat) + "}"@)))))))),
    }
}

/// The entry of a segment.
pub open spec fn segment_text(segment: SegmentModel) -> Seq<char> {
    segment_head(segment) + segment_tail(segment)
}

/// The entries separated by commas.
pub open spec fn segments_text(segments: Seq<SegmentModel>) -> Seq<char>
    decreases segments.len(),
{
    if segments.len() == 0 {
        Seq::empty()
    } else if segments.len() == 1 {
        segment_text(segments[0])
    } else {
        segments_text(segments.drop_last()) + ","@ + segment_text(segments.last())
    }
}

/// The document that stands for a plan.
pub open spec fn plan_text(segments: Seq<SegmentModel>) -> Seq<char> {
    "{\"format\":\"native-machine-plan\",\"version\":1,\"segments\":["@ + segments_text(segments)
        + "]}"@
}

/// The document's bytes.
pub open spec fn plan_document(segments: Seq<SegmentModel>) -> Seq<u8> {
    encode_utf8(plan_text(segments))
}

/// Appends the numbers separated by commas.
fn push_operands(text: &mut String, operands: &[u32])
    ensures
        final(text)@ == old(text)@ + operands_text(operands@),
{
    let mut index: usize = 0;
    let ghost before = text@;
    while index < operands.len()
        invariant
            index <= operands@.len(),
            text@ == before + operands_text(operands@.take(index as int)),
        decreases operands@.len() - index,
    {
        let ghost held = text@;
        if index > 0 {
            text.append(",");
        }
        push_decimal(text, operands[index] as u64);
        index += 1;
        proof {
            let longer = operands@.take(index as int);
            assert(longer.drop_last() =~= operands@.take(index - 1));
            assert(longer.last() == operands@[index - 1]);
            assert(text@ =~= before + operands_text(longer));
        }
    }
    assert(operands@.take(index as int) =~= operands@);
}

/// Concatenation is associative.
proof fn regroup(first: Seq<char>, second: Seq<char>, third: Seq<char>)
    ensures
        (first + second) + third == first + (second + third),
{
    assert((first + second) + third =~= first + (second + third));
}

/// Appends a label and a number.
fn push_field(text: &mut String, label: &str, value: u64)
    ensures
        final(text)@ == old(text)@ + (label@ + decimal(value as nat)),
{
    text.append(label);
    push_decimal(text, value);
    proof {
        regroup(old(text)@, label@, decimal(value as nat));
    }
}

/// A text that ends in a labelled number, followed by `rest`, is the text
/// before the number followed by the label, the number and `rest`.
proof fn regroup_field(front: Seq<char>, label: Seq<char>, number: Seq<char>, rest: Seq<char>)
    ensures
        (front + (label + number)) + rest == front + (label + (number + rest)),
{
    regroup(front, label + number, rest);
    regroup(label, number, rest);
}

/// Appends the entry of a matmul segment.
fn push_matmul(text: &mut String, index: u16, m: u32, k: u32, n: u32)
    ensures
        final(text)@ == old(text)@ + segment_text(SegmentModel::Matmul { index, m, k, n }),
{
    push_field(text, "{\"kind\":\"matmul\",\"index\":", index as u64);
    let ghost first = text@;
    push_field(text, ",\"m\":", m as u64);
    let ghost second = text@;
    push_field(text, ",\"k\":", k as u64);
    let ghost third = text@;
    push_field(text, ",\"n\":", n as u64);
    text.append("}");
    proof {
        let end = "}"@;
        let n_part = decimal(n as nat) + end;
        let k_part = decimal(k as nat) + (",\"n\":"@ + n_part);
        let m_part = decimal(m as nat) + (",\"k\":"@ + k_part);
        let head = "{\"kind\":\"matmul\",\"index\":"@;
        regroup_field(third, ",\"n\":"@, decimal(n as nat), end);
        regroup_field(second, ",\"k\":"@, decimal(k as nat), ",\"n\":"@ + n_part);
        regroup_field(first, ",\"m\":"@, decimal(m as nat), ",\"k\":"@ + k_part);
        regroup_field(old(text)@, head, decimal(index as nat), ",\"m\":"@ + m_part);
    }
}

/// Appends the entry of a fused matmul segment.
fn push_matmul_act(text: &mut String, index: u16, m: u16, k: u16, n: u16, activation: u16)
    ensures
        final(text)@ == old(text)@ + segment_text(
            SegmentModel::MatmulAct { index, m, k, n, activation },
        ),
{
    push_field(text, "{\"kind\":\"matmul_act\",\"index\":", index as u64);
    let ghost first = text@;
    push_field(text, ",\"m\":", m as u64);
    let ghost second = text@;
    push_field(text, ",\"k\":", k as u64);
    let ghost third = text@;
    push_field(text, ",\"n\":", n as u64);
    let ghost fourth = text@;
    push_field(text, ",\"activation\":", activation as u64);
    text.append("}");
    proof {
        let end = "}"@;
        let act_part = decimal(activation as nat) + end;
        let n_part = decimal(n as nat) + (",\"activation\":"@ + act_part);
        let k_part = decimal(k as nat) + (",\"n\":"@ + n_part);
        let m_part = decimal(m as nat) + (",\"k\":"@ + k_part);
        let head = "{\"kind\":\"matmul_act\",\"index\":"@;
        regroup_field(fourth, ",\"activation\":"@, decimal(activation as nat), end);
        regroup_field(third, ",\"n\":"@, decimal(n as nat), ",\"activation\":"@ + act_part);
        regroup_field(second, ",\"k\":"@, decimal(k as nat), ",\"n\":"@ + n_part);
        regroup_field(first, ",\"m\":"@, decimal(m as nat), ",\"k\":"@ + k_part);
        regroup_field(old(text)@, head, decimal(index as nat), ",\"m\":"@ + m_part);
    }
}

/// Appends the entry of a segment.
fn push_segment(text: &mut String, segment: &PlanSegment)
    requires
        segment.well_formed(),
    ensures
        final(text)@ == old(text)@ + segment_text(segment.model()),
{
    match segment {
        PlanSegment::Builtin { operands, count } => {
            let run: &[u32] = &operands[0..*count];
            assert(run@ =~= segment.model()->operands);
            text.append("{\"kind\":\"builtin\",\"operands\":[");
            push_operands(text, run);
            text.append("]}");
            proof {
                let head = "{\"kind\":\"builtin\",\"operands\":["@;
                regroup_field(old(text)@, head, operands_text(run@), "]}"@);
                regroup(old(text)@, head, operands_text(run@));
            }
        },
        PlanSegment::Plugin { index } => {
            push_field(text, "{\"kind\":\"plugin\",\"index\":", *index as u64);
            text.append("}");
            proof {
                let head = "{\"kind\":\"plugin\",\"index\":"@;
                regroup_field(old(text)@, head, decimal(*index as nat), "}"@);
            }
        },
        PlanSegment::Matmul { index, m, k, n } => push_matmul(text, *index, *m, *k, *n),
        PlanSegment::MatmulAct { index, m, k, n, activation } => push_matmul_act(
            text,
            *index,
            *m,
            *k,
            *n,
            *activation,
        ),
    }
}

/// What an addressing outcome means for the plan identity.
pub fn plan_identity_of_outcome(outcome: Result<String, String>) -> (result: Result<
    String,
    ExecuteError,
>)
    ensures
        match outcome {
            Ok(label) => result == Ok::<_, ExecuteError>(label),
            Err(failure) => result == Err::<String, _>(ExecuteError::Identity(failure)),
        },
{
    match outcome {
        Ok(label) => Ok(label),
        Err(failure) => Err(ExecuteError::Identity(failure)),
    }
}

impl CompiledPlan {
    /// The document that stands for the plan.
    pub fn document(&self) -> (text: String)
        requires
            self.well_formed(),
        ensures
            text@ == plan_text(self.model().segments),
    {
        let mut text = String::from_str(
            "{\"format\":\"native-machine-plan\",\"version\":1,\"segments\":[",
        );
        let segments: &[PlanSegment] = self.segments();
        let ghost model = self.model().segments;
        let ghost before = text@;
        let mut index: usize = 0;
        while index < segments.len()
            invariant
                segments@.len() == model.len(),
                forall|i: int|
                    0 <= i < segments@.len() ==> (#[trigger] segments@[i]).well_formed()
                        && segments@[i].model() == model[i],
                index <= segments@.len(),
                text@ == before + segments_text(model.take(index as int)),
            decreases segments@.len() - index,
        {
            if index > 0 {
                text.append(",");
            }
            push_segment(&mut text, &segments[index]);
            index += 1;
            proof {
                let longer = model.take(index as int);
                assert(longer.drop_last() =~= model.take(index - 1));
                assert(longer.last() == model[index - 1]);
                assert(text@ =~= before + segments_text(longer));
            }
        }
        assert(model.take(index as int) =~= model);
        text.append("]}");
        text
    }

    /// The canonical address of the plan, derived from the segment kinds and
    /// operand bit patterns. Computed on demand; never on the hot path.
    pub fn identity(&self) -> (result: Result<String, ExecuteError>)
        requires
            self.well_formed(),
        ensures
            match (result, json_address(plan_document(self.model().segments))) {
                (Ok(label), Ok(named)) => label@ == named,
                (Err(ExecuteError::Identity(failure)), Err(named)) => failure@ == named,
                _ => false,
            },
    {
        let text = self.document();
        plan_identity_of_outcome(address_of_json(text.as_str().as_bytes()))
    }
}

/// The character is one of the ten decimal digits.
pub open spec fn is_digit(character: char) -> bool {
    '0' <= character <= '9'
}

/// Decimal numbers are digits, at least one.
proof fn decimal_is_digits(value: nat)
    ensures
        decimal(value).len() > 0,
        forall|i: int| 0 <= i < decimal(value).len() ==> is_digit(#[trigger] decimal(value)[i]),
    decreases value,
{
    if value >= 10 {
        decimal_is_digits(value / 10);
    }
}

/// Different numbers have different digits.
pub proof fn decimal_is_injective(first: nat, second: nat)
    requires
        decimal(first) == decimal(second),
    ensures
        first == second,
    decreases first,
{
    decimal_is_digits(first / 10);
    decimal_is_digits(second / 10);
    assert(decimal(first).last() == digit((first % 10) as int));
    assert(decimal(second).last() == digit((second % 10) as int));
    digit_is_injective((first % 10) as int, (second % 10) as int);
    if first >= 10 && second >= 10 {
        assert(decimal(first).drop_last() =~= decimal(first / 10));
        assert(decimal(second).drop_last() =~= decimal(second / 10));
        decimal_is_injective(first / 10, second / 10);
    }
}

/// A number is read off the front of a text as far as the digits go.
proof fn leading_number(first: nat, rest: Seq<char>, second: nat, other: Seq<char>)
    requires
        decimal(first) + rest == decimal(second) + other,
        rest.len() > 0 && !is_digit(rest[0]),
        other.len() > 0 && !is_digit(other[0]),
    ensures
        first == second,
        rest == other,
{
    let one = decimal(first);
    let two = decimal(second);
    decimal_is_digits(first);
    decimal_is_digits(second);
    if one.len() < two.len() {
        assert((one + rest)[one.len() as int] == rest[0]);
        assert((two + other)[one.len() as int] == two[one.len() as int]);
        assert(false);
    }
    if two.len() < one.len() {
        assert((two + other)[two.len() as int] == other[0]);
        assert((one + rest)[two.len() as int] == one[two.len() as int]);
        assert(false);
    }
    split_at_length(one, rest, two, other);
    decimal_is_injective(first, second);
}

/// Equal texts with fronts of equal length have equal fronts and equal rests.
proof fn split_at_length(front: Seq<char>, rest: Seq<char>, other_front: Seq<char>, other: Seq<char>)
    requires
        front + rest == other_front + other,
        front.len() == other_front.len(),
    ensures
        front == other_front,
        rest == other,
{
    let whole = front + rest;
    let same = other_front + other;
    assert(front =~= whole.take(front.len() as int));
    assert(other_front =~= same.take(front.len() as int));
    assert(rest =~= whole.skip(front.len() as int));
    assert(other =~= same.skip(front.len() as int));
}

/// `mark` occurs in the text at its very beginning and nowhere else.
spec fn marked(text: Seq<char>, mark: char) -> bool {
    &&& text.len() > 0
    &&& text[0] == mark
    &&& forall|i: int| 1 <= i < text.len() ==> #[trigger] text[i] != mark
}

/// The last mark of a text tells where its last piece begins.
proof fn last_piece(
    front: Seq<char>,
    piece: Seq<char>,
    other_front: Seq<char>,
    other: Seq<char>,
    mark: char,
)
    requires
        front + piece == other_front + other,
        marked(piece, mark),
        marked(other, mark),
    ensures
        front == other_front,
        piece == other,
{
    let whole = front + piece;
    let same = other_front + other;
    assert(whole.len() == front.len() + piece.len());
    assert(same.len() == other_front.len() + other.len());
    if front.len() < other_front.len() {
        let at = other_front.len() as int;
        assert(same[at] == other[0]);
        assert(whole[at] == piece[at - front.len()]);
        assert(false);
    }
    if other_front.len() < front.len() {
        let at = front.len() as int;
        assert(whole[at] == piece[0]);
        assert(same[at] == other[at - other_front.len()]);
        assert(false);
    }
    split_at_length(front, piece, other_front, other);
}

/// Lists of numbers are digits and commas.
proof fn operands_text_has_no_brackets(operands: Seq<u32>)
    ensures
        forall|i: int|
            0 <= i < operands_text(operands).len() ==> is_digit(
                #[trigger] operands_text(operands)[i],
            ) || operands_text(operands)[i] == ',',
        operands.len() > 0 ==> operands_text(operands).len() > 0,
    decreases operands.len(),
{
    reveal_strlit(",");
    if operands.len() == 1 {
        decimal_is_digits(operands[0] as nat);
    } else if operands.len() > 1 {
        operands_text_has_no_brackets(operands.drop_last());
        decimal_is_digits(operands.last() as nat);
    }
}

/// Different lists of numbers have different texts.
proof fn operands_text_is_injective(first: Seq<u32>, second: Seq<u32>)
    requires
        operands_text(first) == operands_text(second),
    ensures
        first == second,
    decreases first.len(),
{
    reveal_strlit(",");
    operands_text_has_no_brackets(first);
    operands_text_has_no_brackets(second);
    if first.len() == 0 || second.len() == 0 {
        assert(first =~= second);
    } else {
        let one = decimal(first.last() as nat);
        let two = decimal(second.last() as nat);
        decimal_is_digits(first.last() as nat);
        decimal_is_digits(second.last() as nat);
        if first.len() == 1 && second.len() == 1 {
            decimal_is_injective(first[0] as nat, second[0] as nat);
            assert(first =~= second);
        } else if first.len() == 1 {
            let at = operands_text(second.drop_last()).len() as int;
            assert(operands_text(second)[at] == ',');
            assert(is_digit(one[at]));
            assert(false);
        } else if second.len() == 1 {
            let at = operands_text(first.drop_last()).len() as int;
            assert(operands_text(first)[at] == ',');
            assert(is_digit(two[at]));
            assert(false);
        } else {
            let front = operands_text(first.drop_last());
            let other = operands_text(second.drop_last());
            assert(front + (","@ + one) =~= operands_text(first));
            assert(other + (","@ + two) =~= operands_text(second));
            last_piece(front, ","@ + one, other, ","@ + two, ',');
            split_at_length(","@, one, ","@, two);
            decimal_is_injective(first.last() as nat, second.last() as nat);
            operands_text_is_injective(first.drop_last(), second.drop_last());
            assert(first =~= first.drop_last().push(first.last()));
            assert(second =~= second.drop_last().push(second.last()));
        }
    }
}

/// The fixed parts of the entries.
proof fn literals()
    ensures
        marked("{\"kind\":\"builtin\",\"operands\":["@, '{'),
        marked("{\"kind\":\"plugin\",\"index\":"@, '{'),
        marked("{\"kind\":\"matmul\",\"index\":"@, '{'),
        marked("{\"kind\":\"matmul_act\",\"index\":"@, '{'),
        "{\"kind\":\"builtin\",\"operands\":["@.len() > 15,
        "{\"kind\":\"plugin\",\"index\":"@.len() > 15,
        "{\"kind\":\"matmul\",\"index\":"@.len() > 15,
        "{\"kind\":\"matmul_act\",\"index\":"@.len() > 15,
        "{\"kind\":\"builtin\",\"operands\":["@[9] == 'b',
        "{\"kind\":\"plugin\",\"index\":"@[9] == 'p',
        "{\"kind\":\"matmul\",\"index\":"@[9] == 'm',
        "{\"kind\":\"matmul_act\",\"index\":"@[9] == 'm',
        "{\"kind\":\"matmul\",\"index\":"@[15] == '"',
        "{\"kind\":\"matmul_act\",\"index\":"@[15] == '_',
        marked(",\"m\":"@, ','),
        marked(",\"k\":"@, ','),
        marked(",\"n\":"@, ','),
        marked(",\"activation\":"@, ','),
        forall|i: int| 0 <= i < ",\"m\":"@.len() ==> #[trigger] ",\"m\":"@[i] != '{',
        forall|i: int| 0 <= i < ",\"k\":"@.len() ==> #[trigger] ",\"k\":"@[i] != '{',
        forall|i: int| 0 <= i < ",\"n\":"@.len() ==> #[trigger] ",\"n\":"@[i] != '{',
        forall|i: int|
            0 <= i < ",\"activation\":"@.len() ==> #[trigger] ",\"activation\":"@[i] != '{',
        "}"@ == seq!['}'],
        "]}"@ == seq![']', '}'],
        ","@ == seq![','],
{
    reveal_strlit("{\"kind\":\"builtin\",\"operands\":[");
    reveal_strlit("{\"kind\":\"plugin\",\"index\":");
    reveal_strlit("{\"kind\":\"matmul\",\"index\":");
    reveal_strlit("{\"kind\":\"matmul_act\",\"index\":");
    reveal_strlit(",\"m\":");
    reveal_strlit(",\"k\":");
    reveal_strlit(",\"n\":");
    reveal_strlit(",\"activation\":");
    reveal_strlit("}");
    reveal_strlit("]}");
    reveal_strlit(",");
    assert("}"@ =~= seq!['}']);
    assert("]}"@ =~= seq![']', '}']);
    assert(","@ =~= seq![',']);
}

/// The entry of a segment begins with a brace and holds no other that opens.
proof fn segment_text_is_marked(segment: SegmentModel)
    ensures
        marked(segment_text(segment), '{'),
{
    literals();
    let head = segment_head(segment);
    let tail = segment_tail(segment);
    assert forall|i: int| 0 <= i < tail.len() implies #[trigger] tail[i] != '{' by {
        match segment {
            SegmentModel::Builtin { operands } => {
                operands_text_has_no_brackets(operands);
            },
            SegmentModel::Plugin { index } => {
                decimal_is_digits(index as nat);
            },
            SegmentModel::Matmul { index, m, k, n } => {
                decimal_is_digits(index as nat);
                decimal_is_digits(m as nat);
                decimal_is_digits(k as nat);
                decimal_is_digits(n as nat);
            },
            SegmentModel::MatmulAct { index, m, k, n, activation } => {
                decimal_is_digits(index as nat);
                decimal_is_digits(m as nat);
                decimal_is_digits(k as nat);
                decimal_is_digits(n as nat);
                decimal_is_digits(activation as nat);
            },
        }
    }
    assert forall|i: int| 1 <= i < segment_text(segment).len() implies #[trigger] segment_text(
        segment,
    )[i] != '{' by {
        if i >= head.len() {
            assert(segment_text(segment)[i] == tail[i - head.len()]);
        } else {
            assert(segment_text(segment)[i] == head[i]);
        }
    }
}

/// Different segments have different entries.
pub proof fn segment_text_is_injective(first: SegmentModel, second: SegmentModel)
    requires
        segment_text(first) == segment_text(second),
    ensures
        first == second,
{
    literals();
    assert(segment_text(first)[9] == segment_head(first)[9]);
    assert(segment_text(second)[9] == segment_head(second)[9]);
    assert(segment_text(first)[15] == segment_head(first)[15]);
    assert(segment_text(second)[15] == segment_head(second)[15]);
    let end = "}"@;
    match (first, second) {
        (
            SegmentModel::Builtin { operands },
            SegmentModel::Builtin { operands: others },
        ) => {
            let head = segment_head(first);
            split_at_length(head, segment_tail(first), head, segment_tail(second));
            split_at_length(
                operands_text(operands),
                "]}"@,
                operands_text(others),
                "]}"@,
            );
            operands_text_is_injective(operands, others);
        },
        (SegmentModel::Plugin { index }, SegmentModel::Plugin { index: other }) => {
            let head = segment_head(first);
            split_at_length(head, segment_tail(first), head, segment_tail(second));
            leading_number(index as nat, end, other as nat, end);
        },
        (
            SegmentModel::Matmul { index, m, k, n },
            SegmentModel::Matmul { index: other, m: other_m, k: other_k, n: other_n },
        ) => {
            let head = segment_head(first);
            split_at_length(head, segment_tail(first), head, segment_tail(second));
            let n_part = decimal(n as nat) + end;
            let n_other = decimal(other_n as nat) + end;
            let k_part = decimal(k as nat) + (",\"n\":"@ + n_part);
            let k_other = decimal(other_k as nat) + (",\"n\":"@ + n_other);
            let m_part = decimal(m as nat) + (",\"k\":"@ + k_part);
            let m_other = decimal(other_m as nat) + (",\"k\":"@ + k_other);
            leading_number(index as nat, ",\"m\":"@ + m_part, other as nat, ",\"m\":"@ + m_other);
            split_at_length(",\"m\":"@, m_part, ",\"m\":"@, m_other);
            leading_number(m as nat, ",\"k\":"@ + k_part, other_m as nat, ",\"k\":"@ + k_other);
            split_at_length(",\"k\":"@, k_part, ",\"k\":"@, k_other);
            leading_number(k as nat, ",\"n\":"@ + n_part, other_k as nat, ",\"n\":"@ + n_other);
            split_at_length(",\"n\":"@, n_part, ",\"n\":"@, n_other);
            leading_number(n as nat, end, other_n as nat, end);
        },
        (
            SegmentModel::MatmulAct { index, m, k, n, activation },
            SegmentModel::MatmulAct {
                index: other,
                m: other_m,
                k: other_k,
                n: other_n,
                activation: other_activation,
            },
        ) => {
            let head = segment_head(first);
            split_at_length(head, segment_tail(first), head, segment_tail(second));
            let act_part = decimal(activation as nat) + end;
            let act_other = decimal(other_activation as nat) + end;
            let n_part = decimal(n as nat) + (",\"activation\":"@ + act_part);
            let n_other = decimal(other_n as nat) + (",\"activation\":"@ + act_other);
            let k_part = decimal(k as nat) + (",\"n\":"@ + n_part);
            let k_other = decimal(other_k as nat) + (",\"n\":"@ + n_other);
            let m_part = decimal(m as nat) + (",\"k\":"@ + k_part);
            let m_other = decimal(other_m as nat) + (",\"k\":"@ + k_other);
            leading_number(index as nat, ",\"m\":"@ + m_part, other as nat, ",\"m\":"@ + m_other);
            split_at_length(",\"m\":"@, m_part, ",\"m\":"@, m_other);
            leading_number(m as nat, ",\"k\":"@ + k_part, other_m as nat, ",\"k\":"@ + k_other);
            split_at_length(",\"k\":"@, k_part, ",\"k\":"@, k_other);
            leading_number(k as nat, ",\"n\":"@ + n_part, other_k as nat, ",\"n\":"@ + n_other);
            split_at_length(",\"n\":"@, n_part, ",\"n\":"@, n_other);
            leading_number(
                n as nat,
                ",\"activation\":"@ + act_part,
                other_n as nat,
                ",\"activation\":"@ + act_other,
            );
            split_at_length(",\"activation\":"@, act_part, ",\"activation\":"@, act_other);
            leading_number(activation as nat, end, other_activation as nat, end);
        },
        _ => {
            assert(false);
        },
    }
}

/// Different segment lists have different entry lists.
proof fn segments_text_is_injective(first: Seq<SegmentModel>, second: Seq<SegmentModel>)
    requires
        segments_text(first) == segments_text(second),
    ensures
        first == second,
    decreases first.len(),
{
    literals();
    if first.len() > 0 {
        segment_text_is_marked(first.last());
    }
    if second.len() > 0 {
        segment_text_is_marked(second.last());
    }
    if first.len() == 0 || second.len() == 0 {
        assert(first =~= second);
    } else {
        let one = segment_text(first.last());
        let two = segment_text(second.last());
        let front = if first.len() == 1 {
            Seq::empty()
        } else {
            segments_text(first.drop_last()) + ","@
        };
        let other = if second.len() == 1 {
            Seq::empty()
        } else {
            segments_text(second.drop_last()) + ","@
        };
        assert(front + one =~= segments_text(first));
        assert(other + two =~= segments_text(second));
        last_piece(front, one, other, two, '{');
        segment_text_is_injective(first.last(), second.last());
        if first.len() > 1 && second.len() > 1 {
            let shorter = segments_text(first.drop_last());
            let same = segments_text(second.drop_last());
            assert(front.len() == shorter.len() + 1);
            assert(other.len() == same.len() + 1);
            split_at_length(shorter, ","@, same, ","@);
            segments_text_is_injective(first.drop_last(), second.drop_last());
        } else {
            assert(front.len() == other.len());
            assert(first.drop_last() =~= second.drop_last());
        }
        assert(first =~= first.drop_last().push(first.last()));
        assert(second =~= second.drop_last().push(second.last()));
    }
}

/// Plans with different segments have different documents, byte for byte, so
/// an address speaks for the segments it was derived from.
pub proof fn plan_documents_are_unique(first: Seq<SegmentModel>, second: Seq<SegmentModel>)
    requires
        plan_document(first) == plan_document(second),
    ensures
        first == second,
{
    encode_utf8_decode_utf8(plan_text(first));
    encode_utf8_decode_utf8(plan_text(second));
    plan_text_is_injective(first, second);
}

/// The address of a plan is that of its segments: plans that differ in nothing
/// but their lengths share it, and plans with different segments, whose
/// documents differ, share it only where canonical forms or digests coincide.
pub proof fn plan_addresses_follow_segments(first: Seq<SegmentModel>, second: Seq<SegmentModel>)
    requires
        canonical_json(plan_document(first)) is Some,
        canonical_json(plan_document(second)) is Some,
    ensures
        first == second ==> json_address(plan_document(first)) == json_address(
            plan_document(second),
        ),
        first != second ==> plan_document(first) != plan_document(second),
        json_address(plan_document(first)) == json_address(plan_document(second))
            <==> sha256_digest(canonical_json(plan_document(first))->Some_0) == sha256_digest(
            canonical_json(plan_document(second))->Some_0,
        ),
{
    if plan_document(first) == plan_document(second) {
        plan_documents_are_unique(first, second);
    }
    addresses_tell_canonical_forms_apart(plan_document(first), plan_document(second));
}

/// Plans with different segments have different texts.
proof fn plan_text_is_injective(first: Seq<SegmentModel>, second: Seq<SegmentModel>)
    requires
        plan_text(first) == plan_text(second),
    ensures
        first == second,
{
    let head = "{\"format\":\"native-machine-plan\",\"version\":1,\"segments\":["@;
    let one = segments_text(first);
    let two = segments_text(second);
    assert(plan_text(first).len() == head.len() + one.len() + "]}"@.len());
    assert(plan_text(second).len() == head.len() + two.len() + "]}"@.len());
    split_at_length(head + one, "]}"@, head + two, "]}"@);
    split_at_length(head, one, head, two);
    segments_text_is_injective(first, second);
}

} // verus!
