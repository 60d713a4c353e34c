//! What a decoder request runs: a search or description of the operation
//! registry, magic suggestions, one operation or a recipe of steps, on an
//! input given as text, Base64 bytes or JSON.
use crate::editor::{base64_decode, base64_standard_decode};
use crate::json_value::JsonValue;
use crate::text::{chars_of, string_from_chars};
use crate::tools::{decoder_operation, normalize_decoder_operation};
use vstd::prelude::*;

verus! {

/// The value a decoder request works on, as given.
#[derive(Debug)]
pub enum UtilityValueInput {
    Text { value: String },
    /// Bytes given in standard Base64.
    Bytes { base64: String },
    Json { value: JsonValue },
}

/// One step of a recipe: an operation and its arguments.
#[derive(Debug)]
pub struct DecoderStepInput {
    pub op: String,
    pub args: JsonValue,
}

#[derive(Debug)]
pub struct DecoderInput {
    pub input: UtilityValueInput,
    pub operation: Option<String>,
    pub args: JsonValue,
    pub query: Option<String>,
    pub describe: Option<String>,
    pub magic: bool,
    pub steps: Vec<DecoderStepInput>,
}

/// A decoder value: text, bytes or JSON.
#[derive(Debug)]
pub enum DataValue {
    Text(String),
    Bytes(Vec<u8>),
    Json(JsonValue),
}

/// `v` is the value `i` gives: its text or JSON as is, its Base64 decoded.
pub open spec fn value_of_input(i: UtilityValueInput, v: DataValue) -> bool {
    match i {
        UtilityValueInput::Text { value } => v matches DataValue::Text(t) && t@ == value@,
        UtilityValueInput::Bytes { base64 } => base64_standard_decode(base64@) matches Ok(b)
            && v matches DataValue::Bytes(w) && w@ == b,
        UtilityValueInput::Json { value } => v == DataValue::Json(value),
    }
}

/// The value a decoder input stands for; Base64 that does not decode is
/// refused with `invalid base64 input: ` and the decoder's message.
pub fn utility_value(input: UtilityValueInput) -> (r: Result<DataValue, String>)
    ensures
        match r {
            Ok(v) => value_of_input(input, v),
            Err(e) => input matches UtilityValueInput::Bytes { base64 } && base64_standard_decode(
                base64@,
            ) matches Err(m) && e@ == "invalid base64 input: "@ + m,
        },
{
    match input {
        UtilityValueInput::Text { value } => Ok(DataValue::Text(value)),
        UtilityValueInput::Bytes { base64 } => match base64_decode(base64.as_str()) {
            Ok(bytes) => Ok(DataValue::Bytes(bytes)),
            Err(m) => {
                let mut e = chars_of("invalid base64 input: ");
                let mc = chars_of(m.as_str());
                e = crate::css_escape::concat_chars(e, mc.as_slice());
                Err(string_from_chars(e.as_slice()))
            },
        },
        UtilityValueInput::Json { value } => Ok(DataValue::Json(value)),
    }
}

/// What a decoder request runs.
#[derive(Debug)]
pub enum DecoderPlan {
    /// Search the operation registry.
    Search(String),
    /// Describe one operation.
    Describe(String),
    /// Suggest operations for the value.
    Magic(DataValue),
    /// Run one operation (by its dotted name) with its arguments.
    Run { operation: String, value: DataValue, args: JsonValue },
    /// Run the steps in turn (operations by their dotted names).
    Recipe { value: DataValue, steps: Vec<(String, JsonValue)> },
    /// The request is refused with this message.
    Refused(String),
}

/// `p` is what the decoder runs for `i`: a query searches and a
/// description describes, before the input is looked at; otherwise the
/// input's value is taken (refused when its Base64 does not decode), then
/// magic suggests, an operation alone runs, steps alone run as a recipe,
/// and both or neither are refused.
pub open spec fn decoder_plan_ok(i: DecoderInput, p: DecoderPlan) -> bool {
    match (i.query, i.describe) {
        (Some(q), _) => p matches DecoderPlan::Search(x) && x@ == q@,
        (None, Some(d)) => p matches DecoderPlan::Describe(x) && x@ == d@,
        (None, None) => match i.input {
            UtilityValueInput::Bytes { base64 } if base64_standard_decode(base64@) is Err => {
                base64_standard_decode(base64@) matches Err(m) && p matches DecoderPlan::Refused(e)
                    && e@ == "invalid base64 input: "@ + m
            },
            _ => if i.magic {
                p matches DecoderPlan::Magic(v) && value_of_input(i.input, v)
            } else {
                match (i.operation, i.steps@.len() == 0) {
                    (Some(op), true) => p matches DecoderPlan::Run { operation, value, args }
                        && operation@ == decoder_operation(op@) && value_of_input(i.input, value)
                        && args == i.args,
                    (None, false) => p matches DecoderPlan::Recipe { value, steps } && value_of_input(
                        i.input,
                        value,
                    ) && steps@.len() == i.steps@.len() && forall|k: int|
                        0 <= k < steps@.len() ==> #[trigger] steps@[k].0@ == decoder_operation(
                            i.steps@[k].op@,
                        ) && steps@[k].1 == i.steps@[k].args,
                    (Some(_), false) => p matches DecoderPlan::Refused(e) && e@
                        == "provide either operation or steps, not both"@,
                    (None, true) => p matches DecoderPlan::Refused(e) && e@
                        == "provide an operation, steps, query, describe, or magic mode"@,
                }
            },
        },
    }
}

fn dotted_name(op: &str) -> (r: String)
    ensures
        r@ == decoder_operation(op@),
{
    let n = normalize_decoder_operation(op);
    string_from_chars(chars_of(n).as_slice())
}

fn text(lit: &str) -> (r: String)
    ensures
        r@ == lit@,
{
    string_from_chars(chars_of(lit).as_slice())
}

/// What the decoder runs for a request (see `decoder_plan_ok`).
pub fn plan_decoder(input: DecoderInput) -> (r: DecoderPlan)
    ensures
        decoder_plan_ok(input, r),
{
    let DecoderInput { input: value_input, operation, args, query, describe, magic, steps } = input;
    if let Some(q) = query {
        return DecoderPlan::Search(q);
    }
    if let Some(d) = describe {
        return DecoderPlan::Describe(d);
    }
    let value = match utility_value(value_input) {
        Ok(v) => v,
        Err(e) => {
            return DecoderPlan::Refused(e);
        },
    };
    if magic {
        return DecoderPlan::Magic(value);
    }
    let no_steps = steps.len() == 0;
    match operation {
        Some(op) => if no_steps {
            DecoderPlan::Run { operation: dotted_name(op.as_str()), value, args }
        } else {
            DecoderPlan::Refused(text("provide either operation or steps, not both"))
        },
        None => if no_steps {
            DecoderPlan::Refused(text("provide an operation, steps, query, describe, or magic mode"))
        } else {
            let mut named: Vec<(String, JsonValue)> = Vec::new();
            let mut rest = steps;
            let ghost all = rest@;
            let n = rest.len();
            let mut k: usize = 0;
            proof {
                assert(all.subrange(0, n as int) =~= all);
            }
            while k < n
                invariant
                    n == all.len(),
                    k <= n,
                    rest@ == all.subrange(k as int, n as int),
                    named@.len() == k,
                    forall|j: int| 0 <= j < k ==> #[trigger] named@[j].0@ == decoder_operation(all[j].op@)
                        && named@[j].1 == all[j].args,
                decreases n - k,
            {
                let step = rest.remove(0);
                proof {
                    assert(step == all[k as int]);
                    assert(rest@ =~= all.subrange(k + 1, n as int));
                }
                let DecoderStepInput { op, args: step_args } = step;
                named.push((dotted_name(op.as_str()), step_args));
                k += 1;
            }
            DecoderPlan::Recipe { value, steps: named }
        },
    }
}

} // verus!
