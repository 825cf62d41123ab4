//! Decisions behind individual commands: the options every command runs
//! with, the state that `lox watch` and `lox if` read, the comparison of
//! `lox if`, the clock shown by `lox watch`, and the line printed for a
//! command's reply.

use vstd::prelude::*;
use crate::config::{chars_equal, spells};
use crate::text::{chars_of, contains_chars, contains_seq, push_str, push_two_digits, string_of, two_digits};

verus! {

/// The global options a command runs with.
pub struct RunContext {
    pub json: bool,
    pub quiet: bool,
    pub csv: bool,
    pub dry_run: bool,
    pub no_header: bool,
    pub trace_id: Option<String>,
}

/// The state keys `lox watch` and `lox if` prefer.
pub open spec fn is_preferred_key(k: Seq<char>) -> bool {
    k == "active"@ || k == "value"@
}

/// The first position from `i` on holding a preferred key.
pub open spec fn first_preferred_from(keys: Seq<Seq<char>>, i: int) -> Option<int>
    decreases keys.len() - i,
{
    if i < 0 || i >= keys.len() {
        None
    } else if is_preferred_key(keys[i]) {
        Some(i)
    } else {
        first_preferred_from(keys, i + 1)
    }
}

/// The primary state of a control: the first of its states keyed `active`
/// or `value`, else its first state; none when it has no states.
pub open spec fn primary_index(keys: Seq<Seq<char>>) -> Option<int> {
    match first_preferred_from(keys, 0) {
        Some(i) => Some(i),
        None => if keys.len() > 0 { Some(0) } else { None },
    }
}

/// The keys of a list of (key, state UUID) pairs.
pub open spec fn state_keys(states: Seq<(String, String)>) -> Seq<Seq<char>> {
    states.map_values(|p: (String, String)| p.0@)
}

/// The position of the primary state among a control's states.
pub fn primary_state(states: &Vec<(String, String)>) -> (r: Option<usize>)
    ensures
        match r {
            Some(i) => primary_index(state_keys(states@)) == Some(i as int),
            None => primary_index(state_keys(states@)) is None,
        },
{
    let n = states.len();
    let ghost keys = state_keys(states@);
    let mut i: usize = 0;
    while i < n
        invariant
            n == states@.len(),
            keys == state_keys(states@),
            i <= n,
            first_preferred_from(keys, 0) == first_preferred_from(keys, i as int),
        decreases n - i,
    {
        let k = chars_of(states[i].0.as_str());
        assert(keys[i as int] == k@);
        if spells(&k, "active") || spells(&k, "value") {
            return Some(i);
        }
        i = i + 1;
    }
    if n > 0 {
        Some(0)
    } else {
        None
    }
}

/// The operators of `lox if`.
#[derive(Debug, PartialEq, Eq, Structural, Clone, Copy)]
pub enum CompareOp {
    Eq,
    Ne,
    Contains,
    Gt,
    Lt,
    Ge,
    Le,
}

/// The operator an operator word names (`eq`/`==`, `ne`/`!=`, `contains`,
/// `gt`/`>`, `lt`/`<`, `ge`/`>=`, `le`/`<=`).
pub open spec fn op_named(op: Seq<char>) -> Option<CompareOp> {
    if op == "eq"@ || op == "=="@ {
        Some(CompareOp::Eq)
    } else if op == "ne"@ || op == "!="@ {
        Some(CompareOp::Ne)
    } else if op == "contains"@ {
        Some(CompareOp::Contains)
    } else if op == "gt"@ || op == ">"@ {
        Some(CompareOp::Gt)
    } else if op == "lt"@ || op == "<"@ {
        Some(CompareOp::Lt)
    } else if op == "ge"@ || op == ">="@ {
        Some(CompareOp::Ge)
    } else if op == "le"@ || op == "<="@ {
        Some(CompareOp::Le)
    } else {
        None
    }
}

/// Reads an operator word.
pub fn parse_op(op: &str) -> (r: Option<CompareOp>)
    ensures
        r == op_named(op@),
{
    let v = chars_of(op);
    if spells(&v, "eq") || spells(&v, "==") {
        Some(CompareOp::Eq)
    } else if spells(&v, "ne") || spells(&v, "!=") {
        Some(CompareOp::Ne)
    } else if spells(&v, "contains") {
        Some(CompareOp::Contains)
    } else if spells(&v, "gt") || spells(&v, ">") {
        Some(CompareOp::Gt)
    } else if spells(&v, "lt") || spells(&v, "<") {
        Some(CompareOp::Lt)
    } else if spells(&v, "ge") || spells(&v, ">=") {
        Some(CompareOp::Ge)
    } else if spells(&v, "le") || spells(&v, "<=") {
        Some(CompareOp::Le)
    } else {
        None
    }
}

/// How the current value and the target compare as numbers: what parsing
/// both as `f64` and comparing them gives (`Unordered` when one is NaN), or
/// which of the two (the current value first) is not a number.
#[derive(Debug, PartialEq, Eq, Structural, Clone, Copy)]
pub enum NumericComparison {
    Less,
    Equal,
    Greater,
    Unordered,
    CurrentNotNumber,
    TargetNotNumber,
}

/// Why a condition could not be evaluated.
#[derive(Debug)]
pub enum EvalError {
    /// The operator word is none of the known ones.
    UnknownOperator { op: String },
    /// A numeric comparison met a text that is not a number.
    NotANumber { text: String },
}

impl EvalError {
    /// The error's message, as the command line prints it.
    pub open spec fn message(&self) -> Seq<char> {
        match self {
            EvalError::UnknownOperator { op } =>
                "Unknown operator '"@ + op@ + "'. Use: eq ne gt lt ge le contains"@,
            EvalError::NotANumber { text } => "Cannot parse '"@ + text@ + "' as number"@,
        }
    }

    /// Renders the message.
    pub fn to_string(&self) -> (s: String)
        ensures
            s@ == self.message(),
    {
        let mut v: Vec<char> = Vec::new();
        match self {
            EvalError::UnknownOperator { op } => {
                push_str(&mut v, "Unknown operator '");
                push_str(&mut v, op.as_str());
                push_str(&mut v, "'. Use: eq ne gt lt ge le contains");
            },
            EvalError::NotANumber { text } => {
                push_str(&mut v, "Cannot parse '");
                push_str(&mut v, text.as_str());
                push_str(&mut v, "' as number");
            },
        }
        string_of(&v)
    }
}

/// The result of a numeric operator for a numeric comparison, or which text
/// failed to parse.
pub open spec fn numeric_outcome(op: CompareOp, n: NumericComparison) -> Result<bool, bool> {
    match n {
        NumericComparison::CurrentNotNumber => Err(true),
        NumericComparison::TargetNotNumber => Err(false),
        _ => Ok(match op {
            CompareOp::Gt => n == NumericComparison::Greater,
            CompareOp::Lt => n == NumericComparison::Less,
            CompareOp::Ge => n == NumericComparison::Greater || n == NumericComparison::Equal,
            _ => n == NumericComparison::Less || n == NumericComparison::Equal,
        }),
    }
}

/// What `current <o> target` gives: the truth value, or, where a numeric
/// operator meets a text that is not a number, `Err(first)` with `first`
/// telling whether that text is the current value (else the target).
pub open spec fn condition_value(current: Seq<char>, o: CompareOp, target: Seq<char>, n: NumericComparison) -> Result<bool, bool> {
    match o {
        CompareOp::Eq => Ok(current == target),
        CompareOp::Ne => Ok(current != target),
        CompareOp::Contains => Ok(contains_seq(current, target)),
        _ => numeric_outcome(o, n),
    }
}

/// A condition's value negated; a failure stays.
pub open spec fn negated(r: Result<bool, bool>) -> Result<bool, bool> {
    match r {
        Ok(b) => Ok(!b),
        Err(e) => Err(e),
    }
}

/// `ne` is the negation of `eq`; where the two numbers are ordered (neither
/// is NaN), `le` is the negation of `gt` and `ge` the negation of `lt`.
pub proof fn law_negated_operators(current: Seq<char>, target: Seq<char>, n: NumericComparison)
    ensures
        condition_value(current, CompareOp::Ne, target, n) == negated(condition_value(current, CompareOp::Eq, target, n)),
        n != NumericComparison::Unordered ==> condition_value(current, CompareOp::Le, target, n)
            == negated(condition_value(current, CompareOp::Gt, target, n)),
        n != NumericComparison::Unordered ==> condition_value(current, CompareOp::Ge, target, n)
            == negated(condition_value(current, CompareOp::Lt, target, n)),
{
}

/// `ge` holds exactly when `gt` holds or the numbers are equal, and `le`
/// exactly when `lt` holds or they are equal.
pub proof fn law_or_equal_operators(current: Seq<char>, target: Seq<char>, n: NumericComparison)
    ensures
        condition_value(current, CompareOp::Ge, target, n) == (match condition_value(current, CompareOp::Gt, target, n) {
            Ok(b) => Ok(b || n == NumericComparison::Equal),
            Err(e) => Err(e),
        }),
        condition_value(current, CompareOp::Le, target, n) == (match condition_value(current, CompareOp::Lt, target, n) {
            Ok(b) => Ok(b || n == NumericComparison::Equal),
            Err(e) => Err(e),
        }),
{
}

/// `m` is how the two numbers compare with their roles swapped: less and
/// greater trade places, equal and unordered stay, and a text that is not
/// a number is reported either way.
pub open spec fn mirrored(n: NumericComparison, m: NumericComparison) -> bool {
    match n {
        NumericComparison::Less => m == NumericComparison::Greater,
        NumericComparison::Greater => m == NumericComparison::Less,
        NumericComparison::Equal => m == NumericComparison::Equal,
        NumericComparison::Unordered => m == NumericComparison::Unordered,
        _ => m == NumericComparison::CurrentNotNumber || m == NumericComparison::TargetNotNumber,
    }
}

/// Swapping the texts mirrors the operator: `c gt t` gives what `t lt c`
/// gives and `c ge t` what `t le c` gives (the same truth value, or a
/// failure on both sides), where the two numeric comparisons mirror each
/// other.
pub proof fn law_mirrored_operators(c: Seq<char>, t: Seq<char>, n: NumericComparison, m: NumericComparison)
    requires
        mirrored(n, m),
    ensures
        condition_value(c, CompareOp::Gt, t, n) is Ok ==> condition_value(c, CompareOp::Gt, t, n) == condition_value(t, CompareOp::Lt, c, m),
        condition_value(c, CompareOp::Gt, t, n) is Err <==> condition_value(t, CompareOp::Lt, c, m) is Err,
        condition_value(c, CompareOp::Ge, t, n) is Ok ==> condition_value(c, CompareOp::Ge, t, n) == condition_value(t, CompareOp::Le, c, m),
        condition_value(c, CompareOp::Ge, t, n) is Err <==> condition_value(t, CompareOp::Le, c, m) is Err,
{
}

/// Evaluates `current <op> target`. `eq`, `ne` and `contains` compare the
/// texts; `gt`, `lt`, `ge`, `le` compare them as numbers, as `numeric`
/// reports, and fail on the first text that is not a number.
pub fn eval_op(current: &str, op: &str, target: &str, numeric: NumericComparison) -> (r: Result<bool, EvalError>)
    ensures
        match op_named(op@) {
            None => r matches Err(EvalError::UnknownOperator { op: o }) && o@ == op@,
            Some(o) => match condition_value(current@, o, target@, numeric) {
                Ok(b) => r == Ok::<bool, EvalError>(b),
                Err(first) => r matches Err(EvalError::NotANumber { text })
                    && text@ == (if first { current@ } else { target@ }),
            },
        },
{
    let c = chars_of(current);
    let t = chars_of(target);
    match parse_op(op) {
        None => Err(EvalError::UnknownOperator { op: op.to_owned() }),
        Some(CompareOp::Eq) => Ok(chars_equal(&c, &t)),
        Some(CompareOp::Ne) => Ok(!chars_equal(&c, &t)),
        Some(CompareOp::Contains) => Ok(contains_chars(&c, &t)),
        Some(o) => match numeric {
            NumericComparison::CurrentNotNumber => Err(EvalError::NotANumber { text: current.to_owned() }),
            NumericComparison::TargetNotNumber => Err(EvalError::NotANumber { text: target.to_owned() }),
            _ => Ok(match o {
                CompareOp::Gt => numeric == NumericComparison::Greater,
                CompareOp::Lt => numeric == NumericComparison::Less,
                CompareOp::Ge => numeric == NumericComparison::Greater || numeric == NumericComparison::Equal,
                _ => numeric == NumericComparison::Less || numeric == NumericComparison::Equal,
            }),
        },
    }
}

/// The time of day (UTC) `secs` seconds after the epoch, as `HH:MM:SS`.
pub open spec fn clock_text(secs: nat) -> Seq<char> {
    two_digits((secs % 86400) / 3600) + seq![':'] + two_digits((secs % 3600) / 60) + seq![':'] + two_digits(secs % 60)
}

/// Renders `clock_text` for a timestamp (seconds since the Unix epoch).
pub fn chrono_now(secs: u64) -> (s: String)
    ensures
        s@ == clock_text(secs as nat),
{
    let mut v: Vec<char> = Vec::new();
    push_two_digits(&mut v, (secs % 86400) / 3600);
    v.push(':');
    push_two_digits(&mut v, (secs % 3600) / 60);
    v.push(':');
    push_two_digits(&mut v, secs % 60);
    string_of(&v)
}

/// The line printed for a reply to a command: a check mark when the reply's
/// code is `200` (a cross otherwise), the control, the command and the
/// reply's value (`?` where the reply lacks one).
pub open spec fn response_text(name: Seq<char>, cmd: Seq<char>, value: Option<Seq<char>>, code: Option<Seq<char>>) -> Seq<char> {
    let icon = if code == Some("200"@) { "✓"@ } else { "✗"@ };
    let val = match value { Some(v) => v, None => "?"@ };
    icon + "  "@ + name + " → "@ + cmd + " = "@ + val
}

/// Renders `response_text`.
pub fn response_line(name: &str, cmd: &str, value: Option<&str>, code: Option<&str>) -> (s: String)
    ensures
        s@ == response_text(name@, cmd@, match value { Some(v) => Some(v@), None => None },
            match code { Some(c) => Some(c@), None => None }),
{
    let ok = match code {
        Some(c) => {
            let cv = chars_of(c);
            spells(&cv, "200")
        },
        None => false,
    };
    let mut v: Vec<char> = Vec::new();
    if ok {
        push_str(&mut v, "✓");
    } else {
        push_str(&mut v, "✗");
    }
    push_str(&mut v, "  ");
    push_str(&mut v, name);
    push_str(&mut v, " → ");
    push_str(&mut v, cmd);
    push_str(&mut v, " = ");
    match value {
        Some(x) => push_str(&mut v, x),
        None => push_str(&mut v, "?"),
    }
    string_of(&v)
}

} // verus!
