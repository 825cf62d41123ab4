use lox::cli::{
    chrono_now, eval_op, parse_op, primary_state, response_line, CompareOp, EvalError,
    NumericComparison, RunContext,
};

fn numeric(current: &str, target: &str) -> NumericComparison {
    let c = match current.parse::<f64>() {
        Ok(v) => v,
        Err(_) => return NumericComparison::CurrentNotNumber,
    };
    let t = match target.parse::<f64>() {
        Ok(v) => v,
        Err(_) => return NumericComparison::TargetNotNumber,
    };
    if c < t {
        NumericComparison::Less
    } else if c == t {
        NumericComparison::Equal
    } else if c > t {
        NumericComparison::Greater
    } else {
        NumericComparison::Unordered
    }
}

fn eval(current: &str, op: &str, target: &str) -> Result<bool, EvalError> {
    eval_op(current, op, target, numeric(current, target))
}

#[test]
fn operator_words() {
    assert_eq!(parse_op("eq"), Some(CompareOp::Eq));
    assert_eq!(parse_op("=="), Some(CompareOp::Eq));
    assert_eq!(parse_op("!="), Some(CompareOp::Ne));
    assert_eq!(parse_op("contains"), Some(CompareOp::Contains));
    assert_eq!(parse_op(">="), Some(CompareOp::Ge));
    assert_eq!(parse_op("le"), Some(CompareOp::Le));
    assert_eq!(parse_op("EQ"), None);
    assert_eq!(parse_op(""), None);
}

#[test]
fn text_comparisons() {
    assert!(eval("1", "eq", "1").unwrap());
    assert!(!eval("1", "eq", "1.0").unwrap());
    assert!(eval("1", "ne", "1.0").unwrap());
    assert!(eval("Hello world", "contains", "lo w").unwrap());
    assert!(!eval("Hello", "contains", "hello").unwrap());
}

#[test]
fn numeric_comparisons() {
    assert!(eval("23.5", "gt", "22.5").unwrap());
    assert!(!eval("1.0", "gt", "1").unwrap());
    assert!(eval("1.0", "ge", "1").unwrap());
    assert!(eval("1.0", "le", "1").unwrap());
    assert!(eval("-3", "<", "2").unwrap());
    assert!(!eval("-3", ">", "2").unwrap());
}

#[test]
fn nan_compares_false() {
    assert!(!eval("NaN", "gt", "1").unwrap());
    assert!(!eval("NaN", "le", "1").unwrap());
    assert!(!eval("NaN", "ge", "1").unwrap());
}

#[test]
fn negated_operators_on_values() {
    for (c, t) in [("1", "2"), ("2", "2"), ("3", "2"), ("a", "a"), ("a", "b")] {
        assert_eq!(eval(c, "ne", t).unwrap(), !eval(c, "eq", t).unwrap());
    }
    for (c, t) in [("1", "2"), ("2", "2"), ("3", "2")] {
        assert_eq!(eval(c, "le", t).unwrap(), !eval(c, "gt", t).unwrap());
        assert_eq!(eval(c, "ge", t).unwrap(), !eval(c, "lt", t).unwrap());
        assert_eq!(eval(c, "ge", t).unwrap(), eval(c, "gt", t).unwrap() || eval(c, "eq", t).unwrap());
    }
}

#[test]
fn unknown_operator() {
    let err = eval("1", "~", "1").unwrap_err();
    assert!(matches!(&err, EvalError::UnknownOperator { op } if op == "~"));
    assert_eq!(err.to_string(), "Unknown operator '~'. Use: eq ne gt lt ge le contains");
}

#[test]
fn not_a_number_names_the_first_bad_text() {
    let err = eval("on", "gt", "off").unwrap_err();
    assert!(matches!(&err, EvalError::NotANumber { text } if text == "on"));
    assert_eq!(err.to_string(), "Cannot parse 'on' as number");
    let err = eval("1", "lt", "x").unwrap_err();
    assert!(matches!(&err, EvalError::NotANumber { text } if text == "x"));
    // text operators never parse
    assert!(!eval("on", "eq", "off").unwrap());
}

#[test]
fn clock() {
    assert_eq!(chrono_now(0), "00:00:00");
    assert_eq!(chrono_now(3661), "01:01:01");
    assert_eq!(chrono_now(86399), "23:59:59");
    assert_eq!(chrono_now(86400 + 45296), "12:34:56");
    assert_eq!(chrono_now(1_700_000_000), "22:13:20");
}

#[test]
fn reply_lines() {
    assert_eq!(response_line("Licht", "on", Some("1"), Some("200")), "✓  Licht → on = 1");
    assert_eq!(response_line("Licht", "on", None, Some("500")), "✗  Licht → on = ?");
    assert_eq!(response_line("Licht", "off", Some("0"), None), "✗  Licht → off = 0");
}

fn pairs(keys: &[&str]) -> Vec<(String, String)> {
    keys.iter().map(|k| (k.to_string(), format!("uuid-{}", k))).collect()
}

#[test]
fn primary_state_choice() {
    assert_eq!(primary_state(&pairs(&["position", "active", "value"])), Some(1));
    assert_eq!(primary_state(&pairs(&["position", "value"])), Some(1));
    assert_eq!(primary_state(&pairs(&["position", "shade"])), Some(0));
    assert_eq!(primary_state(&pairs(&[])), None);
}

#[test]
fn run_context_fields() {
    let ctx = RunContext { json: true, quiet: false, csv: false, dry_run: true, no_header: false, trace_id: None };
    assert!(ctx.json && ctx.dry_run && !ctx.quiet && ctx.trace_id.is_none());
}

#[test]
fn mirrored_operators_on_values() {
    for (c, t) in [("1", "2"), ("2", "2"), ("3", "2"), ("x", "2"), ("1", "y"), ("a", "b"), ("NaN", "1")] {
        match (eval(c, "gt", t), eval(t, "lt", c)) {
            (Ok(a), Ok(b)) => assert_eq!(a, b),
            (Err(_), Err(_)) => {}
            _ => panic!("gt/lt disagree on {:?} {:?}", c, t),
        }
        match (eval(c, "ge", t), eval(t, "le", c)) {
            (Ok(a), Ok(b)) => assert_eq!(a, b),
            (Err(_), Err(_)) => {}
            _ => panic!("ge/le disagree on {:?} {:?}", c, t),
        }
    }
}
