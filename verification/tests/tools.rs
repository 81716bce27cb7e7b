//! The built-in tools: calculator, clock and memory, and the executors.

use skadoosh::memory::{format_turn_summary, truncate, MemoryData, MemoryStore};
use skadoosh::tools::builtin::{
    definitions, execute, execute_with_memory, is_builtin, rec, rem, BuiltinCall,
};
use skadoosh::tools::calculator::{
    calc_text, precedence, shunt, tokenize, CalcStep, MathFunc, Op, Tok,
};
use skadoosh::tools::datetime::{
    month_name, now, unix_to_cal, weekday_name, FIRST_SECOND, LAST_SECOND,
};
use skadoosh::tools::{
    execute_parallel, stream_line, NoopExecutor, ShellExecutor, ShellRun, ToolExecutor,
};

fn apply(op: Op, a: f64, b: f64) -> f64 {
    match op {
        Op::Plus => a + b,
        Op::Minus => a - b,
        Op::Times => a * b,
        Op::Divide => a / b,
        Op::Remainder => a % b,
        Op::Power => a.powf(b),
    }
}

fn call(func: MathFunc, a: f64) -> f64 {
    match func {
        MathFunc::Sqrt => a.sqrt(),
        MathFunc::Abs => a.abs(),
        MathFunc::Sin => a.sin(),
        MathFunc::Cos => a.cos(),
        MathFunc::Tan => a.tan(),
        MathFunc::Ln => a.ln(),
        MathFunc::Log => a.log10(),
        MathFunc::Floor => a.floor(),
        MathFunc::Ceil => a.ceil(),
        MathFunc::Round => a.round(),
        MathFunc::Pow => unreachable!("asked for as an operator"),
    }
}

/// Runs a calculation with the machine's float arithmetic.
fn calc(expression: &str) -> Result<String, String> {
    let mut running =
        skadoosh::tools::calculator::calc(expression).map_err(|e| e.message())?;
    loop {
        let value = match running.step() {
            CalcStep::Read { text, negative } => {
                let n: f64 = text.parse().map_err(|_| format!("bad number {text}"))?;
                if negative {
                    -n
                } else {
                    n
                }
            }
            CalcStep::Apply { op, a, b } => apply(op, f64::from_bits(a), f64::from_bits(b)),
            CalcStep::Call { func, a } => call(func, f64::from_bits(a)),
            CalcStep::Done(bits) => {
                let r = f64::from_bits(bits);
                let whole = if (r - r.round()).abs() < 1e-10 {
                    Some(r.round() as i64)
                } else {
                    None
                };
                return Ok(calc_text(whole, &format!("{r:.10}")));
            }
            CalcStep::Failed(e) => return Err(e.message()),
        };
        running.answer(value.to_bits());
    }
}

#[test]
fn calc_basic_ops() {
    assert_eq!(calc("2+3").unwrap(), "5");
    assert_eq!(calc("10-7").unwrap(), "3");
    assert_eq!(calc("4*5").unwrap(), "20");
    assert_eq!(calc("8/2").unwrap(), "4");
    assert_eq!(calc("7%3").unwrap(), "1");
}

#[test]
fn calc_precedence() {
    assert_eq!(calc("2+3*4").unwrap(), "14");
    assert_eq!(calc("(2+3)*4").unwrap(), "20");
    assert_eq!(calc("2^3").unwrap(), "8");
    assert_eq!(calc("2^3+1").unwrap(), "9");
}

#[test]
fn calc_functions() {
    assert_eq!(calc("sqrt(144)").unwrap(), "12");
    assert_eq!(calc("abs(-5)").unwrap(), "5");
    assert_eq!(calc("round(3.7)").unwrap(), "4");
    assert_eq!(calc("floor(3.9)").unwrap(), "3");
    assert_eq!(calc("ceil(3.1)").unwrap(), "4");
    assert_eq!(calc("pow(2, 8)").unwrap(), "256");
}

#[test]
fn calc_unary_minus() {
    assert_eq!(calc("-5").unwrap(), "-5");
    assert_eq!(calc("-5 + 32").unwrap(), "27");
    assert_eq!(calc("3*-2").unwrap(), "-6");
    assert_eq!(calc("(-3)").unwrap(), "-3");
    assert_eq!(calc("-(2+3)").unwrap(), "-5");
    assert_eq!(calc("2+(-3)").unwrap(), "-1");
}

#[test]
fn calc_constants() {
    assert!(calc("pi").unwrap().starts_with("3.14"));
}

#[test]
fn calc_errors() {
    assert!(calc("1/0").is_err());
    assert!(calc("bogus").is_err());
    assert!(calc("").is_err());
    assert!(calc("(1+2").is_err());
}

#[test]
fn calc_reports_what_is_wrong() {
    assert_eq!(calc("1/0").unwrap_err(), "calculator: division by zero");
    assert_eq!(calc("").unwrap_err(), "calculator: empty expression");
    assert_eq!(calc("1 2").unwrap_err(), "calculator: 2 values left on stack — missing operator?");
}

#[test]
fn calc_is_exact_about_more_operators() {
    assert_eq!(calc("2^3^2").unwrap(), calc("2^(3^2)").unwrap());
    assert_eq!(calc("10-4-3").unwrap(), "3");
    assert_eq!(calc("1/4").unwrap(), "0.25");
    assert_eq!(calc("e").unwrap(), "2.7182818285");
    assert_eq!(calc("sqrt(16)+pow(2,3)").unwrap(), "12");
}

#[test]
fn tokens_and_postfix_order() {
    let toks = tokenize("1+2*3").unwrap();
    assert_eq!(toks.len(), 5);
    assert!(precedence(&toks[3]) > precedence(&toks[1]));
    let rpn = shunt(&toks).unwrap();
    assert_eq!(rpn[4], Tok::Op(Op::Plus));
    assert_eq!(rpn[3], Tok::Op(Op::Times));
}

#[test]
fn calc_text_drops_trailing_zeros() {
    assert_eq!(calc_text(Some(-7), ""), "-7");
    assert_eq!(calc_text(None, "2.5000000000"), "2.5");
    assert_eq!(calc_text(None, "3.0000000000"), "3");
}

#[test]
fn datetime_formats() {
    let secs = std::time::SystemTime::now()
        .duration_since(std::time::UNIX_EPOCH)
        .unwrap()
        .as_secs() as i64;
    let iso = now(secs, Some("iso"));
    assert!(iso.contains('T'));
    assert!(iso.ends_with('Z'));

    let date = now(secs, Some("date"));
    assert_eq!(date.len(), 10);
    assert!(date.chars().nth(4) == Some('-'));

    let time = now(secs, Some("time"));
    assert_eq!(time.len(), 8);

    let friendly = now(secs, Some("friendly"));
    assert!(friendly.contains(','));
}

#[test]
fn known_instants_are_named() {
    assert_eq!(unix_to_cal(0), (1970, 1, 1, 0, 0, 0));
    assert_eq!(unix_to_cal(951_782_400), (2000, 2, 29, 0, 0, 0));
    assert_eq!(unix_to_cal(-1), (1969, 12, 31, 23, 59, 59));
    assert_eq!(unix_to_cal(-86_400), (1969, 12, 31, 0, 0, 0));
    assert_eq!(unix_to_cal(-62_135_596_801), (0, 12, 31, 23, 59, 59));
    assert_eq!(unix_to_cal(FIRST_SECOND), (i32::MIN, 1, 1, 0, 0, 0));
    assert_eq!(unix_to_cal(LAST_SECOND), (i32::MAX, 12, 31, 23, 59, 59));
    assert_eq!(now(-1, Some("iso")), "1969-12-31T23:59:59Z");
    assert_eq!(now(-1, Some("unix")), "-1");
    assert_eq!(
        now(-1, None),
        "Wednesday, December 31, 1969 — 23:59:59 UTC"
    );
    for secs in [0, 951_827_696, 253_402_300_799, -62_198_755_200] {
        let (date, time) = (now(secs, Some("date")), now(secs, Some("time")));
        assert_eq!(now(secs, Some("iso")), format!("{date}T{time}Z"));
        assert_eq!(now(secs, Some("friendly")), now(secs, None));
        assert!(now(secs, None).contains(','));
        assert_eq!((date.len(), time.len()), (10, 8));
    }
    assert_eq!(now(-62_198_755_200, Some("date")), "-001-01-01");
    assert_eq!(weekday_name(-1, 1, 1), "Friday");
    assert_eq!(now(951_827_696, Some("iso")), "2000-02-29T12:34:56Z");
    assert_eq!(now(951_827_696, Some("date")), "2000-02-29");
    assert_eq!(now(951_827_696, Some("time")), "12:34:56");
    assert_eq!(weekday_name(2000, 2, 29), "Tuesday");
    assert_eq!(weekday_name(1970, 1, 1), "Thursday");
    assert_eq!(month_name(12), "December");
}

#[test]
fn remember_and_recall() {
    let mut store = MemoryStore::open("mem.json".to_string(), None);

    rem("color", "blue", &mut store).unwrap();
    let result = rec("color", &store);
    assert!(result.contains("blue"));

    let empty = rec("nonexistent", &store);
    assert!(empty.contains("nothing found"));
}

#[test]
fn memories_are_looked_up_by_key() {
    let mut store = MemoryStore::open("mem.json".to_string(), None);
    store.remember("color", "blue");
    store.remember("food", "tofu");
    store.remember("color", "red");
    assert_eq!(store.recall("color"), Some("red".to_string()));
    assert_eq!(store.recall("none"), None);
    assert_eq!(store.preference_count(), 2);
    store.remember("beverage", "tea");
    let keys: Vec<String> = store.preferences().into_iter().map(|p| p.0).collect();
    assert_eq!(keys, ["beverage", "color", "food"]);
    assert_eq!(store.search_preferences("TOF").len(), 1);
    assert_eq!(store.search_preferences(""), store.preferences());
    let found = store.search_preferences("E");
    assert_eq!(
        found.iter().map(|p| p.0.as_str()).collect::<Vec<_>>(),
        ["beverage", "color"]
    );
    for (key, value) in found {
        assert_eq!(store.recall(&key), Some(value));
    }
    assert_eq!(store.path(), "mem.json");
    assert!(store.preferences_summary().unwrap().contains("food"));
}

#[test]
fn turn_summaries_are_capped() {
    let mut store = MemoryStore::open(
        "mem.json".to_string(),
        Some(MemoryData {
            preferences: vec![("a".to_string(), "b".to_string())],
            summaries: Vec::new(),
        }),
    );
    assert_eq!(store.recall("a"), Some("b".to_string()));
    for i in 0..12 {
        store.summarize_turn(&format!("q{i}"), "a");
    }
    let kept = store.summaries();
    assert_eq!(kept.len(), 10);
    assert_eq!(kept[0], format_turn_summary("q2", "a"));
    assert_eq!(truncate("abcdef", 3).chars().count(), 3);
    assert_eq!(truncate("abc", 3), "abc");
}

#[test]
fn builtins_are_dispatched_by_name() {
    assert!(is_builtin("calculator"));
    assert!(!is_builtin("bogus"));
    assert!(execute("bogus", "{}").is_none());
    assert!(execute("get_weather", "not json").is_none());
    assert!(matches!(execute("calculator", "not json"), Some(Err(_))));
    match execute("calculator", r#"{"expression":"1+1"}"#) {
        Some(Ok(BuiltinCall::Calculator(expression))) => assert_eq!(expression, "1+1"),
        _ => panic!("no calculation"),
    }
    let mut store = MemoryStore::open("mem.json".to_string(), None);
    let said = execute_with_memory("remember", r#"{"key":"k","value":"v"}"#, &mut store);
    assert!(said.unwrap().is_ok());
    assert_eq!(store.recall("k"), Some("v".to_string()));
    let found = execute_with_memory("recall", r#"{"query":"k"}"#, &mut store);
    assert!(found.unwrap().unwrap().contains('v'));
    assert!(execute_with_memory("bogus", "{}", &mut store).is_none());
    assert!(execute_with_memory("bogus", "not json", &mut store).is_none());
    assert!(matches!(
        execute_with_memory("recall", "not json", &mut store),
        Some(Err(_))
    ));
    let names: Vec<String> = definitions().into_iter().map(|t| t.function.name).collect();
    assert!(names.contains(&"calculator".to_string()));
}

#[test]
fn shell_runs_report_their_output() {
    let _ = ShellExecutor::new();
    let done = ShellRun::Exited {
        success: true,
        status: "exit status: 0".to_string(),
        stdout: b"hi\n".to_vec(),
        stderr: Vec::new(),
    };
    assert_eq!(ShellExecutor::execute("t", &done).unwrap(), "hi\n");
    let failed = ShellRun::Exited {
        success: false,
        status: "exit status: 2".to_string(),
        stdout: Vec::new(),
        stderr: b" no\n".to_vec(),
    };
    assert_eq!(
        ShellExecutor::execute("t", &failed).unwrap_err().message(),
        "'t' exited exit status: 2: no"
    );
    let lost = ShellRun::NotSpawned("gone".to_string());
    assert_eq!(
        ShellExecutor::execute("t", &lost).unwrap_err().message(),
        "spawn 't': gone"
    );
    let stuck = ShellRun::NotAwaited("gone".to_string());
    assert_eq!(
        ShellExecutor::execute("t", &stuck).unwrap_err().message(),
        "wait 't': gone"
    );
    let mut streamed = String::new();
    stream_line(&mut streamed, "a");
    stream_line(&mut streamed, "b");
    assert_eq!(
        ShellExecutor::execute_streaming("t", &done, streamed).unwrap(),
        "a\nb\n"
    );
}

#[test]
fn parallel_calls_are_collected_by_name() {
    let r = execute_parallel(vec![
        Some(("b".to_string(), Ok("2".to_string()))),
        None,
        Some(("a".to_string(), Ok("1".to_string()))),
    ]);
    assert_eq!(r.len(), 2);
    assert_eq!(r.entry(0).0, "a");
    assert_eq!(r.get("b").unwrap().as_ref().unwrap(), "2");
    assert!(r.get("c").is_none());
}

#[test]
fn tools_without_an_executor_get_a_placeholder() {
    let said = NoopExecutor::new().execute("t", "{}").unwrap();
    assert!(said.contains("tool execution not configured"));
}
