//! Built-in tools that execute locally — no subprocess, no external API.
//!
//! | Tool         | Description                              |
//! |--------------|------------------------------------------|
//! | `calculator` | Safe math evaluation (no `eval`)         |
//! | `datetime`   | Current date / time in several formats   |
//! | `remember`   | Save a key-value note to agent memory    |
//! | `recall`     | Search saved memories by keyword         |

use vstd::prelude::*;

use crate::error::SkadooshError;
use crate::json::{opt_str, parse_json, parse_view, parsed, Json, JsonTree};
use crate::llm::message::{function_tool, tools, Tool};
use crate::memory::{all_labelled, label_all, matching, MemoryStore, MemoryView};
use crate::sorted::with;
use crate::text::{join, join_strings, lowercase, str_eq};

verus! {

/// Whether a name is one of the built-in tools.
pub open spec fn builtin_name(name: Seq<char>) -> bool {
    name == "calculator"@ || name == "datetime"@ || name == "remember"@ || name == "recall"@
}

/// Returns `true` when `name` is a recognised built-in tool.
pub fn is_builtin(name: &str) -> (r: bool)
    ensures
        r == builtin_name(name@),
{
    str_eq(name, "calculator") || str_eq(name, "datetime") || str_eq(name, "remember") || str_eq(
        name,
        "recall",
    )
}

/// A call of a built-in tool that needs no memory.
#[derive(Debug)]
pub enum BuiltinCall {
    /// Evaluate an expression ([`calc`](crate::tools::calculator::calc)).
    Calculator(String),
    /// Say the time in a format ([`now`](crate::tools::datetime::now)).
    Datetime(Option<String>),
}

/// A [`BuiltinCall`] by its texts.
#[verifier::ext_equal]
pub enum BuiltinView {
    /// Evaluate an expression.
    Calculator(Seq<char>),
    /// Say the time in a format.
    Datetime(Option<Seq<char>>),
}

impl View for BuiltinCall {
    type V = BuiltinView;

    open spec fn view(&self) -> BuiltinView {
        match *self {
            BuiltinCall::Calculator(e) => BuiltinView::Calculator(e@),
            BuiltinCall::Datetime(f) => BuiltinView::Datetime(opt_str(f)),
        }
    }
}

/// An outcome by its texts.
pub open spec fn call_view(r: Option<Result<BuiltinCall, SkadooshError>>) -> Option<
    Result<BuiltinView, Seq<char>>,
> {
    match r {
        None => None,
        Some(Ok(c)) => Some(Ok(c@)),
        Some(Err(e)) => Some(Err(e.text())),
    }
}

/// An answer by its text.
pub open spec fn answer_view(r: Option<Result<String, SkadooshError>>) -> Option<
    Result<Seq<char>, Seq<char>>,
> {
    match r {
        None => None,
        Some(Ok(s)) => Some(Ok(s@)),
        Some(Err(e)) => Some(Err(e.text())),
    }
}

/// The text under `key`, empty where there is none.
pub open spec fn argument(args: JsonTree, key: Seq<char>) -> Seq<char> {
    match args.member_text(key) {
        Some(s) => s,
        None => ""@,
    }
}

/// What is wrong with arguments that are no JSON.
pub open spec fn bad_arguments(e: Seq<char>) -> Seq<char> {
    "invalid tool arguments: "@ + e
}

/// What a tool call asks for, from its parsed arguments. The arguments of a
/// tool that is none of these built-ins are not looked at.
pub open spec fn builtin_call(name: Seq<char>, args: Result<JsonTree, Seq<char>>) -> Option<
    Result<BuiltinView, Seq<char>>,
> {
    if name != "calculator"@ && name != "datetime"@ {
        None
    } else {
        match args {
            Err(e) => Some(Err(bad_arguments(e))),
            Ok(args) => if name == "calculator"@ {
                Some(Ok(BuiltinView::Calculator(argument(args, "expression"@))))
            } else {
                Some(Ok(BuiltinView::Datetime(args.member_text("format"@))))
            },
        }
    }
}

/// Finds out what a tool call that needs no memory asks for, from its parsed
/// arguments.
pub fn execute_parsed(name: &str, args: &Result<Json, String>) -> (r: Option<
    Result<BuiltinCall, SkadooshError>,
>)
    ensures
        call_view(r) == builtin_call(name@, parse_view(*args)),
{
    let calculates = str_eq(name, "calculator");
    if !calculates && !str_eq(name, "datetime") {
        return None;
    }
    match args {
        Err(e) => Some(
            Err(
                SkadooshError::Other(
                    "invalid tool arguments: ".to_owned().concat(e.as_str()),
                ),
            ),
        ),
        Ok(args) => if calculates {
            Some(Ok(BuiltinCall::Calculator(args.get_text_or("expression", ""))))
        } else {
            Some(Ok(BuiltinCall::Datetime(args.get_text("format"))))
        },
    }
}

/// Finds out what a built-in tool that doesn't need memory access is asked
/// for.
///
/// Returns `None` when `name` is no such built-in — the caller should fall
/// through to the shell executor. `args_json` is the raw JSON arguments
/// string the model emitted (e.g. `{"expression": "2+2"}`).
pub fn execute(name: &str, args_json: &str) -> (r: Option<Result<BuiltinCall, SkadooshError>>)
    ensures
        call_view(r) == builtin_call(name@, parsed(args_json@)),
{
    execute_parsed(name, &parse_json(args_json))
}

/// What `remember` answers.
pub open spec fn remember_answer(key: Seq<char>) -> Result<Seq<char>, Seq<char>> {
    if key.len() == 0 {
        Err("remember: key must not be empty"@)
    } else {
        Ok("remembered '"@ + key + "'"@)
    }
}

/// What `recall` answers over the preferences of a store.
pub open spec fn recall_answer(preferences: Seq<(Seq<char>, Seq<char>)>, query: Seq<char>) -> Seq<
    char,
> {
    let found = matching(preferences, lowercase(query));
    if preferences.len() == 0 {
        "no memories saved yet"@
    } else if found.len() == 0 {
        "nothing found for '"@ + query + "'"@
    } else {
        join(all_labelled(found), "\n"@)
    }
}

/// Remembers `value` under `key`, which must not be empty.
pub fn rem(key: &str, value: &str, store: &mut MemoryStore) -> (r: Result<String, SkadooshError>)
    requires
        old(store).wf(),
    ensures
        final(store).wf(),
        answer_view(Some(r)) == Some(remember_answer(key@)),
        final(store)@ == (if key@.len() == 0 {
            old(store)@
        } else {
            MemoryView {
                preferences: with(old(store)@.preferences, key@, value@),
                ..old(store)@
            }
        }),
{
    if key.unicode_len() == 0 {
        return Err(SkadooshError::Other("remember: key must not be empty".to_owned()));
    }
    store.remember(key, value);
    Ok("remembered '".to_owned().concat(key).concat("'"))
}

/// Searches the saved memories.
pub fn rec(query: &str, store: &MemoryStore) -> (r: String)
    ensures
        r@ == recall_answer(store@.preferences, query@),
{
    if store.preference_count() == 0 {
        return "no memories saved yet".to_owned();
    }
    let found = store.search_preferences(query);
    if found.len() == 0 {
        assert(matching(store@.preferences, lowercase(query@)).len() == 0);
        "nothing found for '".to_owned().concat(query).concat("'")
    } else {
        join_strings(&label_all(&found), "\n")
    }
}

/// What a memory tool answers, from its parsed arguments, and the preferences
/// after it. The arguments of a tool that is no memory tool are not looked at.
pub open spec fn memory_call(
    name: Seq<char>,
    args: Result<JsonTree, Seq<char>>,
    preferences: Seq<(Seq<char>, Seq<char>)>,
) -> (Option<Result<Seq<char>, Seq<char>>>, Seq<(Seq<char>, Seq<char>)>) {
    if name != "remember"@ && name != "recall"@ {
        (None, preferences)
    } else {
        match args {
            Err(e) => (Some(Err(bad_arguments(e))), preferences),
            Ok(args) => if name == "remember"@ {
                let key = argument(args, "key"@);
                (
                    Some(remember_answer(key)),
                    if key.len() == 0 {
                        preferences
                    } else {
                        with(preferences, key, argument(args, "value"@))
                    },
                )
            } else {
                (Some(Ok(recall_answer(preferences, argument(args, "query"@)))), preferences)
            },
        }
    }
}

/// Executes a memory-backed built-in tool (`remember`, `recall`), from its
/// parsed arguments.
pub fn execute_with_memory_parsed(
    name: &str,
    args: &Result<Json, String>,
    store: &mut MemoryStore,
) -> (r: Option<Result<String, SkadooshError>>)
    requires
        old(store).wf(),
    ensures
        final(store).wf(),
        ({
            let (answer, preferences) = memory_call(
                name@,
                parse_view(*args),
                old(store)@.preferences,
            );
            answer_view(r) == answer && final(store)@ == (MemoryView {
                preferences,
                ..old(store)@
            })
        }),
{
    let remembers = str_eq(name, "remember");
    if !remembers && !str_eq(name, "recall") {
        return None;
    }
    match args {
        Err(e) => Some(
            Err(
                SkadooshError::Other(
                    "invalid tool arguments: ".to_owned().concat(e.as_str()),
                ),
            ),
        ),
        Ok(args) => if remembers {
            let key = args.get_text_or("key", "");
            let value = args.get_text_or("value", "");
            Some(rem(key.as_str(), value.as_str(), store))
        } else {
            let query = args.get_text_or("query", "");
            Some(Ok(rec(query.as_str(), store)))
        },
    }
}

/// Execute a memory-backed built-in tool (`remember`, `recall`). Returns
/// `None` for non-memory tools.
pub fn execute_with_memory(name: &str, args_json: &str, store: &mut MemoryStore) -> (r: Option<
    Result<String, SkadooshError>,
>)
    requires
        old(store).wf(),
    ensures
        final(store).wf(),
        ({
            let (answer, preferences) = memory_call(
                name@,
                parsed(args_json@),
                old(store)@.preferences,
            );
            answer_view(r) == answer && final(store)@ == (MemoryView {
                preferences,
                ..old(store)@
            })
        }),
{
    execute_with_memory_parsed(name, &parse_json(args_json), store)
}

/// The definitions of the built-in tools.
pub open spec fn builtin_definitions() -> Seq<crate::llm::message::ToolView> {
    seq![
        function_tool(
            "calculator"@,
            "Evaluate a mathematical expression. Supports +, -, *, /, %, ^ (power), sqrt, abs, sin, cos, tan, ln, log, floor, ceil, round, pow, and parentheses. Use for arithmetic, percentages, unit conversions, and simple calculations."@,
            "{\"properties\":{\"expression\":{\"description\":\"The math expression, e.g. '2+3*4' or 'sqrt(144)'\",\"type\":\"string\"}},\"required\":[\"expression\"],\"type\":\"object\"}"@,
        ),
        function_tool(
            "datetime"@,
            "Get the current date and time."@,
            "{\"properties\":{\"format\":{\"description\":\"Output format. 'iso' = ISO 8601, 'date' = YYYY-MM-DD, 'time' = HH:MM:SS, 'unix' = seconds since epoch, 'friendly' = human readable\",\"enum\":[\"iso\",\"date\",\"time\",\"unix\",\"friendly\"],\"type\":\"string\"}},\"type\":\"object\"}"@,
        ),
        function_tool(
            "remember"@,
            "Save a piece of information so the agent can recall it in future conversations. Use this when the user asks you to remember something — their name, a preference, a fact they shared."@,
            "{\"properties\":{\"key\":{\"description\":\"Short label, e.g. 'user-name' or 'favorite-color'\",\"type\":\"string\"},\"value\":{\"description\":\"The information to remember\",\"type\":\"string\"}},\"required\":[\"key\",\"value\"],\"type\":\"object\"}"@,
        ),
        function_tool(
            "recall"@,
            "Search the agent's saved memories. Use this when the user asks about something they previously told you to remember, or when you need context from past conversations."@,
            "{\"properties\":{\"query\":{\"description\":\"Keyword or phrase to search for in saved memories\",\"type\":\"string\"}},\"type\":\"object\"}"@,
        ),
    ]
}

/// Tool definitions for all built-in tools. Merge these with any
/// user-supplied tools file so the LLM always knows about built-ins.
pub fn definitions() -> (r: Vec<Tool>)
    ensures
        tools(r@) == builtin_definitions(),
{
    let r: Vec<Tool> = vec![
        Tool::function(
            "calculator",
            "Evaluate a mathematical expression. Supports +, -, *, /, %, ^ (power), sqrt, abs, sin, cos, tan, ln, log, floor, ceil, round, pow, and parentheses. Use for arithmetic, percentages, unit conversions, and simple calculations.",
            "{\"properties\":{\"expression\":{\"description\":\"The math expression, e.g. '2+3*4' or 'sqrt(144)'\",\"type\":\"string\"}},\"required\":[\"expression\"],\"type\":\"object\"}".to_owned(),
        ),
        Tool::function(
            "datetime",
            "Get the current date and time.",
            "{\"properties\":{\"format\":{\"description\":\"Output format. 'iso' = ISO 8601, 'date' = YYYY-MM-DD, 'time' = HH:MM:SS, 'unix' = seconds since epoch, 'friendly' = human readable\",\"enum\":[\"iso\",\"date\",\"time\",\"unix\",\"friendly\"],\"type\":\"string\"}},\"type\":\"object\"}".to_owned(),
        ),
        Tool::function(
            "remember",
            "Save a piece of information so the agent can recall it in future conversations. Use this when the user asks you to remember something — their name, a preference, a fact they shared.",
            "{\"properties\":{\"key\":{\"description\":\"Short label, e.g. 'user-name' or 'favorite-color'\",\"type\":\"string\"},\"value\":{\"description\":\"The information to remember\",\"type\":\"string\"}},\"required\":[\"key\",\"value\"],\"type\":\"object\"}".to_owned(),
        ),
        Tool::function(
            "recall",
            "Search the agent's saved memories. Use this when the user asks about something they previously told you to remember, or when you need context from past conversations.",
            "{\"properties\":{\"query\":{\"description\":\"Keyword or phrase to search for in saved memories\",\"type\":\"string\"}},\"type\":\"object\"}".to_owned(),
        ),
    ];
    assert(tools(r@) =~= builtin_definitions());
    r
}

/// The two ways to run a built-in tool divide them: with arguments that are
/// JSON, each built-in tool is run with memory or without it, never both, and
/// any other tool by neither.
pub proof fn law_builtins_have_one_executor(
    name: Seq<char>,
    args: JsonTree,
    preferences: Seq<(Seq<char>, Seq<char>)>,
)
    ensures
        ({
            let plain = builtin_call(name, Ok(args)) is Some;
            let backed = memory_call(name, Ok(args), preferences).0 is Some;
            &&& builtin_name(name) == (plain || backed)
            &&& !(plain && backed)
        }),
{
    reveal_strlit("calculator");
    reveal_strlit("datetime");
    reveal_strlit("remember");
    reveal_strlit("recall");
    assert("calculator"@.len() == 10);
    assert("datetime"@.len() == 8);
    assert("remember"@.len() == 8);
    assert("recall"@.len() == 6);
    assert("datetime"@[0] != "remember"@[0]);
}

/// A note that was remembered under a key is found by that key.
pub proof fn law_remembered_is_found(
    preferences: Seq<(Seq<char>, Seq<char>)>,
    key: Seq<char>,
    value: Seq<char>,
)
    ensures
        matching(with(preferences, key, value), lowercase(key)).contains((key, value)),
    decreases preferences.len(),
{
    let w = with(preferences, key, value);
    let q = lowercase(key);
    assert(crate::text::matches_at(q, q, 0)) by {
        assert(q.subrange(0, q.len() as int) =~= q);
    }
    assert(crate::memory::is_match((key, value), q));
    if preferences.len() == 0 || crate::sorted::place(key, preferences.last().0)
        != crate::sorted::Place::Before {
        assert(w.last() == (key, value));
        let m = matching(w, q);
        assert(m.last() == (key, value));
        assert(m[m.len() - 1] == (key, value));
    } else {
        law_remembered_is_found(preferences.drop_last(), key, value);
        let below = with(preferences.drop_last(), key, value);
        assert(w.drop_last() =~= below);
        let k = choose|k: int|
            0 <= k < matching(below, q).len() && matching(below, q)[k] == (key, value);
        assert(matching(w, q)[k] == (key, value));
    }
}

} // verus!
