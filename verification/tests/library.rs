use jaq_json::{read, Val};
use jq2::jq::{
    execute_single, file_record_text, first_output_result, prepare_query, setup_error_message,
    start_query, validate_compile, write_pretty_json, CompileStage, JqError,
};
use jq2::json::{
    ansi_color, guard_interactive_value, pretty_json_highlighted, write_indent,
    write_indent_string, write_pretty_json_value, JsonMember, JsonValue, TermColor, ValueShape,
};
use jq2::pager::{
    generate_next_page, page_frame, page_size_for_height, page_status, pager_action_for_key,
    render_result, render_value_lines, KeyPress, Page, PagerAction, PagerKey, PagerSession,
    PagerStep, RenderState,
};
use jq2::query::{
    direct_root_field, looks_like_top_level_array_constructor, root_type_name,
    root_type_of_display, strip_aggregate_marker, validate_query, RootType,
};
use jq2::redirect::{
    parse_redirection, plan_redirection, plan_save_command, query_record_path, query_record_text,
    saved_message, should_pretty_print_file, RedirectMode,
};
use jq2::repl::{plan_repl_line, remember_query, ReplAction};
use jq2::save::save_records;
use jq2::text::{decimal_string, split_lines};

fn parse(json: &str) -> Val {
    read::parse_single(json.as_bytes()).expect("test JSON should parse")
}

fn text(s: &str) -> String {
    s.to_string()
}

fn strip_escapes(s: &str) -> String {
    let mut out = String::new();
    let mut chars = s.chars();
    while let Some(c) = chars.next() {
        if c == '\x1b' {
            for d in chars.by_ref() {
                if d == 'm' {
                    break;
                }
            }
        } else {
            out.push(c);
        }
    }
    out
}

fn page(lines: &[&str], result_count: u64) -> Page {
    Page {
        lines: lines.iter().map(|l| l.to_string()).collect(),
        result_count,
    }
}

// ---------------------------------------------------------------------
// Redirection
// ---------------------------------------------------------------------

#[test]
fn redirection_round_trip_keeps_query_and_file() {
    let r = parse_redirection("  map(.a) | length  >>  totals.jsonl  ")
        .unwrap()
        .unwrap();
    assert_eq!(r.query, "map(.a) | length");
    assert_eq!(r.filename, "totals.jsonl");
    assert_eq!(r.mode, RedirectMode::Append);
}

#[test]
fn redirection_needs_a_query() {
    assert_eq!(
        parse_redirection("  > out.json").unwrap_err(),
        "Missing jq query before redirection."
    );
}

#[test]
fn redirection_needs_a_filename() {
    assert_eq!(
        parse_redirection(".[] >   ").unwrap_err(),
        "Missing filename after redirection."
    );
}

#[test]
fn redirection_refuses_a_second_operator() {
    assert_eq!(
        parse_redirection(".[] > a.json > b.json").unwrap_err(),
        "Invalid redirection syntax."
    );
    assert_eq!(
        parse_redirection(".[] >>> b.json").unwrap_err(),
        "Invalid redirection syntax."
    );
}

#[test]
fn nested_comparisons_are_not_redirections() {
    assert_eq!(parse_redirection("[.[] | (.a > 1)]").unwrap(), None);
    assert_eq!(parse_redirection("{x: (.a > 1)}").unwrap(), None);
    let r = parse_redirection("{x: (.a > 1)} > f.json").unwrap().unwrap();
    assert_eq!(r.query, "{x: (.a > 1)}");
    assert_eq!(r.filename, "f.json");
    assert_eq!(r.mode, RedirectMode::Truncate);
}

#[test]
fn escaped_quotes_stay_inside_strings() {
    assert_eq!(
        parse_redirection(r#"select(.m == "a\" > b")"#).unwrap(),
        None
    );
    assert_eq!(parse_redirection(r#""a\\" > f"#).unwrap().unwrap().query, r#""a\\""#);
}

#[test]
fn file_kind_ignores_letter_case() {
    assert!(!should_pretty_print_file("OUT.JSONL"));
    assert!(!should_pretty_print_file("x.NdJson"));
    assert!(should_pretty_print_file("x.txt"));
    assert!(should_pretty_print_file("jsonl"));
}

#[test]
fn redirection_plan_validates_the_query() {
    let err = plan_redirection(RootType::Array, ".cve_id > out.jsonl").unwrap_err();
    assert!(err.contains(".[].cve_id"));
    let ok = plan_redirection(RootType::Object, ".cve_id > out.jsonl")
        .unwrap()
        .unwrap();
    assert_eq!(ok.query, ".cve_id");
    assert_eq!(plan_redirection(RootType::Array, ".[0]").unwrap(), None);
}

#[test]
fn save_command_plans() {
    let none: Option<String> = None;
    let some = Some(text(".[0]"));
    assert_eq!(
        plan_save_command(&some, ":save").unwrap_err(),
        "Usage: :save <filename>"
    );
    assert_eq!(
        plan_save_command(&some, ":save    ").unwrap_err(),
        "Usage: :save <filename>"
    );
    assert_eq!(
        plan_save_command(&none, ":save out.json").unwrap_err(),
        "No successful query is available to save."
    );
    assert_eq!(plan_save_command(&some, ":saved").unwrap(), None);
    let plan = plan_save_command(&some, ":save   out.json  ").unwrap().unwrap();
    assert_eq!(plan.query, ".[0]");
    assert_eq!(plan.filename, "out.json");
    assert_eq!(plan.mode, RedirectMode::Truncate);
}

#[test]
fn record_files_and_messages() {
    assert_eq!(query_record_path("cves.jsonl"), "cves.jsonl.query");
    assert_eq!(query_record_text(".[] | .cve_id"), ".[] | .cve_id\n");
    assert_eq!(
        saved_message(3, "cves.jsonl", RedirectMode::Truncate),
        "Saved 3 result(s) to cves.jsonl"
    );
    assert_eq!(
        saved_message(0, "a.json", RedirectMode::Append),
        "Appended 0 result(s) to a.json"
    );
}

// ---------------------------------------------------------------------
// Queries
// ---------------------------------------------------------------------

#[test]
fn direct_fields_are_trimmed_word_paths() {
    assert_eq!(direct_root_field("  .a_b1  "), Some(text("a_b1")));
    assert_eq!(direct_root_field(".a b"), None);
    assert_eq!(direct_root_field(".-"), None);
    assert_eq!(direct_root_field("cve_id"), None);
    assert_eq!(direct_root_field(".a.b"), None);
}

#[test]
fn array_root_message_is_exact() {
    let err = validate_query(RootType::Array, "  .cve_id ").unwrap_err();
    assert_eq!(
        err,
        "Invalid operation for this dataset.\n\nThe JSON root is an array, but `.cve_id` accesses `cve_id` as though the root were an object.\n\nTo access `cve_id` from every record, use:\n\n.[].cve_id\n\nTo access `cve_id` from the first record, use:\n\n.[0].cve_id"
    );
}

#[test]
fn blank_query_message() {
    assert_eq!(
        validate_query(RootType::Object, "   ").unwrap_err(),
        "Query cannot be empty."
    );
}

#[test]
fn compile_errors_name_their_stage() {
    let parse_err = validate_compile(".[] | select(").unwrap_err();
    assert!(parse_err.starts_with("Invalid jq syntax:\n"));
    let compile_err = validate_compile("no_such_filter_here").unwrap_err();
    assert!(compile_err.starts_with("Unable to compile query:\n"));
    assert!(validate_compile("map(.a)").is_ok());
    let setup = setup_error_message(&JqError {
        stage: CompileStage::Parse,
        detail: text("d"),
    });
    assert_eq!(setup, "Unable to parse query:\nd");
}

#[test]
fn execute_single_reports_each_failure() {
    let data = parse("[1,2]");
    assert!(execute_single(&data, ".[] | select(")
        .unwrap_err()
        .starts_with("Query parse error: "));
    assert!(execute_single(&data, "no_such_filter_here")
        .unwrap_err()
        .starts_with("Query compile error: "));
    assert!(execute_single(&data, "error(\"boom\")")
        .unwrap_err()
        .starts_with("Query runtime error: "));
    assert!(execute_single(&data, "empty").unwrap().is_none());
    assert_eq!(execute_single(&data, ".[1]").unwrap().unwrap().to_string(), "2");
}

#[test]
fn root_type_names() {
    assert_eq!(root_type_of_display("\"array\""), RootType::Array);
    assert_eq!(root_type_of_display("\"\"object\"\""), RootType::Object);
    assert_eq!(root_type_of_display("array"), RootType::Array);
    assert_eq!(root_type_of_display("\"number\""), RootType::Other);
    assert_eq!(root_type_name(RootType::Array), "array");
    assert_eq!(root_type_name(RootType::Object), "object");
    assert_eq!(root_type_name(RootType::Other), "other");
}

#[test]
fn array_constructors_are_recognised() {
    assert!(looks_like_top_level_array_constructor("  [.[] | .a]"));
    assert!(!looks_like_top_level_array_constructor(":aggregate [.[]]"));
    assert!(!looks_like_top_level_array_constructor(".[]"));
}

#[test]
fn aggregate_marker_is_removed() {
    assert_eq!(strip_aggregate_marker(":aggregate [.[] | .a]"), " [.[] | .a]");
    assert_eq!(strip_aggregate_marker(":aggregate:aggregate"), "");
    assert_eq!(strip_aggregate_marker(".a"), ".a");
}

// ---------------------------------------------------------------------
// Rendering
// ---------------------------------------------------------------------

fn sample_json() -> JsonValue {
    JsonValue::Obj(vec![
        JsonMember {
            key: text("\"a\""),
            value: JsonValue::Arr(vec![JsonValue::Num(text("1")), JsonValue::Null]),
        },
        JsonMember {
            key: text("\"b\""),
            value: JsonValue::Bool(text("true")),
        },
        JsonMember {
            key: text("\"c\""),
            value: JsonValue::Obj(vec![]),
        },
    ])
}

#[test]
fn plain_rendering_is_exact() {
    let mut out = String::new();
    write_pretty_json_value(&mut out, &sample_json());
    assert_eq!(
        out,
        "{\n  \"a\": [\n    1,\n    null\n  ],\n  \"b\": true,\n  \"c\": {}\n}\n"
    );
}

#[test]
fn highlighted_rendering_is_exact() {
    let value = JsonValue::Obj(vec![JsonMember {
        key: text("\"k\""),
        value: JsonValue::Str(text("\"v\"")),
    }]);
    assert_eq!(
        pretty_json_highlighted(&value),
        "{\n  \x1b[36m\"k\"\x1b[0m: \x1b[35m\"v\"\x1b[0m\n}\n"
    );
    assert_eq!(
        pretty_json_highlighted(&JsonValue::Bytes(text("b\"x\""))),
        "\x1b[32mb\"x\"\x1b[0m\n"
    );
    assert_eq!(pretty_json_highlighted(&JsonValue::Arr(vec![])), "[]\n");
}

#[test]
fn highlighting_only_adds_colour_codes() {
    let value = sample_json();
    let mut plain = String::new();
    write_pretty_json_value(&mut plain, &value);
    assert_eq!(strip_escapes(&pretty_json_highlighted(&value)), plain);
}

#[test]
fn colours_and_indentation() {
    assert_eq!(ansi_color(TermColor::Blue), "\x1b[34m");
    assert_eq!(ansi_color(TermColor::DarkGrey), "\x1b[90m");
    assert_eq!(ansi_color(TermColor::Other), "\x1b[0m");
    let mut s = text("x");
    write_indent_string(&mut s, 3);
    assert_eq!(s, "x   ");
    write_indent(&mut s, 0);
    assert_eq!(s, "x   ");
}

#[test]
fn jaq_values_render_through_their_display() {
    let value = parse(r#"{"k":[1,"s",null,false]}"#);
    let mut out = String::new();
    write_pretty_json(&mut out, &value).unwrap();
    assert_eq!(
        out,
        "{\n  \"k\": [\n    1,\n    \"s\",\n    null,\n    false\n  ]\n}\n"
    );
}

#[test]
fn file_records_follow_the_file_kind() {
    let value = parse(r#"{"a":1}"#);
    assert_eq!(file_record_text("out.jsonl", &value).unwrap(), "{\"a\":1}\n");
    assert_eq!(
        file_record_text("out.json", &value).unwrap(),
        "{\n  \"a\": 1\n}\n"
    );
}

#[test]
fn interactive_guard_limits() {
    assert!(guard_interactive_value(&ValueShape::Array(1000)).is_ok());
    assert!(guard_interactive_value(&ValueShape::Object(1000)).is_ok());
    assert!(guard_interactive_value(&ValueShape::Scalar).is_ok());
    assert_eq!(
        guard_interactive_value(&ValueShape::Array(1001)).unwrap_err(),
        "Interactive result blocked: query produced an array containing 1001 items.\n\nLarge arrays cannot be displayed interactively.\nStream the elements instead:\n\n.[] | ...\n\ninstead of:\n\n[.[] | ...]\n\nOr explicitly limit the result:\n\n[limit(100; .[] | ...)]"
    );
    assert_eq!(
        guard_interactive_value(&ValueShape::Object(2500)).unwrap_err(),
        "Interactive result blocked: query produced an object containing 2500 fields."
    );
}

#[test]
fn lines_split_like_str_lines() {
    let v: Vec<String> = split_lines("a\r\nb\n").into_iter().collect();
    assert_eq!(v, vec![text("a"), text("b")]);
    let v: Vec<String> = split_lines("a\r").into_iter().collect();
    assert_eq!(v, vec![text("a\r")]);
    assert!(split_lines("").is_empty());
    let v: Vec<String> = split_lines("\n\n").into_iter().collect();
    assert_eq!(v, vec![text(""), text("")]);
    let value = JsonValue::Arr(vec![JsonValue::Num(text("7"))]);
    let lines: Vec<String> = render_value_lines(&value).into_iter().collect();
    assert_eq!(lines, vec![text("["), text("  \x1b[35m7\x1b[0m"), text("]")]);
}

#[test]
fn decimals() {
    assert_eq!(decimal_string(0), "0");
    assert_eq!(decimal_string(9), "9");
    assert_eq!(decimal_string(10), "10");
    assert_eq!(decimal_string(18446744073709551615), "18446744073709551615");
}

// ---------------------------------------------------------------------
// Pager
// ---------------------------------------------------------------------

#[test]
fn a_large_result_spans_pages_before_the_next_is_pulled() {
    // The program's second output is an error: it only surfaces once the
    // lines of the first result are all shown, so any earlier pull shows.
    let data = parse("null");
    let filter = prepare_query("[1,2,3], error(\"late\")").unwrap();
    let mut results = start_query(&filter, &data);
    let mut state = RenderState::new();
    let first = generate_next_page(&mut results, &mut state, 2).unwrap().unwrap();
    assert_eq!(first.lines.len(), 2);
    assert_eq!(first.lines[0], "[");
    assert_eq!(first.result_count, 1);
    assert_eq!(state.pending_lines.len(), 3);

    let second = generate_next_page(&mut results, &mut state, 2).unwrap().unwrap();
    assert_eq!(second.result_count, 0);
    assert_eq!(second.lines.len(), 2);
    assert_eq!(state.pending_lines.len(), 1);

    let err = generate_next_page(&mut results, &mut state, 2).unwrap_err();
    assert!(err.starts_with("Query execution error: "));
    assert!(err.contains("late"));
    assert!(state.pending_lines.is_empty());
}

#[test]
fn pages_show_every_line_in_order() {
    let data = parse("null");
    let filter = prepare_query("[1,2,3], 4").unwrap();
    let mut results = start_query(&filter, &data);
    let mut state = RenderState::new();
    let mut shown: Vec<String> = Vec::new();
    let mut count = 0;
    while let Some(page) = generate_next_page(&mut results, &mut state, 2).unwrap() {
        assert!(page.lines.len() <= 2);
        shown.extend(page.lines);
        count += page.result_count;
    }
    let plain: Vec<String> = shown.iter().map(|l| strip_escapes(l)).collect();
    assert_eq!(plain, vec!["[", "  1,", "  2,", "  3", "]", "4"]);
    assert_eq!(shown[5], "\x1b[35m4\x1b[0m");
    assert_eq!(count, 2);
}

#[test]
fn a_short_page_ends_the_output() {
    let data = parse("null");
    let filter = prepare_query("1, 2").unwrap();
    let mut results = start_query(&filter, &data);
    let mut state = RenderState::new();
    let page = generate_next_page(&mut results, &mut state, 5).unwrap().unwrap();
    assert_eq!(page.lines.len(), 2);
    assert_eq!(page.result_count, 2);
    assert!(state.pending_lines.is_empty());
    assert!(generate_next_page(&mut results, &mut state, 5).unwrap().is_none());
}

#[test]
fn page_generation_reports_errors() {
    let data = parse("null");
    let filter = prepare_query("error(\"boom\")").unwrap();
    let mut results = start_query(&filter, &data);
    let mut state = RenderState::new();
    let err = generate_next_page(&mut results, &mut state, 5).unwrap_err();
    assert!(err.starts_with("Query execution error: "));
    assert!(err.contains("boom"));

    let filter = prepare_query("[range(1001)]").unwrap();
    let mut results = start_query(&filter, &data);
    let err = generate_next_page(&mut results, &mut state, 5).unwrap_err();
    assert!(err.starts_with("Interactive result blocked: query produced an array containing 1001 items."));

    let filter = prepare_query("[range(1000)] | length").unwrap();
    let mut results = start_query(&filter, &data);
    let page = generate_next_page(&mut results, &mut state, 5).unwrap().unwrap();
    assert_eq!(strip_escapes(&page.lines[0]), "1000");
}

#[test]
fn halting_programs_are_reported_not_exited() {
    let data = parse("null");
    let filter = prepare_query("1, halt").unwrap();
    let mut results = start_query(&filter, &data);
    let mut state = RenderState::new();
    let err = generate_next_page(&mut results, &mut state, 5).unwrap_err();
    assert!(err.starts_with("Query execution error: "));
    assert!(err.contains("Halt"));
}

#[test]
fn zero_sized_pages_show_nothing() {
    let data = parse("null");
    let filter = prepare_query("error(\"never pulled\")").unwrap();
    let mut results = start_query(&filter, &data);
    let mut state = RenderState::new();
    assert!(generate_next_page(&mut results, &mut state, 0).unwrap().is_none());
}

#[test]
fn one_result_becomes_lines_or_a_refusal() {
    let lines = render_result(&parse("{\"a\":[1]}")).unwrap();
    let plain: Vec<String> = lines.iter().map(|l| strip_escapes(l)).collect();
    assert_eq!(plain, vec!["{", "  \"a\": [", "    1", "  ]", "}"]);
    let members: Vec<String> = (0..1001).map(|i| format!("\"k{i}\":{i}")).collect();
    let big = parse(&format!("{{{}}}", members.join(",")));
    assert_eq!(
        render_result(&big).unwrap_err(),
        "Interactive result blocked: query produced an object containing 1001 fields."
    );
}

// ---------------------------------------------------------------------
// Saving
// ---------------------------------------------------------------------

#[test]
fn saving_writes_each_record_and_counts_them() {
    let data = parse("[{\"a\":1},{\"a\":2}]");
    let filter = prepare_query(".[]").unwrap();
    let mut results = start_query(&filter, &data);
    let mut out = String::new();
    assert_eq!(save_records(&mut results, "out.jsonl", &mut out), Ok(2));
    assert_eq!(out, "{\"a\":1}\n{\"a\":2}\n");

    let mut results = start_query(&filter, &data);
    let mut out = String::new();
    assert_eq!(save_records(&mut results, "out.JSON", &mut out), Ok(2));
    assert_eq!(out, "{\n  \"a\": 1\n}\n{\n  \"a\": 2\n}\n");

    let filter = prepare_query("empty").unwrap();
    let mut results = start_query(&filter, &data);
    let mut out = String::from("kept");
    assert_eq!(save_records(&mut results, "out.jsonl", &mut out), Ok(0));
    assert_eq!(out, "kept");
}

#[test]
fn saving_stops_at_the_first_error() {
    let data = parse("null");
    let filter = prepare_query("1, 2, error(\"bad\"), 3").unwrap();
    let mut results = start_query(&filter, &data);
    let mut out = String::new();
    let err = save_records(&mut results, "out.jsonl", &mut out).unwrap_err();
    assert!(err.starts_with("Query execution error: "));
    assert!(err.contains("bad"));
    assert_eq!(out, "1\n2\n");
}

#[test]
fn queries_are_prepared_or_refused() {
    assert!(prepare_query(".[0]").is_ok());
    let err = prepare_query(".[] | select(").err().unwrap();
    assert!(err.starts_with("Unable to parse query:\n"));
    let err = prepare_query("no_such_filter_here").err().unwrap();
    assert!(err.starts_with("Unable to compile query:\n"));
}

#[test]
fn first_outputs() {
    assert_eq!(first_output_result(None).unwrap(), None);
    assert_eq!(
        first_output_result(Some(Err(text("oops")))).unwrap_err(),
        "Query runtime error: oops"
    );
    assert_eq!(
        first_output_result(Some(Ok(parse("7")))).unwrap().unwrap().to_string(),
        "7"
    );
}

#[test]
fn pager_session_moves_between_pages() {
    let mut s = PagerSession::new(page(&["a"], 1));
    assert_eq!(s.apply(PagerAction::Previous), PagerStep::Show);
    assert_eq!(s.current_page, 0);
    assert_eq!(s.apply(PagerAction::Next), PagerStep::Fetch);
    assert_eq!(s.deliver(Some(page(&["b"], 2))), PagerStep::Show);
    assert_eq!(s.current_page, 1);
    assert_eq!(s.apply(PagerAction::Previous), PagerStep::Show);
    assert_eq!(s.current_page, 0);
    assert_eq!(s.apply(PagerAction::Next), PagerStep::Show);
    assert_eq!(s.current_page, 1);
    assert_eq!(s.apply(PagerAction::Next), PagerStep::Fetch);
    assert_eq!(s.deliver(None), PagerStep::Close);
    assert!(s.query_finished);
    assert_eq!(s.apply(PagerAction::Quit), PagerStep::Close);
    assert!(!s.cancelled);
    assert_eq!(s.outputs(), 3);
    assert_eq!(
        s.summary(),
        "[pager closed — 3 result(s) across 2 page(s)]"
    );
}

#[test]
fn quitting_early_stops_the_stream() {
    let mut s = PagerSession::new(page(&["a"], 4));
    assert_eq!(s.apply(PagerAction::Quit), PagerStep::Close);
    assert!(s.cancelled);
    assert_eq!(
        s.summary(),
        "[stream stopped — 4 result(s) generated across 1 page(s)]"
    );
}

#[test]
fn status_lines() {
    assert_eq!(
        page_status(0, 1, false),
        "[page 1/1 | Enter: close | Backspace: previous | q: quit]"
    );
    assert_eq!(
        page_status(0, 1, true),
        "[page 1/1 | Enter: close | Backspace: previous | q: quit]"
    );
    assert_eq!(
        page_status(2, 5, true),
        "[page 3/5 | Enter: next | Backspace: previous | q: quit]"
    );
    assert_eq!(
        page_status(2, 5, false),
        "[page 3 | Enter: next | Backspace: previous | q: stop]"
    );
    assert_eq!(
        page_frame(&page(&["x", "y"], 1), 1, 2, false),
        "x\r\ny\r\n\r\n[page 2 | Enter: next | Backspace: previous | q: stop]"
    );
    let s = PagerSession::new(page(&["only"], 1));
    assert_eq!(
        s.screen(),
        "only\r\n\r\n[page 1/1 | Enter: close | Backspace: previous | q: quit]"
    );
}

#[test]
fn keys_map_to_actions() {
    let key = |key, control, press| KeyPress { key, control, press };
    assert_eq!(pager_action_for_key(key(PagerKey::Enter, false, true)), Some(PagerAction::Next));
    assert_eq!(
        pager_action_for_key(key(PagerKey::Backspace, false, true)),
        Some(PagerAction::Previous)
    );
    assert_eq!(pager_action_for_key(key(PagerKey::Char('q'), false, true)), Some(PagerAction::Quit));
    assert_eq!(pager_action_for_key(key(PagerKey::Char('Q'), true, true)), Some(PagerAction::Quit));
    assert_eq!(pager_action_for_key(key(PagerKey::Char('c'), true, true)), Some(PagerAction::Quit));
    assert_eq!(pager_action_for_key(key(PagerKey::Char('c'), false, true)), None);
    assert_eq!(pager_action_for_key(key(PagerKey::Char(' '), false, true)), Some(PagerAction::Next));
    assert_eq!(
        pager_action_for_key(key(PagerKey::Char('b'), false, true)),
        Some(PagerAction::Previous)
    );
    assert_eq!(pager_action_for_key(key(PagerKey::Enter, false, false)), None);
    assert_eq!(pager_action_for_key(key(PagerKey::Other, false, true)), None);
}

#[test]
fn page_sizes() {
    assert_eq!(page_size_for_height(Some(24)), 21);
    assert_eq!(page_size_for_height(Some(9)), 6);
    assert_eq!(page_size_for_height(Some(8)), 5);
    assert_eq!(page_size_for_height(Some(2)), 5);
    assert_eq!(page_size_for_height(None), 21);
}

// ---------------------------------------------------------------------
// Prompt
// ---------------------------------------------------------------------

#[test]
fn prompt_commands() {
    let none: Option<String> = None;
    let last = Some(text(".[0]"));
    assert!(matches!(plan_repl_line(RootType::Array, &none, "   "), ReplAction::Skip));
    assert!(matches!(plan_repl_line(RootType::Array, &none, ":quit"), ReplAction::Quit));
    assert!(matches!(plan_repl_line(RootType::Array, &none, "  :exit "), ReplAction::Quit));
    assert!(matches!(plan_repl_line(RootType::Array, &none, ":help"), ReplAction::Help));
    assert!(matches!(plan_repl_line(RootType::Array, &none, ":info"), ReplAction::Info));
    assert!(matches!(plan_repl_line(RootType::Array, &none, ":clear"), ReplAction::Clear));
    match plan_repl_line(RootType::Array, &none, ":last") {
        ReplAction::Print(t) => assert_eq!(t, "No previous query."),
        other => panic!("unexpected {other:?}"),
    }
    match plan_repl_line(RootType::Array, &last, ":last") {
        ReplAction::Print(t) => assert_eq!(t, ".[0]"),
        other => panic!("unexpected {other:?}"),
    }
}

#[test]
fn prompt_saves_and_redirects() {
    let none: Option<String> = None;
    let last = Some(text(".[0]"));
    match plan_repl_line(RootType::Array, &none, ":save") {
        ReplAction::Report(t) => assert_eq!(t, "Usage: :save <filename>"),
        other => panic!("unexpected {other:?}"),
    }
    match plan_repl_line(RootType::Array, &last, ":save out.json") {
        ReplAction::Save(r) => {
            assert_eq!(r.query, ".[0]");
            assert_eq!(r.filename, "out.json");
        }
        other => panic!("unexpected {other:?}"),
    }
    match plan_repl_line(RootType::Array, &none, ".[] | .cve_id >> ids.jsonl") {
        ReplAction::Redirect(r) => {
            assert_eq!(r.query, ".[] | .cve_id");
            assert_eq!(r.filename, "ids.jsonl");
            assert_eq!(r.mode, RedirectMode::Append);
        }
        other => panic!("unexpected {other:?}"),
    }
    match plan_repl_line(RootType::Array, &none, "> x") {
        ReplAction::Report(t) => assert_eq!(t, "Missing jq query before redirection."),
        other => panic!("unexpected {other:?}"),
    }
}

#[test]
fn prompt_queries_are_validated() {
    let none: Option<String> = None;
    match plan_repl_line(RootType::Array, &none, "  .[0]  ") {
        ReplAction::Run(q) => assert_eq!(q, ".[0]"),
        other => panic!("unexpected {other:?}"),
    }
    match plan_repl_line(RootType::Array, &none, ".cve_id") {
        ReplAction::Report(t) => assert!(t.contains("root is an array")),
        other => panic!("unexpected {other:?}"),
    }
    match plan_repl_line(RootType::Object, &none, ".[] | select(") {
        ReplAction::Report(t) => assert!(t.starts_with("Invalid jq syntax:\n")),
        other => panic!("unexpected {other:?}"),
    }
}

#[test]
fn only_queries_that_ran_become_the_last_query() {
    let mut last: Option<String> = None;
    let run = plan_repl_line(RootType::Array, &last, " .[0] ");
    remember_query(&mut last, &run, false);
    assert_eq!(last, None);
    remember_query(&mut last, &run, true);
    assert_eq!(last, Some(text(".[0]")));
    let refused = plan_repl_line(RootType::Array, &last, ".cve_id");
    remember_query(&mut last, &refused, true);
    assert_eq!(last, Some(text(".[0]")));
    let redirect = plan_repl_line(RootType::Array, &last, ".[] | .a > out.jsonl");
    remember_query(&mut last, &redirect, true);
    assert_eq!(last, Some(text(".[] | .a")));
    let save = plan_repl_line(RootType::Array, &last, ":save again.json");
    remember_query(&mut last, &save, true);
    assert_eq!(last, Some(text(".[] | .a")));
}

#[test]
fn the_dataset_is_parsed_once_from_bytes() {
    let data = jq2::jq::parse_dataset(b"[{\"id\":1},{\"id\":2}]").unwrap();
    assert_eq!(data.to_string(), "[{\"id\":1},{\"id\":2}]");
    assert_eq!(execute_single(&data, "length").unwrap().unwrap().to_string(), "2");
    let err = jq2::jq::parse_dataset(b"[1,").unwrap_err();
    assert!(err.starts_with("JSON parse error: "));
    assert!(jq2::jq::parse_dataset(b"1 2").is_err());
}

#[test]
fn spaced_redirections_round_trip() {
    let r = parse_redirection(".[] | select(.a > 1) >> out.jsonl").unwrap().unwrap();
    assert_eq!(r.query, ".[] | select(.a > 1)");
    assert_eq!(r.filename, "out.jsonl");
    assert_eq!(r.mode, RedirectMode::Append);
    let r = parse_redirection("  .[0]  > first.json").unwrap().unwrap();
    assert_eq!(r.query, ".[0]");
    assert_eq!(r.filename, "first.json");
    assert_eq!(r.mode, RedirectMode::Truncate);
}

#[test]
fn the_same_query_gives_the_same_first_value() {
    let data = parse("[{\"cve_id\":\"CVE-1\"},{\"cve_id\":\"CVE-2\"}]");
    let a = execute_single(&data, ".[].cve_id").unwrap().unwrap();
    let b = execute_single(&data, ".[].cve_id").unwrap().unwrap();
    assert_eq!(a.to_string(), "\"CVE-1\"");
    assert_eq!(a.to_string(), b.to_string());
    assert!(execute_single(&data, "empty").unwrap().is_none());
    assert!(execute_single(&data, "error(\"x\")").unwrap_err().starts_with("Query runtime error: "));
}
