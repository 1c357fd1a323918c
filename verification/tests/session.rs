use jaq_json::{read, Val};
use jq2::jq::{detect_root_type, execute_single, write_pretty_json};
use jq2::query::{direct_root_field, validate_query, RootType};
use jq2::redirect::{parse_redirection, should_pretty_print_file, RedirectMode};

fn parse(json: &str) -> Val {
    read::parse_single(json.as_bytes()).expect("test JSON should parse")
}

fn query_one(dataset: &Val, query: &str) -> Val {
    execute_single(dataset, query)
        .expect("query should execute")
        .expect("query should produce a value")
}

fn query_string(dataset: &Val, query: &str) -> String {
    query_one(dataset, query).to_string()
}

fn megavul_sample() -> Val {
    parse(
        r#"
        [
            {
                "cve_id": "CVE-2026-0001",
                "is_vul": true,
                "func_name": "bad_function",
                "repo_name": "repo-a"
            },
            {
                "cve_id": "CVE-2026-0002",
                "is_vul": false,
                "func_name": "safe_function",
                "repo_name": "repo-b"
            },
            {
                "cve_id": "CVE-2026-0003",
                "is_vul": true,
                "func_name": "another_bad_function",
                "repo_name": "repo-a"
            }
        ]
        "#,
    )
}

#[test]
fn parses_array_dataset() {
    let dataset = parse(r#"[{"id":1},{"id":2}]"#);
    assert_eq!(query_string(&dataset, "length"), "2");
}

#[test]
fn parses_object_dataset() {
    let dataset = parse(r#"{"name":"MegaVul","count":353873}"#);
    assert_eq!(query_string(&dataset, ".name"), "\"MegaVul\"");
}

#[test]
fn pretty_prints_object() {
    let value = parse(r#"{"cve_id":"CVE-1","is_vul":true}"#);
    let mut output = String::new();
    write_pretty_json(&mut output, &value).unwrap();
    assert!(output.contains("\"cve_id\": \"CVE-1\""));
    assert!(output.contains("\"is_vul\": true"));
    assert!(output.starts_with("{\n"));
    assert!(output.ends_with("}\n"));
}

#[test]
fn pretty_prints_nested_array() {
    let value = parse(r#"{"cwe_ids":["CWE-79","CWE-89"]}"#);
    let mut output = String::new();
    write_pretty_json(&mut output, &value).unwrap();
    println!("{:?},{}", output, output.contains("\"cwe_ids\""));
    assert!(output.contains(r#""cwe_ids": ["#));
    assert!(output.contains("\"CWE-79\""));
    assert!(output.contains("\"CWE-89\""));
}

#[test]
fn json_file_uses_pretty_output() {
    assert!(should_pretty_print_file("results.json"));
}

#[test]
fn jsonl_file_uses_compact_output() {
    assert!(!should_pretty_print_file("results.jsonl"));
    assert!(!should_pretty_print_file("results.ndjson"));
}

#[test]
fn detects_array_root() {
    let dataset = parse(r#"[1,2,3]"#);
    assert_eq!(detect_root_type(&dataset).unwrap(), RootType::Array);
}

#[test]
fn detects_object_root() {
    let dataset = parse(r#"{"hello":"world"}"#);
    assert_eq!(detect_root_type(&dataset).unwrap(), RootType::Object);
}

#[test]
fn detects_other_root() {
    let dataset = parse(r#""hello""#);
    assert_eq!(detect_root_type(&dataset).unwrap(), RootType::Other);
}

#[test]
fn recognizes_direct_root_field() {
    assert_eq!(direct_root_field(".cve_id"), Some("cve_id".to_string()));
}

#[test]
fn recognizes_is_vul_root_field() {
    assert_eq!(direct_root_field(".is_vul"), Some("is_vul".to_string()));
}

#[test]
fn does_not_treat_array_index_as_root_field() {
    assert_eq!(direct_root_field(".[0].cve_id"), None);
}

#[test]
fn does_not_treat_array_iterator_as_root_field() {
    assert_eq!(direct_root_field(".[].cve_id"), None);
}

#[test]
fn does_not_treat_identity_as_root_field() {
    assert_eq!(direct_root_field("."), None);
}

#[test]
fn does_not_treat_pipe_as_root_field() {
    assert_eq!(direct_root_field(". | length"), None);
}

#[test]
fn rejects_direct_field_on_array_root() {
    let result = validate_query(RootType::Array, ".cve_id");
    assert!(result.is_err());
    let error = result.unwrap_err();
    assert!(error.contains("root is an array"));
    assert!(error.contains(".[].cve_id"));
    assert!(error.contains(".[0].cve_id"));
}

#[test]
fn allows_direct_field_on_object_root() {
    assert!(validate_query(RootType::Object, ".cve_id").is_ok());
}

#[test]
fn allows_array_index() {
    assert!(validate_query(RootType::Array, ".[0].cve_id").is_ok());
}

#[test]
fn allows_array_iterator() {
    assert!(validate_query(RootType::Array, ".[].cve_id").is_ok());
}

#[test]
fn rejects_bad_jq_syntax() {
    let result = validate_query(RootType::Array, ".[] | select(.is_vul ==");
    assert!(result.is_err());
}

#[test]
fn rejects_empty_query() {
    assert!(validate_query(RootType::Array, "").is_err());
}

#[test]
fn gets_first_record_cve() {
    let dataset = megavul_sample();
    assert_eq!(query_string(&dataset, ".[0].cve_id"), "\"CVE-2026-0001\"");
}

#[test]
fn gets_second_record_cve() {
    let dataset = megavul_sample();
    assert_eq!(query_string(&dataset, ".[1].cve_id"), "\"CVE-2026-0002\"");
}

#[test]
fn gets_dataset_length() {
    let dataset = megavul_sample();
    assert_eq!(query_string(&dataset, "length"), "3");
}

#[test]
fn accesses_boolean_field() {
    let dataset = megavul_sample();
    assert_eq!(query_string(&dataset, ".[0].is_vul"), "true");
}

#[test]
fn counts_vulnerable_records() {
    let dataset = megavul_sample();
    let result = query_string(
        &dataset,
        r#"
        [
            .[]
            | select(.is_vul == true)
        ]
        | length
        "#,
    );
    assert_eq!(result, "2");
}

#[test]
fn counts_non_vulnerable_records() {
    let dataset = megavul_sample();
    let result = query_string(
        &dataset,
        r#"
        [
            .[]
            | select(.is_vul == false)
        ]
        | length
        "#,
    );
    assert_eq!(result, "1");
}

#[test]
fn selects_vulnerable_function_name() {
    let dataset = megavul_sample();
    let result = query_string(
        &dataset,
        r#"
        first(
            .[]
            | select(.is_vul == true)
            | .func_name
        )
        "#,
    );
    assert_eq!(result, "\"bad_function\"");
}

#[test]
fn supports_map() {
    let dataset = megavul_sample();
    let result = query_string(&dataset, "map(.cve_id) | length");
    assert_eq!(result, "3");
}

#[test]
fn supports_select() {
    let dataset = megavul_sample();
    let result = query_string(
        &dataset,
        r#"
        map(
            select(
                .repo_name == "repo-a"
            )
        )
        | length
        "#,
    );
    assert_eq!(result, "2");
}

#[test]
fn supports_group_by() {
    let dataset = megavul_sample();
    let result = query_string(
        &dataset,
        r#"
        group_by(.repo_name)
        | length
        "#,
    );
    assert_eq!(result, "2");
}

#[test]
fn query_does_not_modify_dataset() {
    let dataset = megavul_sample();
    let before = query_string(&dataset, "length");
    let _ = query_string(&dataset, ".[0].cve_id");
    let after = query_string(&dataset, "length");
    assert_eq!(before, after);
    assert_eq!(after, "3");
}

#[test]
fn parses_truncate_redirection() {
    let result = parse_redirection(".[] | .cve_id > cves.jsonl").unwrap().unwrap();
    assert_eq!(result.query, ".[] | .cve_id");
    assert_eq!(result.filename, "cves.jsonl");
    assert_eq!(result.mode, RedirectMode::Truncate);
}

#[test]
fn parses_append_redirection() {
    let result = parse_redirection(".[] | .cve_id >> cves.jsonl").unwrap().unwrap();
    assert_eq!(result.query, ".[] | .cve_id");
    assert_eq!(result.filename, "cves.jsonl");
    assert_eq!(result.mode, RedirectMode::Append);
}

#[test]
fn jq_greater_than_is_not_redirection() {
    let result = parse_redirection(".[] | select(.cvss_base_score > 7)").unwrap();
    assert_eq!(result, None);
}

#[test]
fn jq_comparison_and_redirection_can_coexist() {
    let result = parse_redirection(".[] | select(.cvss_base_score > 7) > severe.jsonl")
        .unwrap()
        .unwrap();
    assert_eq!(result.query, ".[] | select(.cvss_base_score > 7)");
    assert_eq!(result.filename, "severe.jsonl");
}

#[test]
fn greater_than_inside_string_is_not_redirection() {
    let result = parse_redirection(r#".[] | select(.commit_msg == "x > y")"#).unwrap();
    assert_eq!(result, None);
}

#[test]
fn multiple_queries_use_same_dataset_value() {
    let dataset = megavul_sample();
    assert_eq!(query_string(&dataset, ".[0].cve_id"), "\"CVE-2026-0001\"");
    assert_eq!(query_string(&dataset, ".[1].cve_id"), "\"CVE-2026-0002\"");
    assert_eq!(query_string(&dataset, "length"), "3");
}

#[test]
fn malformed_filter_fails_without_damaging_dataset() {
    let dataset = megavul_sample();
    assert!(validate_query(RootType::Array, ".[] | select(").is_err());
    assert_eq!(query_string(&dataset, "length"), "3");
}
