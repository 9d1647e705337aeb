use qsvdp::budget::ErrorBudget;
use qsvdp::engine::{next_position, start_position};
use qsvdp::hostfns::{coalesce_pick, compose_log_line};
use qsvdp::phases::{prepare_phases, uses_index_var};
use qsvdp::util::{chunk_size, condense, errif_greater_one_stdin, idx_path, many_configs,
    num_of_chunks, range, Config, FilenameTemplate, RangeError};
use qsvdp::value::{to_end_text, to_filter_decision, to_output_fields, Computed, Scalar};

fn b(s: &str) -> Vec<u8> {
    s.as_bytes().to_vec()
}

fn s(v: &Vec<u8>) -> String {
    String::from_utf8(v.clone()).unwrap()
}

#[test]
fn prepare_extracts_embedded_blocks() {
    let p = prepare_phases(&b("BEGIN { s = 0 }! return s END { return s }!"), &None, &None, true);
    assert_eq!(s(&p.begin), "s = 0");
    assert_eq!(s(&p.end), "return s");
    assert_eq!(s(&p.main), "return s");
    assert!(!p.uses_index);
}

#[test]
fn prepare_explicit_takes_precedence() {
    let p = prepare_phases(
        &b("BEGIN { s = 0 }! return s END { return s }!"),
        &Some(b("s = 9")),
        &Some(b("return 42")),
        true,
    );
    assert_eq!(s(&p.begin), "s = 9");
    assert_eq!(s(&p.end), "return 42");
    assert_eq!(s(&p.main), "return s");
}

#[test]
fn prepare_frames_eval_mode() {
    let p = prepare_phases(&b("  a + b  "), &None, &None, false);
    assert_eq!(s(&p.main), "return a + b");
    assert_eq!(s(&p.begin), "");
    assert_eq!(s(&p.end), "");
}

#[test]
fn index_variable_selects_random_access() {
    assert!(uses_index_var(&b("_INDEX = _INDEX - 1")));
    assert!(!uses_index_var(&b("return a + b")));
    let p = prepare_phases(&b("BEGIN { _INDEX = 0 }! return 1"), &None, &None, true);
    assert!(p.uses_index);
}

#[test]
fn marshal_scalars_to_fields() {
    let f = to_output_fields(&Computed::Scalar(Scalar::Str(b("hi"))), 1).unwrap();
    assert_eq!(f.len(), 1);
    assert_eq!(s(&f[0]), "hi");
    let f = to_output_fields(&Computed::Scalar(Scalar::Int(-42)), 1).unwrap();
    assert_eq!(s(&f[0]), "-42");
    let f = to_output_fields(&Computed::Scalar(Scalar::Bool(true)), 1).unwrap();
    assert_eq!(s(&f[0]), "true");
    let f = to_output_fields(&Computed::Scalar(Scalar::Nil), 1).unwrap();
    assert_eq!(s(&f[0]), "");
}

#[test]
fn marshal_composite_pads_and_cuts() {
    let vals = Computed::Composite(vec![Scalar::Int(1), Scalar::Int(2)]);
    let f = to_output_fields(&vals, 4).unwrap();
    let texts: Vec<String> = f.iter().map(s).collect();
    assert_eq!(texts, vec!["1", "2", "", ""]);

    let vals = Computed::Composite(vec![Scalar::Int(1), Scalar::Int(2), Scalar::Int(3)]);
    let f = to_output_fields(&vals, 2).unwrap();
    let texts: Vec<String> = f.iter().map(s).collect();
    assert_eq!(texts, vec!["1", "2"]);
}

#[test]
fn marshal_rejects_unsupported_kinds() {
    let r = to_output_fields(&Computed::Scalar(Scalar::Other(b("function"))), 1);
    assert!(r.is_err());
    let r = to_output_fields(
        &Computed::Composite(vec![Scalar::Int(1), Scalar::Other(b("table"))]),
        2,
    );
    assert!(r.is_err());
    let e = to_end_text(&Computed::Composite(vec![Scalar::Int(1)])).unwrap_err();
    assert_eq!(s(&e), "table");
}

#[test]
fn filter_decisions() {
    assert!(to_filter_decision(&Computed::Scalar(Scalar::Nil), true));
    assert!(!to_filter_decision(&Computed::Scalar(Scalar::Nil), false));
    assert!(!to_filter_decision(&Computed::Scalar(Scalar::Str(Vec::new())), false));
    assert!(to_filter_decision(&Computed::Scalar(Scalar::Str(b("x"))), false));
    assert!(!to_filter_decision(&Computed::Scalar(Scalar::Int(0)), false));
    assert!(to_filter_decision(&Computed::Scalar(Scalar::Int(-3)), false));
    assert!(to_filter_decision(&Computed::Scalar(Scalar::Bool(true)), false));
    assert!(!to_filter_decision(&Computed::Scalar(Scalar::Bool(false)), false));
    assert!(to_filter_decision(&Computed::Composite(Vec::new()), false));
}

#[test]
fn error_budget_rules() {
    let mut budget = ErrorBudget::new(2);
    assert!(budget.final_outcome().is_ok());
    assert!(!budget.should_abort());
    budget.record_failure();
    budget.record_failure();
    assert!(!budget.should_abort());
    budget.record_failure();
    assert!(budget.should_abort());
    assert_eq!(budget.count(), 3);
    let e = budget.final_outcome().unwrap_err();
    assert_eq!(s(&e.message()), "Luau errors encountered: 3");

    let mut unlimited = ErrorBudget::new(0);
    unlimited.record_failure();
    assert!(!unlimited.should_abort());
    assert!(unlimited.final_outcome().is_err());
}

#[test]
fn positions_follow_the_cursor() {
    // in [1, row_count]: taken as it stands
    assert_eq!(next_position(3, 4), Some(3));
    assert_eq!(next_position(4, 4), Some(4));
    // tolerated but out of the window: the first row
    assert_eq!(next_position(0, 4), Some(0));
    // the designed exits
    assert_eq!(next_position(-1, 4), None);
    assert_eq!(next_position(5, 4), None);
    assert_eq!(start_position(2, 4), 2);
    assert_eq!(start_position(0, 4), 0);
    assert_eq!(start_position(-7, 4), 0);
}

#[test]
fn log_lines_and_coalescing() {
    let line = compose_log_line(&b("WARN"), &vec![b("a"), b("b")]);
    assert_eq!(s(&line), "warn: ab");
    let line = compose_log_line(&b("loud"), &vec![b("x")]);
    assert_eq!(s(&line), "info: unknown log level: loud msg: x");
    let picked = coalesce_pick(&vec![Scalar::Nil, Scalar::Str(Vec::new()), Scalar::Int(7)]);
    assert_eq!(s(&picked), "7");
    let picked = coalesce_pick(&vec![Scalar::Nil]);
    assert_eq!(s(&picked), "");
}

#[test]
fn condense_counts_characters() {
    assert_eq!(s(&condense(b("hello"), None)), "hello");
    assert_eq!(s(&condense(b("hello"), Some(5))), "hello");
    assert_eq!(s(&condense(b("hello"), Some(3))), "hel...");
    // multi-byte characters count as one
    assert_eq!(s(&condense(b("héllo"), Some(2))), "hé...");
    // text that is not well-formed UTF-8 is cut on bytes
    let mut bad = vec![0xffu8, 0xfe, 0x61, 0x62];
    assert_eq!(condense(bad.clone(), Some(2)), vec![0xffu8, 0xfe, 46, 46, 46]);
    bad.truncate(2);
    assert_eq!(condense(bad.clone(), Some(2)), bad);
}

#[test]
fn range_selection() {
    assert_eq!(range(None, None, None, Some(2)), Ok((2, 3)));
    assert_eq!(range(None, None, None, None), Ok((0, usize::MAX)));
    assert_eq!(range(Some(3), None, None, None), Ok((3, usize::MAX)));
    assert_eq!(range(Some(1), Some(5), None, None), Ok((1, 5)));
    assert_eq!(range(Some(2), None, Some(4), None), Ok((2, 6)));
    assert!(matches!(
        range(Some(1), None, None, Some(2)),
        Err(RangeError::IndexWithOthers)
    ));
    assert!(matches!(
        range(None, Some(2), Some(3), None),
        Err(RangeError::EndWithLen)
    ));
    let e = range(Some(5), Some(2), None, None).unwrap_err();
    assert!(matches!(e, RangeError::EndBeforeStart { start: 5, end: 2 }));
    assert_eq!(
        s(&e.message()),
        "The end of the range (2) must be greater than or\nequal to the start of the range (5)."
    );
}

#[test]
fn chunking() {
    assert_eq!(chunk_size(10, 4), 2);
    assert_eq!(chunk_size(3, 4), 3);
    assert_eq!(num_of_chunks(10, 3), 4);
    assert_eq!(num_of_chunks(9, 3), 3);
    assert_eq!(num_of_chunks(10, 0), 10);
}

#[test]
fn configs_and_stdin() {
    let cs = many_configs(&vec![b("a.csv"), b("b.csv")], Some(59), true).unwrap();
    assert_eq!(cs.len(), 2);
    assert_eq!(cs[0].delimiter, Some(59));
    assert!(cs[0].no_headers);
    assert!(!cs[0].checkutf8);
    assert!(!cs[0].is_stdin());

    // no inputs: the standard input
    let cs = many_configs(&Vec::new(), None, false).unwrap();
    assert_eq!(cs.len(), 1);
    assert!(cs[0].is_stdin());

    // two stdin inputs are rejected
    let e = many_configs(&vec![b("-"), b("-")], None, false).unwrap_err();
    assert_eq!(s(&e), "At most one <stdin> input is allowed.");

    let one = vec![Config::new(&Some(b("-")))];
    assert!(errif_greater_one_stdin(&one).is_ok());
}

#[test]
fn index_artifact_path() {
    assert_eq!(s(&idx_path(&b("data.csv"))), "data.csv.idx");
}

#[test]
fn filename_template() {
    let t = FilenameTemplate::from_template(&b("part-{}.csv")).unwrap();
    assert_eq!(s(&t.filename(&b("7"))), "part-7.csv");
    assert!(FilenameTemplate::from_template(&b("no marker")).is_err());
    assert!(FilenameTemplate::from_template(&b("{}{}")).is_err());
}

#[test]
fn safe_names_for_headers() {
    let out = qsvdp::util::safe_header_names(
        &vec![b("letter-column"), b("number column"), b("9lives"), b("caf\u{e9}")],
        true,
    );
    let texts: Vec<String> = out.iter().map(|v| s(v)).collect();
    assert_eq!(texts, vec!["letter_column", "number_column", "_lives", "caf_"]);
    let out = qsvdp::util::safe_header_names(&vec![b("9lives")], false);
    assert_eq!(s(&out[0]), "9lives");
}
