use qsvdp::budget::RunError;
use qsvdp::engine::{compile_phases, indexed_begin, indexed_finish, indexed_step, run_sequential,
    CompiledPhases, Fatal, Opts, RunOutput};
use qsvdp::phases::{prepare_phases, Phases};
use qsvdp::session::{install_coalesce_helper, install_log_helper, new_session, Session};

fn b(s: &str) -> Vec<u8> {
    s.as_bytes().to_vec()
}

fn record(fields: &[&str]) -> Vec<Vec<u8>> {
    fields.iter().map(|f| b(f)).collect()
}

fn to_strings(records: &Vec<Vec<Vec<u8>>>) -> Vec<Vec<String>> {
    records
        .iter()
        .map(|r| r.iter().map(|f| String::from_utf8(f.clone()).unwrap()).collect())
        .collect()
}

fn session() -> Session {
    let mut s = new_session();
    install_log_helper(&mut s).unwrap();
    install_coalesce_helper(&mut s).unwrap();
    s
}

fn map_opts() -> Opts {
    Opts { map_mode: true, no_globals: false, no_headers: false, max_errors: 100 }
}

fn filter_opts() -> Opts {
    Opts { map_mode: false, no_globals: false, no_headers: false, max_errors: 100 }
}

fn prepared(main: &str, begin: Option<&str>, end: Option<&str>, exec_mode: bool) -> (Phases,
    CompiledPhases) {
    let phases = prepare_phases(&b(main), &begin.map(b), &end.map(b), exec_mode);
    let cp = compile_phases(&phases);
    (phases, cp)
}

fn run_map(
    main: &str,
    begin: Option<&str>,
    end: Option<&str>,
    exec_mode: bool,
    new_columns: &str,
    headers: &[&str],
    data: &[&[&str]],
    opts: Opts,
) -> RunOutput {
    let (phases, cp) = prepared(main, begin, end, exec_mode);
    let mut sess = session();
    let hdr = record(headers);
    let rows: Vec<Vec<Vec<u8>>> = data.iter().map(|r| record(r)).collect();
    run_sequential(&mut sess, &cp, &phases.begin, &rows, &hdr, &Some(b(new_columns)), &opts)
}

fn run_filter(main: &str, headers: &[&str], data: &[&[&str]]) -> RunOutput {
    let (phases, cp) = prepared(main, None, None, false);
    let mut sess = session();
    let hdr = record(headers);
    let rows: Vec<Vec<Vec<u8>>> = data.iter().map(|r| record(r)).collect();
    run_sequential(&mut sess, &cp, &phases.begin, &rows, &hdr, &None, &filter_opts())
}

fn run_indexed(
    main_script: &str,
    exec_mode: bool,
    new_columns: &str,
    headers: &[&str],
    data: &[&[&str]],
    opts: Opts,
) -> RunOutput {
    let (phases, cp) = prepared(main_script, None, None, exec_mode);
    assert!(phases.uses_index);
    let mut sess = session();
    let hdr = record(headers);
    let rows: Vec<Vec<Vec<u8>>> = data.iter().map(|r| record(r)).collect();
    let mut run = indexed_begin(
        &mut sess,
        &cp,
        &phases.begin,
        &rows,
        &hdr,
        &Some(b(new_columns)),
        &opts,
    );
    while !run.done {
        if indexed_step(&mut sess, &mut run, &cp, &rows, &hdr, &opts) {
            break;
        }
    }
    indexed_finish(&mut sess, run, &cp)
}

fn letters_numbers() -> Vec<Vec<&'static str>> {
    vec![
        vec!["a", "13"],
        vec!["b", "24"],
        vec!["c", "72"],
        vec!["d", "7"],
    ]
}

fn assert_success(out: &RunOutput) {
    assert!(out.fatal.is_none());
    assert_eq!(out.error_count, 0);
}

fn diagnostic_string(out: &RunOutput) -> String {
    String::from_utf8(out.diagnostic.clone().unwrap()).unwrap()
}

#[test]
fn luau_map() {
    let out = run_map(
        "number + 1",
        None,
        None,
        false,
        "inc",
        &["letter", "number"],
        &[&["a", "13"], &["b", "24"], &["c", "72"], &["d", "7"]],
        map_opts(),
    );
    assert!(out.fatal.is_none());
    let expected = vec![
        vec!["letter", "number", "inc"],
        vec!["a", "13", "14"],
        vec!["b", "24", "25"],
        vec!["c", "72", "73"],
        vec!["d", "7", "8"],
    ];
    assert_eq!(to_strings(&out.records), expected);
}

#[test]
fn luau_map_idx() {
    let out = run_map(
        "number * _IDX",
        None,
        None,
        false,
        "inc",
        &["letter", "number"],
        &[&["a", "13"], &["b", "24"], &["c", "72"], &["d", "7"]],
        map_opts(),
    );
    assert!(out.fatal.is_none());
    let expected = vec![
        vec!["letter", "number", "inc"],
        vec!["a", "13", "13"],
        vec!["b", "24", "48"],
        vec!["c", "72", "216"],
        vec!["d", "7", "28"],
    ];
    assert_eq!(to_strings(&out.records), expected);
}

#[test]
fn luau_aggregation() {
    let out = run_map(
        "tot = (tot or 0) + Amount; return tot",
        None,
        None,
        true,
        "Total",
        &["letter", "Amount"],
        &[&["a", "13"], &["b", "24"], &["c", "72"], &["d", "7"]],
        map_opts(),
    );
    assert!(out.fatal.is_none());
    let expected = vec![
        vec!["letter", "Amount", "Total"],
        vec!["a", "13", "13"],
        vec!["b", "24", "37"],
        vec!["c", "72", "109"],
        vec!["d", "7", "116"],
    ];
    assert_eq!(to_strings(&out.records), expected);
}

#[test]
fn luau_aggregation_with_begin() {
    let out = run_map(
        "tot = tot + Amount; return tot",
        Some("tot = 0"),
        None,
        true,
        "Total",
        &["letter", "Amount"],
        &[&["a", "13"], &["b", "24"], &["c", "72"], &["d", "7"]],
        map_opts(),
    );
    assert!(out.fatal.is_none());
    let expected = vec![
        vec!["letter", "Amount", "Total"],
        vec!["a", "13", "13"],
        vec!["b", "24", "37"],
        vec!["c", "72", "109"],
        vec!["d", "7", "116"],
    ];
    assert_eq!(to_strings(&out.records), expected);
}

#[test]
fn luau_aggregation_with_begin_end() {
    let out = run_map(
        "amt_array[_IDX] = Amount; tot = tot + Amount; gtotal = gtotal + tot; return tot",
        Some("tot = 0; gtotal = 0; amt_array = {}"),
        Some(
            r#"return ("Min/Max: " .. math.min(unpack(amt_array)) .. "/" .. math.max(unpack(amt_array)) .. " Grand total of " .. _ROWCOUNT .. " rows: " .. gtotal)"#,
        ),
        true,
        "Total",
        &["letter", "Amount"],
        &[&["a", "13"], &["b", "24"], &["c", "72"], &["d", "7"]],
        map_opts(),
    );
    let expected = vec![
        vec!["letter", "Amount", "Total"],
        vec!["a", "13", "13"],
        vec!["b", "24", "37"],
        vec!["c", "72", "109"],
        vec!["d", "7", "116"],
    ];
    assert_eq!(to_strings(&out.records), expected);
    assert_eq!(diagnostic_string(&out), "Min/Max: 7/72 Grand total of 4 rows: 275");
    assert_success(&out);
}

#[test]
fn luau_aggregation_with_embedded_begin_end() {
    let out = run_map(
        "BEGIN {tot = 0; gtotal = 0; amt_array = {}}! amt_array[_IDX] = Amount; tot = tot + \
         Amount; gtotal = gtotal + tot; return tot END {return (\"Min/Max: \" .. \
         math.min(unpack(amt_array)) .. \"/\" .. math.max(unpack(amt_array)) .. \" Grand \
         total of \" .. _ROWCOUNT .. \" rows: \" .. gtotal)}!",
        None,
        None,
        true,
        "Total",
        &["letter", "Amount"],
        &[&["a", "13"], &["b", "24"], &["c", "72"], &["d", "7"]],
        map_opts(),
    );
    let expected = vec![
        vec!["letter", "Amount", "Total"],
        vec!["a", "13", "13"],
        vec!["b", "24", "37"],
        vec!["c", "72", "109"],
        vec!["d", "7", "116"],
    ];
    assert_eq!(to_strings(&out.records), expected);
    assert_eq!(diagnostic_string(&out), "Min/Max: 7/72 Grand total of 4 rows: 275");
    assert_success(&out);
}

#[test]
fn luau_aggregation_with_embedded_begin_end_using_file() {
    let script = r#"
BEGIN {
    -- this is the BEGIN block, which is executed once at the beginning
    -- where we typically initialize variables
    running_total = 0;
    grand_total = 0;
    amount_array = {};
}!

-- this is the MAIN script, which is executed for each row
-- note how we use the _IDX special variable to get the row index
amount_array[_IDX] = Amount;
running_total = running_total + Amount;
grand_total = grand_total + running_total;
-- running_total is the value we "map" to the "Running Total" column of each row
return running_total;

END {
    -- and this is the END block, which is executed once at the end
    -- note how we use the _ROWCOUNT special variable to get the number of rows
    min_amount = math.min(unpack(amount_array));
    max_amount = math.max(unpack(amount_array));
    return ("Min/Max: " .. min_amount .. "/" .. max_amount ..
       " Grand total of " .. _ROWCOUNT .. " rows: " .. grand_total);
}!
"#;
    let out = run_map(
        script,
        None,
        None,
        true,
        "Running Total",
        &["letter", "Amount"],
        &[&["a", "13"], &["b", "24"], &["c", "72"], &["d", "7"]],
        map_opts(),
    );
    let expected = vec![
        vec!["letter", "Amount", "Running Total"],
        vec!["a", "13", "13"],
        vec!["b", "24", "37"],
        vec!["c", "72", "109"],
        vec!["d", "7", "116"],
    ];
    assert_eq!(to_strings(&out.records), expected);
    assert_eq!(diagnostic_string(&out), "Min/Max: 7/72 Grand total of 4 rows: 275");
    assert_success(&out);
}

#[test]
fn luau_aggregation_with_embedded_begin_end_and_beginend_options() {
    // explicit BEGIN/END scripts take precedence; the embedded blocks are
    // extracted and ignored
    let out = run_map(
        "BEGIN {tot = 0; gtotal = 0; amt_array = {}}! amt_array[_IDX] = Amount; tot = tot + \
         Amount; gtotal = gtotal + tot; return tot END {return (\"Min/Max: \" .. \
         math.min(unpack(amt_array)) .. \"/\" .. math.max(unpack(amt_array)) .. \" Grand \
         total of \" .. _ROWCOUNT .. \" rows: \" .. gtotal)}!",
        Some("tot = 1; gtotal = 0; amt_array = {}"),
        Some(
            "return (\"Minimum/Maximum: \" .. math.min(unpack(amt_array)) .. \"/\" .. \
             math.max(unpack(amt_array)) .. \" Grand total of \" .. _ROWCOUNT .. \" rows: \" .. \
             gtotal)",
        ),
        true,
        "Total",
        &["letter", "Amount"],
        &[&["a", "13"], &["b", "24"], &["c", "72"], &["d", "7"]],
        map_opts(),
    );
    let expected = vec![
        vec!["letter", "Amount", "Total"],
        vec!["a", "13", "14"],
        vec!["b", "24", "38"],
        vec!["c", "72", "110"],
        vec!["d", "7", "117"],
    ];
    assert_eq!(to_strings(&out.records), expected);
    assert_eq!(diagnostic_string(&out), "Minimum/Maximum: 7/72 Grand total of 4 rows: 279");
    assert_success(&out);
}

#[test]
fn luau_aggregation_with_embedded_begin_end_using_file_random_access() {
    let script = r#"
BEGIN {
    -- this is the BEGIN block, which is executed once at the beginning
    -- where we typically initialize variables
    running_total = 0;
    grand_total = 0;
    amount_array = {};

    -- note how we use the qsv_log function to log to the qsv log file
    qsv_log("debug", " _INDEX:", _INDEX, " _ROWCOUNT:", _ROWCOUNT)

    -- start from the end of the CSV file, set _INDEX to _LASTROW
    _INDEX = _LASTROW;
}!


----------------------------------------------------------------------------
-- this is the MAIN script, which is executed for the row specified by _INDEX
-- As we are doing random access, to exit this loop, we need to set
-- _INDEX to less than zero or greater than _LASTROW

amount_array[_INDEX] = Amount;
running_total = running_total + Amount;
grand_total = grand_total + running_total;

qsv_log("warn", "logging from Luau script! running_total:", running_total, " _INDEX:", _INDEX)

-- we modify _INDEX to do random access on the CSV file, in this case going backwards
_INDEX = _INDEX - 1;

-- running_total is the value we "map" to the "Running Total" column of each row
return running_total;


----------------------------------------------------------------------------
END {
    -- and this is the END block, which is executed once at the end
    -- note how we use the _ROWCOUNT special variable to get the number of rows
    min_amount = math.min(unpack(amount_array));
    max_amount = math.max(unpack(amount_array));
    return ("Min/Max: " .. min_amount .. "/" .. max_amount ..
       " Grand total of " .. _ROWCOUNT .. " rows: " .. grand_total);
}!
"#;
    let out = run_indexed(
        script,
        true,
        "Running Total",
        &["letter", "Amount"],
        &[&["a", "13"], &["b", "24"], &["c", "72"], &["d", "7"]],
        map_opts(),
    );
    let expected = vec![
        vec!["letter", "Amount", "Running Total"],
        vec!["d", "7", "7"],
        vec!["c", "72", "79"],
        vec!["b", "24", "103"],
        vec!["a", "13", "116"],
    ];
    assert_eq!(to_strings(&out.records), expected);
    assert_eq!(diagnostic_string(&out), "Min/Max: 7/72 Grand total of 4 rows: 305");
    assert_success(&out);
}

#[test]
fn luau_aggregation_with_begin_end_and_luau_syntax() {
    let out = run_map(
        "amt_array[_IDX] = Amount; tot += if tonumber(Amount) < 0 then Amount * -1 else Amount; gtotal += tot; return tot",
        Some("tot = 0; gtotal = 0; amt_array = {}"),
        Some(
            r#"return ("Min/Max: " .. math.min(unpack(amt_array)) .. "/" .. math.max(unpack(amt_array)) .. " Grand total of " .. _ROWCOUNT .. " rows: " .. gtotal)"#,
        ),
        true,
        "Total",
        &["letter", "Amount"],
        &[&["a", "13"], &["b", "-24"], &["c", "-72"], &["d", "7"]],
        map_opts(),
    );
    let expected = vec![
        vec!["letter", "Amount", "Total"],
        vec!["a", "13", "13"],
        vec!["b", "-24", "37"],
        vec!["c", "-72", "109"],
        vec!["d", "7", "116"],
    ];
    assert_eq!(to_strings(&out.records), expected);
    assert_eq!(diagnostic_string(&out), "Min/Max: -72/13 Grand total of 4 rows: 275");
    assert_success(&out);
}

#[test]
fn luau_map_math() {
    let out = run_map(
        "math.floor(number / 2)",
        None,
        None,
        false,
        "div",
        &["letter", "number"],
        &[&["a", "13"], &["b", "24"], &["c", "72"], &["d", "7"]],
        map_opts(),
    );
    assert!(out.fatal.is_none());
    let expected = vec![
        vec!["letter", "number", "div"],
        vec!["a", "13", "6"],
        vec!["b", "24", "12"],
        vec!["c", "72", "36"],
        vec!["d", "7", "3"],
    ];
    assert_eq!(to_strings(&out.records), expected);
}

#[test]
fn luau_map_error() {
    let out = run_map(
        "math.dancefloor(number / 2)",
        None,
        None,
        false,
        "div",
        &["letter", "number"],
        &[&["a", "13"], &["b", "24"], &["c", "72"], &["d", "7"]],
        map_opts(),
    );
    assert!(out.fatal.is_none());
    let expected = vec![
        vec!["letter", "number", "div"],
        vec!["a", "13", "<ERROR>"],
        vec!["b", "24", "<ERROR>"],
        vec!["c", "72", "<ERROR>"],
        vec!["d", "7", "<ERROR>"],
    ];
    assert_eq!(to_strings(&out.records), expected);
    assert_eq!(out.error_count, 4);
    let message = String::from_utf8(RunError { error_count: out.error_count }.message()).unwrap();
    assert_eq!(message, "Luau errors encountered: 4");
}

#[test]
fn luau_map_header_with_nonalphanumeric_chars() {
    let out = run_map(
        r#"col["letter-column"] .. math.floor(col["number column"] / 2)"#,
        None,
        None,
        false,
        "div/column",
        &["letter-column", "number column"],
        &[&["a", "13"], &["b", "24"], &["c", "72"], &["d", "7"]],
        map_opts(),
    );
    assert!(out.fatal.is_none());
    let expected = vec![
        vec!["letter-column", "number column", "div/column"],
        vec!["a", "13", "a6"],
        vec!["b", "24", "b12"],
        vec!["c", "72", "c36"],
        vec!["d", "7", "d3"],
    ];
    assert_eq!(to_strings(&out.records), expected);
}

#[test]
fn luau_map_no_headers() {
    let (phases, cp) = prepared("col[2] + 1", None, None, false);
    let mut sess = session();
    let rows: Vec<Vec<Vec<u8>>> = vec![
        record(&["a", "13"]),
        record(&["b", "24"]),
        record(&["c", "72"]),
        record(&["d", "7"]),
    ];
    let opts = Opts { map_mode: true, no_globals: false, no_headers: true, max_errors: 100 };
    let out = run_sequential(&mut sess, &cp, &phases.begin, &rows, &Vec::new(), &None, &opts);
    assert!(out.fatal.is_none());
    let expected = vec![
        vec!["a", "13", "14"],
        vec!["b", "24", "25"],
        vec!["c", "72", "73"],
        vec!["d", "7", "8"],
    ];
    assert_eq!(to_strings(&out.records), expected);
}

#[test]
fn luau_map_exec() {
    let out = run_map(
        "tot = (tot or 0) + x; return tot",
        None,
        None,
        true,
        "running_total",
        &["letter", "x"],
        &[&["a", "13"], &["b", "24"], &["c", "72"], &["d", "7"]],
        map_opts(),
    );
    assert!(out.fatal.is_none());
    let expected = vec![
        vec!["letter", "x", "running_total"],
        vec!["a", "13", "13"],
        vec!["b", "24", "37"],
        vec!["c", "72", "109"],
        vec!["d", "7", "116"],
    ];
    assert_eq!(to_strings(&out.records), expected);
}

#[test]
fn luau_map_no_globals() {
    let out = run_map(
        "(x or col[1]) + 1",
        None,
        None,
        false,
        "z",
        &["y", "x"],
        &[&["1", "13"], &["2", "24"], &["3", "72"], &["4", "7"]],
        Opts { map_mode: true, no_globals: true, no_headers: false, max_errors: 100 },
    );
    assert!(out.fatal.is_none());
    let expected = vec![
        vec!["y", "x", "z"],
        vec!["1", "13", "2"],
        vec!["2", "24", "3"],
        vec!["3", "72", "4"],
        vec!["4", "7", "5"],
    ];
    assert_eq!(to_strings(&out.records), expected);
}

#[test]
fn luau_map_boolean() {
    let out = run_map(
        "tonumber(number) > 14",
        None,
        None,
        false,
        "test",
        &["letter", "number"],
        &[&["a", "13"], &["b", "24"], &["c", "72"], &["d", "7"]],
        map_opts(),
    );
    assert!(out.fatal.is_none());
    let expected = vec![
        vec!["letter", "number", "test"],
        vec!["a", "13", "false"],
        vec!["b", "24", "true"],
        vec!["c", "72", "true"],
        vec!["d", "7", "false"],
    ];
    assert_eq!(to_strings(&out.records), expected);
}

#[test]
fn luau_filter() {
    let out = run_filter(
        "tonumber(number) > 14",
        &["letter", "number"],
        &[&["a", "13"], &["b", "24"], &["c", "72"], &["d", "7"]],
    );
    assert!(out.fatal.is_none());
    let expected = vec![
        vec!["letter", "number"],
        vec!["b", "24"],
        vec!["c", "72"],
    ];
    assert_eq!(to_strings(&out.records), expected);
}

#[test]
fn luau_filter_error() {
    let out = run_filter(
        "tothedancenumber(number) > 14",
        &["letter", "number"],
        &[&["a", "13"], &["b", "24"], &["c", "72"], &["d", "7"]],
    );
    assert!(out.fatal.is_none());
    let expected = vec![
        vec!["letter", "number"],
        vec!["a", "13"],
        vec!["b", "24"],
        vec!["c", "72"],
        vec!["d", "7"],
    ];
    assert_eq!(to_strings(&out.records), expected);
}

#[test]
fn luau_filter_num() {
    let out = run_filter(
        "tonumber(number)",
        &["letter", "number"],
        &[
            &["a", "13"],
            &["b", "24"],
            &["c", "72"],
            &["d", "-7"],
            &["e", "0"],
            &["f", "42"],
            &["g", "0.0"],
            &["h", "3.14"],
            &["i", "0.000123"],
            &["j", "-7.01"],
            &["k", "0.0000"],
        ],
    );
    assert!(out.fatal.is_none());
    let expected = vec![
        vec!["letter", "number"],
        vec!["a", "13"],
        vec!["b", "24"],
        vec!["c", "72"],
        vec!["d", "-7"],
        vec!["f", "42"],
        vec!["h", "3.14"],
        vec!["i", "0.000123"],
        vec!["j", "-7.01"],
    ];
    assert_eq!(to_strings(&out.records), expected);
}

#[test]
fn map_two_numeric_columns_sum() {
    // a computed column is the sum of two numeric columns, for every row
    let out = run_map(
        "a + b",
        None,
        None,
        false,
        "c",
        &["a", "b"],
        &[&["1", "2"], &["5", "5"]],
        map_opts(),
    );
    assert!(out.fatal.is_none());
    let expected = vec![
        vec!["a", "b", "c"],
        vec!["1", "2", "3"],
        vec!["5", "5", "10"],
    ];
    assert_eq!(to_strings(&out.records), expected);
}

#[test]
fn composite_result_padded_and_cut() {
    // fewer composite entries than declared columns: right-padded with
    // empty text
    let out = run_map(
        "{col[1], col[2]}",
        None,
        None,
        false,
        "n1,n2,n3",
        &["a", "b"],
        &[&["x", "y"]],
        map_opts(),
    );
    assert!(out.fatal.is_none());
    let expected = vec![
        vec!["a", "b", "n1", "n2", "n3"],
        vec!["x", "y", "x", "y", ""],
    ];
    assert_eq!(to_strings(&out.records), expected);

    // more composite entries than declared columns: the excess is ignored
    let out2 = run_map(
        "{1, 2, 3}",
        None,
        None,
        false,
        "n1",
        &["a", "b"],
        &[&["x", "y"]],
        map_opts(),
    );
    assert!(out2.fatal.is_none());
    let expected2 = vec![
        vec!["a", "b", "n1"],
        vec!["x", "y", "1"],
    ];
    assert_eq!(to_strings(&out2.records), expected2);
}

#[test]
fn embedded_and_explicit_phases_agree() {
    // an embedded BEGIN block and an equivalent explicitly supplied BEGIN
    // script produce the same output
    let headers = ["letter", "Amount"];
    let data: Vec<Vec<&str>> = letters_numbers();
    let rows: Vec<&[&str]> = data.iter().map(|r| r.as_slice()).collect();
    let embedded = run_map(
        "BEGIN { s = 0 }! s = s + Amount; return s",
        None,
        None,
        true,
        "Total",
        &headers,
        &rows,
        map_opts(),
    );
    let explicit = run_map(
        "s = s + Amount; return s",
        Some("s = 0"),
        None,
        true,
        "Total",
        &headers,
        &rows,
        map_opts(),
    );
    assert!(embedded.fatal.is_none() && explicit.fatal.is_none());
    assert_eq!(to_strings(&embedded.records), to_strings(&explicit.records));
    assert_eq!(embedded.error_count, explicit.error_count);
}

#[test]
fn rerun_is_reproducible() {
    // the same phases over the same rows twice: byte-identical output and
    // an identical diagnostic line
    let run_once = || {
        run_map(
            "amt_array[_IDX] = Amount; tot = tot + Amount; return tot",
            Some("tot = 0; amt_array = {}"),
            Some(r#"return ("total rows: " .. _ROWCOUNT)"#),
            true,
            "Total",
            &["letter", "Amount"],
            &[&["a", "13"], &["b", "24"], &["c", "72"], &["d", "7"]],
            map_opts(),
        )
    };
    let first = run_once();
    let second = run_once();
    assert_eq!(first.records, second.records);
    assert_eq!(first.diagnostic, second.diagnostic);
    assert_eq!(first.error_count, second.error_count);
    assert_eq!(diagnostic_string(&first), "total rows: 4");
}

#[test]
fn map_needs_new_columns() {
    let (phases, cp) = prepared("1", None, None, false);
    let mut sess = session();
    let rows = vec![record(&["a", "13"])];
    let out = run_sequential(
        &mut sess,
        &cp,
        &phases.begin,
        &rows,
        &record(&["letter", "number"]),
        &None,
        &map_opts(),
    );
    assert!(matches!(out.fatal, Some(Fatal::MissingNewColumns)));
    assert!(out.records.is_empty());
}

#[test]
fn begin_failure_is_fatal() {
    let (phases, cp) = prepared("1", Some("this is not luau ((("), None, false);
    let mut sess = session();
    let rows = vec![record(&["a", "13"])];
    let out = run_sequential(
        &mut sess,
        &cp,
        &phases.begin,
        &rows,
        &record(&["letter", "number"]),
        &Some(b("c")),
        &map_opts(),
    );
    assert!(matches!(out.fatal, Some(Fatal::BeginFailed { .. })));
    assert!(out.records.is_empty());
    assert_eq!(out.error_count, 0);
}

#[test]
fn unsupported_map_value_is_fatal() {
    // a MAIN result that is neither a supported scalar nor a composite of
    // scalars aborts the whole run; rows already written are preserved
    let out = run_map(
        "if _IDX == 1 then return 1 else return tostring end",
        None,
        None,
        true,
        "v",
        &["letter", "number"],
        &[&["a", "13"], &["b", "24"], &["c", "72"]],
        map_opts(),
    );
    assert!(matches!(out.fatal, Some(Fatal::BadValue { .. })));
    let expected = vec![
        vec!["letter", "number", "v"],
        vec!["a", "13", "1"],
    ];
    assert_eq!(to_strings(&out.records), expected);
    assert!(out.diagnostic.is_none());
}

#[test]
fn error_budget_halts_early() {
    // a limit of 2 tolerates two failures and halts on the third; the
    // halting row is not written
    let out = run_map(
        "nosuchfunction()",
        None,
        None,
        true,
        "v",
        &["letter", "number"],
        &[&["a", "1"], &["b", "2"], &["c", "3"], &["d", "4"], &["e", "5"]],
        Opts { map_mode: true, no_globals: false, no_headers: false, max_errors: 2 },
    );
    assert!(out.fatal.is_none());
    assert_eq!(out.error_count, 3);
    let expected = vec![
        vec!["letter", "number", "v"],
        vec!["a", "1", "<ERROR>"],
        vec!["b", "2", "<ERROR>"],
    ];
    assert_eq!(to_strings(&out.records), expected);
}

#[test]
fn descending_random_access_visits_every_row_once() {
    // setting the cursor to the last row in BEGIN and decrementing it by 1
    // after every row visits the rows in strict descending order exactly
    // once, then terminates when the cursor reaches -1
    let out = run_indexed(
        "BEGIN { _INDEX = _LASTROW }! v = col[2]; _INDEX = _INDEX - 1; return v",
        true,
        "copy",
        &["letter", "number"],
        &[&["a", "1"], &["b", "2"], &["c", "3"], &["d", "4"]],
        map_opts(),
    );
    assert!(out.fatal.is_none());
    let expected = vec![
        vec!["letter", "number", "copy"],
        vec!["d", "4", "4"],
        vec!["c", "3", "3"],
        vec!["b", "2", "2"],
        vec!["a", "1", "1"],
    ];
    assert_eq!(to_strings(&out.records), expected);
}

#[test]
fn qsv_log_lines_are_collected() {
    let (phases, cp) = prepared(r#"qsv_log("warn", "row ", _IDX); return 1"#, None, None, true);
    let mut sess = session();
    let rows = vec![record(&["a", "13"]), record(&["b", "24"])];
    let out = run_sequential(
        &mut sess,
        &cp,
        &phases.begin,
        &rows,
        &record(&["letter", "number"]),
        &Some(b("one")),
        &map_opts(),
    );
    assert!(out.fatal.is_none());
    let lines: Vec<String> = qsvdp::session::take_log_lines(&sess)
        .into_iter()
        .map(|l| String::from_utf8(l).unwrap())
        .collect();
    assert_eq!(lines, vec!["warn: row 1".to_string(), "warn: row 2".to_string()]);
}

#[test]
fn qsv_coalesce_picks_first_nonempty() {
    let out = run_map(
        r#"qsv_coalesce(nil, "", letter, number)"#,
        None,
        None,
        false,
        "first",
        &["letter", "number"],
        &[&["a", "13"], &["", "24"]],
        map_opts(),
    );
    assert!(out.fatal.is_none());
    let expected = vec![
        vec!["letter", "number", "first"],
        vec!["a", "13", "a"],
        vec!["", "24", "24"],
    ];
    assert_eq!(to_strings(&out.records), expected);
}

#[test]
fn reserved_names_shadow_columns() {
    // a column literally named like a control variable is shadowed by it:
    // the ordinal the script sees is the engine's, not the column's value
    let out = run_map(
        "_IDX",
        None,
        None,
        false,
        "ord",
        &["_IDX", "v"],
        &[&["99", "a"], &["99", "b"]],
        map_opts(),
    );
    assert!(out.fatal.is_none());
    let expected = vec![
        vec!["_IDX", "v", "ord"],
        vec!["99", "a", "1"],
        vec!["99", "b", "2"],
    ];
    assert_eq!(to_strings(&out.records), expected);
}

#[test]
fn filter_float_epsilon_boundary() {
    // a float within machine epsilon of zero drops the row; one above it
    // keeps the row
    let out = run_filter(
        "tonumber(number)",
        &["letter", "number"],
        &[&["a", "1e-20"], &["b", "3e-16"], &["c", "1e-16"]],
    );
    assert!(out.fatal.is_none());
    let expected = vec![
        vec!["letter", "number"],
        vec!["b", "3e-16"],
    ];
    assert_eq!(to_strings(&out.records), expected);
}

#[test]
fn end_runs_in_filter_mode_too() {
    let (phases, cp) = prepared("tonumber(number) > 1", None, Some("return 2.5"), false);
    let mut sess = session();
    let rows = vec![record(&["a", "1"]), record(&["b", "2"])];
    let out = run_sequential(
        &mut sess,
        &cp,
        &phases.begin,
        &rows,
        &record(&["letter", "number"]),
        &None,
        &filter_opts(),
    );
    assert!(out.fatal.is_none());
    let expected = vec![vec!["letter", "number"], vec!["b", "2"]];
    assert_eq!(to_strings(&out.records), expected);
    // a float END result is shown in its plain display form
    assert_eq!(diagnostic_string(&out), "2.5");
}

#[test]
fn end_failure_yields_sentinel_diagnostic() {
    let (phases, cp) = prepared("1", None, Some("return nosuchthing()"), false);
    let mut sess = session();
    let rows = vec![record(&["a", "1"])];
    let out = run_sequential(
        &mut sess,
        &cp,
        &phases.begin,
        &rows,
        &record(&["letter", "number"]),
        &Some(b("one")),
        &map_opts(),
    );
    assert!(out.fatal.is_none());
    assert_eq!(diagnostic_string(&out), "<ERROR>");
    assert_eq!(out.error_count, 0);
}
