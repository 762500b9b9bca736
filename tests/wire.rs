use cairo_project_setup::file_set::FileSet;
use cairo_project_setup::wire::{
    compile_response, gas_counter_missing, request_parse_error, request_project, run_program,
    serialize_compile_response, RunOutcome,
};
use cairo_project_setup::wire::{
    default_function_name, default_replace_ids, embedded_corelib_files, embedded_corelib_manifest,
    serialize_error, serialize_run_response, RunResponse,
};

#[test]
fn defaults() {
    assert_eq!(default_function_name(), "::main");
    assert!(default_replace_ids());
}

#[test]
fn error_response_json() {
    let json = serialize_error(String::new(), "Failed parsing request JSON: x".to_string());
    assert_eq!(
        json,
        r#"{"success":false,"panicked":false,"values":[],"stdout":"","gas_counter":null,"diagnostics":"","error":"Failed parsing request JSON: x"}"#
    );
}

#[test]
fn strings_are_escaped() {
    let json = serialize_error("warn: \"x\"\n".to_string(), "a\\b".to_string());
    assert_eq!(
        json,
        r#"{"success":false,"panicked":false,"values":[],"stdout":"","gas_counter":null,"diagnostics":"warn: \"x\"\n","error":"a\\b"}"#
    );
}

#[test]
fn run_response_json() {
    let response = RunResponse {
        success: true,
        panicked: false,
        values: vec!["7".to_string(), "8".to_string()],
        stdout: "Hello World\n".to_string(),
        gas_counter: Some("1200".to_string()),
        diagnostics: String::new(),
        error: None,
    };
    assert_eq!(
        serialize_run_response(&response),
        r#"{"success":true,"panicked":false,"values":["7","8"],"stdout":"Hello World\n","gas_counter":"1200","diagnostics":"","error":null}"#
    );
}

#[test]
fn corelib_table() {
    let table: &[(&str, &str)] = &[("lib.cairo", "mod a;"), ("a.cairo", ""), ("lib.cairo", "again")];
    let files = embedded_corelib_files(table);
    assert_eq!(files.len(), 2);
    assert_eq!(files.entry(0), ("a.cairo", ""));
    assert_eq!(files.entry(1), ("lib.cairo", "again"));
    assert_eq!(embedded_corelib_manifest(&table[..2]), r#"["lib.cairo","a.cairo"]"#);
    assert_eq!(embedded_corelib_manifest(&[]), "[]");
}

#[test]
fn run_outcomes_become_responses() {
    assert!(gas_counter_missing(None, true));
    assert!(!gas_counter_missing(Some(10), true));
    assert!(!gas_counter_missing(None, false));
    let r = run_program(RunOutcome::GasCounterRequired, "::main", "d".to_string());
    assert!(!r.success && !r.panicked);
    assert_eq!(r.error, Some("Program requires gas counter; provide `available_gas`.".to_string()));
    assert_eq!(r.diagnostics, "d");
    let r = run_program(RunOutcome::FunctionNotFound("missing".to_string()), "::foo", String::new());
    assert_eq!(r.error, Some("Failed finding function `::foo`: missing".to_string()));
    let r = run_program(RunOutcome::RunFailed("boom".to_string()), "::foo", String::new());
    assert_eq!(r.error, Some("Failed to run function `::foo`: boom".to_string()));
    let r = run_program(RunOutcome::RunnerSetupFailed("bad".to_string()), "::foo", String::new());
    assert_eq!(r.error, Some("Failed setting up runner: bad".to_string()));
    let r = run_program(
        RunOutcome::Finished { panicked: true, values: vec!["1".to_string()], stdout: "x".to_string(), gas_counter: None },
        "::main",
        String::new(),
    );
    assert!(!r.success && r.panicked);
    assert_eq!(r.values, vec!["1".to_string()]);
    assert_eq!(r.error, None);
}

#[test]
fn compile_responses() {
    let ok = compile_response(Ok("type felt252;".to_string()), String::new());
    assert_eq!(
        serialize_compile_response(&ok),
        r#"{"success":true,"sierra":"type felt252;","diagnostics":"","error":null}"#
    );
    let err = compile_response(Err(request_parse_error("eof")), "w".to_string());
    assert_eq!(
        serialize_compile_response(&err),
        r#"{"success":false,"sierra":null,"diagnostics":"w","error":"Failed parsing request JSON: eof"}"#
    );
}

#[test]
fn request_project_falls_back_to_embedded_corelib() {
    let table: &[(&str, &str)] = &[("lib.cairo", "core")];
    let p = request_project("t".to_string(), FileSet::new(), None, table);
    assert_eq!(p.corelib_files.entry(0), ("lib.cairo", "core"));
    let mut own = FileSet::new();
    own.insert("lib.cairo", "mine");
    let p = request_project("t".to_string(), FileSet::new(), Some(own), table);
    assert_eq!(p.corelib_files.entry(0), ("lib.cairo", "mine"));
}
