use vstd::prelude::*;
use vstd::string::*;
use crate::file_set::{has_key, FileSet};
use crate::project::InMemoryProject;

verus! {

/// A request to compile an in-memory crate.
pub struct CompileRequest {
    pub crate_name: String,
    pub files: FileSet,
    /// The standard library's files; the embedded ones when absent.
    pub corelib_files: Option<FileSet>,
    pub replace_ids: bool,
    pub inlining_strategy: InliningStrategyArg,
}

/// How eagerly functions are inlined.
#[derive(Clone, Copy, Debug, PartialEq, Eq, Structural)]
pub enum InliningStrategyArg {
    Default,
    Avoid,
}

impl InliningStrategyArg {
    pub fn default_strategy() -> (r: InliningStrategyArg)
        ensures
            r == InliningStrategyArg::Default,
    {
        InliningStrategyArg::Default
    }
}

/// The outcome of a compilation.
pub struct CompileResponse {
    pub success: bool,
    pub sierra: Option<String>,
    pub diagnostics: String,
    pub error: Option<String>,
}

/// A request to compile an in-memory crate and run one of its functions.
pub struct CompileAndRunRequest {
    pub crate_name: String,
    pub files: FileSet,
    pub corelib_files: Option<FileSet>,
    pub replace_ids: bool,
    pub inlining_strategy: InliningStrategyArg,
    pub available_gas: Option<usize>,
    pub function: String,
}

/// A request to run a function of a program given as Sierra text.
pub struct RunSierraRequest {
    pub sierra: String,
    pub available_gas: Option<usize>,
    pub function: String,
}

/// The outcome of a run.
pub struct RunResponse {
    pub success: bool,
    pub panicked: bool,
    pub values: Vec<String>,
    pub stdout: String,
    pub gas_counter: Option<String>,
    pub diagnostics: String,
    pub error: Option<String>,
}

/// The function run when a request names none.
pub fn default_function_name() -> (r: String)
    ensures
        r@ == "::main"@,
{
    String::from_str("::main")
}

/// Whether a compile-and-run request replaces ids when it does not say.
pub fn default_replace_ids() -> (r: bool)
    ensures
        r,
{
    true
}

/// A JSON string literal that stands for `s`, quotes and escapes included.
pub uninterp spec fn json_quoted(s: Seq<char>) -> Seq<char>;

/// Relies on serde_json::to_string on a `str`: a JSON string literal, in double quotes,
/// that depends on the characters alone. Serializing a `str` does not fail.
#[verifier::external_body]
fn json_string(s: &str) -> (r: String)
    ensures
        r@ == json_quoted(s@),
        r@.len() >= 2,
        r@[0] == '"',
        r@.last() == '"',
{
    match serde_json::to_string(s) {
        Ok(r) => r,
        Err(_) => String::new(),
    }
}

pub open spec fn json_bool(b: bool) -> Seq<char> {
    if b {
        "true"@
    } else {
        "false"@
    }
}

pub open spec fn json_opt(o: Option<Seq<char>>) -> Seq<char> {
    match o {
        Some(s) => json_quoted(s),
        None => "null"@,
    }
}

/// The items joined with commas.
pub open spec fn join_commas(items: Seq<Seq<char>>) -> Seq<char>
    decreases items.len(),
{
    if items.len() == 0 {
        Seq::<char>::empty()
    } else if items.len() == 1 {
        items[0]
    } else {
        join_commas(items.drop_last()) + ","@ + items.last()
    }
}

/// A JSON array of the strings `items`.
pub open spec fn json_array(items: Seq<Seq<char>>) -> Seq<char> {
    "["@ + join_commas(items.map_values(|s: Seq<char>| json_quoted(s))) + "]"@
}

pub open spec fn opt_view(o: Option<String>) -> Option<Seq<char>> {
    match o {
        Some(s) => Some(s@),
        None => None,
    }
}

/// The JSON object for a run response, fields in declaration order, without spaces.
pub open spec fn run_response_json(r: RunResponse) -> Seq<char> {
    "{\"success\":"@ + json_bool(r.success) + ",\"panicked\":"@ + json_bool(r.panicked) + ",\"values\":"@
        + json_array(r.values@.map_values(|s: String| s@)) + ",\"stdout\":"@ + json_quoted(r.stdout@)
        + ",\"gas_counter\":"@ + json_opt(opt_view(r.gas_counter)) + ",\"diagnostics\":"@ + json_quoted(
        r.diagnostics@,
    ) + ",\"error\":"@ + json_opt(opt_view(r.error)) + "}"@
}

fn push_str(out: &mut String, s: &str)
    ensures
        final(out)@ == old(out)@ + s@,
{
    out.append(s);
}

fn push_bool(out: &mut String, b: bool)
    ensures
        final(out)@ == old(out)@ + json_bool(b),
{
    if b {
        out.append("true");
    } else {
        out.append("false");
    }
}

fn push_opt(out: &mut String, o: &Option<String>)
    ensures
        final(out)@ == old(out)@ + json_opt(opt_view(*o)),
{
    match o {
        Some(s) => {
            let q = json_string(s.as_str());
            out.append(q.as_str());
        },
        None => out.append("null"),
    }
}

/// Appends the JSON array of `items`.
fn push_array(out: &mut String, items: &Vec<String>)
    ensures
        final(out)@ == old(out)@ + json_array(items@.map_values(|s: String| s@)),
{
    let ghost start = out@;
    let ghost quoted = items@.map_values(|s: String| s@).map_values(|s: Seq<char>| json_quoted(s));
    out.append("[");
    let n = items.len();
    let mut i: usize = 0;
    while i < n
        invariant
            n == items@.len(),
            i <= n,
            quoted.len() == n,
            quoted == items@.map_values(|s: String| s@).map_values(|s: Seq<char>| json_quoted(s)),
            out@ == start + "["@ + join_commas(quoted.subrange(0, i as int)),
        decreases n - i,
    {
        let q = json_string(items[i].as_str());
        let ghost before = out@;
        if i > 0 {
            out.append(",");
        }
        out.append(q.as_str());
        proof {
            let sub1 = quoted.subrange(0, i + 1);
            assert(sub1.drop_last() =~= quoted.subrange(0, i as int));
            assert(sub1.last() == q@);
            if i == 0 {
                assert(sub1.len() == 1);
                assert(join_commas(sub1) == q@);
                assert(quoted.subrange(0, 0) =~= Seq::<Seq<char>>::empty());
            }
            assert(out@ =~= start + "["@ + join_commas(sub1));
        }
        i = i + 1;
    }
    out.append("]");
    assert(quoted.subrange(0, n as int) =~= quoted);
}

/// The JSON text of `response`.
pub fn serialize_run_response(response: &RunResponse) -> (r: String)
    ensures
        r@ == run_response_json(*response),
{
    let mut out = String::new();
    push_str(&mut out, "{\"success\":");
    push_bool(&mut out, response.success);
    push_str(&mut out, ",\"panicked\":");
    push_bool(&mut out, response.panicked);
    push_str(&mut out, ",\"values\":");
    push_array(&mut out, &response.values);
    push_str(&mut out, ",\"stdout\":");
    let q = json_string(response.stdout.as_str());
    push_str(&mut out, q.as_str());
    push_str(&mut out, ",\"gas_counter\":");
    push_opt(&mut out, &response.gas_counter);
    push_str(&mut out, ",\"diagnostics\":");
    let q = json_string(response.diagnostics.as_str());
    push_str(&mut out, q.as_str());
    push_str(&mut out, ",\"error\":");
    push_opt(&mut out, &response.error);
    push_str(&mut out, "}");
    assert(out@ =~= run_response_json(*response));
    out
}

/// The response of a run that failed before it started.
pub open spec fn is_error_response(r: RunResponse, diagnostics: Seq<char>, error: Seq<char>) -> bool {
    &&& !r.success
    &&& !r.panicked
    &&& r.values@.len() == 0
    &&& r.stdout@ == Seq::<char>::empty()
    &&& r.gas_counter is None
    &&& r.diagnostics@ == diagnostics
    &&& r.error matches Some(e) && e@ == error
}

/// The JSON text of a failed run that reports `error`, with the diagnostics so far.
pub fn serialize_error(diagnostics: String, error: String) -> (r: String)
    ensures
        exists|resp: RunResponse| is_error_response(resp, diagnostics@, error@) && r@ == run_response_json(resp),
{
    let response = RunResponse {
        success: false,
        panicked: false,
        values: Vec::new(),
        stdout: String::new(),
        gas_counter: None,
        diagnostics,
        error: Some(error),
    };
    let r = serialize_run_response(&response);
    assert(is_error_response(response, diagnostics@, error@));
    r
}

/// Some entry among the first `n` of `table` has the path and content of `e`.
pub open spec fn table_has(table: Seq<(&str, &str)>, n: int, e: (Seq<char>, Seq<char>)) -> bool {
    exists|i: int| 0 <= i < n && (#[trigger] table[i]).0@ == e.0 && table[i].1@ == e.1
}

/// The standard library's files as a file set, from a table of path and content.
pub fn embedded_corelib_files(table: &[(&str, &str)]) -> (r: FileSet)
    ensures
        r.wf(),
        forall|k: Seq<char>| has_key(r@, k) <==> exists|i: int| 0 <= i < table@.len() && (#[trigger] table@[i]).0@ == k,
        forall|j: int| 0 <= j < r@.len() ==> table_has(table@, table@.len() as int, #[trigger] r@[j]),
{
    let mut files = FileSet::new();
    let n = table.len();
    let mut i: usize = 0;
    while i < n
        invariant
            n == table@.len(),
            i <= n,
            files.wf(),
            forall|k: Seq<char>| has_key(files@, k) <==> exists|q: int| 0 <= q < i && (#[trigger] table@[q]).0@ == k,
            forall|j: int| 0 <= j < files@.len() ==> table_has(table@, i as int, #[trigger] files@[j]),
        decreases n - i,
    {
        let (path, content) = table[i];
        let ghost before = files@;
        files.insert(path, content);
        proof {
            assert forall|k: Seq<char>| has_key(files@, k) <==> exists|q: int| 0 <= q < i + 1 && (#[trigger] table@[q]).0@ == k by {
                if k == path@ {
                    assert(table@[i as int].0@ == k);
                } else {
                    if exists|q: int| 0 <= q < i + 1 && (#[trigger] table@[q]).0@ == k {
                        let q = choose|q: int| 0 <= q < i + 1 && (#[trigger] table@[q]).0@ == k;
                        assert(q < i);
                    }
                }
            }
            assert forall|j: int| 0 <= j < files@.len() implies table_has(table@, i + 1, #[trigger] files@[j]) by {
                if files@[j].0 == path@ {
                    assert(table@[i as int].0@ == files@[j].0);
                } else {
                    assert(before.contains(files@[j]));
                    let jj = choose|jj: int| 0 <= jj < before.len() && before[jj] == files@[j];
                    assert(table_has(table@, i as int, before[jj]));
                }
            }
        }
        i = i + 1;
    }
    files
}

/// The JSON array of the paths of the standard library's files, in table order.
pub fn embedded_corelib_manifest(table: &[(&str, &str)]) -> (r: String)
    ensures
        r@ == json_array(table@.map_values(|e: (&str, &str)| e.0@)),
{
    let mut paths: Vec<String> = Vec::new();
    let n = table.len();
    let mut i: usize = 0;
    while i < n
        invariant
            n == table@.len(),
            i <= n,
            paths@.len() == i,
            forall|j: int| 0 <= j < i ==> (#[trigger] paths@[j])@ == table@[j].0@,
        decreases n - i,
    {
        paths.push(String::from_str(table[i].0));
        i = i + 1;
    }
    assert(paths@.map_values(|s: String| s@) =~= table@.map_values(|e: (&str, &str)| e.0@));
    let mut out = String::new();
    push_array(&mut out, &paths);
    assert(out@ =~= json_array(table@.map_values(|e: (&str, &str)| e.0@)));
    out
}

/// How far a run got before it ended.
pub enum RunOutcome {
    /// The program needs a gas counter and the request gave no gas.
    GasCounterRequired,
    /// The runner could not be set up.
    RunnerSetupFailed(String),
    /// The program has no function of the requested name.
    FunctionNotFound(String),
    /// The function failed to run.
    RunFailed(String),
    /// The function ran to its end, or to a panic.
    Finished { panicked: bool, values: Vec<String>, stdout: String, gas_counter: Option<String> },
}

/// Whether a program must not be run: it needs a gas counter and no gas was given.
pub fn gas_counter_missing(available_gas: Option<usize>, requires_gas_counter: bool) -> (r: bool)
    ensures
        r == (available_gas is None && requires_gas_counter),
{
    available_gas.is_none() && requires_gas_counter
}

/// The message for a run that ended as `outcome`, for a function named `function`.
pub open spec fn failure_message(outcome: RunOutcome, function: Seq<char>) -> Seq<char> {
    match outcome {
        RunOutcome::GasCounterRequired => "Program requires gas counter; provide `available_gas`."@,
        RunOutcome::RunnerSetupFailed(e) => "Failed setting up runner: "@ + e@,
        RunOutcome::FunctionNotFound(e) => "Failed finding function `"@ + function + "`: "@ + e@,
        RunOutcome::RunFailed(e) => "Failed to run function `"@ + function + "`: "@ + e@,
        RunOutcome::Finished { .. } => Seq::<char>::empty(),
    }
}

/// The response to a run of `function` that ended as `outcome`, with the compiler's
/// diagnostics.
pub fn run_program(outcome: RunOutcome, function: &str, diagnostics: String) -> (r: RunResponse)
    ensures
        r.diagnostics@ == diagnostics@,
        match outcome {
            RunOutcome::Finished { panicked, values, stdout, gas_counter } => {
                &&& r.success == !panicked
                &&& r.panicked == panicked
                &&& r.values == values
                &&& r.stdout == stdout
                &&& r.gas_counter == gas_counter
                &&& r.error is None
            },
            _ => is_error_response(r, diagnostics@, failure_message(outcome, function@)),
        },
{
    let ghost o = outcome;
    let error = match outcome {
        RunOutcome::Finished { panicked, values, stdout, gas_counter } => {
            return RunResponse {
                success: !panicked,
                panicked,
                values,
                stdout,
                gas_counter,
                diagnostics,
                error: None,
            };
        },
        RunOutcome::GasCounterRequired => String::from_str("Program requires gas counter; provide `available_gas`."),
        RunOutcome::RunnerSetupFailed(e) => String::from_str("Failed setting up runner: ").concat(e.as_str()),
        RunOutcome::FunctionNotFound(e) => String::from_str("Failed finding function `").concat(function).concat(
            "`: ",
        ).concat(e.as_str()),
        RunOutcome::RunFailed(e) => String::from_str("Failed to run function `").concat(function).concat("`: ").concat(
            e.as_str(),
        ),
    };
    let r = RunResponse {
        success: false,
        panicked: false,
        values: Vec::new(),
        stdout: String::new(),
        gas_counter: None,
        diagnostics,
        error: Some(error),
    };
    assert(is_error_response(r, diagnostics@, failure_message(o, function@)));
    r
}

/// The message for a request that is not valid JSON, given the parser's account of why.
pub fn request_parse_error(detail: &str) -> (r: String)
    ensures
        r@ == "Failed parsing request JSON: "@ + detail@,
{
    String::from_str("Failed parsing request JSON: ").concat(detail)
}

/// The response to a compilation that produced the Sierra text `Ok(sierra)`, or failed with
/// `Err(message)`.
pub fn compile_response(outcome: Result<String, String>, diagnostics: String) -> (r: CompileResponse)
    ensures
        r.diagnostics == diagnostics,
        match outcome {
            Ok(sierra) => r.success && r.sierra == Some(sierra) && r.error is None,
            Err(e) => !r.success && r.sierra is None && r.error == Some(e),
        },
{
    match outcome {
        Ok(sierra) => CompileResponse { success: true, sierra: Some(sierra), diagnostics, error: None },
        Err(e) => CompileResponse { success: false, sierra: None, diagnostics, error: Some(e) },
    }
}

/// The JSON object for a compile response, fields in declaration order, without spaces.
pub open spec fn compile_response_json(r: CompileResponse) -> Seq<char> {
    "{\"success\":"@ + json_bool(r.success) + ",\"sierra\":"@ + json_opt(opt_view(r.sierra)) + ",\"diagnostics\":"@
        + json_quoted(r.diagnostics@) + ",\"error\":"@ + json_opt(opt_view(r.error)) + "}"@
}

/// The JSON text of `response`.
pub fn serialize_compile_response(response: &CompileResponse) -> (r: String)
    ensures
        r@ == compile_response_json(*response),
{
    let mut out = String::new();
    push_str(&mut out, "{\"success\":");
    push_bool(&mut out, response.success);
    push_str(&mut out, ",\"sierra\":");
    push_opt(&mut out, &response.sierra);
    push_str(&mut out, ",\"diagnostics\":");
    let q = json_string(response.diagnostics.as_str());
    push_str(&mut out, q.as_str());
    push_str(&mut out, ",\"error\":");
    push_opt(&mut out, &response.error);
    push_str(&mut out, "}");
    assert(out@ =~= compile_response_json(*response));
    out
}

/// The in-memory project that a request describes: its crate, its files, and its own
/// standard library or else the embedded one.
pub fn request_project(
    crate_name: String,
    files: FileSet,
    corelib_files: Option<FileSet>,
    embedded: &[(&str, &str)],
) -> (r: InMemoryProject)
    ensures
        r.main_crate_name == crate_name,
        r.main_crate_files == files,
        r.main_crate_settings is None,
        match corelib_files {
            Some(c) => r.corelib_files == c,
            None => forall|k: Seq<char>| has_key(r.corelib_files@, k) <==> exists|i: int|
                0 <= i < embedded@.len() && (#[trigger] embedded@[i]).0@ == k,
        },
        corelib_files is None ==> r.corelib_files.wf(),
{
    let corelib_files = match corelib_files {
        Some(c) => c,
        None => embedded_corelib_files(embedded),
    };
    InMemoryProject { main_crate_name: crate_name, main_crate_files: files, corelib_files, main_crate_settings: None }
}

} // verus!
