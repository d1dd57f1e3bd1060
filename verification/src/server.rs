//! The metrics server's decision core.
//!
//! The HTTP plumbing around it — routing, JSON envelopes, process spawning —
//! is exterior glue; everything the server *decides* lives here as verified
//! functions over plain values: which implementation a request names, what
//! a tool request amounts to, how an external interpreter's output is read,
//! and how responses are assembled.

use vstd::prelude::*;
use vstd::string::StringSliceAdditionalSpecFns;
use crate::clock::clock_now;
use crate::clock::micros_since;
use crate::digits::dec_bytes;
use crate::digits::is_digit_byte;
use crate::digits::parse_digits;
use crate::digits::push_decimal_u64;
use crate::digits::scan_decimal;
use crate::fib::fib64;
use crate::fib::fibonacci_ffi;
use crate::stats::sum_seq;
use crate::stats::calculate_stats;

verus! {

/// The four implementations a request may name.
#[derive(Clone, Copy, Debug, PartialEq, Eq, Structural)]
pub enum Implementation {
    Rust,
    Ruby,
    RustRubyFfi,
    RubyRustFfi,
}

/// Which implementation a request's text names, if any.
pub open spec fn implementation_of(s: Seq<char>) -> Option<Implementation> {
    if s == "rust"@ {
        Some(Implementation::Rust)
    } else if s == "ruby"@ {
        Some(Implementation::Ruby)
    } else if s == "rust_ruby_ffi"@ {
        Some(Implementation::RustRubyFfi)
    } else if s == "ruby_rust_ffi"@ {
        Some(Implementation::RubyRustFfi)
    } else {
        None
    }
}

/// Whether two byte slices hold the same bytes.
fn bytes_eq(a: &[u8], b: &[u8]) -> (r: bool)
    ensures
        r == (a@ == b@),
{
    if a.len() != b.len() {
        proof {
            assert(a@.len() != b@.len());
        }
        return false;
    }
    let mut i: usize = 0;
    while i < a.len()
        invariant
            i <= a@.len(),
            a@.len() == b@.len(),
            forall|j: int| 0 <= j < i ==> a@[j] == b@[j],
        decreases a@.len() - i,
    {
        if a[i] != b[i] {
            return false;
        }
        i = i + 1;
    }
    proof {
        assert(a@ =~= b@);
    }
    true
}

/// Whether two strings hold the same text.
fn str_eq(a: &str, b: &str) -> (r: bool)
    ensures
        r == (a@ == b@),
{
    let r = bytes_eq(a.as_bytes(), b.as_bytes());
    proof {
        if a.spec_bytes() == b.spec_bytes() {
            vstd::utf8::encode_utf8_decode_utf8(a@);
            vstd::utf8::encode_utf8_decode_utf8(b@);
        }
    }
    r
}

/// Reads which implementation the request names.
pub fn parse_implementation(s: &str) -> (r: Option<Implementation>)
    ensures
        r == implementation_of(s@),
{
    if str_eq(s, "rust") {
        Some(Implementation::Rust)
    } else if str_eq(s, "ruby") {
        Some(Implementation::Ruby)
    } else if str_eq(s, "rust_ruby_ffi") {
        Some(Implementation::RustRubyFfi)
    } else if str_eq(s, "ruby_rust_ffi") {
        Some(Implementation::RubyRustFfi)
    } else {
        None
    }
}

/// A calculation request: which term, by which implementation.
pub struct FibonacciRequest {
    pub number: u32,
    pub implementation: String,
}

/// A served calculation: the term, how long it took in whole microseconds,
/// which implementation answered, and the error if one occurred.
pub struct FibonacciResponse {
    pub result: u64,
    pub execution_time_micros: u64,
    pub implementation: String,
    pub error: Option<String>,
}

/// The two request kinds the server accepts.
pub enum ContextRequest {
    Calculate(FibonacciRequest),
    Benchmark(FibonacciRequest),
}

/// How a named implementation is served: by the engine here, by an external
/// interpreter running the named script, or not at all.
pub enum CalculationPlan {
    Local,
    Script(String),
    Invalid,
}

/// Decides how a request's implementation text is served.  The engine
/// serves the native and the inbound-FFI implementation itself; the two
/// interpreter-backed ones name the script an external process must run.
pub fn plan_calculation(implementation: &str) -> (r: CalculationPlan)
    ensures
        match implementation_of(implementation@) {
            Some(Implementation::Rust) => r is Local,
            Some(Implementation::RubyRustFfi) => r is Local,
            Some(Implementation::Ruby) => (r matches CalculationPlan::Script(p) && p@
                == "fibonacci.rb"@),
            Some(Implementation::RustRubyFfi) => (r matches CalculationPlan::Script(p) && p@
                == "fibonacci_ffi.rb"@),
            None => r is Invalid,
        },
{
    match parse_implementation(implementation) {
        Some(Implementation::Rust) => CalculationPlan::Local,
        Some(Implementation::RubyRustFfi) => CalculationPlan::Local,
        Some(Implementation::Ruby) => CalculationPlan::Script("fibonacci.rb".to_owned()),
        Some(Implementation::RustRubyFfi) => CalculationPlan::Script(
            "fibonacci_ffi.rb".to_owned(),
        ),
        None => CalculationPlan::Invalid,
    }
}

/// Serves a calculation locally when the named implementation is one the
/// engine answers itself: the narrow engine's term, the measured duration,
/// the canonical implementation name, and no error.
pub fn local_calculation(implementation: &str, number: u32) -> (r: Option<FibonacciResponse>)
    ensures
        match implementation_of(implementation@) {
            Some(Implementation::Rust) => (r matches Some(resp) && resp.result == fib64(
                number as nat,
            ) && resp.implementation@ == "rust"@ && resp.error is None),
            Some(Implementation::RubyRustFfi) => (r matches Some(resp) && resp.result == fib64(
                number as nat,
            ) && resp.implementation@ == "ruby_rust_ffi"@ && resp.error is None),
            _ => r is None,
        },
{
    match parse_implementation(implementation) {
        Some(Implementation::Rust) => {
            let start = clock_now();
            let result: u64 = fibonacci_ffi(number);
            let micros: u64 = micros_since(&start);
            Some(
                FibonacciResponse {
                    result,
                    execution_time_micros: micros,
                    implementation: "rust".to_owned(),
                    error: None,
                },
            )
        },
        Some(Implementation::RubyRustFfi) => {
            let start = clock_now();
            let result: u64 = fibonacci_ffi(number);
            let micros: u64 = micros_since(&start);
            Some(
                FibonacciResponse {
                    result,
                    execution_time_micros: micros,
                    implementation: "ruby_rust_ffi".to_owned(),
                    error: None,
                },
            )
        },
        _ => None,
    }
}

/// The response a failed request degrades to: a zero result, no duration,
/// the request's own implementation text, and the message.
pub fn error_response(implementation: &str, message: &str) -> (resp: FibonacciResponse)
    ensures
        resp.result == 0,
        resp.execution_time_micros == 0,
        resp.implementation@ == implementation@,
        resp.error matches Some(m) && m@ == message@,
{
    FibonacciResponse {
        result: 0,
        execution_time_micros: 0,
        implementation: implementation.to_owned(),
        error: Some(message.to_owned()),
    }
}

/// What an external interpreter run produced: its exit status and captured
/// streams.
pub struct ScriptOutcome {
    pub success: bool,
    pub stdout: Vec<u8>,
    pub stderr: Vec<u8>,
}

/// Why a script run yielded no value.
#[derive(Debug, PartialEq, Eq)]
pub enum ScriptError {
    /// The interpreter exited with failure; the diagnostic is its captured
    /// error stream.
    Failed(Vec<u8>),
    /// The interpreter succeeded but its output was not a decimal number.
    Unparseable,
}

/// ASCII whitespace, as it occurs around an interpreter's decimal output.
pub open spec fn is_ws_byte(b: u8) -> bool {
    b == 0x20 || b == 0x09 || b == 0x0a || b == 0x0d
}

/// The first position at or after `i` that holds no whitespace.
pub open spec fn skip_ws(s: Seq<u8>, i: int) -> int
    decreases s.len() - i,
{
    if i < s.len() && is_ws_byte(s[i]) {
        skip_ws(s, i + 1)
    } else {
        i
    }
}

/// The position after the last non-whitespace byte before `j`.
pub open spec fn rskip_ws(s: Seq<u8>, j: int) -> int
    decreases j,
{
    if 0 < j <= s.len() && is_ws_byte(s[j - 1]) {
        rskip_ws(s, j - 1)
    } else {
        j
    }
}

/// The bytes with surrounding whitespace removed.
pub open spec fn trimmed(s: Seq<u8>) -> Seq<u8> {
    let lo = skip_ws(s, 0);
    if lo == s.len() {
        Seq::empty()
    } else {
        s.subrange(lo, rskip_ws(s, s.len() as int))
    }
}

/// The value of a text that is entirely decimal digits and fits 64 bits.
pub open spec fn parse_u64_text(t: Seq<u8>) -> Option<u64> {
    let p = parse_digits(t, 0);
    if t.len() > 0 && p.1.len() == 0 && p.0 <= u64::MAX {
        Some(p.0 as u64)
    } else {
        None
    }
}

/// The value of a text that is entirely decimal digits and fits 32 bits.
pub open spec fn parse_u32_text(t: Seq<u8>) -> Option<u32> {
    let p = parse_digits(t, 0);
    if t.len() > 0 && p.1.len() == 0 && p.0 <= u32::MAX {
        Some(p.0 as u32)
    } else {
        None
    }
}

/// Reads an interpreter run as the external-process contract fixes it:
/// failure carries the captured error stream; success must have printed a
/// decimal number, surrounded by at most whitespace.
pub fn parse_script_result(outcome: ScriptOutcome) -> (r: Result<u64, ScriptError>)
    ensures
        match r {
            Ok(v) => outcome.success && parse_u64_text(trimmed(outcome.stdout@)) == Some(v),
            Err(ScriptError::Failed(e)) => !outcome.success && e@ == outcome.stderr@,
            Err(ScriptError::Unparseable) => outcome.success && parse_u64_text(
                trimmed(outcome.stdout@),
            ) is None,
        },
{
    if !outcome.success {
        return Err(ScriptError::Failed(outcome.stderr));
    }
    let s = &outcome.stdout;
    let n: usize = s.len();
    let mut lo: usize = 0;
    while lo < n && (s[lo] == 0x20 || s[lo] == 0x09 || s[lo] == 0x0a || s[lo] == 0x0d)
        invariant
            lo <= n,
            n == s@.len(),
            skip_ws(s@, 0) == skip_ws(s@, lo as int),
        decreases n - lo,
    {
        lo = lo + 1;
    }
    if lo == n {
        return Err(ScriptError::Unparseable);
    }
    let mut hi: usize = n;
    while hi > lo && (s[hi - 1] == 0x20 || s[hi - 1] == 0x09 || s[hi - 1] == 0x0a || s[hi - 1]
        == 0x0d)
        invariant
            lo < hi <= n,
            lo < n,
            n == s@.len(),
            !is_ws_byte(s@[lo as int]),
            rskip_ws(s@, n as int) == rskip_ws(s@, hi as int),
        decreases hi,
    {
        hi = hi - 1;
    }
    let mut t: Vec<u8> = Vec::with_capacity(hi - lo);
    let mut i: usize = lo;
    while i < hi
        invariant
            lo <= i <= hi <= n,
            n == s@.len(),
            t@.len() == i - lo,
            forall|j: int| 0 <= j < t@.len() ==> t@[j] == s@[lo + j],
        decreases hi - i,
    {
        t.push(s[i]);
        i = i + 1;
    }
    proof {
        assert(t@ =~= s@.subrange(lo as int, hi as int));
        assert(t@ == trimmed(s@));
        assert(t@.skip(0) =~= t@);
    }
    match scan_decimal(t.as_slice(), 0) {
        None => Err(ScriptError::Unparseable),
        Some(p) => {
            let value: u128 = p.0;
            let end: usize = p.1;
            if end == t.len() && value <= 0xffff_ffff_ffff_ffff {
                Ok(value as u64)
            } else {
                Err(ScriptError::Unparseable)
            }
        },
    }
}

/// Assembles the response for a script-served calculation: the parsed
/// value, the measured duration, and the given implementation text.
pub fn script_response(implementation: &str, outcome: ScriptOutcome, micros: u64) -> (r: Result<
    FibonacciResponse,
    ScriptError,
>)
    ensures
        match r {
            Ok(resp) => {
                &&& outcome.success
                &&& parse_u64_text(trimmed(outcome.stdout@)) == Some(resp.result)
                &&& resp.execution_time_micros == micros
                &&& resp.implementation@ == implementation@
                &&& resp.error is None
            },
            Err(ScriptError::Failed(e)) => !outcome.success && e@ == outcome.stderr@,
            Err(ScriptError::Unparseable) => outcome.success && parse_u64_text(
                trimmed(outcome.stdout@),
            ) is None,
        },
{
    let value: u64 = match parse_script_result(outcome) {
        Ok(v) => v,
        Err(e) => {
            return Err(e);
        },
    };
    Ok(
        FibonacciResponse {
            result: value,
            execution_time_micros: micros,
            implementation: implementation.to_owned(),
            error: None,
        },
    )
}

/// Summarizes a benchmark: the first run's result and the mean duration.
pub fn benchmark_response(implementation: &str, result: u64, times: &Vec<u64>) -> (resp:
    FibonacciResponse)
    requires
        times@.len() > 0,
    ensures
        resp.result == result,
        resp.execution_time_micros == sum_seq(times@) / times@.len() as int,
        resp.implementation@ == implementation@,
        resp.error is None,
{
    let stats = calculate_stats(times);
    FibonacciResponse {
        result,
        execution_time_micros: stats.mean,
        implementation: implementation.to_owned(),
        error: None,
    }
}

/// Serves a benchmark request locally when the engine answers the named
/// implementation itself: a hundred timed runs, the engine's result, the
/// mean duration.  Nothing for the interpreter-backed implementations.
pub fn benchmark_local(implementation: &str, number: u32) -> (r: Option<FibonacciResponse>)
    ensures
        match implementation_of(implementation@) {
            Some(Implementation::Rust) => (r matches Some(resp) && resp.result == fib64(
                number as nat,
            ) && resp.implementation@ == "rust"@ && resp.error is None),
            Some(Implementation::RubyRustFfi) => (r matches Some(resp) && resp.result == fib64(
                number as nat,
            ) && resp.implementation@ == "ruby_rust_ffi"@ && resp.error is None),
            _ => r is None,
        },
{
    match parse_implementation(implementation) {
        Some(Implementation::Rust) | Some(Implementation::RubyRustFfi) => {
            let mut times: Vec<u64> = Vec::with_capacity(100);
            let mut i: usize = 0;
            while i < 100
                invariant
                    i <= 100,
                    times@.len() == i,
                decreases 100 - i,
            {
                let start = clock_now();
                let _value: u64 = fibonacci_ffi(number);
                let elapsed: u64 = micros_since(&start);
                times.push(elapsed);
                i = i + 1;
            }
            let result: u64 = fibonacci_ffi(number);
            Some(benchmark_response(implementation, result, &times))
        },
        _ => None,
    }
}

/// What a tool request amounts to.
#[derive(Clone, Copy, Debug, PartialEq, Eq, Structural)]
pub enum ToolDecision {
    /// Run the Fibonacci tool for this term.
    Run(u32),
    /// The required `N` parameter was absent.
    MissingParam,
    /// The `N` parameter was not a decimal 32-bit number.
    InvalidParam,
    /// The request named a tool this server does not offer.
    UnknownTool,
}

/// What a tool request with this tool name and `N` parameter amounts to.
pub open spec fn tool_decision_of(tool: Seq<char>, param: Option<Seq<u8>>) -> ToolDecision {
    if tool != "rusty_fib"@ {
        ToolDecision::UnknownTool
    } else {
        match param {
            None => ToolDecision::MissingParam,
            Some(p) => match parse_u32_text(p) {
                Some(number) => ToolDecision::Run(number),
                None => ToolDecision::InvalidParam,
            },
        }
    }
}

/// Decides a tool request: the tool must be the Fibonacci tool and the `N`
/// parameter present and a decimal 32-bit number.
pub fn route_tool_request(tool: &str, n_param: Option<&str>) -> (r: ToolDecision)
    ensures
        r == tool_decision_of(
            tool@,
            match n_param {
                Some(p) => Some(p.spec_bytes()),
                None => None::<Seq<u8>>,
            },
        ),
{
    if !str_eq(tool, "rusty_fib") {
        return ToolDecision::UnknownTool;
    }
    match n_param {
        None => ToolDecision::MissingParam,
        Some(p) => {
            let bytes = p.as_bytes();
            proof {
                assert(bytes@.skip(0) =~= bytes@);
            }
            match scan_decimal(bytes, 0) {
                None => ToolDecision::InvalidParam,
                Some(sc) => {
                    let value: u128 = sc.0;
                    let end: usize = sc.1;
                    if bytes.len() > 0 && end == bytes.len() && value <= 0xffff_ffff {
                        ToolDecision::Run(value as u32)
                    } else {
                        ToolDecision::InvalidParam
                    }
                },
            }
        },
    }
}

/// The JSON-RPC error code a refused tool decision is reported with; zero
/// for one that runs.
pub fn jsonrpc_error_code(decision: &ToolDecision) -> (c: i32)
    ensures
        match decision {
            ToolDecision::Run(_) => c == 0,
            ToolDecision::MissingParam => c == -32602,
            ToolDecision::InvalidParam => c == -32602,
            ToolDecision::UnknownTool => c == -32601,
        },
{
    match decision {
        ToolDecision::Run(_) => 0,
        ToolDecision::MissingParam => -32602,
        ToolDecision::InvalidParam => -32602,
        ToolDecision::UnknownTool => -32601,
    }
}

/// A parameter of an advertised tool.
pub struct ToolParameter {
    pub name: String,
    pub description: String,
    pub param_type: String,
    pub required: bool,
}

/// A tool as the documentation endpoint advertises it.
pub struct Tool {
    pub name: String,
    pub description: String,
    pub parameters: Vec<ToolParameter>,
}

/// A parameter of a tool advertised over the event stream.
pub struct MCPParameter {
    pub name: String,
    pub description: String,
    pub param_type: String,
    pub required: bool,
}

/// A tool as the event stream advertises it.
pub struct MCPTool {
    pub name: String,
    pub description: String,
    pub parameters: Vec<MCPParameter>,
}

/// A tool invocation: the tool's name and its parameters by name.
pub struct ToolRequest {
    pub tool: String,
    pub parameters: std::collections::HashMap<String, String>,
}

/// The Fibonacci tool as the documentation endpoint advertises it.
pub fn info_tool() -> (t: Tool)
    ensures
        t.name@ == "rusty_fib"@,
        t.description@ == "Calculate Fibonacci numbers using Rust implementation"@,
        t.parameters@.len() == 1,
        t.parameters@[0].name@ == "N"@,
        t.parameters@[0].description@ == "The Fibonacci number to calculate"@,
        t.parameters@[0].param_type@ == "integer"@,
        t.parameters@[0].required,
{
    let mut parameters: Vec<ToolParameter> = Vec::new();
    parameters.push(
        ToolParameter {
            name: "N".to_owned(),
            description: "The Fibonacci number to calculate".to_owned(),
            param_type: "integer".to_owned(),
            required: true,
        },
    );
    Tool {
        name: "rusty_fib".to_owned(),
        description: "Calculate Fibonacci numbers using Rust implementation".to_owned(),
        parameters,
    }
}

/// The Fibonacci tool as the event stream advertises it.
pub fn mcp_tool() -> (t: MCPTool)
    ensures
        t.name@ == "rusty_fib"@,
        t.description@ == "Calculate Fibonacci numbers using Rust implementation"@,
        t.parameters@.len() == 1,
        t.parameters@[0].name@ == "N"@,
        t.parameters@[0].description@ == "The Fibonacci number to calculate"@,
        t.parameters@[0].param_type@ == "integer"@,
        t.parameters@[0].required,
{
    let mut parameters: Vec<MCPParameter> = Vec::new();
    parameters.push(
        MCPParameter {
            name: "N".to_owned(),
            description: "The Fibonacci number to calculate".to_owned(),
            param_type: "integer".to_owned(),
            required: true,
        },
    );
    MCPTool {
        name: "rusty_fib".to_owned(),
        description: "Calculate Fibonacci numbers using Rust implementation".to_owned(),
        parameters,
    }
}

/// The bytes of one server-sent event around a payload.
pub open spec fn sse_frame_bytes(payload: Seq<u8>) -> Seq<u8> {
    "data: ".spec_bytes() + payload + "\n\n".spec_bytes()
}

/// Wraps a payload as one server-sent event.
pub fn sse_frame(payload: &Vec<u8>) -> (out: Vec<u8>)
    ensures
        out@ == sse_frame_bytes(payload@),
{
    let mut out: Vec<u8> = Vec::new();
    out.extend_from_slice("data: ".as_bytes());
    out.extend_from_slice(payload.as_slice());
    out.extend_from_slice("\n\n".as_bytes());
    proof {
        assert(out@ =~= sse_frame_bytes(payload@));
    }
    out
}

/// The keep-alive ping payload for an event id.
pub open spec fn ping_message_bytes(id: u64) -> Seq<u8> {
    "{\"jsonrpc\": \"2.0\", \"method\": \"ping\", \"id\": \"".spec_bytes() + dec_bytes(id as nat)
        + "\", \"type\": \"ping\"}".spec_bytes()
}

/// Builds the keep-alive ping payload for an event id.
pub fn ping_message(id: u64) -> (out: Vec<u8>)
    ensures
        out@ == ping_message_bytes(id),
{
    let mut out: Vec<u8> = Vec::new();
    out.extend_from_slice("{\"jsonrpc\": \"2.0\", \"method\": \"ping\", \"id\": \"".as_bytes());
    push_decimal_u64(&mut out, id);
    out.extend_from_slice("\", \"type\": \"ping\"}".as_bytes());
    proof {
        assert(out@ =~= ping_message_bytes(id));
    }
    out
}

/// One step of the keep-alive stream: while the server runs, the next ping
/// frame and the next event id; nothing once it has been told to stop.
pub fn sse_ping_step(running: bool, id: u64) -> (r: Option<(Vec<u8>, u64)>)
    requires
        id < u64::MAX,
    ensures
        running ==> (r matches Some(p) && p.0@ == sse_frame_bytes(ping_message_bytes(id)) && p.1
            == id + 1),
        !running ==> r is None,
{
    if !running {
        return None;
    }
    let msg = ping_message(id);
    let frame = sse_frame(&msg);
    Some((frame, id + 1))
}

/// The metrics server's configuration, as the decision core sees it.
pub struct MetricsServer {
    port: u16,
}

impl MetricsServer {
    /// The TCP port the server binds.
    pub closed spec fn spec_port(&self) -> u16 {
        self.port
    }

    /// A server bound to the given port.
    pub fn new(port: u16) -> (s: Self)
        ensures
            s.spec_port() == port,
    {
        MetricsServer { port }
    }

    /// The configured port.
    pub fn port(&self) -> (p: u16)
        ensures
            p == self.spec_port(),
    {
        self.port
    }
}

/// Creates the metrics server on its fixed default port.
pub fn start_metrics_server() -> (r: Result<MetricsServer, String>)
    ensures
        r matches Ok(s) && s.spec_port() == 8080,
{
    Ok(MetricsServer::new(8080))
}

} // verus!
