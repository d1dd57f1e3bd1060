use rusty::server::benchmark_local;
use rusty::server::error_response;
use rusty::server::info_tool;
use rusty::server::jsonrpc_error_code;
use rusty::server::local_calculation;
use rusty::server::mcp_tool;
use rusty::server::parse_implementation;
use rusty::server::parse_script_result;
use rusty::server::plan_calculation;
use rusty::server::ping_message;
use rusty::server::route_tool_request;
use rusty::server::script_response;
use rusty::server::sse_frame;
use rusty::server::sse_ping_step;
use rusty::server::start_metrics_server;
use rusty::server::CalculationPlan;
use rusty::server::Implementation;
use rusty::server::MetricsServer;
use rusty::server::ScriptError;
use rusty::server::ScriptOutcome;
use rusty::server::ToolDecision;

#[test]
fn implementation_names() {
    assert_eq!(parse_implementation("rust"), Some(Implementation::Rust));
    assert_eq!(parse_implementation("ruby"), Some(Implementation::Ruby));
    assert_eq!(parse_implementation("rust_ruby_ffi"), Some(Implementation::RustRubyFfi));
    assert_eq!(parse_implementation("ruby_rust_ffi"), Some(Implementation::RubyRustFfi));
    assert_eq!(parse_implementation("python"), None);
    assert_eq!(parse_implementation(""), None);
    assert_eq!(parse_implementation("Rust"), None);
}

#[test]
fn calculation_plans() {
    assert!(matches!(plan_calculation("rust"), CalculationPlan::Local));
    assert!(matches!(plan_calculation("ruby_rust_ffi"), CalculationPlan::Local));
    match plan_calculation("ruby") {
        CalculationPlan::Script(s) => assert_eq!(s, "fibonacci.rb"),
        _ => panic!("ruby must run a script"),
    }
    match plan_calculation("rust_ruby_ffi") {
        CalculationPlan::Script(s) => assert_eq!(s, "fibonacci_ffi.rb"),
        _ => panic!("rust_ruby_ffi must run a script"),
    }
    assert!(matches!(plan_calculation("go"), CalculationPlan::Invalid));
}

#[test]
fn local_calculation_serves_rust() {
    let resp = local_calculation("rust", 10).expect("rust is served locally");
    assert_eq!(resp.result, 55);
    assert_eq!(resp.implementation, "rust");
    assert!(resp.error.is_none());
    let resp = local_calculation("ruby_rust_ffi", 20).expect("ruby_rust_ffi is served locally");
    assert_eq!(resp.result, 6765);
    assert_eq!(resp.implementation, "ruby_rust_ffi");
    assert!(local_calculation("ruby", 10).is_none());
    assert!(local_calculation("nonsense", 10).is_none());
}

#[test]
fn error_response_shape() {
    let resp = error_response("ruby", "Invalid implementation specified");
    assert_eq!(resp.result, 0);
    assert_eq!(resp.execution_time_micros, 0);
    assert_eq!(resp.implementation, "ruby");
    assert_eq!(resp.error.as_deref(), Some("Invalid implementation specified"));
}

#[test]
fn script_success_parses_trailing_number() {
    let outcome = ScriptOutcome {
        success: true,
        stdout: b"  12586269025\n".to_vec(),
        stderr: Vec::new(),
    };
    assert_eq!(parse_script_result(outcome), Ok(12586269025));
}

#[test]
fn script_failure_carries_stderr() {
    let outcome = ScriptOutcome {
        success: false,
        stdout: Vec::new(),
        stderr: b"ruby: no such file".to_vec(),
    };
    match parse_script_result(outcome) {
        Err(ScriptError::Failed(stderr)) => assert_eq!(stderr, b"ruby: no such file".to_vec()),
        other => panic!("expected the captured stderr, got {:?}", other.is_ok()),
    }
}

#[test]
fn script_garbage_is_unparseable() {
    for stdout in [&b"abc"[..], b"", b"12a", b"1 2", b"-5", b"18446744073709551616"] {
        let outcome = ScriptOutcome {
            success: true,
            stdout: stdout.to_vec(),
            stderr: Vec::new(),
        };
        assert!(matches!(parse_script_result(outcome), Err(ScriptError::Unparseable)));
    }
}

#[test]
fn script_response_assembles_fields() {
    let outcome = ScriptOutcome {
        success: true,
        stdout: b"55\n".to_vec(),
        stderr: Vec::new(),
    };
    let resp = script_response("ruby", outcome, 420).expect("parses");
    assert_eq!(resp.result, 55);
    assert_eq!(resp.execution_time_micros, 420);
    assert_eq!(resp.implementation, "ruby");
    assert!(resp.error.is_none());
}

#[test]
fn benchmark_local_runs_hundred_times() {
    let resp = benchmark_local("rust", 30).expect("rust benchmarks locally");
    assert_eq!(resp.result, 832040);
    assert_eq!(resp.implementation, "rust");
    assert!(resp.error.is_none());
    assert!(benchmark_local("ruby", 30).is_none());
}

#[test]
fn tool_routing() {
    assert_eq!(route_tool_request("rusty_fib", Some("10")), ToolDecision::Run(10));
    assert_eq!(route_tool_request("rusty_fib", Some("0")), ToolDecision::Run(0));
    assert_eq!(route_tool_request("rusty_fib", None), ToolDecision::MissingParam);
    assert_eq!(route_tool_request("rusty_fib", Some("ten")), ToolDecision::InvalidParam);
    assert_eq!(route_tool_request("rusty_fib", Some("")), ToolDecision::InvalidParam);
    assert_eq!(route_tool_request("rusty_fib", Some("4294967296")), ToolDecision::InvalidParam);
    assert_eq!(route_tool_request("other_tool", Some("10")), ToolDecision::UnknownTool);
}

#[test]
fn jsonrpc_codes() {
    assert_eq!(jsonrpc_error_code(&ToolDecision::Run(1)), 0);
    assert_eq!(jsonrpc_error_code(&ToolDecision::MissingParam), -32602);
    assert_eq!(jsonrpc_error_code(&ToolDecision::InvalidParam), -32602);
    assert_eq!(jsonrpc_error_code(&ToolDecision::UnknownTool), -32601);
}

#[test]
fn advertised_tool_fields() {
    let tool = info_tool();
    assert_eq!(tool.name, "rusty_fib");
    assert_eq!(tool.description, "Calculate Fibonacci numbers using Rust implementation");
    assert_eq!(tool.parameters.len(), 1);
    assert_eq!(tool.parameters[0].name, "N");
    assert_eq!(tool.parameters[0].param_type, "integer");
    assert!(tool.parameters[0].required);
    let stream_tool = mcp_tool();
    assert_eq!(stream_tool.name, "rusty_fib");
    assert_eq!(stream_tool.parameters[0].description, "The Fibonacci number to calculate");
}

#[test]
fn ping_frame_text() {
    let msg = ping_message(7);
    assert_eq!(
        msg,
        b"{\"jsonrpc\": \"2.0\", \"method\": \"ping\", \"id\": \"7\", \"type\": \"ping\"}".to_vec()
    );
    let frame = sse_frame(&msg);
    assert!(frame.starts_with(b"data: "));
    assert!(frame.ends_with(b"\n\n"));
}

#[test]
fn ping_step_respects_cancellation() {
    let step = sse_ping_step(true, 0).expect("running stream pings");
    assert_eq!(step.1, 1);
    assert!(step.0.starts_with(b"data: {\"jsonrpc\": \"2.0\""));
    assert!(sse_ping_step(false, 5).is_none());
}

#[test]
fn server_ports() {
    let server = MetricsServer::new(9000);
    assert_eq!(server.port(), 9000);
    let default_server = start_metrics_server().expect("always starts");
    assert_eq!(default_server.port(), 8080);
}
