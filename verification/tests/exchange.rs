use rusty::exchange::batch_report_message;
use rusty::exchange::calculate_fibonacci_and_greet;
use rusty::exchange::calculate_fibonacci_batch;
use rusty::exchange::compute_batch;
use rusty::exchange::free_string;
use rusty::exchange::greeting_message;
use rusty::exchange::parse_batch_report;
use rusty::exchange::ExchangedString;

fn content_of(s: &ExchangedString) -> Vec<u8> {
    let bytes = s.as_bytes();
    assert!(!bytes.is_empty());
    assert_eq!(*bytes.last().unwrap(), 0u8);
    bytes[..bytes.len() - 1].to_vec()
}

#[test]
fn greeting_exact_text() {
    let name: Vec<u8> = b"Alice".to_vec();
    let out = greeting_message(&name, 10, 55, 1234);
    let expected = "Hello Alice! The 10th Fibonacci number is: 55\nRust Internal Time: 1.234 milliseconds\n";
    assert_eq!(content_of(&out), expected.as_bytes().to_vec());
}

#[test]
fn greeting_negative_index() {
    let name: Vec<u8> = b"Bob".to_vec();
    let out = greeting_message(&name, -3, 0, 0);
    let expected = "Hello Bob! The -3th Fibonacci number is: 0\nRust Internal Time: 0.000 milliseconds\n";
    assert_eq!(content_of(&out), expected.as_bytes().to_vec());
}

#[test]
fn invalid_utf8_name_degrades_to_fallback() {
    let name: Vec<u8> = vec![0xff, 0xfe, 0x41];
    let out = greeting_message(&name, 2, 1, 5);
    let expected = "Hello friend! The 2th Fibonacci number is: 1\nRust Internal Time: 0.005 milliseconds\n";
    assert_eq!(content_of(&out), expected.as_bytes().to_vec());
}

#[test]
fn name_with_embedded_nul_degrades_to_fallback() {
    let name: Vec<u8> = b"Al\0ice".to_vec();
    let out = greeting_message(&name, 1, 1, 0);
    let text = content_of(&out);
    assert!(text.starts_with(b"Hello friend!"));
}

#[test]
fn greeting_buffer_is_nul_terminated_utf8() {
    let name: Vec<u8> = "Zo\u{e9}".as_bytes().to_vec();
    let out = calculate_fibonacci_and_greet(&name, 10);
    let bytes = out.as_bytes();
    assert_eq!(*bytes.last().unwrap(), 0u8);
    let content = &bytes[..bytes.len() - 1];
    assert!(!content.contains(&0u8));
    let text = std::str::from_utf8(content).expect("greeting must be UTF-8");
    assert!(text.starts_with("Hello Zo\u{e9}! The 10th Fibonacci number is: 55\n"));
    assert!(text.ends_with(" milliseconds\n"));
}

#[test]
fn release_absent_handle_is_noop() {
    free_string(None);
}

#[test]
fn release_then_reuse_leaves_later_calls_intact() {
    let name: Vec<u8> = b"Alice".to_vec();
    let first = calculate_fibonacci_and_greet(&name, 10);
    free_string(Some(first));
    let second = greeting_message(&name, 10, 55, 1234);
    let expected = "Hello Alice! The 10th Fibonacci number is: 55\nRust Internal Time: 1.234 milliseconds\n";
    assert_eq!(content_of(&second), expected.as_bytes().to_vec());
    free_string(Some(second));
}

#[test]
fn batch_report_exact_text() {
    let results: Vec<u128> = vec![0, 1, 55];
    let out = batch_report_message(&results, 2500);
    let expected = "{\"results\": [0, 1, 55], \"time_ms\": 2.500}";
    assert_eq!(content_of(&out), expected.as_bytes().to_vec());
}

#[test]
fn batch_report_empty() {
    let results: Vec<u128> = vec![];
    let out = batch_report_message(&results, 0);
    let expected = "{\"results\": [], \"time_ms\": 0.000}";
    assert_eq!(content_of(&out), expected.as_bytes().to_vec());
    let parsed = parse_batch_report(&content_of(&out)).expect("must parse");
    assert!(parsed.is_empty());
}

#[test]
fn batch_values_are_the_engine_values() {
    let indices: Vec<i32> = vec![-1, 0, 1, 2, 10, 20];
    let results = compute_batch(&indices);
    assert_eq!(results, vec![0, 0, 1, 1, 55, 6765]);
}

#[test]
fn batch_round_trip() {
    let indices: Vec<i32> = vec![5, 10, 20];
    let out = calculate_fibonacci_batch(&indices);
    let content = out.content_bytes();
    assert_eq!(content, content_of(&out));
    let parsed = parse_batch_report(&content).expect("a produced report must parse");
    assert_eq!(parsed, vec![5u128, 55, 6765]);
    free_string(Some(out));
}

#[test]
fn parse_rejects_malformed_reports() {
    assert!(parse_batch_report(b"").is_none());
    assert!(parse_batch_report(b"{\"results\": [1, 2]").is_none());
    assert!(parse_batch_report(b"nonsense").is_none());
    assert!(parse_batch_report(b"{\"results\": [1,2], \"time_ms\": 0.000}").is_none());
    assert!(parse_batch_report(b"{\"results\": [], \"time_ms\": 0}").is_none());
}
