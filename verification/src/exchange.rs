//! The cross-boundary string exchange protocol.
//!
//! Every produced message is an [`ExchangedString`]: an owned,
//! NUL-terminated, UTF-8 byte buffer.  Ownership is a strict single-holder
//! relay: the producer builds the buffer, hands it to the caller, and the
//! caller gives it back exactly once through [`free_string`] — the type
//! system enforces the exactly-once discipline, and an absent handle (the
//! boundary's null) makes the release a no-op.
//!
//! Two producers exist: [`calculate_fibonacci_and_greet`] formats a
//! human-readable greeting around one Fibonacci value, and
//! [`calculate_fibonacci_batch`] serializes a whole batch of values as a
//! JSON-shaped report.  [`parse_batch_report`] reads such a report back;
//! [`lemma_batch_report_round_trip`] proves that a produced report always
//! parses back to exactly the values that went in.

use vstd::prelude::*;
use vstd::string::StringSliceAdditionalSpecFns;
use vstd::utf8::valid_utf8;
use vstd::utf8::valid_utf8_concat;
use crate::digits::dec_bytes;
use crate::digits::lemma_parse_dec_bytes_exact;
use crate::digits::lemma_parse_digits_noconsume;
use crate::digits::lemma_parse_digits_rest;
use crate::digits::parse_digits;
use crate::digits::scan_decimal;
use crate::digits::digit_byte;
use crate::digits::is_digit_byte;
use crate::digits::lemma_dec_bytes_digits;
use crate::digits::push_decimal_i32;
use crate::digits::push_decimal_u128;
use crate::digits::push_decimal_u64;
use crate::digits::signed_dec_bytes;
use crate::fib::compute_spec;
use crate::fib::fibonacci_computation;
use crate::clock::clock_now;
use crate::clock::micros_since;
use crate::text::bytes_nul_free;
use crate::text::is_valid_utf8;
use crate::text::lemma_ascii_bytes_piece;
use crate::text::lemma_ascii_text;
use crate::text::lemma_nul_free_concat;
use crate::text::nul_free;

verus! {

/// A heap-allocated, NUL-terminated, UTF-8-encoded byte buffer whose
/// ownership crosses the component boundary.  The terminator is the last
/// byte and occurs nowhere else, so a consumer that reads up to the first
/// NUL sees exactly [`ExchangedString::content`].
pub struct ExchangedString {
    bytes: Vec<u8>,
}

impl View for ExchangedString {
    type V = Seq<u8>;

    closed spec fn view(&self) -> Seq<u8> {
        self.bytes@
    }
}

impl ExchangedString {
    /// The buffer invariant: non-empty, NUL-terminated, no interior NUL,
    /// and the text before the terminator is valid UTF-8.
    pub open spec fn wf(&self) -> bool {
        &&& self@.len() >= 1
        &&& self@[self@.len() - 1] == 0
        &&& nul_free(self.content())
        &&& valid_utf8(self.content())
    }

    /// The message text: everything before the terminator.
    pub open spec fn content(&self) -> Seq<u8> {
        self@.take(self@.len() - 1)
    }

    /// The whole buffer, terminator included, as a borrowed slice.
    pub fn as_bytes(&self) -> (r: &[u8])
        ensures
            r@ == self@,
    {
        self.bytes.as_slice()
    }

    /// A copy of the message text, without the terminator.
    pub fn content_bytes(&self) -> (r: Vec<u8>)
        requires
            self.wf(),
        ensures
            r@ == self.content(),
    {
        let bytes = self.bytes.as_slice();
        let mut out: Vec<u8> = Vec::with_capacity(bytes.len() - 1);
        let mut i: usize = 0;
        while i < bytes.len() - 1
            invariant
                self@.len() >= 1,
                bytes@ == self@,
                i <= self@.len() - 1,
                out@.len() == i,
                forall|j: int| 0 <= j < i ==> out@[j] == self@[j],
            decreases self@.len() - i,
        {
            out.push(bytes[i]);
            i = i + 1;
        }
        proof {
            assert(out@ =~= self.content());
        }
        out
    }

    /// Hands the whole buffer, terminator included, to the caller; the
    /// native-interop shim turns it into a raw C string.
    pub fn into_bytes_with_nul(self) -> (r: Vec<u8>)
        ensures
            r@ == self@,
    {
        self.bytes
    }
}

/// Reclaims a produced buffer.  An absent handle stands for the boundary's
/// null pointer and the release is a no-op; releasing the same buffer twice
/// is impossible here, because the handle is consumed by value.
pub fn free_string(handle: Option<ExchangedString>) {
    match handle {
        Some(owned) => {
            // Dropping the owned buffer reclaims its memory.
            let _ = owned;
        },
        None => {},
    }
}

/// The display name embedded in a greeting: the caller's bytes when they
/// are UTF-8 and free of NUL bytes, the fixed fallback otherwise — a
/// malformed name degrades gracefully, it is never an error.
pub open spec fn display_name(name: Seq<u8>) -> Seq<u8> {
    if valid_utf8(name) && nul_free(name) {
        name
    } else {
        "friend".spec_bytes()
    }
}

/// A duration in whole microseconds rendered as fractional milliseconds
/// with three decimal places.
pub open spec fn millis_bytes(micros: u64) -> Seq<u8> {
    dec_bytes((micros / 1000) as nat) + seq![0x2eu8] + frac3_bytes((micros % 1000) as nat)
}

/// Three zero-padded decimal digits for a value below a thousand.
pub open spec fn frac3_bytes(f: nat) -> Seq<u8>
    recommends
        f < 1000,
{
    seq![digit_byte(f / 100), digit_byte((f / 10) % 10), digit_byte(f % 10)]
}

/// The greeting text around one computed value: name, index, value, and
/// the measured duration.
pub open spec fn greeting_bytes(name: Seq<u8>, n: int, value: u128, micros: u64) -> Seq<u8> {
    "Hello ".spec_bytes() + display_name(name) + "! The ".spec_bytes() + signed_dec_bytes(n)
        + "th Fibonacci number is: ".spec_bytes() + dec_bytes(value as nat)
        + "\nRust Internal Time: ".spec_bytes() + millis_bytes(micros)
        + " milliseconds\n".spec_bytes()
}

/// Every byte of a rendered duration is a non-NUL ASCII byte.
proof fn lemma_millis_ascii(micros: u64)
    ensures
        forall|i: int|
            0 <= i < millis_bytes(micros).len() ==> 0 < #[trigger] millis_bytes(micros)[i] < 0x80,
{
    lemma_dec_bytes_digits((micros / 1000) as nat);
    assert forall|i: int| 0 <= i < millis_bytes(micros).len() implies 0 < #[trigger] millis_bytes(
        micros,
    )[i] < 0x80 by {
        let d = dec_bytes((micros / 1000) as nat);
        if i < d.len() {
            assert(millis_bytes(micros)[i] == d[i]);
        }
    }
}

/// Every byte of a rendered signed number is a non-NUL ASCII byte.
proof fn lemma_signed_dec_ascii(v: int)
    ensures
        forall|i: int|
            0 <= i < signed_dec_bytes(v).len() ==> 0 < #[trigger] signed_dec_bytes(v)[i] < 0x80,
{
    if v < 0 {
        lemma_dec_bytes_digits((-v) as nat);
        assert forall|i: int| 0 <= i < signed_dec_bytes(v).len() implies 0
            < #[trigger] signed_dec_bytes(v)[i] < 0x80 by {
            if i >= 1 {
                assert(signed_dec_bytes(v)[i] == dec_bytes((-v) as nat)[i - 1]);
            }
        }
    } else {
        lemma_dec_bytes_digits(v as nat);
    }
}

/// Appends a duration as fractional milliseconds.
fn push_millis(out: &mut Vec<u8>, micros: u64)
    ensures
        final(out)@ == old(out)@ + millis_bytes(micros),
{
    push_decimal_u64(out, micros / 1000);
    out.push(0x2eu8);
    let f: u64 = micros % 1000;
    out.push(0x30u8 + ((f / 100) as u8));
    out.push(0x30u8 + (((f / 10) % 10) as u8));
    out.push(0x30u8 + ((f % 10) as u8));
    assert(final(out)@ =~= old(out)@ + millis_bytes(micros));
}

/// Builds the greeting for a computed value and a measured duration as an
/// exchangeable buffer.  The whole text is pinned: callers know the exact
/// bytes for every combination of arguments.
pub fn greeting_message(name: &Vec<u8>, n: i32, value: u128, micros: u64) -> (out: ExchangedString)
    ensures
        out.wf(),
        out.content() == greeting_bytes(name@, n as int, value, micros),
{
    let mut buf: Vec<u8> = Vec::new();
    buf.extend_from_slice("Hello ".as_bytes());
    if is_valid_utf8(name.as_slice()) && bytes_nul_free(name.as_slice()) {
        buf.extend_from_slice(name.as_slice());
    } else {
        buf.extend_from_slice("friend".as_bytes());
    }
    buf.extend_from_slice("! The ".as_bytes());
    push_decimal_i32(&mut buf, n);
    buf.extend_from_slice("th Fibonacci number is: ".as_bytes());
    push_decimal_u128(&mut buf, value);
    buf.extend_from_slice("\nRust Internal Time: ".as_bytes());
    push_millis(&mut buf, micros);
    buf.extend_from_slice(" milliseconds\n".as_bytes());
    proof {
        assert(buf@ =~= greeting_bytes(name@, n as int, value, micros));
        lemma_greeting_bytes_wf(name@, n as int, value, micros);
    }
    buf.push(0u8);
    let out = ExchangedString { bytes: buf };
    proof {
        assert(out.content() =~= greeting_bytes(name@, n as int, value, micros));
    }
    out
}

/// A greeting is NUL-free and valid UTF-8, whatever went into it.
proof fn lemma_greeting_bytes_wf(name: Seq<u8>, n: int, value: u128, micros: u64)
    ensures
        nul_free(greeting_bytes(name, n, value, micros)),
        valid_utf8(greeting_bytes(name, n, value, micros)),
{
    reveal_strlit("Hello ");
    reveal_strlit("friend");
    reveal_strlit("! The ");
    reveal_strlit("th Fibonacci number is: ");
    reveal_strlit("\nRust Internal Time: ");
    reveal_strlit(" milliseconds\n");
    lemma_ascii_text("Hello "@);
    lemma_ascii_text("friend"@);
    lemma_ascii_text("! The "@);
    lemma_ascii_text("th Fibonacci number is: "@);
    lemma_ascii_text("\nRust Internal Time: "@);
    lemma_ascii_text(" milliseconds\n"@);
    lemma_signed_dec_ascii(n);
    lemma_ascii_bytes_piece(signed_dec_bytes(n));
    lemma_dec_bytes_digits(value as nat);
    lemma_ascii_bytes_piece(dec_bytes(value as nat));
    lemma_millis_ascii(micros);
    lemma_ascii_bytes_piece(millis_bytes(micros));
    let p1 = "Hello ".spec_bytes();
    let p2 = display_name(name);
    let p3 = "! The ".spec_bytes();
    let p4 = signed_dec_bytes(n);
    let p5 = "th Fibonacci number is: ".spec_bytes();
    let p6 = dec_bytes(value as nat);
    let p7 = "\nRust Internal Time: ".spec_bytes();
    let p8 = millis_bytes(micros);
    let p9 = " milliseconds\n".spec_bytes();
    lemma_nul_free_concat(p1, p2);
    valid_utf8_concat(p1, p2);
    lemma_nul_free_concat(p1 + p2, p3);
    valid_utf8_concat(p1 + p2, p3);
    lemma_nul_free_concat(p1 + p2 + p3, p4);
    valid_utf8_concat(p1 + p2 + p3, p4);
    lemma_nul_free_concat(p1 + p2 + p3 + p4, p5);
    valid_utf8_concat(p1 + p2 + p3 + p4, p5);
    lemma_nul_free_concat(p1 + p2 + p3 + p4 + p5, p6);
    valid_utf8_concat(p1 + p2 + p3 + p4 + p5, p6);
    lemma_nul_free_concat(p1 + p2 + p3 + p4 + p5 + p6, p7);
    valid_utf8_concat(p1 + p2 + p3 + p4 + p5 + p6, p7);
    lemma_nul_free_concat(p1 + p2 + p3 + p4 + p5 + p6 + p7, p8);
    valid_utf8_concat(p1 + p2 + p3 + p4 + p5 + p6 + p7, p8);
    lemma_nul_free_concat(p1 + p2 + p3 + p4 + p5 + p6 + p7 + p8, p9);
    valid_utf8_concat(p1 + p2 + p3 + p4 + p5 + p6 + p7 + p8, p9);
}

/// The opening frame of a batch report.
pub open spec fn report_head() -> Seq<u8> {
    "{\"results\": [".spec_bytes()
}

/// The frame between the results and the duration.
pub open spec fn report_mid() -> Seq<u8> {
    "], \"time_ms\": ".spec_bytes()
}

/// The closing frame of a batch report.
pub open spec fn report_tail() -> Seq<u8> {
    "}".spec_bytes()
}

/// The separator between two rendered results.
pub open spec fn results_sep() -> Seq<u8> {
    ", ".spec_bytes()
}

/// The comma-separated decimal rendering of the results.
pub open spec fn results_list_bytes(rs: Seq<u128>) -> Seq<u8>
    decreases rs.len(),
{
    if rs.len() == 0 {
        Seq::empty()
    } else if rs.len() == 1 {
        dec_bytes(rs[0] as nat)
    } else {
        dec_bytes(rs[0] as nat) + results_sep() + results_list_bytes(rs.skip(1))
    }
}

/// The whole report: the results in order, then the measured duration.
pub open spec fn batch_report_bytes(rs: Seq<u128>, micros: u64) -> Seq<u8> {
    report_head() + results_list_bytes(rs) + report_mid() + millis_bytes(micros) + report_tail()
}

/// The engine's values for a sequence of indices, in input order.
pub open spec fn batch_values(indices: Seq<i32>) -> Seq<u128> {
    Seq::new(indices.len(), |k: int| compute_spec(indices[k] as int))
}

/// Concrete facts about the fixed frame pieces.
proof fn lemma_report_frame_facts()
    ensures
        report_head().len() == 13,
        report_mid().len() == 14,
        report_mid()[0] == 0x5du8,
        results_sep() =~= seq![0x2cu8, 0x20u8],
        report_tail() =~= seq![0x7du8],
        forall|i: int| 0 <= i < report_head().len() ==> 0 < #[trigger] report_head()[i] < 0x80,
        forall|i: int| 0 <= i < report_mid().len() ==> 0 < #[trigger] report_mid()[i] < 0x80,
        forall|i: int| 0 <= i < report_tail().len() ==> 0 < #[trigger] report_tail()[i] < 0x80,
        forall|i: int| 0 <= i < results_sep().len() ==> 0 < #[trigger] results_sep()[i] < 0x80,
{
    reveal_strlit("{\"results\": [");
    reveal_strlit("], \"time_ms\": ");
    reveal_strlit("}");
    reveal_strlit(", ");
    lemma_ascii_text("{\"results\": ["@);
    lemma_ascii_text("], \"time_ms\": "@);
    lemma_ascii_text("}"@);
    lemma_ascii_text(", "@);
    vstd::utf8::is_ascii_chars_encode_utf8("], \"time_ms\": "@);
    vstd::utf8::is_ascii_chars_encode_utf8("}"@);
    vstd::utf8::is_ascii_chars_encode_utf8(", "@);
    assert(report_mid()[0] == ']' as u8);
    assert(results_sep() =~= seq![0x2cu8, 0x20u8]);
    assert(report_tail() =~= seq![0x7du8]);
}

/// Every byte of a rendered results list is a non-NUL ASCII byte.
proof fn lemma_results_list_ascii(rs: Seq<u128>)
    ensures
        forall|i: int|
            0 <= i < results_list_bytes(rs).len() ==> 0 < #[trigger] results_list_bytes(rs)[i]
                < 0x80,
    decreases rs.len(),
{
    lemma_report_frame_facts();
    if rs.len() == 0 {
    } else if rs.len() == 1 {
        lemma_dec_bytes_digits(rs[0] as nat);
    } else {
        lemma_dec_bytes_digits(rs[0] as nat);
        lemma_results_list_ascii(rs.skip(1));
        let d = dec_bytes(rs[0] as nat);
        let rest = results_list_bytes(rs.skip(1));
        assert forall|i: int| 0 <= i < results_list_bytes(rs).len() implies 0
            < #[trigger] results_list_bytes(rs)[i] < 0x80 by {
            if i < d.len() {
                assert(results_list_bytes(rs)[i] == d[i]);
            } else if i < d.len() + 2 {
                assert(results_list_bytes(rs)[i] == results_sep()[i - d.len()]);
            } else {
                assert(results_list_bytes(rs)[i] == rest[i - d.len() - 2]);
            }
        }
    }
}

/// Appending one more value to a rendered list appends its rendering,
/// preceded by the separator when the list was not empty.
proof fn lemma_results_list_snoc(rs: Seq<u128>, v: u128)
    ensures
        results_list_bytes(rs.push(v)) == if rs.len() == 0 {
            dec_bytes(v as nat)
        } else {
            results_list_bytes(rs) + results_sep() + dec_bytes(v as nat)
        },
    decreases rs.len(),
{
    if rs.len() == 0 {
        assert(rs.push(v)[0] == v);
    } else if rs.len() == 1 {
        assert(rs.push(v)[0] == rs[0]);
        assert(rs.push(v).skip(1) =~= seq![v]);
        assert(results_list_bytes(seq![v]) == dec_bytes(v as nat));
    } else {
        assert(rs.push(v)[0] == rs[0]);
        assert(rs.push(v).skip(1) =~= rs.skip(1).push(v));
        lemma_results_list_snoc(rs.skip(1), v);
        assert(results_list_bytes(rs.push(v)) =~= results_list_bytes(rs) + results_sep()
            + dec_bytes(v as nat));
    }
}

/// A batch report is NUL-free and valid UTF-8.
proof fn lemma_batch_report_wf(rs: Seq<u128>, micros: u64)
    ensures
        nul_free(batch_report_bytes(rs, micros)),
        valid_utf8(batch_report_bytes(rs, micros)),
{
    lemma_report_frame_facts();
    lemma_results_list_ascii(rs);
    lemma_millis_ascii(micros);
    let p1 = report_head();
    let p2 = results_list_bytes(rs);
    let p3 = report_mid();
    let p4 = millis_bytes(micros);
    let p5 = report_tail();
    lemma_ascii_bytes_piece(p1);
    lemma_ascii_bytes_piece(p2);
    lemma_ascii_bytes_piece(p3);
    lemma_ascii_bytes_piece(p4);
    lemma_ascii_bytes_piece(p5);
    lemma_nul_free_concat(p1, p2);
    valid_utf8_concat(p1, p2);
    lemma_nul_free_concat(p1 + p2, p3);
    valid_utf8_concat(p1 + p2, p3);
    lemma_nul_free_concat(p1 + p2 + p3, p4);
    valid_utf8_concat(p1 + p2 + p3, p4);
    lemma_nul_free_concat(p1 + p2 + p3 + p4, p5);
    valid_utf8_concat(p1 + p2 + p3 + p4, p5);
}

/// Computes the engine's value for every index, in input order.
pub fn compute_batch(indices: &Vec<i32>) -> (results: Vec<u128>)
    ensures
        results@ == batch_values(indices@),
{
    let mut results: Vec<u128> = Vec::with_capacity(indices.len());
    let mut k: usize = 0;
    while k < indices.len()
        invariant
            k <= indices@.len(),
            results@.len() == k,
            forall|j: int| 0 <= j < k ==> results@[j] == compute_spec(indices@[j] as int),
        decreases indices@.len() - k,
    {
        let value: u128 = crate::fib::fibonacci(indices[k]);
        results.push(value);
        k = k + 1;
    }
    proof {
        assert(results@ =~= batch_values(indices@));
    }
    results
}

/// Serializes computed values and a measured duration as the JSON-shaped
/// report, as an exchangeable buffer.  The whole text is pinned.
pub fn batch_report_message(results: &Vec<u128>, micros: u64) -> (out: ExchangedString)
    ensures
        out.wf(),
        out.content() == batch_report_bytes(results@, micros),
{
    let mut buf: Vec<u8> = Vec::new();
    buf.extend_from_slice("{\"results\": [".as_bytes());
    proof {
        assert(buf@ =~= report_head() + results_list_bytes(results@.take(0)));
    }
    let mut k: usize = 0;
    while k < results.len()
        invariant
            k <= results@.len(),
            buf@ == report_head() + results_list_bytes(results@.take(k as int)),
        decreases results@.len() - k,
    {
        if k > 0 {
            buf.extend_from_slice(", ".as_bytes());
        }
        push_decimal_u128(&mut buf, results[k]);
        proof {
            lemma_report_frame_facts();
            lemma_results_list_snoc(results@.take(k as int), results@[k as int]);
            assert(results@.take(k as int).push(results@[k as int]) =~= results@.take(
                k as int + 1,
            ));
            assert(buf@ =~= report_head() + results_list_bytes(results@.take(k as int + 1)));
        }
        k = k + 1;
    }
    proof {
        assert(results@.take(results@.len() as int) =~= results@);
    }
    buf.extend_from_slice("], \"time_ms\": ".as_bytes());
    push_millis(&mut buf, micros);
    buf.extend_from_slice("}".as_bytes());
    proof {
        assert(buf@ =~= batch_report_bytes(results@, micros));
        lemma_batch_report_wf(results@, micros);
    }
    buf.push(0u8);
    let out = ExchangedString { bytes: buf };
    proof {
        assert(out.content() =~= batch_report_bytes(results@, micros));
    }
    out
}

/// Computes the clamped 128-bit value for every index in input order,
/// measures the whole batch's duration, and hands back the report as an
/// owned buffer.
pub fn calculate_fibonacci_batch(indices: &Vec<i32>) -> (out: ExchangedString)
    ensures
        out.wf(),
        exists|micros: u64|
            out.content() == batch_report_bytes(batch_values(indices@), micros),
{
    let start = clock_now();
    let results = compute_batch(indices);
    let micros: u64 = micros_since(&start);
    let out = batch_report_message(&results, micros);
    proof {
        assert(out.content() == batch_report_bytes(batch_values(indices@), micros));
    }
    out
}

/// No shared state leaks between calls: what a produced greeting holds is
/// decided by that call's own arguments alone, so producing and releasing
/// one buffer cannot disturb what any other call produces.
pub proof fn lemma_greeting_independent(
    a: ExchangedString,
    b: ExchangedString,
    name: Seq<u8>,
    n: int,
    value: u128,
    micros: u64,
)
    requires
        a.content() == greeting_bytes(name, n, value, micros),
        b.content() == greeting_bytes(name, n, value, micros),
    ensures
        a.content() == b.content(),
{
}

/// True when `s` begins with `prefix`.
pub open spec fn starts_with(s: Seq<u8>, prefix: Seq<u8>) -> bool {
    s.len() >= prefix.len() && s.take(prefix.len() as int) == prefix
}

/// Whether the slice, from a position, begins with the prefix.
fn starts_with_at(s: &[u8], pos: usize, prefix: &[u8]) -> (r: bool)
    requires
        pos <= s@.len(),
    ensures
        r == starts_with(s@.skip(pos as int), prefix@),
{
    if s.len() - pos < prefix.len() {
        return false;
    }
    let mut k: usize = 0;
    while k < prefix.len()
        invariant
            0 <= k <= prefix@.len(),
            pos + prefix@.len() <= s@.len() <= usize::MAX,
            forall|j: int| 0 <= j < k ==> s@[pos + j] == prefix@[j],
        decreases prefix@.len() - k,
    {
        if s[pos + k] != prefix[k] {
            proof {
                if starts_with(s@.skip(pos as int), prefix@) {
                    assert(s@.skip(pos as int).take(prefix@.len() as int)[k as int]
                        == prefix@[k as int]);
                    assert(s@.skip(pos as int)[k as int] == s@[pos + k]);
                }
            }
            return false;
        }
        k = k + 1;
    }
    proof {
        assert(s@.skip(pos as int).take(prefix@.len() as int) =~= prefix@);
    }
    true
}

/// One or more comma-separated decimal values, and what follows them.
pub open spec fn parse_results_items(s: Seq<u8>) -> Option<(Seq<u128>, Seq<u8>)>
    decreases s.len(),
    via parse_results_items_decreases
{
    let p = parse_digits(s, 0);
    if p.1.len() == s.len() {
        None
    } else if p.0 > u128::MAX {
        None
    } else if starts_with(p.1, results_sep()) {
        match parse_results_items(p.1.skip(2)) {
            Some(q) => Some((seq![p.0 as u128] + q.0, q.1)),
            None => None,
        }
    } else {
        Some((seq![p.0 as u128], p.1))
    }
}

#[via_fn]
proof fn parse_results_items_decreases(s: Seq<u8>) {
    lemma_parse_digits_rest(s, 0);
    lemma_report_frame_facts();
}

/// True when the bytes read as a rendered duration followed by the closing
/// brace and nothing else: digits, a dot, exactly three digits, `}`.
pub open spec fn valid_time_tail(s: Seq<u8>) -> bool {
    let p = parse_digits(s, 0);
    &&& p.1.len() < s.len()
    &&& p.0 <= u128::MAX
    &&& p.1.len() == 5
    &&& p.1[0] == 0x2eu8
    &&& is_digit_byte(p.1[1])
    &&& is_digit_byte(p.1[2])
    &&& is_digit_byte(p.1[3])
    &&& p.1[4] == 0x7du8
}

/// What a batch report means: the embedded results, when the bytes are
/// exactly a report; nothing otherwise.
pub open spec fn parse_batch_report_spec(s: Seq<u8>) -> Option<Seq<u128>> {
    if !starts_with(s, report_head()) {
        None
    } else {
        let t = s.skip(report_head().len() as int);
        if starts_with(t, report_mid()) {
            if valid_time_tail(t.skip(report_mid().len() as int)) {
                Some(Seq::empty())
            } else {
                None
            }
        } else {
            match parse_results_items(t) {
                Some(q) => if starts_with(q.1, report_mid()) && valid_time_tail(
                    q.1.skip(report_mid().len() as int),
                ) {
                    Some(q.0)
                } else {
                    None
                },
                None => None,
            }
        }
    }
}

/// Whether the slice, from a position, reads as a rendered duration and the
/// closing brace.
fn check_time_tail(s: &[u8], pos: usize) -> (r: bool)
    requires
        pos <= s@.len(),
    ensures
        r == valid_time_tail(s@.skip(pos as int)),
{
    let ghost t = s@.skip(pos as int);
    match scan_decimal(s, pos) {
        None => {
            proof {
                lemma_parse_digits_rest(t, 0);
            }
            false
        },
        Some(p) => {
            let end: usize = p.1;
            if end == pos {
                return false;
            }
            if s.len() - end != 5 {
                return false;
            }
            proof {
                assert(s@.skip(end as int)[0] == s@[end as int]);
                assert(s@.skip(end as int)[1] == s@[end as int + 1]);
                assert(s@.skip(end as int)[2] == s@[end as int + 2]);
                assert(s@.skip(end as int)[3] == s@[end as int + 3]);
                assert(s@.skip(end as int)[4] == s@[end as int + 4]);
            }
            s[end] == 0x2e && (0x30 <= s[end + 1] && s[end + 1] <= 0x39) && (0x30 <= s[end + 2]
                && s[end + 2] <= 0x39) && (0x30 <= s[end + 3] && s[end + 3] <= 0x39) && s[end + 4]
                == 0x7d
        },
    }
}

/// Reads comma-separated values from a position, appending them to `out`;
/// hands back the position just past them.
fn parse_items_exec(s: &[u8], pos: usize, out: &mut Vec<u128>) -> (r: Option<usize>)
    requires
        pos <= s@.len(),
    ensures
        match r {
            Some(end) => {
                &&& pos <= end <= s@.len()
                &&& parse_results_items(s@.skip(pos as int)) matches Some(q) && final(out)@ == old(
                    out,
                )@ + q.0 && q.1 == s@.skip(end as int)
            },
            None => parse_results_items(s@.skip(pos as int)) is None,
        },
    decreases s@.len() - pos,
{
    let ghost t = s@.skip(pos as int);
    proof {
        lemma_report_frame_facts();
    }
    match scan_decimal(s, pos) {
        None => {
            proof {
                lemma_parse_digits_noconsume(t, 0);
            }
            None
        },
        Some(p) => {
            let v: u128 = p.0;
            let end: usize = p.1;
            if end == pos {
                return None;
            }
            out.push(v);
            if starts_with_at(s, end, ", ".as_bytes()) {
                proof {
                    assert(s.len() == s@.len());
                    assert(s@.skip(end as int).len() >= 2);
                    assert(s@.skip(end as int).skip(2) =~= s@.skip(end as int + 2));
                }
                let deeper = parse_items_exec(s, end + 2, out);
                match deeper {
                    Some(end2) => {
                        proof {
                            let q2 = parse_results_items(s@.skip(end as int + 2)).unwrap();
                            assert(parse_results_items(t) == Some(
                                (seq![v] + q2.0, q2.1),
                            ));
                            assert(final(out)@ =~= old(out)@ + (seq![v] + q2.0));
                        }
                        Some(end2)
                    },
                    None => None,
                }
            } else {
                proof {
                    assert(parse_results_items(t) == Some((seq![v], s@.skip(end as int))));
                    assert(final(out)@ =~= old(out)@ + seq![v]);
                }
                Some(end)
            }
        },
    }
}

/// Reads a batch report back.  When the bytes are exactly a produced
/// report, the result is the embedded values in their original order.
pub fn parse_batch_report(s: &[u8]) -> (r: Option<Vec<u128>>)
    ensures
        match r {
            Some(values) => parse_batch_report_spec(s@) == Some(values@),
            None => parse_batch_report_spec(s@) is None,
        },
{
    proof {
        lemma_report_frame_facts();
        assert(s@.skip(0) =~= s@);
    }
    let head = "{\"results\": [".as_bytes();
    let mid = "], \"time_ms\": ".as_bytes();
    if !starts_with_at(s, 0, head) {
        return None;
    }
    let hlen: usize = head.len();
    if starts_with_at(s, hlen, mid) {
        let tpos: usize = hlen + mid.len();
        proof {
            assert(s@.skip(hlen as int).skip(mid@.len() as int) =~= s@.skip(tpos as int));
        }
        if check_time_tail(s, tpos) {
            let empty: Vec<u128> = Vec::new();
            proof {
                assert(empty@ =~= Seq::<u128>::empty());
            }
            Some(empty)
        } else {
            None
        }
    } else {
        let mut values: Vec<u128> = Vec::new();
        match parse_items_exec(s, hlen, &mut values) {
            None => None,
            Some(end) => {
                if starts_with_at(s, end, mid) {
                    proof {
                        assert(s.len() == s@.len());
                        assert(s@.skip(end as int).len() >= mid@.len());
                    }
                    let tpos: usize = end + mid.len();
                    proof {
                        assert(s@.skip(end as int).skip(mid@.len() as int) =~= s@.skip(
                            tpos as int,
                        ));
                    }
                    if check_time_tail(s, tpos) {
                        Some(values)
                    } else {
                        None
                    }
                } else {
                    None
                }
            },
        }
    }
}

/// A rendered duration followed by the closing brace is a well-formed time
/// tail.
proof fn lemma_valid_time_tail(micros: u64)
    ensures
        valid_time_tail(millis_bytes(micros) + report_tail()),
{
    lemma_report_frame_facts();
    let f: nat = (micros % 1000) as nat;
    let rest = seq![0x2eu8] + frac3_bytes(f) + report_tail();
    assert(millis_bytes(micros) + report_tail() =~= dec_bytes((micros / 1000) as nat) + rest);
    lemma_parse_dec_bytes_exact((micros / 1000) as nat, rest);
    assert(rest.len() == 5);
    assert(rest[0] == 0x2eu8);
    assert(rest[1] == digit_byte(f / 100));
    assert(rest[2] == digit_byte((f / 10) % 10));
    assert(rest[3] == digit_byte(f % 10));
    assert(rest[4] == 0x7du8);
    lemma_dec_bytes_digits((micros / 1000) as nat);
}

/// Parsing a rendered results list hands back exactly the rendered values,
/// when the list is followed by something that is neither a digit nor a
/// separator.
proof fn lemma_parse_items_render(rs: Seq<u128>, suffix: Seq<u8>)
    requires
        rs.len() >= 1,
        suffix.len() >= 1,
        !is_digit_byte(suffix[0]),
        suffix[0] != 0x2cu8,
    ensures
        parse_results_items(results_list_bytes(rs) + suffix) == Some((rs, suffix)),
    decreases rs.len(),
{
    lemma_report_frame_facts();
    let s = results_list_bytes(rs) + suffix;
    if rs.len() == 1 {
        lemma_parse_dec_bytes_exact(rs[0] as nat, suffix);
        lemma_dec_bytes_digits(rs[0] as nat);
        if starts_with(suffix, results_sep()) {
            assert(suffix.take(2)[0] == results_sep()[0]);
        }
        assert(seq![rs[0]] =~= rs);
    } else {
        let rest0 = results_sep() + (results_list_bytes(rs.skip(1)) + suffix);
        assert(s =~= dec_bytes(rs[0] as nat) + rest0);
        assert(rest0[0] == 0x2cu8);
        lemma_parse_dec_bytes_exact(rs[0] as nat, rest0);
        lemma_dec_bytes_digits(rs[0] as nat);
        assert(rest0.take(2) =~= results_sep());
        assert(starts_with(rest0, results_sep()));
        assert(rest0.skip(2) =~= results_list_bytes(rs.skip(1)) + suffix);
        lemma_parse_items_render(rs.skip(1), suffix);
        assert(seq![rs[0]] + rs.skip(1) =~= rs);
    }
}

/// Batch equivalence, the round-trip law: a produced report parses back to
/// exactly the values that went in, in their original order.
pub proof fn lemma_batch_report_round_trip(rs: Seq<u128>, micros: u64)
    ensures
        parse_batch_report_spec(batch_report_bytes(rs, micros)) == Some(rs),
{
    lemma_report_frame_facts();
    lemma_valid_time_tail(micros);
    let s = batch_report_bytes(rs, micros);
    let time_tail = millis_bytes(micros) + report_tail();
    assert(s.take(13) =~= report_head());
    assert(starts_with(s, report_head()));
    let t = s.skip(13);
    if rs.len() == 0 {
        assert(t =~= report_mid() + time_tail);
        assert(t.take(14) =~= report_mid());
        assert(starts_with(t, report_mid()));
        assert(t.skip(14) =~= time_tail);
    } else {
        let suffix = report_mid() + time_tail;
        assert(t =~= results_list_bytes(rs) + suffix);
        lemma_dec_bytes_digits(rs[0] as nat);
        assert(results_list_bytes(rs)[0] == dec_bytes(rs[0] as nat)[0]);
        assert(t[0] == results_list_bytes(rs)[0]);
        if starts_with(t, report_mid()) {
            assert(t.take(14)[0] == report_mid()[0]);
        }
        assert(!starts_with(t, report_mid()));
        assert(suffix[0] == report_mid()[0]);
        lemma_parse_items_render(rs, suffix);
        assert(suffix.take(14) =~= report_mid());
        assert(starts_with(suffix, report_mid()));
        assert(suffix.skip(14) =~= time_tail);
    }
}

/// Computes the clamped 128-bit Fibonacci value for the index, measures the
/// computation's duration, and hands back the greeting as an owned buffer.
/// The embedded value is pinned to the engine's result; the duration is
/// whatever the clock said.
pub fn calculate_fibonacci_and_greet(name: &Vec<u8>, n: i32) -> (out: ExchangedString)
    ensures
        out.wf(),
        exists|micros: u64|
            out.content() == greeting_bytes(name@, n as int, compute_spec(n as int), micros),
{
    let start = clock_now();
    let computation = fibonacci_computation(n);
    let micros: u64 = micros_since(&start);
    let out = greeting_message(name, n, computation.value, micros);
    proof {
        assert(out.content() == greeting_bytes(name@, n as int, compute_spec(n as int), micros));
    }
    out
}

} // verus!
