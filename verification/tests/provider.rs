//! Scenarios against the host-backed provider: round trips, replacement,
//! and every failure mode of the protocol.

use clipcore::host::BlockState;
use clipcore::{ClipboardError, WindowsClipboardContext};

#[test]
fn set_then_get_hello() {
    let mut ctx = WindowsClipboardContext::new().unwrap();
    ctx.set_contents("hello".to_string()).unwrap();
    assert_eq!(ctx.get_contents().unwrap(), "hello");
}

#[test]
fn mime_round_trip() {
    let mut ctx = WindowsClipboardContext::new().unwrap();
    ctx.set_mime_contents("<b>bold</b>".to_string(), "text/html").unwrap();
    assert_eq!(ctx.get_mime_contents("text/html").unwrap(), "<b>bold</b>");
}

#[test]
fn round_trip_keeps_wide_characters() {
    let mut ctx = WindowsClipboardContext::new().unwrap();
    let text = "h\u{e9}llo \u{1F30D} \u{10348}";
    ctx.set_contents(text.to_string()).unwrap();
    assert_eq!(ctx.get_contents().unwrap(), text);
}

#[test]
fn later_write_replaces_earlier_one() {
    let mut ctx = WindowsClipboardContext::new().unwrap();
    ctx.set_contents("first".to_string()).unwrap();
    ctx.set_contents("second".to_string()).unwrap();
    assert_eq!(ctx.get_contents().unwrap(), "second");
}

#[test]
fn embedded_terminator_truncates_on_read() {
    let mut ctx = WindowsClipboardContext::new().unwrap();
    ctx.set_contents("ab\u{0}cd".to_string()).unwrap();
    assert_eq!(ctx.get_contents().unwrap(), "ab");
}

#[test]
fn missing_format_reports_not_present() {
    let mut ctx = WindowsClipboardContext::new().unwrap();
    assert_eq!(
        ctx.get_mime_contents("application/x-missing"),
        Err(ClipboardError::FormatNotPresent)
    );
}

#[test]
fn empty_payload_rejected_and_clipboard_unchanged() {
    let mut ctx = WindowsClipboardContext::new().unwrap();
    assert_eq!(
        ctx.set_mime_contents(String::new(), "text/plain"),
        Err(ClipboardError::EmptyPayload)
    );
    assert_eq!(
        ctx.get_mime_contents("text/plain"),
        Err(ClipboardError::FormatNotPresent)
    );
}

#[test]
fn empty_mime_name_refused() {
    let mut ctx = WindowsClipboardContext::new().unwrap();
    assert_eq!(
        ctx.set_mime_contents("x".to_string(), ""),
        Err(ClipboardError::FormatRegistration)
    );
}

#[test]
fn publish_failure_frees_the_block_exactly_once() {
    let mut ctx = WindowsClipboardContext::new().unwrap();
    ctx.host.inject_publish_failure();
    assert_eq!(
        ctx.set_contents("payload".to_string()),
        Err(ClipboardError::Publish)
    );
    // exactly one block was allocated, and it ended Freed, not Published
    assert_eq!(ctx.host.block_count(), 1);
    assert_eq!(ctx.host.block_state(0), BlockState::Freed);
    // nothing was published
    assert_eq!(ctx.get_contents(), Err(ClipboardError::FormatNotPresent));
    // the fault was one-shot: the next write goes through and owns a new block
    ctx.set_contents("payload".to_string()).unwrap();
    assert_eq!(ctx.host.block_count(), 2);
    assert_eq!(ctx.host.block_state(1), BlockState::Published);
    assert_eq!(ctx.get_contents().unwrap(), "payload");
}

#[test]
fn allocation_failure_reported() {
    let mut ctx = WindowsClipboardContext::new().unwrap();
    ctx.host.inject_alloc_failure();
    assert_eq!(
        ctx.set_contents("payload".to_string()),
        Err(ClipboardError::Allocation)
    );
    assert_eq!(ctx.host.block_count(), 0);
}

#[test]
fn conversion_failure_on_write_reported() {
    let mut ctx = WindowsClipboardContext::new().unwrap();
    ctx.host.inject_convert_failure();
    assert_eq!(
        ctx.set_contents("payload".to_string()),
        Err(ClipboardError::Encoding)
    );
}

#[test]
fn conversion_failure_on_read_reported() {
    let mut ctx = WindowsClipboardContext::new().unwrap();
    ctx.set_contents("payload".to_string()).unwrap();
    ctx.host.inject_convert_failure();
    assert_eq!(ctx.get_contents(), Err(ClipboardError::Encoding));
    // the defect was one-shot; the data is still there
    assert_eq!(ctx.get_contents().unwrap(), "payload");
}

#[test]
fn contended_clipboard_reports_unavailable() {
    let mut ctx = WindowsClipboardContext::new().unwrap();
    ctx.host.inject_busy(10);
    assert_eq!(
        ctx.set_contents("payload".to_string()),
        Err(ClipboardError::ClipboardUnavailable)
    );
    // all ten busy responses were consumed; the next call succeeds
    assert_eq!(ctx.host.busy_left(), 0);
    ctx.set_contents("payload".to_string()).unwrap();
}

#[test]
fn brief_contention_is_retried_through() {
    let mut ctx = WindowsClipboardContext::new().unwrap();
    ctx.host.inject_busy(9);
    ctx.set_contents("payload".to_string()).unwrap();
    assert_eq!(ctx.get_contents().unwrap(), "payload");
}
