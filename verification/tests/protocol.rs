//! The protocol layers exercised directly: the session guard's bounded
//! retry, the registry's idempotent resolution, and the codec's trimming.

use clipcore::codec::{decode_wide_units, encode_wide, trim_terminator};
use clipcore::host::HostClipboard;
use clipcore::registry::resolve_format;
use clipcore::session::{acquire, release};
use clipcore::ClipboardError;

#[test]
fn acquisition_fails_after_exactly_max_attempts() {
    let mut host = HostClipboard::new();
    host.inject_busy(25);
    assert_eq!(
        acquire(&mut host, 10),
        Err(ClipboardError::ClipboardUnavailable)
    );
    // exactly ten attempts were made: ten busy responses consumed
    assert_eq!(host.busy_left(), 15);
}

#[test]
fn acquisition_succeeds_within_the_ceiling() {
    let mut host = HostClipboard::new();
    host.inject_busy(9);
    assert_eq!(acquire(&mut host, 10), Ok(()));
    assert_eq!(host.busy_left(), 0);
    release(&mut host);
}

#[test]
fn resolution_is_idempotent() {
    let mut host = HostClipboard::new();
    let first = resolve_format(&mut host, "text/plain").unwrap();
    let second = resolve_format(&mut host, "text/plain").unwrap();
    assert_eq!(first, second);
    // a different name resolves to a different identifier
    let other = resolve_format(&mut host, "text/html").unwrap();
    assert_ne!(other, first);
    // and stays stable too
    assert_eq!(resolve_format(&mut host, "text/html").unwrap(), other);
}

#[test]
fn empty_name_is_refused_by_the_registry() {
    let mut host = HostClipboard::new();
    assert_eq!(
        resolve_format(&mut host, ""),
        Err(ClipboardError::FormatRegistration)
    );
}

#[test]
fn trim_cuts_at_the_first_terminator() {
    let mut text = vec!['a', 'b', '\u{0}', 'c', '\u{0}', 'd'];
    trim_terminator(&mut text);
    assert_eq!(text, vec!['a', 'b']);
}

#[test]
fn trim_leaves_clean_text_unmodified() {
    let mut text = vec!['a', 'b', 'c'];
    trim_terminator(&mut text);
    assert_eq!(text, vec!['a', 'b', 'c']);
}

#[test]
fn encode_decode_round_trip_with_surrogates() {
    let text: Vec<char> = vec!['a', '\u{1F30D}', 'z'];
    let units = encode_wide(&text);
    // the supplementary character takes a surrogate pair
    assert_eq!(units.len(), 4);
    assert_eq!(units[1], 0xD83C);
    assert_eq!(units[2], 0xDF0D);
    let decoded = decode_wide_units(&units).unwrap();
    assert_eq!(decoded, text);
}

#[test]
fn lone_surrogate_is_rejected_by_the_decoder() {
    assert!(decode_wide_units(&vec![0x0041u16, 0xD800u16]).is_none());
    assert!(decode_wide_units(&vec![0xDC00u16, 0x0041u16]).is_none());
}
