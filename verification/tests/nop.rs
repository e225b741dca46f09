//! The no-op provider never fails: every operation succeeds with an empty
//! result and leaves a notice on the diagnostic channel.

use clipcore::NopClipboardContext;

#[test]
fn every_operation_succeeds_empty() {
    let mut ctx = NopClipboardContext::new().unwrap();
    assert_eq!(ctx.get_contents().unwrap(), "");
    assert_eq!(ctx.set_contents("ignored".to_string()), Ok(()));
    assert_eq!(ctx.get_mime_types().unwrap(), Vec::<String>::new());
    assert_eq!(ctx.get_mime_contents("text/html").unwrap(), "");
    assert_eq!(ctx.set_mime_contents("ignored".to_string(), "text/html"), Ok(()));
}

#[test]
fn each_operation_leaves_a_notice() {
    let mut ctx = NopClipboardContext::new().unwrap();
    assert_eq!(ctx.notice_count(), 0);
    ctx.get_contents().unwrap();
    assert_eq!(ctx.notice_count(), 1);
    ctx.set_contents("ignored".to_string()).unwrap();
    assert_eq!(ctx.notice_count(), 2);
    ctx.get_mime_types().unwrap();
    ctx.get_mime_contents("text/plain").unwrap();
    ctx.set_mime_contents("ignored".to_string(), "text/plain").unwrap();
    assert_eq!(ctx.notice_count(), 5);
    assert!(ctx.notices[0].contains("not supported"));
}
