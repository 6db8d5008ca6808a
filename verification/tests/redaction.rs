use jevx::redaction::{redact, redact_path};

#[test]
fn redacted_path_preserves_parent_components() {
    assert!(redact_path("private/../secret").contains(".."));
}

#[test]
fn redaction_hides_keys_and_assignments() {
    assert_eq!(redact("use sk-abcdef now"), "use <redacted> now");
    assert_eq!(redact("秘密 secret=fixture-only"), "秘密 <redacted>");
    assert_eq!(redact("plain words"), "plain words");
}
