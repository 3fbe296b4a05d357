//! Tests for the error type: every kind round-trips through construction.

use xact::{ErrorKind, XactError};

#[test]
fn error_kinds_are_preserved() {
    for kind in [
        ErrorKind::Transport,
        ErrorKind::Timeout,
        ErrorKind::InvalidResponse,
        ErrorKind::Nogo,
    ] {
        let e = XactError::new(kind, "context");
        assert_eq!(e.kind(), kind);
        assert_eq!(e.message(), "context");
    }
}

#[test]
fn error_kinds_are_distinct() {
    assert_ne!(ErrorKind::Timeout, ErrorKind::Nogo);
    assert_ne!(ErrorKind::Transport, ErrorKind::InvalidResponse);
}
