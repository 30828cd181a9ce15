use wsserver::handshake::handshake as accept_token;

#[test]
fn handshake() {
    assert_eq!(
        accept_token("dGhlIHNhbXBsZSBub25jZQ==".to_owned()),
        "s3pPLMBiTxaQ9kYGzzhZRbK+xOo=",
    );
}

#[test]
fn handshake_depends_on_key() {
    assert_ne!(accept_token("a2V5".to_owned()), accept_token("b2V5".to_owned()));
    assert_eq!(accept_token(String::new()).len(), 28);
}
