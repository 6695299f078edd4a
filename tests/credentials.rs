use odb_index::credentials::{Action, Kind, NextAction};

#[test]
fn helper_arguments() {
    let get = Action::get_for_url(b"https://example.com/repo".to_vec());
    let store = Action::Store(b"out".to_vec());
    let erase = Action::Erase(b"out".to_vec());
    assert_eq!(get.as_helper_arg(true), "get");
    assert_eq!(get.as_helper_arg(false), "fill");
    assert_eq!(store.as_helper_arg(true), "store");
    assert_eq!(store.as_helper_arg(false), "approve");
    assert_eq!(erase.as_helper_arg(true), "erase");
    assert_eq!(erase.as_helper_arg(false), "reject");
}

#[test]
fn payloads_and_output() {
    let get = Action::get_for_url(b"https://example.com".to_vec());
    match &get {
        Action::Get(ctx) => {
            assert_eq!(ctx.url, Some(b"https://example.com".to_vec()));
            assert!(ctx.host.is_none() && ctx.protocol.is_none() && ctx.username.is_none());
        }
        _ => panic!("expected a get action"),
    }
    assert!(get.expects_output());
    assert!(get.payload().is_none());
    let next = NextAction { previous_output: b"username=a".to_vec() };
    let store = next.clone().store();
    assert_eq!(store.payload(), Some(&b"username=a"[..]));
    assert!(!store.expects_output());
    let erase = next.erase();
    assert_eq!(erase.payload(), Some(&b"username=a"[..]));
    assert!(matches!(Kind::GitCredential, Kind::GitCredential));
}
