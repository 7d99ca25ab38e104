use botbridge::protocol::result::{ClientError, ClientErrorKind, ClientResult};

fn err(kind: ClientErrorKind, message: &str) -> ClientError {
    ClientError::new(kind, message.to_string())
}

#[test]
fn pure_success_shape() {
    let r: ClientResult<Vec<u32>> = ClientResult::new_ok(vec![1, 2]);
    assert!(!r.has_errors());
    assert_eq!(r.value(), Some(&vec![1, 2]));
    assert_eq!(r.errors().len(), 0);
}

#[test]
fn pure_failure_shape() {
    let r: ClientResult<Vec<u32>> = ClientResult::new_err(err(ClientErrorKind::Network, "down"));
    assert!(r.has_errors());
    assert!(r.value().is_none());
    assert_eq!(r.errors().len(), 1);
    assert_eq!(r.errors()[0].kind, ClientErrorKind::Network);
    assert_eq!(r.errors()[0].message_text(), "down");
}

#[test]
fn from_parts_fails_only_when_both_absent() {
    let empty: Result<ClientResult<u32>, _> = ClientResult::from_parts(None, Vec::new());
    assert!(empty.is_err());

    let with_value = ClientResult::from_parts(Some(5u32), Vec::new());
    assert!(with_value.is_ok());

    let with_error: Result<ClientResult<u32>, _> =
        ClientResult::from_parts(None, vec![err(ClientErrorKind::Format, "bad")]);
    assert!(with_error.is_ok());

    let partial = ClientResult::from_parts(Some(5u32), vec![err(ClientErrorKind::Unknown, "u")]);
    let partial = partial.ok().unwrap();
    assert!(partial.has_errors());
    assert_eq!(partial.value(), Some(&5));
}

#[test]
fn merge_concatenates_values_and_errors() {
    let a: ClientResult<Vec<u32>> = ClientResult::from_parts(
        Some(vec![1, 2]),
        vec![err(ClientErrorKind::Network, "x")],
    )
    .ok()
    .unwrap();
    let b: ClientResult<Vec<u32>> = ClientResult::from_parts(
        Some(vec![3]),
        vec![err(ClientErrorKind::Response, "y")],
    )
    .ok()
    .unwrap();
    let m = a.merge(b);
    assert_eq!(m.value(), Some(&vec![1, 2, 3]));
    let messages: Vec<&str> = m.errors().iter().map(|e| e.message_text()).collect();
    assert_eq!(messages, vec!["x", "y"]);
}

#[test]
fn merge_keeps_value_when_one_side_lacks_it() {
    let a: ClientResult<Vec<u32>> = ClientResult::new_err(err(ClientErrorKind::Network, "x"));
    let b: ClientResult<Vec<u32>> = ClientResult::new_ok(vec![7]);
    let m = a.merge(b);
    assert_eq!(m.value(), Some(&vec![7]));
    assert_eq!(m.errors().len(), 1);
}

#[test]
fn merge_of_two_failures_has_no_value() {
    let a: ClientResult<Vec<u32>> = ClientResult::new_err(err(ClientErrorKind::Network, "x"));
    let b: ClientResult<Vec<u32>> = ClientResult::new_err(err(ClientErrorKind::Format, "y"));
    let m = a.merge(b);
    assert!(m.value().is_none());
    let messages: Vec<&str> = m.errors().iter().map(|e| e.message_text()).collect();
    assert_eq!(messages, vec!["x", "y"]);
}

#[test]
fn into_parts_round_trip() {
    let r = ClientResult::from_parts(Some(vec![9u32]), vec![err(ClientErrorKind::Unknown, "z")])
        .ok()
        .unwrap();
    let (value, errors) = r.into_parts();
    assert_eq!(value, Some(vec![9]));
    assert_eq!(errors.len(), 1);
}
