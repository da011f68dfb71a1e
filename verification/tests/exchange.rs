use bulk_delete::exchange::{
    bearer_header, classify, status_is_success, Cause, Method, Reply, Request, Verdict,
};

#[test]
fn bearer_header_prefixes_the_token() {
    assert_eq!(bearer_header("blah"), "Bearer blah");
    assert_eq!(bearer_header(""), "Bearer ");
}

#[test]
fn success_is_a_status_from_200_to_299() {
    assert!(status_is_success(200));
    assert!(status_is_success(204));
    assert!(status_is_success(299));
    assert!(!status_is_success(199));
    assert!(!status_is_success(300));
    assert!(!status_is_success(404));
    assert!(!status_is_success(0));
    assert!(!status_is_success(u16::MAX));
}

#[test]
fn classify_a_success() {
    assert_eq!(classify(Reply::Status(204)), Verdict::Succeeded);
    assert_eq!(classify(Reply::Status(200)), Verdict::Succeeded);
}

#[test]
fn classify_a_missing_resource_as_a_failure() {
    assert_eq!(classify(Reply::Status(404)), Verdict::Failed(Cause::Status(404)));
    assert_eq!(classify(Reply::Status(500)), Verdict::Failed(Cause::Status(500)));
    assert_eq!(classify(Reply::Status(301)), Verdict::Failed(Cause::Status(301)));
}

#[test]
fn classify_a_transport_failure() {
    assert_eq!(
        classify(Reply::Failed(String::from("connection refused"))),
        Verdict::Failed(Cause::Transport(String::from("connection refused")))
    );
}

#[test]
fn verdict_knows_whether_it_is_a_failure() {
    assert!(!Verdict::Succeeded.is_failure());
    assert!(Verdict::Failed(Cause::Status(404)).is_failure());
    assert!(Verdict::Failed(Cause::Transport(String::new())).is_failure());
}

#[test]
fn duplicates_are_equal() {
    let v = Verdict::Failed(Cause::Transport(String::from("reset")));
    assert_eq!(v.duplicate(), v);
    assert_eq!(Verdict::Succeeded.duplicate(), Verdict::Succeeded);
    assert_eq!(Verdict::Failed(Cause::Status(410)).duplicate(), Verdict::Failed(Cause::Status(410)));
    let r = Request {
        method: Method::Delete,
        url: String::from("https://x/r/a"),
        authorization: String::from("Bearer t"),
    };
    assert_eq!(r.duplicate(), r);
}
