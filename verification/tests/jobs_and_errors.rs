use fisher::errors::{ErrorKind, FisherError};
use fisher::hooks::{Hook, State};
use fisher::jobs::{body_file_path, process_outcome, Job};
use fisher::providers::{
    event_kind_from_name, kind_name, EventKind, Provider, ProviderDecl, Request, StatusEvent,
    WebRequest, JobOutput,
};
use fisher::text::{i32_to_string, relative_name, str_eq, u32_to_string};

fn testing_hook(name: &str, state: &mut State) -> std::sync::Arc<Hook> {
    Hook::load(
        name.to_string(),
        format!("/abs/{}", name),
        &vec![ProviderDecl { name: "Testing".to_string(), events: vec![] }],
        state,
    )
    .unwrap()
}

fn web_request(body: &str, params: Vec<(&str, &str)>) -> Request {
    Request::Web(WebRequest {
        body: body.to_string(),
        params: params
            .into_iter()
            .map(|(k, v)| (k.to_string(), v.to_string()))
            .collect(),
    })
}

#[test]
fn test_job_creation() {
    let mut state = State::new();
    let hook = testing_hook("example", &mut state);
    let _ = Job::new(hook, None, web_request("", vec![]));
}

#[test]
fn test_job_hook_name() {
    let mut state = State::new();
    let hook = testing_hook("example", &mut state);
    let job = Job::new(hook, None, web_request("", vec![]));
    assert_eq!(job.hook_name(), "example".to_string());
    assert_eq!(job.executable(), "/abs/example");
}

#[test]
fn test_job_environment() {
    let mut state = State::new();
    let hook = testing_hook("jobs-details", &mut state);
    let job = Job::new(
        hook,
        Some(std::sync::Arc::new(Provider::Testing)),
        web_request("a body!", vec![("env", "/out")]),
    );

    let parent = vec![
        ("PATH".to_string(), "/usr/bin".to_string()),
        ("SECRET_TOKEN".to_string(), "hunter2".to_string()),
        ("LANG".to_string(), "C.UTF-8".to_string()),
    ];
    let body_path = body_file_path("/work");
    assert_eq!(body_path, "/work/request_body");

    let env = job.environment(&parent, "/work", &body_path);
    assert_eq!(
        env,
        vec![
            ("PATH".to_string(), "/usr/bin".to_string()),
            ("LANG".to_string(), "C.UTF-8".to_string()),
            ("FISHER_TESTING_ENV".to_string(), "/out".to_string()),
            ("HOME".to_string(), "/work".to_string()),
            ("FISHER_REQUEST_BODY".to_string(), "/work/request_body".to_string()),
        ]
    );

    // The request body is persisted followed by a newline.
    assert_eq!(job.body_file_content(), "a body!\n");
}

#[test]
fn test_status_job_environment() {
    let mut state = State::new();
    let hook = Hook::load(
        "status1.sh".to_string(),
        "/abs/status1.sh".to_string(),
        &vec![ProviderDecl {
            name: "Status".to_string(),
            events: vec![EventKind::JobFailed],
        }],
        &mut state,
    )
    .unwrap();
    let output = JobOutput { success: false, trigger_status_hooks: true };
    let provider = Provider::Status(vec![EventKind::JobFailed]);
    let job = Job::new(
        hook,
        Some(std::sync::Arc::new(provider)),
        Request::Status(StatusEvent::JobFailed(output)),
    );
    let env = job.environment(&vec![], "/w", "/w/request_body");
    assert_eq!(
        env,
        vec![
            ("FISHER_STATUS_EVENT".to_string(), "job_failed".to_string()),
            ("HOME".to_string(), "/w".to_string()),
            ("FISHER_REQUEST_BODY".to_string(), "/w/request_body".to_string()),
        ]
    );
    assert_eq!(job.body_file_content(), "\n");
}

#[test]
fn test_process_outcome() {
    assert!(process_outcome(true, None, None).is_ok());

    let err = process_outcome(false, Some(3), None).unwrap_err();
    assert!(matches!(
        *err.kind(),
        ErrorKind::HookExecutionFailed(Some(3), None)
    ));
    assert_eq!(err.message(), "hook returned non-zero exit code: 3");

    let err = process_outcome(false, None, Some(9)).unwrap_err();
    assert!(matches!(
        *err.kind(),
        ErrorKind::HookExecutionFailed(None, Some(9))
    ));
    assert_eq!(err.message(), "hook stopped with signal 9");
}

#[test]
fn test_error_annotations() {
    let mut err = FisherError::new(ErrorKind::ProviderNotFound("Foo".to_string()));
    assert!(err.location().is_none());
    assert!(err.processing().is_none());
    assert_eq!(err.message(), "Provider Foo not found");
    assert_eq!(err.description(), "provider not found");

    err.set_file("hooks/x.sh".to_string());
    assert_eq!(err.location().unwrap(), "file hooks/x.sh");
    err.set_line(3);
    assert_eq!(err.location().unwrap(), "file hooks/x.sh, line 3");

    err.set_hook_name("x.sh".to_string());
    assert_eq!(err.processing().unwrap(), "x.sh");

    let err = FisherError::new(ErrorKind::InvalidInput("bad config".to_string()));
    assert_eq!(err.message(), "invalid input: bad config");
    let err = FisherError::new(ErrorKind::IoError("no such directory".to_string()));
    assert_eq!(err.message(), "no such directory");
}

#[test]
fn test_text_helpers() {
    assert_eq!(u32_to_string(0), "0");
    assert_eq!(u32_to_string(10), "10");
    assert_eq!(u32_to_string(4294967295), "4294967295");
    assert_eq!(i32_to_string(-123), "-123");
    assert_eq!(i32_to_string(i32::MIN), "-2147483648");
    assert_eq!(i32_to_string(7), "7");

    assert_eq!(relative_name("dir/a.sh", "dir"), "a.sh");
    assert_eq!(relative_name("dir/sub/a.sh", "dir"), "sub/a.sh");
    assert_eq!(relative_name("other/a.sh", "dir"), "other/a.sh");
    assert_eq!(relative_name("dir", "dir"), "dir");

    assert!(str_eq("abc", "abc"));
    assert!(!str_eq("abc", "abd"));
    assert!(!str_eq("abc", "ab"));
}

#[test]
fn test_event_kind_names() {
    assert_eq!(kind_name(EventKind::JobCompleted), "job_completed");
    assert_eq!(kind_name(EventKind::JobFailed), "job_failed");
    assert_eq!(
        event_kind_from_name("job_completed"),
        Some(EventKind::JobCompleted)
    );
    assert_eq!(event_kind_from_name("job_failed"), Some(EventKind::JobFailed));
    assert_eq!(event_kind_from_name("something_else"), None);
}
