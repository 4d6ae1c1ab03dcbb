use gitea_notifier::gitea::{ActionWorkflowRun, ActionWorkflowRunsResponse, Gitea, Repository, Timestamp};
use gitea_notifier::monitor::{change_notification, make_run_key, make_run_line, KnownRuns};
use gitea_notifier::text::{decimal, join_strings, trim_end_slashes};

fn repo(full_name: &str) -> Repository {
    Repository { full_name: full_name.to_string(), html_url: None, id: Some(1) }
}

fn run(run_number: i64, status: &str, conclusion: Option<&str>) -> ActionWorkflowRun {
    ActionWorkflowRun {
        completed_at: None,
        conclusion: conclusion.map(|c| c.to_string()),
        display_title: Some("build".to_string()),
        html_url: None,
        id: Some(run_number * 10),
        run_attempt: Some(1),
        run_number,
        started_at: Some(Timestamp { secs: 1_700_000_000, nanos: 5 }),
        status: status.to_string(),
    }
}

fn response(runs: Vec<ActionWorkflowRun>) -> ActionWorkflowRunsResponse {
    ActionWorkflowRunsResponse { total_count: Some(runs.len() as i64), workflow_runs: Some(runs) }
}

fn pairs(query: &[(String, String)]) -> Vec<(&str, &str)> {
    query.iter().map(|(k, v)| (k.as_str(), v.as_str())).collect()
}

#[test]
fn decimal_renders_like_to_string() {
    assert_eq!(decimal(0), "0");
    assert_eq!(decimal(7), "7");
    assert_eq!(decimal(42), "42");
    assert_eq!(decimal(-120), "-120");
    assert_eq!(decimal(i64::MAX), "9223372036854775807");
    assert_eq!(decimal(i64::MIN), "-9223372036854775808");
    for n in -1000i64..1000 {
        assert_eq!(decimal(n), n.to_string());
    }
}

#[test]
fn decimal_round_trips() {
    for n in [i64::MIN, -99, -1, 0, 1, 10, 99, 100, i64::MAX] {
        assert_eq!(decimal(n).parse::<i64>().unwrap(), n);
    }
}

#[test]
fn trim_removes_all_trailing_slashes() {
    assert_eq!(trim_end_slashes("http://host///"), "http://host");
    assert_eq!(trim_end_slashes("http://host"), "http://host");
    assert_eq!(trim_end_slashes("///"), "");
    assert_eq!(trim_end_slashes(""), "");
    assert_eq!(trim_end_slashes("a/b/"), "a/b");
    assert_eq!(trim_end_slashes(trim_end_slashes("x//")), trim_end_slashes("x//"));
}

#[test]
fn join_places_separator_between_parts() {
    let none: Vec<String> = Vec::new();
    assert_eq!(join_strings(&none, "\n\n"), "");
    assert_eq!(join_strings(&vec!["a".to_string()], "\n\n"), "a");
    assert_eq!(join_strings(&vec!["a".to_string(), "b".to_string(), "c".to_string()], ", "), "a, b, c");
}

#[test]
fn new_appends_api_path() {
    let g = Gitea::new("https://git.example.com".to_string(), "secret".to_string()).unwrap();
    assert_eq!(g.base_url, "https://git.example.com/api/v1");
    assert_eq!(g.token, "secret");
}

#[test]
fn new_ignores_trailing_slashes() {
    let a = Gitea::new("https://git.example.com".to_string(), "t".to_string()).unwrap();
    let b = Gitea::new("https://git.example.com/".to_string(), "t".to_string()).unwrap();
    let c = Gitea::new("https://git.example.com///".to_string(), "t".to_string()).unwrap();
    assert_eq!(a.base_url, b.base_url);
    assert_eq!(a.base_url, c.base_url);
}

#[test]
fn new_with_empty_url() {
    let g = Gitea::new(String::new(), String::new()).unwrap();
    assert_eq!(g.base_url, "/api/v1");
    assert_eq!(g.token, "");
}

#[test]
fn reset_replaces_url_and_token() {
    let mut g = Gitea::new(String::new(), String::new()).unwrap();
    g.reset("http://localhost:3000/".to_string(), "tok".to_string());
    assert_eq!(g.base_url, "http://localhost:3000/api/v1");
    assert_eq!(g.token, "tok");
    let fresh = Gitea::new("http://localhost:3000/".to_string(), "tok".to_string()).unwrap();
    assert_eq!(g.base_url, fresh.base_url);
}

#[test]
fn user_repos_request_with_limit() {
    let g = Gitea::new("https://gitea.io".to_string(), "tok".to_string()).unwrap();
    let r = g.user_current_list_repos_request(None, Some(100));
    assert_eq!(r.url, "https://gitea.io/api/v1/user/repos");
    assert_eq!(r.bearer_token, "tok");
    assert_eq!(pairs(&r.query), vec![("limit", "100")]);
}

#[test]
fn user_repos_request_paging() {
    let g = Gitea::new("https://gitea.io".to_string(), "tok".to_string()).unwrap();
    let r = g.user_current_list_repos_request(Some(2), Some(-5));
    assert_eq!(pairs(&r.query), vec![("page", "2"), ("limit", "-5")]);
    let r = g.user_current_list_repos_request(None, None);
    assert!(r.query.is_empty());
    let r = g.user_current_list_repos_request(Some(i32::MIN), None);
    assert_eq!(pairs(&r.query), vec![("page", "-2147483648")]);
}

#[test]
fn workflow_runs_request_for_repository() {
    let g = Gitea::new("https://gitea.io/".to_string(), "tok".to_string()).unwrap();
    let r = g.get_workflow_runs_request(&repo("owner/project"), Some(1), Some(1));
    assert_eq!(r.url, "https://gitea.io/api/v1/repos/owner/project/actions/runs");
    assert_eq!(r.bearer_token, "tok");
    assert_eq!(pairs(&r.query), vec![("page", "1"), ("limit", "1")]);
}

#[test]
fn run_key_and_line() {
    let name = "owner/project".to_string();
    let done = run(7, "completed", Some("success"));
    let key = make_run_key(&name, &done);
    assert_eq!(key, "owner/project#70");
    assert_eq!(make_run_line(&key, &done), "owner/project#70:\ncompleted - success");
    let busy = run(-3, "running", None);
    let key = make_run_key(&name, &busy);
    assert_eq!(key, "owner/project#-30");
    assert_eq!(make_run_line(&key, &busy), "owner/project#-30:\nrunning - running");
}

#[test]
fn known_runs_insert_returns_previous() {
    let mut k = KnownRuns::new();
    assert_eq!(k.insert("a#1".to_string(), "queued".to_string()), None);
    assert_eq!(k.insert("b#1".to_string(), "running".to_string()), None);
    assert_eq!(k.insert("a#1".to_string(), "running".to_string()), Some("queued".to_string()));
    assert_eq!(k.insert("a#1".to_string(), "done".to_string()), Some("running".to_string()));
    assert_eq!(k.insert("b#1".to_string(), "done".to_string()), Some("running".to_string()));
}

#[test]
fn record_run_reports_new_and_changed_runs() {
    let mut k = KnownRuns::new();
    let name = "o/r".to_string();
    assert_eq!(k.record_run(&name, &run(1, "running", None)), Some("o/r#10:\nrunning - running".to_string()));
    assert_eq!(k.record_run(&name, &run(1, "running", None)), None);
    assert_eq!(
        k.record_run(&name, &run(1, "completed", Some("failure"))),
        Some("o/r#10:\ncompleted - failure".to_string())
    );
    // only the status decides: a new conclusion with the same status is not reported
    assert_eq!(k.record_run(&name, &run(1, "completed", Some("success"))), None);
}

#[test]
fn record_runs_collects_lines_in_order() {
    let mut k = KnownRuns::new();
    let mut lines = vec!["earlier".to_string()];
    let r = repo("o/r");
    k.record_runs(&r, &response(vec![run(1, "success", Some("success")), run(2, "running", None)]), &mut lines);
    assert_eq!(
        lines,
        vec![
            "earlier".to_string(),
            "o/r#10:\nsuccess - success".to_string(),
            "o/r#20:\nrunning - running".to_string(),
        ]
    );
}

#[test]
fn record_runs_without_list() {
    let mut k = KnownRuns::new();
    let mut lines = Vec::new();
    let empty = ActionWorkflowRunsResponse { total_count: None, workflow_runs: None };
    k.record_runs(&repo("o/r"), &empty, &mut lines);
    assert!(lines.is_empty());
    k.record_runs(&repo("o/r"), &response(Vec::new()), &mut lines);
    assert!(lines.is_empty());
}

#[test]
fn repoll_of_unchanged_runs_is_silent() {
    let mut k = KnownRuns::new();
    let r = repo("o/r");
    let resp = response(vec![run(1, "success", Some("success")), run(2, "failure", Some("failure"))]);
    let mut lines = Vec::new();
    k.record_runs(&r, &resp, &mut lines);
    assert_eq!(lines.len(), 2);
    let mut again = Vec::new();
    k.record_runs(&r, &resp, &mut again);
    assert!(again.is_empty());
}

#[test]
fn other_repository_untouched() {
    let mut k = KnownRuns::new();
    let mut lines = Vec::new();
    k.record_runs(&repo("a/x"), &response(vec![run(1, "running", None)]), &mut lines);
    k.record_runs(&repo("b/y"), &response(vec![run(1, "completed", None)]), &mut lines);
    assert_eq!(lines.len(), 2);
    // the run of a/x is still known as running
    assert_eq!(k.insert("a/x#10".to_string(), "running".to_string()), Some("running".to_string()));
}

#[test]
fn same_status_in_one_response_reported_once() {
    let mut k = KnownRuns::new();
    let mut lines = Vec::new();
    k.record_runs(&repo("o/r"), &response(vec![run(4, "running", None), run(4, "running", None)]), &mut lines);
    assert_eq!(lines, vec!["o/r#40:\nrunning - running".to_string()]);
}

#[test]
fn notification_only_when_lines() {
    assert!(change_notification(&Vec::new()).is_none());
    let n = change_notification(&vec!["first".to_string(), "second".to_string()]).unwrap();
    assert_eq!(n.title, "工作流运行状态变更");
    assert_eq!(n.body, "first\n\nsecond");
    let one = change_notification(&vec!["only".to_string()]).unwrap();
    assert_eq!(one.body, "only");
}

#[test]
fn run_key_uses_run_id() {
    let name = "o/r".to_string();
    let mut r = run(7, "success", Some("success"));
    r.id = Some(5);
    assert_eq!(make_run_key(&name, &r), "o/r#5");
    r.id = None;
    assert_eq!(make_run_key(&name, &r), "o/r#");
    let mut k = KnownRuns::new();
    assert_eq!(k.record_run(&name, &r), Some("o/r#:\nsuccess - success".to_string()));
}

#[test]
fn runs_with_same_number_but_different_ids_are_distinct() {
    let mut k = KnownRuns::new();
    let mut lines = Vec::new();
    let mut first = run(1, "running", None);
    first.id = Some(100);
    let mut second = run(1, "running", None);
    second.id = Some(101);
    k.record_runs(&repo("o/r"), &response(vec![first, second]), &mut lines);
    assert_eq!(lines, vec!["o/r#100:\nrunning - running".to_string(), "o/r#101:\nrunning - running".to_string()]);
}

#[test]
fn with_client_keeps_configuration() {
    let g = Gitea::with_client("http://h//".to_string(), "t".to_string(), reqwest::Client::new());
    assert_eq!(g.base_url, "http://h/api/v1");
    assert_eq!(g.token, "t");
}

#[test]
fn repoll_of_several_repositories_is_silent() {
    let mut k = KnownRuns::new();
    let polled = vec![
        (repo("a/x"), response(vec![run(1, "success", Some("success"))])),
        (repo("b/y"), response(vec![run(2, "running", None)])),
        (repo("c/z"), ActionWorkflowRunsResponse { total_count: None, workflow_runs: None }),
    ];
    let mut lines = Vec::new();
    for (r, resp) in &polled {
        k.record_runs(r, resp, &mut lines);
    }
    assert_eq!(lines.len(), 2);
    assert!(change_notification(&lines).is_some());
    let mut again = Vec::new();
    for (r, resp) in &polled {
        k.record_runs(r, resp, &mut again);
    }
    assert!(again.is_empty());
    assert!(change_notification(&again).is_none());
}
