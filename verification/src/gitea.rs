//! The Gitea API client: the data it exchanges with the server and the
//! description of each request it sends.

use vstd::prelude::*;
use reqwest::Client;
use crate::text::{decimal, int_decimal, lemma_trim_appended_slash, lemma_trim_removes_only_slashes, trim_end_slashes, trim_trailing_slashes};

verus! {

#[verifier::external_type_specification]
#[verifier::external_body]
pub struct ExClient(Client);

#[verifier::external_type_specification]
#[verifier::external_body]
pub struct ExReqwestError(reqwest::Error);

/// A repository, as the Gitea API describes it.
#[derive(Clone, Default, Debug, PartialEq)]
pub struct Repository {
    pub full_name: String,
    pub html_url: Option<String>,
    pub id: Option<i64>,
}

/// An instant, as seconds and nanoseconds since the Unix epoch.
#[derive(Clone, Copy, Default, Debug, PartialEq, Eq)]
pub struct Timestamp {
    pub secs: i64,
    pub nanos: u32,
}

/// A run of an Actions workflow.
#[derive(Clone, Default, Debug, PartialEq)]
pub struct ActionWorkflowRun {
    pub completed_at: Option<Timestamp>,
    pub conclusion: Option<String>,
    pub display_title: Option<String>,
    pub html_url: Option<String>,
    pub id: Option<i64>,
    pub run_attempt: Option<i64>,
    pub run_number: i64,
    pub started_at: Option<Timestamp>,
    pub status: String,
}

/// A page of workflow runs.
#[derive(Clone, Default, Debug, PartialEq)]
pub struct ActionWorkflowRunsResponse {
    pub total_count: Option<i64>,
    pub workflow_runs: Option<Vec<ActionWorkflowRun>>,
}

/// An HTTP `GET` request to the Gitea API: the URL, the token sent as a bearer
/// credential, and the query parameters in the order they are appended.
#[derive(Clone, Debug)]
pub struct ApiRequest {
    pub url: String,
    pub bearer_token: String,
    pub query: Vec<(String, String)>,
}

/// The API root for a server URL: the URL without trailing slashes, then `/api/v1`.
pub open spec fn api_root(server_url: Seq<char>) -> Seq<char> {
    trim_trailing_slashes(server_url) + "/api/v1"@
}

/// The API root is the server URL with its trailing slashes cut off, then
/// `/api/v1`: the URL's path is kept, only slashes are dropped from its end.
pub proof fn lemma_api_root_shape(server_url: Seq<char>)
    ensures
        ({
            let kept = api_root(server_url).len() - "/api/v1"@.len();
            &&& 0 <= kept <= server_url.len()
            &&& api_root(server_url) == server_url.take(kept) + "/api/v1"@
            &&& forall|i: int| kept <= i < server_url.len() ==> #[trigger] server_url[i] == '/'
            &&& kept == 0 || server_url[kept - 1] != '/'
        }),
{
    lemma_trim_removes_only_slashes(server_url);
}

/// The query holds a `page` parameter exactly when a page is given and a `limit`
/// parameter exactly when a limit is given, `page` first, each with the decimal
/// rendering of its number.
pub proof fn lemma_paging_query_shape(page: Option<i32>, limit: Option<i32>)
    ensures
        paging_query(page, limit).len() == (if page is Some { 1int } else { 0 }) + (if limit is Some { 1int } else { 0 }),
        page matches Some(p) ==> paging_query(page, limit)[0] == ("page"@, int_decimal(p as int)),
        limit matches Some(l) ==> paging_query(page, limit).last() == ("limit"@, int_decimal(l as int)),
{
}

/// The request URLs extend the API root: `/user/repos` for the repositories, and
/// `/repos/{owner/repo}/actions/runs` for the runs of a repository.
pub proof fn lemma_request_urls(root: Seq<char>, full_name: Seq<char>)
    ensures
        user_repos_url(root) == root + "/user/repos"@,
        workflow_runs_url(root, full_name) == root + "/repos/"@ + full_name + "/actions/runs"@,
{
}

/// A trailing slash on the server URL makes no difference to the API root.
pub proof fn lemma_api_root_ignores_trailing_slash(server_url: Seq<char>)
    ensures
        api_root(server_url.push('/')) == api_root(server_url),
{
    lemma_trim_appended_slash(server_url);
}

/// The query parameters for an optional page number and page size.
pub open spec fn paging_query(page: Option<i32>, limit: Option<i32>) -> Seq<(Seq<char>, Seq<char>)> {
    (match page {
        Some(p) => seq![("page"@, int_decimal(p as int))],
        None => Seq::empty(),
    }) + (match limit {
        Some(l) => seq![("limit"@, int_decimal(l as int))],
        None => Seq::empty(),
    })
}

/// The URL that lists the repositories of the authenticated user.
pub open spec fn user_repos_url(root: Seq<char>) -> Seq<char> {
    root + "/user/repos"@
}

/// The URL that lists the workflow runs of a repository.
pub open spec fn workflow_runs_url(root: Seq<char>, full_name: Seq<char>) -> Seq<char> {
    root + "/repos/"@ + full_name + "/actions/runs"@
}

/// A new HTTP client with the default configuration: a call of
/// `reqwest::Client::builder().build()`. It fails when the TLS backend cannot be
/// initialised or the resolver cannot load the system configuration, which
/// depends on the machine; nothing is stated of the client or of the error.
#[verifier::external_body]
fn build_client() -> Result<Client, reqwest::Error> {
    Client::builder().build()
}

/// Why a [`Gitea`] client could not be made.
#[derive(Debug)]
pub enum GiteaError {
    /// The HTTP client could not be built (no TLS backend, or no resolver configuration).
    ClientBuild(reqwest::Error),
}

/// The API root for `server_url`.
fn make_api_root(server_url: &str) -> (r: String)
    ensures
        r@ == api_root(server_url@),
{
    let mut r = String::from_str(trim_end_slashes(server_url));
    r.append("/api/v1");
    r
}

/// The query parameters for an optional page number and page size.
fn make_paging_query(page: Option<i32>, limit: Option<i32>) -> (q: Vec<(String, String)>)
    ensures
        q.deep_view() == paging_query(page, limit),
{
    let mut q: Vec<(String, String)> = Vec::new();
    if let Some(p) = page {
        q.push((String::from_str("page"), decimal(p as i64)));
    }
    if let Some(l) = limit {
        q.push((String::from_str("limit"), decimal(l as i64)));
    }
    assert(q.deep_view() =~= paging_query(page, limit));
    q
}

/// The Gitea API client.
pub struct Gitea {
    pub base_url: String,
    pub token: String,
    client: Client,
}

/// What a [`Gitea`] client is configured with: the API root and the token.
pub struct GiteaView {
    pub base_url: Seq<char>,
    pub token: Seq<char>,
}

impl View for Gitea {
    type V = GiteaView;

    closed spec fn view(&self) -> GiteaView {
        GiteaView { base_url: self.base_url@, token: self.token@ }
    }
}

impl Gitea {
    /// The HTTP client that the requests are sent with.
    pub closed spec fn http_client(&self) -> Client {
        self.client
    }

    /// A client for the server at `base_url`, authenticated with `token`, with a
    /// new HTTP client; it fails when that HTTP client cannot be built.
    pub fn new(base_url: String, token: String) -> (r: Result<Self, GiteaError>)
        ensures
            r matches Ok(g) ==> g@.base_url == api_root(base_url@) && g@.token == token@,
            r matches Err(e) ==> e is ClientBuild,
    {
        match build_client() {
            Ok(client) => Ok(Self::with_client(base_url, token, client)),
            Err(e) => Err(GiteaError::ClientBuild(e)),
        }
    }

    /// A client for the server at `base_url`, authenticated with `token`, that
    /// sends its requests with `client`.
    pub fn with_client(base_url: String, token: String, client: Client) -> (g: Self)
        ensures
            g@.base_url == api_root(base_url@),
            g@.token == token@,
            g.http_client() == client,
    {
        Gitea { base_url: make_api_root(base_url.as_str()), token, client }
    }

    /// Points the client at the server at `base_url`, authenticated with `token`;
    /// the HTTP client itself is kept.
    pub fn reset(&mut self, base_url: String, token: String)
        ensures
            final(self)@.base_url == api_root(base_url@),
            final(self)@.token == token@,
            final(self).http_client() == old(self).http_client(),
    {
        self.base_url = make_api_root(base_url.as_str());
        self.token = token;
    }

    /// The HTTP client that sends the requests.
    pub fn client(&self) -> (c: &Client)
        ensures
            *c == self.http_client(),
    {
        &self.client
    }

    /// The request that lists the repositories of the authenticated user.
    pub fn user_current_list_repos_request(&self, page: Option<i32>, limit: Option<i32>) -> (r: ApiRequest)
        ensures
            r.url@ == user_repos_url(self@.base_url),
            r.bearer_token@ == self@.token,
            r.query.deep_view() == paging_query(page, limit),
    {
        let mut url = self.base_url.clone();
        url.append("/user/repos");
        ApiRequest { url, bearer_token: self.token.clone(), query: make_paging_query(page, limit) }
    }

    /// The request that lists the workflow runs of `repo`.
    pub fn get_workflow_runs_request(&self, repo: &Repository, page: Option<i32>, limit: Option<i32>) -> (r: ApiRequest)
        ensures
            r.url@ == workflow_runs_url(self@.base_url, repo.full_name@),
            r.bearer_token@ == self@.token,
            r.query.deep_view() == paging_query(page, limit),
    {
        let mut url = self.base_url.clone();
        url.append("/repos/");
        url.append(repo.full_name.as_str());
        url.append("/actions/runs");
        ApiRequest { url, bearer_token: self.token.clone(), query: make_paging_query(page, limit) }
    }
}

} // verus!
