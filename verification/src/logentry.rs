//! Request log entries and the texts recorded on them.
//!
//! One entry exists per request, created at admission and updated as the
//! attempt engine progresses; non-terminal attempts get derived sub-entries
//! whose id appends the upstream index and attempt number.

use vstd::prelude::*;

use crate::engine::AttemptDecision;
use crate::route::{ResolvedUpstream, RouteInfo};
use crate::text::{dec_spec, u64_to_string};

verus! {

/// One request's log row.
#[derive(Debug, Clone)]
pub struct ProxyLogEntry {
    pub id: String,
    pub timestamp: String,
    pub method: String,
    pub path: String,
    pub upstream_url: String,
    pub listen_port: u16,
    pub route_key: Option<String>,
    pub upstream_label: Option<String>,
    pub service_name: Option<String>,
    pub base_path: Option<String>,
    pub status: Option<u16>,
    pub duration_ms: u128,
    pub error: Option<String>,
    pub retry_action: Option<String>,
    pub request_headers: Option<String>,
    pub request_body: Option<String>,
    pub response_headers: Option<String>,
    pub response_body: Option<String>,
    pub client_ip: Option<String>,
    pub is_streaming: bool,
}

/// The mathematical model of a [`ProxyLogEntry`].
pub ghost struct LogEntryModel {
    pub id: Seq<char>,
    pub timestamp: Seq<char>,
    pub method: Seq<char>,
    pub path: Seq<char>,
    pub upstream_url: Seq<char>,
    pub listen_port: u16,
    pub route_key: Option<Seq<char>>,
    pub upstream_label: Option<Seq<char>>,
    pub service_name: Option<Seq<char>>,
    pub base_path: Option<Seq<char>>,
    pub status: Option<u16>,
    pub duration_ms: u128,
    pub error: Option<Seq<char>>,
    pub retry_action: Option<Seq<char>>,
    pub request_headers: Option<Seq<char>>,
    pub request_body: Option<Seq<char>>,
    pub response_headers: Option<Seq<char>>,
    pub response_body: Option<Seq<char>>,
    pub client_ip: Option<Seq<char>>,
    pub is_streaming: bool,
}

impl DeepView for ProxyLogEntry {
    type V = LogEntryModel;

    open spec fn deep_view(&self) -> LogEntryModel {
        LogEntryModel {
            id: self.id@,
            timestamp: self.timestamp@,
            method: self.method@,
            path: self.path@,
            upstream_url: self.upstream_url@,
            listen_port: self.listen_port,
            route_key: self.route_key.deep_view(),
            upstream_label: self.upstream_label.deep_view(),
            service_name: self.service_name.deep_view(),
            base_path: self.base_path.deep_view(),
            status: self.status,
            duration_ms: self.duration_ms,
            error: self.error.deep_view(),
            retry_action: self.retry_action.deep_view(),
            request_headers: self.request_headers.deep_view(),
            request_body: self.request_body.deep_view(),
            response_headers: self.response_headers.deep_view(),
            response_body: self.response_body.deep_view(),
            client_ip: self.client_ip.deep_view(),
            is_streaming: self.is_streaming,
        }
    }
}

impl View for ProxyLogEntry {
    type V = LogEntryModel;

    open spec fn view(&self) -> LogEntryModel {
        self.deep_view()
    }
}

fn clone_opt(o: &Option<String>) -> (r: Option<String>)
    ensures
        r.deep_view() == o.deep_view(),
{
    match o {
        Some(s) => Some(s.clone()),
        None => None,
    }
}

impl ProxyLogEntry {
    /// An exact copy, for handing one view of the entry to the log ring
    /// while keeping another.
    pub fn duplicate(&self) -> (r: ProxyLogEntry)
        ensures
            r@ == self@,
    {
        ProxyLogEntry {
            id: self.id.clone(),
            timestamp: self.timestamp.clone(),
            method: self.method.clone(),
            path: self.path.clone(),
            upstream_url: self.upstream_url.clone(),
            listen_port: self.listen_port,
            route_key: clone_opt(&self.route_key),
            upstream_label: clone_opt(&self.upstream_label),
            service_name: clone_opt(&self.service_name),
            base_path: clone_opt(&self.base_path),
            status: self.status,
            duration_ms: self.duration_ms,
            error: clone_opt(&self.error),
            retry_action: clone_opt(&self.retry_action),
            request_headers: clone_opt(&self.request_headers),
            request_body: clone_opt(&self.request_body),
            response_headers: clone_opt(&self.response_headers),
            response_body: clone_opt(&self.response_body),
            client_ip: clone_opt(&self.client_ip),
            is_streaming: self.is_streaming,
        }
    }

    /// The inflight entry created when a routed request is admitted: it
    /// points at the route's preferred upstream and has no outcome yet.
    pub fn admitted(
        id: String,
        timestamp: String,
        method: String,
        path: String,
        listen_port: u16,
        client_ip: String,
        route: &RouteInfo,
    ) -> (r: ProxyLogEntry)
        requires
            route@.upstreams.len() > 0,
        ensures
            r@.id == id@,
            r@.timestamp == timestamp@,
            r@.method == method@,
            r@.path == path@,
            r@.listen_port == listen_port,
            r@.client_ip == Some(client_ip@),
            r@.upstream_url == route@.upstreams.first().upstream_url,
            r@.route_key == route@.upstreams.first().upstream_label,
            r@.upstream_label == route@.upstreams.first().upstream_label,
            r@.service_name == Some(route@.service_name),
            r@.base_path == Some(route@.service_base),
            r@.status is None,
            r@.duration_ms == 0,
            r@.error is None,
            r@.retry_action is None,
            r@.request_headers is None,
            r@.request_body is None,
            r@.response_headers is None,
            r@.response_body is None,
            r@.is_streaming == false,
    {
        let first = &route.upstreams[0];
        ProxyLogEntry {
            id,
            timestamp,
            method,
            path,
            upstream_url: first.upstream_url.clone(),
            listen_port,
            route_key: clone_opt(&first.upstream_label),
            upstream_label: clone_opt(&first.upstream_label),
            service_name: Some(route.service_name.clone()),
            base_path: Some(route.service_base.clone()),
            status: None,
            duration_ms: 0,
            error: None,
            retry_action: None,
            request_headers: None,
            request_body: None,
            response_headers: None,
            response_body: None,
            client_ip: Some(client_ip),
            is_streaming: false,
        }
    }

    /// The completed entry recorded when authentication rejects a request: no
    /// upstream, the given status and error, nothing else filled in.
    pub fn denied(
        id: String,
        timestamp: String,
        method: String,
        path: String,
        listen_port: u16,
        client_ip: String,
        status: u16,
        error: String,
        duration_ms: u128,
    ) -> (r: ProxyLogEntry)
        ensures
            r@.id == id@,
            r@.timestamp == timestamp@,
            r@.method == method@,
            r@.path == path@,
            r@.listen_port == listen_port,
            r@.client_ip == Some(client_ip@),
            r@.upstream_url.len() == 0,
            r@.status == Some(status),
            r@.duration_ms == duration_ms,
            r@.error == Some(error@),
            r@.route_key is None,
            r@.upstream_label is None,
            r@.service_name is None,
            r@.base_path is None,
            r@.retry_action is None,
            r@.request_headers is None,
            r@.request_body is None,
            r@.response_headers is None,
            r@.response_body is None,
            r@.is_streaming == false,
    {
        ProxyLogEntry {
            id,
            timestamp,
            method,
            path,
            upstream_url: String::new(),
            listen_port,
            route_key: None,
            upstream_label: None,
            service_name: None,
            base_path: None,
            status: Some(status),
            duration_ms,
            error: Some(error),
            retry_action: None,
            request_headers: None,
            request_body: None,
            response_headers: None,
            response_body: None,
            client_ip: Some(client_ip),
            is_streaming: false,
        }
    }

    /// Point the entry at the upstream of the current attempt.
    pub fn stamp_upstream(&mut self, u: &ResolvedUpstream)
        ensures
            final(self)@ == (LogEntryModel {
                upstream_url: u@.upstream_url,
                route_key: u@.upstream_label,
                upstream_label: u@.upstream_label,
                ..old(self)@
            }),
    {
        self.upstream_url = u.upstream_url.clone();
        self.route_key = clone_opt(&u.upstream_label);
        self.upstream_label = clone_opt(&u.upstream_label);
    }

    /// The sub-entry recording a non-terminal attempt `(up_idx, attempt)`:
    /// the parent entry with a derived id, the attempt's status, duration,
    /// error and retry action.
    pub fn sub_entry(
        &self,
        up_idx: usize,
        attempt: u32,
        status: u16,
        error: String,
        retry_action: Option<String>,
        duration_ms: u128,
    ) -> (r: ProxyLogEntry)
        requires
            up_idx < usize::MAX,
            attempt < u32::MAX,
        ensures
            r@ == (LogEntryModel {
                id: attempt_id_spec(self@.id, up_idx as int, attempt as int),
                status: Some(status),
                duration_ms: duration_ms,
                error: Some(error@),
                retry_action: retry_action.deep_view(),
                ..self@
            }),
    {
        let mut copy = self.duplicate();
        copy.id = attempt_id(self.id.as_str(), up_idx, attempt);
        copy.status = Some(status);
        copy.duration_ms = duration_ms;
        copy.error = Some(error);
        copy.retry_action = retry_action;
        copy
    }

    /// Finalize the entry after every attempt failed: status 502 and the
    /// joined attempt errors.
    pub fn finalize_failed(&mut self, errors: &Vec<String>, duration_ms: u128)
        ensures
            final(self)@ == (LogEntryModel {
                status: Some(502u16),
                duration_ms: duration_ms,
                error: Some(upstream_failed_spec(errors.deep_view())),
                ..old(self)@
            }),
    {
        self.status = Some(502);
        self.duration_ms = duration_ms;
        self.error = Some(upstream_failed_text(errors));
    }
}

/// The derived id of attempt `(up_idx, attempt)`, both rendered one-based.
pub open spec fn attempt_id_spec(id: Seq<char>, up_idx: int, attempt: int) -> Seq<char> {
    id + "-"@ + dec_spec((up_idx + 1) as nat) + "-"@ + dec_spec((attempt + 1) as nat)
}

/// Render the derived id of a non-terminal attempt; see [`attempt_id_spec`].
pub fn attempt_id(id: &str, up_idx: usize, attempt: u32) -> (r: String)
    requires
        up_idx < usize::MAX,
        attempt < u32::MAX,
    ensures
        r@ == attempt_id_spec(id@, up_idx as int, attempt as int),
{
    let mut s = id.to_owned();
    s.append("-");
    let u = u64_to_string((up_idx as u64) + 1);
    s.append(u.as_str());
    s.append("-");
    let a = u64_to_string((attempt as u64) + 1);
    s.append(a.as_str());
    s
}

/// The attempt error recorded for a retryable upstream status.
pub open spec fn status_error_spec(status: u16) -> Seq<char> {
    "upstream "@ + dec_spec(status as nat)
}

/// Render the attempt error for a retryable upstream status; see
/// [`status_error_spec`].
pub fn status_error_text(status: u16) -> (r: String)
    ensures
        r@ == status_error_spec(status),
{
    let mut s = String::from_str("upstream ");
    let d = u64_to_string(status as u64);
    s.append(d.as_str());
    s
}

/// An attempt error annotated with what the engine did next: nothing extra
/// when it gave up, otherwise the action taken.
pub fn attempt_error_text(base: &str, d: &AttemptDecision) -> (r: String)
    ensures
        *d == AttemptDecision::Retry ==> r@ == base@ + ", retrying"@,
        *d == AttemptDecision::Fallback ==> r@ == base@ + ", switching upstream"@,
        *d == AttemptDecision::FailAll || *d == AttemptDecision::Commit ==> r@ == base@,
{
    let mut s = base.to_owned();
    match d {
        AttemptDecision::Retry => {
            s.append(", retrying");
        },
        AttemptDecision::Fallback => {
            s.append(", switching upstream");
        },
        AttemptDecision::Commit => {},
        AttemptDecision::FailAll => {},
    }
    s
}

/// The attempt errors joined with `; `.
pub open spec fn join_errors_spec(es: Seq<Seq<char>>) -> Seq<char>
    decreases es.len(),
{
    if es.len() == 0 {
        Seq::empty()
    } else if es.len() == 1 {
        es.first()
    } else {
        join_errors_spec(es.drop_last()) + "; "@ + es.last()
    }
}

/// The error text of a request whose every attempt failed.
pub open spec fn upstream_failed_spec(es: Seq<Seq<char>>) -> Seq<char> {
    "upstream failed: "@ + join_errors_spec(es)
}

/// Render the error of a request whose every attempt failed; see
/// [`upstream_failed_spec`].
pub fn upstream_failed_text(errors: &Vec<String>) -> (r: String)
    ensures
        r@ == upstream_failed_spec(errors.deep_view()),
{
    let mut s = String::from_str("upstream failed: ");
    let mut i: usize = 0;
    let n = errors.len();
    proof {
        assert(errors.deep_view().take(0) =~= Seq::<Seq<char>>::empty());
        assert(s@ =~= "upstream failed: "@ + join_errors_spec(errors.deep_view().take(0)));
    }
    while i < n
        invariant
            0 <= i <= n,
            n == errors.len(),
            errors.deep_view().len() == n,
            s@ == "upstream failed: "@ + join_errors_spec(errors.deep_view().take(i as int)),
        decreases n - i,
    {
        proof {
            let pre = errors.deep_view().take(i as int);
            let cur = errors.deep_view().take(i + 1);
            assert(cur.drop_last() =~= pre);
            assert(cur.last() == errors.deep_view()[i as int]);
            if i == 0 {
                assert(cur =~= seq![errors.deep_view()[0]]);
                assert(cur.first() == errors.deep_view()[0]);
            }
        }
        if i > 0 {
            s.append("; ");
        }
        s.append(errors[i].as_str());
        proof {
            assert(errors@[i as int]@ == errors.deep_view()[i as int]);
            assert(s@ =~= "upstream failed: "@ + join_errors_spec(
                errors.deep_view().take(i + 1),
            ));
        }
        i = i + 1;
    }
    proof {
        assert(errors.deep_view().take(n as int) =~= errors.deep_view());
    }
    s
}

/// The compact JSON body returned to the client for a proxy-side error.
pub open spec fn error_body_spec(msg: Seq<char>) -> Seq<char> {
    "{\"error\":\""@ + msg + "\"}"@
}

/// Render the compact JSON error body; see [`error_body_spec`]. The caller
/// hands a fixed message without characters that JSON would escape.
pub fn error_body(msg: &str) -> (r: String)
    ensures
        r@ == error_body_spec(msg@),
{
    let mut s = String::from_str("{\"error\":\"");
    s.append(msg);
    s.append("\"}");
    s
}

/// Relies on `uuid::Uuid::new_v4` and its `Display` form: a fresh random
/// identifier in the 36-character hyphenated rendering. Nothing more is
/// promised of a random value.
#[verifier::external_body]
pub fn fresh_request_id() -> (r: String)
    ensures
        r@.len() == 36,
{
    uuid::Uuid::new_v4().to_string()
}

/// Relies on `chrono::Local::now` and its formatter for the wall-clock
/// admission timestamp. Nothing is promised of a clock reading.
#[verifier::external_body]
pub fn local_timestamp() -> (r: String) {
    chrono::Local::now().format("%Y-%m-%d %H:%M:%S").to_string()
}

} // verus!
