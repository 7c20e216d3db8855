//! The configuration model and its admission pipeline.
//!
//! A configuration snapshot is normalized before it serves requests: names,
//! labels, bases and keys are trimmed, empty optional fields become absent,
//! base paths are canonicalized, upstreams without a base are dropped,
//! services without upstreams are dropped, the retry budget is clamped, and
//! each service's upstreams are stably sorted by priority.

use vstd::prelude::*;

use crate::paths::{normalize_base_path, normalize_spec, strip_all_trailing_slashes, trim_trailing_slash};
use crate::text::{trim_spec, trim_str};

verus! {

/// Upper bound on the per-request retry-or-fallback budget.
pub const MAX_FALLBACK_RETRIES: u32 = 10;

/// A concrete origin behind a service: a base URL, an optional credential,
/// and a selection priority (lower is preferred).
#[derive(Debug, Clone)]
pub struct UpstreamEntry {
    pub id: String,
    pub label: Option<String>,
    pub upstream_base: String,
    pub api_key: Option<String>,
    pub priority: u32,
    pub enabled: bool,
}

/// A logical service: a URL prefix backed by one or more upstreams.
#[derive(Debug, Clone)]
pub struct ServiceConfig {
    pub id: String,
    pub name: String,
    pub base_path: String,
    pub enabled: bool,
    pub upstreams: Vec<UpstreamEntry>,
}

/// An immutable proxy configuration snapshot.
#[derive(Debug, Clone)]
pub struct ProxyConfig {
    pub listen_port: u16,
    pub global_key: Option<String>,
    pub proxy_url: Option<String>,
    pub fallback_retries: u32,
    pub services: Vec<ServiceConfig>,
}

/// The mathematical model of an [`UpstreamEntry`].
pub ghost struct UpstreamModel {
    pub id: Seq<char>,
    pub label: Option<Seq<char>>,
    pub upstream_base: Seq<char>,
    pub api_key: Option<Seq<char>>,
    pub priority: u32,
    pub enabled: bool,
}

/// The mathematical model of a [`ServiceConfig`].
pub ghost struct ServiceModel {
    pub id: Seq<char>,
    pub name: Seq<char>,
    pub base_path: Seq<char>,
    pub enabled: bool,
    pub upstreams: Seq<UpstreamModel>,
}

/// The mathematical model of a [`ProxyConfig`].
pub ghost struct ConfigModel {
    pub listen_port: u16,
    pub global_key: Option<Seq<char>>,
    pub proxy_url: Option<Seq<char>>,
    pub fallback_retries: u32,
    pub services: Seq<ServiceModel>,
}

impl DeepView for UpstreamEntry {
    type V = UpstreamModel;

    open spec fn deep_view(&self) -> UpstreamModel {
        UpstreamModel {
            id: self.id@,
            label: self.label.deep_view(),
            upstream_base: self.upstream_base@,
            api_key: self.api_key.deep_view(),
            priority: self.priority,
            enabled: self.enabled,
        }
    }
}

impl View for UpstreamEntry {
    type V = UpstreamModel;

    open spec fn view(&self) -> UpstreamModel {
        self.deep_view()
    }
}

impl DeepView for ServiceConfig {
    type V = ServiceModel;

    open spec fn deep_view(&self) -> ServiceModel {
        ServiceModel {
            id: self.id@,
            name: self.name@,
            base_path: self.base_path@,
            enabled: self.enabled,
            upstreams: self.upstreams.deep_view(),
        }
    }
}

impl View for ServiceConfig {
    type V = ServiceModel;

    open spec fn view(&self) -> ServiceModel {
        self.deep_view()
    }
}

impl DeepView for ProxyConfig {
    type V = ConfigModel;

    open spec fn deep_view(&self) -> ConfigModel {
        ConfigModel {
            listen_port: self.listen_port,
            global_key: self.global_key.deep_view(),
            proxy_url: self.proxy_url.deep_view(),
            fallback_retries: self.fallback_retries,
            services: self.services.deep_view(),
        }
    }
}

impl View for ProxyConfig {
    type V = ConfigModel;

    open spec fn view(&self) -> ConfigModel {
        self.deep_view()
    }
}

/// Why a configuration was refused at admission or reload.
#[derive(Debug, Clone, Copy, PartialEq, Eq, Structural)]
pub enum ConfigError {
    /// The listen port is outside `1..=65535`.
    InvalidListenPort,
    /// The configuration carries no service at all.
    NoServices,
    /// Normalization left no service with a usable upstream.
    NoValidServices,
    /// A reload asked to move to a different listen port.
    PortChanged,
    /// A reload arrived while no configuration is running.
    NotRunning,
}

/// Trim an optional text field and coerce an empty result to absent.
pub open spec fn opt_trim(o: Option<Seq<char>>) -> Option<Seq<char>> {
    match o {
        Some(s) => if trim_spec(s).len() > 0 {
            Some(trim_spec(s))
        } else {
            None
        },
        None => None,
    }
}

/// Keep an optional text field only when it is not blank.
pub open spec fn opt_nonblank(o: Option<Seq<char>>) -> Option<Seq<char>> {
    match o {
        Some(s) => if trim_spec(s).len() > 0 {
            Some(s)
        } else {
            None
        },
        None => None,
    }
}

/// One upstream after normalization: label and key trimmed or dropped, base
/// trimmed with trailing slashes stripped.
pub open spec fn norm_upstream(u: UpstreamModel) -> UpstreamModel {
    UpstreamModel {
        id: u.id,
        label: opt_trim(u.label),
        upstream_base: strip_all_trailing_slashes(trim_spec(u.upstream_base)),
        api_key: opt_trim(u.api_key),
        priority: u.priority,
        enabled: u.enabled,
    }
}

/// The upstream list after normalization, upstreams without a base dropped,
/// original order kept.
pub open spec fn norm_upstreams(us: Seq<UpstreamModel>) -> Seq<UpstreamModel>
    decreases us.len(),
{
    if us.len() == 0 {
        Seq::empty()
    } else {
        let rest = norm_upstreams(us.drop_last());
        let u = norm_upstream(us.last());
        if u.upstream_base.len() > 0 {
            rest.push(u)
        } else {
            rest
        }
    }
}

fn trim_opt_field(o: &Option<String>) -> (r: Option<String>)
    ensures
        r.deep_view() == opt_trim(o.deep_view()),
{
    match o {
        Some(s) => {
            let t = trim_str(s.as_str());
            if t.unicode_len() == 0 {
                None
            } else {
                Some(t.to_owned())
            }
        },
        None => None,
    }
}

fn normalize_upstream(u: &UpstreamEntry) -> (r: UpstreamEntry)
    ensures
        r@ == norm_upstream(u@),
{
    UpstreamEntry {
        id: u.id.clone(),
        label: trim_opt_field(&u.label),
        upstream_base: trim_trailing_slash(trim_str(u.upstream_base.as_str())).to_owned(),
        api_key: trim_opt_field(&u.api_key),
        priority: u.priority,
        enabled: u.enabled,
    }
}

fn normalize_upstream_list(us: &Vec<UpstreamEntry>) -> (r: Vec<UpstreamEntry>)
    ensures
        r.deep_view() == norm_upstreams(us.deep_view()),
{
    let mut out: Vec<UpstreamEntry> = Vec::new();
    let mut i: usize = 0;
    proof {
        assert(us.deep_view().take(0) =~= Seq::<UpstreamModel>::empty());
    }
    while i < us.len()
        invariant
            0 <= i <= us.len(),
            us.deep_view().len() == us.len(),
            out.deep_view() == norm_upstreams(us.deep_view().take(i as int)),
        decreases us.len() - i,
    {
        let u = normalize_upstream(&us[i]);
        proof {
            let pre = us.deep_view().take(i as int);
            let cur = us.deep_view().take(i + 1);
            assert(cur.drop_last() =~= pre);
            assert(cur.last() == us.deep_view()[i as int]);
        }
        if u.upstream_base.unicode_len() > 0 {
            out.push(u);
        }
        i = i + 1;
    }
    proof {
        assert(us.deep_view().take(us.len() as int) =~= us.deep_view());
    }
    out
}

/// Insert `x` after every element whose priority does not exceed `x`'s: the
/// insertion step of a stable sort by priority.
pub open spec fn insert_by_priority(s: Seq<UpstreamModel>, x: UpstreamModel) -> Seq<UpstreamModel>
    decreases s.len(),
{
    if s.len() > 0 && s.last().priority > x.priority {
        insert_by_priority(s.drop_last(), x).push(s.last())
    } else {
        s.push(x)
    }
}

/// Stable sort by ascending priority: equal priorities keep their input
/// order.
pub open spec fn sort_by_priority(s: Seq<UpstreamModel>) -> Seq<UpstreamModel>
    decreases s.len(),
{
    if s.len() == 0 {
        Seq::empty()
    } else {
        insert_by_priority(sort_by_priority(s.drop_last()), s.last())
    }
}

/// Non-decreasing priority along the sequence.
pub open spec fn sorted_by_priority(s: Seq<UpstreamModel>) -> bool {
    forall|i: int, j: int| 0 <= i < j < s.len() ==> s[i].priority <= s[j].priority
}

/// Where the stable insertion step places an element: at the given position,
/// when everything at or after it has a strictly greater priority.
pub proof fn lemma_insert_at(s: Seq<UpstreamModel>, x: UpstreamModel, pos: int)
    requires
        0 <= pos <= s.len(),
        forall|j: int| pos <= j < s.len() ==> s[j].priority > x.priority,
        pos > 0 ==> s[pos - 1].priority <= x.priority,
    ensures
        insert_by_priority(s, x) == s.insert(pos, x),
    decreases s.len(),
{
    if pos == s.len() {
        assert(insert_by_priority(s, x) == s.push(x));
        assert(s.push(x) =~= s.insert(pos, x));
    } else {
        assert(s.len() > 0 && s.last().priority > x.priority);
        assert(insert_by_priority(s, x) == insert_by_priority(s.drop_last(), x).push(s.last()));
        lemma_insert_at(s.drop_last(), x, pos);
        assert(s.drop_last().insert(pos, x).push(s.last()) =~= s.insert(pos, x));
    }
}

proof fn lemma_insert_keeps_sorted(s: Seq<UpstreamModel>, x: UpstreamModel)
    requires
        sorted_by_priority(s),
    ensures
        sorted_by_priority(insert_by_priority(s, x)),
    decreases s.len(),
{
    if s.len() > 0 && s.last().priority > x.priority {
        assert(s.drop_last() =~= s.subrange(0, s.len() - 1));
        lemma_insert_keeps_sorted(s.drop_last(), x);
        let r0 = insert_by_priority(s.drop_last(), x);
        lemma_insert_elems(s.drop_last(), x);
        assert forall|i: int, j: int|
            0 <= i < j < r0.push(s.last()).len() implies r0.push(s.last())[i].priority <= r0.push(
            s.last(),
        )[j].priority by {
            if j < r0.len() {
            } else {
                assert(r0.push(s.last())[j] == s.last());
                assert(r0.contains(r0[i]));
            }
        }
    } else {
        assert forall|i: int, j: int|
            0 <= i < j < s.push(x).len() implies s.push(x)[i].priority <= s.push(x)[j].priority by {}
    }
}

proof fn lemma_insert_elems(s: Seq<UpstreamModel>, x: UpstreamModel)
    ensures
        forall|e: UpstreamModel|
            #[trigger] insert_by_priority(s, x).contains(e) ==> s.contains(e) || e == x,
        forall|e: UpstreamModel| insert_by_priority(s, x).contains(e) ==> e.priority <= x.priority
            || s.contains(e),
    decreases s.len(),
{
    if s.len() > 0 && s.last().priority > x.priority {
        lemma_insert_elems(s.drop_last(), x);
        let r = insert_by_priority(s, x);
        let r0 = insert_by_priority(s.drop_last(), x);
        assert forall|e: UpstreamModel| #[trigger] r.contains(e) implies s.contains(e) || e == x by {
            let k = choose|k: int| 0 <= k < r.len() && r[k] == e;
            if k < r0.len() {
                assert(r0.contains(e));
                if s.drop_last().contains(e) {
                    let m = choose|m: int| 0 <= m < s.drop_last().len() && s.drop_last()[m] == e;
                    assert(s[m] == e);
                }
            } else {
                assert(e == s.last());
                assert(s.contains(s.last()));
            }
        }
    } else {
        let r = s.push(x);
        assert forall|e: UpstreamModel| #[trigger] r.contains(e) implies s.contains(e) || e == x by {
            let k = choose|k: int| 0 <= k < r.len() && r[k] == e;
            if k < s.len() {
                assert(s.contains(e));
            }
        }
    }
}

/// Sorting by priority yields a non-decreasing sequence.
pub proof fn lemma_sort_sorted(s: Seq<UpstreamModel>)
    ensures
        sorted_by_priority(sort_by_priority(s)),
    decreases s.len(),
{
    if s.len() > 0 {
        lemma_sort_sorted(s.drop_last());
        lemma_insert_keeps_sorted(sort_by_priority(s.drop_last()), s.last());
    }
}

/// Every element of the sorted sequence comes from the input.
pub proof fn lemma_sort_elems(s: Seq<UpstreamModel>)
    ensures
        forall|e: UpstreamModel| #[trigger] sort_by_priority(s).contains(e) ==> s.contains(e),
        sort_by_priority(s).len() == s.len(),
    decreases s.len(),
{
    if s.len() > 0 {
        lemma_sort_elems(s.drop_last());
        lemma_insert_elems(sort_by_priority(s.drop_last()), s.last());
        lemma_insert_len(sort_by_priority(s.drop_last()), s.last());
        let r = sort_by_priority(s);
        assert forall|e: UpstreamModel| #[trigger] r.contains(e) implies s.contains(e) by {
            if s.drop_last().contains(e) {
                let m = choose|m: int| 0 <= m < s.drop_last().len() && s.drop_last()[m] == e;
                assert(s[m] == e);
            } else if e == s.last() {
                assert(s.contains(s.last()));
            }
        }
    }
}

proof fn lemma_insert_len(s: Seq<UpstreamModel>, x: UpstreamModel)
    ensures
        insert_by_priority(s, x).len() == s.len() + 1,
    decreases s.len(),
{
    if s.len() > 0 && s.last().priority > x.priority {
        lemma_insert_len(s.drop_last(), x);
    }
}

proof fn lemma_insert_multiset(s: Seq<UpstreamModel>, x: UpstreamModel)
    ensures
        insert_by_priority(s, x).to_multiset() =~= s.to_multiset().insert(x),
    decreases s.len(),
{
    broadcast use vstd::seq_lib::group_to_multiset_ensures;

    if s.len() > 0 && s.last().priority > x.priority {
        lemma_insert_multiset(s.drop_last(), x);
        let r0 = insert_by_priority(s.drop_last(), x);
        assert(insert_by_priority(s, x) == r0.push(s.last()));
        assert(r0.push(s.last()).to_multiset() =~= r0.to_multiset().insert(s.last()));
        assert(s =~= s.drop_last().push(s.last()));
        assert(s.drop_last().push(s.last()).to_multiset() =~= s.drop_last().to_multiset().insert(
            s.last(),
        ));
        assert(r0.to_multiset().insert(s.last()) =~= s.to_multiset().insert(x));
    } else {
        assert(insert_by_priority(s, x) == s.push(x));
    }
}

/// Sorting by priority permutes the upstream list: the same entries with the
/// same multiplicities come back, only reordered.
pub proof fn lemma_sort_permutes(s: Seq<UpstreamModel>)
    ensures
        sort_by_priority(s).to_multiset() =~= s.to_multiset(),
    decreases s.len(),
{
    broadcast use vstd::seq_lib::group_to_multiset_ensures;

    if s.len() > 0 {
        lemma_sort_permutes(s.drop_last());
        lemma_insert_multiset(sort_by_priority(s.drop_last()), s.last());
        assert(s =~= s.drop_last().push(s.last()));
        assert(s.drop_last().push(s.last()).to_multiset() =~= s.drop_last().to_multiset().insert(
            s.last(),
        ));
    }
}

/// Stably sort a service's upstreams by ascending priority.
fn sort_upstreams(mut src: Vec<UpstreamEntry>) -> (r: Vec<UpstreamEntry>)
    ensures
        r.deep_view() == sort_by_priority(src.deep_view()),
{
    let ghost orig = src.deep_view();
    let mut out: Vec<UpstreamEntry> = Vec::new();
    let mut i: usize = 0;
    let n = src.len();
    proof {
        assert(orig.take(0) =~= Seq::<UpstreamModel>::empty());
        assert(orig.skip(0) =~= orig);
    }
    while i < n
        invariant
            0 <= i <= n,
            n == orig.len(),
            src.len() == n - i,
            src.deep_view() == orig.skip(i as int),
            out.deep_view() == sort_by_priority(orig.take(i as int)),
        decreases n - i,
    {
        let ghost pre_deep = src.deep_view();
        let ghost pre_shallow = src@;
        let u = src.remove(0);
        proof {
            assert(u@ == pre_deep[0]);
            assert(u@ == orig[i as int]);
            assert forall|k: int| 0 <= k < src@.len() implies src@[k] == pre_shallow[k + 1] by {
                assert(src@ == pre_shallow.remove(0));
            }
            assert forall|k: int| 0 <= k < src.deep_view().len() implies src.deep_view()[k]
                == orig.skip(i + 1)[k] by {
                assert(src.deep_view()[k] == src@[k].deep_view());
                assert(pre_deep[k + 1] == pre_shallow[k + 1].deep_view());
                assert(orig.skip(i + 1)[k] == orig.skip(i as int)[k + 1]);
            }
            assert(src.deep_view() =~= orig.skip(i + 1));
        }
        let mut pos: usize = out.len();
        while pos > 0 && out[pos - 1].priority > u.priority
            invariant
                0 <= pos <= out.len(),
                forall|j: int|
                    pos <= j < out.deep_view().len() ==> out.deep_view()[j].priority
                        > u@.priority,
            decreases pos,
        {
            proof {
                assert(out.deep_view()[pos - 1].priority == out@[pos - 1].priority);
            }
            pos = pos - 1;
        }
        let ghost out_deep = out.deep_view();
        proof {
            if pos > 0 {
                assert(out_deep[pos - 1].priority == out@[pos - 1].priority);
            }
            lemma_insert_at(out_deep, u@, pos as int);
            let pre = orig.take(i as int);
            let cur = orig.take(i + 1);
            assert(cur.drop_last() =~= pre);
            assert(cur.last() == orig[i as int]);
        }
        out.insert(pos, u);
        proof {
            assert(out.deep_view() =~= out_deep.insert(pos as int, u@));
        }
        i = i + 1;
    }
    proof {
        assert(orig.take(n as int) =~= orig);
    }
    out
}

/// One service after normalization: name trimmed, base path canonicalized,
/// upstreams normalized, filtered and sorted.
pub open spec fn norm_service(s: ServiceModel) -> ServiceModel {
    ServiceModel {
        id: s.id,
        name: trim_spec(s.name),
        base_path: normalize_spec(s.base_path),
        enabled: s.enabled,
        upstreams: sort_by_priority(norm_upstreams(s.upstreams)),
    }
}

/// The service list after normalization, services left without upstreams
/// dropped, original order kept.
pub open spec fn norm_services(ss: Seq<ServiceModel>) -> Seq<ServiceModel>
    decreases ss.len(),
{
    if ss.len() == 0 {
        Seq::empty()
    } else {
        let rest = norm_services(ss.drop_last());
        let s = norm_service(ss.last());
        if s.upstreams.len() > 0 {
            rest.push(s)
        } else {
            rest
        }
    }
}

/// A persisted upstream: non-empty base, no blank optional fields.
pub open spec fn upstream_wf(u: UpstreamModel) -> bool {
    &&& u.upstream_base.len() > 0
    &&& (u.label matches Some(l) ==> l.len() > 0)
    &&& (u.api_key matches Some(k) ==> k.len() > 0)
}

/// A persisted service: canonical base path, at least one upstream, and
/// upstreams sorted by ascending priority.
pub open spec fn service_wf(s: ServiceModel) -> bool {
    &&& s.base_path.len() >= 1
    &&& s.base_path.first() == '/'
    &&& (s.base_path.len() > 1 ==> s.base_path.last() != '/')
    &&& s.upstreams.len() >= 1
    &&& sorted_by_priority(s.upstreams)
    &&& forall|i: int| 0 <= i < s.upstreams.len() ==> upstream_wf(#[trigger] s.upstreams[i])
}

/// A configuration fit to serve requests: valid port, clamped retry budget,
/// and at least one well-formed service.
pub open spec fn config_wf(c: ConfigModel) -> bool {
    &&& c.listen_port >= 1
    &&& c.fallback_retries <= MAX_FALLBACK_RETRIES
    &&& c.services.len() >= 1
    &&& forall|i: int| 0 <= i < c.services.len() ==> service_wf(#[trigger] c.services[i])
    &&& (c.global_key matches Some(k) ==> k.len() > 0)
}

proof fn lemma_norm_upstreams_wf(us: Seq<UpstreamModel>)
    ensures
        forall|e: UpstreamModel| #[trigger] norm_upstreams(us).contains(e) ==> upstream_wf(e),
    decreases us.len(),
{
    if us.len() > 0 {
        lemma_norm_upstreams_wf(us.drop_last());
        let rest = norm_upstreams(us.drop_last());
        let u = norm_upstream(us.last());
        assert forall|e: UpstreamModel| #[trigger] norm_upstreams(us).contains(e) implies upstream_wf(
            e,
        ) by {
            let r = norm_upstreams(us);
            let k = choose|k: int| 0 <= k < r.len() && r[k] == e;
            if u.upstream_base.len() > 0 {
                if k < rest.len() {
                    assert(rest.contains(e));
                } else {
                    assert(e == u);
                }
            } else {
                assert(rest.contains(e));
            }
        }
    }
}

proof fn lemma_norm_service_wf(s: ServiceModel)
    ensures
        norm_service(s).upstreams.len() > 0 ==> service_wf(norm_service(s)),
{
    crate::paths::lemma_normalize_canonical(s.base_path);
    let nu = norm_upstreams(s.upstreams);
    lemma_sort_sorted(nu);
    lemma_sort_elems(nu);
    lemma_norm_upstreams_wf(s.upstreams);
    let su = sort_by_priority(nu);
    assert forall|i: int| 0 <= i < su.len() implies upstream_wf(#[trigger] su[i]) by {
        assert(su.contains(su[i]));
    }
}

proof fn lemma_norm_services_wf(ss: Seq<ServiceModel>)
    ensures
        forall|i: int|
            0 <= i < norm_services(ss).len() ==> service_wf(#[trigger] norm_services(ss)[i]),
    decreases ss.len(),
{
    if ss.len() > 0 {
        lemma_norm_services_wf(ss.drop_last());
        lemma_norm_service_wf(ss.last());
        let rest = norm_services(ss.drop_last());
        let s = norm_service(ss.last());
        assert forall|i: int| 0 <= i < norm_services(ss).len() implies service_wf(
            #[trigger] norm_services(ss)[i],
        ) by {
            if s.upstreams.len() > 0 {
                assert(norm_services(ss) == rest.push(s));
                if i < rest.len() {
                    assert(norm_services(ss)[i] == rest[i]);
                } else {
                    assert(norm_services(ss)[i] == s);
                }
            } else {
                assert(norm_services(ss) == rest);
            }
        }
    }
}

fn normalize_service(s: &ServiceConfig) -> (r: ServiceConfig)
    ensures
        r@ == norm_service(s@),
{
    ServiceConfig {
        id: s.id.clone(),
        name: trim_str(s.name.as_str()).to_owned(),
        base_path: normalize_base_path(s.base_path.as_str()),
        enabled: s.enabled,
        upstreams: sort_upstreams(normalize_upstream_list(&s.upstreams)),
    }
}

fn nonblank_opt_field(o: &Option<String>) -> (r: Option<String>)
    ensures
        r.deep_view() == opt_nonblank(o.deep_view()),
{
    match o {
        Some(s) => {
            let t = trim_str(s.as_str());
            if t.unicode_len() == 0 {
                None
            } else {
                Some(s.clone())
            }
        },
        None => None,
    }
}

/// The retry budget actually admitted for a requested one.
pub open spec fn clamp_spec(requested: u32) -> u32 {
    if requested <= MAX_FALLBACK_RETRIES {
        requested
    } else {
        MAX_FALLBACK_RETRIES
    }
}

/// Clamp a requested retry budget into the admissible range.
pub fn clamp_retries(requested: u32) -> (r: u32)
    ensures
        r == clamp_spec(requested),
        r <= MAX_FALLBACK_RETRIES,
{
    if requested <= MAX_FALLBACK_RETRIES {
        requested
    } else {
        MAX_FALLBACK_RETRIES
    }
}

/// Admit a configuration: normalize it as [`norm_services`] describes, or
/// say exactly why it is refused. On success the result is well-formed: its
/// base paths are canonical, its upstream lists are sorted by priority and
/// non-empty, and its retry budget lies in the admissible range.
pub fn normalize_config(config: &ProxyConfig) -> (r: Result<ProxyConfig, ConfigError>)
    ensures
        r is Ok <==> (config@.listen_port >= 1 && config@.services.len() > 0 && norm_services(
            config@.services,
        ).len() > 0),
        match r {
            Ok(c) => {
                &&& c@.listen_port == config@.listen_port
                &&& c@.global_key == opt_trim(config@.global_key)
                &&& c@.proxy_url == opt_nonblank(config@.proxy_url)
                &&& c@.fallback_retries == clamp_spec(config@.fallback_retries)
                &&& c@.services == norm_services(config@.services)
                &&& config_wf(c@)
            },
            Err(e) => {
                &&& (e == ConfigError::InvalidListenPort <==> config@.listen_port == 0)
                &&& (e == ConfigError::NoServices <==> (config@.listen_port >= 1
                    && config@.services.len() == 0))
                &&& (e == ConfigError::NoValidServices <==> (config@.listen_port >= 1
                    && config@.services.len() > 0 && norm_services(config@.services).len() == 0))
            },
        },
{
    if config.listen_port == 0 {
        return Err(ConfigError::InvalidListenPort);
    }
    if config.services.len() == 0 {
        proof {
            assert(config@.services.len() == 0);
        }
        return Err(ConfigError::NoServices);
    }
    let mut services: Vec<ServiceConfig> = Vec::new();
    let mut i: usize = 0;
    let n = config.services.len();
    proof {
        assert(config@.services.take(0) =~= Seq::<ServiceModel>::empty());
    }
    while i < n
        invariant
            0 <= i <= n,
            n == config.services.len(),
            n == config@.services.len(),
            services.deep_view() == norm_services(config@.services.take(i as int)),
        decreases n - i,
    {
        let s = normalize_service(&config.services[i]);
        let ghost pre = services.deep_view();
        proof {
            let before = config@.services.take(i as int);
            let cur = config@.services.take(i + 1);
            assert(cur.drop_last() =~= before);
            assert(cur.last() == config@.services[i as int]);
            assert(config.services@[i as int].deep_view() == config@.services[i as int]);
        }
        if s.upstreams.len() > 0 {
            services.push(s);
            proof {
                assert(services.deep_view() =~= pre.push(s@));
            }
        }
        i = i + 1;
    }
    proof {
        assert(config@.services.take(n as int) =~= config@.services);
    }
    if services.len() == 0 {
        return Err(ConfigError::NoValidServices);
    }
    let out = ProxyConfig {
        listen_port: config.listen_port,
        global_key: trim_opt_field(&config.global_key),
        proxy_url: nonblank_opt_field(&config.proxy_url),
        fallback_retries: clamp_retries(config.fallback_retries),
        services,
    };
    proof {
        lemma_norm_services_wf(config@.services);
    }
    Ok(out)
}

/// Guard a reload: it is accepted only while a configuration is running and
/// only on the same listen port.
pub fn reload_guard(running_port: Option<u16>, requested_port: u16) -> (r: Result<
    (),
    ConfigError,
>)
    ensures
        match running_port {
            None => r == Err::<(), ConfigError>(ConfigError::NotRunning),
            Some(p) => if p == requested_port {
                r is Ok
            } else {
                r == Err::<(), ConfigError>(ConfigError::PortChanged)
            },
        },
{
    match running_port {
        None => Err(ConfigError::NotRunning),
        Some(p) => if p == requested_port {
            Ok(())
        } else {
            Err(ConfigError::PortChanged)
        },
    }
}

} // verus!
