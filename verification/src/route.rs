//! Longest-prefix routing and upstream selection.
//!
//! An enabled service matches a request path when its base path is the root
//! or a byte prefix of the path. Among matching services the longest base
//! path wins, the earliest configured among equals. The service's enabled
//! upstreams are ordered by ascending priority and each is given its
//! synthesized upstream URL.

use vstd::prelude::*;

use crate::config::{
    insert_by_priority, sort_by_priority, ConfigModel, ProxyConfig, ServiceConfig, ServiceModel,
    UpstreamEntry, UpstreamModel,
};
use crate::paths::{build_upstream_url, join_spec, strip_base_path, strip_base_spec};

verus! {

/// Whether an enabled service accepts the path: the root base accepts
/// everything, any other base must be a prefix of the path.
pub open spec fn service_matches(s: ServiceModel, path: Seq<char>) -> bool {
    s.enabled && ((s.base_path.len() == 1 && s.base_path.first() == '/')
        || s.base_path.is_prefix_of(path))
}

/// Index of the service that serves `path`: among matching services the one
/// with the longest base path, the earliest among equals; `-1` when none
/// matches.
pub open spec fn best_service_idx(ss: Seq<ServiceModel>, path: Seq<char>) -> int
    decreases ss.len(),
{
    if ss.len() == 0 {
        -1int
    } else {
        let prev = best_service_idx(ss.drop_last(), path);
        let k = ss.len() - 1;
        if !service_matches(ss[k], path) {
            prev
        } else if prev == -1 {
            k as int
        } else if ss[prev].base_path.len() >= ss[k].base_path.len() {
            prev
        } else {
            k as int
        }
    }
}

proof fn lemma_best_service_idx_bounds(ss: Seq<ServiceModel>, path: Seq<char>)
    ensures
        -1 <= best_service_idx(ss, path) < ss.len(),
        best_service_idx(ss, path) >= 0 ==> service_matches(ss[best_service_idx(ss, path)], path),
    decreases ss.len(),
{
    if ss.len() > 0 {
        lemma_best_service_idx_bounds(ss.drop_last(), path);
    }
}

/// Longest prefix wins: when some enabled service matches, the selected one
/// matches, no matching service has a longer base path, and no earlier
/// service ties its length; when none matches, nothing is selected.
pub proof fn lemma_best_service_longest(ss: Seq<ServiceModel>, path: Seq<char>)
    ensures
        ({
            let b = best_service_idx(ss, path);
            &&& b == -1 ==> forall|j: int|
                0 <= j < ss.len() ==> !service_matches(#[trigger] ss[j], path)
            &&& b >= 0 ==> 0 <= b < ss.len() && service_matches(ss[b], path)
            &&& b >= 0 ==> forall|j: int|
                0 <= j < ss.len() && service_matches(#[trigger] ss[j], path)
                    ==> ss[j].base_path.len() <= ss[b].base_path.len()
            &&& b >= 0 ==> forall|j: int|
                0 <= j < b && service_matches(#[trigger] ss[j], path) ==> ss[j].base_path.len()
                    < ss[b].base_path.len()
        }),
    decreases ss.len(),
{
    if ss.len() > 0 {
        lemma_best_service_longest(ss.drop_last(), path);
        lemma_best_service_idx_bounds(ss.drop_last(), path);
        let prev = best_service_idx(ss.drop_last(), path);
        let k = ss.len() - 1;
        assert forall|j: int| 0 <= j < k implies ss.drop_last()[j] == ss[j] by {}
        let b = best_service_idx(ss, path);
        if b == -1 {
            assert(!service_matches(ss[k], path) && prev == -1);
            assert forall|j: int| 0 <= j < ss.len() implies !service_matches(
                #[trigger] ss[j],
                path,
            ) by {
                if j < k {
                    assert(!service_matches(ss.drop_last()[j], path));
                }
            }
        } else {
            assert forall|j: int|
                0 <= j < ss.len() && service_matches(#[trigger] ss[j], path) implies ss[
                j].base_path.len() <= ss[b].base_path.len() by {
                if j < k {
                    assert(service_matches(ss.drop_last()[j], path));
                    if prev == -1 {
                        assert(!service_matches(ss.drop_last()[j], path));
                    }
                    assert(0 <= prev < k);
                    assert(ss.drop_last()[j].base_path.len()
                        <= ss.drop_last()[prev].base_path.len());
                    assert(ss.drop_last()[prev] == ss[prev]);
                }
            }
            assert forall|j: int|
                0 <= j < b && service_matches(#[trigger] ss[j], path) implies ss[
                j].base_path.len() < ss[b].base_path.len() by {
                assert(service_matches(ss.drop_last()[j], path));
                if prev == -1 {
                    assert(!service_matches(ss.drop_last()[j], path));
                }
                assert(0 <= prev < k);
                assert(ss.drop_last()[prev] == ss[prev]);
                if b == prev {
                    assert(ss.drop_last()[j].base_path.len()
                        < ss.drop_last()[prev].base_path.len());
                } else {
                    assert(b == k);
                    assert(ss.drop_last()[j].base_path.len()
                        <= ss.drop_last()[prev].base_path.len());
                    assert(ss[prev].base_path.len() < ss[k].base_path.len());
                }
            }
        }
    }
}

/// Pick the service for a request path; see [`best_service_idx`].
pub fn select_service<'a>(config: &'a ProxyConfig, path: &str) -> (r: Option<&'a ServiceConfig>)
    ensures
        match r {
            Some(s) => best_service_idx(config@.services, path@) >= 0 && s@
                == config@.services[best_service_idx(config@.services, path@)],
            None => best_service_idx(config@.services, path@) == -1,
        },
{
    let n = config.services.len();
    let mut best: usize = 0;
    let mut found: bool = false;
    let mut i: usize = 0;
    proof {
        assert(config@.services.take(0) =~= Seq::<ServiceModel>::empty());
    }
    while i < n
        invariant
            0 <= i <= n,
            n == config.services.len(),
            n == config@.services.len(),
            !found ==> best_service_idx(config@.services.take(i as int), path@) == -1,
            found ==> 0 <= best < i && best_service_idx(config@.services.take(i as int), path@)
                == best,
        decreases n - i,
    {
        proof {
            let pre = config@.services.take(i as int);
            let cur = config@.services.take(i + 1);
            assert(cur.drop_last() =~= pre);
            assert(cur.last() == config@.services[i as int]);
            assert forall|j: int| 0 <= j < cur.len() implies cur[j] == config@.services[j] by {}
        }
        let svc = &config.services[i];
        let matches = svc.enabled && ((svc.base_path.unicode_len() == 1 && svc.base_path.as_str().get_char(
            0,
        ) == '/') || crate::text::str_starts_with(path, svc.base_path.as_str()));
        if matches {
            if !found {
                best = i;
                found = true;
            } else {
                if config.services[best].base_path.unicode_len()
                    < config.services[i].base_path.unicode_len() {
                    best = i;
                }
            }
        }
        i = i + 1;
    }
    proof {
        assert(config@.services.take(n as int) =~= config@.services);
    }
    if found {
        Some(&config.services[best])
    } else {
        None
    }
}

/// The enabled upstreams, in configuration order.
pub open spec fn enabled_ups(us: Seq<UpstreamModel>) -> Seq<UpstreamModel>
    decreases us.len(),
{
    if us.len() == 0 {
        Seq::empty()
    } else {
        let rest = enabled_ups(us.drop_last());
        if us.last().enabled {
            rest.push(us.last())
        } else {
            rest
        }
    }
}

/// The enabled upstreams, stably sorted by ascending priority.
pub fn enabled_upstreams_sorted<'a>(upstreams: &'a Vec<UpstreamEntry>) -> (r: Vec<
    &'a UpstreamEntry,
>)
    ensures
        r.deep_view() == sort_by_priority(enabled_ups(upstreams.deep_view())),
{
    let mut out: Vec<&'a UpstreamEntry> = Vec::new();
    let mut i: usize = 0;
    let n = upstreams.len();
    proof {
        assert(upstreams.deep_view().take(0) =~= Seq::<UpstreamModel>::empty());
        assert(enabled_ups(Seq::<UpstreamModel>::empty()) =~= Seq::<UpstreamModel>::empty());
    }
    while i < n
        invariant
            0 <= i <= n,
            n == upstreams.len(),
            n == upstreams.deep_view().len(),
            out.deep_view() == sort_by_priority(
                enabled_ups(upstreams.deep_view().take(i as int)),
            ),
        decreases n - i,
    {
        proof {
            let pre = upstreams.deep_view().take(i as int);
            let cur = upstreams.deep_view().take(i + 1);
            assert(cur.drop_last() =~= pre);
            assert(cur.last() == upstreams.deep_view()[i as int]);
        }
        let u = &upstreams[i];
        if u.enabled {
            let ghost e_pre = enabled_ups(upstreams.deep_view().take(i as int));
            let mut pos: usize = out.len();
            while pos > 0 && out[pos - 1].priority > u.priority
                invariant
                    0 <= pos <= out.len(),
                    forall|j: int|
                        pos <= j < out.deep_view().len() ==> out.deep_view()[j].priority
                            > u.deep_view().priority,
                decreases pos,
            {
                proof {
                    assert(out.deep_view()[pos - 1].priority == out@[pos - 1].priority);
                }
                pos = pos - 1;
            }
            let ghost out_deep = out.deep_view();
            proof {
                if pos > 0 {
                    assert(out_deep[pos - 1].priority == out@[pos - 1].priority);
                }
                crate::config::lemma_insert_at(out_deep, u.deep_view(), pos as int);
                assert(enabled_ups(upstreams.deep_view().take(i + 1)) == e_pre.push(
                    upstreams.deep_view()[i as int],
                ));
                assert(sort_by_priority(e_pre.push(upstreams.deep_view()[i as int]))
                    == insert_by_priority(sort_by_priority(e_pre), upstreams.deep_view()[i as int]))
                    by {
                    let p = e_pre.push(upstreams.deep_view()[i as int]);
                    assert(p.drop_last() =~= e_pre);
                    assert(p.last() == upstreams.deep_view()[i as int]);
                }
            }
            out.insert(pos, u);
            proof {
                assert(out.deep_view() =~= out_deep.insert(pos as int, u.deep_view()));
            }
        }
        i = i + 1;
    }
    proof {
        assert(upstreams.deep_view().take(n as int) =~= upstreams.deep_view());
    }
    out
}

/// Pick the preferred upstream: the first enabled one by priority.
pub fn select_upstream<'a>(upstreams: &'a Vec<UpstreamEntry>) -> (r: Option<&'a UpstreamEntry>)
    ensures
        match r {
            Some(u) => sort_by_priority(enabled_ups(upstreams.deep_view())).len() > 0 && u@
                == sort_by_priority(enabled_ups(upstreams.deep_view())).first(),
            None => sort_by_priority(enabled_ups(upstreams.deep_view())).len() == 0,
        },
{
    let en = enabled_upstreams_sorted(upstreams);
    if en.len() == 0 {
        None
    } else {
        Some(en[0])
    }
}

/// One upstream resolved for a request: its synthesized URL and the
/// attributes the attempt engine needs.
#[derive(Debug, Clone)]
pub struct ResolvedUpstream {
    pub upstream_url: String,
    pub upstream_id: String,
    pub upstream_label: Option<String>,
    pub api_key: Option<String>,
}

/// The mathematical model of a [`ResolvedUpstream`].
pub ghost struct ResolvedUpstreamModel {
    pub upstream_url: Seq<char>,
    pub upstream_id: Seq<char>,
    pub upstream_label: Option<Seq<char>>,
    pub api_key: Option<Seq<char>>,
}

impl DeepView for ResolvedUpstream {
    type V = ResolvedUpstreamModel;

    open spec fn deep_view(&self) -> ResolvedUpstreamModel {
        ResolvedUpstreamModel {
            upstream_url: self.upstream_url@,
            upstream_id: self.upstream_id@,
            upstream_label: self.upstream_label.deep_view(),
            api_key: self.api_key.deep_view(),
        }
    }
}

impl View for ResolvedUpstream {
    type V = ResolvedUpstreamModel;

    open spec fn view(&self) -> ResolvedUpstreamModel {
        self.deep_view()
    }
}

/// A resolved route: the chosen service and its resolved upstreams in
/// priority order.
#[derive(Debug, Clone)]
pub struct RouteInfo {
    pub service_name: String,
    pub service_base: String,
    pub upstreams: Vec<ResolvedUpstream>,
}

/// The mathematical model of a [`RouteInfo`].
pub ghost struct RouteModel {
    pub service_name: Seq<char>,
    pub service_base: Seq<char>,
    pub upstreams: Seq<ResolvedUpstreamModel>,
}

impl DeepView for RouteInfo {
    type V = RouteModel;

    open spec fn deep_view(&self) -> RouteModel {
        RouteModel {
            service_name: self.service_name@,
            service_base: self.service_base@,
            upstreams: self.upstreams.deep_view(),
        }
    }
}

impl View for RouteInfo {
    type V = RouteModel;

    open spec fn view(&self) -> RouteModel {
        self.deep_view()
    }
}

/// Resolve one upstream against the path remainder.
pub open spec fn resolve_upstream_model(u: UpstreamModel, trimmed: Seq<char>) -> ResolvedUpstreamModel {
    ResolvedUpstreamModel {
        upstream_url: join_spec(u.upstream_base, trimmed),
        upstream_id: u.id,
        upstream_label: u.label,
        api_key: u.api_key,
    }
}

/// The route for a request path, when an enabled service with at least one
/// enabled upstream matches it.
pub open spec fn resolve_spec(c: ConfigModel, path: Seq<char>) -> Option<RouteModel> {
    let idx = best_service_idx(c.services, path);
    if idx == -1 {
        None
    } else {
        let svc = c.services[idx];
        let trimmed = strip_base_spec(path, svc.base_path);
        let en = sort_by_priority(enabled_ups(svc.upstreams));
        if en.len() == 0 {
            None
        } else {
            Some(
                RouteModel {
                    service_name: svc.name,
                    service_base: svc.base_path,
                    upstreams: en.map_values(|u: UpstreamModel| resolve_upstream_model(u, trimmed)),
                },
            )
        }
    }
}

/// Resolve a request path against the configuration; see [`resolve_spec`].
/// Fails closed when no enabled service matches or the matched service has
/// no enabled upstream.
pub fn resolve_route(config: &ProxyConfig, path: &str) -> (r: Option<RouteInfo>)
    ensures
        r.deep_view() == resolve_spec(config@, path@),
{
    proof {
        lemma_best_service_idx_bounds(config@.services, path@);
    }
    let svc = match select_service(config, path) {
        Some(s) => s,
        None => {
            return None;
        },
    };
    let trimmed = strip_base_path(path, svc.base_path.as_str());
    let en = enabled_upstreams_sorted(&svc.upstreams);
    if en.len() == 0 {
        return None;
    }
    let ghost en_models = sort_by_priority(enabled_ups(svc@.upstreams));
    let ghost trimmed_seq = trimmed@;
    let mut ups: Vec<ResolvedUpstream> = Vec::new();
    let mut i: usize = 0;
    let n = en.len();
    proof {
        assert(en_models.take(0).map_values(
            |u: UpstreamModel| resolve_upstream_model(u, trimmed_seq),
        ) =~= Seq::<ResolvedUpstreamModel>::empty());
    }
    while i < n
        invariant
            0 <= i <= n,
            n == en.len(),
            n == en_models.len(),
            en.deep_view() == en_models,
            trimmed_seq == trimmed@,
            ups.deep_view() == en_models.take(i as int).map_values(
                |u: UpstreamModel| resolve_upstream_model(u, trimmed_seq),
            ),
        decreases n - i,
    {
        let u = en[i];
        let resolved = ResolvedUpstream {
            upstream_url: build_upstream_url(u.upstream_base.as_str(), trimmed),
            upstream_id: u.id.clone(),
            upstream_label: match &u.label {
                Some(l) => Some(l.clone()),
                None => None,
            },
            api_key: match &u.api_key {
                Some(k) => Some(k.clone()),
                None => None,
            },
        };
        let ghost pre = ups.deep_view();
        ups.push(resolved);
        proof {
            assert(resolved@ == resolve_upstream_model(en_models[i as int], trimmed_seq));
            assert(ups.deep_view() =~= pre.push(resolved@));
            assert(en_models.take(i + 1).map_values(
                |u: UpstreamModel| resolve_upstream_model(u, trimmed_seq),
            ) =~= pre.push(resolve_upstream_model(en_models[i as int], trimmed_seq)));
        }
        i = i + 1;
    }
    proof {
        assert(en_models.take(n as int) =~= en_models);
    }
    Some(
        RouteInfo {
            service_name: svc.name.clone(),
            service_base: svc.base_path.clone(),
            upstreams: ups,
        },
    )
}

} // verus!
