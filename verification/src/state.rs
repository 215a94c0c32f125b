//! What the proxy knows of its backends.

use std::sync::Arc;
use vstd::prelude::*;

use crate::config::Config;
use crate::config::ServerEntry;
use crate::config::ServerGroup;
use crate::gpu_set;
use crate::gpu_set::share;
use crate::gpu_set::GpuSet;
use crate::model_laws;
use crate::models;
use crate::models::EntryView;
use crate::models::ModelMap;
use crate::models::Report;
use crate::text;
use crate::text::decimal_text;

verus! {

/// A host that registered itself as a backend.
#[derive(Debug, PartialEq, Eq)]
pub struct DiscoveredHost {
    /// The IP address of the host, as it is written out.
    pub host: String,
    pub port: u16,
    pub api_key: String,
}

impl Clone for DiscoveredHost {
    fn clone(&self) -> (r: Self)
        ensures
            r == *self,
    {
        DiscoveredHost {
            host: self.host.clone(),
            port: self.port,
            api_key: self.api_key.clone(),
        }
    }
}

impl DiscoveredHost {
    /// Whether both stand for the server at the same address.
    pub open spec fn same_address(&self, other: &DiscoveredHost) -> bool {
        self.host@ == other.host@ && self.port == other.port
    }
}

/// The name of the GPU set of a registered host.
pub open spec fn group_name(host: Seq<char>, port: u16) -> Seq<char> {
    "discovered-"@ + host + "-"@ + text::decimal(port as nat)
}

pub fn discovered_group_name(host: &str, port: u16) -> (r: String)
    ensures
        r@ == group_name(host@, port),
{
    let mut name: String = "discovered-".to_owned();
    name.append(host);
    name.append("-");
    name.append(decimal_text(port as u64).as_str());
    name
}

/// The hosts to remember once `host` has registered: it takes the place of what
/// was remembered under its address.
pub open spec fn with_host(hosts: Seq<DiscoveredHost>, host: DiscoveredHost) -> Seq<
    DiscoveredHost,
> {
    hosts.filter(|h: DiscoveredHost| !h.same_address(&host)).push(host)
}

pub fn remember_host(hosts: &Vec<DiscoveredHost>, host: &DiscoveredHost) -> (r: Vec<
    DiscoveredHost,
>)
    ensures
        r@ == with_host(hosts@, *host),
{
    let ghost keep = |h: DiscoveredHost| !h.same_address(host);
    let mut kept: Vec<DiscoveredHost> = Vec::new();
    let mut i: usize = 0;
    while i < hosts.len()
        invariant
            i <= hosts@.len(),
            keep == (|h: DiscoveredHost| !h.same_address(host)),
            kept@ == hosts@.take(i as int).filter(keep),
        decreases hosts@.len() - i,
    {
        proof {
            reveal(Seq::filter);
            assert(hosts@.take(i + 1).drop_last() =~= hosts@.take(i as int));
        }
        if hosts[i].host != host.host || hosts[i].port != host.port {
            kept.push(hosts[i].clone());
        }
        i = i + 1;
    }
    proof {
        assert(hosts@.take(i as int) =~= hosts@);
    }
    kept.push(host.clone());
    kept
}

/// Which HTTP client talks to a set's servers.
#[derive(Debug, Clone, Copy, PartialEq, Eq, Structural)]
pub enum ClientKind {
    /// The one that checks certificates.
    Checking,
    /// The one for registered hosts, which accepts any certificate.
    AcceptingInvalidCerts,
}

pub struct AppState {
    pub api_tokens: Vec<String>,
    pub gpu_sets: Vec<Arc<GpuSet>>,
    pub model_map: ModelMap,
}

/// Whether `set` is what a group of the configuration becomes.
pub open spec fn configured_set(set: &GpuSet, group: &ServerGroup) -> bool {
    &&& set.name@ == group.name@
    &&& set.servers@ == group.entries@
    &&& set.models_path@ == "/v1/models"@
    &&& gpu_set::permits(*set.semaphore) == gpu_set::SLOTS
    &&& gpu_set::started_at(set.next_server) == 0
    &&& !set.trust_invalid_tls
    &&& set.prefix() is None
}

/// Whether `set` is what a registered host becomes.
pub open spec fn registered_set(set: &GpuSet, host: &DiscoveredHost, base_url: Seq<char>) -> bool {
    &&& set.name@ == group_name(host.host@, host.port)
    &&& set.servers@.len() == 1
    &&& set.servers@[0].url_text() == base_url
    &&& set.servers@[0].token_text() == Some(host.api_key@)
    &&& set.models_path@ == "/models"@
    &&& gpu_set::permits(*set.semaphore) == gpu_set::SLOTS
    &&& gpu_set::started_at(set.next_server) == 0
    &&& set.trust_invalid_tls
    &&& set.prefix() == Some(host.host@)
}

/// The sets that do not go by `name`.
pub open spec fn sets_without(sets: Seq<Arc<GpuSet>>, name: Seq<char>) -> Seq<Arc<GpuSet>> {
    sets.filter(|set: Arc<GpuSet>| set.name@ != name)
}

/// Whether every set can serve requests.
pub open spec fn sets_wf(sets: Seq<Arc<GpuSet>>) -> bool {
    forall|i: int| 0 <= i < sets.len() ==> (#[trigger] sets[i]).wf()
}

/// Whether every set that a model was found on can serve requests.
pub open spec fn models_served(models: Seq<(Seq<char>, EntryView)>) -> bool {
    forall|i: int| 0 <= i < models.len() ==> sets_wf((#[trigger] models[i]).1.gpu_sets)
}

fn retain_others(sets: &Vec<Arc<GpuSet>>, name: &String) -> (r: Vec<Arc<GpuSet>>)
    ensures
        r@ == sets_without(sets@, name@),
{
    let ghost keep = |set: Arc<GpuSet>| set.name@ != name@;
    let mut kept: Vec<Arc<GpuSet>> = Vec::new();
    let mut i: usize = 0;
    while i < sets.len()
        invariant
            i <= sets@.len(),
            keep == (|set: Arc<GpuSet>| set.name@ != name@),
            kept@ == sets@.take(i as int).filter(keep),
        decreases sets@.len() - i,
    {
        proof {
            reveal(Seq::filter);
            assert(sets@.take(i + 1).drop_last() =~= sets@.take(i as int));
        }
        if sets[i].name != *name {
            kept.push(share(&sets[i]));
        }
        i = i + 1;
    }
    proof {
        assert(sets@.take(i as int) =~= sets@);
    }
    kept
}

impl AppState {
    /// Every set can serve requests and has a name of its own, and so can the sets
    /// that the models were found on, of which each model has at least one.
    pub open spec fn wf(&self) -> bool {
        &&& sets_wf(self.gpu_sets@)
        &&& gpu_set::names_distinct(self.gpu_sets@)
        &&& self.model_map.wf()
        &&& models_served(self.model_map@)
    }

    /// The state that a configuration describes. No models are known yet.
    pub fn from_config(config: Config) -> (r: Self)
        ensures
            r.api_tokens@ == config.api_tokens@,
            r.gpu_sets@.len() == config.servers@.len(),
            forall|i: int|
                0 <= i < r.gpu_sets@.len() ==> configured_set(
                    &*(#[trigger] r.gpu_sets@[i]),
                    &config.servers@[i],
                ),
            r.model_map@ == Seq::<(Seq<char>, EntryView)>::empty(),
            config.usable() && config.names_distinct() ==> r.wf(),
    {
        let ghost groups = config.servers@;
        let mut gpu_sets: Vec<Arc<GpuSet>> = Vec::new();
        for group in it: config.servers
            invariant
                it.seq() == groups,
                gpu_sets@.len() == it.index(),
                forall|i: int|
                    0 <= i < gpu_sets@.len() ==> configured_set(
                        &*(#[trigger] gpu_sets@[i]),
                        &groups[i],
                    ),
        {
            let set: GpuSet = GpuSet::new(
                group.name,
                group.entries,
                "/v1/models".to_owned(),
                false,
                None,
            );
            gpu_sets.push(Arc::new(set));
        }
        AppState { api_tokens: config.api_tokens, gpu_sets, model_map: ModelMap::new() }
    }

    /// Takes over the models that the sets reported.
    pub fn discover_models(&mut self, reports: &Vec<Report>)
        ensures
            final(self).model_map@ == models::with_reports(reports@),
            final(self).model_map.wf(),
            final(self).api_tokens == old(self).api_tokens,
            final(self).gpu_sets == old(self).gpu_sets,
            old(self).wf() && (forall|k: int|
                0 <= k < reports@.len() ==> (#[trigger] reports@[k]).gpu_set.wf())
                ==> final(self).wf(),
    {
        self.model_map = ModelMap::from_reports(reports);
        proof {
            let found = self.model_map@;
            if forall|k: int| 0 <= k < reports@.len() ==> (#[trigger] reports@[k]).gpu_set.wf() {
                assert forall|i: int| 0 <= i < found.len() implies sets_wf(
                    (#[trigger] found[i]).1.gpu_sets,
                ) by {
                    assert forall|j: int| 0 <= j < found[i].1.gpu_sets.len() implies (
                    #[trigger] found[i].1.gpu_sets[j]).wf() by {
                        model_laws::models_are_served_by_those_who_reported_them(reports@, i, j);
                    }
                }
            }
        }
    }

    /// Adds the server of a registered host, in place of what was there under its
    /// address.
    pub fn add_discovered_host(&mut self, host: DiscoveredHost, base_url: String)
        ensures
            final(self).gpu_sets@.len() > 0,
            final(self).gpu_sets@.drop_last() == sets_without(
                old(self).gpu_sets@,
                group_name(host.host@, host.port),
            ),
            registered_set(&*final(self).gpu_sets@.last(), &host, base_url@),
            final(self).api_tokens == old(self).api_tokens,
            final(self).model_map == old(self).model_map,
            old(self).wf() ==> final(self).wf(),
    {
        let name: String = discovered_group_name(host.host.as_str(), host.port);
        let mut gpu_sets: Vec<Arc<GpuSet>> = retain_others(&self.gpu_sets, &name);
        let ghost others = gpu_sets@;
        let mut servers: Vec<ServerEntry> = Vec::new();
        servers.push(ServerEntry::WithToken { url: base_url, token: host.api_key });
        let set: GpuSet = GpuSet::new(
            name,
            servers,
            "/models".to_owned(),
            true,
            Some(host.host),
        );
        gpu_sets.push(Arc::new(set));
        proof {
            assert(gpu_sets@.drop_last() =~= others);
            sets_without_keeps_order(self.gpu_sets@, name@);
        }
        self.gpu_sets = gpu_sets;
    }

    /// The client that talks to the servers of `gpu_set`.
    pub fn client_for(&self, gpu_set: &GpuSet) -> (r: ClientKind)
        ensures
            r == if gpu_set.trust_invalid_tls {
                ClientKind::AcceptingInvalidCerts
            } else {
                ClientKind::Checking
            },
    {
        if gpu_set.trust_invalid_tls {
            ClientKind::AcceptingInvalidCerts
        } else {
            ClientKind::Checking
        }
    }
}

proof fn sets_without_keeps_order(sets: Seq<Arc<GpuSet>>, name: Seq<char>)
    ensures
        sets_wf(sets) ==> sets_wf(sets_without(sets, name)),
        gpu_set::names_distinct(sets) ==> gpu_set::names_distinct(sets_without(sets, name)),
        forall|i: int|
            0 <= i < sets_without(sets, name).len() ==> {
                &&& (#[trigger] sets_without(sets, name)[i]).name@ != name
                &&& sets.contains(sets_without(sets, name)[i])
            },
    decreases sets.len(),
{
    reveal(Seq::filter);
    if sets.len() > 0 {
        let rest = sets.drop_last();
        let last = sets.last();
        sets_without_keeps_order(rest, name);
        let before = sets_without(rest, name);
        let after = sets_without(sets, name);
        assert(after =~= if last.name@ != name {
            before.push(last)
        } else {
            before
        });
        assert(sets_wf(sets) ==> sets_wf(rest)) by {
            if sets_wf(sets) {
                assert forall|i: int| 0 <= i < rest.len() implies (#[trigger] rest[i]).wf() by {
                    assert(sets[i].wf());
                }
            }
        }
        assert(gpu_set::names_distinct(sets) ==> gpu_set::names_distinct(rest)) by {
            if gpu_set::names_distinct(sets) {
                assert forall|i: int, j: int|
                    0 <= i < j < rest.len() implies (#[trigger] rest[i]).name@ != (
                #[trigger] rest[j]).name@ by {
                    assert(sets[i].name@ != sets[j].name@);
                }
            }
        }
        assert forall|i: int| 0 <= i < after.len() implies {
            &&& (#[trigger] after[i]).name@ != name
            &&& sets.contains(after[i])
        } by {
            if i < before.len() {
                let k = choose|k: int| 0 <= k < rest.len() && rest[k] == before[i];
                assert(rest.contains(before[i]));
                assert(sets[k] == after[i]);
            } else {
                assert(sets[sets.len() - 1] == after[i]);
            }
        }
        if gpu_set::names_distinct(sets) {
            assert forall|i: int, j: int|
                0 <= i < j < after.len() implies (#[trigger] after[i]).name@ != (
            #[trigger] after[j]).name@ by {
                if j == before.len() {
                    assert(rest.contains(before[i]));
                    let k = choose|k: int| 0 <= k < rest.len() && rest[k] == before[i];
                    assert(sets[k].name@ != sets[sets.len() - 1].name@);
                } else {
                    assert(before[i].name@ != before[j].name@);
                }
            }
        }
        if sets_wf(sets) {
            assert(sets[sets.len() - 1].wf());
        }
    }
}

/// Whether no address is remembered twice.
pub open spec fn addresses_distinct(hosts: Seq<DiscoveredHost>) -> bool {
    forall|i: int, j: int|
        #![trigger hosts[i], hosts[j]]
        0 <= i < j < hosts.len() ==> !hosts[i].same_address(&hosts[j])
}

proof fn filtering_keeps_what_fits<A>(s: Seq<A>, fits: spec_fn(A) -> bool)
    ensures
        forall|i: int| 0 <= i < s.filter(fits).len() ==> fits(#[trigger] s.filter(fits)[i]),
        forall|x: A| #[trigger]
            s.filter(fits).contains(x) <==> s.contains(x) && fits(x),
    decreases s.len(),
{
    reveal(Seq::filter);
    if s.len() > 0 {
        let rest = s.drop_last();
        filtering_keeps_what_fits(rest, fits);
        let before = rest.filter(fits);
        let after = s.filter(fits);
        assert forall|x: A| #[trigger] after.contains(x) <==> s.contains(x) && fits(x) by {
            if after.contains(x) {
                let i = choose|i: int| 0 <= i < after.len() && after[i] == x;
                if i < before.len() {
                    assert(before[i] == x);
                    assert(before.contains(x));
                    let k = choose|k: int| 0 <= k < rest.len() && rest[k] == x;
                    assert(s[k] == x);
                } else {
                    assert(s[s.len() - 1] == x);
                }
            }
            if s.contains(x) && fits(x) {
                let k = choose|k: int| 0 <= k < s.len() && s[k] == x;
                if k < rest.len() {
                    assert(rest[k] == x);
                    assert(before.contains(x));
                    let i = choose|i: int| 0 <= i < before.len() && before[i] == x;
                    assert(after[i] == x);
                } else {
                    assert(after[after.len() - 1] == x);
                }
            }
        }
    }
}

proof fn filtering_twice_is_filtering<A>(s: Seq<A>, fits: spec_fn(A) -> bool)
    ensures
        s.filter(fits).filter(fits) == s.filter(fits),
    decreases s.len(),
{
    reveal(Seq::filter);
    if s.len() > 0 {
        filtering_twice_is_filtering(s.drop_last(), fits);
        if fits(s.last()) {
            let before = s.drop_last().filter(fits);
            assert(before.push(s.last()).drop_last() =~= before);
        }
    }
}

proof fn filtering_keeps_distinct(hosts: Seq<DiscoveredHost>, fits: spec_fn(DiscoveredHost) -> bool)
    requires
        addresses_distinct(hosts),
    ensures
        addresses_distinct(hosts.filter(fits)),
    decreases hosts.len(),
{
    reveal(Seq::filter);
    if hosts.len() > 0 {
        let rest = hosts.drop_last();
        assert forall|i: int, j: int|
            #![trigger rest[i], rest[j]]
            0 <= i < j < rest.len() implies !rest[i].same_address(&rest[j]) by {
            assert(!hosts[i].same_address(&hosts[j]));
        }
        filtering_keeps_distinct(rest, fits);
        filtering_keeps_what_fits(rest, fits);
        let before = rest.filter(fits);
        let after = hosts.filter(fits);
        assert forall|i: int, j: int|
            #![trigger after[i], after[j]]
            0 <= i < j < after.len() implies !after[i].same_address(&after[j]) by {
            if j == before.len() {
                assert(before.contains(before[i]));
                let k = choose|k: int| 0 <= k < rest.len() && rest[k] == before[i];
                assert(!hosts[k].same_address(&hosts[hosts.len() - 1]));
            } else {
                assert(!before[i].same_address(&before[j]));
            }
        }
    }
}

/// A host that registers is remembered as it registered last, once, and the other
/// hosts stay remembered.
pub proof fn a_registered_host_is_remembered_once(hosts: Seq<DiscoveredHost>, host: DiscoveredHost)
    ensures
        with_host(hosts, host).last() == host,
        forall|i: int|
            0 <= i < with_host(hosts, host).len() - 1 ==> !(#[trigger] with_host(
                hosts,
                host,
            )[i]).same_address(&host),
        forall|other: DiscoveredHost|
            hosts.contains(other) && !other.same_address(&host) ==> #[trigger] with_host(
                hosts,
                host,
            ).contains(other),
        addresses_distinct(hosts) ==> addresses_distinct(with_host(hosts, host)),
{
    let keep = |h: DiscoveredHost| !h.same_address(&host);
    let kept = hosts.filter(keep);
    let all = with_host(hosts, host);
    filtering_keeps_what_fits(hosts, keep);
    assert forall|i: int| 0 <= i < all.len() - 1 implies !(#[trigger] all[i]).same_address(
        &host,
    ) by {
        assert(keep(kept[i]));
    }
    assert forall|other: DiscoveredHost|
        hosts.contains(other) && !other.same_address(&host) implies #[trigger] all.contains(
        other,
    ) by {
        assert(kept.contains(other));
        let i = choose|i: int| 0 <= i < kept.len() && kept[i] == other;
        assert(all[i] == other);
    }
    if addresses_distinct(hosts) {
        filtering_keeps_distinct(hosts, keep);
        assert forall|i: int, j: int|
            #![trigger all[i], all[j]]
            0 <= i < j < all.len() implies !all[i].same_address(&all[j]) by {
            if j == kept.len() {
                assert(!all[i].same_address(&host));
            } else {
                assert(!kept[i].same_address(&kept[j]));
            }
        }
    }
}

/// Registering again under the same address leaves no trace of the time before.
pub proof fn registering_again_replaces(
    hosts: Seq<DiscoveredHost>,
    first: DiscoveredHost,
    again: DiscoveredHost,
)
    requires
        first.same_address(&again),
    ensures
        with_host(with_host(hosts, first), again) == with_host(hosts, again),
{
    let keep = |h: DiscoveredHost| !h.same_address(&again);
    let keep_first = |h: DiscoveredHost| !h.same_address(&first);
    assert(keep =~= keep_first);
    let kept = hosts.filter(keep);
    filtering_twice_is_filtering(hosts, keep);
    reveal(Seq::filter);
    assert(kept.push(first).drop_last() =~= kept);
    assert(kept.push(first).filter(keep) == kept.filter(keep));
}

/// A host that registers again has one GPU set, the one that it has from
/// registering last: the sets besides it are those that were there besides its
/// first.
pub proof fn a_registered_host_has_one_set(sets: Seq<Arc<GpuSet>>, set: Arc<GpuSet>)
    ensures
        sets_without(sets_without(sets, set.name@).push(set), set.name@) == sets_without(
            sets,
            set.name@,
        ),
{
    let keep = |s: Arc<GpuSet>| s.name@ != set.name@;
    let kept = sets.filter(keep);
    filtering_twice_is_filtering(sets, keep);
    reveal(Seq::filter);
    assert(kept.push(set).drop_last() =~= kept);
}

/// Two hosts go by the same name only if they are at the same address, so that a
/// host that registers never takes the place of one at another address.
pub proof fn addresses_have_names_of_their_own(
    host: Seq<char>,
    port: u16,
    other: Seq<char>,
    other_port: u16,
)
    ensures
        group_name(host, port) == group_name(other, other_port) <==> host == other && port
            == other_port,
{
    reveal_strlit("-");
    reveal_strlit("discovered-");
    let a = text::decimal(port as nat);
    let b = text::decimal(other_port as nat);
    let name = group_name(host, port);
    let other_name = group_name(other, other_port);
    text::decimal_is_faithful(port as nat, other_port as nat);
    text::decimal_is_faithful(other_port as nat, port as nat);
    if name == other_name {
        let n = name.len() as int;
        if a.len() < b.len() {
            assert(name[n - a.len() - 1] == '-');
            assert(other_name[n - a.len() - 1] == b[b.len() - a.len() - 1]);
        } else if b.len() < a.len() {
            assert(other_name[n - b.len() - 1] == '-');
            assert(name[n - b.len() - 1] == a[a.len() - b.len() - 1]);
        }
        assert(a =~= name.skip(n - a.len()));
        assert(b =~= other_name.skip(n - b.len()));
        let start = "discovered-"@.len() as int;
        assert(host =~= name.subrange(start, n - a.len() - 1));
        assert(other =~= other_name.subrange(start, n - b.len() - 1));
    }
}

/// A set of the configuration has the group's name and all of its servers, in their
/// order, is asked for its models the OpenAI way, works on one request at a time and
/// starts with its first server; its certificates are checked, and its models go by
/// their own ids.
pub proof fn configured_sets_are_as_configured(set: GpuSet, group: ServerGroup)
    requires
        configured_set(&set, &group),
    ensures
        set.name@ == group.name@,
        set.servers@ == group.entries@,
        set.models_path@ == "/v1/models"@,
        gpu_set::permits(*set.semaphore) == 1,
        gpu_set::started_at(set.next_server) == 0,
        !set.trust_invalid_tls,
        set.model_prefix is None,
{
}

/// The set of a registered host has one server, at the URL under which the host
/// answered and with the host's key, works on one request at a time, and exposes its
/// models under the host's address.
pub proof fn registered_sets_are_as_registered(
    set: GpuSet,
    host: DiscoveredHost,
    base_url: Seq<char>,
)
    requires
        registered_set(&set, &host, base_url),
    ensures
        set.name@ == "discovered-"@ + host.host@ + "-"@ + text::decimal(host.port as nat),
        set.servers@.len() == 1,
        set.servers@[0].url_text() == base_url,
        set.servers@[0].token_text() == Some(host.api_key@),
        set.models_path@ == "/models"@,
        gpu_set::permits(*set.semaphore) == 1,
        gpu_set::started_at(set.next_server) == 0,
        set.trust_invalid_tls,
        set.model_prefix matches Some(prefix) && prefix@ == host.host@,
{
}

/// Of the hosts remembered so far, registering forgets exactly those with both the
/// address and the port of the host that registers; the others stay in their order,
/// and the new one comes last.
pub proof fn registering_forgets_only_the_same_address(
    hosts: Seq<DiscoveredHost>,
    other: DiscoveredHost,
    host: DiscoveredHost,
)
    ensures
        with_host(seq![], host) == seq![host],
        with_host(hosts.push(other), host) == if other.host@ == host.host@ && other.port
            == host.port {
            with_host(hosts, host)
        } else {
            with_host(hosts, host).drop_last().push(other).push(host)
        },
        with_host(hosts, host).len() > 0,
        with_host(hosts, host).last() == host,
{
    reveal(Seq::filter);
    let keep = |h: DiscoveredHost| !h.same_address(&host);
    assert(hosts.push(other).drop_last() =~= hosts);
    assert(Seq::<DiscoveredHost>::empty().filter(keep) =~= seq![]);
    assert(with_host(seq![], host) =~= seq![host]);
    assert(with_host(hosts, host).drop_last() =~= hosts.filter(keep));
}

/// Of the sets, registering removes exactly those of the host's name; the others stay in
/// their order.
pub proof fn registering_keeps_the_other_sets(
    sets: Seq<Arc<GpuSet>>,
    set: Arc<GpuSet>,
    name: Seq<char>,
)
    ensures
        sets_without(seq![], name).len() == 0,
        sets_without(sets.push(set), name) == if set.name@ == name {
            sets_without(sets, name)
        } else {
            sets_without(sets, name).push(set)
        },
{
    reveal(Seq::filter);
    assert(sets.push(set).drop_last() =~= sets);
}

} // verus!
