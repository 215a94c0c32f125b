//! Choosing a server for a request and passing messages on.

use std::sync::atomic::AtomicUsize;
use std::sync::atomic::Ordering;
use std::sync::Arc;
use vstd::prelude::*;

use crate::config::ServerEntry;
use crate::error::ErrorView;
use crate::error::ProxyError;
use crate::gpu_set::share;
use crate::gpu_set::GpuSet;
use crate::models;
use crate::state;
use crate::state::AppState;
use crate::text;
use crate::text::joined;
use crate::text::same_text;
use crate::text::trim_end_slashes;

verus! {

fn share_all(gpu_sets: &Vec<Arc<GpuSet>>) -> (r: Vec<Arc<GpuSet>>)
    ensures
        r@ == gpu_sets@,
{
    let mut shared: Vec<Arc<GpuSet>> = Vec::new();
    let mut i: usize = 0;
    while i < gpu_sets.len()
        invariant
            i <= gpu_sets@.len(),
            shared@ =~= gpu_sets@.take(i as int),
        decreases gpu_sets@.len() - i,
    {
        shared.push(share(&gpu_sets[i]));
        i = i + 1;
    }
    shared
}

/// What a client is told who asks for a model that no backend serves.
pub open spec fn model_not_found(model: Seq<char>) -> ErrorView {
    ErrorView::BadRequest("model not found: "@ + model)
}

/// The GPU sets that serve `model`. A request for it goes to whichever of them
/// is the first to have a slot free.
pub fn candidate_gpu_sets(state: &AppState, model: &str) -> (r: Result<
    Vec<Arc<GpuSet>>,
    ProxyError,
>)
    ensures
        match models::lookup(state.model_map@, model@) {
            Some(entry) => r matches Ok(sets) && sets@ == entry.gpu_sets,
            None => r matches Err(e) && e@ == model_not_found(model@),
        },
        state.wf() ==> (r matches Ok(sets) ==> sets@.len() > 0 && state::sets_wf(sets@)),
{
    proof {
        models::position_is_first(state.model_map@, model@);
    }
    match state.model_map.get(model) {
        Some(entry) => Ok(share_all(&entry.gpu_sets)),
        None => Err(ProxyError::BadRequest(joined("model not found: ", model))),
    }
}

/// Which of `count` servers serves at the given turn.
pub open spec fn server_index(turn: usize, count: nat) -> int {
    turn as int % count as int
}

/// The server of the set that serves at the given turn.
pub fn server_for_turn(gpu_set: &GpuSet, turn: usize) -> (r: &ServerEntry)
    requires
        gpu_set.servers@.len() > 0,
    ensures
        *r == gpu_set.servers@[server_index(turn, gpu_set.servers@.len())],
        *r == gpu_set.servers@[turn as int % gpu_set.servers@.len() as int],
{
    &gpu_set.servers[turn % gpu_set.servers.len()]
}

/// The server that is next in turn. The turn is what adding one to the set's counter
/// gave back, so it is up to how many requests drew one before, on any thread.
pub fn pick_server(gpu_set: &GpuSet) -> (r: &ServerEntry)
    requires
        gpu_set.servers@.len() > 0,
    ensures
        exists|turn: usize|
            *r == gpu_set.servers@[#[trigger] server_index(turn, gpu_set.servers@.len())],
        exists|turn: usize|
            #[trigger] call_ensures(
                AtomicUsize::fetch_add,
                (&gpu_set.next_server, 1usize, Ordering::Relaxed),
                turn,
            ) && *r == gpu_set.servers@[server_index(turn, gpu_set.servers@.len())],
{
    let turn: usize = gpu_set.next_server.fetch_add(1, Ordering::Relaxed);
    server_for_turn(gpu_set, turn)
}

#[derive(Debug, Clone, Copy, PartialEq, Eq, Structural)]
pub enum Method {
    Get,
    Post,
}

/// A request to a backend, without its body.
pub struct OutgoingRequest {
    pub method: Method,
    pub url: String,
    /// The token to authenticate with.
    pub bearer: Option<String>,
    pub content_type: Option<String>,
}

/// A request to a backend as contracts see it.
pub struct OutgoingView {
    pub method: Method,
    pub url: Seq<char>,
    pub bearer: Option<Seq<char>>,
    pub content_type: Option<Seq<char>>,
}

impl View for OutgoingRequest {
    type V = OutgoingView;

    open spec fn view(&self) -> OutgoingView {
        OutgoingView {
            method: self.method,
            url: self.url@,
            bearer: text::opt_text(self.bearer),
            content_type: text::opt_text(self.content_type),
        }
    }
}

/// The URL of `path` on a server: slashes at the end of the server's own URL do
/// not count.
pub open spec fn backend_url(base: Seq<char>, path: Seq<char>) -> Seq<char> {
    text::without_end_slashes(base) + path
}

fn token_of(server: &ServerEntry) -> (r: Option<String>)
    ensures
        text::opt_text(r) == server.token_text(),
{
    match server.token() {
        Some(token) => Some(token.to_owned()),
        None => None,
    }
}

/// The request that fetches `path_and_query` from a server.
pub fn forward_get(server: &ServerEntry, path_and_query: &str) -> (r: OutgoingRequest)
    ensures
        r@ == (OutgoingView {
            method: Method::Get,
            url: backend_url(server.url_text(), path_and_query@),
            bearer: server.token_text(),
            content_type: None,
        }),
{
    OutgoingRequest {
        method: Method::Get,
        url: joined(trim_end_slashes(server.url()).as_str(), path_and_query),
        bearer: token_of(server),
        content_type: None,
    }
}

/// The request that passes a client's body on to `path` of a server.
pub fn forward_request(server: &ServerEntry, path: &str) -> (r: OutgoingRequest)
    ensures
        r@ == (OutgoingView {
            method: Method::Post,
            url: backend_url(server.url_text(), path@),
            bearer: server.token_text(),
            content_type: Some("application/json"@),
        }),
{
    OutgoingRequest {
        method: Method::Post,
        url: joined(trim_end_slashes(server.url()).as_str(), path),
        bearer: token_of(server),
        content_type: Some("application/json".to_owned()),
    }
}

/// The request that asks the server at `index` of a set for its models.
pub open spec fn models_query(gpu_set: &GpuSet, index: int) -> OutgoingView {
    OutgoingView {
        method: Method::Get,
        url: backend_url(gpu_set.servers@[index].url_text(), gpu_set.models_path@),
        bearer: gpu_set.servers@[index].token_text(),
        content_type: None,
    }
}

/// A request that asks a server for its models.
pub struct ModelsQuery {
    /// The set that the server belongs to.
    pub gpu_set: Arc<GpuSet>,
    pub request: OutgoingRequest,
}

impl View for ModelsQuery {
    type V = (Arc<GpuSet>, OutgoingView);

    open spec fn view(&self) -> (Arc<GpuSet>, OutgoingView) {
        (self.gpu_set, self.request@)
    }
}

/// The requests that ask the servers of a set, one for each.
pub open spec fn set_queries(gpu_set: Arc<GpuSet>) -> Seq<(Arc<GpuSet>, OutgoingView)> {
    Seq::new(gpu_set.servers@.len(), |i: int| (gpu_set, models_query(&*gpu_set, i)))
}

/// The requests that ask the servers of all sets, set by set.
pub open spec fn all_queries(gpu_sets: Seq<Arc<GpuSet>>) -> Seq<(Arc<GpuSet>, OutgoingView)>
    decreases gpu_sets.len(),
{
    if gpu_sets.len() == 0 {
        seq![]
    } else {
        all_queries(gpu_sets.drop_last()) + set_queries(gpu_sets.last())
    }
}

/// The requests that it takes to learn of every model: one for each backend.
pub fn models_queries(gpu_sets: &Vec<Arc<GpuSet>>) -> (r: Vec<ModelsQuery>)
    ensures
        r@.map_values(|q: ModelsQuery| q@) == all_queries(gpu_sets@),
{
    let ghost seen = |q: ModelsQuery| q@;
    let mut queries: Vec<ModelsQuery> = Vec::new();
    let mut i: usize = 0;
    proof {
        assert(queries@.map_values(seen) =~= all_queries(gpu_sets@.take(0)));
    }
    while i < gpu_sets.len()
        invariant
            i <= gpu_sets@.len(),
            seen == (|q: ModelsQuery| q@),
            queries@.map_values(seen) == all_queries(gpu_sets@.take(i as int)),
        decreases gpu_sets@.len() - i,
    {
        let ghost set = gpu_sets@[i as int];
        let ghost before = all_queries(gpu_sets@.take(i as int));
        let mut j: usize = 0;
        proof {
            assert(set_queries(set).take(0) =~= seq![]);
            assert(before + set_queries(set).take(0) =~= before);
        }
        while j < gpu_sets[i].servers.len()
            invariant
                i < gpu_sets@.len(),
                set == gpu_sets@[i as int],
                j <= set.servers@.len(),
                seen == (|q: ModelsQuery| q@),
                queries@.map_values(seen) == before + set_queries(set).take(j as int),
            decreases set.servers@.len() - j,
        {
            let ghost earlier = queries@;
            let query = ModelsQuery {
                gpu_set: share(&gpu_sets[i]),
                request: forward_get(
                    &gpu_sets[i].servers[j],
                    gpu_sets[i].models_path.as_str(),
                ),
            };
            queries.push(query);
            proof {
                assert(query@ == set_queries(set)[j as int]);
                assert(queries@.map_values(seen) =~= earlier.map_values(seen).push(query@));
                assert(set_queries(set).take(j + 1) =~= set_queries(set).take(j as int).push(
                    query@,
                ));
                assert(before + set_queries(set).take(j + 1) =~= (before + set_queries(set).take(
                    j as int,
                )).push(query@));
            }
            j = j + 1;
        }
        proof {
            assert(set_queries(set).take(j as int) =~= set_queries(set));
            assert(gpu_sets@.take(i + 1).drop_last() =~= gpu_sets@.take(i as int));
        }
        i = i + 1;
    }
    proof {
        assert(gpu_sets@.take(i as int) =~= gpu_sets@);
    }
    queries
}

/// Every server of every set is asked for its models.
pub proof fn every_backend_is_asked(gpu_sets: Seq<Arc<GpuSet>>, i: int, j: int) -> (k: int)
    requires
        0 <= i < gpu_sets.len(),
        0 <= j < gpu_sets[i].servers@.len(),
    ensures
        0 <= k < all_queries(gpu_sets).len(),
        all_queries(gpu_sets)[k] == (gpu_sets[i], models_query(&*gpu_sets[i], j)),
    decreases gpu_sets.len(),
{
    let rest = gpu_sets.drop_last();
    if i == gpu_sets.len() - 1 {
        all_queries(rest).len() + j
    } else {
        every_backend_is_asked(rest, i, j)
    }
}

/// Only servers of the sets are asked, each for its own set.
pub proof fn only_backends_are_asked(gpu_sets: Seq<Arc<GpuSet>>, k: int) -> (r: (int, int))
    requires
        0 <= k < all_queries(gpu_sets).len(),
    ensures
        0 <= r.0 < gpu_sets.len(),
        0 <= r.1 < gpu_sets[r.0].servers@.len(),
        all_queries(gpu_sets)[k] == (gpu_sets[r.0], models_query(&*gpu_sets[r.0], r.1)),
    decreases gpu_sets.len(),
{
    let rest = gpu_sets.drop_last();
    if k < all_queries(rest).len() {
        only_backends_are_asked(rest, k)
    } else {
        (gpu_sets.len() - 1, k - all_queries(rest).len())
    }
}

/// A header of a backend's response. Names are in lower case.
pub struct Header {
    pub name: String,
    pub value: Vec<u8>,
}

/// Whether a header of a backend's response is passed on to the client.
pub open spec fn relayed(h: Header) -> bool {
    h.name@ != "transfer-encoding"@
}

/// The headers of a backend's response that are passed on to the client: all but
/// `transfer-encoding`, which is between the proxy and the backend.
pub fn relayed_headers(headers: Vec<Header>) -> (r: Vec<Header>)
    ensures
        r@ == headers@.filter(|h: Header| relayed(h)),
{
    let ghost all = headers@;
    let ghost keep = |h: Header| relayed(h);
    let mut kept: Vec<Header> = Vec::new();
    proof {
        reveal(Seq::filter);
        assert(all.take(0) =~= Seq::<Header>::empty());
    }
    for header in it: headers
        invariant
            it.seq() == all,
            keep == (|h: Header| relayed(h)),
            kept@ == all.take(it.index()).filter(keep),
    {
        proof {
            reveal(Seq::filter);
            assert(all.take(it.index() + 1).drop_last() =~= all.take(it.index()));
            assert(all.take(it.index() + 1).last() == header);
        }
        if !same_text(header.name.as_str(), "transfer-encoding") {
            kept.push(header);
        }
    }
    proof {
        assert(all.take(all.len() as int) =~= all);
    }
    kept
}

/// The servers of a set take turns: each turn goes to the server after the one
/// that had the turn before, and after the last one to the first again.
pub proof fn turns_go_round(turn: usize, count: nat)
    requires
        count > 0,
        turn < usize::MAX,
    ensures
        server_index((turn + 1) as usize, count) == if server_index(turn, count) + 1 < count {
            server_index(turn, count) + 1
        } else {
            0
        },
{
    let t = turn as int;
    let n = count as int;
    vstd::arithmetic::div_mod::lemma_fundamental_div_mod(t, n);
    vstd::arithmetic::div_mod::lemma_mod_bound(t, n);
    if t % n + 1 < n {
        assert(t + 1 == t / n * n + (t % n + 1)) by (nonlinear_arith)
            requires
                t == n * (t / n) + t % n,
        ;
        vstd::arithmetic::div_mod::lemma_fundamental_div_mod_converse(t + 1, n, t / n, t % n + 1);
    } else {
        assert(t + 1 == (t / n + 1) * n + 0) by (nonlinear_arith)
            requires
                t == n * (t / n) + t % n,
                t % n + 1 == n,
        ;
        vstd::arithmetic::div_mod::lemma_fundamental_div_mod_converse(t + 1, n, t / n + 1, 0);
    }
}

/// In as many turns as a set has servers, every server has exactly one.
pub proof fn every_server_has_its_turn(first: usize, count: nat, server: int)
    requires
        first + count <= usize::MAX,
        0 <= server < count,
    ensures
        exists|k: int|
            0 <= k < count && #[trigger] server_index((first + k) as usize, count) == server,
        forall|j: int, k: int|
            0 <= j < k < count ==> #[trigger] server_index((first + j) as usize, count)
                != #[trigger] server_index((first + k) as usize, count),
{
    let n = count as int;
    let f = first as int;
    vstd::arithmetic::div_mod::lemma_mod_bound(f, n);
    vstd::arithmetic::div_mod::lemma_fundamental_div_mod(f, n);
    let k = if f % n <= server {
        server - f % n
    } else {
        server - f % n + n
    };
    if f % n <= server {
        assert(f + k == f / n * n + server) by (nonlinear_arith)
            requires
                f == n * (f / n) + f % n,
                k == server - f % n,
        ;
        vstd::arithmetic::div_mod::lemma_fundamental_div_mod_converse(f + k, n, f / n, server);
    } else {
        assert(f + k == (f / n + 1) * n + server) by (nonlinear_arith)
            requires
                f == n * (f / n) + f % n,
                k == server - f % n + n,
        ;
        vstd::arithmetic::div_mod::lemma_fundamental_div_mod_converse(f + k, n, f / n + 1, server);
    }
    assert(server_index((first + k) as usize, count) == server);
    assert forall|j: int, k: int| 0 <= j < k < count implies #[trigger] server_index(
        (first + j) as usize,
        count,
    ) != #[trigger] server_index((first + k) as usize, count) by {
        let a = f + j;
        let b = f + k;
        if a % n == b % n {
            vstd::arithmetic::div_mod::lemma_fundamental_div_mod(a, n);
            vstd::arithmetic::div_mod::lemma_fundamental_div_mod(b, n);
            assert(false) by (nonlinear_arith)
                requires
                    a == n * (a / n) + a % n,
                    b == n * (b / n) + b % n,
                    a % n == b % n,
                    0 < b - a < n,
            ;
        }
    }
}

/// Slashes at the end of a server's URL make no difference to where requests go:
/// there is none left ahead of the path.
pub proof fn end_slashes_make_no_difference(base: Seq<char>, path: Seq<char>)
    ensures
        backend_url(base.push('/'), path) == backend_url(base, path),
        text::without_end_slashes(base).len() > 0 ==> text::without_end_slashes(base).last() != '/',
        text::without_end_slashes(base).is_prefix_of(base),
    decreases base.len(),
{
    assert(base.push('/').drop_last() =~= base);
    if base.len() > 0 && base.last() == '/' {
        end_slashes_make_no_difference(base.drop_last(), path);
    }
}

/// Where a request goes is the server's URL without the slashes at its end, however
/// many there are, and then the whole path.
pub proof fn urls_are_base_and_path(base: Seq<char>, slashes: nat, path: Seq<char>)
    requires
        base.len() > 0 ==> base.last() != '/',
    ensures
        backend_url(base + Seq::new(slashes, |i: int| '/'), path) == base + path,
    decreases slashes,
{
    let tail = Seq::new(slashes, |i: int| '/');
    if slashes == 0 {
        assert(base + tail =~= base);
    } else {
        let shorter = Seq::new((slashes - 1) as nat, |i: int| '/');
        urls_are_base_and_path(base, (slashes - 1) as nat, path);
        assert(base + tail =~= (base + shorter).push('/'));
        end_slashes_make_no_difference(base + shorter, path);
    }
}

/// The path of a URL can be told from it, and so can the path's every extension: a
/// longer path makes the URL longer by just that much.
pub proof fn paths_are_kept_whole(base: Seq<char>, path: Seq<char>, more: Seq<char>)
    ensures
        backend_url(base, path + more) == backend_url(base, path) + more,
        path.is_suffix_of(backend_url(base, path)),
{
    assert(backend_url(base, path + more) =~= backend_url(base, path) + more);
}

/// What is seen of a request is all that there is to it.
pub proof fn requests_are_seen_whole(request: OutgoingRequest)
    ensures
        request@.method == request.method,
        request@.url == request.url@,
        request.bearer is None <==> request@.bearer is None,
        request.bearer matches Some(token) ==> request@.bearer == Some(token@),
        request.content_type is None <==> request@.content_type is None,
        request.content_type matches Some(kind) ==> request@.content_type == Some(kind@),
{
}

/// The first turn is the first server's: the servers of a new set, whose counter
/// starts there, have the first round of turns in their order.
pub proof fn the_first_round_is_in_order(turn: usize, count: nat)
    requires
        turn < count,
    ensures
        server_index(turn, count) == turn,
{
    vstd::arithmetic::div_mod::lemma_small_mod(turn as nat, count);
}

/// A round later it is the same server's turn again.
pub proof fn rounds_repeat(turn: usize, count: nat)
    requires
        count > 0,
        turn + count <= usize::MAX,
    ensures
        server_index((turn + count) as usize, count) == server_index(turn, count),
{
    vstd::arithmetic::div_mod::lemma_mod_add_multiples_vanish(turn as int, count as int);
}

/// One more set means as many more requests for models as it has servers, after the
/// others: each goes to the set's path for models on one of its servers, in their
/// order, with that server's token.
pub proof fn each_server_is_asked_once(gpu_sets: Seq<Arc<GpuSet>>, gpu_set: Arc<GpuSet>, j: int)
    ensures
        all_queries(seq![]).len() == 0,
        all_queries(gpu_sets.push(gpu_set)).len() == all_queries(gpu_sets).len()
            + gpu_set.servers@.len(),
        all_queries(gpu_sets.push(gpu_set)).take(all_queries(gpu_sets).len() as int)
            == all_queries(gpu_sets),
        0 <= j < gpu_set.servers@.len() ==> all_queries(gpu_sets.push(gpu_set))[all_queries(
            gpu_sets,
        ).len() + j] == (
            gpu_set,
            OutgoingView {
                method: Method::Get,
                url: backend_url(gpu_set.servers@[j].url_text(), gpu_set.models_path@),
                bearer: gpu_set.servers@[j].token_text(),
                content_type: None,
            },
        ),
{
    assert(gpu_sets.push(gpu_set).drop_last() =~= gpu_sets);
    assert(all_queries(gpu_sets.push(gpu_set)).take(all_queries(gpu_sets).len() as int)
        =~= all_queries(gpu_sets));
}

/// A header of a response is held back exactly if it is `transfer-encoding`; all
/// others reach the client, as often as they come and in their order.
pub proof fn only_transfer_encoding_is_held_back(headers: Seq<Header>, header: Header)
    ensures
        headers.push(header).filter(|h: Header| relayed(h)) == if header.name@
            == "transfer-encoding"@ {
            headers.filter(|h: Header| relayed(h))
        } else {
            headers.filter(|h: Header| relayed(h)).push(header)
        },
        Seq::<Header>::empty().filter(|h: Header| relayed(h)).len() == 0,
{
    reveal(Seq::filter);
    assert(headers.push(header).drop_last() =~= headers);
}

} // verus!
