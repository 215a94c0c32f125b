//! What each endpoint answers.

use serde_json::Value;
use std::sync::Arc;
use vstd::prelude::*;

use crate::error::ErrorView;
use crate::error::ProxyError;
use crate::gpu_set::share;
use crate::gpu_set::GpuSet;
use crate::json;
use crate::json::JsonView;
use crate::model_laws;
use crate::model_scan;
use crate::model_scan::ModelScanner;
use crate::model_scan::Verdict;
use crate::models;
use crate::models::EntryView;
use crate::models::ModelMap;
use crate::models::Report;
use crate::proxy;
use crate::proxy::candidate_gpu_sets;
use crate::query;
use crate::query::query_parameter;
use crate::query::replace_query_parameter;
use crate::scan_laws;
use crate::scan_laws::Member;
use crate::scan_laws::Unit;
use crate::state;
use crate::state::AppState;
use crate::text;
use crate::text::joined;
use crate::text::same_text;

verus! {

/// The model that a request body names, given what its bytes spell out.
pub open spec fn body_model(parsed: Result<JsonView, Seq<char>>) -> Result<Seq<char>, ErrorView> {
    match parsed {
        Ok(document) => match json::text_member(document, "model"@) {
            Some(model) => Ok(model),
            None => Err(ErrorView::BadRequest("missing \"model\" field"@)),
        },
        Err(e) => Err(ErrorView::BadRequest("invalid JSON: "@ + e)),
    }
}

/// Whether an outcome is the one that contracts describe.
pub open spec fn text_outcome(
    r: Result<String, ProxyError>,
    expected: Result<Seq<char>, ErrorView>,
) -> bool {
    match r {
        Ok(text) => expected == Ok::<Seq<char>, ErrorView>(text@),
        Err(e) => expected == Err::<Seq<char>, ErrorView>(e@),
    }
}

/// The model that a request names, once its body has been parsed.
pub fn model_of_document(parsed: Result<&Value, &String>) -> (r: Result<String, ProxyError>)
    ensures
        text_outcome(
            r,
            body_model(
                match parsed {
                    Ok(v) => Ok(json::json_of(*v)),
                    Err(e) => Err(e@),
                },
            ),
        ),
{
    match parsed {
        Ok(document) => match json::get_text(document, "model") {
            Some(model) => Ok(model.to_owned()),
            None => Err(ProxyError::BadRequest("missing \"model\" field".to_owned())),
        },
        Err(e) => Err(ProxyError::BadRequest(joined("invalid JSON: ", e.as_str()))),
    }
}

/// A request that is ready to be sent to a backend.
pub struct RoutedRequest {
    /// The sets that can serve it.
    pub gpu_sets: Vec<Arc<GpuSet>>,
    /// The body for the backend.
    pub body: Vec<u8>,
}

/// A routed request as contracts see it.
pub struct RoutedView {
    pub gpu_sets: Seq<Arc<GpuSet>>,
    pub body: Seq<u8>,
}

/// The body that a backend gets: the client's, with the backend's own id for the
/// model where that is not the id that the client gave.
pub open spec fn backend_body(
    body: Seq<u8>,
    document: JsonView,
    model: Seq<char>,
    backend_id: Seq<char>,
) -> Seq<u8> {
    if backend_id == model {
        body
    } else {
        json::json_print(json::with_member(document, "model"@, JsonView::Text(backend_id)))
    }
}

/// What becomes of a request with the given body, given what its bytes spell out.
pub open spec fn routed(
    models: Seq<(Seq<char>, EntryView)>,
    body: Seq<u8>,
    parsed: Result<JsonView, Seq<char>>,
) -> Result<RoutedView, ErrorView> {
    match body_model(parsed) {
        Ok(model) => match models::lookup(models, model) {
            Some(entry) => Ok(
                RoutedView {
                    gpu_sets: entry.gpu_sets,
                    body: backend_body(body, parsed->Ok_0, model, entry.backend_id),
                },
            ),
            None => Err(proxy::model_not_found(model)),
        },
        Err(e) => Err(e),
    }
}

/// Whether whoever reads the bytes as JSON finds the model `id` in them.
pub open spec fn asks_for(bytes: Seq<u8>, id: Seq<char>) -> bool {
    json::json_parse(bytes) matches Ok(document) ==> json::text_member(document, "model"@) == Some(
        id,
    )
}

/// Whether an outcome is the one that contracts describe.
pub open spec fn routed_outcome(
    r: Result<RoutedRequest, ProxyError>,
    expected: Result<RoutedView, ErrorView>,
) -> bool {
    match r {
        Ok(request) => expected matches Ok(view) && request.gpu_sets@ == view.gpu_sets
            && request.body@ == view.body,
        Err(e) => expected == Err::<RoutedView, ErrorView>(e@),
    }
}

/// Routes a request whose whole body is there and has been parsed.
pub fn route_document(
    state: &AppState,
    body: Vec<u8>,
    parsed: Result<Value, String>,
) -> (r: Result<RoutedRequest, ProxyError>)
    ensures
        routed_outcome(
            r,
            routed(
                state.model_map@,
                body@,
                match parsed {
                    Ok(v) => Ok(json::json_of(v)),
                    Err(e) => Err(e@),
                },
            ),
        ),
        r matches Ok(request) ==> {
            &&& parsed matches Ok(document)
            &&& json::text_member(json::json_of(document), "model"@) matches Some(model)
            &&& models::lookup(state.model_map@, model) matches Some(entry)
            &&& entry.backend_id != model ==> asks_for(request.body@, entry.backend_id)
        },
        state.wf() ==> (r matches Ok(request) ==> request.gpu_sets@.len() > 0 && state::sets_wf(
            request.gpu_sets@,
        )),
{
    let model: String = match model_of_document(parsed.as_ref()) {
        Ok(model) => model,
        Err(e) => {
            return Err(e);
        },
    };
    match (state.model_map.get(model.as_str()), parsed) {
        (Some(entry), Ok(mut document)) => {
            let gpu_sets: Vec<Arc<GpuSet>> = match candidate_gpu_sets(state, model.as_str()) {
                Ok(gpu_sets) => gpu_sets,
                Err(e) => {
                    return Err(e);
                },
            };
            if same_text(entry.backend_id.as_str(), model.as_str()) {
                Ok(RoutedRequest { gpu_sets, body })
            } else {
                json::json_set(
                    &mut document,
                    "model",
                    json::json_text(entry.backend_id.clone()),
                );
                Ok(RoutedRequest { gpu_sets, body: json::print_json(&document) })
            }
        },
        _ => Err(ProxyError::BadRequest(joined("model not found: ", model.as_str()))),
    }
}

/// Routes a request whose whole body is there. What the backend gets asks for the
/// model by the backend's own id.
pub fn proxy_model_request(state: &AppState, body: Vec<u8>) -> (r: Result<
    RoutedRequest,
    ProxyError,
>)
    ensures
        routed_outcome(r, routed(state.model_map@, body@, json::json_parse(body@))),
        r matches Ok(request) ==> {
            &&& body_model(json::json_parse(body@)) matches Ok(model)
            &&& models::lookup(state.model_map@, model) matches Some(entry)
            &&& asks_for(request.body@, entry.backend_id)
        },
        state.wf() ==> (r matches Ok(request) ==> request.gpu_sets@.len() > 0 && state::sets_wf(
            request.gpu_sets@,
        )),
{
    let parsed: Result<Value, String> = json::parse_json(body.as_slice());
    route_document(state, body, parsed)
}

/// The sets to which a request for `model` can be passed on unchanged.
pub open spec fn streaming_sets(models: Seq<(Seq<char>, EntryView)>, model: Seq<char>) -> Option<
    Seq<Arc<GpuSet>>,
> {
    match models::lookup(models, model) {
        Some(entry) => if entry.backend_id == model {
            Some(entry.gpu_sets)
        } else {
            None
        },
        None => None,
    }
}

/// The sets to which a request can be passed on as it comes in, before its whole
/// body is there, given the model that the scanner found in it. There are none
/// where the whole body has to decide: where the scanner, which takes a name byte
/// by byte, came upon one that is not known, and where the backend knows the model
/// by another id, so that the body has to be rewritten first.
pub fn streaming_gpu_sets(state: &AppState, model: &str) -> (r: Option<Vec<Arc<GpuSet>>>)
    ensures
        match r {
            Some(sets) => streaming_sets(state.model_map@, model@) == Some(sets@),
            None => streaming_sets(state.model_map@, model@) is None,
        },
        state.wf() ==> (r matches Some(sets) ==> sets@.len() > 0 && state::sets_wf(sets@)),
{
    match state.model_map.get(model) {
        Some(entry) => {
            if same_text(entry.backend_id.as_str(), model) {
                match candidate_gpu_sets(state, model) {
                    Ok(gpu_sets) => Some(gpu_sets),
                    Err(_) => None,
                }
            } else {
                None
            }
        },
        None => None,
    }
}

/// A request body that is coming in, and is looked through for its model on the
/// way.
pub struct IncomingBody {
    scanner: ModelScanner,
    received: Vec<u8>,
    /// Whether the scanner has not come to a verdict yet.
    scanning: bool,
}

impl View for IncomingBody {
    type V = Seq<u8>;

    /// The bytes that have come in.
    closed spec fn view(&self) -> Seq<u8> {
        self.received@
    }
}

/// The model name that the scanner comes upon in the last part of `after`, which
/// is `before` with more bytes.
pub open spec fn newly_found(before: Seq<u8>, after: Seq<u8>) -> Option<Seq<char>> {
    match (
        model_scan::run(model_scan::fresh(), before).1,
        model_scan::run(model_scan::fresh(), after).1,
    ) {
        (Verdict::More, Verdict::Found(model)) => Some(model),
        _ => None,
    }
}

impl IncomingBody {
    pub closed spec fn wf(&self) -> bool {
        let (scanner, verdict) = model_scan::run(model_scan::fresh(), self.received@);
        &&& self.scanner.wf()
        &&& self.scanner@ == scanner
        &&& self.scanning == (verdict is More)
        &&& scanner.depth <= self.received@.len()
    }

    pub fn new() -> (r: Self)
        ensures
            r.wf(),
            r@ == Seq::<u8>::empty(),
    {
        IncomingBody { scanner: ModelScanner::new(), received: Vec::new(), scanning: true }
    }

    /// Takes in the next chunk. Reports the model as soon as the scanner has found
    /// it; where it never does, the whole body has to decide.
    pub fn receive(&mut self, chunk: &[u8]) -> (r: Option<String>)
        requires
            old(self).wf(),
            old(self)@.len() + chunk@.len() <= usize::MAX,
        ensures
            final(self).wf(),
            final(self)@ == old(self)@ + chunk@,
            text::opt_text(r) == newly_found(old(self)@, old(self)@ + chunk@),
            match (
                model_scan::run(model_scan::fresh(), old(self)@).1,
                model_scan::run(model_scan::fresh(), old(self)@ + chunk@).1,
            ) {
                (Verdict::More, Verdict::Found(model)) => r matches Some(found) && found@ == model,
                _ => r is None,
            },
    {
        proof {
            scan_laws::chunks_may_be_cut_anywhere(
                model_scan::fresh(),
                self.received@,
                chunk@,
            );
        }
        let ghost before = self.received@;
        self.received.extend_from_slice(chunk);
        proof {
            assert(self.received@ =~= before + chunk@);
        }
        if !self.scanning {
            return None;
        }
        match self.scanner.feed(chunk) {
            Ok(None) => None,
            Ok(Some(model)) => {
                self.scanning = false;
                Some(model)
            },
            Err(_) => {
                self.scanning = false;
                None
            },
        }
    }

    /// How many bytes have come in.
    pub fn len(&self) -> (r: usize)
        ensures
            r == self@.len(),
    {
        self.received.len()
    }

    /// The bytes that have come in.
    pub fn into_received(self) -> (r: Vec<u8>)
        ensures
            r@ == self@,
    {
        self.received
    }
}

/// What the models are listed with to clients.
pub open spec fn infos(models: Seq<(Seq<char>, EntryView)>) -> Seq<JsonView> {
    models.map_values(|m: (Seq<char>, EntryView)| m.1.info)
}

/// The Ollama-style listings of the models that have one.
pub open spec fn listings(models: Seq<(Seq<char>, EntryView)>) -> Seq<JsonView>
    decreases models.len(),
{
    if models.len() == 0 {
        seq![]
    } else {
        match models.last().1.listing {
            Some(listing) => listings(models.drop_last()).push(listing),
            None => listings(models.drop_last()),
        }
    }
}

/// The document that lists the models: what the backends reported of them and,
/// where there are such, their Ollama-style listings.
pub open spec fn models_document(models: Seq<(Seq<char>, EntryView)>) -> JsonView {
    let list = Map::empty().insert("object"@, JsonView::Text("list"@)).insert(
        "data"@,
        JsonView::Array(infos(models)),
    );
    if listings(models).len() > 0 {
        JsonView::Object(list.insert("models"@, JsonView::Array(listings(models))))
    } else {
        JsonView::Object(list)
    }
}

pub fn list_models(map: &ModelMap) -> (r: Value)
    ensures
        json::json_of(r) == models_document(map@),
{
    let mut data: Vec<Value> = Vec::new();
    let mut shown: Vec<Value> = Vec::new();
    let mut i: usize = 0;
    while i < map.models.len()
        invariant
            i <= map.models@.len(),
            json::all_json(data@) =~= infos(map@.take(i as int)),
            json::all_json(shown@) =~= listings(map@.take(i as int)),
        decreases map.models@.len() - i,
    {
        let ghost data_before = data@;
        let ghost shown_before = shown@;
        proof {
            assert(map@.take(i + 1).drop_last() =~= map@.take(i as int));
            assert(map@.take(i + 1).last() == map@[i as int]);
            assert(map@[i as int].1 == map.models@[i as int].entry@);
        }
        let entry = &map.models[i].entry;
        let info: Value = entry.info.clone();
        data.push(info);
        proof {
            assert(json::all_json(data@) =~= json::all_json(data_before).push(json::json_of(info)));
            assert(infos(map@.take(i + 1)) =~= infos(map@.take(i as int)).push(
                map@[i as int].1.info,
            ));
        }
        if let Some(listing) = &entry.listing {
            let listing: Value = listing.clone();
            shown.push(listing);
            proof {
                assert(json::all_json(shown@) =~= json::all_json(shown_before).push(
                    json::json_of(listing),
                ));
            }
        }
        i = i + 1;
    }
    proof {
        assert(map@.take(i as int) =~= map@);
    }
    let any: bool = shown.len() > 0;
    let mut list: Value = json::json_object();
    json::json_set(&mut list, "object", json::json_text("list".to_owned()));
    json::json_set(&mut list, "data", json::json_array(data));
    if any {
        json::json_set(&mut list, "models", json::json_array(shown));
    }
    list
}

/// Liveness check. Clients like pi-llama-cpp use this (at the server root, not
/// under /v1) to decide whether the whole endpoint is worth talking to at all.
pub fn health() -> (r: Value)
    ensures
        json::json_of(r) == JsonView::Object(
            Map::empty().insert("status"@, JsonView::Text("ok"@)),
        ),
{
    let mut body: Value = json::json_object();
    json::json_set(&mut body, "status", json::json_text("ok".to_owned()));
    body
}

/// What to answer a request for `/props` with.
pub enum Props {
    /// This document, with status 200.
    Document(Value),
    /// What the set answers under this path.
    Forward { gpu_set: Arc<GpuSet>, path: String },
}

/// Matches llama.cpp's own shape for an unknown/unloaded model, which
/// pi-llama-cpp maps to its "unloaded" status.
pub open spec fn not_loaded() -> JsonView {
    JsonView::Object(
        Map::empty().insert(
            "error"@,
            JsonView::Object(
                Map::empty().insert("code"@, JsonView::Number(text::decimal(400))).insert(
                    "message"@,
                    JsonView::Text("model is not loaded"@),
                ).insert("type"@, JsonView::Text("not_found_error"@)),
            ),
        ),
    )
}

fn not_loaded_document() -> (r: Value)
    ensures
        json::json_of(r) == not_loaded(),
{
    let mut error: Value = json::json_object();
    json::json_set(&mut error, "code", json::json_number(400));
    json::json_set(&mut error, "message", json::json_text("model is not loaded".to_owned()));
    json::json_set(&mut error, "type", json::json_text("not_found_error".to_owned()));
    let mut body: Value = json::json_object();
    json::json_set(&mut body, "error", error);
    body
}

/// The path to ask a backend for, given the query of the client's request.
pub open spec fn props_path(query: Seq<char>) -> Seq<char> {
    if query.len() == 0 {
        "/props"@
    } else {
        "/props?"@ + query
    }
}

/// Mirrors llama.cpp's /props endpoint. Clients like pi-llama-cpp call this
/// both without a `model` query param (to detect single/router/legacy mode)
/// and with one (to read per-model status/capabilities), always at the
/// server root rather than under /v1. The backend is asked for the model by its
/// own id.
pub fn get_props(state: &AppState, query: &str) -> (r: Props)
    requires
        state.model_map.wf(),
        query::query_value(query@, "model"@) is None ==> state.gpu_sets@.len() > 0,
    ensures
        match query::query_value(query@, "model"@) {
            Some(model) => match models::lookup(state.model_map@, model) {
                Some(entry) => r matches Props::Forward { gpu_set, path } && gpu_set
                    == entry.gpu_sets[0] && path@ == props_path(
                    query::query_with(query@, "model"@, entry.backend_id),
                ),
                None => r matches Props::Document(body) && json::json_of(body) == not_loaded(),
            },
            None => r matches Props::Forward { gpu_set, path } && gpu_set == state.gpu_sets@[0]
                && path@ == props_path(query@),
        },
{
    match query_parameter(query, "model") {
        Some(model) => match state.model_map.get(model.as_str()) {
            Some(entry) => {
                proof {
                    models::position_is_first(state.model_map@, model@);
                }
                let own: String = replace_query_parameter(
                    query,
                    "model",
                    entry.backend_id.as_str(),
                );
                Props::Forward {
                    gpu_set: share(&entry.gpu_sets[0]),
                    path: props_path_text(own.as_str()),
                }
            },
            None => Props::Document(not_loaded_document()),
        },
        None => Props::Forward {
            gpu_set: share(&state.gpu_sets[0]),
            path: props_path_text(query),
        },
    }
}

fn props_path_text(query: &str) -> (r: String)
    ensures
        r@ == props_path(query@),
{
    if query.is_empty() {
        "/props".to_owned()
    } else {
        joined("/props?", query)
    }
}

/// A request for a model goes to the sets that the model was found on, and the
/// backend gets its own id for the model: the body is passed on as it is where
/// that is the id that the client gave, and with that one member replaced where
/// it is not. That id is the own id of the model on the first of the sets and on
/// every other that has the same prefix.
pub proof fn requests_carry_the_backends_own_id(
    reports: Seq<Report>,
    i: int,
    body: Seq<u8>,
    document: JsonView,
)
    requires
        0 <= i < models::with_reports(reports).len(),
        json::text_member(document, "model"@) == Some(models::with_reports(reports)[i].0),
    ensures
        ({
            let (id, entry) = models::with_reports(reports)[i];
            &&& routed(models::with_reports(reports), body, Ok(document)) == Ok::<
                RoutedView,
                ErrorView,
            >(
                RoutedView {
                    gpu_sets: entry.gpu_sets,
                    body: if entry.backend_id == id {
                        body
                    } else {
                        json::json_print(
                            json::with_member(
                                document,
                                "model"@,
                                JsonView::Text(entry.backend_id),
                            ),
                        )
                    },
                },
            )
            &&& entry.gpu_sets.len() > 0
            &&& id == models::exposed_id(entry.gpu_sets[0].prefix(), entry.backend_id)
            &&& forall|s: int|
                0 <= s < entry.gpu_sets.len() && (#[trigger] entry.gpu_sets[s]).prefix()
                    == entry.gpu_sets[0].prefix() ==> id == models::exposed_id(
                    entry.gpu_sets[s].prefix(),
                    entry.backend_id,
                ) && model_laws::reported_as(reports, entry.backend_id, entry.gpu_sets[s])
        }),
{
    let found = models::with_reports(reports);
    let (id, entry) = found[i];
    models::reports_make_wf_models(reports);
    model_laws::models_are_listed_as_reported(reports, i);
    models::position_is_first(found, id);
    let at = models::position(found, id) as int;
    if at < i {
        assert(found[at].0 != found[i].0);
    } else if i < at {
        assert(found[i].0 != id);
    }
    assert forall|s: int|
        0 <= s < entry.gpu_sets.len() && (#[trigger] entry.gpu_sets[s]).prefix()
            == entry.gpu_sets[0].prefix() implies id == models::exposed_id(
        entry.gpu_sets[s].prefix(),
        entry.backend_id,
    ) && model_laws::reported_as(reports, entry.backend_id, entry.gpu_sets[s]) by {
        model_laws::sets_of_one_prefix_share_the_backend_id(reports, i, s);
    }
}

/// Where no host has registered, every request is passed on byte for byte.
pub proof fn configured_backends_get_bodies_untouched(
    reports: Seq<Report>,
    body: Seq<u8>,
    parsed: Result<JsonView, Seq<char>>,
)
    requires
        forall|k: int| 0 <= k < reports.len() ==> (#[trigger] reports[k]).gpu_set.prefix() is None,
    ensures
        routed(models::with_reports(reports), body, parsed) matches Ok(request) ==> request.body
            == body,
{
    let found = models::with_reports(reports);
    if let Ok(model) = body_model(parsed) {
        models::position_is_first(found, model);
        let at = models::position(found, model) as int;
        if at < found.len() {
            requests_carry_the_backends_own_id(reports, at, body, parsed->Ok_0);
            model_laws::models_are_served_by_those_who_reported_them(reports, at, 0);
        }
    }
}

/// The models of a registered host go by its address and their own id, and a
/// request for one is rewritten to that id before the host gets to see it.
pub proof fn registered_hosts_get_their_own_ids(
    models: Seq<(Seq<char>, EntryView)>,
    host: Seq<char>,
    entry: EntryView,
    body: Seq<u8>,
    document: JsonView,
)
    requires
        models::lookup(models, host + "/"@ + entry.backend_id) == Some(entry),
        json::text_member(document, "model"@) == Some(host + "/"@ + entry.backend_id),
    ensures
        routed(models, body, Ok(document)) == Ok::<RoutedView, ErrorView>(
            RoutedView {
                gpu_sets: entry.gpu_sets,
                body: json::json_print(
                    json::with_member(document, "model"@, JsonView::Text(entry.backend_id)),
                ),
            },
        ),
{
    reveal_strlit("/");
    let id = host + "/"@ + entry.backend_id;
    assert(id.len() == host.len() + 1 + entry.backend_id.len());
}

/// A request for a model that no backend reported is refused as such.
pub proof fn unknown_models_are_refused(
    models: Seq<(Seq<char>, EntryView)>,
    body: Seq<u8>,
    document: JsonView,
    model: Seq<char>,
)
    requires
        json::text_member(document, "model"@) == Some(model),
        forall|i: int| 0 <= i < models.len() ==> (#[trigger] models[i]).0 != model,
    ensures
        routed(models, body, Ok(document)) == Err::<RoutedView, ErrorView>(
            ErrorView::BadRequest("model not found: "@ + model),
        ),
{
    models::position_is_first(models, model);
}

/// Once the scanner has found the model in a request body, the rest of the body
/// is not looked at: reading on reports nothing more.
pub proof fn a_model_is_found_once(body: Seq<u8>, next: Seq<u8>, later: Seq<u8>)
    requires
        newly_found(body, body + next) is Some,
    ensures
        newly_found(body + next, body + next + later) is None,
{
}

/// A request that is passed on as it comes in goes where it would go once its
/// whole body was there, and with the same bytes.
pub proof fn streaming_agrees_with_the_whole_body(
    models: Seq<(Seq<char>, EntryView)>,
    model: Seq<char>,
    body: Seq<u8>,
    document: JsonView,
)
    requires
        streaming_sets(models, model) is Some,
        json::text_member(document, "model"@) == Some(model),
    ensures
        routed(models, body, Ok(document)) == Ok::<RoutedView, ErrorView>(
            RoutedView { gpu_sets: streaming_sets(models, model)->Some_0, body },
        ),
{
}

/// Routing goes by the model alone: requests that name the same model go to the
/// same sets or are refused alike, whatever else is in them.
pub proof fn routing_goes_by_the_model_alone(
    models: Seq<(Seq<char>, EntryView)>,
    body: Seq<u8>,
    document: JsonView,
    other_body: Seq<u8>,
    other_document: JsonView,
)
    requires
        json::text_member(document, "model"@) == json::text_member(other_document, "model"@),
    ensures
        match (
            routed(models, body, Ok(document)),
            routed(models, other_body, Ok(other_document)),
        ) {
            (Ok(request), Ok(other)) => request.gpu_sets == other.gpu_sets,
            (Err(e), Err(other)) => e == other,
            _ => false,
        },
{
}

/// The list of models has every known model once, under the id that clients know
/// it by.
pub proof fn every_model_is_listed_once(reports: Seq<Report>)
    ensures
        infos(models::with_reports(reports)).len() == models::with_reports(reports).len(),
        forall|i: int|
            0 <= i < models::with_reports(reports).len() ==> json::text_member(
                #[trigger] infos(models::with_reports(reports))[i],
                "id"@,
            ) == Some(models::with_reports(reports)[i].0),
        forall|i: int, j: int|
            0 <= i < j < models::with_reports(reports).len() ==> (
            #[trigger] models::with_reports(reports)[i]).0 != (#[trigger] models::with_reports(
                reports,
            )[j]).0,
{
    let found = models::with_reports(reports);
    models::reports_make_wf_models(reports);
    assert forall|i: int| 0 <= i < found.len() implies json::text_member(
        #[trigger] infos(found)[i],
        "id"@,
    ) == Some(found[i].0) by {
        model_laws::models_are_listed_as_reported(reports, i);
    }
}

/// The ids in the list of models are exactly those under which some backend
/// reported a model: none is missing, and one that no backend reports any more is
/// gone.
pub proof fn listed_ids_are_those_reported(reports: Seq<Report>, id: Seq<char>)
    ensures
        (exists|i: int|
            0 <= i < infos(models::with_reports(reports)).len() && json::text_member(
                #[trigger] infos(models::with_reports(reports))[i],
                "id"@,
            ) == Some(id)) <==> (exists|gpu_set: Arc<GpuSet>| #[trigger]
            model_laws::reported_by(reports, id, gpu_set)),
{
    let found = models::with_reports(reports);
    every_model_is_listed_once(reports);
    if exists|i: int|
        0 <= i < infos(found).len() && json::text_member(#[trigger] infos(found)[i], "id"@)
            == Some(id) {
        let i = choose|i: int|
            0 <= i < infos(found).len() && json::text_member(#[trigger] infos(found)[i], "id"@)
                == Some(id);
        models::reports_make_wf_models(reports);
        assert(found[i].1.gpu_sets.len() > 0);
        model_laws::models_are_served_by_those_who_reported_them(reports, i, 0);
    }
    if exists|gpu_set: Arc<GpuSet>| #[trigger] model_laws::reported_by(reports, id, gpu_set) {
        let gpu_set = choose|gpu_set: Arc<GpuSet>| #[trigger]
            model_laws::reported_by(reports, id, gpu_set);
        model_laws::what_is_reported_is_known(reports, id, gpu_set);
        models::position_is_first(found, id);
        let at = models::position(found, id) as int;
        assert(json::text_member(infos(found)[at], "id"@) == Some(id));
    }
}

proof fn listings_come_from_entries(models: Seq<(Seq<char>, EntryView)>, n: int) -> (i: int)
    requires
        0 <= n < listings(models).len(),
    ensures
        0 <= i < models.len(),
        models[i].1.listing == Some(listings(models)[n]),
    decreases models.len(),
{
    let before = listings(models.drop_last());
    if n < before.len() {
        listings_come_from_entries(models.drop_last(), n)
    } else {
        models.len() - 1
    }
}

/// An Ollama-style listing names a known model by the id that clients know it by.
pub proof fn listings_name_known_models(reports: Seq<Report>, n: int)
    requires
        0 <= n < listings(models::with_reports(reports)).len(),
    ensures
        exists|i: int|
            0 <= i < models::with_reports(reports).len() && json::text_member(
                listings(models::with_reports(reports))[n],
                "model"@,
            ) == Some((#[trigger] models::with_reports(reports)[i]).0),
{
    let found = models::with_reports(reports);
    let i = listings_come_from_entries(found, n);
    let (id, entry) = found[i];
    model_laws::models_are_listed_as_reported(reports, i);
    let (k, j, model) = choose|k: int, j: int, model: JsonView| #[trigger]
        model_laws::described_by(reports, id, entry, k, j, model);
    let all = json::array_member(reports[k].document()->Some_0, "models"@)->Some_0;
    models::listing_of_is_listed(all, entry.backend_id);
}

/// What the scanner finds is what is reported, whole, and it is reported with the chunk
/// that settles it.
pub proof fn what_is_found_is_reported(before: Seq<u8>, after: Seq<u8>, model: Seq<char>)
    ensures
        newly_found(before, after) == Some(model) <==> model_scan::run(
            model_scan::fresh(),
            before,
        ).1 is More && model_scan::run(model_scan::fresh(), after).1 == Verdict::Found(model),
{
}

/// A body whose first top-level `"model"` is a string reports that string, whole, however
/// the body is cut: at the chunk with the string's closing quote, and at no other.
pub proof fn a_body_reports_its_model_in_any_chunks(
    lead: Seq<u8>,
    members: Seq<Member>,
    gap: Seq<u8>,
    key: Seq<Unit>,
    before_colon: Seq<u8>,
    after_colon: Seq<u8>,
    id: Seq<Unit>,
    rest: Seq<u8>,
    from: int,
    to: int,
)
    requires
        scan_laws::head_ok(lead, members),
        scan_laws::gap_ok(gap),
        scan_laws::units_ok(key),
        scan_laws::key_text(key) == "model"@,
        scan_laws::blank(before_colon),
        scan_laws::blank(after_colon),
        scan_laws::units_ok(id),
    ensures
        ({
            let open = scan_laws::body_head(lead, members) + scan_laws::key_bytes(
                gap,
                key,
                before_colon,
                after_colon,
            ) + seq![model_scan::QUOTE] + scan_laws::units_bytes(id);
            let body = open + seq![model_scan::QUOTE] + rest;
            0 <= from <= to <= body.len() ==> newly_found(body.take(from), body.take(to)) == if from
                <= open.len() < to {
                Some(scan_laws::model_text(id))
            } else {
                None
            }
        }),
{
    let open = scan_laws::body_head(lead, members) + scan_laws::key_bytes(
        gap,
        key,
        before_colon,
        after_colon,
    ) + seq![model_scan::QUOTE] + scan_laws::units_bytes(id);
    let body = open + seq![model_scan::QUOTE] + rest;
    if 0 <= from <= to <= body.len() {
        a_body_is_settled_by_its_closing_quote(
            lead,
            members,
            gap,
            key,
            before_colon,
            after_colon,
            id,
            rest,
            from,
        );
        a_body_is_settled_by_its_closing_quote(
            lead,
            members,
            gap,
            key,
            before_colon,
            after_colon,
            id,
            rest,
            to,
        );
    }
}

proof fn a_body_is_settled_by_its_closing_quote(
    lead: Seq<u8>,
    members: Seq<Member>,
    gap: Seq<u8>,
    key: Seq<Unit>,
    before_colon: Seq<u8>,
    after_colon: Seq<u8>,
    id: Seq<Unit>,
    rest: Seq<u8>,
    n: int,
)
    requires
        scan_laws::head_ok(lead, members),
        scan_laws::gap_ok(gap),
        scan_laws::units_ok(key),
        scan_laws::key_text(key) == "model"@,
        scan_laws::blank(before_colon),
        scan_laws::blank(after_colon),
        scan_laws::units_ok(id),
    ensures
        ({
            let open = scan_laws::body_head(lead, members) + scan_laws::key_bytes(
                gap,
                key,
                before_colon,
                after_colon,
            ) + seq![model_scan::QUOTE] + scan_laws::units_bytes(id);
            let body = open + seq![model_scan::QUOTE] + rest;
            0 <= n <= body.len() ==> model_scan::run(model_scan::fresh(), body.take(n)).1 == if n
                <= open.len() {
                Verdict::More
            } else {
                Verdict::Found(scan_laws::model_text(id))
            }
        }),
{
    let open = scan_laws::body_head(lead, members) + scan_laws::key_bytes(
        gap,
        key,
        before_colon,
        after_colon,
    ) + seq![model_scan::QUOTE] + scan_laws::units_bytes(id);
    let body = open + seq![model_scan::QUOTE] + rest;
    if 0 <= n <= body.len() {
        if n <= open.len() {
            scan_laws::top_level_model_is_found(
                lead,
                members,
                gap,
                key,
                before_colon,
                after_colon,
                id,
                rest,
            );
            assert(body.take(n) =~= open.take(n));
        } else {
            let some = rest.take(n - open.len() - 1);
            scan_laws::top_level_model_is_found(
                lead,
                members,
                gap,
                key,
                before_colon,
                after_colon,
                id,
                some,
            );
            assert(body.take(n) =~= open + seq![model_scan::QUOTE] + some);
        }
    }
}

/// The document that lists the models has, under `data`, what is to be shown of every
/// model, one for each and in their order, and it says that it is a list.
pub proof fn the_list_shows_every_model(models: Seq<(Seq<char>, EntryView)>, i: int)
    ensures
        json::text_member(models_document(models), "object"@) == Some("list"@),
        json::array_member(models_document(models), "data"@) matches Some(data) && {
            &&& data.len() == models.len()
            &&& 0 <= i < models.len() ==> data[i] == models[i].1.info
        },
{
    list_keys_differ();
}

proof fn list_keys_differ()
    ensures
        "object"@ != "data"@,
        "object"@ != "models"@,
        "data"@ != "models"@,
{
    reveal_strlit("object");
    reveal_strlit("data");
    reveal_strlit("models");
    assert("object"@.len() != "data"@.len());
    assert("data"@.len() != "models"@.len());
    assert("object"@[0] != "models"@[0]);
}

/// The listings that a document shows; there may be none.
pub open spec fn shown_listings(document: JsonView) -> Seq<JsonView> {
    match json::array_member(document, "models"@) {
        Some(shown) => shown,
        None => seq![],
    }
}

/// The document that lists the models has, under `models`, the listings of the models
/// that have one, in their order, and no such member where none has one. Besides that and
/// `object` and `data` it has nothing.
pub proof fn the_list_shows_every_listing(
    models: Seq<(Seq<char>, EntryView)>,
    model: (Seq<char>, EntryView),
    key: Seq<char>,
)
    ensures
        shown_listings(models_document(seq![])).len() == 0,
        shown_listings(models_document(models.push(model))) == match model.1.listing {
            Some(listing) => shown_listings(models_document(models)).push(listing),
            None => shown_listings(models_document(models)),
        },
        json::member(models_document(models), key) is Some <==> key == "object"@ || key == "data"@
            || (key == "models"@ && shown_listings(models_document(models)).len() > 0),
{
    list_keys_differ();
    assert(models.push(model).drop_last() =~= models);
    assert(shown_listings(models_document(models)) == listings(models));
    assert(shown_listings(models_document(models.push(model))) == listings(models.push(model)));
    assert(shown_listings(models_document(seq![])) == listings(seq![]));
}

/// What a client is told who asks for the properties of a model that is not known: an
/// error with the code 400, in the words and of the type that clients go by.
pub proof fn unknown_models_are_not_loaded(key: Seq<char>)
    ensures
        json::member(not_loaded(), key) is Some <==> key == "error"@,
        json::member(not_loaded(), "error"@) matches Some(error) && {
            &&& json::member(error, "code"@) matches Some(JsonView::Number(code)) && code
                == text::decimal(400)
            &&& json::text_member(error, "message"@) == Some("model is not loaded"@)
            &&& json::text_member(error, "type"@) == Some("not_found_error"@)
            &&& json::member(error, key) is Some <==> key == "message"@ || key == "type"@ || key
                == "code"@
        },
{
    reveal_strlit("message");
    reveal_strlit("type");
    reveal_strlit("code");
    assert("message"@.len() != "type"@.len());
    assert("message"@.len() != "code"@.len());
    assert("type"@[0] != "code"@[0]);
}

/// A backend is asked for its properties under `/props`, with the whole query behind a
/// question mark where there is one.
pub proof fn queries_are_passed_on_whole(query: Seq<char>)
    ensures
        query.len() > 0 ==> props_path(query) == "/props"@ + seq!['?'] + query,
        props_path(seq![]) == "/props"@,
{
    reveal_strlit("/props");
    reveal_strlit("/props?");
    assert("/props?"@ =~= "/props"@ + seq!['?']);
}

/// A body that is not JSON is refused with all that is known of what is wrong with it,
/// and one without a string under `model` is refused as such.
pub proof fn bodies_without_a_model_are_refused(
    models: Seq<(Seq<char>, EntryView)>,
    body: Seq<u8>,
    problem: Seq<char>,
    document: JsonView,
)
    requires
        json::text_member(document, "model"@) is None,
    ensures
        routed(models, body, Err(problem)) == Err::<RoutedView, ErrorView>(
            ErrorView::BadRequest("invalid JSON: "@ + problem),
        ),
        routed(models, body, Ok(document)) == Err::<RoutedView, ErrorView>(
            ErrorView::BadRequest("missing \"model\" field"@),
        ),
        body_model(Err(problem)) == Err::<Seq<char>, ErrorView>(
            ErrorView::BadRequest("invalid JSON: "@ + problem),
        ),
        body_model(Ok(document)) == Err::<Seq<char>, ErrorView>(
            ErrorView::BadRequest("missing \"model\" field"@),
        ),
{
}

/// A request for a known model goes to all the sets that serve it. Its body goes on as it
/// came where the backends know the model by the same id, and otherwise as the same
/// document, with nothing but the model's id exchanged.
pub proof fn known_models_are_routed(
    models: Seq<(Seq<char>, EntryView)>,
    i: int,
    body: Seq<u8>,
    members: Map<Seq<char>, JsonView>,
)
    requires
        models::models_wf(models),
        0 <= i < models.len(),
        members.dom().contains("model"@),
        members["model"@] == JsonView::Text(models[i].0),
    ensures
        body_model(Ok(JsonView::Object(members))) == Ok::<Seq<char>, ErrorView>(models[i].0),
        routed(models, body, Ok(JsonView::Object(members))) matches Ok(request) && {
            &&& request.gpu_sets == models[i].1.gpu_sets
            &&& request.body == if models[i].1.backend_id == models[i].0 {
                body
            } else {
                json::json_print(
                    JsonView::Object(
                        members.insert("model"@, JsonView::Text(models[i].1.backend_id)),
                    ),
                )
            }
        },
        streaming_sets(models, models[i].0) == if models[i].1.backend_id == models[i].0 {
            Some(models[i].1.gpu_sets)
        } else {
            None
        },
{
    models::ids_are_looked_up(models, models[i].0, i);
}

/// Nothing is passed on as it comes in for a model that is not known.
pub proof fn unknown_models_are_not_streamed(
    models: Seq<(Seq<char>, EntryView)>,
    model: Seq<char>,
)
    requires
        forall|i: int| 0 <= i < models.len() ==> (#[trigger] models[i]).0 != model,
    ensures
        streaming_sets(models, model) is None,
        proxy::model_not_found(model) == ErrorView::BadRequest("model not found: "@ + model),
{
    models::ids_are_looked_up(models, model, 0);
}

/// An outcome is the one that is described only if it is so in every respect.
pub proof fn outcomes_agree_in_every_respect(
    r: Result<RoutedRequest, ProxyError>,
    expected: Result<RoutedView, ErrorView>,
    text: Result<String, ProxyError>,
    expected_text: Result<Seq<char>, ErrorView>,
)
    ensures
        routed_outcome(r, expected) <==> match (r, expected) {
            (Ok(request), Ok(view)) => request.gpu_sets@ == view.gpu_sets && request.body@
                == view.body,
            (Err(e), Err(view)) => e@ == view,
            _ => false,
        },
        text_outcome(text, expected_text) <==> match (text, expected_text) {
            (Ok(found), Ok(view)) => found@ == view,
            (Err(e), Err(view)) => e@ == view,
            _ => false,
        },
{
}

} // verus!
