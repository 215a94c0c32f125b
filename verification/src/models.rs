//! The models that the backends serve.

use serde_json::Value;
use std::sync::Arc;
use vstd::prelude::*;

use crate::gpu_set;
use crate::gpu_set::finds_set;
use crate::gpu_set::share;
use crate::gpu_set::GpuSet;
use crate::json;
use crate::json::JsonView;

verus! {

pub struct ModelEntry {
    pub gpu_sets: Vec<Arc<GpuSet>>,
    /// The `data[]` object exactly as the backend reported it, so backend-specific
    /// fields (llama.cpp's `meta`, vLLM/sglang's `max_model_len`, `root`, ...)
    /// survive the trip through the proxy.
    pub info: Value,
    /// The matching entry from llama.cpp's second top-level block, `models[]`
    /// (the Ollama-style listing). `None` for backends that don't emit one.
    pub listing: Option<Value>,
    /// Model id understood by the selected backend: the one under which the set that
    /// comes first reported the model. It is the id that any set with the same prefix
    /// knows the model by. A set with another prefix knows it by another id, and is
    /// addressed with this one all the same: where a configured set lists
    /// `127.0.0.1/m` and the registered host 127.0.0.1 lists `m`, both serve
    /// `127.0.0.1/m`, and the host is asked for it under that id if the configured
    /// set came first.
    pub backend_id: String,
}

/// A model entry as contracts see it.
#[verifier::ext_equal]
pub struct EntryView {
    pub gpu_sets: Seq<Arc<GpuSet>>,
    pub info: JsonView,
    pub listing: Option<JsonView>,
    pub backend_id: Seq<char>,
}

impl View for ModelEntry {
    type V = EntryView;

    open spec fn view(&self) -> EntryView {
        EntryView {
            gpu_sets: self.gpu_sets@,
            info: json::json_of(self.info),
            listing: json::opt_json(self.listing),
            backend_id: self.backend_id@,
        }
    }
}

/// A model under the id that clients know it by.
pub struct NamedModel {
    pub id: String,
    pub entry: ModelEntry,
}

/// The models by id, in the order in which the ids were first reported.
pub struct ModelMap {
    pub models: Vec<NamedModel>,
}

impl View for ModelMap {
    type V = Seq<(Seq<char>, EntryView)>;

    open spec fn view(&self) -> Seq<(Seq<char>, EntryView)> {
        self.models@.map_values(|m: NamedModel| (m.id@, m.entry@))
    }
}

/// Where `id` stands among the models, or their number if it is not there.
pub open spec fn position(models: Seq<(Seq<char>, EntryView)>, id: Seq<char>) -> nat
    decreases models.len(),
{
    if models.len() == 0 || models[0].0 == id {
        0
    } else {
        1 + position(models.skip(1), id)
    }
}

/// The entry under `id`.
pub open spec fn lookup(models: Seq<(Seq<char>, EntryView)>, id: Seq<char>) -> Option<EntryView> {
    if position(models, id) < models.len() {
        Some(models[position(models, id) as int].1)
    } else {
        None
    }
}

/// What [`position`] is.
pub proof fn position_is_first(models: Seq<(Seq<char>, EntryView)>, id: Seq<char>)
    ensures
        position(models, id) <= models.len(),
        forall|i: int| 0 <= i < position(models, id) ==> (#[trigger] models[i]).0 != id,
        position(models, id) < models.len() ==> models[position(models, id) as int].0 == id,
    decreases models.len(),
{
    if models.len() > 0 && models[0].0 != id {
        position_is_first(models.skip(1), id);
        assert forall|i: int| 0 <= i < position(models, id) implies (#[trigger] models[i]).0
            != id by {
            if i > 0 {
                assert(models.skip(1)[i - 1] == models[i]);
            }
        }
    }
}

proof fn position_is_unique(models: Seq<(Seq<char>, EntryView)>, id: Seq<char>, n: nat)
    requires
        n <= models.len(),
        forall|i: int| 0 <= i < n ==> (#[trigger] models[i]).0 != id,
        n < models.len() ==> models[n as int].0 == id,
    ensures
        position(models, id) == n,
{
    position_is_first(models, id);
    let m = position(models, id);
    if m < n {
        assert(models[m as int].0 != id);
    } else if n < m {
        assert(models[n as int].0 != id);
    }
}

/// The id that clients know a model by: the backend's own, after the prefix of
/// its set if that has one.
pub open spec fn exposed_id(prefix: Option<Seq<char>>, id: Seq<char>) -> Seq<char> {
    match prefix {
        Some(prefix) => prefix + "/"@ + id,
        None => id,
    }
}

/// Under one prefix, clients know models with different ids by different ids.
pub proof fn exposed_ids_differ(prefix: Option<Seq<char>>, id: Seq<char>, other: Seq<char>)
    requires
        exposed_id(prefix, id) == exposed_id(prefix, other),
    ensures
        id == other,
{
    if let Some(prefix) = prefix {
        let n = (prefix + "/"@).len() as int;
        assert((prefix + "/"@ + id).skip(n) =~= id);
        assert((prefix + "/"@ + other).skip(n) =~= other);
    }
}

/// The first listing of the model `id`.
pub open spec fn listing_of(listings: Seq<JsonView>, id: Seq<char>) -> Option<JsonView>
    decreases listings.len(),
{
    if listings.len() == 0 {
        None
    } else if json::text_member(listings[0], "model"@) == Some(id) {
        Some(listings[0])
    } else {
        listing_of(listings.skip(1), id)
    }
}

/// The listing to show for the model `id` of a backend, under the id that
/// clients know it by.
pub open spec fn exposed_listing(
    listings: Option<Seq<JsonView>>,
    id: Seq<char>,
    exposed: Seq<char>,
) -> Option<JsonView> {
    match listings {
        Some(listings) => match listing_of(listings, id) {
            Some(listing) => Some(
                json::with_member(listing, "model"@, JsonView::Text(exposed)),
            ),
            None => None,
        },
        None => None,
    }
}

/// The entry of a model that has not been seen before.
pub open spec fn new_entry(
    gpu_set: Arc<GpuSet>,
    model: JsonView,
    id: Seq<char>,
    listings: Option<Seq<JsonView>>,
) -> EntryView {
    let exposed = exposed_id(gpu_set.prefix(), id);
    EntryView {
        gpu_sets: seq![gpu_set],
        info: json::with_member(model, "id"@, JsonView::Text(exposed)),
        listing: exposed_listing(listings, id, exposed),
        backend_id: id,
    }
}

/// Whether `gpu_set`, or a set of its name, serves the model that clients know as
/// `id`.
pub open spec fn serves(
    models: Seq<(Seq<char>, EntryView)>,
    id: Seq<char>,
    gpu_set: Arc<GpuSet>,
) -> bool {
    lookup(models, id) matches Some(entry) && gpu_set::has_set(entry.gpu_sets, gpu_set.name@)
}

/// The models once `gpu_set` has reported `model` in a reply: it joins the sets
/// that serve the model, and the first report of a model says what is shown of it.
/// `before` are the models from before the reply: a set that served a model by then
/// through another of its servers does not join again.
pub open spec fn with_model(
    before: Seq<(Seq<char>, EntryView)>,
    models: Seq<(Seq<char>, EntryView)>,
    gpu_set: Arc<GpuSet>,
    model: JsonView,
    listings: Option<Seq<JsonView>>,
) -> Seq<(Seq<char>, EntryView)> {
    match json::text_member(model, "id"@) {
        Some(id) => {
            let exposed = exposed_id(gpu_set.prefix(), id);
            let at = position(models, exposed);
            if at >= models.len() {
                models.push((exposed, new_entry(gpu_set, model, id, listings)))
            } else if serves(before, exposed, gpu_set) {
                models
            } else {
                let entry = models[at as int].1;
                models.update(
                    at as int,
                    (exposed, EntryView { gpu_sets: entry.gpu_sets.push(gpu_set), ..entry }),
                )
            }
        },
        None => models,
    }
}

/// The models once `gpu_set` has reported each of `data` in one reply.
pub open spec fn with_models(
    models: Seq<(Seq<char>, EntryView)>,
    gpu_set: Arc<GpuSet>,
    data: Seq<JsonView>,
    listings: Option<Seq<JsonView>>,
) -> Seq<(Seq<char>, EntryView)>
    decreases data.len(),
{
    if data.len() == 0 {
        models
    } else {
        with_model(
            models,
            with_models(models, gpu_set, data.drop_last(), listings),
            gpu_set,
            data.last(),
            listings,
        )
    }
}

/// The id that a listing names.
pub open spec fn listed_id(listing: JsonView) -> Option<Seq<char>> {
    match json::member(listing, "id"@) {
        Some(id) => json::text_in(id),
        None => json::text_member(listing, "model"@),
    }
}

/// A model of which nothing but the id is known.
pub open spec fn bare_model(id: Seq<char>) -> JsonView {
    JsonView::Object(
        Map::empty().insert("id"@, JsonView::Text(id)).insert("object"@, JsonView::Text("model"@)),
    )
}

/// The models that the listings name.
pub open spec fn listed_models(listings: Seq<JsonView>) -> Seq<JsonView>
    decreases listings.len(),
{
    if listings.len() == 0 {
        seq![]
    } else {
        let before = listed_models(listings.drop_last());
        match listed_id(listings.last()) {
            Some(id) => before.push(bare_model(id)),
            None => before,
        }
    }
}

/// The models that a backend reports: those under `data`, or, for a backend that
/// only sends the Ollama-style block, those listed under `models`.
pub open spec fn reported_models(body: JsonView) -> Option<Seq<JsonView>> {
    match json::array_member(body, "data"@) {
        Some(data) => Some(data),
        None => match json::array_member(body, "models"@) {
            Some(listings) => Some(listed_models(listings)),
            None => None,
        },
    }
}

/// The models once a server of `gpu_set` has answered with `body`.
pub open spec fn with_report(
    models: Seq<(Seq<char>, EntryView)>,
    gpu_set: Arc<GpuSet>,
    body: JsonView,
) -> Seq<(Seq<char>, EntryView)> {
    match reported_models(body) {
        Some(data) => with_models(models, gpu_set, data, json::array_member(body, "models"@)),
        None => models,
    }
}

/// What a server answered when asked for its models.
pub struct Report {
    /// The set that the server belongs to.
    pub gpu_set: Arc<GpuSet>,
    /// The bytes of the answer, or nothing if there was none.
    pub body: Option<Vec<u8>>,
}

impl Report {
    /// The document that the server sent, if it sent one.
    pub open spec fn document(&self) -> Option<JsonView> {
        match self.body {
            Some(bytes) => match json::json_parse(bytes@) {
                Ok(body) => Some(body),
                Err(_) => None,
            },
            None => None,
        }
    }
}

/// The models once the reports have come in, in order. A server that did not answer
/// with a JSON document is passed over.
pub open spec fn with_reports(reports: Seq<Report>) -> Seq<(Seq<char>, EntryView)>
    decreases reports.len(),
{
    if reports.len() == 0 {
        seq![]
    } else {
        let before = with_reports(reports.drop_last());
        match reports.last().document() {
            Some(body) => with_report(before, reports.last().gpu_set, body),
            None => before,
        }
    }
}

/// What the listings hold, if there are any.
pub open spec fn listings_view(listings: Option<&Vec<Value>>) -> Option<Seq<JsonView>> {
    match listings {
        Some(listings) => Some(json::all_json(listings@)),
        None => None,
    }
}

fn exposed_text(gpu_set: &GpuSet, id: &str) -> (r: String)
    ensures
        r@ == exposed_id(gpu_set.prefix(), id@),
{
    match &gpu_set.model_prefix {
        Some(prefix) => {
            let mut text: String = prefix.clone();
            text.append("/");
            text.append(id);
            text
        },
        None => id.to_owned(),
    }
}

fn find_listing(listings: &Vec<Value>, id: &str) -> (r: Option<Value>)
    ensures
        json::opt_json(r) == listing_of(json::all_json(listings@), id@),
{
    let ghost all = json::all_json(listings@);
    let mut i: usize = 0;
    proof {
        assert(all.skip(0) =~= all);
    }
    while i < listings.len()
        invariant
            i <= listings@.len(),
            all == json::all_json(listings@),
            listing_of(all, id@) == listing_of(all.skip(i as int), id@),
        decreases listings@.len() - i,
    {
        proof {
            assert(all.skip(i as int)[0] == json::json_of(listings@[i as int]));
            assert(all.skip(i as int).skip(1) =~= all.skip(i + 1));
        }
        if let Some(name) = json::get_text(&listings[i], "model") {
            if crate::text::same_text(name, id) {
                return Some(listings[i].clone());
            }
        }
        i = i + 1;
    }
    None
}

fn exposed_listing_value(listings: Option<&Vec<Value>>, id: &str, exposed: &String) -> (r: Option<
    Value,
>)
    ensures
        json::opt_json(r) == exposed_listing(listings_view(listings), id@, exposed@),
{
    match listings {
        Some(listings) => match find_listing(listings, id) {
            Some(mut listing) => {
                proof {
                    listing_of_is_listed(json::all_json(listings@), id@);
                }
                json::json_set(&mut listing, "model", json::json_text(exposed.clone()));
                Some(listing)
            },
            None => None,
        },
        None => None,
    }
}

/// The listing that is found for a model names it.
pub proof fn listing_of_is_listed(listings: Seq<JsonView>, id: Seq<char>)
    ensures
        listing_of(listings, id) matches Some(listing) ==> json::text_member(listing, "model"@)
            == Some(id),
    decreases listings.len(),
{
    if listings.len() > 0 {
        listing_of_is_listed(listings.skip(1), id);
    }
}

fn listed_models_of(listings: &Vec<Value>) -> (r: Vec<Value>)
    ensures
        json::all_json(r@) == listed_models(json::all_json(listings@)),
{
    let ghost all = json::all_json(listings@);
    let mut data: Vec<Value> = Vec::new();
    let mut i: usize = 0;
    proof {
        assert(json::all_json(data@) =~= listed_models(all.take(0)));
    }
    while i < listings.len()
        invariant
            i <= listings@.len(),
            all == json::all_json(listings@),
            json::all_json(data@) == listed_models(all.take(i as int)),
        decreases listings@.len() - i,
    {
        proof {
            assert(all.take(i + 1).drop_last() =~= all.take(i as int));
            assert(all.take(i + 1).last() == json::json_of(listings@[i as int]));
        }
        let id: Option<&str> = match json::json_get(&listings[i], "id") {
            Some(id) => json::json_as_str(id),
            None => json::get_text(&listings[i], "model"),
        };
        if let Some(id) = id {
            let ghost before = data@;
            let mut model: Value = json::json_object();
            json::json_set(&mut model, "id", json::json_text(id.to_owned()));
            json::json_set(&mut model, "object", json::json_text("model".to_owned()));
            data.push(model);
            proof {
                assert(json::all_json(data@) =~= json::all_json(before).push(json::json_of(model)));
            }
        }
        i = i + 1;
    }
    proof {
        assert(all.take(i as int) =~= all);
    }
    data
}

impl ModelMap {
    /// Each id stands for one model, and every model has GPU sets that serve it.
    pub open spec fn wf(&self) -> bool {
        models_wf(self@)
    }

    pub fn new() -> (r: Self)
        ensures
            r@ == Seq::<(Seq<char>, EntryView)>::empty(),
            r.wf(),
    {
        let r = ModelMap { models: Vec::new() };
        proof {
            assert(r@ =~= Seq::<(Seq<char>, EntryView)>::empty());
        }
        r
    }

    fn find(&self, id: &str) -> (r: usize)
        ensures
            r == position(self@, id@),
    {
        let mut i: usize = 0;
        while i < self.models.len() && !crate::text::same_text(self.models[i].id.as_str(), id)
            invariant
                i <= self.models@.len(),
                forall|j: int| 0 <= j < i ==> (#[trigger] self@[j]).0 != id@,
            decreases self.models@.len() - i,
        {
            i = i + 1;
        }
        proof {
            position_is_unique(self@, id@, i as nat);
        }
        i
    }

    /// The entry under `id`.
    pub fn get(&self, id: &str) -> (r: Option<&ModelEntry>)
        ensures
            match r {
                Some(entry) => lookup(self@, id@) == Some(entry@),
                None => lookup(self@, id@) is None,
            },
    {
        let at: usize = self.find(id);
        proof {
            position_is_first(self@, id@);
        }
        if at < self.models.len() {
            Some(&self.models[at].entry)
        } else {
            None
        }
    }

    /// Which of the models `gpu_set` serves.
    fn served_by(&self, gpu_set: &GpuSet) -> (r: Vec<bool>)
        ensures
            r@.len() == self@.len(),
            forall|i: int|
                0 <= i < r@.len() ==> (#[trigger] r@[i]) == gpu_set::has_set(
                    self@[i].1.gpu_sets,
                    gpu_set.name@,
                ),
    {
        let mut served: Vec<bool> = Vec::new();
        let mut i: usize = 0;
        while i < self.models.len()
            invariant
                i <= self.models@.len(),
                served@.len() == i,
                forall|j: int|
                    0 <= j < i ==> (#[trigger] served@[j]) == gpu_set::has_set(
                        self@[j].1.gpu_sets,
                        gpu_set.name@,
                    ),
            decreases self.models@.len() - i,
        {
            served.push(finds_set(&self.models[i].entry.gpu_sets, &gpu_set.name));
            i = i + 1;
        }
        served
    }

    /// Takes in that `gpu_set` reported `model` in a reply. `served` tells which of
    /// the models from before the reply the set served by then.
    fn add_model(
        &mut self,
        gpu_set: &Arc<GpuSet>,
        model: &Value,
        listings: Option<&Vec<Value>>,
        served: &Vec<bool>,
        Ghost(before): Ghost<Seq<(Seq<char>, EntryView)>>,
    )
        requires
            extends(before, old(self)@),
            served@.len() == before.len(),
            forall|i: int|
                0 <= i < served@.len() ==> (#[trigger] served@[i]) == gpu_set::has_set(
                    before[i].1.gpu_sets,
                    gpu_set.name@,
                ),
        ensures
            final(self)@ == with_model(
                before,
                old(self)@,
                *gpu_set,
                json::json_of(*model),
                listings_view(listings),
            ),
    {
        let ghost current = self@;
        if let Some(id) = json::get_text(model, "id") {
            let exposed: String = exposed_text(gpu_set, id);
            let at: usize = self.find(exposed.as_str());
            proof {
                position_is_first(self@, exposed@);
                position_in_extended(before, self@, exposed@);
            }
            if at < self.models.len() {
                if at >= served.len() || !served[at] {
                    self.models[at].entry.gpu_sets.push(share(gpu_set));
                }
                proof {
                    assert(self@ =~= with_model(
                        before,
                        current,
                        *gpu_set,
                        json::json_of(*model),
                        listings_view(listings),
                    ));
                }
            } else {
                let mut info: Value = model.clone();
                json::json_set(&mut info, "id", json::json_text(exposed.clone()));
                let listing: Option<Value> = exposed_listing_value(listings, id, &exposed);
                let mut gpu_sets: Vec<Arc<GpuSet>> = Vec::new();
                gpu_sets.push(share(gpu_set));
                let entry = ModelEntry { gpu_sets, info, listing, backend_id: id.to_owned() };
                proof {
                    assert(entry@ =~= new_entry(
                        *gpu_set,
                        json::json_of(*model),
                        id@,
                        listings_view(listings),
                    ));
                }
                self.models.push(NamedModel { id: exposed, entry });
                proof {
                    assert(self@ =~= current.push((exposed@, entry@)));
                }
            }
        }
    }

    /// Takes in that `gpu_set` reported each of `data` in one reply.
    fn add_models(
        &mut self,
        gpu_set: &Arc<GpuSet>,
        data: &Vec<Value>,
        listings: Option<&Vec<Value>>,
    )
        ensures
            final(self)@ == with_models(
                old(self)@,
                *gpu_set,
                json::all_json(data@),
                listings_view(listings),
            ),
    {
        let ghost before = self@;
        let ghost all = json::all_json(data@);
        let served: Vec<bool> = self.served_by(gpu_set);
        let mut i: usize = 0;
        while i < data.len()
            invariant
                i <= data@.len(),
                before == old(self)@,
                all == json::all_json(data@),
                served@.len() == before.len(),
                forall|j: int|
                    0 <= j < served@.len() ==> (#[trigger] served@[j]) == gpu_set::has_set(
                        before[j].1.gpu_sets,
                        gpu_set.name@,
                    ),
                self@ == with_models(before, *gpu_set, all.take(i as int), listings_view(listings)),
            decreases data@.len() - i,
        {
            proof {
                assert(all.take(i + 1).drop_last() =~= all.take(i as int));
                assert(all.take(i + 1).last() == json::json_of(data@[i as int]));
                models_stay(before, *gpu_set, all.take(i as int), listings_view(listings));
            }
            self.add_model(gpu_set, &data[i], listings, &served, Ghost(before));
            i = i + 1;
        }
        proof {
            assert(all.take(i as int) =~= all);
        }
    }

    /// Takes in what a server of `gpu_set` answered when asked for its models.
    pub fn add_report(&mut self, gpu_set: &Arc<GpuSet>, body: &Value)
        ensures
            final(self)@ == with_report(old(self)@, *gpu_set, json::json_of(*body)),
    {
        let listings: Option<&Vec<Value>> = json::get_array(body, "models");
        match json::get_array(body, "data") {
            Some(data) => self.add_models(gpu_set, data, listings),
            None => match listings {
                Some(items) => {
                    let data: Vec<Value> = listed_models_of(items);
                    self.add_models(gpu_set, &data, listings);
                },
                None => {},
            },
        }
    }

    /// The models that the reports add up to.
    pub fn from_reports(reports: &Vec<Report>) -> (r: Self)
        ensures
            r@ == with_reports(reports@),
            r.wf(),
    {
        let mut map: ModelMap = ModelMap::new();
        let mut i: usize = 0;
        while i < reports.len()
            invariant
                i <= reports@.len(),
                map@ == with_reports(reports@.take(i as int)),
            decreases reports@.len() - i,
        {
            proof {
                assert(reports@.take(i + 1).drop_last() =~= reports@.take(i as int));
                assert(reports@.take(i + 1).last() == reports@[i as int]);
            }
            if let Some(bytes) = &reports[i].body {
                if let Ok(body) = json::parse_json(bytes.as_slice()) {
                    map.add_report(&reports[i].gpu_set, &body);
                }
            }
            i = i + 1;
        }
        proof {
            assert(reports@.take(i as int) =~= reports@);
            reports_make_wf_models(reports@);
        }
        map
    }
}

/// Each id occurs once, and every model has GPU sets that serve it.
pub open spec fn models_wf(models: Seq<(Seq<char>, EntryView)>) -> bool {
    &&& forall|i: int, j: int|
        0 <= i < j < models.len() ==> (#[trigger] models[i]).0 != (#[trigger] models[j]).0
    &&& forall|i: int| 0 <= i < models.len() ==> (#[trigger] models[i]).1.gpu_sets.len() > 0
}

/// Whether `after` has the ids of `before` in their places, and perhaps more.
pub open spec fn extends(
    before: Seq<(Seq<char>, EntryView)>,
    after: Seq<(Seq<char>, EntryView)>,
) -> bool {
    &&& before.len() <= after.len()
    &&& forall|i: int| 0 <= i < before.len() ==> (#[trigger] before[i]).0 == after[i].0
}

proof fn position_in_extended(
    before: Seq<(Seq<char>, EntryView)>,
    after: Seq<(Seq<char>, EntryView)>,
    id: Seq<char>,
)
    requires
        extends(before, after),
    ensures
        position(before, id) == if position(after, id) < before.len() {
            position(after, id)
        } else {
            before.len()
        },
{
    position_is_first(after, id);
    let at = position(after, id);
    assert forall|i: int| 0 <= i < before.len() && i < at implies (#[trigger] before[i]).0 != id by {
        assert(after[i].0 != id);
    }
    position_is_unique(
        before,
        id,
        if at < before.len() {
            at
        } else {
            before.len()
        },
    );
}

/// A reply takes no model away and leaves each in its place.
pub proof fn models_stay(
    before: Seq<(Seq<char>, EntryView)>,
    gpu_set: Arc<GpuSet>,
    data: Seq<JsonView>,
    listings: Option<Seq<JsonView>>,
)
    ensures
        extends(before, with_models(before, gpu_set, data, listings)),
    decreases data.len(),
{
    if data.len() > 0 {
        models_stay(before, gpu_set, data.drop_last(), listings);
        let models = with_models(before, gpu_set, data.drop_last(), listings);
        if let Some(id) = json::text_member(data.last(), "id"@) {
            position_is_first(models, exposed_id(gpu_set.prefix(), id));
        }
    }
}

proof fn with_model_keeps_wf(
    before: Seq<(Seq<char>, EntryView)>,
    models: Seq<(Seq<char>, EntryView)>,
    gpu_set: Arc<GpuSet>,
    model: JsonView,
    listings: Option<Seq<JsonView>>,
)
    requires
        models_wf(models),
    ensures
        models_wf(with_model(before, models, gpu_set, model, listings)),
{
    if let Some(id) = json::text_member(model, "id"@) {
        let exposed = exposed_id(gpu_set.prefix(), id);
        position_is_first(models, exposed);
    }
}

/// After a reply, each id still stands for one model, and every model has GPU sets that
/// serve it.
pub proof fn with_models_keeps_wf(
    models: Seq<(Seq<char>, EntryView)>,
    gpu_set: Arc<GpuSet>,
    data: Seq<JsonView>,
    listings: Option<Seq<JsonView>>,
)
    requires
        models_wf(models),
    ensures
        models_wf(with_models(models, gpu_set, data, listings)),
    decreases data.len(),
{
    if data.len() > 0 {
        with_models_keeps_wf(models, gpu_set, data.drop_last(), listings);
        with_model_keeps_wf(
            models,
            with_models(models, gpu_set, data.drop_last(), listings),
            gpu_set,
            data.last(),
            listings,
        );
    }
}

/// Whatever the backends report, each id stands for one model, and every model has
/// GPU sets that serve it.
pub proof fn reports_make_wf_models(reports: Seq<Report>)
    ensures
        models_wf(with_reports(reports)),
    decreases reports.len(),
{
    if reports.len() > 0 {
        let before = with_reports(reports.drop_last());
        reports_make_wf_models(reports.drop_last());
        if let Some(body) = reports.last().document() {
            if let Some(data) = reported_models(body) {
                with_models_keeps_wf(
                    before,
                    reports.last().gpu_set,
                    data,
                    json::array_member(body, "models"@),
                );
            }
        }
    }
}

/// Looking up an id finds the entry under it, and nothing where there is none.
pub proof fn ids_are_looked_up(models: Seq<(Seq<char>, EntryView)>, id: Seq<char>, i: int)
    ensures
        0 <= i < models.len() && models[i].0 == id && models_wf(models) ==> lookup(models, id)
            == Some(models[i].1),
        (forall|j: int| 0 <= j < models.len() ==> (#[trigger] models[j]).0 != id) ==> lookup(
            models,
            id,
        ) is None,
{
    position_is_first(models, id);
    let at = position(models, id) as int;
    if 0 <= i < models.len() && models[i].0 == id && models_wf(models) {
        if i < at {
            assert(models[i].0 != id);
        } else if at < i {
            assert(models[at].0 != models[i].0);
        }
    }
}

/// What is seen of the models is each id with its entry, in their order.
pub proof fn models_are_seen_whole(map: ModelMap, i: int)
    ensures
        map@.len() == map.models@.len(),
        0 <= i < map.models@.len() ==> {
            &&& map@[i].0 == map.models@[i].id@
            &&& map@[i].1.gpu_sets == map.models@[i].entry.gpu_sets@
            &&& map@[i].1.info == json::json_of(map.models@[i].entry.info)
            &&& map@[i].1.listing == json::opt_json(map.models@[i].entry.listing)
            &&& map@[i].1.backend_id == map.models@[i].entry.backend_id@
        },
{
}

} // verus!
