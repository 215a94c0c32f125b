//! What holds of the models that a round of discovery comes to.

use std::sync::Arc;
use vstd::prelude::*;

use crate::gpu_set;
use crate::gpu_set::GpuSet;
use crate::json;
use crate::json::JsonView;
use crate::models;
use crate::models::EntryView;
use crate::models::Report;

verus! {

/// Whether the `k`th report holds `data` as the models of its set.
pub open spec fn reports_models(reports: Seq<Report>, k: int, data: Seq<JsonView>) -> bool {
    &&& 0 <= k < reports.len()
    &&& reports[k].document() matches Some(body) && models::reported_models(body) == Some(data)
}

/// Whether the `k`th report has `model` in the `j`th place.
pub open spec fn reports_model(reports: Seq<Report>, k: int, j: int, model: JsonView) -> bool {
    &&& 0 <= k < reports.len()
    &&& reports[k].document() matches Some(body) && models::reported_models(body) matches Some(
        data,
    ) && 0 <= j < data.len() && data[j] == model
}

/// Whether `gpu_set` sent a report with a model that clients know as `id`.
pub open spec fn reported_by(reports: Seq<Report>, id: Seq<char>, gpu_set: Arc<GpuSet>) -> bool {
    exists|k: int, j: int, model: JsonView|
        {
            &&& #[trigger] reports_model(reports, k, j, model)
            &&& reports[k].gpu_set == gpu_set
            &&& json::text_member(model, "id"@) matches Some(own) && models::exposed_id(
                gpu_set.prefix(),
                own,
            ) == id
        }
}

/// Whether `entry` is what the `k`th report says of the model in its `j`th place,
/// which clients know as `id`.
pub open spec fn described_by(
    reports: Seq<Report>,
    id: Seq<char>,
    entry: EntryView,
    k: int,
    j: int,
    model: JsonView,
) -> bool {
    &&& reports_model(reports, k, j, model)
    &&& entry.gpu_sets.len() > 0
    &&& entry.gpu_sets[0] == reports[k].gpu_set
    &&& json::text_member(model, "id"@) == Some(entry.backend_id)
    &&& id == models::exposed_id(reports[k].gpu_set.prefix(), entry.backend_id)
    &&& entry.info == json::with_member(model, "id"@, JsonView::Text(id))
    &&& entry.listing == models::exposed_listing(
        json::array_member(reports[k].document()->Some_0, "models"@),
        entry.backend_id,
        id,
    )
}

/// What holds of one entry: some report describes it, and each of its sets
/// reported it.
spec fn founded(reports: Seq<Report>, id: Seq<char>, entry: EntryView) -> bool {
    &&& exists|k: int, j: int, model: JsonView| #[trigger]
        described_by(reports, id, entry, k, j, model)
    &&& forall|s: int|
        0 <= s < entry.gpu_sets.len() ==> reported_by(reports, id, #[trigger] entry.gpu_sets[s])
}

spec fn all_founded(reports: Seq<Report>, found: Seq<(Seq<char>, EntryView)>) -> bool {
    forall|i: int| 0 <= i < found.len() ==> founded(reports, (#[trigger] found[i]).0, found[i].1)
}

proof fn founded_stays(reports: Seq<Report>, more: Seq<Report>, id: Seq<char>, entry: EntryView)
    requires
        reports.len() <= more.len(),
        forall|k: int| 0 <= k < reports.len() ==> reports[k] == #[trigger] more[k],
        founded(reports, id, entry),
    ensures
        founded(more, id, entry),
{
    let (k, j, model) = choose|k: int, j: int, model: JsonView| #[trigger]
        described_by(reports, id, entry, k, j, model);
    assert(more[k] == reports[k]);
    assert(described_by(more, id, entry, k, j, model));
    assert forall|s: int| 0 <= s < entry.gpu_sets.len() implies reported_by(
        more,
        id,
        #[trigger] entry.gpu_sets[s],
    ) by {
        let set = entry.gpu_sets[s];
        assert(reported_by(reports, id, set));
        let (k, j, model) = choose|k: int, j: int, model: JsonView|
            {
                &&& #[trigger] reports_model(reports, k, j, model)
                &&& reports[k].gpu_set == set
                &&& json::text_member(model, "id"@) matches Some(own) && models::exposed_id(
                    set.prefix(),
                    own,
                ) == id
            };
        assert(more[k] == reports[k]);
        assert(reports_model(more, k, j, model));
    }
}

proof fn with_model_is_founded(
    reports: Seq<Report>,
    before: Seq<(Seq<char>, EntryView)>,
    found: Seq<(Seq<char>, EntryView)>,
    k: int,
    j: int,
    model: JsonView,
)
    requires
        all_founded(reports, found),
        reports_model(reports, k, j, model),
    ensures
        all_founded(
            reports,
            models::with_model(
                before,
                found,
                reports[k].gpu_set,
                model,
                json::array_member(reports[k].document()->Some_0, "models"@),
            ),
        ),
{
    let set = reports[k].gpu_set;
    let listings = json::array_member(reports[k].document()->Some_0, "models"@);
    let after = models::with_model(before, found, set, model, listings);
    if let Some(own) = json::text_member(model, "id"@) {
        let id = models::exposed_id(set.prefix(), own);
        models::position_is_first(found, id);
        assert(reported_by(reports, id, set));
        let at = models::position(found, id) as int;
        assert forall|i: int| 0 <= i < after.len() implies founded(
            reports,
            (#[trigger] after[i]).0,
            after[i].1,
        ) by {
            if i < found.len() {
                assert(founded(reports, found[i].0, found[i].1));
                if i == at {
                    let old_entry = found[i].1;
                    let entry = after[i].1;
                    let (k0, j0, model0) = choose|k0: int, j0: int, model0: JsonView| #[trigger]
                        described_by(reports, id, old_entry, k0, j0, model0);
                    assert(entry.gpu_sets[0] == old_entry.gpu_sets[0]);
                    assert(described_by(reports, id, entry, k0, j0, model0));
                    assert forall|s: int| 0 <= s < entry.gpu_sets.len() implies reported_by(
                        reports,
                        id,
                        #[trigger] entry.gpu_sets[s],
                    ) by {
                        if s < old_entry.gpu_sets.len() {
                            assert(entry.gpu_sets[s] == old_entry.gpu_sets[s]);
                        }
                    }
                }
            } else {
                let entry = after[i].1;
                assert(described_by(reports, id, entry, k, j, model));
            }
        }
    }
}

proof fn with_models_is_founded(
    reports: Seq<Report>,
    found: Seq<(Seq<char>, EntryView)>,
    k: int,
    data: Seq<JsonView>,
    count: int,
)
    requires
        all_founded(reports, found),
        reports_models(reports, k, data),
        0 <= count <= data.len(),
    ensures
        all_founded(
            reports,
            models::with_models(
                found,
                reports[k].gpu_set,
                data.take(count),
                json::array_member(reports[k].document()->Some_0, "models"@),
            ),
        ),
    decreases count,
{
    if count > 0 {
        with_models_is_founded(reports, found, k, data, count - 1);
        assert(data.take(count).drop_last() =~= data.take(count - 1));
        assert(data.take(count).last() == data[count - 1]);
        let before = models::with_models(
            found,
            reports[k].gpu_set,
            data.take(count - 1),
            json::array_member(reports[k].document()->Some_0, "models"@),
        );
        assert(reports_model(reports, k, count - 1, data[count - 1]));
        with_model_is_founded(reports, found, before, k, count - 1, data[count - 1]);
    }
}

proof fn discovery_is_founded(reports: Seq<Report>)
    ensures
        all_founded(reports, models::with_reports(reports)),
    decreases reports.len(),
{
    if reports.len() > 0 {
        let rest = reports.drop_last();
        let before = models::with_reports(rest);
        let k = reports.len() - 1;
        discovery_is_founded(rest);
        assert forall|i: int| 0 <= i < before.len() implies founded(
            reports,
            (#[trigger] before[i]).0,
            before[i].1,
        ) by {
            founded_stays(rest, reports, before[i].0, before[i].1);
        }
        if let Some(body) = reports[k].document() {
            if let Some(data) = models::reported_models(body) {
                with_models_is_founded(reports, before, k, data, data.len() as int);
                assert(data.take(data.len() as int) =~= data);
            }
        }
    }
}

/// A model is listed as the backend that first reported it described it: only
/// its id is replaced by the one that clients know it by, so that every other
/// field survives. The backend's own id is kept to address it with.
pub proof fn models_are_listed_as_reported(reports: Seq<Report>, i: int)
    requires
        0 <= i < models::with_reports(reports).len(),
    ensures
        ({
            let (id, entry) = models::with_reports(reports)[i];
            exists|k: int, j: int, model: JsonView|
                {
                    &&& #[trigger] described_by(reports, id, entry, k, j, model)
                    &&& json::text_member(entry.info, "id"@) == Some(id)
                    &&& forall|field: Seq<char>|
                        field != "id"@ ==> #[trigger] json::member(entry.info, field)
                            == json::member(model, field)
                }
        }),
{
    discovery_is_founded(reports);
    let found = models::with_reports(reports);
    let (id, entry) = found[i];
    assert(founded(reports, found[i].0, found[i].1));
    let (k, j, model) = choose|k: int, j: int, model: JsonView| #[trigger]
        described_by(reports, id, entry, k, j, model);
    assert(described_by(reports, id, entry, k, j, model));
}

/// The sets that serve a model are sets that reported it.
pub proof fn models_are_served_by_those_who_reported_them(reports: Seq<Report>, i: int, s: int)
    requires
        0 <= i < models::with_reports(reports).len(),
        0 <= s < models::with_reports(reports)[i].1.gpu_sets.len(),
    ensures
        reported_by(
            reports,
            models::with_reports(reports)[i].0,
            models::with_reports(reports)[i].1.gpu_sets[s],
        ),
        exists|k: int|
            0 <= k < reports.len() && (#[trigger] reports[k]).gpu_set == models::with_reports(
                reports,
            )[i].1.gpu_sets[s],
{
    discovery_is_founded(reports);
    let found = models::with_reports(reports);
    let (id, entry) = found[i];
    let set = entry.gpu_sets[s];
    assert(founded(reports, found[i].0, found[i].1));
    assert(reported_by(reports, id, set));
    let (k, j, model) = choose|k: int, j: int, model: JsonView|
        {
            &&& #[trigger] reports_model(reports, k, j, model)
            &&& reports[k].gpu_set == set
            &&& json::text_member(model, "id"@) matches Some(own) && models::exposed_id(
                set.prefix(),
                own,
            ) == id
        };
    assert(reports[k].gpu_set == set);
}

proof fn serving_survives_a_model(
    before: Seq<(Seq<char>, EntryView)>,
    found: Seq<(Seq<char>, EntryView)>,
    gpu_set: Arc<GpuSet>,
    model: JsonView,
    listings: Option<Seq<JsonView>>,
    id: Seq<char>,
    server: Arc<GpuSet>,
)
    requires
        models::serves(found, id, server),
    ensures
        models::serves(models::with_model(before, found, gpu_set, model, listings), id, server),
{
    let after = models::with_model(before, found, gpu_set, model, listings);
    models::position_is_first(found, id);
    models::position_is_first(after, id);
    let at = models::position(found, id) as int;
    if let Some(own) = json::text_member(model, "id"@) {
        let exposed = models::exposed_id(gpu_set.prefix(), own);
        models::position_is_first(found, exposed);
        assert(after[at].0 == id);
        let now = models::position(after, id) as int;
        if now < at {
            assert(after[now].0 == found[now].0);
        }
        assert(now == at);
        let before_sets = found[at].1.gpu_sets;
        let after_sets = after[at].1.gpu_sets;
        let s = choose|s: int|
            0 <= s < before_sets.len() && (#[trigger] before_sets[s]).name@ == server.name@;
        assert(after_sets[s] == before_sets[s]);
    }
}

proof fn reporting_is_serving(
    before: Seq<(Seq<char>, EntryView)>,
    found: Seq<(Seq<char>, EntryView)>,
    gpu_set: Arc<GpuSet>,
    model: JsonView,
    listings: Option<Seq<JsonView>>,
    own: Seq<char>,
)
    requires
        json::text_member(model, "id"@) == Some(own),
        models::serves(before, models::exposed_id(gpu_set.prefix(), own), gpu_set)
            ==> models::serves(found, models::exposed_id(gpu_set.prefix(), own), gpu_set),
    ensures
        models::serves(
            models::with_model(before, found, gpu_set, model, listings),
            models::exposed_id(gpu_set.prefix(), own),
            gpu_set,
        ),
{
    let after = models::with_model(before, found, gpu_set, model, listings);
    let exposed = models::exposed_id(gpu_set.prefix(), own);
    models::position_is_first(found, exposed);
    models::position_is_first(after, exposed);
    let at = models::position(found, exposed) as int;
    let now = models::position(after, exposed) as int;
    assert(after[at].0 == exposed);
    if now < at {
        assert(after[now].0 == found[now].0);
    }
    assert(now == at);
    let sets = after[at].1.gpu_sets;
    assert(gpu_set::has_set(sets, gpu_set.name@)) by {
        if !(at < found.len() && gpu_set::has_set(found[at].1.gpu_sets, gpu_set.name@)) {
            assert(sets[sets.len() - 1] == gpu_set);
        }
    }
}

proof fn serving_survives_models(
    found: Seq<(Seq<char>, EntryView)>,
    gpu_set: Arc<GpuSet>,
    data: Seq<JsonView>,
    listings: Option<Seq<JsonView>>,
    id: Seq<char>,
    server: Arc<GpuSet>,
)
    requires
        models::serves(found, id, server),
    ensures
        models::serves(models::with_models(found, gpu_set, data, listings), id, server),
    decreases data.len(),
{
    if data.len() > 0 {
        serving_survives_models(found, gpu_set, data.drop_last(), listings, id, server);
        serving_survives_a_model(
            found,
            models::with_models(found, gpu_set, data.drop_last(), listings),
            gpu_set,
            data.last(),
            listings,
            id,
            server,
        );
    }
}

proof fn listed_models_are_served(
    found: Seq<(Seq<char>, EntryView)>,
    gpu_set: Arc<GpuSet>,
    data: Seq<JsonView>,
    listings: Option<Seq<JsonView>>,
    j: int,
    own: Seq<char>,
)
    requires
        0 <= j < data.len(),
        json::text_member(data[j], "id"@) == Some(own),
    ensures
        models::serves(
            models::with_models(found, gpu_set, data, listings),
            models::exposed_id(gpu_set.prefix(), own),
            gpu_set,
        ),
    decreases data.len(),
{
    let rest = data.drop_last();
    let before = models::with_models(found, gpu_set, rest, listings);
    let id = models::exposed_id(gpu_set.prefix(), own);
    if j == data.len() - 1 {
        if models::serves(found, id, gpu_set) {
            serving_survives_models(found, gpu_set, rest, listings, id, gpu_set);
        }
        reporting_is_serving(found, before, gpu_set, data.last(), listings, own);
    } else {
        assert(rest[j] == data[j]);
        listed_models_are_served(found, gpu_set, rest, listings, j, own);
        serving_survives_a_model(found, before, gpu_set, data.last(), listings, id, gpu_set);
    }
}

/// Every model that a server of a set reports is known afterwards, and the set is
/// among those that serve it.
pub proof fn reported_models_are_served(
    reports: Seq<Report>,
    k: int,
    j: int,
    model: JsonView,
    own: Seq<char>,
)
    requires
        reports_model(reports, k, j, model),
        json::text_member(model, "id"@) == Some(own),
    ensures
        models::serves(
            models::with_reports(reports),
            models::exposed_id(reports[k].gpu_set.prefix(), own),
            reports[k].gpu_set,
        ),
    decreases reports.len(),
{
    let rest = reports.drop_last();
    let before = models::with_reports(rest);
    let last = reports.last();
    let id = models::exposed_id(reports[k].gpu_set.prefix(), own);
    if k == reports.len() - 1 {
        let body = reports[k].document()->Some_0;
        let data = models::reported_models(body)->Some_0;
        listed_models_are_served(
            before,
            last.gpu_set,
            data,
            json::array_member(body, "models"@),
            j,
            own,
        );
    } else {
        assert(rest[k] == reports[k]);
        assert(reports_model(rest, k, j, model));
        reported_models_are_served(rest, k, j, model, own);
        if let Some(body) = last.document() {
            if let Some(data) = models::reported_models(body) {
                serving_survives_models(
                    before,
                    last.gpu_set,
                    data,
                    json::array_member(body, "models"@),
                    id,
                    reports[k].gpu_set,
                );
            }
        }
    }
}

/// What a set reported under `id` is known under `id`, and the set serves it.
pub proof fn what_is_reported_is_known(reports: Seq<Report>, id: Seq<char>, gpu_set: Arc<GpuSet>)
    requires
        reported_by(reports, id, gpu_set),
    ensures
        models::serves(models::with_reports(reports), id, gpu_set),
{
    let (k, j, model) = choose|k: int, j: int, model: JsonView|
        {
            &&& #[trigger] reports_model(reports, k, j, model)
            &&& reports[k].gpu_set == gpu_set
            &&& json::text_member(model, "id"@) matches Some(own) && models::exposed_id(
                gpu_set.prefix(),
                own,
            ) == id
        };
    reported_models_are_served(reports, k, j, model, json::text_member(model, "id"@)->Some_0);
}

/// Whether sets of the same name are the same in all reports.
pub open spec fn names_mean_sets(reports: Seq<Report>) -> bool {
    forall|j: int, k: int|
        0 <= j < reports.len() && 0 <= k < reports.len() && (#[trigger] reports[j]).gpu_set.name@
            == (#[trigger] reports[k]).gpu_set.name@ ==> reports[j].gpu_set == reports[k].gpu_set
}

/// Where sets of the same name are the same, the sets that serve a model are
/// exactly those that reported it.
pub proof fn a_model_is_served_by_exactly_those_who_reported_it(
    reports: Seq<Report>,
    i: int,
    gpu_set: Arc<GpuSet>,
)
    requires
        0 <= i < models::with_reports(reports).len(),
        names_mean_sets(reports),
    ensures
        models::with_reports(reports)[i].1.gpu_sets.contains(gpu_set) <==> reported_by(
            reports,
            models::with_reports(reports)[i].0,
            gpu_set,
        ),
{
    let found = models::with_reports(reports);
    let (id, entry) = found[i];
    if entry.gpu_sets.contains(gpu_set) {
        let s = choose|s: int| 0 <= s < entry.gpu_sets.len() && entry.gpu_sets[s] == gpu_set;
        models_are_served_by_those_who_reported_them(reports, i, s);
    }
    if reported_by(reports, id, gpu_set) {
        what_is_reported_is_known(reports, id, gpu_set);
        let (k, j, model) = choose|k: int, j: int, model: JsonView|
            {
                &&& #[trigger] reports_model(reports, k, j, model)
                &&& reports[k].gpu_set == gpu_set
            };
        models::reports_make_wf_models(reports);
        models::position_is_first(found, id);
        let at = models::position(found, id) as int;
        if at != i {
            if at < i {
                assert(found[at].0 != found[i].0);
            } else {
                assert(found[i].0 != id);
            }
        }
        let s = choose|s: int|
            0 <= s < entry.gpu_sets.len() && (#[trigger] entry.gpu_sets[s]).name@
                == gpu_set.name@;
        models_are_served_by_those_who_reported_them(reports, i, s);
        let m = choose|m: int|
            0 <= m < reports.len() && (#[trigger] reports[m]).gpu_set == entry.gpu_sets[s];
        assert(reports[m].gpu_set == reports[k].gpu_set);
    }
}

/// Whether `gpu_set` sent a report with a model whose own id is `own`.
pub open spec fn reported_as(reports: Seq<Report>, own: Seq<char>, gpu_set: Arc<GpuSet>) -> bool {
    exists|k: int, j: int, model: JsonView|
        {
            &&& #[trigger] reports_model(reports, k, j, model)
            &&& reports[k].gpu_set == gpu_set
            &&& json::text_member(model, "id"@) == Some(own)
        }
}

/// The id that backends are addressed with is the own id of the model on each set
/// that has the prefix of the first one.
pub proof fn sets_of_one_prefix_share_the_backend_id(reports: Seq<Report>, i: int, s: int)
    requires
        0 <= i < models::with_reports(reports).len(),
        0 <= s < models::with_reports(reports)[i].1.gpu_sets.len(),
        models::with_reports(reports)[i].1.gpu_sets[s].prefix() == models::with_reports(
            reports,
        )[i].1.gpu_sets[0].prefix(),
    ensures
        ({
            let (id, entry) = models::with_reports(reports)[i];
            &&& id == models::exposed_id(entry.gpu_sets[s].prefix(), entry.backend_id)
            &&& reported_as(reports, entry.backend_id, entry.gpu_sets[s])
        }),
{
    let (id, entry) = models::with_reports(reports)[i];
    let set = entry.gpu_sets[s];
    models_are_listed_as_reported(reports, i);
    models_are_served_by_those_who_reported_them(reports, i, s);
    let (k, j, model) = choose|k: int, j: int, model: JsonView|
        {
            &&& #[trigger] reports_model(reports, k, j, model)
            &&& reports[k].gpu_set == set
            &&& json::text_member(model, "id"@) matches Some(own) && models::exposed_id(
                set.prefix(),
                own,
            ) == id
        };
    let own = json::text_member(model, "id"@)->Some_0;
    models::exposed_ids_differ(set.prefix(), own, entry.backend_id);
    assert(reports_model(reports, k, j, model));
}

/// Whether no two of the models that one reply reports have the same id.
pub open spec fn ids_distinct(data: Seq<JsonView>) -> bool {
    forall|i: int, j: int|
        0 <= i < j < data.len() && json::text_member(#[trigger] data[i], "id"@) is Some
            ==> json::text_member(data[i], "id"@) != json::text_member(#[trigger] data[j], "id"@)
}

spec fn each_set_once(found: Seq<(Seq<char>, EntryView)>) -> bool {
    forall|i: int|
        0 <= i < found.len() ==> gpu_set::names_distinct((#[trigger] found[i]).1.gpu_sets)
}

spec fn reply_has(data: Seq<JsonView>, prefix: Option<Seq<char>>, id: Seq<char>, j: int) -> bool {
    &&& 0 <= j < data.len()
    &&& json::text_member(data[j], "id"@) matches Some(own) && models::exposed_id(prefix, own) == id
}

/// Whether a set that serves a model did so before, or reported it in this reply.
spec fn joined_by(
    before: Seq<(Seq<char>, EntryView)>,
    found: Seq<(Seq<char>, EntryView)>,
    gpu_set: Arc<GpuSet>,
    data: Seq<JsonView>,
) -> bool {
    forall|i: int|
        0 <= i < found.len() && gpu_set::has_set((#[trigger] found[i]).1.gpu_sets, gpu_set.name@)
            && !models::serves(before, found[i].0, gpu_set) ==> exists|j: int| #[trigger]
            reply_has(data, gpu_set.prefix(), found[i].0, j)
}

proof fn a_reply_keeps_sets_apart(
    before: Seq<(Seq<char>, EntryView)>,
    gpu_set: Arc<GpuSet>,
    data: Seq<JsonView>,
    listings: Option<Seq<JsonView>>,
)
    requires
        models::models_wf(before),
        each_set_once(before),
        ids_distinct(data),
    ensures
        each_set_once(models::with_models(before, gpu_set, data, listings)),
        joined_by(before, models::with_models(before, gpu_set, data, listings), gpu_set, data),
    decreases data.len(),
{
    let after = models::with_models(before, gpu_set, data, listings);
    let prefix = gpu_set.prefix();
    if data.len() == 0 {
        assert forall|i: int|
            0 <= i < after.len() && gpu_set::has_set(
                (#[trigger] after[i]).1.gpu_sets,
                gpu_set.name@,
            ) implies models::serves(before, after[i].0, gpu_set) by {
            models::position_is_first(before, before[i].0);
            let at = models::position(before, before[i].0) as int;
            if at < i {
                assert(before[at].0 != before[i].0);
            }
        }
    } else {
        let rest = data.drop_last();
        let found = models::with_models(before, gpu_set, rest, listings);
        a_reply_keeps_sets_apart(before, gpu_set, rest, listings);
        assert forall|id: Seq<char>, j: int| #[trigger]
            reply_has(rest, prefix, id, j) implies reply_has(data, prefix, id, j) by {
            assert(rest[j] == data[j]);
        }
        if let Some(own) = json::text_member(data.last(), "id"@) {
            let id = models::exposed_id(prefix, own);
            let last = data.len() - 1;
            models::position_is_first(found, id);
            let at = models::position(found, id) as int;
            assert(reply_has(data, prefix, id, last));
            if at < found.len() && !models::serves(before, id, gpu_set) {
                if gpu_set::has_set(found[at].1.gpu_sets, gpu_set.name@) {
                    let j = choose|j: int| #[trigger] reply_has(rest, prefix, id, j);
                    let earlier = json::text_member(rest[j], "id"@)->Some_0;
                    models::exposed_ids_differ(prefix, earlier, own);
                    assert(data[j] == rest[j]);
                    assert(data[last] == data.last());
                    assert(false);
                }
                assert(gpu_set::names_distinct(after[at].1.gpu_sets));
            }
        }
        assert forall|i: int|
            0 <= i < after.len() && gpu_set::has_set(
                (#[trigger] after[i]).1.gpu_sets,
                gpu_set.name@,
            ) && !models::serves(before, after[i].0, gpu_set) implies exists|j: int| #[trigger]
            reply_has(data, prefix, after[i].0, j) by {
            if i < found.len() && after[i] == found[i] {
                let j = choose|j: int| #[trigger] reply_has(rest, prefix, found[i].0, j);
                assert(reply_has(data, prefix, found[i].0, j));
            }
        }
    }
}

/// However many servers of a set report a model, the set stands once among those
/// that serve it, unless one of its replies has the model more than once.
pub proof fn the_servers_of_a_set_count_once(reports: Seq<Report>, i: int)
    requires
        forall|k: int, data: Seq<JsonView>| #[trigger]
            reports_models(reports, k, data) ==> ids_distinct(data),
        0 <= i < models::with_reports(reports).len(),
    ensures
        gpu_set::names_distinct(models::with_reports(reports)[i].1.gpu_sets),
{
    discovery_keeps_sets_apart(reports);
}

proof fn discovery_keeps_sets_apart(reports: Seq<Report>)
    requires
        forall|k: int, data: Seq<JsonView>| #[trigger]
            reports_models(reports, k, data) ==> ids_distinct(data),
    ensures
        each_set_once(models::with_reports(reports)),
    decreases reports.len(),
{
    if reports.len() > 0 {
        let rest = reports.drop_last();
        let last = reports.len() - 1;
        assert forall|k: int, data: Seq<JsonView>| #[trigger]
            reports_models(rest, k, data) implies ids_distinct(data) by {
            assert(rest[k] == reports[k]);
            assert(reports_models(reports, k, data));
        }
        discovery_keeps_sets_apart(rest);
        models::reports_make_wf_models(rest);
        if let Some(body) = reports[last].document() {
            if let Some(data) = models::reported_models(body) {
                assert(reports_models(reports, last, data));
                a_reply_keeps_sets_apart(
                    models::with_reports(rest),
                    reports[last].gpu_set,
                    data,
                    json::array_member(body, "models"@),
                );
            }
        }
    }
}

/// Whether a listing names the model `own`: by its `id`, or by its `model` if it has no
/// `id`.
pub open spec fn listing_names(listing: JsonView, own: Seq<char>) -> bool {
    match json::member(listing, "id"@) {
        Some(id) => id == JsonView::Text(own),
        None => json::member(listing, "model"@) == Some(JsonView::Text(own)),
    }
}

/// Whether a reply names the model `own`: under `data`, whatever else it holds, or, where
/// there is no array under `data`, under `models`.
pub open spec fn reply_names(reply: JsonView, own: Seq<char>) -> bool {
    match json::array_member(reply, "data"@) {
        Some(data) => exists|j: int|
            0 <= j < data.len() && json::text_member(#[trigger] data[j], "id"@) == Some(own),
        None => json::array_member(reply, "models"@) matches Some(listings) && exists|j: int|
            0 <= j < listings.len() && listing_names(#[trigger] listings[j], own),
    }
}

/// Whether a server's answer is a document, and one that names the model `own`.
pub open spec fn answer_names(answer: Option<Vec<u8>>, own: Seq<char>) -> bool {
    answer matches Some(bytes) && json::json_parse(bytes@) matches Ok(reply) && reply_names(
        reply,
        own,
    )
}

/// The id that clients know the model `own` of a set by: its own, behind the prefix of
/// the set and a slash if the set has a prefix.
pub open spec fn client_id(gpu_set: &GpuSet, own: Seq<char>) -> Seq<char> {
    match gpu_set.model_prefix {
        Some(prefix) => prefix@ + seq!['/'] + own,
        None => own,
    }
}

proof fn client_ids_are_exposed(gpu_set: &GpuSet, own: Seq<char>)
    ensures
        client_id(gpu_set, own) == models::exposed_id(gpu_set.prefix(), own),
{
    reveal_strlit("/");
    assert("/"@ =~= seq!['/']);
}

proof fn listed_models_have_listings(listings: Seq<JsonView>, n: int) -> (j: int)
    requires
        0 <= n < models::listed_models(listings).len(),
    ensures
        0 <= j < listings.len(),
        json::text_member(models::listed_models(listings)[n], "id"@) matches Some(own)
            && listing_names(listings[j], own),
    decreases listings.len(),
{
    reveal_strlit("id");
    reveal_strlit("object");
    assert("id"@.len() != "object"@.len());
    let before = models::listed_models(listings.drop_last());
    if n < before.len() {
        listed_models_have_listings(listings.drop_last(), n)
    } else {
        listings.len() - 1
    }
}

proof fn listings_are_listed_models(listings: Seq<JsonView>, j: int, own: Seq<char>) -> (n: int)
    requires
        0 <= j < listings.len(),
        listing_names(listings[j], own),
    ensures
        0 <= n < models::listed_models(listings).len(),
        json::text_member(models::listed_models(listings)[n], "id"@) == Some(own),
    decreases listings.len(),
{
    reveal_strlit("id");
    reveal_strlit("object");
    assert("id"@.len() != "object"@.len());
    let rest = listings.drop_last();
    if j < rest.len() {
        assert(rest[j] == listings[j]);
        listings_are_listed_models(rest, j, own)
    } else {
        models::listed_models(rest).len() as int
    }
}

/// Every model that a server names in its answer is known afterwards, by the id that
/// clients know it by, and the server's set is among those that serve it.
pub proof fn every_model_that_is_named_is_served(reports: Seq<Report>, k: int, own: Seq<char>)
    requires
        0 <= k < reports.len(),
        answer_names(reports[k].body, own),
    ensures
        exists|i: int|
            0 <= i < models::with_reports(reports).len() && (#[trigger] models::with_reports(
                reports,
            )[i]).0 == client_id(&*reports[k].gpu_set, own) && gpu_set::has_set(
                models::with_reports(reports)[i].1.gpu_sets,
                reports[k].gpu_set.name@,
            ),
{
    let set = reports[k].gpu_set;
    let id = client_id(&*set, own);
    client_ids_are_exposed(&*set, own);
    let bytes = reports[k].body->Some_0;
    let reply = json::json_parse(bytes@)->Ok_0;
    let n = match json::array_member(reply, "data"@) {
        Some(data) => {
            choose|j: int|
                0 <= j < data.len() && json::text_member(#[trigger] data[j], "id"@) == Some(own)
        },
        None => {
            let listings = json::array_member(reply, "models"@)->Some_0;
            let j = choose|j: int|
                0 <= j < listings.len() && listing_names(#[trigger] listings[j], own);
            listings_are_listed_models(listings, j, own)
        },
    };
    let model = models::reported_models(reply)->Some_0[n];
    assert(reports_model(reports, k, n, model));
    reported_models_are_served(reports, k, n, model, own);
    let found = models::with_reports(reports);
    models::position_is_first(found, id);
    let at = models::position(found, id) as int;
    assert(found[at].0 == id);
}

/// Only models that are named are known, and only sets serve them of which a server named
/// them.
pub proof fn only_models_that_are_named_are_served(reports: Seq<Report>, i: int, s: int)
    requires
        0 <= i < models::with_reports(reports).len(),
        0 <= s < models::with_reports(reports)[i].1.gpu_sets.len(),
    ensures
        exists|k: int, own: Seq<char>|
            0 <= k < reports.len() && (#[trigger] reports[k]).gpu_set == models::with_reports(
                reports,
            )[i].1.gpu_sets[s] && #[trigger] answer_names(reports[k].body, own)
                && models::with_reports(reports)[i].0 == client_id(&*reports[k].gpu_set, own),
{
    let (id, entry) = models::with_reports(reports)[i];
    let set = entry.gpu_sets[s];
    models_are_served_by_those_who_reported_them(reports, i, s);
    let (k, j, model) = choose|k: int, j: int, model: JsonView|
        {
            &&& #[trigger] reports_model(reports, k, j, model)
            &&& reports[k].gpu_set == set
            &&& json::text_member(model, "id"@) matches Some(own) && models::exposed_id(
                set.prefix(),
                own,
            ) == id
        };
    let own = json::text_member(model, "id"@)->Some_0;
    client_ids_are_exposed(&*set, own);
    let reply = reports[k].document()->Some_0;
    match json::array_member(reply, "data"@) {
        Some(data) => {
            assert(data[j] == model);
        },
        None => {
            let listings = json::array_member(reply, "models"@)->Some_0;
            let at = listed_models_have_listings(listings, j);
            assert(listing_names(listings[at], own));
        },
    }
    assert(answer_names(reports[k].body, own));
    assert(reports[k].gpu_set == set);
}

/// A server that does not answer, whose answer is not JSON, or whose answer has an array
/// neither under `data` nor under `models`, is passed over. Without answers there are no
/// models.
pub proof fn answers_without_models_are_passed_over(reports: Seq<Report>, report: Report)
    requires
        report.body matches Some(bytes) ==> (json::json_parse(bytes@) matches Ok(reply) ==> {
            &&& json::array_member(reply, "data"@) is None
            &&& json::array_member(reply, "models"@) is None
        }),
    ensures
        models::with_reports(reports.push(report)) == models::with_reports(reports),
        models::with_reports(seq![]).len() == 0,
{
    assert(reports.push(report).drop_last() =~= reports);
}

/// Whether `after` is `before` with more sets: the same model, shown in the same way and
/// asked for by the same id, and the sets that were there come first.
pub open spec fn has_more_sets(before: EntryView, after: EntryView) -> bool {
    &&& after.info == before.info
    &&& after.listing == before.listing
    &&& after.backend_id == before.backend_id
    &&& before.gpu_sets.is_prefix_of(after.gpu_sets)
}

proof fn a_reply_only_adds(
    before: Seq<(Seq<char>, EntryView)>,
    gpu_set: Arc<GpuSet>,
    data: Seq<JsonView>,
    listings: Option<Seq<JsonView>>,
    n: int,
)
    requires
        0 <= n <= data.len(),
    ensures
        ({
            let some = models::with_models(before, gpu_set, data.take(n), listings);
            let all = models::with_models(before, gpu_set, data, listings);
            &&& some.len() <= all.len()
            &&& forall|i: int|
                0 <= i < some.len() ==> (#[trigger] all[i]).0 == some[i].0 && has_more_sets(
                    some[i].1,
                    all[i].1,
                )
        }),
    decreases data.len(),
{
    let some = models::with_models(before, gpu_set, data.take(n), listings);
    let all = models::with_models(before, gpu_set, data, listings);
    if n == data.len() {
        assert(data.take(n) =~= data);
    } else {
        let rest = data.drop_last();
        let earlier = models::with_models(before, gpu_set, rest, listings);
        a_reply_only_adds(before, gpu_set, rest, listings, n);
        assert(rest.take(n) =~= data.take(n));
        if let Some(own) = json::text_member(data.last(), "id"@) {
            models::position_is_first(earlier, models::exposed_id(gpu_set.prefix(), own));
        }
        assert forall|i: int| 0 <= i < some.len() implies (#[trigger] all[i]).0 == some[i].0
            && has_more_sets(some[i].1, all[i].1) by {
            assert(earlier[i].0 == some[i].0);
            assert(has_more_sets(some[i].1, earlier[i].1));
            let sets = some[i].1.gpu_sets;
            assert(all[i].1.gpu_sets.subrange(0, sets.len() as int) =~= sets) by {
                assert(earlier[i].1.gpu_sets.subrange(0, sets.len() as int) =~= sets);
                assert forall|s: int| 0 <= s < sets.len() implies all[i].1.gpu_sets[s]
                    == sets[s] by {
                    assert(earlier[i].1.gpu_sets.subrange(0, sets.len() as int)[s] == sets[s]);
                }
            }
        }
    }
}

/// Later answers take nothing back: a known model stays in its place, is shown as before
/// and asked for by the same id, and the sets that serve it still come first, in their
/// order.
pub proof fn later_answers_only_add_sets(reports: Seq<Report>, report: Report, i: int)
    requires
        0 <= i < models::with_reports(reports).len(),
    ensures
        i < models::with_reports(reports.push(report)).len(),
        models::with_reports(reports.push(report))[i].0 == models::with_reports(reports)[i].0,
        has_more_sets(
            models::with_reports(reports)[i].1,
            models::with_reports(reports.push(report))[i].1,
        ),
{
    let before = models::with_reports(reports);
    let all = models::with_reports(reports.push(report));
    assert(reports.push(report).drop_last() =~= reports);
    let sets = before[i].1.gpu_sets;
    assert(sets.subrange(0, sets.len() as int) =~= sets);
    if let Some(reply) = report.document() {
        if let Some(data) = models::reported_models(reply) {
            a_reply_only_adds(
                before,
                report.gpu_set,
                data,
                json::array_member(reply, "models"@),
                0,
            );
            assert(data.take(0) =~= seq![]);
            assert(all[i].0 == before[i].0);
        }
    }
}

proof fn ids_come_from_replies(
    before: Seq<(Seq<char>, EntryView)>,
    gpu_set: Arc<GpuSet>,
    data: Seq<JsonView>,
    listings: Option<Seq<JsonView>>,
    i: int,
)
    requires
        before.len() <= i < models::with_models(before, gpu_set, data, listings).len(),
    ensures
        exists|j: int| #[trigger]
            reply_has(
                data,
                gpu_set.prefix(),
                models::with_models(before, gpu_set, data, listings)[i].0,
                j,
            ),
    decreases data.len(),
{
    let all = models::with_models(before, gpu_set, data, listings);
    if data.len() > 0 {
        let rest = data.drop_last();
        let earlier = models::with_models(before, gpu_set, rest, listings);
        if let Some(own) = json::text_member(data.last(), "id"@) {
            models::position_is_first(earlier, models::exposed_id(gpu_set.prefix(), own));
        }
        if i < earlier.len() {
            ids_come_from_replies(before, gpu_set, rest, listings, i);
            let j = choose|j: int| #[trigger]
                reply_has(rest, gpu_set.prefix(), earlier[i].0, j);
            assert(rest[j] == data[j]);
            assert(reply_has(data, gpu_set.prefix(), all[i].0, j));
        } else {
            assert(reply_has(data, gpu_set.prefix(), all[i].0, data.len() - 1));
        }
    }
}

/// Whether the `j`th model of a reply is the first with its id.
pub open spec fn first_of_its_id(data: Seq<JsonView>, j: int, own: Seq<char>) -> bool {
    &&& 0 <= j < data.len()
    &&& json::text_member(data[j], "id"@) == Some(own)
    &&& forall|i: int| 0 <= i < j ==> json::text_member(#[trigger] data[i], "id"@) != Some(own)
}

proof fn a_new_model_is_taken_up(
    before: Seq<(Seq<char>, EntryView)>,
    gpu_set: Arc<GpuSet>,
    data: Seq<JsonView>,
    listings: Option<Seq<JsonView>>,
    j: int,
    own: Seq<char>,
) -> (i: int)
    requires
        first_of_its_id(data, j, own),
        forall|i: int|
            0 <= i < before.len() ==> (#[trigger] before[i]).0 != models::exposed_id(
                gpu_set.prefix(),
                own,
            ),
    ensures
        ({
            let all = models::with_models(before, gpu_set, data, listings);
            &&& 0 <= i < all.len()
            &&& all[i].0 == models::exposed_id(gpu_set.prefix(), own)
            &&& has_more_sets(models::new_entry(gpu_set, data[j], own, listings), all[i].1)
        }),
{
    let id = models::exposed_id(gpu_set.prefix(), own);
    let some = data.take(j + 1);
    let earlier = data.take(j);
    let found = models::with_models(before, gpu_set, earlier, listings);
    let after = models::with_models(before, gpu_set, some, listings);
    assert(some.drop_last() =~= earlier);
    assert(some.last() == data[j]);
    models::position_is_first(found, id);
    models::models_stay(before, gpu_set, earlier, listings);
    let at = models::position(found, id) as int;
    if at < found.len() {
        if at < before.len() {
            assert(before[at].0 == id);
        } else {
            ids_come_from_replies(before, gpu_set, earlier, listings, at);
            let k = choose|k: int| #[trigger] reply_has(earlier, gpu_set.prefix(), id, k);
            let other = json::text_member(earlier[k], "id"@)->Some_0;
            models::exposed_ids_differ(gpu_set.prefix(), other, own);
            assert(data[k] == earlier[k]);
        }
        assert(false);
    }
    a_reply_only_adds(before, gpu_set, data, listings, j + 1);
    let all = models::with_models(before, gpu_set, data, listings);
    assert(after[at].0 == id);
    assert(all[at].0 == id);
    at
}

/// Whether `after` is `before` with the string `text` under `key` and otherwise the same.
pub open spec fn differs_at(
    before: JsonView,
    after: JsonView,
    key: Seq<char>,
    text: Seq<char>,
) -> bool {
    &&& json::text_member(after, key) == Some(text)
    &&& forall|other: Seq<char>|
        other != key ==> #[trigger] json::member(after, other) == json::member(before, other)
}

/// Whether `listing` is what to show of the listings for the model `own`: the first that
/// has it under `model`, with `id` there instead, or nothing if none has it.
pub open spec fn listing_for(
    listings: Option<Seq<JsonView>>,
    own: Seq<char>,
    id: Seq<char>,
    listing: Option<JsonView>,
) -> bool {
    match listings {
        Some(listings) => {
            &&& listing is None ==> forall|j: int|
                0 <= j < listings.len() ==> json::text_member(#[trigger] listings[j], "model"@)
                    != Some(own)
            &&& listing matches Some(shown) ==> exists|j: int|
                {
                    &&& 0 <= j < listings.len()
                    &&& differs_at(#[trigger] listings[j], shown, "model"@, id)
                    &&& json::text_member(listings[j], "model"@) == Some(own)
                    &&& forall|i: int|
                        0 <= i < j ==> json::text_member(#[trigger] listings[i], "model"@) != Some(
                            own,
                        )
                }
        },
        None => listing is None,
    }
}

proof fn listings_are_found(listings: Seq<JsonView>, own: Seq<char>, id: Seq<char>)
    ensures
        listing_for(
            Some(listings),
            own,
            id,
            models::exposed_listing(Some(listings), own, id),
        ),
    decreases listings.len(),
{
    let listing = models::exposed_listing(Some(listings), own, id);
    if listings.len() > 0 {
        if json::text_member(listings[0], "model"@) == Some(own) {
            assert(differs_at(listings[0], listing->Some_0, "model"@, id));
        } else {
            let rest = listings.skip(1);
            listings_are_found(rest, own, id);
            assert(models::exposed_listing(Some(rest), own, id) == listing);
            if let Some(shown) = listing {
                let j = choose|j: int|
                    {
                        &&& 0 <= j < rest.len()
                        &&& differs_at(#[trigger] rest[j], shown, "model"@, id)
                        &&& json::text_member(rest[j], "model"@) == Some(own)
                        &&& forall|i: int|
                            0 <= i < j ==> json::text_member(#[trigger] rest[i], "model"@) != Some(
                                own,
                            )
                    };
                assert(listings[j + 1] == rest[j]);
                assert forall|i: int| 0 <= i < j + 1 implies json::text_member(
                    #[trigger] listings[i],
                    "model"@,
                ) != Some(own) by {
                    if i > 0 {
                        assert(rest[i - 1] == listings[i]);
                    }
                }
                assert(differs_at(listings[j + 1], shown, "model"@, id));
            } else {
                assert forall|j: int| 0 <= j < listings.len() implies json::text_member(
                    #[trigger] listings[j],
                    "model"@,
                ) != Some(own) by {
                    if j > 0 {
                        assert(rest[j - 1] == listings[j]);
                    }
                }
            }
        }
    }
}

/// A model that nobody named before is shown as the answer that names it first describes
/// it, by the first of its id under `data`: every member is kept, but for the id, which is
/// the one that clients know the model by. With it goes the first listing of the same
/// answer that has the model, under that id too. The backend is asked for it by its own
/// id, and the set that answered is the first that serves it.
pub proof fn new_models_are_shown_as_described(
    reports: Seq<Report>,
    report: Report,
    bytes: Vec<u8>,
    reply: JsonView,
    data: Seq<JsonView>,
    j: int,
    own: Seq<char>,
)
    requires
        report.body == Some(bytes),
        json::json_parse(bytes@) == Ok::<JsonView, Seq<char>>(reply),
        json::array_member(reply, "data"@) == Some(data),
        first_of_its_id(data, j, own),
        forall|i: int|
            0 <= i < models::with_reports(reports).len() ==> (#[trigger] models::with_reports(
                reports,
            )[i]).0 != client_id(&*report.gpu_set, own),
    ensures
        exists|i: int|
            {
                let id = client_id(&*report.gpu_set, own);
                &&& 0 <= i < models::with_reports(reports.push(report)).len()
                &&& (#[trigger] models::with_reports(reports.push(report))[i]).0 == id
                &&& shown_as(
                    models::with_reports(reports.push(report))[i].1,
                    report.gpu_set,
                    data[j],
                    json::array_member(reply, "models"@),
                    own,
                    id,
                )
            },
{
    let before = models::with_reports(reports);
    let listings = json::array_member(reply, "models"@);
    let id = client_id(&*report.gpu_set, own);
    client_ids_are_exposed(&*report.gpu_set, own);
    assert(reports.push(report).drop_last() =~= reports);
    let i = a_new_model_is_taken_up(before, report.gpu_set, data, listings, j, own);
    let all = models::with_reports(reports.push(report));
    new_entries_are_shown_as_described(report.gpu_set, data[j], own, listings, all[i].1);
    assert(all[i].0 == id);
}

/// Whether an entry shows `model`, which the backend knows as `own` and clients as `id`,
/// with its listing, and has `gpu_set` as the first of its sets.
pub open spec fn shown_as(
    entry: EntryView,
    gpu_set: Arc<GpuSet>,
    model: JsonView,
    listings: Option<Seq<JsonView>>,
    own: Seq<char>,
    id: Seq<char>,
) -> bool {
    &&& differs_at(model, entry.info, "id"@, id)
    &&& listing_for(listings, own, id, entry.listing)
    &&& entry.backend_id == own
    &&& entry.gpu_sets.len() > 0
    &&& entry.gpu_sets[0] == gpu_set
}

proof fn new_entries_are_shown_as_described(
    gpu_set: Arc<GpuSet>,
    model: JsonView,
    own: Seq<char>,
    listings: Option<Seq<JsonView>>,
    entry: EntryView,
)
    requires
        json::text_member(model, "id"@) == Some(own),
        has_more_sets(models::new_entry(gpu_set, model, own, listings), entry),
    ensures
        shown_as(entry, gpu_set, model, listings, own, client_id(&*gpu_set, own)),
{
    client_ids_are_exposed(&*gpu_set, own);
    let first = seq![gpu_set];
    assert(entry.gpu_sets.subrange(0, 1)[0] == first[0]);
    if let Some(listings) = listings {
        listings_are_found(listings, own, client_id(&*gpu_set, own));
    }
}

proof fn listed_models_are_bare(listings: Seq<JsonView>, n: int)
    requires
        0 <= n < models::listed_models(listings).len(),
    ensures
        exists|own: Seq<char>| models::listed_models(listings)[n] == #[trigger] models::bare_model(
            own,
        ),
    decreases listings.len(),
{
    let before = models::listed_models(listings.drop_last());
    if n < before.len() {
        listed_models_are_bare(listings.drop_last(), n);
    }
}

/// The same where the answer has no array under `data`: of a model that is only listed,
/// nothing is shown but its id and that it is a model.
pub proof fn listed_models_are_shown_by_their_ids(
    reports: Seq<Report>,
    report: Report,
    bytes: Vec<u8>,
    reply: JsonView,
    listings: Seq<JsonView>,
    own: Seq<char>,
)
    requires
        report.body == Some(bytes),
        json::json_parse(bytes@) == Ok::<JsonView, Seq<char>>(reply),
        json::array_member(reply, "data"@) is None,
        json::array_member(reply, "models"@) == Some(listings),
        exists|j: int| 0 <= j < listings.len() && listing_names(#[trigger] listings[j], own),
        forall|i: int|
            0 <= i < models::with_reports(reports).len() ==> (#[trigger] models::with_reports(
                reports,
            )[i]).0 != client_id(&*report.gpu_set, own),
    ensures
        exists|i: int|
            {
                let id = client_id(&*report.gpu_set, own);
                let entry = models::with_reports(reports.push(report))[i].1;
                &&& 0 <= i < models::with_reports(reports.push(report)).len()
                &&& (#[trigger] models::with_reports(reports.push(report))[i]).0 == id
                &&& json::text_member(entry.info, "id"@) == Some(id)
                &&& json::text_member(entry.info, "object"@) == Some("model"@)
                &&& forall|key: Seq<char>| #[trigger]
                    json::member(entry.info, key) is Some <==> key == "id"@ || key == "object"@
                &&& listing_for(Some(listings), own, id, entry.listing)
                &&& entry.backend_id == own
                &&& entry.gpu_sets.len() > 0
                &&& entry.gpu_sets[0] == report.gpu_set
            },
{
    reveal_strlit("id");
    reveal_strlit("object");
    assert("id"@.len() != "object"@.len());
    let before = models::with_reports(reports);
    let set = report.gpu_set;
    let id = client_id(&*set, own);
    client_ids_are_exposed(&*set, own);
    assert(reports.push(report).drop_last() =~= reports);
    let data = models::listed_models(listings);
    let j = choose|j: int| 0 <= j < listings.len() && listing_names(#[trigger] listings[j], own);
    let n = listings_are_listed_models(listings, j, own);
    let first = first_index_of(data, n, own);
    let i = a_new_model_is_taken_up(before, set, data, Some(listings), first, own);
    let all = models::with_reports(reports.push(report));
    new_entries_are_shown_as_described(set, data[first], own, Some(listings), all[i].1);
    listed_models_are_bare(listings, first);
    let entry = all[i].1;
    assert(data[first] == models::bare_model(own));
    assert(all[i].0 == id);
    assert(entry.info == json::with_member(data[first], "id"@, JsonView::Text(id)));
}

proof fn first_index_of(data: Seq<JsonView>, n: int, own: Seq<char>) -> (j: int)
    requires
        0 <= n < data.len(),
        json::text_member(data[n], "id"@) == Some(own),
    ensures
        first_of_its_id(data, j, own),
    decreases n,
{
    if exists|i: int| 0 <= i < n && json::text_member(#[trigger] data[i], "id"@) == Some(own) {
        let i = choose|i: int|
            0 <= i < n && json::text_member(#[trigger] data[i], "id"@) == Some(own);
        first_index_of(data, i, own)
    } else {
        n
    }
}

/// One more model under `data` of an answer joins the set to that model, unless the set
/// served it by another answer, and leaves all other models as they are. One without an id
/// changes nothing.
pub proof fn each_model_of_an_answer_joins_its_set(
    before: Seq<(Seq<char>, EntryView)>,
    gpu_set: Arc<GpuSet>,
    data: Seq<JsonView>,
    model: JsonView,
    listings: Option<Seq<JsonView>>,
    i: int,
)
    requires
        0 <= i < models::with_models(before, gpu_set, data, listings).len(),
        models::models_wf(before),
    ensures
        ({
            let found = models::with_models(before, gpu_set, data, listings);
            let after = models::with_models(before, gpu_set, data.push(model), listings);
            &&& i < after.len()
            &&& match json::text_member(model, "id"@) {
                Some(own) => {
                    let named = found[i].0 == client_id(&*gpu_set, own);
                    let served = i < before.len() && gpu_set::has_set(
                        before[i].1.gpu_sets,
                        gpu_set.name@,
                    );
                    after[i] == if named && !served {
                        (
                            found[i].0,
                            EntryView { gpu_sets: found[i].1.gpu_sets.push(gpu_set), ..found[i].1 },
                        )
                    } else {
                        found[i]
                    }
                },
                None => after == found,
            }
        }),
{
    let found = models::with_models(before, gpu_set, data, listings);
    let after = models::with_models(before, gpu_set, data.push(model), listings);
    assert(data.push(model).drop_last() =~= data);
    models::models_stay(before, gpu_set, data, listings);
    models::with_models_keeps_wf(before, gpu_set, data, listings);
    if let Some(own) = json::text_member(model, "id"@) {
        let id = client_id(&*gpu_set, own);
        client_ids_are_exposed(&*gpu_set, own);
        models::position_is_first(found, id);
        models::position_is_first(before, id);
        let at = models::position(found, id) as int;
        if found[i].0 == id {
            if at < i {
                assert(found[at].0 != found[i].0);
            } else if i < at {
                assert(found[i].0 != id);
            }
            if i < before.len() {
                assert(before[i].0 == id);
                models::ids_are_looked_up(before, id, i);
            } else {
                assert forall|k: int| 0 <= k < before.len() implies (#[trigger] before[k]).0
                    != id by {
                    assert(found[k].0 != found[i].0);
                }
                models::ids_are_looked_up(before, id, i);
            }
        }
    }
}

} // verus!
