//! GPU sets: servers that share GPUs and therefore take turns.

use std::sync::atomic::AtomicUsize;
use std::sync::Arc;
use tokio::sync::Semaphore;
use vstd::prelude::*;

use crate::config::ServerEntry;
use crate::text;

verus! {

/// A semaphore of `tokio`.
#[verifier::external_type_specification]
#[verifier::external_body]
pub struct ExSemaphore(tokio::sync::Semaphore);

/// How many permits a semaphore was made with.
pub uninterp spec fn permits(semaphore: tokio::sync::Semaphore) -> nat;

/// `Semaphore::new`: a semaphore with the given number of permits. It panics
/// above `Semaphore::MAX_PERMITS`, an eighth of what `usize` holds.
#[verifier::external_body]
fn new_semaphore(count: usize) -> (r: Semaphore)
    requires
        count <= usize::MAX / 8,
    ensures
        permits(r) == count,
{
    Semaphore::new(count)
}

/// The value that a counter was made with.
pub uninterp spec fn started_at(counter: AtomicUsize) -> nat;

/// `AtomicUsize::new`: a counter that starts at the given value.
#[verifier::external_body]
fn new_counter(start: usize) -> (r: AtomicUsize)
    ensures
        started_at(r) == start,
{
    AtomicUsize::new(start)
}

/// How many inference requests a GPU set works on at a time.
pub const SLOTS: usize = 1;

pub struct GpuSet {
    pub name: String,
    pub servers: Vec<ServerEntry>,
    pub models_path: String,
    pub semaphore: Arc<Semaphore>,
    pub next_server: AtomicUsize,
    /// Dynamically registered nodes are commonly addressed by IP and use a
    /// locally issued/self-signed certificate.
    pub trust_invalid_tls: bool,
    /// Prefix applied to model ids exposed by dynamically registered hosts.
    /// The backend still receives its original, unprefixed id.
    pub model_prefix: Option<String>,
}

impl GpuSet {
    /// A set that can serve requests: it has a server, and works on one request
    /// at a time.
    pub open spec fn wf(&self) -> bool {
        &&& self.servers@.len() > 0
        &&& permits(*self.semaphore) == SLOTS
    }

    /// The prefix of the model ids that the set exposes.
    pub open spec fn prefix(&self) -> Option<Seq<char>> {
        text::opt_text(self.model_prefix)
    }

    pub fn new(
        name: String,
        servers: Vec<ServerEntry>,
        models_path: String,
        trust_invalid_tls: bool,
        model_prefix: Option<String>,
    ) -> (r: Self)
        ensures
            r.name == name,
            r.servers == servers,
            r.models_path == models_path,
            r.trust_invalid_tls == trust_invalid_tls,
            r.model_prefix == model_prefix,
            permits(*r.semaphore) == SLOTS,
            started_at(r.next_server) == 0,
    {
        GpuSet {
            name,
            servers,
            models_path,
            semaphore: Arc::new(new_semaphore(SLOTS)),
            next_server: new_counter(0),
            trust_invalid_tls,
            model_prefix,
        }
    }
}

/// Whether each set has a name of its own.
pub open spec fn names_distinct(sets: Seq<Arc<GpuSet>>) -> bool {
    forall|i: int, j: int|
        0 <= i < j < sets.len() ==> (#[trigger] sets[i]).name@ != (#[trigger] sets[j]).name@
}

/// Whether one of the sets goes by `name`.
pub open spec fn has_set(sets: Seq<Arc<GpuSet>>, name: Seq<char>) -> bool {
    exists|s: int| 0 <= s < sets.len() && (#[trigger] sets[s]).name@ == name
}

/// Whether one of the sets goes by `name`.
pub fn finds_set(sets: &Vec<Arc<GpuSet>>, name: &String) -> (r: bool)
    ensures
        r == has_set(sets@, name@),
{
    let mut i: usize = 0;
    while i < sets.len()
        invariant
            i <= sets@.len(),
            forall|s: int| 0 <= s < i ==> (#[trigger] sets@[s]).name@ != name@,
        decreases sets@.len() - i,
    {
        if sets[i].name == *name {
            proof {
                assert(sets@[i as int].name@ == name@);
            }
            return true;
        }
        i = i + 1;
    }
    false
}

/// `Arc::clone`: another pointer to the same set.
#[verifier::external_body]
pub(crate) fn share(gpu_set: &Arc<GpuSet>) -> (r: Arc<GpuSet>)
    ensures
        r == *gpu_set,
{
    Arc::clone(gpu_set)
}

/// A set is among others exactly if one of them has its name, whole.
pub proof fn sets_go_by_their_names(sets: Seq<Arc<GpuSet>>, set: Arc<GpuSet>, name: Seq<char>)
    ensures
        !has_set(seq![], name),
        has_set(sets.push(set), name) <==> has_set(sets, name) || set.name@ == name,
        names_distinct(sets.push(set)) <==> names_distinct(sets) && !has_set(sets, set.name@),
{
    let more = sets.push(set);
    assert forall|s: int| 0 <= s < sets.len() implies #[trigger] sets[s] == more[s] by {}
    assert(more[sets.len() as int] == set);
    if has_set(sets, name) {
        let s = choose|s: int| 0 <= s < sets.len() && (#[trigger] sets[s]).name@ == name;
        assert(more[s].name@ == name);
    }
    if names_distinct(more) {
        assert forall|i: int, j: int| 0 <= i < j < sets.len() implies (
        #[trigger] sets[i]).name@ != (#[trigger] sets[j]).name@ by {
            assert(more[i].name@ != more[j].name@);
        }
        assert forall|s: int| 0 <= s < sets.len() implies (#[trigger] sets[s]).name@
            != set.name@ by {
            assert(more[s].name@ != more[sets.len() as int].name@);
        }
    }
}

/// The prefix of a set is the one that it was made with, if it was made with one.
pub proof fn prefixes_are_seen_whole(set: GpuSet)
    ensures
        set.prefix() is None <==> set.model_prefix is None,
        set.model_prefix matches Some(prefix) ==> set.prefix() == Some(prefix@),
{
}

} // verus!
