//! Hook definitions, the registry snapshot and its indices, the collector
//! that walks a directory snapshot, and the blueprint that rebuilds and
//! swaps registry snapshots atomically.

use std::sync::Arc;

use vstd::prelude::*;
use vstd::rwlock::{RwLock, RwLockPredicate};
use vstd::string::StringExecFns;

use crate::errors::{ErrorKind, FisherError};
use crate::fs;
use crate::fs::{
    spec_collect, spec_entries_size, spec_first_unknown, spec_queue_size, spec_step_queue,
    CollectFailure, DirListing, FileEntry, FsEntry, FsRoot, FsSnapshot,
};
use crate::jobs::Job;
use crate::providers::{
    spec_matches_decl, EventKind, JobOutput, Provider, ProviderDecl, Request, StatusEvent,
};
use crate::text;

verus! {

/// The source of process-unique hook ids: a counter that only grows.
pub struct State {
    next: u64,
}

impl State {
    /// The id the next loaded hook will receive.
    pub closed spec fn spec_next(&self) -> u64 {
        self.next
    }

    /// A fresh id source.
    pub fn new() -> (r: State)
        ensures
            r.spec_next() == 1,
    {
        State { next: 1 }
    }

    /// Draws the next id. Ids are drawn in increasing order, so every id
    /// this source hands out is distinct.
    pub fn next_id(&mut self) -> (r: u64)
        requires
            old(self).spec_next() < u64::MAX,
        ensures
            r == old(self).spec_next(),
            final(self).spec_next() == r + 1,
    {
        let id = self.next;
        self.next = self.next + 1;
        id
    }
}

/// An executable hook: a process-unique id, a display name, the
/// canonicalized path of its executable, and its declared providers.
/// Immutable once constructed; shared read-only across snapshots and jobs.
pub struct Hook {
    id: u64,
    name: String,
    exec_path: String,
    providers: Vec<Arc<Provider>>,
}

impl Hook {
    /// The process-unique id assigned when the hook was loaded.
    pub closed spec fn spec_id(&self) -> u64 {
        self.id
    }

    /// The display name: the path relative to the collection base.
    pub closed spec fn spec_name(&self) -> Seq<char> {
        self.name@
    }

    /// The canonicalized path of the executable.
    pub closed spec fn spec_exec_path(&self) -> Seq<char> {
        self.exec_path@
    }

    /// The declared providers, in declaration order.
    pub closed spec fn spec_providers(&self) -> Seq<Arc<Provider>> {
        self.providers@
    }

    /// A hook is well formed when each of its providers is.
    pub open spec fn wf(&self) -> bool {
        forall|i: int|
            0 <= i < self.spec_providers().len() ==> (#[trigger] self.spec_providers()[i]).wf()
    }

    /// The id assigned when the hook was loaded.
    pub fn id(&self) -> (r: u64)
        ensures
            r == self.spec_id(),
    {
        self.id
    }

    /// The display name.
    pub fn name(&self) -> (r: &str)
        ensures
            r@ == self.spec_name(),
    {
        self.name.as_str()
    }

    /// The canonicalized path of the executable.
    pub fn exec_path(&self) -> (r: &str)
        ensures
            r@ == self.spec_exec_path(),
    {
        self.exec_path.as_str()
    }

    /// Loads a hook from its parts, resolving each declared provider and
    /// drawing a fresh id. Fails with `ProviderNotFound` on the first
    /// declared provider that has no implementation, leaving the id source
    /// untouched.
    pub fn load(name: String, exec_path: String, decls: &Vec<ProviderDecl>, state: &mut State) -> (r:
        Result<Arc<Hook>, FisherError>)
        requires
            old(state).spec_next() < u64::MAX,
        ensures
            r is Ok <==> spec_first_unknown(decls@) is None,
            r matches Ok(h) ==> spec_loaded_hook(h, name@, exec_path@, decls@, old(state).spec_next())
                && final(state).spec_next() == old(state).spec_next() + 1,
            r matches Err(e) ==> {
                &&& e.spec_kind() matches ErrorKind::ProviderNotFound(n) && Some(n)
                    == spec_first_unknown(decls@)
                &&& *final(state) == *old(state)
            },
    {
        let mut providers: Vec<Arc<Provider>> = Vec::new();
        let mut i: usize = 0;
        proof {
            assert(decls@.skip(0) =~= decls@);
        }
        while i < decls.len()
            invariant
                i <= decls@.len(),
                providers@.len() == i,
                forall|j: int|
                    0 <= j < i ==> spec_matches_decl(*(#[trigger] providers@[j]), decls@[j])
                        && providers@[j].wf(),
                spec_first_unknown(decls@) == spec_first_unknown(decls@.skip(i as int)),
            decreases decls@.len() - i,
        {
            proof {
                assert(decls@.skip(i as int).drop_first() =~= decls@.skip(i as int + 1));
                assert(decls@.skip(i as int)[0] == decls@[i as int]);
            }
            match crate::providers::resolve_decl(&decls[i]) {
                Ok(p) => {
                    providers.push(Arc::new(p));
                },
                Err(e) => {
                    proof {
                        assert(spec_first_unknown(decls@.skip(i as int)) == Some(
                            decls@[i as int].name,
                        ));
                    }
                    return Err(e);
                },
            }
            i += 1;
        }
        proof {
            assert(decls@.skip(decls@.len() as int) =~= Seq::<ProviderDecl>::empty());
        }
        let id = state.next_id();
        Ok(Arc::new(Hook { id, name, exec_path, providers }))
    }
}

/// Whether `h` is the hook that loading `name`/`exec_path` with the given
/// declarations and id produces.
pub open spec fn spec_loaded_hook(
    h: Arc<Hook>,
    name: Seq<char>,
    exec_path: Seq<char>,
    decls: Seq<ProviderDecl>,
    id: u64,
) -> bool {
    &&& h.spec_id() == id
    &&& h.spec_name() == name
    &&& h.spec_exec_path() == exec_path
    &&& h.spec_providers().len() == decls.len()
    &&& forall|i: int|
        0 <= i < decls.len() ==> spec_matches_decl(*(#[trigger] h.spec_providers()[i]), decls[i])
    &&& h.wf()
}

/// One entry of the event-kind index: a hook together with the status
/// provider of its that subscribed.
pub struct HookProvider {
    pub hook: Arc<Hook>,
    pub provider: Arc<Provider>,
}

/// The index entries one hook's first `n` providers contribute for kind
/// `k`: one pair per status provider subscribing to `k`, in declaration
/// order.
pub open spec fn spec_provider_pairs(h: Arc<Hook>, provs: Seq<Arc<Provider>>, k: EventKind) -> Seq<
    HookProvider,
>
    decreases provs.len(),
{
    if provs.len() == 0 {
        Seq::empty()
    } else {
        spec_provider_pairs(h, provs.drop_last(), k) + (if provs.last().spec_subscribes(k) {
            seq![HookProvider { hook: h, provider: provs.last() }]
        } else {
            Seq::empty()
        })
    }
}

/// The index entries one hook contributes for kind `k`.
pub open spec fn spec_hook_pairs(h: Arc<Hook>, k: EventKind) -> Seq<HookProvider> {
    spec_provider_pairs(h, h.spec_providers(), k)
}

/// The full event-kind index for `k` over a hook list: each hook's
/// contributions, in insertion order.
pub open spec fn spec_kind_index(hooks: Seq<Arc<Hook>>, k: EventKind) -> Seq<HookProvider>
    decreases hooks.len(),
{
    if hooks.len() == 0 {
        Seq::empty()
    } else {
        spec_kind_index(hooks.drop_last(), k) + spec_hook_pairs(hooks.last(), k)
    }
}

/// The hook a name resolves to: the last-inserted hook with that name.
pub open spec fn spec_lookup_name(hooks: Seq<Arc<Hook>>, name: Seq<char>) -> Option<Arc<Hook>>
    decreases hooks.len(),
{
    if hooks.len() == 0 {
        None
    } else if hooks.last().spec_name() == name {
        Some(hooks.last())
    } else {
        spec_lookup_name(hooks.drop_last(), name)
    }
}

/// Whether some hook in the list carries the given id.
pub open spec fn spec_id_exists(hooks: Seq<Arc<Hook>>, id: u64) -> bool {
    exists|i: int| 0 <= i < hooks.len() && (#[trigger] hooks[i]).spec_id() == id
}

/// One immutable registry snapshot: the hook list in insertion order, and
/// the event-kind index derived from it. Lookups by name and id scan the
/// list; the per-kind pair lists are materialized because fan-out walks
/// them in registration order.
pub struct HooksInner {
    hooks: Vec<Arc<Hook>>,
    completed: Vec<HookProvider>,
    failed: Vec<HookProvider>,
}

impl HooksInner {
    /// The hooks of this snapshot, in insertion order.
    pub closed spec fn spec_hooks(&self) -> Seq<Arc<Hook>> {
        self.hooks@
    }

    /// The event-kind index for `k`, in registration order.
    pub closed spec fn spec_index(&self, k: EventKind) -> Seq<HookProvider> {
        match k {
            EventKind::JobCompleted => self.completed@,
            EventKind::JobFailed => self.failed@,
        }
    }

    /// A snapshot is well formed when each per-kind list is exactly the
    /// index derived from the hook list, and every hook is well formed.
    pub open spec fn wf(&self) -> bool {
        &&& self.spec_index(EventKind::JobCompleted) == spec_kind_index(
            self.spec_hooks(),
            EventKind::JobCompleted,
        )
        &&& self.spec_index(EventKind::JobFailed) == spec_kind_index(
            self.spec_hooks(),
            EventKind::JobFailed,
        )
        &&& forall|i: int| 0 <= i < self.spec_hooks().len() ==> (#[trigger] self.spec_hooks()[i]).wf()
    }

    /// An empty snapshot.
    pub fn new() -> (r: HooksInner)
        ensures
            r.spec_hooks() =~= Seq::<Arc<Hook>>::empty(),
            r.wf(),
    {
        HooksInner { hooks: Vec::new(), completed: Vec::new(), failed: Vec::new() }
    }

    /// Inserts one hook: appends it to the list and registers each of its
    /// status providers under every event kind it subscribes to, once per
    /// kind. Each kind's index gains exactly the new hook's pairs for that
    /// kind, at its end; a kind no provider of the hook subscribes to, and
    /// every non-status provider, contribute nothing.
    pub fn insert(&mut self, hook: Arc<Hook>)
        requires
            old(self).wf(),
            hook.wf(),
        ensures
            final(self).wf(),
            final(self).spec_hooks() == old(self).spec_hooks().push(hook),
            forall|k: EventKind|
                final(self).spec_index(k) == old(self).spec_index(k) + spec_hook_pairs(hook, k),
    {
        self.hooks.push(hook.clone());
        let ghost provs = hook.spec_providers();
        let ghost completed0 = self.completed@;
        let ghost failed0 = self.failed@;
        let mut i: usize = 0;
        let n = hook.providers.len();
        while i < n
            invariant
                n == provs.len(),
                provs == hook.spec_providers(),
                i <= n,
                self.completed@ == completed0 + spec_provider_pairs(
                    hook,
                    provs.take(i as int),
                    EventKind::JobCompleted,
                ),
                self.failed@ == failed0 + spec_provider_pairs(
                    hook,
                    provs.take(i as int),
                    EventKind::JobFailed,
                ),
                self.hooks@ == old(self).hooks@.push(hook),
            decreases n - i,
        {
            proof {
                assert(provs.take(i as int + 1).drop_last() =~= provs.take(i as int));
                assert(provs.take(i as int + 1).last() == provs[i as int]);
            }
            let p = &hook.providers[i];
            if p.subscribes(EventKind::JobCompleted) {
                self.completed.push(HookProvider { hook: hook.clone(), provider: p.clone() });
                proof {
                    assert(self.completed@ =~= completed0 + spec_provider_pairs(
                        hook,
                        provs.take(i as int + 1),
                        EventKind::JobCompleted,
                    ));
                }
            }
            if p.subscribes(EventKind::JobFailed) {
                self.failed.push(HookProvider { hook: hook.clone(), provider: p.clone() });
                proof {
                    assert(self.failed@ =~= failed0 + spec_provider_pairs(
                        hook,
                        provs.take(i as int + 1),
                        EventKind::JobFailed,
                    ));
                }
            }
            i += 1;
        }
        proof {
            assert(provs.take(provs.len() as int) =~= provs);
            assert(old(self).hooks@.push(hook).drop_last() =~= old(self).hooks@);
            assert(self.completed@ =~= spec_kind_index(self.hooks@, EventKind::JobCompleted));
            assert(self.failed@ =~= spec_kind_index(self.hooks@, EventKind::JobFailed));
            assert(forall|k: EventKind|
                self.spec_index(k) == old(self).spec_index(k) + spec_hook_pairs(hook, k)) by {
                assert(self.completed@ =~= old(self).completed@ + spec_hook_pairs(
                    hook,
                    EventKind::JobCompleted,
                ));
                assert(self.failed@ =~= old(self).failed@ + spec_hook_pairs(
                    hook,
                    EventKind::JobFailed,
                ));
            }
        }
    }

    /// The last-inserted hook with the given name: on a name collision the
    /// hook inserted last wins.
    pub fn get_by_name(&self, name: &str) -> (r: Option<Arc<Hook>>)
        ensures
            r == spec_lookup_name(self.spec_hooks(), name@),
    {
        let mut i = self.hooks.len();
        proof {
            assert(self.hooks@.take(self.hooks@.len() as int) =~= self.hooks@);
        }
        while i > 0
            invariant
                i <= self.hooks@.len(),
                spec_lookup_name(self.hooks@, name@) == spec_lookup_name(
                    self.hooks@.take(i as int),
                    name@,
                ),
            decreases i,
        {
            proof {
                assert(self.hooks@.take(self.hooks@.len() as int) =~= self.hooks@);
                assert(self.hooks@.take(i as int).drop_last() =~= self.hooks@.take(i as int - 1));
                assert(self.hooks@.take(i as int).last() == self.hooks@[i as int - 1]);
            }
            i -= 1;
            if text::str_eq(self.hooks[i].name(), name) {
                return Some(self.hooks[i].clone());
            }
        }
        proof {
            assert(self.hooks@.take(0) =~= Seq::<Arc<Hook>>::empty());
        }
        None
    }

    /// Whether a hook with the given id is in this snapshot.
    pub fn id_exists(&self, id: u64) -> (r: bool)
        ensures
            r == spec_id_exists(self.spec_hooks(), id),
    {
        let mut i: usize = 0;
        while i < self.hooks.len()
            invariant
                i <= self.hooks@.len(),
                forall|j: int| 0 <= j < i ==> (#[trigger] self.hooks@[j]).spec_id() != id,
            decreases self.hooks@.len() - i,
        {
            if self.hooks[i].id() == id {
                return true;
            }
            i += 1;
        }
        false
    }
}

/// The status event a job output gives rise to.
pub open spec fn spec_event_for(output: JobOutput) -> StatusEvent {
    if output.success {
        StatusEvent::JobCompleted(output)
    } else {
        StatusEvent::JobFailed(output)
    }
}

/// The invariant of the shared snapshot slot: whatever snapshot is
/// published through it is well formed.
pub struct SnapshotPred;

impl RwLockPredicate<Arc<HooksInner>> for SnapshotPred {
    open spec fn inv(self, v: Arc<HooksInner>) -> bool {
        v.wf()
    }
}

/// A read-only handle sharing the blueprint's swappable snapshot slot —
/// not a copy. Every read acquires the currently published snapshot, so a
/// handle always reflects the latest successful reload. An iterator
/// obtained from a handle captures the snapshot current at that moment and
/// walks that one consistent view to its end.
pub struct Hooks {
    slot: Arc<RwLock<Arc<HooksInner>, SnapshotPred>>,
}

impl Hooks {
    /// The shared snapshot slot this handle reads through.
    pub closed spec fn spec_slot(&self) -> RwLock<Arc<HooksInner>, SnapshotPred> {
        *self.slot
    }

    /// The currently published snapshot: the read lock is held only for
    /// the instant of cloning the snapshot reference. The result is a
    /// complete, well-formed snapshot; which one depends on the reloads
    /// published before the read.
    pub fn snapshot(&self) -> (r: Arc<HooksInner>)
        ensures
            r.wf(),
    {
        let handle = self.slot.acquire_read();
        let r = handle.borrow().clone();
        handle.release_read();
        r
    }

    /// The last-inserted hook with the given name, looked up in the
    /// currently published snapshot.
    pub fn get_by_name(&self, name: &str) -> (r: Option<Arc<Hook>>)
        ensures
            exists|inner: HooksInner|
                #[trigger] inner.wf() && r == spec_lookup_name(inner.spec_hooks(), name@),
    {
        let snap = self.snapshot();
        let r = snap.get_by_name(name);
        proof {
            assert((*snap).wf() && r == spec_lookup_name((*snap).spec_hooks(), name@));
        }
        r
    }

    /// Whether a hook with the given id is in the currently published
    /// snapshot.
    pub fn id_exists(&self, id: u64) -> (r: bool)
        ensures
            exists|inner: HooksInner|
                #[trigger] inner.wf() && r == spec_id_exists(inner.spec_hooks(), id),
    {
        let snap = self.snapshot();
        let r = snap.id_exists(id);
        proof {
            assert((*snap).wf() && r == spec_id_exists((*snap).spec_hooks(), id));
        }
        r
    }

    /// A fresh iterator over the hooks of the snapshot published at this
    /// call, in insertion order: a fresh call starts from the current
    /// snapshot, which may differ between calls if a reload happened.
    pub fn iter(&self) -> (r: HooksIter)
        ensures
            r.spec_inner().wf(),
            r.spec_count() == 0,
    {
        HooksIter { inner: self.snapshot(), count: 0 }
    }

    /// A fresh iterator over the hook names of the snapshot published at
    /// this call, in insertion order.
    pub fn names(&self) -> (r: HookNamesIter)
        ensures
            r.spec_inner().wf(),
            r.spec_count() == 0,
    {
        HookNamesIter { iter: self.iter() }
    }

    /// The jobs a finished job's output gives rise to: `None` when the
    /// triggering context declared that the output must not re-trigger
    /// status hooks; otherwise an iterator over one job per (hook,
    /// provider) pair registered for the output's event kind in the
    /// snapshot published at this call, in registration order.
    pub fn jobs_after_output(&self, output: JobOutput) -> (r: Option<StatusJobsIter>)
        ensures
            r is Some <==> output.trigger_status_hooks,
            r matches Some(it) ==> {
                &&& it.spec_inner().wf()
                &&& it.spec_event() == spec_event_for(output)
                &&& it.spec_count() == 0
            },
    {
        if !output.trigger_status_hooks {
            return None;
        }
        let event = if output.success {
            StatusEvent::JobCompleted(output)
        } else {
            StatusEvent::JobFailed(output)
        };
        Some(StatusJobsIter { inner: self.snapshot(), event, count: 0 })
    }
}

/// An iterator over one snapshot's hooks. It reads exactly the snapshot it
/// was created from: a reload concurrent with iteration changes nothing a
/// live iterator yields.
pub struct HooksIter {
    inner: Arc<HooksInner>,
    count: usize,
}

impl HooksIter {
    /// The snapshot this iterator reads.
    pub closed spec fn spec_inner(&self) -> HooksInner {
        *self.inner
    }

    /// How many hooks were yielded so far.
    pub closed spec fn spec_count(&self) -> usize {
        self.count
    }

    /// The next hook of the captured snapshot, in insertion order.
    pub fn next(&mut self) -> (r: Option<Arc<Hook>>)
        ensures
            final(self).spec_inner() == old(self).spec_inner(),
            old(self).spec_count() < old(self).spec_inner().spec_hooks().len() ==> {
                &&& r == Some(old(self).spec_inner().spec_hooks()[old(self).spec_count() as int])
                &&& final(self).spec_count() == old(self).spec_count() + 1
            },
            old(self).spec_count() >= old(self).spec_inner().spec_hooks().len() ==> {
                &&& r is None
                &&& final(self).spec_count() == old(self).spec_count()
            },
    {
        if self.count < self.inner.hooks.len() {
            let h = self.inner.hooks[self.count].clone();
            self.count += 1;
            Some(h)
        } else {
            None
        }
    }
}

/// An iterator over one snapshot's hook names, in insertion order.
pub struct HookNamesIter {
    iter: HooksIter,
}

impl HookNamesIter {
    /// The snapshot this iterator reads.
    pub closed spec fn spec_inner(&self) -> HooksInner {
        self.iter.spec_inner()
    }

    /// How many names were yielded so far.
    pub closed spec fn spec_count(&self) -> usize {
        self.iter.spec_count()
    }

    /// The next hook name of the captured snapshot.
    pub fn next(&mut self) -> (r: Option<String>)
        ensures
            final(self).spec_inner() == old(self).spec_inner(),
            old(self).spec_count() < old(self).spec_inner().spec_hooks().len() ==> {
                &&& r matches Some(name) && name@ == old(self).spec_inner().spec_hooks()[
                    old(self).spec_count() as int
                ].spec_name()
                &&& final(self).spec_count() == old(self).spec_count() + 1
            },
            old(self).spec_count() >= old(self).spec_inner().spec_hooks().len() ==> {
                &&& r is None
                &&& final(self).spec_count() == old(self).spec_count()
            },
    {
        match self.iter.next() {
            Some(hook) => Some(hook.name().to_owned()),
            None => None,
        }
    }
}

/// An iterator yielding one freshly built job per (hook, provider) pair
/// registered for a status event's kind, in registration order, each
/// carrying the status event as its request. Like the other iterators it
/// walks the snapshot captured at creation, so a concurrent reload never
/// changes what a live iterator yields.
pub struct StatusJobsIter {
    inner: Arc<HooksInner>,
    event: StatusEvent,
    count: usize,
}

impl StatusJobsIter {
    /// The snapshot this iterator reads.
    pub closed spec fn spec_inner(&self) -> HooksInner {
        *self.inner
    }

    /// The status event whose subscribers are walked.
    pub closed spec fn spec_event(&self) -> StatusEvent {
        self.event
    }

    /// How many jobs were yielded so far.
    pub closed spec fn spec_count(&self) -> usize {
        self.count
    }

    /// The next job: the pair at the current position of the event kind's
    /// index, bound to a status request carrying the event.
    pub fn next(&mut self) -> (r: Option<Job>)
        ensures
            final(self).spec_inner() == old(self).spec_inner(),
            final(self).spec_event() == old(self).spec_event(),
            ({
                let idx = old(self).spec_inner().spec_index(old(self).spec_event().spec_kind());
                &&& old(self).spec_count() < idx.len() ==> {
                    &&& r matches Some(job) && job.spec_hook() == idx[
                        old(self).spec_count() as int
                    ].hook && job.spec_provider() == Some(
                        idx[old(self).spec_count() as int].provider,
                    ) && job.spec_request() == Request::Status(old(self).spec_event())
                    &&& final(self).spec_count() == old(self).spec_count() + 1
                }
                &&& old(self).spec_count() >= idx.len() ==> {
                    &&& r is None
                    &&& final(self).spec_count() == old(self).spec_count()
                }
            }),
    {
        let list = match self.event.kind() {
            EventKind::JobCompleted => &self.inner.completed,
            EventKind::JobFailed => &self.inner.failed,
        };
        if self.count < list.len() {
            let pair = &list[self.count];
            self.count += 1;
            Some(Job::new(pair.hook.clone(), Some(pair.provider.clone()), Request::Status(self.event)))
        } else {
            None
        }
    }
}

/// Whether the error `e` reports the collect failure `f`.
pub open spec fn spec_failure_error(e: FisherError, f: CollectFailure) -> bool {
    match f {
        CollectFailure::Io(msg) => e.spec_kind() matches ErrorKind::IoError(m) && m == msg,
        CollectFailure::Invalid(detail) => e.spec_kind() matches ErrorKind::InvalidInput(d) && d
            == detail,
        CollectFailure::UnknownProvider(name) => e.spec_kind()
            matches ErrorKind::ProviderNotFound(n) && n == name,
    }
}

/// Whether the hooks `hooks` are exactly what collecting the files `files`
/// under `base` loads, with ids drawn from `first_id` on.
pub open spec fn spec_hooks_match_files(
    hooks: Seq<Arc<Hook>>,
    files: Seq<FileEntry>,
    base: Seq<char>,
    first_id: u64,
) -> bool {
    &&& hooks.len() == files.len()
    &&& forall|i: int|
        0 <= i < files.len() ==> spec_loaded_hook(
            #[trigger] hooks[i],
            text::spec_relative_name(files[i].path@, base),
            files[i].canonical@,
            files[i].decls@,
            (first_id + i) as u64,
        )
}

/// The walk's ghost view of its state: the unprocessed tail of the listing
/// under the cursor, then the other queued listings.
spec fn spec_model<'a>(q: Seq<&'a Vec<FsEntry>>, cursor: int) -> Seq<Seq<FsEntry>> {
    if q.len() == 0 {
        Seq::empty()
    } else {
        seq![q[0]@.skip(cursor)] + q.skip(1).map_values(|v: &'a Vec<FsEntry>| v@)
    }
}

/// Walks one directory listing breadth first and loads a hook for every
/// qualifying file, drawing sequential ids. Stops at the first failure and
/// returns it after the hooks loaded up to that point.
fn walk_listing<'a>(
    listing: &'a DirListing,
    base: &str,
    recursive: bool,
    state: &mut State,
) -> (r: (Vec<Arc<Hook>>, Option<FisherError>))
    requires
        old(state).spec_next() + spec_queue_size(seq![listing.entries@]) < u64::MAX,
    ensures
        ({
            let plan = spec_collect(seq![listing.entries@], recursive);
            &&& spec_hooks_match_files(r.0@, plan.0, base@, old(state).spec_next())
            &&& final(state).spec_next() == old(state).spec_next() + plan.0.len()
            &&& match plan.1 {
                None => r.1 is None,
                Some(f) => r.1 matches Some(e) && spec_failure_error(e, f),
            }
        }),
{
    let ghost start = state.spec_next();
    let ghost plan = spec_collect(seq![listing.entries@], recursive);
    proof {
        fs::lemma_collect_files_bound(seq![listing.entries@], recursive);
    }
    let mut queue: Vec<&'a Vec<FsEntry>> = Vec::new();
    queue.push(&listing.entries);
    let mut cursor: usize = 0;
    let mut hooks: Vec<Arc<Hook>> = Vec::new();
    let ghost mut done: Seq<FileEntry> = Seq::empty();
    proof {
        assert(queue@[0]@.skip(0) =~= listing.entries@);
        assert(queue@.skip(1).map_values(|v: &'a Vec<FsEntry>| v@) =~= Seq::<Seq<FsEntry>>::empty());
        assert(spec_model(queue@, 0) =~= seq![listing.entries@]);
    }
    while queue.len() > 0
        invariant
            start == old(state).spec_next(),
            plan == spec_collect(seq![listing.entries@], recursive),
            start + plan.0.len() < u64::MAX,
            queue@.len() > 0 ==> cursor <= queue@[0]@.len(),
            plan.0 == done + spec_collect(spec_model(queue@, cursor as int), recursive).0,
            plan.1 == spec_collect(spec_model(queue@, cursor as int), recursive).1,
            spec_hooks_match_files(hooks@, done, base@, start),
            state.spec_next() == start + done.len(),
        decreases
                spec_queue_size(spec_model(queue@, cursor as int)),
                spec_model(queue@, cursor as int).len(),
    {
        let ghost qm = spec_model(queue@, cursor as int);
        let first: &'a Vec<FsEntry> = queue[0];
        proof {
            assert(qm[0] == first@.skip(cursor as int));
            fs::lemma_queue_size_first(qm);
        }
        if cursor >= first.len() {
            proof {
                assert(qm[0].len() == 0);
                assert(spec_entries_size(qm[0]) == 0);
            }
            queue.remove(0);
            cursor = 0;
            proof {
                if queue@.len() == 0 {
                    assert(spec_model(queue@, 0) =~= qm.drop_first());
                } else {
                    assert(queue@[0]@.skip(0) =~= queue@[0]@);
                    assert(spec_model(queue@, 0) =~= qm.drop_first());
                }
            }
            continue;
        }
        let ghost q2m = spec_step_queue(qm, recursive);
        let ghost rem = spec_collect(qm, recursive);
        proof {
            assert(qm[0][0] == first@[cursor as int]);
            fs::lemma_queue_size_update_first(qm, qm[0].drop_first());
            assert(spec_entries_size(qm[0]) == (match qm[0][0] {
                FsEntry::Dir(l) => 1 + spec_entries_size(l.entries@),
                _ => 1nat,
            }) + spec_entries_size(qm[0].drop_first()));
        }
        let entry = &first[cursor];
        cursor = cursor + 1;
        proof {
            assert(first@.skip(cursor as int - 1).drop_first() =~= first@.skip(cursor as int));
            assert(spec_model(queue@, cursor as int) =~= qm.update(0, qm[0].drop_first()));
        }
        match entry {
            FsEntry::File(f) => {
                if fs::qualifies(f.mode) {
                    proof {
                        if spec_first_unknown(f.decls@) is None {
                            assert(rem.0 == seq![*f] + spec_collect(q2m, recursive).0);
                            assert(done.len() < plan.0.len());
                        } else {
                            assert(rem.0 =~= Seq::<FileEntry>::empty());
                            assert(plan.0 =~= done);
                            assert(rem.1 == Some(
                                CollectFailure::UnknownProvider(spec_first_unknown(f.decls@)->0),
                            ));
                        }
                    }
                    let name = text::relative_name(f.path.as_str(), base);
                    match Hook::load(name, f.canonical.clone(), &f.decls, state) {
                        Ok(h) => {
                            hooks.push(h);
                            proof {
                                done = done.push(*f);
                                assert(plan.0 == done + spec_collect(q2m, recursive).0) by {
                                    assert(done.drop_last() + (seq![*f] + spec_collect(
                                        q2m,
                                        recursive,
                                    ).0) =~= done + spec_collect(q2m, recursive).0);
                                }
                            }
                        },
                        Err(e) => {
                            return (hooks, Some(e));
                        },
                    }
                }
            },
            FsEntry::FileUnreadable(msg) => {
                proof {
                    assert(plan.0 =~= done);
                    assert(rem.1 == Some(CollectFailure::Io(*msg)));
                }
                return (hooks, Some(FisherError::new(ErrorKind::IoError(msg.clone()))));
            },
            FsEntry::FileInvalid(detail) => {
                proof {
                    assert(plan.0 =~= done);
                    assert(rem.1 == Some(CollectFailure::Invalid(*detail)));
                }
                return (hooks, Some(FisherError::new(ErrorKind::InvalidInput(detail.clone()))));
            },
            FsEntry::Dir(l) => {
                if recursive {
                    queue.push(&l.entries);
                    proof {
                        fs::lemma_queue_size_push(qm.update(0, qm[0].drop_first()), l.entries@);
                        assert(spec_model(queue@, cursor as int) =~= q2m);
                    }
                }
            },
            FsEntry::DirUnreadable(msg) => {
                if recursive {
                    proof {
                        assert(plan.0 =~= done);
                        assert(rem.1 == Some(CollectFailure::Io(*msg)));
                    }
                    return (hooks, Some(FisherError::new(ErrorKind::IoError(msg.clone()))));
                }
            },
        }
    }
    proof {
        assert(spec_model(queue@, cursor as int) =~= Seq::<Seq<FsEntry>>::empty());
        assert(plan.0 =~= done);
    }
    (hooks, None)
}

/// The first collection root recorded under the given path.
pub open spec fn spec_find_root(roots: Seq<FsRoot>, path: Seq<char>) -> Option<FsRoot>
    decreases roots.len(),
{
    if roots.len() == 0 {
        None
    } else if roots[0].path@ == path {
        Some(roots[0])
    } else {
        spec_find_root(roots.drop_first(), path)
    }
}

/// The collect plan of one source: `None` when the source directory
/// itself could not be listed, otherwise the walk's outcome.
pub open spec fn spec_source_plan(roots: Seq<FsRoot>, path: Seq<char>, recursive: bool) -> Option<
    (Seq<FileEntry>, Option<CollectFailure>),
> {
    match spec_find_root(roots, path) {
        Some(root) => match root.listing {
            Some(listing) => Some(spec_collect(seq![listing.entries@], recursive)),
            None => None,
        },
        None => None,
    }
}

/// The weight of one source's tree; zero when it cannot be listed.
pub open spec fn spec_root_weight(roots: Seq<FsRoot>, path: Seq<char>) -> nat {
    match spec_find_root(roots, path) {
        Some(root) => match root.listing {
            Some(listing) => spec_queue_size(seq![listing.entries@]),
            None => 0,
        },
        None => 0,
    }
}

fn find_root<'a>(fs: &'a FsSnapshot, path: &str) -> (r: Option<&'a FsRoot>)
    ensures
        match r {
            Some(root) => spec_find_root(fs.roots@, path@) == Some(*root),
            None => spec_find_root(fs.roots@, path@) is None,
        },
{
    let mut i: usize = 0;
    proof {
        assert(fs.roots@.skip(0) =~= fs.roots@);
    }
    while i < fs.roots.len()
        invariant
            i <= fs.roots@.len(),
            spec_find_root(fs.roots@, path@) == spec_find_root(fs.roots@.skip(i as int), path@),
        decreases fs.roots@.len() - i,
    {
        proof {
            assert(fs.roots@.skip(i as int).drop_first() =~= fs.roots@.skip(i as int + 1));
            assert(fs.roots@.skip(i as int)[0] == fs.roots@[i as int]);
        }
        if text::str_eq(fs.roots[i].path.as_str(), path) {
            return Some(&fs.roots[i]);
        }
        i += 1;
    }
    proof {
        assert(fs.roots@.skip(fs.roots@.len() as int) =~= Seq::<FsRoot>::empty());
    }
    None
}

/// A one-shot producer of the hooks found under one collection source: the
/// hooks loaded before the first failure, in walk order, then that failure,
/// then nothing. The walk happens against the directory snapshot taken at
/// creation; each call to `next` hands out the next element.
pub struct HooksCollector {
    hooks: Vec<Arc<Hook>>,
    failure: Option<FisherError>,
    pos: usize,
}

impl HooksCollector {
    /// The hooks the walk loaded before its first failure.
    pub closed spec fn spec_hooks(&self) -> Seq<Arc<Hook>> {
        self.hooks@
    }

    /// The failure that stopped the walk, not yet handed out.
    pub closed spec fn spec_failure(&self) -> Option<FisherError> {
        self.failure
    }

    /// How many hooks were handed out so far.
    pub closed spec fn spec_pos(&self) -> usize {
        self.pos
    }

    /// Collects the source under `base`: fails right away, with an I/O
    /// error, when the snapshot has no readable listing for `base`; loads
    /// one hook per qualifying file otherwise, stopping at the first
    /// failure, which `next` will hand out after the loaded hooks.
    pub fn new(fs: &FsSnapshot, base: &str, recursive: bool, state: &mut State) -> (r: Result<
        HooksCollector,
        FisherError,
    >)
        requires
            old(state).spec_next() + spec_root_weight(fs.roots@, base@) < u64::MAX,
        ensures
            r is Ok <==> spec_source_plan(fs.roots@, base@, recursive) is Some,
            r matches Err(e) ==> e.spec_kind() matches ErrorKind::IoError(_) && *final(state)
                == *old(state),
            r matches Ok(c) ==> ({
                let plan = spec_source_plan(fs.roots@, base@, recursive)->0;
                &&& spec_hooks_match_files(c.spec_hooks(), plan.0, base@, old(state).spec_next())
                &&& final(state).spec_next() == old(state).spec_next() + plan.0.len()
                &&& match plan.1 {
                    None => c.spec_failure() is None,
                    Some(f) => c.spec_failure() matches Some(e) && spec_failure_error(e, f),
                }
                &&& c.spec_pos() == 0
            }),
    {
        match find_root(fs, base) {
            Some(root) => match &root.listing {
                Some(listing) => {
                    let (hooks, failure) = walk_listing(listing, base, recursive, state);
                    Ok(HooksCollector { hooks, failure, pos: 0 })
                },
                None => Err(unreadable_directory(base)),
            },
            None => Err(unreadable_directory(base)),
        }
    }

    /// The next element of the collection sequence: a loaded hook, then
    /// the failure that stopped the walk, if any, then nothing.
    pub fn next(&mut self) -> (r: Option<Result<Arc<Hook>, FisherError>>)
        ensures
            final(self).spec_hooks() == old(self).spec_hooks(),
            old(self).spec_pos() < old(self).spec_hooks().len() ==> {
                &&& r == Some(Result::<Arc<Hook>, FisherError>::Ok(
                    old(self).spec_hooks()[old(self).spec_pos() as int],
                ))
                &&& final(self).spec_pos() == old(self).spec_pos() + 1
                &&& final(self).spec_failure() == old(self).spec_failure()
            },
            old(self).spec_pos() >= old(self).spec_hooks().len() ==> {
                &&& match old(self).spec_failure() {
                    Some(e) => r == Some(Result::<Arc<Hook>, FisherError>::Err(e)),
                    None => r is None,
                }
                &&& final(self).spec_failure() is None
                &&& final(self).spec_pos() == old(self).spec_pos()
            },
    {
        if self.pos < self.hooks.len() {
            let h = self.hooks[self.pos].clone();
            self.pos += 1;
            Some(Ok(h))
        } else {
            let mut taken: Option<FisherError> = None;
            core::mem::swap(&mut taken, &mut self.failure);
            match taken {
                Some(e) => Some(Err(e)),
                None => None,
            }
        }
    }
}

/// The error reported when a collection source cannot be listed.
fn unreadable_directory(path: &str) -> (r: FisherError)
    ensures
        r.spec_kind() matches ErrorKind::IoError(m) && m@ == "could not read directory "@
            + path@,
{
    let mut msg = String::from_str("could not read directory ");
    msg.append(path);
    FisherError::new(ErrorKind::IoError(msg))
}

/// One collection source of a blueprint: a directory and whether the
/// collector descends into its subdirectories.
pub struct CollectSource {
    pub path: String,
    pub recursive: bool,
}

/// The weight of all sources' trees together.
pub open spec fn spec_sources_weight(roots: Seq<FsRoot>, sources: Seq<CollectSource>) -> nat
    decreases sources.len(),
{
    if sources.len() == 0 {
        0
    } else {
        spec_root_weight(roots, sources[0].path@) + spec_sources_weight(roots, sources.drop_first())
    }
}

/// The files a full rebuild collects, each with the source directory it
/// came from, in source then walk order; `None` when any source fails.
pub open spec fn spec_sources_files(roots: Seq<FsRoot>, sources: Seq<CollectSource>) -> Option<
    Seq<(Seq<char>, FileEntry)>,
>
    decreases sources.len(),
{
    if sources.len() == 0 {
        Some(Seq::empty())
    } else {
        match spec_source_plan(roots, sources[0].path@, sources[0].recursive) {
            None => None,
            Some(plan) => {
                if plan.1 is Some {
                    None
                } else {
                    match spec_sources_files(roots, sources.drop_first()) {
                        None => None,
                        Some(rest) => Some(
                            plan.0.map_values(|f: FileEntry| (sources[0].path@, f)) + rest,
                        ),
                    }
                }
            },
        }
    }
}

/// What stops a full rebuild first: a source directory that cannot be
/// listed, or the first failure of a source's walk.
pub enum ReloadFailure {
    /// The path of the source directory that could not be listed.
    RootUnreadable(String),
    /// The first failure of a source's walk.
    Walk(CollectFailure),
}

/// The first failure a full rebuild over the sources encounters, if any:
/// sources are collected in registration order and the first failing one
/// aborts the rebuild.
pub open spec fn spec_sources_failure(roots: Seq<FsRoot>, sources: Seq<CollectSource>) -> Option<
    ReloadFailure,
>
    decreases sources.len(),
{
    if sources.len() == 0 {
        None
    } else {
        match spec_source_plan(roots, sources[0].path@, sources[0].recursive) {
            None => Some(ReloadFailure::RootUnreadable(sources[0].path)),
            Some(plan) => match plan.1 {
                Some(failure) => Some(ReloadFailure::Walk(failure)),
                None => spec_sources_failure(roots, sources.drop_first()),
            },
        }
    }
}

/// Whether the error `e` reports the rebuild failure `f`.
pub open spec fn spec_reload_error(e: FisherError, f: ReloadFailure) -> bool {
    match f {
        ReloadFailure::RootUnreadable(path) => e.spec_kind() matches ErrorKind::IoError(m) && m@
            == "could not read directory "@ + path@,
        ReloadFailure::Walk(failure) => spec_failure_error(e, failure),
    }
}

/// Whether `hooks` are exactly the hooks that loading the collected
/// `pairs` (source directory, file) produces, ids drawn from `first_id`.
pub open spec fn spec_pair_hooks_match(
    hooks: Seq<Arc<Hook>>,
    pairs: Seq<(Seq<char>, FileEntry)>,
    first_id: u64,
) -> bool {
    &&& hooks.len() == pairs.len()
    &&& forall|i: int|
        0 <= i < pairs.len() ==> spec_loaded_hook(
            #[trigger] hooks[i],
            text::spec_relative_name(pairs[i].1.path@, pairs[i].0),
            pairs[i].1.canonical@,
            pairs[i].1.decls@,
            (first_id + i) as u64,
        )
}

/// Whether `inner` is the snapshot a full rebuild produces: the explicitly
/// added hooks first, then one hook per collected file, and the event-kind
/// index derived from them.
pub open spec fn spec_rebuilt(
    inner: HooksInner,
    added: Seq<Arc<Hook>>,
    pairs: Seq<(Seq<char>, FileEntry)>,
    first_id: u64,
) -> bool {
    &&& inner.wf()
    &&& inner.spec_hooks().len() == added.len() + pairs.len()
    &&& forall|i: int| 0 <= i < added.len() ==> inner.spec_hooks()[i] == added[i]
    &&& spec_pair_hooks_match(inner.spec_hooks().skip(added.len() as int), pairs, first_id)
}

/// The mutable owner of the registry's recipe: explicitly added hooks and
/// collection sources. Every reload rebuilds a fresh snapshot from scratch
/// against the given directory snapshot and publishes it as one atomic
/// pointer swap; a failed reload publishes nothing, so readers keep the
/// previous snapshot unchanged.
pub struct HooksBlueprint {
    added: Vec<Arc<Hook>>,
    collect_paths: Vec<CollectSource>,
    published: Arc<HooksInner>,
    slot: Arc<RwLock<Arc<HooksInner>, SnapshotPred>>,
    state: State,
}

impl HooksBlueprint {
    /// The explicitly added hooks, in insertion order.
    pub closed spec fn spec_added(&self) -> Seq<Arc<Hook>> {
        self.added@
    }

    /// The collection sources, in registration order.
    pub closed spec fn spec_sources(&self) -> Seq<CollectSource> {
        self.collect_paths@
    }

    /// The snapshot this blueprint last published into the shared slot.
    pub closed spec fn spec_inner(&self) -> HooksInner {
        *self.published
    }

    /// The shared snapshot slot that this blueprint's handles read
    /// through.
    pub closed spec fn spec_slot(&self) -> RwLock<Arc<HooksInner>, SnapshotPred> {
        *self.slot
    }

    /// The id source hooks are loaded against.
    pub closed spec fn spec_state(&self) -> State {
        self.state
    }

    /// A blueprint is well formed when its added hooks and its published
    /// snapshot are.
    pub open spec fn wf(&self) -> bool {
        &&& forall|i: int| 0 <= i < self.spec_added().len() ==> (#[trigger] self.spec_added()[i]).wf()
        &&& self.spec_inner().wf()
    }

    /// Machine limit on a reload: the id space must have room for every
    /// entry the sources could yield.
    pub open spec fn spec_ids_fit(&self, fs: FsSnapshot) -> bool {
        self.spec_state().spec_next() + spec_sources_weight(fs.roots@, self.spec_sources())
            < u64::MAX
    }

    /// An empty blueprint publishing an empty snapshot.
    pub fn new(state: State) -> (r: HooksBlueprint)
        ensures
            r.spec_added().len() == 0,
            r.spec_sources().len() == 0,
            r.spec_inner().spec_hooks().len() == 0,
            r.spec_state() == state,
            r.wf(),
    {
        let initial = Arc::new(HooksInner::new());
        let slot = Arc::new(RwLock::new(initial.clone(), Ghost(SnapshotPred)));
        HooksBlueprint {
            added: Vec::new(),
            collect_paths: Vec::new(),
            published: initial,
            slot,
            state,
        }
    }

    /// Rebuilds a fresh snapshot from the whole recipe against the given
    /// directory snapshot, and publishes it only when every source
    /// collected cleanly. On failure the previously published snapshot
    /// stays exactly as it was.
    pub fn reload(&mut self, fs: &FsSnapshot) -> (r: Result<(), FisherError>)
        requires
            old(self).wf(),
            old(self).spec_ids_fit(*fs),
        ensures
            final(self).spec_added() == old(self).spec_added(),
            final(self).spec_sources() == old(self).spec_sources(),
            final(self).wf(),
            r is Ok <==> spec_sources_files(fs.roots@, old(self).spec_sources()) is Some,
            r is Ok ==> spec_rebuilt(
                final(self).spec_inner(),
                old(self).spec_added(),
                spec_sources_files(fs.roots@, old(self).spec_sources())->0,
                old(self).spec_state().spec_next(),
            ),
            r is Err ==> final(self).spec_inner() == old(self).spec_inner(),
            r matches Err(e) ==> spec_sources_failure(fs.roots@, old(self).spec_sources())
                matches Some(f) && spec_reload_error(e, f),
            spec_reload_post(*old(self), *final(self), *fs, r is Ok),
    {
        let mut inner = HooksInner::new();
        let mut i: usize = 0;
        while i < self.added.len()
            invariant
                *self == *old(self),
                old(self).wf(),
                i <= self.added@.len(),
                inner.wf(),
                inner.spec_hooks() == self.added@.take(i as int),
            decreases self.added@.len() - i,
        {
            proof {
                assert(self.added@.take(i as int + 1).drop_last() =~= self.added@.take(i as int));
                assert(self.added@.take(i as int + 1).last() == self.added@[i as int]);
                assert(old(self).spec_added()[i as int].wf());
                assert(self.added@[i as int] == old(self).spec_added()[i as int]);
            }
            inner.insert(self.added[i].clone());
            i += 1;
        }
        proof {
            assert(self.added@.take(self.added@.len() as int) =~= self.added@);
        }
        let ghost roots = fs.roots@;
        let ghost sources = self.collect_paths@;
        let ghost start = self.state.spec_next();
        let ghost added0 = self.added@;
        let ghost mut pairs_done: Seq<(Seq<char>, FileEntry)> = Seq::empty();
        let mut j: usize = 0;
        proof {
            assert(sources.skip(0) =~= sources);
        }
        while j < self.collect_paths.len()
            invariant
                j <= self.collect_paths@.len(),
                self.collect_paths@ == sources,
                self.added@ == added0,
                sources == old(self).collect_paths@,
                added0 == old(self).added@,
                roots == fs.roots@,
                start == old(self).state.spec_next(),
                self.published == old(self).published,
                self.slot == old(self).slot,
                old(self).wf(),
                inner.wf(),
                inner.spec_hooks().len() == added0.len() + pairs_done.len(),
                forall|k: int| 0 <= k < added0.len() ==> inner.spec_hooks()[k] == added0[k],
                spec_pair_hooks_match(
                    inner.spec_hooks().skip(added0.len() as int),
                    pairs_done,
                    start,
                ),
                self.state.spec_next() == start + pairs_done.len(),
                self.state.spec_next() + spec_sources_weight(roots, sources.skip(j as int))
                    < u64::MAX,
                spec_sources_files(roots, sources) == (match spec_sources_files(
                    roots,
                    sources.skip(j as int),
                ) {
                    None => None::<Seq<(Seq<char>, FileEntry)>>,
                    Some(rest) => Some(pairs_done + rest),
                }),
                spec_sources_failure(roots, sources) == spec_sources_failure(
                    roots,
                    sources.skip(j as int),
                ),
            decreases self.collect_paths@.len() - j,
        {
            proof {
                assert(sources.skip(j as int).drop_first() =~= sources.skip(j as int + 1));
                assert(sources.skip(j as int)[0] == sources[j as int]);
            }
            let ghost base_view = self.collect_paths@[j as int].path@;
            let ghost plan_opt = spec_source_plan(
                roots,
                base_view,
                self.collect_paths@[j as int].recursive,
            );
            let found = find_root(fs, self.collect_paths[j].path.as_str());
            match found {
                None => {
                    return Err(unreadable_directory(self.collect_paths[j].path.as_str()));
                },
                Some(root) => {
                    match &root.listing {
                        None => {
                            return Err(unreadable_directory(self.collect_paths[j].path.as_str()));
                        },
                        Some(listing) => {
                            let ghost next0 = self.state.spec_next();
                            proof {
                                assert(spec_root_weight(roots, base_view) == spec_queue_size(
                                    seq![listing.entries@],
                                ));
                            }
                            let recursive = self.collect_paths[j].recursive;
                            let (hooks_j, failure) = walk_listing(
                                listing,
                                self.collect_paths[j].path.as_str(),
                                recursive,
                                &mut self.state,
                            );
                            let ghost plan = plan_opt->0;
                            match failure {
                                Some(e) => {
                                    return Err(e);
                                },
                                None => {},
                            }
                            let ghost seg0 = inner.spec_hooks();
                            let mut k: usize = 0;
                            while k < hooks_j.len()
                                invariant
                                    k <= hooks_j@.len(),
                                    inner.wf(),
                                    inner.spec_hooks() == seg0 + hooks_j@.take(k as int),
                                    forall|m: int|
                                        0 <= m < hooks_j@.len() ==> (#[trigger] hooks_j@[m]).wf(),
                                decreases hooks_j@.len() - k,
                            {
                                proof {
                                    assert(hooks_j@.take(k as int + 1) =~= hooks_j@.take(
                                        k as int,
                                    ).push(hooks_j@[k as int]));
                                }
                                inner.insert(hooks_j[k].clone());
                                proof {
                                    assert(inner.spec_hooks() =~= seg0 + hooks_j@.take(
                                        k as int + 1,
                                    ));
                                }
                                k += 1;
                            }
                            proof {
                                assert(hooks_j@.take(hooks_j@.len() as int) =~= hooks_j@);
                                let mapped = plan.0.map_values(
                                    |f: FileEntry| (base_view, f),
                                );
                                pairs_done = pairs_done + mapped;
                                assert(inner.spec_hooks().skip(added0.len() as int) =~= (seg0.skip(
                                    added0.len() as int,
                                ) + hooks_j@));
                                assert(spec_pair_hooks_match(
                                    inner.spec_hooks().skip(added0.len() as int),
                                    pairs_done,
                                    start,
                                )) by {
                                    assert(forall|m: int|
                                        0 <= m < mapped.len() ==> mapped[m] == (
                                        base_view,
                                        plan.0[m],
                                        ));
                                }
                            }
                        },
                    }
                },
            }
            j += 1;
            proof {
                fs::lemma_collect_files_bound(
                    seq![spec_find_root(roots, base_view)->0.listing->0.entries@],
                    sources[j - 1].recursive,
                );
            }
        }
        proof {
            assert(sources.skip(sources.len() as int) =~= Seq::<CollectSource>::empty());
            assert(pairs_done + Seq::<(Seq<char>, FileEntry)>::empty() =~= pairs_done);
        }
        let fresh = Arc::new(inner);
        self.published = fresh.clone();
        let (_, write_handle) = self.slot.acquire_write();
        write_handle.release_write(fresh);
        Ok(())
    }

    /// Adds one pre-built hook to the recipe and reloads at once.
    pub fn insert(&mut self, hook: Arc<Hook>, fs: &FsSnapshot) -> (r: Result<(), FisherError>)
        requires
            old(self).wf(),
            hook.wf(),
            old(self).spec_ids_fit(*fs),
        ensures
            final(self).spec_added() == old(self).spec_added().push(hook),
            final(self).spec_sources() == old(self).spec_sources(),
            final(self).wf(),
            r is Ok <==> spec_sources_files(fs.roots@, old(self).spec_sources()) is Some,
            r is Ok ==> spec_rebuilt(
                final(self).spec_inner(),
                old(self).spec_added().push(hook),
                spec_sources_files(fs.roots@, old(self).spec_sources())->0,
                old(self).spec_state().spec_next(),
            ),
            r is Err ==> final(self).spec_inner() == old(self).spec_inner(),
            r matches Err(e) ==> spec_sources_failure(fs.roots@, old(self).spec_sources())
                matches Some(f) && spec_reload_error(e, f),
    {
        self.added.push(hook);
        proof {
            assert forall|i: int|
                0 <= i < self.spec_added().len() implies (#[trigger] self.spec_added()[i]).wf() by {
                if i < old(self).spec_added().len() {
                    assert(self.spec_added()[i] == old(self).spec_added()[i]);
                    assert(old(self).spec_added()[i].wf());
                } else {
                    assert(self.spec_added()[i] == hook);
                }
            }
        }
        self.reload(fs)
    }

    /// Adds one collection source to the recipe and reloads at once.
    pub fn collect_path(&mut self, path: String, recursive: bool, fs: &FsSnapshot) -> (r: Result<
        (),
        FisherError,
    >)
        requires
            old(self).wf(),
            old(self).spec_state().spec_next() + spec_sources_weight(
                fs.roots@,
                old(self).spec_sources().push(CollectSource { path, recursive }),
            ) < u64::MAX,
        ensures
            final(self).spec_added() == old(self).spec_added(),
            final(self).spec_sources() == old(self).spec_sources().push(
                CollectSource { path, recursive },
            ),
            final(self).wf(),
            r is Ok <==> spec_sources_files(
                fs.roots@,
                old(self).spec_sources().push(CollectSource { path, recursive }),
            ) is Some,
            r is Ok ==> spec_rebuilt(
                final(self).spec_inner(),
                old(self).spec_added(),
                spec_sources_files(
                    fs.roots@,
                    old(self).spec_sources().push(CollectSource { path, recursive }),
                )->0,
                old(self).spec_state().spec_next(),
            ),
            r is Err ==> final(self).spec_inner() == old(self).spec_inner(),
            r matches Err(e) ==> spec_sources_failure(
                fs.roots@,
                old(self).spec_sources().push(CollectSource { path, recursive }),
            ) matches Some(f) && spec_reload_error(e, f),
    {
        self.collect_paths.push(CollectSource { path, recursive });
        proof {
            assert forall|i: int|
                0 <= i < self.spec_added().len() implies (#[trigger] self.spec_added()[i]).wf() by {
                assert(self.spec_added()[i] == old(self).spec_added()[i]);
                assert(old(self).spec_added()[i].wf());
            }
        }
        self.reload(fs)
    }

    /// A read-only handle sharing this blueprint's swappable snapshot
    /// slot — not a copy: every read through the handle sees the latest
    /// successfully published snapshot.
    pub fn hooks(&self) -> (r: Hooks)
        ensures
            r.spec_slot() == self.spec_slot(),
    {
        Hooks { slot: self.slot.clone() }
    }
}

/// What a reload leaves behind, as `reload` promises it: the recipe is
/// untouched; on success the published snapshot is the complete rebuild of
/// the recipe; on failure it is exactly the snapshot published before.
pub open spec fn spec_reload_post(
    pre: HooksBlueprint,
    post: HooksBlueprint,
    fs: FsSnapshot,
    ok: bool,
) -> bool {
    &&& post.spec_added() == pre.spec_added()
    &&& post.spec_sources() == pre.spec_sources()
    &&& post.spec_slot() == pre.spec_slot()
    &&& (ok <==> spec_sources_files(fs.roots@, pre.spec_sources()) is Some)
    &&& (ok ==> spec_rebuilt(
        post.spec_inner(),
        pre.spec_added(),
        spec_sources_files(fs.roots@, pre.spec_sources())->0,
        pre.spec_state().spec_next(),
    ))
    &&& (!ok ==> post.spec_inner() == pre.spec_inner())
}

/// Reload is atomic with respect to readers. What a reload publishes into
/// the shared slot is either the snapshot published before or a completely
/// rebuilt one, never a mixture; the swap is one write-locked pointer
/// replacement, so a handle read returns one published snapshot whole; and
/// an iterator that began before the reload owns a reference to the
/// snapshot it captured, which the reload cannot alter, so it completes
/// against that fully consistent view.
pub proof fn lemma_reload_atomic(
    pre: HooksBlueprint,
    post: HooksBlueprint,
    fs: FsSnapshot,
    ok: bool,
    reader: HooksIter,
)
    requires
        spec_reload_post(pre, post, fs, ok),
        reader.spec_inner() == pre.spec_inner(),
    ensures
        reader.spec_inner() == pre.spec_inner(),
        post.spec_slot() == pre.spec_slot(),
        post.spec_inner() == pre.spec_inner() || spec_rebuilt(
            post.spec_inner(),
            pre.spec_added(),
            spec_sources_files(fs.roots@, pre.spec_sources())->0,
            pre.spec_state().spec_next(),
        ),
{
}

/// A failed reload is a no-op from the readers' perspective: the published
/// snapshot keeps the same hooks, under the same names, in the same order,
/// with the same event-kind indices.
pub proof fn lemma_failed_reload_preserves_snapshot(
    pre: HooksBlueprint,
    post: HooksBlueprint,
    fs: FsSnapshot,
)
    requires
        spec_reload_post(pre, post, fs, false),
    ensures
        post.spec_inner().spec_hooks() == pre.spec_inner().spec_hooks(),
        forall|k: EventKind| post.spec_inner().spec_index(k) == pre.spec_inner().spec_index(k),
{
}

/// Hooks collected in one rebuild carry pairwise distinct ids: they are
/// drawn sequentially from one id source.
pub proof fn lemma_collected_ids_distinct(
    hooks: Seq<Arc<Hook>>,
    pairs: Seq<(Seq<char>, FileEntry)>,
    first_id: u64,
)
    requires
        spec_pair_hooks_match(hooks, pairs, first_id),
        first_id + pairs.len() <= u64::MAX,
    ensures
        forall|i: int, j: int|
            0 <= i < hooks.len() && 0 <= j < hooks.len() && i != j ==> (#[trigger] hooks[i]).spec_id()
                != (#[trigger] hooks[j]).spec_id(),
{
}

proof fn lemma_provider_pairs_contains(
    h: Arc<Hook>,
    provs: Seq<Arc<Provider>>,
    k: EventKind,
    j: int,
)
    requires
        0 <= j < provs.len(),
        provs[j].spec_subscribes(k),
    ensures
        spec_provider_pairs(h, provs, k).contains(
            HookProvider { hook: h, provider: provs[j] },
        ),
    decreases provs.len(),
{
    let pairs = spec_provider_pairs(h, provs, k);
    let want = HookProvider { hook: h, provider: provs[j] };
    if j == provs.len() - 1 {
        assert(pairs[pairs.len() - 1] == want);
    } else {
        lemma_provider_pairs_contains(h, provs.drop_last(), k, j);
        let pre = spec_provider_pairs(h, provs.drop_last(), k);
        let n = choose|n: int| 0 <= n < pre.len() && pre[n] == want;
        assert(pairs[n] == want);
    }
}

proof fn lemma_provider_pairs_sound(h: Arc<Hook>, provs: Seq<Arc<Provider>>, k: EventKind, n: int)
    requires
        0 <= n < spec_provider_pairs(h, provs, k).len(),
    ensures
        spec_provider_pairs(h, provs, k)[n].hook == h,
        exists|j: int|
            0 <= j < provs.len() && spec_provider_pairs(h, provs, k)[n].provider == provs[j] && (
            #[trigger] provs[j]).spec_subscribes(k),
    decreases provs.len(),
{
    let pairs = spec_provider_pairs(h, provs, k);
    let pre = spec_provider_pairs(h, provs.drop_last(), k);
    if n < pre.len() {
        lemma_provider_pairs_sound(h, provs.drop_last(), k, n);
        let j = choose|j: int|
            0 <= j < provs.drop_last().len() && pre[n].provider == provs.drop_last()[j] && (
            #[trigger] provs.drop_last()[j]).spec_subscribes(k);
        assert(provs[j] == provs.drop_last()[j]);
        assert(pairs[n] == pre[n]);
    } else {
        assert(provs.last().spec_subscribes(k));
        assert(pairs[n] == HookProvider { hook: h, provider: provs.last() });
        assert(provs[provs.len() - 1] == provs.last());
    }
}

/// Completeness of the event-kind index: in a well-formed snapshot, every
/// status provider of every hook appears in the index of every kind it
/// subscribes to, paired with its hook.
pub proof fn lemma_event_index_contains(inner: HooksInner, k: EventKind, i: int, j: int)
    requires
        inner.wf(),
        0 <= i < inner.spec_hooks().len(),
        0 <= j < inner.spec_hooks()[i].spec_providers().len(),
        inner.spec_hooks()[i].spec_providers()[j].spec_subscribes(k),
    ensures
        inner.spec_index(k).contains(
            HookProvider {
                hook: inner.spec_hooks()[i],
                provider: inner.spec_hooks()[i].spec_providers()[j],
            },
        ),
{
    lemma_kind_index_contains(inner.spec_hooks(), k, i, j);
}

proof fn lemma_kind_index_contains(hooks: Seq<Arc<Hook>>, k: EventKind, i: int, j: int)
    requires
        0 <= i < hooks.len(),
        0 <= j < hooks[i].spec_providers().len(),
        hooks[i].spec_providers()[j].spec_subscribes(k),
    ensures
        spec_kind_index(hooks, k).contains(
            HookProvider { hook: hooks[i], provider: hooks[i].spec_providers()[j] },
        ),
    decreases hooks.len(),
{
    let index = spec_kind_index(hooks, k);
    let want = HookProvider { hook: hooks[i], provider: hooks[i].spec_providers()[j] };
    let pre = spec_kind_index(hooks.drop_last(), k);
    if i == hooks.len() - 1 {
        lemma_provider_pairs_contains(hooks[i], hooks[i].spec_providers(), k, j);
        let tail = spec_hook_pairs(hooks.last(), k);
        let n = choose|n: int| 0 <= n < tail.len() && tail[n] == want;
        assert(index[pre.len() + n] == want);
    } else {
        assert(hooks.drop_last()[i] == hooks[i]);
        lemma_kind_index_contains(hooks.drop_last(), k, i, j);
        let n = choose|n: int| 0 <= n < pre.len() && pre[n] == want;
        assert(index[n] == want);
    }
}

/// Soundness of the event-kind index: in a well-formed snapshot, every
/// index entry for kind `k` pairs a hook of the snapshot with one of that
/// hook's own providers, and that provider subscribes to `k`.
pub proof fn lemma_event_index_sound(inner: HooksInner, k: EventKind, n: int)
    requires
        inner.wf(),
        0 <= n < inner.spec_index(k).len(),
    ensures
        exists|i: int, j: int|
            {
                &&& 0 <= i < inner.spec_hooks().len()
                &&& 0 <= j < (#[trigger] inner.spec_hooks()[i]).spec_providers().len()
                &&& inner.spec_index(k)[n].hook == inner.spec_hooks()[i]
                &&& inner.spec_index(k)[n].provider == #[trigger] inner.spec_hooks()[
                    i
                ].spec_providers()[j]
                &&& inner.spec_hooks()[i].spec_providers()[j].spec_subscribes(k)
            },
{
    lemma_kind_index_sound(inner.spec_hooks(), k, n);
}

proof fn lemma_kind_index_sound(hooks: Seq<Arc<Hook>>, k: EventKind, n: int)
    requires
        0 <= n < spec_kind_index(hooks, k).len(),
    ensures
        exists|i: int, j: int|
            {
                &&& 0 <= i < hooks.len()
                &&& 0 <= j < (#[trigger] hooks[i]).spec_providers().len()
                &&& spec_kind_index(hooks, k)[n].hook == hooks[i]
                &&& spec_kind_index(hooks, k)[n].provider == #[trigger] hooks[i].spec_providers()[j]
                &&& hooks[i].spec_providers()[j].spec_subscribes(k)
            },
    decreases hooks.len(),
{
    let index = spec_kind_index(hooks, k);
    let pre = spec_kind_index(hooks.drop_last(), k);
    if n < pre.len() {
        lemma_kind_index_sound(hooks.drop_last(), k, n);
        let (i, j) = choose|i: int, j: int|
            {
                &&& 0 <= i < hooks.drop_last().len()
                &&& 0 <= j < (#[trigger] hooks.drop_last()[i]).spec_providers().len()
                &&& pre[n].hook == hooks.drop_last()[i]
                &&& pre[n].provider == #[trigger] hooks.drop_last()[i].spec_providers()[j]
                &&& hooks.drop_last()[i].spec_providers()[j].spec_subscribes(k)
            };
        assert(hooks.drop_last()[i] == hooks[i]);
        assert(index[n] == pre[n]);
        assert(0 <= i < hooks.len() && 0 <= j < hooks[i].spec_providers().len() && index[n].hook
            == hooks[i] && index[n].provider == hooks[i].spec_providers()[j]
            && hooks[i].spec_providers()[j].spec_subscribes(k));
    } else {
        let h = hooks.last();
        lemma_provider_pairs_sound(h, h.spec_providers(), k, n - pre.len());
        let tail = spec_hook_pairs(h, k);
        assert(index[n] == tail[n - pre.len()]);
        let j = choose|j: int|
            0 <= j < h.spec_providers().len() && tail[n - pre.len()].provider
                == h.spec_providers()[j] && (#[trigger] h.spec_providers()[j]).spec_subscribes(k);
        let i = hooks.len() - 1;
        assert(0 <= i < hooks.len() && 0 <= j < hooks[i].spec_providers().len() && index[n].hook
            == hooks[i] && index[n].provider == hooks[i].spec_providers()[j]
            && hooks[i].spec_providers()[j].spec_subscribes(k));
    }
}

} // verus!
