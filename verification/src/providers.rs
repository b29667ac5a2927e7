//! Providers, status events and requests.
//!
//! A provider is a pluggable validator and environment contributor attached
//! to a hook. Parsing a hook script's declaration comments happens at the
//! boundary of this crate and yields plain `ProviderDecl` values; resolving
//! a declaration against the set of implemented providers is this crate's
//! logic, as is everything the core reads of a provider afterwards: its
//! name, its environment contribution, and the status-event kinds it
//! subscribes to.

use vstd::prelude::*;

use vstd::string::StringExecFns;

use crate::errors::{ErrorKind, FisherError};
use crate::text;

verus! {

/// The kind of an internally generated status event.
#[derive(Clone, Copy, Debug, PartialEq, Eq, Structural, Hash)]
pub enum EventKind {
    JobCompleted,
    JobFailed,
}

/// The canonical name of an event kind, as written in hook declarations.
pub open spec fn spec_kind_name(kind: EventKind) -> Seq<char> {
    match kind {
        EventKind::JobCompleted => "job_completed"@,
        EventKind::JobFailed => "job_failed"@,
    }
}

/// The canonical name of an event kind.
pub fn kind_name(kind: EventKind) -> (r: &'static str)
    ensures
        r@ == spec_kind_name(kind),
{
    match kind {
        EventKind::JobCompleted => "job_completed",
        EventKind::JobFailed => "job_failed",
    }
}

/// The event kind written with the given name, if it is one.
pub fn event_kind_from_name(name: &str) -> (r: Option<EventKind>)
    ensures
        match r {
            Some(kind) => spec_kind_name(kind) == name@,
            None => name@ != spec_kind_name(EventKind::JobCompleted) && name@ != spec_kind_name(
                EventKind::JobFailed,
            ),
        },
{
    if text::str_eq(name, "job_completed") {
        Some(EventKind::JobCompleted)
    } else if text::str_eq(name, "job_failed") {
        Some(EventKind::JobFailed)
    } else {
        None
    }
}

/// What a finished job reports: whether it succeeded, and whether its
/// completion may itself trigger status hooks.
#[derive(Clone, Copy, Debug)]
pub struct JobOutput {
    pub success: bool,
    pub trigger_status_hooks: bool,
}

/// An internally generated event carrying the prior job's output.
#[derive(Clone, Copy, Debug)]
pub enum StatusEvent {
    JobCompleted(JobOutput),
    JobFailed(JobOutput),
}

impl StatusEvent {
    /// The kind of this event.
    pub open spec fn spec_kind(self) -> EventKind {
        match self {
            StatusEvent::JobCompleted(_) => EventKind::JobCompleted,
            StatusEvent::JobFailed(_) => EventKind::JobFailed,
        }
    }

    /// The kind of this event.
    pub fn kind(&self) -> (r: EventKind)
        ensures
            r == self.spec_kind(),
    {
        match self {
            StatusEvent::JobCompleted(_) => EventKind::JobCompleted,
            StatusEvent::JobFailed(_) => EventKind::JobFailed,
        }
    }
}

/// An external request carrying a body and provider-specific parameters.
pub struct WebRequest {
    pub body: String,
    pub params: Vec<(String, String)>,
}

/// What triggered a job: an external web request, or a status event.
pub enum Request {
    Web(WebRequest),
    Status(StatusEvent),
}

/// The first value recorded for `key` among the request parameters.
pub open spec fn spec_param(params: Seq<(String, String)>, key: Seq<char>) -> Option<Seq<char>>
    decreases params.len(),
{
    if params.len() == 0 {
        None
    } else if params[0].0@ == key {
        Some(params[0].1@)
    } else {
        spec_param(params.drop_first(), key)
    }
}

/// A provider declaration as parsed out of a hook script: the declared
/// provider name, and, for status declarations, the subscribed event kinds.
pub struct ProviderDecl {
    pub name: String,
    pub events: Vec<EventKind>,
}

/// A provider implementation: the generic webhook providers, and the
/// status provider with the event kinds it subscribes to.
pub enum Provider {
    Testing,
    Standalone,
    Status(Vec<EventKind>),
}

/// The sequence with later duplicates dropped, keeping first occurrences.
pub open spec fn spec_dedup(s: Seq<EventKind>) -> Seq<EventKind>
    decreases s.len(),
{
    if s.len() == 0 {
        Seq::empty()
    } else {
        let pre = spec_dedup(s.drop_last());
        if s.drop_last().contains(s.last()) {
            pre
        } else {
            pre.push(s.last())
        }
    }
}

/// Deduplication keeps exactly the elements of its input.
pub proof fn lemma_dedup_contains(s: Seq<EventKind>, k: EventKind)
    ensures
        spec_dedup(s).contains(k) <==> s.contains(k),
    decreases s.len(),
{
    if s.len() > 0 {
        let rest = s.drop_last();
        let pre = spec_dedup(rest);
        lemma_dedup_contains(rest, k);
        assert(s.contains(k) <==> (rest.contains(k) || s.last() == k)) by {
            if s.contains(k) {
                let i = choose|i: int| 0 <= i < s.len() && s[i] == k;
                if i < s.len() - 1 {
                    assert(rest[i] == k);
                }
            }
            if rest.contains(k) {
                let i = choose|i: int| 0 <= i < rest.len() && rest[i] == k;
                assert(s[i] == k);
            }
            if s.last() == k {
                assert(s[s.len() - 1] == k);
            }
        }
        if !rest.contains(s.last()) {
            assert(spec_dedup(s) == pre.push(s.last()));
            assert(spec_dedup(s).contains(k) <==> (pre.contains(k) || s.last() == k)) by {
                if pre.contains(k) {
                    let i = choose|i: int| 0 <= i < pre.len() && pre[i] == k;
                    assert(pre.push(s.last())[i] == k);
                }
                if s.last() == k {
                    assert(pre.push(s.last())[pre.len() as int] == k);
                }
                if spec_dedup(s).contains(k) {
                    let i = choose|i: int|
                        0 <= i < spec_dedup(s).len() && spec_dedup(s)[i] == k;
                    if i < pre.len() {
                        assert(pre[i] == k);
                    }
                }
            }
        }
    }
}

/// A deduplicated sequence has no duplicates.
pub proof fn lemma_dedup_no_duplicates(s: Seq<EventKind>)
    ensures
        spec_dedup(s).no_duplicates(),
    decreases s.len(),
{
    if s.len() > 0 {
        lemma_dedup_no_duplicates(s.drop_last());
        if !s.drop_last().contains(s.last()) {
            lemma_dedup_contains(s.drop_last(), s.last());
        }
    }
}

/// Whether `v` holds the kind `k`.
fn contains_kind(v: &Vec<EventKind>, k: EventKind) -> (r: bool)
    ensures
        r == v@.contains(k),
{
    let mut i: usize = 0;
    while i < v.len()
        invariant
            i <= v@.len(),
            forall|j: int| 0 <= j < i ==> v@[j] != k,
        decreases v@.len() - i,
    {
        if v[i] == k {
            return true;
        }
        i += 1;
    }
    false
}

/// A copy of `events` with later duplicates dropped.
pub fn dedup_events(events: &Vec<EventKind>) -> (r: Vec<EventKind>)
    ensures
        r@ == spec_dedup(events@),
        r@.no_duplicates(),
{
    let mut out: Vec<EventKind> = Vec::new();
    let mut i: usize = 0;
    while i < events.len()
        invariant
            i <= events@.len(),
            out@ == spec_dedup(events@.take(i as int)),
        decreases events@.len() - i,
    {
        let ghost prefix = events@.take(i as int);
        let k = events[i];
        proof {
            assert(events@.take(i as int + 1).drop_last() =~= prefix);
            assert(events@.take(i as int + 1).last() == events@[i as int]);
            lemma_dedup_contains(prefix, k);
        }
        if !contains_kind(&out, k) {
            out.push(k);
        }
        i += 1;
    }
    proof {
        assert(events@.take(events@.len() as int) =~= events@);
        lemma_dedup_no_duplicates(events@);
    }
    out
}

impl Provider {
    /// The provider's name, as written in declarations.
    pub open spec fn spec_name(self) -> Seq<char> {
        match self {
            Provider::Testing => "Testing"@,
            Provider::Standalone => "Standalone"@,
            Provider::Status(_) => "Status"@,
        }
    }

    /// The provider's name.
    pub fn name(&self) -> (r: &'static str)
        ensures
            r@ == self.spec_name(),
    {
        match self {
            Provider::Testing => "Testing",
            Provider::Standalone => "Standalone",
            Provider::Status(_) => "Status",
        }
    }

    /// The prefix under which this provider's environment entries are
    /// exposed to the hook process: `FISHER_`, the provider's name in
    /// upper case, and a separating underscore.
    pub open spec fn spec_env_prefix(self) -> Seq<char> {
        match self {
            Provider::Testing => "FISHER_TESTING_"@,
            Provider::Standalone => "FISHER_STANDALONE_"@,
            Provider::Status(_) => "FISHER_STATUS_"@,
        }
    }

    /// The prefix under which this provider's environment entries are
    /// exposed to the hook process.
    pub fn env_prefix(&self) -> (r: &'static str)
        ensures
            r@ == self.spec_env_prefix(),
    {
        match self {
            Provider::Testing => "FISHER_TESTING_",
            Provider::Standalone => "FISHER_STANDALONE_",
            Provider::Status(_) => "FISHER_STATUS_",
        }
    }

    /// A provider is well formed when its subscriptions hold no duplicate
    /// event kind, so that the registry indexes it once per kind.
    pub open spec fn wf(self) -> bool {
        match self {
            Provider::Status(events) => events@.no_duplicates(),
            _ => true,
        }
    }

    /// Whether this provider subscribes to status events of kind `k`.
    pub open spec fn spec_subscribes(self, k: EventKind) -> bool {
        match self {
            Provider::Status(events) => events@.contains(k),
            _ => false,
        }
    }

    /// Whether this provider subscribes to status events of kind `k`.
    pub fn subscribes(&self, k: EventKind) -> (r: bool)
        ensures
            r == self.spec_subscribes(k),
    {
        match self {
            Provider::Status(events) => contains_kind(events, k),
            _ => false,
        }
    }

    /// The environment entries this provider derives from a request,
    /// before they are prefixed with the provider's name.
    pub open spec fn spec_env(self, request: Request) -> Seq<(Seq<char>, Seq<char>)> {
        match self {
            Provider::Testing => match request {
                Request::Web(req) => match spec_param(req.params@, "env"@) {
                    Some(value) => seq![("ENV"@, value)],
                    None => Seq::empty(),
                },
                Request::Status(_) => Seq::empty(),
            },
            Provider::Standalone => Seq::empty(),
            Provider::Status(_) => match request {
                Request::Status(event) => seq![("EVENT"@, spec_kind_name(event.spec_kind()))],
                Request::Web(_) => Seq::empty(),
            },
        }
    }

    /// The environment entries this provider derives from a request: the
    /// testing provider forwards the request's `env` parameter, the status
    /// provider names the event that fired, and the standalone provider
    /// contributes nothing.
    pub fn env(&self, request: &Request) -> (r: Vec<(String, String)>)
        ensures
            r.deep_view() =~= self.spec_env(*request),
    {
        let mut out: Vec<(String, String)> = Vec::new();
        match self {
            Provider::Testing => {
                match request {
                    Request::Web(req) => {
                        match lookup_param(&req.params, "env") {
                            Some(value) => {
                                out.push((String::from_str("ENV"), value));
                            },
                            None => {},
                        }
                    },
                    Request::Status(_) => {},
                }
            },
            Provider::Standalone => {},
            Provider::Status(_) => {
                match request {
                    Request::Status(event) => {
                        let name = kind_name(event.kind());
                        out.push((String::from_str("EVENT"), name.to_owned()));
                    },
                    Request::Web(_) => {},
                }
            },
        }
        out
    }
}

/// The first value recorded for `key` among the request parameters.
pub fn lookup_param(params: &Vec<(String, String)>, key: &str) -> (r: Option<String>)
    ensures
        match r {
            Some(value) => spec_param(params@, key@) matches Some(v) && v == value@,
            None => spec_param(params@, key@) is None,
        },
{
    let mut i: usize = 0;
    proof {
        assert(params@.skip(0) =~= params@);
    }
    while i < params.len()
        invariant
            i <= params@.len(),
            spec_param(params@, key@) == spec_param(params@.skip(i as int), key@),
        decreases params@.len() - i,
    {
        proof {
            assert(params@.skip(i as int).drop_first() =~= params@.skip(i as int + 1));
            assert(params@.skip(i as int)[0] == params@[i as int]);
        }
        if text::str_eq(params[i].0.as_str(), key) {
            return Some(params[i].1.clone());
        }
        i += 1;
    }
    proof {
        assert(params@.skip(params@.len() as int) =~= Seq::<(String, String)>::empty());
    }
    None
}

/// Whether a declared provider name has an implementation.
pub open spec fn spec_known_provider(name: Seq<char>) -> bool {
    name == "Testing"@ || name == "Standalone"@ || name == "Status"@
}

/// Whether `p` is the provider that the declaration `d` describes.
pub open spec fn spec_matches_decl(p: Provider, d: ProviderDecl) -> bool {
    if d.name@ == "Testing"@ {
        p is Testing
    } else if d.name@ == "Standalone"@ {
        p is Standalone
    } else if d.name@ == "Status"@ {
        p matches Provider::Status(events) && events@ == spec_dedup(d.events@)
    } else {
        false
    }
}

/// Resolves one declaration against the implemented providers. An unknown
/// name is reported as `ProviderNotFound`, which is fatal to loading the
/// declaring hook.
pub fn resolve_decl(decl: &ProviderDecl) -> (r: Result<Provider, FisherError>)
    ensures
        r is Ok <==> spec_known_provider(decl.name@),
        r matches Ok(p) ==> spec_matches_decl(p, *decl) && p.wf(),
        r matches Err(e) ==> e.spec_kind() matches ErrorKind::ProviderNotFound(n) && n
            == decl.name,
{
    if text::str_eq(decl.name.as_str(), "Testing") {
        Ok(Provider::Testing)
    } else if text::str_eq(decl.name.as_str(), "Standalone") {
        Ok(Provider::Standalone)
    } else if text::str_eq(decl.name.as_str(), "Status") {
        Ok(Provider::Status(dedup_events(&decl.events)))
    } else {
        Err(FisherError::new(ErrorKind::ProviderNotFound(decl.name.clone())))
    }
}

} // verus!
