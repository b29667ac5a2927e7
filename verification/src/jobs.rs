//! Jobs and the pure parts of their execution: building the subprocess
//! environment from scratch, the request-body file's path and content, and
//! classifying the subprocess outcome. Spawning the process, creating the
//! working directory and reading the parent environment are
//! operating-system work and happen outside this crate; their results are
//! handed in and out as plain values.

use std::sync::Arc;

use vstd::prelude::*;
use vstd::string::StringExecFns;

use crate::errors::{ErrorKind, FisherError};
use crate::hooks::Hook;
use crate::providers::{Provider, Request};
use crate::text;

verus! {

/// One dispatch instance: a hook, the provider that matched the request,
/// if any, and the triggering request. Consumed once by the executor.
pub struct Job {
    hook: Arc<Hook>,
    provider: Option<Arc<Provider>>,
    request: Request,
}

/// The environment variables a hook process inherits from its parent: a
/// fixed whitelist, a deliberate security boundary.
pub open spec fn spec_whitelisted(key: Seq<char>) -> bool {
    key == "PATH"@ || key == "USER"@ || key == "SHELL"@ || key == "LC_ALL"@ || key == "LANG"@
}

/// Whether a parent environment variable is passed through to hooks.
pub fn is_whitelisted(key: &str) -> (r: bool)
    ensures
        r == spec_whitelisted(key@),
{
    text::str_eq(key, "PATH") || text::str_eq(key, "USER") || text::str_eq(key, "SHELL")
        || text::str_eq(key, "LC_ALL") || text::str_eq(key, "LANG")
}

/// The parent environment restricted to the whitelist, in its order.
pub open spec fn spec_filtered_env(parent: Seq<(String, String)>) -> Seq<(Seq<char>, Seq<char>)>
    decreases parent.len(),
{
    if parent.len() == 0 {
        Seq::empty()
    } else {
        spec_filtered_env(parent.drop_last()) + (if spec_whitelisted(parent.last().0@) {
            seq![(parent.last().0@, parent.last().1@)]
        } else {
            Seq::empty()
        })
    }
}

/// The provider-derived entries, each key prefixed with the provider's
/// environment prefix.
pub open spec fn spec_provider_entries(provider: Option<Arc<Provider>>, request: Request) -> Seq<
    (Seq<char>, Seq<char>),
> {
    match provider {
        Some(p) => p.spec_env(request).map_values(
            |e: (Seq<char>, Seq<char>)| (p.spec_env_prefix() + e.0, e.1),
        ),
        None => Seq::empty(),
    }
}

/// The entire environment a hook process sees, in construction order: the
/// whitelisted parent variables, the provider-derived entries under their
/// prefixed names, `HOME` set to the working directory, and
/// `FISHER_REQUEST_BODY` set to the persisted request body's path.
pub open spec fn spec_environment(
    provider: Option<Arc<Provider>>,
    request: Request,
    parent: Seq<(String, String)>,
    working_dir: Seq<char>,
    body_path: Seq<char>,
) -> Seq<(Seq<char>, Seq<char>)> {
    spec_filtered_env(parent) + spec_provider_entries(provider, request) + seq![
        ("HOME"@, working_dir),
        ("FISHER_REQUEST_BODY"@, body_path),
    ]
}

/// The body a request carries: a web request's body; a status-triggered
/// request persists an empty body.
pub open spec fn spec_request_body(request: Request) -> Seq<char> {
    match request {
        Request::Web(req) => req.body@,
        Request::Status(_) => Seq::empty(),
    }
}

/// The path of the persisted request body inside the working directory.
pub fn body_file_path(working_dir: &str) -> (r: String)
    ensures
        r@ == working_dir@ + "/request_body"@,
{
    let mut s = working_dir.to_owned();
    s.append("/request_body");
    s
}

/// Classifies a finished subprocess: a clean exit is a success; anything
/// else is `HookExecutionFailed` carrying the exit code or the signal.
pub fn process_outcome(success: bool, code: Option<i32>, signal: Option<i32>) -> (r: Result<
    (),
    FisherError,
>)
    ensures
        r is Ok <==> success,
        r matches Err(e) ==> e.spec_kind() == ErrorKind::HookExecutionFailed(code, signal),
{
    if success {
        Ok(())
    } else {
        Err(FisherError::new(ErrorKind::HookExecutionFailed(code, signal)))
    }
}

impl Job {
    /// The hook this job runs.
    pub closed spec fn spec_hook(&self) -> Arc<Hook> {
        self.hook
    }

    /// The provider that matched the triggering request, if any.
    pub closed spec fn spec_provider(&self) -> Option<Arc<Provider>> {
        self.provider
    }

    /// The triggering request.
    pub closed spec fn spec_request(&self) -> Request {
        self.request
    }

    /// Binds a hook, an optional matched provider and the triggering
    /// request into one dispatch instance.
    pub fn new(hook: Arc<Hook>, provider: Option<Arc<Provider>>, request: Request) -> (r: Job)
        ensures
            r.spec_hook() == hook,
            r.spec_provider() == provider,
            r.spec_request() == request,
    {
        Job { hook, provider, request }
    }

    /// The name of the hook this job runs.
    pub fn hook_name(&self) -> (r: &str)
        ensures
            r@ == self.spec_hook().spec_name(),
    {
        self.hook.name()
    }

    /// The canonical path of the executable this job runs.
    pub fn executable(&self) -> (r: &str)
        ensures
            r@ == self.spec_hook().spec_exec_path(),
    {
        self.hook.exec_path()
    }

    /// The content persisted to the request-body file: the request's body
    /// followed by a newline.
    pub fn body_file_content(&self) -> (r: String)
        ensures
            r@ == spec_request_body(self.spec_request()) + "\n"@,
    {
        match &self.request {
            Request::Web(req) => {
                let mut s = req.body.clone();
                s.append("\n");
                s
            },
            Request::Status(_) => {
                let s = String::from_str("\n");
                proof {
                    assert(Seq::<char>::empty() + "\n"@ =~= "\n"@);
                }
                s
            },
        }
    }

    /// Builds the subprocess environment from scratch, never inheriting
    /// the parent environment wholesale: only whitelisted parent variables
    /// pass through, the matched provider's entries are injected under
    /// `FISHER_<PROVIDER>_<KEY>`, `HOME` is the working directory, and
    /// `FISHER_REQUEST_BODY` points at the persisted body.
    pub fn environment(&self, parent: &Vec<(String, String)>, working_dir: &str, body_path: &str) -> (r:
        Vec<(String, String)>)
        ensures
            r.deep_view() == spec_environment(
                self.spec_provider(),
                self.spec_request(),
                parent@,
                working_dir@,
                body_path@,
            ),
    {
        let mut out: Vec<(String, String)> = Vec::new();
        let mut i: usize = 0;
        while i < parent.len()
            invariant
                i <= parent@.len(),
                out.deep_view() == spec_filtered_env(parent@.take(i as int)),
            decreases parent@.len() - i,
        {
            let ghost pre = out.deep_view();
            proof {
                assert(parent@.take(i as int + 1).drop_last() =~= parent@.take(i as int));
                assert(parent@.take(i as int + 1).last() == parent@[i as int]);
            }
            if is_whitelisted(parent[i].0.as_str()) {
                let key = parent[i].0.clone();
                let value = parent[i].1.clone();
                out.push((key, value));
                proof {
                    assert(out.deep_view() =~= pre + seq![
                        (parent@[i as int].0@, parent@[i as int].1@),
                    ]);
                }
            }
            i += 1;
        }
        proof {
            assert(parent@.take(parent@.len() as int) =~= parent@);
        }
        let ghost filtered = out.deep_view();
        match &self.provider {
            Some(p) => {
                let entries = p.env(&self.request);
                let ghost derived = entries.deep_view();
                let mut j: usize = 0;
                while j < entries.len()
                    invariant
                        j <= entries@.len(),
                        entries.deep_view() == derived,
                        derived == self.spec_provider()->0.spec_env(self.spec_request()),
                        self.spec_provider() is Some,
                        p == self.spec_provider()->0,
                        out.deep_view() == filtered + derived.take(j as int).map_values(
                            |e: (Seq<char>, Seq<char>)| (p.spec_env_prefix() + e.0, e.1),
                        ),
                    decreases entries@.len() - j,
                {
                    let ghost pre = out.deep_view();
                    let mut key = String::from_str(p.env_prefix());
                    key.append(entries[j].0.as_str());
                    let value = entries[j].1.clone();
                    out.push((key, value));
                    proof {
                        assert(entries@[j as int].0@ == derived[j as int].0);
                        assert(entries@[j as int].1@ == derived[j as int].1);
                        assert(derived.take(j as int + 1) =~= derived.take(j as int).push(
                            derived[j as int],
                        ));
                        assert(out.deep_view() =~= pre + seq![
                            (p.spec_env_prefix() + derived[j as int].0, derived[j as int].1),
                        ]);
                        assert(derived.take(j as int + 1).map_values(
                            |e: (Seq<char>, Seq<char>)| (p.spec_env_prefix() + e.0, e.1),
                        ) =~= derived.take(j as int).map_values(
                            |e: (Seq<char>, Seq<char>)| (p.spec_env_prefix() + e.0, e.1),
                        ).push((p.spec_env_prefix() + derived[j as int].0, derived[j as int].1)));
                        assert(out.deep_view() =~= filtered + derived.take(j as int + 1).map_values(
                            |e: (Seq<char>, Seq<char>)| (p.spec_env_prefix() + e.0, e.1),
                        ));
                    }
                    j += 1;
                }
                proof {
                    assert(derived.take(derived.len() as int) =~= derived);
                }
            },
            None => {},
        }
        let ghost with_provider = out.deep_view();
        proof {
            assert(with_provider == spec_filtered_env(parent@) + spec_provider_entries(
                self.spec_provider(),
                self.spec_request(),
            ));
        }
        out.push((String::from_str("HOME"), working_dir.to_owned()));
        out.push((String::from_str("FISHER_REQUEST_BODY"), body_path.to_owned()));
        proof {
            assert(out.deep_view() =~= with_provider + seq![
                ("HOME"@, working_dir@),
                ("FISHER_REQUEST_BODY"@, body_path@),
            ]);
        }
        out
    }
}

} // verus!
