//! The stream coordinator: the process-wide registry that routes each
//! request to the live worker for its remote path, creates workers lazily,
//! and invalidates every worker when the active connection configuration
//! is replaced.
//!
//! The active configuration carries a generation counter, bumped on every
//! replacement; a registration whose generation differs from the current
//! one is stale and treated as absent, never reused.

use vstd::prelude::*;

verus! {

/// The connection configuration: host, port, user, and either a password
/// or a private key (with an optional passphrase).  Replaced wholesale,
/// never merged.
pub struct SshConfig {
    pub host: String,
    pub port: u16,
    pub username: String,
    pub password: Option<String>,
    pub private_key: Option<String>,
    pub passphrase: Option<String>,
}

impl SshConfig {
    /// An exact copy of this configuration, for the worker that captures
    /// it at creation time.
    pub fn duplicate(&self) -> (c: SshConfig)
        ensures
            c == *self,
    {
        SshConfig {
            host: self.host.clone(),
            port: self.port,
            username: self.username.clone(),
            password: clone_opt_string(&self.password),
            private_key: clone_opt_string(&self.private_key),
            passphrase: clone_opt_string(&self.passphrase),
        }
    }
}

/// Copy an optional owned string.
fn clone_opt_string(o: &Option<String>) -> (c: Option<String>)
    ensures
        c == *o,
{
    match o {
        Some(s) => Some(s.clone()),
        None => None,
    }
}

/// The way a session will authenticate, decided from the configuration
/// alone, before any network traffic.
pub enum AuthChoice {
    /// Key-based authentication, preferred whenever a key is configured.
    PrivateKey { key: String, passphrase: Option<String> },
    /// Password authentication, used when no key is configured.
    Password { password: String },
}

/// Decide how a session for `config` authenticates: a configured private
/// key wins, else a configured password, else the configuration is
/// rejected before any network I/O beyond the handshake.
pub fn auth_method(config: &SshConfig) -> (r: Result<AuthChoice, String>)
    ensures
        match r {
            Ok(choice) => match choice {
                AuthChoice::PrivateKey { key, passphrase } => (config.private_key matches Some(k)
                    && key == k) && passphrase == config.passphrase,
                AuthChoice::Password { password } => config.private_key is None && (
                config.password matches Some(p) && password == p),
            },
            Err(msg) => config.private_key is None && config.password is None && msg@
                == "Provide a password or private key for authentication."@,
        },
{
    match &config.private_key {
        Some(k) => Ok(AuthChoice::PrivateKey {
            key: k.clone(),
            passphrase: clone_opt_string(&config.passphrase),
        }),
        None => match &config.password {
            Some(p) => Ok(AuthChoice::Password { password: p.clone() }),
            None => Err("Provide a password or private key for authentication.".to_owned()),
        },
    }
}

/// One registry entry: a live worker for a remote path, tagged with the
/// generation it was created under.
pub struct Registration {
    pub path: String,
    pub generation: u64,
}

/// The generation recorded for `path`, from the first registration that
/// carries it; nothing when no registration does.
pub open spec fn lookup_gen(regs: Seq<Registration>, path: Seq<char>) -> Option<u64>
    decreases regs.len(),
{
    if regs.len() == 0 {
        None
    } else if regs[0].path@ == path {
        Some(regs[0].generation)
    } else {
        lookup_gen(regs.skip(1), path)
    }
}

/// A first match at index `i` is what `lookup_gen` reports.
proof fn lemma_lookup_at(regs: Seq<Registration>, path: Seq<char>, i: int)
    requires
        0 <= i < regs.len(),
        regs[i].path@ == path,
        forall|k: int| 0 <= k < i ==> (#[trigger] regs[k]).path@ != path,
    ensures
        lookup_gen(regs, path) == Some(regs[i].generation),
    decreases i,
{
    if i > 0 {
        let tail = regs.skip(1);
        assert(tail[i - 1] == regs[i]);
        assert(forall|k: int| 0 <= k < i - 1 ==> (#[trigger] tail[k]).path@ != path);
        lemma_lookup_at(tail, path, i - 1);
    }
}

/// With no registration for `path`, `lookup_gen` reports nothing.
proof fn lemma_lookup_none(regs: Seq<Registration>, path: Seq<char>)
    requires
        forall|k: int| 0 <= k < regs.len() ==> (#[trigger] regs[k]).path@ != path,
    ensures
        lookup_gen(regs, path) is None,
    decreases regs.len(),
{
    if regs.len() > 0 {
        let tail = regs.skip(1);
        assert(forall|k: int| 0 <= k < tail.len() ==> (#[trigger] tail[k]).path@ != path);
        lemma_lookup_none(tail, path);
    }
}

/// Replacing the entry at `i` with one for the same path leaves every
/// other path's lookup unchanged.
proof fn lemma_lookup_update_other(regs: Seq<Registration>, i: int, r2: Registration, q: Seq<char>)
    requires
        0 <= i < regs.len(),
        regs[i].path@ == r2.path@,
        q != r2.path@,
    ensures
        lookup_gen(regs.update(i, r2), q) == lookup_gen(regs, q),
    decreases regs.len(),
{
    let upd = regs.update(i, r2);
    if i == 0 {
        assert(upd[0] == r2);
        assert(upd.skip(1) =~= regs.skip(1));
    } else {
        assert(upd[0] == regs[0]);
        if regs[0].path@ != q {
            assert(upd.skip(1) =~= regs.skip(1).update(i - 1, r2));
            assert(regs.skip(1)[i - 1] == regs[i]);
            lemma_lookup_update_other(regs.skip(1), i - 1, r2, q);
        }
    }
}

/// Appending a registration changes no other path's lookup, and gives the
/// appended path its generation when the path was absent before.
proof fn lemma_lookup_push(regs: Seq<Registration>, r2: Registration, q: Seq<char>)
    ensures
        lookup_gen(regs.push(r2), q) == if lookup_gen(regs, q) is Some {
            lookup_gen(regs, q)
        } else if r2.path@ == q {
            Some(r2.generation)
        } else {
            None
        },
    decreases regs.len(),
{
    let ext = regs.push(r2);
    if regs.len() == 0 {
        assert(ext[0] == r2);
        assert(ext.skip(1) =~= Seq::<Registration>::empty());
    } else {
        assert(ext[0] == regs[0]);
        assert(ext.skip(1) =~= regs.skip(1).push(r2));
        lemma_lookup_push(regs.skip(1), r2, q);
    }
}

/// Where a request for a path must go.
pub enum RouteTarget {
    /// No active configuration is set: fail at once; no worker is created
    /// or even looked up further.
    Unconfigured,
    /// A live worker for the path exists under the current generation:
    /// route to it.
    Existing,
    /// No current worker existed: a new one must be created with this
    /// snapshot of the active configuration, and it has been registered
    /// under the current generation, replacing any stale entry.
    Created { config: SshConfig },
}

/// What routing a request for `path` guarantees: the configuration and
/// generation are untouched; an unconfigured coordinator rejects without
/// touching the registry; an up-to-date registration is reused as it
/// stands; and otherwise a fresh worker is registered for the path under
/// the current generation — replacing any stale entry — with every other
/// path's registration left as it was.
pub open spec fn route_post(pre: Coordinator, post: Coordinator, path: Seq<char>, t: RouteTarget) -> bool {
    &&& post.wf()
    &&& post.config == pre.config
    &&& post.generation == pre.generation
    &&& match t {
        RouteTarget::Unconfigured => pre.config is None && post.registry@ == pre.registry@,
        RouteTarget::Existing => pre.config is Some && lookup_gen(pre.registry@, path) == Some(
            pre.generation,
        ) && post.registry@ == pre.registry@,
        RouteTarget::Created { config } => (pre.config matches Some(c) && config == c)
            && lookup_gen(pre.registry@, path) != Some(pre.generation) && lookup_gen(
            post.registry@,
            path,
        ) == Some(pre.generation) && (forall|q: Seq<char>|
            q != path ==> #[trigger] lookup_gen(post.registry@, q) == lookup_gen(
                pre.registry@,
                q,
            )),
    }
}

/// The process-wide stream coordinator: the active configuration, its
/// generation, and the registry of live workers keyed by remote path.
pub struct Coordinator {
    pub config: Option<SshConfig>,
    pub generation: u64,
    pub registry: Vec<Registration>,
}

impl Coordinator {
    /// At most one registration per remote path.
    pub open spec fn wf(self) -> bool {
        forall|i: int, j: int|
            0 <= i < j < self.registry@.len() ==> (#[trigger] self.registry@[i]).path@ != (
            #[trigger] self.registry@[j]).path@
    }

    /// A coordinator with no configuration and no workers.
    pub fn new() -> (c: Coordinator)
        ensures
            c.wf(),
            c.config is None,
            c.generation == 0,
            c.registry@.len() == 0,
    {
        Coordinator { config: None, generation: 0, registry: Vec::new() }
    }

    /// Replace the active configuration wholesale: the generation is
    /// bumped, so every registered worker becomes stale, and the registry
    /// is drained — the returned registrations are the workers the caller
    /// must send a shutdown signal to.
    pub fn set_active_config(&mut self, config: SshConfig) -> (stale: Vec<Registration>)
        requires
            old(self).generation < u64::MAX,
        ensures
            final(self).wf(),
            final(self).config == Some(config),
            final(self).generation == old(self).generation + 1,
            final(self).registry@.len() == 0,
            stale@ == old(self).registry@,
    {
        self.config = Some(config);
        self.generation = self.generation + 1;
        let mut drained: Vec<Registration> = Vec::new();
        core::mem::swap(&mut drained, &mut self.registry);
        drained
    }

    /// Route a request for `path`: fail when unconfigured, reuse the live
    /// worker registered under the current generation, and otherwise
    /// register a brand-new worker under the current generation —
    /// replacing any stale entry — and hand back the configuration
    /// snapshot it must be created with.
    pub fn route(&mut self, path: &String) -> (t: RouteTarget)
        requires
            old(self).wf(),
        ensures
            route_post(*old(self), *final(self), path@, t),
    {
        if self.config.is_none() {
            return RouteTarget::Unconfigured;
        }
        let generation = self.generation;
        let n = self.registry.len();
        let mut i: usize = 0;
        while i < n && !string_eq(&self.registry[i].path, path)
            invariant
                n == self.registry@.len(),
                0 <= i <= n,
                forall|k: int| 0 <= k < i ==> (#[trigger] self.registry@[k]).path@ != path@,
            decreases n - i,
        {
            i = i + 1;
        }
        if i < n {
            proof {
                lemma_lookup_at(self.registry@, path@, i as int);
            }
            if self.registry[i].generation == generation {
                return RouteTarget::Existing;
            }
            let ghost regs0 = self.registry@;
            let replacement = Registration { path: path.clone(), generation };
            self.registry.set(i, replacement);
            proof {
                let regs1 = self.registry@;
                assert(regs1 =~= regs0.update(i as int, replacement));
                assert(replacement.path@ == path@);
                lemma_lookup_at(regs1, path@, i as int);
                assert forall|q: Seq<char>| q != path@ implies #[trigger] lookup_gen(regs1, q)
                    == lookup_gen(regs0, q) by {
                    lemma_lookup_update_other(regs0, i as int, replacement, q);
                }
                assert forall|a: int, b: int|
                    0 <= a < b < regs1.len() implies (#[trigger] regs1[a]).path@ != (
                #[trigger] regs1[b]).path@ by {
                    assert(regs0[a].path@ != regs0[b].path@);
                }
            }
            let config = match &self.config {
                Some(c) => c.duplicate(),
                None => unreached(),
            };
            return RouteTarget::Created { config };
        }
        proof {
            lemma_lookup_none(self.registry@, path@);
        }
        let ghost regs0 = self.registry@;
        let fresh = Registration { path: path.clone(), generation };
        self.registry.push(fresh);
        proof {
            let regs1 = self.registry@;
            assert(regs1 =~= regs0.push(fresh));
            lemma_lookup_push(regs0, fresh, path@);
            assert(lookup_gen(regs1, path@) == Some(generation));
            assert forall|q: Seq<char>| q != path@ implies #[trigger] lookup_gen(regs1, q)
                == lookup_gen(regs0, q) by {
                lemma_lookup_push(regs0, fresh, q);
            }
            assert forall|a: int, b: int|
                0 <= a < b < regs1.len() implies (#[trigger] regs1[a]).path@ != (
            #[trigger] regs1[b]).path@ by {
                if b < regs1.len() - 1 {
                    assert(regs0[a].path@ != regs0[b].path@);
                } else {
                    assert(regs1[b].path@ == path@);
                    assert(regs0[a].path@ != path@);
                }
            }
        }
        let config = match &self.config {
            Some(c) => c.duplicate(),
            None => unreached(),
        };
        RouteTarget::Created { config }
    }
}

/// What a stream request resolves to: an immediate rejection, or a
/// routed path with its target worker.
pub enum Dispatch {
    /// The request is answered at once, without any worker involvement.
    Reject(crate::response::StreamResponse),
    /// The request goes to the worker for `path`, per `target`.
    Route { path: String, target: RouteTarget },
}

impl Coordinator {
    /// Handle one incoming stream request: decode the resource identifier
    /// and route it.  A malformed identifier is rejected with a 400-class
    /// response before any worker is looked up or created, and a request
    /// without an active configuration with a 401; otherwise the request
    /// is routed exactly as [`Coordinator::route`] guarantees.
    pub fn dispatch(&mut self, uri: &str) -> (d: Dispatch)
        requires
            old(self).wf(),
        ensures
            final(self).wf(),
            final(self).config == old(self).config,
            final(self).generation == old(self).generation,
            match d {
                Dispatch::Reject(resp) => final(self).registry@ == old(self).registry@ && match
                    crate::streampath::spec_parse_stream_path(uri@) {
                    Err(m) => crate::response::is_error_response(resp, 400, m),
                    Ok(_) => old(self).config is None && crate::response::is_error_response(
                        resp,
                        401,
                        "SSH config not set."@,
                    ),
                },
                Dispatch::Route { path, target } => !(target is Unconfigured)
                    && crate::streampath::spec_parse_stream_path(uri@) == Ok::<
                    Seq<char>,
                    Seq<char>,
                >(path@) && route_post(*old(self), *final(self), path@, target),
            },
    {
        let path = match crate::streampath::parse_stream_path(uri) {
            Ok(path) => path,
            Err(msg) => {
                return Dispatch::Reject(crate::response::error_response(400, msg.as_str()));
            },
        };
        match self.route(&path) {
            RouteTarget::Unconfigured => Dispatch::Reject(
                crate::response::error_response(401, "SSH config not set."),
            ),
            RouteTarget::Existing => Dispatch::Route { path, target: RouteTarget::Existing },
            RouteTarget::Created { config } => Dispatch::Route {
                path,
                target: RouteTarget::Created { config },
            },
        }
    }
}

/// Are two owned strings equal?
fn string_eq(a: &String, b: &String) -> (r: bool)
    ensures
        r == (a@ == b@),
{
    <String as PartialEq>::eq(a, b)
}

/// Replacing the active configuration invalidates every worker: the
/// registry is left empty, so the next request for any path — including
/// one a worker was serving a moment before — finds no live registration
/// and creates a fresh worker under the freshly bumped generation.
///
/// The first three conclusions say that a worker mid-request completes:
/// the shutdown broadcast by `set_active_config` is queued behind the
/// requests already in the worker's mailbox, so each of them is still
/// answered, in arrival order, before the worker stops.  The last says
/// the drained registry holds no registration at all, so `route` answers
/// `Created` for every path, under the generation the replacement bumped.
pub proof fn lemma_replacement_lets_requests_finish(
    file: Seq<u8>,
    pending: Seq<crate::worker::MsgModel>,
    c1: Coordinator,
)
    requires
        forall|i: int| 0 <= i < pending.len() ==> #[trigger] pending[i] is Read,
        c1.registry@.len() == 0,
    ensures
        crate::worker::run_serving(file, pending.push(crate::worker::MsgModel::Shutdown)).0.len()
            == pending.len(),
        crate::worker::run_serving(file, pending.push(crate::worker::MsgModel::Shutdown)).1,
        forall|i: int|
            0 <= i < pending.len() ==> #[trigger] crate::worker::run_serving(
                file,
                pending.push(crate::worker::MsgModel::Shutdown),
            ).0[i] == crate::worker::serve_outcome(file, pending[i]->Read_range),
        forall|path: Seq<char>| #[trigger] lookup_gen(c1.registry@, path) is None,
{
    crate::worker::lemma_shutdown_after_pending(file, pending);
}

} // verus!
