//! The orchestrator: the actions, the cache and the execution context that a
//! plan is computed and run with.

use crate::manifest::Manifest;
use tokio_util::sync::CancellationToken;
use vstd::prelude::*;

verus! {

/// `tokio_util::sync::CancellationToken`, carried through and never looked into.
#[verifier::external_type_specification]
#[verifier::external_body]
pub struct ExCancellationToken(CancellationToken);

/// Calls `CancellationToken::new`. Nothing is claimed of the fresh token.
#[verifier::external_body]
fn fresh_token() -> (r: CancellationToken) {
    CancellationToken::new()
}

/// Calls `num_cpus::get`, of which only its lower bound is claimed.
#[verifier::external_body]
fn cpu_count() -> (r: usize)
    ensures
        r >= 1,
{
    num_cpus::get()
}

/// The execution context passed to each action.
pub struct Ctx {
    /// Token used to signal cancellation to running tasks.
    pub cancel: CancellationToken,
    /// The working directory for the action.
    pub workdir: String,
    /// Environment variables to be passed to the action.
    pub env: Vec<(String, String)>,
}

/// Errors raised while validating a [`Builder`] configuration.
#[derive(Debug, PartialEq, Eq)]
pub enum BuilderError {
    /// No cache was set.
    MissingCache,
}

impl BuilderError {
    /// Renders the error.
    pub fn to_string(&self) -> (r: String)
        ensures
            r@ == "orchestrator builder requires a cache"@,
    {
        "orchestrator builder requires a cache".to_owned()
    }
}

/// Top-level orchestrator over actions `A`, a cache `C` and a pool `P` of
/// concurrency permits. Construct via [`Orchestrator::builder`].
pub struct Orchestrator<A, C, P> {
    actions: Vec<A>,
    cache: C,
    /// Optional manifest snapshot, kept for downstream consumers.
    pub manifest: Option<Manifest>,
    max_parallelism: usize,
    base_ctx: Ctx,
    pool: Option<P>,
}

/// Builder for [`Orchestrator`].
pub struct Builder<A, C, P> {
    actions: Vec<A>,
    cache: Option<C>,
    manifest: Option<Manifest>,
    max_parallelism: usize,
    base_ctx: Ctx,
    pool: Option<P>,
}

impl<A, C, P> Orchestrator<A, C, P> {
    /// The registered actions.
    pub closed spec fn spec_actions(&self) -> Seq<A> {
        self.actions@
    }

    /// The cache.
    pub closed spec fn spec_cache(&self) -> C {
        self.cache
    }

    /// The cap on concurrent actions.
    pub closed spec fn spec_max_parallelism(&self) -> usize {
        self.max_parallelism
    }

    /// The manifest snapshot.
    pub closed spec fn spec_manifest(&self) -> Option<Manifest> {
        self.manifest
    }

    /// The context.
    pub closed spec fn spec_base_ctx(&self) -> Ctx {
        self.base_ctx
    }

    /// The shared pool of permits.
    pub closed spec fn spec_pool(&self) -> Option<P> {
        self.pool
    }

    /// Starts a fresh [`Builder`].
    ///
    /// The default context has a fresh token, the given working directory and
    /// an empty environment: a snapshot of the process environment would carry
    /// secrets along.
    pub fn builder(workdir: String) -> (r: Builder<A, C, P>)
        ensures
            r.spec_actions() == Seq::<A>::empty(),
            r.spec_cache() is None,
            r.spec_manifest() is None,
            r.spec_max_parallelism() >= 1,
            r.spec_base_ctx().workdir == workdir,
            r.spec_base_ctx().env@.len() == 0,
            r.spec_pool() is None,
    {
        Builder {
            actions: Vec::new(),
            cache: None,
            manifest: None,
            max_parallelism: cpu_count(),
            base_ctx: Ctx { cancel: fresh_token(), workdir, env: Vec::new() },
            pool: None,
        }
    }

    /// The registered actions.
    pub fn actions(&self) -> (r: &Vec<A>)
        ensures
            r@ == self.spec_actions(),
    {
        &self.actions
    }

    /// The cache.
    pub fn cache(&self) -> (r: &C)
        ensures
            *r == self.spec_cache(),
    {
        &self.cache
    }

    /// The cap on concurrent actions.
    pub fn max_parallelism(&self) -> (r: usize)
        ensures
            r == self.spec_max_parallelism(),
    {
        self.max_parallelism
    }

    /// The context that actions run in.
    pub fn base_ctx(&self) -> (r: &Ctx)
        ensures
            *r == self.spec_base_ctx(),
    {
        &self.base_ctx
    }

    /// The pool of permits shared with other orchestrators, if there is one.
    pub fn pool(&self) -> (r: &Option<P>)
        ensures
            *r == self.spec_pool(),
    {
        &self.pool
    }

    /// Takes the orchestrator apart.
    pub fn into_parts(self) -> (r: (Vec<A>, C))
        ensures
            r.0@ == self.spec_actions(),
            r.1 == self.spec_cache(),
    {
        (self.actions, self.cache)
    }
}

impl<A, C, P> Builder<A, C, P> {
    /// The actions registered so far.
    pub closed spec fn spec_actions(&self) -> Seq<A> {
        self.actions@
    }

    /// The cache, if one was set.
    pub closed spec fn spec_cache(&self) -> Option<C> {
        self.cache
    }

    /// The manifest, if one was set.
    pub closed spec fn spec_manifest(&self) -> Option<Manifest> {
        self.manifest
    }

    /// The cap on concurrent actions.
    pub closed spec fn spec_max_parallelism(&self) -> usize {
        self.max_parallelism
    }

    /// The context.
    pub closed spec fn spec_base_ctx(&self) -> Ctx {
        self.base_ctx
    }

    /// The shared pool of permits, if one was set.
    pub closed spec fn spec_pool(&self) -> Option<P> {
        self.pool
    }

    /// Sets the cache backend. Required: [`Builder::build`] errors otherwise.
    pub fn cache(self, c: C) -> (r: Self)
        ensures
            r.spec_cache() == Some(c),
            r.spec_actions() == self.spec_actions(),
            r.spec_manifest() == self.spec_manifest(),
            r.spec_max_parallelism() == self.spec_max_parallelism(),
            r.spec_base_ctx() == self.spec_base_ctx(),
            r.spec_pool() == self.spec_pool(),
    {
        Builder { cache: Some(c), ..self }
    }

    /// Attaches the parsed manifest snapshot.
    pub fn manifest(self, m: Manifest) -> (r: Self)
        ensures
            r.spec_manifest() == Some(m),
            r.spec_actions() == self.spec_actions(),
            r.spec_cache() == self.spec_cache(),
            r.spec_max_parallelism() == self.spec_max_parallelism(),
            r.spec_base_ctx() == self.spec_base_ctx(),
            r.spec_pool() == self.spec_pool(),
    {
        Builder { manifest: Some(m), ..self }
    }

    /// Caps the concurrent in-flight actions, at one at least.
    pub fn max_parallelism(self, n: usize) -> (r: Self)
        ensures
            r.spec_max_parallelism() == if n == 0 {
                1
            } else {
                n
            },
            r.spec_actions() == self.spec_actions(),
            r.spec_cache() == self.spec_cache(),
            r.spec_manifest() == self.spec_manifest(),
            r.spec_base_ctx() == self.spec_base_ctx(),
            r.spec_pool() == self.spec_pool(),
    {
        Builder {
            max_parallelism: if n == 0 {
                1
            } else {
                n
            },
            ..self
        }
    }

    /// Overrides the base context.
    pub fn base_ctx(self, ctx: Ctx) -> (r: Self)
        ensures
            r.spec_base_ctx() == ctx,
            r.spec_actions() == self.spec_actions(),
            r.spec_cache() == self.spec_cache(),
            r.spec_manifest() == self.spec_manifest(),
            r.spec_max_parallelism() == self.spec_max_parallelism(),
            r.spec_pool() == self.spec_pool(),
    {
        Builder { base_ctx: ctx, ..self }
    }

    /// Draws permits from a pool shared with other orchestrators instead of an
    /// own one.
    pub fn shared_semaphore(self, pool: P) -> (r: Self)
        ensures
            r.spec_pool() == Some(pool),
            r.spec_actions() == self.spec_actions(),
            r.spec_cache() == self.spec_cache(),
            r.spec_manifest() == self.spec_manifest(),
            r.spec_max_parallelism() == self.spec_max_parallelism(),
            r.spec_base_ctx() == self.spec_base_ctx(),
    {
        Builder { pool: Some(pool), ..self }
    }

    /// Registers one action. May be called many times.
    pub fn register(self, a: A) -> (r: Self)
        ensures
            r.spec_actions() == self.spec_actions().push(a),
            r.spec_cache() == self.spec_cache(),
            r.spec_manifest() == self.spec_manifest(),
            r.spec_max_parallelism() == self.spec_max_parallelism(),
            r.spec_base_ctx() == self.spec_base_ctx(),
            r.spec_pool() == self.spec_pool(),
    {
        let mut actions = self.actions;
        actions.push(a);
        Builder {
            actions,
            cache: self.cache,
            manifest: self.manifest,
            max_parallelism: self.max_parallelism,
            base_ctx: self.base_ctx,
            pool: self.pool,
        }
    }

    /// Finalizes; fails exactly when no cache was set.
    pub fn build(self) -> (r: Result<Orchestrator<A, C, P>, BuilderError>)
        ensures
            match self.spec_cache() {
                None => r matches Err(e) && e == BuilderError::MissingCache,
                Some(c) => {
                    &&& r matches Ok(o)
                    &&& o.spec_cache() == c
                    &&& o.spec_actions() == self.spec_actions()
                    &&& o.spec_manifest() == self.spec_manifest()
                    &&& o.spec_max_parallelism() == self.spec_max_parallelism()
                    &&& o.spec_base_ctx() == self.spec_base_ctx()
                    &&& o.spec_pool() == self.spec_pool()
                },
            },
    {
        match self.cache {
            None => Err(BuilderError::MissingCache),
            Some(cache) => Ok(
                Orchestrator {
                    actions: self.actions,
                    cache,
                    manifest: self.manifest,
                    max_parallelism: self.max_parallelism,
                    base_ctx: self.base_ctx,
                    pool: self.pool,
                },
            ),
        }
    }
}

} // verus!
