//! The concurrency token pool bounding how many external compiler processes
//! run at once. When the calling build system already exposes a compatible
//! token-passing protocol, the pool attaches to it; otherwise a private pool
//! is created with one token per job beyond the calling process itself.

use vstd::prelude::*;

use crate::model::ContextError;

verus! {

#[verifier::external_type_specification]
#[verifier::external_body]
pub struct ExClient(jobserver::Client);

#[verifier::external_type_specification]
#[verifier::external_body]
pub struct ExAcquired(jobserver::Acquired);

/// Relies on jobserver::Client::new: creates a token pool holding `limit`
/// tokens; it fails only on an operating-system error.
#[verifier::external_body]
fn client_new(limit: usize) -> (r: Result<jobserver::Client, ()>) {
    match jobserver::Client::new(limit) {
        Ok(c) => Ok(c),
        Err(_) => Err(()),
    }
}

/// Relies on jobserver::Client::clone: every clone refers to the same
/// jobserver instance, so attaching shares the orchestrator's limit.
#[verifier::external_body]
fn client_clone(c: &jobserver::Client) -> (r: jobserver::Client) {
    c.clone()
}

/// Relies on jobserver::Client::acquire: blocks until a token is free; the
/// token returns to the pool when the returned guard is dropped, on every
/// exit path of the job holding it.
#[verifier::external_body]
fn client_acquire(c: &jobserver::Client) -> (r: Result<jobserver::Acquired, ()>) {
    match c.acquire() {
        Ok(a) => Ok(a),
        Err(_) => Err(()),
    }
}

/// The concurrency token pool of one build context.
pub struct TokenPool {
    /// The underlying token-passing client.
    pub client: jobserver::Client,
    /// Whether the pool is shared with an external orchestrator rather than
    /// privately created.
    pub shared: bool,
}

impl TokenPool {
    /// Attach to the orchestrator's pool when one was found in the
    /// environment; otherwise create a private pool sized to one token per
    /// job beyond the calling process itself. Creation failure is fatal to
    /// context construction.
    pub fn new(env_client: Option<&jobserver::Client>, jobs: u32) -> (r: Result<
        TokenPool,
        ContextError,
    >)
        requires
            jobs >= 1,
        ensures
            match r {
                Ok(p) => p.shared == (env_client is Some),
                Err(e) => env_client is None && e == ContextError::PoolCreation,
            },
            env_client is Some ==> r is Ok,
    {
        match env_client {
            Some(c) => Ok(TokenPool { client: client_clone(c), shared: true }),
            None => {
                let limit = (jobs - 1) as usize;
                match client_new(limit) {
                    Ok(c) => Ok(TokenPool { client: c, shared: false }),
                    Err(_) => Err(ContextError::PoolCreation),
                }
            },
        }
    }

    /// Block the calling thread until a compiler slot is free. The returned
    /// guard releases the slot when dropped, whatever the exit path. Success
    /// is up to the operating system; a failure is always reported as the
    /// token-acquisition error.
    pub fn acquire(&self) -> (r: Result<jobserver::Acquired, ContextError>)
        ensures
            r matches Err(e) ==> e == ContextError::TokenAcquire,
    {
        match client_acquire(&self.client) {
            Ok(a) => Ok(a),
            Err(_) => Err(ContextError::TokenAcquire),
        }
    }
}

} // verus!
