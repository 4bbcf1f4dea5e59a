//! The process-wide context shared by the dispatch loop and the intake handlers.
use std::sync::Arc;
use vstd::prelude::*;
use crate::token::Environment;

verus! {

#[verifier::external_type_specification]
#[verifier::external_body]
pub struct ExDb(sled::Db);

#[verifier::external_type_specification]
#[verifier::external_body]
pub struct ExClient(a2::Client);

/// The shared context: the token store, the two gateway identities, and the
/// topic attached to every outbound notification.
#[derive(Clone)]
pub struct State {
    inner: Arc<InnerState>,
}

/// What `State` shares between its handles.
pub struct InnerState {
    db: sled::Db,
    production_client: a2::Client,
    sandbox_client: a2::Client,
    topic: Option<String>,
}

impl State {
    /// The store this context holds.
    pub closed spec fn store(&self) -> sled::Db {
        self.inner.db
    }

    /// The identity for the production gateway.
    pub closed spec fn production(&self) -> a2::Client {
        self.inner.production_client
    }

    /// The identity for the sandbox gateway.
    pub closed spec fn sandbox(&self) -> a2::Client {
        self.inner.sandbox_client
    }

    /// The topic attached to every notification, if one was configured.
    pub closed spec fn topic_spec(&self) -> Option<String> {
        self.inner.topic
    }

    /// The identity that serves the given environment.
    pub open spec fn identity_for(&self, env: Environment) -> a2::Client {
        match env {
            Environment::Production => self.production(),
            Environment::Sandbox => self.sandbox(),
        }
    }

    /// Brings together a store and the two gateway identities, all opened once
    /// at startup.
    pub fn new(
        db: sled::Db,
        production_client: a2::Client,
        sandbox_client: a2::Client,
        topic: Option<String>,
    ) -> (r: State)
        ensures
            r.store() == db,
            r.production() == production_client,
            r.sandbox() == sandbox_client,
            r.topic_spec() == topic,
    {
        State { inner: Arc::new(InnerState { db, production_client, sandbox_client, topic }) }
    }

    pub fn db(&self) -> (r: &sled::Db)
        ensures
            *r == self.store(),
    {
        &self.inner.db
    }

    pub fn production_client(&self) -> (r: &a2::Client)
        ensures
            *r == self.production(),
    {
        &self.inner.production_client
    }

    pub fn sandbox_client(&self) -> (r: &a2::Client)
        ensures
            *r == self.sandbox(),
    {
        &self.inner.sandbox_client
    }

    pub fn topic(&self) -> (r: Option<&str>)
        ensures
            match (r, self.topic_spec()) {
                (Some(t), Some(u)) => t@ == u@,
                (None, None) => true,
                _ => false,
            },
    {
        match &self.inner.topic {
            Some(t) => Some(t.as_str()),
            None => None,
        }
    }

    /// The gateway identity that a token of the given environment is sent
    /// through.
    pub fn client_for(&self, env: Environment) -> (r: &a2::Client)
        ensures
            *r == self.identity_for(env),
    {
        match env {
            Environment::Production => self.production_client(),
            Environment::Sandbox => self.sandbox_client(),
        }
    }
}

} // verus!
