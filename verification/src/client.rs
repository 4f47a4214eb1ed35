//! The client registry: at most one lazily built API-client handle, derived
//! from the current global configuration and discarded whenever that
//! configuration is replaced. A handle is a pure copy of the connection
//! fields; the network client itself is built from it outside this core.

use crate::config::{Config, ConfigV};
use vstd::prelude::*;

verus! {

/// Everything an API client is built from: a pure copy of the connection
/// configuration, cheap to hand out.
pub struct ClientHandle {
    pub api_base: String,
    pub api_key: String,
    pub org_id: String,
}

pub struct ClientHandleV {
    pub api_base: Seq<char>,
    pub api_key: Seq<char>,
    pub org_id: Seq<char>,
}

impl View for ClientHandle {
    type V = ClientHandleV;

    open spec fn view(&self) -> ClientHandleV {
        ClientHandleV {
            api_base: self.api_base@,
            api_key: self.api_key@,
            org_id: self.org_id@,
        }
    }
}

impl ClientHandle {
    pub fn duplicate(&self) -> (r: ClientHandle)
        ensures
            r@ == self@,
    {
        ClientHandle {
            api_base: self.api_base.clone(),
            api_key: self.api_key.clone(),
            org_id: self.org_id.clone(),
        }
    }
}

/// The client that a given configuration builds.
pub open spec fn spec_client_of(c: ConfigV) -> ClientHandleV {
    ClientHandleV {
        api_base: c.openai.api_base,
        api_key: c.openai.api_key,
        org_id: c.openai.org_id,
    }
}

/// The process-wide state every component works against: the current global
/// configuration and the registry's single client slot.
pub struct AppState {
    pub config: Config,
    client_slot: Option<ClientHandle>,
}

impl AppState {
    pub closed spec fn spec_config(self) -> ConfigV {
        self.config@
    }

    pub closed spec fn slot(self) -> Option<ClientHandleV> {
        match self.client_slot {
            Some(h) => Some(h@),
            None => None,
        }
    }

    /// The slot, when filled, always holds the client of the current
    /// configuration: no stale client survives a configuration change.
    pub closed spec fn wf(self) -> bool {
        self.slot() matches Some(h) ==> h == spec_client_of(self.spec_config())
    }

    pub fn new(config: Config) -> (r: AppState)
        ensures
            r.spec_config() == config@,
            r.slot() is None,
            r.wf(),
    {
        AppState { config, client_slot: None }
    }

    fn build_client(c: &Config) -> (r: ClientHandle)
        ensures
            r@ == spec_client_of(c@),
    {
        ClientHandle {
            api_base: c.openai.api_base.clone(),
            api_key: c.openai.api_key.expose_secret().clone(),
            org_id: c.openai.org_id.clone(),
        }
    }

    /// The current client: built from the current configuration on first
    /// use, then the same instance until the configuration changes.
    pub fn get_client(&mut self) -> (r: ClientHandle)
        requires
            old(self).wf(),
        ensures
            final(self).wf(),
            final(self).spec_config() == old(self).spec_config(),
            r@ == spec_client_of(final(self).spec_config()),
            final(self).slot() == Some(r@),
    {
        if self.client_slot.is_none() {
            let h = Self::build_client(&self.config);
            self.client_slot = Some(h);
        }
        let h: &ClientHandle = self.client_slot.as_ref().unwrap();
        h.duplicate()
    }

    /// Force reconstruction from the latest configuration.
    pub fn reload_client(&mut self)
        ensures
            final(self).wf(),
            final(self).spec_config() == old(self).spec_config(),
            final(self).slot() == Some(spec_client_of(old(self).spec_config())),
    {
        let h = Self::build_client(&self.config);
        self.client_slot = Some(h);
    }

    pub fn get_app_config(&self) -> (r: Config)
        ensures
            r@ == self.spec_config(),
    {
        self.config.duplicate()
    }

    /// Replace the global configuration; the registry is invalidated in the
    /// same step, so the next client served is built from the replacement.
    pub fn update_app_config(&mut self, config: Config)
        ensures
            final(self).wf(),
            final(self).spec_config() == config@,
            final(self).slot() == Some(spec_client_of(config@)),
    {
        self.config = config;
        self.reload_client();
    }
}

/// Law: once the configuration is replaced, the registry serves the client of
/// the replacement; a client built from any configuration whose connection
/// fields differ is never served again.
pub proof fn lemma_reload_discards_prior(s: AppState, prior: ConfigV)
    requires
        s.wf(),
        s.slot() is Some,
    ensures
        s.slot() == Some(spec_client_of(s.spec_config())),
        spec_client_of(prior) != spec_client_of(s.spec_config()) ==> s.slot() != Some(
            spec_client_of(prior),
        ),
{
}

} // verus!
