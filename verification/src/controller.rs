//! The supervisor's decision core.
//!
//! The controller owns the desired state and remembers which
//! configuration the active listener and store were built from.  The
//! surrounding application runs the supervision loop: it asks
//! [`Controller::plan`] what to do, performs the stopping, persisting,
//! loading and binding, and reports back.

use vstd::prelude::*;

verus! {

use crate::config::{clone_config, config_equals, Config, DesiredState};
use crate::dict::DictDef;
use crate::encoding::Encoding;

/// What the supervisor must do for the current desired state.
#[derive(Clone, Copy, Debug, PartialEq, Eq, Structural)]
pub enum ControlAction {
    /// Stop the listener, if one runs, and wait for a change.
    Stop,
    /// Leave the running listener and store alone.
    Keep,
    /// Persist the configuration, rebuild the store, and restart the
    /// listener under the new configuration.
    Restart,
}

/// The controller state: the desired state, and the configuration the
/// active listener was built from, if one is active.
pub struct Controller {
    pub desired: DesiredState,
    pub active: Option<Config>,
}

impl Controller {
    /// A controller over an initial desired state, with nothing running.
    pub fn new(initial: DesiredState) -> (r: Controller)
        ensures
            r.desired.running == initial.running,
            r.desired.config@ == initial.config@,
            r.active is None,
    {
        Controller { desired: initial, active: None }
    }

    /// True when a listener built from the desired configuration is
    /// active.
    pub open spec fn up_to_date(self) -> bool {
        match self.active {
            Some(c) => c@ == self.desired.config@,
            None => false,
        }
    }

    /// Decide what the supervisor does next.  Reapplying a desired state
    /// that is already served is a no-op: the listener is not restarted
    /// and the store is not rebuilt.
    pub fn plan(&self) -> (a: ControlAction)
        ensures
            a is Stop <==> !self.desired.running,
            a is Keep <==> (self.desired.running && self.up_to_date()),
            a is Restart <==> (self.desired.running && !self.up_to_date()),
    {
        if !self.desired.running {
            ControlAction::Stop
        } else {
            match &self.active {
                Some(c) => {
                    if config_equals(c, &self.desired.config) {
                        ControlAction::Keep
                    } else {
                        ControlAction::Restart
                    }
                },
                None => ControlAction::Restart,
            }
        }
    }

    /// Record that a listener now runs under the desired configuration.
    /// A following [`Controller::plan`] keeps it.
    pub fn note_started(&mut self)
        ensures
            final(self).desired.running == old(self).desired.running,
            final(self).desired.config@ == old(self).desired.config@,
            final(self).up_to_date(),
    {
        let snapshot = clone_config(&self.desired.config);
        self.active = Some(snapshot);
    }

    /// Record that the listener stopped.
    pub fn note_stopped(&mut self)
        ensures
            final(self).desired.running == old(self).desired.running,
            final(self).desired.config@ == old(self).desired.config@,
            final(self).active is None,
    {
        self.active = None;
    }

    /// Ask for the server to run, or not; the configuration is untouched.
    pub fn set_running(&mut self, running: bool)
        ensures
            final(self).desired.running == running,
            final(self).desired.config@ == old(self).desired.config@,
            final(self).active == old(self).active,
    {
        self.desired.running = running;
    }

    /// Switch the remote fallback; the rest of the configuration is
    /// untouched.
    pub fn set_google_cgi(&mut self, enabled: bool)
        ensures
            final(self).desired.running == old(self).desired.running,
            final(self).desired.config.enable_google_cgi == enabled,
            final(self).desired.config.server_encoding == old(self).desired.config.server_encoding,
            final(self).desired.config.port == old(self).desired.config.port,
            final(self).desired.config.dicts.deep_view() == old(
                self,
            ).desired.config.dicts.deep_view(),
            final(self).active == old(self).active,
    {
        self.desired.config.enable_google_cgi = enabled;
    }

    /// Replace the dictionary source list; the rest of the configuration
    /// is untouched.
    pub fn set_dicts(&mut self, dicts: Vec<DictDef>)
        ensures
            final(self).desired.running == old(self).desired.running,
            final(self).desired.config.enable_google_cgi == old(
                self,
            ).desired.config.enable_google_cgi,
            final(self).desired.config.server_encoding == old(self).desired.config.server_encoding,
            final(self).desired.config.port == old(self).desired.config.port,
            final(self).desired.config.dicts.deep_view() == dicts.deep_view(),
            final(self).active == old(self).active,
    {
        self.desired.config.dicts = dicts;
    }

    /// Change the port; the rest of the configuration is untouched.
    pub fn set_port(&mut self, port: u16)
        ensures
            final(self).desired.running == old(self).desired.running,
            final(self).desired.config.enable_google_cgi == old(
                self,
            ).desired.config.enable_google_cgi,
            final(self).desired.config.server_encoding == old(self).desired.config.server_encoding,
            final(self).desired.config.port == port,
            final(self).desired.config.dicts.deep_view() == old(
                self,
            ).desired.config.dicts.deep_view(),
            final(self).active == old(self).active,
    {
        self.desired.config.port = port;
    }

    /// Change the wire encoding; the rest of the configuration is
    /// untouched.
    pub fn set_encoding(&mut self, encoding: Encoding)
        ensures
            final(self).desired.running == old(self).desired.running,
            final(self).desired.config.enable_google_cgi == old(
                self,
            ).desired.config.enable_google_cgi,
            final(self).desired.config.server_encoding == encoding,
            final(self).desired.config.port == old(self).desired.config.port,
            final(self).desired.config.dicts.deep_view() == old(
                self,
            ).desired.config.dicts.deep_view(),
            final(self).active == old(self).active,
    {
        self.desired.config.server_encoding = encoding;
    }
}

} // verus!
