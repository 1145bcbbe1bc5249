//! How a transport is created.

use vstd::prelude::*;

use crate::config::{
    inbound_journal_settings, validate_dtn_config, CapacityVar, DtnConfig, JournalSettings,
};
use crate::error::DtnError;
#[allow(unused_imports)]
use crate::config::{default_journal_base, instance_name};

verus! {

/// Creates Kitsune2 transports that are backed by a local `dtn7-rs` daemon.
#[derive(Debug)]
pub struct DtnTransportFactory {
    /// Transport configuration.
    pub cfg: DtnConfig,
}

/// What the creation of a transport does next.
#[derive(Clone, Copy, Debug, PartialEq, Eq, Structural)]
pub enum CreationStep {
    /// Make the journal ready. Nothing is registered before it is.
    OpenJournal,
    /// Work out the own URL.
    BuildUrl,
    /// Set up the HTTP client.
    BuildClient,
    /// Register the local endpoint with the daemon.
    Register,
    /// Start the receiver and hand out the transport.
    Ready,
    /// Report the error. There is no transport.
    Failed,
}

/// The step that follows one that went well or not.
pub open spec fn step_after(step: CreationStep, done: bool) -> CreationStep {
    match step {
        CreationStep::Ready => CreationStep::Ready,
        CreationStep::Failed => CreationStep::Failed,
        _ => if !done {
            CreationStep::Failed
        } else {
            match step {
                CreationStep::OpenJournal => CreationStep::BuildUrl,
                CreationStep::BuildUrl => CreationStep::BuildClient,
                CreationStep::BuildClient => CreationStep::Register,
                _ => CreationStep::Ready,
            }
        },
    }
}

impl CreationStep {
    /// The step that follows this one, by whether it went well.
    pub fn next(self, done: bool) -> (r: CreationStep)
        ensures
            r == step_after(self, done),
    {
        match self {
            CreationStep::Ready => CreationStep::Ready,
            CreationStep::Failed => CreationStep::Failed,
            step => if !done {
                CreationStep::Failed
            } else {
                match step {
                    CreationStep::OpenJournal => CreationStep::BuildUrl,
                    CreationStep::BuildUrl => CreationStep::BuildClient,
                    CreationStep::BuildClient => CreationStep::Register,
                    _ => CreationStep::Ready,
                }
            },
        }
    }
}

/// Whether the settings are those of a configuration in an environment.
pub open spec fn settings_of(
    settings: JournalSettings,
    cfg: DtnConfig,
    root_var: Option<Vec<u8>>,
    capacity_var: CapacityVar,
) -> bool {
    &&& settings.base@ == match root_var {
        Some(base) => base@,
        None => default_journal_base(),
    }
    &&& settings.instance@ == instance_name(cfg.node_name@, cfg.web_port)
    &&& settings.service@ == cfg.service@
    &&& capacity_var.capacity() == Ok::<u64, DtnError>(settings.max_pending_bytes)
}

impl DtnTransportFactory {
    /// The first thing wrong with the configuration and the environment.
    pub open spec fn verdict(self, capacity_var: CapacityVar) -> Result<(), DtnError> {
        match self.cfg.verdict() {
            Err(e) => Err(e),
            Ok(()) => match capacity_var.capacity() {
                Err(e) => Err(e),
                Ok(_) => Ok(()),
            },
        }
    }

    /// Refuses what no transport can be created from.
    pub fn validate_config(&self, root_var: Option<Vec<u8>>, capacity_var: CapacityVar) -> (r:
        Result<(), DtnError>)
        ensures
            r == self.verdict(capacity_var),
    {
        match self.begin(root_var, capacity_var) {
            Ok(_) => Ok(()),
            Err(e) => Err(e),
        }
    }

    /// Begins to create a transport: what its journal is to be opened with. The
    /// first step is then to open it.
    pub fn begin(&self, root_var: Option<Vec<u8>>, capacity_var: CapacityVar) -> (r: Result<
        JournalSettings,
        DtnError,
    >)
        ensures
            match r {
                Ok(settings) => self.verdict(capacity_var) is Ok && settings_of(
                    settings,
                    self.cfg,
                    root_var,
                    capacity_var,
                ),
                Err(e) => self.verdict(capacity_var) == Err::<(), DtnError>(e),
            },
    {
        validate_dtn_config(&self.cfg)?;
        inbound_journal_settings(&self.cfg, root_var, capacity_var)
    }
}

/// Where the creation stands after steps that went well or not.
pub open spec fn creation_after(outcomes: Seq<bool>) -> CreationStep
    decreases outcomes.len(),
{
    if outcomes.len() == 0 {
        CreationStep::OpenJournal
    } else {
        step_after(creation_after(outcomes.drop_last()), outcomes.last())
    }
}

/// There is a transport only where the journal was opened, the URL and the client
/// were made and the endpoint was registered, each in its turn and each with
/// success; one failure, that of the registration among them, and there is none.
pub proof fn law_transport_needs_every_step(outcomes: Seq<bool>)
    ensures
        creation_after(outcomes) == if exists|i: int| 0 <= i < outcomes.len() && i < 4 && !#[trigger] outcomes[i] {
            CreationStep::Failed
        } else if outcomes.len() == 0 {
            CreationStep::OpenJournal
        } else if outcomes.len() == 1 {
            CreationStep::BuildUrl
        } else if outcomes.len() == 2 {
            CreationStep::BuildClient
        } else if outcomes.len() == 3 {
            CreationStep::Register
        } else {
            CreationStep::Ready
        },
    decreases outcomes.len(),
{
    if outcomes.len() > 0 {
        let before = outcomes.drop_last();
        law_transport_needs_every_step(before);
        assert forall|i: int| 0 <= i < before.len() implies before[i] == outcomes[i] by {}
        if exists|i: int| 0 <= i < before.len() && i < 4 && !#[trigger] before[i] {
            let i = choose|i: int| 0 <= i < before.len() && i < 4 && !#[trigger] before[i];
            assert(!outcomes[i]);
        }
        if exists|i: int| 0 <= i < outcomes.len() && i < 4 && !#[trigger] outcomes[i] {
            let i = choose|i: int| 0 <= i < outcomes.len() && i < 4 && !#[trigger] outcomes[i];
            if i < before.len() {
                assert(!before[i]);
            }
        } else {
            assert(outcomes.len() <= 4 ==> outcomes[outcomes.len() - 1]);
        }
    }
}

} // verus!
