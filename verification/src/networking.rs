//! Networking: connecting to a network starts an inbound and an outbound worker,
//! after stopping those of an earlier connection; disconnecting stops them.
use vstd::prelude::*;

verus! {

/// What the caller does to the workers.
#[derive(Clone, Copy, PartialEq, Eq, Structural, Debug)]
pub enum WorkerAction {
    /// Signal the running workers to stop and wait for them.
    StopWorkers,
    /// Start an inbound and an outbound worker on the new endpoint.
    StartWorkers,
}

/// Whether workers are running.
pub struct Networking {
    connected: bool,
}

impl Networking {
    /// Whether workers are running.
    pub closed spec fn is_connected(&self) -> bool {
        self.connected
    }

    /// No workers.
    pub fn new() -> (res: Networking)
        ensures
            !res.is_connected(),
    {
        Networking { connected: false }
    }

    /// Connects to a network: the running workers stop first, then new ones start.
    pub fn connect(&mut self) -> (res: Vec<WorkerAction>)
        ensures
            final(self).is_connected(),
            old(self).is_connected() ==> res@ == seq![WorkerAction::StopWorkers, WorkerAction::StartWorkers],
            !old(self).is_connected() ==> res@ == seq![WorkerAction::StartWorkers],
    {
        let mut res: Vec<WorkerAction> = Vec::new();
        if self.disconnect() {
            res.push(WorkerAction::StopWorkers);
        }
        res.push(WorkerAction::StartWorkers);
        self.connected = true;
        assert(old(self).is_connected() ==> res@ =~= seq![WorkerAction::StopWorkers, WorkerAction::StartWorkers]);
        assert(!old(self).is_connected() ==> res@ =~= seq![WorkerAction::StartWorkers]);
        res
    }

    /// Disconnects: returns whether there were workers to stop.
    pub fn disconnect(&mut self) -> (res: bool)
        ensures
            !final(self).is_connected(),
            res == old(self).is_connected(),
    {
        let was = self.connected;
        self.connected = false;
        was
    }

    /// Shutting the plugin down disconnects it.
    pub fn shutdown(&mut self) -> (res: bool)
        ensures
            !final(self).is_connected(),
            res == old(self).is_connected(),
    {
        self.disconnect()
    }
}

} // verus!
