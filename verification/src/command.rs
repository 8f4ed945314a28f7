//! The wire protocol between clients, the coordinator and the workers.

use crate::gid::GID;
use crate::name::Name;
use crate::row::Row;
use crate::timestamp::SysTime;
use vstd::prelude::*;

verus! {

/// What a client asks the coordinator.
pub enum ClientCommand {
    /// Create an input and its arranged trace under one name.
    CreateInputAndTrace { name: Name },
    /// Store a new value for a key (`Some`) or delete it (`None`).
    Upsert { name: Name, key: Row, value: Option<Row> },
    /// Read the value stored under a key at a consistent time.
    Query { name: Name, key: Row },
    /// Ask for a snapshot of the engine's internal progress.
    CollectInternal,
    /// Tear the engine down.
    Shutdown,
}

/// Coordination commands inside a worker command stream.
pub enum ControlCommand {
    /// Advance the worker's input frontier to the given time; it must be
    /// exactly one step ahead of the worker's frontier.
    AdvanceTimestamp(SysTime),
    /// Report the worker's internal progress.
    CollectInternal,
    /// Stop the worker's loop.
    Shutdown,
}

/// What the coordinator sends a worker.
pub enum ServerCommand {
    /// Create an input session and its arranged trace under one name.
    CreateInputAndTrace { name: Name },
    /// Ingest one upsert at the given time, which must equal the worker's
    /// frontier.
    Upsert { name: Name, key: Row, value: Option<Row>, time: SysTime },
    /// Answer a query at the given time, which must be exactly one step
    /// behind the worker's frontier.
    Query { gid: GID, name: Name, key: Row, time: SysTime },
    /// A coordination command.
    Control(ControlCommand),
}

impl From<ControlCommand> for ServerCommand {
    fn from(value: ControlCommand) -> (r: ServerCommand) {
        ServerCommand::Control(value)
    }
}

impl vstd::std_specs::convert::FromSpecImpl<ControlCommand> for ServerCommand {
    open spec fn obeys_from_spec() -> bool {
        true
    }

    open spec fn from_spec(value: ControlCommand) -> ServerCommand {
        ServerCommand::Control(value)
    }
}

} // verus!
