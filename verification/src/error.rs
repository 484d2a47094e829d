//! What can go wrong while talking to the elders.

use sn_messaging::CmdError;
use vstd::prelude::*;

verus! {

/// Why a call on the connection manager did not succeed.
#[derive(Debug)]
pub enum Error {
    /// A value could not be encoded for the wire, or bytes from the wire could
    /// not be decoded.
    Serialisation(Box<bincode::ErrorKind>),
    /// The origin of a message could not be made.
    DataTypes(sn_data_types::Error),
    /// The transport failed.
    QuicP2p(qp2p::Error),
    /// The network refused a command.
    Cmd(CmdError),
    /// A query was sent to an elder, or its answer awaited, in vain.
    ReceivingQuery,
    /// No elder gave a response to a query.
    NoResponse,
    /// A node answered the bootstrap handshake with something else than the
    /// elders to join.
    UnexpectedMessageOnJoin,
    /// Too few elders could be connected to.
    InsufficientElderConnections,
}

} // verus!
