//! The control bus of an instance, from the host's side.
use vstd::prelude::*;

use crate::types::error::{fails, ArcaError, ErrorView, Res};

verus! {

/// The state of a bus: whether the handshake has handed it a connection, and
/// the number of the next message.
pub struct ConnBus {
    connected: bool,
    seq: u64,
}

impl ConnBus {
    pub closed spec fn connected(&self) -> bool {
        self.connected
    }

    /// Number of the next message.
    pub closed spec fn next(&self) -> u64 {
        self.seq
    }

    /// A bus without a connection; messages are numbered from 1.
    pub fn empty() -> (r: ConnBus)
        ensures
            !r.connected(),
            r.next() == 1,
    {
        ConnBus { connected: false, seq: 1 }
    }

    /// The handshake is done: the bus has a connection.
    pub fn install(&mut self)
        ensures
            final(self).connected(),
            final(self).next() == old(self).next(),
    {
        self.connected = true;
    }

    /// Takes the connection away; tells whether there was one.
    pub fn take(&mut self) -> (had: bool)
        ensures
            had == old(self).connected(),
            !final(self).connected(),
            final(self).next() == old(self).next(),
    {
        let had: bool = self.connected;
        self.connected = false;
        had
    }

    /// The number under which a message is sent. It is used up also where
    /// there is no connection to send on.
    pub fn begin_send(&mut self) -> (r: Res<u64>)
        ensures
            final(self).connected() == old(self).connected(),
            final(self).next() == (if old(self).next() == u64::MAX {
                0
            } else {
                old(self).next() + 1
            }),
            r is Ok <==> old(self).connected(),
            r matches Ok(n) ==> n == old(self).next(),
            r is Err ==> fails(
                r,
                ErrorView::Internal("bus nativo: conexión aún no establecida (handshake)"@),
            ),
    {
        let seq: u64 = self.seq;
        self.seq = if seq == u64::MAX {
            0
        } else {
            seq + 1
        };
        if self.connected {
            Ok(seq)
        } else {
            Err(ArcaError::Internal("bus nativo: conexión aún no establecida (handshake)"))
        }
    }

    /// Before receiving: the deadline to set, if none (`current` 0) is set.
    pub fn begin_receive(&self, current: u32, timeout_ms: u128) -> (r: Res<Option<u32>>)
        ensures
            r is Ok <==> self.connected(),
            r matches Ok(d) ==> d == (if current != 0 {
                None::<u32>
            } else if timeout_ms > u32::MAX {
                Some(u32::MAX)
            } else {
                Some(timeout_ms as u32)
            }),
            r is Err ==> fails(
                r,
                ErrorView::Internal("bus nativo: conexión aún no establecida (handshake)"@),
            ),
    {
        if !self.connected {
            return Err(ArcaError::Internal("bus nativo: conexión aún no establecida (handshake)"));
        }
        if current != 0 {
            Ok(None)
        } else if timeout_ms > u32::MAX as u128 {
            Ok(Some(u32::MAX))
        } else {
            Ok(Some(timeout_ms as u32))
        }
    }
}

} // verus!
