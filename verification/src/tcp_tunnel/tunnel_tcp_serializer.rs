//! The codec object a stream-oriented transport layer plugs in: encode one
//! packet, produce the heartbeat request, decode one packet from a byte
//! source.

use vstd::prelude::*;

use crate::common_deserializers::{ByteSource, DecodeFailure};
use crate::tcp_tunnel::tunnel_tcp_contract::{spec_decode, TunnelTcpContract};

verus! {

/// Stateless serializer for [`TunnelTcpContract`] packets. The codec keeps
/// nothing between calls: every packet is encoded and decoded on its own.
pub struct TunnelTcpSerializer {}

impl TunnelTcpSerializer {
    pub fn new() -> (r: Self)
        ensures
            r == (TunnelTcpSerializer {  }),
    {
        Self {  }
    }

    /// Encodes one packet; see [`TunnelTcpContract::serialize`].
    pub fn serialize(&self, contract: TunnelTcpContract) -> (r: Vec<u8>)
        requires
            contract@.wf(),
        ensures
            r@ == contract@.spec_serialize(),
    {
        contract.serialize()
    }

    /// The packet the transport sends as a heartbeat request.
    pub fn get_ping(&self) -> (r: TunnelTcpContract)
        ensures
            r@ is Ping,
    {
        TunnelTcpContract::Ping
    }

    /// Decodes one packet from the source; see
    /// [`TunnelTcpContract::deserialize`].
    pub fn deserialize(&mut self, reader: &mut ByteSource) -> (r: Result<
        TunnelTcpContract,
        DecodeFailure,
    >)
        ensures
            match spec_decode(old(reader)@) {
                Ok(pn) => r is Ok && r.unwrap()@ == pn.0 && final(reader)@ == old(reader)@.skip(
                    pn.1,
                ),
                Err(f) => r == Err::<TunnelTcpContract, DecodeFailure>(f),
            },
            *final(self) == *old(self),
    {
        TunnelTcpContract::deserialize(reader)
    }
}

} // verus!
