//! Wire codec for a TCP tunneling relay.
//!
//! A tunnel multiplexes many logical connections ("legs", identified by a
//! `u32` id) over one physical socket. This crate defines the tagged packet
//! model exchanged between the two endpoints ([`tcp_tunnel::tunnel_tcp_contract::TunnelTcpContract`])
//! and the byte-exact encoding and decoding of each packet, together with
//! proofs that the two directions are lossless inverses of one another.

pub mod common_deserializers;
pub mod common_serializers;
pub mod tcp_tunnel;
