pub mod tunnel_tcp_contract;
pub mod tunnel_tcp_serializer;
