//! A verified core for tunnelling game traffic: the wire protocol and its
//! encryption, the client's and the relay's connection tables, packet capture
//! rules, connection profiles and relay deployment.

pub mod addr;
pub mod bridge;
pub mod bytes;
pub mod cipher;
pub mod codec;
pub mod commands;
pub mod crypto;
pub mod deploy;
pub mod framing;
pub mod hex;
pub mod keys;
pub mod probe;
pub mod profiles;
pub mod protocol;
pub mod relay;
pub mod routing;
pub mod status;
pub mod table;
pub mod text;
pub mod tun;
pub mod tunnel;
pub mod wire;
