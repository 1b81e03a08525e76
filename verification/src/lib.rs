//! A verified BGP-4 wire-format codec: parsers and emitters for BGP messages,
//! path attributes, multiprotocol NLRI and capabilities, proved byte-exact
//! against their specification-level encodings.
pub mod afi;
pub mod aspath;
pub mod attr;
pub mod bgp_attr;
pub mod cap;
pub mod community;
pub mod community_token;
pub mod context;
pub mod error;
pub mod evpn;
pub mod list;
pub mod mp;
pub mod nlri;
pub mod open;
pub mod packet;
pub mod text;
pub mod types;
pub mod wire;
