//! Scores domain names seen in newly issued certificates for likely
//! impersonation of a configured set of protected identities.

pub mod data;
pub mod nettfiske;
pub mod normalize;
pub mod report;
pub mod resolver;
pub mod scoring;
pub mod text;
pub mod websockets;
