//! A DNS-layer content filter: decides whether a queried domain name falls
//! under a blocklist (exact, subdomain, or superdomain match) and synthesizes
//! the corresponding DNS answer — a 0.0.0.0 sinkhole record for blocked names,
//! a forwarded record set for allowed ones, and a name-error answer when the
//! upstream resolver fails.

pub mod answer;
pub mod blockset;
pub mod handler;
pub mod normalize;
