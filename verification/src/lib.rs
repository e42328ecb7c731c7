//! A dynamic-DNS reconciler library: it models the caller's public IP
//! addresses, a DNS provider's zones and records, and the decision logic
//! that keeps A/AAAA record contents equal to the discovered addresses.

pub mod text;
pub mod addr;
pub mod api;
pub mod status;
pub mod discovery;
pub mod logging;
pub mod reconcile;
