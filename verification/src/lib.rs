//! Redfire TDMoE-to-SIP gateway: the decision logic of its services,
//! with machine-checked contracts.

mod error;
pub mod text;
pub mod snmp;
pub mod keyed;
pub mod transcoding;
pub mod logger;
pub mod timing;
pub mod alarms;
pub mod testing;
pub mod interface_testing;
pub mod test_automation;
pub mod debug;
pub mod media_relay;
pub mod b2bua;
pub mod cdr;
pub mod clustering;
pub mod sip_router;
pub mod auto_detection;
pub mod performance;

pub use error::{GatewayError, GatewayResult};
