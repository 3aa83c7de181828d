//! LabStreamGate: the rules of a controlled TCP-over-WebSocket gateway.
#![allow(unused_imports)]

pub mod capture;
pub mod clock;
pub mod connect;
pub mod error;
pub mod headers;
pub mod hosts;
pub mod limits;
pub mod net;
pub mod paths;
pub mod pcap;
pub mod retention;
pub mod serve;
pub mod session;
pub mod table;
pub mod text;
pub mod traffic;
pub mod tunnel;
