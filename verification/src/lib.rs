pub mod bytes;
pub mod cache;
pub mod ethernet;
pub mod event;
pub mod ip;
pub mod ordered;
pub mod pcap;
pub mod tcpip;
pub mod text;
pub mod transport;
