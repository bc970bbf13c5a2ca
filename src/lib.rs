//! Lenient IPv4 address and `address:port` parsing in the style of the
//! historical `inet_aton` convention, with every step proved correct.
pub mod addr;
pub mod laws;
pub mod netparse;
pub mod numeral;
pub mod text;
pub mod tokens;

pub use addr::{Ipv4Addr, SocketAddrV4};
pub use netparse::{normalize, parse_host, parse_ip};
