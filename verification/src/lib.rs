//! Locating a network device by its hardware address across the sites of a
//! UniFi controller: the address type, the controller session rules and the
//! search engine that decides what to ask the controller next.

pub mod mac_address;
pub mod unifi;
