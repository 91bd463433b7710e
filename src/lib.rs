//! The core of a peer-to-peer connection swarm: the engine that drives
//! listeners, dials, protocol upgrades and connection handlers; the address
//! logic of its TCP transport; and the DHT record it may carry.
pub mod address;
pub mod swarm;
pub mod wire;
pub mod record;
