//! A genetic-algorithm miner of short classification rules over categorical
//! network-connection features.

pub mod chromosome;
pub mod driver;
pub mod fitness;
pub mod population;
pub mod random;
