//! Core of a link shortener: a base-N key encoder and a durable,
//! uniquely-keyed store that maps each short key to the URL it stands for.

pub mod middleware;
pub mod radix;
pub mod shorten;
pub mod store;
