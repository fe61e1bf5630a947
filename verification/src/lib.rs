//! Adaptive oracle cryptanalysis: byte-at-a-time block-cipher suffix
//! recovery and a Bleichenbacher-style RSA interval-narrowing attack,
//! together with the codec and padding helpers the attacks rest on.

pub mod bigint;
pub mod bitflip;
pub mod bleichenbacher;
pub mod cipher;
pub mod codec;
pub mod codec_tables;
pub mod errors;
pub mod forge;
pub mod oracle;
pub mod padding;
pub mod probe;
pub mod profile;
pub mod recover;
pub mod rng;
