//! Audio decoding for CAF containers (G.711 µ-law / A-law, linear PCM and
//! IMA 4:1 ADPCM payloads) and the decision logic of the `NSSet` class
//! cluster's construction and membership helpers.

pub mod g711;
pub mod pcm;
pub mod lpcm;
pub mod ima4;
pub mod caf_decoder;
pub mod caf_layout;
pub mod caf_reader;
pub mod ns_set;
