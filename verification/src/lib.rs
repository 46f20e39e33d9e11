//! A BitTorrent client library: the bencode codec, the metainfo and tracker
//! models, the local store of verified pieces, and the peer session, each
//! with its contract. The library does no input or output: it takes bytes and
//! events, and gives back values and the actions to perform.

pub mod bencode;
pub mod bitfield;
pub mod connection_handler;
pub mod digest;
pub mod file_handler;
pub mod text;
pub mod torrent_file;
pub mod tracker;
pub mod tracker_data;
