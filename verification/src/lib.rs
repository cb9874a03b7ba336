//! A BitTorrent client, as far as it computes: torrent files, messages between peers, the state of
//! a download, whom to upload to, and what trackers are asked and answer.
//!
//! Nothing here reads, writes or waits. Each event is a call: it takes the state and what has
//! happened, changes the state, and returns what is to be done. The program around the library
//! does it and comes back with the outcome.
//!
//! * [`metainfo`] reads torrent files, on top of [`bencode`].
//! * [`peer_message`] and [`message_reader`] are the messages between peers and the stream in which
//!   they come; [`handshake`] is the message before them.
//! * [`torrent`] is the download of one torrent, [`peer`] what happens with one peer, and
//!   [`swarm`] what holds of all of them together. [`jobs`] is the queue between them.
//! * [`peer_info`] is what is known of a peer and how much it is asked for, with [`rolling`]
//!   averages; [`peer_history`] says what holds of it over time.
//! * [`files`] and [`pieces`] say where the bytes of a torrent are.
//! * [`choke`] decides who is unchoked.
//! * [`tracker`], [`tracker_http`] and [`tracker_udp`] are the conversations with trackers.
//! * [`manager`] holds the torrents.
//!
//! What holds of all of this stands beside the definitions, and in the modules whose names end in
//! `laws`: there it is said field by field, byte by byte and peer by peer.
pub mod address;
pub mod bencode;
pub mod bytes;
pub mod choke;
pub mod choke_laws;
pub mod client_message;
pub mod constants;
pub mod file_laws;
pub mod files;
pub mod handshake;
pub mod job_laws;
pub mod jobs;
pub mod manager;
pub mod message_laws;
pub mod message_reader;
pub mod metainfo;
pub mod metainfo_laws;
pub mod peer;
pub mod peer_history;
pub mod peer_info;
pub mod peer_laws;
pub mod peer_message;
pub mod pieces;
pub mod rate_laws;
pub mod rolling;
pub mod swarm;
pub mod text_laws;
pub mod torrent;
pub mod torrent_laws;
pub mod tracker;
pub mod tracker_http;
pub mod tracker_laws;
pub mod tracker_udp;
pub mod wire;
