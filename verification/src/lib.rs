//! Core logic of a personal media-library server.
//!
//! The server indexes a directory tree of audio files into a catalog of songs
//! and albums, streams transcoded audio, and serves album artwork. Work on
//! untrusted media is done in helper processes, which speak small framed
//! protocols with the server.
//!
//! - `value`, `wire`, `rpc`: the values of the helper protocol, their wire
//!   form, and the reading and the serving side of a channel.
//! - `tagparser`, `taghelper`: the tag helper as the server sees it, and the
//!   helper's own side.
//! - `media`, `indexer`: songs, albums and covers, the catalog, and the
//!   indexer that builds the catalog directory by directory.
//! - `transcode`: the quality levels and the command line of the transcoding
//!   helper.
//! - `frames`, `thumbnailer`, `imaging`: the records, the sizes and the
//!   compression of the batch image tool.
//! - `web`, `util`, `mime`: what the web layer decides, paths, and media
//!   types.
//! - `text`, `table`: numbers in text, and the ordered map under the catalog.
//!
//! Everything here works on plain values. Processes, pipes, files, sockets
//! and threads belong to the program that links this library: it does what a
//! function asks for and hands back what came of it.

pub mod text;
mod lists;
pub mod table;
pub mod value;
pub mod wire;
pub mod rpc;
pub mod mime;
pub mod util;
pub mod imaging;
pub mod media;
pub mod indexer;
pub mod tagparser;
pub mod taghelper;
pub mod transcode;
pub mod frames;
pub mod thumbnailer;
pub mod web;
