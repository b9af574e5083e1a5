//! A discrete-event network simulator core.
//!
//! The crate loads a static network topology and a script of timestamped
//! instructions from text lines, buckets the instructions by timestamp, and
//! replays them against a virtual clock while tracking the packets that are
//! in flight in a height-balanced search tree.
//!
//! Every function carries a contract stated over mathematical models
//! (byte sequences for text, `Seq` for ordered collections), and every
//! contract is proved.

pub mod msg;
pub mod ntwk;
pub mod sim;
pub mod text;
pub mod timeline;
