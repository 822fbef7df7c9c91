//! A real-time chat relay: named rooms, subscribers with private outbound
//! queues, broadcast with history replay, and the per-connection protocol
//! that drives them.
//!
//! - [`manager`] holds the registry of rooms and its five operations:
//!   ensure a room, join, leave, broadcast, list the names.
//! - [`channel`] is one room: its subscribers and its history.
//! - [`subscriber`] is a handle onto one connection's outbound queue.
//! - [`message`] and [`clock`] give the two frames in which a message
//!   reaches a subscriber.
//! - [`protocol`] reads the commands of a client, and [`connection`] carries
//!   them out.
//! - [`laws`] states what holds of all of it.
//!
//! Every operation on the registry takes it by `&mut`, so each is one
//! critical section: a join replays the history and subscribes the handle
//! before any later broadcast can reach the queue. Connections that share a
//! registry put it behind a lock.

pub mod channel;
pub mod clock;
pub mod connection;
pub mod laws;
pub mod manager;
pub mod message;
pub mod protocol;
pub mod subscriber;
pub mod text;
