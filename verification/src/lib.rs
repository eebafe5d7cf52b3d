//! The logic of a desktop FTP client.
//!
//! - [`ftp`] reads and sorts directory listings, joins and splits remote paths, and decides how a
//!   session is opened and how it lists a directory.
//! - [`local`] does the same for local paths and local directories.
//! - [`queue`] decides which transfers run, and [`transfer`] how one of them goes on.
//! - [`worker`] holds what the control worker and the local worker do with a command.
//! - [`app`] is the state of the window: how events change it, and what the user's actions ask for.
//! - [`store`] reads the server's address from the environment.
//! - [`calendar`], [`format`] and [`text`] are what the others are made of.
//!
//! Sockets, files, threads and the window itself are not in here. Whatever needs them is written
//! as a machine that takes one report at a time and says what is to be done next.

pub mod app;
pub mod calendar;
pub mod format;
pub mod ftp;
pub mod local;
pub mod queue;
pub mod store;
pub mod text;
pub mod transfer;
pub mod worker;
