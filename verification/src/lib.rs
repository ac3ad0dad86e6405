//! The decisions of a wallpaper daemon for Wayland.
//!
//! The daemon keeps a wallpaper on every output, runs the transitions and animated images that
//! clients ask for, and answers those clients. This library holds what it knows and decides what it
//! does. Everything that reaches outside, such as the compositor, the clock, the files and the
//! clients, is done by the program around it, which carries out what is decided here and reports
//! what came of it.
//!
//! - [`daemon`] has the state of the daemon and what it does about the events of the compositor;
//!   [`daemon::draw`] the drawing of frames, [`daemon::serve`] the serving of clients, and
//!   [`daemon::laws`] what holds of all of it.
//! - [`wallpaper`] and [`animator`] are what that state is made of.
//! - [`event_loop`] is the main loop, [`poll`] and [`timing`] say how long it waits, and [`exit`]
//!   when it stops.
//! - [`objects`] routes the events of the compositor, [`socket`] takes the socket over that clients
//!   connect to, and [`logger`] writes the log.

pub mod animator;
pub mod daemon;
pub mod event_loop;
pub mod exit;
pub mod logger;
pub mod objects;
pub mod poll;
pub mod seqs;
pub mod socket;
pub mod timing;
pub mod wallpaper;
