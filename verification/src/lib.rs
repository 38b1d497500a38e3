//! A keyboard-driven directory browser, reduced to its decisions.
//!
//! The crate holds the three pieces that make the interaction predictable:
//! the per-keystroke subsequence matcher with its highlight runs, the
//! recency ordering of a directory listing, and the navigation state with
//! its back/forward history. Reading directories, drawing rows and handing
//! a file to the operating system are left to the program around it, which
//! passes plain values in and acts on the plain values that come back.
pub mod history;
pub mod input;
pub mod lister;
pub mod matcher;
pub mod navigation;
pub mod session;
