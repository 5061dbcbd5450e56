//! Verified core of a keyboard-sequence remapper for the X window system.
//!
//! The crate holds the logic that decides everything the daemon does:
//! parsing the configuration grammar, resolving key names, building the
//! binding map, recognising runs of key events, scheduling synthesized
//! input, and managing the pool of spare keycodes used to type arbitrary
//! characters.  Talking to the display server itself (unsafe foreign
//! calls, polling, signals) is left to an unverified front end that feeds
//! plain values into these functions and carries their decisions out.

pub mod conf;
pub mod device;
pub mod dispatch;
pub mod err;
pub mod layout;
pub mod matcher;
pub mod names;
pub mod parse;
pub mod render;
pub mod uni;
pub mod smovec;
pub mod symcode;
pub mod table;

pub use err::{XlibErr, x_err, x_err_o, x_expect};
pub use smovec::SmoVec;
