//! PureTD spoken as a Backgammon Engine Protocol engine: the part of it that
//! decides and computes, with its behaviour stated as contracts.
//!
//! * [`board`] turns a GnuBG position (mover's view) into PureTD's board.
//! * [`notation`] writes plays in standard backgammon notation.
//! * [`ranking`] orders the candidate plays, best first, and picks the played one.
//! * [`clock`] renders the evaluation timestamp.
//! * [`protocol`] decides what a request is answered.

pub mod board;
pub mod notation;
pub mod clock;
pub mod ranking;
pub mod protocol;
