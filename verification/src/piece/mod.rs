pub mod bishop;
pub mod king;
pub mod knight;
pub mod pawn;
pub mod probe;
pub mod queen;
pub mod rook;
pub mod slider;
