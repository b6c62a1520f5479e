pub mod chess;
pub mod engine;
pub mod perft;
pub mod search;
pub mod uci;
pub mod utils;

use vstd::prelude::*;

verus! {
}
