use vstd::prelude::*;

verus! {

/// Severity of a logging stream, from most severe (`Error`) to least (`Trace`).
///
/// On disk a level is stored as a small integer, `Error` as 1 up to
/// `Trace` as 5; that mapping is part of the stored-file format and is
/// kept stable for compatibility with existing files.
#[derive(Clone, Copy, Debug, PartialEq, Eq, Structural)]
pub enum Level {
    Error,
    Warn,
    Info,
    Debug,
    Trace,
}

/// The wire integer of a level: `Error` is 1, ..., `Trace` is 5.
pub open spec fn level_int(l: Level) -> u64 {
    match l {
        Level::Error => 1,
        Level::Warn => 2,
        Level::Info => 3,
        Level::Debug => 4,
        Level::Trace => 5,
    }
}

/// The level a wire integer stands for; integers outside 1..=5 stand for none.
pub open spec fn level_of_int(n: u64) -> Option<Level> {
    if n == 1 {
        Some(Level::Error)
    } else if n == 2 {
        Some(Level::Warn)
    } else if n == 3 {
        Some(Level::Info)
    } else if n == 4 {
        Some(Level::Debug)
    } else if n == 5 {
        Some(Level::Trace)
    } else {
        None
    }
}

/// Encode a level as its wire integer.
pub fn level_to_int(l: Level) -> (r: u64)
    ensures
        r == level_int(l),
{
    match l {
        Level::Error => 1,
        Level::Warn => 2,
        Level::Info => 3,
        Level::Debug => 4,
        Level::Trace => 5,
    }
}

/// Decode a wire integer into a level; anything outside 1..=5 is rejected.
pub fn level_from_int(n: u64) -> (r: Option<Level>)
    ensures
        r == level_of_int(n),
{
    if n == 1 {
        Some(Level::Error)
    } else if n == 2 {
        Some(Level::Warn)
    } else if n == 3 {
        Some(Level::Info)
    } else if n == 4 {
        Some(Level::Debug)
    } else if n == 5 {
        Some(Level::Trace)
    } else {
        None
    }
}

/// The wire mapping loses nothing: decoding the integer of a level gives
/// back that level.
pub proof fn lemma_level_int_inverse(l: Level)
    ensures
        level_of_int(level_int(l)) == Some(l),
{
}

} // verus!
