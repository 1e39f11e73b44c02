//! The terminal control and color sequences the renderer emits.
//!
//! The concrete bytes come from termion, so the frames match what any other
//! termion user writes; each wrapper's contract states the exact sequence,
//! as termion's source defines it.

use vstd::prelude::*;

verus! {

/// Cursor to the top-left corner: `ESC [ 1 ; 1 H`.
pub open spec fn goto_home_seq() -> Seq<u8> {
    seq![0x1b, 0x5b, 0x31, 0x3b, 0x31, 0x48]
}

/// Clear everything after the cursor: `ESC [ J`.
pub open spec fn clear_after_seq() -> Seq<u8> {
    seq![0x1b, 0x5b, 0x4a]
}

/// Green foreground, the "confirmed" style: `ESC [ 3 8 ; 5 ; 2 m`.
pub open spec fn green_seq() -> Seq<u8> {
    seq![0x1b, 0x5b, 0x33, 0x38, 0x3b, 0x35, 0x3b, 0x32, 0x6d]
}

/// Red foreground, the "pending work" style: `ESC [ 3 8 ; 5 ; 1 m`.
pub open spec fn red_seq() -> Seq<u8> {
    seq![0x1b, 0x5b, 0x33, 0x38, 0x3b, 0x35, 0x3b, 0x31, 0x6d]
}

/// Foreground back to the default: `ESC [ 3 9 m`.
pub open spec fn reset_seq() -> Seq<u8> {
    seq![0x1b, 0x5b, 0x33, 0x39, 0x6d]
}

/// Bold on: `ESC [ 1 m`.
pub open spec fn bold_seq() -> Seq<u8> {
    seq![0x1b, 0x5b, 0x31, 0x6d]
}

/// Bold off: `ESC [ 2 1 m`.
pub open spec fn nobold_seq() -> Seq<u8> {
    seq![0x1b, 0x5b, 0x32, 0x31, 0x6d]
}

/// The dimmed gray used for expanded values: a true-color foreground,
/// `ESC [ 3 8 ; 2 ; 1 2 0 ; 1 2 0 ; 1 2 0 m`.
pub open spec fn gray_seq() -> Seq<u8> {
    seq![
        0x1b, 0x5b, 0x33, 0x38, 0x3b, 0x32, 0x3b, 0x31, 0x32, 0x30, 0x3b, 0x31,
        0x32, 0x30, 0x3b, 0x31, 0x32, 0x30, 0x6d,
    ]
}

/// Relies on `termion::cursor::Goto`'s display form: `Goto(1, 1)` writes
/// `"\x1B[1;1H"`.
#[verifier::external_body]
pub fn goto_home() -> (r: Vec<u8>)
    ensures
        r@ == goto_home_seq(),
{
    format!("{}", termion::cursor::Goto(1, 1)).into_bytes()
}

/// Relies on `termion::clear::AfterCursor`'s display form: `"\x1B[J"`.
#[verifier::external_body]
pub fn clear_after() -> (r: Vec<u8>)
    ensures
        r@ == clear_after_seq(),
{
    format!("{}", termion::clear::AfterCursor).into_bytes()
}

/// Relies on `termion::color::Green::fg_str`: `"\x1B[38;5;2m"`.
#[verifier::external_body]
pub fn green_fg() -> (r: Vec<u8>)
    ensures
        r@ == green_seq(),
{
    termion::color::Green.fg_str().as_bytes().to_vec()
}

/// Relies on `termion::color::Red::fg_str`: `"\x1B[38;5;1m"`.
#[verifier::external_body]
pub fn red_fg() -> (r: Vec<u8>)
    ensures
        r@ == red_seq(),
{
    termion::color::Red.fg_str().as_bytes().to_vec()
}

/// Relies on `termion::color::Reset::fg_str`: `"\x1B[39m"`.
#[verifier::external_body]
pub fn reset_fg() -> (r: Vec<u8>)
    ensures
        r@ == reset_seq(),
{
    termion::color::Reset.fg_str().as_bytes().to_vec()
}

/// Relies on `termion::style::Bold`'s display form: `"\x1B[1m"`.
#[verifier::external_body]
pub fn bold_on() -> (r: Vec<u8>)
    ensures
        r@ == bold_seq(),
{
    format!("{}", termion::style::Bold).into_bytes()
}

/// Relies on `termion::style::NoBold`'s display form: `"\x1B[21m"`.
#[verifier::external_body]
pub fn bold_off() -> (r: Vec<u8>)
    ensures
        r@ == nobold_seq(),
{
    format!("{}", termion::style::NoBold).into_bytes()
}

/// Relies on `termion::color::Rgb::fg_string`: `Rgb(120, 120, 120)` gives
/// `"\x1B[38;2;120;120;120m"`.
#[verifier::external_body]
pub fn gray_fg() -> (r: Vec<u8>)
    ensures
        r@ == gray_seq(),
{
    termion::color::Rgb(120, 120, 120).fg_string().into_bytes()
}

} // verus!
