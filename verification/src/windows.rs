use vstd::prelude::*;

verus! {

/// The console-mode flag that makes a Windows console interpret ANSI
/// escape codes.
pub const ENABLE_VIRTUAL_TERMINAL_PROCESSING: u32 = 0x0004;

/// The console mode to set so that escape codes are interpreted, given
/// the mode the console has: `None` where the flag is already on, so
/// that nothing needs setting, else the mode with the flag added.
pub fn console_mode_update(mode: u32) -> (r: Option<u32>)
    ensures
        r == (if mode & ENABLE_VIRTUAL_TERMINAL_PROCESSING == 0 {
            Some(mode | ENABLE_VIRTUAL_TERMINAL_PROCESSING)
        } else {
            None
        }),
{
    if mode & ENABLE_VIRTUAL_TERMINAL_PROCESSING == 0 {
        Some(mode | ENABLE_VIRTUAL_TERMINAL_PROCESSING)
    } else {
        None
    }
}

} // verus!
