//! Styled text for ANSI terminals: colours, text attributes, and the
//! operating-system control sequences for titles, icons, working
//! directories and hyperlinks, with the escape codes that they produce
//! proved against their specifications.
pub mod ansi;
pub mod difference;
pub mod display;
pub mod style;
pub mod terminal;
pub mod windows;
pub mod write;

pub use difference::Difference;
pub use display::{
    AnsiByteString, AnsiByteStrings, AnsiGenericString, AnsiGenericStrings, AnsiString,
    AnsiStrings,
};
pub use style::{Color, OSControl, Style};
pub use write::AnyWrite;
