//! Console progress bars: one bar redrawn in place, or many bars gathered
//! into a single frame by a coordinator.
mod clock;
pub mod iter;
pub mod multi;
pub mod pb;
pub mod text;
pub mod tty;

pub use iter::PbIter;
pub use multi::{MultiState, Pipe, WriteMsg};
pub use pb::{Buffer, ProgressBar, ProgressSink, Terminal, TextOut, Units};
pub use tty::{move_cursor_up, Height, Width};
