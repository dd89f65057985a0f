//! How messages of the graphics driver are passed on to the log.

use vstd::prelude::*;

verus! {

/// The levels at which a driver message is logged.
#[derive(Copy, Clone, Debug, PartialEq, Eq, Structural)]
pub enum MessageLevel {
    Error,
    Warn,
    Info,
    Debug,
}

/// The level for a driver message, from the kinds it is flagged with: an
/// error before anything else, then a warning or a performance warning, then
/// information, then debug output. A message without a flag is not logged.
pub fn message_level(
    error: bool,
    warning: bool,
    performance_warning: bool,
    information: bool,
    debug: bool,
) -> (level: Option<MessageLevel>)
    ensures
        level == if error {
            Some(MessageLevel::Error)
        } else if warning || performance_warning {
            Some(MessageLevel::Warn)
        } else if information {
            Some(MessageLevel::Info)
        } else if debug {
            Some(MessageLevel::Debug)
        } else {
            None
        },
{
    if error {
        Some(MessageLevel::Error)
    } else if warning {
        Some(MessageLevel::Warn)
    } else if performance_warning {
        Some(MessageLevel::Warn)
    } else if information {
        Some(MessageLevel::Info)
    } else if debug {
        Some(MessageLevel::Debug)
    } else {
        None
    }
}

} // verus!
