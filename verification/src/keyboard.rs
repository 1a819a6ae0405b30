//! The keystroke-source capability: the `Keyboard` interface its backends
//! implement, the fixed code tables that turn physical key identities into
//! base characters, the consumer-side decision for one non-blocking poll,
//! and the deliberate odd/even debounce gate of the device backend.
use vstd::prelude::*;

use crate::layout::Layout;

verus! {

/// Failures a keystroke source or the layout switcher can surface.
#[derive(Debug, Clone, Copy, PartialEq, Eq, Structural)]
pub enum KbError {
    /// The underlying source became permanently unusable: all devices
    /// closed, the subprocess exited, or its stream was malformed.
    IOError,
    /// The external layout-switch command failed or exited non-zero.
    SwitchFailed,
}

/// A keystroke source: yields decoded characters without blocking (`Ok(None)`
/// when nothing is pending) and can apply a layout switch.  Backends live
/// outside the verified core, so the methods carry no contracts.
pub trait Keyboard {
    fn next_key(&mut self) -> Result<Option<char>, KbError>;

    fn switch(&mut self, layout: Layout) -> Result<(), KbError>;
}

/// What one non-blocking poll of the scanner channel observed.
#[derive(Debug, Clone, Copy, PartialEq, Eq, Structural)]
pub enum PollEvent {
    /// Nothing pending.
    Empty,
    /// A key code sent by the scanner.
    Code(i64),
    /// The scanner reported a terminal failure.
    Failed,
    /// The scanner is gone and the channel is closed.
    Disconnected,
}

/// The base character for an `xinput test-xi2` key code, from the fixed
/// code table; `None` for unmapped keys.
pub open spec fn xinput_char(code: i64) -> Option<char> {
    match code {
        38i64 => Some('a'),
        56i64 => Some('b'),
        54i64 => Some('c'),
        40i64 => Some('d'),
        26i64 => Some('e'),
        41i64 => Some('f'),
        42i64 => Some('g'),
        43i64 => Some('h'),
        31i64 => Some('i'),
        44i64 => Some('j'),
        45i64 => Some('k'),
        46i64 => Some('l'),
        58i64 => Some('m'),
        57i64 => Some('n'),
        32i64 => Some('o'),
        33i64 => Some('p'),
        24i64 => Some('q'),
        27i64 => Some('r'),
        39i64 => Some('s'),
        28i64 => Some('t'),
        30i64 => Some('u'),
        55i64 => Some('v'),
        25i64 => Some('w'),
        53i64 => Some('x'),
        29i64 => Some('y'),
        52i64 => Some('z'),
        10i64 => Some('1'),
        11i64 => Some('2'),
        12i64 => Some('3'),
        13i64 => Some('4'),
        14i64 => Some('5'),
        15i64 => Some('6'),
        16i64 => Some('7'),
        17i64 => Some('8'),
        18i64 => Some('9'),
        19i64 => Some('0'),
        20i64 => Some('-'),
        21i64 => Some('='),
        34i64 => Some('['),
        35i64 => Some(']'),
        51i64 => Some('\\'),
        49i64 => Some('`'),
        59i64 => Some(','),
        60i64 => Some('.'),
        61i64 => Some('/'),
        65i64 => Some(' '),
        _ => None,
    }
}

/// Executable form of `xinput_char`.
pub fn key_code_to_char(key_code: i64) -> (r: Option<char>)
    ensures
        r == xinput_char(key_code),
{
    match key_code {
        38 => Some('a'),
        56 => Some('b'),
        54 => Some('c'),
        40 => Some('d'),
        26 => Some('e'),
        41 => Some('f'),
        42 => Some('g'),
        43 => Some('h'),
        31 => Some('i'),
        44 => Some('j'),
        45 => Some('k'),
        46 => Some('l'),
        58 => Some('m'),
        57 => Some('n'),
        32 => Some('o'),
        33 => Some('p'),
        24 => Some('q'),
        27 => Some('r'),
        39 => Some('s'),
        28 => Some('t'),
        30 => Some('u'),
        55 => Some('v'),
        25 => Some('w'),
        53 => Some('x'),
        29 => Some('y'),
        52 => Some('z'),
        10 => Some('1'),
        11 => Some('2'),
        12 => Some('3'),
        13 => Some('4'),
        14 => Some('5'),
        15 => Some('6'),
        16 => Some('7'),
        17 => Some('8'),
        18 => Some('9'),
        19 => Some('0'),
        20 => Some('-'),
        21 => Some('='),
        34 => Some('['),
        35 => Some(']'),
        51 => Some('\\'),
        49 => Some('`'),
        59 => Some(','),
        60 => Some('.'),
        61 => Some('/'),
        65 => Some(' '),
        _ => None,
    }
}

/// The base character for a kernel input-event key code as the device
/// backend maps it; `None` for unmapped keys.
pub open spec fn devinput_char(code: u16) -> Option<char> {
    match code {
        30u16 => Some('a'),
        48u16 => Some('b'),
        46u16 => Some('c'),
        32u16 => Some('d'),
        18u16 => Some('e'),
        33u16 => Some('f'),
        34u16 => Some('g'),
        35u16 => Some('h'),
        23u16 => Some('i'),
        36u16 => Some('j'),
        37u16 => Some('k'),
        38u16 => Some('l'),
        50u16 => Some('m'),
        49u16 => Some('n'),
        24u16 => Some('o'),
        25u16 => Some('p'),
        16u16 => Some('q'),
        19u16 => Some('r'),
        31u16 => Some('s'),
        20u16 => Some('t'),
        22u16 => Some('u'),
        47u16 => Some('v'),
        17u16 => Some('w'),
        45u16 => Some('x'),
        21u16 => Some('y'),
        44u16 => Some('z'),
        57u16 => Some(' '),
        12u16 => Some('-'),
        39u16 => Some(','),
        40u16 => Some('\''),
        41u16 => Some('`'),
        43u16 => Some('\\'),
        13u16 => Some('='),
        26u16 => Some('{'),
        27u16 => Some('}'),
        51u16 => Some(','),
        52u16 => Some('.'),
        53u16 => Some('/'),
        _ => None,
    }
}

/// Executable form of `devinput_char`.  The code is the numeric identity of
/// the key in a kernel input event, as the device backend hands it over.
pub fn key_to_char(code: u16) -> (r: Option<char>)
    ensures
        r == devinput_char(code),
{
    match code {
        30 => Some('a'),
        48 => Some('b'),
        46 => Some('c'),
        32 => Some('d'),
        18 => Some('e'),
        33 => Some('f'),
        34 => Some('g'),
        35 => Some('h'),
        23 => Some('i'),
        36 => Some('j'),
        37 => Some('k'),
        38 => Some('l'),
        50 => Some('m'),
        49 => Some('n'),
        24 => Some('o'),
        25 => Some('p'),
        16 => Some('q'),
        19 => Some('r'),
        31 => Some('s'),
        20 => Some('t'),
        22 => Some('u'),
        47 => Some('v'),
        17 => Some('w'),
        45 => Some('x'),
        21 => Some('y'),
        44 => Some('z'),
        57 => Some(' '),
        12 => Some('-'),
        39 => Some(','),
        40 => Some('\''),
        41 => Some('`'),
        43 => Some('\\'),
        13 => Some('='),
        26 => Some('{'),
        27 => Some('}'),
        51 => Some(','),
        52 => Some('.'),
        53 => Some('/'),
        _ => None,
    }
}

/// What one poll of the subprocess backend returns to its caller: a pending
/// code decodes through the fixed table, nothing pending is not an error,
/// and a failed or vanished scanner is a permanently unusable source.
pub open spec fn spec_next_key_outcome(ev: PollEvent) -> Result<Option<char>, KbError> {
    match ev {
        PollEvent::Empty => Ok(None),
        PollEvent::Code(code) => Ok(xinput_char(code)),
        PollEvent::Failed => Err(KbError::IOError),
        PollEvent::Disconnected => Err(KbError::IOError),
    }
}

/// The consumer-side decision for one non-blocking poll.  A stream that has
/// closed (the scanner failed or disconnected) surfaces `IOError` here, on
/// the very next poll.
pub fn next_key_outcome(ev: PollEvent) -> (r: Result<Option<char>, KbError>)
    ensures
        r == spec_next_key_outcome(ev),
{
    match ev {
        PollEvent::Empty => Ok(None),
        PollEvent::Code(code) => Ok(key_code_to_char(code)),
        PollEvent::Failed => Err(KbError::IOError),
        PollEvent::Disconnected => Err(KbError::IOError),
    }
}

/// The device backend's deliberate odd/even gating flag: every other
/// observed event is discarded as a crude debounce against double-reporting
/// during fast typing.  A documented workaround, kept as it is.
pub struct Debounce {
    /// Flips on every observed event; an event is kept only when the flag
    /// was set before observing it, so the 2nd, 4th, ... events pass.
    pub alternate: bool,
}

impl Debounce {
    /// A fresh gate: the first observed event will be discarded.
    pub fn new() -> (r: Debounce)
        ensures
            r.alternate == false,
    {
        Debounce { alternate: false }
    }

    /// Record one observed event; the result says whether to keep it.
    pub fn observe(&mut self) -> (keep: bool)
        ensures
            final(self).alternate == !old(self).alternate,
            keep == old(self).alternate,
    {
        self.alternate = !self.alternate;
        !self.alternate
    }
}

} // verus!
