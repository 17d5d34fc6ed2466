//! The command vocabulary carried in a POST body.

use vstd::prelude::*;

verus! {

/// The bytes `led=on`.
pub const LED_ON: [u8; 6] = [0x6c, 0x65, 0x64, 0x3d, 0x6f, 0x6e];

/// The bytes `led=off`.
pub const LED_OFF: [u8; 7] = [0x6c, 0x65, 0x64, 0x3d, 0x6f, 0x66, 0x66];

/// What a POST body asks of the actuator.
#[derive(Clone, Copy, Debug, PartialEq, Eq, Structural)]
pub enum Command {
    /// The body is exactly `led=on`.
    LedOn,
    /// The body is exactly `led=off`.
    LedOff,
    /// The body is anything else. Nothing is actuated; the caller may log it.
    Unrecognized,
}

/// A level of the output pin.
#[derive(Clone, Copy, Debug, PartialEq, Eq, Structural)]
pub enum PinLevel {
    High,
    Low,
}

impl Command {
    /// The level to which the command sets the pin, if it sets it at all.
    pub open spec fn level_of(self) -> Option<PinLevel> {
        match self {
            Command::LedOn => Some(PinLevel::High),
            Command::LedOff => Some(PinLevel::Low),
            Command::Unrecognized => None,
        }
    }

    /// The level to which the command sets the pin, if it sets it at all.
    pub fn level(&self) -> (level: Option<PinLevel>)
        ensures
            level == self.level_of(),
    {
        match self {
            Command::LedOn => Some(PinLevel::High),
            Command::LedOff => Some(PinLevel::Low),
            Command::Unrecognized => None,
        }
    }
}

/// Whether two byte slices hold the same bytes.
pub fn bytes_equal(a: &[u8], b: &[u8]) -> (same: bool)
    ensures
        same == (a@ == b@),
{
    if a.len() != b.len() {
        return false;
    }
    let mut i: usize = 0;
    while i < a.len()
        invariant
            a.len() == b.len(),
            i <= a.len(),
            forall|k: int| 0 <= k < i ==> a@[k] == b@[k],
        decreases a.len() - i,
    {
        if a[i] != b[i] {
            return false;
        }
        i += 1;
    }
    assert(a@ =~= b@);
    true
}

/// The command that the bytes `body` spell, byte for byte.
pub open spec fn command_of(body: Seq<u8>) -> Command {
    if body == LED_ON@ {
        Command::LedOn
    } else if body == LED_OFF@ {
        Command::LedOff
    } else {
        Command::Unrecognized
    }
}

/// Matches `body` against the command vocabulary.
pub fn classify(body: &[u8]) -> (command: Command)
    ensures
        command == command_of(body@),
{
    if bytes_equal(body, LED_ON.as_slice()) {
        Command::LedOn
    } else if bytes_equal(body, LED_OFF.as_slice()) {
        Command::LedOff
    } else {
        Command::Unrecognized
    }
}

/// The two commands are spelled differently, so a body names at most one of
/// them, and only the exact spelling names it.
pub proof fn law_vocabulary(body: Seq<u8>)
    ensures
        command_of(LED_ON@) == Command::LedOn,
        command_of(LED_OFF@) == Command::LedOff,
        command_of(body) == Command::LedOn <==> body == LED_ON@,
        command_of(body) == Command::LedOff <==> body == LED_OFF@,
        command_of(body).level_of() == Some(PinLevel::High) <==> body == LED_ON@,
        command_of(body).level_of() == Some(PinLevel::Low) <==> body == LED_OFF@,
        command_of(body).level_of() is None <==> body != LED_ON@ && body != LED_OFF@,
{
    assert(LED_ON@.len() == 6);
    assert(LED_OFF@.len() == 7);
}

} // verus!
