use crate::error::{Error, ErrorView};
use vstd::prelude::*;
use vstd::utf8::{encode_utf8, encode_utf8_decode_utf8};

verus! {

/// One of the five sockets within a group.
#[derive(Clone, Copy, Debug, PartialEq, Eq, Structural)]
pub enum Device {
    A,
    B,
    C,
    D,
    E,
}

/// The state to switch a socket to.
#[derive(Clone, Copy, Debug, PartialEq, Eq, Structural)]
pub enum State {
    On,
    Off,
}

/// A level to drive the output pin to.
#[derive(Clone, Copy, Debug, PartialEq, Eq, Structural)]
pub enum Value {
    Low,
    High,
}

/// The number of a device, counting from one.
pub open spec fn device_number(d: Device) -> u8 {
    match d {
        Device::A => 1,
        Device::B => 2,
        Device::C => 3,
        Device::D => 4,
        Device::E => 5,
    }
}

/// The device a textual alias names: its index from `0`, its letter in
/// either case, or its DIP switch pattern.
pub open spec fn device_alias(s: Seq<char>) -> Option<Device> {
    if s == "0"@ || s == "a"@ || s == "A"@ || s == "10000"@ {
        Some(Device::A)
    } else if s == "1"@ || s == "b"@ || s == "B"@ || s == "01000"@ {
        Some(Device::B)
    } else if s == "2"@ || s == "c"@ || s == "C"@ || s == "00100"@ {
        Some(Device::C)
    } else if s == "3"@ || s == "d"@ || s == "D"@ || s == "00010"@ {
        Some(Device::D)
    } else if s == "4"@ || s == "e"@ || s == "E"@ || s == "00001"@ {
        Some(Device::E)
    } else {
        None
    }
}

/// The state a textual alias names.
pub open spec fn state_alias(s: Seq<char>) -> Option<State> {
    if s == "On"@ || s == "on"@ || s == "1"@ || s == "true"@ {
        Some(State::On)
    } else if s == "Off"@ || s == "off"@ || s == "0"@ || s == "false"@ {
        Some(State::Off)
    } else {
        None
    }
}

/// Whether two strings hold the same characters.
fn same_text(a: &str, b: &str) -> (r: bool)
    ensures
        r == (a@ == b@),
{
    let x = a.as_bytes();
    let y = b.as_bytes();
    proof {
        encode_utf8_decode_utf8(a@);
        encode_utf8_decode_utf8(b@);
    }
    if x.len() != y.len() {
        return false;
    }
    let mut i: usize = 0;
    while i < x.len()
        invariant
            x@ == encode_utf8(a@),
            y@ == encode_utf8(b@),
            x@.len() == y@.len(),
            i <= x@.len(),
            forall|j: int| 0 <= j < i ==> x@[j] == y@[j],
        decreases x@.len() - i,
    {
        if x[i] != y[i] {
            assert(x@[i as int] != y@[i as int]);
            return false;
        }
        i = i + 1;
    }
    assert(x@ =~= y@);
    true
}

impl Device {
    /// Parses a device from any of its aliases.
    pub fn parse(s: &str) -> (r: Result<Device, Error>)
        ensures
            match device_alias(s@) {
                Some(d) => r == Ok::<Device, Error>(d),
                None => r matches Err(e) && e@ == ErrorView::InvalidDevice(s@),
            },
    {
        if same_text(s, "0") || same_text(s, "a") || same_text(s, "A") || same_text(s, "10000") {
            Ok(Device::A)
        } else if same_text(s, "1") || same_text(s, "b") || same_text(s, "B") || same_text(
            s,
            "01000",
        ) {
            Ok(Device::B)
        } else if same_text(s, "2") || same_text(s, "c") || same_text(s, "C") || same_text(
            s,
            "00100",
        ) {
            Ok(Device::C)
        } else if same_text(s, "3") || same_text(s, "d") || same_text(s, "D") || same_text(
            s,
            "00010",
        ) {
            Ok(Device::D)
        } else if same_text(s, "4") || same_text(s, "e") || same_text(s, "E") || same_text(
            s,
            "00001",
        ) {
            Ok(Device::E)
        } else {
            Err(Error::InvalidDevice(s.to_owned()))
        }
    }
}

impl State {
    /// Parses a state from any of its aliases.
    pub fn parse(s: &str) -> (r: Result<State, Error>)
        ensures
            match state_alias(s@) {
                Some(st) => r == Ok::<State, Error>(st),
                None => r matches Err(e) && e@ == ErrorView::InvalidState(s@),
            },
    {
        if same_text(s, "On") || same_text(s, "on") || same_text(s, "1") || same_text(s, "true") {
            Ok(State::On)
        } else if same_text(s, "Off") || same_text(s, "off") || same_text(s, "0") || same_text(
            s,
            "false",
        ) {
            Ok(State::Off)
        } else {
            Err(Error::InvalidState(s.to_owned()))
        }
    }
}

impl core::str::FromStr for Device {
    type Err = Error;

    fn from_str(s: &str) -> (r: Result<Device, Error>)
        ensures
            match device_alias(s@) {
                Some(d) => r == Ok::<Device, Error>(d),
                None => r matches Err(e) && e@ == ErrorView::InvalidDevice(s@),
            },
    {
        Device::parse(s)
    }
}

impl core::str::FromStr for State {
    type Err = Error;

    fn from_str(s: &str) -> (r: Result<State, Error>)
        ensures
            match state_alias(s@) {
                Some(st) => r == Ok::<State, Error>(st),
                None => r matches Err(e) && e@ == ErrorView::InvalidState(s@),
            },
    {
        State::parse(s)
    }
}

impl From<Device> for u8 {
    fn from(d: Device) -> (r: u8)
        ensures
            r == device_number(d),
    {
        match d {
            Device::A => 1,
            Device::B => 2,
            Device::C => 3,
            Device::D => 4,
            Device::E => 5,
        }
    }
}

impl vstd::std_specs::convert::FromSpecImpl<Device> for u8 {
    open spec fn obeys_from_spec() -> bool {
        true
    }

    open spec fn from_spec(d: Device) -> u8 {
        device_number(d)
    }
}

} // verus!
