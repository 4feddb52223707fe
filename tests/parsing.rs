use funksteckdose::{Device, Error, State};
use std::str::FromStr;

#[test]
fn device_aliases_parse() {
    let table = [
        (Device::A, ["0", "a", "A", "10000"]),
        (Device::B, ["1", "b", "B", "01000"]),
        (Device::C, ["2", "c", "C", "00100"]),
        (Device::D, ["3", "d", "D", "00010"]),
        (Device::E, ["4", "e", "E", "00001"]),
    ];
    for (d, aliases) in table {
        for a in aliases {
            assert_eq!(Device::parse(a), Ok(d));
            assert_eq!(Device::from_str(a), Ok(d));
        }
    }
}

#[test]
fn unknown_device_is_rejected() {
    for s in ["", "5", "f", "11000", "AA", " a"] {
        assert_eq!(Device::parse(s), Err(Error::InvalidDevice(s.to_string())));
    }
}

#[test]
fn state_aliases_parse() {
    for s in ["on", "On", "1", "true"] {
        assert_eq!(State::parse(s), Ok(State::On));
        assert_eq!(s.parse::<State>(), Ok(State::On));
    }
    for s in ["off", "Off", "0", "false"] {
        assert_eq!(State::parse(s), Ok(State::Off));
    }
}

#[test]
fn unknown_state_is_rejected() {
    for s in ["", "ON", "yes", "2", "of"] {
        assert_eq!(State::parse(s), Err(Error::InvalidState(s.to_string())));
    }
}

#[test]
fn device_numbers() {
    assert_eq!(u8::from(Device::A), 1);
    assert_eq!(u8::from(Device::B), 2);
    assert_eq!(u8::from(Device::C), 3);
    assert_eq!(u8::from(Device::D), 4);
    assert_eq!(u8::from(Device::E), 5);
}

#[test]
fn error_messages_echo_input() {
    assert_eq!(
        Error::InvalidGroup("1000".to_string()).message(),
        "invalid group identifier: 1000"
    );
    assert_eq!(
        Error::InvalidDevice("x".to_string()).message(),
        "invalid device identifier: x"
    );
    assert_eq!(
        Error::InvalidState("maybe".to_string()).message(),
        "invalid state: maybe. Try on, off, 1, 0, true, false"
    );
    assert_eq!(Error::NotImplemented.message(), "encoding not implemented");
}

#[test]
fn from_str_echoes_rejected_input() {
    for s in ["5", "f", "F", "", "11000", "00000", "a "] {
        assert_eq!(Device::from_str(s), Err(Error::InvalidDevice(s.to_string())));
    }
    for s in ["ON", "OFF", "True", "yes", "", "2"] {
        assert_eq!(State::from_str(s), Err(Error::InvalidState(s.to_string())));
    }
}
