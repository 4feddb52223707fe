use funksteckdose::{
    Device, EncodingA, EncodingB, Error, Funksteckdose, Pin, Protocol, Protocol1,
    ProtocolHS2303, ProtocolHT6P20B, State, Value,
};
use std::cell::RefCell;
use std::rc::Rc;
use std::time::Instant;

/// Records every level it is asked for; fails the call with the given number.
struct Recorder {
    log: Rc<RefCell<Vec<Value>>>,
    fail_at: Option<usize>,
}

impl Pin for Recorder {
    fn set(&self, value: &Value) -> Result<(), Error> {
        let mut log = self.log.borrow_mut();
        log.push(*value);
        if Some(log.len()) == self.fail_at {
            return Err(Error::PinDriver("write failed".to_string()));
        }
        Ok(())
    }
}

fn recorder(fail_at: Option<usize>) -> (Recorder, Rc<RefCell<Vec<Value>>>) {
    let log = Rc::new(RefCell::new(Vec::new()));
    (Recorder { log: log.clone(), fail_at }, log)
}

fn assert_alternating(levels: &[Value], first: Value) {
    for (k, v) in levels.iter().enumerate() {
        let other = if first == Value::High { Value::Low } else { Value::High };
        assert_eq!(*v, if k % 2 == 0 { first } else { other }, "write {}", k);
    }
}

#[test]
fn send_protocol1_once() {
    let (pin, log) = recorder(None);
    let mut d: Funksteckdose<Recorder, EncodingA, Protocol1> =
        Funksteckdose::with_repeat_transmit(pin, 1);
    let start = Instant::now();
    d.send("10001", &Device::A, &State::On).unwrap();
    let elapsed = start.elapsed();
    let levels = log.borrow().clone();
    assert_eq!(levels.len(), 51);
    assert_eq!(levels[0], Value::High);
    assert_alternating(&levels[..50], Value::High);
    assert_eq!(levels[50], Value::Low);
    assert!(elapsed.as_micros() >= 44_800);
}

#[test]
fn send_stops_at_failed_write() {
    let (pin, log) = recorder(Some(7));
    let mut d: Funksteckdose<Recorder, EncodingA, Protocol1> =
        Funksteckdose::with_repeat_transmit(pin, 1);
    let r = d.send("10001", &Device::A, &State::On);
    assert_eq!(r, Err(Error::PinDriver("write failed".to_string())));
    let levels = log.borrow().clone();
    assert_eq!(levels.len(), 7);
    assert_alternating(&levels, Value::High);
}

#[test]
fn inverted_protocol_starts_low() {
    let (pin, log) = recorder(None);
    let mut d: Funksteckdose<Recorder, EncodingA, ProtocolHT6P20B> =
        Funksteckdose::with_repeat_transmit(pin, 1);
    d.send("11111", &Device::B, &State::Off).unwrap();
    let levels = log.borrow().clone();
    assert_eq!(levels.len(), 51);
    assert_alternating(&levels[..50], Value::Low);
    assert_eq!(levels[50], Value::Low);
}

#[test]
fn repeats_block_then_one_low() {
    let (pin, log) = recorder(None);
    let mut d: Funksteckdose<Recorder, EncodingA, ProtocolHS2303> =
        Funksteckdose::with_repeat_transmit(pin, 3);
    d.send("00000", &Device::E, &State::On).unwrap();
    let levels = log.borrow().clone();
    assert_eq!(levels.len(), 3 * 50 + 1);
    assert_alternating(&levels[..150], Value::High);
    assert_eq!(levels[150], Value::Low);
}

#[test]
fn default_repeats_ten_times() {
    let (pin, log) = recorder(None);
    let mut d: Funksteckdose<Recorder, EncodingA, ProtocolHS2303> = Funksteckdose::new(pin);
    d.send("00000", &Device::E, &State::On).unwrap();
    assert_eq!(log.borrow().len(), 10 * 50 + 1);
}

#[test]
fn zero_repeats_sends_once() {
    let (pin, log) = recorder(None);
    let mut d: Funksteckdose<Recorder, EncodingA, ProtocolHS2303> =
        Funksteckdose::with_repeat_transmit(pin, 0);
    d.send("00000", &Device::E, &State::On).unwrap();
    assert_eq!(log.borrow().len(), 51);
}

#[test]
fn rejected_group_touches_no_pin() {
    let (pin, log) = recorder(None);
    let mut d: Funksteckdose<Recorder, EncodingA, Protocol1> =
        Funksteckdose::with_repeat_transmit(pin, 1);
    let r = d.send("1000", &Device::A, &State::On);
    assert_eq!(r, Err(Error::InvalidGroup("1000".to_string())));
    assert!(log.borrow().is_empty());
}

#[test]
fn unimplemented_encoding_touches_no_pin() {
    let (pin, log) = recorder(None);
    let mut d: Funksteckdose<Recorder, EncodingB, Protocol1> =
        Funksteckdose::with_repeat_transmit(pin, 1);
    assert_eq!(d.send("10001", &Device::A, &State::On), Err(Error::NotImplemented));
    assert!(log.borrow().is_empty());
}

#[test]
fn protocol_table() {
    let p = Protocol1::values();
    assert_eq!(p.pulse_length(), 350);
    assert_eq!((p.sync_factor().high, p.sync_factor().low), (1, 31));
    assert_eq!((p.zero().high, p.zero().low), (1, 3));
    assert_eq!((p.one().high, p.one().low), (3, 1));
    assert!(!p.inverted_signal());
    let p = ProtocolHT6P20B::values();
    assert_eq!(p.pulse_length(), 450);
    assert_eq!((p.sync_factor().high, p.sync_factor().low), (23, 1));
    assert!(p.inverted_signal());
    let p = ProtocolHS2303::values();
    assert_eq!(p.pulse_length(), 150);
    assert_eq!((p.sync_factor().high, p.sync_factor().low), (2, 62));
    assert_eq!((p.zero().high, p.zero().low), (1, 6));
    assert_eq!((p.one().high, p.one().low), (6, 1));
}
