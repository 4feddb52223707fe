use vstd::prelude::*;

verus! {

/// Numbers of base pulses spent HIGH and then LOW.
#[derive(Clone, Copy, Debug, PartialEq, Eq, Structural)]
pub struct HighLow {
    pub high: u64,
    pub low: u64,
}

impl HighLow {
    pub fn new(high: u64, low: u64) -> (r: HighLow)
        ensures
            r == (HighLow { high, low }),
    {
        HighLow { high, low }
    }
}

/// The timing of a protocol as seen from outside: base pulse length in
/// microseconds, the pulse pairs of the sync gap, a zero bit and a one bit,
/// and whether the transmitter inverts the signal.
pub struct Profile {
    pub pulse_length: u64,
    pub sync_factor: HighLow,
    pub zero: HighLow,
    pub one: HighLow,
    pub inverted_signal: bool,
}

/// Whether every wait of a pulse pair fits in a `u32` of microseconds.
pub open spec fn pair_fits(pulse_length: u64, p: HighLow) -> bool {
    &&& pulse_length * p.high <= u32::MAX
    &&& pulse_length * p.low <= u32::MAX
}

impl Profile {
    /// Every wait the profile asks for fits in a `u32` of microseconds.
    pub open spec fn wf(&self) -> bool {
        &&& pair_fits(self.pulse_length, self.sync_factor)
        &&& pair_fits(self.pulse_length, self.zero)
        &&& pair_fits(self.pulse_length, self.one)
    }
}

/// The timing of one protocol. Values are only made by the protocols below.
#[derive(Clone, Debug)]
pub struct ProtocolValues {
    pulse_length: u64,
    sync_factor: HighLow,
    zero: HighLow,
    one: HighLow,
    inverted_signal: bool,
}

impl View for ProtocolValues {
    type V = Profile;

    closed spec fn view(&self) -> Profile {
        Profile {
            pulse_length: self.pulse_length,
            sync_factor: self.sync_factor,
            zero: self.zero,
            one: self.one,
            inverted_signal: self.inverted_signal,
        }
    }
}

impl ProtocolValues {
    fn build(
        pulse_length: u64,
        sync_factor: HighLow,
        zero: HighLow,
        one: HighLow,
        inverted_signal: bool,
    ) -> (r: ProtocolValues)
        ensures
            r@ == (Profile { pulse_length, sync_factor, zero, one, inverted_signal }),
    {
        ProtocolValues { pulse_length, sync_factor, zero, one, inverted_signal }
    }

    pub fn pulse_length(&self) -> (r: u64)
        ensures
            r == self@.pulse_length,
    {
        self.pulse_length
    }

    pub fn sync_factor(&self) -> (r: HighLow)
        ensures
            r == self@.sync_factor,
    {
        self.sync_factor
    }

    pub fn zero(&self) -> (r: HighLow)
        ensures
            r == self@.zero,
    {
        self.zero
    }

    pub fn one(&self) -> (r: HighLow)
        ensures
            r == self@.one,
    {
        self.one
    }

    pub fn inverted_signal(&self) -> (r: bool)
        ensures
            r == self@.inverted_signal,
    {
        self.inverted_signal
    }
}

/// A protocol: a fixed timing profile.
pub trait Protocol {
    /// The profile of the protocol.
    spec fn profile() -> Profile;

    fn values() -> (r: ProtocolValues)
        ensures
            r@ == Self::profile(),
            r@.wf(),
    ;
}

/// The profile with the given numbers.
pub open spec fn profile_of(
    pulse_length: u64,
    sync: (u64, u64),
    zero: (u64, u64),
    one: (u64, u64),
    inverted_signal: bool,
) -> Profile {
    Profile {
        pulse_length,
        sync_factor: HighLow { high: sync.0, low: sync.1 },
        zero: HighLow { high: zero.0, low: zero.1 },
        one: HighLow { high: one.0, low: one.1 },
        inverted_signal,
    }
}

/// Protocol 1
pub struct Protocol1;

impl Protocol for Protocol1 {
    open spec fn profile() -> Profile {
        profile_of(350, (1, 31), (1, 3), (3, 1), false)
    }

    fn values() -> (r: ProtocolValues) {
        ProtocolValues::build(
            350,
            HighLow::new(1, 31),
            HighLow::new(1, 3),
            HighLow::new(3, 1),
            false,
        )
    }
}

/// Protocol 2
pub struct Protocol2;

impl Protocol for Protocol2 {
    open spec fn profile() -> Profile {
        profile_of(650, (1, 10), (1, 2), (2, 1), false)
    }

    fn values() -> (r: ProtocolValues) {
        ProtocolValues::build(
            650,
            HighLow::new(1, 10),
            HighLow::new(1, 2),
            HighLow::new(2, 1),
            false,
        )
    }
}

/// Protocol 3
pub struct Protocol3;

impl Protocol for Protocol3 {
    open spec fn profile() -> Profile {
        profile_of(100, (30, 71), (4, 11), (9, 6), false)
    }

    fn values() -> (r: ProtocolValues) {
        ProtocolValues::build(
            100,
            HighLow::new(30, 71),
            HighLow::new(4, 11),
            HighLow::new(9, 6),
            false,
        )
    }
}

/// Protocol 4
pub struct Protocol4;

impl Protocol for Protocol4 {
    open spec fn profile() -> Profile {
        profile_of(380, (1, 6), (1, 3), (3, 1), false)
    }

    fn values() -> (r: ProtocolValues) {
        ProtocolValues::build(
            380,
            HighLow::new(1, 6),
            HighLow::new(1, 3),
            HighLow::new(3, 1),
            false,
        )
    }
}

/// Protocol 5
pub struct Protocol5;

impl Protocol for Protocol5 {
    open spec fn profile() -> Profile {
        profile_of(500, (6, 14), (1, 2), (2, 1), false)
    }

    fn values() -> (r: ProtocolValues) {
        ProtocolValues::build(
            500,
            HighLow::new(6, 14),
            HighLow::new(1, 2),
            HighLow::new(2, 1),
            false,
        )
    }
}

/// Protocol HT6P20B, whose transmitter idles HIGH and pulses LOW.
pub struct ProtocolHT6P20B;

impl Protocol for ProtocolHT6P20B {
    open spec fn profile() -> Profile {
        profile_of(450, (23, 1), (1, 2), (2, 1), true)
    }

    fn values() -> (r: ProtocolValues) {
        ProtocolValues::build(
            450,
            HighLow::new(23, 1),
            HighLow::new(1, 2),
            HighLow::new(2, 1),
            true,
        )
    }
}

/// Protocol HS2303-PT, as used by the AUKEY remote.
pub struct ProtocolHS2303;

impl Protocol for ProtocolHS2303 {
    open spec fn profile() -> Profile {
        profile_of(150, (2, 62), (1, 6), (6, 1), false)
    }

    fn values() -> (r: ProtocolValues) {
        ProtocolValues::build(
            150,
            HighLow::new(2, 62),
            HighLow::new(1, 6),
            HighLow::new(6, 1),
            false,
        )
    }
}

} // verus!
