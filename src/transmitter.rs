use crate::address::{Device, State, Value};
use crate::encoding::{Encoding, is_code_word, MAX_WORD_LEN};
use crate::error::{Error, ErrorView};
use crate::protocol::{pair_fits, HighLow, Profile, Protocol};
use core::marker::PhantomData;
use vstd::prelude::*;

verus! {

#[verifier::external_type_specification]
#[verifier::external_body]
pub struct ExInstant(std::time::Instant);

/// Relies on `Instant::now`: reads the monotonic clock. Nothing is promised of
/// the reading.
pub assume_specification[ std::time::Instant::now ]() -> std::time::Instant;

/// Relies on `Instant::elapsed`: the time passed since the reading. Nothing is
/// promised of it.
pub assume_specification[ std::time::Instant::elapsed ](i: &std::time::Instant) -> core::time::Duration;

/// Relies on `Duration::as_micros`: whole microseconds of a duration. Nothing
/// is promised of it.
pub assume_specification[ core::time::Duration::as_micros ](d: &core::time::Duration) -> u128;

/// One step a transmitter takes on its pin: drive it to a level, or spin for
/// a number of microseconds.
pub enum Signal {
    Drive(Value),
    Wait(u32),
}

/// The output pin a transmitter drives.
pub trait Pin {
    fn set(&self, value: &Value) -> Result<(), Error>;
}

/// The code of a tri-state symbol: `0` is `00`, `F` is `01`, `1` is `11`.
pub open spec fn symbol_code(b: u8) -> int {
    if b == 48u8 {
        0
    } else if b == 70u8 {
        1
    } else {
        3
    }
}

/// A code word packed two bits per symbol, first symbol most significant.
pub open spec fn packed(w: Seq<u8>) -> int
    decreases w.len(),
{
    if w.len() == 0 {
        0
    } else {
        packed(w.drop_last()) * 4 + symbol_code(w.last())
    }
}

pub open spec fn pow4(n: nat) -> int
    decreases n,
{
    if n == 0 {
        1
    } else {
        4 * pow4((n - 1) as nat)
    }
}

proof fn lemma_packed_bound(w: Seq<u8>)
    ensures
        0 <= packed(w) < pow4(w.len()),
    decreases w.len(),
{
    if w.len() > 0 {
        lemma_packed_bound(w.drop_last());
    }
}

proof fn lemma_pow4_le(n: nat, m: nat)
    requires
        n <= m,
    ensures
        1 <= pow4(n) <= pow4(m),
    decreases m,
{
    if n < m {
        lemma_pow4_le(n, (m - 1) as nat);
    } else if n > 0 {
        lemma_pow4_le((n - 1) as nat, (n - 1) as nat);
    }
}

proof fn lemma_pow4_word(n: nat)
    requires
        n <= MAX_WORD_LEN,
    ensures
        1 <= pow4(n) <= 0x1_0000_0000_0000_0000,
{
    lemma_pow4_le(n, MAX_WORD_LEN as nat);
    reveal_with_fuel(pow4, 33);
}

/// A code word packed, as sent.
pub open spec fn packed_code(w: Seq<u8>) -> u64 {
    packed(w) as u64
}

/// Packs a tri-state code word into an integer, two bits per symbol, the
/// first symbol in the most significant bits.
pub fn pack_tri_state(code_word: &[u8]) -> (r: u64)
    requires
        is_code_word(code_word@),
    ensures
        r == packed(code_word@),
{
    let mut code: u64 = 0;
    let mut i: usize = 0;
    while i < code_word.len()
        invariant
            is_code_word(code_word@),
            i <= code_word@.len(),
            code == packed(code_word@.take(i as int)),
            code < pow4(i as nat),
        decreases code_word@.len() - i,
    {
        let c = code_word[i];
        let bits: u64 = if c == 48u8 {
            0
        } else if c == 70u8 {
            1
        } else {
            3
        };
        proof {
            lemma_pow4_word((i + 1) as nat);
            assert(code_word@.take(i + 1).drop_last() =~= code_word@.take(i as int));
        }
        code = code * 4 + bits;
        i = i + 1;
    }
    assert(code_word@.take(i as int) =~= code_word@);
    code
}

/// Bit `i` of a packed code.
pub open spec fn code_bit(code: u64, i: nat) -> bool {
    ((code >> (i as u64)) & 1u64) == 1u64
}

/// The levels of the two halves of a pulse pair: HIGH then LOW, or the
/// reverse for an inverted transmitter.
pub open spec fn polarity(inverted: bool) -> (Value, Value) {
    if inverted {
        (Value::Low, Value::High)
    } else {
        (Value::High, Value::Low)
    }
}

/// The signals of one pulse pair.
pub open spec fn pulse_signals(pulse_length: u64, pulses: HighLow, first: Value, second: Value) -> Seq<
    Signal,
> {
    seq![
        Signal::Drive(first),
        Signal::Wait((pulse_length * pulses.high) as u32),
        Signal::Drive(second),
        Signal::Wait((pulse_length * pulses.low) as u32),
    ]
}

/// The pulse pair of one bit of a code under a profile.
pub open spec fn bit_signals(p: Profile, code: u64, i: nat) -> Seq<Signal> {
    pulse_signals(
        p.pulse_length,
        if code_bit(code, i) {
            p.one
        } else {
            p.zero
        },
        polarity(p.inverted_signal).0,
        polarity(p.inverted_signal).1,
    )
}

/// The pulse pairs of bits `n - 1` down to `i` of a code.
pub open spec fn bits_signals(p: Profile, code: u64, n: nat, i: nat) -> Seq<Signal>
    decreases n - i,
{
    if i < n {
        bits_signals(p, code, n, i + 1) + bit_signals(p, code, i)
    } else {
        Seq::empty()
    }
}

/// One copy of a code word on air: its `n` bits, most significant first,
/// then the sync gap.
pub open spec fn word_signals(p: Profile, code: u64, n: nat) -> Seq<Signal> {
    bits_signals(p, code, n, 0) + pulse_signals(
        p.pulse_length,
        p.sync_factor,
        polarity(p.inverted_signal).0,
        polarity(p.inverted_signal).1,
    )
}

/// `k` copies of a block, one after the other.
pub open spec fn repeated(block: Seq<Signal>, k: nat) -> Seq<Signal>
    decreases k,
{
    if k == 0 {
        Seq::empty()
    } else {
        repeated(block, (k - 1) as nat) + block
    }
}

/// All a transmitter hands its pin for a code word: `repeat` copies of the
/// word, then a final LOW.
pub open spec fn transmission(p: Profile, w: Seq<u8>, repeat: nat) -> Seq<Signal> {
    repeated(word_signals(p, packed_code(w), 2 * w.len()), repeat).push(Signal::Drive(Value::Low))
}

/// `after` is `base` followed by a nonempty part of `plan` that ends with the
/// pin call that failed.
pub open spec fn stopped_partway(base: Seq<Signal>, after: Seq<Signal>, plan: Seq<Signal>) -> bool {
    &&& base.len() < after.len() <= base.len() + plan.len()
    &&& after == base + plan.take(after.len() - base.len())
    &&& after.last() is Drive
}

proof fn lemma_stop_within(
    base: Seq<Signal>,
    p1: Seq<Signal>,
    p2: Seq<Signal>,
    plan: Seq<Signal>,
    after: Seq<Signal>,
)
    requires
        stopped_partway(base + p1, after, p2),
        (p1 + p2).is_prefix_of(plan),
    ensures
        stopped_partway(base, after, plan),
{
    let d2 = after.len() - (base.len() + p1.len());
    let d = after.len() - base.len();
    assert(plan.take(d) =~= p1 + p2.take(d2)) by {
        assert(plan.take(d) =~= (p1 + p2).take(d));
    }
    assert(after =~= base + plan.take(d));
}

proof fn lemma_repeated_prefix(block: Seq<Signal>, m: nat, n: nat)
    requires
        m <= n,
    ensures
        repeated(block, m).is_prefix_of(repeated(block, n)),
    decreases n,
{
    if m < n {
        lemma_repeated_prefix(block, m, (n - 1) as nat);
        let a = repeated(block, m);
        let b = repeated(block, (n - 1) as nat);
        assert(a =~= (b + block).subrange(0, a.len() as int));
    }
}

proof fn lemma_bits_prefix(p: Profile, code: u64, n: nat, i: nat)
    requires
        i <= n,
    ensures
        bits_signals(p, code, n, i).is_prefix_of(bits_signals(p, code, n, 0)),
    decreases i,
{
    if i > 0 {
        lemma_bits_prefix(p, code, n, (i - 1) as nat);
        let a = bits_signals(p, code, n, i);
        let b = bits_signals(p, code, n, (i - 1) as nat);
        assert(b == a + bit_signals(p, code, (i - 1) as nat));
        assert(a =~= b.subrange(0, a.len() as int));
        assert(a =~= bits_signals(p, code, n, 0).subrange(0, a.len() as int));
    }
}

/// The levels a sequence of signals drives the pin to, in order.
pub open spec fn levels(s: Seq<Signal>) -> Seq<Value>
    decreases s.len(),
{
    if s.len() == 0 {
        Seq::empty()
    } else {
        match s.last() {
            Signal::Drive(v) => levels(s.drop_last()).push(v),
            Signal::Wait(_) => levels(s.drop_last()),
        }
    }
}

/// Levels that alternate from `first`, an even number of them.
pub open spec fn alternating(v: Seq<Value>, first: Value, second: Value) -> bool {
    &&& v.len() % 2 == 0
    &&& forall|j: int| 0 <= j < v.len() ==> #[trigger] v[j] == if j % 2 == 0 {
        first
    } else {
        second
    }
}

proof fn lemma_levels_concat(a: Seq<Signal>, b: Seq<Signal>)
    ensures
        levels(a + b) == levels(a) + levels(b),
    decreases b.len(),
{
    if b.len() == 0 {
        assert(a + b =~= a);
        assert(levels(a) + levels(b) =~= levels(a));
    } else {
        lemma_levels_concat(a, b.drop_last());
        assert((a + b).drop_last() =~= a + b.drop_last());
        assert((a + b).last() == b.last());
        match b.last() {
            Signal::Drive(v) => {
                assert(levels(a + b) =~= levels(a) + levels(b));
            },
            Signal::Wait(_) => {},
        }
    }
}

proof fn lemma_alternating_concat(a: Seq<Value>, b: Seq<Value>, first: Value, second: Value)
    requires
        alternating(a, first, second),
        alternating(b, first, second),
    ensures
        alternating(a + b, first, second),
{
    assert forall|j: int| 0 <= j < (a + b).len() implies #[trigger] (a + b)[j] == if j % 2 == 0 {
        first
    } else {
        second
    } by {
        if j >= a.len() {
            assert(b[j - a.len()] == (a + b)[j]);
            assert((j - a.len()) % 2 == j % 2);
        }
    }
}

proof fn lemma_pulse_levels(pulse_length: u64, pulses: HighLow, first: Value, second: Value)
    ensures
        levels(pulse_signals(pulse_length, pulses, first, second)) == seq![first, second],
        alternating(seq![first, second], first, second),
{
    let s = pulse_signals(pulse_length, pulses, first, second);
    reveal_with_fuel(levels, 5);
    assert(s.drop_last().drop_last().drop_last().drop_last() =~= Seq::<Signal>::empty());
    assert(levels(s.drop_last().drop_last()) =~= seq![first]);
    assert(levels(s) =~= seq![first, second]);
}

proof fn lemma_bits_levels(p: Profile, code: u64, n: nat, i: nat)
    requires
        i <= n,
    ensures
        levels(bits_signals(p, code, n, i)).len() == 2 * (n - i),
        alternating(
            levels(bits_signals(p, code, n, i)),
            polarity(p.inverted_signal).0,
            polarity(p.inverted_signal).1,
        ),
    decreases n - i,
{
    let (first, second) = polarity(p.inverted_signal);
    if i < n {
        lemma_bits_levels(p, code, n, i + 1);
        let pulses = if code_bit(code, i) {
            p.one
        } else {
            p.zero
        };
        lemma_pulse_levels(p.pulse_length, pulses, first, second);
        lemma_levels_concat(bits_signals(p, code, n, i + 1), bit_signals(p, code, i));
        lemma_alternating_concat(
            levels(bits_signals(p, code, n, i + 1)),
            seq![first, second],
            first,
            second,
        );
    } else {
        assert(levels(Seq::<Signal>::empty()) =~= Seq::<Value>::empty());
    }
}

proof fn lemma_repeated_levels(block: Seq<Signal>, k: nat, first: Value, second: Value)
    requires
        alternating(levels(block), first, second),
    ensures
        levels(repeated(block, k)).len() == k * levels(block).len(),
        alternating(levels(repeated(block, k)), first, second),
    decreases k,
{
    if k == 0 {
        assert(levels(Seq::<Signal>::empty()) =~= Seq::<Value>::empty());
    } else {
        let m = levels(block).len();
        lemma_repeated_levels(block, (k - 1) as nat, first, second);
        lemma_levels_concat(repeated(block, (k - 1) as nat), block);
        lemma_alternating_concat(levels(repeated(block, (k - 1) as nat)), levels(block), first, second);
        assert((k - 1) * m + m == k * m) by (nonlinear_arith);
    }
}

/// What the pin sees of a transmission of a code word of `L` symbols:
/// `repeat * (4 * L + 2) + 1` writes (two for each of the `2 * L` bits and
/// two for the sync gap, per copy, and a final one). All but the last
/// alternate strictly, starting from HIGH, or from LOW for an inverted
/// protocol; the last is LOW.
pub proof fn lemma_transmission_levels(p: Profile, w: Seq<u8>, repeat: nat)
    ensures
        levels(transmission(p, w, repeat)).len() == repeat * (4 * w.len() + 2) + 1,
        forall|j: int|
            0 <= j < levels(transmission(p, w, repeat)).len() - 1 ==> #[trigger] levels(
                transmission(p, w, repeat),
            )[j] == if j % 2 == 0 {
                polarity(p.inverted_signal).0
            } else {
                polarity(p.inverted_signal).1
            },
        levels(transmission(p, w, repeat)).last() == Value::Low,
{
    let (first, second) = polarity(p.inverted_signal);
    let code = packed_code(w);
    let n = 2 * w.len();
    let sync = pulse_signals(p.pulse_length, p.sync_factor, first, second);
    let block = word_signals(p, code, n);
    lemma_bits_levels(p, code, n, 0);
    lemma_pulse_levels(p.pulse_length, p.sync_factor, first, second);
    lemma_levels_concat(bits_signals(p, code, n, 0), sync);
    lemma_alternating_concat(levels(bits_signals(p, code, n, 0)), seq![first, second], first, second);
    lemma_repeated_levels(block, repeat, first, second);
    let body = repeated(block, repeat);
    let t = transmission(p, w, repeat);
    assert(t.drop_last() =~= body);
    assert(levels(t) == levels(body).push(Value::Low));
    assert(repeat * (2 * n + 2) == repeat * (4 * w.len() + 2));
}

/// Spins until `micros` microseconds have passed on the monotonic clock.
/// The spin count only serves to bound the loop: at one probe per nanosecond
/// it would take centuries to run out.
fn delay(micros: u32) {
    if micros > 0 {
        let start = std::time::Instant::now();
        let target = micros as u128;
        let mut spins: u64 = 0;
        while start.elapsed().as_micros() < target && spins < u64::MAX
            decreases u64::MAX - spins,
        {
            spins = spins + 1;
        }
    }
}

/// Handle to a set of remote-controlled sockets: a pin wired to a 433 MHz
/// transmitter, an encoding and a protocol.
pub struct Funksteckdose<T: Pin, E: Encoding, P: Protocol> {
    pin: T,
    repeat_transmit: usize,
    protocol: PhantomData<P>,
    encoding: PhantomData<E>,
    sent: Ghost<Seq<Signal>>,
    failure: Ghost<Option<ErrorView>>,
}

impl<T: Pin, E: Encoding, P: Protocol> Funksteckdose<T, E, P> {
    /// Every signal handed to the pin so far, in order.
    pub closed spec fn signals(&self) -> Seq<Signal> {
        self.sent@
    }

    /// The pin the handle drives.
    pub closed spec fn pin(&self) -> T {
        self.pin
    }

    /// The error the pin reported on its last failed call, if any.
    pub closed spec fn pin_failure(&self) -> Option<ErrorView> {
        self.failure@
    }

    /// How many copies of a code word each send puts on air.
    pub closed spec fn repeats(&self) -> nat {
        self.repeat_transmit as nat
    }

    /// A handle that sends each code word ten times.
    pub fn new(pin: T) -> (r: Funksteckdose<T, E, P>)
        ensures
            r.pin() == pin,
            r.repeats() == 10,
            r.signals() == Seq::<Signal>::empty(),
            r.pin_failure() == None::<ErrorView>,
    {
        Self::with_repeat_transmit(pin, 10)
    }

    /// A handle that sends each code word `repeat_transmit` times; a count
    /// of zero is taken as one.
    pub fn with_repeat_transmit(pin: T, repeat_transmit: usize) -> (r: Funksteckdose<T, E, P>)
        ensures
            r.repeats() == if repeat_transmit == 0 {
                1
            } else {
                repeat_transmit as nat
            },
            r.pin() == pin,
            r.signals() == Seq::<Signal>::empty(),
            r.pin_failure() == None::<ErrorView>,
    {
        Funksteckdose {
            pin,
            repeat_transmit: if repeat_transmit == 0 {
                1
            } else {
                repeat_transmit
            },
            protocol: PhantomData,
            encoding: PhantomData,
            sent: Ghost(Seq::empty()),
            failure: Ghost(None),
        }
    }

    /// Drives the pin to `v`, logging the call.
    fn drive(&mut self, v: Value) -> (r: Result<(), Error>)
        ensures
            final(self).pin() == old(self).pin(),
            final(self).repeats() == old(self).repeats(),
            final(self).signals() == old(self).signals().push(Signal::Drive(v)),
            match r {
                Ok(()) => final(self).pin_failure() == old(self).pin_failure(),
                Err(e) => final(self).pin_failure() == Some(e@),
            },
    {
        self.sent = Ghost(self.sent@.push(Signal::Drive(v)));
        let r = self.pin.set(&v);
        if let Err(e) = &r {
            self.failure = Ghost(Some(e@));
        }
        r
    }

    /// Spins for `micros` microseconds, logging the wait.
    fn wait(&mut self, micros: u32)
        ensures
            final(self).pin() == old(self).pin(),
            final(self).repeats() == old(self).repeats(),
            final(self).pin_failure() == old(self).pin_failure(),
            final(self).signals() == old(self).signals().push(Signal::Wait(micros)),
    {
        self.sent = Ghost(self.sent@.push(Signal::Wait(micros)));
        delay(micros);
    }

    fn transmit(&mut self, pulses: HighLow, first: Value, second: Value, pulse_length: u64) -> (r:
        Result<(), Error>)
        requires
            pair_fits(pulse_length, pulses),
        ensures
            final(self).pin() == old(self).pin(),
            final(self).repeats() == old(self).repeats(),
            r is Ok ==> final(self).signals() == old(self).signals() + pulse_signals(
                pulse_length,
                pulses,
                first,
                second,
            ),
            r is Err ==> stopped_partway(
                old(self).signals(),
                final(self).signals(),
                pulse_signals(pulse_length, pulses, first, second),
            ),
            r matches Err(e) ==> final(self).pin_failure() == Some(e@),
    {
        let ghost plan = pulse_signals(pulse_length, pulses, first, second);
        let ghost base = self.sent@;
        if let Err(e) = self.drive(first) {
            assert(self.sent@ =~= base + plan.take(1));
            return Err(e);
        }
        self.wait((pulse_length * pulses.high) as u32);
        if let Err(e) = self.drive(second) {
            assert(self.sent@ =~= base + plan.take(3));
            return Err(e);
        }
        self.wait((pulse_length * pulses.low) as u32);
        assert(self.sent@ =~= base + plan);
        Ok(())
    }

    /// Switches a socket: encodes the address and sends the code word.
    /// An address the encoding rejects fails with its error before any pin
    /// activity; a pin failure stops the transmission at the failed call.
    pub fn send(&mut self, group: &str, device: &Device, state: &State) -> (r: Result<(), Error>)
        requires
            old(self).repeats() >= 1,
        ensures
            final(self).pin() == old(self).pin(),
            final(self).repeats() == old(self).repeats(),
            match E::encoding(group@, *device, *state) {
                Err(ev) => r matches Err(e) && e@ == ev && final(self).signals() == old(
                    self,
                ).signals(),
                Ok(w) => {
                    &&& r is Ok ==> final(self).signals() == old(self).signals() + transmission(
                        P::profile(),
                        w,
                        old(self).repeats(),
                    )
                    &&& r is Err ==> stopped_partway(
                        old(self).signals(),
                        final(self).signals(),
                        transmission(P::profile(), w, old(self).repeats()),
                    )
                    &&& r matches Err(e) ==> final(self).pin_failure() == Some(e@)
                },
            },
    {
        match E::encode(group, device, state) {
            Err(e) => Err(e),
            Ok(code_word) => self.send_tri_state(code_word.as_slice()),
        }
    }

    /// Sends a code word: `repeats()` copies of its bits and sync gap, then a
    /// final LOW. A pin failure stops the transmission at once.
    fn send_tri_state(&mut self, code_word: &[u8]) -> (r: Result<(), Error>)
        requires
            is_code_word(code_word@),
            old(self).repeats() >= 1,
        ensures
            final(self).pin() == old(self).pin(),
            final(self).repeats() == old(self).repeats(),
            r is Ok ==> final(self).signals() == old(self).signals() + transmission(
                P::profile(),
                code_word@,
                old(self).repeats(),
            ),
            r is Err ==> stopped_partway(
                old(self).signals(),
                final(self).signals(),
                transmission(P::profile(), code_word@, old(self).repeats()),
            ),
            r matches Err(e) ==> final(self).pin_failure() == Some(e@),
    {
        let code = pack_tri_state(code_word);
        proof {
            lemma_packed_bound(code_word@);
            lemma_pow4_word(code_word@.len());
        }
        let values = P::values();
        let pulse_length = values.pulse_length();
        let one = values.one();
        let zero = values.zero();
        let sync = values.sync_factor();
        let (first, second) = if values.inverted_signal() {
            (Value::Low, Value::High)
        } else {
            (Value::High, Value::Low)
        };
        let length = code_word.len() * 2;
        let ghost p = P::profile();
        let ghost n = length as nat;
        let ghost block = word_signals(p, code, n);
        let ghost plan = transmission(p, code_word@, self.repeats());
        let ghost start = self.sent@;
        let ghost repeat = self.repeats();
        assert(plan == repeated(block, repeat).push(Signal::Drive(Value::Low)));
        let mut k: usize = 0;
        while k < self.repeat_transmit
            invariant
                values@ == p,
                p.wf(),
                pulse_length == p.pulse_length,
                one == p.one,
                zero == p.zero,
                sync == p.sync_factor,
                (first, second) == polarity(p.inverted_signal),
                length == n,
                n <= 64,
                block == word_signals(p, code, n),
                plan == repeated(block, repeat).push(Signal::Drive(Value::Low)),
                plan == transmission(P::profile(), code_word@, old(self).repeats()),
                p == P::profile(),
                self.repeats() == repeat,
                self.pin() == old(self).pin(),
                repeat == old(self).repeats(),
                start == old(self).signals(),
                k <= repeat,
                self.sent@ == start + repeated(block, k as nat),
            decreases repeat - k,
        {
            let ghost before = self.sent@;
            proof {
                lemma_repeated_prefix(block, (k + 1) as nat, repeat);
            }
            assert(repeated(block, (k + 1) as nat) == repeated(block, k as nat) + block);
            assert((repeated(block, (k + 1) as nat)).is_prefix_of(plan));
            let mut i: usize = length;
            while i > 0
                invariant
                    values@ == p,
                    p.wf(),
                    pulse_length == p.pulse_length,
                    one == p.one,
                    zero == p.zero,
                    sync == p.sync_factor,
                    (first, second) == polarity(p.inverted_signal),
                    length == n,
                    n <= 64,
                    i <= n,
                    block == word_signals(p, code, n),
                    plan == repeated(block, repeat).push(Signal::Drive(Value::Low)),
                    plan == transmission(P::profile(), code_word@, old(self).repeats()),
                    p == P::profile(),
                    (repeated(block, k as nat) + block).is_prefix_of(plan),
                    self.repeats() == repeat,
                    self.pin() == old(self).pin(),
                    repeat == old(self).repeats(),
                    start == old(self).signals(),
                    k < repeat,
                    before == start + repeated(block, k as nat),
                    self.sent@ == before + bits_signals(p, code, n, i as nat),
                decreases i,
            {
                i = i - 1;
                let shift = i as u64;
                assert((code & (1u64 << shift) != 0) == (((code >> shift) & 1u64) == 1u64))
                    by (bit_vector)
                    requires
                        shift < 64,
                ;
                let set = code & (1u64 << shift) != 0;
                let pulses = if set {
                    one
                } else {
                    zero
                };
                let ghost mid = self.sent@;
                let r = self.transmit(pulses, first, second, pulse_length);
                let ghost piece = bit_signals(p, code, i as nat);
                assert(bits_signals(p, code, n, i as nat) == bits_signals(p, code, n, (i + 1) as nat)
                    + piece);
                match r {
                    Err(e) => {
                        proof {
                            lemma_bits_prefix(p, code, n, i as nat);
                            let p1 = repeated(block, k as nat) + bits_signals(p, code, n, (i + 1) as nat);
                            assert(mid =~= start + p1);
                            assert((p1 + piece).is_prefix_of(plan)) by {
                                let q = p1 + piece;
                                let whole = repeated(block, k as nat) + block;
                                assert(q =~= repeated(block, k as nat) + bits_signals(p, code, n, i as nat));
                                assert(q =~= whole.subrange(0, q.len() as int));
                                assert(q =~= plan.subrange(0, q.len() as int));
                            }
                            lemma_stop_within(start, p1, piece, plan, self.sent@);
                        }
                        return Err(e);
                    },
                    Ok(()) => {
                        assert(self.sent@ =~= before + bits_signals(p, code, n, i as nat));
                    },
                }
            }
            let ghost mid = self.sent@;
            let r = self.transmit(sync, first, second, pulse_length);
            let ghost tail = pulse_signals(pulse_length, sync, first, second);
            assert(block == bits_signals(p, code, n, 0) + tail);
            match r {
                Err(e) => {
                    proof {
                        let p1 = repeated(block, k as nat) + bits_signals(p, code, n, 0);
                        assert(mid =~= start + p1);
                        assert((p1 + tail).is_prefix_of(plan)) by {
                            assert(p1 + tail =~= repeated(block, k as nat) + block);
                        }
                        lemma_stop_within(start, p1, tail, plan, self.sent@);
                    }
                    return Err(e);
                },
                Ok(()) => {
                    assert(self.sent@ =~= start + repeated(block, (k + 1) as nat));
                },
            }
            k = k + 1;
        }
        if let Err(e) = self.drive(Value::Low) {
            assert(self.sent@ =~= start + plan.take(plan.len() as int));
            return Err(e);
        }
        assert(self.sent@ =~= start + plan);
        Ok(())
    }
}

} // verus!
