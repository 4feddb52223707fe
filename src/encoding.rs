use crate::address::{Device, State};
use crate::error::{Error, ErrorView};
use vstd::prelude::*;
use vstd::utf8::is_ascii_chars_encode_utf8;

verus! {

/// The longest code word a transmitter packs: two bits per symbol must fit in
/// a `u64`.
pub const MAX_WORD_LEN: usize = 32;

/// Whether a byte is a tri-state symbol: `0`, `F` or `1`.
pub open spec fn is_tri_state(b: u8) -> bool {
    b == 48u8 || b == 70u8 || b == 49u8
}

/// A code word a transmitter can send: tri-state symbols, at most
/// [`MAX_WORD_LEN`] of them.
pub open spec fn is_code_word(w: Seq<u8>) -> bool {
    &&& w.len() <= MAX_WORD_LEN
    &&& forall|i: int| 0 <= i < w.len() ==> is_tri_state(#[trigger] w[i])
}

/// The result of an encoding as a value: the code word, or the error.
pub open spec fn encoded_view(r: Result<Vec<u8>, Error>) -> Result<Seq<u8>, ErrorView> {
    match r {
        Ok(w) => Ok(w@),
        Err(e) => Err(e@),
    }
}

/// A layout of (group, device, state) as a tri-state code word.
pub trait Encoding {
    /// What encoding the given address yields.
    spec fn encoding(group: Seq<char>, device: Device, state: State) -> Result<Seq<u8>, ErrorView>;

    fn encode(group: &str, device: &Device, state: &State) -> (r: Result<Vec<u8>, Error>)
        ensures
            encoded_view(r) == Self::encoding(group@, *device, *state),
            r matches Ok(w) ==> is_code_word(w@),
    ;
}

/// Whether a group is a DIP switch pattern: five characters over `0` and `1`.
pub open spec fn valid_group(g: Seq<char>) -> bool {
    &&& g.len() == 5
    &&& forall|i: int| 0 <= i < g.len() ==> (#[trigger] g[i] == '0' || g[i] == '1')
}

/// The DIP switch pattern of a device.
pub open spec fn device_pattern(d: Device) -> Seq<char> {
    match d {
        Device::A => seq!['1', '0', '0', '0', '0'],
        Device::B => seq!['0', '1', '0', '0', '0'],
        Device::C => seq!['0', '0', '1', '0', '0'],
        Device::D => seq!['0', '0', '0', '1', '0'],
        Device::E => seq!['0', '0', '0', '0', '1'],
    }
}

/// The two switch positions that select a state.
pub open spec fn state_suffix(s: State) -> Seq<char> {
    match s {
        State::On => seq!['1', '0'],
        State::Off => seq!['0', '1'],
    }
}

/// The tri-state symbol a switch position becomes: an open switch floats.
pub open spec fn symbol_of(c: char) -> u8 {
    if c == '0' {
        70u8
    } else {
        48u8
    }
}

/// Encoding A: group, device pattern and state suffix, each position
/// mapped to a symbol.
pub open spec fn encoding_a(g: Seq<char>, d: Device, s: State) -> Result<Seq<u8>, ErrorView> {
    if valid_group(g) {
        Ok((g + device_pattern(d) + state_suffix(s)).map_values(|c: char| symbol_of(c)))
    } else {
        Err(ErrorView::InvalidGroup(g))
    }
}

/// Every valid address encodes to twelve symbols over `0` and `F`: the five
/// group positions, the five device positions and the two state positions,
/// each closed switch as `0` and each open one as `F`.
pub proof fn lemma_encoding_a_shape(g: Seq<char>, d: Device, s: State)
    requires
        valid_group(g),
    ensures
        encoding_a(g, d, s) matches Ok(w) && {
            &&& w.len() == 12
            &&& forall|i: int| 0 <= i < 12 ==> (#[trigger] w[i] == 48u8 || w[i] == 70u8)
            &&& forall|i: int| 0 <= i < 5 ==> #[trigger] w[i] == symbol_of(g[i])
            &&& forall|i: int| 0 <= i < 5 ==> #[trigger] w[5 + i] == symbol_of(device_pattern(d)[i])
            &&& forall|i: int| 0 <= i < 2 ==> #[trigger] w[10 + i] == symbol_of(state_suffix(s)[i])
        },
{
    let whole = g + device_pattern(d) + state_suffix(s);
    let w = whole.map_values(|c: char| symbol_of(c));
    assert(whole.len() == 12);
    assert forall|i: int| 0 <= i < 5 implies #[trigger] w[5 + i] == symbol_of(device_pattern(d)[i]) by {
        assert(whole[5 + i] == device_pattern(d)[i]);
    }
    assert forall|i: int| 0 <= i < 2 implies #[trigger] w[10 + i] == symbol_of(state_suffix(s)[i]) by {
        assert(whole[10 + i] == state_suffix(s)[i]);
    }
}

/// Whether a group string is a valid DIP switch pattern.
fn is_valid_group(group: &str) -> (r: bool)
    ensures
        r == valid_group(group@),
{
    if !group.is_ascii() {
        return false;
    }
    let b = group.as_bytes();
    proof {
        is_ascii_chars_encode_utf8(group@);
    }
    if b.len() != 5 {
        return false;
    }
    let mut i: usize = 0;
    while i < 5
        invariant
            b@.len() == 5,
            group@.len() == 5,
            vstd::utf8::is_ascii_chars(group@),
            forall|j: int| 0 <= j < 5 ==> group@[j] as u8 == #[trigger] b@[j],
            forall|j: int| 0 <= j < i ==> (#[trigger] group@[j] == '0' || group@[j] == '1'),
            i <= 5,
        decreases 5 - i,
    {
        if b[i] != 48u8 && b[i] != 49u8 {
            assert(group@[i as int] <= '\u{7f}');
            return false;
        }
        assert(group@[i as int] <= '\u{7f}');
        i = i + 1;
    }
    true
}

/// Appends the symbols of a switch pattern to a code word.
fn push_symbols(out: &mut Vec<u8>, bits: &str)
    requires
        forall|i: int| 0 <= i < bits@.len() ==> (#[trigger] bits@[i] == '0' || bits@[i] == '1'),
    ensures
        final(out)@ == old(out)@ + bits@.map_values(|c: char| symbol_of(c)),
{
    assert(vstd::utf8::is_ascii_chars(bits@)) by {
        assert forall|i: int| 0 <= i < bits@.len() implies '\0' <= #[trigger] bits@[i] <= '\u{7f}' by {
            assert(bits@[i] == '0' || bits@[i] == '1');
        }
    }
    proof {
        is_ascii_chars_encode_utf8(bits@);
    }
    let b = bits.as_bytes();
    let ghost start = out@;
    let mut i: usize = 0;
    while i < b.len()
        invariant
            b@.len() == bits@.len(),
            forall|j: int| 0 <= j < bits@.len() ==> bits@[j] as u8 == #[trigger] b@[j],
            forall|j: int| 0 <= j < bits@.len() ==> (#[trigger] bits@[j] == '0' || bits@[j] == '1'),
            i <= b@.len(),
            out@ == start + bits@.take(i as int).map_values(|c: char| symbol_of(c)),
        decreases b@.len() - i,
    {
        let sym: u8 = if b[i] == 48u8 {
            70u8
        } else {
            48u8
        };
        assert(bits@[i as int] == '0' || bits@[i as int] == '1');
        out.push(sym);
        assert(bits@.take(i + 1) == bits@.take(i as int).push(bits@[i as int]));
        i = i + 1;
    }
    assert(bits@.take(i as int) == bits@);
}

/// Encoding A of the rc-switch family: five group positions, five device
/// positions and two state positions.
pub struct EncodingA;

impl Encoding for EncodingA {
    open spec fn encoding(group: Seq<char>, device: Device, state: State) -> Result<Seq<u8>, ErrorView> {
        encoding_a(group, device, state)
    }

    fn encode(group: &str, device: &Device, state: &State) -> (r: Result<Vec<u8>, Error>) {
        if !is_valid_group(group) {
            return Err(Error::InvalidGroup(group.to_owned()));
        }
        let mut out: Vec<u8> = Vec::new();
        push_symbols(&mut out, group);
        let pattern: &str = match device {
            Device::A => "10000",
            Device::B => "01000",
            Device::C => "00100",
            Device::D => "00010",
            Device::E => "00001",
        };
        proof {
            reveal_strlit("10000");
            reveal_strlit("01000");
            reveal_strlit("00100");
            reveal_strlit("00010");
            reveal_strlit("00001");
            assert(pattern@ == device_pattern(*device));
        }
        push_symbols(&mut out, pattern);
        let suffix: &str = match state {
            State::On => "10",
            State::Off => "01",
        };
        proof {
            reveal_strlit("10");
            reveal_strlit("01");
            assert(suffix@ == state_suffix(*state));
        }
        push_symbols(&mut out, suffix);
        let ghost whole = group@ + device_pattern(*device) + state_suffix(*state);
        assert(out@ =~= whole.map_values(|c: char| symbol_of(c)));
        Ok(out)
    }
}

/// Encoding B of the rc-switch family; its layout is not known.
pub struct EncodingB;

impl Encoding for EncodingB {
    open spec fn encoding(group: Seq<char>, device: Device, state: State) -> Result<Seq<u8>, ErrorView> {
        Err(ErrorView::NotImplemented)
    }

    fn encode(group: &str, device: &Device, state: &State) -> (r: Result<Vec<u8>, Error>) {
        Err(Error::NotImplemented)
    }
}

/// Encoding C of the rc-switch family; its layout is not known.
pub struct EncodingC;

impl Encoding for EncodingC {
    open spec fn encoding(group: Seq<char>, device: Device, state: State) -> Result<Seq<u8>, ErrorView> {
        Err(ErrorView::NotImplemented)
    }

    fn encode(group: &str, device: &Device, state: &State) -> (r: Result<Vec<u8>, Error>) {
        Err(Error::NotImplemented)
    }
}

} // verus!
