//! Control of 433 MHz remote-controlled mains sockets: a socket address is
//! encoded as a tri-state code word, packed into bits and emitted as timed
//! pulses on an output pin.

pub mod address;
pub mod encoding;
pub mod error;
pub mod protocol;
pub mod transmitter;

pub use address::{Device, State, Value};
pub use encoding::{Encoding, EncodingA, EncodingB, EncodingC};
pub use error::{Error, ErrorView};
pub use protocol::{
    HighLow, Profile, Protocol, Protocol1, Protocol2, Protocol3, Protocol4, Protocol5,
    ProtocolHS2303, ProtocolHT6P20B, ProtocolValues,
};
pub use transmitter::{pack_tri_state, Funksteckdose, Pin, Signal};
