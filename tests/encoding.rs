use funksteckdose::{
    pack_tri_state, Device, Encoding, EncodingA, EncodingB, EncodingC, Error, State,
};

fn encode_a(group: &str, device: Device, state: State) -> Result<Vec<u8>, Error> {
    EncodingA::encode(group, &device, &state)
}

#[test]
fn encode_all_on_group_device_a_off() {
    assert_eq!(encode_a("11111", Device::A, State::Off).unwrap(), b"000000FFFFF0".to_vec());
}

#[test]
fn encode_all_off_group_device_e_on() {
    assert_eq!(encode_a("00000", Device::E, State::On).unwrap(), b"FFFFFFFFF00F".to_vec());
}

#[test]
fn encode_mixed_group_device_a_on() {
    // group 10001 -> 0FFF0, device A -> 0FFFF, on -> 0F
    assert_eq!(encode_a("10001", Device::A, State::On).unwrap(), b"0FFF00FFFF0F".to_vec());
}

#[test]
fn encode_short_group_is_rejected() {
    assert_eq!(
        encode_a("1000", Device::A, State::On),
        Err(Error::InvalidGroup("1000".to_string()))
    );
}

#[test]
fn encode_rejects_malformed_groups() {
    for g in ["", "1001", "100111", "1002 1", "abcde", "1000\u{e9}"] {
        assert_eq!(
            encode_a(g, Device::C, State::Off),
            Err(Error::InvalidGroup(g.to_string()))
        );
    }
}

#[test]
fn encode_every_valid_address_has_twelve_symbols() {
    let devices = [Device::A, Device::B, Device::C, Device::D, Device::E];
    for n in 0..32u32 {
        let group: String = (0..5)
            .map(|k| if n & (1 << (4 - k)) != 0 { '1' } else { '0' })
            .collect();
        for (di, d) in devices.iter().enumerate() {
            for s in [State::On, State::Off] {
                let w = encode_a(&group, *d, s).unwrap();
                assert_eq!(w.len(), 12);
                assert!(w.iter().all(|&b| b == b'0' || b == b'F'));
                for (k, c) in group.bytes().enumerate() {
                    assert_eq!(w[k], if c == b'1' { b'0' } else { b'F' });
                }
                for k in 0..5 {
                    assert_eq!(w[5 + k], if k == di { b'0' } else { b'F' });
                }
                let tail: &[u8] = if s == State::On { b"0F" } else { b"F0" };
                assert_eq!(&w[10..], tail);
            }
        }
    }
}

#[test]
fn encodings_b_and_c_are_not_implemented() {
    assert_eq!(EncodingB::encode("10001", &Device::A, &State::On), Err(Error::NotImplemented));
    assert_eq!(EncodingC::encode("10001", &Device::A, &State::On), Err(Error::NotImplemented));
}

#[test]
fn pack_of_encoded_word() {
    let w = encode_a("10001", Device::A, State::On).unwrap();
    // 00 01 01 01 00 | 00 01 01 01 01 | 00 01
    assert_eq!(pack_tri_state(&w), 0b00_01_01_01_00_00_01_01_01_01_00_01u64);
}

#[test]
fn pack_maps_each_symbol() {
    assert_eq!(pack_tri_state(b""), 0);
    assert_eq!(pack_tri_state(b"0"), 0);
    assert_eq!(pack_tri_state(b"F"), 1);
    assert_eq!(pack_tri_state(b"1"), 3);
    assert_eq!(pack_tri_state(b"1F0"), 0b11_01_00);
    assert_eq!(pack_tri_state(&[b'1'; 32]), u64::MAX);
}
