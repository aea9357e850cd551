use uhlc::ID;

#[test]
fn parse_display() {
    let id = "1".parse::<ID>().unwrap();
    assert_eq!(id.to_string(), "1");

    let id = "1bc0".parse::<ID>().unwrap();
    assert_eq!(id.to_string(), "1bc0");

    let id = "ff00".parse::<ID>().unwrap();
    assert_eq!(id.to_string(), "ff00");

    let id = "ff0".parse::<ID>().unwrap();
    assert_eq!(id.to_string(), "ff0");

    let id = "abcd".parse::<ID>().unwrap();
    assert_eq!(id.to_string(), "abcd");

    let id = "6bd9cb5f9f2644508fbbb0df1d6cce3a".parse::<ID>().unwrap();
    assert_eq!(id.to_string(), "6bd9cb5f9f2644508fbbb0df1d6cce3a");

    "0".parse::<ID>().unwrap_err();
    "0bcd".parse::<ID>().unwrap_err();
    "6bd9cb5f9f2644508fbbb0df1d6cce3a0".parse::<ID>().unwrap_err();
}

#[test]
fn le_bytes_round_trip() {
    let buf = [
        0x1au8, 0x2b, 0x3c, 0x00, 0x00, 0x00, 0x00, 0x00, 0x00, 0x00, 0x00, 0x00, 0x00, 0x00,
        0x00, 0x00,
    ];
    let id1 = ID::try_from_le_bytes(&buf[..3]).unwrap();
    assert_eq!(id1.size(), 3);
    assert_eq!(id1.to_le_bytes(), buf);
    assert_eq!(&id1.to_le_bytes()[..id1.size()], &[0x1a, 0x2b, 0x3c]);

    let id2: ID = "3c2b1a".parse().unwrap();
    assert_eq!(id2.size(), 3);
    assert_eq!(id2.to_le_bytes(), buf);
    assert_eq!(id2.to_string(), "3c2b1a");
    assert_eq!(id1, id2);

    // A trailing zero byte does not count toward the size but survives the
    // round trip of the significant prefix.
    let id3 = ID::try_from_le_bytes(&[0x01, 0x00]).unwrap();
    assert_eq!(id3.size(), 1);
    assert_eq!(&id3.to_le_bytes()[..1], &[0x01]);

    // Every 1..16 byte input with a non-zero value decodes, and re-encoding
    // reproduces the input prefix.
    for len in 1..=16usize {
        let mut buf = vec![0u8; len];
        buf[len - 1] = len as u8;
        let id = ID::try_from_le_bytes(&buf).unwrap();
        assert_eq!(id.size(), len);
        assert_eq!(&id.to_le_bytes()[..len], &buf[..]);
        for b in &id.to_le_bytes()[len..] {
            assert_eq!(*b, 0);
        }
    }
}

#[test]
fn id_max_size() {
    assert_eq!(ID::MAX_SIZE, 16);
    let id = ID::try_from_u128(u128::MAX).unwrap();
    assert_eq!(id.size(), ID::MAX_SIZE);
}

#[test]
fn id_errors() {
    let too_long = [1u8; 17];
    assert_eq!(ID::try_from_le_bytes(&too_long), Err(uhlc::SizeError(17)));
    assert_eq!(ID::try_from_le_bytes(&[0u8; 4]), Err(uhlc::SizeError(0)));
    assert_eq!(ID::try_from_le_bytes(&[]), Err(uhlc::SizeError(0)));
    assert_eq!(ID::try_from_u128(0), Err(uhlc::SizeError(0)));

    assert_eq!(
        "".parse::<ID>().unwrap_err().cause,
        "Empty strings are not valid"
    );
    assert_eq!(
        "0".parse::<ID>().unwrap_err().cause,
        "Leading 0s are not valid"
    );
    assert_eq!(
        "xyz".parse::<ID>().unwrap_err().cause,
        "Invalid lowercase hexadecimal"
    );
    // Uppercase digits are not canonical.
    "AB".parse::<ID>().unwrap_err();
}

#[test]
fn id_from_u128() {
    let id = ID::try_from_u128(0x33).unwrap();
    assert_eq!(id.size(), 1);
    assert_eq!(id.to_le_bytes()[0], 0x33);
    assert_eq!(id.to_string(), "33");

    let id = ID::try_from_u128(u128::MAX).unwrap();
    assert_eq!(id.size(), 16);
    assert_eq!(id.to_string(), "ffffffffffffffffffffffffffffffff");
}

#[test]
fn id_rand() {
    let a = ID::rand();
    let b = ID::rand();
    assert!(a.size() >= 1 && a.size() <= 16);
    assert!(b.size() >= 1 && b.size() <= 16);
    // 128 random bits collide with probability far below any practical run.
    assert_ne!(a, b);
    // The canonical text parses back to the same identifier.
    assert_eq!(a, a.to_string().parse::<ID>().unwrap());
}
