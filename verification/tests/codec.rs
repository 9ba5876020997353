use echo_link::codec::{decode, encode, DecodeResult, Endpoint, HostAddr};

fn addr(o0: u8, o1: u8, o2: u8, o3: u8) -> HostAddr {
    HostAddr { o0, o1, o2, o3 }
}

#[test]
fn encode_exact_bytes() {
    assert_eq!(encode(9000), b"ECHO_SERVER:9000".to_vec());
    assert_eq!(encode(1), b"ECHO_SERVER:1".to_vec());
    assert_eq!(encode(65535), b"ECHO_SERVER:65535".to_vec());
    assert_eq!(encode(80), b"ECHO_SERVER:80".to_vec());
}

#[test]
fn round_trip_all_edges() {
    let sender = addr(192, 168, 1, 7);
    for port in [1u16, 2, 9, 10, 80, 9000, 9999, 65534, 65535] {
        let msg = encode(port);
        assert_eq!(
            decode(&msg, sender),
            DecodeResult::Valid(Endpoint { host: sender, port })
        );
    }
}

#[test]
fn leading_zeros_accepted() {
    let sender = addr(10, 0, 0, 1);
    assert_eq!(
        decode(b"ECHO_SERVER:0080", sender),
        DecodeResult::Valid(Endpoint { host: sender, port: 80 })
    );
    assert_eq!(
        decode(b"ECHO_SERVER:000065535", sender),
        DecodeResult::Valid(Endpoint { host: sender, port: 65535 })
    );
}

#[test]
fn rejects_empty_and_truncated() {
    let sender = addr(10, 0, 0, 1);
    assert_eq!(decode(b"", sender), DecodeResult::Invalid);
    assert_eq!(decode(b"ECHO_SERVER", sender), DecodeResult::Invalid);
    assert_eq!(decode(b"ECHO_SERVER:", sender), DecodeResult::Invalid);
}

#[test]
fn rejects_wrong_tag() {
    let sender = addr(10, 0, 0, 1);
    assert_eq!(decode(b"echo_server:9000", sender), DecodeResult::Invalid);
    assert_eq!(decode(b"ECHO_SERVERX9000", sender), DecodeResult::Invalid);
    assert_eq!(decode(b"XECHO_SERVER:9000", sender), DecodeResult::Invalid);
    assert_eq!(decode(b"OTHER_THING:9000", sender), DecodeResult::Invalid);
}

#[test]
fn rejects_extra_fields() {
    let sender = addr(10, 0, 0, 1);
    assert_eq!(decode(b"ECHO_SERVER:9000:1", sender), DecodeResult::Invalid);
    assert_eq!(decode(b"ECHO_SERVER::9000", sender), DecodeResult::Invalid);
}

#[test]
fn rejects_non_numeric_port() {
    let sender = addr(10, 0, 0, 1);
    assert_eq!(decode(b"ECHO_SERVER:90a0", sender), DecodeResult::Invalid);
    assert_eq!(decode(b"ECHO_SERVER:-1", sender), DecodeResult::Invalid);
    assert_eq!(decode(b"ECHO_SERVER: 9000", sender), DecodeResult::Invalid);
    assert_eq!(decode(b"ECHO_SERVER:9000 ", sender), DecodeResult::Invalid);
}

#[test]
fn rejects_out_of_range_port() {
    let sender = addr(10, 0, 0, 1);
    assert_eq!(decode(b"ECHO_SERVER:0", sender), DecodeResult::Invalid);
    assert_eq!(decode(b"ECHO_SERVER:00", sender), DecodeResult::Invalid);
    assert_eq!(decode(b"ECHO_SERVER:65536", sender), DecodeResult::Invalid);
    assert_eq!(decode(b"ECHO_SERVER:70000", sender), DecodeResult::Invalid);
    assert_eq!(
        decode(b"ECHO_SERVER:999999999999999999999999", sender),
        DecodeResult::Invalid
    );
}

#[test]
fn host_comes_from_sender_not_payload() {
    let s1 = addr(192, 168, 0, 2);
    let s2 = addr(172, 16, 5, 9);
    let msg = encode(9000);
    assert_eq!(
        decode(&msg, s1),
        DecodeResult::Valid(Endpoint { host: s1, port: 9000 })
    );
    assert_eq!(
        decode(&msg, s2),
        DecodeResult::Valid(Endpoint { host: s2, port: 9000 })
    );
}
