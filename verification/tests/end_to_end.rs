//! The whole protocol walked once on concrete values: broadcast, discovery,
//! connect, stream, and the reconnect after the subordinate source exits.

use echo_link::codec::{encode, Endpoint, HostAddr};
use echo_link::config::Config;
use echo_link::listener::{select_endpoint, Datagram};
use echo_link::stream::{session_output, LineReader};
use echo_link::supervisor::{Action, ConnState, Event, Supervisor};

#[test]
fn discover_connect_stream_then_reconnect() {
    // Both ends share one configuration: discovery on 9999, stream on 9000.
    let cfg = Config::new(9999, 9000, 2, 1).unwrap();
    assert_eq!(cfg.discovery_port, 9999);

    // The server broadcasts its streaming port every cycle.
    let broadcast = encode(cfg.stream_port);
    assert_eq!(broadcast, b"ECHO_SERVER:9000".to_vec());

    // The client hears noise first, then the broadcast; the endpoint pairs
    // the carried port with the datagram's sender address.
    let server_addr = HostAddr { o0: 192, o1: 168, o2: 1, o3: 20 };
    let noise_addr = HostAddr { o0: 192, o1: 168, o2: 1, o3: 99 };
    let datagrams = vec![
        Datagram { payload: b"something else".to_vec(), sender: noise_addr },
        Datagram { payload: broadcast.clone(), sender: server_addr },
        Datagram { payload: broadcast, sender: noise_addr },
    ];
    let found = select_endpoint(&datagrams).unwrap();
    assert_eq!(found, Endpoint { host: server_addr, port: 9000 });

    // The supervisor takes the endpoint and opens a session.
    let mut sup = Supervisor::new();
    assert_eq!(sup.step(Event::Discovered(found)), Action::AttemptConnect);
    assert_eq!(sup.step(Event::ConnectFailed), Action::BackoffRetry);
    assert_eq!(sup.step(Event::ConnectOk), Action::ReadSession);
    assert_eq!(sup.state, ConnState::Connected);

    // The server's subordinate source emits two records; the bridge frames
    // them; the client reads both back verbatim, in order.
    let produced = vec![b"{\"state\":\"open\"}".to_vec(), b"{\"state\":\"closed\"}".to_vec()];
    let wire = session_output(&produced);
    let mut reader = LineReader::new();
    let received = reader.push_bytes(&wire);
    assert_eq!(received, produced);
    assert!(reader.pending.is_empty());

    // The subordinate exits, the session closes, and the client goes back
    // to connecting against the same endpoint — it does not terminate.
    assert_eq!(sup.step(Event::SessionEnded), Action::AttemptConnect);
    assert_eq!(sup.state, ConnState::Connecting);
    assert_eq!(sup.endpoint, Some(found));
}
