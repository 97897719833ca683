use tcp_channel_client::connect::{io_result, with_peer, with_stream, within_timeout};
use tcp_channel_client::error::Error;
use tcp_channel_client::reader::need_disconnect;

#[test]
fn a_reader_decides_whether_to_disconnect() {
    assert!(need_disconnect(&Ok(true)));
    assert!(!need_disconnect(&Ok(false)));
    assert!(need_disconnect(&Err(anyhow::Error::msg(
        "simulated reader error"
    ))));
}

#[test]
fn a_timeout_is_an_io_error() {
    match within_timeout::<u8>(None) {
        Err(Error::IOError(error)) => {
            assert_eq!(error.kind(), std::io::ErrorKind::TimedOut);
            assert_eq!(error.to_string(), "connection timed out");
        }
        other => panic!("expected Err(Error::IOError(...)), got {:?}", other),
    }
}

#[test]
fn an_attempt_in_time_keeps_its_result() {
    assert!(matches!(within_timeout(Some(Ok(3))), Ok(3)));
    let refused = std::io::Error::from(std::io::ErrorKind::ConnectionRefused);
    match within_timeout::<u8>(Some(Err(refused))) {
        Err(Error::IOError(error)) => {
            assert_eq!(error.kind(), std::io::ErrorKind::ConnectionRefused)
        }
        other => panic!("expected Err(Error::IOError(...)), got {:?}", other),
    }
}

#[test]
fn errors_convert() {
    let io = std::io::Error::from(std::io::ErrorKind::NotFound);
    assert!(matches!(Error::from(io), Error::IOError(e) if e.kind() == std::io::ErrorKind::NotFound));
    match Error::from(anyhow::Error::msg("no handshake")) {
        Error::Error(error) => assert_eq!(error.to_string(), "no handshake"),
        other => panic!("expected Error::Error(...), got {:?}", other),
    }
}

#[test]
fn stages_keep_their_results() {
    assert!(matches!(io_result(Ok(5)), Ok(5)));
    let refused = std::io::Error::from(std::io::ErrorKind::ConnectionRefused);
    assert!(matches!(
        io_result::<u8>(Err(refused)),
        Err(Error::IOError(e)) if e.kind() == std::io::ErrorKind::ConnectionRefused
    ));
    assert!(matches!(with_peer("tcp", Ok(80)), Ok(("tcp", 80))));
    let unnamed = std::io::Error::from(std::io::ErrorKind::NotConnected);
    assert!(matches!(
        with_peer::<_, u16>("tcp", Err(unnamed)),
        Err(Error::IOError(e)) if e.kind() == std::io::ErrorKind::NotConnected
    ));
    assert!(matches!(with_stream(80, Ok("tls")), Ok(("tls", 80))));
    assert!(matches!(
        with_stream::<_, u8>(80, Err(anyhow::Error::msg("no handshake"))),
        Err(Error::Error(e)) if e.to_string() == "no handshake"
    ));
}
