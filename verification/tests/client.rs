use tcp_channel_client::channel::{Offered, CHANNEL_CAPACITY};
use tcp_channel_client::client::{
    begin_disconnect, check_phase, delivered, settle_at_once, settle_disconnect, settle_or_wait,
    DisconnectStep, Progress,
};
use tcp_channel_client::error::Error;
use tcp_channel_client::phase::{CONNECTED, DISCONNECTED, DISCONNECTING};
use tcp_channel_client::{State, TcpClient};
use tokio::net::TcpStream;

/// A client with a channel that holds one command, and the receiving end, which keeps the channel
/// open for as long as it lives.
fn test_client(disconnected: bool) -> (TcpClient<TcpStream>, async_channel::Receiver<State>) {
    let (tx, rx) = async_channel::bounded::<State>(1);
    let client = TcpClient::from_parts(disconnected, tx, "0.0.0.0:0".to_string());
    (client, rx)
}

fn send_error<T>(result: Result<T, Error>) -> String {
    match result {
        Err(Error::SendError(msg)) => msg,
        Err(other) => panic!("expected Err(Error::SendError(...)), got {:?}", other),
        Ok(_) => panic!("expected Err(Error::SendError(...)), got Ok"),
    }
}

#[test]
fn check_disconnected_returns_ok_when_connected() {
    let (client, _rx) = test_client(false);
    assert!(client.check_disconnected().is_ok());
}

#[test]
fn check_disconnected_returns_err_when_disconnected() {
    let (client, _rx) = test_client(true);
    match client.check_disconnected() {
        Err(Error::SendError(msg)) => assert!(
            msg.contains("Disconnect"),
            "expected msg containing 'Disconnect', got: {}",
            msg
        ),
        other => panic!("expected Err(Error::SendError(...)), got {:?}", other),
    }
}

#[test]
fn check_disconnected_names_the_peer() {
    let (client, _rx) = test_client(true);
    assert_eq!(
        send_error(client.check_disconnected()),
        "Disconnect (peer: 0.0.0.0:0)"
    );
}

#[test]
fn try_send_empty_buffer_succeeds() {
    let (client, _rx) = test_client(false);
    assert!(client.try_send(vec![]).is_ok());
}

#[test]
fn try_send_empty_buffer_fails_when_disconnected() {
    let (client, _rx) = test_client(true);
    assert!(client.try_send(vec![]).is_err());
}

#[test]
fn try_send_fails_when_channel_full() {
    let (client, _rx) = test_client(false);
    assert!(client.try_send(vec![1, 2, 3]).is_ok());
    match client.try_send(vec![4, 5, 6]) {
        Err(Error::SendError(msg)) => assert!(msg.contains("channel full")),
        other => panic!(
            "expected Err(Error::SendError) with 'channel full', got {:?}",
            other
        ),
    }
}

#[test]
fn try_send_puts_the_data_on_the_channel() {
    let (client, rx) = test_client(false);
    client.try_send(vec![1, 2, 3]).unwrap();
    assert!(matches!(rx.try_recv(), Ok(State::Send(data)) if data == [1, 2, 3]));
    assert!(rx.try_recv().is_err());
}

#[test]
fn try_send_fails_when_channel_closed() {
    let (client, rx) = test_client(false);
    drop(rx);
    assert_eq!(send_error(client.try_send(vec![1])), "channel closed");
}

#[test]
fn calls_put_their_commands_on_the_channel() {
    let (client, rx) = test_client(false);
    assert!(matches!(client.send(vec![7]), Ok(Progress::Done)));
    assert!(matches!(rx.try_recv(), Ok(State::Send(data)) if data == [7]));
    assert!(matches!(client.send_all(vec![8]), Ok(Progress::Done)));
    assert!(matches!(rx.try_recv(), Ok(State::SendFlush(data)) if data == [8]));
    assert!(matches!(client.flush(), Ok(Progress::Done)));
    assert!(matches!(rx.try_recv(), Ok(State::Flush)));
}

#[test]
fn calls_wait_with_their_commands_when_channel_full() {
    let (client, _rx) = test_client(false);
    client.try_send(vec![1]).unwrap();
    assert!(matches!(client.send(vec![7]), Ok(Progress::Wait(State::Send(data))) if data == [7]));
    assert!(
        matches!(client.send_all(vec![8]), Ok(Progress::Wait(State::SendFlush(data))) if data == [8])
    );
    assert!(matches!(client.flush(), Ok(Progress::Wait(State::Flush))));
}

#[test]
fn calls_fail_when_channel_closed() {
    let (client, rx) = test_client(false);
    drop(rx);
    assert_eq!(send_error(client.send(vec![7])), "channel closed");
    assert_eq!(send_error(client.send_all(vec![8])), "channel closed");
    assert_eq!(send_error(client.flush()), "channel closed");
}

#[test]
fn calls_are_refused_when_disconnected() {
    let (client, rx) = test_client(true);
    let refusal = "Disconnect (peer: 0.0.0.0:0)";
    assert_eq!(send_error(client.try_send(vec![6])), refusal);
    assert_eq!(send_error(client.send(vec![7])), refusal);
    assert_eq!(send_error(client.send_all(vec![8])), refusal);
    assert_eq!(send_error(client.flush()), refusal);
    assert!(rx.try_recv().is_err());
}

#[test]
fn disconnect_is_sent_once() {
    let (client, rx) = test_client(false);
    match client.disconnect() {
        DisconnectStep::Wait(command) => {
            let outcome = client.sender().send_blocking(command);
            assert!(client.finish_disconnect(outcome).is_ok());
        }
        other => panic!("the client was connected, got {:?}", other),
    }
    assert!(matches!(rx.try_recv(), Ok(State::Disconnect)));
    assert!(matches!(client.disconnect(), DisconnectStep::Done));
    assert!(rx.try_recv().is_err());
    assert!(client.try_send(vec![1]).is_err());
}

#[test]
fn disconnect_that_fails_leaves_the_client_connected() {
    let (client, rx) = test_client(false);
    drop(rx);
    match client.disconnect() {
        DisconnectStep::Wait(command) => {
            let outcome = client.sender().send_blocking(command);
            match client.finish_disconnect(outcome) {
                Err(Error::AsyncChannelError(text)) => {
                    assert_eq!(text, "sending into a closed channel")
                }
                other => panic!("expected Err(Error::AsyncChannelError(...)), got {:?}", other),
            }
        }
        other => panic!("the client was connected, got {:?}", other),
    }
    assert!(client.check_disconnected().is_ok());
}

#[test]
fn init_makes_a_connected_client_with_room() {
    let (client, rx) = TcpClient::<TcpStream>::init("10.0.0.1:80".to_string());
    assert_eq!(CHANNEL_CAPACITY, 4096);
    assert_eq!(client.sender().capacity(), Some(4096));
    assert!(client.check_disconnected().is_ok());
    for _ in 0..4096 {
        client.try_send(vec![0]).unwrap();
    }
    assert_eq!(send_error(client.try_send(vec![0])), "channel full");
    assert!(matches!(rx.try_recv(), Ok(State::Send(data)) if data == [0]));
    assert!(client.try_send(vec![0]).is_ok());
}

#[test]
fn phase_decides() {
    assert!(check_phase(false, "a:1").is_ok());
    assert_eq!(send_error(check_phase(true, "a:1")), "Disconnect (peer: a:1)");
    assert!(matches!(
        begin_disconnect(Ok(CONNECTED)),
        DisconnectStep::Wait(State::Disconnect)
    ));
    assert!(matches!(
        begin_disconnect(Err(DISCONNECTING)),
        DisconnectStep::Busy
    ));
    assert!(matches!(
        begin_disconnect(Err(DISCONNECTED)),
        DisconnectStep::Done
    ));
}

#[test]
fn channel_decides() {
    assert!(settle_at_once(Offered::Accepted).is_ok());
    assert_eq!(
        send_error(settle_at_once(Offered::Full(State::Flush))),
        "channel full"
    );
    assert_eq!(
        send_error(settle_at_once(Offered::Closed(State::Flush))),
        "channel closed"
    );
    assert!(matches!(
        settle_or_wait(Offered::Accepted),
        Ok(Progress::Done)
    ));
    assert!(matches!(
        settle_or_wait(Offered::Full(State::Flush)),
        Ok(Progress::Wait(State::Flush))
    ));
    assert_eq!(
        send_error(settle_or_wait(Offered::Closed(State::Flush))),
        "channel closed"
    );
    assert!(delivered(Ok(())).is_ok());
    match delivered(Err(async_channel::SendError(State::Flush))) {
        Err(Error::AsyncChannelError(text)) => assert_eq!(text, "sending into a closed channel"),
        other => panic!("expected Err(Error::AsyncChannelError(...)), got {:?}", other),
    }
}

#[test]
fn disconnect_ends_by_what_the_channel_says() {
    assert!(matches!(settle_disconnect(Ok(())), (true, Ok(()))));
    assert!(matches!(
        settle_disconnect(Err(async_channel::SendError(State::Disconnect))),
        (false, Err(Error::AsyncChannelError(_)))
    ));
}

#[test]
fn only_one_of_several_disconnects_sends() {
    let (client, rx) = test_client(false);
    let first = client.disconnect();
    assert!(matches!(first, DisconnectStep::Wait(State::Disconnect)));
    // The first has not been sent yet: the others wait for it, and calls are still let through.
    assert!(matches!(client.disconnect(), DisconnectStep::Busy));
    assert!(client.check_disconnected().is_ok());
    if let DisconnectStep::Wait(command) = first {
        let outcome = client.sender().send_blocking(command);
        client.finish_disconnect(outcome).unwrap();
    }
    assert!(matches!(client.disconnect(), DisconnectStep::Done));
    assert!(client.check_disconnected().is_err());
    assert!(matches!(rx.try_recv(), Ok(State::Disconnect)));
    assert!(rx.try_recv().is_err());
}

#[test]
fn a_disconnect_that_fails_can_be_tried_again() {
    let (client, _rx) = test_client(false);
    assert!(matches!(client.disconnect(), DisconnectStep::Wait(_)));
    assert!(matches!(client.disconnect(), DisconnectStep::Busy));
    let outcome = Err(async_channel::SendError(State::Disconnect));
    assert!(client.finish_disconnect(outcome).is_err());
    assert!(client.check_disconnected().is_ok());
    assert!(matches!(client.disconnect(), DisconnectStep::Wait(_)));
}

#[test]
fn a_disconnect_that_is_done_leaves_calls_refused() {
    let (client, rx) = test_client(false);
    if let DisconnectStep::Wait(command) = client.disconnect() {
        let outcome = client.sender().send_blocking(command);
        client.finish_disconnect(outcome).unwrap();
    }
    drop(rx);
    // Done at once, also where the channel is closed by now.
    assert!(matches!(client.disconnect(), DisconnectStep::Done));
    let refusal = "Disconnect (peer: 0.0.0.0:0)";
    for _ in 0..3 {
        assert_eq!(send_error(client.try_send(vec![1])), refusal);
        assert_eq!(send_error(client.send(vec![1])), refusal);
        assert_eq!(send_error(client.send_all(vec![1])), refusal);
        assert_eq!(send_error(client.flush()), refusal);
    }
}
