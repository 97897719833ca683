use tcp_channel_client::writer::{After, Batch, WriterStep, MERGE_LIMIT};
use tcp_channel_client::State;

fn channel(commands: Vec<State>) -> async_channel::Receiver<State> {
    let (tx, rx) = async_channel::bounded::<State>(5000);
    for command in commands {
        assert!(tx.try_send(command).is_ok());
    }
    rx
}

/// Runs the writer on what the channel holds and records what it does. The operation with the
/// number `fails_at` fails.
fn run(rx: &mut async_channel::Receiver<State>, fails_at: Option<usize>) -> Vec<String> {
    let mut log = Vec::new();
    let mut step = WriterStep::Receive;
    loop {
        let ok = fails_at != Some(log.len());
        step = match step {
            WriterStep::Receive => WriterStep::received(rx.try_recv().ok(), rx),
            WriterStep::Write { data, next } => {
                log.push(format!("write {:?}", data));
                WriterStep::written(next, ok)
            }
            WriterStep::Flush => {
                log.push("flush".to_string());
                WriterStep::flushed(ok)
            }
            WriterStep::Shutdown => {
                log.push("shutdown".to_string());
                WriterStep::shut_down()
            }
            WriterStep::Stop => return log,
        };
    }
}

#[test]
fn commands_are_carried_out_in_order() {
    let mut rx = channel(vec![
        State::SendFlush(vec![1]),
        State::Flush,
        State::Send(vec![2, 3]),
        State::Flush,
        State::Disconnect,
    ]);
    assert_eq!(
        run(&mut rx, None),
        ["write [1]", "flush", "flush", "write [2, 3]", "flush", "shutdown"]
    );
}

#[test]
fn waiting_sends_are_merged_into_one_write() {
    let mut rx = channel(vec![
        State::Send(vec![1, 2]),
        State::Send(vec![]),
        State::Send(vec![3]),
        State::SendFlush(vec![4]),
        State::Send(vec![5]),
        State::Send(vec![6]),
    ]);
    assert_eq!(
        run(&mut rx, None),
        ["write [1, 2, 3]", "write [4]", "flush", "write [5, 6]"]
    );
}

#[test]
fn a_merged_write_ends_at_the_limit() {
    let mut rx = channel((0..MERGE_LIMIT + 2).map(|_| State::Send(vec![9])).collect());
    match WriterStep::received(rx.try_recv().ok(), &mut rx) {
        WriterStep::Write { data, next } => {
            assert_eq!(data.len(), MERGE_LIMIT);
            assert!(matches!(next, After::Receive));
        }
        other => panic!("expected a write, got {:?}", other),
    }
    assert_eq!(rx.len(), 2);
}

#[test]
fn nothing_is_carried_out_after_disconnect() {
    let mut rx = channel(vec![
        State::Send(vec![1]),
        State::Disconnect,
        State::Send(vec![2]),
    ]);
    assert_eq!(run(&mut rx, None), ["write [1]", "shutdown"]);
    assert_eq!(rx.len(), 1);
}

#[test]
fn the_writer_ends_with_a_failure() {
    let commands = || {
        vec![
            State::Send(vec![1]),
            State::SendFlush(vec![2]),
            State::Disconnect,
        ]
    };
    assert_eq!(run(&mut channel(commands()), Some(0)), ["write [1]"]);
    assert_eq!(
        run(&mut channel(commands()), Some(1)),
        ["write [1]", "write [2]"]
    );
    assert_eq!(
        run(&mut channel(commands()), Some(2)),
        ["write [1]", "write [2]", "flush"]
    );
    assert_eq!(
        run(&mut channel(commands()), Some(3)),
        ["write [1]", "write [2]", "flush", "shutdown"]
    );
}

#[test]
fn the_writer_ends_with_the_channel() {
    let mut rx = channel(vec![]);
    assert!(matches!(WriterStep::received(None, &mut rx), WriterStep::Stop));
}

#[test]
fn steps_follow_their_outcomes() {
    assert!(matches!(
        WriterStep::written(After::Receive, true),
        WriterStep::Receive
    ));
    assert!(matches!(
        WriterStep::written(After::Flush, true),
        WriterStep::Flush
    ));
    assert!(matches!(
        WriterStep::written(After::Flush, false),
        WriterStep::Stop
    ));
    assert!(matches!(
        WriterStep::written(After::Command(State::Disconnect), true),
        WriterStep::Shutdown
    ));
    assert!(matches!(WriterStep::flushed(true), WriterStep::Receive));
    assert!(matches!(WriterStep::flushed(false), WriterStep::Stop));
    assert!(matches!(WriterStep::shut_down(), WriterStep::Stop));
}

#[test]
fn a_batch_takes_sends_until_another_command() {
    let mut batch = Batch::new(vec![1]);
    assert!(batch.is_open());
    batch.join(State::Send(vec![2]));
    assert!(batch.is_open());
    batch.join(State::Flush);
    assert!(!batch.is_open());
    match batch.into_step() {
        WriterStep::Write { data, next } => {
            assert_eq!(data, [1, 2]);
            assert!(matches!(next, After::Command(State::Flush)));
        }
        other => panic!("expected a write, got {:?}", other),
    }
}

#[test]
fn no_command_is_lost_behind_a_merged_write() {
    for ending in 0..4 {
        let last = match ending {
            0 => State::Disconnect,
            1 => State::Flush,
            2 => State::SendFlush(vec![4]),
            _ => State::Send(vec![4]),
        };
        let mut rx = channel(vec![
            State::Send(vec![1]),
            State::Send(vec![2]),
            State::Send(vec![3]),
            last,
        ]);
        let expected = match ending {
            0 => vec!["write [1, 2, 3]", "shutdown"],
            1 => vec!["write [1, 2, 3]", "flush"],
            2 => vec!["write [1, 2, 3]", "write [4]", "flush"],
            _ => vec!["write [1, 2, 3, 4]"],
        };
        assert_eq!(run(&mut rx, None), expected);
    }
}

#[test]
fn queued_commands_are_carried_out_after_the_senders_are_gone() {
    let (tx, mut rx) = async_channel::bounded::<State>(4);
    assert!(tx.try_send(State::Send(vec![1])).is_ok());
    assert!(tx.try_send(State::SendFlush(vec![2])).is_ok());
    assert!(tx.try_send(State::Send(vec![3])).is_ok());
    drop(tx);
    assert_eq!(
        run(&mut rx, None),
        ["write [1]", "write [2]", "flush", "write [3]"]
    );
}

#[test]
fn a_send_flush_is_a_send_and_a_flush() {
    let mut joint = channel(vec![State::SendFlush(vec![1, 2])]);
    let mut apart = channel(vec![State::Send(vec![1, 2]), State::Flush]);
    assert_eq!(run(&mut joint, None), run(&mut apart, None));
    let mut empty = channel(vec![State::SendFlush(vec![])]);
    assert_eq!(run(&mut empty, None), ["write []", "flush"]);
}
