use std::future::Future;
use std::sync::Arc;
use std::time::Duration;
use tcp_channel_client::client::{delivered, DisconnectStep, Progress};
use tcp_channel_client::connect::within_timeout;
use tcp_channel_client::error::Error;
use tcp_channel_client::reader::need_disconnect;
use tcp_channel_client::writer::WriterStep;
use tcp_channel_client::{Result, State, TcpClient};
use tokio::io::{AsyncReadExt, AsyncWriteExt, DuplexStream, ReadHalf, WriteHalf};
use tokio::net::TcpStream;

type Client = TcpClient<DuplexStream>;

fn block_on<T>(future: impl Future<Output = T>) -> T {
    tokio::runtime::Builder::new_multi_thread()
        .worker_threads(2)
        .enable_all()
        .build()
        .unwrap()
        .block_on(future)
}

/// Opens an in-memory connection to a peer that writes back what it reads.
fn connect_to_echo() -> DuplexStream {
    let (near, far) = tokio::io::duplex(64);
    tokio::spawn(async move {
        let (mut reader, mut writer) = tokio::io::split(far);
        let _ = tokio::io::copy(&mut reader, &mut writer).await;
    });
    near
}

async fn write_commands(mut rx: async_channel::Receiver<State>, mut half: WriteHalf<DuplexStream>) {
    let mut step = WriterStep::Receive;
    loop {
        step = match step {
            WriterStep::Receive => WriterStep::received(rx.recv().await.ok(), &mut rx),
            WriterStep::Write { data, next } => {
                WriterStep::written(next, half.write_all(&data).await.is_ok())
            }
            WriterStep::Flush => WriterStep::flushed(half.flush().await.is_ok()),
            WriterStep::Shutdown => {
                let _ = half.shutdown().await;
                WriterStep::shut_down()
            }
            WriterStep::Stop => return,
        };
    }
}

async fn finish(client: &Client, progress: Progress) -> Result<()> {
    match progress {
        Progress::Done => Ok(()),
        Progress::Wait(command) => delivered(client.sender().send(command).await),
    }
}

async fn disconnect(client: &Client) -> Result<()> {
    loop {
        match client.disconnect() {
            DisconnectStep::Done => return Ok(()),
            DisconnectStep::Busy => tokio::task::yield_now().await,
            DisconnectStep::Wait(command) => {
                return client.finish_disconnect(client.sender().send(command).await)
            }
        }
    }
}

/// Opens a connection and starts its reader and writer tasks.
fn connect<Fut>(
    reader: impl FnOnce(ReadHalf<DuplexStream>) -> Fut + Send + 'static,
) -> Arc<Client>
where
    Fut: Future<Output = anyhow::Result<bool>> + Send + 'static,
{
    let (read_half, write_half) = tokio::io::split(connect_to_echo());
    let (client, rx) = Client::init("echo:7".to_string());
    let client = Arc::new(client);
    let reading = client.clone();
    tokio::spawn(async move {
        if need_disconnect(&reader(read_half).await) {
            disconnect(&reading).await.unwrap();
        }
    });
    tokio::spawn(write_commands(rx, write_half));
    client
}

fn assert_shareable<T: Send + Sync>(_: &T) {}

#[test]
fn send_empty_buffer_succeeds() {
    block_on(async {
        let (tx, rx) = async_channel::bounded::<State>(1);
        let client: Client = TcpClient::from_parts(false, tx, "0.0.0.0:0".to_string());
        let rx = Arc::new(rx);

        // Fill the channel, so that the call has to wait.
        client.try_send(vec![1]).unwrap();

        let rx2 = rx.clone();
        let drain = tokio::spawn(async move {
            let _ = rx2.recv().await;
        });

        let result = match client.send(vec![]) {
            Ok(progress) => finish(&client, progress).await,
            Err(error) => Err(error),
        };
        assert!(result.is_ok(), "send_empty_buffer: got {:?}", result);

        drain.await.unwrap();
        drop(rx);
    });
}

#[test]
fn disconnect_is_idempotent() {
    block_on(async {
        let client = connect(|mut reader| async move {
            let mut buf = [0u8; 64];
            let _ = reader.read(&mut buf).await;
            Ok(false)
        });

        assert!(disconnect(&client).await.is_ok());
        assert!(disconnect(&client).await.is_ok());
        assert!(client.try_send(vec![1]).is_err());
    });
}

#[test]
fn connect_timeout_expires() {
    block_on(async {
        let attempt = tokio::time::timeout(
            Duration::from_millis(100),
            TcpStream::connect("203.0.113.1:12345"),
        )
        .await;
        let result = within_timeout(attempt.ok());
        assert!(result.is_err(), "expected connect_timeout to fail");
    });
}

#[test]
fn an_attempt_that_never_ends_times_out() {
    block_on(async {
        let endless = std::future::pending::<std::io::Result<u8>>();
        let attempt = tokio::time::timeout(Duration::from_millis(10), endless).await;
        match within_timeout(attempt.ok()) {
            Err(Error::IOError(error)) => assert_eq!(error.kind(), std::io::ErrorKind::TimedOut),
            other => panic!("expected Err(Error::IOError(...)), got {:?}", other),
        }
    });
}

#[test]
fn echo_send_and_receive() {
    block_on(async {
        let (tx, mut rx) = tokio::sync::mpsc::channel::<Vec<u8>>(1);
        let client = connect(move |mut reader| async move {
            let mut buf = [0u8; 1024];
            loop {
                match reader.read(&mut buf).await {
                    Ok(0) => break,
                    Ok(n) => {
                        let _ = tx.send(buf[..n].to_vec()).await;
                    }
                    Err(_) => break,
                }
            }
            Ok(false)
        });
        assert_shareable(&client);

        let progress = client.send_all(b"hello echo".to_vec()).unwrap();
        finish(&client, progress).await.unwrap();
        let echoed = rx.recv().await.unwrap();
        assert_eq!(echoed, b"hello echo");

        disconnect(&client).await.unwrap();
    });
}

#[test]
fn send_all_empty_buffer() {
    block_on(async {
        let (tx, mut rx) = tokio::sync::mpsc::channel::<usize>(1);
        let client = connect(move |mut reader| async move {
            let mut buf = [0u8; 1024];
            let n = reader.read(&mut buf).await.unwrap_or(0);
            let _ = tx.send(n).await;
            Ok(false)
        });

        // Nothing goes over the wire for an empty buffer.
        let progress = client.send_all(vec![]).unwrap();
        finish(&client, progress).await.unwrap();
        let progress = client.send_all(b"ping".to_vec()).unwrap();
        finish(&client, progress).await.unwrap();

        let n = rx.recv().await.unwrap();
        assert_eq!(n, 4);

        disconnect(&client).await.unwrap();
    });
}

#[test]
fn write_after_disconnect_fails() {
    block_on(async {
        let client = connect(|mut reader| async move {
            let mut buf = [0u8; 64];
            let _ = reader.read(&mut buf).await;
            Ok(false)
        });

        disconnect(&client).await.unwrap();
        assert!(client.try_send(b"after disconnect".to_vec()).is_err());
    });
}

#[test]
fn reader_error_triggers_disconnect() {
    block_on(async {
        let client = connect(|mut reader| async move {
            let _ = reader.read(&mut [0u8; 1]).await;
            Err(anyhow::Error::msg("simulated reader error"))
        });

        let progress = client.send_all(b"x".to_vec()).unwrap();
        finish(&client, progress).await.unwrap();

        tokio::time::sleep(Duration::from_millis(100)).await;
        assert!(client.try_send(b"post-error".to_vec()).is_err());
    });
}

#[test]
fn multi_client_concurrent_send() {
    block_on(async {
        let handles: Vec<_> = (0..4)
            .map(|i| {
                tokio::spawn(async move {
                    let (tx, mut rx) = tokio::sync::mpsc::channel::<Vec<u8>>(1);
                    let client = connect(move |mut reader| async move {
                        let mut buf = [0u8; 256];
                        loop {
                            match reader.read(&mut buf).await {
                                Ok(0) => break,
                                Ok(n) => {
                                    let _ = tx.send(buf[..n].to_vec()).await;
                                }
                                Err(_) => break,
                            }
                        }
                        Ok(false)
                    });

                    let msg = format!("client-{}", i);
                    let progress = client.send_all(msg.clone().into_bytes()).unwrap();
                    finish(&client, progress).await.unwrap();
                    let echoed = rx.recv().await.unwrap();
                    disconnect(&client).await.unwrap();
                    (msg.into_bytes(), echoed)
                })
            })
            .collect();

        for h in handles {
            let (sent, received) = h.await.unwrap();
            assert_eq!(sent, received);
        }
    });
}

#[test]
fn bytes_arrive_in_the_order_of_the_calls() {
    block_on(async {
        let (tx, mut rx) = tokio::sync::mpsc::channel::<Vec<u8>>(1);
        let client = connect(move |mut reader| async move {
            let mut all = Vec::new();
            let _ = reader.read_to_end(&mut all).await;
            let _ = tx.send(all).await;
            Ok(false)
        });

        let mut expected = Vec::new();
        for i in 0..200u8 {
            let data = vec![i, i.wrapping_mul(3), 7];
            expected.extend_from_slice(&data);
            let progress = match i % 5 {
                4 => client.send_all(data).unwrap(),
                _ => client.send(data).unwrap(),
            };
            finish(&client, progress).await.unwrap();
        }
        let progress = client.flush().unwrap();
        finish(&client, progress).await.unwrap();
        disconnect(&client).await.unwrap();

        assert_eq!(rx.recv().await.unwrap(), expected);
    });
}

#[test]
fn concurrent_sends_stand_together() {
    block_on(async {
        let (tx, mut rx) = tokio::sync::mpsc::channel::<Vec<u8>>(1);
        let client = connect(move |mut reader| async move {
            let mut all = Vec::new();
            let _ = reader.read_to_end(&mut all).await;
            let _ = tx.send(all).await;
            Ok(false)
        });

        let tasks: Vec<_> = (0..4u8)
            .map(|task| {
                let client = client.clone();
                tokio::spawn(async move {
                    for turn in 0..50u8 {
                        let progress = client.send(vec![task, turn, 0, task, turn]).unwrap();
                        finish(&client, progress).await.unwrap();
                    }
                })
            })
            .collect();
        for task in tasks {
            task.await.unwrap();
        }
        let both = (disconnect(&client).await, disconnect(&client).await);
        assert!(both.0.is_ok() && both.1.is_ok());

        let all = rx.recv().await.unwrap();
        assert_eq!(all.len(), 4 * 50 * 5);
        let mut turns = [0u8; 4];
        for data in all.chunks(5) {
            let task = data[0];
            let turn = turns[usize::from(task)];
            assert_eq!(data, [task, turn, 0, task, turn]);
            turns[usize::from(task)] += 1;
        }
        assert_eq!(turns, [50; 4]);
    });
}

#[test]
fn concurrent_disconnects_send_one_command() {
    block_on(async {
        let (tx, rx) = async_channel::bounded::<State>(1);
        let client: Arc<Client> =
            Arc::new(TcpClient::from_parts(false, tx, "0.0.0.0:0".to_string()));
        // Fill the channel, so that the one that sends has to wait.
        client.try_send(vec![1]).unwrap();

        let tasks: Vec<_> = (0..4)
            .map(|_| {
                let client = client.clone();
                tokio::spawn(async move {
                    disconnect(&client).await.unwrap();
                    assert!(client.try_send(vec![2]).is_err());
                })
            })
            .collect();
        tokio::time::sleep(Duration::from_millis(10)).await;
        assert!(client.check_disconnected().is_ok());

        assert!(matches!(rx.recv().await, Ok(State::Send(data)) if data == [1]));
        for task in tasks {
            task.await.unwrap();
        }
        assert!(matches!(rx.recv().await, Ok(State::Disconnect)));
        assert!(rx.try_recv().is_err());
    });
}
