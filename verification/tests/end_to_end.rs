use notifier::{connection_step, notify_response, ConnAction, ReadEvent};
use tokio::io::{AsyncReadExt, AsyncWriteExt};
use tokio::net::{UnixListener, UnixStream};

/// Drives one accepted connection exactly as the relay does: read, decide
/// with the library, act, write back, until the peer goes away. The external
/// notification action is stubbed as succeeding.
async fn handle_conn(mut stream: UnixStream) {
    let mut buf = vec![0u8; 1024];
    loop {
        let event = match stream.read(&mut buf).await {
            Ok(0) => ReadEvent::Closed,
            Ok(n) => ReadEvent::Data(buf[..n].to_vec()),
            Err(_) => ReadEvent::Failed,
        };
        match connection_step(event) {
            ConnAction::Stop { .. } => break,
            ConnAction::RunNotify { .. } => {
                tokio::time::sleep(std::time::Duration::from_millis(50)).await;
                let r = notify_response(true);
                if stream.write_all(&r).await.is_err() {
                    break;
                }
            },
            ConnAction::Reply { bytes, .. } => {
                if stream.write_all(&bytes).await.is_err() {
                    break;
                }
            },
        }
    }
}

/// Binds the relay's socket the way its listener does: remove a stale entry,
/// make sure the directory exists, bind.
async fn bind_fresh(path: &str) -> UnixListener {
    let _ = tokio::fs::remove_file(path).await;
    if let Some(parent) = std::path::Path::new(path).parent() {
        tokio::fs::create_dir_all(parent).await.unwrap();
    }
    UnixListener::bind(path).unwrap()
}

async fn accept_some(listener: UnixListener, conns: usize) {
    for _ in 0..conns {
        let (stream, _) = listener.accept().await.unwrap();
        tokio::spawn(handle_conn(stream));
    }
}

#[test]
fn unknown_command_round_trip() {
    let rt = tokio::runtime::Builder::new_multi_thread().enable_all().build().unwrap();
    rt.block_on(async {
        let path = "/tmp/notifier_test_unknown.sock";
        let listener = bind_fresh(path).await;
        tokio::spawn(accept_some(listener, 1));
        let mut client = UnixStream::connect(path).await.unwrap();
        client
            .write_all(b"{\"cmd\":\"UNKNOWN_X\",\"title\":\"t\",\"message\":\"m\"}")
            .await
            .unwrap();
        let mut buf = vec![0u8; 1024];
        let n = client.read(&mut buf).await.unwrap();
        assert_eq!(&buf[..n], b"Unknown command: UNKNOWN_X");
    });
}

#[test]
fn malformed_bytes_round_trip() {
    let rt = tokio::runtime::Builder::new_multi_thread().enable_all().build().unwrap();
    rt.block_on(async {
        let path = "/tmp/notifier_test_malformed.sock";
        let listener = bind_fresh(path).await;
        tokio::spawn(accept_some(listener, 1));
        let mut client = UnixStream::connect(path).await.unwrap();
        client.write_all(b"not json").await.unwrap();
        let mut buf = vec![0u8; 1024];
        let n = client.read(&mut buf).await.unwrap();
        let text = String::from_utf8(buf[..n].to_vec()).unwrap();
        assert!(text.starts_with("Error: Invalid command format - "));
        // the connection stayed open: a valid request on it still gets served
        client
            .write_all(b"{\"cmd\":\"NOTIFY\",\"title\":\"t\",\"message\":\"m\"}")
            .await
            .unwrap();
        let n = client.read(&mut buf).await.unwrap();
        assert_eq!(&buf[..n], b"Ok");
    });
}

#[test]
fn clean_close_gets_no_response() {
    let rt = tokio::runtime::Builder::new_multi_thread().enable_all().build().unwrap();
    rt.block_on(async {
        let path = "/tmp/notifier_test_close.sock";
        let listener = bind_fresh(path).await;
        tokio::spawn(accept_some(listener, 1));
        let mut client = UnixStream::connect(path).await.unwrap();
        client.shutdown().await.unwrap();
        let mut buf = vec![0u8; 1024];
        let n = client.read(&mut buf).await.unwrap();
        assert_eq!(n, 0, "the handler must close without writing anything");
    });
}

#[test]
fn concurrent_notify_connections_do_not_block_each_other() {
    let rt = tokio::runtime::Builder::new_multi_thread().enable_all().build().unwrap();
    rt.block_on(async {
        let path = "/tmp/notifier_test_concurrent.sock";
        let listener = bind_fresh(path).await;
        tokio::spawn(accept_some(listener, 2));
        let mut a = UnixStream::connect(path).await.unwrap();
        let mut b = UnixStream::connect(path).await.unwrap();
        let req: &[u8] = b"{\"cmd\":\"NOTIFY\",\"title\":\"t\",\"message\":\"m\"}";
        // send on both before reading either; each answer arrives on its own
        a.write_all(req).await.unwrap();
        b.write_all(req).await.unwrap();
        let mut buf_b = vec![0u8; 1024];
        let n = b.read(&mut buf_b).await.unwrap();
        assert_eq!(&buf_b[..n], b"Ok");
        let mut buf_a = vec![0u8; 1024];
        let n = a.read(&mut buf_a).await.unwrap();
        assert_eq!(&buf_a[..n], b"Ok");
    });
}

#[test]
fn stale_socket_file_is_replaced_at_startup() {
    let rt = tokio::runtime::Builder::new_multi_thread().enable_all().build().unwrap();
    rt.block_on(async {
        let path = "/tmp/notifier_test_stale.sock";
        let _ = tokio::fs::remove_file(path).await;
        tokio::fs::write(path, b"stale").await.unwrap();
        let listener = bind_fresh(path).await;
        tokio::spawn(accept_some(listener, 1));
        let mut client = UnixStream::connect(path).await.unwrap();
        client
            .write_all(b"{\"cmd\":\"UNKNOWN_X\",\"title\":\"t\",\"message\":\"m\"}")
            .await
            .unwrap();
        let mut buf = vec![0u8; 1024];
        let n = client.read(&mut buf).await.unwrap();
        assert_eq!(&buf[..n], b"Unknown command: UNKNOWN_X");
    });
}
