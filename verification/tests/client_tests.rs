use web3_rpc::client::HttpClient;
use web3_rpc::error::Web3Error;
use web3_rpc::limit::{check_size_hint, BoundedBuf};
use web3_rpc::race::{settle, NetOutcome};
use web3_rpc::recorder::Recorder;

#[test]
fn ids_are_strictly_increasing_without_gaps() {
    let mut client = HttpClient::new("https://example.invalid/rpc");
    let mut ids = Vec::new();
    for _ in 0..100 {
        ids.push(client.next_id());
    }
    for (k, id) in ids.iter().enumerate() {
        assert_eq!(*id, k as u64 + 1);
    }
    let mut sorted = ids.clone();
    sorted.sort();
    sorted.dedup();
    assert_eq!(sorted, ids);
}

#[test]
fn client_keeps_url() {
    let client = HttpClient::new("https://example.invalid/rpc");
    assert_eq!(client.url(), "https://example.invalid/rpc");
}

#[test]
fn start_call_builds_envelope_and_consumes_id() {
    let mut client = HttpClient::new("https://example.invalid/rpc");
    let (id, payload) = client.start_call(b"eth_blockNumber", b"[]").unwrap();
    assert_eq!(id, 1);
    assert_eq!(
        payload,
        b"{\"id\":1,\"jsonrpc\":\"2.0\",\"method\":\"eth_blockNumber\",\"params\":[]}".to_vec()
    );
    let r = client.start_call(b"eth_blockNumber", b"broken");
    assert!(matches!(r, Err(Web3Error::EncodeError(_))));
    let (id, _) = client.start_call(b"eth_blockNumber", b"[]").unwrap();
    assert_eq!(id, 3, "a rejected call still consumes an id");
}

#[test]
fn network_result_wins_a_tied_race() {
    let r = settle(NetOutcome::Ready(b"{}".to_vec()), true);
    assert_eq!(r.unwrap(), b"{}".to_vec());
}

#[test]
fn transport_failure_is_not_a_timeout() {
    let r = settle(NetOutcome::Failed("connection refused".to_string()), false);
    match r {
        Err(Web3Error::TransportError(t)) => assert_eq!(t, "connection refused"),
        _ => panic!("expected a transport error"),
    }
}

#[test]
fn pending_exchange_times_out() {
    let r = settle(NetOutcome::Pending, true);
    assert!(matches!(r, Err(Web3Error::RequestTimedOut)));
}

#[test]
fn timeout_fires_within_bounded_margin() {
    let rt = tokio::runtime::Builder::new_current_thread().enable_time().build().unwrap();
    let started = std::time::Instant::now();
    let raced = rt.block_on(async {
        tokio::time::timeout(
            std::time::Duration::from_millis(50),
            std::future::pending::<Vec<u8>>(),
        )
        .await
    });
    let outcome = match raced {
        Ok(bytes) => settle(NetOutcome::Ready(bytes), false),
        Err(_elapsed) => settle(NetOutcome::Pending, true),
    };
    assert!(matches!(outcome, Err(Web3Error::RequestTimedOut)));
    let elapsed = started.elapsed();
    assert!(elapsed >= std::time::Duration::from_millis(50));
    assert!(
        elapsed < std::time::Duration::from_millis(5000),
        "a never-completing exchange must not block indefinitely"
    );
}

#[test]
fn oversized_advertised_response_is_rejected_early() {
    let r = check_size_hint(2048, 1024);
    match r {
        Err(Web3Error::ResponseTooLarge { limit, got }) => {
            assert_eq!(limit, 1024);
            assert_eq!(got, 2048);
        },
        _ => panic!("expected a size-ceiling rejection"),
    }
    assert!(check_size_hint(1024, 1024).is_ok());
    assert!(check_size_hint(0, 1024).is_ok());
}

// The advertised-size check above is only a best-effort guard: a server that
// omits size hints is not caught by it. The ceiling is therefore also
// enforced incrementally during accumulation, which this test pins down.
#[test]
fn bounded_buffer_accumulates_until_the_ceiling() {
    let mut buf = BoundedBuf::new(8);
    buf.push_chunk(b"abcd").unwrap();
    buf.push_chunk(b"efgh").unwrap();
    let r = buf.push_chunk(b"i");
    match r {
        Err(Web3Error::ResponseTooLarge { limit, got }) => {
            assert_eq!(limit, 8);
            assert_eq!(got, 9);
        },
        _ => panic!("expected a size-ceiling rejection"),
    }
    assert_eq!(buf.into_bytes(), b"abcdefgh".to_vec());
}

#[test]
fn recorder_pairs_request_and_response() {
    let mut rec = Recorder::new();
    let seq = rec.record_request(b"{\"id\":1}");
    assert_eq!(seq, 0);
    rec.record_response(seq, b"{\"result\":null}\n");
    assert_eq!(rec.request_for(seq).unwrap(), b"{\"id\":1}".to_vec());
    assert_eq!(
        rec.response_for(seq).unwrap(),
        b"{\"result\":null}".to_vec(),
        "one trailing newline is trimmed"
    );
}

#[test]
fn recorder_tolerates_unmatched_request() {
    let mut rec = Recorder::new();
    let first = rec.record_request(b"first");
    let second = rec.record_request(b"second");
    assert_eq!((first, second), (0, 1));
    rec.record_response(second, b"late reply");
    assert!(rec.response_for(first).is_none(), "an unmatched request is an incomplete pair");
    assert_eq!(rec.request_for(first).unwrap(), b"first".to_vec());
    assert_eq!(rec.response_for(second).unwrap(), b"late reply".to_vec());
}

#[test]
fn recorder_lookup_of_unknown_sequence_is_none() {
    let rec = Recorder::new();
    assert!(rec.request_for(0).is_none());
    assert!(rec.response_for(0).is_none());
}
