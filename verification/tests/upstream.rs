use valhalla_size_viz::tiles::{Encoding, TileId};
use valhalla_size_viz::upstream::{EncodingMismatch, FetchError, FetchOutcome, TileReply};
use valhalla_size_viz::RatiClient;

fn client() -> RatiClient {
    RatiClient::new("http://localhost:8050".to_string())
}

fn tile() -> TileId {
    TileId {
        level: 2,
        id: 818660,
    }
}

fn reply(status: u16, content_encoding: Option<&str>, content_length: Option<u64>) -> TileReply {
    TileReply {
        status,
        content_encoding: content_encoding.map(|name| name.as_bytes().to_vec()),
        content_length,
    }
}

#[test]
fn fetch_200_returns_found_with_byte_count() {
    let request = client().request(tile(), Encoding::Zstd);
    assert_eq!(request.url, "http://localhost:8050/tiles/2/818/660.gph");
    assert_eq!(request.accept_encoding, "zstd");
    let fetch = request.read_reply(Ok(reply(200, Some("zstd"), Some(1234))));
    assert_eq!(fetch.outcome.unwrap(), FetchOutcome::Found(1234));
    assert_eq!(fetch.mismatch, None);
}

#[test]
fn fetch_404_returns_missing() {
    let request = client().request(tile(), Encoding::Gzip);
    let fetch = request.read_reply(Ok(reply(404, None, Some(0))));
    assert_eq!(fetch.outcome.unwrap(), FetchOutcome::Missing);
    assert_eq!(fetch.mismatch, None);
}

#[test]
fn fetch_500_returns_upstream_error_with_path() {
    let tile = TileId { level: 0, id: 529 };
    let request = client().request(tile, Encoding::Identity);
    let err = request
        .read_reply(Ok(reply(500, None, Some(0))))
        .outcome
        .unwrap_err();
    assert_eq!(
        err.message(),
        "upstream returned status 500 for 0/000/529.gph"
    );
    match err {
        FetchError::Upstream { status, path } => {
            assert_eq!(status, 500);
            assert_eq!(path, "0/000/529.gph");
        }
        other => panic!("expected Upstream, got {other:?}"),
    }
}

#[test]
fn fetch_encoding_mismatch_still_counts_bytes() {
    let request = client().request(tile(), Encoding::Zstd);
    let fetch = request.read_reply(Ok(reply(200, Some("gzip"), Some(777))));
    assert_eq!(fetch.outcome.unwrap(), FetchOutcome::Found(777));
    assert_eq!(
        fetch.mismatch,
        Some(EncodingMismatch {
            requested: "zstd",
            got: "gzip".to_string()
        })
    );
}

#[test]
fn fetch_identity_with_no_content_encoding_header_is_not_a_mismatch() {
    let tile = TileId { level: 0, id: 529 };
    let request = client().request(tile, Encoding::Identity);
    assert_eq!(request.accept_encoding, "identity");
    let fetch = request.read_reply(Ok(reply(200, None, Some(42))));
    assert_eq!(fetch.outcome.unwrap(), FetchOutcome::Found(42));
    assert_eq!(fetch.mismatch, None);
}

#[test]
fn no_content_encoding_header_is_a_mismatch_for_the_others() {
    for encoding in [Encoding::Gzip, Encoding::Zstd] {
        let fetch = client()
            .request(tile(), encoding)
            .read_reply(Ok(reply(200, None, Some(42))));
        assert_eq!(fetch.outcome.unwrap(), FetchOutcome::Found(42));
        assert_eq!(
            fetch.mismatch,
            Some(EncodingMismatch {
                requested: encoding.as_header_value(),
                got: "identity".to_string()
            })
        );
    }
}

#[test]
fn content_encoding_that_is_not_ascii_is_reported_as_such() {
    let mut reply = reply(200, None, Some(1));
    reply.content_encoding = Some(vec![b'g', 0xff]);
    let fetch = client().request(tile(), Encoding::Gzip).read_reply(Ok(reply));
    assert_eq!(fetch.mismatch.unwrap().got, "<non-ascii>");
}

#[test]
fn content_encoding_is_compared_as_it_is() {
    let fetch = client()
        .request(tile(), Encoding::Gzip)
        .read_reply(Ok(reply(200, Some("GZIP, br\t"), Some(1))));
    assert_eq!(fetch.mismatch.unwrap().got, "GZIP, br\t");
}

#[test]
fn base_url_trailing_slash_is_tolerated() {
    let tile = TileId { level: 0, id: 529 };
    for base_url in ["http://host", "http://host/", "http://host//"] {
        let request = RatiClient::new(base_url.to_string()).request(tile, Encoding::Identity);
        assert_eq!(request.url, "http://host/tiles/0/000/529.gph");
    }
    let request = RatiClient::new("http://host/".to_string()).request(tile, Encoding::Identity);
    let fetch = request.read_reply(Ok(reply(200, None, Some(3))));
    assert_eq!(fetch.outcome.unwrap(), FetchOutcome::Found(3));
}

#[test]
fn base_url_of_slashes_is_empty() {
    let tile = TileId { level: 0, id: 529 };
    let request = RatiClient::new("//".to_string()).request(tile, Encoding::Identity);
    assert_eq!(request.url, "/tiles/0/000/529.gph");
    let request = RatiClient::new("http://h\u{00e4}/a/b".to_string()).request(tile, Encoding::Zstd);
    assert_eq!(request.url, "http://h\u{00e4}/a/b/tiles/0/000/529.gph");
}

#[test]
fn fetch_200_without_content_length_returns_error() {
    let tile = TileId { level: 0, id: 529 };
    let request = client().request(tile, Encoding::Identity);
    let err = request
        .read_reply(Ok(reply(200, Some("identity"), None)))
        .outcome
        .unwrap_err();
    assert_eq!(
        err.message(),
        "upstream returned 200 OK without Content-Length for 0/000/529.gph"
    );
    match err {
        FetchError::MissingContentLength { path } => {
            assert_eq!(path, "0/000/529.gph");
        }
        other => panic!("expected MissingContentLength, got {other:?}"),
    }
}

#[test]
fn no_reply_is_a_network_error() {
    let request = client().request(tile(), Encoding::Zstd);
    let err = request
        .read_reply(Err("connection refused".to_string()))
        .outcome
        .unwrap_err();
    assert!(matches!(err, FetchError::Network(_)));
    assert_eq!(err.message(), "network error: connection refused");
}

#[test]
fn any_status_but_200_and_404_is_an_upstream_error() {
    for status in [100, 199, 201, 204, 206, 299, 300, 304, 403, 405, 500, 503] {
        let fetch = client()
            .request(tile(), Encoding::Zstd)
            .read_reply(Ok(reply(status, Some("gzip"), Some(10))));
        match fetch.outcome {
            Err(FetchError::Upstream { status: got, path }) => {
                assert_eq!(got, status);
                assert_eq!(path, "2/818/660.gph");
            }
            other => panic!("expected Upstream, got {other:?}"),
        }
        assert_eq!(fetch.mismatch, None);
    }
}

#[test]
fn partial_content_is_an_upstream_error() {
    let err = client()
        .request(tile(), Encoding::Identity)
        .read_reply(Ok(reply(206, None, Some(10))))
        .outcome
        .unwrap_err();
    assert_eq!(
        err.message(),
        "upstream returned status 206 for 2/818/660.gph"
    );
}
