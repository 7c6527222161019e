use valhalla_size_viz::api::{
    fan_out, plan_batch, BatchError, BatchPlan, Fetched, TileRef, TileSize, TileSizesRequest,
    TileSizesResponse, MAX_BATCH_SIZE,
};
use valhalla_size_viz::cache::CacheKey;
use valhalla_size_viz::tiles::{Encoding, TileIdError};
use valhalla_size_viz::upstream::{FetchError, FetchOutcome, TileReply};
use valhalla_size_viz::{RatiClient, SizeCache, REQUEST_BODY_LIMIT};

fn new_cache() -> SizeCache {
    SizeCache::new()
}

fn request(encoding: Encoding, tiles: &[(u8, u32)]) -> TileSizesRequest {
    TileSizesRequest {
        encoding,
        tiles: tiles
            .iter()
            .map(|&(level, id)| TileRef { level, id })
            .collect(),
    }
}

/// Asks a server that replies with the given status and length per path, and 404 for
/// any other path.
fn fetch(plan: &BatchPlan, server: &[(&str, u16, u64)]) -> Vec<Fetched> {
    let rati = RatiClient::new("http://rati".to_string());
    plan.misses
        .iter()
        .map(|&(index, tile)| {
            let request = rati.request(tile, plan.encoding);
            let known = server
                .iter()
                .find(|(path, _, _)| request.url == format!("http://rati{path}"));
            let (status, length) = known.map_or((404, 0), |&(_, status, length)| (status, length));
            let reply = TileReply {
                status,
                content_encoding: None,
                content_length: Some(length),
            };
            Fetched {
                index,
                tile,
                outcome: request.read_reply(Ok(reply)).outcome,
            }
        })
        .collect()
}

fn call(
    cache: &mut SizeCache,
    req: &TileSizesRequest,
    server: &[(&str, u16, u64)],
) -> Result<TileSizesResponse, BatchError> {
    let plan = plan_batch(req, cache)?;
    let fetched = fetch(&plan, server);
    assert!(plan.is_answered_by(&fetched));
    Ok(plan.complete(cache, fetched))
}

#[test]
fn empty_batch_returns_empty_sizes() {
    let response = call(&mut new_cache(), &request(Encoding::Zstd, &[]), &[]).unwrap();
    assert_eq!(
        response,
        TileSizesResponse {
            encoding: "zstd",
            sizes: vec![]
        }
    );
}

#[test]
fn cache_hit_short_circuits_upstream() {
    let mut cache = new_cache();
    cache.insert(
        CacheKey {
            level: 2,
            tile_id: 818660,
            encoding: Encoding::Zstd,
        },
        Some(2435),
    );
    let plan = plan_batch(&request(Encoding::Zstd, &[(2, 818660)]), &cache).unwrap();
    assert!(plan.misses.is_empty());
    let response = plan.complete(&mut cache, vec![]);
    assert_eq!(
        response,
        TileSizesResponse {
            encoding: "zstd",
            sizes: vec![TileSize {
                level: 2,
                id: 818660,
                bytes: Some(2435),
                cached: true,
                missing: false,
                error: None,
            }]
        }
    );
}

#[test]
fn mixed_cached_and_uncached_preserves_order() {
    let mut cache = new_cache();
    cache.insert(
        CacheKey {
            level: 0,
            tile_id: 529,
            encoding: Encoding::Identity,
        },
        Some(100),
    );
    let req = request(Encoding::Identity, &[(0, 529), (2, 818660), (1, 51234)]);
    let server = [
        ("/tiles/2/818/660.gph", 200, 2435),
        ("/tiles/1/051/234.gph", 200, 999),
    ];
    let response = call(&mut cache, &req, &server).unwrap();
    assert_eq!(response.encoding, "identity");
    let sizes = response.sizes;
    assert_eq!(sizes.len(), 3);
    assert_eq!(sizes[0].level, 0);
    assert_eq!(sizes[0].id, 529);
    assert_eq!(sizes[0].bytes, Some(100));
    assert_eq!(sizes[0].cached, true);
    assert_eq!(sizes[0].missing, false);
    assert_eq!(sizes[1].level, 2);
    assert_eq!(sizes[1].id, 818660);
    assert_eq!(sizes[1].bytes, Some(2435));
    assert_eq!(sizes[1].cached, false);
    assert_eq!(sizes[1].missing, false);
    assert_eq!(sizes[2].level, 1);
    assert_eq!(sizes[2].id, 51234);
    assert_eq!(sizes[2].bytes, Some(999));
    assert_eq!(sizes[2].cached, false);
    assert_eq!(sizes[2].missing, false);
}

#[test]
fn missing_tile_propagates_as_null_bytes() {
    let mut cache = new_cache();
    let req = request(Encoding::Zstd, &[(2, 818660)]);
    let server = [("/tiles/2/818/660.gph", 404, 0)];
    let sizes = call(&mut cache, &req, &server).unwrap().sizes;
    assert_eq!(sizes[0].bytes, None);
    assert_eq!(sizes[0].missing, true);
    assert_eq!(sizes[0].cached, false);

    assert_eq!(
        cache.get(&CacheKey {
            level: 2,
            tile_id: 818660,
            encoding: Encoding::Zstd,
        }),
        Some(None)
    );
    let again = call(&mut cache, &req, &[]).unwrap().sizes;
    assert_eq!(again[0].bytes, None);
    assert_eq!(again[0].missing, true);
    assert_eq!(again[0].cached, true);
}

#[test]
fn oversized_batch_rejected_with_400() {
    let req = TileSizesRequest {
        encoding: Encoding::Zstd,
        tiles: (0..(MAX_BATCH_SIZE + 1))
            .map(|i| TileRef {
                level: 2,
                id: i as u32,
            })
            .collect(),
    };
    let err = plan_batch(&req, &new_cache()).unwrap_err();
    assert_eq!(err, BatchError::TooLarge { len: 20_001 });
    assert_eq!(err.status(), 400);
    assert_eq!(err.message(), "batch size 20001 exceeds maximum 20000");
}

#[test]
fn largest_batch_is_accepted() {
    let req = TileSizesRequest {
        encoding: Encoding::Zstd,
        tiles: (0..MAX_BATCH_SIZE)
            .map(|i| TileRef {
                level: 2,
                id: i as u32,
            })
            .collect(),
    };
    let plan = plan_batch(&req, &new_cache()).unwrap();
    assert_eq!(plan.misses.len(), MAX_BATCH_SIZE);
}

#[test]
fn oversized_batch_is_refused_before_its_tiles_are_looked_at() {
    let req = TileSizesRequest {
        encoding: Encoding::Zstd,
        tiles: (0..(MAX_BATCH_SIZE + 1))
            .map(|_| TileRef { level: 9, id: 0 })
            .collect(),
    };
    let err = plan_batch(&req, &new_cache()).unwrap_err();
    assert_eq!(err, BatchError::TooLarge { len: 20_001 });
}

#[test]
fn invalid_tile_rejected_with_400() {
    let err = plan_batch(&request(Encoding::Zstd, &[(99, 0)]), &new_cache()).unwrap_err();
    assert_eq!(err.status(), 400);
    assert_eq!(
        err.message(),
        "invalid tile at index 0: invalid level 99, expected 0, 1, or 2"
    );
}

#[test]
fn invalid_tile_id_out_of_range_rejected() {
    let err = plan_batch(&request(Encoding::Zstd, &[(0, 99999)]), &new_cache()).unwrap_err();
    assert_eq!(err.status(), 400);
    assert_eq!(
        err.message(),
        "invalid tile at index 0: tile id 99999 out of range for level 0 (max 4049)"
    );
}

#[test]
fn first_invalid_tile_is_reported() {
    let req = request(Encoding::Gzip, &[(0, 1), (1, 64_800), (7, 0)]);
    let err = plan_batch(&req, &new_cache()).unwrap_err();
    assert_eq!(
        err,
        BatchError::InvalidTile {
            index: 1,
            error: TileIdError::IdOutOfRange {
                level: 1,
                id: 64_800,
                max: 64_799
            }
        }
    );
}

#[test]
fn upstream_5xx_returns_per_tile_error_without_poisoning_cache() {
    let mut cache = new_cache();
    let req = request(Encoding::Zstd, &[(0, 529), (2, 818660)]);
    let server = [
        ("/tiles/0/000/529.gph", 200, 7),
        ("/tiles/2/818/660.gph", 500, 0),
    ];
    let sizes = call(&mut cache, &req, &server).unwrap().sizes;
    assert_eq!(sizes.len(), 2);
    assert_eq!(sizes[0].bytes, Some(7));
    assert_eq!(sizes[0].missing, false);
    assert!(sizes[0].error.is_none());
    assert_eq!(sizes[1].bytes, None);
    assert_eq!(sizes[1].missing, false);
    assert_eq!(
        sizes[1].error.as_deref(),
        Some("upstream returned status 500 for 2/818/660.gph")
    );

    // the cache holds the tile that was found...
    assert_eq!(
        cache.get(&CacheKey {
            level: 0,
            tile_id: 529,
            encoding: Encoding::Zstd,
        }),
        Some(Some(7))
    );
    // ...but not the one that failed
    assert!(cache
        .get(&CacheKey {
            level: 2,
            tile_id: 818660,
            encoding: Encoding::Zstd,
        })
        .is_none());
    let again = plan_batch(&req, &cache).unwrap();
    assert_eq!(again.misses.len(), 1);
    assert_eq!(again.misses[0].0, 1);
}

#[test]
fn concurrent_fetches_preserve_input_order_under_delays() {
    const N: u32 = 30;
    const BASE_ID: u32 = 100_000;
    let tiles: Vec<(u8, u32)> = (0..N).map(|i| (2, BASE_ID + i)).collect();
    let mut cache = new_cache();
    let plan = plan_batch(&request(Encoding::Zstd, &tiles), &cache).unwrap();
    // the first tile of the request is the last to arrive
    let fetched: Vec<Fetched> = plan
        .misses
        .iter()
        .rev()
        .map(|&(index, tile)| Fetched {
            index,
            tile,
            outcome: Ok(FetchOutcome::Found(tile.id as u64)),
        })
        .collect();
    assert!(plan.is_answered_by(&fetched));
    let sizes = plan.complete(&mut cache, fetched).sizes;
    assert_eq!(sizes.len(), N as usize);
    for (i, item) in sizes.iter().enumerate() {
        assert_eq!(item.level, 2);
        assert_eq!(item.id, BASE_ID + i as u32);
        assert_eq!(item.bytes, Some((BASE_ID + i as u32) as u64));
    }
}

#[test]
fn repeated_batch_is_answered_from_the_cache() {
    let mut cache = new_cache();
    let req = request(Encoding::Gzip, &[(0, 1), (0, 2), (0, 1)]);
    let server = [("/tiles/0/000/001.gph", 200, 11)];
    let first = call(&mut cache, &req, &server).unwrap().sizes;
    let plan = plan_batch(&req, &cache).unwrap();
    assert!(plan.misses.is_empty());
    let second = plan.complete(&mut cache, vec![]).sizes;
    for (a, b) in first.iter().zip(second.iter()) {
        assert_eq!((a.level, a.id, a.bytes, a.missing), (b.level, b.id, b.bytes, b.missing));
        assert!(!a.cached && b.cached);
    }
    assert_eq!(cache.len(), 2);
}

#[test]
fn other_encodings_stay_uncached() {
    let mut cache = new_cache();
    let server = [("/tiles/0/000/001.gph", 200, 11)];
    call(&mut cache, &request(Encoding::Gzip, &[(0, 1)]), &server).unwrap();
    let plan = plan_batch(&request(Encoding::Zstd, &[(0, 1)]), &cache).unwrap();
    assert_eq!(plan.misses.len(), 1);
}

#[test]
fn network_error_is_the_tile_s_error() {
    let mut cache = new_cache();
    let plan = plan_batch(&request(Encoding::Gzip, &[(0, 1)]), &cache).unwrap();
    let (index, tile) = plan.misses[0];
    let fetched = vec![Fetched {
        index,
        tile,
        outcome: Err(FetchError::Network("timed out".to_string())),
    }];
    let sizes = plan.complete(&mut cache, fetched).sizes;
    assert_eq!(sizes[0].error.as_deref(), Some("network error: timed out"));
    assert_eq!(cache.len(), 0);
}

#[test]
fn incomplete_answers_are_noticed() {
    let cache = new_cache();
    let plan = plan_batch(&request(Encoding::Gzip, &[(0, 1), (0, 2)]), &cache).unwrap();
    let mut fetched = fetch(&plan, &[]);
    assert!(plan.is_answered_by(&fetched));
    let last = fetched.pop().unwrap();
    assert!(!plan.is_answered_by(&fetched));
    fetched.push(Fetched { index: 2, ..last });
    assert!(!plan.is_answered_by(&fetched));
}

#[test]
fn fan_out_is_bounded_by_permits_and_misses() {
    assert_eq!(fan_out(32, 100), 32);
    assert_eq!(fan_out(32, 5), 5);
    assert_eq!(fan_out(0, 5), 1);
    assert_eq!(fan_out(32, 0), 1);
    assert_eq!(fan_out(0, 0), 1);
}

#[test]
fn largest_batch_fits_in_a_request_body() {
    let tile = "{\"level\":2,\"id\":1036799},";
    assert_eq!(tile.len(), 25);
    assert!(MAX_BATCH_SIZE * tile.len() < REQUEST_BODY_LIMIT);
}
