//! The batch endpoint: which tiles of a request are answered from the cache, which
//! have to be fetched, and how the answers come together again.

use vstd::prelude::*;

use crate::cache;
use crate::cache::{CacheKey, SizeCache};
use crate::laws;
use crate::text;
use crate::text::decimal_text;
use crate::tiles::{Encoding, TileId, TileIdError};
use crate::upstream::{FetchError, FetchOutcome};

verus! {

/// The largest number of tiles in a request. Selections of a whole country are in the
/// low thousands on level 2, so this is a comfortable ceiling that keeps runaway
/// fetches out. Nothing else depends on its value.
pub const MAX_BATCH_SIZE: usize = 20_000;

/// A tile as a request names it.
#[derive(Debug)]
pub struct TileRef {
    pub level: u8,
    pub id: u32,
}

/// A request for the sizes of some tiles in one encoding.
#[derive(Debug)]
pub struct TileSizesRequest {
    pub encoding: Encoding,
    pub tiles: Vec<TileRef>,
}

/// The answer for one tile: its size in `bytes`, or that it is `missing`, or the
/// `error` that kept its size unknown.
#[derive(Debug, PartialEq, Eq)]
pub struct TileSize {
    pub level: u8,
    pub id: u32,
    pub bytes: Option<u64>,
    /// The answer comes from the cache.
    pub cached: bool,
    pub missing: bool,
    pub error: Option<String>,
}

/// The answers for a request, in the order of its tiles.
#[derive(Debug, PartialEq, Eq)]
pub struct TileSizesResponse {
    pub encoding: &'static str,
    pub sizes: Vec<TileSize>,
}

/// A `TileSize` with the characters of its error.
pub struct TileSizeView {
    pub level: u8,
    pub id: u32,
    pub bytes: Option<u64>,
    pub cached: bool,
    pub missing: bool,
    pub error: Option<Seq<char>>,
}

impl View for TileSize {
    type V = TileSizeView;

    open spec fn view(&self) -> TileSizeView {
        TileSizeView {
            level: self.level,
            id: self.id,
            bytes: self.bytes,
            cached: self.cached,
            missing: self.missing,
            error: match self.error {
                Some(e) => Some(e@),
                None => None,
            },
        }
    }
}

impl TileRef {
    pub open spec fn spec_tile(self) -> TileId {
        TileId { level: self.level, id: self.id }
    }

    /// The tile that is named.
    pub fn tile(&self) -> (tile: TileId)
        ensures
            tile == self.spec_tile(),
            tile.level == self.level,
            tile.id == self.id,
    {
        TileId { level: self.level, id: self.id }
    }
}

/// Why a request is refused as a whole.
#[derive(Debug, PartialEq, Eq)]
pub enum BatchError {
    /// It names more than `MAX_BATCH_SIZE` tiles.
    TooLarge { len: usize },
    /// It names something that is no tile, first at `index`.
    InvalidTile { index: usize, error: TileIdError },
}

impl BatchError {
    /// The text of the error.
    pub open spec fn text(self) -> Seq<char> {
        match self {
            BatchError::TooLarge { len } => "batch size "@ + text::decimal(len as nat)
                + " exceeds maximum "@ + text::decimal(MAX_BATCH_SIZE as nat),
            BatchError::InvalidTile { index, error } => "invalid tile at index "@ + text::decimal(
                index as nat,
            ) + ": "@ + error.text(),
        }
    }

    /// The text of the error.
    pub fn message(&self) -> (text: String)
        ensures
            text@ == self.text(),
            self matches BatchError::TooLarge { len } ==> text@ == "batch size "@ + text::decimal(
                *len as nat,
            ) + " exceeds maximum "@ + text::decimal(20_000),
            self matches BatchError::InvalidTile { index, error } ==> text@
                == "invalid tile at index "@ + text::decimal(*index as nat) + ": "@ + error.text(),
    {
        let mut text = String::new();
        match self {
            BatchError::TooLarge { len } => {
                text.append("batch size ");
                text.append(decimal_text(*len as u64).as_str());
                text.append(" exceeds maximum ");
                text.append(decimal_text(MAX_BATCH_SIZE as u64).as_str());
            },
            BatchError::InvalidTile { index, error } => {
                text.append("invalid tile at index ");
                text.append(decimal_text(*index as u64).as_str());
                text.append(": ");
                text.append(error.message().as_str());
            },
        }
        assert(text@ =~= self.text());
        text
    }

    /// The HTTP status of the refusal: 400, as every refusal is the request's fault.
    pub fn status(&self) -> (status: u16)
        ensures
            status == 400,
    {
        400
    }
}

/// What the text of each refusal says.
pub proof fn lemma_batch_error_texts(len: usize, index: usize, error: TileIdError)
    ensures
        (BatchError::TooLarge { len }).text() == "batch size "@ + text::decimal(len as nat)
            + " exceeds maximum "@ + text::decimal(20_000),
        (BatchError::InvalidTile { index, error }).text() == "invalid tile at index "@
            + text::decimal(index as nat) + ": "@ + error.text(),
{
}

/// What the size of a tile is cached under.
pub open spec fn spec_cache_key(encoding: Encoding, tile: TileId) -> CacheKey {
    CacheKey { level: tile.level, tile_id: tile.id, encoding }
}

fn cache_key(encoding: Encoding, tile: TileId) -> (key: CacheKey)
    ensures
        key == spec_cache_key(encoding, tile),
        key.level == tile.level,
        key.tile_id == tile.id,
        key.encoding == encoding,
{
    CacheKey { level: tile.level, tile_id: tile.id, encoding }
}

/// The answer for a tile of which `bytes` is cached.
pub open spec fn answer_cached(tile: TileId, bytes: Option<u64>) -> TileSizeView {
    TileSizeView {
        level: tile.level,
        id: tile.id,
        bytes,
        cached: true,
        missing: bytes is None,
        error: None,
    }
}

/// The answer for a tile that was fetched.
pub open spec fn answer_fetched(
    tile: TileId,
    outcome: Result<FetchOutcome, FetchError>,
) -> TileSizeView {
    TileSizeView {
        level: tile.level,
        id: tile.id,
        bytes: match outcome {
            Ok(FetchOutcome::Found(bytes)) => Some(bytes),
            _ => None,
        },
        cached: false,
        missing: outcome == Ok::<FetchOutcome, FetchError>(FetchOutcome::Missing),
        error: match outcome {
            Ok(_) => None,
            Err(e) => Some(e.text()),
        },
    }
}

/// The answers that a cache has for some tiles, `None` where it has none.
pub open spec fn answers_from(
    sizes: Map<CacheKey, Option<u64>>,
    encoding: Encoding,
    tiles: Seq<TileRef>,
) -> Seq<Option<TileSizeView>> {
    Seq::new(
        tiles.len(),
        |i: int|
            match cache::lookup(sizes, spec_cache_key(encoding, tiles[i].spec_tile())) {
                Some(bytes) => Some(answer_cached(tiles[i].spec_tile(), bytes)),
                None => None,
            },
    )
}

/// The tiles that a cache has no answer for, each with its place in the request, in
/// the order of the request.
pub open spec fn misses_of(
    sizes: Map<CacheKey, Option<u64>>,
    encoding: Encoding,
    tiles: Seq<TileRef>,
) -> Seq<(usize, TileId)>
    decreases tiles.len(),
{
    if tiles.len() == 0 {
        Seq::empty()
    } else {
        let before = misses_of(sizes, encoding, tiles.drop_last());
        let tile = tiles.last().spec_tile();
        if cache::lookup(sizes, spec_cache_key(encoding, tile)) is None {
            before.push(((tiles.len() - 1) as usize, tile))
        } else {
            before
        }
    }
}

/// The characters of the errors of some answers.
pub open spec fn answer_views(results: Seq<Option<TileSize>>) -> Seq<Option<TileSizeView>> {
    results.map_values(
        |r: Option<TileSize>|
            match r {
                Some(size) => Some(size@),
                None => None,
            },
    )
}

/// A request that was accepted: the answers that the cache had, and what is left to
/// fetch.
#[derive(Debug)]
pub struct BatchPlan {
    pub encoding: Encoding,
    /// An answer for each tile, or `None` where it has to be fetched.
    pub results: Vec<Option<TileSize>>,
    /// The tiles to fetch, each with its place in the request.
    pub misses: Vec<(usize, TileId)>,
}

/// Every tile that a request names is valid.
pub open spec fn all_valid(tiles: Seq<TileRef>) -> bool {
    forall|i: int| 0 <= i < tiles.len() ==> (#[trigger] tiles[i]).spec_tile().valid()
}

/// Checks a request and answers what the cache can answer of it.
///
/// A request is refused if it is too large or else if it names something that is no
/// tile. The first such index is reported.
pub fn plan_batch(req: &TileSizesRequest, cache: &SizeCache) -> (plan: Result<
    BatchPlan,
    BatchError,
>)
    ensures
        plan is Ok <==> req.tiles@.len() <= MAX_BATCH_SIZE && all_valid(req.tiles@),
        match plan {
            Ok(plan) => {
                &&& plan.encoding == req.encoding
                &&& answer_views(plan.results@) == answers_from(
                    cache@,
                    req.encoding,
                    req.tiles@,
                )
                &&& plan.misses@ == misses_of(cache@, req.encoding, req.tiles@)
            },
            Err(BatchError::TooLarge { len }) => {
                &&& req.tiles@.len() > MAX_BATCH_SIZE
                &&& len == req.tiles@.len()
            },
            Err(BatchError::InvalidTile { index, error }) => {
                &&& index < req.tiles@.len() <= MAX_BATCH_SIZE
                &&& all_valid(req.tiles@.take(index as int))
                &&& req.tiles@[index as int].spec_tile().error() == Some(error)
            },
        },
        plan is Ok <==> req.tiles@.len() <= 20_000 && forall|i: int|
            #![trigger req.tiles@[i]]
            0 <= i < req.tiles@.len() ==> {
                ||| req.tiles@[i].level == 0 && req.tiles@[i].id < 90 * 45
                ||| req.tiles@[i].level == 1 && req.tiles@[i].id < 360 * 180
                ||| req.tiles@[i].level == 2 && req.tiles@[i].id < 1440 * 720
            },
        plan matches Err(BatchError::InvalidTile { index, error }) ==> {
            &&& forall|i: int|
                #![trigger req.tiles@[i]]
                0 <= i < index ==> {
                    ||| req.tiles@[i].level == 0 && req.tiles@[i].id < 90 * 45
                    ||| req.tiles@[i].level == 1 && req.tiles@[i].id < 360 * 180
                    ||| req.tiles@[i].level == 2 && req.tiles@[i].id < 1440 * 720
                }
            &&& match error {
                TileIdError::InvalidLevel { level } => level == req.tiles@[index as int].level
                    && level > 2,
                TileIdError::IdOutOfRange { level, id, max } => {
                    &&& level == req.tiles@[index as int].level
                    &&& id == req.tiles@[index as int].id
                    &&& id > max
                    &&& {
                        ||| level == 0 && max == 90 * 45 - 1
                        ||| level == 1 && max == 360 * 180 - 1
                        ||| level == 2 && max == 1440 * 720 - 1
                    }
                },
            }
        },
        plan matches Ok(p) ==> {
            &&& p.results@.len() == req.tiles@.len()
            &&& forall|i: int|
                #![trigger p.results@[i]]
                0 <= i < req.tiles@.len() ==> {
                    let key = (CacheKey {
                        level: req.tiles@[i].level,
                        tile_id: req.tiles@[i].id,
                        encoding: req.encoding,
                    });
                    &&& p.results@[i] is Some <==> cache@.contains_key(key)
                    &&& p.results@[i] matches Some(s) ==> {
                        &&& s.level == req.tiles@[i].level
                        &&& s.id == req.tiles@[i].id
                        &&& s.bytes == cache@[key]
                        &&& s.cached
                        &&& s.missing <==> cache@[key] is None
                        &&& s.error is None
                    }
                    &&& p.results@[i] is None ==> exists|j: int|
                        0 <= j < p.misses@.len() && (#[trigger] p.misses@[j]).0 == i
                }
            &&& forall|j: int|
                #![trigger p.misses@[j]]
                0 <= j < p.misses@.len() ==> {
                    &&& p.misses@[j].0 < req.tiles@.len()
                    &&& p.misses@[j].1.level == req.tiles@[p.misses@[j].0 as int].level
                    &&& p.misses@[j].1.id == req.tiles@[p.misses@[j].0 as int].id
                    &&& p.results@[p.misses@[j].0 as int] is None
                }
            &&& forall|j: int, k: int|
                0 <= j < k < p.misses@.len() ==> (#[trigger] p.misses@[j]).0 < (
                #[trigger] p.misses@[k]).0
        },
{
    let n: usize = req.tiles.len();
    if n > MAX_BATCH_SIZE {
        return Err(BatchError::TooLarge { len: n });
    }
    let encoding = req.encoding;
    let mut results: Vec<Option<TileSize>> = Vec::new();
    let mut misses: Vec<(usize, TileId)> = Vec::new();
    let mut index: usize = 0;
    assert(answer_views(results@) =~= answers_from(cache@, encoding, req.tiles@.take(0)));
    while index < n
        invariant
            index <= n,
            n == req.tiles@.len(),
            n <= MAX_BATCH_SIZE,
            encoding == req.encoding,
            results@.len() == index,
            all_valid(req.tiles@.take(index as int)),
            answer_views(results@) == answers_from(cache@, encoding, req.tiles@.take(index as int)),
            misses@ == misses_of(cache@, encoding, req.tiles@.take(index as int)),
        decreases n - index,
    {
        let ghost seen = req.tiles@.take(index as int + 1);
        assert(seen.drop_last() =~= req.tiles@.take(index as int));
        let ghost before = results@;
        let tile = req.tiles[index].tile();
        if let Err(error) = tile.validate() {
            assert(!req.tiles@[index as int].spec_tile().valid());
            assert forall|i: int| 0 <= i < index implies (
            #[trigger] req.tiles@[i]).spec_tile().valid() by {
                assert(req.tiles@.take(index as int)[i].spec_tile().valid());
            }
            return Err(BatchError::InvalidTile { index, error });
        }
        match cache.get(&cache_key(encoding, tile)) {
            Some(bytes) => {
                results.push(
                    Some(
                        TileSize {
                            level: tile.level,
                            id: tile.id,
                            bytes,
                            cached: true,
                            missing: bytes.is_none(),
                            error: None,
                        },
                    ),
                );
            },
            None => {
                results.push(None);
                misses.push((index, tile));
            },
        }
        assert(answer_views(results@) =~= answers_from(cache@, encoding, seen)) by {
            assert forall|i: int| 0 <= i < seen.len() implies answer_views(results@)[i]
                == answers_from(cache@, encoding, seen)[i] by {
                if i < index {
                    assert(answer_views(before)[i] == answers_from(
                        cache@,
                        encoding,
                        req.tiles@.take(index as int),
                    )[i]);
                    assert(results@[i] == before[i]);
                    assert(seen[i] == req.tiles@.take(index as int)[i]);
                }
            }
        }
        assert(all_valid(seen)) by {
            assert forall|i: int| 0 <= i < seen.len() implies (
            #[trigger] seen[i]).spec_tile().valid() by {
                if i < index {
                    assert(req.tiles@.take(index as int)[i].spec_tile().valid());
                }
            }
        }
        index += 1;
    }
    assert(req.tiles@.take(n as int) =~= req.tiles@);
    proof {
        let answers = answers_from(cache@, encoding, req.tiles@);
        laws::lemma_misses_are_the_uncached(cache@, encoding, req.tiles@);
        assert forall|i: int| 0 <= i < n implies {
            let key = CacheKey {
                level: req.tiles@[i].level,
                tile_id: req.tiles@[i].id,
                encoding: req.encoding,
            };
            &&& #[trigger] results@[i] is Some <==> cache@.contains_key(key)
            &&& results@[i] matches Some(s) ==> {
                &&& s.level == req.tiles@[i].level
                &&& s.id == req.tiles@[i].id
                &&& s.bytes == cache@[key]
                &&& s.cached
                &&& s.missing <==> cache@[key] is None
                &&& s.error is None
            }
            &&& results@[i] is None ==> exists|j: int|
                0 <= j < misses@.len() && (#[trigger] misses@[j]).0 == i
        } by {
            let tile = req.tiles@[i].spec_tile();
            laws::lemma_cached_entries_are_the_answers(cache@, encoding, req.tiles@, i);
            assert(answer_views(results@)[i] == answers[i]);
            if results@[i] is None {
                assert(misses@.contains((i as usize, tile)));
                let j = choose|j: int| 0 <= j < misses@.len() && misses@[j] == (i as usize, tile);
                assert(misses@[j].0 == i);
            }
        }
        assert forall|j: int| 0 <= j < misses@.len() implies {
            &&& (#[trigger] misses@[j]).0 < n
            &&& misses@[j].1.level == req.tiles@[misses@[j].0 as int].level
            &&& misses@[j].1.id == req.tiles@[misses@[j].0 as int].id
            &&& results@[misses@[j].0 as int] is None
        } by {
            assert(misses@.contains((misses@[j].0, misses@[j].1)));
        }
    }
    Ok(BatchPlan { encoding, results, misses })
}

/// How many fetches of one request are under way at a time: as many as there are
/// permits now or tiles to fetch, whichever is fewer, and at least one.
pub fn fan_out(available_permits: usize, misses: usize) -> (n: usize)
    ensures
        n == vstd::math::min(
            vstd::math::max(available_permits as int, 1),
            vstd::math::max(misses as int, 1),
        ),
{
    let permits: usize = if available_permits > 1 {
        available_permits
    } else {
        1
    };
    let wanted: usize = if misses > 1 {
        misses
    } else {
        1
    };
    if permits < wanted {
        permits
    } else {
        wanted
    }
}

/// What came of fetching a tile, with the place of the tile in the request.
#[derive(Debug)]
pub struct Fetched {
    pub index: usize,
    pub tile: TileId,
    pub outcome: Result<FetchOutcome, FetchError>,
}

/// The answers after those for the fetched tiles were put in their places, one after
/// the other.
pub open spec fn filled(
    answers: Seq<Option<TileSizeView>>,
    fetched: Seq<Fetched>,
) -> Seq<Option<TileSizeView>>
    decreases fetched.len(),
{
    if fetched.len() == 0 {
        answers
    } else {
        let last = fetched.last();
        filled(answers, fetched.drop_last()).update(
            last.index as int,
            Some(answer_fetched(last.tile, last.outcome)),
        )
    }
}

/// The cache after a fetch: what the server said is remembered, also that there is no
/// such tile, and a failure is not.
pub open spec fn remembered_one(
    sizes: Map<CacheKey, Option<u64>>,
    encoding: Encoding,
    fetched: Fetched,
) -> Map<CacheKey, Option<u64>> {
    match fetched.outcome {
        Ok(FetchOutcome::Found(bytes)) => sizes.insert(
            spec_cache_key(encoding, fetched.tile),
            Some(bytes),
        ),
        Ok(FetchOutcome::Missing) => sizes.insert(spec_cache_key(encoding, fetched.tile), None),
        Err(_) => sizes,
    }
}

/// The cache after some fetches, one after the other.
pub open spec fn remembered(
    sizes: Map<CacheKey, Option<u64>>,
    encoding: Encoding,
    fetched: Seq<Fetched>,
) -> Map<CacheKey, Option<u64>>
    decreases fetched.len(),
{
    if fetched.len() == 0 {
        sizes
    } else {
        remembered_one(
            remembered(sizes, encoding, fetched.drop_last()),
            encoding,
            fetched.last(),
        )
    }
}

/// A tile of the batch was fetched for the given place.
pub open spec fn is_fetched(fetched: Seq<Fetched>, index: int) -> bool {
    exists|k: int| 0 <= k < fetched.len() && (#[trigger] fetched[k]).index == index
}

/// The answer for a tile that was fetched.
fn answer(tile: TileId, outcome: &Result<FetchOutcome, FetchError>) -> (size: TileSize)
    ensures
        size@ == answer_fetched(tile, *outcome),
        size.level == tile.level,
        size.id == tile.id,
        !size.cached,
        match *outcome {
            Ok(FetchOutcome::Found(b)) => size.bytes == Some(b) && !size.missing
                && size.error is None,
            Ok(FetchOutcome::Missing) => size.bytes is None && size.missing && size.error is None,
            Err(e) => size.bytes is None && !size.missing && (size.error matches Some(t) && t@
                == e.text()),
        },
{
    match outcome {
        Ok(FetchOutcome::Found(bytes)) => TileSize {
            level: tile.level,
            id: tile.id,
            bytes: Some(*bytes),
            cached: false,
            missing: false,
            error: None,
        },
        Ok(FetchOutcome::Missing) => TileSize {
            level: tile.level,
            id: tile.id,
            bytes: None,
            cached: false,
            missing: true,
            error: None,
        },
        Err(e) => TileSize {
            level: tile.level,
            id: tile.id,
            bytes: None,
            cached: false,
            missing: false,
            error: Some(e.message()),
        },
    }
}

/// Remembers what the server said of a tile.
fn remember(cache: &mut SizeCache, encoding: Encoding, fetched: &Fetched)
    ensures
        final(cache)@ == remembered_one(old(cache)@, encoding, *fetched),
        old(cache).wf() ==> final(cache).wf(),
{
    let key = cache_key(encoding, fetched.tile);
    match &fetched.outcome {
        Ok(FetchOutcome::Found(bytes)) => {
            let _ = cache.insert(key, Some(*bytes));
        },
        Ok(FetchOutcome::Missing) => {
            let _ = cache.insert(key, None);
        },
        Err(_) => {},
    }
}

impl BatchPlan {
    /// What was fetched fits in the request and leaves no tile without an answer.
    pub open spec fn answered_by(self, fetched: Seq<Fetched>) -> bool {
        &&& forall|k: int|
            0 <= k < fetched.len() ==> (#[trigger] fetched[k]).index < self.results@.len()
        &&& forall|i: int|
            0 <= i < self.results@.len() ==> #[trigger] self.results@[i] is Some || is_fetched(
                fetched,
                i,
            )
    }

    /// Whether the plan can be completed with what was fetched.
    pub fn is_answered_by(&self, fetched: &Vec<Fetched>) -> (answered: bool)
        ensures
            answered == self.answered_by(fetched@),
            answered <==> {
                &&& forall|k: int|
                    0 <= k < fetched@.len() ==> (#[trigger] fetched@[k]).index
                        < self.results@.len()
                &&& forall|i: int|
                    #![trigger self.results@[i]]
                    0 <= i < self.results@.len() && self.results@[i] is None ==> exists|k: int|
                        0 <= k < fetched@.len() && (#[trigger] fetched@[k]).index == i
            },
    {
        let n: usize = self.results.len();
        let mut filled_in: Vec<bool> = Vec::new();
        let mut i: usize = 0;
        while i < n
            invariant
                i <= n,
                n == self.results@.len(),
                filled_in@.len() == i,
                forall|j: int| 0 <= j < i ==> #[trigger] filled_in@[j] == self.results@[j] is Some,
            decreases n - i,
        {
            filled_in.push(self.results[i].is_some());
            i += 1;
        }
        let mut k: usize = 0;
        while k < fetched.len()
            invariant
                k <= fetched@.len(),
                n == self.results@.len(),
                n == filled_in@.len(),
                forall|l: int| 0 <= l < k ==> (#[trigger] fetched@[l]).index < n,
                forall|j: int|
                    0 <= j < n ==> #[trigger] filled_in@[j] == (self.results@[j] is Some
                        || is_fetched(fetched@.take(k as int), j)),
            decreases fetched.len() - k,
        {
            let index: usize = fetched[k].index;
            if index >= n {
                assert(!(fetched@[k as int].index < self.results@.len()));
                return false;
            }
            let ghost before = filled_in@;
            let ghost done = fetched@.take(k as int);
            let ghost seen = fetched@.take(k as int + 1);
            filled_in.set(index, true);
            assert forall|j: int| 0 <= j < n implies #[trigger] filled_in@[j] == (
            self.results@[j] is Some || is_fetched(seen, j)) by {
                assert(before[j] == (self.results@[j] is Some || is_fetched(done, j)));
                if is_fetched(done, j) {
                    let l = choose|l: int| 0 <= l < done.len() && (#[trigger] done[l]).index == j;
                    assert(seen[l].index == j);
                }
                if is_fetched(seen, j) {
                    let l = choose|l: int| 0 <= l < seen.len() && (#[trigger] seen[l]).index == j;
                    if l < k {
                        assert(done[l].index == j);
                    }
                }
                assert(seen[k as int].index == index);
            }
            k += 1;
        }
        assert(fetched@.take(k as int) =~= fetched@);
        i = 0;
        while i < n
            invariant
                i <= n,
                n == self.results@.len(),
                n == filled_in@.len(),
                forall|j: int|
                    0 <= j < n ==> #[trigger] filled_in@[j] == (self.results@[j] is Some
                        || is_fetched(fetched@, j)),
                forall|j: int| 0 <= j < i ==> #[trigger] filled_in@[j],
            decreases n - i,
        {
            if !filled_in[i] {
                assert(!(self.results@[i as int] is Some || is_fetched(fetched@, i as int)));
                return false;
            }
            i += 1;
        }
        assert forall|j: int| 0 <= j < n implies #[trigger] self.results@[j] is Some || is_fetched(
            fetched@,
            j,
        ) by {
            assert(filled_in@[j]);
        }
        true
    }

    /// Puts the answers for the fetched tiles in their places, in whichever order the
    /// fetches ended, and remembers in the cache what the server said.
    pub fn complete(self, cache: &mut SizeCache, fetched: Vec<Fetched>) -> (response:
        TileSizesResponse)
        requires
            self.answered_by(fetched@),
        ensures
            response.encoding@ == self.encoding.name(),
            response.encoding@ == match self.encoding {
                Encoding::Identity => "identity"@,
                Encoding::Gzip => "gzip"@,
                Encoding::Zstd => "zstd"@,
            },
            response.sizes@.len() == self.results@.len(),
            forall|i: int|
                0 <= i < response.sizes@.len() ==> Some((#[trigger] response.sizes@[i])@) == filled(
                    answer_views(self.results@),
                    fetched@,
                )[i],
            final(cache)@ == remembered(old(cache)@, self.encoding, fetched@),
            old(cache).wf() ==> final(cache).wf(),
            // The last fetch for a place is the answer there.
            forall|k: int|
                #![trigger fetched@[k]]
                0 <= k < fetched@.len() && (forall|l: int|
                    k < l < fetched@.len() ==> (#[trigger] fetched@[l]).index != fetched@[k].index)
                    ==> {
                    let size = response.sizes@[fetched@[k].index as int];
                    &&& size.level == fetched@[k].tile.level
                    &&& size.id == fetched@[k].tile.id
                    &&& !size.cached
                    &&& match fetched@[k].outcome {
                        Ok(FetchOutcome::Found(b)) => size.bytes == Some(b) && !size.missing
                            && size.error is None,
                        Ok(FetchOutcome::Missing) => size.bytes is None && size.missing
                            && size.error is None,
                        Err(e) => size.bytes is None && !size.missing && (size.error matches Some(t)
                            && t@ == e.text()),
                    }
                },
            // Any other place keeps the answer that the plan had.
            forall|i: int|
                #![trigger response.sizes@[i]]
                0 <= i < response.sizes@.len() && (forall|k: int|
                    0 <= k < fetched@.len() ==> (#[trigger] fetched@[k]).index != i)
                    ==> self.results@[i] == Some(response.sizes@[i]),
            // The last reply for a tile is what the cache holds of it.
            forall|k: int|
                #![trigger fetched@[k]]
                0 <= k < fetched@.len() && fetched@[k].outcome is Ok && (forall|l: int|
                    k < l < fetched@.len() && (#[trigger] fetched@[l]).outcome is Ok
                        ==> fetched@[l].tile != fetched@[k].tile) ==> {
                    let key = (CacheKey {
                        level: fetched@[k].tile.level,
                        tile_id: fetched@[k].tile.id,
                        encoding: self.encoding,
                    });
                    &&& final(cache)@.contains_key(key)
                    &&& fetched@[k].outcome matches Ok(FetchOutcome::Found(b)) ==> final(cache)@[key]
                        == Some(b)
                    &&& fetched@[k].outcome matches Ok(FetchOutcome::Missing)
                        ==> final(cache)@[key] is None
                },
            // Any other entry stays, in particular where a fetch failed and in the other
            // encodings.
            forall|key: CacheKey|
                #![trigger final(cache)@.contains_key(key)]
                (forall|k: int|
                    0 <= k < fetched@.len() && (#[trigger] fetched@[k]).outcome is Ok ==> {
                        ||| key.level != fetched@[k].tile.level
                        ||| key.tile_id != fetched@[k].tile.id
                        ||| key.encoding != self.encoding
                    }) ==> {
                    &&& final(cache)@.contains_key(key) <==> old(cache)@.contains_key(key)
                    &&& old(cache)@.contains_key(key) ==> final(cache)@[key] == old(cache)@[key]
                },
    {
        let encoding = self.encoding;
        let mut results = self.results;
        let n: usize = results.len();
        let ghost answers = answer_views(results@);
        let mut k: usize = 0;
        assert(fetched@.take(0) =~= Seq::empty());
        while k < fetched.len()
            invariant
                k <= fetched@.len(),
                n == results@.len(),
                n == self.results@.len(),
                encoding == self.encoding,
                self.answered_by(fetched@),
                answer_views(results@) == filled(answers, fetched@.take(k as int)),
                cache@ == remembered(old(cache)@, encoding, fetched@.take(k as int)),
                old(cache).wf() ==> cache.wf(),
                forall|i: int|
                    0 <= i < n && (self.results@[i] is Some || is_fetched(
                        fetched@.take(k as int),
                        i,
                    )) ==> #[trigger] results@[i] is Some,
                forall|i: int|
                    0 <= i < n && !is_fetched(fetched@.take(k as int), i)
                        ==> #[trigger] results@[i] == self.results@[i],
            decreases fetched.len() - k,
        {
            let ghost done = fetched@.take(k as int);
            let ghost seen = fetched@.take(k as int + 1);
            let ghost before = results@;
            assert(seen.drop_last() =~= done);
            remember(cache, encoding, &fetched[k]);
            let size = answer(fetched[k].tile, &fetched[k].outcome);
            let index: usize = fetched[k].index;
            results.set(index, Some(size));
            assert(answer_views(results@) =~= answer_views(before).update(
                index as int,
                Some(size@),
            ));
            assert forall|i: int|
                0 <= i < n && (self.results@[i] is Some || is_fetched(
                    seen,
                    i,
                )) implies #[trigger] results@[i] is Some by {
                if i != index && is_fetched(seen, i) {
                    let j = choose|j: int| 0 <= j < seen.len() && (#[trigger] seen[j]).index == i;
                    assert(done[j].index == i);
                    assert(is_fetched(done, i));
                }
                if i != index {
                    assert(before[i] is Some);
                }
            }
            assert forall|i: int| 0 <= i < n && !is_fetched(seen, i) implies #[trigger] results@[i]
                == self.results@[i] by {
                assert(seen[k as int].index == index);
                if is_fetched(done, i) {
                    let j = choose|j: int| 0 <= j < done.len() && (#[trigger] done[j]).index == i;
                    assert(seen[j].index == i);
                }
                assert(before[i] == self.results@[i]);
            }
            k += 1;
        }
        assert(fetched@.take(k as int) =~= fetched@);
        let ghost full = results@;
        let mut sizes: Vec<TileSize> = Vec::new();
        let mut i: usize = 0;
        while i < n
            invariant
                i <= n,
                n == results@.len(),
                n == full.len(),
                sizes@.len() == i,
                forall|j: int| 0 <= j < n ==> #[trigger] full[j] is Some,
                forall|j: int| i <= j < n ==> #[trigger] results@[j] == full[j],
                forall|j: int| 0 <= j < i ==> Some(#[trigger] sizes@[j]) == full[j],
            decreases n - i,
        {
            assert(results@[i as int] == full[i as int]);
            let slot = results[i].take();
            if let Some(size) = slot {
                sizes.push(size);
            }
            i += 1;
        }
        assert forall|j: int| 0 <= j < sizes@.len() implies Some((#[trigger] sizes@[j])@)
            == filled(answers, fetched@)[j] by {
            assert(answer_views(full)[j] == Some(sizes@[j]@));
        }
        proof {
            assert(answers.len() == n);
            assert forall|k: int|
                0 <= k < fetched@.len() && (forall|l: int|
                    k < l < fetched@.len() ==> (#[trigger] fetched@[l]).index
                        != fetched@[k].index) implies {
                let size = sizes@[(#[trigger] fetched@[k]).index as int];
                &&& size.level == fetched@[k].tile.level
                &&& size.id == fetched@[k].tile.id
                &&& !size.cached
                &&& match fetched@[k].outcome {
                    Ok(FetchOutcome::Found(b)) => size.bytes == Some(b) && !size.missing
                        && size.error is None,
                    Ok(FetchOutcome::Missing) => size.bytes is None && size.missing
                        && size.error is None,
                    Err(e) => size.bytes is None && !size.missing && (size.error matches Some(t)
                        && t@ == e.text()),
                }
            } by {
                laws::lemma_last_fetch_is_the_answer(answers, fetched@, k);
                let size = sizes@[fetched@[k].index as int];
                assert(Some(size@) == filled(answers, fetched@)[fetched@[k].index as int]);
            }
            assert forall|i: int|
                0 <= i < sizes@.len() && (forall|k: int|
                    0 <= k < fetched@.len() ==> (#[trigger] fetched@[k]).index
                        != i) implies self.results@[i] == Some(#[trigger] sizes@[i]) by {
                assert(!is_fetched(fetched@, i));
                assert(full[i] == self.results@[i]);
            }
            assert forall|k: int|
                0 <= k < fetched@.len() && fetched@[k].outcome is Ok && (forall|l: int|
                    k < l < fetched@.len() && (#[trigger] fetched@[l]).outcome is Ok
                        ==> fetched@[l].tile != fetched@[k].tile) implies {
                let key = CacheKey {
                    level: (#[trigger] fetched@[k]).tile.level,
                    tile_id: fetched@[k].tile.id,
                    encoding: self.encoding,
                };
                &&& cache@.contains_key(key)
                &&& fetched@[k].outcome matches Ok(FetchOutcome::Found(b)) ==> cache@[key] == Some(
                    b,
                )
                &&& fetched@[k].outcome matches Ok(FetchOutcome::Missing) ==> cache@[key] is None
            } by {
                laws::lemma_last_reply_is_the_entry(old(cache)@, encoding, fetched@, k);
            }
            assert forall|key: CacheKey|
                (forall|k: int|
                    0 <= k < fetched@.len() && (#[trigger] fetched@[k]).outcome is Ok ==> {
                        ||| key.level != fetched@[k].tile.level
                        ||| key.tile_id != fetched@[k].tile.id
                        ||| key.encoding != self.encoding
                    }) implies {
                &&& #[trigger] cache@.contains_key(key) <==> old(cache)@.contains_key(key)
                &&& old(cache)@.contains_key(key) ==> cache@[key] == old(cache)@[key]
            } by {
                laws::lemma_other_entries_stay(old(cache)@, encoding, fetched@, key);
            }
        }
        TileSizesResponse { encoding: encoding.as_header_value(), sizes }
    }
}

} // verus!
