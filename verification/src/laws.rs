//! What holds of batches as a whole: of a request, the fetches it causes, the
//! response and the cache together.

use vstd::prelude::*;

use crate::api;
use crate::api::{BatchPlan, Fetched, TileRef, TileSizeView};
use crate::cache;
use crate::cache::CacheKey;
use crate::tiles::{Encoding, TileId};
use crate::upstream::FetchOutcome;

verus! {

/// `fetched` holds one outcome for each of `misses` and no others, in any order.
pub open spec fn answers_misses(misses: Seq<(usize, TileId)>, fetched: Seq<Fetched>) -> bool {
    &&& forall|k: int|
        0 <= k < fetched.len() ==> misses.contains(
            ((#[trigger] fetched[k]).index, fetched[k].tile),
        )
    &&& forall|j: int|
        0 <= j < misses.len() ==> api::is_fetched(fetched, (#[trigger] misses[j]).0 as int)
    &&& forall|k: int, l: int|
        0 <= k < l < fetched.len() ==> (#[trigger] fetched[k]).index != (
        #[trigger] fetched[l]).index
}

/// The cache has an answer for the tile.
pub open spec fn is_cached(
    sizes: Map<CacheKey, Option<u64>>,
    encoding: Encoding,
    tile: TileId,
) -> bool {
    sizes.contains_key(CacheKey { level: tile.level, tile_id: tile.id, encoding })
}

/// The body of a request that names as many tiles as it may is within the limit, at 25
/// bytes for each of them.
pub proof fn lemma_batches_fit_in_a_body(tiles: nat)
    requires
        tiles <= api::MAX_BATCH_SIZE,
    ensures
        25 * tiles <= crate::REQUEST_BODY_LIMIT,
{
}

/// A size is cached under the level and the id of its tile and the very encoding that
/// was asked for. So no two tiles share an entry, nor do two encodings of a tile.
pub proof fn lemma_cache_keys_are_distinct(a: Encoding, s: TileId, b: Encoding, t: TileId)
    ensures
        api::spec_cache_key(a, s).level == s.level,
        api::spec_cache_key(a, s).tile_id == s.id,
        api::spec_cache_key(a, s).encoding == a,
        api::spec_cache_key(a, s) == api::spec_cache_key(b, t) <==> a == b && s == t,
{
}

/// A tile with an entry in the cache is answered with just that entry: its size is the
/// number that is cached, and it is missing where that is what is cached. A tile
/// without an entry has no answer.
pub proof fn lemma_cached_entries_are_the_answers(
    sizes: Map<CacheKey, Option<u64>>,
    encoding: Encoding,
    tiles: Seq<TileRef>,
    i: int,
)
    requires
        0 <= i < tiles.len(),
    ensures
        api::answers_from(sizes, encoding, tiles).len() == tiles.len(),
        ({
            let key = CacheKey { level: tiles[i].level, tile_id: tiles[i].id, encoding };
            let answer = api::answers_from(sizes, encoding, tiles)[i];
            &&& answer is Some <==> sizes.contains_key(key)
            &&& answer is Some ==> {
                &&& answer->0.level == tiles[i].level
                &&& answer->0.id == tiles[i].id
                &&& answer->0.bytes == sizes[key]
                &&& answer->0.cached
                &&& answer->0.missing <==> sizes[key] is None
                &&& answer->0.error is None
            }
        }),
{
}

proof fn lemma_filled_len(answers: Seq<Option<TileSizeView>>, fetched: Seq<Fetched>)
    requires
        forall|m: int| 0 <= m < fetched.len() ==> (#[trigger] fetched[m]).index < answers.len(),
    ensures
        api::filled(answers, fetched).len() == answers.len(),
    decreases fetched.len(),
{
    if fetched.len() > 0 {
        let front = fetched.drop_last();
        assert forall|m: int| 0 <= m < front.len() implies (#[trigger] front[m]).index
            < answers.len() by {
            assert(front[m] == fetched[m]);
        }
        lemma_filled_len(answers, front);
        assert(fetched.last() == fetched[fetched.len() - 1]);
    }
}

/// The last fetch for a place is the answer there: a tile that was found has the size
/// that was found, one that does not exist is missing, and one whose fetch failed has
/// the text of the failure and neither of those.
pub proof fn lemma_last_fetch_is_the_answer(
    answers: Seq<Option<TileSizeView>>,
    fetched: Seq<Fetched>,
    k: int,
)
    requires
        0 <= k < fetched.len(),
        forall|m: int| 0 <= m < fetched.len() ==> (#[trigger] fetched[m]).index < answers.len(),
        forall|l: int|
            k < l < fetched.len() ==> (#[trigger] fetched[l]).index != fetched[k].index,
    ensures
        ({
            let answer = api::filled(answers, fetched)[fetched[k].index as int];
            &&& answer is Some
            &&& answer->0.level == fetched[k].tile.level
            &&& answer->0.id == fetched[k].tile.id
            &&& !answer->0.cached
            &&& match fetched[k].outcome {
                Ok(FetchOutcome::Found(b)) => answer->0.bytes == Some(b) && !answer->0.missing
                    && answer->0.error is None,
                Ok(FetchOutcome::Missing) => answer->0.bytes is None && answer->0.missing
                    && answer->0.error is None,
                Err(e) => answer->0.bytes is None && !answer->0.missing && answer->0.error == Some(
                    e.text(),
                ),
            }
        }),
    decreases fetched.len(),
{
    let front = fetched.drop_last();
    let last = fetched.len() - 1;
    assert forall|m: int| 0 <= m < front.len() implies (#[trigger] front[m]).index
        < answers.len() by {
        assert(front[m] == fetched[m]);
    }
    lemma_filled_len(answers, front);
    if k < last {
        assert(fetched[last].index != fetched[k].index);
        assert(front[k] == fetched[k]);
        assert forall|l: int| k < l < front.len() implies (#[trigger] front[l]).index
            != front[k].index by {
            assert(front[l] == fetched[l]);
        }
        lemma_last_fetch_is_the_answer(answers, front, k);
    }
}

/// A place that nothing was fetched for keeps the answer that it had.
pub proof fn lemma_other_answers_stay(
    answers: Seq<Option<TileSizeView>>,
    fetched: Seq<Fetched>,
    i: int,
)
    requires
        0 <= i < answers.len(),
        forall|m: int| 0 <= m < fetched.len() ==> (#[trigger] fetched[m]).index < answers.len(),
        forall|k: int| 0 <= k < fetched.len() ==> (#[trigger] fetched[k]).index != i,
    ensures
        api::filled(answers, fetched)[i] == answers[i],
    decreases fetched.len(),
{
    if fetched.len() > 0 {
        let front = fetched.drop_last();
        assert forall|m: int| 0 <= m < front.len() implies (#[trigger] front[m]).index
            < answers.len() by {
            assert(front[m] == fetched[m]);
        }
        lemma_filled_len(answers, front);
        assert(fetched[fetched.len() - 1].index != i);
        assert forall|k: int| 0 <= k < front.len() implies (#[trigger] front[k]).index != i by {
            assert(front[k] == fetched[k]);
        }
        lemma_other_answers_stay(answers, front, i);
    }
}

/// The last reply for a tile is in the cache afterwards, under the tile and the
/// encoding that it was asked for in: the size that was found, or that there is no such
/// tile.
pub proof fn lemma_last_reply_is_the_entry(
    sizes: Map<CacheKey, Option<u64>>,
    encoding: Encoding,
    fetched: Seq<Fetched>,
    k: int,
)
    requires
        0 <= k < fetched.len(),
        fetched[k].outcome is Ok,
        forall|l: int|
            k < l < fetched.len() && (#[trigger] fetched[l]).outcome is Ok ==> fetched[l].tile
                != fetched[k].tile,
    ensures
        ({
            let key = CacheKey {
                level: fetched[k].tile.level,
                tile_id: fetched[k].tile.id,
                encoding,
            };
            let after = api::remembered(sizes, encoding, fetched);
            &&& after.contains_key(key)
            &&& fetched[k].outcome matches Ok(FetchOutcome::Found(b)) ==> after[key] == Some(b)
            &&& fetched[k].outcome matches Ok(FetchOutcome::Missing) ==> after[key] is None
        }),
    decreases fetched.len(),
{
    let front = fetched.drop_last();
    let last = fetched.len() - 1;
    if k < last {
        assert(front[k] == fetched[k]);
        assert forall|l: int|
            k < l < front.len() && (#[trigger] front[l]).outcome is Ok implies front[l].tile
            != front[k].tile by {
            assert(front[l] == fetched[l]);
        }
        lemma_last_reply_is_the_entry(sizes, encoding, front, k);
        assert(fetched[last].outcome is Ok ==> fetched[last].tile != fetched[k].tile);
    }
}

/// An entry is as it was before where no reply came for its tile in its encoding.
pub proof fn lemma_other_entries_stay(
    sizes: Map<CacheKey, Option<u64>>,
    encoding: Encoding,
    fetched: Seq<Fetched>,
    key: CacheKey,
)
    requires
        forall|k: int|
            0 <= k < fetched.len() && (#[trigger] fetched[k]).outcome is Ok ==> {
                ||| key.level != fetched[k].tile.level
                ||| key.tile_id != fetched[k].tile.id
                ||| key.encoding != encoding
            },
    ensures
        api::remembered(sizes, encoding, fetched).contains_key(key) <==> sizes.contains_key(key),
        sizes.contains_key(key) ==> api::remembered(sizes, encoding, fetched)[key] == sizes[key],
    decreases fetched.len(),
{
    if fetched.len() > 0 {
        let front = fetched.drop_last();
        assert forall|k: int|
            0 <= k < front.len() && (#[trigger] front[k]).outcome is Ok implies {
            ||| key.level != front[k].tile.level
            ||| key.tile_id != front[k].tile.id
            ||| key.encoding != encoding
        } by {
            assert(front[k] == fetched[k]);
        }
        lemma_other_entries_stay(sizes, encoding, front, key);
        assert(fetched.last() == fetched[fetched.len() - 1]);
    }
}

/// A batch in one encoding makes no difference to a batch in another: that has the same
/// answers from the cache, and the same tiles to fetch, as if the first had not been.
pub proof fn lemma_encodings_do_not_mix(
    sizes: Map<CacheKey, Option<u64>>,
    a: Encoding,
    fetched: Seq<Fetched>,
    b: Encoding,
    tiles: Seq<TileRef>,
)
    requires
        a != b,
    ensures
        api::answers_from(api::remembered(sizes, a, fetched), b, tiles) == api::answers_from(
            sizes,
            b,
            tiles,
        ),
        api::misses_of(api::remembered(sizes, a, fetched), b, tiles) == api::misses_of(
            sizes,
            b,
            tiles,
        ),
    decreases tiles.len(),
{
    let after = api::remembered(sizes, a, fetched);
    assert forall|i: int| 0 <= i < tiles.len() implies api::answers_from(after, b, tiles)[i]
        == api::answers_from(sizes, b, tiles)[i] by {
        lemma_other_entries_stay(sizes, a, fetched, api::spec_cache_key(b, tiles[i].spec_tile()));
    }
    assert(api::answers_from(after, b, tiles) =~= api::answers_from(sizes, b, tiles));
    if tiles.len() > 0 {
        lemma_encodings_do_not_mix(sizes, a, fetched, b, tiles.drop_last());
        lemma_other_entries_stay(
            sizes,
            a,
            fetched,
            api::spec_cache_key(b, tiles.last().spec_tile()),
        );
    }
}

/// The tiles to fetch are exactly those that the cache has no answer for, each at its
/// place in the request and in the order of the request. So a tile that is cached is
/// never asked for again.
pub proof fn lemma_misses_are_the_uncached(
    sizes: Map<CacheKey, Option<u64>>,
    encoding: Encoding,
    tiles: Seq<TileRef>,
)
    requires
        tiles.len() <= usize::MAX,
    ensures
        forall|i: usize, tile: TileId| #[trigger]
            api::misses_of(sizes, encoding, tiles).contains((i, tile)) <==> {
                &&& i < tiles.len()
                &&& tile == tiles[i as int].spec_tile()
                &&& !is_cached(sizes, encoding, tile)
            },
        forall|j: int, k: int|
            0 <= j < k < api::misses_of(sizes, encoding, tiles).len() ==> (
            #[trigger] api::misses_of(sizes, encoding, tiles)[j]).0 < (#[trigger] api::misses_of(
                sizes,
                encoding,
                tiles,
            )[k]).0,
    decreases tiles.len(),
{
    let misses = api::misses_of(sizes, encoding, tiles);
    if tiles.len() > 0 {
        let front = tiles.drop_last();
        let before = api::misses_of(sizes, encoding, front);
        lemma_misses_are_the_uncached(sizes, encoding, front);
        let last = ((tiles.len() - 1) as usize, tiles.last().spec_tile());
        if !is_cached(sizes, encoding, last.1) {
            assert(misses == before.push(last));
            assert forall|i: usize, tile: TileId| #[trigger] misses.contains((i, tile)) <==> {
                &&& i < tiles.len()
                &&& tile == tiles[i as int].spec_tile()
                &&& !is_cached(sizes, encoding, tile)
            } by {
                if misses.contains((i, tile)) {
                    let j = choose|j: int| 0 <= j < misses.len() && misses[j] == (i, tile);
                    if j < before.len() {
                        assert(before[j] == (i, tile));
                        assert(before.contains((i, tile)));
                    }
                }
                if before.contains((i, tile)) {
                    let j = choose|j: int| 0 <= j < before.len() && before[j] == (i, tile);
                    assert(misses[j] == (i, tile));
                }
                assert(misses[before.len() as int] == last);
                if i < front.len() {
                    assert(front[i as int] == tiles[i as int]);
                }
            }
            assert forall|j: int, k: int| 0 <= j < k < misses.len() implies (
            #[trigger] misses[j]).0 < (#[trigger] misses[k]).0 by {
                assert(misses[j] == before[j]);
                assert(before.contains((before[j].0, before[j].1)));
                if k < before.len() {
                    assert(misses[k] == before[k]);
                }
            }
        } else {
            assert forall|i: usize, tile: TileId| #[trigger] misses.contains((i, tile)) <==> {
                &&& i < tiles.len()
                &&& tile == tiles[i as int].spec_tile()
                &&& !is_cached(sizes, encoding, tile)
            } by {
                assert(misses == before);
                if i < front.len() {
                    assert(front[i as int] == tiles[i as int]);
                }
            }
        }
    }
}

/// Filling in what was fetched replaces the answers at its places and no others.
proof fn lemma_filled(answers: Seq<Option<TileSizeView>>, fetched: Seq<Fetched>)
    requires
        forall|k: int| 0 <= k < fetched.len() ==> (#[trigger] fetched[k]).index < answers.len(),
        forall|k: int, l: int|
            0 <= k < l < fetched.len() ==> (#[trigger] fetched[k]).index != (
            #[trigger] fetched[l]).index,
    ensures
        api::filled(answers, fetched).len() == answers.len(),
        forall|i: int|
            0 <= i < answers.len() && !api::is_fetched(fetched, i) ==> (#[trigger] api::filled(
                answers,
                fetched,
            )[i]) == answers[i],
        forall|k: int|
            0 <= k < fetched.len() ==> api::filled(answers, fetched)[(
            #[trigger] fetched[k]).index as int] == Some(
                api::answer_fetched(fetched[k].tile, fetched[k].outcome),
            ),
    decreases fetched.len(),
{
    if fetched.len() > 0 {
        let front = fetched.drop_last();
        let last = fetched.len() - 1;
        assert forall|k: int| 0 <= k < front.len() implies (#[trigger] front[k]).index
            < answers.len() by {
            assert(front[k] == fetched[k]);
        }
        assert forall|k: int, l: int| 0 <= k < l < front.len() implies (#[trigger] front[k]).index
            != (#[trigger] front[l]).index by {
            assert(front[k] == fetched[k] && front[l] == fetched[l]);
        }
        lemma_filled(answers, front);
        let out = api::filled(answers, fetched);
        assert forall|i: int|
            0 <= i < answers.len() && !api::is_fetched(fetched, i) implies #[trigger] out[i]
            == answers[i] by {
            assert(fetched[last].index != i);
            if api::is_fetched(front, i) {
                let k = choose|k: int| 0 <= k < front.len() && (#[trigger] front[k]).index == i;
                assert(fetched[k].index == i);
            }
        }
        assert forall|k: int| 0 <= k < fetched.len() implies out[(
        #[trigger] fetched[k]).index as int] == Some(
            api::answer_fetched(fetched[k].tile, fetched[k].outcome),
        ) by {
            if k < last {
                assert(front[k] == fetched[k]);
                assert(fetched[k].index != fetched[last].index);
            }
        }
    }
}

/// Where every tile to fetch got an outcome, and only those, a plan can be completed.
pub proof fn lemma_plan_can_be_completed(
    plan: BatchPlan,
    sizes: Map<CacheKey, Option<u64>>,
    tiles: Seq<TileRef>,
    fetched: Seq<Fetched>,
)
    requires
        tiles.len() <= usize::MAX,
        api::answer_views(plan.results@) == api::answers_from(sizes, plan.encoding, tiles),
        plan.misses@ == api::misses_of(sizes, plan.encoding, tiles),
        answers_misses(plan.misses@, fetched),
    ensures
        plan.answered_by(fetched),
{
    lemma_misses_are_the_uncached(sizes, plan.encoding, tiles);
    let misses = plan.misses@;
    let answers = api::answers_from(sizes, plan.encoding, tiles);
    assert(api::answer_views(plan.results@).len() == plan.results@.len());
    assert(answers.len() == tiles.len());
    assert forall|k: int| 0 <= k < fetched.len() implies (#[trigger] fetched[k]).index
        < plan.results@.len() by {
        assert(misses.contains((fetched[k].index, fetched[k].tile)));
    }
    assert forall|i: int| 0 <= i < plan.results@.len() implies #[trigger] plan.results@[i] is Some
        || api::is_fetched(fetched, i) by {
        let tile = tiles[i].spec_tile();
        assert(api::answer_views(plan.results@)[i] == answers[i]);
        if !is_cached(sizes, plan.encoding, tile) {
            assert(misses.contains((i as usize, tile)));
            let j = choose|j: int| 0 <= j < misses.len() && misses[j] == (i as usize, tile);
            assert(api::is_fetched(fetched, misses[j].0 as int));
        }
    }
}

/// An answer says one thing of a tile: how large it is, that it is missing, or what
/// error kept that unknown.
pub open spec fn says_one_thing(answer: TileSizeView) -> bool {
    ||| answer.bytes is Some && !answer.missing && answer.error is None
    ||| answer.bytes is None && answer.missing && answer.error is None
    ||| answer.bytes is None && !answer.missing && answer.error is Some
}

/// The response has one answer for each tile of the request, in the order of the
/// request. A tile that was cached is answered from the cache, any other with what
/// came of fetching it. Each answer says one thing of its tile, and one from the cache
/// is no error.
pub proof fn lemma_response_follows_request(
    sizes: Map<CacheKey, Option<u64>>,
    encoding: Encoding,
    tiles: Seq<TileRef>,
    fetched: Seq<Fetched>,
)
    requires
        tiles.len() <= usize::MAX,
        answers_misses(api::misses_of(sizes, encoding, tiles), fetched),
    ensures
        ({
            let out = api::filled(api::answers_from(sizes, encoding, tiles), fetched);
            &&& out.len() == tiles.len()
            &&& forall|i: int|
                #![trigger out[i]]
                0 <= i < out.len() ==> {
                    let tile = tiles[i].spec_tile();
                    &&& out[i] is Some
                    &&& says_one_thing(out[i]->0)
                    &&& out[i]->0.cached ==> out[i]->0.error is None
                    &&& out[i]->0.level == tiles[i].level
                    &&& out[i]->0.id == tiles[i].id
                    &&& out[i]->0.cached == is_cached(sizes, encoding, tile)
                    &&& is_cached(sizes, encoding, tile) ==> out[i]->0 == api::answer_cached(
                        tile,
                        sizes[api::spec_cache_key(encoding, tile)],
                    )
                }
            &&& forall|k: int|
                0 <= k < fetched.len() ==> out[(#[trigger] fetched[k]).index as int] == Some(
                    api::answer_fetched(
                        tiles[fetched[k].index as int].spec_tile(),
                        fetched[k].outcome,
                    ),
                )
        }),
{
    lemma_misses_are_the_uncached(sizes, encoding, tiles);
    let misses = api::misses_of(sizes, encoding, tiles);
    let answers = api::answers_from(sizes, encoding, tiles);
    let out = api::filled(answers, fetched);
    assert forall|k: int| 0 <= k < fetched.len() implies {
        &&& (#[trigger] fetched[k]).index < answers.len()
        &&& fetched[k].tile == tiles[fetched[k].index as int].spec_tile()
        &&& !is_cached(sizes, encoding, fetched[k].tile)
    } by {
        assert(misses.contains((fetched[k].index, fetched[k].tile)));
    }
    lemma_filled(answers, fetched);
    assert forall|i: int| 0 <= i < out.len() implies {
        let tile = tiles[i].spec_tile();
        &&& #[trigger] out[i] is Some
        &&& says_one_thing(out[i]->0)
        &&& out[i]->0.cached ==> out[i]->0.error is None
        &&& out[i]->0.level == tiles[i].level
        &&& out[i]->0.id == tiles[i].id
        &&& out[i]->0.cached == is_cached(sizes, encoding, tile)
        &&& is_cached(sizes, encoding, tile) ==> out[i]->0 == api::answer_cached(
            tile,
            sizes[api::spec_cache_key(encoding, tile)],
        )
    } by {
        let tile = tiles[i].spec_tile();
        if is_cached(sizes, encoding, tile) {
            if api::is_fetched(fetched, i) {
                let k = choose|k: int| 0 <= k < fetched.len() && (#[trigger] fetched[k]).index == i;
                assert(fetched[k].tile == tile);
            }
        } else {
            assert(misses.contains((i as usize, tile)));
            let j = choose|j: int| 0 <= j < misses.len() && misses[j] == (i as usize, tile);
            assert(api::is_fetched(fetched, misses[j].0 as int));
            let k = choose|k: int| 0 <= k < fetched.len() && (#[trigger] fetched[k]).index == i;
            assert(fetched[k].tile == tile);
        }
    }
}

/// In which order the fetches end does not show in the response.
pub proof fn lemma_completion_order_is_irrelevant(
    sizes: Map<CacheKey, Option<u64>>,
    encoding: Encoding,
    tiles: Seq<TileRef>,
    fetched: Seq<Fetched>,
    other: Seq<Fetched>,
)
    requires
        tiles.len() <= usize::MAX,
        answers_misses(api::misses_of(sizes, encoding, tiles), fetched),
        answers_misses(api::misses_of(sizes, encoding, tiles), other),
        forall|k: int, l: int|
            0 <= k < fetched.len() && 0 <= l < other.len() && (#[trigger] fetched[k]).index == (
            #[trigger] other[l]).index ==> fetched[k].outcome == other[l].outcome,
    ensures
        api::filled(api::answers_from(sizes, encoding, tiles), fetched) == api::filled(
            api::answers_from(sizes, encoding, tiles),
            other,
        ),
{
    lemma_misses_are_the_uncached(sizes, encoding, tiles);
    lemma_response_follows_request(sizes, encoding, tiles, fetched);
    lemma_response_follows_request(sizes, encoding, tiles, other);
    let misses = api::misses_of(sizes, encoding, tiles);
    let answers = api::answers_from(sizes, encoding, tiles);
    let out1 = api::filled(answers, fetched);
    let out2 = api::filled(answers, other);
    assert forall|i: int| 0 <= i < out1.len() implies out1[i] == out2[i] by {
        let tile = tiles[i].spec_tile();
        assert(out1[i] is Some && out2[i] is Some);
        if !is_cached(sizes, encoding, tile) {
            assert(misses.contains((i as usize, tile)));
            let j = choose|j: int| 0 <= j < misses.len() && misses[j] == (i as usize, tile);
            assert(api::is_fetched(fetched, misses[j].0 as int));
            assert(api::is_fetched(other, misses[j].0 as int));
            let k = choose|k: int| 0 <= k < fetched.len() && (#[trigger] fetched[k]).index == i;
            let l = choose|l: int| 0 <= l < other.len() && (#[trigger] other[l]).index == i;
            assert(fetched[k].outcome == other[l].outcome);
        }
    }
    assert(out1 =~= out2);
}

/// A cache entry changes only where the server said something of that very tile in
/// that very encoding. In particular a failed fetch leaves no trace, so the next
/// request tries the tile again.
pub proof fn lemma_only_replies_are_remembered(
    sizes: Map<CacheKey, Option<u64>>,
    encoding: Encoding,
    fetched: Seq<Fetched>,
    key: CacheKey,
)
    requires
        forall|k: int|
            0 <= k < fetched.len() && (#[trigger] fetched[k]).outcome is Ok ==> key
                != api::spec_cache_key(encoding, fetched[k].tile),
    ensures
        cache::lookup(api::remembered(sizes, encoding, fetched), key) == cache::lookup(sizes, key),
    decreases fetched.len(),
{
    if fetched.len() > 0 {
        let front = fetched.drop_last();
        assert forall|k: int|
            0 <= k < front.len() && (#[trigger] front[k]).outcome is Ok implies key
            != api::spec_cache_key(encoding, front[k].tile) by {
            assert(front[k] == fetched[k]);
        }
        lemma_only_replies_are_remembered(sizes, encoding, front, key);
        assert(fetched.last() == fetched[fetched.len() - 1]);
    }
}

/// No entry is ever dropped from the cache.
pub proof fn lemma_nothing_is_forgotten(
    sizes: Map<CacheKey, Option<u64>>,
    encoding: Encoding,
    fetched: Seq<Fetched>,
    key: CacheKey,
)
    requires
        cache::lookup(sizes, key) is Some,
    ensures
        cache::lookup(api::remembered(sizes, encoding, fetched), key) is Some,
    decreases fetched.len(),
{
    if fetched.len() > 0 {
        lemma_nothing_is_forgotten(sizes, encoding, fetched.drop_last(), key);
    }
}

/// What the cache holds of a tile that the server said this of.
pub open spec fn bytes_of(outcome: FetchOutcome) -> Option<u64> {
    match outcome {
        FetchOutcome::Found(bytes) => Some(bytes),
        FetchOutcome::Missing => None,
    }
}

/// What the server said of a tile is in the cache afterwards, also that there is no
/// such tile. Where a batch names a tile more than once and the server said different
/// things of it, one of those is.
pub proof fn lemma_replies_are_remembered(
    sizes: Map<CacheKey, Option<u64>>,
    encoding: Encoding,
    fetched: Seq<Fetched>,
    k: int,
)
    requires
        0 <= k < fetched.len(),
        fetched[k].outcome is Ok,
    ensures
        exists|l: int|
            {
                &&& 0 <= l < fetched.len()
                &&& (#[trigger] fetched[l]).tile == fetched[k].tile
                &&& fetched[l].outcome matches Ok(outcome)
                &&& cache::lookup(
                    api::remembered(sizes, encoding, fetched),
                    api::spec_cache_key(encoding, fetched[k].tile),
                ) == Some(bytes_of(outcome))
            },
    decreases fetched.len(),
{
    let front = fetched.drop_last();
    let last = fetched.len() - 1;
    let tile = fetched[k].tile;
    let key = api::spec_cache_key(encoding, tile);
    if fetched[last].tile == tile && fetched[last].outcome is Ok {
        let outcome = fetched[last].outcome->Ok_0;
        assert(cache::lookup(api::remembered(sizes, encoding, fetched), key) == Some(
            bytes_of(outcome),
        ));
    } else {
        assert(front[k] == fetched[k]);
        lemma_replies_are_remembered(sizes, encoding, front, k);
        let l = choose|l: int|
            {
                &&& 0 <= l < front.len()
                &&& (#[trigger] front[l]).tile == front[k].tile
                &&& front[l].outcome matches Ok(outcome)
                &&& cache::lookup(
                    api::remembered(sizes, encoding, front),
                    api::spec_cache_key(encoding, front[k].tile),
                ) == Some(bytes_of(outcome))
            };
        assert(fetched[l] == front[l]);
        assert(api::spec_cache_key(encoding, fetched[last].tile) == key ==> fetched[last].tile
            == tile);
    }
}

/// A tile that the server said something of is answered from the cache the next time,
/// with just that, as long as the batch did not get another reply for the same tile.
pub proof fn lemma_fetched_then_cached(
    sizes: Map<CacheKey, Option<u64>>,
    encoding: Encoding,
    fetched: Seq<Fetched>,
    k: int,
    next: Seq<TileRef>,
    i: int,
)
    requires
        0 <= k < fetched.len(),
        fetched[k].outcome is Ok,
        forall|l: int|
            0 <= l < fetched.len() && (#[trigger] fetched[l]).tile == fetched[k].tile
                && fetched[l].outcome is Ok ==> fetched[l].outcome == fetched[k].outcome,
        0 <= i < next.len(),
        next[i].spec_tile() == fetched[k].tile,
    ensures
        api::answers_from(api::remembered(sizes, encoding, fetched), encoding, next)[i] == Some(
            api::answer_cached(fetched[k].tile, bytes_of(fetched[k].outcome->Ok_0)),
        ),
{
    lemma_replies_are_remembered(sizes, encoding, fetched, k);
}

/// A batch whose fetches all got a reply can be repeated without a fetch: every tile
/// of it is answered from the cache then, and the batch changed no answer for a tile
/// that it found cached.
///
/// The batch was planned on the cache `sizes` and completed on `now`, which other
/// batches may have added to meanwhile.
pub proof fn lemma_repeated_batch_is_cached(
    sizes: Map<CacheKey, Option<u64>>,
    now: Map<CacheKey, Option<u64>>,
    encoding: Encoding,
    tiles: Seq<TileRef>,
    fetched: Seq<Fetched>,
)
    requires
        tiles.len() <= usize::MAX,
        forall|key: CacheKey| #[trigger]
            cache::lookup(sizes, key) is Some ==> cache::lookup(now, key) is Some,
        answers_misses(api::misses_of(sizes, encoding, tiles), fetched),
        forall|k: int| 0 <= k < fetched.len() ==> (#[trigger] fetched[k]).outcome is Ok,
    ensures
        api::misses_of(api::remembered(now, encoding, fetched), encoding, tiles).len() == 0,
        forall|i: int|
            0 <= i < tiles.len() && is_cached(sizes, encoding, tiles[i].spec_tile())
                ==> #[trigger] api::answers_from(
                api::remembered(now, encoding, fetched),
                encoding,
                tiles,
            )[i] == api::answers_from(now, encoding, tiles)[i],
{
    let later = api::remembered(now, encoding, fetched);
    let misses = api::misses_of(sizes, encoding, tiles);
    let misses_later = api::misses_of(later, encoding, tiles);
    lemma_misses_are_the_uncached(sizes, encoding, tiles);
    lemma_misses_are_the_uncached(later, encoding, tiles);
    assert forall|i: int| 0 <= i < tiles.len() implies is_cached(
        later,
        encoding,
        (#[trigger] tiles[i]).spec_tile(),
    ) by {
        let tile = tiles[i].spec_tile();
        let key = api::spec_cache_key(encoding, tile);
        if is_cached(sizes, encoding, tile) {
            assert(cache::lookup(sizes, key) is Some);
            lemma_nothing_is_forgotten(now, encoding, fetched, key);
        } else {
            assert(misses.contains((i as usize, tile)));
            let j = choose|j: int| 0 <= j < misses.len() && misses[j] == (i as usize, tile);
            assert(api::is_fetched(fetched, misses[j].0 as int));
            let k = choose|k: int| 0 <= k < fetched.len() && (#[trigger] fetched[k]).index == i;
            assert(misses.contains((fetched[k].index, fetched[k].tile)));
            lemma_replies_are_remembered(now, encoding, fetched, k);
        }
    }
    if misses_later.len() > 0 {
        let (i, tile) = misses_later[0];
        assert(misses_later.contains((i, tile)));
        assert(is_cached(later, encoding, tiles[i as int].spec_tile()));
    }
    assert forall|i: int|
        0 <= i < tiles.len() && is_cached(
            sizes,
            encoding,
            tiles[i].spec_tile(),
        ) implies #[trigger] api::answers_from(later, encoding, tiles)[i] == api::answers_from(
        now,
        encoding,
        tiles,
    )[i] by {
        let key = api::spec_cache_key(encoding, tiles[i].spec_tile());
        assert forall|k: int|
            0 <= k < fetched.len() && (#[trigger] fetched[k]).outcome is Ok implies key
            != api::spec_cache_key(encoding, fetched[k].tile) by {
            assert(misses.contains((fetched[k].index, fetched[k].tile)));
        }
        lemma_only_replies_are_remembered(now, encoding, fetched, key);
    }
}

/// A batch that is repeated reports of every tile what it reported the first time: the
/// same size, or that it is missing, and now from the cache. Left out are tiles whose
/// fetch failed, and tiles that the batch names twice and got different replies for.
///
/// The batch was planned on the cache `sizes` and completed on `now`, which other
/// batches may have added to meanwhile.
pub proof fn lemma_repeated_batch_reports_the_same(
    sizes: Map<CacheKey, Option<u64>>,
    now: Map<CacheKey, Option<u64>>,
    encoding: Encoding,
    tiles: Seq<TileRef>,
    fetched: Seq<Fetched>,
    i: int,
)
    requires
        tiles.len() <= usize::MAX,
        forall|key: CacheKey| #[trigger]
            sizes.contains_key(key) ==> now.contains_key(key) && now[key] == sizes[key],
        answers_misses(api::misses_of(sizes, encoding, tiles), fetched),
        forall|k: int, l: int|
            0 <= k < fetched.len() && 0 <= l < fetched.len() && (#[trigger] fetched[k]).tile == (
            #[trigger] fetched[l]).tile && fetched[k].outcome is Ok && fetched[l].outcome is Ok
                ==> fetched[k].outcome == fetched[l].outcome,
        0 <= i < tiles.len(),
        api::filled(api::answers_from(sizes, encoding, tiles), fetched)[i]->0.error is None,
    ensures
        ({
            let first = api::filled(api::answers_from(sizes, encoding, tiles), fetched)[i];
            let again = api::answers_from(
                api::remembered(now, encoding, fetched),
                encoding,
                tiles,
            )[i];
            &&& first is Some
            &&& again is Some
            &&& first->0.level == tiles[i].level && again->0.level == tiles[i].level
            &&& first->0.id == tiles[i].id && again->0.id == tiles[i].id
            &&& again->0.bytes == first->0.bytes
            &&& again->0.missing == first->0.missing
            &&& again->0.cached
            &&& again->0.error is None
        }),
{
    let tile = tiles[i].spec_tile();
    let key = CacheKey { level: tile.level, tile_id: tile.id, encoding };
    let misses = api::misses_of(sizes, encoding, tiles);
    let answers = api::answers_from(sizes, encoding, tiles);
    let after = api::remembered(now, encoding, fetched);
    lemma_misses_are_the_uncached(sizes, encoding, tiles);
    lemma_cached_entries_are_the_answers(sizes, encoding, tiles, i);
    lemma_cached_entries_are_the_answers(after, encoding, tiles, i);
    assert forall|k: int| 0 <= k < fetched.len() implies {
        &&& (#[trigger] fetched[k]).index < tiles.len()
        &&& fetched[k].tile == tiles[fetched[k].index as int].spec_tile()
        &&& !is_cached(sizes, encoding, fetched[k].tile)
    } by {
        assert(misses.contains((fetched[k].index, fetched[k].tile)));
    }
    if is_cached(sizes, encoding, tile) {
        assert forall|k: int| 0 <= k < fetched.len() implies (#[trigger] fetched[k]).index != i by {
            assert(!is_cached(sizes, encoding, fetched[k].tile));
        }
        lemma_other_answers_stay(answers, fetched, i);
        assert forall|k: int|
            0 <= k < fetched.len() && (#[trigger] fetched[k]).outcome is Ok implies {
            ||| key.level != fetched[k].tile.level
            ||| key.tile_id != fetched[k].tile.id
            ||| key.encoding != encoding
        } by {
            assert(!is_cached(sizes, encoding, fetched[k].tile));
        }
        lemma_other_entries_stay(now, encoding, fetched, key);
    } else {
        assert(misses.contains((i as usize, tile)));
        let j = choose|j: int| 0 <= j < misses.len() && misses[j] == (i as usize, tile);
        assert(api::is_fetched(fetched, misses[j].0 as int));
        let k = choose|k: int| 0 <= k < fetched.len() && (#[trigger] fetched[k]).index == i;
        lemma_last_fetch_is_the_answer(answers, fetched, k);
        assert(fetched[k].outcome is Ok);
        let l = lemma_last_reply_for(fetched, k);
        lemma_last_reply_is_the_entry(now, encoding, fetched, l);
        assert(fetched[l].outcome == fetched[k].outcome);
    }
}

/// The last reply for the tile of a reply.
proof fn lemma_last_reply_for(fetched: Seq<Fetched>, k: int) -> (l: int)
    requires
        0 <= k < fetched.len(),
        fetched[k].outcome is Ok,
    ensures
        k <= l < fetched.len(),
        fetched[l].outcome is Ok,
        fetched[l].tile == fetched[k].tile,
        forall|m: int|
            l < m < fetched.len() && (#[trigger] fetched[m]).outcome is Ok ==> fetched[m].tile
                != fetched[l].tile,
    decreases fetched.len() - k,
{
    if exists|m: int|
        k < m < fetched.len() && (#[trigger] fetched[m]).outcome is Ok && fetched[m].tile
            == fetched[k].tile {
        let m = choose|m: int|
            k < m < fetched.len() && (#[trigger] fetched[m]).outcome is Ok && fetched[m].tile
                == fetched[k].tile;
        lemma_last_reply_for(fetched, m)
    } else {
        k
    }
}

} // verus!
