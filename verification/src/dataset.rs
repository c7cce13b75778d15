//! One forecast dataset: a valid time and a set of tiles, answering
//! "atmosphere at an aligned corner" by scanning the corner's tile and
//! memoizing every record of it in the shared cache.

use vstd::prelude::*;

use crate::align::{
    cache_key_spec, key_dataset_id_spec, lemma_cache_key_injective, lemma_key_id, AlignedPoint,
};
use crate::cache::{cache_get, cache_insert, lru_capacity, lru_contents, Cache};
use crate::errors::PredictorError;
use crate::grib::{
    atmo_of, atmo_of_spec, last_match_spec, lemma_last_match_bounded, lemma_records_bounded,
    line_bounded, line_of_spec, read_line, records_of_spec, tile_key_of, tile_key_of_spec,
    GribLine, Tile, TileKey, VEL_SAT,
};
use crate::point::{atmo_plus_spec, atmo_scale_spec, Atmospheroid, Point};

use vstd::string::StrSliceExecFns;

verus! {

/// One forecast.
pub struct Dataset {
    /// When the forecast was created, in Unix seconds.
    pub created_at: i64,
    /// The valid time of the forecast, in Unix seconds.
    pub time: i64,
    /// The id within the catalog; always below 32.
    pub id: u32,
    /// The directory name the dataset was parsed from.
    pub name: String,
    /// The tiles of the dataset, with pairwise distinct keys.
    pub tiles: Vec<Tile>,
}

impl Dataset {
    /// Tile keys are pairwise distinct.
    pub open spec fn tiles_wf(self) -> bool {
        forall|i: int, j: int|
            0 <= i < j < self.tiles@.len() ==> #[trigger] self.tiles@[i].key != #[trigger] self.tiles@[j].key
    }

    /// The dataset invariant.
    pub open spec fn wf(self) -> bool {
        &&& self.id < 32
        &&& self.tiles_wf()
    }
}

/// The index of the first tile with the given key, or -1.
pub open spec fn tile_find_spec(tiles: Seq<Tile>, k: TileKey, i: int) -> int
    recommends
        0 <= i,
    decreases tiles.len() - i,
{
    if i < 0 || i >= tiles.len() {
        -1
    } else if tiles[i].key == k {
        i
    } else {
        tile_find_spec(tiles, k, i + 1)
    }
}

fn tile_find(tiles: &Vec<Tile>, k: TileKey, i: usize) -> (r: Option<usize>)
    requires
        i <= tiles@.len(),
    ensures
        match r {
            Some(t) => t == tile_find_spec(tiles@, k, i as int) && t < tiles@.len()
                && tiles@[t as int].key == k,
            None => tile_find_spec(tiles@, k, i as int) == -1,
        },
    decreases tiles@.len() - i,
{
    if i >= tiles.len() {
        None
    } else if tiles[i].key == k {
        Some(i)
    } else {
        tile_find(tiles, k, i + 1)
    }
}

/// In a well-formed dataset the search finds exactly the tile that
/// holds the key.
proof fn lemma_tile_find_unique(tiles: Seq<Tile>, k: TileKey, i: int, ti: int)
    requires
        0 <= i <= ti < tiles.len(),
        tiles[ti].key == k,
        forall|a: int, b: int| 0 <= a < b < tiles.len() ==> #[trigger] tiles[a].key != #[trigger] tiles[b].key,
    ensures
        tile_find_spec(tiles, k, i) == ti,
    decreases ti - i,
{
    if i < ti {
        assert(tiles[i].key != tiles[ti].key);
        lemma_tile_find_unique(tiles, k, i + 1, ti);
    }
}

/// The result of scanning one tile's bytes for a corner.
pub open spec fn tile_scan_result_spec(bytes: Seq<u8>, lat: int, lon: int) -> Result<
    Atmospheroid,
    PredictorError,
> {
    if bytes.len() % 20 != 0 {
        Err(PredictorError::Corrupt)
    } else {
        match last_match_spec(records_of_spec(bytes), lat, lon) {
            Some(l) => Ok(atmo_of_spec(l)),
            None => Err(PredictorError::NotFound),
        }
    }
}

/// The authoritative value of a corner under a dataset: find the
/// corner's tile, decode it, and take the last matching record.
pub open spec fn corner_result_spec(ds: Dataset, c: AlignedPoint) -> Result<
    Atmospheroid,
    PredictorError,
> {
    let ti = tile_find_spec(ds.tiles@, tile_key_of_spec(c), 0);
    if ti < 0 {
        Err(PredictorError::Io)
    } else {
        tile_scan_result_spec(ds.tiles@[ti].bytes@, c.latitude as int, c.longitude as int)
    }
}

/// A cache entry is authoritative for a dataset: its key encodes a
/// well-formed corner of that dataset whose authoritative value is the
/// entry's value.
#[verifier::opaque]
pub open spec fn authoritative_for(ds: Dataset, k: u32, v: Atmospheroid) -> bool {
    exists|c: AlignedPoint|
        {
            &&& c.wf()
            &&& #[trigger] cache_key_spec(
                c.level as int,
                c.latitude as int,
                c.longitude as int,
                ds.id as int,
            ) == k
            &&& corner_result_spec(ds, c) == Ok::<Atmospheroid, PredictorError>(v)
        }
}

/// Everything a dataset's lookups may do to the cache: keep an entry,
/// or write an authoritative entry of its own.
pub open spec fn cache_extends(
    ds: Dataset,
    before: Map<u32, Atmospheroid>,
    after: Map<u32, Atmospheroid>,
) -> bool {
    forall|k: u32|
        #[trigger] after.contains_key(k) ==> (before.contains_key(k) && after[k] == before[k]) || (
        key_dataset_id_spec(k as int) == ds.id && authoritative_for(ds, k, after[k]))
}

/// What a dataset needs of the cache: every entry carrying its id is
/// authoritative for it.
pub open spec fn ds_auth(ds: Dataset, m: Map<u32, Atmospheroid>) -> bool {
    forall|k: u32|
        #[trigger] m.contains_key(k) && key_dataset_id_spec(k as int) == ds.id
            ==> authoritative_for(ds, k, m[k])
}

/// The cache key of a record under a tile's level and a dataset id.
pub open spec fn record_key_spec(key: TileKey, l: GribLine, id: int) -> int {
    cache_key_spec(key.level as int, l.latitude as int, l.longitude as int, id)
}

/// Lookups may only grow the cache up to its capacity: the entry count
/// never passes the larger of its old value and the capacity.
pub open spec fn cache_growth_ok(
    before: Map<u32, Atmospheroid>,
    cap: nat,
    after: Map<u32, Atmospheroid>,
) -> bool {
    before.dom().finite() ==> after.dom().finite() && after.dom().len() <= (if before.dom().len()
        >= cap {
        before.dom().len()
    } else {
        cap
    })
}

/// Growth bounds compose across successive lookups.
pub proof fn lemma_growth_trans(
    m0: Map<u32, Atmospheroid>,
    cap: nat,
    m1: Map<u32, Atmospheroid>,
    m2: Map<u32, Atmospheroid>,
)
    requires
        cache_growth_ok(m0, cap, m1),
        cache_growth_ok(m1, cap, m2),
    ensures
        cache_growth_ok(m0, cap, m2),
{
}

/// With room in the cache for the whole tile, a scan enters every
/// cacheable record: afterward the cache holds a key for each record
/// that forms a well-formed corner of the tile's cell.  (Without room,
/// eviction may drop entries, and only soundness is promised.)
pub open spec fn scan_complete_spec(
    ds: Dataset,
    ti: int,
    before: Map<u32, Atmospheroid>,
    cap: nat,
    after: Map<u32, Atmospheroid>,
) -> bool {
    (before.dom().finite() && before.dom().len() + records_of_spec(ds.tiles@[ti].bytes@).len()
        <= cap && ds.tiles@[ti].bytes@.len() % 20 == 0) ==> forall|j: int|
        0 <= j < records_of_spec(ds.tiles@[ti].bytes@).len() && insertable_spec(
            #[trigger] records_of_spec(ds.tiles@[ti].bytes@)[j],
            ds.tiles@[ti].key,
        ) ==> after.contains_key(
            record_key_spec(ds.tiles@[ti].key, records_of_spec(ds.tiles@[ti].bytes@)[j], ds.id as int) as u32,
        )
}

/// A dataset's own extension of the cache keeps its authority.
pub proof fn lemma_extends_preserves_auth(
    ds: Dataset,
    before: Map<u32, Atmospheroid>,
    after: Map<u32, Atmospheroid>,
)
    requires
        ds_auth(ds, before),
        cache_extends(ds, before, after),
    ensures
        ds_auth(ds, after),
{
}

/// Whether a record may be cached while scanning the tile `key`: its
/// coordinates form a well-formed corner and fall inside the tile's
/// cell.
pub open spec fn insertable_spec(l: GribLine, key: TileKey) -> bool {
    let c = AlignedPoint { latitude: l.latitude, longitude: l.longitude, level: key.level };
    &&& c.wf()
    &&& tile_key_of_spec(c) == key
}

fn insertable(l: &GribLine, key: &TileKey) -> (r: bool)
    requires
        line_bounded(*l),
    ensures
        r == insertable_spec(*l, *key),
{
    if !(-90_000_000 <= l.latitude && l.latitude <= 90_000_000) {
        return false;
    }
    if !(0 <= l.longitude && l.longitude < 360_000_000) {
        return false;
    }
    if crate::arith::emod(l.latitude, crate::align::GRID) != 0 {
        return false;
    }
    if crate::arith::emod(l.longitude, crate::align::GRID) != 0 {
        return false;
    }
    let c = AlignedPoint { latitude: l.latitude, longitude: l.longitude, level: key.level };
    if crate::align::level_index(key.level) < 0 {
        return false;
    }
    let tk = tile_key_of(&c);
    tk.lat_cell == key.lat_cell && tk.lon_cell == key.lon_cell
}

/// A cache entry is, mid-scan, backed by the records seen so far.
#[verifier::opaque]
pub open spec fn partial_auth(ds: Dataset, ti: int, j: int, k: u32, v: Atmospheroid) -> bool {
    exists|c: AlignedPoint|
        {
            &&& c.wf()
            &&& #[trigger] cache_key_spec(
                c.level as int,
                c.latitude as int,
                c.longitude as int,
                ds.id as int,
            ) == k
            &&& tile_key_of_spec(c) == ds.tiles@[ti].key
            &&& match last_match_spec(
                records_of_spec(ds.tiles@[ti].bytes@).take(j),
                c.latitude as int,
                c.longitude as int,
            ) {
                Some(l) => atmo_of_spec(l) == v,
                None => false,
            }
        }
}

/// The scan loop's cache invariant at record index `j`: every entry was
/// already there, or is backed by the records seen so far.
pub open spec fn scan_inv(
    ds: Dataset,
    ti: int,
    j: int,
    old0: Map<u32, Atmospheroid>,
    cur: Map<u32, Atmospheroid>,
) -> bool {
    forall|k: u32|
        #[trigger] cur.contains_key(k) ==> (old0.contains_key(k) && cur[k] == old0[k]) || (
        key_dataset_id_spec(k as int) == ds.id && partial_auth(ds, ti, j, k, cur[k]))
}

proof fn lemma_last_match_step(recs: Seq<GribLine>, j: int, lat: int, lon: int)
    requires
        0 <= j < recs.len(),
    ensures
        last_match_spec(recs.take(j + 1), lat, lon) == (if recs[j].latitude == lat
            && recs[j].longitude == lon {
            Some(recs[j])
        } else {
            last_match_spec(recs.take(j), lat, lon)
        }),
{
    assert(recs.take(j + 1).drop_last() =~= recs.take(j));
    assert(recs.take(j + 1).last() == recs[j]);
}

/// A record that may not be cached matches no corner of its tile.
#[verifier::rlimit(100)]
#[verifier::spinoff_prover]
proof fn lemma_step_skip(
    ds: Dataset,
    ti: int,
    j: int,
    old0: Map<u32, Atmospheroid>,
    cur: Map<u32, Atmospheroid>,
)
    requires
        ds.wf(),
        0 <= ti < ds.tiles@.len(),
        0 <= j < records_of_spec(ds.tiles@[ti].bytes@).len(),
        !insertable_spec(records_of_spec(ds.tiles@[ti].bytes@)[j], ds.tiles@[ti].key),
        scan_inv(ds, ti, j, old0, cur),
    ensures
        scan_inv(ds, ti, j + 1, old0, cur),
{
    reveal(partial_auth);
    let recs = records_of_spec(ds.tiles@[ti].bytes@);
    let line = recs[j];
    let key = ds.tiles@[ti].key;
    assert forall|k: u32| #[trigger] cur.contains_key(k) implies (old0.contains_key(k) && cur[k]
        == old0[k]) || (key_dataset_id_spec(k as int) == ds.id && partial_auth(
        ds,
        ti,
        j + 1,
        k,
        cur[k],
    )) by {
        if !(old0.contains_key(k) && cur[k] == old0[k]) {
            let c = choose|c: AlignedPoint|
                {
                    &&& c.wf()
                    &&& #[trigger] cache_key_spec(
                        c.level as int,
                        c.latitude as int,
                        c.longitude as int,
                        ds.id as int,
                    ) == k
                    &&& tile_key_of_spec(c) == ds.tiles@[ti].key
                    &&& match last_match_spec(
                        recs.take(j),
                        c.latitude as int,
                        c.longitude as int,
                    ) {
                        Some(l) => atmo_of_spec(l) == cur[k],
                        None => false,
                    }
                };
            assert(!(line.latitude == c.latitude && line.longitude == c.longitude)) by {
                if line.latitude == c.latitude && line.longitude == c.longitude {
                    assert(key.level == c.level);
                    assert(AlignedPoint {
                        latitude: line.latitude,
                        longitude: line.longitude,
                        level: key.level,
                    } == c);
                    assert(insertable_spec(line, key));
                }
            }
            lemma_last_match_step(recs, j, c.latitude as int, c.longitude as int);
            assert(partial_auth(ds, ti, j + 1, k, cur[k]));
        }
    }
}

/// Inserting a record's value under its own key keeps the invariant.
#[verifier::rlimit(100)]
#[verifier::spinoff_prover]
proof fn lemma_step_insert(
    ds: Dataset,
    ti: int,
    j: int,
    old0: Map<u32, Atmospheroid>,
    pre: Map<u32, Atmospheroid>,
    post: Map<u32, Atmospheroid>,
    ck: u32,
)
    requires
        ds.wf(),
        0 <= ti < ds.tiles@.len(),
        0 <= j < records_of_spec(ds.tiles@[ti].bytes@).len(),
        insertable_spec(records_of_spec(ds.tiles@[ti].bytes@)[j], ds.tiles@[ti].key),
        ck == cache_key_spec(
            ds.tiles@[ti].key.level as int,
            records_of_spec(ds.tiles@[ti].bytes@)[j].latitude as int,
            records_of_spec(ds.tiles@[ti].bytes@)[j].longitude as int,
            ds.id as int,
        ),
        scan_inv(ds, ti, j, old0, pre),
        post.contains_key(ck) ==> post[ck] == atmo_of_spec(records_of_spec(ds.tiles@[ti].bytes@)[j]),
        forall|k2: u32|
            #[trigger] post.contains_key(k2) && k2 != ck ==> pre.contains_key(k2) && post[k2]
                == pre[k2],
    ensures
        scan_inv(ds, ti, j + 1, old0, post),
{
    reveal(partial_auth);
    let recs = records_of_spec(ds.tiles@[ti].bytes@);
    let line = recs[j];
    let key = ds.tiles@[ti].key;
    let corner = AlignedPoint { latitude: line.latitude, longitude: line.longitude, level: key.level };
    lemma_key_id(corner, ds.id as int);
    assert(ck == cache_key_spec(
        corner.level as int,
        corner.latitude as int,
        corner.longitude as int,
        ds.id as int,
    ));
    assert forall|k: u32| #[trigger] post.contains_key(k) implies (old0.contains_key(k) && post[k]
        == old0[k]) || (key_dataset_id_spec(k as int) == ds.id && partial_auth(
        ds,
        ti,
        j + 1,
        k,
        post[k],
    )) by {
        if k == ck {
            lemma_last_match_step(recs, j, corner.latitude as int, corner.longitude as int);
            assert(partial_auth(ds, ti, j + 1, k, post[k]));
        } else {
            assert(pre.contains_key(k) && post[k] == pre[k]);
            if !(old0.contains_key(k) && pre[k] == old0[k]) {
                let c = choose|c: AlignedPoint|
                    {
                        &&& c.wf()
                        &&& #[trigger] cache_key_spec(
                            c.level as int,
                            c.latitude as int,
                            c.longitude as int,
                            ds.id as int,
                        ) == k
                        &&& tile_key_of_spec(c) == ds.tiles@[ti].key
                        &&& match last_match_spec(
                            recs.take(j),
                            c.latitude as int,
                            c.longitude as int,
                        ) {
                            Some(l) => atmo_of_spec(l) == pre[k],
                            None => false,
                        }
                    };
                lemma_cache_key_injective(c, ds.id as int, corner, ds.id as int);
                assert(!(line.latitude == c.latitude && line.longitude == c.longitude)) by {
                    if line.latitude == c.latitude && line.longitude == c.longitude {
                        assert(c == corner);
                    }
                }
                lemma_last_match_step(recs, j, c.latitude as int, c.longitude as int);
                assert(partial_auth(ds, ti, j + 1, k, post[k]));
            }
        }
    }
}

/// At the end of a full scan, the invariant gives exactly the allowed
/// cache extension.
#[verifier::rlimit(100)]
#[verifier::spinoff_prover]
proof fn lemma_scan_finish(
    ds: Dataset,
    ti: int,
    old0: Map<u32, Atmospheroid>,
    cur: Map<u32, Atmospheroid>,
)
    requires
        ds.wf(),
        0 <= ti < ds.tiles@.len(),
        ds.tiles@[ti].bytes@.len() % 20 == 0,
        scan_inv(ds, ti, records_of_spec(ds.tiles@[ti].bytes@).len() as int, old0, cur),
    ensures
        cache_extends(ds, old0, cur),
{
    reveal(partial_auth);
    reveal(authoritative_for);
    let recs = records_of_spec(ds.tiles@[ti].bytes@);
    assert forall|k: u32| #[trigger] cur.contains_key(k) implies (old0.contains_key(k) && cur[k]
        == old0[k]) || (key_dataset_id_spec(k as int) == ds.id && authoritative_for(
        ds,
        k,
        cur[k],
    )) by {
        if !(old0.contains_key(k) && cur[k] == old0[k]) {
            let c = choose|c: AlignedPoint|
                {
                    &&& c.wf()
                    &&& #[trigger] cache_key_spec(
                        c.level as int,
                        c.latitude as int,
                        c.longitude as int,
                        ds.id as int,
                    ) == k
                    &&& tile_key_of_spec(c) == ds.tiles@[ti].key
                    &&& match last_match_spec(
                        recs.take(recs.len() as int),
                        c.latitude as int,
                        c.longitude as int,
                    ) {
                        Some(l) => atmo_of_spec(l) == cur[k],
                        None => false,
                    }
                };
            assert(recs.take(recs.len() as int) =~= recs);
            lemma_tile_find_unique(ds.tiles@, ds.tiles@[ti].key, 0, ti);
            assert(corner_result_spec(ds, c) == Ok::<Atmospheroid, PredictorError>(cur[k]));
            assert(authoritative_for(ds, k, cur[k]));
        }
    }
}

impl Dataset {
    /// Scans the tile at index `ti` for the aligned corner, writing
    /// every well-formed record of the tile into the cache.
    #[verifier::rlimit(100)]
    #[verifier::spinoff_prover]
    fn scan_file(&self, ti: usize, aligned: &AlignedPoint, cache: &mut Cache) -> (r: Result<
        Atmospheroid,
        PredictorError,
    >)
        requires
            self.wf(),
            aligned.wf(),
            ti < self.tiles@.len(),
            self.tiles@[ti as int].key == tile_key_of_spec(*aligned),
        ensures
            lru_capacity(*final(cache)) == lru_capacity(*old(cache)),
            cache_extends(*self, lru_contents(*old(cache)), lru_contents(*final(cache))),
            cache_growth_ok(
                lru_contents(*old(cache)),
                lru_capacity(*old(cache)),
                lru_contents(*final(cache)),
            ),
            scan_complete_spec(
                *self,
                ti as int,
                lru_contents(*old(cache)),
                lru_capacity(*old(cache)),
                lru_contents(*final(cache)),
            ),
            r == tile_scan_result_spec(
                self.tiles@[ti as int].bytes@,
                aligned.latitude as int,
                aligned.longitude as int,
            ),
            match r {
                Ok(v) => v.bounded(VEL_SAT as int),
                Err(_) => true,
            },
    {
        let bytes = &self.tiles[ti].bytes;
        let n = bytes.len();
        if n % 20 != 0 {
            return Err(PredictorError::Corrupt);
        }
        proof {
            assert(n as int % 20 == 0);
        }
        let ghost recs = records_of_spec(self.tiles@[ti as int].bytes@);
        let mut best: Option<GribLine> = None;
        let mut j: usize = 0;
        let total = n / 20;
        while j < total
            invariant
                self.wf(),
                aligned.wf(),
                ti < self.tiles@.len(),
                self.tiles@[ti as int].key == tile_key_of_spec(*aligned),
                n == self.tiles@[ti as int].bytes@.len(),
                bytes@ == self.tiles@[ti as int].bytes@,
                n % 20 == 0,
                total == n / 20,
                j <= total,
                recs == records_of_spec(self.tiles@[ti as int].bytes@),
                recs.len() == total,
                best == last_match_spec(
                    recs.take(j as int),
                    aligned.latitude as int,
                    aligned.longitude as int,
                ),
                match best {
                    Some(l) => line_bounded(l),
                    None => true,
                },
                lru_capacity(*cache) == lru_capacity(*old(cache)),
                scan_inv(
                    *self,
                    ti as int,
                    j as int,
                    lru_contents(*old(cache)),
                    lru_contents(*cache),
                ),
                cache_growth_ok(
                    lru_contents(*old(cache)),
                    lru_capacity(*old(cache)),
                    lru_contents(*cache),
                ),
                (lru_contents(*old(cache)).dom().finite() && lru_contents(*old(cache)).dom().len()
                    + recs.len() <= lru_capacity(*old(cache))) ==> {
                    &&& lru_contents(*cache).dom().finite()
                    &&& lru_contents(*cache).dom().len() <= lru_contents(*old(cache)).dom().len()
                        + j
                    &&& (forall|j2: int|
                        0 <= j2 < j && insertable_spec(
                            #[trigger] recs[j2],
                            self.tiles@[ti as int].key,
                        ) ==> lru_contents(*cache).contains_key(
                            record_key_spec(self.tiles@[ti as int].key, recs[j2], self.id as int) as u32,
                        ))
                },
            decreases total - j,
        {
            proof {
                vstd::arithmetic::div_mod::lemma_fundamental_div_mod(n as int, 20);
                assert(n as int == 20 * (total as int));
                assert((j as int + 1) * 20 <= (total as int) * 20) by (nonlinear_arith)
                    requires
                        j as int + 1 <= total as int,
                ;
                assert((j as int) * 20 + 20 <= n as int);
            }
            let off = j * 20;
            let line = read_line(bytes, off);
            proof {
                assert(recs[j as int] == line_of_spec(
                    self.tiles@[ti as int].bytes@,
                    20 * (j as int),
                ));
                lemma_last_match_step(
                    recs,
                    j as int,
                    aligned.latitude as int,
                    aligned.longitude as int,
                );
            }
            if line.latitude == aligned.latitude && line.longitude == aligned.longitude {
                best = Some(line);
            }
            let key = self.tiles[ti].key;
            if insertable(&line, &key) {
                let corner = AlignedPoint {
                    latitude: line.latitude,
                    longitude: line.longitude,
                    level: key.level,
                };
                let ghost pre = lru_contents(*cache);
                let ck = corner.key(self.id);
                cache_insert(cache, ck, atmo_of(&line));
                proof {
                    lemma_step_insert(
                        *self,
                        ti as int,
                        j as int,
                        lru_contents(*old(cache)),
                        pre,
                        lru_contents(*cache),
                        ck,
                    );
                    lemma_key_id(corner, self.id as int);
                    let old0 = lru_contents(*old(cache));
                    let cap = lru_capacity(*old(cache));
                    let post = lru_contents(*cache);
                    assert(ck as int == record_key_spec(key, recs[j as int], self.id as int));
                    if old0.dom().finite() {
                        if old0.dom().len() + recs.len() <= cap {
                            assert(pre.dom().len() < cap);
                            assert(post == pre.insert(ck, atmo_of_spec(recs[j as int])));
                            assert(post.dom() =~= pre.dom().insert(ck));
                            vstd::set::axiom_set_insert_len(pre.dom(), ck);
                            assert forall|j2: int|
                                0 <= j2 < j as int + 1 && insertable_spec(
                                    #[trigger] recs[j2],
                                    self.tiles@[ti as int].key,
                                ) implies post.contains_key(
                                record_key_spec(
                                    self.tiles@[ti as int].key,
                                    recs[j2],
                                    self.id as int,
                                ) as u32,
                            ) by {
                                if j2 < j as int {
                                    assert(pre.contains_key(
                                        record_key_spec(
                                            self.tiles@[ti as int].key,
                                            recs[j2],
                                            self.id as int,
                                        ) as u32,
                                    ));
                                }
                            }
                        }
                        assert(post.dom().finite() && post.dom().len() <= (if pre.dom().len()
                            >= cap {
                            pre.dom().len()
                        } else {
                            cap
                        }));
                    }
                }
            } else {
                proof {
                    lemma_step_skip(
                        *self,
                        ti as int,
                        j as int,
                        lru_contents(*old(cache)),
                        lru_contents(*cache),
                    );
                }
            }
            j = j + 1;
        }
        proof {
            assert(recs.take(total as int) =~= recs);
            lemma_scan_finish(
                *self,
                ti as int,
                lru_contents(*old(cache)),
                lru_contents(*cache),
            );
        }
        match best {
            Some(l) => Ok(atmo_of(&l)),
            None => Err(PredictorError::NotFound),
        }
    }
}


/// A later cache state extends an earlier one through a dataset's own
/// writes; such extensions compose.
pub proof fn lemma_extends_trans(
    ds: Dataset,
    m0: Map<u32, Atmospheroid>,
    m1: Map<u32, Atmospheroid>,
    m2: Map<u32, Atmospheroid>,
)
    requires
        cache_extends(ds, m0, m1),
        cache_extends(ds, m1, m2),
    ensures
        cache_extends(ds, m0, m2),
{
}

/// An authoritative `Ok` value is a decoded record, so it is bounded
/// and has no vertical wind.
proof fn lemma_corner_result_bounded(ds: Dataset, c: AlignedPoint, v: Atmospheroid)
    requires
        corner_result_spec(ds, c) == Ok::<Atmospheroid, PredictorError>(v),
    ensures
        v.bounded(VEL_SAT as int),
        v.velocity.vertical == 0,
{
    let ti = tile_find_spec(ds.tiles@, tile_key_of_spec(c), 0);
    let bytes = ds.tiles@[ti].bytes@;
    lemma_records_bounded(bytes);
    lemma_last_match_bounded(records_of_spec(bytes), c.latitude as int, c.longitude as int);
}

impl Dataset {
    /// The uninterpolated atmosphere at an aligned corner: the cached
    /// value when present, otherwise a scan of the corner's tile.
    pub fn atmospheroid_at_aligned(&self, aligned: &AlignedPoint, cache: &mut Cache) -> (r: Result<
        Atmospheroid,
        PredictorError,
    >)
        requires
            self.wf(),
            aligned.wf(),
            ds_auth(*self, lru_contents(*old(cache))),
        ensures
            lru_capacity(*final(cache)) == lru_capacity(*old(cache)),
            cache_extends(*self, lru_contents(*old(cache)), lru_contents(*final(cache))),
            cache_growth_ok(
                lru_contents(*old(cache)),
                lru_capacity(*old(cache)),
                lru_contents(*final(cache)),
            ),
            r == corner_result_spec(*self, *aligned),
            match r {
                Ok(v) => v.bounded(VEL_SAT as int) && v.velocity.vertical == 0,
                Err(_) => true,
            },
    {
        let key = aligned.key(self.id);
        proof {
            lemma_key_id(*aligned, self.id as int);
        }
        match cache_get(cache, key) {
            Some(atmo) => {
                proof {
                    reveal(authoritative_for);
                    let c = choose|c: AlignedPoint|
                        {
                            &&& c.wf()
                            &&& #[trigger] cache_key_spec(
                                c.level as int,
                                c.latitude as int,
                                c.longitude as int,
                                self.id as int,
                            ) == key
                            &&& corner_result_spec(*self, c) == Ok::<Atmospheroid, PredictorError>(
                                atmo,
                            )
                        };
                    lemma_cache_key_injective(c, self.id as int, *aligned, self.id as int);
                    lemma_corner_result_bounded(*self, *aligned, atmo);
                }
                Ok(atmo)
            },
            None => {
                let tk = tile_key_of(aligned);
                match tile_find(&self.tiles, tk, 0) {
                    Some(ti) => {
                        let r = self.scan_file(ti, aligned, cache);
                        r
                    },
                    None => Err(PredictorError::Io),
                }
            },
        }
    }
}

/// One linear interpolation step between two atmospheres, by a ppm
/// weight and its complement.
pub open spec fn lerp_spec(a: Atmospheroid, b: Atmospheroid, p: int) -> Atmospheroid {
    atmo_plus_spec(atmo_scale_spec(a, p), atmo_scale_spec(b, 1_000_000 - p))
}

/// The trilinear interpolation over the eight corner values, weighted
/// east/west, then north/south, then down/up.
pub open spec fn interpolate_spec(
    pn: int,
    pe: int,
    pd: int,
    nd: Atmospheroid,
    nu: Atmospheroid,
    nwd: Atmospheroid,
    nwu: Atmospheroid,
    sd: Atmospheroid,
    su: Atmospheroid,
    swd: Atmospheroid,
    swu: Atmospheroid,
) -> Atmospheroid {
    let down = lerp_spec(lerp_spec(nd, nwd, pe), lerp_spec(sd, swd, pe), pn);
    let up = lerp_spec(lerp_spec(nu, nwu, pe), lerp_spec(su, swu, pe), pn);
    lerp_spec(down, up, pd)
}

/// Interpolating two verticals of zero gives zero.
proof fn lemma_lerp_vertical_zero(a: Atmospheroid, b: Atmospheroid, p: int)
    requires
        a.velocity.vertical == 0,
        b.velocity.vertical == 0,
    ensures
        lerp_spec(a, b, p).velocity.vertical == 0,
{
    assert(0 * p == 0) by (nonlinear_arith);
    assert(0 * (1_000_000 - p) == 0) by (nonlinear_arith);
    assert(crate::arith::div_tz_spec(0, 1_000_000) == 0) by {
        vstd::arithmetic::div_mod::lemma_div_by_multiple(0, 1_000_000);
        assert(0 * 1_000_000 == 0) by (nonlinear_arith);
    }
}

fn lerp(a: &Atmospheroid, b: &Atmospheroid, p: i64) -> (r: Atmospheroid)
    requires
        0 <= p <= 1_000_000,
        a.bounded(4_000_000_000),
        b.bounded(4_000_000_000),
    ensures
        r == lerp_spec(*a, *b, p as int),
        forall|m: int|
            1 <= m <= 4_000_000_000 && #[trigger] a.bounded(m) && b.bounded(m) ==> r.bounded(2 * m),
{
    let sa = a.scaled_ppm(p);
    let sb = b.scaled_ppm(1_000_000 - p);
    proof {
        assert(a.bounded(4_000_000_000));
        assert(b.bounded(4_000_000_000));
        assert(sa.bounded(4_000_000_000));
        assert(sb.bounded(4_000_000_000));
        assert forall|m: int|
            1 <= m <= 4_000_000_000 && #[trigger] a.bounded(m) && b.bounded(m) implies atmo_plus_spec(
            sa,
            sb,
        ).bounded(2 * m) by {
            assert(sa.bounded(m));
            assert(sb.bounded(m));
        }
    }
    sa.plus(&sb)
}

/// The interpolated atmosphere of a whole dataset at a point, with the
/// first failing corner's error.
#[verifier::opaque]
pub open spec fn dataset_atmo_spec(ds: Dataset, p: Point) -> Result<
    Atmospheroid,
    PredictorError,
> {
    let pn = crate::align::percent_north_spec(p.latitude as int);
    let pe = crate::align::percent_east_spec(p.longitude as int);
    let pd = crate::align::percent_down_spec(
        crate::align::pressure_centi_spec(p.altitude as int),
    );
    match corner_result_spec(ds, crate::align::aligned_corner_spec(p, true, true, false)) {
        Err(e) => Err(e),
        Ok(nd) => match corner_result_spec(
            ds,
            crate::align::aligned_corner_spec(p, true, true, true),
        ) {
            Err(e) => Err(e),
            Ok(nu) => match corner_result_spec(
                ds,
                crate::align::aligned_corner_spec(p, true, false, false),
            ) {
                Err(e) => Err(e),
                Ok(nwd) => match corner_result_spec(
                    ds,
                    crate::align::aligned_corner_spec(p, true, false, true),
                ) {
                    Err(e) => Err(e),
                    Ok(nwu) => match corner_result_spec(
                        ds,
                        crate::align::aligned_corner_spec(p, false, true, false),
                    ) {
                        Err(e) => Err(e),
                        Ok(sd) => match corner_result_spec(
                            ds,
                            crate::align::aligned_corner_spec(p, false, true, true),
                        ) {
                            Err(e) => Err(e),
                            Ok(su) => match corner_result_spec(
                                ds,
                                crate::align::aligned_corner_spec(p, false, false, false),
                            ) {
                                Err(e) => Err(e),
                                Ok(swd) => match corner_result_spec(
                                    ds,
                                    crate::align::aligned_corner_spec(p, false, false, true),
                                ) {
                                    Err(e) => Err(e),
                                    Ok(swu) => Ok(
                                        interpolate_spec(
                                            pn,
                                            pe,
                                            pd,
                                            nd,
                                            nu,
                                            nwd,
                                            nwu,
                                            sd,
                                            su,
                                            swd,
                                            swu,
                                        ),
                                    ),
                                },
                            },
                        },
                    },
                },
            },
        },
    }
}

impl Dataset {
    /// The trilinearly interpolated atmosphere at a point.
    pub fn atmospheroid_at(&self, point: &Point, cache: &mut Cache) -> (r: Result<
        Atmospheroid,
        PredictorError,
    >)
        requires
            self.wf(),
            point.wf(),
            ds_auth(*self, lru_contents(*old(cache))),
        ensures
            lru_capacity(*final(cache)) == lru_capacity(*old(cache)),
            cache_extends(*self, lru_contents(*old(cache)), lru_contents(*final(cache))),
            cache_growth_ok(
                lru_contents(*old(cache)),
                lru_capacity(*old(cache)),
                lru_contents(*final(cache)),
            ),
            ds_auth(*self, lru_contents(*final(cache))),
            r == dataset_atmo_spec(*self, *point),
            match r {
                Ok(v) => v.bounded(8_000_000_000) && v.velocity.vertical == 0,
                Err(_) => true,
            },
    {
        proof {
            reveal(dataset_atmo_spec);
        }
        let ghost m0 = lru_contents(*old(cache));
        let al = point.align();
        let ne_down = match self.atmospheroid_at_aligned(&al.ne_down, cache) {
            Ok(v) => v,
            Err(e) => {
                return Err(e);
            },
        };
        proof {
            lemma_extends_preserves_auth(*self, m0, lru_contents(*cache));
        }
        let ghost m1 = lru_contents(*cache);
        let ne_up = match self.atmospheroid_at_aligned(&al.ne_up, cache) {
            Ok(v) => v,
            Err(e) => {
                proof {
                    lemma_extends_trans(*self, m0, m1, lru_contents(*cache));
                    lemma_growth_trans(m0, lru_capacity(*old(cache)), m1, lru_contents(*cache));
                }
                return Err(e);
            },
        };
        proof {
            lemma_extends_trans(*self, m0, m1, lru_contents(*cache));
            lemma_growth_trans(m0, lru_capacity(*old(cache)), m1, lru_contents(*cache));
            lemma_extends_preserves_auth(*self, m0, lru_contents(*cache));
        }
        let ghost m2 = lru_contents(*cache);
        let nw_down = match self.atmospheroid_at_aligned(&al.nw_down, cache) {
            Ok(v) => v,
            Err(e) => {
                proof {
                    lemma_extends_trans(*self, m0, m2, lru_contents(*cache));
                    lemma_growth_trans(m0, lru_capacity(*old(cache)), m2, lru_contents(*cache));
                }
                return Err(e);
            },
        };
        proof {
            lemma_extends_trans(*self, m0, m2, lru_contents(*cache));
            lemma_growth_trans(m0, lru_capacity(*old(cache)), m2, lru_contents(*cache));
            lemma_extends_preserves_auth(*self, m0, lru_contents(*cache));
        }
        let ghost m3 = lru_contents(*cache);
        let nw_up = match self.atmospheroid_at_aligned(&al.nw_up, cache) {
            Ok(v) => v,
            Err(e) => {
                proof {
                    lemma_extends_trans(*self, m0, m3, lru_contents(*cache));
                    lemma_growth_trans(m0, lru_capacity(*old(cache)), m3, lru_contents(*cache));
                }
                return Err(e);
            },
        };
        proof {
            lemma_extends_trans(*self, m0, m3, lru_contents(*cache));
            lemma_growth_trans(m0, lru_capacity(*old(cache)), m3, lru_contents(*cache));
            lemma_extends_preserves_auth(*self, m0, lru_contents(*cache));
        }
        let ghost m4 = lru_contents(*cache);
        let se_down = match self.atmospheroid_at_aligned(&al.se_down, cache) {
            Ok(v) => v,
            Err(e) => {
                proof {
                    lemma_extends_trans(*self, m0, m4, lru_contents(*cache));
                    lemma_growth_trans(m0, lru_capacity(*old(cache)), m4, lru_contents(*cache));
                }
                return Err(e);
            },
        };
        proof {
            lemma_extends_trans(*self, m0, m4, lru_contents(*cache));
            lemma_growth_trans(m0, lru_capacity(*old(cache)), m4, lru_contents(*cache));
            lemma_extends_preserves_auth(*self, m0, lru_contents(*cache));
        }
        let ghost m5 = lru_contents(*cache);
        let se_up = match self.atmospheroid_at_aligned(&al.se_up, cache) {
            Ok(v) => v,
            Err(e) => {
                proof {
                    lemma_extends_trans(*self, m0, m5, lru_contents(*cache));
                    lemma_growth_trans(m0, lru_capacity(*old(cache)), m5, lru_contents(*cache));
                }
                return Err(e);
            },
        };
        proof {
            lemma_extends_trans(*self, m0, m5, lru_contents(*cache));
            lemma_growth_trans(m0, lru_capacity(*old(cache)), m5, lru_contents(*cache));
            lemma_extends_preserves_auth(*self, m0, lru_contents(*cache));
        }
        let ghost m6 = lru_contents(*cache);
        let sw_down = match self.atmospheroid_at_aligned(&al.sw_down, cache) {
            Ok(v) => v,
            Err(e) => {
                proof {
                    lemma_extends_trans(*self, m0, m6, lru_contents(*cache));
                    lemma_growth_trans(m0, lru_capacity(*old(cache)), m6, lru_contents(*cache));
                }
                return Err(e);
            },
        };
        proof {
            lemma_extends_trans(*self, m0, m6, lru_contents(*cache));
            lemma_growth_trans(m0, lru_capacity(*old(cache)), m6, lru_contents(*cache));
            lemma_extends_preserves_auth(*self, m0, lru_contents(*cache));
        }
        let ghost m7 = lru_contents(*cache);
        let sw_up = match self.atmospheroid_at_aligned(&al.sw_up, cache) {
            Ok(v) => v,
            Err(e) => {
                proof {
                    lemma_extends_trans(*self, m0, m7, lru_contents(*cache));
                    lemma_growth_trans(m0, lru_capacity(*old(cache)), m7, lru_contents(*cache));
                }
                return Err(e);
            },
        };
        proof {
            lemma_extends_trans(*self, m0, m7, lru_contents(*cache));
            lemma_growth_trans(m0, lru_capacity(*old(cache)), m7, lru_contents(*cache));
        }
        let down = lerp(
            &lerp(&ne_down, &nw_down, al.percent_east),
            &lerp(&se_down, &sw_down, al.percent_east),
            al.percent_north,
        );
        let up = lerp(
            &lerp(&ne_up, &nw_up, al.percent_east),
            &lerp(&se_up, &sw_up, al.percent_east),
            al.percent_north,
        );
        proof {
            assert(ne_down.bounded(1_000_000_000) && nw_down.bounded(1_000_000_000));
            assert(down.bounded(4_000_000_000));
            assert(up.bounded(4_000_000_000));
        }
        let total = lerp(&down, &up, al.percent_down);
        proof {
            assert(total.bounded(8_000_000_000));
            lemma_lerp_vertical_zero(ne_down, nw_down, al.percent_east as int);
            lemma_lerp_vertical_zero(se_down, sw_down, al.percent_east as int);
            lemma_lerp_vertical_zero(ne_up, nw_up, al.percent_east as int);
            lemma_lerp_vertical_zero(se_up, sw_up, al.percent_east as int);
            lemma_lerp_vertical_zero(
                lerp_spec(ne_down, nw_down, al.percent_east as int),
                lerp_spec(se_down, sw_down, al.percent_east as int),
                al.percent_north as int,
            );
            lemma_lerp_vertical_zero(
                lerp_spec(ne_up, nw_up, al.percent_east as int),
                lerp_spec(se_up, sw_up, al.percent_east as int),
                al.percent_north as int,
            );
            lemma_lerp_vertical_zero(down, up, al.percent_down as int);
            assert(total.velocity.vertical == 0);
        }
        Ok(total)
    }
}


/// A decimal digit.
pub open spec fn is_digit_char(c: char) -> bool {
    48 <= c as u32 <= 57
}

/// The value of a run of decimal digits.
pub open spec fn digits_val_spec(s: Seq<char>) -> int
    decreases s.len(),
{
    if s.len() == 0 {
        0
    } else {
        digits_val_spec(s.drop_last()) * 10 + (s.last() as u32 - 48)
    }
}

/// Every character is a decimal digit.
pub open spec fn all_digits_spec(s: Seq<char>) -> bool {
    forall|i: int| 0 <= i < s.len() ==> is_digit_char(#[trigger] s[i])
}

/// The suffix after the last slash; the whole string when it has none.
pub open spec fn name_after_slash_spec(s: Seq<char>) -> Seq<char>
    decreases s.len(),
{
    if s.len() == 0 {
        s
    } else if s.last() == '/' {
        Seq::empty()
    } else {
        name_after_slash_spec(s.drop_last()).push(s.last())
    }
}

proof fn lemma_name_after_slash(s: Seq<char>, start: int)
    requires
        0 <= start <= s.len(),
        start == 0 || s[start - 1] == '/',
        forall|j: int| start <= j < s.len() ==> s[j] != '/',
    ensures
        name_after_slash_spec(s) == s.subrange(start, s.len() as int),
    decreases s.len() - start,
{
    if start == s.len() {
        if s.len() > 0 {
            assert(name_after_slash_spec(s) =~= s.subrange(start, s.len() as int));
        }
    } else {
        assert(s.last() != '/');
        lemma_name_after_slash(s.drop_last(), start);
        assert(name_after_slash_spec(s.drop_last()).push(s.last()) =~= s.subrange(
            start,
            s.len() as int,
        ));
    }
}

/// Whether a directory name is a conforming dataset name:
/// `gfs_4_YYYYMMDD_HHMM_FFF` with a valid date, an hour period among
/// 0000, 0600, 1200 and 1800, and a numeric hour offset.
pub open spec fn dataset_name_ok(s: Seq<char>) -> bool {
    let y = digits_val_spec(s.subrange(6, 10));
    let mo = digits_val_spec(s.subrange(10, 12));
    let d = digits_val_spec(s.subrange(12, 14));
    let hv = digits_val_spec(s.subrange(15, 19));
    &&& 21 <= s.len() <= 30
    &&& s[0] == 'g'
    &&& s[1] == 'f'
    &&& s[2] == 's'
    &&& s[3] == '_'
    &&& s[4] == '4'
    &&& s[5] == '_'
    &&& all_digits_spec(s.subrange(6, 14))
    &&& s[14] == '_'
    &&& all_digits_spec(s.subrange(15, 19))
    &&& (hv == 0 || hv == 600 || hv == 1200 || hv == 1800)
    &&& s[19] == '_'
    &&& all_digits_spec(s.subrange(20, s.len() as int))
    &&& digits_val_spec(s.subrange(20, s.len() as int)) <= 0xFFFF_FFFF
    &&& 1 <= mo <= 12
    &&& 1 <= d <= crate::clock::days_in_month_spec(y, mo)
}

/// The creation and valid times of a conforming dataset name.
pub open spec fn dataset_times_spec(s: Seq<char>) -> (int, int)
    recommends
        dataset_name_ok(s),
{
    let y = digits_val_spec(s.subrange(6, 10));
    let mo = digits_val_spec(s.subrange(10, 12));
    let d = digits_val_spec(s.subrange(12, 14));
    let h = digits_val_spec(s.subrange(15, 19)) / 100;
    let off = digits_val_spec(s.subrange(20, s.len() as int));
    let created = crate::clock::epoch_spec(y, mo, d, h);
    (created, created + off * 3600)
}

proof fn lemma_digits_step(s: Seq<char>, k: int)
    requires
        0 <= k < s.len(),
    ensures
        digits_val_spec(s.take(k + 1)) == digits_val_spec(s.take(k)) * 10 + (s[k] as u32 - 48),
{
    assert(s.take(k + 1).drop_last() =~= s.take(k));
    assert(s.take(k + 1).last() == s[k]);
}

spec fn pow10_spec(b: int) -> int {
    if b <= 0 {
        1
    } else if b == 1 {
        10
    } else if b == 2 {
        100
    } else if b == 3 {
        1000
    } else if b == 4 {
        10000
    } else if b == 5 {
        100000
    } else if b == 6 {
        1000000
    } else if b == 7 {
        10000000
    } else if b == 8 {
        100000000
    } else if b == 9 {
        1000000000
    } else {
        10000000000
    }
}

proof fn lemma_digits_bound(s: Seq<char>, b: int)
    requires
        all_digits_spec(s),
        s.len() <= 10,
        b == s.len(),
    ensures
        0 <= digits_val_spec(s) < pow10_spec(b),
    decreases s.len(),
{
    if s.len() > 0 {
        assert(forall|i: int|
            0 <= i < s.drop_last().len() ==> is_digit_char(#[trigger] s.drop_last()[i]));
        lemma_digits_bound(s.drop_last(), b - 1);
    }
}

/// Parses the digit run `[from, to)` of an ASCII-indexed string slice.
fn parse_digits(t: &str, from: usize, to: usize) -> (r: Option<u64>)
    requires
        from <= to,
        to <= t@.len(),
        to - from <= 10,
    ensures
        match r {
            Some(v) => all_digits_spec(t@.subrange(from as int, to as int)) && v
                == digits_val_spec(t@.subrange(from as int, to as int)),
            None => !all_digits_spec(t@.subrange(from as int, to as int)),
        },
{
    let ghost sub = t@.subrange(from as int, to as int);
    let mut val: u64 = 0;
    let mut k = from;
    while k < to
        invariant
            from <= k <= to,
            to <= t@.len(),
            to - from <= 10,
            sub == t@.subrange(from as int, to as int),
            all_digits_spec(sub.take(k - from)),
            val == digits_val_spec(sub.take(k - from)),
            val < 10_000_000_000,
        decreases to - k,
    {
        let c = t.get_char(k);
        let u = c as u32;
        if !(48 <= u && u <= 57) {
            proof {
                assert(sub[k - from] == t@[k as int]);
                assert(!is_digit_char(sub[k - from]));
            }
            return None;
        }
        proof {
            lemma_digits_step(sub, k - from);
            assert(sub.take(k - from + 1).drop_last() =~= sub.take(k - from));
            lemma_digits_bound(sub.take(k - from + 1), k - from + 1);
            assert(sub[k - from] == t@[k as int]);
        }
        val = val * 10 + ((u - 48) as u64);
        k = k + 1;
    }
    proof {
        assert(sub.take(to - from) =~= sub);
    }
    Some(val)
}

impl Dataset {
    /// Parses a dataset directory path. The name is the path's last
    /// component; it must read `gfs_4_YYYYMMDD_HHMM_FFF` with a valid
    /// date, an hour period among 0000, 0600, 1200 and 1800 and a
    /// numeric forecast-hour offset.  The valid time is the creation
    /// time plus the offset in hours.  The dataset starts with no
    /// tiles.
    pub fn new(path: String, id: u32) -> (r: Result<Dataset, PredictorError>)
        requires
            id < 32,
        ensures
            match r {
                Ok(ds) => {
                    &&& dataset_name_ok(name_after_slash_spec(path@))
                    &&& ds.created_at == dataset_times_spec(name_after_slash_spec(path@)).0
                    &&& ds.time == dataset_times_spec(name_after_slash_spec(path@)).1
                    &&& ds.id == id
                    &&& ds.name@ == name_after_slash_spec(path@)
                    &&& ds.tiles@.len() == 0
                    &&& ds.wf()
                },
                Err(e) => e == PredictorError::InvalidParams && !dataset_name_ok(
                    name_after_slash_spec(path@),
                ),
            },
    {
        let s = path.as_str();
        let n = s.unicode_len();
        let mut start: usize = 0;
        let mut i: usize = 0;
        while i < n
            invariant
                0 <= start <= i <= n,
                n == s@.len(),
                start == 0 || s@[start - 1] == '/',
                forall|j: int| start <= j < i ==> s@[j] != '/',
            decreases n - i,
        {
            if s.get_char(i) == '/' {
                start = i + 1;
            }
            i = i + 1;
        }
        proof {
            lemma_name_after_slash(s@, start as int);
        }
        let t = s.substring_char(start, n);
        let ghost nm = name_after_slash_spec(path@);
        let len = n - start;
        if len < 21 || len > 30 {
            return Err(PredictorError::InvalidParams);
        }
        if !(t.get_char(0) == 'g' && t.get_char(1) == 'f' && t.get_char(2) == 's' && t.get_char(3)
            == '_' && t.get_char(4) == '4' && t.get_char(5) == '_' && t.get_char(14) == '_'
            && t.get_char(19) == '_') {
            return Err(PredictorError::InvalidParams);
        }
        let date_digits = match parse_digits(t, 6, 14) {
            Some(_) => true,
            None => false,
        };
        if !date_digits {
            return Err(PredictorError::InvalidParams);
        }
        proof {
            assert(nm.subrange(6, 10) =~= nm.subrange(6, 14).subrange(0, 4));
            assert(nm.subrange(10, 12) =~= nm.subrange(6, 14).subrange(4, 6));
            assert(nm.subrange(12, 14) =~= nm.subrange(6, 14).subrange(6int, 8int));
            assert forall|q: int| 0 <= q < 8 implies is_digit_char(#[trigger] nm.subrange(6, 14)[q])
                by {
                assert(nm.subrange(6, 14)[q] == nm[6 + q]);
            }
            lemma_digits_bound(nm.subrange(6, 10), 4);
            lemma_digits_bound(nm.subrange(10, 12), 2);
            lemma_digits_bound(nm.subrange(12, 14), 2);
        }
        let y = match parse_digits(t, 6, 10) {
            Some(v) => v,
            None => {
                return Err(PredictorError::InvalidParams);
            },
        };
        let mo = match parse_digits(t, 10, 12) {
            Some(v) => v,
            None => {
                return Err(PredictorError::InvalidParams);
            },
        };
        let d = match parse_digits(t, 12, 14) {
            Some(v) => v,
            None => {
                return Err(PredictorError::InvalidParams);
            },
        };
        let hv = match parse_digits(t, 15, 19) {
            Some(v) => v,
            None => {
                return Err(PredictorError::InvalidParams);
            },
        };
        if !(hv == 0 || hv == 600 || hv == 1200 || hv == 1800) {
            return Err(PredictorError::InvalidParams);
        }
        let off = match parse_digits(t, 20, len) {
            Some(v) => v,
            None => {
                return Err(PredictorError::InvalidParams);
            },
        };
        if off > 0xFFFF_FFFF {
            return Err(PredictorError::InvalidParams);
        }
        if !(1 <= mo && mo <= 12) {
            return Err(PredictorError::InvalidParams);
        }
        let dim = crate::clock::days_in_month(y as i64, mo as i64);
        if !(1 <= d && (d as i64) <= dim) {
            return Err(PredictorError::InvalidParams);
        }
        let h = (hv / 100) as u32;
        let created = crate::clock::utc_timestamp(y as i32, mo as u32, d as u32, h);
        let time = created + (off as i64) * 3600;
        Ok(Dataset { created_at: created, time, id, name: t.to_owned(), tiles: Vec::new() })
    }

    /// Adds one tile, replacing any tile already under the same key:
    /// afterward the tiles are exactly the old ones, less any same-key
    /// tile, plus the new tile at the end.
    pub fn add_tile(&mut self, key: TileKey, bytes: Vec<u8>)
        requires
            old(self).wf(),
        ensures
            final(self).wf(),
            final(self).id == old(self).id,
            final(self).time == old(self).time,
            final(self).created_at == old(self).created_at,
            final(self).name == old(self).name,
            final(self).tiles@ == (if tile_find_spec(old(self).tiles@, key, 0) < 0 {
                old(self).tiles@
            } else {
                old(self).tiles@.remove(tile_find_spec(old(self).tiles@, key, 0))
            }).push((Tile { key, bytes })),
            exists|i: int|
                0 <= i < final(self).tiles@.len() && #[trigger] final(self).tiles@[i].key == key,
    {
        match tile_find(&self.tiles, key, 0) {
            Some(i) => {
                let ghost pre = self.tiles@;
                self.tiles.remove(i);
                proof {
                    assert forall|a: int, b: int|
                        0 <= a < b < self.tiles@.len() implies #[trigger] self.tiles@[a].key
                        != #[trigger] self.tiles@[b].key by {
                        assert(self.tiles@[a] == if a < i as int {
                            pre[a]
                        } else {
                            pre[a + 1]
                        });
                        assert(self.tiles@[b] == if b < i as int {
                            pre[b]
                        } else {
                            pre[b + 1]
                        });
                    }
                    assert forall|j: int| 0 <= j < self.tiles@.len() implies #[trigger] self.tiles@[j].key
                        != key by {
                        assert(self.tiles@[j] == if j < i as int {
                            pre[j]
                        } else {
                            pre[j + 1]
                        });
                    }
                }
                self.tiles.push(Tile { key, bytes });
                proof {
                    let n = self.tiles@.len() - 1;
                    assert(self.tiles@[n].key == key);
                }
            },
            None => {
                let ghost pre = self.tiles@;
                proof {
                    lemma_tile_find_none(pre, key, 0);
                }
                self.tiles.push(Tile { key, bytes });
                proof {
                    let n = self.tiles@.len() - 1;
                    assert(self.tiles@[n].key == key);
                }
            },
        }
    }
}

/// A failed tile search means no tile holds the key.
proof fn lemma_tile_find_none(tiles: Seq<Tile>, k: TileKey, i: int)
    requires
        0 <= i,
        tile_find_spec(tiles, k, i) == -1,
    ensures
        forall|j: int| i <= j < tiles.len() ==> #[trigger] tiles[j].key != k,
    decreases tiles.len() - i,
{
    if i < tiles.len() {
        lemma_tile_find_none(tiles, k, i + 1);
    }
}

} // verus!
