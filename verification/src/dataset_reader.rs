//! The catalog: the ordered datasets of a root directory and the shared
//! bounded cache, serving interpolated lookups at the dataset nearest in
//! time.

use vstd::prelude::*;

use crate::cache::{cache_new, lru_capacity, lru_contents, Cache};
use crate::align::key_dataset_id_spec;
use crate::dataset::{
    authoritative_for, dataset_atmo_spec, dataset_name_ok, dataset_times_spec, ds_auth,
    name_after_slash_spec, Dataset,
};
use crate::errors::PredictorError;
use crate::point::{Atmospheroid, Point, Velocity};

verus! {

/// The cache budget in bytes.
pub const CACHE_SIZE: usize = 50_000_000;

/// The assumed size of one cache entry, in bytes.
pub const BYTES_PER_CACHE_ELEMENT: usize = 16;

/// The conforming names among a listing, in order, after the slash cut.
pub open spec fn selected_names_spec(names: Seq<Seq<char>>) -> Seq<Seq<char>>
    decreases names.len(),
{
    if names.len() == 0 {
        Seq::empty()
    } else {
        let pre = selected_names_spec(names.drop_last());
        let nm = name_after_slash_spec(names.last());
        if dataset_name_ok(nm) {
            pre.push(nm)
        } else {
            pre
        }
    }
}

/// The catalog.
pub struct DataSetReader {
    /// The shared corner cache.
    pub cache: Cache,
    /// The datasets in insertion order; the id of each is its index.
    pub datasets: Vec<Dataset>,
}

impl DataSetReader {
    /// The catalog invariant: at most 32 datasets, ids equal to indices,
    /// every cache entry authoritative for the dataset its key names,
    /// and the cache bounded by the capacity it was created with.
    pub open spec fn wf(self) -> bool {
        &&& self.datasets@.len() <= 32
        &&& forall|i: int|
            0 <= i < self.datasets@.len() ==> (#[trigger] self.datasets@[i]).wf()
                && self.datasets@[i].id == i
        &&& forall|k: u32|
            #[trigger] lru_contents(self.cache).contains_key(k) ==> 0 <= key_dataset_id_spec(
                k as int,
            ) < self.datasets@.len() && authoritative_for(
                self.datasets@[key_dataset_id_spec(k as int)],
                k,
                lru_contents(self.cache)[k],
            )
        &&& lru_capacity(self.cache) == (CACHE_SIZE / BYTES_PER_CACHE_ELEMENT) as nat
        &&& lru_contents(self.cache).dom().finite()
        &&& lru_contents(self.cache).dom().len() <= (CACHE_SIZE / BYTES_PER_CACHE_ELEMENT) as nat
    }
}

proof fn lemma_selected_step(names: Seq<Seq<char>>, k: int)
    requires
        0 <= k < names.len(),
    ensures
        selected_names_spec(names.take(k + 1)) == (if dataset_name_ok(
            name_after_slash_spec(names[k]),
        ) {
            selected_names_spec(names.take(k)).push(name_after_slash_spec(names[k]))
        } else {
            selected_names_spec(names.take(k))
        }),
{
    assert(names.take(k + 1).drop_last() =~= names.take(k));
    assert(names.take(k + 1).last() == names[k]);
}

impl DataSetReader {
    /// Builds the catalog from a directory listing: each entry whose
    /// last path component parses as a dataset name becomes a dataset
    /// with the next id, non-conforming entries are silently skipped,
    /// and entries beyond the 32 ids the cache key can carry are
    /// ignored.  The cache starts empty.
    pub fn new(names: Vec<String>) -> (r: DataSetReader)
        ensures
            r.wf(),
            ({
                let sel = selected_names_spec(names@.map_values(|s: String| s@));
                &&& r.datasets@.len() == (if sel.len() <= 32 {
                    sel.len() as int
                } else {
                    32
                })
                &&& forall|i: int|
                    0 <= i < r.datasets@.len() ==> {
                        let ds = #[trigger] r.datasets@[i];
                        &&& ds.name@ == sel[i]
                        &&& ds.id == i
                        &&& ds.created_at == dataset_times_spec(sel[i]).0
                        &&& ds.time == dataset_times_spec(sel[i]).1
                        &&& ds.tiles@.len() == 0
                    }
            }),
            forall|k: u32| !lru_contents(r.cache).contains_key(k),
            lru_capacity(r.cache) == CACHE_SIZE / BYTES_PER_CACHE_ELEMENT,
    {
        let ghost views = names@.map_values(|s: String| s@);
        let mut datasets: Vec<Dataset> = Vec::new();
        let mut k: usize = 0;
        let n = names.len();
        while k < n
            invariant
                k <= n,
                n == names@.len(),
                views == names@.map_values(|s: String| s@),
                ({
                    let sel = selected_names_spec(views.take(k as int));
                    &&& datasets@.len() == (if sel.len() <= 32 {
                        sel.len() as int
                    } else {
                        32
                    })
                    &&& forall|i: int|
                        0 <= i < datasets@.len() ==> {
                            let ds = #[trigger] datasets@[i];
                            &&& ds.name@ == sel[i]
                            &&& ds.id == i
                            &&& ds.created_at == dataset_times_spec(sel[i]).0
                            &&& ds.time == dataset_times_spec(sel[i]).1
                            &&& ds.tiles@.len() == 0
                            &&& ds.wf()
                        }
                }),
            decreases n - k,
        {
            proof {
                lemma_selected_step(views, k as int);
                assert(views[k as int] == names@[k as int]@);
            }
            let id = datasets.len();
            if id < 32 {
                match Dataset::new(names[k].clone(), id as u32) {
                    Ok(ds) => {
                        datasets.push(ds);
                    },
                    Err(_) => {},
                }
            } else {
                match Dataset::new(names[k].clone(), 0) {
                    Ok(_) => {},
                    Err(_) => {},
                }
            }
            k = k + 1;
        }
        proof {
            assert(views.take(n as int) =~= views);
        }
        DataSetReader { cache: cache_new(CACHE_SIZE / BYTES_PER_CACHE_ELEMENT), datasets }
    }
}

/// The clamped absolute gap between two times.
pub open spec fn time_diff_spec(a: int, b: int) -> int {
    let d = if a >= b {
        a - b
    } else {
        b - a
    };
    if d > i64::MAX as int {
        i64::MAX as int
    } else {
        d
    }
}

fn time_diff(a: i64, b: i64) -> (r: i64)
    ensures
        r == time_diff_spec(a as int, b as int),
{
    let d: i128 = if a >= b {
        (a as i128) - (b as i128)
    } else {
        (b as i128) - (a as i128)
    };
    if d > (i64::MAX as i128) {
        i64::MAX
    } else {
        d as i64
    }
}

/// The scan for the dataset nearest in valid time, keeping the earliest
/// on ties.
pub open spec fn select_scan_spec(datasets: Seq<Dataset>, t: int, i: int, best: int) -> int
    recommends
        1 <= i <= datasets.len(),
        0 <= best < i,
    decreases datasets.len() - i,
{
    if i < 1 || i >= datasets.len() {
        best
    } else if time_diff_spec(datasets[i].time as int, t) < time_diff_spec(
        datasets[best].time as int,
        t,
    ) {
        select_scan_spec(datasets, t, i + 1, i)
    } else {
        select_scan_spec(datasets, t, i + 1, best)
    }
}

/// The index of the selected dataset for a query time.
pub open spec fn select_spec(datasets: Seq<Dataset>, t: int) -> int {
    select_scan_spec(datasets, t, 1, 0)
}

fn select_scan(datasets: &Vec<Dataset>, t: i64, i: usize, best: usize) -> (r: usize)
    requires
        1 <= i <= datasets@.len(),
        best < i,
        forall|j: int|
            0 <= j < i ==> time_diff_spec(datasets@[best as int].time as int, t as int)
                <= time_diff_spec((#[trigger] datasets@[j]).time as int, t as int),
        forall|j: int|
            0 <= j < best ==> time_diff_spec((#[trigger] datasets@[j]).time as int, t as int)
                > time_diff_spec(datasets@[best as int].time as int, t as int),
    ensures
        r == select_scan_spec(datasets@, t as int, i as int, best as int),
        r < datasets@.len(),
        forall|j: int|
            0 <= j < datasets@.len() ==> time_diff_spec(datasets@[r as int].time as int, t as int)
                <= time_diff_spec((#[trigger] datasets@[j]).time as int, t as int),
        forall|j: int|
            0 <= j < r ==> time_diff_spec((#[trigger] datasets@[j]).time as int, t as int)
                > time_diff_spec(datasets@[r as int].time as int, t as int),
    decreases datasets@.len() - i,
{
    if i >= datasets.len() {
        best
    } else {
        let di = time_diff(datasets[i].time, t);
        let db = time_diff(datasets[best].time, t);
        if di < db {
            select_scan(datasets, t, i + 1, i)
        } else {
            select_scan(datasets, t, i + 1, best)
        }
    }
}

impl DataSetReader {
    /// Selects the dataset whose valid time is nearest the query time;
    /// among equal gaps the lowest dataset id (the earliest inserted)
    /// wins, so selection is deterministic.
    pub fn select_dataset(&self, t: i64) -> (r: usize)
        requires
            self.datasets@.len() > 0,
        ensures
            r == select_spec(self.datasets@, t as int),
            r < self.datasets@.len(),
            forall|j: int|
                0 <= j < self.datasets@.len() ==> time_diff_spec(
                    self.datasets@[r as int].time as int,
                    t as int,
                ) <= time_diff_spec((#[trigger] self.datasets@[j]).time as int, t as int),
            forall|j: int|
                0 <= j < r ==> time_diff_spec((#[trigger] self.datasets@[j]).time as int, t as int)
                    > time_diff_spec(self.datasets@[r as int].time as int, t as int),
    {
        select_scan(&self.datasets, t, 1, 0)
    }
}

/// What the whole catalog answers at a point: the nearest dataset's
/// interpolated atmosphere.  This depends on the datasets and the point
/// alone, never on the cache.
#[verifier::opaque]
pub open spec fn reader_atmo_spec(datasets: Seq<Dataset>, p: Point) -> Result<
    Atmospheroid,
    PredictorError,
> {
    if datasets.len() == 0 {
        Err(PredictorError::NoDatasets)
    } else {
        dataset_atmo_spec(datasets[select_spec(datasets, p.time as int)], p)
    }
}

/// The cache is transparent: catalogs with the same datasets answer
/// every query identically, whatever their caches hold, so a sequence
/// of wind queries returns the same values with or without an
/// empty-start cache.
pub proof fn lemma_cache_transparent(r1: DataSetReader, r2: DataSetReader, p: Point)
    requires
        r1.datasets@ == r2.datasets@,
    ensures
        reader_atmo_spec(r1.datasets@, p) == reader_atmo_spec(r2.datasets@, p),
{
}

impl DataSetReader {
    /// The interpolated atmosphere at a point, from the dataset nearest
    /// in time.
    pub fn atmospheroid_at(&mut self, point: &Point) -> (r: Result<Atmospheroid, PredictorError>)
        requires
            old(self).wf(),
            point.wf(),
        ensures
            final(self).wf(),
            final(self).datasets == old(self).datasets,
            r == reader_atmo_spec(old(self).datasets@, *point),
            match r {
                Ok(v) => v.bounded(8_000_000_000) && v.velocity.vertical == 0,
                Err(_) => true,
            },
    {
        proof {
            reveal(reader_atmo_spec);
        }
        if self.datasets.len() == 0 {
            return Err(PredictorError::NoDatasets);
        }
        let i = self.select_dataset(point.time);
        let ghost ds = self.datasets@[i as int];
        let ghost m0 = lru_contents(self.cache);
        proof {
            assert forall|k: u32|
                #[trigger] m0.contains_key(k) && key_dataset_id_spec(k as int) == ds.id
                    implies authoritative_for(ds, k, m0[k]) by {
                assert(key_dataset_id_spec(k as int) == i as int);
            }
        }
        let r = self.datasets[i].atmospheroid_at(point, &mut self.cache);
        proof {
            assert(lru_contents(self.cache).dom().len() <= (CACHE_SIZE
                / BYTES_PER_CACHE_ELEMENT) as nat);
            let m1 = lru_contents(self.cache);
            assert forall|k: u32| #[trigger] m1.contains_key(k) implies 0 <= key_dataset_id_spec(
                k as int,
            ) < self.datasets@.len() && authoritative_for(
                self.datasets@[key_dataset_id_spec(k as int)],
                k,
                m1[k],
            ) by {
                if !(m0.contains_key(k) && m1[k] == m0[k]) {
                    assert(key_dataset_id_spec(k as int) == ds.id);
                }
            }
        }
        r
    }

    /// The wind at a point.
    pub fn velocity_at(&mut self, point: &Point) -> (r: Result<Velocity, PredictorError>)
        requires
            old(self).wf(),
            point.wf(),
        ensures
            final(self).wf(),
            final(self).datasets == old(self).datasets,
            r == (match reader_atmo_spec(old(self).datasets@, *point) {
                Ok(a) => Ok(a.velocity),
                Err(e) => Err(e),
            }),
            match r {
                Ok(v) => v.wf() && v.vertical == 0,
                Err(_) => true,
            },
    {
        match self.atmospheroid_at(point) {
            Ok(a) => Ok(a.velocity),
            Err(e) => Err(e),
        }
    }

    /// The dataset names, in insertion order.
    pub fn get_datasets(&self) -> (r: Result<Vec<String>, PredictorError>)
        ensures
            ({
                match r {
                    Ok(v) => v@.len() == self.datasets@.len() && (forall|i: int|
                        0 <= i < v@.len() ==> (#[trigger] v@[i])@ == self.datasets@[i].name@),
                    Err(_) => false,
                }
            }),
    {
        let mut out: Vec<String> = Vec::new();
        let mut i: usize = 0;
        let n = self.datasets.len();
        while i < n
            invariant
                i <= n,
                n == self.datasets@.len(),
                out@.len() == i,
                forall|j: int| 0 <= j < i ==> (#[trigger] out@[j])@ == self.datasets@[j].name@,
            decreases n - i,
        {
            out.push(self.datasets[i].name.clone());
            i = i + 1;
        }
        Ok(out)
    }
}

/// The wind at a point, through a catalog.
pub fn velocity_at(reader: &mut DataSetReader, point: &Point) -> (r: Result<
    Velocity,
    PredictorError,
>)
    requires
        old(reader).wf(),
        point.wf(),
    ensures
        final(reader).wf(),
        final(reader).datasets == old(reader).datasets,
        r == (match reader_atmo_spec(old(reader).datasets@, *point) {
            Ok(a) => Ok(a.velocity),
            Err(e) => Err(e),
        }),
        match r {
            Ok(v) => v.wf() && v.vertical == 0,
            Err(_) => true,
        },
{
    reader.velocity_at(point)
}

/// The dataset names of a catalog, in insertion order.
pub fn get_datasets(reader: &DataSetReader) -> (r: Result<Vec<String>, PredictorError>)
    ensures
        ({
            match r {
                Ok(v) => v@.len() == reader.datasets@.len() && (forall|i: int|
                    0 <= i < v@.len() ==> (#[trigger] v@[i])@ == reader.datasets@[i].name@),
                Err(_) => false,
            }
        }),
{
    reader.get_datasets()
}

} // verus!
