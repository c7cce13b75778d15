//! The compact binary tile format.
//!
//! A tile is a concatenation of 20-byte records, each of five IEEE-754
//! big-endian 32-bit floats: latitude, longitude, the eastward and
//! northward wind components `u` and `v`, and temperature.  Floats are
//! decoded by explicit bit manipulation into fixed-point integers,
//! truncated toward zero and saturated at a per-field bound; the
//! exponents 255 (infinities and NaNs) saturate.

use vstd::prelude::*;

use vstd::arithmetic::power2::pow2;

use crate::align::{cell_of_spec, AlignedPoint};
use crate::arith::div_floor;
use crate::point::{Atmospheroid, Velocity};

verus! {

/// Saturation bound of decoded coordinates, in microdegrees.
pub const COORD_SAT: i64 = 1_000_000_000_000;

/// Saturation bound of decoded wind components, in mm/s.
pub const VEL_SAT: i64 = 1_000_000_000;

/// Saturation bound of decoded temperatures, in millidegrees.
pub const TEMP_SAT: i64 = 1_000_000_000;

/// The big-endian 32-bit value at `off`.
pub open spec fn be32_spec(bytes: Seq<u8>, off: int) -> int {
    bytes[off] * 0x1000000 + bytes[off + 1] * 0x10000 + bytes[off + 2] * 0x100 + bytes[off + 3]
}

fn be32(bytes: &Vec<u8>, off: usize) -> (r: u32)
    requires
        off + 4 <= bytes@.len(),
    ensures
        r == be32_spec(bytes@, off as int),
{
    let n = bytes.len();
    (bytes[off] as u32) * 0x1000000 + (bytes[off + 1] as u32) * 0x10000 + (bytes[off + 2] as u32)
        * 0x100 + (bytes[off + 3] as u32)
}

/// The fixed-point value, at a given scale, of an IEEE-754 single
/// precision bit pattern: the real value times `scale`, truncated
/// toward zero and saturated at `sat`.
#[verifier::opaque]
pub open spec fn fx_of_bits(bits: int, scale: int, sat: int) -> int
    recommends
        0 <= bits < 0x1_0000_0000,
        scale >= 1,
        sat >= 1,
{
    let s = bits / 0x8000_0000;
    let e = (bits / 0x80_0000) % 256;
    let m = bits % 0x80_0000;
    let mag = if e == 255 {
        sat
    } else {
        let ee = if e == 0 {
            1int
        } else {
            e
        };
        let mant = if e == 0 {
            m
        } else {
            m + 0x80_0000
        };
        if ee >= 150 {
            let v = mant * scale * pow2((ee - 150) as nat);
            if v > sat {
                sat
            } else {
                v
            }
        } else {
            let v = (mant * scale) / pow2((150 - ee) as nat) as int;
            if v > sat {
                sat
            } else {
                v
            }
        }
    };
    if s == 1 {
        -mag
    } else {
        mag
    }
}

fn pow2_u64(k: u32) -> (r: u64)
    requires
        k <= 63,
    ensures
        r as int == pow2(k as nat),
    decreases k,
{
    proof {
        vstd::arithmetic::power2::lemma2_to64();
        vstd::arithmetic::power2::lemma2_to64_rest();
        if k > 0 {
            vstd::arithmetic::power2::lemma_pow2_unfold(k as nat);
        }
    }
    if k == 0 {
        1
    } else {
        let half = pow2_u64(k - 1);
        proof {
            if ((k - 1) as nat) < 62 {
                vstd::arithmetic::power2::lemma_pow2_strictly_increases((k - 1) as nat, 62);
            }
        }
        2 * half
    }
}

/// Decode one float bit pattern to fixed point.
pub fn bits_to_fx(bits: u32, scale: u64, sat: i64) -> (r: i64)
    requires
        1 <= scale <= 1_000_000,
        1 <= sat <= 1_000_000_000_000,
    ensures
        r as int == fx_of_bits(bits as int, scale as int, sat as int),
        -sat <= r <= sat,
{
    proof {
        reveal(fx_of_bits);
    }
    let s = bits / 0x8000_0000;
    let e = (bits / 0x80_0000) % 256;
    let m = bits % 0x80_0000;
    let mag: i64 = if e == 255 {
        sat
    } else {
        let ee: u32 = if e == 0 {
            1
        } else {
            e
        };
        let mant: u64 = if e == 0 {
            m as u64
        } else {
            (m as u64) + 0x80_0000
        };
        proof {
            assert(mant * scale <= 0x100_0000 * 1_000_000) by (nonlinear_arith)
                requires
                    mant <= 0x100_0000,
                    scale <= 1_000_000,
                    0 <= mant,
                    0 <= scale,
            ;
        }
        let prod: u64 = mant * scale;
        if ee >= 150 {
            let k = ee - 150;
            if k >= 40 {
                proof {
                    vstd::arithmetic::power2::lemma2_to64();
                    vstd::arithmetic::power2::lemma2_to64_rest();
                    if k > 40 {
                        vstd::arithmetic::power2::lemma_pow2_strictly_increases(40, k as nat);
                    }
                    assert(mant * scale * pow2(k as nat) > 1_000_000_000_000) by (nonlinear_arith)
                        requires
                            mant >= 0x80_0000,
                            scale >= 1,
                            pow2(k as nat) >= 0x100_0000_0000,
                    ;
                }
                sat
            } else {
                let p2 = pow2_u64(k);
                proof {
                    vstd::arithmetic::power2::lemma2_to64();
                    vstd::arithmetic::power2::lemma2_to64_rest();
                    if ((k as nat)) < 39 {
                        vstd::arithmetic::power2::lemma_pow2_strictly_increases(k as nat, 39);
                    }
                    assert((prod as int) * (p2 as int) <= 0x10_0000_0000_0000 * 0x80_0000_0000)
                        by (nonlinear_arith)
                        requires
                            0 <= prod as int <= 0x10_0000_0000_0000,
                            0 <= p2 as int <= 0x80_0000_0000,
                    ;
                }
                let v: u128 = (prod as u128) * (p2 as u128);
                if v > (sat as u128) {
                    sat
                } else {
                    v as i64
                }
            }
        } else {
            let k = 150 - ee;
            if k >= 64 {
                proof {
                    vstd::arithmetic::power2::lemma2_to64();
                    vstd::arithmetic::power2::lemma2_to64_rest();
                    if ((k as nat)) > 64 {
                        vstd::arithmetic::power2::lemma_pow2_strictly_increases(64, k as nat);
                    }
                    vstd::arithmetic::div_mod::lemma_basic_div(
                        prod as int,
                        pow2((150 - ee) as nat) as int,
                    );
                }
                0
            } else {
                let p2 = pow2_u64(k);
                proof {
                    vstd::arithmetic::power2::lemma_pow2_pos(k as nat);
                    vstd::arithmetic::div_mod::lemma_div_pos_is_pos(prod as int, p2 as int);
                    vstd::arithmetic::div_mod::lemma_div_is_ordered_by_denominator(
                        prod as int,
                        1,
                        p2 as int,
                    );
                    vstd::arithmetic::div_mod::lemma_div_basics(prod as int);
                }
                let v = prod / p2;
                if v > (sat as u64) {
                    sat
                } else {
                    v as i64
                }
            }
        }
    };
    if s == 1 {
        -mag
    } else {
        mag
    }
}

/// One decoded tile record.
#[derive(Clone, Copy, Debug, PartialEq, Eq, Structural)]
pub struct GribLine {
    /// Latitude in microdegrees.
    pub latitude: i64,
    /// Longitude in microdegrees, already shifted into `[0, 360)`.
    pub longitude: i64,
    /// Eastward wind in mm/s.
    pub u: i64,
    /// Northward wind in mm/s (the stored velocity negates it).
    pub v: i64,
    /// Temperature in millidegrees.
    pub temperature: i64,
}

/// The record decoded from the 20 bytes at `off`.
pub open spec fn line_of_spec(bytes: Seq<u8>, off: int) -> GribLine {
    GribLine {
        latitude: fx_of_bits(be32_spec(bytes, off), 1_000_000, COORD_SAT as int) as i64,
        longitude: fx_of_bits(be32_spec(bytes, off + 4), 1_000_000, COORD_SAT as int) as i64,
        u: fx_of_bits(be32_spec(bytes, off + 8), 1000, VEL_SAT as int) as i64,
        v: fx_of_bits(be32_spec(bytes, off + 12), 1000, VEL_SAT as int) as i64,
        temperature: fx_of_bits(be32_spec(bytes, off + 16), 1000, TEMP_SAT as int) as i64,
    }
}

/// All records of a tile, in file order.
pub open spec fn records_of_spec(bytes: Seq<u8>) -> Seq<GribLine> {
    Seq::new((bytes.len() / 20) as nat, |i: int| line_of_spec(bytes, 20 * i))
}

/// Reads the record at byte offset `off`.
pub fn read_line(bytes: &Vec<u8>, off: usize) -> (r: GribLine)
    requires
        off + 20 <= bytes@.len(),
    ensures
        r == line_of_spec(bytes@, off as int),
        line_bounded(r),
{
    let n = bytes.len();
    GribLine {
        latitude: bits_to_fx(be32(bytes, off), 1_000_000, COORD_SAT),
        longitude: bits_to_fx(be32(bytes, off + 4), 1_000_000, COORD_SAT),
        u: bits_to_fx(be32(bytes, off + 8), 1000, VEL_SAT),
        v: bits_to_fx(be32(bytes, off + 12), 1000, VEL_SAT),
        temperature: bits_to_fx(be32(bytes, off + 16), 1000, TEMP_SAT),
    }
}

/// Each decoded field stays within its saturation bound.
pub open spec fn line_bounded(l: GribLine) -> bool {
    &&& -COORD_SAT <= l.latitude <= COORD_SAT
    &&& -COORD_SAT <= l.longitude <= COORD_SAT
    &&& -VEL_SAT <= l.u <= VEL_SAT
    &&& -VEL_SAT <= l.v <= VEL_SAT
    &&& -TEMP_SAT <= l.temperature <= TEMP_SAT
}

/// The decoder saturates: its result stays within the bound.
pub proof fn lemma_fx_bounds(bits: int, scale: int, sat: int)
    requires
        0 <= bits < 0x1_0000_0000,
        1 <= scale,
        1 <= sat,
    ensures
        -sat <= fx_of_bits(bits, scale, sat) <= sat,
{
    reveal(fx_of_bits);
    let e = (bits / 0x80_0000) % 256;
    let m = bits % 0x80_0000;
    if e != 255 {
        let ee = if e == 0 {
            1int
        } else {
            e
        };
        let mant = if e == 0 {
            m
        } else {
            m + 0x80_0000
        };
        if ee >= 150 {
            vstd::arithmetic::power2::lemma_pow2_pos((ee - 150) as nat);
            assert(mant * scale * pow2((ee - 150) as nat) >= 0) by (nonlinear_arith)
                requires
                    mant >= 0,
                    scale >= 1,
                    pow2((ee - 150) as nat) >= 1,
            ;
        } else {
            vstd::arithmetic::power2::lemma_pow2_pos((150 - ee) as nat);
            assert(mant * scale >= 0) by (nonlinear_arith)
                requires
                    mant >= 0,
                    scale >= 1,
            ;
            vstd::arithmetic::div_mod::lemma_div_pos_is_pos(
                mant * scale,
                pow2((150 - ee) as nat) as int,
            );
        }
    }
}

/// Every record of a tile is bounded.
pub proof fn lemma_records_bounded(bytes: Seq<u8>)
    ensures
        forall|j: int|
            0 <= j < records_of_spec(bytes).len() ==> line_bounded(
                #[trigger] records_of_spec(bytes)[j],
            ),
{
    assert forall|j: int| 0 <= j < records_of_spec(bytes).len() implies line_bounded(
        #[trigger] records_of_spec(bytes)[j],
    ) by {
        let off = 20 * j;
        lemma_be32_range(bytes, off);
        lemma_be32_range(bytes, off + 4);
        lemma_be32_range(bytes, off + 8);
        lemma_be32_range(bytes, off + 12);
        lemma_be32_range(bytes, off + 16);
        lemma_fx_bounds(be32_spec(bytes, off), 1_000_000, COORD_SAT as int);
        lemma_fx_bounds(be32_spec(bytes, off + 4), 1_000_000, COORD_SAT as int);
        lemma_fx_bounds(be32_spec(bytes, off + 8), 1000, VEL_SAT as int);
        lemma_fx_bounds(be32_spec(bytes, off + 12), 1000, VEL_SAT as int);
        lemma_fx_bounds(be32_spec(bytes, off + 16), 1000, TEMP_SAT as int);
    }
}

proof fn lemma_be32_range(bytes: Seq<u8>, off: int)
    ensures
        0 <= be32_spec(bytes, off) < 0x1_0000_0000,
{
}

/// A matching record found in a tile is one of its records, so bounded.
pub proof fn lemma_last_match_bounded(recs: Seq<GribLine>, lat: int, lon: int)
    requires
        forall|j: int| 0 <= j < recs.len() ==> line_bounded(#[trigger] recs[j]),
    ensures
        match last_match_spec(recs, lat, lon) {
            Some(l) => line_bounded(l),
            None => true,
        },
    decreases recs.len(),
{
    if recs.len() > 0 {
        if !(recs.last().latitude == lat && recs.last().longitude == lon) {
            assert(forall|j: int|
                0 <= j < recs.drop_last().len() ==> line_bounded(#[trigger] recs.drop_last()[j]));
            lemma_last_match_bounded(recs.drop_last(), lat, lon);
        }
    }
}

/// The atmosphere a record describes: `u` is eastward and `v` is
/// northward in the source, and the stored velocity keeps east `u` and
/// negates `v`.
pub open spec fn atmo_of_spec(l: GribLine) -> Atmospheroid {
    Atmospheroid {
        temperature: l.temperature,
        velocity: Velocity { east: l.u, north: (-l.v) as i64, vertical: 0 },
    }
}

/// The atmosphere a record describes.
pub fn atmo_of(l: &GribLine) -> (r: Atmospheroid)
    requires
        -VEL_SAT <= l.v <= VEL_SAT,
    ensures
        r == atmo_of_spec(*l),
{
    Atmospheroid {
        temperature: l.temperature,
        velocity: Velocity { east: l.u, north: -l.v, vertical: 0 },
    }
}

/// The value of the last record matching a corner's coordinates, if any.
pub open spec fn last_match_spec(recs: Seq<GribLine>, lat: int, lon: int) -> Option<GribLine>
    decreases recs.len(),
{
    if recs.len() == 0 {
        None
    } else if recs.last().latitude == lat && recs.last().longitude == lon {
        Some(recs.last())
    } else {
        last_match_spec(recs.drop_last(), lat, lon)
    }
}

/// The identity of one tile within a dataset: a pressure level and a
/// 25-degree grid cell, both in whole degrees.
#[derive(Clone, Copy, Debug, PartialEq, Eq, Hash, Structural)]
pub struct TileKey {
    /// Pressure level in hPa.
    pub level: i32,
    /// `floor(corner latitude / 25) * 25`, in degrees.
    pub lat_cell: i64,
    /// `floor(shifted corner longitude / 25) * 25`, in degrees.
    pub lon_cell: i64,
}

/// The tile that holds a corner.
pub open spec fn tile_key_of_spec(c: AlignedPoint) -> TileKey {
    TileKey {
        level: c.level,
        lat_cell: cell_of_spec(c.latitude as int) as i64,
        lon_cell: cell_of_spec(c.longitude as int) as i64,
    }
}

/// The tile that holds a corner.
pub fn tile_key_of(c: &AlignedPoint) -> (r: TileKey)
    requires
        c.wf(),
    ensures
        r == tile_key_of_spec(*c),
{
    TileKey {
        level: c.level,
        lat_cell: div_floor(c.latitude, 25_000_000) * 25,
        lon_cell: div_floor(c.longitude, 25_000_000) * 25,
    }
}

/// One tile: its key and its raw bytes.
pub struct Tile {
    pub key: TileKey,
    pub bytes: Vec<u8>,
}

} // verus!
