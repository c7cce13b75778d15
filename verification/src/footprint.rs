//! The Monte-Carlo landing footprint: independent samples of burst
//! altitude, ascent rate and descent rate around their means, one
//! standard trajectory per sample, collecting the landing points.
//!
//! Randomness comes from the `rand` crate behind trusted wrappers; the
//! approximately normal draws are built, in verified code, from twelve
//! uniform words (the classical Irwin-Hall construction).

use vstd::prelude::*;

use crate::arith::{clamp_i64, div_tz};
use crate::dataset_reader::DataSetReader;
use crate::errors::PredictorError;
use crate::point::Point;
use crate::dataset::Dataset;
use crate::predictor::{
    predict, standard_result_ok, Prediction, PredictionProfile, PredictorParams,
    StandardPrediction, BURST_LIMIT, RATE_LIMIT, TIME_SLACK,
};

verus! {

#[verifier::external_type_specification]
#[verifier::external_body]
pub struct ExStdRng(rand::rngs::StdRng);

/// Relies on `rand::SeedableRng::seed_from_u64`: a generator
/// deterministically derived from the seed.
#[verifier::external_body]
pub fn rng_from_seed(seed: u64) -> rand::rngs::StdRng {
    <rand::rngs::StdRng as rand::SeedableRng>::seed_from_u64(seed)
}

/// Relies on `rand::Rng::next_u64`: the generator's next word, about
/// which nothing is assumed.
#[verifier::external_body]
pub fn next_u64(rng: &mut rand::rngs::StdRng) -> u64 {
    rand::Rng::next_u64(rng)
}

/// All parameters of a footprint calculation.  Altitudes are in
/// millimeters, rates in mm/s.
pub struct FootprintParams {
    pub launch: Point,
    pub burst_altitude_mean: i64,
    pub burst_altitude_std_dev: i64,
    pub ascent_rate_mean: i64,
    pub ascent_rate_std_dev: i64,
    pub descent_rate_mean: i64,
    pub descent_rate_std_dev: i64,
    pub trials: u32,
}

/// The landing points, one per trial.
pub struct Footprint {
    pub positions: Vec<Point>,
}

/// One approximately normal draw: mean plus standard deviation times a
/// unit deviate built from twelve uniform 32-bit words.
fn normal_sample(rng: &mut rand::rngs::StdRng, mean: i64, std_dev: i64) -> (r: i64)
    requires
        -BURST_LIMIT <= mean <= BURST_LIMIT,
        0 <= std_dev <= RATE_LIMIT,
    ensures
        -BURST_LIMIT - 7 * RATE_LIMIT <= r <= BURST_LIMIT + 7 * RATE_LIMIT,
{
    let mut sum: i64 = 0;
    let mut i: u32 = 0;
    while i < 12
        invariant
            0 <= i <= 12,
            0 <= sum <= i * 0x1_0000_0000,
        decreases 12 - i,
    {
        let x = next_u64(rng);
        proof {
            assert(x >> 32 <= 0xFFFF_FFFF) by (bit_vector);
        }
        let w = x >> 32;
        sum = sum + (w as i64);
        i = i + 1;
    }
    let centered = sum - 6 * 0x1_0000_0000;
    proof {
        assert(centered * std_dev <= 7 * 0x1_0000_0000 * std_dev) by (nonlinear_arith)
            requires
                centered <= 7 * 0x1_0000_0000,
                std_dev >= 0,
        ;
        assert(centered * std_dev >= -(7 * 0x1_0000_0000) * std_dev) by (nonlinear_arith)
            requires
                centered >= -(7 * 0x1_0000_0000),
                std_dev >= 0,
        ;
        assert(7 * 0x1_0000_0000 * std_dev <= 7 * 0x1_0000_0000 * (RATE_LIMIT as int))
            by (nonlinear_arith)
            requires
                0 <= std_dev <= RATE_LIMIT as int,
        ;
        crate::arith::lemma_div_tz_bound(centered * std_dev, 0x1_0000_0000, 7 * (RATE_LIMIT as int));
        assert(7 * (RATE_LIMIT as int) * 0x1_0000_0000 == 7 * 0x1_0000_0000 * (RATE_LIMIT as int))
            by (nonlinear_arith);
    }
    let dev = div_tz(centered * std_dev, 0x1_0000_0000);
    mean + dev
}

/// A landing point: the final descent point of a successful standard
/// prediction from the launch, under clamped drawn parameters.
pub open spec fn footprint_sample_ok(datasets: Seq<Dataset>, launch: Point, p: Point) -> bool {
    exists|b: int, a: int, d: int, sp: StandardPrediction|
        {
            &&& 0 <= b <= BURST_LIMIT
            &&& -RATE_LIMIT <= a <= RATE_LIMIT
            &&& -RATE_LIMIT <= d <= RATE_LIMIT
            &&& #[trigger] standard_result_ok(
                datasets,
                launch,
                b,
                a,
                d,
                Ok(Prediction::Standard(sp)),
            )
            &&& sp.descent@.len() > 0
            &&& p == sp.descent@.last()
        }
}

/// Draws the three parameters for each trial, runs the standard
/// integrator, and collects the final descent point of every trial.
/// All-or-nothing: a failed trial fails the whole footprint; a landing
/// is owed by every successful trial, so the footprint holds exactly
/// one point per trial.
pub fn calculate_footprint(
    reader: &mut DataSetReader,
    params: FootprintParams,
    rng: &mut rand::rngs::StdRng,
) -> (r: Result<Footprint, PredictorError>)
    requires
        old(reader).wf(),
        params.launch.wf(),
        params.launch.time + TIME_SLACK <= crate::point::TIME_LIMIT,
        -BURST_LIMIT <= params.burst_altitude_mean <= BURST_LIMIT,
        0 <= params.burst_altitude_std_dev <= RATE_LIMIT,
        -BURST_LIMIT <= params.ascent_rate_mean <= BURST_LIMIT,
        0 <= params.ascent_rate_std_dev <= RATE_LIMIT,
        -BURST_LIMIT <= params.descent_rate_mean <= BURST_LIMIT,
        0 <= params.descent_rate_std_dev <= RATE_LIMIT,
    ensures
        final(reader).wf(),
        final(reader).datasets == old(reader).datasets,
        match r {
            Ok(f) => f.positions@.len() == params.trials && (forall|i: int|
                0 <= i < f.positions@.len() ==> footprint_sample_ok(
                    old(reader).datasets@,
                    params.launch,
                    #[trigger] f.positions@[i],
                )),
            Err(e) => params.trials > 0 && (e == PredictorError::NoData || e
                == PredictorError::InvalidParams),
        },
        params.trials == 0 ==> r is Ok,
{
    let mut positions: Vec<Point> = Vec::new();
    let mut t: u32 = 0;
    while t < params.trials
        invariant
            reader.wf(),
            reader.datasets == old(reader).datasets,
            params.launch.wf(),
            params.launch.time + TIME_SLACK <= crate::point::TIME_LIMIT,
            -BURST_LIMIT <= params.burst_altitude_mean <= BURST_LIMIT,
            0 <= params.burst_altitude_std_dev <= RATE_LIMIT,
            -BURST_LIMIT <= params.ascent_rate_mean <= BURST_LIMIT,
            0 <= params.ascent_rate_std_dev <= RATE_LIMIT,
            -BURST_LIMIT <= params.descent_rate_mean <= BURST_LIMIT,
            0 <= params.descent_rate_std_dev <= RATE_LIMIT,
            t <= params.trials,
            positions@.len() == t,
            reader.datasets@ == old(reader).datasets@,
            forall|i: int|
                0 <= i < positions@.len() ==> footprint_sample_ok(
                    old(reader).datasets@,
                    params.launch,
                    #[trigger] positions@[i],
                ),
        decreases params.trials - t,
    {
        let burst = clamp_i64(
            normal_sample(rng, params.burst_altitude_mean, params.burst_altitude_std_dev),
            0,
            BURST_LIMIT,
        );
        let ascent = clamp_i64(
            normal_sample(rng, params.ascent_rate_mean, params.ascent_rate_std_dev),
            -RATE_LIMIT,
            RATE_LIMIT,
        );
        let descent = clamp_i64(
            normal_sample(rng, params.descent_rate_mean, params.descent_rate_std_dev),
            -RATE_LIMIT,
            RATE_LIMIT,
        );
        let pr = predict(
            reader,
            PredictorParams {
                launch: params.launch,
                profile: PredictionProfile::Standard,
                burst_altitude: burst,
                ascent_rate: ascent,
                descent_rate: descent,
                duration: 0,
            },
        );
        match pr {
            Ok(p) => match p {
                Prediction::Standard(sp) => {
                    if sp.descent.len() == 0 {
                        return Err(PredictorError::NoData);
                    }
                    let landing = sp.descent[sp.descent.len() - 1];
                    proof {
                        assert(footprint_sample_ok(
                            old(reader).datasets@,
                            params.launch,
                            landing,
                        )) by {
                            assert(standard_result_ok(
                                old(reader).datasets@,
                                params.launch,
                                burst as int,
                                ascent as int,
                                descent as int,
                                Ok(Prediction::Standard(sp)),
                            ));
                        }
                    }
                    positions.push(landing);
                },
                _ => {
                    proof {
                        assert(false);
                    }
                    return Err(PredictorError::NoData);
                },
            },
            Err(e) => {
                return Err(e);
            },
        }
        t = t + 1;
    }
    Ok(Footprint { positions })
}

} // verus!
