//! The LiDAR fan: an ordered list of sensor angles.
//!
//! Built from a list of nonnegative angles in degrees: the fan holds their
//! negations in reverse order, then zero, then the angles themselves, all
//! converted to radians — an odd-length, symmetric list that includes the
//! straight-ahead ray.

use vstd::prelude::*;
use crate::fx::{fx_abs_of, fx_mul_of, fx_mul, lemma_fx_mul_bound, lemma_fx_mul_nonneg};
use crate::trig::FX_ANGLE_MAX;

verus! {

/// Radians per degree, at fixed-point scale.
pub const FX_RAD_PER_DEG: i64 = 74961320;

/// Largest fan angle accepted, in degrees at fixed-point scale.
pub const FX_DEG_MAX: i64 = 17592186044416;

/// Largest number of one-sided fan angles accepted.
pub const MAX_FAN: usize = 2048;

/// The radian value of an angle given in degrees.
pub open spec fn rad_of(deg: int) -> int {
    fx_mul_of(deg, FX_RAD_PER_DEG as int)
}

/// An ordered list of sensor angles, in radians.
#[derive(Debug)]
pub struct LidarArray {
    pub angles: Vec<i64>,
}

/// Well-formedness: a non-empty fan of angles the trigonometry accepts.
pub open spec fn lidar_wf(l: LidarArray) -> bool {
    &&& 1 <= l.angles@.len() <= 2 * MAX_FAN + 1
    &&& forall |i: int| 0 <= i < l.angles@.len()
        ==> fx_abs_of(#[trigger] l.angles@[i] as int) <= FX_ANGLE_MAX as int
}

impl LidarArray {
    /// Build the symmetric fan from nonnegative angles in degrees.
    pub fn new(angles: Vec<i64>) -> (r: LidarArray)
        requires
            angles@.len() <= MAX_FAN,
            forall |j: int| 0 <= j < angles@.len()
                ==> 0 <= #[trigger] angles@[j] <= FX_DEG_MAX,
        ensures
            lidar_wf(r),
            r.angles@.len() == 2 * angles@.len() + 1,
            r.angles@[angles@.len() as int] == 0,
            forall |j: int| 0 <= j < angles@.len()
                ==> #[trigger] r.angles@[angles@.len() + 1 + j] == rad_of(angles@[j] as int),
            forall |j: int| 0 <= j < angles@.len()
                ==> #[trigger] r.angles@[angles@.len() - 1 - j] == -rad_of(angles@[j] as int),
    {
        let n: usize = angles.len();
        let mut out: Vec<i64> = Vec::new();
        let mut j: usize = 0;
        while j < n
            invariant
                0 <= j <= n,
                n == angles@.len() <= MAX_FAN,
                out@.len() == j as int,
                forall |k: int| 0 <= k < angles@.len()
                    ==> 0 <= #[trigger] angles@[k] <= FX_DEG_MAX,
                forall |k: int| 0 <= k < j
                    ==> #[trigger] out@[k] == -rad_of(angles@[n - 1 - k] as int)
                        && fx_abs_of(out@[k] as int) <= FX_ANGLE_MAX as int,
            decreases n - j,
        {
            let deg: i64 = *angles.get(n - 1 - j).unwrap();
            proof {
                lemma_fx_mul_bound(deg as int, FX_RAD_PER_DEG as int, FX_DEG_MAX as int,
                    FX_RAD_PER_DEG as int);
                lemma_fx_mul_nonneg(deg as int, FX_RAD_PER_DEG as int);
            }
            let rad: i64 = fx_mul(deg, FX_RAD_PER_DEG);
            out.push(-rad);
            j = j + 1;
        }
        out.push(0);
        let mut k: usize = 0;
        while k < n
            invariant
                0 <= k <= n,
                n == angles@.len() <= MAX_FAN,
                out@.len() == n + 1 + k,
                forall |i: int| 0 <= i < angles@.len()
                    ==> 0 <= #[trigger] angles@[i] <= FX_DEG_MAX,
                forall |i: int| 0 <= i < n
                    ==> #[trigger] out@[i] == -rad_of(angles@[n - 1 - i] as int)
                        && fx_abs_of(out@[i] as int) <= FX_ANGLE_MAX as int,
                out@[n as int] == 0,
                forall |i: int| 0 <= i < k
                    ==> #[trigger] out@[n + 1 + i] == rad_of(angles@[i] as int)
                        && fx_abs_of(out@[n + 1 + i] as int) <= FX_ANGLE_MAX as int,
            decreases n - k,
        {
            let deg: i64 = *angles.get(k).unwrap();
            proof {
                lemma_fx_mul_bound(deg as int, FX_RAD_PER_DEG as int, FX_DEG_MAX as int,
                    FX_RAD_PER_DEG as int);
                lemma_fx_mul_nonneg(deg as int, FX_RAD_PER_DEG as int);
            }
            let rad: i64 = fx_mul(deg, FX_RAD_PER_DEG);
            out.push(rad);
            k = k + 1;
        }
        let r = LidarArray { angles: out };
        proof {
            assert forall |i: int| 0 <= i < r.angles@.len()
                implies fx_abs_of(#[trigger] r.angles@[i] as int) <= FX_ANGLE_MAX as int by {
                if i < n {
                } else if i == n {
                } else {
                    let i2 = i - n - 1;
                    assert(r.angles@[n + 1 + i2] == rad_of(angles@[i2] as int)
                        && fx_abs_of(r.angles@[n + 1 + i2] as int) <= FX_ANGLE_MAX as int);
                }
            }
        }
        r
    }

    /// The number of rays in the fan.
    pub fn n_angles(&self) -> (r: usize)
        ensures
            r == self.angles@.len(),
    {
        self.angles.len()
    }

    /// The fan angles, in radians, in order.
    pub fn get_angles(&self) -> (r: &Vec<i64>)
        ensures
            r@ == self.angles@,
    {
        &self.angles
    }
}

/// The one-sided fan angles the default fan is built from, in degrees.
pub open spec fn default_fan_degrees() -> Seq<i64> {
    seq![
        4294967296i64,
        8589934592i64,
        21474836480i64,
        42949672960i64,
        128849018880i64,
        193273528320i64,
        257698037760i64,
        386547056640i64,
        515396075520i64,
    ]
}

impl Default for LidarArray {
    /// The fan the simulator ships with: one through one hundred twenty
    /// degrees on each side, plus the straight-ahead ray.
    fn default() -> (r: LidarArray)
        ensures
            lidar_wf(r),
            r.angles@.len() == 19,
            r.angles@[9] == 0,
            forall |j: int| 0 <= j < 9
                ==> #[trigger] r.angles@[10 + j] == rad_of(default_fan_degrees()[j] as int),
            forall |j: int| 0 <= j < 9
                ==> #[trigger] r.angles@[8 - j] == -rad_of(default_fan_degrees()[j] as int),
    {
        let mut degs: Vec<i64> = Vec::new();
        degs.push(4294967296);
        degs.push(8589934592);
        degs.push(21474836480);
        degs.push(42949672960);
        degs.push(128849018880);
        degs.push(193273528320);
        degs.push(257698037760);
        degs.push(386547056640);
        degs.push(515396075520);
        proof {
            assert(degs@ =~= default_fan_degrees());
        }
        let fan: LidarArray = LidarArray::new(degs);
        proof {
            assert forall |j: int| 0 <= j < 9
                implies #[trigger] fan.angles@[10 + j]
                    == rad_of(default_fan_degrees()[j] as int) by {
                assert(fan.angles@[degs@.len() + 1 + j] == rad_of(degs@[j] as int));
            }
            assert forall |j: int| 0 <= j < 9
                implies #[trigger] fan.angles@[8 - j]
                    == -rad_of(default_fan_degrees()[j] as int) by {
                assert(fan.angles@[degs@.len() - 1 - j] == -rad_of(degs@[j] as int));
            }
        }
        fan
    }
}

} // verus!
