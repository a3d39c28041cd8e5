//! Discretization of continuous observations into chunk indices.
//!
//! A chunking is a list of thresholds; a reading's chunk is the number of
//! thresholds strictly below it. The chunked LiDAR state gathers the chunk
//! indices of all readings together with the chunked speed and steering.

use vstd::prelude::*;
use crate::bezier::FX_QUERY_MAX;
use crate::fx::FX_ONE;
use crate::vec2::{coords_bounded, unit_band};
use crate::lidar::{LidarArray, lidar_wf};
use crate::map::{SplineMap, map_wf, lidar_reading_rel};
use crate::physics::CarState;

verus! {

/// The number of entries of a sequence prefix that are strictly below `x`.
pub open spec fn rank_of(s: Seq<i64>, x: int, n: int) -> int
    decreases n,
{
    if n <= 0 {
        0
    } else {
        rank_of(s, x, n - 1) + if s[n - 1] < x {
            1int
        } else {
            0int
        }
    }
}

/// One discretized LiDAR entry: the rank, among the given thresholds, of a
/// reading certified for the fan angle.
pub open spec fn chunked_reading_rel(m: SplineMap, s: CarState, th: Seq<i64>, angle: int,
    chunk: int) -> bool {
    exists |reading: int| #[trigger] lidar_reading_rel(m, s, angle, reading)
        && chunk == rank_of(th, reading, th.len() as int)
}

/// A sorted list of thresholds between chunks.
#[derive(Debug)]
pub struct Chunking {
    pub distance_thresholds: Vec<i64>,
}

impl Chunking {
    /// The chunk a reading falls into: the number of thresholds strictly
    /// below the reading.
    pub fn get_chunk(&self, reading: i64) -> (r: usize)
        ensures
            r as int == rank_of(self.distance_thresholds@, reading as int,
                self.distance_thresholds@.len() as int),
            r <= self.distance_thresholds@.len(),
    {
        let n: usize = self.distance_thresholds.len();
        let mut count: usize = 0;
        let mut i: usize = 0;
        while i < n
            invariant
                0 <= i <= n,
                n == self.distance_thresholds@.len(),
                count as int == rank_of(self.distance_thresholds@, reading as int, i as int),
                count <= i,
            decreases n - i,
        {
            let th: i64 = *self.distance_thresholds.get(i).unwrap();
            if th < reading {
                count = count + 1;
            }
            i = i + 1;
        }
        count
    }

    /// The number of chunks: one more than the number of thresholds.
    pub fn n_chunks(&self) -> (r: usize)
        requires
            self.distance_thresholds@.len() < usize::MAX,
        ensures
            r == self.distance_thresholds@.len() + 1,
    {
        self.distance_thresholds.len() + 1
    }
}

/// Chunkings for the three observation channels.
#[derive(Debug)]
pub struct ChunkingConfig {
    pub lidar: Chunking,
    pub speed: Chunking,
    pub turn: Chunking,
}

/// A fully discretized observation.
#[derive(Debug, Hash)]
pub struct ChunkedLidarState {
    pub lidar: Vec<usize>,
    pub speed: usize,
    pub turn: usize,
}

impl ChunkedLidarState {
    /// Discretize the LiDAR readings, the speed, and the steering angle of a
    /// car state on a track.
    pub fn new(state: &CarState, map: &SplineMap, lidar_array: &LidarArray,
        chunking_config: &ChunkingConfig) -> (r: ChunkedLidarState)
        requires
            map_wf(*map),
            lidar_wf(*lidar_array),
            coords_bounded(state.position, FX_QUERY_MAX as int),
            unit_band(state.unit_forward),
            coords_bounded(state.unit_forward, FX_ONE as int + 2),
        ensures
            r.lidar@.len() == lidar_array.angles@.len(),
            forall |i: int| 0 <= i < r.lidar@.len()
                ==> #[trigger] r.lidar@[i] <= chunking_config.lidar.distance_thresholds@.len(),
            forall |i: int| 0 <= i < r.lidar@.len()
                ==> #[trigger] chunked_reading_rel(*map, *state,
                    chunking_config.lidar.distance_thresholds@,
                    lidar_array.angles@[i] as int, r.lidar@[i] as int),
            r.speed as int == rank_of(chunking_config.speed.distance_thresholds@,
                state.speed as int, chunking_config.speed.distance_thresholds@.len() as int),
            r.turn as int == rank_of(chunking_config.turn.distance_thresholds@,
                state.steer_delta as int,
                chunking_config.turn.distance_thresholds@.len() as int),
    {
        let readings: Vec<i64> = map.read_lidar(state, lidar_array);
        let n: usize = readings.len();
        let mut lidar: Vec<usize> = Vec::new();
        let mut i: usize = 0;
        while i < n
            invariant
                0 <= i <= n,
                n == readings@.len(),
                n == lidar_array.angles@.len(),
                lidar@.len() == i as int,
                forall |k: int| 0 <= k < n
                    ==> #[trigger] lidar_reading_rel(*map, *state,
                        lidar_array.angles@[k] as int, readings@[k] as int),
                forall |k: int| 0 <= k < i
                    ==> #[trigger] lidar@[k]
                        <= chunking_config.lidar.distance_thresholds@.len(),
                forall |k: int| 0 <= k < i
                    ==> #[trigger] chunked_reading_rel(*map, *state,
                        chunking_config.lidar.distance_thresholds@,
                        lidar_array.angles@[k] as int, lidar@[k] as int),
            decreases n - i,
        {
            let reading: i64 = *readings.get(i).unwrap();
            let chunk: usize = chunking_config.lidar.get_chunk(reading);
            proof {
                assert(lidar_reading_rel(*map, *state, lidar_array.angles@[i as int] as int,
                    readings@[i as int] as int));
                assert(reading as int == readings@[i as int] as int);
                assert(chunk as int == rank_of(chunking_config.lidar.distance_thresholds@,
                    readings@[i as int] as int,
                    chunking_config.lidar.distance_thresholds@.len() as int));
                assert(chunked_reading_rel(*map, *state,
                    chunking_config.lidar.distance_thresholds@,
                    lidar_array.angles@[i as int] as int, chunk as int));
            }
            lidar.push(chunk);
            i = i + 1;
        }
        ChunkedLidarState {
            lidar,
            speed: chunking_config.speed.get_chunk(state.speed),
            turn: chunking_config.turn.get_chunk(state.steer_delta),
        }
    }
}

} // verus!
