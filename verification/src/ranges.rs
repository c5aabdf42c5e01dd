//! The range computer: inclusive depth and timestamp bounds over the
//! whole dataset, used by the host to clamp its view controls.
use vstd::prelude::*;

use crate::model::{Data, DataV};

verus! {

/// Inclusive bounds: the least and greatest depth of any point in the
/// dataset, and the least and greatest timestamp of any series record.
/// When nothing contributes to an axis, both of its bounds are zero.
#[derive(Clone, Copy, PartialEq, Eq, Structural, Debug)]
pub struct Ranges {
    pub deep_max: i64,
    pub deep_min: i64,
    pub timestamp_max: i64,
    pub timestamp_min: i64,
}

impl Default for Ranges {
    fn default() -> (res: Self)
        ensures
            res.deep_max == 0 && res.deep_min == 0 && res.timestamp_max == 0
                && res.timestamp_min == 0,
    {
        Ranges { deep_max: 0, deep_min: 0, timestamp_max: 0, timestamp_min: 0 }
    }
}

/// Whether any point contributes a depth: a border vertex or a record of
/// any series.
pub open spec fn has_deep(d: DataV) -> bool {
    d.bg.border.len() > 0 || d.photo.len() > 0 || d.temp.len() > 0 || d.flow.len() > 0
}

/// Whether any record contributes a timestamp. Border vertices carry
/// none, so only the three series count.
pub open spec fn has_timestamp(d: DataV) -> bool {
    d.photo.len() > 0 || d.temp.len() > 0 || d.flow.len() > 0
}

/// `v` is the depth of some border vertex or series record of `d`.
pub open spec fn deep_occurs(d: DataV, v: i64) -> bool {
    ||| exists|i: int| 0 <= i < d.bg.border.len() && d.bg.border[i].deep == v
    ||| exists|i: int| 0 <= i < d.photo.len() && d.photo[i].point.deep == v
    ||| exists|i: int| 0 <= i < d.temp.len() && d.temp[i].point.deep == v
    ||| exists|i: int| 0 <= i < d.flow.len() && d.flow[i].point.deep == v
}

/// `v` is the timestamp of some series record of `d`.
pub open spec fn timestamp_occurs(d: DataV, v: i64) -> bool {
    ||| exists|i: int| 0 <= i < d.photo.len() && d.photo[i].timestamp == v
    ||| exists|i: int| 0 <= i < d.temp.len() && d.temp[i].timestamp == v
    ||| exists|i: int| 0 <= i < d.flow.len() && d.flow[i].timestamp == v
}

/// Every depth in `d` lies between `lo` and `hi` inclusive.
pub open spec fn deep_bounded(d: DataV, lo: i64, hi: i64) -> bool {
    &&& forall|i: int| 0 <= i < d.bg.border.len() ==> lo <= #[trigger] d.bg.border[i].deep <= hi
    &&& forall|i: int| 0 <= i < d.photo.len() ==> lo <= #[trigger] d.photo[i].point.deep <= hi
    &&& forall|i: int| 0 <= i < d.temp.len() ==> lo <= #[trigger] d.temp[i].point.deep <= hi
    &&& forall|i: int| 0 <= i < d.flow.len() ==> lo <= #[trigger] d.flow[i].point.deep <= hi
}

/// Every timestamp in `d` lies between `lo` and `hi` inclusive.
pub open spec fn timestamp_bounded(d: DataV, lo: i64, hi: i64) -> bool {
    &&& forall|i: int| 0 <= i < d.photo.len() ==> lo <= #[trigger] d.photo[i].timestamp <= hi
    &&& forall|i: int| 0 <= i < d.temp.len() ==> lo <= #[trigger] d.temp[i].timestamp <= hi
    &&& forall|i: int| 0 <= i < d.flow.len() ==> lo <= #[trigger] d.flow[i].timestamp <= hi
}

impl Data {
    /// Scans the whole dataset and returns its axis bounds. The depth
    /// bounds are the extremes over border vertices and all series
    /// records; the timestamp bounds are the extremes over series
    /// records alone. An axis nothing contributes to reports zero for
    /// both of its bounds.
    #[verifier::loop_isolation(false)]
    pub fn ranges(&self) -> (r: Ranges)
        ensures
            !has_deep(self@) ==> r.deep_min == 0 && r.deep_max == 0,
            has_deep(self@) ==> deep_occurs(self@, r.deep_min) && deep_occurs(self@, r.deep_max)
                && deep_bounded(self@, r.deep_min, r.deep_max),
            !has_timestamp(self@) ==> r.timestamp_min == 0 && r.timestamp_max == 0,
            has_timestamp(self@) ==> timestamp_occurs(self@, r.timestamp_min) && timestamp_occurs(
                self@,
                r.timestamp_max,
            ) && timestamp_bounded(self@, r.timestamp_min, r.timestamp_max),
    {
        proof {
            assert(self@.photo.len() == self.photo@.len());
            assert(forall|j: int|
                0 <= j < self.photo@.len() ==> self@.photo[j] == #[trigger] self.photo@[j]@);
        }
        let mut dmax: i64 = i64::MIN;
        let mut dmin: i64 = i64::MAX;
        let mut tsmax: i64 = i64::MIN;
        let mut tsmin: i64 = i64::MAX;
        let mut is_deep_exists = false;
        let mut is_timestamp_exists = false;
        let border = &self.bg.border;
        let mut i: usize = 0;
        while i < border.len()
            invariant
                i <= border.len(),
                is_deep_exists == (i > 0),
                !is_timestamp_exists,
                tsmax == i64::MIN && tsmin == i64::MAX,
                i == 0 ==> dmax == i64::MIN && dmin == i64::MAX,
                i > 0 ==> exists|j: int| 0 <= j < i && border@[j].deep == dmax,
                i > 0 ==> exists|j: int| 0 <= j < i && border@[j].deep == dmin,
                forall|j: int| 0 <= j < i ==> dmin <= #[trigger] border@[j].deep <= dmax,
            decreases border.len() - i,
        {
            is_deep_exists = true;
            let p = &border[i];
            if p.deep > dmax {
                dmax = p.deep;
            }
            if p.deep < dmin {
                dmin = p.deep;
            }
            i = i + 1;
        }
        let mut i: usize = 0;
        while i < self.photo.len()
            invariant
                i <= self.photo.len(),
                is_deep_exists == (border.len() > 0 || i > 0),
                is_timestamp_exists == (i > 0),
                !is_deep_exists ==> dmax == i64::MIN && dmin == i64::MAX,
                is_deep_exists ==> {
                    ||| exists|j: int| 0 <= j < border.len() && border@[j].deep == dmax
                    ||| exists|j: int| 0 <= j < i && self.photo@[j]@.point.deep == dmax
                },
                is_deep_exists ==> {
                    ||| exists|j: int| 0 <= j < border.len() && border@[j].deep == dmin
                    ||| exists|j: int| 0 <= j < i && self.photo@[j]@.point.deep == dmin
                },
                forall|j: int| 0 <= j < border.len() ==> dmin <= #[trigger] border@[j].deep
                    <= dmax,
                forall|j: int| 0 <= j < i ==> dmin <= #[trigger] self.photo@[j]@.point.deep
                    <= dmax,
                !is_timestamp_exists ==> tsmax == i64::MIN && tsmin == i64::MAX,
                i > 0 ==> exists|j: int| 0 <= j < i && self.photo@[j]@.timestamp == tsmax,
                i > 0 ==> exists|j: int| 0 <= j < i && self.photo@[j]@.timestamp == tsmin,
                forall|j: int| 0 <= j < i ==> tsmin <= #[trigger] self.photo@[j]@.timestamp
                    <= tsmax,
            decreases self.photo.len() - i,
        {
            is_deep_exists = true;
            is_timestamp_exists = true;
            let p = &self.photo[i];
            if p.point.deep > dmax {
                dmax = p.point.deep;
            }
            if p.point.deep < dmin {
                dmin = p.point.deep;
            }
            if p.timestamp > tsmax {
                tsmax = p.timestamp;
            }
            if p.timestamp < tsmin {
                tsmin = p.timestamp;
            }
            i = i + 1;
        }
        let mut i: usize = 0;
        while i < self.temp.len()
            invariant
                i <= self.temp.len(),
                is_deep_exists == (border.len() > 0 || self.photo.len() > 0 || i > 0),
                is_timestamp_exists == (self.photo.len() > 0 || i > 0),
                !is_deep_exists ==> dmax == i64::MIN && dmin == i64::MAX,
                is_deep_exists ==> {
                    ||| exists|j: int| 0 <= j < border.len() && border@[j].deep == dmax
                    ||| exists|j: int|
                        0 <= j < self.photo.len() && self.photo@[j]@.point.deep == dmax
                    ||| exists|j: int| 0 <= j < i && self.temp@[j].point.deep == dmax
                },
                is_deep_exists ==> {
                    ||| exists|j: int| 0 <= j < border.len() && border@[j].deep == dmin
                    ||| exists|j: int|
                        0 <= j < self.photo.len() && self.photo@[j]@.point.deep == dmin
                    ||| exists|j: int| 0 <= j < i && self.temp@[j].point.deep == dmin
                },
                forall|j: int| 0 <= j < border.len() ==> dmin <= #[trigger] border@[j].deep
                    <= dmax,
                forall|j: int|
                    0 <= j < self.photo.len() ==> dmin <= #[trigger] self.photo@[j]@.point.deep
                        <= dmax,
                forall|j: int| 0 <= j < i ==> dmin <= #[trigger] self.temp@[j].point.deep <= dmax,
                !is_timestamp_exists ==> tsmax == i64::MIN && tsmin == i64::MAX,
                is_timestamp_exists ==> {
                    ||| exists|j: int|
                        0 <= j < self.photo.len() && self.photo@[j]@.timestamp == tsmax
                    ||| exists|j: int| 0 <= j < i && self.temp@[j].timestamp == tsmax
                },
                is_timestamp_exists ==> {
                    ||| exists|j: int|
                        0 <= j < self.photo.len() && self.photo@[j]@.timestamp == tsmin
                    ||| exists|j: int| 0 <= j < i && self.temp@[j].timestamp == tsmin
                },
                forall|j: int|
                    0 <= j < self.photo.len() ==> tsmin <= #[trigger] self.photo@[j]@.timestamp
                        <= tsmax,
                forall|j: int| 0 <= j < i ==> tsmin <= #[trigger] self.temp@[j].timestamp <= tsmax,
            decreases self.temp.len() - i,
        {
            is_deep_exists = true;
            is_timestamp_exists = true;
            let p = &self.temp[i];
            if p.point.deep > dmax {
                dmax = p.point.deep;
            }
            if p.point.deep < dmin {
                dmin = p.point.deep;
            }
            if p.timestamp > tsmax {
                tsmax = p.timestamp;
            }
            if p.timestamp < tsmin {
                tsmin = p.timestamp;
            }
            i = i + 1;
        }
        let mut i: usize = 0;
        while i < self.flow.len()
            invariant
                i <= self.flow.len(),
                is_deep_exists == (border.len() > 0 || self.photo.len() > 0 || self.temp.len() > 0
                    || i > 0),
                is_timestamp_exists == (self.photo.len() > 0 || self.temp.len() > 0 || i > 0),
                !is_deep_exists ==> dmax == i64::MIN && dmin == i64::MAX,
                is_deep_exists ==> {
                    ||| exists|j: int| 0 <= j < border.len() && border@[j].deep == dmax
                    ||| exists|j: int|
                        0 <= j < self.photo.len() && self.photo@[j]@.point.deep == dmax
                    ||| exists|j: int| 0 <= j < self.temp.len() && self.temp@[j].point.deep == dmax
                    ||| exists|j: int| 0 <= j < i && self.flow@[j].point.deep == dmax
                },
                is_deep_exists ==> {
                    ||| exists|j: int| 0 <= j < border.len() && border@[j].deep == dmin
                    ||| exists|j: int|
                        0 <= j < self.photo.len() && self.photo@[j]@.point.deep == dmin
                    ||| exists|j: int| 0 <= j < self.temp.len() && self.temp@[j].point.deep == dmin
                    ||| exists|j: int| 0 <= j < i && self.flow@[j].point.deep == dmin
                },
                forall|j: int| 0 <= j < border.len() ==> dmin <= #[trigger] border@[j].deep
                    <= dmax,
                forall|j: int|
                    0 <= j < self.photo.len() ==> dmin <= #[trigger] self.photo@[j]@.point.deep
                        <= dmax,
                forall|j: int| 0 <= j < self.temp.len() ==> dmin
                    <= #[trigger] self.temp@[j].point.deep <= dmax,
                forall|j: int| 0 <= j < i ==> dmin <= #[trigger] self.flow@[j].point.deep <= dmax,
                !is_timestamp_exists ==> tsmax == i64::MIN && tsmin == i64::MAX,
                is_timestamp_exists ==> {
                    ||| exists|j: int|
                        0 <= j < self.photo.len() && self.photo@[j]@.timestamp == tsmax
                    ||| exists|j: int| 0 <= j < self.temp.len() && self.temp@[j].timestamp == tsmax
                    ||| exists|j: int| 0 <= j < i && self.flow@[j].timestamp == tsmax
                },
                is_timestamp_exists ==> {
                    ||| exists|j: int|
                        0 <= j < self.photo.len() && self.photo@[j]@.timestamp == tsmin
                    ||| exists|j: int| 0 <= j < self.temp.len() && self.temp@[j].timestamp == tsmin
                    ||| exists|j: int| 0 <= j < i && self.flow@[j].timestamp == tsmin
                },
                forall|j: int|
                    0 <= j < self.photo.len() ==> tsmin <= #[trigger] self.photo@[j]@.timestamp
                        <= tsmax,
                forall|j: int| 0 <= j < self.temp.len() ==> tsmin
                    <= #[trigger] self.temp@[j].timestamp <= tsmax,
                forall|j: int| 0 <= j < i ==> tsmin <= #[trigger] self.flow@[j].timestamp <= tsmax,
            decreases self.flow.len() - i,
        {
            is_deep_exists = true;
            is_timestamp_exists = true;
            let p = &self.flow[i];
            if p.point.deep > dmax {
                dmax = p.point.deep;
            }
            if p.point.deep < dmin {
                dmin = p.point.deep;
            }
            if p.timestamp > tsmax {
                tsmax = p.timestamp;
            }
            if p.timestamp < tsmin {
                tsmin = p.timestamp;
            }
            i = i + 1;
        }
        if !is_deep_exists {
            dmax = 0;
            dmin = 0;
        }
        if !is_timestamp_exists {
            tsmax = 0;
            tsmin = 0;
        }
        Ranges { deep_max: dmax, deep_min: dmin, timestamp_max: tsmax, timestamp_min: tsmin }
    }
}

} // verus!
