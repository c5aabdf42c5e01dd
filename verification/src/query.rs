//! The windowed query filter: slices each series by one shared timestamp
//! window and a per-series depth window.
use vstd::prelude::*;

use crate::model::{Data, Flow, Photo, PhotoV, Temp, photos_view};

verus! {

/// A query window: a centre timestamp with its half-width, and a centre
/// depth with one half-width per series, so the three series can be
/// sliced to different thicknesses in the same query. All comparisons
/// are strict: a record exactly on the boundary does not match.
#[derive(Clone, Copy, PartialEq, Eq, Structural, Debug)]
pub struct Query {
    pub timestamp: i64,
    pub timestamp_d: i64,
    pub deep: i64,
    pub temp_deep_d: i64,
    pub photo_deep_d: i64,
    pub flow_deep_d: i64,
}

/// The records that matched a query, each series in its original
/// dataset order.
#[derive(Debug)]
pub struct QueryResult {
    pub photo: Vec<Photo>,
    pub temp: Vec<Temp>,
    pub flow: Vec<Flow>,
}

/// `val1` lies strictly within `d` of `val2`: `|val1 - val2| < d`.
pub open spec fn in_delta(val1: int, val2: int, d: int) -> bool {
    vstd::math::abs(val1 - val2) < d
}

/// Whether `val1` lies strictly within `d` of `val2`. A delta of exactly
/// the distance does not match, and a delta of zero matches nothing.
pub fn in_delta_i64(val1: i64, val2: i64, d: i64) -> (r: bool)
    ensures
        r == in_delta(val1 as int, val2 as int, d as int),
{
    let diff: i128 = val1 as i128 - val2 as i128;
    let a: i128 = if diff < 0 {
        -diff
    } else {
        diff
    };
    a < d as i128
}

/// A photo record matches: its timestamp lies strictly within the
/// timestamp window and its depth strictly within the photo depth window.
pub open spec fn photo_matches(q: Query, p: PhotoV) -> bool {
    &&& in_delta(p.timestamp as int, q.timestamp as int, q.timestamp_d as int)
    &&& in_delta(p.point.deep as int, q.deep as int, q.photo_deep_d as int)
}

/// A temperature record matches: timestamp window and temperature depth
/// window, both strict.
pub open spec fn temp_matches(q: Query, t: Temp) -> bool {
    &&& in_delta(t.timestamp as int, q.timestamp as int, q.timestamp_d as int)
    &&& in_delta(t.point.deep as int, q.deep as int, q.temp_deep_d as int)
}

/// A flow record matches: timestamp window and flow depth window, both
/// strict.
pub open spec fn flow_matches(q: Query, f: Flow) -> bool {
    &&& in_delta(f.timestamp as int, q.timestamp as int, q.timestamp_d as int)
    &&& in_delta(f.point.deep as int, q.deep as int, q.flow_deep_d as int)
}

impl Data {
    /// Filters every series by the query window: exactly the matching
    /// records survive, in their original order. The dataset itself is
    /// untouched; the result holds copies.
    #[verifier::loop_isolation(false)]
    pub fn query_2d(&self, q: &Query) -> (r: QueryResult)
        ensures
            photos_view(r.photo@) == photos_view(self.photo@).filter(
                (|p: PhotoV| photo_matches(*q, p)),
            ),
            r.temp@ == self.temp@.filter((|t: Temp| temp_matches(*q, t))),
            r.flow@ == self.flow@.filter((|f: Flow| flow_matches(*q, f))),
    {
        let ghost photo_pred = |p: PhotoV| photo_matches(*q, p);
        let ghost temp_pred = |t: Temp| temp_matches(*q, t);
        let ghost flow_pred = |f: Flow| flow_matches(*q, f);
        let mut photo: Vec<Photo> = Vec::new();
        let mut i: usize = 0;
        while i < self.photo.len()
            invariant
                i <= self.photo.len(),
                photos_view(photo@) == photos_view(self.photo@.take(i as int)).filter(photo_pred),
            decreases self.photo.len() - i,
        {
            let p = &self.photo[i];
            proof {
                let prefix = photos_view(self.photo@.take(i as int));
                let next = photos_view(self.photo@.take(i + 1 as int));
                assert(next =~= prefix.push(self.photo@[i as int]@));
                lemma_filter_push(prefix, photo_pred, self.photo@[i as int]@);
            }
            if in_delta_i64(p.timestamp, q.timestamp, q.timestamp_d) {
                if in_delta_i64(p.point.deep, q.deep, q.photo_deep_d) {
                    photo.push(p.clone());
                    assert(photos_view(photo@) =~= photos_view(photo@.drop_last()).push(
                        photo@.last()@,
                    ));
                }
            }
            i = i + 1;
        }
        assert(self.photo@.take(self.photo@.len() as int) =~= self.photo@);

        let mut temp: Vec<Temp> = Vec::new();
        let mut i: usize = 0;
        while i < self.temp.len()
            invariant
                i <= self.temp.len(),
                temp@ == self.temp@.take(i as int).filter(temp_pred),
            decreases self.temp.len() - i,
        {
            let t = self.temp[i];
            proof {
                let prefix = self.temp@.take(i as int);
                assert(self.temp@.take(i + 1 as int) =~= prefix.push(self.temp@[i as int]));
                lemma_filter_push(prefix, temp_pred, self.temp@[i as int]);
            }
            if in_delta_i64(t.timestamp, q.timestamp, q.timestamp_d) {
                if in_delta_i64(t.point.deep, q.deep, q.temp_deep_d) {
                    temp.push(t);
                }
            }
            i = i + 1;
        }
        assert(self.temp@.take(self.temp@.len() as int) =~= self.temp@);

        let mut flow: Vec<Flow> = Vec::new();
        let mut i: usize = 0;
        while i < self.flow.len()
            invariant
                i <= self.flow.len(),
                flow@ == self.flow@.take(i as int).filter(flow_pred),
            decreases self.flow.len() - i,
        {
            let f = self.flow[i];
            proof {
                let prefix = self.flow@.take(i as int);
                assert(self.flow@.take(i + 1 as int) =~= prefix.push(self.flow@[i as int]));
                lemma_filter_push(prefix, flow_pred, self.flow@[i as int]);
            }
            if in_delta_i64(f.timestamp, q.timestamp, q.timestamp_d) {
                if in_delta_i64(f.point.deep, q.deep, q.flow_deep_d) {
                    flow.push(f);
                }
            }
            i = i + 1;
        }
        assert(self.flow@.take(self.flow@.len() as int) =~= self.flow@);

        QueryResult { photo, temp, flow }
    }
}

/// Filtering a sequence extended by one element keeps the old result and
/// appends the element exactly when it satisfies the predicate.
proof fn lemma_filter_push<A>(s: Seq<A>, pred: spec_fn(A) -> bool, x: A)
    ensures
        s.push(x).filter(pred) == if pred(x) {
            s.filter(pred).push(x)
        } else {
            s.filter(pred)
        },
{
    reveal(Seq::filter);
    assert(s.push(x).drop_last() =~= s);
    assert(s.push(x).last() == x);
}

} // verus!
