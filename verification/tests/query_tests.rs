use datal::in_delta_i64;
use datal::model::{Data, Flow, Photo, Point, Temp};
use datal::query::Query;

fn q(timestamp: i64, timestamp_d: i64, deep: i64, d: i64) -> Query {
    Query {
        timestamp,
        timestamp_d,
        deep,
        temp_deep_d: d,
        photo_deep_d: d,
        flow_deep_d: d,
    }
}

fn temp_at(ts: i64, deep: i64) -> Temp {
    Temp { point: Point { latitude: 0, longitude: 0, deep }, timestamp: ts, val: 1 }
}

#[test]
fn in_delta_is_strict() {
    assert!(in_delta_i64(100, 100, 1));
    assert!(!in_delta_i64(100, 100, 0));
    assert!(!in_delta_i64(101, 100, 1));
    assert!(in_delta_i64(101, 100, 2));
    assert!(!in_delta_i64(99, 100, 1));
    assert!(in_delta_i64(-5, -6, 2));
}

#[test]
fn in_delta_survives_extreme_values() {
    assert!(!in_delta_i64(i64::MAX, i64::MIN, 10));
    assert!(in_delta_i64(i64::MIN, i64::MIN, 1));
}

#[test]
fn query_boundary() {
    // A record at timestamp 100, depth 5: a window centred there with
    // both half-widths 1 includes it; a timestamp half-width of 0
    // excludes it, because the comparison is strictly `<`.
    let mut d = Data::default();
    d.temp.push(temp_at(100, 5));
    let hit = d.query_2d(&q(100, 1, 5, 1));
    assert_eq!(hit.temp.len(), 1);
    let miss = d.query_2d(&q(100, 0, 5, 1));
    assert_eq!(miss.temp.len(), 0);
}

#[test]
fn query_filters_each_series_with_its_own_depth_window() {
    let mut d = Data::default();
    d.photo.push(Photo {
        point: Point { latitude: 0, longitude: 0, deep: 10 },
        timestamp: 50,
        solar: 0,
        transparency: vec![],
    });
    d.temp.push(temp_at(50, 10));
    d.flow.push(Flow {
        point: Point { latitude: 0, longitude: 0, deep: 10 },
        timestamp: 50,
        speed: 1,
        dir: 2,
    });
    let query = Query {
        timestamp: 50,
        timestamp_d: 10,
        deep: 12,
        photo_deep_d: 3,  // |10 - 12| = 2 < 3: photo matches
        temp_deep_d: 2,   // 2 < 2 fails: temp excluded
        flow_deep_d: 100, // flow matches
    };
    let r = d.query_2d(&query);
    assert_eq!(r.photo.len(), 1);
    assert_eq!(r.temp.len(), 0);
    assert_eq!(r.flow.len(), 1);
}

#[test]
fn query_keeps_dataset_order() {
    let mut d = Data::default();
    d.temp.push(temp_at(10, 0));
    d.temp.push(temp_at(90, 0)); // excluded
    d.temp.push(temp_at(11, 0));
    d.temp.push(temp_at(12, 0));
    let r = d.query_2d(&q(10, 5, 0, 5));
    let stamps: Vec<i64> = r.temp.iter().map(|t| t.timestamp).collect();
    assert_eq!(stamps, vec![10, 11, 12]);
}

#[test]
fn query_copies_records_whole() {
    let mut d = Data::default();
    d.photo.push(Photo {
        point: Point { latitude: 3, longitude: 4, deep: 5 },
        timestamp: 7,
        solar: 9,
        transparency: vec![(400, 41), (410, 42)],
    });
    let r = d.query_2d(&q(7, 1, 5, 1));
    assert_eq!(r.photo.len(), 1);
    assert_eq!(r.photo[0].point.latitude, 3);
    assert_eq!(r.photo[0].solar, 9);
    assert_eq!(r.photo[0].transparency, vec![(400, 41), (410, 42)]);
}
