use datal::model::{Data, Flow, Photo, Point, Temp};

fn point(deep: i64) -> Point {
    Point { latitude: 0, longitude: 0, deep }
}

#[test]
fn empty_ranges_are_all_zero() {
    let d = Data::default();
    let r = d.ranges();
    assert_eq!(r.deep_min, 0);
    assert_eq!(r.deep_max, 0);
    assert_eq!(r.timestamp_min, 0);
    assert_eq!(r.timestamp_max, 0);
}

#[test]
fn border_only_ranges() {
    // Border vertices contribute depth but no timestamp: the timestamp
    // bounds stay zero even though points exist.
    let mut d = Data::default();
    d.bg.border.push(point(10));
    d.bg.border.push(point(20));
    let r = d.ranges();
    assert_eq!(r.deep_min, 10);
    assert_eq!(r.deep_max, 20);
    assert_eq!(r.timestamp_min, 0);
    assert_eq!(r.timestamp_max, 0);
}

#[test]
fn ranges_cover_all_series() {
    let mut d = Data::default();
    d.bg.border.push(point(-5));
    d.photo.push(Photo { point: point(3), timestamp: 100, solar: 0, transparency: vec![] });
    d.temp.push(Temp { point: point(40), timestamp: 90, val: 0 });
    d.flow.push(Flow { point: point(0), timestamp: 250, speed: 0, dir: 0 });
    let r = d.ranges();
    assert_eq!(r.deep_min, -5);
    assert_eq!(r.deep_max, 40);
    assert_eq!(r.timestamp_min, 90);
    assert_eq!(r.timestamp_max, 250);
}

#[test]
fn single_record_collapses_both_bounds() {
    let mut d = Data::default();
    d.temp.push(Temp { point: point(-7), timestamp: 33, val: 0 });
    let r = d.ranges();
    assert_eq!(r.deep_min, -7);
    assert_eq!(r.deep_max, -7);
    assert_eq!(r.timestamp_min, 33);
    assert_eq!(r.timestamp_max, 33);
}
