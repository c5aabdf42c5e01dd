use datal::model::{Background, BackgroundImage, Data, Flow, Photo, Point, Temp};

fn point(deep: i64) -> Point {
    Point { latitude: 7, longitude: -3, deep }
}

fn photo(ts: i64, deep: i64) -> Photo {
    Photo { point: point(deep), timestamp: ts, solar: 11, transparency: vec![(400, 10), (500, 20)] }
}

fn temp(ts: i64, deep: i64) -> Temp {
    Temp { point: point(deep), timestamp: ts, val: 21 }
}

fn flow(ts: i64, deep: i64) -> Flow {
    Flow { point: point(deep), timestamp: ts, speed: 2, dir: 90 }
}

#[test]
fn default_data_is_empty() {
    let d = Data::default();
    assert!(d.bg.image.is_none());
    assert_eq!(d.bg.border.len(), 0);
    assert_eq!(d.photo.len(), 0);
    assert_eq!(d.temp.len(), 0);
    assert_eq!(d.flow.len(), 0);
}

#[test]
fn clear_resets_everything() {
    let mut d = Data::default();
    d.bg.image = Some(BackgroundImage { image_path: "m.png".to_string(), scale: 1, rotate: 0 });
    d.bg.border.push(point(4));
    d.photo.push(photo(10, 1));
    d.temp.push(temp(10, 1));
    d.flow.push(flow(10, 1));
    d.clear();
    assert!(d.bg.image.is_none());
    assert_eq!(d.bg.border.len(), 0);
    assert_eq!(d.photo.len(), 0);
    assert_eq!(d.temp.len(), 0);
    assert_eq!(d.flow.len(), 0);
}

#[test]
fn merge_counts_and_order() {
    // Dataset A has 2 photo records, B has 1 photo and 3 temp records:
    // the counts are (1, 3, 0) and A's photos stay in front.
    let mut a = Data::default();
    a.photo.push(photo(1, 1));
    a.photo.push(photo(2, 2));
    let mut b = Data::default();
    b.photo.push(photo(3, 3));
    b.temp.push(temp(4, 4));
    b.temp.push(temp(5, 5));
    b.temp.push(temp(6, 6));
    let (p, t, f) = a.add(b);
    assert_eq!((p, t, f), (1, 3, 0));
    assert_eq!(a.photo.len(), 3);
    assert_eq!(a.photo[0].timestamp, 1);
    assert_eq!(a.photo[1].timestamp, 2);
    assert_eq!(a.photo[2].timestamp, 3);
    assert_eq!(a.temp.len(), 3);
    assert_eq!(a.temp[0].timestamp, 4);
    assert_eq!(a.temp[2].timestamp, 6);
    assert_eq!(a.flow.len(), 0);
}

#[test]
fn merge_discards_incoming_background() {
    let mut a = Data::default();
    a.bg.border.push(point(1));
    let mut b = Data::default();
    b.bg.image = Some(BackgroundImage { image_path: "x.png".to_string(), scale: 5, rotate: 1 });
    b.bg.border.push(point(9));
    a.add(b);
    assert!(a.bg.image.is_none());
    assert_eq!(a.bg.border.len(), 1);
    assert_eq!(a.bg.border[0].deep, 1);
}

#[test]
fn merging_same_records_twice_duplicates_them() {
    let mut a = Data::default();
    let mut b = Data::default();
    b.temp.push(temp(7, 7));
    let mut b2 = Data::default();
    b2.temp.push(temp(7, 7));
    a.add(b);
    a.add(b2);
    assert_eq!(a.temp.len(), 2);
    assert_eq!(a.temp[0].timestamp, 7);
    assert_eq!(a.temp[1].timestamp, 7);
}
