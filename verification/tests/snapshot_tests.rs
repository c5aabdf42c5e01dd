use datal::error::DataError;
use datal::model::{Background, BackgroundImage, Data, Flow, Photo, Point, Temp};
use datal::snapshot::{decode_data, encode_data};

fn point(lat: i64, lon: i64, deep: i64) -> Point {
    Point { latitude: lat, longitude: lon, deep }
}

fn sample() -> Data {
    Data {
        bg: Background {
            image: Some(BackgroundImage {
                image_path: "maps/étang.png".to_string(),
                scale: 3 << 20,
                rotate: -(1 << 19),
            }),
            border: vec![point(1, 2, 3), point(-4, -5, -6)],
        },
        photo: vec![
            Photo {
                point: point(10, 11, 12),
                timestamp: 1609502400,
                solar: 55,
                transparency: vec![(400 << 20, 17), (550 << 20, 23), (700 << 20, 0)],
            },
            Photo { point: point(0, 0, 0), timestamp: -5, solar: 0, transparency: vec![] },
        ],
        temp: vec![Temp { point: point(7, 8, 9), timestamp: 42, val: -1 }],
        flow: vec![
            Flow { point: point(i64::MIN, i64::MAX, 0), timestamp: 0, speed: 1, dir: 359 },
        ],
    }
}

fn assert_data_eq(a: &Data, b: &Data) {
    match (&a.bg.image, &b.bg.image) {
        (None, None) => {}
        (Some(x), Some(y)) => {
            assert_eq!(x.image_path, y.image_path);
            assert_eq!(x.scale, y.scale);
            assert_eq!(x.rotate, y.rotate);
        }
        _ => panic!("background image presence differs"),
    }
    assert_eq!(a.bg.border.len(), b.bg.border.len());
    for (p, q) in a.bg.border.iter().zip(b.bg.border.iter()) {
        assert_eq!(p, q);
    }
    assert_eq!(a.photo.len(), b.photo.len());
    for (p, q) in a.photo.iter().zip(b.photo.iter()) {
        assert_eq!(p.point, q.point);
        assert_eq!(p.timestamp, q.timestamp);
        assert_eq!(p.solar, q.solar);
        assert_eq!(p.transparency, q.transparency);
    }
    assert_eq!(a.temp.len(), b.temp.len());
    for (p, q) in a.temp.iter().zip(b.temp.iter()) {
        assert_eq!(p, q);
    }
    assert_eq!(a.flow.len(), b.flow.len());
    for (p, q) in a.flow.iter().zip(b.flow.iter()) {
        assert_eq!(p, q);
    }
}

#[test]
fn round_trip_of_empty_dataset() {
    // The round trip holds for the empty dataset too: absent image,
    // zero-length series.
    let d = Data::default();
    let bytes = encode_data(&d);
    let back = decode_data(&bytes).expect("empty dataset must decode");
    assert_data_eq(&d, &back);
}

#[test]
fn round_trip_of_full_dataset() {
    let d = sample();
    let bytes = encode_data(&d);
    let back = decode_data(&bytes).expect("sample dataset must decode");
    assert_data_eq(&d, &back);
}

#[test]
fn round_trip_without_image_but_with_border() {
    let mut d = sample();
    d.bg.image = None;
    let bytes = encode_data(&d);
    let back = decode_data(&bytes).expect("dataset must decode");
    assert_data_eq(&d, &back);
}

#[test]
fn truncated_snapshot_is_a_decode_error() {
    let mut bytes = encode_data(&sample());
    bytes.truncate(bytes.len() - 1);
    match decode_data(&bytes) {
        Err(DataError::DecodeError(_)) => {}
        _ => panic!("truncated snapshot must fail with a decode error"),
    }
}

#[test]
fn trailing_bytes_are_a_decode_error() {
    let mut bytes = encode_data(&sample());
    bytes.push(0);
    match decode_data(&bytes) {
        Err(DataError::DecodeError(_)) => {}
        _ => panic!("trailing bytes must fail with a decode error"),
    }
}

#[test]
fn bad_image_tag_is_a_decode_error() {
    let d = Data::default();
    let mut bytes = encode_data(&d);
    // The first byte is the image presence tag: 0 or 1, nothing else.
    bytes[0] = 2;
    match decode_data(&bytes) {
        Err(DataError::DecodeError(_)) => {}
        _ => panic!("an unknown tag must fail with a decode error"),
    }
}

#[test]
fn empty_dataset_encodes_to_its_exact_bytes() {
    // One zero tag for the absent image, then four zero eight-byte
    // little-endian counts: border, photo, temp, flow.
    let bytes = encode_data(&Data::default());
    assert_eq!(bytes, vec![0u8; 33]);
}

#[test]
fn counts_are_little_endian() {
    let mut d = Data::default();
    d.bg.border.push(point(0, 0, 0));
    let bytes = encode_data(&d);
    // tag 0, then the border count 1 as eight little-endian bytes.
    assert_eq!(&bytes[0..9], &[0, 1, 0, 0, 0, 0, 0, 0, 0]);
}

#[test]
fn empty_input_is_a_decode_error() {
    let bytes: Vec<u8> = Vec::new();
    match decode_data(&bytes) {
        Err(DataError::DecodeError(_)) => {}
        _ => panic!("an empty stream must fail with a decode error"),
    }
}
