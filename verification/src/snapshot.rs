//! The binary snapshot codec: a lossless, self-contained encoding of a
//! whole dataset, and its decoder. Decoding an encoded dataset gives the
//! dataset back exactly; see [`lemma_snapshot_round_trip`].
//!
//! The wire form is flat and little-endian: every integer takes eight
//! bytes, a string is its UTF-8 byte length followed by its bytes, a
//! sequence is its element count followed by the elements in order, and
//! an optional value is a one-byte tag (`0` absent, `1` present)
//! followed by the value when present.
use vstd::prelude::*;

use vstd::bytes::{
    lemma_auto_spec_u64_to_from_le_bytes, spec_u64_from_le_bytes, spec_u64_to_le_bytes,
    spec_u64_to_le_bytes_open, spec_u64_to_le_bytes_to_open,
};
use vstd::string::StringSliceAdditionalSpecFns;
use vstd::utf8::{decode_utf8, encode_utf8, valid_utf8};

use crate::error::DataError;
use crate::model::{
    Background, BackgroundImage, BackgroundImageV, BackgroundV, Data, DataV, Flow, Photo, PhotoV,
    Point, Temp, photos_view,
};

verus! {

// ---------------------------------------------------------------------
// The encoding, as mathematical functions on dataset values.
// ---------------------------------------------------------------------
/// Eight little-endian bytes of an unsigned word.
pub open spec fn enc_u64(x: u64) -> Seq<u8> {
    spec_u64_to_le_bytes(x)
}

/// A signed word is carried as its two's-complement unsigned image.
pub open spec fn enc_i64(x: i64) -> Seq<u8> {
    enc_u64(x as u64)
}

/// A string: the byte length of its UTF-8 form, then those bytes.
pub open spec fn enc_str(s: Seq<char>) -> Seq<u8> {
    enc_u64(encode_utf8(s).len() as u64) + encode_utf8(s)
}

/// The elements of a sequence, encoded in order with no separator.
pub open spec fn enc_seq<A>(s: Seq<A>, f: spec_fn(A) -> Seq<u8>) -> Seq<u8>
    decreases s.len(),
{
    if s.len() == 0 {
        Seq::empty()
    } else {
        f(s[0]) + enc_seq(s.drop_first(), f)
    }
}

/// A sequence: its element count, then its elements in order.
pub open spec fn enc_counted<A>(s: Seq<A>, f: spec_fn(A) -> Seq<u8>) -> Seq<u8> {
    enc_u64(s.len() as u64) + enc_seq(s, f)
}

/// A point: latitude, longitude, depth.
pub open spec fn enc_point(p: Point) -> Seq<u8> {
    enc_i64(p.latitude) + enc_i64(p.longitude) + enc_i64(p.deep)
}

/// One spectral pair: wavelength, value.
pub open spec fn enc_pair(x: (i64, i64)) -> Seq<u8> {
    enc_i64(x.0) + enc_i64(x.1)
}

/// A temperature record: point, timestamp, value.
pub open spec fn enc_temp(t: Temp) -> Seq<u8> {
    enc_point(t.point) + enc_i64(t.timestamp) + enc_i64(t.val)
}

/// A flow record: point, timestamp, speed, direction.
pub open spec fn enc_flow(f: Flow) -> Seq<u8> {
    enc_point(f.point) + enc_i64(f.timestamp) + enc_i64(f.speed) + enc_i64(f.dir)
}

/// A photo record: point, timestamp, solar level, spectral sequence.
pub open spec fn enc_photo(p: PhotoV) -> Seq<u8> {
    enc_point(p.point) + enc_i64(p.timestamp) + enc_i64(p.solar) + enc_pairs(p.transparency)
}

/// A background image: path, scale, rotation.
pub open spec fn enc_img(i: BackgroundImageV) -> Seq<u8> {
    enc_str(i.image_path) + enc_i64(i.scale) + enc_i64(i.rotate)
}

/// An optional background image: a presence tag, then the image.
pub open spec fn enc_opt_img(o: Option<BackgroundImageV>) -> Seq<u8> {
    match o {
        None => seq![0u8],
        Some(i) => seq![1u8] + enc_img(i),
    }
}

/// The background: the optional image, then the border polygon.
pub open spec fn enc_bg(b: BackgroundV) -> Seq<u8> {
    enc_opt_img(b.image) + enc_points(b.border)
}

/// A counted sequence of points.
pub open spec fn enc_points(s: Seq<Point>) -> Seq<u8> {
    enc_counted(s, |p: Point| enc_point(p))
}

/// A counted sequence of spectral pairs.
pub open spec fn enc_pairs(s: Seq<(i64, i64)>) -> Seq<u8> {
    enc_counted(s, |x: (i64, i64)| enc_pair(x))
}

/// A counted sequence of photo records.
pub open spec fn enc_photos(s: Seq<PhotoV>) -> Seq<u8> {
    enc_counted(s, |p: PhotoV| enc_photo(p))
}

/// A counted sequence of temperature records.
pub open spec fn enc_temps(s: Seq<Temp>) -> Seq<u8> {
    enc_counted(s, |t: Temp| enc_temp(t))
}

/// A counted sequence of flow records.
pub open spec fn enc_flows(s: Seq<Flow>) -> Seq<u8> {
    enc_counted(s, |f: Flow| enc_flow(f))
}

/// A whole dataset: background, then the three series.
pub open spec fn enc_data(d: DataV) -> Seq<u8> {
    enc_bg(d.bg) + enc_photos(d.photo) + enc_temps(d.temp) + enc_flows(d.flow)
}

// ---------------------------------------------------------------------
// Counts must fit the wire's eight-byte words. Every dataset held in
// memory satisfies these bounds; they matter only to the mathematical
// statement of the round trip.
// ---------------------------------------------------------------------
/// The UTF-8 form of the string fits an eight-byte length field.
pub open spec fn str_fits(s: Seq<char>) -> bool {
    encode_utf8(s).len() <= u64::MAX
}

/// The photo's spectral sequence fits its count field.
pub open spec fn photo_fits(p: PhotoV) -> bool {
    p.transparency.len() <= u64::MAX
}

/// The background's image path and border fit their fields.
pub open spec fn bg_fits(b: BackgroundV) -> bool {
    &&& b.border.len() <= u64::MAX
    &&& b.image matches Some(i) ==> str_fits(i.image_path)
}

/// Every count in the dataset fits its eight-byte field.
pub open spec fn data_fits(d: DataV) -> bool {
    &&& bg_fits(d.bg)
    &&& d.photo.len() <= u64::MAX
    &&& d.temp.len() <= u64::MAX
    &&& d.flow.len() <= u64::MAX
    &&& forall|i: int| 0 <= i < d.photo.len() ==> photo_fits(#[trigger] d.photo[i])
}

// ---------------------------------------------------------------------
// The decoding, as mathematical functions on byte sequences. Each
// decoder returns the value read and the position after it, or nothing
// when the bytes are truncated or malformed.
// ---------------------------------------------------------------------
/// Reads eight little-endian bytes.
pub open spec fn dec_u64(s: Seq<u8>, pos: int) -> Option<(u64, int)> {
    if 0 <= pos && pos + 8 <= s.len() {
        Some((spec_u64_from_le_bytes(s.subrange(pos, pos + 8)), pos + 8))
    } else {
        None
    }
}

/// Reads a signed word from its unsigned image.
pub open spec fn dec_i64(s: Seq<u8>, pos: int) -> Option<(i64, int)> {
    match dec_u64(s, pos) {
        Some((x, p)) => Some((x as i64, p)),
        None => None,
    }
}

/// Reads one byte.
pub open spec fn dec_byte(s: Seq<u8>, pos: int) -> Option<(u8, int)> {
    if 0 <= pos && pos + 1 <= s.len() {
        Some((s[pos], pos + 1))
    } else {
        None
    }
}

/// Reads a length-prefixed UTF-8 string.
pub open spec fn dec_str(s: Seq<u8>, pos: int) -> Option<(Seq<char>, int)> {
    match dec_u64(s, pos) {
        Some((n, p)) => if p + n <= s.len() && valid_utf8(s.subrange(p, p + n)) {
            Some((decode_utf8(s.subrange(p, p + n)), p + n))
        } else {
            None
        },
        None => None,
    }
}

/// Reads exactly `n` values with the element decoder `df`.
pub open spec fn dec_seq<A>(
    s: Seq<u8>,
    pos: int,
    n: nat,
    df: spec_fn(Seq<u8>, int) -> Option<(A, int)>,
) -> Option<(Seq<A>, int)>
    decreases n,
{
    if n == 0 {
        Some((Seq::empty(), pos))
    } else {
        match df(s, pos) {
            Some((x, p)) => match dec_seq(s, p, (n - 1) as nat, df) {
                Some((xs, p2)) => Some((seq![x] + xs, p2)),
                None => None,
            },
            None => None,
        }
    }
}

/// Reads a count, then that many values.
pub open spec fn dec_counted<A>(
    s: Seq<u8>,
    pos: int,
    df: spec_fn(Seq<u8>, int) -> Option<(A, int)>,
) -> Option<(Seq<A>, int)> {
    match dec_u64(s, pos) {
        Some((n, p)) => dec_seq(s, p, n as nat, df),
        None => None,
    }
}

/// Reads a point.
pub open spec fn dec_point(s: Seq<u8>, pos: int) -> Option<(Point, int)> {
    match dec_i64(s, pos) {
        Some((latitude, p)) => match dec_i64(s, p) {
            Some((longitude, p)) => match dec_i64(s, p) {
                Some((deep, p)) => Some((Point { latitude, longitude, deep }, p)),
                None => None,
            },
            None => None,
        },
        None => None,
    }
}

/// Reads one spectral pair.
pub open spec fn dec_pair(s: Seq<u8>, pos: int) -> Option<((i64, i64), int)> {
    match dec_i64(s, pos) {
        Some((a, p)) => match dec_i64(s, p) {
            Some((b, p)) => Some(((a, b), p)),
            None => None,
        },
        None => None,
    }
}

/// Reads a temperature record.
pub open spec fn dec_temp(s: Seq<u8>, pos: int) -> Option<(Temp, int)> {
    match dec_point(s, pos) {
        Some((point, p)) => match dec_i64(s, p) {
            Some((timestamp, p)) => match dec_i64(s, p) {
                Some((val, p)) => Some((Temp { point, timestamp, val }, p)),
                None => None,
            },
            None => None,
        },
        None => None,
    }
}

/// Reads a flow record.
pub open spec fn dec_flow(s: Seq<u8>, pos: int) -> Option<(Flow, int)> {
    match dec_point(s, pos) {
        Some((point, p)) => match dec_i64(s, p) {
            Some((timestamp, p)) => match dec_i64(s, p) {
                Some((speed, p)) => match dec_i64(s, p) {
                    Some((dir, p)) => Some((Flow { point, timestamp, speed, dir }, p)),
                    None => None,
                },
                None => None,
            },
            None => None,
        },
        None => None,
    }
}

/// Reads a counted sequence of spectral pairs.
pub open spec fn dec_pairs(s: Seq<u8>, pos: int) -> Option<(Seq<(i64, i64)>, int)> {
    dec_counted(s, pos, |t: Seq<u8>, q: int| dec_pair(t, q))
}

/// Reads a photo record.
pub open spec fn dec_photo(s: Seq<u8>, pos: int) -> Option<(PhotoV, int)> {
    match dec_point(s, pos) {
        Some((point, p)) => match dec_i64(s, p) {
            Some((timestamp, p)) => match dec_i64(s, p) {
                Some((solar, p)) => match dec_pairs(s, p) {
                    Some((transparency, p)) => Some(
                        (PhotoV { point, timestamp, solar, transparency }, p),
                    ),
                    None => None,
                },
                None => None,
            },
            None => None,
        },
        None => None,
    }
}

/// Reads a background image.
pub open spec fn dec_img(s: Seq<u8>, pos: int) -> Option<(BackgroundImageV, int)> {
    match dec_str(s, pos) {
        Some((image_path, p)) => match dec_i64(s, p) {
            Some((scale, p)) => match dec_i64(s, p) {
                Some((rotate, p)) => Some((BackgroundImageV { image_path, scale, rotate }, p)),
                None => None,
            },
            None => None,
        },
        None => None,
    }
}

/// Reads an optional background image. Any tag other than `0` or `1`
/// is malformed.
pub open spec fn dec_opt_img(s: Seq<u8>, pos: int) -> Option<(Option<BackgroundImageV>, int)> {
    match dec_byte(s, pos) {
        Some((tag, p)) => if tag == 0 {
            Some((None, p))
        } else if tag == 1 {
            match dec_img(s, p) {
                Some((i, p)) => Some((Some(i), p)),
                None => None,
            }
        } else {
            None
        },
        None => None,
    }
}

/// Reads a counted sequence of points.
pub open spec fn dec_points(s: Seq<u8>, pos: int) -> Option<(Seq<Point>, int)> {
    dec_counted(s, pos, |t: Seq<u8>, q: int| dec_point(t, q))
}

/// Reads a counted sequence of photo records.
pub open spec fn dec_photos(s: Seq<u8>, pos: int) -> Option<(Seq<PhotoV>, int)> {
    dec_counted(s, pos, |t: Seq<u8>, q: int| dec_photo(t, q))
}

/// Reads a counted sequence of temperature records.
pub open spec fn dec_temps(s: Seq<u8>, pos: int) -> Option<(Seq<Temp>, int)> {
    dec_counted(s, pos, |t: Seq<u8>, q: int| dec_temp(t, q))
}

/// Reads a counted sequence of flow records.
pub open spec fn dec_flows(s: Seq<u8>, pos: int) -> Option<(Seq<Flow>, int)> {
    dec_counted(s, pos, |t: Seq<u8>, q: int| dec_flow(t, q))
}

/// Reads a background.
pub open spec fn dec_bg(s: Seq<u8>, pos: int) -> Option<(BackgroundV, int)> {
    match dec_opt_img(s, pos) {
        Some((image, p)) => match dec_points(s, p) {
            Some((border, p)) => Some((BackgroundV { image, border }, p)),
            None => None,
        },
        None => None,
    }
}

/// Reads a whole dataset.
pub open spec fn dec_data(s: Seq<u8>, pos: int) -> Option<(DataV, int)> {
    match dec_bg(s, pos) {
        Some((bg, p)) => match dec_photos(s, p) {
            Some((photo, p)) => match dec_temps(s, p) {
                Some((temp, p)) => match dec_flows(s, p) {
                    Some((flow, p)) => Some((DataV { bg, photo, temp, flow }, p)),
                    None => None,
                },
                None => None,
            },
            None => None,
        },
        None => None,
    }
}

/// The dataset a byte string is the snapshot of: it must decode, and
/// with nothing left over.
pub open spec fn snapshot_of(s: Seq<u8>) -> Option<DataV> {
    match dec_data(s, 0) {
        Some((d, p)) => if p == s.len() {
            Some(d)
        } else {
            None
        },
        None => None,
    }
}

// ---------------------------------------------------------------------
// The encoder.
// ---------------------------------------------------------------------
/// Appending one element to a sequence appends its encoding to the wire.
proof fn lemma_enc_seq_push<A>(s: Seq<A>, f: spec_fn(A) -> Seq<u8>, x: A)
    ensures
        enc_seq(s.push(x), f) == enc_seq(s, f) + f(x),
    decreases s.len(),
{
    if s.len() == 0 {
        assert(s.push(x)[0] == x);
        assert(s.push(x).drop_first() =~= Seq::<A>::empty());
        assert(enc_seq(Seq::<A>::empty(), f) == Seq::<u8>::empty());
        assert(enc_seq(s, f) == Seq::<u8>::empty());
        assert(enc_seq(s.push(x), f) == f(x) + Seq::<u8>::empty());
        assert(enc_seq(s.push(x), f) =~= enc_seq(s, f) + f(x));
    } else {
        assert(s.push(x)[0] == s[0]);
        assert(s.push(x).drop_first() =~= s.drop_first().push(x));
        lemma_enc_seq_push(s.drop_first(), f, x);
        assert(enc_seq(s.push(x), f) =~= enc_seq(s, f) + f(x));
    }
}

fn emit_u64(buf: &mut Vec<u8>, x: u64)
    ensures
        final(buf)@ == old(buf)@ + enc_u64(x),
{
    proof {
        assert(x & 0xff < 256 && (x >> 8) & 0xff < 256 && (x >> 16) & 0xff < 256 && (x >> 24)
            & 0xff < 256 && (x >> 32) & 0xff < 256 && (x >> 40) & 0xff < 256 && (x >> 48) & 0xff
            < 256 && (x >> 56) & 0xff < 256) by (bit_vector);
    }
    buf.push((x & 0xff) as u8);
    buf.push(((x >> 8) & 0xff) as u8);
    buf.push(((x >> 16) & 0xff) as u8);
    buf.push(((x >> 24) & 0xff) as u8);
    buf.push(((x >> 32) & 0xff) as u8);
    buf.push(((x >> 40) & 0xff) as u8);
    buf.push(((x >> 48) & 0xff) as u8);
    buf.push(((x >> 56) & 0xff) as u8);
    proof {
        spec_u64_to_le_bytes_to_open(x);
        assert(buf@ =~= old(buf)@ + spec_u64_to_le_bytes_open(x));
    }
}

fn emit_i64(buf: &mut Vec<u8>, x: i64)
    ensures
        final(buf)@ == old(buf)@ + enc_i64(x),
{
    emit_u64(buf, x as u64);
}

fn emit_str(buf: &mut Vec<u8>, s: &String)
    ensures
        final(buf)@ == old(buf)@ + enc_str(s@),
{
    let bytes: &[u8] = s.as_str().as_bytes();
    let n = bytes.len();
    emit_u64(buf, n as u64);
    let mut i: usize = 0;
    while i < n
        invariant
            n == bytes@.len(),
            bytes@ == encode_utf8(s@),
            i <= n,
            buf@ == old(buf)@ + enc_u64(n as u64) + bytes@.take(i as int),
        decreases n - i,
    {
        let b = *vstd::slice::slice_index_get(bytes, i);
        buf.push(b);
        proof {
            assert(bytes@.take(i + 1) =~= bytes@.take(i as int).push(bytes@[i as int]));
            assert(old(buf)@ + enc_u64(n as u64) + bytes@.take(i + 1) =~= (old(buf)@ + enc_u64(
                n as u64,
            ) + bytes@.take(i as int)).push(bytes@[i as int]));
        }
        i = i + 1;
    }
    proof {
        assert(bytes@.take(n as int) =~= bytes@);
        assert(old(buf)@ + enc_u64(n as u64) + bytes@ =~= old(buf)@ + enc_str(s@));
    }
}

fn emit_point(buf: &mut Vec<u8>, p: &Point)
    ensures
        final(buf)@ == old(buf)@ + enc_point(*p),
{
    emit_i64(buf, p.latitude);
    emit_i64(buf, p.longitude);
    emit_i64(buf, p.deep);
    assert(buf@ =~= old(buf)@ + enc_point(*p));
}

fn emit_pair(buf: &mut Vec<u8>, x: (i64, i64))
    ensures
        final(buf)@ == old(buf)@ + enc_pair(x),
{
    emit_i64(buf, x.0);
    emit_i64(buf, x.1);
    assert(buf@ =~= old(buf)@ + enc_pair(x));
}

fn emit_pairs(buf: &mut Vec<u8>, v: &Vec<(i64, i64)>)
    ensures
        final(buf)@ == old(buf)@ + enc_pairs(v@),
{
    let ghost f = |x: (i64, i64)| enc_pair(x);
    let n = v.len();
    emit_u64(buf, n as u64);
    let mut i: usize = 0;
    while i < n
        invariant
            n == v@.len(),
            i <= n,
            f == (|x: (i64, i64)| enc_pair(x)),
            buf@ == old(buf)@ + enc_u64(n as u64) + enc_seq(v@.take(i as int), f),
        decreases n - i,
    {
        emit_pair(buf, v[i]);
        proof {
            assert(v@.take(i + 1) =~= v@.take(i as int).push(v@[i as int]));
            lemma_enc_seq_push(v@.take(i as int), f, v@[i as int]);
            assert(old(buf)@ + enc_u64(n as u64) + enc_seq(v@.take(i + 1), f) =~= old(buf)@
                + enc_u64(n as u64) + enc_seq(v@.take(i as int), f) + f(v@[i as int]));
        }
        i = i + 1;
    }
    proof {
        assert(v@.take(n as int) =~= v@);
        assert(old(buf)@ + enc_u64(n as u64) + enc_seq(v@, f) =~= old(buf)@ + enc_pairs(v@));
    }
}

fn emit_temp(buf: &mut Vec<u8>, x: &Temp)
    ensures
        final(buf)@ == old(buf)@ + enc_temp(*x),
{
    emit_point(buf, &x.point);
    emit_i64(buf, x.timestamp);
    emit_i64(buf, x.val);
    assert(buf@ =~= old(buf)@ + enc_temp(*x));
}

fn emit_flow(buf: &mut Vec<u8>, x: &Flow)
    ensures
        final(buf)@ == old(buf)@ + enc_flow(*x),
{
    emit_point(buf, &x.point);
    emit_i64(buf, x.timestamp);
    emit_i64(buf, x.speed);
    emit_i64(buf, x.dir);
    assert(buf@ =~= old(buf)@ + enc_flow(*x));
}

fn emit_photo(buf: &mut Vec<u8>, x: &Photo)
    ensures
        final(buf)@ == old(buf)@ + enc_photo(x@),
{
    emit_point(buf, &x.point);
    emit_i64(buf, x.timestamp);
    emit_i64(buf, x.solar);
    emit_pairs(buf, &x.transparency);
    assert(buf@ =~= old(buf)@ + enc_photo(x@));
}

fn emit_points(buf: &mut Vec<u8>, v: &Vec<Point>)
    ensures
        final(buf)@ == old(buf)@ + enc_points(v@),
{
    let ghost f = |p: Point| enc_point(p);
    let n = v.len();
    emit_u64(buf, n as u64);
    let mut i: usize = 0;
    while i < n
        invariant
            n == v@.len(),
            i <= n,
            f == (|p: Point| enc_point(p)),
            buf@ == old(buf)@ + enc_u64(n as u64) + enc_seq(v@.take(i as int), f),
        decreases n - i,
    {
        emit_point(buf, &v[i]);
        proof {
            assert(v@.take(i + 1) =~= v@.take(i as int).push(v@[i as int]));
            lemma_enc_seq_push(v@.take(i as int), f, v@[i as int]);
            assert(old(buf)@ + enc_u64(n as u64) + enc_seq(v@.take(i + 1), f) =~= old(buf)@
                + enc_u64(n as u64) + enc_seq(v@.take(i as int), f) + f(v@[i as int]));
        }
        i = i + 1;
    }
    proof {
        assert(v@.take(n as int) =~= v@);
        assert(old(buf)@ + enc_u64(n as u64) + enc_seq(v@, f) =~= old(buf)@ + enc_points(v@));
    }
}

fn emit_photos(buf: &mut Vec<u8>, v: &Vec<Photo>)
    ensures
        final(buf)@ == old(buf)@ + enc_photos(photos_view(v@)),
{
    let ghost f = |p: PhotoV| enc_photo(p);
    let n = v.len();
    emit_u64(buf, n as u64);
    let mut i: usize = 0;
    while i < n
        invariant
            n == v@.len(),
            i <= n,
            f == (|p: PhotoV| enc_photo(p)),
            buf@ == old(buf)@ + enc_u64(n as u64) + enc_seq(photos_view(v@.take(i as int)), f),
        decreases n - i,
    {
        emit_photo(buf, &v[i]);
        proof {
            assert(photos_view(v@.take(i + 1)) =~= photos_view(v@.take(i as int)).push(
                v@[i as int]@,
            ));
            lemma_enc_seq_push(photos_view(v@.take(i as int)), f, v@[i as int]@);
            assert(old(buf)@ + enc_u64(n as u64) + enc_seq(photos_view(v@.take(i + 1)), f) =~= old(
                buf,
            )@ + enc_u64(n as u64) + enc_seq(photos_view(v@.take(i as int)), f) + f(v@[i as int]@));
        }
        i = i + 1;
    }
    proof {
        assert(v@.take(n as int) =~= v@);
        assert(photos_view(v@).len() == n);
        assert(old(buf)@ + enc_u64(n as u64) + enc_seq(photos_view(v@), f) =~= old(buf)@
            + enc_photos(photos_view(v@)));
    }
}

fn emit_temps(buf: &mut Vec<u8>, v: &Vec<Temp>)
    ensures
        final(buf)@ == old(buf)@ + enc_temps(v@),
{
    let ghost f = |x: Temp| enc_temp(x);
    let n = v.len();
    emit_u64(buf, n as u64);
    let mut i: usize = 0;
    while i < n
        invariant
            n == v@.len(),
            i <= n,
            f == (|x: Temp| enc_temp(x)),
            buf@ == old(buf)@ + enc_u64(n as u64) + enc_seq(v@.take(i as int), f),
        decreases n - i,
    {
        emit_temp(buf, &v[i]);
        proof {
            assert(v@.take(i + 1) =~= v@.take(i as int).push(v@[i as int]));
            lemma_enc_seq_push(v@.take(i as int), f, v@[i as int]);
            assert(old(buf)@ + enc_u64(n as u64) + enc_seq(v@.take(i + 1), f) =~= old(buf)@
                + enc_u64(n as u64) + enc_seq(v@.take(i as int), f) + f(v@[i as int]));
        }
        i = i + 1;
    }
    proof {
        assert(v@.take(n as int) =~= v@);
        assert(old(buf)@ + enc_u64(n as u64) + enc_seq(v@, f) =~= old(buf)@ + enc_temps(v@));
    }
}

fn emit_flows(buf: &mut Vec<u8>, v: &Vec<Flow>)
    ensures
        final(buf)@ == old(buf)@ + enc_flows(v@),
{
    let ghost f = |x: Flow| enc_flow(x);
    let n = v.len();
    emit_u64(buf, n as u64);
    let mut i: usize = 0;
    while i < n
        invariant
            n == v@.len(),
            i <= n,
            f == (|x: Flow| enc_flow(x)),
            buf@ == old(buf)@ + enc_u64(n as u64) + enc_seq(v@.take(i as int), f),
        decreases n - i,
    {
        emit_flow(buf, &v[i]);
        proof {
            assert(v@.take(i + 1) =~= v@.take(i as int).push(v@[i as int]));
            lemma_enc_seq_push(v@.take(i as int), f, v@[i as int]);
            assert(old(buf)@ + enc_u64(n as u64) + enc_seq(v@.take(i + 1), f) =~= old(buf)@
                + enc_u64(n as u64) + enc_seq(v@.take(i as int), f) + f(v@[i as int]));
        }
        i = i + 1;
    }
    proof {
        assert(v@.take(n as int) =~= v@);
        assert(old(buf)@ + enc_u64(n as u64) + enc_seq(v@, f) =~= old(buf)@ + enc_flows(v@));
    }
}

fn emit_bg(buf: &mut Vec<u8>, bg: &Background)
    ensures
        final(buf)@ == old(buf)@ + enc_bg(bg@),
{
    match &bg.image {
        None => {
            buf.push(0u8);
            assert(buf@ =~= old(buf)@ + enc_opt_img(bg@.image));
        },
        Some(img) => {
            buf.push(1u8);
            assert(buf@ =~= old(buf)@ + seq![1u8]);
            emit_str(buf, &img.image_path);
            emit_i64(buf, img.scale);
            emit_i64(buf, img.rotate);
            assert(buf@ =~= old(buf)@ + enc_opt_img(bg@.image));
        },
    }
    emit_points(buf, &bg.border);
    assert(buf@ =~= old(buf)@ + enc_bg(bg@));
}

/// Encodes a whole dataset into its snapshot bytes.
pub fn encode_data(d: &Data) -> (r: Vec<u8>)
    ensures
        r@ == enc_data(d@),
{
    let mut buf: Vec<u8> = Vec::new();
    emit_bg(&mut buf, &d.bg);
    emit_photos(&mut buf, &d.photo);
    emit_temps(&mut buf, &d.temp);
    emit_flows(&mut buf, &d.flow);
    proof {
        assert(buf@ =~= enc_data(d@));
    }
    buf
}

// ---------------------------------------------------------------------
// The decoder.
// ---------------------------------------------------------------------
#[verifier::external_type_specification]
#[verifier::external_body]
pub struct ExUtf8Error(core::str::Utf8Error);

/// Relies on core::str::from_utf8: it succeeds exactly on valid UTF-8,
/// and then returns a string slice whose bytes are the given bytes.
pub assume_specification<'a>[ core::str::from_utf8 ](v: &'a [u8]) -> (r: Result<
    &'a str,
    core::str::Utf8Error,
>)
    ensures
        r is Ok <==> valid_utf8(v@),
        r matches Ok(s) ==> s.spec_bytes() == v@,
;

/// The error used for a snapshot stream that ends too early.
fn truncated() -> (r: DataError)
    ensures
        r is DecodeError,
{
    DataError::DecodeError("snapshot truncated".to_owned())
}

/// The error used for snapshot bytes that no encoding produces.
fn malformed() -> (r: DataError)
    ensures
        r is DecodeError,
{
    DataError::DecodeError("snapshot malformed".to_owned())
}

fn take_u64(buf: &Vec<u8>, pos: usize) -> (r: Result<(u64, usize), DataError>)
    ensures
        (match dec_u64(buf@, pos as int) {
            Some((x, p)) => r matches Ok(v) && v.0 == x && v.1 == p,
            None => r matches Err(e) && e is DecodeError,
        }),
{
    if pos < buf.len() && buf.len() - pos >= 8 {
        let b0 = buf[pos] as u64;
        let b1 = buf[pos + 1] as u64;
        let b2 = buf[pos + 2] as u64;
        let b3 = buf[pos + 3] as u64;
        let b4 = buf[pos + 4] as u64;
        let b5 = buf[pos + 5] as u64;
        let b6 = buf[pos + 6] as u64;
        let b7 = buf[pos + 7] as u64;
        let x = b0 | (b1 << 8) | (b2 << 16) | (b3 << 24) | (b4 << 32) | (b5 << 40) | (b6 << 48) | (
        b7 << 56);
        proof {
            lemma_auto_spec_u64_to_from_le_bytes();
            spec_u64_to_le_bytes_to_open(x);
            assert((x == b0 | (b1 << 8) | (b2 << 16) | (b3 << 24) | (b4 << 32) | (b5 << 40) | (b6
                << 48) | (b7 << 56) && b0 < 256 && b1 < 256 && b2 < 256 && b3 < 256 && b4 < 256
                && b5 < 256 && b6 < 256 && b7 < 256) ==> (b0 == x & 0xff && b1 == (x >> 8) & 0xff
                && b2 == (x >> 16) & 0xff && b3 == (x >> 24) & 0xff && b4 == (x >> 32) & 0xff && b5
                == (x >> 40) & 0xff && b6 == (x >> 48) & 0xff && b7 == (x >> 56)
                & 0xff)) by (bit_vector);
            assert(spec_u64_to_le_bytes(x) =~= buf@.subrange(pos as int, pos + 8));
        }
        Ok((x, pos + 8))
    } else {
        Err(truncated())
    }
}

fn take_i64(buf: &Vec<u8>, pos: usize) -> (r: Result<(i64, usize), DataError>)
    ensures
        (match dec_i64(buf@, pos as int) {
            Some((x, p)) => r matches Ok(v) && v.0 == x && v.1 == p,
            None => r matches Err(e) && e is DecodeError,
        }),
{
    match take_u64(buf, pos) {
        Ok((x, p)) => Ok((x as i64, p)),
        Err(e) => Err(e),
    }
}

fn take_str(buf: &Vec<u8>, pos: usize) -> (r: Result<(String, usize), DataError>)
    ensures
        (match dec_str(buf@, pos as int) {
            Some((s, p)) => r matches Ok(v) && v.0@ == s && v.1 == p,
            None => r matches Err(e) && e is DecodeError,
        }),
{
    let (n, p) = match take_u64(buf, pos) {
        Ok(v) => v,
        Err(e) => {
            return Err(e);
        },
    };
    if n > (buf.len() - p) as u64 {
        return Err(truncated());
    }
    let nn = n as usize;
    let sub: &[u8] = vstd::slice::slice_subrange(buf.as_slice(), p, p + nn);
    match core::str::from_utf8(sub) {
        Ok(ss) => {
            let out = ss.to_owned();
            proof {
                vstd::utf8::encode_utf8_decode_utf8(ss@);
            }
            Ok((out, p + nn))
        },
        Err(_) => Err(malformed()),
    }
}

fn take_point(buf: &Vec<u8>, pos: usize) -> (r: Result<(Point, usize), DataError>)
    ensures
        (match dec_point(buf@, pos as int) {
            Some((x, p)) => r matches Ok(v) && v.0 == x && v.1 == p,
            None => r matches Err(e) && e is DecodeError,
        }),
{
    let (latitude, p) = match take_i64(buf, pos) {
        Ok(v) => v,
        Err(e) => {
            return Err(e);
        },
    };
    let (longitude, p) = match take_i64(buf, p) {
        Ok(v) => v,
        Err(e) => {
            return Err(e);
        },
    };
    let (deep, p) = match take_i64(buf, p) {
        Ok(v) => v,
        Err(e) => {
            return Err(e);
        },
    };
    Ok((Point { latitude, longitude, deep }, p))
}

fn take_pair(buf: &Vec<u8>, pos: usize) -> (r: Result<((i64, i64), usize), DataError>)
    ensures
        (match dec_pair(buf@, pos as int) {
            Some((x, p)) => r matches Ok(v) && v.0 == x && v.1 == p,
            None => r matches Err(e) && e is DecodeError,
        }),
{
    let (a, p) = match take_i64(buf, pos) {
        Ok(v) => v,
        Err(e) => {
            return Err(e);
        },
    };
    let (b, p) = match take_i64(buf, p) {
        Ok(v) => v,
        Err(e) => {
            return Err(e);
        },
    };
    Ok(((a, b), p))
}

fn take_temp(buf: &Vec<u8>, pos: usize) -> (r: Result<(Temp, usize), DataError>)
    ensures
        (match dec_temp(buf@, pos as int) {
            Some((x, p)) => r matches Ok(v) && v.0 == x && v.1 == p,
            None => r matches Err(e) && e is DecodeError,
        }),
{
    let (point, p) = match take_point(buf, pos) {
        Ok(v) => v,
        Err(e) => {
            return Err(e);
        },
    };
    let (timestamp, p) = match take_i64(buf, p) {
        Ok(v) => v,
        Err(e) => {
            return Err(e);
        },
    };
    let (val, p) = match take_i64(buf, p) {
        Ok(v) => v,
        Err(e) => {
            return Err(e);
        },
    };
    Ok((Temp { point, timestamp, val }, p))
}

fn take_flow(buf: &Vec<u8>, pos: usize) -> (r: Result<(Flow, usize), DataError>)
    ensures
        (match dec_flow(buf@, pos as int) {
            Some((x, p)) => r matches Ok(v) && v.0 == x && v.1 == p,
            None => r matches Err(e) && e is DecodeError,
        }),
{
    let (point, p) = match take_point(buf, pos) {
        Ok(v) => v,
        Err(e) => {
            return Err(e);
        },
    };
    let (timestamp, p) = match take_i64(buf, p) {
        Ok(v) => v,
        Err(e) => {
            return Err(e);
        },
    };
    let (speed, p) = match take_i64(buf, p) {
        Ok(v) => v,
        Err(e) => {
            return Err(e);
        },
    };
    let (dir, p) = match take_i64(buf, p) {
        Ok(v) => v,
        Err(e) => {
            return Err(e);
        },
    };
    Ok((Flow { point, timestamp, speed, dir }, p))
}

fn take_points(buf: &Vec<u8>, pos: usize) -> (r: Result<(Vec<Point>, usize), DataError>)
    ensures
        (match dec_points(buf@, pos as int) {
            Some((s, p)) => r matches Ok(v) && v.0@ == s && v.1 == p,
            None => r matches Err(e) && e is DecodeError,
        }),
{
    let ghost df = |t: Seq<u8>, q: int| dec_point(t, q);
    let (n, p0) = match take_u64(buf, pos) {
        Ok(v) => v,
        Err(e) => {
            return Err(e);
        },
    };
    let mut acc: Vec<Point> = Vec::new();
    let mut cur = p0;
    let mut k: u64 = 0;
    while k < n
        invariant
            k <= n,
            cur <= buf@.len(),
            dec_u64(buf@, pos as int) == Some((n, p0 as int)),
            df == (|t: Seq<u8>, q: int| dec_point(t, q)),
            (match dec_seq(buf@, cur as int, (n - k) as nat, df) {
                Some((xs, p)) => dec_seq(buf@, p0 as int, n as nat, df) == Some((acc@ + xs, p)),
                None => dec_seq(buf@, p0 as int, n as nat, df) is None,
            }),
        decreases n - k,
    {
        match take_point(buf, cur) {
            Ok((x, p2)) => {
                proof {
                    assert(df(buf@, cur as int) == dec_point(buf@, cur as int));
                    assert(dec_seq(buf@, cur as int, (n - k) as nat, df) == (match dec_seq(
                        buf@,
                        p2 as int,
                        (n - k - 1) as nat,
                        df,
                    ) {
                        Some((xs, p)) => Some((seq![x] + xs, p)),
                        None => None::<(Seq<Point>, int)>,
                    }));
                    let rest = (match dec_seq(buf@, p2 as int, (n - k - 1) as nat, df) {
                        Some((xs, _)) => xs,
                        None => Seq::<Point>::empty(),
                    });
                    assert(acc@.push(x) + rest =~= acc@ + (seq![x] + rest));
                }
                acc.push(x);
                cur = p2;
                k = k + 1;
            },
            Err(e) => {
                return Err(e);
            },
        }
    }
    proof {
        assert(dec_seq(buf@, cur as int, 0, df) == Some((Seq::<Point>::empty(), cur as int)));
        assert(acc@ + Seq::<Point>::empty() =~= acc@);
    }
    Ok((acc, cur))
}

fn take_pairs(buf: &Vec<u8>, pos: usize) -> (r: Result<(Vec<(i64, i64)>, usize), DataError>)
    ensures
        (match dec_pairs(buf@, pos as int) {
            Some((s, p)) => r matches Ok(v) && v.0@ == s && v.1 == p && p <= buf@.len(),
            None => r matches Err(e) && e is DecodeError,
        }),
{
    let ghost df = |t: Seq<u8>, q: int| dec_pair(t, q);
    let (n, p0) = match take_u64(buf, pos) {
        Ok(v) => v,
        Err(e) => {
            return Err(e);
        },
    };
    let mut acc: Vec<(i64, i64)> = Vec::new();
    let mut cur = p0;
    let mut k: u64 = 0;
    while k < n
        invariant
            k <= n,
            cur <= buf@.len(),
            dec_u64(buf@, pos as int) == Some((n, p0 as int)),
            df == (|t: Seq<u8>, q: int| dec_pair(t, q)),
            (match dec_seq(buf@, cur as int, (n - k) as nat, df) {
                Some((xs, p)) => dec_seq(buf@, p0 as int, n as nat, df) == Some((acc@ + xs, p)),
                None => dec_seq(buf@, p0 as int, n as nat, df) is None,
            }),
        decreases n - k,
    {
        match take_pair(buf, cur) {
            Ok((x, p2)) => {
                proof {
                    assert(df(buf@, cur as int) == dec_pair(buf@, cur as int));
                    assert(dec_seq(buf@, cur as int, (n - k) as nat, df) == (match dec_seq(
                        buf@,
                        p2 as int,
                        (n - k - 1) as nat,
                        df,
                    ) {
                        Some((xs, p)) => Some((seq![x] + xs, p)),
                        None => None::<(Seq<(i64, i64)>, int)>,
                    }));
                    let rest = (match dec_seq(buf@, p2 as int, (n - k - 1) as nat, df) {
                        Some((xs, _)) => xs,
                        None => Seq::<(i64, i64)>::empty(),
                    });
                    assert(acc@.push(x) + rest =~= acc@ + (seq![x] + rest));
                }
                acc.push(x);
                cur = p2;
                k = k + 1;
            },
            Err(e) => {
                return Err(e);
            },
        }
    }
    proof {
        assert(dec_seq(buf@, cur as int, 0, df) == Some((Seq::<(i64, i64)>::empty(), cur as int)));
        assert(acc@ + Seq::<(i64, i64)>::empty() =~= acc@);
    }
    Ok((acc, cur))
}

fn take_photo(buf: &Vec<u8>, pos: usize) -> (r: Result<(Photo, usize), DataError>)
    ensures
        (match dec_photo(buf@, pos as int) {
            Some((x, p)) => r matches Ok(v) && v.0@ == x && v.1 == p && p <= buf@.len(),
            None => r matches Err(e) && e is DecodeError,
        }),
{
    let (point, p) = match take_point(buf, pos) {
        Ok(v) => v,
        Err(e) => {
            return Err(e);
        },
    };
    let (timestamp, p) = match take_i64(buf, p) {
        Ok(v) => v,
        Err(e) => {
            return Err(e);
        },
    };
    let (solar, p) = match take_i64(buf, p) {
        Ok(v) => v,
        Err(e) => {
            return Err(e);
        },
    };
    let (transparency, p) = match take_pairs(buf, p) {
        Ok(v) => v,
        Err(e) => {
            return Err(e);
        },
    };
    Ok((Photo { point, timestamp, solar, transparency }, p))
}

fn take_photos(buf: &Vec<u8>, pos: usize) -> (r: Result<(Vec<Photo>, usize), DataError>)
    ensures
        (match dec_photos(buf@, pos as int) {
            Some((s, p)) => r matches Ok(v) && photos_view(v.0@) == s && v.1 == p,
            None => r matches Err(e) && e is DecodeError,
        }),
{
    let ghost df = |t: Seq<u8>, q: int| dec_photo(t, q);
    let (n, p0) = match take_u64(buf, pos) {
        Ok(v) => v,
        Err(e) => {
            return Err(e);
        },
    };
    let mut acc: Vec<Photo> = Vec::new();
    let mut cur = p0;
    let mut k: u64 = 0;
    while k < n
        invariant
            k <= n,
            cur <= buf@.len(),
            dec_u64(buf@, pos as int) == Some((n, p0 as int)),
            df == (|t: Seq<u8>, q: int| dec_photo(t, q)),
            (match dec_seq(buf@, cur as int, (n - k) as nat, df) {
                Some((xs, p)) => dec_seq(buf@, p0 as int, n as nat, df) == Some(
                    (photos_view(acc@) + xs, p),
                ),
                None => dec_seq(buf@, p0 as int, n as nat, df) is None,
            }),
        decreases n - k,
    {
        match take_photo(buf, cur) {
            Ok((x, p2)) => {
                proof {
                    assert(df(buf@, cur as int) == dec_photo(buf@, cur as int));
                    assert(dec_seq(buf@, cur as int, (n - k) as nat, df) == (match dec_seq(
                        buf@,
                        p2 as int,
                        (n - k - 1) as nat,
                        df,
                    ) {
                        Some((xs, p)) => Some((seq![x@] + xs, p)),
                        None => None::<(Seq<PhotoV>, int)>,
                    }));
                    let rest = (match dec_seq(buf@, p2 as int, (n - k - 1) as nat, df) {
                        Some((xs, _)) => xs,
                        None => Seq::<PhotoV>::empty(),
                    });
                    assert(photos_view(acc@.push(x)) =~= photos_view(acc@).push(x@));
                    assert(photos_view(acc@).push(x@) + rest =~= photos_view(acc@) + (seq![x@]
                        + rest));
                }
                acc.push(x);
                cur = p2;
                k = k + 1;
            },
            Err(e) => {
                return Err(e);
            },
        }
    }
    proof {
        assert(dec_seq(buf@, cur as int, 0, df) == Some((Seq::<PhotoV>::empty(), cur as int)));
        assert(photos_view(acc@) + Seq::<PhotoV>::empty() =~= photos_view(acc@));
    }
    Ok((acc, cur))
}

fn take_temps(buf: &Vec<u8>, pos: usize) -> (r: Result<(Vec<Temp>, usize), DataError>)
    ensures
        (match dec_temps(buf@, pos as int) {
            Some((s, p)) => r matches Ok(v) && v.0@ == s && v.1 == p,
            None => r matches Err(e) && e is DecodeError,
        }),
{
    let ghost df = |t: Seq<u8>, q: int| dec_temp(t, q);
    let (n, p0) = match take_u64(buf, pos) {
        Ok(v) => v,
        Err(e) => {
            return Err(e);
        },
    };
    let mut acc: Vec<Temp> = Vec::new();
    let mut cur = p0;
    let mut k: u64 = 0;
    while k < n
        invariant
            k <= n,
            cur <= buf@.len(),
            dec_u64(buf@, pos as int) == Some((n, p0 as int)),
            df == (|t: Seq<u8>, q: int| dec_temp(t, q)),
            (match dec_seq(buf@, cur as int, (n - k) as nat, df) {
                Some((xs, p)) => dec_seq(buf@, p0 as int, n as nat, df) == Some((acc@ + xs, p)),
                None => dec_seq(buf@, p0 as int, n as nat, df) is None,
            }),
        decreases n - k,
    {
        match take_temp(buf, cur) {
            Ok((x, p2)) => {
                proof {
                    assert(df(buf@, cur as int) == dec_temp(buf@, cur as int));
                    assert(dec_seq(buf@, cur as int, (n - k) as nat, df) == (match dec_seq(
                        buf@,
                        p2 as int,
                        (n - k - 1) as nat,
                        df,
                    ) {
                        Some((xs, p)) => Some((seq![x] + xs, p)),
                        None => None::<(Seq<Temp>, int)>,
                    }));
                    let rest = (match dec_seq(buf@, p2 as int, (n - k - 1) as nat, df) {
                        Some((xs, _)) => xs,
                        None => Seq::<Temp>::empty(),
                    });
                    assert(acc@.push(x) + rest =~= acc@ + (seq![x] + rest));
                }
                acc.push(x);
                cur = p2;
                k = k + 1;
            },
            Err(e) => {
                return Err(e);
            },
        }
    }
    proof {
        assert(dec_seq(buf@, cur as int, 0, df) == Some((Seq::<Temp>::empty(), cur as int)));
        assert(acc@ + Seq::<Temp>::empty() =~= acc@);
    }
    Ok((acc, cur))
}

fn take_flows(buf: &Vec<u8>, pos: usize) -> (r: Result<(Vec<Flow>, usize), DataError>)
    ensures
        (match dec_flows(buf@, pos as int) {
            Some((s, p)) => r matches Ok(v) && v.0@ == s && v.1 == p,
            None => r matches Err(e) && e is DecodeError,
        }),
{
    let ghost df = |t: Seq<u8>, q: int| dec_flow(t, q);
    let (n, p0) = match take_u64(buf, pos) {
        Ok(v) => v,
        Err(e) => {
            return Err(e);
        },
    };
    let mut acc: Vec<Flow> = Vec::new();
    let mut cur = p0;
    let mut k: u64 = 0;
    while k < n
        invariant
            k <= n,
            cur <= buf@.len(),
            dec_u64(buf@, pos as int) == Some((n, p0 as int)),
            df == (|t: Seq<u8>, q: int| dec_flow(t, q)),
            (match dec_seq(buf@, cur as int, (n - k) as nat, df) {
                Some((xs, p)) => dec_seq(buf@, p0 as int, n as nat, df) == Some((acc@ + xs, p)),
                None => dec_seq(buf@, p0 as int, n as nat, df) is None,
            }),
        decreases n - k,
    {
        match take_flow(buf, cur) {
            Ok((x, p2)) => {
                proof {
                    assert(df(buf@, cur as int) == dec_flow(buf@, cur as int));
                    assert(dec_seq(buf@, cur as int, (n - k) as nat, df) == (match dec_seq(
                        buf@,
                        p2 as int,
                        (n - k - 1) as nat,
                        df,
                    ) {
                        Some((xs, p)) => Some((seq![x] + xs, p)),
                        None => None::<(Seq<Flow>, int)>,
                    }));
                    let rest = (match dec_seq(buf@, p2 as int, (n - k - 1) as nat, df) {
                        Some((xs, _)) => xs,
                        None => Seq::<Flow>::empty(),
                    });
                    assert(acc@.push(x) + rest =~= acc@ + (seq![x] + rest));
                }
                acc.push(x);
                cur = p2;
                k = k + 1;
            },
            Err(e) => {
                return Err(e);
            },
        }
    }
    proof {
        assert(dec_seq(buf@, cur as int, 0, df) == Some((Seq::<Flow>::empty(), cur as int)));
        assert(acc@ + Seq::<Flow>::empty() =~= acc@);
    }
    Ok((acc, cur))
}

fn take_bg(buf: &Vec<u8>, pos: usize) -> (r: Result<(Background, usize), DataError>)
    ensures
        (match dec_bg(buf@, pos as int) {
            Some((x, p)) => r matches Ok(v) && v.0@ == x && v.1 == p,
            None => r matches Err(e) && e is DecodeError,
        }),
{
    if pos >= buf.len() {
        return Err(truncated());
    }
    let tag = buf[pos];
    let p = pos + 1;
    let (image, p) = if tag == 0 {
        (None, p)
    } else if tag == 1 {
        let (image_path, p) = match take_str(buf, p) {
            Ok(v) => v,
            Err(e) => {
                return Err(e);
            },
        };
        let (scale, p) = match take_i64(buf, p) {
            Ok(v) => v,
            Err(e) => {
                return Err(e);
            },
        };
        let (rotate, p) = match take_i64(buf, p) {
            Ok(v) => v,
            Err(e) => {
                return Err(e);
            },
        };
        (Some(BackgroundImage { image_path, scale, rotate }), p)
    } else {
        return Err(malformed());
    };
    let (border, p) = match take_points(buf, p) {
        Ok(v) => v,
        Err(e) => {
            return Err(e);
        },
    };
    Ok((Background { image, border }, p))
}

/// Decodes a snapshot. The whole byte string must be one dataset
/// encoding: a truncated, malformed or trailing-garbage stream is
/// reported as a decode error and nothing is returned.
pub fn decode_data(buf: &Vec<u8>) -> (r: Result<Data, DataError>)
    ensures
        (match snapshot_of(buf@) {
            Some(dv) => r matches Ok(d) && d@ == dv,
            None => r matches Err(e) && e is DecodeError,
        }),
{
    let (bg, p) = match take_bg(buf, 0) {
        Ok(v) => v,
        Err(e) => {
            return Err(e);
        },
    };
    let (photo, p) = match take_photos(buf, p) {
        Ok(v) => v,
        Err(e) => {
            return Err(e);
        },
    };
    let (temp, p) = match take_temps(buf, p) {
        Ok(v) => v,
        Err(e) => {
            return Err(e);
        },
    };
    let (flow, p) = match take_flows(buf, p) {
        Ok(v) => v,
        Err(e) => {
            return Err(e);
        },
    };
    if p != buf.len() {
        return Err(DataError::DecodeError("snapshot holds trailing bytes".to_owned()));
    }
    Ok(Data { bg, photo, temp, flow })
}

// ---------------------------------------------------------------------
// The round trip: decoding an encoding gives the value back and stops
// exactly at its end.
// ---------------------------------------------------------------------
/// A byte string that carries `a + b` at `pos` carries `a` at `pos` and
/// `b` right after it.
proof fn lemma_subrange_split(t: Seq<u8>, pos: int, a: Seq<u8>, b: Seq<u8>)
    requires
        0 <= pos,
        pos + a.len() + b.len() <= t.len(),
        t.subrange(pos, pos + a.len() + b.len()) == a + b,
    ensures
        t.subrange(pos, pos + a.len()) == a,
        t.subrange(pos + a.len(), pos + a.len() + b.len()) == b,
{
    assert forall|i: int| 0 <= i < a.len() implies t.subrange(pos, pos + a.len())[i] == a[i] by {
        assert(t.subrange(pos, pos + a.len() + b.len())[i] == (a + b)[i]);
    }
    assert(t.subrange(pos, pos + a.len()) =~= a);
    assert forall|i: int|
        0 <= i < b.len() implies t.subrange(pos + a.len(), pos + a.len() + b.len())[i] == b[i] by {
        assert(t.subrange(pos + a.len(), pos + a.len() + b.len())[i] == t[pos + a.len() + i]);
        assert(t.subrange(pos, pos + a.len() + b.len())[a.len() + i] == t[pos + a.len() + i]);
        assert((a + b)[a.len() + i] == b[i]);
    }
    assert(t.subrange(pos + a.len(), pos + a.len() + b.len()) =~= b);
}

proof fn lemma_dec_enc_u64(x: u64, t: Seq<u8>, pos: int)
    requires
        0 <= pos,
        pos + enc_u64(x).len() <= t.len(),
        t.subrange(pos, pos + enc_u64(x).len()) == enc_u64(x),
    ensures
        enc_u64(x).len() == 8,
        dec_u64(t, pos) == Some((x, pos + 8)),
{
    lemma_auto_spec_u64_to_from_le_bytes();
}

proof fn lemma_dec_enc_i64(x: i64, t: Seq<u8>, pos: int)
    requires
        0 <= pos,
        pos + enc_i64(x).len() <= t.len(),
        t.subrange(pos, pos + enc_i64(x).len()) == enc_i64(x),
    ensures
        enc_i64(x).len() == 8,
        dec_i64(t, pos) == Some((x, pos + 8)),
{
    lemma_dec_enc_u64(x as u64, t, pos);
    assert((x as u64) as i64 == x) by (bit_vector);
}

proof fn lemma_dec_enc_str(s: Seq<char>, t: Seq<u8>, pos: int)
    requires
        str_fits(s),
        0 <= pos,
        pos + enc_str(s).len() <= t.len(),
        t.subrange(pos, pos + enc_str(s).len()) == enc_str(s),
    ensures
        dec_str(t, pos) == Some((s, pos + enc_str(s).len())),
{
    lemma_auto_spec_u64_to_from_le_bytes();
    let b = encode_utf8(s);
    let n = b.len() as u64;
    lemma_subrange_split(t, pos, enc_u64(n), b);
    lemma_dec_enc_u64(n, t, pos);
    vstd::utf8::encode_utf8_valid_utf8(s);
    vstd::utf8::encode_utf8_decode_utf8(s);
}

proof fn lemma_dec_enc_point(p: Point, t: Seq<u8>, pos: int)
    requires
        0 <= pos,
        pos + enc_point(p).len() <= t.len(),
        t.subrange(pos, pos + enc_point(p).len()) == enc_point(p),
    ensures
        enc_point(p).len() == 24,
        dec_point(t, pos) == Some((p, pos + enc_point(p).len())),
{
    lemma_auto_spec_u64_to_from_le_bytes();
    let a = enc_i64(p.latitude);
    let b = enc_i64(p.longitude);
    let c = enc_i64(p.deep);
    assert(enc_point(p) =~= a + (b + c));
    lemma_subrange_split(t, pos, a, b + c);
    lemma_subrange_split(t, pos + 8, b, c);
    lemma_dec_enc_i64(p.latitude, t, pos);
    lemma_dec_enc_i64(p.longitude, t, pos + 8);
    lemma_dec_enc_i64(p.deep, t, pos + 16);
}

proof fn lemma_dec_enc_pair(x: (i64, i64), t: Seq<u8>, pos: int)
    requires
        0 <= pos,
        pos + enc_pair(x).len() <= t.len(),
        t.subrange(pos, pos + enc_pair(x).len()) == enc_pair(x),
    ensures
        enc_pair(x).len() == 16,
        dec_pair(t, pos) == Some((x, pos + enc_pair(x).len())),
{
    lemma_auto_spec_u64_to_from_le_bytes();
    lemma_subrange_split(t, pos, enc_i64(x.0), enc_i64(x.1));
    lemma_dec_enc_i64(x.0, t, pos);
    lemma_dec_enc_i64(x.1, t, pos + 8);
}

proof fn lemma_dec_enc_temp(x: Temp, t: Seq<u8>, pos: int)
    requires
        0 <= pos,
        pos + enc_temp(x).len() <= t.len(),
        t.subrange(pos, pos + enc_temp(x).len()) == enc_temp(x),
    ensures
        enc_temp(x).len() == 40,
        dec_temp(t, pos) == Some((x, pos + enc_temp(x).len())),
{
    lemma_auto_spec_u64_to_from_le_bytes();
    let a = enc_point(x.point);
    let b = enc_i64(x.timestamp);
    let c = enc_i64(x.val);
    assert(a.len() == 24) by {
        lemma_auto_spec_u64_to_from_le_bytes();
    }
    assert(enc_temp(x) =~= a + (b + c));
    lemma_subrange_split(t, pos, a, b + c);
    lemma_subrange_split(t, pos + 24, b, c);
    lemma_dec_enc_point(x.point, t, pos);
    lemma_dec_enc_i64(x.timestamp, t, pos + 24);
    lemma_dec_enc_i64(x.val, t, pos + 32);
}

proof fn lemma_dec_enc_flow(x: Flow, t: Seq<u8>, pos: int)
    requires
        0 <= pos,
        pos + enc_flow(x).len() <= t.len(),
        t.subrange(pos, pos + enc_flow(x).len()) == enc_flow(x),
    ensures
        enc_flow(x).len() == 48,
        dec_flow(t, pos) == Some((x, pos + enc_flow(x).len())),
{
    lemma_auto_spec_u64_to_from_le_bytes();
    let a = enc_point(x.point);
    let b = enc_i64(x.timestamp);
    let c = enc_i64(x.speed);
    let d = enc_i64(x.dir);
    assert(a.len() == 24) by {
        lemma_auto_spec_u64_to_from_le_bytes();
    }
    assert(enc_flow(x) =~= a + (b + (c + d)));
    lemma_subrange_split(t, pos, a, b + (c + d));
    lemma_subrange_split(t, pos + 24, b, c + d);
    lemma_subrange_split(t, pos + 32, c, d);
    lemma_dec_enc_point(x.point, t, pos);
    lemma_dec_enc_i64(x.timestamp, t, pos + 24);
    lemma_dec_enc_i64(x.speed, t, pos + 32);
    lemma_dec_enc_i64(x.dir, t, pos + 40);
}

proof fn lemma_dec_enc_seq<A>(
    s: Seq<A>,
    f: spec_fn(A) -> Seq<u8>,
    df: spec_fn(Seq<u8>, int) -> Option<(A, int)>,
    t: Seq<u8>,
    pos: int,
)
    requires
        0 <= pos,
        pos + enc_seq(s, f).len() <= t.len(),
        t.subrange(pos, pos + enc_seq(s, f).len()) == enc_seq(s, f),
        forall|i: int, q: int|
            #![trigger f(s[i]), df(t, q)]
            0 <= i < s.len() && 0 <= q && q + f(s[i]).len() <= t.len() && t.subrange(
                q,
                q + f(s[i]).len(),
            ) == f(s[i]) ==> df(t, q) == Some((s[i], q + f(s[i]).len())),
    ensures
        dec_seq(t, pos, s.len() as nat, df) == Some((s, pos + enc_seq(s, f).len())),
    decreases s.len(),
{
    if s.len() == 0 {
        assert(dec_seq(t, pos, 0, df) == Some((Seq::<A>::empty(), pos)));
        assert(s =~= Seq::<A>::empty());
    } else {
        let a = f(s[0]);
        let rest = enc_seq(s.drop_first(), f);
        assert(enc_seq(s, f) == a + rest);
        lemma_subrange_split(t, pos, a, rest);
        assert(df(t, pos) == Some((s[0], pos + a.len())));
        let s2 = s.drop_first();
        assert forall|i: int, q: int|
            #![trigger f(s2[i]), df(t, q)]
            0 <= i < s2.len() && 0 <= q && q + f(s2[i]).len() <= t.len() && t.subrange(
                q,
                q + f(s2[i]).len(),
            ) == f(s2[i]) implies df(t, q) == Some((s2[i], q + f(s2[i]).len())) by {
            assert(s2[i] == s[i + 1]);
            assert(f(s[i + 1]) == f(s2[i]));
        }
        lemma_dec_enc_seq(s2, f, df, t, pos + a.len());
        assert(seq![s[0]] + s2 =~= s);
    }
}

proof fn lemma_dec_enc_counted<A>(
    s: Seq<A>,
    f: spec_fn(A) -> Seq<u8>,
    df: spec_fn(Seq<u8>, int) -> Option<(A, int)>,
    t: Seq<u8>,
    pos: int,
)
    requires
        s.len() <= u64::MAX,
        0 <= pos,
        pos + enc_counted(s, f).len() <= t.len(),
        t.subrange(pos, pos + enc_counted(s, f).len()) == enc_counted(s, f),
        forall|i: int, q: int|
            #![trigger f(s[i]), df(t, q)]
            0 <= i < s.len() && 0 <= q && q + f(s[i]).len() <= t.len() && t.subrange(
                q,
                q + f(s[i]).len(),
            ) == f(s[i]) ==> df(t, q) == Some((s[i], q + f(s[i]).len())),
    ensures
        dec_counted(t, pos, df) == Some((s, pos + enc_counted(s, f).len())),
{
    lemma_auto_spec_u64_to_from_le_bytes();
    let n = s.len() as u64;
    lemma_subrange_split(t, pos, enc_u64(n), enc_seq(s, f));
    lemma_dec_enc_u64(n, t, pos);
    lemma_dec_enc_seq(s, f, df, t, pos + 8);
}

proof fn lemma_dec_enc_points(s: Seq<Point>, t: Seq<u8>, pos: int)
    requires
        s.len() <= u64::MAX,
        0 <= pos,
        pos + enc_points(s).len() <= t.len(),
        t.subrange(pos, pos + enc_points(s).len()) == enc_points(s),
    ensures
        dec_points(t, pos) == Some((s, pos + enc_points(s).len())),
{
    let f = |p: Point| enc_point(p);
    let df = |t2: Seq<u8>, q: int| dec_point(t2, q);
    assert forall|i: int, q: int|
        #![trigger f(s[i]), df(t, q)]
        0 <= i < s.len() && 0 <= q && q + f(s[i]).len() <= t.len() && t.subrange(
            q,
            q + f(s[i]).len(),
        ) == f(s[i]) implies df(t, q) == Some((s[i], q + f(s[i]).len())) by {
        lemma_dec_enc_point(s[i], t, q);
    }
    lemma_dec_enc_counted(s, f, df, t, pos);
}

proof fn lemma_dec_enc_pairs(s: Seq<(i64, i64)>, t: Seq<u8>, pos: int)
    requires
        s.len() <= u64::MAX,
        0 <= pos,
        pos + enc_pairs(s).len() <= t.len(),
        t.subrange(pos, pos + enc_pairs(s).len()) == enc_pairs(s),
    ensures
        dec_pairs(t, pos) == Some((s, pos + enc_pairs(s).len())),
{
    let f = |x: (i64, i64)| enc_pair(x);
    let df = |t2: Seq<u8>, q: int| dec_pair(t2, q);
    assert forall|i: int, q: int|
        #![trigger f(s[i]), df(t, q)]
        0 <= i < s.len() && 0 <= q && q + f(s[i]).len() <= t.len() && t.subrange(
            q,
            q + f(s[i]).len(),
        ) == f(s[i]) implies df(t, q) == Some((s[i], q + f(s[i]).len())) by {
        lemma_dec_enc_pair(s[i], t, q);
    }
    lemma_dec_enc_counted(s, f, df, t, pos);
}

proof fn lemma_dec_enc_photo(x: PhotoV, t: Seq<u8>, pos: int)
    requires
        photo_fits(x),
        0 <= pos,
        pos + enc_photo(x).len() <= t.len(),
        t.subrange(pos, pos + enc_photo(x).len()) == enc_photo(x),
    ensures
        dec_photo(t, pos) == Some((x, pos + enc_photo(x).len())),
{
    lemma_auto_spec_u64_to_from_le_bytes();
    let a = enc_point(x.point);
    let b = enc_i64(x.timestamp);
    let c = enc_i64(x.solar);
    let d = enc_pairs(x.transparency);
    assert(a.len() == 24) by {
        lemma_auto_spec_u64_to_from_le_bytes();
    }
    assert(enc_photo(x) =~= a + (b + (c + d)));
    lemma_subrange_split(t, pos, a, b + (c + d));
    lemma_subrange_split(t, pos + 24, b, c + d);
    lemma_subrange_split(t, pos + 32, c, d);
    lemma_dec_enc_point(x.point, t, pos);
    lemma_dec_enc_i64(x.timestamp, t, pos + 24);
    lemma_dec_enc_i64(x.solar, t, pos + 32);
    lemma_dec_enc_pairs(x.transparency, t, pos + 40);
}

proof fn lemma_dec_enc_photos(s: Seq<PhotoV>, t: Seq<u8>, pos: int)
    requires
        s.len() <= u64::MAX,
        forall|i: int| 0 <= i < s.len() ==> photo_fits(#[trigger] s[i]),
        0 <= pos,
        pos + enc_photos(s).len() <= t.len(),
        t.subrange(pos, pos + enc_photos(s).len()) == enc_photos(s),
    ensures
        dec_photos(t, pos) == Some((s, pos + enc_photos(s).len())),
{
    let f = |p: PhotoV| enc_photo(p);
    let df = |t2: Seq<u8>, q: int| dec_photo(t2, q);
    assert forall|i: int, q: int|
        #![trigger f(s[i]), df(t, q)]
        0 <= i < s.len() && 0 <= q && q + f(s[i]).len() <= t.len() && t.subrange(
            q,
            q + f(s[i]).len(),
        ) == f(s[i]) implies df(t, q) == Some((s[i], q + f(s[i]).len())) by {
        lemma_dec_enc_photo(s[i], t, q);
    }
    lemma_dec_enc_counted(s, f, df, t, pos);
}

proof fn lemma_dec_enc_temps(s: Seq<Temp>, t: Seq<u8>, pos: int)
    requires
        s.len() <= u64::MAX,
        0 <= pos,
        pos + enc_temps(s).len() <= t.len(),
        t.subrange(pos, pos + enc_temps(s).len()) == enc_temps(s),
    ensures
        dec_temps(t, pos) == Some((s, pos + enc_temps(s).len())),
{
    let f = |x: Temp| enc_temp(x);
    let df = |t2: Seq<u8>, q: int| dec_temp(t2, q);
    assert forall|i: int, q: int|
        #![trigger f(s[i]), df(t, q)]
        0 <= i < s.len() && 0 <= q && q + f(s[i]).len() <= t.len() && t.subrange(
            q,
            q + f(s[i]).len(),
        ) == f(s[i]) implies df(t, q) == Some((s[i], q + f(s[i]).len())) by {
        lemma_dec_enc_temp(s[i], t, q);
    }
    lemma_dec_enc_counted(s, f, df, t, pos);
}

proof fn lemma_dec_enc_flows(s: Seq<Flow>, t: Seq<u8>, pos: int)
    requires
        s.len() <= u64::MAX,
        0 <= pos,
        pos + enc_flows(s).len() <= t.len(),
        t.subrange(pos, pos + enc_flows(s).len()) == enc_flows(s),
    ensures
        dec_flows(t, pos) == Some((s, pos + enc_flows(s).len())),
{
    let f = |x: Flow| enc_flow(x);
    let df = |t2: Seq<u8>, q: int| dec_flow(t2, q);
    assert forall|i: int, q: int|
        #![trigger f(s[i]), df(t, q)]
        0 <= i < s.len() && 0 <= q && q + f(s[i]).len() <= t.len() && t.subrange(
            q,
            q + f(s[i]).len(),
        ) == f(s[i]) implies df(t, q) == Some((s[i], q + f(s[i]).len())) by {
        lemma_dec_enc_flow(s[i], t, q);
    }
    lemma_dec_enc_counted(s, f, df, t, pos);
}

proof fn lemma_dec_enc_img(x: BackgroundImageV, t: Seq<u8>, pos: int)
    requires
        str_fits(x.image_path),
        0 <= pos,
        pos + enc_img(x).len() <= t.len(),
        t.subrange(pos, pos + enc_img(x).len()) == enc_img(x),
    ensures
        dec_img(t, pos) == Some((x, pos + enc_img(x).len())),
{
    lemma_auto_spec_u64_to_from_le_bytes();
    let a = enc_str(x.image_path);
    let b = enc_i64(x.scale);
    let c = enc_i64(x.rotate);
    assert(enc_img(x) =~= a + (b + c));
    lemma_subrange_split(t, pos, a, b + c);
    lemma_subrange_split(t, pos + a.len(), b, c);
    lemma_dec_enc_str(x.image_path, t, pos);
    lemma_dec_enc_i64(x.scale, t, pos + a.len());
    lemma_dec_enc_i64(x.rotate, t, pos + a.len() + 8);
}

proof fn lemma_dec_enc_opt_img(o: Option<BackgroundImageV>, t: Seq<u8>, pos: int)
    requires
        o matches Some(i) ==> str_fits(i.image_path),
        0 <= pos,
        pos + enc_opt_img(o).len() <= t.len(),
        t.subrange(pos, pos + enc_opt_img(o).len()) == enc_opt_img(o),
    ensures
        dec_opt_img(t, pos) == Some((o, pos + enc_opt_img(o).len())),
{
    match o {
        None => {
            assert(t.subrange(pos, pos + 1)[0] == t[pos]);
            assert(t[pos] == 0u8);
        },
        Some(i) => {
            lemma_subrange_split(t, pos, seq![1u8], enc_img(i));
            assert(t.subrange(pos, pos + 1)[0] == t[pos]);
            assert(t[pos] == 1u8);
            lemma_dec_enc_img(i, t, pos + 1);
        },
    }
}

proof fn lemma_dec_enc_bg(b: BackgroundV, t: Seq<u8>, pos: int)
    requires
        bg_fits(b),
        0 <= pos,
        pos + enc_bg(b).len() <= t.len(),
        t.subrange(pos, pos + enc_bg(b).len()) == enc_bg(b),
    ensures
        dec_bg(t, pos) == Some((b, pos + enc_bg(b).len())),
{
    let a = enc_opt_img(b.image);
    let c = enc_points(b.border);
    lemma_subrange_split(t, pos, a, c);
    lemma_dec_enc_opt_img(b.image, t, pos);
    lemma_dec_enc_points(b.border, t, pos + a.len());
}

proof fn lemma_dec_enc_data(d: DataV, t: Seq<u8>, pos: int)
    requires
        data_fits(d),
        0 <= pos,
        pos + enc_data(d).len() <= t.len(),
        t.subrange(pos, pos + enc_data(d).len()) == enc_data(d),
    ensures
        dec_data(t, pos) == Some((d, pos + enc_data(d).len())),
{
    let a = enc_bg(d.bg);
    let b = enc_photos(d.photo);
    let c = enc_temps(d.temp);
    let e = enc_flows(d.flow);
    assert(enc_data(d) =~= a + (b + (c + e)));
    lemma_subrange_split(t, pos, a, b + (c + e));
    lemma_subrange_split(t, pos + a.len(), b, c + e);
    lemma_subrange_split(t, pos + a.len() + b.len(), c, e);
    lemma_dec_enc_bg(d.bg, t, pos);
    lemma_dec_enc_photos(d.photo, t, pos + a.len());
    lemma_dec_enc_temps(d.temp, t, pos + a.len() + b.len());
    lemma_dec_enc_flows(d.flow, t, pos + a.len() + b.len() + c.len());
}

/// The round trip: every dataset whose counts fit the wire's eight-byte
/// fields — every dataset that fits in memory does — decodes from its
/// own encoding back to itself exactly, absent background image and
/// empty series included.
pub proof fn lemma_snapshot_round_trip(d: DataV)
    requires
        data_fits(d),
    ensures
        snapshot_of(enc_data(d)) == Some(d),
{
    let t = enc_data(d);
    assert(t.subrange(0, t.len() as int) =~= t);
    lemma_dec_enc_data(d, t, 0);
}

} // verus!
