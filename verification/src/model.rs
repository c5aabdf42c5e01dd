//! The unified data model: points, the three record series, the
//! background, and the dataset that owns them all.
use vstd::prelude::*;

verus! {

/// Fixed-point scale. A real-valued measurement `x` is carried as the
/// `i64` obtained by truncating `x * FIXED_ONE` toward zero, so one whole
/// unit is `FIXED_ONE` and the fractional resolution is `1 / FIXED_ONE`
/// of a unit. The scale is a power of two, so halves, quarters and the
/// other small binary fractions are represented exactly.
pub const FIXED_ONE: i64 = 1048576;

/// A position: latitude, longitude and a signed depth coordinate, each a
/// fixed-point measurement. The sign convention of `deep` belongs to the
/// caller; the engine only compares depths with each other.
#[derive(Clone, Copy, PartialEq, Eq, Structural, Debug)]
pub struct Point {
    pub latitude: i64,
    pub longitude: i64,
    pub deep: i64,
}

/// One temperature reading: where, when (integer seconds since the Unix
/// epoch, no timezone attached), and the fixed-point value read.
#[derive(Clone, Copy, PartialEq, Eq, Structural, Debug)]
pub struct Temp {
    pub point: Point,
    pub timestamp: i64,
    pub val: i64,
}

/// One photographic light reading: position, timestamp, the solar
/// reference level, and an ordered spectral sequence of
/// `(wavelength, value)` pairs. The sequence length is whatever was
/// captured — possibly zero — and its order is significant.
#[derive(Debug)]
pub struct Photo {
    pub point: Point,
    pub timestamp: i64,
    pub solar: i64,
    pub transparency: Vec<(i64, i64)>,
}

/// The mathematical value of a [`Photo`].
pub ghost struct PhotoV {
    pub point: Point,
    pub timestamp: i64,
    pub solar: i64,
    pub transparency: Seq<(i64, i64)>,
}

impl View for Photo {
    type V = PhotoV;

    open spec fn view(&self) -> PhotoV {
        PhotoV {
            point: self.point,
            timestamp: self.timestamp,
            solar: self.solar,
            transparency: self.transparency@,
        }
    }
}

impl Clone for Photo {
    fn clone(&self) -> (res: Self)
        ensures
            res@ == self@,
    {
        Photo {
            point: self.point,
            timestamp: self.timestamp,
            solar: self.solar,
            transparency: clone_pairs(&self.transparency),
        }
    }
}

/// Copies a vector of spectral pairs element by element.
fn clone_pairs(v: &Vec<(i64, i64)>) -> (res: Vec<(i64, i64)>)
    ensures
        res@ == v@,
{
    let mut res: Vec<(i64, i64)> = Vec::new();
    let mut i: usize = 0;
    while i < v.len()
        invariant
            i <= v.len(),
            res@ == v@.take(i as int),
        decreases v.len() - i,
    {
        res.push(v[i]);
        i = i + 1;
        assert(v@.take(i as int) =~= v@.take(i - 1).push(v@[i - 1]));
    }
    assert(v@.take(v@.len() as int) =~= v@);
    res
}

/// One flow measurement: position, timestamp, speed and direction, the
/// last two fixed-point.
#[derive(Clone, Copy, PartialEq, Eq, Structural, Debug)]
pub struct Flow {
    pub point: Point,
    pub timestamp: i64,
    pub speed: i64,
    pub dir: i64,
}

/// The optional background reference image: where it lives, and the
/// fixed-point scale and rotation to draw it with.
#[derive(Debug)]
pub struct BackgroundImage {
    pub image_path: String,
    pub scale: i64,
    pub rotate: i64,
}

/// The mathematical value of a [`BackgroundImage`].
pub ghost struct BackgroundImageV {
    pub image_path: Seq<char>,
    pub scale: i64,
    pub rotate: i64,
}

impl View for BackgroundImage {
    type V = BackgroundImageV;

    open spec fn view(&self) -> BackgroundImageV {
        BackgroundImageV { image_path: self.image_path@, scale: self.scale, rotate: self.rotate }
    }
}

impl Clone for BackgroundImage {
    fn clone(&self) -> (res: Self)
        ensures
            res@ == self@,
    {
        BackgroundImage {
            image_path: self.image_path.clone(),
            scale: self.scale,
            rotate: self.rotate,
        }
    }
}

/// The survey background: an optional reference image and the ordered
/// border polygon of the surveyed area.
#[derive(Debug)]
pub struct Background {
    pub image: Option<BackgroundImage>,
    pub border: Vec<Point>,
}

/// The mathematical value of a [`Background`].
pub ghost struct BackgroundV {
    pub image: Option<BackgroundImageV>,
    pub border: Seq<Point>,
}

impl View for Background {
    type V = BackgroundV;

    open spec fn view(&self) -> BackgroundV {
        BackgroundV {
            image: match self.image {
                Some(img) => Some(img@),
                None => None,
            },
            border: self.border@,
        }
    }
}

impl Default for Background {
    fn default() -> (res: Self)
        ensures
            res@ == empty_background(),
    {
        Background { image: None, border: Vec::new() }
    }
}

/// The empty background: no image, no border.
pub open spec fn empty_background() -> BackgroundV {
    BackgroundV { image: None, border: Seq::empty() }
}

impl Default for Point {
    fn default() -> (res: Self)
        ensures
            res.latitude == 0 && res.longitude == 0 && res.deep == 0,
    {
        Point { latitude: 0, longitude: 0, deep: 0 }
    }
}

/// The views of a sequence of photos, in order.
pub open spec fn photos_view(s: Seq<Photo>) -> Seq<PhotoV> {
    s.map_values(|p: Photo| p@)
}

/// The whole resident dataset: the background and the three record
/// series. Series keep insertion order and are never deduplicated —
/// merging the same records twice duplicates them, by design.
#[derive(Debug)]
pub struct Data {
    pub bg: Background,
    pub photo: Vec<Photo>,
    pub temp: Vec<Temp>,
    pub flow: Vec<Flow>,
}

/// The mathematical value of a [`Data`].
pub ghost struct DataV {
    pub bg: BackgroundV,
    pub photo: Seq<PhotoV>,
    pub temp: Seq<Temp>,
    pub flow: Seq<Flow>,
}

impl View for Data {
    type V = DataV;

    open spec fn view(&self) -> DataV {
        DataV {
            bg: self.bg@,
            photo: photos_view(self.photo@),
            temp: self.temp@,
            flow: self.flow@,
        }
    }
}

/// The empty dataset: empty background, no records of any series.
pub open spec fn empty_data() -> DataV {
    DataV {
        bg: empty_background(),
        photo: Seq::empty(),
        temp: Seq::empty(),
        flow: Seq::empty(),
    }
}

impl Default for Data {
    fn default() -> (res: Self)
        ensures
            res@ == empty_data(),
    {
        let res = Data { bg: Background::default(), photo: Vec::new(), temp: Vec::new(), flow: Vec::new() };
        assert(res@.photo =~= Seq::<PhotoV>::empty());
        res
    }
}

impl Data {
    /// Resets the dataset to the empty one.
    pub fn clear(&mut self)
        ensures
            final(self)@ == empty_data(),
    {
        self.bg = Background::default();
        self.photo = Vec::new();
        self.temp = Vec::new();
        self.flow = Vec::new();
        assert(self@.photo =~= Seq::<PhotoV>::empty());
    }

    /// Appends every series of `data_add` onto this dataset, this
    /// dataset's records first, and reports how many photo, temperature
    /// and flow records arrived. The background of `data_add` is
    /// discarded: only a background loaded directly is retained.
    pub fn add(&mut self, data_add: Data) -> (r: (usize, usize, usize))
        ensures
            final(self)@.bg == old(self)@.bg,
            final(self)@.photo == old(self)@.photo + data_add@.photo,
            final(self)@.temp == old(self)@.temp + data_add@.temp,
            final(self)@.flow == old(self)@.flow + data_add@.flow,
            r.0 == data_add@.photo.len(),
            r.1 == data_add@.temp.len(),
            r.2 == data_add@.flow.len(),
    {
        let mut incoming = data_add;
        let old_photos = self.photo.len();
        let old_temps = self.temp.len();
        let old_flows = self.flow.len();
        self.photo.append(&mut incoming.photo);
        self.temp.append(&mut incoming.temp);
        self.flow.append(&mut incoming.flow);
        assert(photos_view(old(self).photo@ + data_add.photo@) =~= photos_view(
            old(self).photo@,
        ) + photos_view(data_add.photo@));
        let photo_add = self.photo.len() - old_photos;
        let temp_add = self.temp.len() - old_temps;
        let flow_add = self.flow.len() - old_flows;
        (photo_add, temp_add, flow_add)
    }
}

} // verus!
