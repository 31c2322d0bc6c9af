use vstd::prelude::*;

use exif::{Context, In, Reader, Tag};
use std::io::Cursor;

use crate::util::{build_final_path, canonical_path, file_name, first_date, get_date};

verus! {

/// The 128-bit XXH3 digest of `data` under `seed`.
pub uninterp spec fn xxh3_128_of(data: Seq<u8>, seed: u64) -> u128;

/// Relies on xxhash-rust's `xxh3::xxh3_128_with_seed`: the 128-bit XXH3
/// digest of `data` under `seed`, which depends on those two alone.
#[verifier::external_body]
fn xxh3_128(data: &[u8], seed: u64) -> (r: u128)
    ensures
        r == xxh3_128_of(data@, seed),
{
    xxhash_rust::xxh3::xxh3_128_with_seed(data, seed)
}

/// The fixed seed of every fingerprint.
pub const SEED: u64 = 0xdeadbeef;

/// The samples of a sensor grid as bytes: each sample as two bytes, low
/// byte first, in grid order.
pub open spec fn le_bytes(samples: Seq<u16>) -> Seq<u8>
    decreases samples.len(),
{
    if samples.len() == 0 {
        Seq::empty()
    } else {
        le_bytes(samples.drop_last()) + seq![
            (samples.last() % 256) as u8,
            (samples.last() / 256) as u8,
        ]
    }
}

/// The fingerprint of a decoded sensor grid: the XXH3 digest, under the
/// fixed seed, of its samples in little-endian byte order. Width and
/// height play no part.
pub open spec fn fingerprint_of(samples: Seq<u16>) -> u128 {
    xxh3_128_of(le_bytes(samples), SEED)
}

fn sample_bytes(samples: &Vec<u16>) -> (r: Vec<u8>)
    ensures
        r@ == le_bytes(samples@),
{
    let mut r: Vec<u8> = Vec::new();
    let mut i: usize = 0;
    while i < samples.len()
        invariant
            i <= samples@.len(),
            r@ == le_bytes(samples@.subrange(0, i as int)),
        decreases samples@.len() - i,
    {
        let x = samples[i];
        r.push((x % 256) as u8);
        r.push((x / 256) as u8);
        assert(samples@.subrange(0, i + 1).drop_last() =~= samples@.subrange(0, i as int));
        assert(r@ =~= le_bytes(samples@.subrange(0, i + 1)));
        i = i + 1;
    }
    assert(samples@.subrange(0, samples@.len() as int) =~= samples@);
    r
}

/// Identical sample sequences have identical fingerprints, on every call
/// and in every run: the fingerprint is a function of the samples alone.
pub proof fn lemma_fingerprint_deterministic(a: Seq<u16>, b: Seq<u16>)
    requires
        a == b,
    ensures
        fingerprint_of(a) == fingerprint_of(b),
{
}

/// A character of Unicode's White_Space property.
pub open spec fn is_white_space(c: char) -> bool {
    let u = c as u32;
    (0x09 <= u && u <= 0x0d) || u == 0x20 || u == 0x85 || u == 0xa0 || u == 0x1680 || (0x2000
        <= u && u <= 0x200a) || u == 0x2028 || u == 0x2029 || u == 0x202f || u == 0x205f || u
        == 0x3000
}

fn white_space(c: char) -> (r: bool)
    ensures
        r == is_white_space(c),
{
    let u = c as u32;
    (0x09 <= u && u <= 0x0d) || u == 0x20 || u == 0x85 || u == 0xa0 || u == 0x1680 || (0x2000
        <= u && u <= 0x200a) || u == 0x2028 || u == 0x2029 || u == 0x202f || u == 0x205f || u
        == 0x3000
}

/// A character that is dropped from a camera model: `"` or `,`.
pub open spec fn is_model_mark(c: char) -> bool {
    c == '"' || c == ','
}

/// `s` without its `"` and `,`.
pub open spec fn without_marks(s: Seq<char>) -> Seq<char>
    decreases s.len(),
{
    if s.len() == 0 {
        s
    } else if is_model_mark(s.last()) {
        without_marks(s.drop_last())
    } else {
        without_marks(s.drop_last()).push(s.last())
    }
}

/// `s` without its leading white space.
pub open spec fn trim_start(s: Seq<char>) -> Seq<char>
    decreases s.len(),
{
    if s.len() > 0 && is_white_space(s[0]) {
        trim_start(s.drop_first())
    } else {
        s
    }
}

/// `s` without its trailing white space.
pub open spec fn trim_end(s: Seq<char>) -> Seq<char>
    decreases s.len(),
{
    if s.len() > 0 && is_white_space(s.last()) {
        trim_end(s.drop_last())
    } else {
        s
    }
}

/// A camera model as it is shown and filed: without `"` and `,`, and
/// without white space at either end.
pub open spec fn normalized_model(s: Seq<char>) -> Seq<char> {
    trim_end(trim_start(without_marks(s)))
}

fn strip_marks(s: &str) -> (r: String)
    ensures
        r@ == without_marks(s@),
{
    let mut r = String::new();
    let n = s.unicode_len();
    let mut i: usize = 0;
    while i < n
        invariant
            n == s@.len(),
            i <= n,
            r@ == without_marks(s@.subrange(0, i as int)),
        decreases n - i,
    {
        assert(s@.subrange(0, i + 1).drop_last() =~= s@.subrange(0, i as int));
        let c = s.get_char(i);
        if c != '"' && c != ',' {
            r.append(s.substring_char(i, i + 1));
            assert(r@ =~= without_marks(s@.subrange(0, i + 1)));
        }
        i = i + 1;
    }
    assert(s@.subrange(0, n as int) =~= s@);
    r
}

fn trim(s: &str) -> (r: &str)
    ensures
        r@ == trim_end(trim_start(s@)),
{
    let n = s.unicode_len();
    let mut a: usize = 0;
    assert(s@.subrange(0, n as int) =~= s@);
    while a < n && white_space(s.get_char(a))
        invariant
            n == s@.len(),
            a <= n,
            trim_start(s@) == trim_start(s@.subrange(a as int, n as int)),
        decreases n - a,
    {
        assert(s@.subrange(a as int, n as int).drop_first() =~= s@.subrange(a + 1, n as int));
        a = a + 1;
    }
    let ghost t = s@.subrange(a as int, n as int);
    assert(trim_start(s@) == t);
    let mut b: usize = n;
    assert(t.subrange(0, (b - a) as int) =~= t);
    while b > a && white_space(s.get_char(b - 1))
        invariant
            n == s@.len(),
            a <= b <= n,
            t == s@.subrange(a as int, n as int),
            trim_end(t) == trim_end(t.subrange(0, (b - a) as int)),
        decreases b,
    {
        assert(t.subrange(0, (b - a) as int).drop_last() =~= t.subrange(0, (b - 1 - a) as int));
        b = b - 1;
    }
    assert(t.subrange(0, (b - a) as int) =~= s@.subrange(a as int, b as int));
    s.substring_char(a, b)
}

/// A camera model as it is filed: without `"` and `,`, and trimmed of white
/// space.
pub fn normalize_model(s: &str) -> (r: String)
    ensures
        r@ == normalized_model(s@),
{
    let stripped = strip_marks(s);
    String::from_str(trim(stripped.as_str()))
}


/// The fingerprint of a decoded sensor grid, given as its samples in row
/// order.
pub fn get_hash(raw_data: &Vec<u16>) -> (r: u128)
    ensures
        r == fingerprint_of(raw_data@),
{
    let bytes = sample_bytes(raw_data);
    xxh3_128(bytes.as_slice(), SEED)
}

/// What the metadata reader found in a RAW file: the camera model, and the
/// capture-time tags present, in order of preference. A file whose
/// metadata cannot be read has neither.
pub struct ExifTags {
    pub model: Option<String>,
    pub dates: Vec<String>,
}

/// The EXIF reader's rendering of the field numbered `tag` in the primary
/// image of the file held in `data`: in its Exif IFD where `exif_ifd`, else
/// in its TIFF IFD. Nothing where the file or the field cannot be read.
pub uninterp spec fn exif_text_of(data: Seq<u8>, exif_ifd: bool, tag: u16) -> Option<Seq<char>>;

/// Relies on kamadak-exif's `Reader::read_from_container`, which parses the
/// Exif attributes of a TIFF-based RAW, JPEG, HEIF, PNG or WebP file, and on
/// `Exif::get_field` and `Field::display_value` of what it parsed.
#[verifier::external_body]
fn exif_text(data: &[u8], exif_ifd: bool, tag: u16) -> (r: Option<String>)
    ensures
        r is Some <==> exif_text_of(data@, exif_ifd, tag) is Some,
        r is Some ==> r->Some_0@ == exif_text_of(data@, exif_ifd, tag)->Some_0,
{
    let context = if exif_ifd { Context::Exif } else { Context::Tiff };
    match Reader::new().read_from_container(&mut Cursor::new(data)) {
        Ok(e) => match e.get_field(Tag(context, tag), In::PRIMARY) {
            Some(f) => Some(f.display_value().to_string()),
            None => None,
        },
        Err(_) => None,
    }
}

/// The EXIF number of the camera model, in the TIFF IFD.
pub const TAG_MODEL: u16 = 0x0110;
/// The EXIF number of the capture time, in the Exif IFD.
pub const TAG_DATE_TIME_ORIGINAL: u16 = 0x9003;
/// The EXIF number of the digitising time, in the Exif IFD.
pub const TAG_DATE_TIME_DIGITIZED: u16 = 0x9004;
/// The EXIF number of the file's change time, in the TIFF IFD.
pub const TAG_DATE_TIME: u16 = 0x0132;

/// An optional value as a sequence of none or one.
pub open spec fn present(o: Option<Seq<char>>) -> Seq<Seq<char>> {
    match o {
        Some(t) => seq![t],
        None => Seq::empty(),
    }
}

/// The capture-time fields of the file held in `data` that can be read, in
/// order of preference: capture, digitising, change.
pub open spec fn exif_dates_of(data: Seq<u8>) -> Seq<Seq<char>> {
    present(exif_text_of(data, true, TAG_DATE_TIME_ORIGINAL)) + present(
        exif_text_of(data, true, TAG_DATE_TIME_DIGITIZED),
    ) + present(exif_text_of(data, false, TAG_DATE_TIME))
}

fn push_present(dates: &mut Vec<String>, t: Option<String>)
    ensures
        final(dates)@.len() == old(dates)@.len() + (if t is Some { 1int } else { 0 }),
        forall|i: int| 0 <= i < old(dates)@.len() ==> final(dates)@[i] == old(dates)@[i],
        t is Some ==> final(dates)@[old(dates)@.len() as int] == t->Some_0,
{
    if let Some(d) = t {
        dates.push(d);
    }
}

/// The views of some strings.
pub open spec fn texts(v: Seq<String>) -> Seq<Seq<char>> {
    v.map_values(|s: String| s@)
}

/// The camera model named by the metadata, as filed; empty where there is
/// none.
pub open spec fn exif_model_of(exif: ExifTags) -> Seq<char> {
    match exif.model {
        Some(m) => normalized_model(m@),
        None => Seq::empty(),
    }
}

/// The model under which a photo is filed: the one named by its metadata,
/// else the make named by the decoder, else `unknown`.
pub open spec fn camera_model(exif: ExifTags, make: Seq<char>) -> Seq<char> {
    if exif_model_of(exif).len() > 0 {
        exif_model_of(exif)
    } else if normalized_model(make).len() > 0 {
        normalized_model(make)
    } else {
        "unknown"@
    }
}

/// Year and month of capture, `(0, 0)` where no capture time can be read.
pub open spec fn date_tuple_of(exif: ExifTags) -> (i32, u32) {
    match first_date(exif.dates@) {
        Some(d) => d,
        None => (0, 0),
    }
}

/// One photo of the ledger.
pub struct Photo {
    /// Fingerprint of the decoded pixels: the photo's identity.
    pub hash: u128,
    /// Year of capture, 0 where unknown.
    pub year: i32,
    /// Month of capture, 0 where unknown.
    pub month: u32,
    /// Camera model as filed.
    pub model: String,
    /// Where the photo is kept in the archive.
    pub db_path: String,
    /// Where the photo was found.
    pub og_path: String,
}

impl Clone for Photo {
    fn clone(&self) -> (r: Self)
        ensures
            r == *self,
    {
        Photo {
            hash: self.hash,
            year: self.year,
            month: self.month,
            model: self.model.clone(),
            db_path: self.db_path.clone(),
            og_path: self.og_path.clone(),
        }
    }
}

impl Photo {
    /// The record of a photo found at `og_path`, whose decoded sensor grid
    /// is `raw_data` and whose decoder named the make `make`, to be kept
    /// under the archive root `db_root`.
    pub fn new(
        raw_data: &Vec<u16>,
        make: &String,
        exif: &ExifTags,
        og_path: &String,
        db_root: &String,
    ) -> (r: Photo)
        ensures
            r.hash == fingerprint_of(raw_data@),
            r.model@ == camera_model(*exif, make@),
            (r.year, r.month) == date_tuple_of(*exif),
            r.db_path@ == canonical_path(
                db_root@,
                r.model@,
                r.year as int,
                r.month as int,
                file_name(og_path@),
            ),
            r.og_path@ == og_path@,
    {
        let hash = get_hash(raw_data);
        let exif_model = Self::get_exif_model(exif);
        let date_tuple = Self::get_date_tuple(exif);
        let model = if exif_model.as_str().unicode_len() > 0 {
            exif_model
        } else {
            Self::get_model(make)
        };
        let db_path = build_final_path(db_root, &model, &date_tuple.0, &date_tuple.1, og_path);
        Photo {
            hash,
            year: date_tuple.0,
            month: date_tuple.1,
            model,
            db_path,
            og_path: og_path.clone(),
        }
    }

    /// The metadata of the RAW file held in `buf`: its camera model and its
    /// capture-time fields. A file whose metadata cannot be read has
    /// neither.
    pub fn get_exif(buf: &[u8]) -> (r: ExifTags)
        ensures
            r.model is Some <==> exif_text_of(buf@, false, TAG_MODEL) is Some,
            r.model is Some ==> r.model->Some_0@ == exif_text_of(buf@, false, TAG_MODEL)->Some_0,
            texts(r.dates@) == exif_dates_of(buf@),
    {
        let model = exif_text(buf, false, TAG_MODEL);
        let mut dates: Vec<String> = Vec::new();
        push_present(&mut dates, exif_text(buf, true, TAG_DATE_TIME_ORIGINAL));
        push_present(&mut dates, exif_text(buf, true, TAG_DATE_TIME_DIGITIZED));
        push_present(&mut dates, exif_text(buf, false, TAG_DATE_TIME));
        assert(texts(dates@) =~= exif_dates_of(buf@));
        ExifTags { model, dates }
    }

    /// The camera model named by the metadata, as filed; empty where there
    /// is none.
    pub fn get_exif_model(exif: &ExifTags) -> (r: String)
        ensures
            r@ == exif_model_of(*exif),
    {
        match &exif.model {
            Some(m) => normalize_model(m.as_str()),
            None => String::new(),
        }
    }

    /// The model to file under when the metadata names none: the decoder's
    /// make, else `unknown`.
    pub fn get_model(make: &String) -> (r: String)
        ensures
            r@ == (if normalized_model(make@).len() > 0 {
                normalized_model(make@)
            } else {
                "unknown"@
            }),
    {
        let m = normalize_model(make.as_str());
        if m.as_str().unicode_len() > 0 {
            m
        } else {
            String::from_str("unknown")
        }
    }

    /// Year and month of capture, `(0, 0)` where no capture time can be
    /// read.
    pub fn get_date_tuple(exif: &ExifTags) -> (r: (i32, u32))
        ensures
            r == date_tuple_of(*exif),
    {
        match get_date(&exif.dates) {
            Some(d) => d,
            None => (0, 0),
        }
    }
}

} // verus!
