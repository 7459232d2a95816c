//! Persisting images: collision-free timestamp file names, PNG encoding,
//! thumbnails and the listing of a save directory.
use base64::engine::general_purpose::STANDARD;
use base64::Engine;
use image::{ImageBuffer, ImageFormat, Rgba};
use vstd::prelude::*;
use vstd::set_lib::{lemma_int_range, lemma_len_subset, lemma_map_size, set_int_range};
use crate::paths::{file_name_of, join_path, joined_path, path_file_name};
use crate::pixels::RawImage;
use crate::text::{
    decimal, digit_char, has_suffix, lemma_lex_total, lemma_lex_transitive, lex_le, lex_le_exec,
    push_decimal, push_str, string_from, chars_of,
};

verus! {

/// The extension, with its dot, of every saved image.
pub open spec fn png_ext() -> Seq<char> {
    seq!['.', 'p', 'n', 'g']
}

/// The `n`-th name tried for a timestamp: `<ts>.png`, then `<ts>_1.png`,
/// `<ts>_2.png`, and so on.
pub open spec fn candidate_name(ts: Seq<char>, n: nat) -> Seq<char> {
    if n == 0 {
        ts + png_ext()
    } else {
        ts + seq!['_'] + decimal(n) + png_ext()
    }
}

/// The views of a list of names.
pub open spec fn name_views(names: Seq<String>) -> Seq<Seq<char>> {
    names.map_values(|s: String| s@)
}

/// `name` is the first candidate for `ts` that `names` does not hold.
pub open spec fn is_first_free_name(ts: Seq<char>, names: Seq<Seq<char>>, name: Seq<char>) -> bool {
    exists|n: nat|
        #![trigger candidate_name(ts, n)]
        {
            &&& name == candidate_name(ts, n)
            &&& !names.contains(name)
            &&& forall|m: nat| m < n ==> names.contains(#[trigger] candidate_name(ts, m))
        }
}

proof fn lemma_decimal_shape(n: nat)
    ensures
        decimal(n).len() >= 1,
        n >= 10 ==> decimal(n).len() >= 2,
        n >= 10 ==> decimal(n) == decimal(n / 10).push(digit_char(n % 10)),
    decreases n,
{
    if n >= 10 {
        lemma_decimal_shape(n / 10);
    }
}

proof fn lemma_digit_injective(a: nat, b: nat)
    requires
        a < 10,
        b < 10,
        digit_char(a) == digit_char(b),
    ensures
        a == b,
{
}

proof fn lemma_decimal_injective(a: nat, b: nat)
    requires
        decimal(a) == decimal(b),
    ensures
        a == b,
    decreases a,
{
    lemma_decimal_shape(a);
    lemma_decimal_shape(b);
    if a < 10 && b < 10 {
        assert(decimal(a) =~= seq![digit_char(a)]);
        assert(decimal(b) =~= seq![digit_char(b)]);
        assert(digit_char(a) == decimal(a)[0]);
        assert(digit_char(b) == decimal(b)[0]);
        lemma_digit_injective(a, b);
    } else if a >= 10 && b >= 10 {
        let da = decimal(a);
        assert(da.last() == digit_char(a % 10));
        assert(decimal(b).last() == digit_char(b % 10));
        lemma_digit_injective(a % 10, b % 10);
        assert(decimal(a / 10) =~= da.drop_last());
        assert(decimal(b / 10) =~= decimal(b).drop_last());
        lemma_decimal_injective(a / 10, b / 10);
    } else {
        assert(decimal(a).len() != decimal(b).len());
    }
}

proof fn lemma_candidate_injective(ts: Seq<char>, a: nat, b: nat)
    requires
        candidate_name(ts, a) == candidate_name(ts, b),
    ensures
        a == b,
{
    lemma_decimal_shape(a);
    lemma_decimal_shape(b);
    let ca = candidate_name(ts, a);
    let cb = candidate_name(ts, b);
    if a != 0 && b != 0 {
        let lo = ts.len() + 1int;
        assert(ca.subrange(lo, ca.len() - 4) =~= decimal(a));
        assert(cb.subrange(lo, cb.len() - 4) =~= decimal(b));
        lemma_decimal_injective(a, b);
    } else if a != 0 || b != 0 {
        assert(ca.len() != cb.len());
    }
}

/// A list of `len` names cannot hold the first `len + 1` candidates.
proof fn lemma_candidates_exceed(ts: Seq<char>, names: Seq<Seq<char>>, n: nat)
    requires
        forall|m: nat| m <= n ==> names.contains(#[trigger] candidate_name(ts, m)),
    ensures
        n < names.len(),
{
    let idx = set_int_range(0, n + 1int);
    lemma_int_range(0, n + 1int);
    let f = |m: int| candidate_name(ts, m as nat);
    let img = idx.map(f);
    assert forall|x: int, y: int| idx.contains(x) && idx.contains(y) && #[trigger] f(x) == #[trigger] f(y)
        implies x == y by {
        lemma_candidate_injective(ts, x as nat, y as nat);
    }
    lemma_map_size(idx, img, f);
    assert forall|c: Seq<char>| img.contains(c) implies names.to_set().contains(c) by {
        let m = choose|m: int| idx.contains(m) && f(m) == c;
        assert(names.contains(candidate_name(ts, m as nat)));
    }
    broadcast use vstd::seq_lib::seq_to_set_is_finite;
    lemma_len_subset(img, names.to_set());
    names.lemma_cardinality_of_set();
}

fn candidate(ts: &str, n: usize) -> (r: String)
    ensures
        r@ == candidate_name(ts@, n as nat),
{
    let mut s = String::new();
    push_str(&mut s, ts);
    if n > 0 {
        push_str(&mut s, "_");
        push_decimal(&mut s, n);
    }
    push_str(&mut s, ".png");
    proof {
        reveal_strlit("_");
        reveal_strlit(".png");
    }
    assert(s@ =~= candidate_name(ts@, n as nat));
    s
}

fn contains_name(names: &Vec<String>, name: &String) -> (r: bool)
    ensures
        r == name_views(names@).contains(name@),
{
    let mut i: usize = 0;
    while i < names.len()
        invariant
            i <= names@.len(),
            forall|k: int| 0 <= k < i ==> names@[k]@ != name@,
        decreases names@.len() - i,
    {
        if names[i] == *name {
            assert(name_views(names@)[i as int] == name@);
            return true;
        }
        i = i + 1;
    }
    assert forall|k: int| 0 <= k < name_views(names@).len() implies name_views(names@)[k] != name@ by {
        assert(names@[k]@ != name@);
    }
    false
}

/// The file name for an image taken at `timestamp` in a directory that
/// already holds `existing`: `<timestamp>.png` if that is free, otherwise
/// `<timestamp>_<n>.png` for the smallest `n >= 1` that is free.
pub fn unique_filename(timestamp: &str, existing: &Vec<String>) -> (r: String)
    ensures
        is_first_free_name(timestamp@, name_views(existing@), r@),
{
    let ghost names = name_views(existing@);
    let total: usize = existing.len();
    let mut n: usize = 0;
    let mut name = candidate(timestamp, 0);
    while contains_name(existing, &name)
        invariant
            names == name_views(existing@),
            total == existing@.len(),
            n <= existing@.len(),
            name@ == candidate_name(timestamp@, n as nat),
            forall|m: nat| m < n ==> names.contains(#[trigger] candidate_name(timestamp@, m)),
        decreases existing@.len() - n,
    {
        proof {
            lemma_candidates_exceed(timestamp@, names, n as nat);
            assert(names.len() == existing@.len());
        }
        n = n + 1;
        name = candidate(timestamp, n);
    }
    name
}


/// Two automatic saves into an empty directory within one timestamp second
/// produce two distinct files: `<ts>.png`, then `<ts>_1.png`.
pub proof fn lemma_same_second_saves(ts: Seq<char>, first: Seq<char>, second: Seq<char>)
    requires
        is_first_free_name(ts, Seq::empty(), first),
        is_first_free_name(ts, seq![first], second),
    ensures
        first == ts + png_ext(),
        second == ts + seq!['_', '1'] + png_ext(),
        first != second,
{
    let n = choose|n: nat| {
        &&& first == candidate_name(ts, n)
        &&& !Seq::<Seq<char>>::empty().contains(first)
        &&& forall|m: nat| m < n ==> Seq::<Seq<char>>::empty().contains(#[trigger] candidate_name(ts, m))
    };
    if n > 0 {
        assert(Seq::<Seq<char>>::empty().contains(candidate_name(ts, 0)));
    }
    let k = choose|k: nat| {
        &&& second == candidate_name(ts, k)
        &&& !seq![first].contains(second)
        &&& forall|m: nat| m < k ==> seq![first].contains(#[trigger] candidate_name(ts, m))
    };
    assert(decimal(1) =~= seq!['1']);
    if k == 0 {
        assert(seq![first][0] == first);
    }
    if k > 1 {
        assert(seq![first].contains(candidate_name(ts, 1)));
        lemma_candidate_injective(ts, 0, 1);
    }
    assert(candidate_name(ts, 1) =~= ts + seq!['_', '1'] + png_ext());
}

/// Two automatic saves into an empty directory within one timestamp second,
/// the second seeing the first's file, produce the records `<ts>.png` and
/// `<ts>_1.png`, both stamped `ts`. The second save succeeds whenever the
/// image it is given can be encoded.
pub proof fn lemma_same_second_records(
    dir: Seq<char>,
    ts: Seq<char>,
    img1: RawImage,
    img2: RawImage,
    r1: Result<PreparedSave, String>,
    r2: Result<PreparedSave, String>,
)
    requires
        exists|name: Seq<char>|
            #![trigger joined_path(dir, name)]
            {
                &&& is_first_free_name(ts, Seq::empty(), name)
                &&& prepared_as(r1, joined_path(dir, name), name, ts, img1)
            },
        r1 is Ok,
        exists|name: Seq<char>|
            #![trigger joined_path(dir, name)]
            {
                &&& is_first_free_name(ts, seq![r1->Ok_0.info.filename@], name)
                &&& prepared_as(r2, joined_path(dir, name), name, ts, img2)
            },
        png_encoding(img2.width, img2.height, img2.pixels@) is Some,
        thumbnail_text(img2.width, img2.height, img2.pixels@) is Some,
    ensures
        r2 is Ok,
        r1->Ok_0.info.filename@ == ts + png_ext(),
        r2->Ok_0.info.filename@ == ts + seq!['_', '1'] + png_ext(),
        r1->Ok_0.info.timestamp@ == ts,
        r2->Ok_0.info.timestamp@ == ts,
{
    let n1 = choose|name: Seq<char>| #![trigger joined_path(dir, name)]
        is_first_free_name(ts, Seq::empty(), name) && prepared_as(r1, joined_path(dir, name), name, ts, img1);
    let n2 = choose|name: Seq<char>| #![trigger joined_path(dir, name)]
        is_first_free_name(ts, seq![r1->Ok_0.info.filename@], name) && prepared_as(r2, joined_path(dir, name), name, ts, img2);
    assert(r1->Ok_0.info.filename@ == n1);
    lemma_same_second_saves(ts, n1, n2);
}

/// Width and height of every thumbnail.
pub const THUMB_SIZE: u32 = 150;

/// The pixels of a 150 by 150 triangle-filtered resize of an image, as
/// `image::imageops::resize` computes them.
pub uninterp spec fn thumbnail_pixels(width: u32, height: u32, pixels: Seq<u8>) -> Seq<u8>;

/// The PNG file that `image` writes for an RGBA image, or `None` where it
/// refuses to encode it.
pub uninterp spec fn png_encoding(width: u32, height: u32, pixels: Seq<u8>) -> Option<Seq<u8>>;

/// The RGBA image that `image` reads from a PNG file, or `None` where the
/// bytes do not decode.
pub uninterp spec fn png_decoding(bytes: Seq<u8>) -> Option<(u32, u32, Seq<u8>)>;

/// Standard base64 text (with padding) of a byte string.
pub uninterp spec fn base64_text(bytes: Seq<u8>) -> Seq<char>;

/// Relies on `image::imageops::resize` with `FilterType::Triangle`, which
/// returns a buffer of exactly the requested dimensions.
#[verifier::external_body]
fn resize_to_thumbnail(img: &RawImage) -> (r: RawImage)
    requires
        img.wf(),
    ensures
        r.wf(),
        r.width == THUMB_SIZE,
        r.height == THUMB_SIZE,
        r.pixels@ == thumbnail_pixels(img.width, img.height, img.pixels@),
{
    let src = ImageBuffer::<Rgba<u8>, &[u8]>::from_raw(img.width, img.height, img.pixels.as_slice()).unwrap();
    let out = image::imageops::resize(&src, THUMB_SIZE, THUMB_SIZE, image::imageops::FilterType::Triangle);
    RawImage { width: out.width(), height: out.height(), pixels: out.into_raw() }
}

/// Relies on `image::ImageBuffer::write_to` with `ImageFormat::Png`: the
/// bytes of a PNG file, or the encoder's error message.
#[verifier::external_body]
fn encode_png(img: &RawImage) -> (r: Result<Vec<u8>, String>)
    requires
        img.wf(),
    ensures
        match r {
            Ok(bytes) => png_encoding(img.width, img.height, img.pixels@) == Some(bytes@),
            Err(_) => png_encoding(img.width, img.height, img.pixels@) is None,
        },
{
    let src = ImageBuffer::<Rgba<u8>, &[u8]>::from_raw(img.width, img.height, img.pixels.as_slice()).unwrap();
    let mut out = std::io::Cursor::new(Vec::new());
    match src.write_to(&mut out, ImageFormat::Png) {
        Ok(()) => Ok(out.into_inner()),
        Err(e) => Err(e.to_string()),
    }
}

/// Relies on `image::load_from_memory_with_format` with `ImageFormat::Png`,
/// converted to RGBA by `DynamicImage::into_rgba8`.
#[verifier::external_body]
fn decode_png(bytes: &Vec<u8>) -> (r: Option<RawImage>)
    ensures
        match r {
            Some(img) => img.wf() && png_decoding(bytes@) == Some((img.width, img.height, img.pixels@)),
            None => png_decoding(bytes@) is None,
        },
{
    match image::load_from_memory_with_format(bytes.as_slice(), ImageFormat::Png) {
        Ok(decoded) => {
            let rgba = decoded.into_rgba8();
            Some(RawImage { width: rgba.width(), height: rgba.height(), pixels: rgba.into_raw() })
        },
        Err(_) => None,
    }
}

/// Relies on base64's `STANDARD` engine: `Engine::encode`, padded, four
/// characters for every started group of three bytes.
#[verifier::external_body]
fn base64_encode(bytes: &Vec<u8>) -> (r: String)
    ensures
        r@ == base64_text(bytes@),
        r@.len() == 4 * ((bytes@.len() + 2) / 3),
{
    STANDARD.encode(bytes.as_slice())
}

/// The textual thumbnail of an image: base64 of the PNG of its 150 by 150
/// resize, or `None` where that PNG cannot be encoded.
pub open spec fn thumbnail_text(width: u32, height: u32, pixels: Seq<u8>) -> Option<Seq<char>> {
    match png_encoding(THUMB_SIZE, THUMB_SIZE, thumbnail_pixels(width, height, pixels)) {
        Some(png) => Some(base64_text(png)),
        None => None,
    }
}

/// A 150 by 150 thumbnail of `img`, PNG-encoded and then base64-encoded.
pub fn generate_thumbnail(img: &RawImage) -> (r: Result<String, String>)
    requires
        img.wf(),
    ensures
        match r {
            Ok(t) => thumbnail_text(img.width, img.height, img.pixels@) == Some(t@),
            Err(_) => thumbnail_text(img.width, img.height, img.pixels@) is None,
        },
{
    let small = resize_to_thumbnail(img);
    match encode_png(&small) {
        Ok(png) => Ok(base64_encode(&png)),
        Err(e) => Err(e),
    }
}

/// What is known of one saved image file.
pub struct ImageInfo {
    pub path: String,
    pub filename: String,
    pub timestamp: String,
    pub width: u32,
    pub height: u32,
    /// Base64 text of a PNG thumbnail.
    pub thumbnail: String,
}

/// The value of an [`ImageInfo`], with its strings as character sequences.
pub struct InfoView {
    pub path: Seq<char>,
    pub filename: Seq<char>,
    pub timestamp: Seq<char>,
    pub width: u32,
    pub height: u32,
    pub thumbnail: Seq<char>,
}

impl View for ImageInfo {
    type V = InfoView;

    open spec fn view(&self) -> InfoView {
        InfoView {
            path: self.path@,
            filename: self.filename@,
            timestamp: self.timestamp@,
            width: self.width,
            height: self.height,
            thumbnail: self.thumbnail@,
        }
    }
}

/// An encoded image ready to be written, with the record that describes it
/// once written.
pub struct PreparedSave {
    /// The PNG file's bytes.
    pub png: Vec<u8>,
    pub info: ImageInfo,
}

/// The record of an image written as `filename` at `path` at time `ts`.
pub open spec fn saved_info(
    path: Seq<char>,
    filename: Seq<char>,
    ts: Seq<char>,
    img: RawImage,
) -> Option<InfoView> {
    match thumbnail_text(img.width, img.height, img.pixels@) {
        Some(t) => Some(
            InfoView {
                path,
                filename,
                timestamp: ts,
                width: img.width,
                height: img.height,
                thumbnail: t,
            },
        ),
        None => None,
    }
}

/// Whether `r` is the outcome of preparing `img` for a write as `filename`
/// at `path` at time `ts`: the PNG encoding and the record, or an error
/// exactly when one of the two encodings fails.
pub open spec fn prepared_as(
    r: Result<PreparedSave, String>,
    path: Seq<char>,
    filename: Seq<char>,
    ts: Seq<char>,
    img: RawImage,
) -> bool {
    match r {
        Ok(p) => {
            &&& png_encoding(img.width, img.height, img.pixels@) == Some(p.png@)
            &&& saved_info(path, filename, ts, img) == Some(p.info@)
        },
        Err(_) => png_encoding(img.width, img.height, img.pixels@) is None
            || saved_info(path, filename, ts, img) is None,
    }
}

fn prepare(img: &RawImage, path: String, filename: String, timestamp: &str) -> (r: Result<PreparedSave, String>)
    requires
        img.wf(),
    ensures
        prepared_as(r, path@, filename@, timestamp@, *img),
{
    let png = match encode_png(img) {
        Ok(png) => png,
        Err(e) => return Err(e),
    };
    let thumbnail = match generate_thumbnail(img) {
        Ok(t) => t,
        Err(e) => return Err(e),
    };
    let mut ts = String::new();
    push_str(&mut ts, timestamp);
    let info = ImageInfo { path, filename, timestamp: ts, width: img.width, height: img.height, thumbnail };
    Ok(PreparedSave { png, info })
}

/// Prepares an automatic save of `image` into `save_dir`, taken at
/// `timestamp`, where the directory already holds the files `existing`. The
/// file name is the first free one of `<timestamp>.png`,
/// `<timestamp>_1.png`, ...; the caller writes the returned bytes to the
/// record's path. Nothing is to be written when an error comes back.
pub fn save_image(image: &RawImage, save_dir: &str, timestamp: &str, existing: &Vec<String>) -> (r: Result<PreparedSave, String>)
    requires
        image.wf(),
    ensures
        exists|name: Seq<char>|
            #![trigger joined_path(save_dir@, name)]
            {
                &&& is_first_free_name(timestamp@, name_views(existing@), name)
                &&& prepared_as(r, joined_path(save_dir@, name), name, timestamp@, *image)
            },
{
    let filename = unique_filename(timestamp, existing);
    let path = join_path(save_dir, filename.as_str());
    let ghost name = filename@;
    let r = prepare(image, path, filename, timestamp);
    assert(prepared_as(r, joined_path(save_dir@, name), name, timestamp@, *image));
    r
}

/// Prepares a save of `image` to exactly `target_path`, with no collision
/// handling: the caller names a free destination and writes the returned
/// bytes there.
pub fn save_image_to_path(image: &RawImage, target_path: &str, timestamp: &str) -> (r: Result<PreparedSave, String>)
    requires
        image.wf(),
    ensures
        prepared_as(r, target_path@, path_file_name(target_path@), timestamp@, *image),
{
    let filename = file_name_of(target_path);
    let mut path = String::new();
    push_str(&mut path, target_path);
    prepare(image, path, filename, timestamp)
}

/// A file found in a save directory.
pub struct StoredFile {
    pub path: String,
    pub filename: String,
    /// The file's content.
    pub bytes: Vec<u8>,
}

/// Whether a file name has the image extension after a non-empty stem.
pub open spec fn is_image_name(name: Seq<char>) -> bool {
    name.len() > png_ext().len() && has_suffix(name, png_ext())
}

/// The file name without its extension.
pub open spec fn stem(name: Seq<char>) -> Seq<char> {
    name.subrange(0, name.len() - png_ext().len())
}

/// The record listed for a stored file: present for an image file that
/// decodes and whose thumbnail encodes; its timestamp is the file's stem.
pub open spec fn listing_entry(f: StoredFile) -> Option<InfoView> {
    if is_image_name(f.filename@) {
        match png_decoding(f.bytes@) {
            Some((w, h, px)) => match thumbnail_text(w, h, px) {
                Some(t) => Some(
                    InfoView {
                        path: f.path@,
                        filename: f.filename@,
                        timestamp: stem(f.filename@),
                        width: w,
                        height: h,
                        thumbnail: t,
                    },
                ),
                None => None,
            },
            None => None,
        }
    } else {
        None
    }
}

/// Whether records are ordered by file name, descending.
pub open spec fn sorted_desc(s: Seq<InfoView>) -> bool {
    forall|i: int, j: int| 0 <= i < j < s.len() ==> lex_le(#[trigger] s[j].filename, #[trigger] s[i].filename)
}

/// When no two records share a file name, a listing ordered by
/// [`sorted_desc`] is strictly descending by file name.
pub proof fn lemma_listing_strictly_descending(s: Seq<InfoView>)
    requires
        sorted_desc(s),
        forall|i: int, j: int| 0 <= i < j < s.len() ==> (#[trigger] s[i]).filename != (#[trigger] s[j]).filename,
    ensures
        forall|i: int, j: int| 0 <= i < j < s.len() ==> {
            &&& lex_le((#[trigger] s[j]).filename, (#[trigger] s[i]).filename)
            &&& s[j].filename != s[i].filename
        },
{
}

/// The views of a list of records.
pub open spec fn info_views(s: Seq<ImageInfo>) -> Seq<InfoView> {
    s.map_values(|i: ImageInfo| i@)
}

fn is_image_filename(name: &String) -> (r: bool)
    ensures
        r == is_image_name(name@),
{
    let c = chars_of(name.as_str());
    let n = c.len();
    if n <= 4 {
        return false;
    }
    let r = c[n - 4] == '.' && c[n - 3] == 'p' && c[n - 2] == 'n' && c[n - 1] == 'g';
    assert(r == (name@.subrange(n - 4, n as int) =~= png_ext()));
    r
}

fn listing_record(f: &StoredFile) -> (r: Option<ImageInfo>)
    ensures
        match r {
            Some(info) => listing_entry(*f) == Some(info@),
            None => listing_entry(*f) is None,
        },
{
    if !is_image_filename(&f.filename) {
        return None;
    }
    let img = match decode_png(&f.bytes) {
        Some(img) => img,
        None => return None,
    };
    let thumbnail = match generate_thumbnail(&img) {
        Ok(t) => t,
        Err(_) => return None,
    };
    let c = chars_of(f.filename.as_str());
    let timestamp = string_from(&c, 0, c.len() - 4);
    Some(ImageInfo {
        path: f.path.clone(),
        filename: f.filename.clone(),
        timestamp,
        width: img.width,
        height: img.height,
        thumbnail,
    })
}

/// Inserts `info` into a list ordered by file name, descending.
fn insert_sorted(v: &mut Vec<ImageInfo>, info: ImageInfo)
    requires
        sorted_desc(info_views(old(v)@)),
    ensures
        sorted_desc(info_views(final(v)@)),
        info_views(final(v)@).to_multiset() == info_views(old(v)@).to_multiset().insert(info@),
{
    let mut p: usize = 0;
    while p < v.len() && !lex_le_exec(&v[p].filename, &info.filename)
        invariant
            p <= v@.len(),
            forall|i: int| 0 <= i < p ==> !lex_le(#[trigger] v@[i].filename@, info.filename@),
        decreases v@.len() - p,
    {
        p = p + 1;
    }
    let ghost before = v@;
    let ghost x = info;
    v.insert(p, info);
    proof {
        broadcast use vstd::seq_lib::to_multiset_insert;
        assert(v@ == before.insert(p as int, x));
        assert(info_views(v@) =~= info_views(before).insert(p as int, x@));
        let s = info_views(v@);
        assert forall|i: int, j: int| 0 <= i < j < s.len() implies lex_le(#[trigger] s[j].filename, #[trigger] s[i].filename) by {
            if i < p && j < p {
                assert(info_views(before)[j].filename == s[j].filename);
                assert(info_views(before)[i].filename == s[i].filename);
            } else if i < p && j == p {
                lemma_lex_total(before[i].filename@, x.filename@);
            } else if i < p && j > p {
                assert(info_views(before)[j - 1].filename == s[j].filename);
                assert(info_views(before)[i].filename == s[i].filename);
            } else if i == p {
                assert(p < before.len());
                assert(lex_le(before[p as int].filename@, x.filename@));
                if j - 1 > p {
                    assert(info_views(before)[j - 1].filename == s[j].filename);
                    assert(info_views(before)[p as int].filename == before[p as int].filename@);
                    lemma_lex_transitive(before[j - 1].filename@, before[p as int].filename@, x.filename@);
                }
            } else {
                assert(info_views(before)[j - 1].filename == s[j].filename);
                assert(info_views(before)[i - 1].filename == s[i].filename);
            }
        }
    }
}

/// The records of a save directory's image files, given the directory's
/// files: one per file with the image extension that decodes (and whose
/// thumbnail encodes), the rest omitted; ordered by file name, descending.
pub fn list_saved_images(files: &Vec<StoredFile>) -> (r: Vec<ImageInfo>)
    ensures
        sorted_desc(info_views(r@)),
        info_views(r@).to_multiset() == files@.filter_map(|f: StoredFile| listing_entry(f)).to_multiset(),
        r@.len() == files@.filter_map(|f: StoredFile| listing_entry(f)).len(),
{
    let mut out: Vec<ImageInfo> = Vec::new();
    let mut i: usize = 0;
    proof {
        broadcast use vstd::seq_lib::group_to_multiset_ensures, vstd::multiset::group_multiset_axioms;
        assert(files@.take(0) =~= Seq::<StoredFile>::empty());
        assert(info_views(out@) =~= Seq::<InfoView>::empty());
        assert(Seq::<InfoView>::empty().to_multiset() =~= vstd::multiset::Multiset::empty());
    }
    while i < files.len()
        invariant
            i <= files@.len(),
            sorted_desc(info_views(out@)),
            info_views(out@).to_multiset() == files@.take(i as int).filter_map(|f: StoredFile| listing_entry(f)).to_multiset(),
        decreases files@.len() - i,
    {
        let ghost prev = out@;
        assert(files@.take(i + 1).drop_last() =~= files@.take(i as int));
        match listing_record(&files[i]) {
            Some(info) => {
                insert_sorted(&mut out, info);
                proof {
                    broadcast use vstd::seq_lib::group_to_multiset_ensures;
                    let fm = files@.take(i as int).filter_map(|f: StoredFile| listing_entry(f));
                    assert(files@.take(i + 1).last() == files@[i as int]);
                    assert(files@.take(i + 1).filter_map(|f: StoredFile| listing_entry(f)) == fm + seq![info@]);
                    assert(fm + seq![info@] =~= fm.push(info@));
                }
            },
            None => {
                assert(files@.take(i + 1).last() == files@[i as int]);
            },
        }
        i = i + 1;
    }
    assert(files@.take(files@.len() as int) =~= files@);
    proof {
        broadcast use vstd::seq_lib::group_to_multiset_ensures;
        assert(info_views(out@).len() == out@.len());
        assert(info_views(out@).to_multiset().len() == info_views(out@).len());
    }
    out
}

} // verus!
