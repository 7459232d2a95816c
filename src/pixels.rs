//! Raw RGBA pixel buffers and their sampled fingerprints.
use std::collections::hash_map::DefaultHasher;
use std::hash::Hasher;
use vstd::prelude::*;
use vstd::std_specs::hash::DefaultHasherAdditionalSpecFns;

verus! {

/// Number of bytes per RGBA pixel.
pub const CHANNELS: usize = 4;

/// An RGBA image with 8 bits per channel, rows stored top to bottom.
pub struct RawImage {
    pub width: u32,
    pub height: u32,
    pub pixels: Vec<u8>,
}

impl RawImage {
    /// The buffer holds exactly one RGBA quadruple per pixel.
    pub open spec fn wf(&self) -> bool {
        self.pixels@.len() == 4 * ((self.width as int) * (self.height as int))
    }

    /// Number of pixels.
    pub open spec fn pixel_count(&self) -> int {
        (self.width as int) * (self.height as int)
    }

    /// Whether the buffer length matches the dimensions.
    pub fn is_well_formed(&self) -> (r: bool)
        ensures
            r == self.wf(),
    {
        let n: usize = self.pixels.len();
        let w = self.width as u64;
        let h = self.height as u64;
        assert(w * h <= u64::MAX) by (nonlinear_arith)
            requires w <= u32::MAX, h <= u32::MAX;
        let wh: u64 = w * h;
        n % 4 == 0 && (n / 4) as u64 == wh
    }

    /// Builds an image from a clipboard backend's report. When the reported
    /// dimensions do not fit in the buffer (or in 32 bits), the result is a
    /// single fully transparent black pixel instead. Extra trailing bytes are
    /// dropped.
    pub fn from_clipboard(width: usize, height: usize, bytes: Vec<u8>) -> (r: RawImage)
        ensures
            r.wf(),
            consistent_report(width as int, height as int, bytes@.len() as int) ==> {
                &&& r.width == width
                &&& r.height == height
                &&& r.pixels@ == bytes@.subrange(0, 4 * ((width as int) * (height as int)))
            },
            !consistent_report(width as int, height as int, bytes@.len() as int) ==> {
                &&& r.width == 1
                &&& r.height == 1
                &&& r.pixels@ == seq![0u8, 0u8, 0u8, 0u8]
            },
    {
        let fits = width <= u32::MAX as usize && height <= u32::MAX as usize
            && (width == 0 || height <= bytes.len() / 4 / width);
        if fits {
            proof {
                if width > 0 {
                    lemma_fits(width as int, height as int, bytes@.len() as int);
                }
            }
            let wh: usize = width * height;
            let n: usize = 4 * wh;
            let mut bytes = bytes;
            bytes.truncate(n);
            RawImage { width: width as u32, height: height as u32, pixels: bytes }
        } else {
            proof {
                if width > 0 && consistent_report(width as int, height as int, bytes@.len() as int) {
                    lemma_fits_converse(width as int, height as int, bytes@.len() as int);
                }
            }
            RawImage { width: 1, height: 1, pixels: vec![0u8, 0u8, 0u8, 0u8] }
        }
    }
}

/// Whether a backend's dimensions describe a buffer of `len` bytes or less.
pub open spec fn consistent_report(width: int, height: int, len: int) -> bool {
    &&& width <= u32::MAX
    &&& height <= u32::MAX
    &&& 4 * (width * height) <= len
}

proof fn lemma_fits(w: int, h: int, len: int)
    requires
        w > 0,
        h >= 0,
        len >= 0,
        h <= len / 4 / w,
    ensures
        w * h <= len / 4,
        4 * (w * h) <= len,
{
    assert(w * (len / 4 / w) <= len / 4) by (nonlinear_arith)
        requires w > 0, len >= 0;
    assert(w * h <= w * (len / 4 / w)) by (nonlinear_arith)
        requires w > 0, h <= len / 4 / w;
}

proof fn lemma_fits_converse(w: int, h: int, len: int)
    requires
        w > 0,
        h >= 0,
        len >= 0,
        4 * (w * h) <= len,
    ensures
        h <= len / 4 / w,
{
    assert(w * h <= len / 4) by (nonlinear_arith)
        requires 4 * (w * h) <= len;
    assert(h <= (len / 4) / w) by (nonlinear_arith)
        requires w > 0, w * h <= len / 4, h >= 0;
}


/// Little-endian bytes of a 32-bit value.
pub open spec fn le_bytes(x: u32) -> Seq<u8> {
    seq![
        (x % 256) as u8,
        ((x / 256) % 256) as u8,
        ((x / 65536) % 256) as u8,
        ((x / 16777216) % 256) as u8,
    ]
}

/// Distance between sampled pixels for an image of `n` pixels: one
/// thousandth of the pixel count, and at least one.
pub open spec fn sample_step(n: int) -> int {
    if n / 1000 >= 1 {
        n / 1000
    } else {
        1
    }
}

/// The bytes of pixels `i`, `i + step`, `i + 2 * step`, ... below `n`.
pub open spec fn samples_from(px: Seq<u8>, n: int, step: int, i: int) -> Seq<u8>
    decreases n - i,
{
    if step <= 0 || i < 0 || i >= n {
        Seq::empty()
    } else if i + step >= n {
        px.subrange(4 * i, 4 * i + 4)
    } else {
        px.subrange(4 * i, 4 * i + 4) + samples_from(px, n, step, i + step)
    }
}

/// What is fed to the hasher: both dimensions, then the sampled pixels.
pub open spec fn fingerprint_input(width: u32, height: u32, px: Seq<u8>) -> Seq<u8> {
    let n = (width as int) * (height as int);
    le_bytes(width) + le_bytes(height) + samples_from(px, n, sample_step(n), 0)
}

/// The fingerprint of an image: std's default hasher over a single write of
/// the fingerprint input.
pub open spec fn fingerprint_of(width: u32, height: u32, px: Seq<u8>) -> u64 {
    DefaultHasher::spec_finish(seq![fingerprint_input(width, height, px)])
}

fn push_le_bytes(buf: &mut Vec<u8>, x: u32)
    ensures
        final(buf)@ == old(buf)@ + le_bytes(x),
{
    buf.push((x % 256) as u8);
    buf.push(((x / 256) % 256) as u8);
    buf.push(((x / 65536) % 256) as u8);
    buf.push(((x / 16777216) % 256) as u8);
    assert(final(buf)@ =~= old(buf)@ + le_bytes(x));
}

/// A cheap content fingerprint: dimensions plus a strided sample of at most
/// about a thousand pixels. Identical images always get identical values;
/// different images may share one.
pub fn fingerprint(img: &RawImage) -> (r: u64)
    requires
        img.wf(),
    ensures
        r == fingerprint_of(img.width, img.height, img.pixels@),
{
    let n: usize = img.pixels.len() / CHANNELS;
    let ghost nn = (img.width as int) * (img.height as int);
    let len: usize = img.pixels.len();
    assert(n == nn);
    let step: usize = if n / 1000 >= 1 { n / 1000 } else { 1 };
    let mut buf: Vec<u8> = Vec::new();
    push_le_bytes(&mut buf, img.width);
    push_le_bytes(&mut buf, img.height);
    let ghost header = buf@;
    let mut i: usize = 0;
    while i < n
        invariant
            n == nn,
            len == img.pixels@.len(),
            4 * n == len,
            step == sample_step(nn),
            step >= 1,
            buf@ + samples_from(img.pixels@, nn, step as int, i as int)
                == header + samples_from(img.pixels@, nn, step as int, 0),
        decreases n - i,
    {
        let ghost before = buf@;
        let k: usize = CHANNELS * i;
        buf.push(img.pixels[k]);
        buf.push(img.pixels[k + 1]);
        buf.push(img.pixels[k + 2]);
        buf.push(img.pixels[k + 3]);
        assert(buf@ =~= before + img.pixels@.subrange(4 * i, 4 * i + 4));
        assert(buf@ + samples_from(img.pixels@, nn, step as int, i + step)
            =~= before + samples_from(img.pixels@, nn, step as int, i as int));
        if n - i <= step {
            i = n;
        } else {
            i = i + step;
        }
    }
    assert(buf@ =~= fingerprint_input(img.width, img.height, img.pixels@));
    let mut hasher = DefaultHasher::new();
    hasher.write(buf.as_slice());
    hasher.finish()
}

/// Equal images get equal fingerprints: the value depends on the
/// dimensions and the pixel bytes alone.
pub proof fn lemma_fingerprint_deterministic(a: RawImage, b: RawImage)
    requires
        a.width == b.width,
        a.height == b.height,
        a.pixels@ == b.pixels@,
    ensures
        fingerprint_of(a.width, a.height, a.pixels@) == fingerprint_of(b.width, b.height, b.pixels@),
{
}

/// Remembers the fingerprint of the last image seen by one polling context,
/// so that a still clipboard is reported only once.
pub struct FingerprintTracker {
    pub last: Option<u64>,
}

impl FingerprintTracker {
    /// A tracker that has seen nothing yet.
    pub fn new() -> (r: FingerprintTracker)
        ensures
            r.last is None,
    {
        FingerprintTracker { last: None }
    }

    /// Whether `img` differs from the last image seen (by fingerprint). When
    /// it does, the tracker remembers it, so the same still image is not
    /// reported twice.
    pub fn is_new(&mut self, img: &RawImage) -> (r: bool)
        requires
            img.wf(),
        ensures
            r == (old(self).last != Some(fingerprint_of(img.width, img.height, img.pixels@))),
            final(self).last == Some(fingerprint_of(img.width, img.height, img.pixels@)),
    {
        let fp = fingerprint(img);
        let fresh = match self.last {
            Some(prev) => prev != fp,
            None => true,
        };
        if fresh {
            self.last = Some(fp);
        }
        fresh
    }
}

} // verus!
