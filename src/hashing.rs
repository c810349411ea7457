use vstd::prelude::*;

use crate::config::{HashConfig, MAX_RESOLUTION};
use crate::groups::HashedImage;

verus! {

/// visual_hash's hasher, opaque here: it is built once per worker and only
/// handed back to `hash_rgba`.
#[verifier::external_type_specification]
#[verifier::external_body]
#[verifier::reject_recursive_types(B)]
pub struct ExHasher<B>(visual_hash::Hasher<B>);

/// What the image decoder makes of a file's bytes: width, height and the
/// pixels as 8-bit RGBA rows, or nothing when the bytes are no image it reads.
pub uninterp spec fn decoded_rgba(bytes: Seq<u8>) -> Option<(u32, u32, Seq<u8>)>;

/// The perceptual hash, as bytes, of an RGBA pixel grid under a hash
/// resolution and a choice of frequency-domain preprocessing.
pub uninterp spec fn perceptual_hash(
    resolution: u32,
    use_dct: bool,
    width: u32,
    height: u32,
    pixels: Seq<u8>,
) -> Seq<u8>;

/// A decoded image: its dimensions and its pixels, four bytes (red, green,
/// blue, alpha) per pixel, row by row.
pub struct DecodedImage {
    pub width: u32,
    pub height: u32,
    pub pixels: Vec<u8>,
}

impl DecodedImage {
    pub open spec fn wf(&self) -> bool {
        self.pixels@.len() == 4 * (self.width as int) * (self.height as int)
    }
}

/// Relies on image::load_from_memory, which guesses the format from the
/// bytes and decodes them; DynamicImage::to_rgba8 and ImageBuffer::into_raw
/// only convert the decoded image into a row-major RGBA buffer.
#[verifier::external_body]
fn decode_rgba(bytes: &[u8]) -> (r: Option<DecodedImage>)
    ensures
        match r {
            Some(d) => decoded_rgba(bytes@) == Some((d.width, d.height, d.pixels@)) && d.wf(),
            None => decoded_rgba(bytes@) is None,
        },
{
    match image::load_from_memory(bytes) {
        Ok(img) => {
            let rgba = img.to_rgba8();
            let (width, height) = rgba.dimensions();
            Some(DecodedImage { width, height, pixels: rgba.into_raw() })
        },
        Err(_) => None,
    }
}

/// Relies on visual_hash::HasherConfig: a hasher of `resolution` by
/// `resolution` cells without preprocessing. `to_hasher` asserts that the
/// bit count `resolution * resolution` fits its container and computes it
/// in a `u32`, hence the bound.
#[verifier::external_body]
fn spatial_hasher(resolution: u32) -> (r: visual_hash::Hasher)
    requires
        1 <= resolution <= MAX_RESOLUTION,
{
    visual_hash::HasherConfig::new().hash_size(resolution, resolution).to_hasher()
}

/// Relies on visual_hash::HasherConfig: a hasher of `resolution` by
/// `resolution` cells with DCT preprocessing; the bound is as for
/// `spatial_hasher`.
#[verifier::external_body]
fn dct_hasher(resolution: u32) -> (r: visual_hash::Hasher)
    requires
        1 <= resolution <= MAX_RESOLUTION,
{
    visual_hash::HasherConfig::new().hash_size(resolution, resolution).preproc_dct().to_hasher()
}

/// A reusable hash function for one configuration. Each worker owns one.
pub struct ImageHasher {
    config: HashConfig,
    inner: visual_hash::Hasher,
}

impl ImageHasher {
    /// The configuration this hasher was built from.
    pub closed spec fn config(&self) -> HashConfig {
        self.config
    }

    /// Builds the hasher for a configuration.
    pub fn new(config: HashConfig) -> (r: ImageHasher)
        requires
            config.wf(),
        ensures
            r.config() == config,
    {
        let inner = if config.use_dct {
            dct_hasher(config.resolution)
        } else {
            spatial_hasher(config.resolution)
        };
        ImageHasher { config, inner }
    }

    /// The configuration this hasher was built from.
    pub fn configuration(&self) -> (r: HashConfig)
        ensures
            r == self.config(),
    {
        self.config
    }
}

/// Relies on visual_hash::Hasher::hash_image over the RGBA buffer that
/// image::RgbaImage::from_raw wraps around the pixels (it accepts a buffer
/// of exactly `4 * width * height` bytes), and on ImageHash::as_bytes. The
/// hasher is the one `ImageHasher::new` built from `hasher.config()`.
#[verifier::external_body]
fn hash_rgba(hasher: &ImageHasher, image: DecodedImage) -> (r: Vec<u8>)
    requires
        image.wf(),
    ensures
        r@ == perceptual_hash(
            hasher.config().resolution,
            hasher.config().use_dct,
            image.width,
            image.height,
            image.pixels@,
        ),
{
    let buffer = image::RgbaImage::from_raw(image.width, image.height, image.pixels).unwrap();
    hasher.inner.hash_image(&buffer).as_bytes().to_vec()
}

/// `img` is what hashing a file with path `path` and contents `bytes` under
/// `config` gives: the decoded dimensions and the hash of the decoded pixels.
pub open spec fn hashed_from(
    img: HashedImage,
    config: HashConfig,
    path: String,
    bytes: Seq<u8>,
) -> bool {
    match decoded_rgba(bytes) {
        Some(d) => {
            &&& img.path == path
            &&& img.width == d.0
            &&& img.height == d.1
            &&& img.config == config
            &&& img.hash@ == perceptual_hash(config.resolution, config.use_dct, d.0, d.1, d.2)
        },
        None => false,
    }
}

/// Decodes a file's contents and hashes the image. A file that does not
/// decode gives `None`: it is skipped, never an error of the run.
pub fn hash_image_bytes(hasher: &ImageHasher, path: String, bytes: &[u8]) -> (r: Option<
    HashedImage,
>)
    ensures
        r is Some <==> decoded_rgba(bytes@) is Some,
        r is Some ==> hashed_from(r->0, hasher.config(), path, bytes@),
{
    match decode_rgba(bytes) {
        None => None,
        Some(image) => {
            let width = image.width;
            let height = image.height;
            let hash = hash_rgba(hasher, image);
            Some(HashedImage { path, width, height, config: hasher.configuration(), hash })
        },
    }
}

/// Hashes one candidate file, given its contents or `None` when it could not
/// be read. Unreadable and undecodable files give `None`.
pub fn hash_file(hasher: &ImageHasher, path: String, contents: Option<Vec<u8>>) -> (r: Option<
    HashedImage,
>)
    ensures
        match contents {
            None => r is None,
            Some(b) => {
                &&& r is Some <==> decoded_rgba(b@) is Some
                &&& r is Some ==> hashed_from(r->0, hasher.config(), path, b@)
            },
        },
{
    match contents {
        None => None,
        Some(bytes) => hash_image_bytes(hasher, path, bytes.as_slice()),
    }
}

/// The hashed images among `results`, in order.
pub open spec fn successes(results: Seq<Option<HashedImage>>) -> Seq<HashedImage>
    decreases results.len(),
{
    if results.len() == 0 {
        Seq::empty()
    } else {
        let prev = successes(results.drop_last());
        match results.last() {
            Some(img) => prev.push(img),
            None => prev,
        }
    }
}

/// Keeps the images that were hashed and drops the files that failed, in
/// order.
pub fn keep_hashed(results: Vec<Option<HashedImage>>) -> (r: Vec<HashedImage>)
    ensures
        r@ == successes(results@),
{
    let ghost all = results@;
    let mut r: Vec<HashedImage> = Vec::new();
    for res in it: results.into_iter()
        invariant
            it.seq() == all,
            r@ == successes(all.subrange(0, it.index() as int)),
    {
        let ghost i = it.index() as int;
        assert(all.subrange(0, i + 1).drop_last() =~= all.subrange(0, i));
        match res {
            Some(img) => r.push(img),
            None => {},
        }
    }
    assert(all.subrange(0, all.len() as int) =~= all);
    r
}

} // verus!
