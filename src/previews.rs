//! Decisions about rendered previews: how a file is rendered, and the
//! thumbnail hash of a rendered preview's pixels.
use vstd::prelude::*;
use vstd::string::StrSliceExecFns;
use crate::photo::opt_chars;

verus! {

/// Side, in pixels, of the square image a thumbnail hash is computed from.
pub const THUMB_HASH_IMAGE_SIZE: usize = 72;

/// The first MIME type ("type/subtype") registered for a file extension.
pub uninterp spec fn first_mime_of(ext: Seq<char>) -> Option<Seq<char>>;

/// Relies on fast_thumbhash::rgba_to_thumb_hash, which asserts that each side
/// is at most 100 and that there are four bytes per pixel, and always begins
/// the hash with a five-byte header. Its other bytes go through the
/// platform's floating-point cosine, so nothing more is stated of them.
#[verifier::external_body]
fn rgba_to_thumb_hash(w: usize, h: usize, rgba: &[u8]) -> (r: Vec<u8>)
    requires
        1 <= w <= 100,
        1 <= h <= 100,
        rgba@.len() == w * h * 4,
    ensures
        r@.len() >= 5,
{
    fast_thumbhash::rgba_to_thumb_hash(w, h, rgba)
}

/// The thumbnail hash of a rendered preview's pixels: a square RGBA image of
/// side `THUMB_HASH_IMAGE_SIZE`; none when the pixels are not that.
pub fn generate_thumb_image_hash(rgba: &Vec<u8>) -> (r: Option<Vec<u8>>)
    ensures
        r is Some <==> rgba@.len() == THUMB_HASH_IMAGE_SIZE * THUMB_HASH_IMAGE_SIZE * 4,
        r is Some ==> r->0@.len() >= 5,
{
    if rgba.len() != THUMB_HASH_IMAGE_SIZE * THUMB_HASH_IMAGE_SIZE * 4 {
        return None;
    }
    Some(rgba_to_thumb_hash(THUMB_HASH_IMAGE_SIZE, THUMB_HASH_IMAGE_SIZE, rgba.as_slice()))
}

/// Relies on mime_guess's `MimeGuess::from_ext` and `first_raw`: the first
/// registered type for the extension, nothing for an empty extension.
#[verifier::external_body]
fn guess_mime(ext: &str) -> (r: Option<String>)
    ensures
        opt_chars(r) == first_mime_of(ext@),
        ext@.len() == 0 ==> r is None,
{
    mime_guess::MimeGuess::from_ext(ext).first_raw().map(|m| m.to_string())
}

/// How a preview is rendered for a file.
#[derive(Debug, Clone, Copy, PartialEq, Eq, Structural)]
pub enum PreviewKind {
    /// No type is known for the file: no preview can be rendered.
    Unknown,
    /// A frame is taken from the video.
    VideoFrame,
    /// The image is scaled down.
    Still,
}

pub open spec fn video_prefix() -> Seq<char> {
    seq!['v', 'i', 'd', 'e', 'o', '/']
}

/// Whether a MIME type's top-level type is `video`.
pub fn is_video_type(mime: &str) -> (r: bool)
    ensures
        r == (mime@.len() >= 6 && mime@.subrange(0, 6) == video_prefix()),
{
    let prefix = ['v', 'i', 'd', 'e', 'o', '/'];
    let n = mime.unicode_len();
    if n < 6 {
        return false;
    }
    let mut i: usize = 0;
    while i < 6
        invariant
            i <= 6,
            n == mime@.len(),
            n >= 6,
            prefix@ == video_prefix(),
            forall|k: int| 0 <= k < i ==> mime@[k] == video_prefix()[k],
        decreases 6 - i,
    {
        if mime.get_char(i) != prefix[i] {
            return false;
        }
        i = i + 1;
    }
    proof {
        assert(mime@.subrange(0, 6) =~= video_prefix());
    }
    true
}

/// The rendering of a file with extension `extension`.
pub fn preview_kind(extension: Option<&str>) -> (r: PreviewKind)
    ensures
        ({
            let m = match extension {
                Some(e) => first_mime_of(e@),
                None => None,
            };
            &&& m is None ==> r == PreviewKind::Unknown
            &&& m is Some && m->0.len() >= 6 && m->0.subrange(0, 6) == video_prefix() ==> r
                == PreviewKind::VideoFrame
            &&& m is Some && !(m->0.len() >= 6 && m->0.subrange(0, 6) == video_prefix()) ==> r
                == PreviewKind::Still
        }),
{
    let mime = match extension {
        Some(e) => guess_mime(e),
        None => None,
    };
    match mime {
        None => PreviewKind::Unknown,
        Some(m) => if is_video_type(m.as_str()) {
            PreviewKind::VideoFrame
        } else {
            PreviewKind::Still
        },
    }
}

} // verus!
