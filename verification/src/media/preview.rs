//! Which files paint as they are, and how a preview JPEG is pulled out of a
//! RAW or similar container.

use vstd::prelude::*;

use crate::media::types::{
    ext_is, has_ext, heic_exts, heic_ext_list, jxl_exts, jxl_ext_list, raw_exts, raw_ext_list,
};
use crate::path::LibPath;

verus! {

pub open spec fn animated_exts() -> Seq<&'static str> {
    seq!["gif", "webp"]
}

pub open spec fn paintable_exts() -> Seq<&'static str> {
    seq!["jpg", "jpeg", "png", "gif", "webp", "bmp", "tif", "tiff"]
}

/// GIF and WebP files, which may animate.
pub fn is_animated(path: &LibPath) -> (r: bool)
    ensures
        r == has_ext(path@, animated_exts()),
{
    let exts = vec!["gif", "webp"];
    assert(exts@ =~= animated_exts());
    ext_is(path, &exts)
}

/// Formats the window system decodes itself (JPEG, PNG, GIF, WebP, BMP,
/// TIFF); HEIC, RAW, AVIF and JPEG XL need a converted preview.
pub open spec fn paints_directly(p: Seq<Seq<char>>) -> bool {
    &&& has_ext(p, paintable_exts())
    &&& !has_ext(p, raw_exts())
    &&& !has_ext(p, heic_exts())
    &&& !has_ext(p, jxl_exts())
}

pub fn can_paint_directly(path: &LibPath) -> (r: bool)
    ensures
        r == paints_directly(path@),
{
    let exts = vec!["jpg", "jpeg", "png", "gif", "webp", "bmp", "tif", "tiff"];
    assert(exts@ =~= paintable_exts());
    ext_is(path, &exts) && !ext_is(path, &raw_ext_list()) && !ext_is(path, &heic_ext_list())
        && !ext_is(path, &jxl_ext_list())
}

/// A JPEG end-of-image marker `FF D9` starts at `j`.
pub open spec fn eoi_at(d: Seq<u8>, j: int) -> bool {
    0 <= j && j + 1 < d.len() && d[j] == 0xff && d[j + 1] == 0xd9
}

/// A JPEG start-of-image marker `FF D8 FF` starts at `i`.
pub open spec fn soi_at(d: Seq<u8>, i: int) -> bool {
    0 <= i && i + 2 < d.len() && d[i] == 0xff && d[i + 1] == 0xd8 && d[i + 2] == 0xff
}

/// Bytes framed as one JPEG: a start-of-image marker in front, an
/// end-of-image marker closing them.
pub open spec fn jpeg_framed(b: Seq<u8>) -> bool {
    soi_at(b, 0) && eoi_at(b, b.len() - 2)
}

/// A big-endian 16-bit number at `i`.
pub open spec fn be16(b: Seq<u8>, i: int) -> int {
    b[i] as int * 256 + b[i + 1] as int
}

/// The JPEG's frame header, as the encoder writes it right after the start
/// marker and the JFIF segment, states a height and a width each between 1
/// and `max_edge` (1 when `max_edge` is 0): `FF C0` at byte 20, the height
/// at byte 25 and the width at byte 27.
pub open spec fn fits_within(b: Seq<u8>, max_edge: u32) -> bool {
    let edge: int = if max_edge == 0 {
        1
    } else {
        max_edge as int
    };
    &&& b.len() > 28
    &&& b[20] == 0xff && b[21] == 0xc0
    &&& 1 <= be16(b, 25) <= edge
    &&& 1 <= be16(b, 27) <= edge
}

/// The first end-of-image marker at or after `j`.
pub open spec fn first_eoi(d: Seq<u8>, j: int) -> Option<int>
    decreases d.len() - j,
{
    if j < 0 || j + 1 >= d.len() {
        None
    } else if eoi_at(d, j) {
        Some(j)
    } else {
        first_eoi(d, j + 1)
    }
}

/// Length of the JPEG that starts at `i`: up to and with the first
/// end-of-image marker found from two bytes in.
pub open spec fn segment_len(d: Seq<u8>, i: int) -> Option<int> {
    match first_eoi(d, i + 2) {
        Some(j) => Some(j + 2 - i),
        None => None,
    }
}

/// The JPEGs met scanning `d` from `i`, as (start, length): after each one
/// the scan resumes past its end.
pub open spec fn segments(d: Seq<u8>, i: int) -> Seq<(int, int)>
    decreases (if i < d.len() {
        d.len() - i
    } else {
        0
    }),
{
    if i < 0 || i + 3 >= d.len() {
        Seq::empty()
    } else if soi_at(d, i) && segment_len(d, i) is Some {
        let len = segment_len(d, i)->0;
        let step = if len > 2 {
            len
        } else {
            2
        };
        seq![(i, len)] + segments(d, i + step)
    } else {
        segments(d, i + 1)
    }
}

/// The earlier of the longest: `c` replaces `best` only when strictly longer.
pub open spec fn better(best: Option<(int, int)>, c: (int, int)) -> Option<(int, int)> {
    match best {
        Some(b) => if c.1 > b.1 {
            Some(c)
        } else {
            Some(b)
        },
        None => Some(c),
    }
}

pub open spec fn longest_from(best: Option<(int, int)>, s: Seq<(int, int)>) -> Option<(int, int)>
    decreases s.len(),
{
    if s.len() == 0 {
        best
    } else {
        longest_from(better(best, s[0]), s.drop_first())
    }
}

/// The largest embedded JPEG of `d`, if it holds more than 128 bytes.
pub open spec fn largest_jpeg_of(d: Seq<u8>) -> Option<Seq<u8>> {
    match longest_from(None, segments(d, 0)) {
        Some(b) => if b.1 > 128 {
            Some(d.subrange(b.0, b.0 + b.1))
        } else {
            None
        },
        None => None,
    }
}

proof fn lemma_first_eoi_found(d: Seq<u8>, j: int)
    ensures
        first_eoi(d, j) matches Some(k) ==> j <= k && eoi_at(d, k),
    decreases d.len() - j,
{
    if j >= 0 && j + 1 < d.len() && !eoi_at(d, j) {
        lemma_first_eoi_found(d, j + 1);
    }
}

/// Every JPEG the scan meets lies whole inside the data: a start marker,
/// then bytes up to and with an end marker.
proof fn lemma_segments_whole(d: Seq<u8>, i: int)
    ensures
        forall|k: int|
            0 <= k < segments(d, i).len() ==> {
                let c = #[trigger] segments(d, i)[k];
                &&& soi_at(d, c.0)
                &&& c.1 >= 4
                &&& c.0 + c.1 <= d.len()
                &&& eoi_at(d, c.0 + c.1 - 2)
            },
    decreases (if i < d.len() {
        d.len() - i
    } else {
        0
    }),
{
    if i < 0 || i + 3 >= d.len() {
    } else if soi_at(d, i) && segment_len(d, i) is Some {
        let len = segment_len(d, i)->0;
        let step = if len > 2 {
            len
        } else {
            2
        };
        lemma_first_eoi_found(d, i + 2);
        lemma_segments_whole(d, i + step);
        let rest = segments(d, i + step);
        assert(segments(d, i) == seq![(i, len)] + rest);
        assert(segments(d, i)[0] == (i, len));
        assert forall|k: int| 0 <= k < segments(d, i).len() implies {
            let c = #[trigger] segments(d, i)[k];
            &&& soi_at(d, c.0)
            &&& c.1 >= 4
            &&& c.0 + c.1 <= d.len()
            &&& eoi_at(d, c.0 + c.1 - 2)
        } by {
            if k > 0 {
                assert(segments(d, i)[k] == rest[k - 1]);
            }
        }
    } else {
        lemma_segments_whole(d, i + 1);
        assert(segments(d, i) == segments(d, i + 1));
    }
}

/// The longest of the candidates and `best`, the earliest among equals.
proof fn lemma_longest(best: Option<(int, int)>, s: Seq<(int, int)>)
    ensures
        longest_from(best, s) is None ==> best is None && s.len() == 0,
        longest_from(best, s) matches Some(b) ==> {
            &&& (best == Some(b) || exists|k: int| 0 <= k < s.len() && s[k] == b)
            &&& (best matches Some(x) ==> x.1 <= b.1)
            &&& forall|k: int| 0 <= k < s.len() ==> (#[trigger] s[k]).1 <= b.1
        },
    decreases s.len(),
{
    if s.len() > 0 {
        let bb = better(best, s[0]);
        let rest = s.drop_first();
        lemma_longest(bb, rest);
        let r = longest_from(bb, rest);
        let b = r->0;
        assert forall|k: int| 0 <= k < s.len() implies (#[trigger] s[k]).1 <= b.1 by {
            if k > 0 {
                assert(s[k] == rest[k - 1]);
            }
        }
        if bb != Some(b) {
            let k = choose|k: int| 0 <= k < rest.len() && rest[k] == b;
            assert(s[k + 1] == b);
        } else if best != Some(b) {
            assert(s[0] == b);
        }
    }
}

/// The preview taken out of a RAW file is a whole JPEG of the data: it
/// starts with `FF D8 FF`, ends with `FF D9`, holds more than 128 bytes,
/// and no JPEG met in the data is longer.
pub proof fn law_largest_jpeg_is_whole(d: Seq<u8>)
    ensures
        largest_jpeg_of(d) matches Some(j) ==> {
            &&& j.len() > 128
            &&& j[0] == 0xff && j[1] == 0xd8 && j[2] == 0xff
            &&& j[j.len() - 2] == 0xff && j[j.len() - 1] == 0xd9
            &&& exists|i: int|
                0 <= i && i + j.len() <= d.len() && #[trigger] d.subrange(i, i + j.len()) == j
            &&& forall|k: int| 0 <= k < segments(d, 0).len() ==> (#[trigger] segments(d, 0)[k]).1
                <= j.len()
        },
{
    lemma_longest(None, segments(d, 0));
    lemma_segments_whole(d, 0);
    if let Some(b) = longest_from(None, segments(d, 0)) {
        if b.1 > 128 {
            let k = choose|k: int| 0 <= k < segments(d, 0).len() && segments(d, 0)[k] == b;
            assert(segments(d, 0)[k] == b);
            let j = d.subrange(b.0, b.0 + b.1);
            assert(j.len() == b.1);
            assert(j[0] == d[b.0]);
            assert(j[1] == d[b.0 + 1]);
            assert(j[2] == d[b.0 + 2]);
            assert(j[j.len() - 2] == d[b.0 + b.1 - 2]);
            assert(j[j.len() - 1] == d[b.0 + b.1 - 1]);
            assert(d.subrange(b.0, b.0 + j.len()) == j);
        }
    }
}

/// Offset just past the first end-of-image marker in `data[from..]`,
/// searching from two bytes in, relative to `from`.
pub fn find_eoi(data: &[u8], from: usize) -> (r: Option<usize>)
    requires
        from <= data@.len(),
    ensures
        r matches Some(e) ==> segment_len(data@, from as int) == Some(e as int),
        r is None ==> segment_len(data@, from as int) is None,
{
    let n = data.len();
    if n - from < 2 {
        return None;
    }
    let mut i: usize = from + 2;
    while i < n - 1
        invariant
            n == data@.len(),
            from + 2 <= i <= n,
            first_eoi(data@, from + 2) == first_eoi(data@, i as int),
        decreases n - i,
    {
        if data[i] == 0xff && data[i + 1] == 0xd9 {
            return Some(i + 2 - from);
        }
        i = i + 1;
    }
    None
}

proof fn lemma_segment_bounds(d: Seq<u8>, i: int)
    requires
        0 <= i,
    ensures
        segment_len(d, i) matches Some(l) ==> 4 <= l && i + l <= d.len(),
{
    lemma_first_eoi_found(d, i + 2);
}

/// The largest JPEG payload inside a RAW or similar container, if it holds
/// more than 128 bytes.
pub fn largest_jpeg(data: &[u8]) -> (r: Option<Vec<u8>>)
    ensures
        r matches Some(v) ==> largest_jpeg_of(data@) == Some(v@),
        r is None ==> largest_jpeg_of(data@) is None,
{
    let n = data.len();
    let mut best: Option<(usize, usize)> = None;
    let mut i: usize = 0;
    while n >= 3 && i < n - 3
        invariant
            n == data@.len(),
            longest_from(None, segments(data@, 0)) == longest_from(
                match best {
                    Some(b) => Some((b.0 as int, b.1 as int)),
                    None => None,
                },
                segments(data@, i as int),
            ),
            best matches Some(b) ==> b.0 + b.1 <= n,
        decreases n - i,
    {
        let ghost gbest = match best {
            Some(b) => Some((b.0 as int, b.1 as int)),
            None => None::<(int, int)>,
        };
        if data[i] == 0xff && data[i + 1] == 0xd8 && data[i + 2] == 0xff {
            match find_eoi(data, i) {
                Some(end) => {
                    proof {
                        lemma_segment_bounds(data@, i as int);
                        let s = segments(data@, i as int);
                        let rest = segments(data@, i + end);
                        assert(s == seq![(i as int, end as int)] + rest);
                        assert(s.drop_first() =~= rest);
                    }
                    let replace = match best {
                        Some(b) => end > b.1,
                        None => true,
                    };
                    if replace {
                        best = Some((i, end));
                    }
                    i = i + end;
                    continue;
                },
                None => {},
            }
        }
        i = i + 1;
    }
    proof {
        assert(segments(data@, i as int) =~= Seq::<(int, int)>::empty());
    }
    match best {
        Some(b) => {
            if b.1 > 128 {
                let mut out: Vec<u8> = Vec::new();
                let mut k: usize = b.0;
                while k < b.0 + b.1
                    invariant
                        b.0 + b.1 <= n,
                        n == data@.len(),
                        b.0 <= k <= b.0 + b.1,
                        out@ =~= data@.subrange(b.0 as int, k as int),
                    decreases b.0 + b.1 - k,
                {
                    out.push(data[k]);
                    k = k + 1;
                }
                Some(out)
            } else {
                None
            }
        },
        None => None,
    }
}

/// Whether `image::load_from_memory` decodes these bytes.
pub uninterp spec fn decodes(data: Seq<u8>) -> bool;

/// Whether the bytes decode in the format that the file extension names,
/// as `image::open` reads a file.
pub uninterp spec fn decodes_as(data: Seq<u8>, ext: Seq<char>) -> bool;

/// What decoding `data` in the format `ext` names and writing it scaled to
/// fit `max_edge` as JPEG gives: nothing when the bytes do not decode,
/// `Some(None)` when the encoder fails.
pub uninterp spec fn named_thumbnail(data: Seq<u8>, ext: Seq<char>, max_edge: u32) -> Option<
    Option<Seq<u8>>,
>;

/// The same, with the format guessed from the bytes.
pub uninterp spec fn guessed_thumbnail(data: Seq<u8>, max_edge: u32) -> Option<Option<Seq<u8>>>;

/// What decoding `data` in the format `ext` names and writing it whole as
/// JPEG gives; for an animated file the first frame.
pub uninterp spec fn named_frame(data: Seq<u8>, ext: Seq<char>) -> Option<Option<Seq<u8>>>;

/// The view of an outcome: `None` when nothing decoded, `Some(None)` when
/// the encoder failed, else the bytes.
pub open spec fn outcome_view(o: Option<Option<Vec<u8>>>) -> Option<Option<Seq<u8>>> {
    match o {
        Some(Some(b)) => Some(Some(b@)),
        Some(None) => Some(None),
        None => None,
    }
}

pub open spec fn bytes_view(o: Option<Vec<u8>>) -> Option<Seq<u8>> {
    match o {
        Some(b) => Some(b@),
        None => None,
    }
}

/// The bytes of an outcome, when there are some.
pub open spec fn written(o: Option<Option<Seq<u8>>>) -> Option<Seq<u8>> {
    match o {
        Some(Some(b)) => Some(b),
        _ => None,
    }
}

/// Decodes `data` in the format `ext` names (`ImageFormat::from_extension`,
/// `load_from_memory_with_format`, which is how `image::open` reads a file),
/// then scales it to fit `max_edge` and writes it as JPEG (`thumbnail`,
/// `to_rgb8`, `write_to`). The outcome depends on its arguments alone; it
/// decodes exactly when `decodes_as` says so. `thumbnail` gives each side
/// between 1 and `max_edge` (1 when `max_edge` is 0), and the JPEG encoder
/// refuses only sides outside 1..=65535, so up to that edge the encoding
/// succeeds. What the encoder writes (`encode_image`) starts with the
/// start-of-image marker, then the JFIF segment and the frame header with
/// the height and the width, and ends with the end-of-image marker; nothing
/// more is claimed of the bytes, which depend on the decoded pixels.
#[verifier::external_body]
fn thumb_as(data: &[u8], ext: &str, max_edge: u32) -> (r: Option<Option<Vec<u8>>>)
    ensures
        outcome_view(r) == named_thumbnail(data@, ext@, max_edge),
        r is Some <==> decodes_as(data@, ext@),
        r matches Some(Some(b)) ==> jpeg_framed(b@) && fits_within(b@, max_edge),
        max_edge <= 65535 && r is Some ==> r matches Some(Some(_)),
{
    let format = image::ImageFormat::from_extension(ext)?;
    let img = image::load_from_memory_with_format(data, format).ok()?;
    let mut bytes = Vec::new();
    let thumb = img.thumbnail(max_edge, max_edge).to_rgb8();
    match thumb.write_to(&mut std::io::Cursor::new(&mut bytes), image::ImageFormat::Jpeg) {
        Ok(()) => Some(Some(bytes)),
        Err(_) => Some(None),
    }
}

/// Decodes `data`, guessing the format from the bytes
/// (`image::load_from_memory`), then scales and writes it as JPEG as
/// `thumb_as` does.
#[verifier::external_body]
fn thumb_guessed(data: &[u8], max_edge: u32) -> (r: Option<Option<Vec<u8>>>)
    ensures
        outcome_view(r) == guessed_thumbnail(data@, max_edge),
        r is Some <==> decodes(data@),
        r matches Some(Some(b)) ==> jpeg_framed(b@) && fits_within(b@, max_edge),
        max_edge <= 65535 && r is Some ==> r matches Some(Some(_)),
{
    let img = image::load_from_memory(data).ok()?;
    let mut bytes = Vec::new();
    let thumb = img.thumbnail(max_edge, max_edge).to_rgb8();
    match thumb.write_to(&mut std::io::Cursor::new(&mut bytes), image::ImageFormat::Jpeg) {
        Ok(()) => Some(Some(bytes)),
        Err(_) => Some(None),
    }
}

/// Decodes `data` in the format `ext` names, as `thumb_as` does, and writes
/// it whole as JPEG (`to_rgb8`, `write_to`). The encoder refuses sides
/// outside 1..=65535, so the frame header it writes states sides in that
/// range; the decoded size is not visible here, so success is not claimed.
#[verifier::external_body]
fn frame_as(data: &[u8], ext: &str) -> (r: Option<Option<Vec<u8>>>)
    ensures
        outcome_view(r) == named_frame(data@, ext@),
        r is Some <==> decodes_as(data@, ext@),
        r matches Some(Some(b)) ==> jpeg_framed(b@) && fits_within(b@, 65535),
{
    let format = image::ImageFormat::from_extension(ext)?;
    let img = image::load_from_memory_with_format(data, format).ok()?;
    let mut bytes = Vec::new();
    match img.to_rgb8().write_to(&mut std::io::Cursor::new(&mut bytes), image::ImageFormat::Jpeg) {
        Ok(()) => Some(Some(bytes)),
        Err(_) => Some(None),
    }
}

/// The bytes of a decode-and-encode outcome, when it has some.
pub fn written_bytes(out: Option<Option<Vec<u8>>>) -> (r: Option<Vec<u8>>)
    ensures
        bytes_view(r) == written(outcome_view(out)),
{
    match out {
        Some(Some(b)) => Some(b),
        _ => None,
    }
}

/// The first frame of a file whose extension is `ext` (an animated GIF or
/// WebP shows it while paused), as a JPEG at full size.
pub fn first_frame_jpeg(data: &[u8], ext: &str) -> (r: Option<Vec<u8>>)
    ensures
        bytes_view(r) == written(named_frame(data@, ext@)),
        !decodes_as(data@, ext@) ==> r is None,
        r matches Some(b) ==> jpeg_framed(b@) && fits_within(b@, 65535),
{
    written_bytes(frame_as(data, ext))
}

/// A downscaled JPEG of the largest preview embedded in `data`.
pub fn embedded_preview(data: &[u8], max_edge: u32) -> (r: Option<Vec<u8>>)
    ensures
        bytes_view(r) == (match largest_jpeg_of(data@) {
            Some(j) => written(guessed_thumbnail(j, max_edge)),
            None => None,
        }),
        largest_jpeg_of(data@) is None ==> r is None,
        largest_jpeg_of(data@) matches Some(j) && !decodes(j) ==> r is None,
        (largest_jpeg_of(data@) matches Some(j) && decodes(j)) && max_edge <= 65535 ==> r is Some,
        r matches Some(b) ==> jpeg_framed(b@) && fits_within(b@, max_edge),
{
    match largest_jpeg(data) {
        Some(bytes) => written_bytes(thumb_guessed(bytes.as_slice(), max_edge)),
        None => None,
    }
}

/// A downscaled JPEG of encoded picture bytes, such as the system's own
/// preview tools write.
pub fn reencode(data: &[u8], max_edge: u32) -> (r: Option<Vec<u8>>)
    ensures
        bytes_view(r) == written(guessed_thumbnail(data@, max_edge)),
        !decodes(data@) ==> r is None,
        decodes(data@) && max_edge <= 65535 ==> r is Some,
        r matches Some(b) ==> jpeg_framed(b@) && fits_within(b@, max_edge),
{
    written_bytes(thumb_guessed(data, max_edge))
}

/// What making a preview of a file's bytes came to.
#[derive(Debug, PartialEq, Eq)]
pub enum Preview {
    /// The downscaled JPEG.
    Jpeg(Vec<u8>),
    /// The picture decoded but the encoder wrote nothing.
    Failed,
    /// Neither the file nor a preview inside it decodes; the system's own
    /// tools may still manage.
    Undecodable,
}

/// What a decode-and-encode outcome comes to as a preview, when something
/// decoded.
pub open spec fn preview_of(o: Option<Seq<u8>>, r: Preview) -> bool {
    match o {
        Some(b) => r matches Preview::Jpeg(x) && x@ == b,
        None => r is Failed,
    }
}

/// The preview from the outcomes for the file itself and for the JPEG
/// embedded in it: the file's when it decoded, else the embedded one's,
/// else none decodes.
pub fn settle_preview(own: Option<Option<Vec<u8>>>, embedded: Option<Option<Vec<u8>>>) -> (r: Preview)
    ensures
        outcome_view(own) matches Some(o) ==> preview_of(o, r),
        own is None ==> (match outcome_view(embedded) {
            Some(o) => preview_of(o, r),
            None => r is Undecodable,
        }),
{
    match own {
        Some(Some(b)) => Preview::Jpeg(b),
        Some(None) => Preview::Failed,
        None => match embedded {
            Some(Some(b)) => Preview::Jpeg(b),
            Some(None) => Preview::Failed,
            None => Preview::Undecodable,
        },
    }
}

/// The bytes of a file whose extension is `ext`, downscaled to fit
/// `max_edge` and written as JPEG: the picture itself when it decodes,
/// else the largest JPEG embedded in it (a RAW file's preview).
pub fn preview_jpeg(data: &[u8], ext: &str, max_edge: u32) -> (r: Preview)
    ensures
        named_thumbnail(data@, ext@, max_edge) matches Some(o) ==> preview_of(o, r),
        named_thumbnail(data@, ext@, max_edge) is None ==> (match largest_jpeg_of(data@) {
            Some(j) => match guessed_thumbnail(j, max_edge) {
                Some(o) => preview_of(o, r),
                None => r is Undecodable,
            },
            None => r is Undecodable,
        }),
        r matches Preview::Jpeg(b) ==> jpeg_framed(b@) && fits_within(b@, max_edge),
        decodes_as(data@, ext@) && max_edge <= 65535 ==> r is Jpeg,
        r is Undecodable <==> (!decodes_as(data@, ext@) && match largest_jpeg_of(data@) {
            Some(j) => !decodes(j),
            None => true,
        }),
{
    let own = thumb_as(data, ext, max_edge);
    let embedded = if own.is_none() {
        match largest_jpeg(data) {
            Some(bytes) => thumb_guessed(bytes.as_slice(), max_edge),
            None => None,
        }
    } else {
        None
    };
    settle_preview(own, embedded)
}

} // verus!
