//! Detection and removal of an image wrapper (a PNG or JPEG header placed in
//! front of a video transport stream).

use vstd::prelude::*;
use crate::text::{to_owned_string, push_signed_decimal, signed_decimal};

verus! {

/// The eight bytes that open a PNG file.
pub open spec fn png_magic() -> Seq<u8> {
    seq![0x89u8, 0x50u8, 0x4eu8, 0x47u8, 0x0du8, 0x0au8, 0x1au8, 0x0au8]
}

/// The three bytes that open a JPEG file.
pub open spec fn jpeg_magic() -> Seq<u8> {
    seq![0xffu8, 0xd8u8, 0xffu8]
}

/// A PNG signature starts at byte `i` of `d`.
pub open spec fn png_at(d: Seq<u8>, i: int) -> bool {
    0 <= i && i + 8 <= d.len() && d.subrange(i, i + 8) == png_magic()
}

/// A JPEG signature starts at byte `i` of `d`.
pub open spec fn jpeg_at(d: Seq<u8>, i: int) -> bool {
    0 <= i && i + 3 <= d.len() && d.subrange(i, i + 3) == jpeg_magic()
}

/// An image signature starts at byte `i` of `d`.
pub open spec fn marker_at(d: Seq<u8>, i: int) -> bool {
    png_at(d, i) || jpeg_at(d, i)
}

/// The length of the image signature at byte `i` (the two kinds cannot start
/// at the same byte: their first bytes differ).
pub open spec fn marker_len(d: Seq<u8>, i: int) -> int {
    if png_at(d, i) {
        8
    } else {
        3
    }
}

/// The video stream may start at byte `j`: an `ID3` tag or a transport
/// stream sync byte (`0x47`), with at least three bytes left.
pub open spec fn video_at(d: Seq<u8>, j: int) -> bool {
    0 <= j && j + 3 <= d.len() && (d.subrange(j, j + 3) == seq![0x49u8, 0x44u8, 0x33u8] || d[j]
        == 0x47u8)
}

/// The first byte at or after `i` where an image signature starts.
pub open spec fn find_marker(d: Seq<u8>, i: int) -> Option<int>
    decreases d.len() - i,
{
    if i < 0 || i + 3 > d.len() {
        None
    } else if marker_at(d, i) {
        Some(i)
    } else {
        find_marker(d, i + 1)
    }
}

/// The first byte at or after `j` where the video stream may start.
pub open spec fn find_video(d: Seq<u8>, j: int) -> Option<int>
    decreases d.len() - j,
{
    if j < 0 || j + 3 > d.len() {
        None
    } else if video_at(d, j) {
        Some(j)
    } else {
        find_video(d, j + 1)
    }
}

/// The stream with its image wrapper cut out: what precedes the first image
/// signature, followed by everything from the first video start after that
/// signature. `None` when there is no signature, or no video start after it.
pub open spec fn unmasked(d: Seq<u8>) -> Option<Seq<u8>> {
    match find_marker(d, 0) {
        None => None,
        Some(p) => match find_video(d, p + marker_len(d, p)) {
            None => None,
            Some(v) => Some(d.subrange(0, p) + d.subrange(v, d.len() as int)),
        },
    }
}

/// The first bytes of a file announce an image: a PNG or a JPEG signature.
pub open spec fn masked_header(h: Seq<u8>) -> bool {
    h.len() >= 4 && (h.subrange(0, 4) == seq![0x89u8, 0x50u8, 0x4eu8, 0x47u8]
        || h.subrange(0, 3) == jpeg_magic())
}

/// Decides whether a file whose first bytes are `header` is wrapped in an
/// image; a file shorter than four bytes is not.
pub fn is_masked_header(header: &[u8]) -> (r: bool)
    ensures
        r == masked_header(header@),
{
    if header.len() < 4 {
        return false;
    }
    let png = header[0] == 0x89 && header[1] == 0x50 && header[2] == 0x4e && header[3] == 0x47;
    let jpg = header[0] == 0xff && header[1] == 0xd8 && header[2] == 0xff;
    assert(png == (header@.subrange(0, 4) =~= seq![0x89u8, 0x50u8, 0x4eu8, 0x47u8]));
    assert(jpg == (header@.subrange(0, 3) =~= jpeg_magic()));
    png || jpg
}

fn png_at_exec(d: &[u8], i: usize) -> (r: bool)
    requires
        i + 8 <= d@.len(),
    ensures
        r == png_at(d@, i as int),
{
    let r = d[i] == 0x89 && d[i + 1] == 0x50 && d[i + 2] == 0x4e && d[i + 3] == 0x47 && d[i + 4]
        == 0x0d && d[i + 5] == 0x0a && d[i + 6] == 0x1a && d[i + 7] == 0x0a;
    assert(r == (d@.subrange(i as int, i + 8) =~= png_magic()));
    r
}

fn jpeg_at_exec(d: &[u8], i: usize) -> (r: bool)
    requires
        i + 3 <= d@.len(),
    ensures
        r == jpeg_at(d@, i as int),
{
    let r = d[i] == 0xff && d[i + 1] == 0xd8 && d[i + 2] == 0xff;
    assert(r == (d@.subrange(i as int, i + 3) =~= jpeg_magic()));
    r
}

fn video_at_exec(d: &[u8], j: usize) -> (r: bool)
    requires
        j + 3 <= d@.len(),
    ensures
        r == video_at(d@, j as int),
{
    let id3 = d[j] == 0x49 && d[j + 1] == 0x44 && d[j + 2] == 0x33;
    assert(id3 == (d@.subrange(j as int, j + 3) =~= seq![0x49u8, 0x44u8, 0x33u8]));
    id3 || d[j] == 0x47
}

/// `find_marker` gives the first byte at or after `i` where an image
/// signature starts, and `None` only when no signature starts there.
pub proof fn lemma_find_marker(d: Seq<u8>, i: int)
    requires
        0 <= i,
    ensures
        match find_marker(d, i) {
            Some(p) => i <= p && marker_at(d, p) && p + marker_len(d, p) <= d.len() && forall|k: int|
                i <= k < p ==> !marker_at(d, k),
            None => forall|k: int| i <= k ==> !marker_at(d, k),
        },
    decreases d.len() - i,
{
    if i + 3 > d.len() {
    } else if marker_at(d, i) {
    } else {
        lemma_find_marker(d, i + 1);
    }
}

/// `find_video` gives the first byte at or after `j` where the video may
/// start, and `None` only when it can start nowhere there.
pub proof fn lemma_find_video(d: Seq<u8>, j: int)
    requires
        0 <= j,
    ensures
        match find_video(d, j) {
            Some(v) => j <= v && video_at(d, v) && forall|k: int| j <= k < v ==> !video_at(d, k),
            None => forall|k: int| j <= k ==> !video_at(d, k),
        },
    decreases d.len() - j,
{
    if j + 3 > d.len() {
    } else if video_at(d, j) {
    } else {
        lemma_find_video(d, j + 1);
    }
}

/// Finds the first image signature at or after byte `start`, with its length.
fn scan_marker(d: &[u8], start: usize) -> (r: Option<(usize, usize)>)
    ensures
        match r {
            Some((p, len)) => find_marker(d@, start as int) == Some(p as int) && len == marker_len(
                d@,
                p as int,
            ) && p + len <= d@.len(),
            None => find_marker(d@, start as int) is None,
        },
{
    let n = d.len();
    let mut i = start;
    if i > n {
        return None;
    }
    while n - i >= 3
        invariant
            n == d@.len(),
            start <= i <= n,
            find_marker(d@, start as int) == find_marker(d@, i as int),
        decreases n - i,
    {
        let png = n - i >= 8 && png_at_exec(d, i);
        if png {
            proof { lemma_find_marker(d@, start as int); }
            return Some((i, 8));
        }
        if jpeg_at_exec(d, i) {
            proof { lemma_find_marker(d@, start as int); }
            return Some((i, 3));
        }
        i = i + 1;
    }
    None
}

/// Finds the first video start at or after byte `start`.
fn scan_video(d: &[u8], start: usize) -> (r: Option<usize>)
    ensures
        match r {
            Some(v) => find_video(d@, start as int) == Some(v as int) && start <= v <= d@.len(),
            None => find_video(d@, start as int) is None,
        },
{
    let n = d.len();
    let mut j = start;
    if j > n {
        return None;
    }
    while n - j >= 3
        invariant
            n == d@.len(),
            start <= j <= n,
            find_video(d@, start as int) == find_video(d@, j as int),
        decreases n - j,
    {
        if video_at_exec(d, j) {
            return Some(j);
        }
        j = j + 1;
    }
    None
}

/// Cuts the image wrapper out of a downloaded stream: keeps the bytes before
/// the first image signature and the bytes from the first video start after
/// it on. `None` means the stream is to be kept as it is.
pub fn unmask_payload(data: &[u8]) -> (r: Option<Vec<u8>>)
    ensures
        match r {
            Some(out) => unmasked(data@) == Some(out@),
            None => unmasked(data@) is None,
        },
{
    let n = data.len();
    match scan_marker(data, 0) {
        None => None,
        Some((p, len)) => {
            match scan_video(data, p + len) {
                None => None,
                Some(v) => {
                    let mut out: Vec<u8> = Vec::new();
                    let mut k: usize = 0;
                    while k < p
                        invariant
                            p + len <= data@.len(),
                            k <= p,
                            out@ == data@.subrange(0, k as int),
                        decreases p - k,
                    {
                        out.push(data[k]);
                        k = k + 1;
                        assert(out@ =~= data@.subrange(0, k as int));
                    }
                    let mut m: usize = v;
                    while m < data.len()
                        invariant
                            p <= v <= m <= data@.len(),
                            out@ == data@.subrange(0, p as int) + data@.subrange(v as int, m as int),
                        decreases data@.len() - m,
                    {
                        out.push(data[m]);
                        m = m + 1;
                        assert(out@ =~= data@.subrange(0, p as int) + data@.subrange(
                            v as int,
                            m as int,
                        ));
                    }
                    Some(out)
                },
            }
        },
    }
}

/// Cutting the wrapper out keeps what preceded the image signature,
/// resumes at a video start after it, and drops at least the signature's
/// three bytes.
pub proof fn lemma_unmasked_shape(d: Seq<u8>)
    requires
        unmasked(d) is Some,
    ensures
        ({
            let p = find_marker(d, 0)->0;
            let out = unmasked(d)->0;
            &&& marker_at(d, p)
            &&& forall|k: int| 0 <= k < p ==> !marker_at(d, k)
            &&& out.subrange(0, p) == d.subrange(0, p)
            &&& out.len() + 3 <= d.len()
            &&& exists|v: int|
                p + marker_len(d, p) <= v && video_at(d, v) && out.subrange(p, out.len() as int)
                    == d.subrange(v, d.len() as int)
        }),
{
    lemma_find_marker(d, 0);
    let p = find_marker(d, 0)->0;
    lemma_find_video(d, p + marker_len(d, p));
    let v = find_video(d, p + marker_len(d, p))->0;
    let out = unmasked(d)->0;
    assert(out.subrange(0, p) =~= d.subrange(0, p));
    assert(out.subrange(p, out.len() as int) =~= d.subrange(v, d.len() as int));
}

/// Where the stripped stream is written before it is remuxed: `<output>.tmp.ts`.
pub fn unmask_temp_path(output: &str) -> (r: String)
    ensures
        r@ == output@ + ".tmp.ts"@,
{
    let mut r = to_owned_string(output);
    r.append(".tmp.ts");
    r
}

/// Where an unmasked copy of a download is written: `<path>.unmasked.mp4`.
pub fn unmasked_path(path: &str) -> (r: String)
    ensures
        r@ == path@ + ".unmasked.mp4"@,
{
    let mut r = to_owned_string(path);
    r.append(".unmasked.mp4");
    r
}

/// The shell command that remuxes the stripped stream into an MP4 file.
pub fn remux_command(input: &str, output: &str) -> (r: String)
    ensures
        r@ == "ffmpeg -y -i \""@ + input@ + "\" -c copy -bsf:a aac_adtstoasc -movflags +faststart \""@
            + output@ + "\""@,
{
    let mut r = String::from_str("ffmpeg -y -i \"");
    r.append(input);
    r.append("\" -c copy -bsf:a aac_adtstoasc -movflags +faststart \"");
    r.append(output);
    r.append("\"");
    r
}

/// The shell command that remuxes the stripped stream between open file
/// descriptors.
pub fn remux_command_fd(in_fd: i32, out_fd: i32) -> (r: String)
    ensures
        r@ == "ffmpeg -y -i \"/dev/fd/"@ + signed_decimal(in_fd as int)
            + "\" -c copy -bsf:a aac_adtstoasc -movflags +faststart \"/dev/fd/"@ + signed_decimal(
            out_fd as int,
        ) + "\""@,
{
    let mut r = String::from_str("ffmpeg -y -i \"/dev/fd/");
    push_signed_decimal(&mut r, in_fd);
    r.append("\" -c copy -bsf:a aac_adtstoasc -movflags +faststart \"/dev/fd/");
    push_signed_decimal(&mut r, out_fd);
    r.append("\"");
    r
}

} // verus!
