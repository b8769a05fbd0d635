//! Animated illustrations published as an archive of frames: the frame
//! timings a URL declares, and the APNG assembled from the frames.
use image::ImageEncoder;
use vstd::prelude::*;
use vstd::string::*;

use crate::error::NarouError;
use crate::text::{decimal, decimal_string, is_suffix};
use crate::text::{
    ends_with, lemma_text_le_total, lemma_text_le_transitive, text_le, text_le_exec,
    after_first, after_first_char, is_prefix, parse_u16, parse_u16_text, push_char, split_by_char,
    split_char, starts_with, string_of_range, to_chars, trim, trim_seq,
};

verus! {

/// The query parameter that carries the frame delays, in milliseconds.
pub const DELAY_PARAM: &'static str = "ugoira";

/// The value of the first `prefix…` pair, after the prefix.
pub open spec fn param_value(pairs: Seq<Seq<char>>, prefix: Seq<char>) -> Option<Seq<char>>
    decreases pairs.len(),
{
    if pairs.len() == 0 {
        None
    } else if is_prefix(prefix, pairs[0]) {
        Some(pairs[0].skip(prefix.len() as int))
    } else {
        param_value(pairs.drop_first(), prefix)
    }
}

/// The delays that parse among comma-separated parts, each trimmed.
pub open spec fn parsed_delays(parts: Seq<Seq<char>>) -> Seq<u16>
    decreases parts.len(),
{
    if parts.len() == 0 {
        Seq::empty()
    } else {
        let rest = parsed_delays(parts.drop_last());
        match parse_u16_text(trim_seq(parts.last())) {
            Some(d) => rest.push(d),
            None => rest,
        }
    }
}

/// The frame delays a URL declares: the `ugoira=` pair of its query, split at
/// commas, keeping the parts that are delays; none when no part is.
pub open spec fn frame_delays_of(url: Seq<char>) -> Option<Seq<u16>> {
    match after_first_char(url, '?') {
        None => None,
        Some(q) => match param_value(split_char(q, '&'), DELAY_PARAM@.push('=')) {
            None => None,
            Some(v) => {
                let d = parsed_delays(split_char(v, ','));
                if d.len() > 0 {
                    Some(d)
                } else {
                    None
                }
            },
        },
    }
}

pub open spec fn opt_delays(o: Option<Vec<u16>>) -> Option<Seq<u16>> {
    match o {
        Some(v) => Some(v@),
        None => None,
    }
}

/// The frame delays declared on an illustration URL, if any.
pub fn frame_delays(url: &str) -> (r: Option<Vec<u16>>)
    ensures
        opt_delays(r) == frame_delays_of(url@),
{
    let query = match after_first(url, '?') {
        Some(q) => q,
        None => {
            return None;
        },
    };
    let pairs = split_by_char(query.as_str(), '&');
    let ghost pv = pairs@.map_values(|p: String| p@);
    let mut prefix = DELAY_PARAM.to_owned();
    push_char(&mut prefix, '=');
    let mut value: Option<String> = None;
    let mut i: usize = 0;
    assert(pv.skip(0) =~= pv);
    while i < pairs.len() && value.is_none()
        invariant
            i <= pairs@.len(),
            pv == pairs@.map_values(|p: String| p@),
            prefix@ == DELAY_PARAM@.push('='),
            value is None ==> param_value(pv, prefix@) == param_value(pv.skip(i as int), prefix@),
            value matches Some(v) ==> param_value(pv, prefix@) == Some(v@),
        decreases pairs@.len() - i,
    {
        assert(pv.skip(i as int)[0] == pairs@[i as int]@);
        if starts_with(pairs[i].as_str(), prefix.as_str()) {
            let chars = to_chars(pairs[i].as_str());
            let n = prefix.as_str().unicode_len();
            let rest = string_of_range(&chars, n, chars.len());
            assert(rest@ =~= pairs@[i as int]@.skip(prefix@.len() as int));
            value = Some(rest);
            i = i + 1;
        } else {
            assert(pv.skip(i as int).drop_first() =~= pv.skip(i + 1));
            i = i + 1;
        }
    }
    assert(value is None ==> pv.skip(i as int).len() == 0);
    let value = match value {
        Some(v) => v,
        None => {
            return None;
        },
    };
    let parts = split_by_char(value.as_str(), ',');
    let ghost partv = parts@.map_values(|p: String| p@);
    let mut delays: Vec<u16> = Vec::new();
    let mut k: usize = 0;
    while k < parts.len()
        invariant
            k <= parts@.len(),
            partv == parts@.map_values(|p: String| p@),
            delays@ == parsed_delays(partv.take(k as int)),
        decreases parts@.len() - k,
    {
        assert(partv.take(k + 1).drop_last() =~= partv.take(k as int));
        assert(partv.take(k + 1).last() == parts@[k as int]@);
        let t = trim(parts[k].as_str());
        match parse_u16(t.as_str()) {
            Some(d) => {
                delays.push(d);
            },
            None => {},
        }
        k = k + 1;
    }
    assert(partv.take(parts@.len() as int) =~= partv);
    if delays.len() > 0 {
        Some(delays)
    } else {
        None
    }
}

/// Whether `bytes` start like a ZIP archive (a local file header, or the
/// end record of an empty archive).
pub open spec fn looks_like_zip(bytes: Seq<u8>) -> bool {
    bytes.len() >= 4 && bytes[0] == 0x50 && bytes[1] == 0x4b && ((bytes[2] == 3 && bytes[3] == 4)
        || (bytes[2] == 5 && bytes[3] == 6))
}

/// Whether `bytes` start like a ZIP archive.
pub fn is_zip(bytes: &[u8]) -> (b: bool)
    ensures
        b == looks_like_zip(bytes@),
{
    bytes.len() >= 4 && bytes[0] == 0x50 && bytes[1] == 0x4b && ((bytes[2] == 3 && bytes[3] == 4)
        || (bytes[2] == 5 && bytes[3] == 6))
}

/// The four big-endian bytes of `x`.
pub open spec fn be32(x: u32) -> Seq<u8> {
    seq![(x / 16777216) as u8, ((x / 65536) % 256) as u8, ((x / 256) % 256) as u8, (x % 256) as u8]
}

/// The two big-endian bytes of `x`.
pub open spec fn be16(x: u16) -> Seq<u8> {
    seq![(x / 256) as u8, (x % 256) as u8]
}

/// The number the four big-endian bytes of `s` at `at` write.
pub open spec fn be32_at(s: Seq<u8>, at: int) -> int {
    s[at] * 16777216 + s[at + 1] * 65536 + s[at + 2] * 256 + s[at + 3]
}

fn push_be32(out: &mut Vec<u8>, x: u32)
    ensures
        final(out)@ == old(out)@ + be32(x),
{
    let ghost start = out@;
    out.push((x / 16777216) as u8);
    out.push(((x / 65536) % 256) as u8);
    out.push(((x / 256) % 256) as u8);
    out.push((x % 256) as u8);
    assert(out@ =~= start + be32(x));
}

fn push_be16(out: &mut Vec<u8>, x: u16)
    ensures
        final(out)@ == old(out)@ + be16(x),
{
    let ghost start = out@;
    out.push((x / 256) as u8);
    out.push((x % 256) as u8);
    assert(out@ =~= start + be16(x));
}

fn push_all(out: &mut Vec<u8>, bytes: &[u8])
    ensures
        final(out)@ == old(out)@ + bytes@,
{
    let ghost start = out@;
    let mut i: usize = 0;
    while i < bytes.len()
        invariant
            i <= bytes@.len(),
            out@ == start + bytes@.take(i as int),
        decreases bytes@.len() - i,
    {
        out.push(bytes[i]);
        i = i + 1;
        assert(out@ =~= start + bytes@.take(i as int));
    }
    assert(bytes@.take(bytes@.len() as int) =~= bytes@);
}

fn push_range(out: &mut Vec<u8>, bytes: &[u8], lo: usize, hi: usize)
    requires
        lo <= hi <= bytes@.len(),
    ensures
        final(out)@ == old(out)@ + bytes@.subrange(lo as int, hi as int),
{
    let ghost start = out@;
    let mut i: usize = lo;
    while i < hi
        invariant
            lo <= i <= hi <= bytes@.len(),
            out@ == start + bytes@.subrange(lo as int, i as int),
        decreases hi - i,
    {
        out.push(bytes[i]);
        i = i + 1;
        assert(out@ =~= start + bytes@.subrange(lo as int, i as int));
    }
}

/// The CRC-32 (IEEE) of `bytes`.
pub uninterp spec fn crc32_of(bytes: Seq<u8>) -> u32;

/// The CRC-32 of `bytes`: `crc32fast::hash`.
#[verifier::external_body]
fn crc32(bytes: &[u8]) -> (r: u32)
    ensures
        r == crc32_of(bytes@),
{
    crc32fast::hash(bytes)
}

/// A PNG chunk: the payload's length, the kind, the payload and the CRC of
/// kind and payload.
pub open spec fn png_chunk_bytes(kind: Seq<u8>, payload: Seq<u8>) -> Seq<u8> {
    be32(payload.len() as u32) + kind + payload + be32(crc32_of(kind + payload))
}

/// Appends a PNG chunk to `out`.
fn write_png_chunk(out: &mut Vec<u8>, kind: &[u8; 4], payload: &[u8])
    ensures
        final(out)@ == old(out)@ + png_chunk_bytes(kind@, payload@),
{
    let ghost start = out@;
    push_be32(out, payload.len() as u32);
    push_all(out, kind.as_slice());
    push_all(out, payload);
    let mut covered: Vec<u8> = Vec::new();
    push_all(&mut covered, kind.as_slice());
    push_all(&mut covered, payload);
    assert(covered@ =~= kind@ + payload@);
    push_be32(out, crc32(covered.as_slice()));
    assert(out@ =~= start + png_chunk_bytes(kind@, payload@));
}

/// A PNG chunk.
pub fn png_chunk(kind: &[u8; 4], payload: &[u8]) -> (r: Vec<u8>)
    ensures
        r@ == png_chunk_bytes(kind@, payload@),
{
    let mut chunk: Vec<u8> = Vec::new();
    write_png_chunk(&mut chunk, kind, payload);
    assert(chunk@ =~= png_chunk_bytes(kind@, payload@));
    chunk
}

/// The payload of an APNG frame control chunk: sequence number, size, no
/// offset, the delay in milliseconds, no disposal and no blending.
pub open spec fn fctl_payload(sequence: u32, width: u32, height: u32, delay_ms: u16) -> Seq<u8> {
    be32(sequence) + be32(width) + be32(height) + be32(0) + be32(0) + be16(delay_ms) + be16(1000)
        + seq![0u8, 0u8]
}

/// The payload of an APNG frame control chunk.
pub fn frame_control_payload(sequence: u32, width: u32, height: u32, delay_ms: u16) -> (r: Vec<u8>)
    ensures
        r@ == fctl_payload(sequence, width, height, delay_ms),
{
    let mut payload: Vec<u8> = Vec::new();
    push_be32(&mut payload, sequence);
    push_be32(&mut payload, width);
    push_be32(&mut payload, height);
    push_be32(&mut payload, 0);
    push_be32(&mut payload, 0);
    push_be16(&mut payload, delay_ms);
    push_be16(&mut payload, 1000);
    payload.push(0);
    payload.push(0);
    assert(payload@ =~= fctl_payload(sequence, width, height, delay_ms));
    payload
}

/// The delay of frame `index`: the declared one, or the last declared when
/// there are fewer delays than frames.
pub open spec fn delay_for(delays: Seq<u16>, index: int) -> u16 {
    if 0 <= index < delays.len() {
        delays[index]
    } else {
        delays.last()
    }
}

/// The delay of frame `index`.
pub fn delay_at(delays: &[u16], index: usize) -> (r: u16)
    requires
        delays@.len() > 0,
    ensures
        r == delay_for(delays@, index as int),
{
    if index < delays.len() {
        delays[index]
    } else {
        delays[delays.len() - 1]
    }
}

/// The whole chunks of a PNG from `cursor` on, as (kind, payload start,
/// payload end), until one would run past the end.
pub open spec fn png_chunks_from(png: Seq<u8>, cursor: int) -> Seq<(Seq<u8>, int, int)>
    decreases png.len() - cursor,
{
    if cursor < 0 || cursor + 8 > png.len() {
        Seq::empty()
    } else {
        let start = cursor + 8;
        let end = start + be32_at(png, cursor);
        if end > png.len() {
            Seq::empty()
        } else {
            let here = seq![(png.subrange(cursor + 4, cursor + 8), start, end)];
            if end + 4 > png.len() {
                here
            } else {
                here + png_chunks_from(png, end + 4)
            }
        }
    }
}

/// The payload range of the last chunk of `kind`.
pub open spec fn last_of_kind(chunks: Seq<(Seq<u8>, int, int)>, kind: Seq<u8>) -> Option<(int, int)>
    decreases chunks.len(),
{
    if chunks.len() == 0 {
        None
    } else if chunks.last().0 == kind {
        Some((chunks.last().1, chunks.last().2))
    } else {
        last_of_kind(chunks.drop_last(), kind)
    }
}

/// The payload ranges of the chunks of `kind`, in order.
pub open spec fn all_of_kind(chunks: Seq<(Seq<u8>, int, int)>, kind: Seq<u8>) -> Seq<(int, int)>
    decreases chunks.len(),
{
    if chunks.len() == 0 {
        Seq::empty()
    } else {
        let rest = all_of_kind(chunks.drop_last(), kind);
        if chunks.last().0 == kind {
            rest.push((chunks.last().1, chunks.last().2))
        } else {
            rest
        }
    }
}

/// The header and image data payload ranges of an encoded PNG: the last
/// `IHDR` chunk and every `IDAT` chunk after the signature.
pub open spec fn png_payloads_of(png: Seq<u8>) -> Option<((int, int), Seq<(int, int)>)> {
    let chunks = png_chunks_from(png, 8);
    match last_of_kind(chunks, seq![73u8, 72u8, 68u8, 82u8]) {
        None => None,
        Some(ihdr) => {
            let idat = all_of_kind(chunks, seq![73u8, 68u8, 65u8, 84u8]);
            if idat.len() == 0 {
                None
            } else {
                Some((ihdr, idat))
            }
        },
    }
}

/// Each range lies within the first `n` bytes.
pub open spec fn valid_ranges(v: Seq<(usize, usize)>, n: nat) -> bool {
    forall|i: int| 0 <= i < v.len() ==> (#[trigger] v[i]).0 <= v[i].1 <= n
}

pub open spec fn ranges_view(v: Seq<(usize, usize)>) -> Seq<(int, int)> {
    v.map_values(|r: (usize, usize)| (r.0 as int, r.1 as int))
}

fn be32_from(bytes: &[u8], at: usize) -> (r: u32)
    requires
        at + 4 <= bytes@.len(),
    ensures
        r as int == be32_at(bytes@, at as int),
{
    (bytes[at] as u32) * 16777216 + (bytes[at + 1] as u32) * 65536 + (bytes[at + 2] as u32) * 256
        + (bytes[at + 3] as u32)
}

fn is_kind(bytes: &[u8], at: usize, a: u8, b: u8, c: u8, d: u8) -> (r: bool)
    requires
        at + 4 <= bytes@.len(),
    ensures
        r == (bytes@.subrange(at as int, at + 4) == seq![a, b, c, d]),
{
    let r = bytes[at] == a && bytes[at + 1] == b && bytes[at + 2] == c && bytes[at + 3] == d;
    proof {
        if !r {
            if bytes@.subrange(at as int, at + 4) == seq![a, b, c, d] {
                assert(bytes@.subrange(at as int, at + 4)[0] == a);
                assert(bytes@.subrange(at as int, at + 4)[1] == b);
                assert(bytes@.subrange(at as int, at + 4)[2] == c);
                assert(bytes@.subrange(at as int, at + 4)[3] == d);
            }
        } else {
            assert(bytes@.subrange(at as int, at + 4) =~= seq![a, b, c, d]);
        }
    }
    r
}

proof fn lemma_kinds_append(
    chunks: Seq<(Seq<u8>, int, int)>,
    more: Seq<(Seq<u8>, int, int)>,
    kind: Seq<u8>,
)
    ensures
        all_of_kind(chunks + more, kind) == all_of_kind(chunks, kind) + all_of_kind(more, kind),
        last_of_kind(chunks + more, kind) == match last_of_kind(more, kind) {
            Some(r) => Some(r),
            None => last_of_kind(chunks, kind),
        },
    decreases more.len(),
{
    if more.len() == 0 {
        assert(chunks + more =~= chunks);
    } else {
        lemma_kinds_append(chunks, more.drop_last(), kind);
        assert((chunks + more).drop_last() =~= chunks + more.drop_last());
        assert((chunks + more).last() == more.last());
    }
}

/// The header and image data payload ranges of an encoded PNG.
pub fn png_payloads(png: &[u8]) -> (r: Result<((usize, usize), Vec<(usize, usize)>), NarouError>)
    ensures
        match r {
            Ok((ihdr, idat)) => png_payloads_of(png@) == Some(
                ((ihdr.0 as int, ihdr.1 as int), ranges_view(idat@)),
            ),
            Err(e) => png_payloads_of(png@) is None && e is Platform,
        },
        r matches Ok((ihdr, idat)) ==> ihdr.0 <= ihdr.1 <= png@.len() && valid_ranges(idat@, png@.len()),
{
    let ghost all = png_chunks_from(png@, 8);
    let ghost ihdr_kind = seq![73u8, 72u8, 68u8, 82u8];
    let ghost idat_kind = seq![73u8, 68u8, 65u8, 84u8];
    let mut cursor: usize = 8;
    let mut ihdr: Option<(usize, usize)> = None;
    let mut idat: Vec<(usize, usize)> = Vec::new();
    let ghost mut seen: Seq<(Seq<u8>, int, int)> = Seq::empty();
    let mut done = false;
    while !done && cursor <= png.len() && png.len() - cursor >= 8
        invariant
            8 <= cursor,
            !done ==> all == seen + png_chunks_from(png@, cursor as int),
            done ==> all == seen,
            match ihdr {
                Some(h) => last_of_kind(seen, ihdr_kind) == Some((h.0 as int, h.1 as int)),
                None => last_of_kind(seen, ihdr_kind) is None,
            },
            ranges_view(idat@) == all_of_kind(seen, idat_kind),
            ihdr matches Some(h) ==> h.0 <= h.1 <= png@.len(),
            valid_ranges(idat@, png@.len()),
            ihdr_kind == seq![73u8, 72u8, 68u8, 82u8],
            idat_kind == seq![73u8, 68u8, 65u8, 84u8],
        decreases png@.len() - cursor + (if done { 0int } else { 1int }),
    {
        let length = be32_from(png, cursor) as usize;
        let start = cursor + 8;
        if length > png.len() - start {
            done = true;
            assert(png_chunks_from(png@, cursor as int) =~= Seq::<(Seq<u8>, int, int)>::empty());
            assert(seen + Seq::<(Seq<u8>, int, int)>::empty() =~= seen);
        } else {
            let end = start + length;
            let ghost here = seq![(png@.subrange(cursor + 4, cursor + 8), start as int, end as int)];
            proof {
                lemma_kinds_append(seen, here, ihdr_kind);
                lemma_kinds_append(seen, here, idat_kind);
                assert(here.drop_last() =~= Seq::<(Seq<u8>, int, int)>::empty());
            }
            assert(here.last().0 == png@.subrange(cursor + 4, cursor + 4 + 4));
            assert(last_of_kind(here.drop_last(), ihdr_kind) is None);
            assert(all_of_kind(here.drop_last(), idat_kind) =~= Seq::<(int, int)>::empty());
            if is_kind(png, cursor + 4, 73, 72, 68, 82) {
                ihdr = Some((start, end));
                assert(last_of_kind(here, ihdr_kind) == Some((start as int, end as int)));
            } else {
                assert(last_of_kind(here, ihdr_kind) is None);
            }
            if is_kind(png, cursor + 4, 73, 68, 65, 84) {
                let ghost before = idat@;
                idat.push((start, end));
                assert(ranges_view(idat@) =~= ranges_view(before).push((start as int, end as int)));
            } else {
                assert(all_of_kind(here, idat_kind) =~= Seq::<(int, int)>::empty());
                assert(ranges_view(idat@) =~= all_of_kind(seen + here, idat_kind));
            }
            proof {
                if end + 4 > png@.len() {
                    assert(png_chunks_from(png@, cursor as int) =~= here);
                } else {
                    assert(png_chunks_from(png@, cursor as int) =~= here + png_chunks_from(
                        png@,
                        end + 4,
                    ));
                }
                assert(all =~= (seen + here) + (if end + 4 > png@.len() {
                    Seq::<(Seq<u8>, int, int)>::empty()
                } else {
                    png_chunks_from(png@, end + 4)
                }));
                seen = seen + here;
            }
            if png.len() - end < 4 {
                done = true;
                assert(all =~= seen);
            } else {
                cursor = end + 4;
            }
        }
    }
    proof {
        if !done {
            assert(png_chunks_from(png@, cursor as int) =~= Seq::<(Seq<u8>, int, int)>::empty());
            assert(all =~= seen);
        }
    }
    let header = match ihdr {
        Some(h) => h,
        None => {
            return Err(NarouError::Platform("PNG encode produced no IHDR".to_owned()));
        },
    };
    if idat.len() == 0 {
        return Err(NarouError::Platform("PNG encode produced no IDAT".to_owned()));
    }
    Ok((header, idat))
}

#[verifier::external_type_specification]
#[verifier::external_body]
pub struct ExZipError(zip::result::ZipError);

#[verifier::external_type_specification]
#[verifier::external_body]
pub struct ExImageError(image::ImageError);

/// The number of entries of a ZIP archive (`None` where `zip` cannot read
/// the bytes as one).
pub uninterp spec fn zip_entry_count(archive: Seq<u8>) -> Option<nat>;

/// The name of entry `index` of a ZIP archive (`None` where `zip` cannot
/// open that entry).
pub uninterp spec fn zip_entry_name(archive: Seq<u8>, index: nat) -> Option<Seq<char>>;

/// The contents of the entry `name` of a ZIP archive: `Some(None)` where
/// `zip` finds no such entry, `None` where the archive or the entry cannot
/// be read.
pub uninterp spec fn zip_entry_contents(archive: Seq<u8>, name: Seq<char>) -> Option<Option<Seq<u8>>>;

/// The width, height and RGBA pixels `image` decodes from an image file.
pub uninterp spec fn rgba_decoding(bytes: Seq<u8>) -> Option<(u32, u32, Seq<u8>)>;

/// The PNG file `image` encodes from RGBA pixels.
pub uninterp spec fn png_encoding(width: u32, height: u32, pixels: Seq<u8>) -> Option<Seq<u8>>;

/// The number of entries of a ZIP archive: `ZipArchive::new`, then `len`.
#[verifier::external_body]
fn zip_len(archive: &[u8]) -> (r: Result<usize, zip::result::ZipError>)
    ensures
        match r {
            Ok(n) => zip_entry_count(archive@) == Some(n as nat),
            Err(_) => zip_entry_count(archive@) is None,
        },
{
    zip::ZipArchive::new(std::io::Cursor::new(archive)).map(|zip| zip.len())
}

/// The name of entry `index`: `ZipArchive::new`, then `by_index` and `name`.
#[verifier::external_body]
fn zip_name_at(archive: &[u8], index: usize) -> (r: Option<String>)
    ensures
        match r {
            Some(n) => zip_entry_name(archive@, index as nat) == Some(n@),
            None => zip_entry_name(archive@, index as nat) is None,
        },
{
    let mut zip = zip::ZipArchive::new(std::io::Cursor::new(archive)).ok()?;
    let file = zip.by_index(index).ok()?;
    Some(file.name().to_string())
}

/// What reading one entry of an archive gave.
pub enum ZipEntry {
    Contents(Vec<u8>),
    Missing,
    ArchiveError(String),
    ReadError(String),
}

/// Reads the entry `name`: `ZipArchive::new`, `by_name` and
/// `Read::read_to_end`; an error carries its message.
#[verifier::external_body]
fn read_zip_entry(archive: &[u8], name: &str) -> (r: ZipEntry)
    ensures
        match r {
            ZipEntry::Contents(b) => zip_entry_contents(archive@, name@) == Some(Some(b@)),
            ZipEntry::Missing => zip_entry_contents(archive@, name@) == Some(None::<Seq<u8>>),
            _ => zip_entry_contents(archive@, name@) is None,
        },
{
    let mut zip = match zip::ZipArchive::new(std::io::Cursor::new(archive)) {
        Ok(zip) => zip,
        Err(error) => return ZipEntry::ArchiveError(error.to_string()),
    };
    let mut file = match zip.by_name(name) {
        Ok(file) => file,
        Err(_) => return ZipEntry::Missing,
    };
    let mut data = Vec::new();
    match std::io::Read::read_to_end(&mut file, &mut data) {
        Ok(_) => ZipEntry::Contents(data),
        Err(error) => ZipEntry::ReadError(error.to_string()),
    }
}

/// The message of a ZIP error (its `Display`).
#[verifier::external_body]
fn zip_error_text(error: &zip::result::ZipError) -> (r: String) {
    error.to_string()
}

/// A decoded frame: width, height and RGBA pixels, four bytes a pixel.
pub struct RgbaFrame {
    pub width: u32,
    pub height: u32,
    pub pixels: Vec<u8>,
}

/// Decodes an image file to RGBA: `image::load_from_memory`, then `to_rgba8`
/// and `into_raw`, which hold four bytes for each pixel.
#[verifier::external_body]
fn decode_rgba(bytes: &[u8]) -> (r: Option<RgbaFrame>)
    ensures
        match r {
            Some(f) => rgba_decoding(bytes@) == Some((f.width, f.height, f.pixels@))
                && f.pixels@.len() == f.width * f.height * 4,
            None => rgba_decoding(bytes@) is None,
        },
{
    let decoded = image::load_from_memory(bytes).ok()?.to_rgba8();
    Some(RgbaFrame { width: decoded.width(), height: decoded.height(), pixels: decoded.into_raw() })
}

/// Encodes RGBA pixels as a PNG file: `PngEncoder::write_image`, which
/// panics unless there are four bytes for each pixel.
#[verifier::external_body]
fn encode_png(frame: &RgbaFrame) -> (r: Result<Vec<u8>, image::ImageError>)
    requires
        frame.pixels@.len() == frame.width * frame.height * 4,
    ensures
        match r {
            Ok(png) => png_encoding(frame.width, frame.height, frame.pixels@) == Some(png@),
            Err(_) => png_encoding(frame.width, frame.height, frame.pixels@) is None,
        },
{
    let mut buffer = Vec::new();
    let written = image::codecs::png::PngEncoder::new(&mut buffer).write_image(
        &frame.pixels,
        frame.width,
        frame.height,
        image::ExtendedColorType::Rgba8,
    );
    written.map(|()| buffer)
}

/// The message of an image error (its `Display`).
#[verifier::external_body]
fn image_error_text(error: &image::ImageError) -> (r: String) {
    error.to_string()
}

/// The entries that name files (not directories) among the first `count`.
pub open spec fn listed_names(archive: Seq<u8>, count: nat) -> Seq<Seq<char>>
    decreases count,
{
    if count == 0 {
        Seq::empty()
    } else {
        let rest = listed_names(archive, (count - 1) as nat);
        match zip_entry_name(archive, (count - 1) as nat) {
            Some(n) => if is_suffix(seq!['/'], n) {
                rest
            } else {
                rest.push(n)
            },
            None => rest,
        }
    }
}

/// `s` with `x` inserted before the first element it comes no later than.
pub open spec fn insert_sorted(s: Seq<Seq<char>>, x: Seq<char>) -> Seq<Seq<char>>
    decreases s.len(),
{
    if s.len() == 0 {
        seq![x]
    } else if text_le(x, s[0]) {
        seq![x] + s
    } else {
        seq![s[0]] + insert_sorted(s.drop_first(), x)
    }
}

/// `s` in `String` order.
pub open spec fn sorted_texts(s: Seq<Seq<char>>) -> Seq<Seq<char>>
    decreases s.len(),
{
    if s.len() == 0 {
        Seq::empty()
    } else {
        insert_sorted(sorted_texts(s.drop_last()), s.last())
    }
}

/// The frame file names of an archive, in `String` order.
pub open spec fn frame_names_of(archive: Seq<u8>) -> Option<Seq<Seq<char>>> {
    match zip_entry_count(archive) {
        Some(c) => Some(sorted_texts(listed_names(archive, c))),
        None => None,
    }
}

proof fn lemma_insert_at(s: Seq<Seq<char>>, x: Seq<char>, k: int)
    requires
        0 <= k <= s.len(),
        forall|j: int| 0 <= j < k ==> !text_le(x, #[trigger] s[j]),
        k < s.len() ==> text_le(x, s[k]),
    ensures
        insert_sorted(s, x) == s.take(k) + seq![x] + s.skip(k),
    decreases s.len(),
{
    if s.len() == 0 {
        assert(s.take(k) + seq![x] + s.skip(k) =~= seq![x]);
    } else if k == 0 {
        assert(s.take(0) + seq![x] + s.skip(0) =~= seq![x] + s);
    } else {
        assert(!text_le(x, s[0]));
        let t = s.drop_first();
        assert forall|j: int| 0 <= j < k - 1 implies !text_le(x, #[trigger] t[j]) by {
            assert(t[j] == s[j + 1]);
        }
        lemma_insert_at(t, x, k - 1);
        assert(seq![s[0]] + (t.take(k - 1) + seq![x] + t.skip(k - 1)) =~= s.take(k) + seq![x]
            + s.skip(k));
    }
}

fn insert_in_order(v: &mut Vec<String>, x: String)
    ensures
        crate::text::string_views(final(v)@) == insert_sorted(
            crate::text::string_views(old(v)@),
            x@,
        ),
{
    let ghost sv = crate::text::string_views(v@);
    let mut k: usize = 0;
    while k < v.len() && !text_le_exec(x.as_str(), v[k].as_str())
        invariant
            k <= v@.len(),
            sv == crate::text::string_views(v@),
            forall|j: int| 0 <= j < k ==> !text_le(x@, #[trigger] sv[j]),
        decreases v@.len() - k,
    {
        assert(sv[k as int] == v@[k as int]@);
        k = k + 1;
    }
    proof {
        if k < v@.len() {
            assert(sv[k as int] == v@[k as int]@);
        }
        lemma_insert_at(sv, x@, k as int);
    }
    let ghost xv = x@;
    v.insert(k, x);
    assert(crate::text::string_views(v@) =~= sv.take(k as int) + seq![xv] + sv.skip(k as int));
}

/// The frame file names of an archive, in `String` order.
pub fn frame_names(archive: &[u8]) -> (r: Result<Vec<String>, NarouError>)
    ensures
        match r {
            Ok(names) => frame_names_of(archive@) == Some(crate::text::string_views(names@)),
            Err(e) => frame_names_of(archive@) is None && e is Platform,
        },
{
    let count = match zip_len(archive) {
        Ok(n) => n,
        Err(error) => {
            let mut message = "animation archive: ".to_owned();
            message.append(zip_error_text(&error).as_str());
            return Err(NarouError::Platform(message));
        },
    };
    let mut listed: Vec<String> = Vec::new();
    let mut i: usize = 0;
    while i < count
        invariant
            i <= count,
            crate::text::string_views(listed@) == listed_names(archive@, i as nat),
        decreases count - i,
    {
        let ghost before = crate::text::string_views(listed@);
        proof {
            reveal_strlit("/");
            assert("/"@ =~= seq!['/']);
        }
        match zip_name_at(archive, i) {
            Some(n) => {
                if !ends_with(n.as_str(), "/") {
                    listed.push(n);
                    assert(crate::text::string_views(listed@) =~= before.push(listed@.last()@));
                }
            },
            None => {},
        }
        i = i + 1;
    }
    let mut sorted: Vec<String> = Vec::new();
    let ghost lv = crate::text::string_views(listed@);
    let mut k: usize = 0;
    while k < listed.len()
        invariant
            k <= listed@.len(),
            lv == crate::text::string_views(listed@),
            crate::text::string_views(sorted@) == sorted_texts(lv.take(k as int)),
        decreases listed@.len() - k,
    {
        assert(lv.take(k + 1).drop_last() =~= lv.take(k as int));
        assert(lv.take(k + 1).last() == listed@[k as int]@);
        insert_in_order(&mut sorted, listed[k].clone());
        k = k + 1;
    }
    assert(lv.take(lv.len() as int) =~= lv);
    Ok(sorted)
}

/// The limits of an assembly.
#[derive(Clone, Copy)]
pub struct Limits {
    pub max_frames: usize,
    pub max_frame_pixels: u64,
    pub max_output_bytes: usize,
}

/// The default limits: 512 frames, frames of at most 1920×1080 pixels, and
/// 56 MiB of output.
pub fn default_limits() -> (r: Limits)
    ensures
        r.max_frames == 512,
        r.max_frame_pixels == 1920 * 1080,
        r.max_output_bytes == 56 * 1024 * 1024,
{
    Limits { max_frames: 512, max_frame_pixels: 2073600, max_output_bytes: 58720256 }
}

pub open spec fn png_signature() -> Seq<u8> {
    seq![0x89u8, 0x50u8, 0x4eu8, 0x47u8, 0x0du8, 0x0au8, 0x1au8, 0x0au8]
}

pub open spec fn kind_ihdr() -> Seq<u8> {
    seq![73u8, 72u8, 68u8, 82u8]
}

pub open spec fn kind_idat() -> Seq<u8> {
    seq![73u8, 68u8, 65u8, 84u8]
}

pub open spec fn kind_actl() -> Seq<u8> {
    seq![97u8, 99u8, 84u8, 76u8]
}

pub open spec fn kind_fctl() -> Seq<u8> {
    seq![102u8, 99u8, 84u8, 76u8]
}

pub open spec fn kind_fdat() -> Seq<u8> {
    seq![102u8, 100u8, 65u8, 84u8]
}

pub open spec fn kind_iend() -> Seq<u8> {
    seq![73u8, 69u8, 78u8, 68u8]
}

/// `IDAT` chunks carrying the given payload ranges of `png`.
pub open spec fn idat_chunks(png: Seq<u8>, ranges: Seq<(int, int)>) -> Seq<u8>
    decreases ranges.len(),
{
    if ranges.len() == 0 {
        Seq::empty()
    } else {
        idat_chunks(png, ranges.drop_last()) + png_chunk_bytes(
            kind_idat(),
            png.subrange(ranges.last().0, ranges.last().1),
        )
    }
}

/// `fdAT` chunks carrying the given payload ranges of `png`, numbered from
/// `first_seq`.
pub open spec fn fdat_chunks(png: Seq<u8>, ranges: Seq<(int, int)>, first_seq: nat) -> Seq<u8>
    decreases ranges.len(),
{
    if ranges.len() == 0 {
        Seq::empty()
    } else {
        fdat_chunks(png, ranges.drop_last(), first_seq) + png_chunk_bytes(
            kind_fdat(),
            be32((first_seq + ranges.len() - 1) as u32) + png.subrange(
                ranges.last().0,
                ranges.last().1,
            ),
        )
    }
}

/// An assembly in progress: the frames taken so far, the first frame's PNG
/// (kept until a second one arrives), their size, the signature and header
/// written so far, the chunks after the animation control chunk, and the
/// next sequence number.
pub struct ApngBuild {
    pub frames: nat,
    pub first: Seq<u8>,
    pub dims: Option<(u32, u32)>,
    pub head: Seq<u8>,
    pub body: Seq<u8>,
    pub next_seq: nat,
}

pub open spec fn empty_build() -> ApngBuild {
    ApngBuild {
        frames: 0,
        first: Seq::empty(),
        dims: None,
        head: Seq::empty(),
        body: Seq::empty(),
        next_seq: 0,
    }
}

/// The assembly with one more frame of size `w`×`h` encoded as `png`.
#[verifier::opaque]
pub open spec fn apng_add(b: ApngBuild, w: u32, h: u32, png: Seq<u8>, delays: Seq<u16>) -> Option<
    ApngBuild,
> {
    if b.frames == 0 {
        Some(ApngBuild { frames: 1, first: png, dims: Some((w, h)), ..b })
    } else {
        let start: Option<(Seq<u8>, Seq<u8>, nat)> = if b.frames == 1 {
            match png_payloads_of(b.first) {
                None => None,
                Some((ihdr, idat)) => Some(
                    (
                        png_signature() + png_chunk_bytes(kind_ihdr(), b.first.subrange(ihdr.0, ihdr.1)),
                        png_chunk_bytes(kind_fctl(), fctl_payload(0, w, h, delay_for(delays, 0)))
                            + idat_chunks(b.first, idat),
                        1nat,
                    ),
                ),
            }
        } else {
            Some((b.head, b.body, b.next_seq))
        };
        match start {
            None => None,
            Some((head, body, sq)) => match png_payloads_of(png) {
                None => None,
                Some((_, idat)) => Some(
                    ApngBuild {
                        frames: b.frames + 1,
                        head,
                        body: body + png_chunk_bytes(
                            kind_fctl(),
                            fctl_payload(sq as u32, w, h, delay_for(delays, b.frames as int)),
                        ) + fdat_chunks(png, idat, sq + 1),
                        next_seq: sq + 1 + idat.len(),
                        ..b
                    },
                ),
            },
        }
    }
}

/// The assembly with one more encoded frame, unless, once frames are
/// written, the output would grow over the limit (its header, the 20 bytes
/// of the animation control chunk, and the chunks after it).
#[verifier::opaque]
pub open spec fn apng_admit(
    b: ApngBuild,
    w: u32,
    h: u32,
    png: Seq<u8>,
    delays: Seq<u16>,
    limits: Limits,
) -> Option<ApngBuild> {
    match apng_add(b, w, h, png, delays) {
        None => None,
        Some(nb) => if b.frames >= 1 && nb.head.len() + 20 + nb.body.len() > limits.max_output_bytes {
            None
        } else {
            Some(nb)
        },
    }
}

/// One frame file taken into the assembly: a missing or undecodable frame
/// is skipped; a frame over the pixel limit, of another size than the
/// first, or that fails to encode stops it, as does output over the limit
/// once frames are written.
#[verifier::opaque]
pub open spec fn apng_step(
    b: ApngBuild,
    archive: Seq<u8>,
    name: Seq<char>,
    delays: Seq<u16>,
    limits: Limits,
) -> Option<ApngBuild> {
    match zip_entry_contents(archive, name) {
        None => None,
        Some(None) => Some(b),
        Some(Some(bytes)) => match rgba_decoding(bytes) {
            None => Some(b),
            Some((w, h, px)) => if (w as int) * (h as int) > limits.max_frame_pixels {
                None
            } else if b.dims matches Some(d) && d != (w, h) {
                None
            } else {
                match png_encoding(w, h, px) {
                    None => None,
                    Some(png) => apng_admit(b, w, h, png, delays, limits),
                }
            },
        },
    }
}

/// The assembly after the frame files `names`, in order.
pub open spec fn apng_fold(
    archive: Seq<u8>,
    names: Seq<Seq<char>>,
    delays: Seq<u16>,
    limits: Limits,
) -> Option<ApngBuild>
    decreases names.len(),
{
    if names.len() == 0 {
        Some(empty_build())
    } else {
        match apng_fold(archive, names.drop_last(), delays, limits) {
            None => None,
            Some(b) => apng_step(b, archive, names.last(), delays, limits),
        }
    }
}

/// The image assembled from an archive: a single frame stays a plain PNG;
/// several become an APNG that loops over them with their delays.
pub open spec fn apng_of(archive: Seq<u8>, delays: Seq<u16>, limits: Limits) -> Option<Seq<u8>> {
    match frame_names_of(archive) {
        None => None,
        Some(names) => if names.len() > limits.max_frames {
            None
        } else {
            match apng_fold(archive, names, delays, limits) {
                None => None,
                Some(b) => if b.frames == 0 {
                    None
                } else if b.frames == 1 {
                    Some(b.first)
                } else {
                    Some(
                        b.head + png_chunk_bytes(kind_actl(), be32(b.frames as u32) + be32(0))
                            + b.body + png_chunk_bytes(kind_iend(), Seq::empty()),
                    )
                },
            }
        },
    }
}

fn write_idat_chunks(out: &mut Vec<u8>, png: &[u8], ranges: &Vec<(usize, usize)>)
    requires
        valid_ranges(ranges@, png@.len()),
    ensures
        final(out)@ == old(out)@ + idat_chunks(png@, ranges_view(ranges@)),
        final(out)@.len() >= old(out)@.len(),
{
    let ghost start = out@;
    let mut i: usize = 0;
    while i < ranges.len()
        invariant
            i <= ranges@.len(),
            valid_ranges(ranges@, png@.len()),
            out@ == start + idat_chunks(png@, ranges_view(ranges@).take(i as int)),
        decreases ranges@.len() - i,
    {
        let ghost before = out@;
        let (lo, hi) = ranges[i];
        assert(ranges@[i as int].0 <= ranges@[i as int].1 <= png@.len());
        let mut payload: Vec<u8> = Vec::new();
        push_range(&mut payload, png, lo, hi);
        write_png_chunk(out, &[73u8, 68u8, 65u8, 84u8], payload.as_slice());
        proof {
            let rv = ranges_view(ranges@);
            assert(rv.take(i + 1).drop_last() =~= rv.take(i as int));
            assert(rv.take(i + 1).last() == (lo as int, hi as int));
            assert([73u8, 68u8, 65u8, 84u8]@ =~= kind_idat());
        }
        i = i + 1;
        assert(out@ =~= start + idat_chunks(png@, ranges_view(ranges@).take(i as int)));
    }
    assert(ranges_view(ranges@).take(ranges@.len() as int) =~= ranges_view(ranges@));
}

proof fn lemma_chunk_len(kind: Seq<u8>, payload: Seq<u8>)
    requires
        kind.len() == 4,
    ensures
        png_chunk_bytes(kind, payload).len() == payload.len() + 12,
{
}

#[verifier::rlimit(40)]
fn write_fdat_chunks(out: &mut Vec<u8>, png: &[u8], ranges: &Vec<(usize, usize)>, first_seq: u64) -> (next: u64)
    requires
        valid_ranges(ranges@, png@.len()),
        first_seq * 12 <= old(out)@.len(),
    ensures
        final(out)@ == old(out)@ + fdat_chunks(png@, ranges_view(ranges@), first_seq as nat),
        next == first_seq + ranges@.len(),
        next * 12 <= final(out)@.len(),
{
    let ghost start = out@;
    let mut i: usize = 0;
    let mut sq: u64 = first_seq;
    while i < ranges.len()
        invariant
            i <= ranges@.len(),
            valid_ranges(ranges@, png@.len()),
            sq == first_seq + i,
            sq * 12 <= out@.len(),
            out@ == start + fdat_chunks(png@, ranges_view(ranges@).take(i as int), first_seq as nat),
        decreases ranges@.len() - i,
    {
        let (lo, hi) = ranges[i];
        assert(ranges@[i as int].0 <= ranges@[i as int].1 <= png@.len());
        let mut payload: Vec<u8> = Vec::new();
        push_be32(&mut payload, sq as u32);
        push_range(&mut payload, png, lo, hi);
        let ghost before = out@;
        write_png_chunk(out, &[102u8, 100u8, 65u8, 84u8], payload.as_slice());
        proof {
            lemma_chunk_len([102u8, 100u8, 65u8, 84u8]@, payload@);
            assert(out@.len() >= before.len() + 12);
            let rv = ranges_view(ranges@);
            assert(rv.take(i + 1).drop_last() =~= rv.take(i as int));
            assert(rv.take(i + 1).last() == (lo as int, hi as int));
            assert([102u8, 100u8, 65u8, 84u8]@ =~= kind_fdat());
            assert((first_seq + rv.take(i + 1).len() - 1) as u32 == sq as u32);
        }
        let total = out.len();
        assert((sq + 1) * 12 <= total);
        i = i + 1;
        sq = sq + 1;
        assert(out@ =~= start + fdat_chunks(png@, ranges_view(ranges@).take(i as int), first_seq as nat));
    }
    assert(ranges_view(ranges@).take(ranges@.len() as int) =~= ranges_view(ranges@));
    sq
}

/// The texts of `parts` one after another.
pub open spec fn concatenated(parts: Seq<Seq<char>>) -> Seq<char>
    decreases parts.len(),
{
    if parts.len() == 0 {
        Seq::empty()
    } else {
        concatenated(parts.drop_last()) + parts.last()
    }
}

fn platform_error(parts: &Vec<String>) -> (e: NarouError)
    ensures
        e matches NarouError::Platform(m) && m@ == concatenated(crate::text::string_views(parts@)),
{
    let ghost ps = crate::text::string_views(parts@);
    let mut message = String::new();
    let mut i: usize = 0;
    while i < parts.len()
        invariant
            i <= parts@.len(),
            ps == crate::text::string_views(parts@),
            message@ == concatenated(ps.take(i as int)),
        decreases parts@.len() - i,
    {
        assert(ps.take(i + 1).drop_last() =~= ps.take(i as int));
        message.append(parts[i].as_str());
        i = i + 1;
    }
    assert(ps.take(ps.len() as int) =~= ps);
    NarouError::Platform(message)
}

fn u32_text(n: u32) -> (r: String) {
    decimal_string(n as usize)
}

proof fn lemma_pixels_fit(w: u32, h: u32)
    ensures
        (w as int) * (h as int) <= u64::MAX,
{
    assert((w as int) * (h as int) <= (u32::MAX as int) * (u32::MAX as int)) by (nonlinear_arith)
        requires
            w <= u32::MAX,
            h <= u32::MAX,
    ;
}

/// An assembly in progress, held in executable values.
struct Assembly {
    frames: usize,
    first: Vec<u8>,
    dims: Option<(u32, u32)>,
    head: Vec<u8>,
    body: Vec<u8>,
    sequence: u64,
}

impl Assembly {
    spec fn build(&self) -> ApngBuild {
        ApngBuild {
            frames: self.frames as nat,
            first: self.first@,
            dims: self.dims,
            head: self.head@,
            body: self.body@,
            next_seq: self.sequence as nat,
        }
    }

    spec fn sized(&self) -> bool {
        self.sequence * 12 <= self.body@.len()
    }
}

/// Turns a one-frame assembly into an animation: the signature and the
/// first frame's header, then its frame control chunk and image data.
fn open_animation(a: Assembly, w: u32, h: u32, delays: &[u16]) -> (r: Result<Assembly, NarouError>)
    requires
        a.frames == 1,
        delays@.len() > 0,
    ensures
        match r {
            Ok(na) => png_payloads_of(a.first@) matches Some((ihdr, idat)) && na.head@ == png_signature()
                + png_chunk_bytes(kind_ihdr(), a.first@.subrange(ihdr.0, ihdr.1)) && na.body@
                == png_chunk_bytes(kind_fctl(), fctl_payload(0, w, h, delay_for(delays@, 0)))
                + idat_chunks(a.first@, idat) && na.sequence == 1 && na.frames == 1 && na.first@
                == a.first@ && na.dims == a.dims,
            Err(_) => png_payloads_of(a.first@) is None,
        },
{
    let (ihdr, idat) = png_payloads(a.first.as_slice())?;
    let mut head: Vec<u8> = Vec::new();
    push_all(&mut head, [0x89u8, 0x50u8, 0x4eu8, 0x47u8, 0x0du8, 0x0au8, 0x1au8, 0x0au8].as_slice());
    let mut ihdr_payload: Vec<u8> = Vec::new();
    push_range(&mut ihdr_payload, a.first.as_slice(), ihdr.0, ihdr.1);
    write_png_chunk(&mut head, &[73u8, 72u8, 68u8, 82u8], ihdr_payload.as_slice());
    let mut body: Vec<u8> = Vec::new();
    let fctl = frame_control_payload(0, w, h, delay_at(delays, 0));
    write_png_chunk(&mut body, &[102u8, 99u8, 84u8, 76u8], fctl.as_slice());
    write_idat_chunks(&mut body, a.first.as_slice(), &idat);
    proof {
        assert([0x89u8, 0x50u8, 0x4eu8, 0x47u8, 0x0du8, 0x0au8, 0x1au8, 0x0au8]@ =~= png_signature());
        assert([73u8, 72u8, 68u8, 82u8]@ =~= kind_ihdr());
        assert([102u8, 99u8, 84u8, 76u8]@ =~= kind_fctl());
    }
    Ok(Assembly { frames: 1, first: a.first, dims: a.dims, head, body, sequence: 1 })
}

/// Writes a later frame: its frame control chunk numbered `sequence`, then
/// its image data as frame data chunks numbered after it; gives the next
/// free number.
#[verifier::rlimit(30)]
fn write_frame_chunks(body: &mut Vec<u8>, sequence: u64, w: u32, h: u32, delay: u16, png: &[u8]) -> (r:
    Result<u64, NarouError>)
    requires
        sequence * 12 <= old(body)@.len(),
    ensures
        match r {
            Ok(next) => png_payloads_of(png@) matches Some((_, idat)) && final(body)@ == old(body)@
                + png_chunk_bytes(kind_fctl(), fctl_payload(sequence as u32, w, h, delay)) + fdat_chunks(
                png@,
                idat,
                (sequence + 1) as nat,
            ) && next == sequence + 1 + idat.len() && next * 12 <= final(body)@.len(),
            Err(_) => png_payloads_of(png@) is None,
        },
{
    let ghost start = body@;
    let fctl = frame_control_payload(sequence as u32, w, h, delay);
    write_png_chunk(body, &[102u8, 99u8, 84u8, 76u8], fctl.as_slice());
    proof {
        lemma_chunk_len([102u8, 99u8, 84u8, 76u8]@, fctl@);
        assert([102u8, 99u8, 84u8, 76u8]@ =~= kind_fctl());
    }
    let (_, idat) = png_payloads(png)?;
    let written = body.len();
    assert(sequence * 12 <= written);
    let next = write_fdat_chunks(body, png, &idat, sequence + 1);
    Ok(next)
}

/// Appends a frame after the first: its frame control chunk and its image
/// data as numbered frame data chunks (opening the animation first when
/// this is the second frame).
#[verifier::rlimit(40)]
fn append_frame(a: Assembly, w: u32, h: u32, png: Vec<u8>, delays: &[u16]) -> (r: Result<
    Assembly,
    NarouError,
>)
    requires
        1 <= a.frames < usize::MAX,
        a.sized(),
        delays@.len() > 0,
    ensures
        match r {
            Ok(na) => apng_add(a.build(), w, h, png@, delays@) == Some(na.build()) && na.sized()
                && na.frames == a.frames + 1,
            Err(_) => apng_add(a.build(), w, h, png@, delays@) is None,
        },
{
    proof {
        reveal(apng_add);
    }
    let ghost b = a.build();
    let mut a = if a.frames == 1 {
        let opened = open_animation(a, w, h, delays)?;
        proof {
            lemma_chunk_len(kind_fctl(), fctl_payload(0, w, h, delay_for(delays@, 0)));
        }
        opened
    } else {
        a
    };
    let delay = delay_at(delays, a.frames);
    let next = write_frame_chunks(&mut a.body, a.sequence, w, h, delay, png.as_slice())?;
    a.sequence = next;
    a.frames = a.frames + 1;
    Ok(a)
}

/// Takes one encoded frame of size `w`×`h` into the assembly.
fn add_encoded(a: Assembly, w: u32, h: u32, png: Vec<u8>, delays: &[u16], limits: Limits) -> (r: Result<
    Assembly,
    NarouError,
>)
    requires
        a.frames < usize::MAX,
        a.sized(),
        delays@.len() > 0,
    ensures
        match r {
            Ok(na) => apng_admit(a.build(), w, h, png@, delays@, limits) == Some(na.build()) && na.sized()
                && na.frames == a.frames + 1,
            Err(_) => apng_admit(a.build(), w, h, png@, delays@, limits) is None,
        },
{
    proof {
        reveal(apng_admit);
    }
    if a.frames == 0 {
        proof {
            reveal(apng_add);
        }
        return Ok(Assembly { frames: 1, first: png, dims: Some((w, h)), ..a });
    }
    let a = append_frame(a, w, h, png, delays)?;
    let head_len = a.head.len();
    let body_len = a.body.len();
    if body_len > limits.max_output_bytes || head_len > limits.max_output_bytes - body_len || 20
        > limits.max_output_bytes - body_len - head_len {
        let parts = vec![
            "assembled animation exceeds ".to_owned(),
            decimal_string(limits.max_output_bytes),
            " bytes".to_owned(),
        ];
        return Err(platform_error(&parts));
    }
    Ok(a)
}

/// Takes the frame file `name` of `archive` into the assembly.
#[verifier::rlimit(40)]
fn take_frame(a: Assembly, archive: &[u8], name: &str, delays: &[u16], limits: Limits) -> (r: Result<
    Assembly,
    NarouError,
>)
    requires
        a.frames < usize::MAX,
        a.sized(),
        delays@.len() > 0,
    ensures
        match r {
            Ok(na) => apng_step(a.build(), archive@, name@, delays@, limits) == Some(na.build()) && na.sized()
                && na.frames <= a.frames + 1,
            Err(_) => apng_step(a.build(), archive@, name@, delays@, limits) is None,
        },
{
    proof {
        reveal(apng_step);
    }
    let bytes = match read_zip_entry(archive, name) {
        ZipEntry::Contents(b) => b,
        ZipEntry::Missing => {
            return Ok(a);
        },
        ZipEntry::ArchiveError(m) => {
            let mut message = "animation archive: ".to_owned();
            message.append(m.as_str());
            return Err(NarouError::Platform(message));
        },
        ZipEntry::ReadError(m) => {
            return Err(NarouError::Io(m));
        },
    };
    let frame = match decode_rgba(bytes.as_slice()) {
        Some(f) => f,
        None => {
            return Ok(a);
        },
    };
    let w = frame.width;
    let h = frame.height;
    proof {
        lemma_pixels_fit(w, h);
    }
    if (w as u64) * (h as u64) > limits.max_frame_pixels {
        let parts = vec![
            "animation frame ".to_owned(),
            name.to_owned(),
            " is ".to_owned(),
            u32_text(w),
            "x".to_owned(),
            u32_text(h),
            ", over the pixel limit".to_owned(),
        ];
        return Err(platform_error(&parts));
    }
    if let Some(d) = a.dims {
        if d.0 != w || d.1 != h {
            let parts = vec![
                "animation frame ".to_owned(),
                name.to_owned(),
                " is ".to_owned(),
                u32_text(w),
                "x".to_owned(),
                u32_text(h),
                ", expected ".to_owned(),
                u32_text(d.0),
                "x".to_owned(),
                u32_text(d.1),
            ];
            return Err(platform_error(&parts));
        }
    }
    let png = match encode_png(&frame) {
        Ok(p) => p,
        Err(error) => {
            let mut message = "animation frame encode: ".to_owned();
            message.append(image_error_text(&error).as_str());
            return Err(NarouError::Platform(message));
        },
    };
    add_encoded(a, w, h, png, delays, limits)
}

/// Once a prefix of the frame files stops the assembly, the whole list
/// does.
proof fn lemma_fold_stays_none(
    archive: Seq<u8>,
    names: Seq<Seq<char>>,
    k: int,
    delays: Seq<u16>,
    limits: Limits,
)
    requires
        0 <= k <= names.len(),
        apng_fold(archive, names.take(k), delays, limits) is None,
    ensures
        apng_fold(archive, names, delays, limits) is None,
    decreases names.len() - k,
{
    if k < names.len() {
        assert(names.take(k + 1).drop_last() =~= names.take(k));
        lemma_fold_stays_none(archive, names, k + 1, delays, limits);
    } else {
        assert(names.take(k) =~= names);
    }
}

/// Assembles the frames of `archive`, in name order, into an APNG that
/// shows them with `delays` (the last delay repeating); a single frame stays
/// a plain PNG.
pub fn build_apng(archive: &[u8], delays: &[u16], limits: Limits) -> (r: Result<Vec<u8>, NarouError>)
    requires
        delays@.len() > 0,
    ensures
        match r {
            Ok(v) => apng_of(archive@, delays@, limits) == Some(v@),
            Err(_) => apng_of(archive@, delays@, limits) is None,
        },
{
    let names = frame_names(archive)?;
    let ghost nv = crate::text::string_views(names@);
    if names.len() > limits.max_frames {
        let parts = vec![
            "animation archive has ".to_owned(),
            decimal_string(names.len()),
            " frames, over the limit of ".to_owned(),
            decimal_string(limits.max_frames),
        ];
        return Err(platform_error(&parts));
    }
    let mut a = Assembly {
        frames: 0,
        first: Vec::new(),
        dims: None,
        head: Vec::new(),
        body: Vec::new(),
        sequence: 0,
    };
    assert(a.build() =~= empty_build());
    let mut i: usize = 0;
    while i < names.len()
        invariant
            i <= names@.len(),
            nv == crate::text::string_views(names@),
            nv.len() == names@.len(),
            frame_names_of(archive@) == Some(nv),
            nv.len() <= limits.max_frames,
            delays@.len() > 0,
            a.frames <= i,
            a.sized(),
            apng_fold(archive@, nv.take(i as int), delays@, limits) == Some(a.build()),
        decreases names@.len() - i,
    {
        assert(nv.take(i + 1).drop_last() =~= nv.take(i as int));
        assert(nv.take(i + 1).last() == names@[i as int]@);
        match take_frame(a, archive, names[i].as_str(), delays, limits) {
            Ok(na) => {
                a = na;
            },
            Err(e) => {
                proof {
                    lemma_fold_stays_none(archive@, nv, i + 1, delays@, limits);
                }
                return Err(e);
            },
        }
        i = i + 1;
    }
    assert(nv.take(nv.len() as int) =~= nv);
    if a.frames == 0 {
        return Err(NarouError::Platform("animation archive has no decodable frames".to_owned()));
    }
    if a.frames == 1 {
        return Ok(a.first);
    }
    let mut out = a.head;
    let mut actl: Vec<u8> = Vec::new();
    push_be32(&mut actl, a.frames as u32);
    push_be32(&mut actl, 0);
    write_png_chunk(&mut out, &[97u8, 99u8, 84u8, 76u8], actl.as_slice());
    push_all(&mut out, a.body.as_slice());
    let empty: Vec<u8> = Vec::new();
    write_png_chunk(&mut out, &[73u8, 69u8, 78u8, 68u8], empty.as_slice());
    proof {
        assert([97u8, 99u8, 84u8, 76u8]@ =~= kind_actl());
        assert([73u8, 69u8, 78u8, 68u8]@ =~= kind_iend());
        assert(empty@ =~= Seq::<u8>::empty());
        assert(actl@ =~= be32(a.frames as u32) + be32(0));
    }
    Ok(out)
}

/// The image assembled from a frame archive whose URL declares frame
/// delays; `None` for anything else (not an archive, or no delays), so the
/// caller keeps the bytes as they are.
pub fn assemble_animation(url: &str, bytes: &[u8]) -> (r: Option<Result<Vec<u8>, NarouError>>)
    ensures
        !looks_like_zip(bytes@) ==> r is None,
        looks_like_zip(bytes@) ==> match frame_delays_of(url@) {
            None => r is None,
            Some(delays) => match r {
                Some(Ok(v)) => apng_of(bytes@, delays, default_limits_spec()) == Some(v@),
                Some(Err(_)) => apng_of(bytes@, delays, default_limits_spec()) is None,
                None => false,
            },
        },
{
    if !is_zip(bytes) {
        return None;
    }
    let delays = match frame_delays(url) {
        Some(d) => d,
        None => {
            return None;
        },
    };
    assert(delays@.len() > 0);
    Some(build_apng(bytes, delays.as_slice(), default_limits()))
}

/// The default limits.
pub open spec fn default_limits_spec() -> Limits {
    Limits { max_frames: 512, max_frame_pixels: 2073600, max_output_bytes: 58720256 }
}

} // verus!
