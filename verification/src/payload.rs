//! The on-disk package layout: framing magic, footer index, self-location,
//! header parsing and package assembly.
//!
//! A package is the concatenation
//! `[runtime][magic][meta len u32 LE][metadata][digest 32][payload][offset u64 LE][magic]`,
//! where the final offset names the absolute position of the header magic.

use vstd::prelude::*;

use crate::LxeError;
use crate::codec::{le32, le32_val, le64, le64_val, le32_encode, le64_encode, le32_read, le64_read};
use std::io::Read;
use crate::codec::hex_of;

verus! {

/// Ceiling on the embedded metadata, in bytes.
pub open spec fn meta_ceiling() -> int {
    0x100000
}

/// The eight framing magic bytes.
pub open spec fn magic() -> Seq<u8> {
    seq![0u8, 0x4cu8, 0x58u8, 0x45u8, 0xf0u8, 0x9fu8, 0x93u8, 0x01u8]
}

/// The framing magic as a vector.
pub fn magic_bytes() -> (r: Vec<u8>)
    ensures
        r@ == magic(),
{
    let mut v: Vec<u8> = Vec::new();
    v.push(0x00);
    v.push(0x4c);
    v.push(0x58);
    v.push(0x45);
    v.push(0xf0);
    v.push(0x9f);
    v.push(0x93);
    v.push(0x01);
    proof {
        assert(v@ =~= magic());
    }
    v
}

/// The magic stands at position `i` of `f`.
pub open spec fn match_at(f: Seq<u8>, i: int) -> bool {
    0 <= i && i + 8 <= f.len() && f.subrange(i, i + 8) == magic()
}

/// Tests the magic at position `i`.
pub fn magic_at(f: &Vec<u8>, i: usize) -> (r: bool)
    ensures
        r == match_at(f@, i as int),
{
    let n = f.len();
    if i > n || n - i < 8 {
        proof {
            assert(!match_at(f@, i as int));
        }
        return false;
    }
    let r = f[i] == 0x00 && f[i + 1] == 0x4c && f[i + 2] == 0x58 && f[i + 3] == 0x45 && f[i + 4]
        == 0xf0 && f[i + 5] == 0x9f && f[i + 6] == 0x93 && f[i + 7] == 0x01;
    proof {
        let sub = f@.subrange(i as int, i as int + 8);
        assert(forall|j: int| 0 <= j < 8 ==> sub[j] == f@[i + j]);
        if r {
            assert(sub =~= magic());
        } else {
            assert(sub[0] == magic()[0] && sub[1] == magic()[1] && sub[2] == magic()[2] && sub[3]
                == magic()[3] && sub[4] == magic()[4] && sub[5] == magic()[5] && sub[6]
                == magic()[6] && sub[7] == magic()[7] ==> r);
        }
    }
    r
}

/// The footer names a believable header offset: the file ends in the magic,
/// the eight bytes before it decode to `o` with `o < len - 16`, and the magic
/// indeed stands at `o`.
pub open spec fn footer_probe(f: Seq<u8>) -> Option<int> {
    if f.len() >= 16 && f.subrange(f.len() - 8, f.len() as int) == magic() {
        let o = le64_val(f.subrange(f.len() - 16, f.len() - 8)) as int;
        if o < f.len() - 16 && match_at(f, o) {
            Some(o)
        } else {
            None
        }
    } else {
        None
    }
}

/// Reads the footer index, if it is well formed.
pub fn probe_footer(f: &Vec<u8>) -> (r: Option<usize>)
    ensures
        match r {
            Some(o) => footer_probe(f@) == Some(o as int),
            None => footer_probe(f@) is None,
        },
{
    let n = f.len();
    if n < 16 {
        return None;
    }
    if !magic_at(f, n - 8) {
        proof {
            assert(f@.subrange(n - 8, n as int) == magic() ==> match_at(f@, n - 8));
        }
        return None;
    }
    proof {
        assert(f@.subrange(n - 8, n as int) == magic());
    }
    let o = le64_read(f, n - 16);
    if o < (n - 16) as u64 {
        let ou = o as usize;
        if magic_at(f, ou) {
            return Some(ou);
        }
    }
    None
}

/// Size of the window the fallback scan covers: the first 10 MiB, or the whole
/// file where it is smaller.
pub open spec fn scan_window(f: Seq<u8>) -> int {
    if f.len() < 0xa00000 {
        f.len() as int
    } else {
        0xa00000
    }
}

/// The last position `i < k` of the window at which the magic stands.
pub open spec fn scan_before(f: Seq<u8>, k: int) -> Option<int>
    decreases k,
{
    if k <= 0 {
        None
    } else if match_at(f, k - 1) {
        Some(k - 1)
    } else {
        scan_before(f, k - 1)
    }
}

/// The last occurrence of the magic inside the scan window.
pub open spec fn scan_last(f: Seq<u8>) -> Option<int> {
    scan_before(f, scan_window(f) - 7)
}

/// Scans the window for the last occurrence of the magic.
pub fn scan_magic(f: &Vec<u8>) -> (r: Option<usize>)
    ensures
        match r {
            Some(o) => scan_last(f@) == Some(o as int),
            None => scan_last(f@) is None,
        },
{
    let n = f.len();
    let w: usize = if n < 0xa00000 {
        n
    } else {
        0xa00000
    };
    if w < 8 {
        return None;
    }
    let mut k: usize = w - 7;
    while k > 0
        invariant
            k <= scan_window(f@) - 7,
            scan_before(f@, scan_window(f@) - 7) == scan_before(f@, k as int),
        decreases k,
    {
        if magic_at(f, k - 1) {
            return Some(k - 1);
        }
        k = k - 1;
    }
    None
}

/// Where the header magic of this file stands: the footer index when it is
/// well formed, else the last magic in the scan window.
pub open spec fn locate_spec(f: Seq<u8>) -> Option<int> {
    match footer_probe(f) {
        Some(o) => Some(o),
        None => scan_last(f),
    }
}

/// Finds the header offset of a package image, footer first, scan as fallback.
pub fn locate_header(f: &Vec<u8>) -> (r: Option<usize>)
    ensures
        match r {
            Some(o) => locate_spec(f@) == Some(o as int),
            None => locate_spec(f@) is None,
        },
{
    match probe_footer(f) {
        Some(o) => Some(o),
        None => scan_magic(f),
    }
}

/// The parsed frame of a package file: where the header stands, how long the
/// metadata text is, and how long the whole file is.
#[derive(Debug, Clone, Copy, PartialEq, Eq, Structural)]
pub struct PayloadLayout {
    pub header_offset: usize,
    pub meta_len: usize,
    pub file_len: usize,
}

impl PayloadLayout {
    /// First byte of the metadata text.
    pub open spec fn spec_meta_start(self) -> int {
        self.header_offset + 12
    }

    /// First byte of the 32-byte digest field.
    pub open spec fn spec_digest_start(self) -> int {
        self.header_offset + 12 + self.meta_len
    }

    /// First byte of the compressed payload.
    pub open spec fn spec_payload_start(self) -> int {
        self.header_offset + 44 + self.meta_len
    }

    /// One past the last payload byte; the footer fills the rest.
    pub open spec fn spec_payload_end(self) -> int {
        self.file_len - 16
    }

    /// The frame describes `f`: every field range lies inside the file.
    pub open spec fn wf(self, f: Seq<u8>) -> bool {
        &&& f.len() == self.file_len
        &&& locate_spec(f) == Some(self.header_offset as int)
        &&& self.meta_len == le32_val(f.subrange(self.header_offset + 8, self.header_offset + 12))
        &&& self.meta_len <= meta_ceiling()
        &&& self.spec_payload_start() <= self.spec_payload_end()
    }

    pub fn meta_start(&self) -> (r: usize)
        requires
            self.header_offset + 12 <= usize::MAX,
        ensures
            r == self.spec_meta_start(),
    {
        self.header_offset + 12
    }

    pub fn digest_start(&self) -> (r: usize)
        requires
            self.header_offset + 12 + self.meta_len <= usize::MAX,
        ensures
            r == self.spec_digest_start(),
    {
        self.header_offset + 12 + self.meta_len
    }

    pub fn payload_start(&self) -> (r: usize)
        requires
            self.header_offset + 44 + self.meta_len <= usize::MAX,
        ensures
            r == self.spec_payload_start(),
    {
        self.header_offset + 44 + self.meta_len
    }

    pub fn payload_end(&self) -> (r: usize)
        requires
            self.file_len >= 16,
        ensures
            r == self.spec_payload_end(),
    {
        self.file_len - 16
    }
}

/// The frame a package image denotes, or the error it earns: `NoPayload` when
/// no magic is found, `MetadataTooLarge` past the ceiling, and
/// `MetadataParseError` when the fields would overrun the file.
pub open spec fn spec_layout(f: Seq<u8>) -> Result<PayloadLayout, LxeError> {
    match locate_spec(f) {
        None => Err(LxeError::NoPayload),
        Some(o) => if o + 12 > f.len() - 16 {
            Err(LxeError::MetadataParseError)
        } else {
            let n = le32_val(f.subrange(o + 8, o + 12)) as int;
            if n > meta_ceiling() {
                Err(LxeError::MetadataTooLarge)
            } else if o + 44 + n > f.len() - 16 {
                Err(LxeError::MetadataParseError)
            } else {
                Ok(
                    PayloadLayout {
                        header_offset: o as usize,
                        meta_len: n as usize,
                        file_len: f.len() as usize,
                    },
                )
            }
        },
    }
}

/// Parses the frame of a package image.
pub fn parse_layout(f: &Vec<u8>) -> (r: Result<PayloadLayout, LxeError>)
    ensures
        r == spec_layout(f@),
        r matches Ok(l) ==> l.wf(f@),
{
    let n = f.len();
    let o = match locate_header(f) {
        Some(o) => o,
        None => {
            return Err(LxeError::NoPayload);
        },
    };
    proof {
        if locate_spec(f@) == Some(o as int) {
            match footer_probe(f@) {
                Some(_) => assert(match_at(f@, o as int)),
                None => {
                    assert(scan_last(f@) == Some(o as int));
                    lemma_scan_found(f@, scan_window(f@) - 7);
                },
            }
        }
        assert(match_at(f@, o as int));
    }
    if n < 16 {
        return Err(LxeError::MetadataParseError);
    }
    let tail = n - 16;
    if o > tail || tail - o < 12 {
        return Err(LxeError::MetadataParseError);
    }
    let meta_len = le32_read(f, o + 8);
    if meta_len > 0x100000 {
        return Err(LxeError::MetadataTooLarge);
    }
    let ml = meta_len as usize;
    if tail - o < 44 || ml > tail - o - 44 {
        return Err(LxeError::MetadataParseError);
    }
    Ok(PayloadLayout { header_offset: o, meta_len: ml, file_len: n })
}

proof fn lemma_scan_found(f: Seq<u8>, k: int)
    requires
        scan_before(f, k) is Some,
    ensures
        match_at(f, scan_before(f, k)->Some_0),
    decreases k,
{
    if k > 0 && !match_at(f, k - 1) {
        lemma_scan_found(f, k - 1);
    }
}

// --- assembly ---

/// The bytes of the package that the builder writes for the given parts.
pub open spec fn package_bytes(
    runtime: Seq<u8>,
    meta: Seq<u8>,
    digest: Seq<u8>,
    payload: Seq<u8>,
) -> Seq<u8> {
    runtime + magic() + le32(meta.len() as u32) + meta + digest + payload + le64(
        runtime.len() as u64,
    ) + magic()
}

/// Assembles a package image: runtime, header magic, metadata length,
/// metadata, digest, payload, footer offset, footer magic — in that order,
/// the footer last.
pub fn assemble_package(
    runtime: &Vec<u8>,
    meta: &Vec<u8>,
    digest: &Vec<u8>,
    payload: &Vec<u8>,
) -> (r: Vec<u8>)
    requires
        meta@.len() <= meta_ceiling(),
        digest@.len() == 32,
        runtime@.len() + meta@.len() + payload@.len() + 60 <= usize::MAX,
    ensures
        r@ == package_bytes(runtime@, meta@, digest@, payload@),
{
    let mut out: Vec<u8> = Vec::new();
    out.extend_from_slice(runtime.as_slice());
    let m = magic_bytes();
    out.extend_from_slice(m.as_slice());
    let len_bytes = le32_encode(meta.len() as u32);
    out.extend_from_slice(len_bytes.as_slice());
    out.extend_from_slice(meta.as_slice());
    out.extend_from_slice(digest.as_slice());
    out.extend_from_slice(payload.as_slice());
    let off_bytes = le64_encode(runtime.len() as u64);
    out.extend_from_slice(off_bytes.as_slice());
    out.extend_from_slice(m.as_slice());
    proof {
        assert(out@ =~= package_bytes(runtime@, meta@, digest@, payload@));
    }
    out
}

} // verus!

use crate::codec::{lemma_le32_round_trip, lemma_le64_round_trip, copy_range};

verus! {

/// Footer well-formedness and self-location of every assembled package: the
/// image ends in the magic, the eight bytes before it decode to the offset the
/// builder wrote — the runtime's length — the magic stands there, and the
/// locator returns exactly that offset.
pub proof fn lemma_package_locates(
    runtime: Seq<u8>,
    meta: Seq<u8>,
    digest: Seq<u8>,
    payload: Seq<u8>,
)
    requires
        meta.len() <= meta_ceiling(),
        digest.len() == 32,
        runtime.len() + meta.len() + payload.len() + 60 <= usize::MAX,
    ensures
        ({
            let f = package_bytes(runtime, meta, digest, payload);
            &&& f.len() == runtime.len() + meta.len() + payload.len() + 60
            &&& f.subrange(f.len() - 8, f.len() as int) == magic()
            &&& le64_val(f.subrange(f.len() - 16, f.len() - 8)) == runtime.len()
            &&& match_at(f, runtime.len() as int)
            &&& footer_probe(f) == Some(runtime.len() as int)
            &&& locate_spec(f) == Some(runtime.len() as int)
        }),
{
    let f = package_bytes(runtime, meta, digest, payload);
    let rt = runtime.len() as int;
    let m = meta.len() as int;
    let p = payload.len() as int;
    assert(f.len() == rt + m + p + 60);
    assert(f.subrange(f.len() - 8, f.len() as int) =~= magic());
    assert(f.subrange(f.len() - 16, f.len() - 8) =~= le64(runtime.len() as u64));
    lemma_le64_round_trip(runtime.len() as u64);
    assert(f.subrange(rt, rt + 8) =~= magic());
    assert(match_at(f, rt));
    assert(footer_probe(f) == Some(rt));
}

/// The frame a parser recovers from an assembled package names exactly the
/// regions the builder wrote: the metadata bytes, the 32-byte digest field
/// directly after them, and the payload running to the footer.
pub proof fn lemma_package_layout(
    runtime: Seq<u8>,
    meta: Seq<u8>,
    digest: Seq<u8>,
    payload: Seq<u8>,
)
    requires
        meta.len() <= meta_ceiling(),
        digest.len() == 32,
        runtime.len() + meta.len() + payload.len() + 60 <= usize::MAX,
    ensures
        ({
            let f = package_bytes(runtime, meta, digest, payload);
            &&& spec_layout(f) matches Ok(l)
            &&& spec_layout(f)->Ok_0 == (PayloadLayout {
                header_offset: runtime.len() as usize,
                meta_len: meta.len() as usize,
                file_len: f.len() as usize,
            })
            &&& f.subrange(
                runtime.len() as int + 12,
                runtime.len() as int + 12 + meta.len() as int,
            ) == meta
            &&& f.subrange(
                runtime.len() as int + 12 + meta.len() as int,
                runtime.len() as int + 44 + meta.len() as int,
            ) == digest
            &&& f.subrange(runtime.len() as int + 44 + meta.len() as int, f.len() - 16) == payload
        }),
{
    let f = package_bytes(runtime, meta, digest, payload);
    let rt = runtime.len() as int;
    let m = meta.len() as int;
    let p = payload.len() as int;
    lemma_package_locates(runtime, meta, digest, payload);
    assert(f.subrange(rt + 8, rt + 12) =~= le32(meta.len() as u32));
    lemma_le32_round_trip(meta.len() as u32);
    assert(le32_val(f.subrange(rt + 8, rt + 12)) == meta.len());
    assert(f.subrange(rt + 12, rt + 12 + m) =~= meta);
    assert(f.subrange(rt + 12 + m, rt + 44 + m) =~= digest);
    assert(f.subrange(rt + 44 + m, f.len() - 16) =~= payload);
}

/// Copies the metadata text out of a parsed package image.
pub fn read_meta_bytes(f: &Vec<u8>, l: &PayloadLayout) -> (r: Vec<u8>)
    requires
        l.wf(f@),
    ensures
        r@ == f@.subrange(l.spec_meta_start(), l.spec_digest_start()),
{
    copy_range(f, l.meta_start(), l.digest_start())
}

/// Copies the 32-byte digest field out of a parsed package image.
pub fn read_digest_bytes(f: &Vec<u8>, l: &PayloadLayout) -> (r: Vec<u8>)
    requires
        l.wf(f@),
    ensures
        r@ == f@.subrange(l.spec_digest_start(), l.spec_payload_start()),
        r@.len() == 32,
{
    copy_range(f, l.digest_start(), l.payload_start())
}

/// Copies the compressed payload out of a parsed package image.
pub fn read_payload_bytes(f: &Vec<u8>, l: &PayloadLayout) -> (r: Vec<u8>)
    requires
        l.wf(f@),
    ensures
        r@ == f@.subrange(l.spec_payload_start(), l.spec_payload_end()),
{
    copy_range(f, l.payload_start(), l.payload_end())
}

} // verus!

use crate::metadata::{LxeMetadata, MetaV, sp_meta, ser_meta, parse_metadata, lemma_meta_round_trip};
use crate::signing::{sha256, sha256_of, check_package_signature, verifies_spec};

verus! {

/// `needle` stands at position `i` of `haystack`.
pub open spec fn sub_match_at(h: Seq<u8>, n: Seq<u8>, i: int) -> bool {
    0 <= i && i + n.len() <= h.len() && h.subrange(i, i + n.len()) == n
}

/// The bytes of `pat` stand at position `i`.
pub fn bytes_at(f: &Vec<u8>, i: usize, pat: &Vec<u8>) -> (r: bool)
    requires
        i + pat@.len() <= f@.len(),
    ensures
        r == sub_match_at(f@, pat@, i as int),
{
    let n = f.len();
    let m = pat.len();
    let mut j: usize = 0;
    while j < m
        invariant
            j <= m,
            m == pat@.len(),
            i + m <= n,
            n == f@.len(),
            forall|t: int| 0 <= t < j ==> f@[i + t] == pat@[t],
        decreases m - j,
    {
        if f[i + j] != pat[j] {
            proof {
                assert(f@.subrange(i as int, i as int + m) == pat@ ==> f@.subrange(
                    i as int,
                    i as int + m,
                )[j as int] == pat@[j as int]);
            }
            return false;
        }
        j = j + 1;
    }
    proof {
        assert(f@.subrange(i as int, i as int + m) =~= pat@);
    }
    true
}

/// Finds the first occurrence of a non-empty byte string in another.
pub fn find_subsequence(haystack: &Vec<u8>, needle: &Vec<u8>) -> (r: Option<usize>)
    requires
        needle@.len() >= 1,
    ensures
        match r {
            Some(i) => sub_match_at(haystack@, needle@, i as int) && forall|j: int|
                0 <= j < i ==> !sub_match_at(haystack@, needle@, j),
            None => forall|j: int| !sub_match_at(haystack@, needle@, j),
        },
{
    let h = haystack.len();
    let n = needle.len();
    if n > h {
        return None;
    }
    let mut i: usize = 0;
    while i <= h - n
        invariant
            n >= 1,
            n <= h,
            i <= h,
            h == haystack@.len(),
            n == needle@.len(),
            forall|j: int| 0 <= j < i ==> !sub_match_at(haystack@, needle@, j),
        decreases h - i,
    {
        if bytes_at(haystack, i, needle) {
            return Some(i);
        }
        i = i + 1;
    }
    proof {
        assert(forall|j: int| j > h - n ==> !sub_match_at(haystack@, needle@, j));
    }
    None
}

/// What `ruzstd` decodes a compressed byte string to, where it succeeds.
pub uninterp spec fn zstd_decode_of(data: Seq<u8>) -> Option<Seq<u8>>;

/// Relies on `zstd::encode_all`: the output is a zstd frame that decodes
/// back to the input. The decoder below reads the same format with its
/// window ceiling raised past the largest window this encoder emits (window
/// log 27 at level 22), so the round trip holds over the whole level range.
#[verifier::external_body]
pub fn zstd_compress(data: &Vec<u8>, level: i32) -> (r: Result<Vec<u8>, LxeError>)
    requires
        1 <= level <= 22,
    ensures
        r matches Ok(c) ==> zstd_decode_of(c@) == Some(data@),
{
    match zstd::encode_all(std::io::Cursor::new(data.as_slice()), level) {
        Ok(c) => Ok(c),
        Err(_) => Err(LxeError::ExtractionFailed),
    }
}

/// Relies on `ruzstd`'s streaming decoder: decodes a zstd frame or fails.
/// The decoder's window ceiling is raised to 2^31 bytes so that every frame
/// the compressor above emits is within bounds: `zstd`'s encoder uses a
/// window log of at most 27 even at its highest level, while `ruzstd`'s
/// default ceiling of 100 MB would refuse the 128 MiB window of level 22.
#[verifier::external_body]
pub fn zstd_decompress(data: &Vec<u8>) -> (r: Result<Vec<u8>, LxeError>)
    ensures
        match r {
            Ok(d) => zstd_decode_of(data@) == Some(d@),
            Err(e) => zstd_decode_of(data@) is None && e == LxeError::ExtractionFailed,
        },
{
    let mut cur = std::io::Cursor::new(data.as_slice());
    let mut dec = match ruzstd::decoding::StreamingDecoder::new_with_max_window_size(&mut cur, 1u64 << 31) {
        Ok(d) => d,
        Err(_) => {
            return Err(LxeError::ExtractionFailed);
        },
    };
    let mut out = Vec::new();
    match dec.read_to_end(&mut out) {
        Ok(_) => Ok(out),
        Err(_) => Err(LxeError::ExtractionFailed),
    }
}

/// The entries `tar` reads from an archive, where it parses: each entry's
/// path bytes and file contents, in archive order.
pub uninterp spec fn tar_entries_of(data: Seq<u8>) -> Option<Seq<(Seq<u8>, Seq<u8>)>>;

/// Relies on `tar::Archive`: walks the archive entries, handing back each
/// entry's path and contents in order, or fails on a malformed archive.
#[verifier::external_body]
pub fn tar_entries(data: &Vec<u8>) -> (r: Result<Vec<(Vec<u8>, Vec<u8>)>, LxeError>)
    ensures
        match r {
            Ok(es) => tar_entries_of(data@) == Some(es.deep_view()),
            Err(e) => tar_entries_of(data@) is None && e == LxeError::ExtractionFailed,
        },
{
    let mut archive = tar::Archive::new(data.as_slice());
    let mut out: Vec<(Vec<u8>, Vec<u8>)> = Vec::new();
    let entries = match archive.entries() { Ok(e) => e, Err(_) => return Err(LxeError::ExtractionFailed) };
    for entry in entries {
        let mut entry = match entry { Ok(e) => e, Err(_) => return Err(LxeError::ExtractionFailed) };
        let path = entry.path_bytes().to_vec();
        let mut contents = Vec::new();
        if entry.read_to_end(&mut contents).is_err() { return Err(LxeError::ExtractionFailed); }
        out.push((path, contents));
    }
    Ok(out)
}

/// Everything the runtime learns from a package image: the parsed frame and
/// the metadata.
pub struct PayloadInfo {
    pub metadata: LxeMetadata,
    pub layout: PayloadLayout,
}

impl PayloadInfo {
    /// Offset of the first payload byte.
    pub fn payload_offset(&self) -> (r: usize)
        requires
            self.layout.header_offset + 44 + self.layout.meta_len <= usize::MAX,
        ensures
            r == self.layout.spec_payload_start(),
    {
        self.layout.payload_start()
    }

    /// Length of the compressed payload.
    pub fn payload_size(&self) -> (r: usize)
        requires
            self.layout.spec_payload_start() <= self.layout.spec_payload_end(),
            self.layout.file_len >= 16,
            self.layout.header_offset + 44 + self.layout.meta_len <= usize::MAX,
        ensures
            r == self.layout.spec_payload_end() - self.layout.spec_payload_start(),
    {
        self.layout.payload_end() - self.layout.payload_start()
    }
}

/// Reads a package image: locates the header by footer or scan, bounds the
/// metadata, parses it, and applies the signature policy against the 32-byte
/// digest field. Succeeds exactly on frames `spec_layout` accepts whose
/// metadata text parses and whose signature state is sound.
pub fn read_payload_info(f: &Vec<u8>) -> (r: Result<PayloadInfo, LxeError>)
    ensures
        match r {
            Ok(info) => {
                &&& spec_layout(f@) == Ok::<PayloadLayout, LxeError>(info.layout)
                &&& info.layout.wf(f@)
                &&& sp_meta(
                    f@.subrange(info.layout.spec_meta_start(), info.layout.spec_digest_start()),
                ) == Some(info.metadata@)
                &&& (info.metadata@.public_key is Some == info.metadata@.signature is Some)
                &&& (info.metadata@.public_key is Some ==> verifies_spec(
                    info.metadata@,
                    f@.subrange(info.layout.spec_digest_start(), info.layout.spec_payload_start()),
                ))
            },
            Err(e) => {
                ||| spec_layout(f@) == Err::<PayloadLayout, LxeError>(e)
                ||| (spec_layout(f@) matches Ok(l) && {
                    let meta = f@.subrange(l.spec_meta_start(), l.spec_digest_start());
                    ||| (sp_meta(meta) is None && e == LxeError::MetadataParseError)
                    ||| (sp_meta(meta) matches Some(mv) && {
                        ||| (e == LxeError::MalformedSignature && (mv.public_key is Some)
                            != (mv.signature is Some))
                        ||| (e == LxeError::UnauthenticPackage && mv.public_key is Some
                            && mv.signature is Some && !verifies_spec(
                            mv,
                            f@.subrange(l.spec_digest_start(), l.spec_payload_start()),
                        ))
                    })
                })
            },
        },
{
    let layout = match parse_layout(f) {
        Ok(l) => l,
        Err(e) => {
            return Err(e);
        },
    };
    let meta_bytes = read_meta_bytes(f, &layout);
    let metadata = match parse_metadata(&meta_bytes) {
        Ok(m) => m,
        Err(e) => {
            return Err(e);
        },
    };
    let digest = read_digest_bytes(f, &layout);
    match check_package_signature(&metadata, &digest) {
        Ok(_) => Ok(PayloadInfo { metadata, layout }),
        Err(e) => Err(e),
    }
}

/// Recomputes the payload digest and compares it with the hex checksum the
/// metadata carries: the optional second line of defense.
pub fn verify_checksum(f: &Vec<u8>, info: &PayloadInfo) -> (r: bool)
    requires
        info.layout.wf(f@),
    ensures
        r == (hex_of(sha256_of(f@.subrange(info.layout.spec_payload_start(), info.layout.spec_payload_end())))
            == info.metadata@.payload_checksum),
{
    let payload = read_payload_bytes(f, &info.layout);
    let digest = sha256(&payload);
    let hex = crate::codec::hex_encode(&digest);
    let expected = &info.metadata.payload_checksum;
    proof {
        assert(hex@ == hex_of(sha256_of(f@.subrange(
            info.layout.spec_payload_start(),
            info.layout.spec_payload_end(),
        ))));
    }
    proof {
        assert(expected@ == info.metadata@.payload_checksum);
    }
    if hex.len() != expected.len() {
        proof {
            assert(hex@ != expected@);
        }
        return false;
    }
    let mut i: usize = 0;
    while i < hex.len()
        invariant
            hex@.len() == expected@.len(),
            i <= hex@.len(),
            forall|t: int| 0 <= t < i ==> hex@[t] == expected@[t],
            hex@ == hex_of(sha256_of(f@.subrange(
                info.layout.spec_payload_start(),
                info.layout.spec_payload_end(),
            ))),
            expected@ == info.metadata@.payload_checksum,
        decreases hex@.len() - i,
    {
        if hex[i] != expected[i] {
            proof {
                assert(hex@ == expected@ ==> hex@[i as int] == expected@[i as int]);
            }
            return false;
        }
        i = i + 1;
    }
    proof {
        assert(hex@ =~= expected@);
    }
    true
}

/// Digest binding for every assembled package: the 32-byte field directly
/// after the metadata equals the SHA-256 of the payload byte range.
pub proof fn lemma_digest_binding(runtime: Seq<u8>, meta: Seq<u8>, payload: Seq<u8>)
    requires
        meta.len() <= meta_ceiling(),
        sha256_of(payload).len() == 32,
        runtime.len() + meta.len() + payload.len() + 60 <= usize::MAX,
    ensures
        ({
            let f = package_bytes(runtime, meta, sha256_of(payload), payload);
            &&& spec_layout(f) matches Ok(l)
            &&& f.subrange(
                spec_layout(f)->Ok_0.spec_digest_start(),
                spec_layout(f)->Ok_0.spec_payload_start(),
            ) == sha256_of(
                f.subrange(
                    spec_layout(f)->Ok_0.spec_payload_start(),
                    spec_layout(f)->Ok_0.spec_payload_end(),
                ),
            )
        }),
{
    lemma_package_layout(runtime, meta, sha256_of(payload), payload);
}

} // verus!

use crate::extractor::{safe_entry_path, plan_extraction};

verus! {

/// What unpacking a compressed payload yields: the tar entries of the
/// decompressed bytes, provided every entry path is safe to unpack.
pub open spec fn unpack_spec(payload: Seq<u8>) -> Option<Seq<(Seq<u8>, Seq<u8>)>> {
    match zstd_decode_of(payload) {
        None => None,
        Some(d) => match tar_entries_of(d) {
            None => None,
            Some(es) => if forall|i: int| 0 <= i < es.len() ==> safe_entry_path(#[trigger] es[i].0) {
                Some(es)
            } else {
                None
            },
        },
    }
}

/// The whole extraction pipeline on bytes: decompress the payload, read the
/// tar entries, and refuse the archive unless every entry path is relative
/// and free of upward steps. What comes back is exactly what the archive
/// holds, ready to be written below a staging directory.
pub fn unpack_payload(payload: &Vec<u8>) -> (r: Result<Vec<(Vec<u8>, Vec<u8>)>, LxeError>)
    ensures
        match r {
            Ok(es) => unpack_spec(payload@) == Some(es.deep_view()),
            Err(e) => unpack_spec(payload@) is None && e == LxeError::ExtractionFailed,
        },
{
    let tar_bytes = match zstd_decompress(payload) {
        Ok(d) => d,
        Err(e) => {
            return Err(e);
        },
    };
    let entries = match tar_entries(&tar_bytes) {
        Ok(es) => es,
        Err(e) => {
            return Err(e);
        },
    };
    let ghost dv = entries.deep_view();
    let ghost ev = entries@;
    match plan_extraction(entries) {
        Ok(es) => {
            proof {
                assert forall|i: int| 0 <= i < dv.len() implies safe_entry_path(
                    #[trigger] dv[i].0,
                ) by {
                    assert(dv[i] == ev[i].deep_view());
                    assert(ev[i].deep_view().0 == ev[i].0.deep_view());
                    assert(ev[i].0.deep_view() =~= ev[i].0@);
                    assert(safe_entry_path(ev[i].0@));
                }
                assert(es.deep_view() =~= dv) by {
                    assert forall|i: int| 0 <= i < es@.len() implies es.deep_view()[i]
                        == dv[i] by {
                        assert(es@[i] == ev[i]);
                        assert(es.deep_view()[i] == es@[i].deep_view());
                        assert(dv[i] == ev[i].deep_view());
                    }
                }
            }
            Ok(es)
        },
        Err(e) => {
            proof {
                let w = choose|i: int| 0 <= i < ev.len() && !safe_entry_path(ev[i].0@);
                assert(dv[w] == ev[w].deep_view());
                assert(ev[w].0.deep_view() =~= ev[w].0@);
                assert(!safe_entry_path(dv[w].0));
            }
            Err(e)
        },
    }
}

} // verus!

verus! {

/// A signed build verifies back whole: for any metadata whose signature
/// fields verify against the payload digest, the package the builder
/// assembles from its canonical serialization self-locates at the runtime's
/// length, parses back to exactly that metadata — the embedded public key
/// included — and passes the signature policy against the digest field the
/// file itself carries.
pub proof fn lemma_signed_package_verifies(v: MetaV, runtime: Seq<u8>, payload: Seq<u8>)
    requires
        verifies_spec(v, sha256_of(payload)),
        ser_meta(v).len() <= meta_ceiling(),
        sha256_of(payload).len() == 32,
        runtime.len() + ser_meta(v).len() + payload.len() + 60 <= usize::MAX,
    ensures
        ({
            let f = package_bytes(runtime, ser_meta(v), sha256_of(payload), payload);
            let l = spec_layout(f)->Ok_0;
            &&& spec_layout(f) is Ok
            &&& locate_spec(f) == Some(runtime.len() as int)
            &&& sp_meta(f.subrange(l.spec_meta_start(), l.spec_digest_start())) == Some(v)
            &&& f.subrange(l.spec_digest_start(), l.spec_payload_start()) == sha256_of(
                f.subrange(l.spec_payload_start(), l.spec_payload_end()),
            )
            &&& verifies_spec(v, f.subrange(l.spec_digest_start(), l.spec_payload_start()))
        }),
{
    lemma_package_locates(runtime, ser_meta(v), sha256_of(payload), payload);
    lemma_package_layout(runtime, ser_meta(v), sha256_of(payload), payload);
    lemma_meta_round_trip(v);
}

} // verus!
