//! Locating, removing and inserting `tEXt` chunks in a PNG byte stream.
//!
//! A stream is the 8-byte signature followed by chunks. Each chunk is a
//! big-endian 4-byte length `n`, a 4-byte type, `n` bytes of data and a 4-byte
//! CRC over type and data. Every operation here is a pure function on bytes
//! and leaves all other chunks untouched.

use vstd::prelude::*;

verus! {

/// The stream is not a structurally valid PNG.
#[derive(Debug, Clone, Copy, PartialEq, Eq, Structural)]
pub enum PngError {
    /// Bad signature, a chunk whose length runs past the end, or no end chunk
    /// to insert before.
    Malformed,
    /// A chunk to be written would be longer than a PNG chunk may be.
    TooLarge,
}

/// The largest length of chunk data that PNG allows.
pub const MAX_CHUNK_DATA: usize = 0x7fff_ffff;

pub open spec fn png_signature() -> Seq<u8> {
    seq![137u8, 80u8, 78u8, 71u8, 13u8, 10u8, 26u8, 10u8]
}

/// Chunk type `tEXt`.
pub open spec fn text_type() -> Seq<u8> {
    seq![116u8, 69u8, 88u8, 116u8]
}

/// Chunk type `IEND`.
pub open spec fn end_type() -> Seq<u8> {
    seq![73u8, 69u8, 78u8, 68u8]
}

pub open spec fn has_signature(s: Seq<u8>) -> bool {
    s.len() >= 8 && s.subrange(0, 8) == png_signature()
}

/// Big-endian unsigned value of the four bytes at `p`.
pub open spec fn be32(s: Seq<u8>, p: int) -> int {
    s[p] as int * 16777216 + s[p + 1] as int * 65536 + s[p + 2] as int * 256 + s[p + 3] as int
}

/// Offset just past the chunk that starts at `p`.
pub open spec fn chunk_end(s: Seq<u8>, p: int) -> int {
    p + 12 + be32(s, p)
}

/// The chunk header at `p` is complete and its declared data fits in `s`.
pub open spec fn frame_fits(s: Seq<u8>, p: int) -> bool {
    p + 12 <= s.len() && chunk_end(s, p) <= s.len()
}

/// The chunk at `p` is the one sought: the end chunk for `None`, a text chunk
/// whose data begins with `k` and a zero byte for `Some(k)`.
pub open spec fn is_target(s: Seq<u8>, p: int, key: Option<Seq<u8>>) -> bool {
    match key {
        None => s.subrange(p + 4, p + 8) == end_type(),
        Some(k) => s.subrange(p + 4, p + 8) == text_type() && k.len() + 1 <= be32(s, p)
            && s.subrange(p + 8, p + 8 + k.len()) == k && s[p + 8 + k.len()] == 0,
    }
}

/// The CRC stored after the chunk at `p` is that of its type and data.
pub open spec fn crc_ok(s: Seq<u8>, p: int) -> bool {
    crc32_of(s.subrange(p + 4, chunk_end(s, p) - 4)) as int == be32(s, chunk_end(s, p) - 4)
}

/// Outcome of a forward scan over the chunks.
pub enum Scan {
    Malformed,
    Absent,
    At(int),
}

/// Forward scan from the chunk at `p`: the first target wins, and a chunk
/// that does not fit before it is reached, or a target whose CRC does not
/// match, makes the stream malformed.
pub open spec fn scan(s: Seq<u8>, p: int, key: Option<Seq<u8>>) -> Scan
    decreases s.len() - p,
{
    if p >= s.len() {
        Scan::Absent
    } else if !frame_fits(s, p) {
        Scan::Malformed
    } else if is_target(s, p, key) {
        if crc_ok(s, p) {
            Scan::At(p)
        } else {
            Scan::Malformed
        }
    } else {
        scan(s, chunk_end(s, p), key)
    }
}

/// Scan of a whole stream, signature first.
pub open spec fn find(s: Seq<u8>, key: Option<Seq<u8>>) -> Scan {
    if !has_signature(s) {
        Scan::Malformed
    } else {
        scan(s, 8, key)
    }
}

/// Four big-endian bytes of `n`.
pub open spec fn u32_be(n: int) -> Seq<u8> {
    seq![
        (n / 16777216 % 256) as u8,
        (n / 65536 % 256) as u8,
        (n / 256 % 256) as u8,
        (n % 256) as u8,
    ]
}

/// Type and data of a text chunk: what its CRC covers.
pub open spec fn text_body(k: Seq<u8>, v: Seq<u8>) -> Seq<u8> {
    text_type() + k + seq![0u8] + v
}

/// The full bytes of a text chunk with keyword `k` and value `v`.
pub open spec fn text_chunk(k: Seq<u8>, v: Seq<u8>) -> Seq<u8> {
    u32_be((k.len() + 1 + v.len()) as int) + text_body(k, v) + u32_be(crc32_of(text_body(k, v)) as int)
}

/// The CRC-32 that PNG puts after each chunk.
pub uninterp spec fn crc32_of(b: Seq<u8>) -> u32;

/// Relies on crc32fast::hash: the CRC-32 (IEEE) of the bytes, as PNG uses it.
#[verifier::external_body]
fn crc32(b: &[u8]) -> (r: u32)
    ensures
        r == crc32_of(b@),
{
    crc32fast::hash(b)
}


/// Whether `pat` occurs in `s` at offset `p`.
fn bytes_at(s: &[u8], p: usize, pat: &[u8]) -> (r: bool)
    requires
        p + pat@.len() <= s@.len(),
    ensures
        r == (s@.subrange(p as int, p + pat@.len()) == pat@),
{
    let len = s.len();
    let mut i: usize = 0;
    while i < pat.len()
        invariant
            len == s@.len(),
            i <= pat@.len(),
            p + pat@.len() <= s@.len(),
            forall|j: int| 0 <= j < i ==> s@[p + j] == pat@[j],
        decreases pat@.len() - i,
    {
        if s[p + i] != pat[i] {
            assert(s@.subrange(p as int, p + pat@.len())[i as int] != pat@[i as int]);
            return false;
        }
        i += 1;
    }
    assert(s@.subrange(p as int, p + pat@.len()) =~= pat@);
    true
}

fn signature_ok(s: &[u8]) -> (r: bool)
    ensures
        r == has_signature(s@),
{
    if s.len() < 8 {
        return false;
    }
    let sig: [u8; 8] = [137, 80, 78, 71, 13, 10, 26, 10];
    assert(sig@ =~= png_signature());
    bytes_at(s, 0, sig.as_slice())
}

fn read_be32(s: &[u8], p: usize) -> (r: u64)
    requires
        p + 4 <= s@.len(),
    ensures
        r as int == be32(s@, p as int),
        r <= 0xffff_ffff,
{
    (s[p] as u64) * 16777216 + (s[p + 1] as u64) * 65536 + (s[p + 2] as u64) * 256 + (s[p + 3] as u64)
}

pub open spec fn key_view(key: Option<&[u8]>) -> Option<Seq<u8>> {
    match key {
        Some(k) => Some(k@),
        None => None,
    }
}

fn target_at(s: &[u8], p: usize, n: u64, key: Option<&[u8]>) -> (r: bool)
    requires
        frame_fits(s@, p as int),
        n as int == be32(s@, p as int),
        s@.len() <= usize::MAX,
    ensures
        r == is_target(s@, p as int, key_view(key)),
{
    match key {
        None => {
            let ty: [u8; 4] = [73, 69, 78, 68];
            assert(ty@ =~= end_type());
            bytes_at(s, p + 4, ty.as_slice())
        },
        Some(k) => {
            let ty: [u8; 4] = [116, 69, 88, 116];
            assert(ty@ =~= text_type());
            if !bytes_at(s, p + 4, ty.as_slice()) {
                return false;
            }
            if (k.len() as u64) >= n {
                return false;
            }
            bytes_at(s, p + 8, k) && s[p + 8 + k.len()] == 0
        },
    }
}

/// Offset of the first chunk sought, scanning forward from the signature.
fn find_chunk(s: &[u8], key: Option<&[u8]>) -> (r: Result<Option<usize>, PngError>)
    ensures
        s@.len() <= usize::MAX,
        match find(s@, key_view(key)) {
            Scan::Malformed => r == Err::<Option<usize>, PngError>(PngError::Malformed),
            Scan::Absent => r == Ok::<Option<usize>, PngError>(None),
            Scan::At(p) => 8 <= p && frame_fits(s@, p) && is_target(s@, p, key_view(key)) && r
                == Ok::<Option<usize>, PngError>(Some(p as usize)),
        },
{
    let len = s.len();
    if !signature_ok(s) {
        return Err(PngError::Malformed);
    }
    let mut p: usize = 8;
    while p < len
        invariant
            len == s@.len(),
            8 <= p <= s@.len(),
            find(s@, key_view(key)) == scan(s@, p as int, key_view(key)),
        decreases s@.len() - p,
    {
        if len - p < 12 {
            return Err(PngError::Malformed);
        }
        let n = read_be32(s, p);
        if n > (len - p - 12) as u64 {
            return Err(PngError::Malformed);
        }
        if target_at(s, p, n, key) {
            let end = p + 12 + n as usize;
            let crc = crc32(&s[p + 4..end - 4]);
            if crc as u64 != read_be32(s, end - 4) {
                return Err(PngError::Malformed);
            }
            return Ok(Some(p));
        }
        p = p + 12 + n as usize;
    }
    Ok(None)
}


/// `s` without the chunk that starts at `p`.
pub open spec fn without_chunk(s: Seq<u8>, p: int) -> Seq<u8> {
    s.subrange(0, p) + s.subrange(chunk_end(s, p), s.len() as int)
}

/// `s` with the bytes `c` put in at offset `q`.
pub open spec fn with_bytes_at(s: Seq<u8>, q: int, c: Seq<u8>) -> Seq<u8> {
    s.subrange(0, q) + c + s.subrange(q, s.len() as int)
}

fn push_range(out: &mut Vec<u8>, s: &[u8], a: usize, b: usize)
    requires
        a <= b <= s@.len(),
    ensures
        final(out)@ == old(out)@ + s@.subrange(a as int, b as int),
{
    let mut i: usize = a;
    while i < b
        invariant
            a <= i <= b <= s@.len(),
            out@ == old(out)@ + s@.subrange(a as int, i as int),
        decreases b - i,
    {
        out.push(s[i]);
        i += 1;
        assert(out@ =~= old(out)@ + s@.subrange(a as int, i as int));
    }
}

fn push_u32_be(out: &mut Vec<u8>, n: u32)
    ensures
        final(out)@ == old(out)@ + u32_be(n as int),
{
    out.push((n / 16777216 % 256) as u8);
    out.push((n / 65536 % 256) as u8);
    out.push((n / 256 % 256) as u8);
    out.push((n % 256) as u8);
    assert(out@ =~= old(out)@ + u32_be(n as int));
}

/// Span `(start, end)` of the value of the first text chunk with `keyword`:
/// the data after the keyword and its zero byte.
pub fn locate_text_chunk(image: &[u8], keyword: &[u8]) -> (r: Result<Option<(usize, usize)>, PngError>)
    ensures
        match find(image@, Some(keyword@)) {
            Scan::Malformed => r == Err::<Option<(usize, usize)>, PngError>(PngError::Malformed),
            Scan::Absent => r == Ok::<Option<(usize, usize)>, PngError>(None),
            Scan::At(p) => frame_fits(image@, p) && is_target(image@, p, Some(keyword@)) && (r matches Ok(
                Some((a, b)),
            ) && a == p + 9 + keyword@.len() && b == chunk_end(image@, p) - 4),
        },
        r matches Ok(Some((a, b))) ==> a <= b <= image@.len(),
{
    match find_chunk(image, Some(keyword)) {
        Err(e) => Err(e),
        Ok(None) => Ok(None),
        Ok(Some(p)) => {
            let n = read_be32(image, p);
            Ok(Some((p + 9 + keyword.len(), p + 8 + n as usize)))
        },
    }
}

/// Value bytes of the first text chunk with `keyword`, if there is one.
pub fn read_text_chunk(image: &[u8], keyword: &[u8]) -> (r: Result<Option<Vec<u8>>, PngError>)
    ensures
        match find(image@, Some(keyword@)) {
            Scan::Malformed => r == Err::<Option<Vec<u8>>, PngError>(PngError::Malformed),
            Scan::Absent => r == Ok::<Option<Vec<u8>>, PngError>(None),
            Scan::At(p) => r matches Ok(Some(v)) && v@ == image@.subrange(
                p + 9 + keyword@.len(),
                chunk_end(image@, p) - 4,
            ),
        },
{
    match locate_text_chunk(image, keyword) {
        Err(e) => Err(e),
        Ok(None) => Ok(None),
        Ok(Some((a, b))) => {
            let mut v: Vec<u8> = Vec::new();
            push_range(&mut v, image, a, b);
            assert(v@ =~= image@.subrange(a as int, b as int));
            Ok(Some(v))
        },
    }
}

/// The image without its first text chunk with `keyword`: that chunk's
/// length, type, data and CRC are cut out and every other byte is kept in
/// order. Without such a chunk the image comes back unchanged.
pub fn remove_text_chunk(image: &[u8], keyword: &[u8]) -> (r: Result<Vec<u8>, PngError>)
    ensures
        bytes_result(r) == removal(image@, keyword@),
{
    let mut out: Vec<u8> = Vec::new();
    match find_chunk(image, Some(keyword)) {
        Err(e) => Err(e),
        Ok(None) => {
            push_range(&mut out, image, 0, image.len());
            assert(out@ =~= image@);
            Ok(out)
        },
        Ok(Some(p)) => {
            let n = read_be32(image, p);
            push_range(&mut out, image, 0, p);
            push_range(&mut out, image, p + 12 + n as usize, image.len());
            Ok(out)
        },
    }
}

/// The bytes of a new text chunk, CRC included.
fn new_text_chunk(keyword: &[u8], value: &[u8]) -> (r: Vec<u8>)
    requires
        keyword@.len() + 1 + value@.len() <= MAX_CHUNK_DATA,
    ensures
        r@ == text_chunk(keyword@, value@),
{
    let mut body: Vec<u8> = Vec::new();
    body.push(116);
    body.push(69);
    body.push(88);
    body.push(116);
    push_range(&mut body, keyword, 0, keyword.len());
    body.push(0);
    push_range(&mut body, value, 0, value.len());
    assert(keyword@.subrange(0, keyword@.len() as int) =~= keyword@);
    assert(value@.subrange(0, value@.len() as int) =~= value@);
    assert(body@ =~= text_body(keyword@, value@));
    let crc = crc32(body.as_slice());
    let mut out: Vec<u8> = Vec::new();
    push_u32_be(&mut out, (keyword.len() + 1 + value.len()) as u32);
    push_range(&mut out, body.as_slice(), 0, body.len());
    push_u32_be(&mut out, crc);
    assert(body@.subrange(0, body@.len() as int) =~= body@);
    assert(out@ =~= text_chunk(keyword@, value@));
    out
}

/// The image with a new text chunk put in just before its end chunk. Any
/// chunk with the same keyword is left in place.
pub fn insert_text_chunk(image: &[u8], keyword: &[u8], value: &[u8]) -> (r: Result<Vec<u8>, PngError>)
    ensures
        bytes_result(r) == insertion(image@, keyword@, value@),
{
    if keyword.len() >= MAX_CHUNK_DATA || value.len() > MAX_CHUNK_DATA - 1 - keyword.len() {
        return Err(PngError::TooLarge);
    }
    match find_chunk(image, None) {
        Ok(Some(q)) => {
            let chunk = new_text_chunk(keyword, value);
            let mut out: Vec<u8> = Vec::new();
            push_range(&mut out, image, 0, q);
            push_range(&mut out, chunk.as_slice(), 0, chunk.len());
            push_range(&mut out, image, q, image.len());
            assert(chunk@.subrange(0, chunk@.len() as int) =~= chunk@);
            Ok(out)
        },
        _ => Err(PngError::Malformed),
    }
}


/// What `remove_text_chunk` returns, in bytes.
pub open spec fn removal(s: Seq<u8>, k: Seq<u8>) -> Result<Seq<u8>, PngError> {
    match find(s, Some(k)) {
        Scan::Malformed => Err(PngError::Malformed),
        Scan::Absent => Ok(s),
        Scan::At(p) => Ok(without_chunk(s, p)),
    }
}

/// What `insert_text_chunk` returns, in bytes.
pub open spec fn insertion(s: Seq<u8>, k: Seq<u8>, v: Seq<u8>) -> Result<Seq<u8>, PngError> {
    if k.len() + 1 + v.len() > MAX_CHUNK_DATA {
        Err(PngError::TooLarge)
    } else {
        match find(s, None) {
            Scan::At(q) => Ok(with_bytes_at(s, q, text_chunk(k, v))),
            _ => Err(PngError::Malformed),
        }
    }
}

pub open spec fn bytes_result(r: Result<Vec<u8>, PngError>) -> Result<Seq<u8>, PngError> {
    match r {
        Ok(v) => Ok(v@),
        Err(e) => Err(e),
    }
}

/// The chunks from `p` on lie whole in `s` and end exactly at `q`.
pub open spec fn walks(s: Seq<u8>, p: int, q: int) -> bool
    decreases q - p,
{
    if p >= q {
        p == q
    } else {
        frame_fits(s, p) && chunk_end(s, p) <= q && walks(s, chunk_end(s, p), q)
    }
}

/// `n` bytes of `s` from `a` equal those of `t` from `b`.
pub open spec fn agree(s: Seq<u8>, a: int, t: Seq<u8>, b: int, n: int) -> bool {
    0 <= a && 0 <= b && a + n <= s.len() && b + n <= t.len() && forall|x: int|
        0 <= x < n ==> #[trigger] s[a + x] == t[b + x]
}

proof fn lemma_agree_window(s: Seq<u8>, a: int, t: Seq<u8>, b: int, n: int, i: int, j: int)
    requires
        agree(s, a, t, b, n),
        0 <= i <= j <= n,
    ensures
        s.subrange(a + i, a + j) == t.subrange(b + i, b + j),
{
    assert forall|x: int| 0 <= x < j - i implies #[trigger] s.subrange(a + i, a + j)[x] == t.subrange(b + i, b + j)[x] by {
        assert(s[a + (i + x)] == t[b + (i + x)]);
    }
    assert(s.subrange(a + i, a + j) =~= t.subrange(b + i, b + j));
}

proof fn lemma_chunk_agree(s: Seq<u8>, a: int, t: Seq<u8>, b: int, key: Option<Seq<u8>>)
    requires
        agree(s, a, t, b, 8),
    ensures
        be32(s, a) == be32(t, b),
        agree(s, a, t, b, 8 + be32(s, a)) ==> is_target(s, a, key) == is_target(t, b, key),
        agree(s, a, t, b, 12 + be32(s, a)) ==> crc_ok(s, a) == crc_ok(t, b),
{
    assert(s[a + 0] == t[b + 0]);
    assert(s[a + 1] == t[b + 1]);
    assert(s[a + 2] == t[b + 2]);
    assert(s[a + 3] == t[b + 3]);
    let n = 8 + be32(s, a);
    if agree(s, a, t, b, n) {
        lemma_agree_window(s, a, t, b, n, 4, 8);
        if let Some(k) = key {
            if k.len() + 1 <= be32(s, a) {
                lemma_agree_window(s, a, t, b, n, 8, 8 + k.len() as int);
                assert(s[a + (8 + k.len())] == t[b + (8 + k.len())]);
            }
        }
    }
    let m = 12 + be32(s, a);
    if agree(s, a, t, b, m) {
        lemma_agree_window(s, a, t, b, m, 4, m - 4);
        assert(s[a + (m - 4)] == t[b + (m - 4)]);
        assert(s[a + (m - 3)] == t[b + (m - 3)]);
        assert(s[a + (m - 2)] == t[b + (m - 2)]);
        assert(s[a + (m - 1)] == t[b + (m - 1)]);
    }
}

proof fn lemma_scan_at_ge(s: Seq<u8>, p: int, key: Option<Seq<u8>>)
    ensures
        scan(s, p, key) matches Scan::At(r) ==> r >= p && frame_fits(s, r) && is_target(s, r, key),
    decreases s.len() - p,
{
    if p < s.len() && frame_fits(s, p) && !is_target(s, p, key) {
        lemma_scan_at_ge(s, chunk_end(s, p), key);
    }
}

/// A scan that finds its target at `q` walked whole chunks up to `q`.
proof fn lemma_scan_walks(s: Seq<u8>, p: int, key: Option<Seq<u8>>, q: int)
    requires
        0 <= p,
        scan(s, p, key) == Scan::At(q),
    ensures
        walks(s, p, q),
    decreases s.len() - p,
{
    if p < s.len() && frame_fits(s, p) && !is_target(s, p, key) {
        lemma_scan_walks(s, chunk_end(s, p), key, q);
    }
}

/// The scan ended before offset `q`.
pub open spec fn stops_before(r: Scan, q: int) -> bool {
    match r {
        Scan::Malformed => true,
        Scan::Absent => false,
        Scan::At(x) => x < q,
    }
}

/// Two streams that share their bytes up to `q` scan alike over the chunks
/// before `q`.
proof fn lemma_scan_prefix(s: Seq<u8>, t: Seq<u8>, p: int, q: int, key: Option<Seq<u8>>)
    requires
        8 <= p,
        walks(s, p, q),
        q <= s.len(),
        q <= t.len(),
        agree(s, 0, t, 0, q),
    ensures
        scan(s, p, key) == scan(s, q, key) && scan(t, p, key) == scan(t, q, key) || scan(t, p, key)
            == scan(s, p, key) && stops_before(scan(s, p, key), q),
    decreases q - p,
{
    if p < q {
        assert(agree(s, p, t, p, 8)) by {
            assert forall|x: int| 0 <= x < 8 implies #[trigger] s[p + x] == t[p + x] by {
                assert(s[0 + (p + x)] == t[0 + (p + x)]);
            }
        }
        lemma_chunk_agree(s, p, t, p, key);
        let n = 12 + be32(s, p);
        assert(agree(s, p, t, p, n)) by {
            assert forall|x: int| 0 <= x < n implies #[trigger] s[p + x] == t[p + x] by {
                assert(s[0 + (p + x)] == t[0 + (p + x)]);
            }
        }
        lemma_scan_prefix(s, t, chunk_end(s, p), q, key);
    } else {
        lemma_scan_at_ge(s, p, key);
    }
}

/// Scans over equal tails agree, shifted by the difference of offsets.
proof fn lemma_scan_shift(s: Seq<u8>, a: int, t: Seq<u8>, b: int, key: Option<Seq<u8>>)
    requires
        agree(s, a, t, b, s.len() - a),
        s.len() - a == t.len() - b,
    ensures
        match scan(s, a, key) {
            Scan::Malformed => scan(t, b, key) == Scan::Malformed,
            Scan::Absent => scan(t, b, key) == Scan::Absent,
            Scan::At(x) => scan(t, b, key) == Scan::At(x - a + b),
        },
    decreases s.len() - a,
{
    if a < s.len() && a + 12 <= s.len() {
        lemma_chunk_agree(s, a, t, b, key);
        let e = chunk_end(s, a);
        if e <= s.len() {
            let d = e - a;
            assert(agree(s, e, t, b + d, s.len() - e)) by {
                assert forall|x: int| 0 <= x < s.len() - e implies #[trigger] s[e + x] == t[b + d + x] by {
                    assert(s[a + (d + x)] == t[b + (d + x)]);
                }
            }
            lemma_scan_shift(s, e, t, b + d, key);
        }
    }
}

proof fn lemma_u32_be(n: int)
    requires
        0 <= n < 0x1_0000_0000,
    ensures
        u32_be(n).len() == 4,
        be32(u32_be(n), 0) == n,
{
    let x = n as u32;
    assert(((x / 16777216 % 256) * 16777216 + (x / 65536 % 256) * 65536 + (x / 256 % 256) * 256
        + x % 256) == x) by (bit_vector);
}


/// A text chunk put into a stream that had none with its keyword is the one
/// a scan finds, and its value is what was put in.
pub proof fn lemma_inserted_chunk_found(s: Seq<u8>, k: Seq<u8>, v: Seq<u8>)
    requires
        find(s, Some(k)) == Scan::Absent,
    ensures
        insertion(s, k, v) matches Ok(j) ==> find(j, Some(k)) matches Scan::At(q) && j.subrange(
            q + 9 + k.len(),
            chunk_end(j, q) - 4,
        ) == v && without_chunk(j, q) == s,
{
    if k.len() + 1 + v.len() <= MAX_CHUNK_DATA {
        if let Scan::At(q) = find(s, None) {
            let c = text_chunk(k, v);
            let j = with_bytes_at(s, q, c);
            lemma_scan_at_ge(s, 8, None);
            lemma_scan_walks(s, 8, None, q);
            assert(agree(s, 0, j, 0, q));
            lemma_scan_prefix(s, j, 8, q, Some(k));
            assert(j.subrange(0, 8) =~= s.subrange(0, 8));
            lemma_new_chunk_found(s, q, k, v);
            assert(without_chunk(j, q) =~= s);
            assert(j.subrange(q + 9 + k.len(), chunk_end(j, q) - 4) =~= v);
        }
    }
}

/// Removing a text chunk just put in gives back the stream it was put into,
/// when that stream held no text chunk with the same keyword.
pub proof fn lemma_remove_after_insert(s: Seq<u8>, k: Seq<u8>, v: Seq<u8>)
    requires
        find(s, Some(k)) == Scan::Absent,
    ensures
        insertion(s, k, v) matches Ok(j) ==> removal(j, k) == Ok::<Seq<u8>, PngError>(s),
{
    lemma_inserted_chunk_found(s, k, v);
}

/// The text chunk put in at `q` is the one a scan from `q` finds.
proof fn lemma_new_chunk_found(s: Seq<u8>, q: int, k: Seq<u8>, v: Seq<u8>)
    requires
        0 <= q <= s.len(),
        k.len() + 1 + v.len() <= MAX_CHUNK_DATA,
    ensures
        scan(with_bytes_at(s, q, text_chunk(k, v)), q, Some(k)) == Scan::At(q),
        chunk_end(with_bytes_at(s, q, text_chunk(k, v)), q) == q + text_chunk(k, v).len(),
{
    let n = k.len() + 1 + v.len();
    let c = text_chunk(k, v);
    let j = with_bytes_at(s, q, c);
    let body = text_body(k, v);
    let crc = crc32_of(body) as int;
    lemma_u32_be(n as int);
    lemma_u32_be(crc);
    assert(c.len() == 12 + n);
    assert(agree(u32_be(n as int), 0, j, q, 4)) by {
        assert forall|x: int| 0 <= x < 4 implies #[trigger] u32_be(n as int)[0 + x] == j[q + x] by {
            assert(j[q + x] == c[x]);
        }
    }
    lemma_chunk_agree_be32(u32_be(n as int), j, q);
    assert(j.subrange(q + 4, q + 8) =~= text_type());
    assert(j.subrange(q + 8, q + 8 + k.len()) =~= k);
    assert(j[q + 8 + k.len()] == c[8 + k.len() as int]);
    assert(j.subrange(q + 4, q + 8 + n) =~= body);
    assert(agree(u32_be(crc), 0, j, q + 8 + n, 4)) by {
        assert forall|x: int| 0 <= x < 4 implies #[trigger] u32_be(crc)[0 + x] == j[q + 8 + n + x] by {
            assert(j[q + 8 + n + x] == c[8 + n + x]);
        }
    }
    lemma_chunk_agree_be32(u32_be(crc), j, q + 8 + n);
}

proof fn lemma_chunk_agree_be32(u: Seq<u8>, t: Seq<u8>, b: int)
    requires
        agree(u, 0, t, b, 4),
    ensures
        be32(u, 0) == be32(t, b),
{
    assert(u[0int + 0] == t[b + 0]);
    assert(u[0int + 1] == t[b + 1]);
    assert(u[0int + 2] == t[b + 2]);
    assert(u[0int + 3] == t[b + 3]);
}

/// Removing a text chunk a second time changes nothing, when the stream held
/// at most one text chunk with that keyword and its chunks run to the end.
pub proof fn lemma_remove_idempotent(s: Seq<u8>, k: Seq<u8>)
    requires
        find(s, Some(k)) matches Scan::At(p) ==> scan(s, chunk_end(s, p), Some(k)) == Scan::Absent,
    ensures
        removal(s, k) matches Ok(j) ==> removal(j, k) == Ok::<Seq<u8>, PngError>(j),
{
    if let Scan::At(p) = find(s, Some(k)) {
        let j = without_chunk(s, p);
        let e = chunk_end(s, p);
        lemma_scan_at_ge(s, 8, Some(k));
        lemma_scan_walks(s, 8, Some(k), p);
        assert(agree(s, 0, j, 0, p));
        lemma_scan_prefix(s, j, 8, p, Some(k));
        assert(agree(s, e, j, p, s.len() - e)) by {
            assert forall|x: int| 0 <= x < s.len() - e implies #[trigger] s[e + x] == j[p + x] by {}
        }
        lemma_scan_shift(s, e, j, p, Some(k));
        assert(j.subrange(0, 8) =~= s.subrange(0, 8));
    }
}


/// Removing a text chunk changes only that chunk's bytes: what stands before
/// it and what stands after it are kept whole and in order, and the stream
/// shrinks by the chunk's full size. Without such a chunk nothing changes.
pub proof fn lemma_removal_keeps_other_chunks(s: Seq<u8>, k: Seq<u8>)
    ensures
        find(s, Some(k)) matches Scan::At(p) ==> removal(s, k) matches Ok(j) && j.len() == s.len()
            - (12 + be32(s, p)) && j.subrange(0, p) == s.subrange(0, p) && j.subrange(
            p,
            j.len() as int,
        ) == s.subrange(chunk_end(s, p), s.len() as int),
        find(s, Some(k)) == Scan::Absent ==> removal(s, k) == Ok::<Seq<u8>, PngError>(s),
{
    if let Scan::At(p) = find(s, Some(k)) {
        lemma_scan_at_ge(s, 8, Some(k));
        let j = without_chunk(s, p);
        assert(j.subrange(0, p) =~= s.subrange(0, p));
        assert(j.subrange(p, j.len() as int) =~= s.subrange(chunk_end(s, p), s.len() as int));
    }
}

} // verus!
