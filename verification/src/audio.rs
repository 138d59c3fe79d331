//! The byte layouts of the audio files the probe writes and reads: the
//! NumPy `.npy` header, the RIFF/WAVE header of an IEEE-float file, and the
//! chunks a WAV reader walks to find the format and the samples.
//!
//! Turning the sample bytes into numbers is the host's: the library says
//! where they are, how wide, and how many.

use vstd::prelude::*;
use vstd::utf8::{decode_utf8, valid_utf8};
use crate::cli::has_prefix;
use crate::text::{
    chars_of, decimal, find_chars, find_from, lemma_find_from, occurs_at, lemma_split_nonempty, owned,
    parse_usize, push_chars, push_decimal, push_str, spec_parse_usize, split_char, split_chars,
    string_of, trim, trim_chars,
};

verus! {

// ------------------------------------------------------- byte fields ----

/// The two little-endian bytes of `x`, reduced to 16 bits.
pub open spec fn le16(x: nat) -> Seq<u8> {
    seq![(x % 256) as u8, ((x / 256) % 256) as u8]
}

/// The four little-endian bytes of `x`, reduced to 32 bits.
pub open spec fn le32(x: nat) -> Seq<u8> {
    seq![
        (x % 256) as u8,
        ((x / 256) % 256) as u8,
        ((x / 65536) % 256) as u8,
        ((x / 16777216) % 256) as u8,
    ]
}

/// The little-endian 16-bit value at `at`.
pub open spec fn u16_of(b: Seq<u8>, at: int) -> nat {
    (b[at] + 256 * b[at + 1]) as nat
}

/// The little-endian 32-bit value at `at`.
pub open spec fn u32_of(b: Seq<u8>, at: int) -> nat {
    (b[at] + 256 * b[at + 1] + 65536 * b[at + 2] + 16777216 * b[at + 3]) as nat
}

/// What a field read past the end of a WAV header is refused with.
pub open spec fn truncated() -> Seq<char> {
    "truncated WAV header"@
}

/// The little-endian `u16` at `at`.
///
/// # Errors
/// When the two bytes are not all in `bytes`.
pub fn u16_at(bytes: &[u8], at: usize) -> (r: Result<u16, String>)
    requires
        at + 2 <= usize::MAX,
    ensures
        at + 2 <= bytes@.len() ==> r is Ok && r->Ok_0 as nat == u16_of(bytes@, at as int),
        at + 2 > bytes@.len() ==> r is Err && r->Err_0@ == truncated(),
{
    if at + 2 > bytes.len() {
        return Err(owned("truncated WAV header"));
    }
    let lo = bytes[at] as u16;
    let hi = bytes[at + 1] as u16;
    assert(hi * 256 <= 65280) by (nonlinear_arith)
        requires
            hi <= 255,
    ;
    Ok(lo + hi * 256)
}

/// The little-endian `u32` at `at`.
///
/// # Errors
/// When the four bytes are not all in `bytes`.
pub fn u32_at(bytes: &[u8], at: usize) -> (r: Result<u32, String>)
    requires
        at + 4 <= usize::MAX,
    ensures
        at + 4 <= bytes@.len() ==> r is Ok && r->Ok_0 as nat == u32_of(bytes@, at as int),
        at + 4 > bytes@.len() ==> r is Err && r->Err_0@ == truncated(),
{
    if at + 4 > bytes.len() {
        return Err(owned("truncated WAV header"));
    }
    let b0 = bytes[at] as u32;
    let b1 = bytes[at + 1] as u32;
    let b2 = bytes[at + 2] as u32;
    let b3 = bytes[at + 3] as u32;
    assert(b0 + 256 * b1 + 65536 * b2 + 16777216 * b3 <= 4294967295) by (nonlinear_arith)
        requires
            b0 <= 255,
            b1 <= 255,
            b2 <= 255,
            b3 <= 255,
    ;
    Ok(b0 + 256 * b1 + 65536 * b2 + 16777216 * b3)
}

/// Appends `w` to `out`.
fn push_bytes(out: &mut Vec<u8>, w: &[u8])
    ensures
        final(out)@ == old(out)@ + w@,
{
    let ghost start = out@;
    let mut i: usize = 0;
    while i < w.len()
        invariant
            i <= w.len(),
            out@ == start + w@.take(i as int),
        decreases w.len() - i,
    {
        out.push(w[i]);
        i = i + 1;
        assert(out@ == start + w@.take(i as int));
    }
    assert(w@.take(i as int) == w@);
}

/// Appends the two little-endian bytes of `x`.
fn push_le16(out: &mut Vec<u8>, x: u16)
    ensures
        final(out)@ == old(out)@ + le16(x as nat),
{
    out.push((x % 256) as u8);
    out.push(((x / 256) % 256) as u8);
    assert(out@ =~= old(out)@ + le16(x as nat));
}

/// Appends the four little-endian bytes of `x`.
fn push_le32(out: &mut Vec<u8>, x: u32)
    ensures
        final(out)@ == old(out)@ + le32(x as nat),
{
    out.push((x % 256) as u8);
    out.push(((x / 256) % 256) as u8);
    out.push(((x / 65536) % 256) as u8);
    out.push(((x / 16777216) % 256) as u8);
    assert(out@ =~= old(out)@ + le32(x as nat));
}

// ------------------------------------------------------------- WAVE ----

/// `RIFF`.
pub open spec fn riff_tag() -> Seq<u8> {
    seq![0x52u8, 0x49u8, 0x46u8, 0x46u8]
}

/// `WAVE`.
pub open spec fn wave_tag() -> Seq<u8> {
    seq![0x57u8, 0x41u8, 0x56u8, 0x45u8]
}

/// `fmt `.
pub open spec fn fmt_tag() -> Seq<u8> {
    seq![0x66u8, 0x6du8, 0x74u8, 0x20u8]
}

/// `fact`.
pub open spec fn fact_tag() -> Seq<u8> {
    seq![0x66u8, 0x61u8, 0x63u8, 0x74u8]
}

/// `data`.
pub open spec fn data_tag() -> Seq<u8> {
    seq![0x64u8, 0x61u8, 0x74u8, 0x61u8]
}

/// What refuses a render too long for the 32-bit sizes of RIFF.
pub open spec fn wav_too_large() -> Seq<char> {
    "the render is larger than a WAV file can hold (4 GiB); use .npy"@
}

/// The RIFF size of a file of `frames` frames of `channels` samples of
/// `bytes_per_sample` bytes: the form type, an 18-byte `fmt `, a 4-byte
/// `fact`, and the data, each chunk with its 8-byte header.
pub open spec fn riff_size(frames: nat, channels: nat, bytes_per_sample: nat) -> nat {
    4 + (8 + 18) + (8 + 4) + (8 + frames * (channels * bytes_per_sample))
}

/// The 58 bytes of an IEEE-float WAV header with the given fields.
#[verifier::opaque]
pub open spec fn wav_fields(riff: nat, channels: nat, rate: nat, byte_rate: nat, block: nat, bits: nat, frames: nat, data: nat) -> Seq<u8> {
    riff_tag() + le32(riff) + wave_tag() + fmt_tag() + le32(18) + le16(3) + le16(channels) + le32(rate)
        + le32(byte_rate) + le16(block) + le16(bits) + le16(0) + fact_tag() + le32(4) + le32(frames)
        + data_tag() + le32(data)
}

/// The header of an IEEE-float RIFF/WAVE file: an 18-byte `fmt ` chunk (a
/// non-PCM format carries its `cbSize`), the `fact` chunk such a format
/// requires, then the header of `data`; the block alignment and the frame
/// count are written as their low 16 and 32 bits. Refused when the sizes do
/// not fit the format's 32 bits, the channels its 16, or the rate is
/// negative.
pub open spec fn spec_wav_header(frames: nat, channels: nat, bytes_per_sample: nat, rate: int) -> Result<Seq<u8>, Seq<char>> {
    let block = channels * bytes_per_sample;
    let data = frames * block;
    let riff = riff_size(frames, channels, bytes_per_sample);
    if riff > u32::MAX {
        Err(wav_too_large())
    } else if channels > u16::MAX {
        Err("too many channels for WAV"@)
    } else if rate < 0 {
        Err("negative sample rate"@)
    } else {
        Ok(
            wav_fields(
                riff,
                channels,
                rate as nat,
                (rate * block) as nat,
                block % 65536,
                bytes_per_sample * 8,
                frames % 4294967296,
                data,
            ),
        )
    }
}

/// The header's bytes, from its fields.
fn wav_bytes(riff: u32, channels: u16, rate: u32, byte_rate: u32, block: u16, bits: u16, frames: u32, data: u32) -> (h: Vec<u8>)
    ensures
        h@ == wav_fields(
            riff as nat,
            channels as nat,
            rate as nat,
            byte_rate as nat,
            block as nat,
            bits as nat,
            frames as nat,
            data as nat,
        ),
{
    reveal(wav_fields);
    let mut h: Vec<u8> = Vec::new();
    push_bytes(&mut h, &[0x52u8, 0x49u8, 0x46u8, 0x46u8]);
    push_le32(&mut h, riff);
    push_bytes(&mut h, &[0x57u8, 0x41u8, 0x56u8, 0x45u8]);
    push_bytes(&mut h, &[0x66u8, 0x6du8, 0x74u8, 0x20u8]);
    push_le32(&mut h, 18);
    push_le16(&mut h, 3);
    push_le16(&mut h, channels);
    push_le32(&mut h, rate);
    push_le32(&mut h, byte_rate);
    push_le16(&mut h, block);
    push_le16(&mut h, bits);
    push_le16(&mut h, 0);
    push_bytes(&mut h, &[0x66u8, 0x61u8, 0x63u8, 0x74u8]);
    push_le32(&mut h, 4);
    push_le32(&mut h, frames);
    push_bytes(&mut h, &[0x64u8, 0x61u8, 0x74u8, 0x61u8]);
    push_le32(&mut h, data);
    h
}

/// RIFF/WAVE, `WAVE_FORMAT_IEEE_FLOAT` (3), for `frames` frames of
/// `channels` samples of `bytes_per_sample` bytes at `sample_rate`.
///
/// # Errors
/// A file larger than RIFF's 32-bit sizes hold, more channels than WAV
/// counts, or a negative sample rate.
pub fn wav_header(frames: usize, channels: usize, bytes_per_sample: usize, sample_rate: i32) -> (r: Result<Vec<u8>, String>)
    requires
        bytes_per_sample == 4 || bytes_per_sample == 8,
        channels * bytes_per_sample <= usize::MAX,
        riff_size(frames as nat, channels as nat, bytes_per_sample as nat) <= usize::MAX,
        riff_size(frames as nat, channels as nat, bytes_per_sample as nat) <= u32::MAX && channels
            <= u16::MAX && sample_rate >= 0 ==> sample_rate * (channels * bytes_per_sample) <= u32::MAX,
    ensures
        match spec_wav_header(frames as nat, channels as nat, bytes_per_sample as nat, sample_rate as int) {
            Ok(h) => r is Ok && r->Ok_0@ == h,
            Err(e) => r is Err && r->Err_0@ == e,
        },
{
    let block_align = channels * bytes_per_sample;
    assert(frames * block_align >= 0) by (nonlinear_arith);
    let data_len = frames * block_align;
    let riff_len = 4 + (8 + 18) + (8 + 4) + (8 + data_len);
    if riff_len > 4294967295 {
        return Err(owned("the render is larger than a WAV file can hold (4 GiB); use .npy"));
    }
    if channels > 65535 {
        return Err(owned("too many channels for WAV"));
    }
    if sample_rate < 0 {
        return Err(owned("negative sample rate"));
    }
    let rate = sample_rate as u32;
    assert(block_align <= 524280) by (nonlinear_arith)
        requires
            block_align == channels * bytes_per_sample,
            channels <= 65535,
            bytes_per_sample <= 8,
    ;
    let frames32 = ((frames as u64) % 4294967296u64) as u32;
    let block16 = (block_align % 65536) as u16;
    let byte_rate = rate * (block_align as u32);
    let h = wav_bytes(
        riff_len as u32,
        channels as u16,
        rate,
        byte_rate,
        block16,
        (bytes_per_sample * 8) as u16,
        frames32,
        data_len as u32,
    );
    assert(byte_rate as nat == (sample_rate * block_align) as nat);
    assert(frames32 as nat == frames as nat % 4294967296);
    Ok(h)
}

// ------------------------------------------------------------- NumPy ----

/// `10^k`.
pub open spec fn pow10(k: nat) -> nat
    decreases k,
{
    if k == 0 {
        1
    } else {
        10 * pow10((k - 1) as nat)
    }
}

/// A number below `10^k` has at most `k` digits.
proof fn lemma_decimal_len(n: nat, k: nat)
    requires
        k >= 1,
        n < pow10(k),
    ensures
        decimal(n).len() <= k,
    decreases k,
{
    if n >= 10 {
        if k == 1 {
            assert(pow10(1) == 10 * pow10(0));
        }
        let p = pow10((k - 1) as nat);
        assert(n / 10 < p) by (nonlinear_arith)
            requires
                n < 10 * p,
        ;
        lemma_decimal_len(n / 10, (k - 1) as nat);
    }
}

/// The decimal text of a `usize` has at most 20 digits.
pub proof fn lemma_usize_digits(n: usize)
    ensures
        decimal(n as nat).len() <= 20,
{
    reveal_with_fuel(pow10, 21);
    assert(pow10(20) == 100000000000000000000nat);
    lemma_decimal_len(n as nat, 20);
}

/// The dict of a version 1.0 `.npy` header for a C-order float array of
/// shape `(frames, channels)`.
pub open spec fn npy_dict(frames: nat, channels: nat, wide: bool) -> Seq<char> {
    "{'descr': '"@ + (if wide { "<f8"@ } else { "<f4"@ }) + "', 'fortran_order': False, 'shape': ("@
        + decimal(frames) + ", "@ + decimal(channels) + "), }"@
}

/// The spaces that bring the data to a multiple of 64 bytes, behind the
/// 10 bytes before the dict, the dict and its newline.
pub open spec fn npy_padding(dict_len: nat) -> nat {
    let unpadded = 10 + dict_len + 1;
    if unpadded % 64 == 0 {
        0
    } else {
        (64 - unpadded % 64) as nat
    }
}

/// The dict as written: padded with spaces, ended by a newline.
pub open spec fn npy_text(frames: nat, channels: nat, wide: bool) -> Seq<char> {
    let dict = npy_dict(frames, channels, wide);
    dict + Seq::new(npy_padding(dict.len()), |i: int| ' ') + "\n"@
}

/// The magic and the version 1.0.
pub open spec fn npy_magic() -> Seq<u8> {
    seq![0x93u8, 0x4eu8, 0x55u8, 0x4du8, 0x50u8, 0x59u8, 1u8, 0u8]
}

/// The bytes of an ASCII text.
pub open spec fn ascii_bytes(s: Seq<char>) -> Seq<u8> {
    s.map_values(|c: char| c as u8)
}

/// NumPy format 1.0: magic, version, little-endian `u16` header length, then
/// a Python dict literal padded with spaces and ended by a newline so that
/// the data starts on a multiple of 64 bytes.
pub open spec fn spec_npy_header(frames: nat, channels: nat, wide: bool) -> Seq<u8> {
    let text = npy_text(frames, channels, wide);
    npy_magic() + le16(text.len()) + ascii_bytes(text)
}

/// The header of a `.npy` file for `frames` frames of `channels` samples,
/// `<f8` when `wide`, `<f4` otherwise. The data that follows it starts on a
/// multiple of 64 bytes.
pub fn npy_header(frames: usize, channels: usize, wide: bool) -> (h: Vec<u8>)
    ensures
        h@ == spec_npy_header(frames as nat, channels as nat, wide),
        h@.len() % 64 == 0,
{
    let mut dict: Vec<char> = Vec::new();
    push_str(&mut dict, "{'descr': '");
    if wide {
        push_str(&mut dict, "<f8");
    } else {
        push_str(&mut dict, "<f4");
    }
    push_str(&mut dict, "', 'fortran_order': False, 'shape': (");
    push_decimal(&mut dict, frames);
    push_str(&mut dict, ", ");
    push_decimal(&mut dict, channels);
    push_str(&mut dict, "), }");
    proof {
        lemma_usize_digits(frames);
        lemma_usize_digits(channels);
        reveal_strlit("{'descr': '");
        reveal_strlit("<f8");
        reveal_strlit("<f4");
        reveal_strlit("', 'fortran_order': False, 'shape': (");
        reveal_strlit(", ");
        reveal_strlit("), }");
    }
    assert(dict@ == npy_dict(frames as nat, channels as nat, wide));
    assert(dict.len() <= 100);
    let unpadded = 10 + dict.len() + 1;
    let pad: usize = if unpadded % 64 == 0 { 0 } else { 64 - unpadded % 64 };
    let ghost before = dict@;
    let mut i: usize = 0;
    while i < pad
        invariant
            i <= pad,
            dict@ == before + Seq::new(i as nat, |j: int| ' '),
        decreases pad - i,
    {
        dict.push(' ');
        i = i + 1;
        assert(dict@ =~= before + Seq::new(i as nat, |j: int| ' '));
    }
    dict.push('\n');
    proof {
        reveal_strlit("\n");
    }
    assert(dict@ =~= npy_text(frames as nat, channels as nat, wide));
    let mut h: Vec<u8> = Vec::new();
    push_bytes(&mut h, &[0x93u8, 0x4eu8, 0x55u8, 0x4du8, 0x50u8, 0x59u8, 1u8, 0u8]);
    push_le16(&mut h, dict.len() as u16);
    let ghost head = h@;
    let mut k: usize = 0;
    while k < dict.len()
        invariant
            k <= dict.len(),
            h@ == head + ascii_bytes(dict@.take(k as int)),
        decreases dict.len() - k,
    {
        h.push(dict[k] as u8);
        k = k + 1;
        assert(ascii_bytes(dict@.take(k as int)) =~= ascii_bytes(dict@.take(k - 1 as int)).push(dict@[k - 1 as int] as u8));
    }
    assert(dict@.take(k as int) == dict@);
    assert(h@.len() == 10 + dict@.len());
    h
}

// ------------------------------------------------------ reading WAV ----

/// What a `fmt ` chunk says: the format tag (the sub-format's, for the
/// extensible header), the channels, the bits per sample and the rate.
#[derive(Debug, Clone, Copy, PartialEq, Eq, Structural)]
pub struct WavFmt {
    pub format: u16,
    pub channels: u16,
    pub bits: u16,
    pub rate: u32,
}

/// What a file with no `fmt ` chunk yet is read with.
pub open spec fn no_fmt() -> WavFmt {
    WavFmt { format: 0, channels: 0, bits: 0, rate: 0 }
}

/// The `fmt ` chunk whose body is `body`: `WAVE_FORMAT_EXTENSIBLE`
/// (0xFFFE) stands for the first field of its sub-format.
pub open spec fn fmt_of(body: Seq<u8>) -> Result<WavFmt, Seq<char>> {
    if body.len() < 16 {
        Err(truncated())
    } else {
        let tag = u16_of(body, 0);
        let format = if tag == 0xFFFE && body.len() >= 26 {
            u16_of(body, 24)
        } else {
            tag
        };
        Ok(
            WavFmt {
                format: format as u16,
                channels: u16_of(body, 2) as u16,
                bits: u16_of(body, 14) as u16,
                rate: u32_of(body, 4) as u32,
            },
        )
    }
}

/// What is left of `len` bytes from `at` on.
pub open spec fn left(len: nat, at: nat) -> nat {
    if at <= len {
        (len - at) as nat
    } else {
        0
    }
}

/// The end of the body of the chunk at `at`: where its size says, or the
/// end of the file for a chunk cut short.
pub open spec fn body_end(b: Seq<u8>, at: nat) -> nat {
    let end = at + 8 + u32_of(b, at + 4 as int);
    if end < b.len() {
        end as nat
    } else {
        b.len()
    }
}

/// The chunks from `at` on, walked with `fmt` read so far: a `fmt ` chunk
/// replaces it, a `data` chunk ends the walk with its body's bounds, any
/// other chunk is skipped (with its pad byte, for an odd size). The walk
/// ends without data when no chunk header is left.
pub open spec fn wav_walk(b: Seq<u8>, at: nat, fmt: WavFmt) -> Result<(WavFmt, Option<(nat, nat)>), Seq<char>>
    decreases left(b.len(), at),
{
    if at + 8 > b.len() {
        Ok((fmt, None))
    } else {
        let size = u32_of(b, at + 4 as int);
        let next = at + 8 + size + size % 2;
        let id = b.subrange(at as int, at + 4 as int);
        if id == fmt_tag() {
            match fmt_of(b.subrange(at + 8 as int, body_end(b, at) as int)) {
                Err(e) => Err(e),
                Ok(f) => wav_walk(b, next, f),
            }
        } else if id == data_tag() {
            Ok((fmt, Some(((at + 8) as nat, body_end(b, at)))))
        } else {
            wav_walk(b, next, fmt)
        }
    }
}

/// The (format, bits) pairs whose samples are decoded: PCM 8, 16, 24 and 32
/// bits, IEEE float 32 and 64 bits.
pub open spec fn decodable(format: u16, bits: u16) -> bool {
    ||| format == 1 && (bits == 8 || bits == 16 || bits == 24 || bits == 32)
    ||| format == 3 && (bits == 32 || bits == 64)
}

/// Where the samples of a WAV file are and how they are stored.
#[derive(Debug, Clone, Copy, PartialEq, Eq, Structural)]
pub struct WavLayout {
    /// 1 for PCM, 3 for IEEE float.
    pub format: u16,
    pub channels: usize,
    pub bits: u16,
    pub bytes_per_sample: usize,
    /// Whole frames in the data chunk.
    pub frames: usize,
    /// The offset of the first sample.
    pub data_start: usize,
    /// The sample rate, when the file records one.
    pub rate: Option<u32>,
}

/// What a WAV file is read as: refused when it is no RIFF/WAVE file, when a
/// `fmt ` chunk is too short, when there is no data, no channel, no whole
/// byte per sample, or a format the reader does not decode.
#[verifier::opaque]
pub open spec fn spec_wav_layout(b: Seq<u8>) -> Result<WavLayout, Seq<char>> {
    if b.len() < 12 || b.subrange(0, 4) != riff_tag() || b.subrange(8, 12) != wave_tag() {
        Err("not a RIFF/WAVE file"@)
    } else {
        match wav_walk(b, 12, no_fmt()) {
            Err(e) => Err(e),
            Ok((f, None)) => Err("no data chunk"@),
            Ok((f, Some((start, end)))) => if f.channels == 0 {
                Err("no fmt chunk, or zero channels"@)
            } else if f.channels * (f.bits / 8) == 0 {
                Err("unsupported bit depth "@ + decimal(f.bits as nat))
            } else if !decodable(f.format, f.bits) {
                Err("unsupported WAV format "@ + decimal(f.format as nat) + " at "@ + decimal(
                    f.bits as nat,
                ) + " bits"@)
            } else {
                Ok(
                    WavLayout {
                        format: f.format,
                        channels: f.channels as usize,
                        bits: f.bits,
                        bytes_per_sample: (f.bits / 8) as usize,
                        frames: (((end - start) as nat) / ((f.channels * (f.bits / 8)) as nat)) as usize,
                        data_start: start as usize,
                        rate: if f.rate != 0 {
                            Some(f.rate)
                        } else {
                            None
                        },
                    },
                )
            },
        }
    }
}

/// Whether the four bytes at `at` are `tag`.
fn tag_at(bytes: &[u8], at: usize, tag: [u8; 4]) -> (r: bool)
    requires
        at + 4 <= bytes@.len(),
    ensures
        r == (bytes@.subrange(at as int, at + 4) == tag@),
{
    let r = bytes[at] == tag[0] && bytes[at + 1] == tag[1] && bytes[at + 2] == tag[2] && bytes[at + 3] == tag[3];
    if r {
        assert(bytes@.subrange(at as int, at + 4) =~= tag@);
    } else {
        assert(bytes@.subrange(at as int, at + 4) != tag@) by {
            if bytes@.subrange(at as int, at + 4) == tag@ {
                assert(bytes@.subrange(at as int, at + 4)[0] == tag@[0]);
                assert(bytes@.subrange(at as int, at + 4)[1] == tag@[1]);
                assert(bytes@.subrange(at as int, at + 4)[2] == tag@[2]);
                assert(bytes@.subrange(at as int, at + 4)[3] == tag@[3]);
            }
        }
    }
    r
}

/// The `fmt ` chunk whose body is `bytes[start..end]`.
fn fmt_at(bytes: &[u8], start: usize, end: usize) -> (r: Result<WavFmt, String>)
    requires
        start <= end <= bytes@.len(),
    ensures
        match fmt_of(bytes@.subrange(start as int, end as int)) {
            Ok(f) => r is Ok && r->Ok_0 == f,
            Err(e) => r is Err && r->Err_0@ == e,
        },
{
    let ghost body = bytes@.subrange(start as int, end as int);
    if end - start < 16 {
        return Err(owned("truncated WAV header"));
    }
    let tag = u16_at(bytes, start).unwrap();
    let channels = u16_at(bytes, start + 2).unwrap();
    let rate = u32_at(bytes, start + 4).unwrap();
    let bits = u16_at(bytes, start + 14).unwrap();
    let format = if tag == 0xFFFE && end - start >= 26 {
        u16_at(bytes, start + 24).unwrap()
    } else {
        tag
    };
    assert(u16_of(body, 0) == u16_of(bytes@, start as int));
    assert(u16_of(body, 2) == u16_of(bytes@, start + 2));
    assert(u32_of(body, 4) == u32_of(bytes@, start + 4));
    assert(u16_of(body, 14) == u16_of(bytes@, start + 14));
    assert(end - start >= 26 ==> u16_of(body, 24) == u16_of(bytes@, start + 24));
    Ok(WavFmt { format, channels, bits, rate })
}

/// Where the samples are, once the chunk walk found them.
fn layout_of(fmt: WavFmt, start: usize, end: usize) -> (r: Result<WavLayout, String>)
    requires
        start <= end,
    ensures
        r matches Ok(l) ==> l.data_start == start,
        ({
            let spec_r: Result<WavLayout, Seq<char>> = if fmt.channels == 0 {
                Err("no fmt chunk, or zero channels"@)
            } else if fmt.channels * (fmt.bits / 8) == 0 {
                Err("unsupported bit depth "@ + decimal(fmt.bits as nat))
            } else if !decodable(fmt.format, fmt.bits) {
                Err("unsupported WAV format "@ + decimal(fmt.format as nat) + " at "@ + decimal(
                    fmt.bits as nat,
                ) + " bits"@)
            } else {
                Ok(
                    WavLayout {
                        format: fmt.format,
                        channels: fmt.channels as usize,
                        bits: fmt.bits,
                        bytes_per_sample: (fmt.bits / 8) as usize,
                        frames: (((end - start) as nat) / ((fmt.channels * (fmt.bits / 8)) as nat)) as usize,
                        data_start: start,
                        rate: if fmt.rate != 0 {
                            Some(fmt.rate)
                        } else {
                            None
                        },
                    },
                )
            };
            match spec_r {
                Ok(l) => r == Ok::<WavLayout, String>(l),
                Err(e) => r is Err && r->Err_0@ == e,
            }
        }),
{
    if fmt.channels == 0 {
        return Err(owned("no fmt chunk, or zero channels"));
    }
    let channels = fmt.channels as usize;
    let bytes_per_sample = (fmt.bits / 8) as usize;
    assert(channels * bytes_per_sample <= 65535 * 8192) by (nonlinear_arith)
        requires
            channels <= 65535,
            bytes_per_sample <= 8192,
    ;
    let frame = channels * bytes_per_sample;
    if frame == 0 {
        let mut v: Vec<char> = Vec::new();
        push_str(&mut v, "unsupported bit depth ");
        push_decimal(&mut v, fmt.bits as usize);
        return Err(crate::text::string_of(&v));
    }
    let ok = (fmt.format == 1 && (fmt.bits == 8 || fmt.bits == 16 || fmt.bits == 24 || fmt.bits == 32))
        || (fmt.format == 3 && (fmt.bits == 32 || fmt.bits == 64));
    if !ok {
        let mut v: Vec<char> = Vec::new();
        push_str(&mut v, "unsupported WAV format ");
        push_decimal(&mut v, fmt.format as usize);
        push_str(&mut v, " at ");
        push_decimal(&mut v, fmt.bits as usize);
        push_str(&mut v, " bits");
        return Err(crate::text::string_of(&v));
    }
    Ok(WavLayout {
        format: fmt.format,
        channels,
        bits: fmt.bits,
        bytes_per_sample,
        frames: (end - start) / frame,
        data_start: start,
        rate: if fmt.rate != 0 { Some(fmt.rate) } else { None },
    })
}

/// Where the samples of a RIFF/WAVE file are: the `fmt ` chunk (PCM, IEEE
/// float, or the extensible header wrapping either), then the `data` chunk.
///
/// # Errors
/// No RIFF/WAVE file, a `fmt ` chunk too short, no data chunk, no channel,
/// a bit depth of less than a byte, or a format that is not decoded.
pub fn wav_layout(bytes: &[u8]) -> (r: Result<WavLayout, String>)
    ensures
        match spec_wav_layout(bytes@) {
            Ok(l) => r == Ok::<WavLayout, String>(l),
            Err(e) => r is Err && r->Err_0@ == e,
        },
{
    reveal(spec_wav_layout);
    if bytes.len() < 12 || !tag_at(bytes, 0, [0x52u8, 0x49u8, 0x46u8, 0x46u8]) || !tag_at(
        bytes,
        8,
        [0x57u8, 0x41u8, 0x56u8, 0x45u8],
    ) {
        return Err(owned("not a RIFF/WAVE file"));
    }
    let mut fmt = WavFmt { format: 0, channels: 0, bits: 0, rate: 0 };
    let mut at: usize = 12;
    while bytes.len() - at >= 8
        invariant
            at <= bytes@.len(),
            bytes@.len() >= 12,
            bytes@.subrange(0, 4) == riff_tag(),
            bytes@.subrange(8, 12) == wave_tag(),
            wav_walk(bytes@, 12, no_fmt()) == wav_walk(bytes@, at as nat, fmt),
        decreases left(bytes@.len(), at as nat),
    {
        proof {
            reveal(spec_wav_layout);
        }
        let size = u32_at(bytes, at + 4).unwrap() as usize;
        let start = at + 8;
        let room = bytes.len() - start;
        let end = if size < room { start + size } else { bytes.len() };
        let ghost next = start + size + size % 2;
        assert(end == body_end(bytes@, at as nat));
        if tag_at(bytes, at, [0x66u8, 0x6du8, 0x74u8, 0x20u8]) {
            match fmt_at(bytes, start, end) {
                Ok(f) => {
                    fmt = f;
                },
                Err(e) => {
                    return Err(e);
                },
            }
        } else if tag_at(bytes, at, [0x64u8, 0x61u8, 0x74u8, 0x61u8]) {
            return layout_of(fmt, start, end);
        }
        if size > room || size % 2 > room - size {
            assert(wav_walk(bytes@, next as nat, fmt) == Ok::<(WavFmt, Option<(nat, nat)>), Seq<char>>((fmt, None)));
            return Err(owned("no data chunk"));
        }
        at = start + size + size % 2;
    }
    Err(owned("no data chunk"))
}

// ----------------------------------------------- writing, then reading ----

/// A field written little-endian reads back as the number written.
proof fn lemma_u32_at(b: Seq<u8>, at: int, x: nat)
    requires
        0 <= at,
        at + 4 <= b.len(),
        b.subrange(at, at + 4) == le32(x),
        x < 4294967296,
    ensures
        u32_of(b, at) == x,
{
    assert(b[at] == le32(x)[0]);
    assert(b[at + 1] == le32(x)[1]);
    assert(b[at + 2] == le32(x)[2]);
    assert(b[at + 3] == le32(x)[3]);
    let y = x as u32;
    assert((y % 256) + 256 * ((y / 256) % 256) + 65536 * ((y / 65536) % 256) + 16777216 * ((y
        / 16777216) % 256) == y) by (bit_vector);
}

/// A field written little-endian reads back as the number written.
pub proof fn lemma_u16_at(b: Seq<u8>, at: int, x: nat)
    requires
        0 <= at,
        at + 2 <= b.len(),
        b.subrange(at, at + 2) == le16(x),
        x < 65536,
    ensures
        u16_of(b, at) == x,
{
    assert(b[at] == le16(x)[0]);
    assert(b[at + 1] == le16(x)[1]);
    let y = x as u16;
    assert((y % 256) + 256 * ((y / 256) % 256) == y) by (bit_vector);
}

/// Where the fields of a WAV header are.
#[verifier::rlimit(60)]
proof fn lemma_header_fields(riff: nat, channels: nat, rate: nat, byte_rate: nat, block: nat, bits: nat, frames: nat, data: nat)
    ensures
        ({
            let h = wav_fields(riff, channels, rate, byte_rate, block, bits, frames, data);
            &&& h.len() == 58
            &&& h.subrange(0, 4) == riff_tag()
            &&& h.subrange(8, 12) == wave_tag()
            &&& h.subrange(12, 16) == fmt_tag()
            &&& h.subrange(16, 20) == le32(18)
            &&& h.subrange(20, 22) == le16(3)
            &&& h.subrange(22, 24) == le16(channels)
            &&& h.subrange(24, 28) == le32(rate)
            &&& h.subrange(34, 36) == le16(bits)
            &&& h.subrange(38, 42) == fact_tag()
            &&& h.subrange(42, 46) == le32(4)
            &&& h.subrange(50, 54) == data_tag()
            &&& h.subrange(54, 58) == le32(data)
        }),
{
    reveal(wav_fields);
    let h = wav_fields(riff, channels, rate, byte_rate, block, bits, frames, data);
    assert(h.subrange(0, 4) =~= riff_tag());
    assert(h.subrange(8, 12) =~= wave_tag());
    assert(h.subrange(12, 16) =~= fmt_tag());
    assert(h.subrange(16, 20) =~= le32(18));
    assert(h.subrange(20, 22) =~= le16(3));
    assert(h.subrange(22, 24) =~= le16(channels));
    assert(h.subrange(24, 28) =~= le32(rate));
    assert(h.subrange(34, 36) =~= le16(bits));
    assert(h.subrange(38, 42) =~= fact_tag());
    assert(h.subrange(42, 46) =~= le32(4));
    assert(h.subrange(50, 54) =~= data_tag());
    assert(h.subrange(54, 58) =~= le32(data));
}

/// The `fmt ` chunk of a WAV header, as a reader parses it.
proof fn lemma_header_fmt_chunk(riff: nat, channels: nat, rate: nat, byte_rate: nat, block: nat, bits: nat, frames: nat, data: nat)
    requires
        channels < 65536,
        bits < 65536,
        rate < 4294967296,
    ensures
        fmt_of(wav_fields(riff, channels, rate, byte_rate, block, bits, frames, data).subrange(20, 38))
            == Ok::<WavFmt, Seq<char>>(
            WavFmt { format: 3, channels: channels as u16, bits: bits as u16, rate: rate as u32 },
        ),
{
    let h = wav_fields(riff, channels, rate, byte_rate, block, bits, frames, data);
    lemma_header_fields(riff, channels, rate, byte_rate, block, bits, frames, data);
    let body = h.subrange(20, 38);
    assert(body.subrange(0, 2) =~= h.subrange(20, 22));
    assert(body.subrange(2, 4) =~= h.subrange(22, 24));
    assert(body.subrange(4, 8) =~= h.subrange(24, 28));
    assert(body.subrange(14, 16) =~= h.subrange(34, 36));
    lemma_header_fmt(body, channels, bits, rate);
}

/// The `fmt ` chunk of a WAV header reads back as written.
proof fn lemma_header_fmt(body: Seq<u8>, channels: nat, bits: nat, rate: nat)
    requires
        body.len() == 18,
        body.subrange(0, 2) == le16(3),
        body.subrange(2, 4) == le16(channels),
        body.subrange(4, 8) == le32(rate),
        body.subrange(14, 16) == le16(bits),
        channels < 65536,
        bits < 65536,
        rate < 4294967296,
    ensures
        fmt_of(body) == Ok::<WavFmt, Seq<char>>(
            WavFmt { format: 3, channels: channels as u16, bits: bits as u16, rate: rate as u32 },
        ),
{
    lemma_u16_at(body, 0, 3);
    lemma_u16_at(body, 2, channels);
    lemma_u32_at(body, 4, rate);
    lemma_u16_at(body, 14, bits);
}

/// The chunks of a written WAV file: `fmt `, then `fact`, skipped, then
/// `data`, which runs to the end of the file.
proof fn lemma_header_walk(b: Seq<u8>, f: WavFmt, len: nat)
    requires
        b.len() == 58 + len,
        len < 4294967296,
        b.subrange(12, 16) == fmt_tag(),
        u32_of(b, 16) == 18,
        fmt_of(b.subrange(20, 38)) == Ok::<WavFmt, Seq<char>>(f),
        b.subrange(38, 42) == fact_tag(),
        u32_of(b, 42) == 4,
        b.subrange(50, 54) == data_tag(),
        u32_of(b, 54) == len,
    ensures
        wav_walk(b, 12, no_fmt()) == Ok::<(WavFmt, Option<(nat, nat)>), Seq<char>>((f, Some((58nat, (58 + len) as nat)))),
{
    assert(fact_tag() != fmt_tag()) by {
        assert(fact_tag()[1] != fmt_tag()[1]);
    }
    assert(fact_tag() != data_tag()) by {
        assert(fact_tag()[0] != data_tag()[0]);
    }
    assert(data_tag() != fmt_tag()) by {
        assert(data_tag()[0] != fmt_tag()[0]);
    }
    assert(body_end(b, 12) == 38);
    assert(body_end(b, 50) == 58 + len);
    assert(wav_walk(b, 50, f) == Ok::<(WavFmt, Option<(nat, nat)>), Seq<char>>((f, Some((58nat, (58 + len) as nat)))));
    assert(wav_walk(b, 38, f) == wav_walk(b, 50, f));
}

/// The bytes of a file that begins with `h` are, up to its end, those of `h`.
proof fn lemma_prefix_subrange(h: Seq<u8>, data: Seq<u8>, i: int, j: int)
    requires
        0 <= i <= j <= h.len(),
    ensures
        (h + data).subrange(i, j) == h.subrange(i, j),
{
    assert((h + data).subrange(i, j) =~= h.subrange(i, j));
}

/// The layout a reader finds behind a chunk walk that ends on the data.
proof fn lemma_layout_after_walk(b: Seq<u8>, f: WavFmt, len: nat, frames: nat, block: nat)
    requires
        b.len() == 58 + len,
        b.subrange(0, 4) == riff_tag(),
        b.subrange(8, 12) == wave_tag(),
        wav_walk(b, 12, no_fmt()) == Ok::<(WavFmt, Option<(nat, nat)>), Seq<char>>((f, Some((58nat, (58 + len) as nat)))),
        f.channels >= 1,
        f.format == 3,
        f.bits == 32 || f.bits == 64,
        block == f.channels * (f.bits / 8),
        len == frames * block,
        frames <= usize::MAX,
    ensures
        spec_wav_layout(b) == Ok::<WavLayout, Seq<char>>(
            WavLayout {
                format: 3,
                channels: f.channels as usize,
                bits: f.bits,
                bytes_per_sample: (f.bits / 8) as usize,
                frames: frames as usize,
                data_start: 58,
                rate: if f.rate != 0 {
                    Some(f.rate)
                } else {
                    None
                },
            },
        ),
{
    reveal(spec_wav_layout);
    assert(block >= 1) by (nonlinear_arith)
        requires
            block == f.channels * (f.bits / 8),
            f.channels >= 1,
            f.bits / 8 >= 4,
    ;
    assert(((58 + len - 58) as nat) / block == frames) by (nonlinear_arith)
        requires
            len == frames * block,
            block >= 1,
    ;
}

/// A header with these fields, followed by `len` bytes of samples, is read
/// back with the fields written.
proof fn lemma_fields_read_back(riff: nat, channels: nat, rate: nat, byte_rate: nat, block: nat, bits: nat, frames: nat, len: nat, data: Seq<u8>, count: nat)
    requires
        1 <= channels < 65536,
        bits == 32 || bits == 64,
        rate < 4294967296,
        len < 4294967296,
        data.len() == len,
        len == count * (channels * (bits / 8)),
        count <= usize::MAX,
    ensures
        spec_wav_layout(wav_fields(riff, channels, rate, byte_rate, block, bits, frames, len) + data)
            == Ok::<WavLayout, Seq<char>>(
            WavLayout {
                format: 3,
                channels: channels as usize,
                bits: bits as u16,
                bytes_per_sample: (bits / 8) as usize,
                frames: count as usize,
                data_start: 58,
                rate: if rate != 0 {
                    Some(rate as u32)
                } else {
                    None
                },
            },
        ),
{
    let h = wav_fields(riff, channels, rate, byte_rate, block, bits, frames, len);
    lemma_header_fields(riff, channels, rate, byte_rate, block, bits, frames, len);
    lemma_header_fmt_chunk(riff, channels, rate, byte_rate, block, bits, frames, len);
    let b = h + data;
    lemma_prefix_subrange(h, data, 0, 4);
    lemma_prefix_subrange(h, data, 8, 12);
    lemma_prefix_subrange(h, data, 12, 16);
    lemma_prefix_subrange(h, data, 16, 20);
    lemma_prefix_subrange(h, data, 20, 38);
    lemma_prefix_subrange(h, data, 38, 42);
    lemma_prefix_subrange(h, data, 42, 46);
    lemma_prefix_subrange(h, data, 50, 54);
    lemma_prefix_subrange(h, data, 54, 58);
    lemma_u32_at(b, 16, 18);
    lemma_u32_at(b, 42, 4);
    lemma_u32_at(b, 54, len);
    let f = WavFmt { format: 3, channels: channels as u16, bits: bits as u16, rate: rate as u32 };
    lemma_header_walk(b, f, len);
    lemma_layout_after_walk(b, f, len, count, channels * (bits / 8));
}

/// Where the size fields of a WAV header are.
#[verifier::rlimit(60)]
proof fn lemma_header_size_fields(riff: nat, channels: nat, rate: nat, byte_rate: nat, block: nat, bits: nat, frames: nat, data: nat)
    ensures
        ({
            let h = wav_fields(riff, channels, rate, byte_rate, block, bits, frames, data);
            &&& h.subrange(4, 8) == le32(riff)
            &&& h.subrange(28, 32) == le32(byte_rate)
            &&& h.subrange(32, 34) == le16(block)
            &&& h.subrange(46, 50) == le32(frames)
        }),
{
    reveal(wav_fields);
    let h = wav_fields(riff, channels, rate, byte_rate, block, bits, frames, data);
    assert(h.subrange(4, 8) =~= le32(riff));
    assert(h.subrange(28, 32) =~= le32(byte_rate));
    assert(h.subrange(32, 34) =~= le16(block));
    assert(h.subrange(46, 50) =~= le32(frames));
}

/// A WAV header says, where a reader looks for each, what it was asked to
/// describe: `channels` channels at `rate` frames a second; a block
/// alignment of one frame, `channels * bytes_per_sample` bytes (to 16
/// bits); a byte rate of `rate` such frames; samples of
/// `8 * bytes_per_sample` bits; `frames` frames (to 32 bits); a data chunk
/// of every sample's bytes; and a RIFF size that counts the 50 bytes of the
/// header behind it and the data.
pub proof fn lemma_wav_header_fields(frames: nat, channels: nat, bytes_per_sample: nat, rate: int)
    requires
        rate <= i32::MAX,
        spec_wav_header(frames, channels, bytes_per_sample, rate) is Ok,
    ensures
        ({
            let h = spec_wav_header(frames, channels, bytes_per_sample, rate)->Ok_0;
            &&& h.len() == 58
            &&& u32_of(h, 4) == 50 + frames * (channels * bytes_per_sample)
            &&& u16_of(h, 20) == 3
            &&& u16_of(h, 22) == channels
            &&& u32_of(h, 24) == rate
            &&& (rate * (channels * bytes_per_sample) < 4294967296 ==> u32_of(h, 28) == rate * (channels
                * bytes_per_sample))
            &&& u16_of(h, 32) == (channels * bytes_per_sample) % 65536
            &&& (bytes_per_sample * 8 < 65536 ==> u16_of(h, 34) == bytes_per_sample * 8)
            &&& u32_of(h, 46) == frames % 4294967296
            &&& u32_of(h, 54) == frames * (channels * bytes_per_sample)
        }),
{
    let block = channels * bytes_per_sample;
    let data = frames * block;
    let riff = riff_size(frames, channels, bytes_per_sample);
    assert(block >= 0 && data >= 0) by (nonlinear_arith);
    let byte_rate = (rate * block) as nat;
    let h = wav_fields(riff, channels, rate as nat, byte_rate, block % 65536, bytes_per_sample * 8, frames % 4294967296, data);
    assert(spec_wav_header(frames, channels, bytes_per_sample, rate)->Ok_0 == h);
    lemma_header_fields(riff, channels, rate as nat, byte_rate, block % 65536, bytes_per_sample * 8, frames % 4294967296, data);
    lemma_header_size_fields(riff, channels, rate as nat, byte_rate, block % 65536, bytes_per_sample * 8, frames % 4294967296, data);
    lemma_u32_at(h, 4, riff);
    lemma_u16_at(h, 20, 3);
    lemma_u16_at(h, 22, channels);
    lemma_u32_at(h, 24, rate as nat);
    if rate * block < 4294967296 {
        assert(rate * block >= 0) by (nonlinear_arith)
            requires
                rate >= 0,
                block >= 0,
        ;
        lemma_u32_at(h, 28, byte_rate);
    }
    lemma_u16_at(h, 32, block % 65536);
    if bytes_per_sample * 8 < 65536 {
        lemma_u16_at(h, 34, bytes_per_sample * 8);
    }
    lemma_u32_at(h, 46, frames % 4294967296);
    lemma_u32_at(h, 54, data);
}

/// What [`wav_header`] writes, followed by the samples it announces, is
/// read back as written: IEEE float, the same channels, sample width and
/// frame count, the rate when it is not zero, and the samples right behind
/// the 58 bytes of the header.
pub proof fn lemma_wav_read_back(frames: nat, channels: nat, bytes_per_sample: nat, rate: int, data: Seq<u8>)
    requires
        bytes_per_sample == 4 || bytes_per_sample == 8,
        channels >= 1,
        rate <= i32::MAX,
        spec_wav_header(frames, channels, bytes_per_sample, rate) is Ok,
        data.len() == frames * (channels * bytes_per_sample),
    ensures
        spec_wav_layout(spec_wav_header(frames, channels, bytes_per_sample, rate)->Ok_0 + data)
            == Ok::<WavLayout, Seq<char>>(
            WavLayout {
                format: 3,
                channels: channels as usize,
                bits: (bytes_per_sample * 8) as u16,
                bytes_per_sample: bytes_per_sample as usize,
                frames: frames as usize,
                data_start: 58,
                rate: if rate != 0 {
                    Some(rate as u32)
                } else {
                    None
                },
            },
        ),
{
    let block = channels * bytes_per_sample;
    let len = frames * block;
    let riff = riff_size(frames, channels, bytes_per_sample);
    assert(riff <= u32::MAX && channels <= u16::MAX && rate >= 0);
    assert(frames <= len) by (nonlinear_arith)
        requires
            len == frames * block,
            block == channels * bytes_per_sample,
            channels >= 1,
            bytes_per_sample >= 1,
    ;
    assert((bytes_per_sample * 8) / 8 == bytes_per_sample);
    assert(spec_wav_header(frames, channels, bytes_per_sample, rate) == Ok::<Seq<u8>, Seq<char>>(
        wav_fields(
            riff,
            channels,
            rate as nat,
            (rate * block) as nat,
            block % 65536,
            bytes_per_sample * 8,
            frames % 4294967296,
            len,
        ),
    ));
    lemma_fields_read_back(
        riff,
        channels,
        rate as nat,
        (rate * block) as nat,
        block % 65536,
        bytes_per_sample * 8,
        frames % 4294967296,
        len,
        data,
        frames,
    );
}

// ---------------------------------------------------- reading NumPy ----

/// The magic of a `.npy` file, without its version.
pub open spec fn npy_magic6() -> Seq<u8> {
    seq![0x93u8, 0x4eu8, 0x55u8, 0x4du8, 0x50u8, 0x59u8]
}

/// What a header that is not all in the file, or no text, is refused with.
pub open spec fn npy_truncated() -> Seq<char> {
    "truncated .npy header"@
}

/// `s` without the colons and spaces it begins with.
pub open spec fn skip_colons_spaces(s: Seq<char>) -> Seq<char>
    decreases s.len(),
{
    if s.len() > 0 && (s[0] == ':' || s[0] == ' ') {
        skip_colons_spaces(s.drop_first())
    } else {
        s
    }
}

/// What follows `key` in the header dict, from its value on; refused when
/// the key is not there.
pub open spec fn npy_field(header: Seq<char>, key: Seq<char>) -> Result<Seq<char>, Seq<char>> {
    match find_from(header, key, 0) {
        Some(p) => Ok(skip_colons_spaces(header.skip(p + key.len()))),
        None => Err("no "@ + key + " in the .npy header"@),
    }
}

/// Why the dimensions of a shape cannot be read.
pub open spec fn malformed_shape(inside: Seq<char>) -> Seq<char> {
    "malformed shape `("@ + inside + ")`"@
}

/// The dimensions of the first `n` comma-separated pieces of a shape, the
/// empty ones (a trailing comma) left out.
pub open spec fn parse_dims(pieces: Seq<Seq<char>>, n: nat, inside: Seq<char>) -> Result<Seq<usize>, Seq<char>>
    decreases n,
{
    if n == 0 {
        Ok(Seq::empty())
    } else {
        match parse_dims(pieces, (n - 1) as nat, inside) {
            Err(e) => Err(e),
            Ok(d) => {
                let t = trim(pieces[n - 1]);
                if t.len() == 0 {
                    Ok(d)
                } else {
                    match spec_parse_usize(t) {
                        Some(k) => Ok(d.push(k)),
                        None => Err(malformed_shape(inside)),
                    }
                }
            },
        }
    }
}

/// What the header of a `.npy` file says of its array: the width of an
/// element, the frames, the channels, where the data starts, and the text
/// of the shape between its parentheses.
pub struct NpyShape {
    pub width: usize,
    pub frames: usize,
    pub channels: usize,
    pub data_start: usize,
    pub inside: String,
}

/// What the dict of a `.npy` header says: `'<f8'` or `'<f4'` elements, C
/// order, and a shape of one or two dimensions; anything else is refused by
/// name rather than misread.
pub open spec fn npy_dict_shape(h: Seq<char>, data_start: nat) -> Result<(nat, nat, nat, nat, Seq<char>), Seq<char>> {
    match npy_field(h, "'descr'"@) {
        Err(e) => Err(e),
        Ok(descr) => {
            let width: nat = if has_prefix(descr, "'<f8'"@) {
                8
            } else if has_prefix(descr, "'<f4'"@) {
                4
            } else {
                0
            };
            if width == 0 {
                Err("unsupported .npy element type "@ + split_char(descr, ',')[0]
                    + " (expected '<f8' or '<f4')"@)
            } else {
                match npy_field(h, "'fortran_order'"@) {
                    Err(e) => Err(e),
                    Ok(order) => if has_prefix(order, "True"@) {
                        Err("a Fortran-order .npy array is not supported (save it in C order)"@)
                    } else {
                        match npy_field(h, "'shape'"@) {
                            Err(e) => Err(e),
                            Ok(shape) => if !has_prefix(shape, "("@) {
                                Err("malformed shape in the .npy header"@)
                            } else {
                                let inside = split_char(shape.skip(1), ')')[0];
                                let pieces = split_char(inside, ',');
                                match parse_dims(pieces, pieces.len(), inside) {
                                    Err(e) => Err(e),
                                    Ok(d) => if d.len() == 1 {
                                        Ok((width, d[0] as nat, 1nat, data_start, inside))
                                    } else if d.len() == 2 {
                                        Ok((width, d[0] as nat, d[1] as nat, data_start, inside))
                                    } else {
                                        Err("a .npy array of shape ("@ + inside
                                            + ") is not frames x channels"@)
                                    },
                                }
                            },
                        }
                    },
                }
            }
        },
    }
}

/// What the header of a `.npy` file, format 1.0 to 3.0, says of its array:
/// the magic, the version (a 16-bit header length for 1.0, a 32-bit one
/// after), a header that is UTF-8 text, then its dict.
pub open spec fn spec_npy_shape(b: Seq<u8>) -> Result<(nat, nat, nat, nat, Seq<char>), Seq<char>> {
    if b.len() < 10 || b.subrange(0, 6) != npy_magic6() {
        Err("not a NumPy .npy file"@)
    } else if b[6] != 1 && b[6] != 2 && b[6] != 3 {
        Err("unsupported .npy format version "@ + decimal(b[6] as nat))
    } else if b[6] != 1 && b.len() < 12 {
        Err(npy_truncated())
    } else {
        let len: nat = if b[6] == 1 { u16_of(b, 8) } else { u32_of(b, 8) };
        let at: nat = if b[6] == 1 { 10 } else { 12 };
        if at + len > b.len() || !valid_utf8(b.subrange(at as int, (at + len) as int)) {
            Err(npy_truncated())
        } else {
            npy_dict_shape(decode_utf8(b.subrange(at as int, (at + len) as int)), at + len)
        }
    }
}

/// `std::str::from_utf8`, which the standard library documents as giving
/// the text of `bytes` exactly when they are valid UTF-8: the text that
/// decodes them.
#[verifier::external_body]
fn utf8_text(bytes: &[u8]) -> (r: Option<&str>)
    ensures
        r is Some <==> valid_utf8(bytes@),
        r matches Some(s) ==> s@ == decode_utf8(bytes@),
{
    match std::str::from_utf8(bytes) {
        Ok(s) => Some(s),
        Err(_) => None,
    }
}

/// `s` without the colons and spaces it begins with.
fn skip_colons_spaces_chars(s: &[char], from: usize) -> (r: Vec<char>)
    requires
        from <= s@.len(),
    ensures
        r@ == skip_colons_spaces(s@.skip(from as int)),
{
    let mut i: usize = from;
    while i < s.len() && (s[i] == ':' || s[i] == ' ')
        invariant
            from <= i <= s@.len(),
            skip_colons_spaces(s@.skip(from as int)) == skip_colons_spaces(s@.skip(i as int)),
        decreases s.len() - i,
    {
        assert(s@.skip(i as int).drop_first() =~= s@.skip(i + 1));
        i = i + 1;
    }
    let mut out: Vec<char> = Vec::new();
    let mut k: usize = i;
    while k < s.len()
        invariant
            i <= k <= s@.len(),
            out@ == s@.subrange(i as int, k as int),
        decreases s.len() - k,
    {
        out.push(s[k]);
        k = k + 1;
        assert(out@ =~= s@.subrange(i as int, k as int));
    }
    assert(out@ =~= s@.skip(i as int));
    out
}

/// The value of `key` in the header dict.
fn npy_field_chars(h: &[char], key: &str) -> (r: Result<Vec<char>, String>)
    ensures
        match npy_field(h@, key@) {
            Ok(v) => r is Ok && r->Ok_0@ == v,
            Err(e) => r is Err && r->Err_0@ == e,
        },
{
    let k = chars_of(key);
    proof {
        lemma_find_from(h@, k@, 0);
    }
    let found = find_chars(h, &k, 0);
    let hl = h.len();
    match found {
        Some(p) => {
            assert(find_from(h@, k@, 0) is Some);
            assert(find_from(h@, k@, 0)->Some_0 + k@.len() <= h@.len());
            assert(find_from(h@, k@, 0) == Some(p as int));
            assert(occurs_at(h@, k@, p as int));
            Ok(skip_colons_spaces_chars(h, p + k.len()))
        },
        None => {
            let mut v: Vec<char> = Vec::new();
            push_str(&mut v, "no ");
            push_chars(&mut v, &k);
            push_str(&mut v, " in the .npy header");
            Err(string_of(&v))
        },
    }
}

/// The dimensions of a shape.
fn parse_dims_chars(inside: &[char]) -> (r: Result<Vec<usize>, String>)
    ensures
        ({
            let pieces = split_char(inside@, ',');
            match parse_dims(pieces, pieces.len(), inside@) {
                Ok(d) => r is Ok && r->Ok_0@ == d,
                Err(e) => r is Err && r->Err_0@ == e,
            }
        }),
{
    let pieces = split_chars(inside, ',');
    let ghost ps = pieces@.map_values(|v: Vec<char>| v@);
    let mut dims: Vec<usize> = Vec::new();
    let mut i: usize = 0;
    while i < pieces.len()
        invariant
            i <= pieces.len(),
            ps == pieces@.map_values(|v: Vec<char>| v@),
            ps == split_char(inside@, ','),
            parse_dims(ps, i as nat, inside@) == Ok::<Seq<usize>, Seq<char>>(dims@),
        decreases pieces.len() - i,
    {
        assert(ps[i as int] == pieces@[i as int]@);
        let t = trim_chars(&pieces[i]);
        if t.len() > 0 {
            match parse_usize(&t) {
                Some(k) => {
                    dims.push(k);
                },
                None => {
                    proof {
                        lemma_dims_refused(ps, (i + 1) as nat, ps.len(), inside@);
                    }
                    let mut v: Vec<char> = Vec::new();
                    push_str(&mut v, "malformed shape `(");
                    push_chars(&mut v, inside);
                    push_str(&mut v, ")`");
                    return Err(string_of(&v));
                },
            }
        }
        i = i + 1;
    }
    Ok(dims)
}

/// A piece that is no number refuses the whole shape.
proof fn lemma_dims_refused(pieces: Seq<Seq<char>>, i: nat, n: nat, inside: Seq<char>)
    requires
        i <= n,
        parse_dims(pieces, i, inside) is Err,
    ensures
        parse_dims(pieces, n, inside) == parse_dims(pieces, i, inside),
    decreases n,
{
    if n > i {
        lemma_dims_refused(pieces, i, (n - 1) as nat, inside);
    }
}

/// The first of the pieces of `s` between copies of `sep`: what comes
/// before the first one, or all of `s`.
fn first_piece(s: &[char], sep: char) -> (r: Vec<char>)
    ensures
        r@ == split_char(s@, sep)[0],
{
    let pieces = split_chars(s, sep);
    proof {
        lemma_split_nonempty(s@, sep);
    }
    assert(pieces@.map_values(|v: Vec<char>| v@)[0] == pieces@[0]@);
    pieces[0].clone()
}

/// Whether `shape` holds what `spec` says, field by field.
pub open spec fn shape_is(shape: NpyShape, spec: (nat, nat, nat, nat, Seq<char>)) -> bool {
    &&& shape.width as nat == spec.0
    &&& shape.frames as nat == spec.1
    &&& shape.channels as nat == spec.2
    &&& shape.data_start as nat == spec.3
    &&& shape.inside@ == spec.4
}

/// The array the dict of a `.npy` header describes.
fn npy_dict_shape_chars(h: &[char], data_start: usize) -> (r: Result<NpyShape, String>)
    ensures
        match npy_dict_shape(h@, data_start as nat) {
            Ok(t) => r is Ok && shape_is(r->Ok_0, t),
            Err(e) => r is Err && r->Err_0@ == e,
        },
{
    let descr = match npy_field_chars(h, "'descr'") {
        Ok(d) => d,
        Err(e) => {
            return Err(e);
        },
    };
    let width: usize = if has_prefix_text(&descr, "'<f8'") {
        8
    } else if has_prefix_text(&descr, "'<f4'") {
        4
    } else {
        0
    };
    if width == 0 {
        let shown = first_piece(&descr, ',');
        let mut v: Vec<char> = Vec::new();
        push_str(&mut v, "unsupported .npy element type ");
        push_chars(&mut v, &shown);
        push_str(&mut v, " (expected '<f8' or '<f4')");
        return Err(string_of(&v));
    }
    let order = match npy_field_chars(h, "'fortran_order'") {
        Ok(o) => o,
        Err(e) => {
            return Err(e);
        },
    };
    if has_prefix_text(&order, "True") {
        return Err(owned("a Fortran-order .npy array is not supported (save it in C order)"));
    }
    let shape = match npy_field_chars(h, "'shape'") {
        Ok(t) => t,
        Err(e) => {
            return Err(e);
        },
    };
    if !has_prefix_text(&shape, "(") {
        return Err(owned("malformed shape in the .npy header"));
    }
    proof {
        reveal_strlit("(");
    }
    let mut rest: Vec<char> = Vec::new();
    let mut k: usize = 1;
    while k < shape.len()
        invariant
            1 <= k <= shape@.len(),
            rest@ == shape@.subrange(1, k as int),
        decreases shape.len() - k,
    {
        rest.push(shape[k]);
        k = k + 1;
        assert(rest@ =~= shape@.subrange(1, k as int));
    }
    assert(rest@ =~= shape@.skip(1));
    let inside = first_piece(&rest, ')');
    let dims = match parse_dims_chars(&inside) {
        Ok(d) => d,
        Err(e) => {
            return Err(e);
        },
    };
    if dims.len() == 1 {
        Ok(NpyShape { width, frames: dims[0], channels: 1, data_start, inside: string_of(&inside) })
    } else if dims.len() == 2 {
        Ok(NpyShape { width, frames: dims[0], channels: dims[1], data_start, inside: string_of(&inside) })
    } else {
        let mut v: Vec<char> = Vec::new();
        push_str(&mut v, "a .npy array of shape (");
        push_chars(&mut v, &inside);
        push_str(&mut v, ") is not frames x channels");
        Err(string_of(&v))
    }
}

/// Whether `s` begins with the text `p`.
fn has_prefix_text(s: &[char], p: &str) -> (b: bool)
    ensures
        b == has_prefix(s@, p@),
{
    let w = chars_of(p);
    if w.len() > s.len() {
        return false;
    }
    let mut i: usize = 0;
    while i < w.len()
        invariant
            i <= w.len(),
            w.len() <= s.len(),
            w@ == p@,
            forall|j: int| 0 <= j < i ==> s@[j] == w@[j],
        decreases w.len() - i,
    {
        if s[i] != w[i] {
            assert(s@.take(w.len() as int)[i as int] != w@[i as int]);
            return false;
        }
        i = i + 1;
    }
    assert(s@.take(w.len() as int) =~= w@);
    true
}

/// What the header of a `.npy` file, format 1.0 to 3.0, says of its array:
/// the width of its elements, its frames and channels, and where the data
/// starts.
///
/// # Errors
/// No NumPy file, a version past 3.0, a header not all in the file or not
/// text, a key missing from its dict, an element type other than `'<f8'`
/// and `'<f4'`, Fortran order, or a shape that is not one or two
/// dimensions.
pub fn npy_shape(bytes: &[u8]) -> (r: Result<NpyShape, String>)
    ensures
        match spec_npy_shape(bytes@) {
            Ok(t) => r is Ok && shape_is(r->Ok_0, t),
            Err(e) => r is Err && r->Err_0@ == e,
        },
{
    if bytes.len() < 10 || !(bytes[0] == 0x93u8 && bytes[1] == 0x4eu8 && bytes[2] == 0x55u8
        && bytes[3] == 0x4du8 && bytes[4] == 0x50u8 && bytes[5] == 0x59u8) {
        proof {
            if bytes@.len() >= 10 && bytes@.subrange(0, 6) == npy_magic6() {
                assert(bytes@.subrange(0, 6)[0] == bytes@[0]);
                assert(bytes@.subrange(0, 6)[1] == bytes@[1]);
                assert(bytes@.subrange(0, 6)[2] == bytes@[2]);
                assert(bytes@.subrange(0, 6)[3] == bytes@[3]);
                assert(bytes@.subrange(0, 6)[4] == bytes@[4]);
                assert(bytes@.subrange(0, 6)[5] == bytes@[5]);
            }
        }
        return Err(owned("not a NumPy .npy file"));
    }
    assert(bytes@.subrange(0, 6) =~= npy_magic6());
    let version = bytes[6];
    if version != 1 && version != 2 && version != 3 {
        let mut v: Vec<char> = Vec::new();
        push_str(&mut v, "unsupported .npy format version ");
        push_decimal(&mut v, version as usize);
        return Err(string_of(&v));
    }
    let (len, at): (usize, usize) = if version == 1 {
        (u16_at(bytes, 8).unwrap() as usize, 10)
    } else {
        if bytes.len() < 12 {
            return Err(owned("truncated .npy header"));
        }
        (u32_at(bytes, 8).unwrap() as usize, 12)
    };
    if len > bytes.len() - at {
        return Err(owned("truncated .npy header"));
    }
    let header = vstd::slice::slice_subrange(bytes, at, at + len);
    let text = match utf8_text(header) {
        Some(t) => t,
        None => {
            return Err(owned("truncated .npy header"));
        },
    };
    let h = chars_of(text);
    npy_dict_shape_chars(&h, at + len)
}

/// Why a `.npy` file's data is not what its shape announces.
pub open spec fn npy_size_error(data_len: nat, inside: Seq<char>, announced: nat) -> Seq<char> {
    "the .npy data holds "@ + decimal(data_len) + " bytes, its shape ("@ + inside
        + ") announces "@ + decimal(announced)
}

/// Whether the `data_len` bytes behind the header are the samples its
/// shape announces: frames times channels times the width of one.
///
/// # Errors
/// Says how many bytes there are and how many were announced.
pub fn npy_check_size(shape: &NpyShape, data_len: usize) -> (r: Result<(), String>)
    requires
        shape.frames * shape.channels * shape.width <= usize::MAX,
    ensures
        data_len == shape.frames * shape.channels * shape.width ==> r is Ok,
        data_len != shape.frames * shape.channels * shape.width ==> r is Err && r->Err_0@
            == npy_size_error(
            data_len as nat,
            shape.inside@,
            (shape.frames * shape.channels * shape.width) as nat,
        ),
{
    assert(shape.frames * shape.channels <= shape.frames * shape.channels * shape.width || shape.width == 0) by (nonlinear_arith);
    assert(shape.frames * shape.channels >= 0) by (nonlinear_arith);
    let announced = if shape.width == 0 {
        0
    } else {
        shape.frames * shape.channels * shape.width
    };
    assert(announced == shape.frames * shape.channels * shape.width) by (nonlinear_arith)
        requires
            shape.width == 0 ==> announced == 0,
            shape.width != 0 ==> announced == shape.frames * shape.channels * shape.width,
    ;
    if data_len != announced {
        let mut v: Vec<char> = Vec::new();
        push_str(&mut v, "the .npy data holds ");
        push_decimal(&mut v, data_len);
        push_str(&mut v, " bytes, its shape (");
        let inside = chars_of(shape.inside.as_str());
        push_chars(&mut v, &inside);
        push_str(&mut v, ") announces ");
        push_decimal(&mut v, announced);
        return Err(string_of(&v));
    }
    Ok(())
}

// -------------------------------------------------------- extensions ----

/// `c` with the ASCII capitals lowered, as `to_ascii_lowercase` does.
pub open spec fn ascii_lower_char(c: char) -> char {
    if 'A' <= c && c <= 'Z' {
        (((c as u8) + 32) as u8) as char
    } else {
        c
    }
}

/// `s` with its ASCII capitals lowered.
pub open spec fn ascii_lower(s: Seq<char>) -> Seq<char> {
    s.map_values(|c: char| ascii_lower_char(c))
}

/// `s` with its ASCII capitals lowered.
fn ascii_lower_chars(s: &[char]) -> (r: Vec<char>)
    ensures
        r@ == ascii_lower(s@),
{
    let mut out: Vec<char> = Vec::new();
    let mut i: usize = 0;
    while i < s.len()
        invariant
            i <= s.len(),
            out@ == ascii_lower(s@.take(i as int)),
        decreases s.len() - i,
    {
        let c = s[i];
        let d = if 'A' <= c && c <= 'Z' {
            ((c as u8) + 32u8) as char
        } else {
            c
        };
        out.push(d);
        i = i + 1;
        assert(out@ =~= ascii_lower(s@.take(i as int)));
    }
    assert(s@.take(i as int) == s@);
    out
}

/// How the samples of a render are stored in a file.
#[derive(Debug, Clone, Copy, PartialEq, Eq, Structural)]
pub enum Container {
    /// NumPy 1.0, shape `(frames, outputs)`.
    Npy,
    /// RIFF/WAVE, IEEE float.
    Wav,
    /// Raw little-endian samples of one output.
    Raw,
}

/// The container and the sample width (`true` for 64 bits) a render is
/// written with, told from the file's extension (any case), or why it is
/// refused: a name is given as `path` in the messages.
pub open spec fn spec_output_plan(path: Seq<char>, extension: Seq<char>, channels: nat, double: bool) -> Result<(Container, bool), Seq<char>> {
    let e = ascii_lower(extension);
    let chosen: Result<(Container, bool), Seq<char>> = if e == "npy"@ {
        Ok((Container::Npy, double))
    } else if e == "wav"@ || e == "wave"@ {
        Ok((Container::Wav, double))
    } else if e == "f64"@ {
        Ok((Container::Raw, true))
    } else if e == "f32"@ && double {
        Err(path + ": a .f32 file would drop digits of a double-precision render; use .f64, .npy or .wav"@)
    } else if e == "f32"@ {
        Ok((Container::Raw, false))
    } else {
        Err(path + ": unknown output extension `"@ + e + "` (expected .npy, .wav, .f64 or .f32)"@)
    };
    match chosen {
        Ok((Container::Raw, w)) => if channels != 1 {
            Err(path + ": a raw file holds one channel and the program has "@ + decimal(channels)
                + " outputs; use .npy or .wav"@)
        } else {
            Ok((Container::Raw, w))
        },
        other => other,
    }
}

/// No plan writes a render narrower than it was computed: a double-precision
/// render is always written with 64-bit samples. The containers that hold
/// either width (`.npy`, `.wav`) take the render's own; a raw file holds a
/// single channel.
pub proof fn lemma_output_width(path: Seq<char>, extension: Seq<char>, channels: nat, double: bool)
    ensures
        spec_output_plan(path, extension, channels, double) matches Ok((container, wide)) ==> ({
            &&& double ==> wide
            &&& container != Container::Raw ==> wide == double
            &&& container == Container::Raw ==> channels == 1
        }),
{
}

/// The container and the sample width of `--out PATH`, whose extension is
/// `extension` (empty when it has none), for `channels` outputs of a
/// program compiled in double precision when `double`.
///
/// # Errors
/// An unknown extension, `.f32` for a double-precision program, or a raw
/// format asked for several outputs.
pub fn output_plan(path: &str, extension: &str, channels: usize, double: bool) -> (r: Result<(Container, bool), String>)
    ensures
        match spec_output_plan(path@, extension@, channels as nat, double) {
            Ok(p) => r == Ok::<(Container, bool), String>(p),
            Err(e) => r is Err && r->Err_0@ == e,
        },
{
    let raw = chars_of(extension);
    let e = ascii_lower_chars(&raw);
    let p = chars_of(path);
    let (container, wide) = if crate::text::same_text(&e, "npy") {
        (Container::Npy, double)
    } else if crate::text::same_text(&e, "wav") || crate::text::same_text(&e, "wave") {
        (Container::Wav, double)
    } else if crate::text::same_text(&e, "f64") {
        (Container::Raw, true)
    } else if crate::text::same_text(&e, "f32") {
        if double {
            let mut v: Vec<char> = Vec::new();
            push_chars(&mut v, &p);
            push_str(&mut v, ": a .f32 file would drop digits of a double-precision render; use .f64, .npy or .wav");
            return Err(string_of(&v));
        }
        (Container::Raw, false)
    } else {
        let mut v: Vec<char> = Vec::new();
        push_chars(&mut v, &p);
        push_str(&mut v, ": unknown output extension `");
        push_chars(&mut v, &e);
        push_str(&mut v, "` (expected .npy, .wav, .f64 or .f32)");
        return Err(string_of(&v));
    };
    if container == Container::Raw && channels != 1 {
        let mut v: Vec<char> = Vec::new();
        push_chars(&mut v, &p);
        push_str(&mut v, ": a raw file holds one channel and the program has ");
        push_decimal(&mut v, channels);
        push_str(&mut v, " outputs; use .npy or .wav");
        return Err(string_of(&v));
    }
    Ok((container, wide))
}

/// How an excitation file is read, told from its extension.
#[derive(Debug, Clone, Copy, PartialEq, Eq, Structural)]
pub enum InputFormat {
    /// RIFF/WAVE.
    Wav,
    /// NumPy.
    Npy,
    /// Raw little-endian `f64`, one channel.
    F64,
    /// Raw little-endian `f32`, one channel.
    F32,
}

/// The format of `--in file:PATH`, told from the extension (any case), or
/// why it is refused.
pub open spec fn spec_input_format(path: Seq<char>, extension: Seq<char>) -> Result<InputFormat, Seq<char>> {
    let e = ascii_lower(extension);
    if e == "wav"@ || e == "wave"@ {
        Ok(InputFormat::Wav)
    } else if e == "npy"@ {
        Ok(InputFormat::Npy)
    } else if e == "f64"@ {
        Ok(InputFormat::F64)
    } else if e == "f32"@ {
        Ok(InputFormat::F32)
    } else {
        Err(path + ": unknown audio extension `"@ + e + "` (expected .wav, .npy, .f64 or .f32)"@)
    }
}

/// The format of an excitation file whose extension is `extension`.
///
/// # Errors
/// An extension that names none of the four formats.
pub fn input_format(path: &str, extension: &str) -> (r: Result<InputFormat, String>)
    ensures
        match spec_input_format(path@, extension@) {
            Ok(f) => r == Ok::<InputFormat, String>(f),
            Err(e) => r is Err && r->Err_0@ == e,
        },
{
    let raw = chars_of(extension);
    let e = ascii_lower_chars(&raw);
    if crate::text::same_text(&e, "wav") || crate::text::same_text(&e, "wave") {
        Ok(InputFormat::Wav)
    } else if crate::text::same_text(&e, "npy") {
        Ok(InputFormat::Npy)
    } else if crate::text::same_text(&e, "f64") {
        Ok(InputFormat::F64)
    } else if crate::text::same_text(&e, "f32") {
        Ok(InputFormat::F32)
    } else {
        let p = chars_of(path);
        let mut v: Vec<char> = Vec::new();
        push_chars(&mut v, &p);
        push_str(&mut v, ": unknown audio extension `");
        push_chars(&mut v, &e);
        push_str(&mut v, "` (expected .wav, .npy, .f64 or .f32)");
        Err(string_of(&v))
    }
}

} // verus!
