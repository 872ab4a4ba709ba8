//! The layout of an uncompressed CMYK TIFF file.
use vstd::prelude::*;

verus! {

/// `x` as two little-endian bytes.
pub open spec fn le16(x: u16) -> Seq<u8> {
    seq![(x % 256) as u8, (x / 256) as u8]
}

/// `x` as four little-endian bytes.
pub open spec fn le32(x: u32) -> Seq<u8> {
    seq![(x % 256) as u8, ((x / 256) % 256) as u8, ((x / 65536) % 256) as u8, (x / 16777216) as u8]
}

/// One twelve-byte entry of an image file directory.
pub open spec fn ifd_entry(tag: u16, field_type: u16, count: u32, value: u32) -> Seq<u8> {
    le16(tag) + le16(field_type) + le32(count) + le32(value)
}

/// Field types of directory entries.
pub const SHORT: u16 = 3;
pub const LONG: u16 = 4;
pub const RATIONAL: u16 = 5;

/// Where the data that the directory points to starts: after the 8-byte
/// header and the directory of 13 entries (2 + 13 * 12 + 4 bytes).
pub const BITS_OFFSET: u32 = 170;
/// The resolution, after the four 16-bit sample sizes.
pub const RESOLUTION_OFFSET: u32 = 178;
/// The pixel strip, after the resolution.
pub const STRIP_OFFSET: u32 = 186;

/// The directory of a `width` by `height` CMYK image whose strip holds
/// `strip_len` bytes, tags in ascending order.
pub open spec fn cmyk_directory(width: u32, height: u32, strip_len: u32) -> Seq<u8> {
    ifd_entry(256, LONG, 1, width) + ifd_entry(257, LONG, 1, height) + ifd_entry(258, SHORT, 4, BITS_OFFSET)
        + ifd_entry(259, SHORT, 1, 1) + ifd_entry(262, SHORT, 1, 5) + ifd_entry(273, LONG, 1, STRIP_OFFSET)
        + ifd_entry(277, SHORT, 1, 4) + ifd_entry(278, LONG, 1, height) + ifd_entry(279, LONG, 1, strip_len)
        + ifd_entry(282, RATIONAL, 1, RESOLUTION_OFFSET) + ifd_entry(283, RATIONAL, 1, RESOLUTION_OFFSET)
        + ifd_entry(296, SHORT, 1, 2) + ifd_entry(332, SHORT, 1, 1)
}

/// A little-endian TIFF file with one uncompressed strip of 8-bit CMYK
/// samples `cmyk`: header, directory (no next directory), the four sample
/// sizes, a resolution of 72 per inch, then the samples.
pub open spec fn cmyk_tiff(width: u32, height: u32, cmyk: Seq<u8>) -> Seq<u8> {
    seq![0x49u8, 0x49u8] + le16(42) + le32(8) + le16(13) + cmyk_directory(width, height, cmyk.len() as u32) + le32(0)
        + le16(8) + le16(8) + le16(8) + le16(8) + le32(72) + le32(1) + cmyk
}

/// The little-endian 16-bit number that bytes `i .. i + 2` of `s` hold.
pub open spec fn read_le16(s: Seq<u8>, i: int) -> int {
    s[i] + s[i + 1] * 256
}

/// The little-endian 32-bit number that bytes `i .. i + 4` of `s` hold.
pub open spec fn read_le32(s: Seq<u8>, i: int) -> int {
    s[i] + s[i + 1] * 256 + s[i + 2] * 65536 + s[i + 3] * 16777216
}

/// Two little-endian bytes read back give the number written.
pub proof fn lemma_le16_reads_back(x: u16)
    ensures
        read_le16(le16(x), 0) == x,
{
    let a0 = x % 256;
    let a1 = x / 256;
    assert(a0 + a1 * 256 == x) by (nonlinear_arith)
        requires
            a0 == x % 256,
            a1 == x / 256,
    ;
}

/// Four little-endian bytes read back give the number written.
pub proof fn lemma_le32_reads_back(x: u32)
    ensures
        read_le32(le32(x), 0) == x,
{
    let a0 = x % 256;
    let a1 = (x / 256) % 256;
    let a2 = (x / 65536) % 256;
    let a3 = x / 16777216;
    assert(a3 < 256);
    assert(a0 + a1 * 256 + a2 * 65536 + a3 * 16777216 == x) by (nonlinear_arith)
        requires
            a0 == x % 256,
            a1 == (x / 256) % 256,
            a2 == (x / 65536) % 256,
            a3 == x / 16777216,
    ;
}

/// An entry read back gives its tag, type, count and value.
proof fn lemma_entry_reads_back(f: Seq<u8>, at: int, tag: u16, field_type: u16, count: u32, value: u32)
    requires
        0 <= at,
        at + 12 <= f.len(),
        f.subrange(at, at + 12) == ifd_entry(tag, field_type, count, value),
    ensures
        read_le16(f, at) == tag,
        read_le16(f, at + 2) == field_type,
        read_le32(f, at + 4) == count,
        read_le32(f, at + 8) == value,
{
    let e = ifd_entry(tag, field_type, count, value);
    lemma_le16_reads_back(tag);
    lemma_le16_reads_back(field_type);
    lemma_le32_reads_back(count);
    lemma_le32_reads_back(value);
    assert(f[at] == e[0] && f[at + 1] == e[1] && f[at + 2] == e[2] && f[at + 3] == e[3]);
    assert(f[at + 4] == e[4] && f[at + 5] == e[5] && f[at + 6] == e[6] && f[at + 7] == e[7]);
    assert(f[at + 8] == e[8] && f[at + 9] == e[9] && f[at + 10] == e[10] && f[at + 11] == e[11]);
}

/// A reader of a TIFF file from `cmyk_tiff_bytes` finds a little-endian
/// file whose directory (at offset 8) holds 13 entries; the first is the
/// image width (tag 256) and holds `width`, the second the image length
/// (tag 257) and holds `height`, and the rows per strip (tag 278, the
/// eighth) is `height` too; the samples follow the 186 bytes of layout.
pub proof fn law_tiff_directory_gives_the_size(width: u32, height: u32, cmyk: Seq<u8>)
    requires
        cmyk.len() <= u32::MAX,
    ensures
        ({
            let f = cmyk_tiff(width, height, cmyk);
            &&& f[0] == 0x49 && f[1] == 0x49
            &&& read_le16(f, 2) == 42
            &&& read_le32(f, 4) == 8
            &&& read_le16(f, 8) == 13
            &&& read_le16(f, 10) == 256 && read_le32(f, 18) == width
            &&& read_le16(f, 22) == 257 && read_le32(f, 30) == height
            &&& read_le16(f, 94) == 278 && read_le32(f, 102) == height
            &&& f.len() == STRIP_OFFSET + cmyk.len()
            &&& f.subrange(STRIP_OFFSET as int, f.len() as int) == cmyk
        }),
{
    let f = cmyk_tiff(width, height, cmyk);
    let n = cmyk.len() as u32;
    let d = cmyk_directory(width, height, n);
    let head = seq![0x49u8, 0x49u8] + le16(42) + le32(8) + le16(13);
    assert(head.len() == 10);
    assert(d.len() == 156);
    assert(f.subrange(0, 10) == head);
    assert(f.subrange(10, 166) == d);
    lemma_le16_reads_back(42);
    lemma_le32_reads_back(8);
    lemma_le16_reads_back(13);
    assert(f[2] == head[2] && f[3] == head[3]);
    assert(f[4] == head[4] && f[5] == head[5] && f[6] == head[6] && f[7] == head[7]);
    assert(f[8] == head[8] && f[9] == head[9]);
    assert(f.subrange(10, 22) == d.subrange(0, 12));
    assert(d.subrange(0, 12) == ifd_entry(256, LONG, 1, width));
    lemma_entry_reads_back(f, 10, 256, LONG, 1, width);
    assert(f.subrange(22, 34) == d.subrange(12, 24));
    assert(d.subrange(12, 24) == ifd_entry(257, LONG, 1, height));
    lemma_entry_reads_back(f, 22, 257, LONG, 1, height);
    assert(f.subrange(94, 106) == d.subrange(84, 96));
    assert(d.subrange(84, 96) == ifd_entry(278, LONG, 1, height));
    lemma_entry_reads_back(f, 94, 278, LONG, 1, height);
    assert(f.subrange(STRIP_OFFSET as int, f.len() as int) =~= cmyk);
}

fn push_le16(out: &mut Vec<u8>, x: u16)
    ensures
        final(out)@ == old(out)@ + le16(x),
{
    out.push((x % 256) as u8);
    out.push((x / 256) as u8);
    assert(out@ =~= old(out)@ + le16(x));
}

fn push_le32(out: &mut Vec<u8>, x: u32)
    ensures
        final(out)@ == old(out)@ + le32(x),
{
    out.push((x % 256) as u8);
    out.push(((x / 256) % 256) as u8);
    out.push(((x / 65536) % 256) as u8);
    out.push((x / 16777216) as u8);
    assert(out@ =~= old(out)@ + le32(x));
}

fn push_entry(out: &mut Vec<u8>, tag: u16, field_type: u16, count: u32, value: u32)
    ensures
        final(out)@ == old(out)@ + ifd_entry(tag, field_type, count, value),
{
    push_le16(out, tag);
    push_le16(out, field_type);
    push_le32(out, count);
    push_le32(out, value);
    assert(out@ =~= old(out)@ + ifd_entry(tag, field_type, count, value));
}

/// The bytes of a CMYK TIFF file of the given size holding `cmyk`, four
/// samples per pixel in row order.
pub fn cmyk_tiff_bytes(width: u32, height: u32, cmyk: &[u8]) -> (r: Vec<u8>)
    requires
        cmyk@.len() <= u32::MAX,
    ensures
        r@ == cmyk_tiff(width, height, cmyk@),
        read_le16(r@, 10) == 256 && read_le32(r@, 18) == width,
        read_le16(r@, 22) == 257 && read_le32(r@, 30) == height,
{
    let strip_len = cmyk.len() as u32;
    let mut out: Vec<u8> = Vec::new();
    out.push(0x49);
    out.push(0x49);
    push_le16(&mut out, 42);
    push_le32(&mut out, 8);
    push_le16(&mut out, 13);
    let ghost start = out@;
    push_entry(&mut out, 256, LONG, 1, width);
    push_entry(&mut out, 257, LONG, 1, height);
    push_entry(&mut out, 258, SHORT, 4, BITS_OFFSET);
    push_entry(&mut out, 259, SHORT, 1, 1);
    push_entry(&mut out, 262, SHORT, 1, 5);
    push_entry(&mut out, 273, LONG, 1, STRIP_OFFSET);
    push_entry(&mut out, 277, SHORT, 1, 4);
    push_entry(&mut out, 278, LONG, 1, height);
    push_entry(&mut out, 279, LONG, 1, strip_len);
    push_entry(&mut out, 282, RATIONAL, 1, RESOLUTION_OFFSET);
    push_entry(&mut out, 283, RATIONAL, 1, RESOLUTION_OFFSET);
    push_entry(&mut out, 296, SHORT, 1, 2);
    push_entry(&mut out, 332, SHORT, 1, 1);
    assert(out@ =~= start + cmyk_directory(width, height, strip_len));
    push_le32(&mut out, 0);
    push_le16(&mut out, 8);
    push_le16(&mut out, 8);
    push_le16(&mut out, 8);
    push_le16(&mut out, 8);
    push_le32(&mut out, 72);
    push_le32(&mut out, 1);
    let ghost before_data = out@;
    let mut i: usize = 0;
    while i < cmyk.len()
        invariant
            i <= cmyk@.len(),
            out@ == before_data + cmyk@.subrange(0, i as int),
        decreases cmyk.len() - i,
    {
        out.push(cmyk[i]);
        i += 1;
        assert(out@ =~= before_data + cmyk@.subrange(0, i as int));
    }
    assert(cmyk@.subrange(0, i as int) =~= cmyk@);
    assert(out@ =~= cmyk_tiff(width, height, cmyk@));
    proof {
        law_tiff_directory_gives_the_size(width, height, cmyk@);
    }
    out
}

} // verus!
