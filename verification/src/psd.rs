//! Blend modes as Photoshop documents name them.
use vstd::prelude::*;

use crate::color::BlendMode;
use crate::text::str_eq;

verus! {

/// The blend mode given to a layer whose Photoshop blend mode has the name
/// `name`; modes without an equivalent become `Normal`.
pub open spec fn psd_mode_for(name: Seq<char>) -> BlendMode {
    if name == "Normal"@ || name == "PassThrough"@ {
        BlendMode::Normal
    } else if name == "Multiply"@ {
        BlendMode::Multiply
    } else if name == "Screen"@ {
        BlendMode::Screen
    } else if name == "Overlay"@ {
        BlendMode::Overlay
    } else if name == "Darken"@ || name == "DarkerColor"@ {
        BlendMode::Darken
    } else if name == "Lighten"@ || name == "LighterColor"@ {
        BlendMode::Lighten
    } else if name == "ColorDodge"@ || name == "LinearDodge"@ {
        BlendMode::ColorDodge
    } else if name == "ColorBurn"@ || name == "LinearBurn"@ {
        BlendMode::ColorBurn
    } else if name == "SoftLight"@ {
        BlendMode::SoftLight
    } else if name == "HardLight"@ || name == "VividLight"@ || name == "LinearLight"@ || name == "PinLight"@
        || name == "HardMix"@ {
        BlendMode::HardLight
    } else if name == "Difference"@ || name == "Subtract"@ {
        BlendMode::Difference
    } else if name == "Exclusion"@ {
        BlendMode::Exclusion
    } else {
        BlendMode::Normal
    }
}

/// Map the name of a Photoshop blend mode to a blend mode of the editor.
pub fn psd_blend_mode_to_rasa(name: &str) -> (r: BlendMode)
    ensures
        r == psd_mode_for(name@),
{
    if str_eq(name, "Normal") || str_eq(name, "PassThrough") {
        BlendMode::Normal
    } else if str_eq(name, "Multiply") {
        BlendMode::Multiply
    } else if str_eq(name, "Screen") {
        BlendMode::Screen
    } else if str_eq(name, "Overlay") {
        BlendMode::Overlay
    } else if str_eq(name, "Darken") || str_eq(name, "DarkerColor") {
        BlendMode::Darken
    } else if str_eq(name, "Lighten") || str_eq(name, "LighterColor") {
        BlendMode::Lighten
    } else if str_eq(name, "ColorDodge") || str_eq(name, "LinearDodge") {
        BlendMode::ColorDodge
    } else if str_eq(name, "ColorBurn") || str_eq(name, "LinearBurn") {
        BlendMode::ColorBurn
    } else if str_eq(name, "SoftLight") {
        BlendMode::SoftLight
    } else if str_eq(name, "HardLight") || str_eq(name, "VividLight") || str_eq(name, "LinearLight")
        || str_eq(name, "PinLight") || str_eq(name, "HardMix") {
        BlendMode::HardLight
    } else if str_eq(name, "Difference") || str_eq(name, "Subtract") {
        BlendMode::Difference
    } else if str_eq(name, "Exclusion") {
        BlendMode::Exclusion
    } else {
        BlendMode::Normal
    }
}

/// The four-character key of a blend mode in a Photoshop layer record.
pub open spec fn psd_key(mode: BlendMode) -> Seq<char> {
    match mode {
        BlendMode::Normal => "norm"@,
        BlendMode::Multiply => "mul "@,
        BlendMode::Screen => "scrn"@,
        BlendMode::Overlay => "over"@,
        BlendMode::Darken => "dark"@,
        BlendMode::Lighten => "lite"@,
        BlendMode::ColorDodge => "div "@,
        BlendMode::ColorBurn => "idiv"@,
        BlendMode::SoftLight => "sLit"@,
        BlendMode::HardLight => "hLit"@,
        BlendMode::Difference => "diff"@,
        BlendMode::Exclusion => "smud"@,
    }
}

/// The Photoshop key of a blend mode, as the four ASCII bytes of `psd_key`.
pub fn rasa_blend_mode_to_psd(mode: BlendMode) -> (r: [u8; 4])
    ensures
        r@.len() == 4,
        forall|i: int| 0 <= i < 4 ==> #[trigger] r@[i] as u32 == psd_key(mode)[i] as u32,
{
    proof {
        reveal_strlit("norm");
        reveal_strlit("mul ");
        reveal_strlit("scrn");
        reveal_strlit("over");
        reveal_strlit("dark");
        reveal_strlit("lite");
        reveal_strlit("div ");
        reveal_strlit("idiv");
        reveal_strlit("sLit");
        reveal_strlit("hLit");
        reveal_strlit("diff");
        reveal_strlit("smud");
    }
    match mode {
        BlendMode::Normal => [0x6e, 0x6f, 0x72, 0x6d],
        BlendMode::Multiply => [0x6d, 0x75, 0x6c, 0x20],
        BlendMode::Screen => [0x73, 0x63, 0x72, 0x6e],
        BlendMode::Overlay => [0x6f, 0x76, 0x65, 0x72],
        BlendMode::Darken => [0x64, 0x61, 0x72, 0x6b],
        BlendMode::Lighten => [0x6c, 0x69, 0x74, 0x65],
        BlendMode::ColorDodge => [0x64, 0x69, 0x76, 0x20],
        BlendMode::ColorBurn => [0x69, 0x64, 0x69, 0x76],
        BlendMode::SoftLight => [0x73, 0x4c, 0x69, 0x74],
        BlendMode::HardLight => [0x68, 0x4c, 0x69, 0x74],
        BlendMode::Difference => [0x64, 0x69, 0x66, 0x66],
        BlendMode::Exclusion => [0x73, 0x6d, 0x75, 0x64],
    }
}

// ── Flat Photoshop documents ───────────────────────────

/// `x` as four big-endian bytes.
pub open spec fn be32(x: u32) -> Seq<u8> {
    seq![(x / 16777216) as u8, ((x / 65536) % 256) as u8, ((x / 256) % 256) as u8, (x % 256) as u8]
}

/// The fixed part of a flat Photoshop document of the given size: the file
/// header (signature `8BPS`, version 1, four 8-bit RGB channels), the empty
/// color-mode, resource and layer sections, and the raw-data compression tag.
pub open spec fn psd_flat_header(width: u32, height: u32) -> Seq<u8> {
    seq![0x38u8, 0x42u8, 0x50u8, 0x53u8, 0u8, 1u8, 0u8, 0u8, 0u8, 0u8, 0u8, 0u8, 0u8, 4u8] + be32(height) + be32(width)
        + seq![0u8, 8u8, 0u8, 3u8] + seq![0u8, 0u8, 0u8, 0u8] + seq![0u8, 0u8, 0u8, 0u8] + seq![0u8, 0u8, 0u8, 0u8]
        + seq![0u8, 0u8]
}

/// The big-endian 32-bit number that bytes `i .. i + 4` of `s` hold.
pub open spec fn read_be32(s: Seq<u8>, i: int) -> int {
    s[i] * 16777216 + s[i + 1] * 65536 + s[i + 2] * 256 + s[i + 3]
}

/// The big-endian 16-bit number that bytes `i .. i + 2` of `s` hold.
pub open spec fn read_be16(s: Seq<u8>, i: int) -> int {
    s[i] * 256 + s[i + 1]
}

/// Four big-endian bytes read back give the number written.
pub proof fn lemma_be32_reads_back(x: u32)
    ensures
        read_be32(be32(x), 0) == x,
{
    let b = be32(x);
    let a0 = x / 16777216;
    let a1 = (x / 65536) % 256;
    let a2 = (x / 256) % 256;
    let a3 = x % 256;
    assert(a0 < 256 && a1 < 256 && a2 < 256 && a3 < 256);
    assert(b[0] == a0 && b[1] == a1 && b[2] == a2 && b[3] == a3);
    assert(a0 * 16777216 + a1 * 65536 + a2 * 256 + a3 == x) by (nonlinear_arith)
        requires
            a0 == x / 16777216,
            a1 == (x / 65536) % 256,
            a2 == (x / 256) % 256,
            a3 == x % 256,
    ;
}

/// A reader of a flat Photoshop document from `psd_flat_bytes` finds four
/// channels of 8 bits in RGB mode, the image's height in bytes 14..18 and
/// its width in bytes 18..22 (rows, then columns), and the image data right
/// after the 40-byte header, red plane first.
pub proof fn law_psd_header_gives_the_size(width: u32, height: u32, rgba: Seq<u8>)
    ensures
        ({
            let f = psd_flat_header(width, height) + channel_plane(rgba, 0) + channel_plane(rgba, 1)
                + channel_plane(rgba, 2) + channel_plane(rgba, 3);
            &&& read_be16(f, 12) == 4
            &&& read_be32(f, 14) == height
            &&& read_be32(f, 18) == width
            &&& read_be16(f, 22) == 8
            &&& read_be16(f, 24) == 3
            &&& f.len() == 40 + 4 * (rgba.len() / 4)
            &&& rgba.len() >= 4 ==> f[40] == rgba[0]
        }),
{
    let f = psd_flat_header(width, height) + channel_plane(rgba, 0) + channel_plane(rgba, 1)
        + channel_plane(rgba, 2) + channel_plane(rgba, 3);
    let hd = psd_flat_header(width, height);
    assert(hd.len() == 40);
    lemma_be32_reads_back(height);
    lemma_be32_reads_back(width);
    assert forall|k: int| 0 <= k < 4 implies f[14 + k] == #[trigger] be32(height)[k] by {
        assert(f[14 + k] == hd[14 + k]);
    }
    assert forall|k: int| 0 <= k < 4 implies f[18 + k] == #[trigger] be32(width)[k] by {
        assert(f[18 + k] == hd[18 + k]);
    }
    assert(f[12] == hd[12] && f[13] == hd[13] && f[22] == hd[22] && f[23] == hd[23] && f[24] == hd[24]
        && f[25] == hd[25]);
    if rgba.len() >= 4 {
        assert(f[40] == channel_plane(rgba, 0)[0]);
    }
}

/// Channel `c` of the interleaved RGBA bytes `rgba`, one byte per whole pixel.
pub open spec fn channel_plane(rgba: Seq<u8>, c: int) -> Seq<u8> {
    Seq::new(rgba.len() / 4, |i: int| rgba[4 * i + c])
}

fn push_be32(out: &mut Vec<u8>, x: u32)
    ensures
        final(out)@ == old(out)@ + be32(x),
{
    out.push((x / 16777216) as u8);
    out.push(((x / 65536) % 256) as u8);
    out.push(((x / 256) % 256) as u8);
    out.push((x % 256) as u8);
    assert(out@ =~= old(out)@ + be32(x));
}

fn push_plane(out: &mut Vec<u8>, rgba: &[u8], c: usize)
    requires
        c < 4,
    ensures
        final(out)@ == old(out)@ + channel_plane(rgba@, c as int),
{
    let len = rgba.len();
    let n = len / 4;
    let ghost start = out@;
    let mut i: usize = 0;
    while i < n
        invariant
            c < 4,
            len == rgba@.len(),
            n == rgba@.len() / 4,
            i <= n,
            out@ == start + channel_plane(rgba@, c as int).subrange(0, i as int),
        decreases n - i,
    {
        assert(4 * i + c < rgba@.len()) by (nonlinear_arith)
            requires
                i < n,
                n == rgba@.len() / 4,
                c < 4,
        ;
        out.push(rgba[4 * i + c]);
        i += 1;
        assert(out@ =~= start + channel_plane(rgba@, c as int).subrange(0, i as int));
    }
    assert(channel_plane(rgba@, c as int).subrange(0, i as int) =~= channel_plane(rgba@, c as int));
}

/// A flat Photoshop document of the given size holding the 8-bit sRGB RGBA
/// pixels `rgba`: the fixed header, then the raw planes of its RGBA
/// channels in the order red, green, blue, alpha.
pub fn psd_flat_bytes(width: u32, height: u32, rgba: &[u8]) -> (r: Vec<u8>)
    ensures
        r@ == psd_flat_header(width, height) + channel_plane(rgba@, 0) + channel_plane(rgba@, 1)
            + channel_plane(rgba@, 2) + channel_plane(rgba@, 3),
        read_be32(r@, 14) == height,
        read_be32(r@, 18) == width,
{
    proof {
        law_psd_header_gives_the_size(width, height, rgba@);
    }
    let mut out: Vec<u8> = Vec::new();
    out.push(0x38);
    out.push(0x42);
    out.push(0x50);
    out.push(0x53);
    out.push(0);
    out.push(1);
    out.push(0);
    out.push(0);
    out.push(0);
    out.push(0);
    out.push(0);
    out.push(0);
    out.push(0);
    out.push(4);
    push_be32(&mut out, height);
    push_be32(&mut out, width);
    out.push(0);
    out.push(8);
    out.push(0);
    out.push(3);
    let mut k: usize = 0;
    while k < 14
        invariant
            k <= 14,
            out@.len() == 26 + k,
            forall|j: int| 26 <= j < out@.len() ==> out@[j] == 0,
            out@.subrange(0, 26) == seq![0x38u8, 0x42u8, 0x50u8, 0x53u8, 0u8, 1u8, 0u8, 0u8, 0u8, 0u8, 0u8, 0u8, 0u8, 4u8]
                + be32(height) + be32(width) + seq![0u8, 8u8, 0u8, 3u8],
        decreases 14 - k,
    {
        out.push(0);
        k += 1;
    }
    assert(out@ =~= psd_flat_header(width, height));
    push_plane(&mut out, rgba, 0);
    push_plane(&mut out, rgba, 1);
    push_plane(&mut out, rgba, 2);
    push_plane(&mut out, rgba, 3);
    out
}

} // verus!
