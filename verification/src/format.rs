//! Image file formats: recognising them by extension, and their export settings.
use vstd::prelude::*;

use crate::color::IccProfile;
use crate::text::{all_ascii, ascii_lowercase, lower_is};

verus! {

/// Supported image formats for import and export.
#[derive(Debug, Clone, Copy, PartialEq, Eq, Structural)]
pub enum ImageFormat {
    Png,
    Jpeg,
    WebP,
    Tiff,
    Bmp,
    Gif,
    Psd,
    Raw,
}

/// The extension of the last component of the path `path`, without its dot;
/// `None` when the file name has none (no dot, or only a leading one).
pub uninterp spec fn path_extension(path: Seq<char>) -> Option<Seq<char>>;

/// `std::path::Path::extension` on the path `path`, read back as text.
/// Claimed: the result is the extension that `path_extension` names for
/// this path. What that extension is, character by character, is left to std.
#[verifier::external_body]
fn extension_of(path: &str) -> (r: Option<&str>)
    ensures
        match r {
            Some(e) => path_extension(path@) == Some(e@),
            None => path_extension(path@) is None,
        },
{
    std::path::Path::new(path).extension()?.to_str()
}

/// The format a file extension stands for, letters compared without regard
/// to ASCII case.
pub open spec fn format_for_extension(ext: Seq<char>) -> Option<ImageFormat> {
    let e = ascii_lowercase(ext);
    if e == "png"@ {
        Some(ImageFormat::Png)
    } else if e == "jpg"@ || e == "jpeg"@ {
        Some(ImageFormat::Jpeg)
    } else if e == "webp"@ {
        Some(ImageFormat::WebP)
    } else if e == "tiff"@ || e == "tif"@ {
        Some(ImageFormat::Tiff)
    } else if e == "bmp"@ {
        Some(ImageFormat::Bmp)
    } else if e == "gif"@ {
        Some(ImageFormat::Gif)
    } else if e == "psd"@ {
        Some(ImageFormat::Psd)
    } else if e == "cr2"@ || e == "nef"@ || e == "arw"@ || e == "dng"@ || e == "raf"@ || e == "orf"@
        || e == "rw2"@ {
        Some(ImageFormat::Raw)
    } else {
        None
    }
}

/// The default file extension of a format.
pub open spec fn extension_spec(f: ImageFormat) -> Seq<char> {
    match f {
        ImageFormat::Png => "png"@,
        ImageFormat::Jpeg => "jpg"@,
        ImageFormat::WebP => "webp"@,
        ImageFormat::Tiff => "tiff"@,
        ImageFormat::Bmp => "bmp"@,
        ImageFormat::Gif => "gif"@,
        ImageFormat::Psd => "psd"@,
        ImageFormat::Raw => "dng"@,
    }
}

/// `w` is written in small ASCII letters and digits.
pub open spec fn keyword(w: Seq<char>) -> bool {
    &&& all_ascii(w)
    &&& ascii_lowercase(w) == w
}

proof fn lemma_keywords()
    ensures
        keyword("png"@),
        keyword("jpg"@),
        keyword("jpeg"@),
        keyword("webp"@),
        keyword("tiff"@),
        keyword("tif"@),
        keyword("bmp"@),
        keyword("gif"@),
        keyword("psd"@),
        keyword("cr2"@),
        keyword("nef"@),
        keyword("arw"@),
        keyword("dng"@),
        keyword("raf"@),
        keyword("orf"@),
        keyword("rw2"@),
{
    reveal_strlit("png");
    reveal_strlit("jpg");
    reveal_strlit("jpeg");
    reveal_strlit("webp");
    reveal_strlit("tiff");
    reveal_strlit("tif");
    reveal_strlit("bmp");
    reveal_strlit("gif");
    reveal_strlit("psd");
    reveal_strlit("cr2");
    reveal_strlit("nef");
    reveal_strlit("arw");
    reveal_strlit("dng");
    reveal_strlit("raf");
    reveal_strlit("orf");
    reveal_strlit("rw2");
    assert(ascii_lowercase("png"@) =~= "png"@);
    assert(ascii_lowercase("jpg"@) =~= "jpg"@);
    assert(ascii_lowercase("jpeg"@) =~= "jpeg"@);
    assert(ascii_lowercase("webp"@) =~= "webp"@);
    assert(ascii_lowercase("tiff"@) =~= "tiff"@);
    assert(ascii_lowercase("tif"@) =~= "tif"@);
    assert(ascii_lowercase("bmp"@) =~= "bmp"@);
    assert(ascii_lowercase("gif"@) =~= "gif"@);
    assert(ascii_lowercase("psd"@) =~= "psd"@);
    assert(ascii_lowercase("cr2"@) =~= "cr2"@);
    assert(ascii_lowercase("nef"@) =~= "nef"@);
    assert(ascii_lowercase("arw"@) =~= "arw"@);
    assert(ascii_lowercase("dng"@) =~= "dng"@);
    assert(ascii_lowercase("raf"@) =~= "raf"@);
    assert(ascii_lowercase("orf"@) =~= "orf"@);
    assert(ascii_lowercase("rw2"@) =~= "rw2"@);
}

impl ImageFormat {
    /// The format named by a file extension (without its dot), in any ASCII case.
    pub fn from_extension(ext: &str) -> (r: Option<ImageFormat>)
        ensures
            r == format_for_extension(ext@),
    {
        proof {
            lemma_keywords();
        }
        if lower_is(ext, "png") {
            Some(ImageFormat::Png)
        } else if lower_is(ext, "jpg") || lower_is(ext, "jpeg") {
            Some(ImageFormat::Jpeg)
        } else if lower_is(ext, "webp") {
            Some(ImageFormat::WebP)
        } else if lower_is(ext, "tiff") || lower_is(ext, "tif") {
            Some(ImageFormat::Tiff)
        } else if lower_is(ext, "bmp") {
            Some(ImageFormat::Bmp)
        } else if lower_is(ext, "gif") {
            Some(ImageFormat::Gif)
        } else if lower_is(ext, "psd") {
            Some(ImageFormat::Psd)
        } else if lower_is(ext, "cr2") || lower_is(ext, "nef") || lower_is(ext, "arw") || lower_is(ext, "dng")
            || lower_is(ext, "raf") || lower_is(ext, "orf") || lower_is(ext, "rw2") {
            Some(ImageFormat::Raw)
        } else {
            None
        }
    }

    /// Detect the format of a file from the extension of its path.
    pub fn from_path(path: &str) -> (r: Option<ImageFormat>)
        ensures
            r == match path_extension(path@) {
                Some(e) => format_for_extension(e),
                None => None,
            },
    {
        match extension_of(path) {
            Some(ext) => Self::from_extension(ext),
            None => None,
        }
    }

    /// The default file extension of this format.
    pub fn extension(self) -> (r: &'static str)
        ensures
            r@ == extension_spec(self),
    {
        match self {
            ImageFormat::Png => "png",
            ImageFormat::Jpeg => "jpg",
            ImageFormat::WebP => "webp",
            ImageFormat::Tiff => "tiff",
            ImageFormat::Bmp => "bmp",
            ImageFormat::Gif => "gif",
            ImageFormat::Psd => "psd",
            ImageFormat::Raw => "dng",
        }
    }

    /// Whether the format can be exported to: every format but raw camera files.
    pub fn is_exportable(self) -> (r: bool)
        ensures
            r == !(self is Raw),
    {
        !matches!(self, ImageFormat::Raw)
    }

    /// Whether the format keeps transparency.
    pub fn supports_alpha(self) -> (r: bool)
        ensures
            r == (self is Png || self is WebP || self is Tiff || self is Gif || self is Psd),
    {
        matches!(self, ImageFormat::Png | ImageFormat::WebP | ImageFormat::Tiff | ImageFormat::Gif | ImageFormat::Psd)
    }
}

proof fn lemma_differ_at(a: Seq<char>, b: Seq<char>, i: int)
    requires
        0 <= i < a.len(),
        i < b.len(),
        a[i] != b[i],
    ensures
        a != b,
{
}

/// A format is found again from its own default extension.
pub proof fn law_extension_names_its_format(f: ImageFormat)
    ensures
        format_for_extension(extension_spec(f)) == Some(f),
{
    lemma_keywords();
    reveal_strlit("png");
    reveal_strlit("jpg");
    reveal_strlit("jpeg");
    reveal_strlit("webp");
    reveal_strlit("tiff");
    reveal_strlit("tif");
    reveal_strlit("bmp");
    reveal_strlit("gif");
    reveal_strlit("psd");
    reveal_strlit("cr2");
    reveal_strlit("nef");
    reveal_strlit("arw");
    reveal_strlit("dng");
    let e = extension_spec(f);
    assert(ascii_lowercase(e) == e);
    if !(f is Png) {
        lemma_differ_at(e, "png"@, if f is Psd { 1 } else { 0 });
    }
    if !(f is Png || f is Jpeg) {
        lemma_differ_at(e, "jpg"@, 0);
        lemma_differ_at(e, "jpeg"@, 0);
    }
    if !(f is Png || f is Jpeg || f is WebP) {
        lemma_differ_at(e, "webp"@, 0);
    }
    if !(f is Png || f is Jpeg || f is WebP || f is Tiff) {
        lemma_differ_at(e, "tiff"@, 0);
        lemma_differ_at(e, "tif"@, 0);
    }
    if f is Psd || f is Raw {
        lemma_differ_at(e, "bmp"@, 0);
        lemma_differ_at(e, "gif"@, 0);
    }
    if f is Gif {
        lemma_differ_at(e, "bmp"@, 0);
    }
    if f is Raw {
        lemma_differ_at(e, "psd"@, 0);
        lemma_differ_at(e, "cr2"@, 0);
        lemma_differ_at(e, "nef"@, 0);
        lemma_differ_at(e, "arw"@, 0);
    }
}

/// JPEG export quality, from 1 to 100.
#[derive(Debug, Clone, Copy)]
pub struct JpegQuality(pub u8);

impl Default for JpegQuality {
    fn default() -> (r: JpegQuality)
        ensures
            r.0 == 90,
    {
        JpegQuality(90)
    }
}

impl JpegQuality {
    /// A quality, clamped to `1..=100`.
    pub fn new(quality: u8) -> (r: JpegQuality)
        ensures
            r.0 == (if quality < 1 { 1 } else if quality > 100 { 100 } else { quality }),
    {
        JpegQuality(if quality < 1 { 1 } else if quality > 100 { 100 } else { quality })
    }
}

/// Export settings for each exportable format.
#[derive(Debug, Clone)]
pub enum ExportSettings {
    Png,
    Jpeg(JpegQuality),
    WebP,
    Tiff,
    /// CMYK TIFF export (four separated channels).
    TiffCmyk,
    Bmp,
    Gif,
    Psd,
}

/// Full export configuration, with the color profile to embed if any.
#[derive(Debug)]
pub struct ExportConfig {
    pub settings: ExportSettings,
    /// ICC profile to embed in the output file.
    pub icc_profile: Option<IccProfile>,
}

/// The format that export settings write.
pub open spec fn settings_format(s: ExportSettings) -> ImageFormat {
    match s {
        ExportSettings::Png => ImageFormat::Png,
        ExportSettings::Jpeg(_) => ImageFormat::Jpeg,
        ExportSettings::WebP => ImageFormat::WebP,
        ExportSettings::Tiff | ExportSettings::TiffCmyk => ImageFormat::Tiff,
        ExportSettings::Bmp => ImageFormat::Bmp,
        ExportSettings::Gif => ImageFormat::Gif,
        ExportSettings::Psd => ImageFormat::Psd,
    }
}

impl ExportSettings {
    /// The default settings for an exportable format (JPEG at quality 90).
    /// Raw camera formats are import-only.
    pub fn for_format(format: ImageFormat) -> (r: ExportSettings)
        requires
            !(format is Raw),
        ensures
            settings_format(r) == format,
            !(r is TiffCmyk),
            r matches ExportSettings::Jpeg(q) ==> q.0 == 90,
    {
        match format {
            ImageFormat::Png => ExportSettings::Png,
            ImageFormat::Jpeg => ExportSettings::Jpeg(JpegQuality::default()),
            ImageFormat::WebP => ExportSettings::WebP,
            ImageFormat::Tiff => ExportSettings::Tiff,
            ImageFormat::Bmp => ExportSettings::Bmp,
            ImageFormat::Gif => ExportSettings::Gif,
            ImageFormat::Psd => ExportSettings::Psd,
            ImageFormat::Raw => {
                proof {
                    assert(false);
                }
                ExportSettings::Psd
            },
        }
    }

    /// The format these settings write.
    pub fn format(&self) -> (r: ImageFormat)
        ensures
            r == settings_format(*self),
    {
        match self {
            ExportSettings::Png => ImageFormat::Png,
            ExportSettings::Jpeg(_) => ImageFormat::Jpeg,
            ExportSettings::WebP => ImageFormat::WebP,
            ExportSettings::Tiff | ExportSettings::TiffCmyk => ImageFormat::Tiff,
            ExportSettings::Bmp => ImageFormat::Bmp,
            ExportSettings::Gif => ImageFormat::Gif,
            ExportSettings::Psd => ImageFormat::Psd,
        }
    }
}

} // verus!
