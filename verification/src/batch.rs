//! Batch processing: what format each file is written in, and the tally of a run.
use vstd::prelude::*;

use crate::bits::F32Bits;
use crate::error::RasaError;
use crate::format::{path_extension, format_for_extension, ExportSettings, ImageFormat, JpegQuality};

verus! {

/// A filter applied to every file of a batch; parameters are `f32` bit patterns.
#[derive(Debug, Clone, Copy, PartialEq, Eq, Structural)]
pub enum BatchFilter {
    Invert,
    Grayscale,
    BrightnessContrast { brightness: F32Bits, contrast: F32Bits },
    HueSaturation { hue: F32Bits, saturation: F32Bits, lightness: F32Bits },
    GaussianBlur { radius: u32 },
    Sharpen { radius: u32, amount: F32Bits },
}

/// What became of one file of a batch.
#[derive(Debug)]
pub struct BatchFileResult {
    pub input: String,
    /// Where the output was written, when it was.
    pub output: Option<String>,
    /// Why the file failed, when it did.
    pub error: Option<String>,
}

/// The result of a whole batch run.
#[derive(Debug)]
pub struct BatchResult {
    pub total: usize,
    pub succeeded: usize,
    pub failed: usize,
    pub results: Vec<BatchFileResult>,
}

/// How many of `r` succeeded (have no error).
pub open spec fn successes(r: Seq<BatchFileResult>) -> nat
    decreases r.len(),
{
    if r.len() == 0 {
        0
    } else {
        successes(r.drop_last()) + if r.last().error is None { 1nat } else { 0nat }
    }
}

impl BatchResult {
    /// The result of a run whose files ended as `results`, in order.
    pub fn tally(results: Vec<BatchFileResult>) -> (r: BatchResult)
        ensures
            r.results@ == results@,
            r.total == results@.len(),
            r.succeeded == successes(results@),
            r.failed == results@.len() - successes(results@),
            r.succeeded + r.failed == r.total,
    {
        let mut succeeded: usize = 0;
        let mut i: usize = 0;
        while i < results.len()
            invariant
                i <= results@.len(),
                succeeded == successes(results@.subrange(0, i as int)),
                succeeded <= i,
            decreases results.len() - i,
        {
            assert(results@.subrange(0, i + 1).drop_last() =~= results@.subrange(0, i as int));
            if results[i].error.is_none() {
                succeeded += 1;
            }
            i += 1;
        }
        assert(results@.subrange(0, i as int) =~= results@);
        let total = results.len();
        BatchResult { total, succeeded, failed: total - succeeded, results }
    }
}

/// The format a batch writes a file in: the job's format if it has one, else
/// the format of the input's extension, else PNG.
pub open spec fn output_format_for(format: Option<ImageFormat>, input_path: Seq<char>) -> ImageFormat {
    match format {
        Some(f) => f,
        None => match path_extension(input_path) {
            Some(e) => match format_for_extension(e) {
                Some(f) => f,
                None => ImageFormat::Png,
            },
            None => ImageFormat::Png,
        },
    }
}

/// The format and export settings a batch writes the file `input_path` with,
/// or `UnsupportedFormat` when that format cannot be written (raw camera files).
/// JPEG output uses `jpeg_quality`, clamped to `1..=100`.
pub fn output_settings(format: Option<ImageFormat>, input_path: &str, jpeg_quality: u8) -> (r: Result<
    (ImageFormat, ExportSettings),
    RasaError,
>)
    ensures
        output_format_for(format, input_path@) is Raw ==> (r matches Err(RasaError::UnsupportedFormat(m))
            && m@ == "Raw is not exportable"@),
        !(output_format_for(format, input_path@) is Raw) ==> (r matches Ok((f, s)) && {
            &&& f == output_format_for(format, input_path@)
            &&& crate::format::settings_format(s) == f
            &&& !(s is TiffCmyk)
            &&& (s matches ExportSettings::Jpeg(q) ==> q.0 == (if jpeg_quality < 1 {
                1
            } else if jpeg_quality > 100 {
                100
            } else {
                jpeg_quality
            }))
        }),
{
    let f = match format {
        Some(f) => f,
        None => match ImageFormat::from_path(input_path) {
            Some(f) => f,
            None => ImageFormat::Png,
        },
    };
    if !f.is_exportable() {
        return Err(RasaError::UnsupportedFormat("Raw is not exportable".to_owned()));
    }
    let settings = match f {
        ImageFormat::Jpeg => ExportSettings::Jpeg(JpegQuality::new(jpeg_quality)),
        _ => ExportSettings::for_format(f),
    };
    Ok((f, settings))
}

} // verus!
