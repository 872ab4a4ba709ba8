//! The native project file: the magic bytes `RASA`, the length of the JSON
//! header as a little-endian `u64`, the header, then the pixel data of the
//! raster layers one after the other.
use vstd::bytes::{
    lemma_auto_spec_u64_to_from_le_bytes, spec_u64_from_le_bytes, spec_u64_to_le_bytes, u64_from_le_bytes,
    u64_to_le_bytes,
};
use vstd::prelude::*;
use vstd::slice::slice_subrange;
use vstd::string::StringExecFns;

use crate::command::{index_of, pixels_of};
use crate::document::Document;
use crate::error::RasaError;
use crate::layer::{LayerKind, LayerKindModel, LayerModel};
use crate::text::{decimal, decimal_string};

verus! {

/// Version of the project format written in headers.
pub const FORMAT_VERSION: u32 = 1;

/// Largest header accepted when reading (256 MiB), against crafted files.
pub const MAX_HEADER_SIZE: u64 = 268435456;

/// The four bytes a project file starts with: `RASA` in ASCII.
pub open spec fn project_magic() -> Seq<u8> {
    seq![0x52u8, 0x41u8, 0x53u8, 0x41u8]
}

/// A project file with the given header and pixel data.
pub open spec fn framed(header: Seq<u8>, body: Seq<u8>) -> Seq<u8> {
    project_magic() + spec_u64_to_le_bytes(header.len() as u64) + header + body
}

/// The header length recorded in a file, read from bytes 4..12.
pub open spec fn recorded_header_len(bytes: Seq<u8>) -> u64 {
    spec_u64_from_le_bytes(bytes.subrange(4, 12))
}

/// The header and the pixel data of a well-formed project file; `None` when
/// the file is too short for what it announces, has another magic, or
/// announces a header larger than `MAX_HEADER_SIZE`.
pub open spec fn project_parts(bytes: Seq<u8>) -> Option<(Seq<u8>, Seq<u8>)> {
    if bytes.len() < 12 || bytes.subrange(0, 4) != project_magic() {
        None
    } else {
        let n = recorded_header_len(bytes);
        if n > MAX_HEADER_SIZE || bytes.len() < 12 + n {
            None
        } else {
            Some((bytes.subrange(12, 12 + n), bytes.subrange(12 + n, bytes.len() as int)))
        }
    }
}

/// The message of a read that ran out of bytes.
pub open spec fn truncated_message() -> Seq<char> {
    "failed to fill whole buffer"@
}

/// `r` is the error of a read that ran out of bytes.
pub open spec fn is_truncated(r: Result<(&[u8], &[u8]), RasaError>) -> bool {
    r matches Err(RasaError::Io(m)) && m@ == truncated_message()
}

/// Lay out a project file: magic, header length, header, pixel data.
pub fn frame_project(header: &[u8], body: &[u8]) -> (r: Vec<u8>)
    ensures
        r@ == framed(header@, body@),
{
    let mut out: Vec<u8> = Vec::new();
    out.push(0x52);
    out.push(0x41);
    out.push(0x53);
    out.push(0x41);
    let len = u64_to_le_bytes(header.len() as u64);
    append_bytes(&mut out, len.as_slice());
    append_bytes(&mut out, header);
    append_bytes(&mut out, body);
    assert(out@ =~= framed(header@, body@));
    out
}

fn append_bytes(out: &mut Vec<u8>, more: &[u8])
    ensures
        final(out)@ == old(out)@ + more@,
{
    let ghost start = out@;
    let mut i: usize = 0;
    while i < more.len()
        invariant
            i <= more@.len(),
            out@ == start + more@.subrange(0, i as int),
        decreases more.len() - i,
    {
        out.push(more[i]);
        i += 1;
        assert(out@ =~= start + more@.subrange(0, i as int));
    }
    assert(more@.subrange(0, i as int) =~= more@);
}

/// Split a project file into its header and its pixel data, checking the
/// magic bytes and the announced header length.
pub fn split_project(bytes: &[u8]) -> (r: Result<(&[u8], &[u8]), RasaError>)
    ensures
        bytes@.len() < 4 ==> is_truncated(r),
        bytes@.len() >= 4 && bytes@.subrange(0, 4) != project_magic() ==> (r matches Err(
            RasaError::CorruptFile(m),
        ) && m@ == "not a .rasa file (bad magic)"@),
        bytes@.len() >= 4 && bytes@.subrange(0, 4) == project_magic() && bytes@.len() < 12 ==> is_truncated(r),
        bytes@.len() >= 12 && bytes@.subrange(0, 4) == project_magic() ==> {
            let n = recorded_header_len(bytes@);
            &&& n > MAX_HEADER_SIZE ==> (r matches Err(RasaError::CorruptFile(m)) && m@ == "header too large: "@
                + decimal(n as nat) + " bytes (max 268435456)"@)
            &&& n <= MAX_HEADER_SIZE && bytes@.len() < 12 + n ==> is_truncated(r)
        },
        r matches Ok((h, b)) ==> project_parts(bytes@) == Some((h@, b@)),
        project_parts(bytes@) is Some ==> r is Ok,
{
    if bytes.len() < 4 {
        return Err(RasaError::Io("failed to fill whole buffer".to_owned()));
    }
    if !(bytes[0] == 0x52 && bytes[1] == 0x41 && bytes[2] == 0x53 && bytes[3] == 0x41) {
        proof {
            if bytes@.subrange(0, 4) == project_magic() {
                assert(bytes@.subrange(0, 4)[0] == bytes@[0]);
                assert(bytes@.subrange(0, 4)[1] == bytes@[1]);
                assert(bytes@.subrange(0, 4)[2] == bytes@[2]);
                assert(bytes@.subrange(0, 4)[3] == bytes@[3]);
            }
        }
        return Err(RasaError::CorruptFile("not a .rasa file (bad magic)".to_owned()));
    }
    assert(bytes@.subrange(0, 4) =~= project_magic());
    if bytes.len() < 12 {
        return Err(RasaError::Io("failed to fill whole buffer".to_owned()));
    }
    let n = u64_from_le_bytes(slice_subrange(bytes, 4, 12));
    if n > MAX_HEADER_SIZE {
        let mut m = "header too large: ".to_owned();
        m.append(decimal_string(n).as_str());
        m.append(" bytes (max 268435456)");
        return Err(RasaError::CorruptFile(m));
    }
    let end = 12 + n as usize;
    if bytes.len() < end {
        return Err(RasaError::Io("failed to fill whole buffer".to_owned()));
    }
    Ok((slice_subrange(bytes, 12, end), slice_subrange(bytes, end, bytes.len())))
}

/// A project file is read back as the header and pixel data it was laid
/// out with, whenever the header is within `MAX_HEADER_SIZE`.
pub proof fn law_split_reads_back_frame(header: Seq<u8>, body: Seq<u8>)
    requires
        header.len() <= MAX_HEADER_SIZE,
    ensures
        project_parts(framed(header, body)) == Some((header, body)),
{
    lemma_auto_spec_u64_to_from_le_bytes();
    let f = framed(header, body);
    let le = spec_u64_to_le_bytes(header.len() as u64);
    assert(f.subrange(0, 4) =~= project_magic());
    assert(f.subrange(4, 12) =~= le);
    assert(f.subrange(12, 12 + header.len() as int) =~= header);
    assert(f.subrange(12 + header.len() as int, f.len() as int) =~= body);
}

// ── Pixel data of the raster layers ────────────────────

/// The layers whose pixels a project file stores, in stack order: raster
/// layers that have pixel data.
pub open spec fn stored_layer_ids(layers: Seq<LayerModel>, pixels: Seq<(u128, crate::pixel::BufferModel)>) -> Seq<u128> {
    layers.filter(|l: LayerModel| l.kind is Raster && pixels_of(pixels, l.id) is Some).map_values(|l: LayerModel| l.id)
}

impl Document {
    /// The identifiers of the layers whose pixels a project file stores.
    pub fn stored_layer_ids(&self) -> (r: Vec<u128>)
        ensures
            r@ == stored_layer_ids(self@.layers, self@.pixels),
    {
        let ghost s = self@.layers;
        let ghost p = self@.pixels;
        let ghost pred = |l: LayerModel| l.kind is Raster && pixels_of(p, l.id) is Some;
        proof {
            self.lemma_view();
        }
        let mut r: Vec<u128> = Vec::new();
        let mut i: usize = 0;
        while i < self.layers.len()
            invariant
                i <= self.layers@.len(),
                s == self@.layers,
                p == self@.pixels,
                s.len() == self.layers@.len(),
                forall|k: int| 0 <= k < self.layers@.len() ==> #[trigger] s[k] == self.layers@[k]@,
                pred == (|l: LayerModel| l.kind is Raster && pixels_of(p, l.id) is Some),
                r@ == s.subrange(0, i as int).filter(pred).map_values(|l: LayerModel| l.id),
            decreases self.layers.len() - i,
        {
            let l = &self.layers[i];
            proof {
                assert(s.subrange(0, i + 1).drop_last() =~= s.subrange(0, i as int));
                reveal(Seq::filter);
            }
            let is_raster = match &l.kind {
                LayerKind::Raster { .. } => true,
                _ => false,
            };
            if is_raster && self.get_pixels(l.id).is_some() {
                r.push(l.id);
                assert(s.subrange(0, i + 1).filter(pred) == s.subrange(0, i as int).filter(pred).push(s[i as int]));
                assert(r@ =~= s.subrange(0, i + 1).filter(pred).map_values(|l: LayerModel| l.id));
            } else {
                assert(s.subrange(0, i + 1).filter(pred) == s.subrange(0, i as int).filter(pred));
            }
            i += 1;
        }
        assert(s.subrange(0, i as int) =~= s);
        r
    }
}

/// The width and height of the first layer with identifier `id`, if it is a raster layer.
pub open spec fn raster_size(layers: Seq<LayerModel>, id: u128) -> Option<(u32, u32)> {
    match index_of(layers, id) {
        Some(i) => match layers[i].kind {
            LayerKindModel::Raster { width, height } => Some((width, height)),
            _ => None,
        },
        None => None,
    }
}

/// The pixel data of the layers `ids` read in turn from `body`: each raster
/// layer takes `4 * width * height` bytes (RGBA), other identifiers take
/// none. `None` when `body` runs out.
pub open spec fn sections(layers: Seq<LayerModel>, ids: Seq<u128>, body: Seq<u8>) -> Option<
    Seq<(u128, u32, u32, Seq<u8>)>,
>
    decreases ids.len(),
{
    if ids.len() == 0 {
        Some(seq![])
    } else {
        match raster_size(layers, ids[0]) {
            Some((w, h)) => {
                let n = w * h * 4;
                if body.len() < n {
                    None
                } else {
                    match sections(layers, ids.drop_first(), body.subrange(n, body.len() as int)) {
                        Some(rest) => Some(seq![(ids[0], w, h, body.subrange(0, n))] + rest),
                        None => None,
                    }
                }
            },
            None => sections(layers, ids.drop_first(), body),
        }
    }
}

/// `Some(a + s)` for `Some(s)`, `None` for `None`.
pub open spec fn prefixed(
    a: Seq<(u128, u32, u32, Seq<u8>)>,
    s: Option<Seq<(u128, u32, u32, Seq<u8>)>>,
) -> Option<Seq<(u128, u32, u32, Seq<u8>)>> {
    match s {
        Some(t) => Some(a + t),
        None => None,
    }
}

/// The values of pixel sections.
pub open spec fn section_views(v: Seq<(u128, u32, u32, &[u8])>) -> Seq<(u128, u32, u32, Seq<u8>)> {
    Seq::new(v.len(), |i: int| (v[i].0, v[i].1, v[i].2, v[i].3@))
}

proof fn lemma_prefixed_assoc(
    a: Seq<(u128, u32, u32, Seq<u8>)>,
    x: (u128, u32, u32, Seq<u8>),
    s: Option<Seq<(u128, u32, u32, Seq<u8>)>>,
)
    ensures
        prefixed(a, prefixed(seq![x], s)) == prefixed(a.push(x), s),
{
    if let Some(t) = s {
        assert(a + (seq![x] + t) =~= a.push(x) + t);
    }
}

impl Document {
    /// Cut the pixel data of the layers `ids` out of `body`, in turn. Fails
    /// as a read does when `body` is too short.
    pub fn pixel_sections<'a>(&self, ids: &[u128], body: &'a [u8]) -> (r: Result<
        Vec<(u128, u32, u32, &'a [u8])>,
        RasaError,
    >)
        ensures
            match sections(self@.layers, ids@, body@) {
                Some(s) => r matches Ok(v) && section_views(v@) == s,
                None => r matches Err(RasaError::Io(m)) && m@ == truncated_message(),
            },
    {
        proof {
            self.lemma_view();
        }
        let ghost layers = self@.layers;
        let mut out: Vec<(u128, u32, u32, &'a [u8])> = Vec::new();
        let mut pos: usize = 0;
        let mut i: usize = 0;
        proof {
            assert(ids@.subrange(0, ids@.len() as int) =~= ids@);
            assert(body@.subrange(0, body@.len() as int) =~= body@);
            assert(section_views(out@) =~= seq![]);
            assert(seq![] + sections(layers, ids@, body@)->0 =~= sections(layers, ids@, body@)->0);
        }
        while i < ids.len()
            invariant
                i <= ids@.len(),
                pos <= body@.len(),
                layers == self@.layers,
                sections(layers, ids@, body@) == prefixed(
                    section_views(out@),
                    sections(layers, ids@.subrange(i as int, ids@.len() as int), body@.subrange(pos as int, body@.len() as int)),
                ),
            decreases ids.len() - i,
        {
            let id = ids[i];
            let ghost rest_ids = ids@.subrange(i as int, ids@.len() as int);
            let ghost rest = body@.subrange(pos as int, body@.len() as int);
            assert(rest_ids[0] == id);
            assert(rest_ids.drop_first() =~= ids@.subrange(i + 1, ids@.len() as int));
            match self.raster_size_of(id) {
                Some((w, h)) => {
                    let avail = body.len() - pos;
                    assert((w as int) * (h as int) <= 0xffff_ffffint * 0xffff_ffffint) by (nonlinear_arith)
                        requires
                            0 <= w <= 0xffff_ffffint,
                            0 <= h <= 0xffff_ffffint,
                    ;
                    let n = (w as u128) * (h as u128) * 4;
                    if (avail as u128) < n {
                        return Err(RasaError::Io("failed to fill whole buffer".to_owned()));
                    }
                    let n = n as usize;
                    let chunk = slice_subrange(body, pos, pos + n);
                    assert(chunk@ =~= rest.subrange(0, n as int));
                    assert(rest.subrange(n as int, rest.len() as int) =~= body@.subrange(pos + n, body@.len() as int));
                    proof {
                        lemma_prefixed_assoc(
                            section_views(out@),
                            (id, w, h, chunk@),
                            sections(layers, ids@.subrange(i + 1, ids@.len() as int), body@.subrange(pos + n, body@.len() as int)),
                        );
                    }
                    let ghost before = section_views(out@);
                    out.push((id, w, h, chunk));
                    assert(section_views(out@) =~= before.push((id, w, h, chunk@)));
                    pos = pos + n;
                },
                None => {},
            }
            i += 1;
        }
        proof {
            assert(ids@.subrange(i as int, ids@.len() as int) =~= seq![]);
            assert(section_views(out@) + seq![] =~= section_views(out@));
        }
        Ok(out)
    }

    /// The width and height of the first layer `id`, if it is a raster layer.
    fn raster_size_of(&self, id: u128) -> (r: Option<(u32, u32)>)
        ensures
            r == raster_size(self@.layers, id),
    {
        match self.find_layer(id) {
            Some(l) => match &l.kind {
                LayerKind::Raster { width, height } => Some((*width, *height)),
                _ => None,
            },
            None => None,
        }
    }
}

/// The chunks of `chunks` one after the other.
pub open spec fn concat_all(chunks: Seq<Seq<u8>>) -> Seq<u8>
    decreases chunks.len(),
{
    if chunks.len() == 0 {
        seq![]
    } else {
        chunks[0] + concat_all(chunks.drop_first())
    }
}

/// Pixel data written as one RGBA chunk per raster layer is read back as
/// the same chunks, each with its layer's size.
pub proof fn law_sections_read_back(layers: Seq<LayerModel>, ids: Seq<u128>, chunks: Seq<Seq<u8>>)
    requires
        ids.len() == chunks.len(),
        forall|k: int| 0 <= k < ids.len() ==> (#[trigger] raster_size(layers, ids[k]) matches Some((w, h))
            && chunks[k].len() == w * h * 4),
    ensures
        sections(layers, ids, concat_all(chunks)) == Some(
            Seq::new(ids.len(), |k: int| (ids[k], raster_size(layers, ids[k]).unwrap().0, raster_size(layers, ids[k]).unwrap().1, chunks[k])),
        ),
    decreases ids.len(),
{
    let expected = Seq::new(ids.len(), |k: int| (ids[k], raster_size(layers, ids[k]).unwrap().0, raster_size(layers, ids[k]).unwrap().1, chunks[k]));
    if ids.len() == 0 {
        assert(expected =~= seq![]);
    } else {
        let body = concat_all(chunks);
        let (w, h) = raster_size(layers, ids[0])->0;
        let n = w * h * 4;
        assert(raster_size(layers, ids[0]) matches Some((w0, h0)) && chunks[0].len() == w0 * h0 * 4);
        assert(body.subrange(0, n) =~= chunks[0]);
        assert(body.subrange(n, body.len() as int) =~= concat_all(chunks.drop_first()));
        assert forall|k: int| 0 <= k < ids.drop_first().len() implies (#[trigger] raster_size(layers, ids.drop_first()[k]) matches Some((w, h))
            && chunks.drop_first()[k].len() == w * h * 4) by {
            assert(ids.drop_first()[k] == ids[k + 1]);
            assert(raster_size(layers, ids[k + 1]) matches Some((w, h)) && chunks[k + 1].len() == w * h * 4);
        }
        law_sections_read_back(layers, ids.drop_first(), chunks.drop_first());
        let rest = Seq::new(ids.drop_first().len(), |k: int| (ids.drop_first()[k], raster_size(layers, ids.drop_first()[k]).unwrap().0, raster_size(layers, ids.drop_first()[k]).unwrap().1, chunks.drop_first()[k]));
        assert(seq![(ids[0], w, h, chunks[0])] + rest =~= expected);
    }
}

} // verus!
