use crate::color::{black, palette_from_bytes, palette_to_bytes, rgb_bytes, rgb_entries, Rgb};
use crate::image::{Image, ImageView};
use crate::unpack::{unpack, unpacked};
use vstd::prelude::*;

verus! {

#[verifier::external_type_specification]
#[verifier::external_body]
pub struct ExDecodingError(png::DecodingError);

/// What the PNG reader hands back for one image: dimensions, source bit
/// depth, whether the color type is palette-indexed, one frame of raw
/// samples still packed at the source depth, and the raw palette and
/// transparency chunks.
pub struct DecodedParts {
    pub width: u32,
    pub height: u32,
    pub depth: u8,
    pub indexed: bool,
    pub pixels: Vec<u8>,
    pub palette: Option<Vec<u8>>,
    pub trns: Vec<u8>,
}

/// The abstract content of `DecodedParts`.
#[verifier::ext_equal]
pub ghost struct PartsView {
    pub width: int,
    pub height: int,
    pub depth: u8,
    pub indexed: bool,
    pub pixels: Seq<u8>,
    pub palette: Option<Seq<u8>>,
    pub trns: Seq<u8>,
}

impl View for DecodedParts {
    type V = PartsView;

    open spec fn view(&self) -> PartsView {
        PartsView {
            width: self.width as int,
            height: self.height as int,
            depth: self.depth,
            indexed: self.indexed,
            pixels: self.pixels@,
            palette: match self.palette {
                Some(p) => Some(p@),
                None => None,
            },
            trns: self.trns@,
        }
    }
}

impl PartsView {
    /// The sample depths this model supports; 16-bit indexed data is out of
    /// the format's scope.
    pub open spec fn depth_supported(self) -> bool {
        self.depth == 1 || self.depth == 2 || self.depth == 4 || self.depth == 8
    }

    /// Both dimensions are at least one pixel and an RGBA rendering of the
    /// grid fits the machine.
    pub open spec fn dims_ok(self) -> bool {
        &&& 1 <= self.width
        &&& 1 <= self.height
        &&& 4 * (self.width * self.height) <= usize::MAX
    }

    /// The palette the parts describe: entries of three bytes each, or the
    /// default two-entry black palette when the stream carried none.
    pub open spec fn palette_seq(self) -> Seq<Rgb> {
        match self.palette {
            Some(b) => rgb_entries(b),
            None => seq![black(), black()],
        }
    }

    /// The pixel grid the parts describe: the raw samples, expanded to one
    /// byte each when the source depth packs several into a byte.
    pub open spec fn samples(self) -> Seq<u8> {
        if self.depth == 8 {
            self.pixels
        } else {
            unpacked(self.pixels, self.depth, self.width)
        }
    }

    /// The image the parts describe.
    pub open spec fn image(self) -> ImageView {
        ImageView {
            width: self.width,
            height: self.height,
            pixels: self.samples(),
            palette: self.palette_seq(),
            trns: self.trns,
        }
    }

    /// The parts describe a well-formed image this model accepts.
    pub open spec fn ok(self) -> bool {
        &&& self.indexed
        &&& self.depth_supported()
        &&& self.dims_ok()
        &&& self.palette_seq().len() <= 256
        &&& self.samples().len() == self.width * self.height
        &&& self.trns.len() <= self.palette_seq().len()
        &&& forall|i: int|
            0 <= i < self.samples().len() ==> (#[trigger] self.samples()[i] as int)
                < self.palette_seq().len()
    }
}

/// Why a byte stream was not turned into an image.
#[derive(Debug)]
pub enum ImgError {
    /// The stream is not a decodable PNG.
    Decode(png::DecodingError),
    /// The image is not palette-indexed; that is a deliberate scope
    /// boundary, not a defect.
    NotIndexed,
    /// A sample depth this model does not support (16 bits per index).
    UnsupportedDepth,
    /// A dimension of zero pixels, or a grid too large for this machine.
    BadDimensions,
    /// More palette entries than one-byte indices can reach.
    PaletteTooLarge,
    /// The sample count does not match width times height.
    WrongPixelCount,
    /// A transparency table longer than the palette.
    TransparencyTooLong,
    /// A pixel referencing a palette entry that does not exist.
    IndexOutOfRange,
}

/// The error a stream of decoded parts is rejected with: the first check
/// of `image_from_parts` that fails, in the order the checks run.
pub open spec fn parts_error(p: PartsView) -> ImgError
    recommends
        !p.ok(),
{
    if !p.indexed {
        ImgError::NotIndexed
    } else if !p.depth_supported() {
        ImgError::UnsupportedDepth
    } else if !p.dims_ok() {
        ImgError::BadDimensions
    } else if p.palette_seq().len() > 256 {
        ImgError::PaletteTooLarge
    } else if p.samples().len() != p.width * p.height {
        ImgError::WrongPixelCount
    } else if p.trns.len() > p.palette_seq().len() {
        ImgError::TransparencyTooLong
    } else {
        ImgError::IndexOutOfRange
    }
}

/// The PNG serialization of an indexed image written with this library's
/// fixed policy: depth 8, no filtering, explicit palette and transparency
/// chunks. It depends on the arguments alone.
pub uninterp spec fn png_stream(
    width: int,
    height: int,
    pixels: Seq<u8>,
    palette: Seq<u8>,
    trns: Seq<u8>,
) -> Seq<u8>;

/// Relies on png::Encoder and png::Writer (write_header, write_image_data,
/// finish): serializes an indexed-color image at depth 8 with no filtering
/// and the given palette and transparency chunks into an in-memory byte
/// stream, which depends on the arguments alone. With nonzero dimensions,
/// a pixel buffer of exactly width*height bytes, and palette and
/// transparency chunks within the format's size limits, the encoder
/// accepts the image, and writing to a Vec cannot fail, so no call here
/// panics.
#[verifier::external_body]
fn png_encode(width: u32, height: u32, pixels: &Vec<u8>, palette: &Vec<u8>, trns: &Vec<u8>) -> (r:
    Vec<u8>)
    requires
        1 <= width,
        1 <= height,
        pixels@.len() == width * height,
        palette@.len() <= 768,
        trns@.len() <= 256,
    ensures
        r@ == png_stream(width as int, height as int, pixels@, palette@, trns@),
{
    let mut out: Vec<u8> = Vec::new();
    let mut enc = png::Encoder::new(&mut out, width, height);
    enc.set_color(png::ColorType::Indexed);
    enc.set_depth(png::BitDepth::Eight);
    enc.set_filter(png::FilterType::NoFilter);
    enc.set_palette(palette.clone());
    enc.set_trns(trns.clone());
    let mut writer = enc.write_header().unwrap();
    writer.write_image_data(pixels).unwrap();
    writer.finish().unwrap();
    out
}

/// What the PNG reader parses out of a byte stream: the decoded parts for
/// a stream it accepts, nothing for one it rejects. Parsing reads nothing
/// but the bytes, so the result is a function of them alone.
pub uninterp spec fn png_parsed(bytes: Seq<u8>) -> Option<PartsView>;

/// Relies on png::Decoder and png::Reader (read_info, next_frame): parses a
/// PNG stream and yields the header data and one frame of raw samples,
/// packed at the source bit depth (no transformation is requested), or the
/// reader's error for a malformed stream. What comes back is the parse of
/// the bytes, `png_parsed`: parts exactly when the reader accepts the
/// stream. The bit depth of a decoded frame is one of 1, 2, 4, 8 and 16
/// (the variants of png::BitDepth).
#[verifier::external_body]
fn png_decode(bytes: &Vec<u8>) -> (r: Result<DecodedParts, png::DecodingError>)
    ensures
        (r is Ok) <==> (png_parsed(bytes@) is Some),
        r matches Ok(p) ==> png_parsed(bytes@) == Some(p@),
        r matches Ok(p) ==> (p.depth == 1 || p.depth == 2 || p.depth == 4 || p.depth == 8
            || p.depth == 16),
{
    let mut reader = png::Decoder::new(bytes.as_slice()).read_info()?;
    let indexed = matches!(reader.info().color_type, png::ColorType::Indexed);
    let palette = reader.info().palette.as_ref().map(|p| p.clone().into_owned());
    let trns = reader.info().trns.as_ref().map(|t| t.clone().into_owned()).unwrap_or_default();
    let mut pixels = vec![0u8; reader.output_buffer_size()];
    let info = reader.next_frame(&mut pixels)?;
    pixels.truncate(info.buffer_size());
    let (width, height, depth) = (info.width, info.height, info.bit_depth as u8);
    Ok(DecodedParts { width, height, depth, indexed, pixels, palette, trns })
}

/// Build an image from decoded parts, checking everything the model's
/// invariants need: the parts must describe a palette-indexed image at a
/// supported depth whose samples all point into the palette.
#[verifier::loop_isolation(false)]
pub fn image_from_parts(parts: DecodedParts) -> (r: Result<Image, ImgError>)
    ensures
        (r is Ok) <==> parts@.ok(),
        r matches Ok(img) ==> img.wf() && img@ == parts@.image(),
        !parts@.indexed ==> (r matches Err(e) && e is NotIndexed),
        parts@.indexed && !parts@.depth_supported() ==> (r matches Err(e) && e is UnsupportedDepth),
        parts@.indexed && parts@.depth_supported() && !parts@.dims_ok() ==> (r matches Err(e) && e is BadDimensions),
        parts@.indexed && parts@.depth_supported() && parts@.dims_ok() && parts@.palette_seq().len()
            > 256 ==> (r matches Err(e) && e is PaletteTooLarge),
        parts@.indexed && parts@.depth_supported() && parts@.dims_ok() && parts@.palette_seq().len()
            <= 256 && parts@.samples().len() != parts@.width * parts@.height ==> (r matches Err(e) && e is WrongPixelCount),
        parts@.indexed && parts@.depth_supported() && parts@.dims_ok() && parts@.palette_seq().len()
            <= 256 && parts@.samples().len() == parts@.width * parts@.height && parts@.trns.len()
            > parts@.palette_seq().len() ==> (r matches Err(e) && e is TransparencyTooLong),
        parts@.indexed && parts@.depth_supported() && parts@.dims_ok() && parts@.palette_seq().len()
            <= 256 && parts@.samples().len() == parts@.width * parts@.height && parts@.trns.len()
            <= parts@.palette_seq().len() && !parts@.ok() ==> (r matches Err(e) && e is IndexOutOfRange),
        !parts@.ok() ==> (r matches Err(e) && e == parts_error(parts@)),
{
    if !parts.indexed {
        return Err(ImgError::NotIndexed);
    }
    let depth = parts.depth;
    if !(depth == 1 || depth == 2 || depth == 4 || depth == 8) {
        return Err(ImgError::UnsupportedDepth);
    }
    if parts.width == 0 || parts.height == 0 {
        return Err(ImgError::BadDimensions);
    }
    let n = match (parts.width as usize).checked_mul(parts.height as usize) {
        Some(n) => n,
        None => {
            return Err(ImgError::BadDimensions);
        },
    };
    if n.checked_mul(4).is_none() {
        return Err(ImgError::BadDimensions);
    }
    let palette: Vec<Rgb> = match &parts.palette {
        Some(b) => palette_from_bytes(b),
        None => {
            let mut p: Vec<Rgb> = Vec::new();
            p.push(Rgb { r: 0, g: 0, b: 0 });
            p.push(Rgb { r: 0, g: 0, b: 0 });
            proof {
                assert(p@ =~= seq![black(), black()]);
            }
            p
        },
    };
    if palette.len() > 256 {
        return Err(ImgError::PaletteTooLarge);
    }
    let samples: Vec<u8> = if depth == 8 {
        parts.pixels
    } else {
        unpack(&parts.pixels, depth, parts.width as usize)
    };
    if samples.len() != n {
        return Err(ImgError::WrongPixelCount);
    }
    if parts.trns.len() > palette.len() {
        return Err(ImgError::TransparencyTooLong);
    }
    let mut i: usize = 0;
    while i < samples.len()
        invariant
            i <= samples@.len(),
            palette@.len() <= 256,
            forall|k: int| 0 <= k < i ==> (#[trigger] samples@[k] as int) < palette@.len(),
        decreases samples@.len() - i,
    {
        if samples[i] as usize >= palette.len() {
            return Err(ImgError::IndexOutOfRange);
        }
        i = i + 1;
    }
    let img = Image::from_buffers(parts.width, parts.height, samples, palette, parts.trns);
    proof {
        assert(img@ =~= parts@.image());
    }
    Ok(img)
}

impl Image {
    /// Read an image from a PNG byte stream: exactly the image that the
    /// parse of the bytes (`png_parsed`) describes. It succeeds if and only
    /// if the reader accepts the stream and the parts pass every check of
    /// `image_from_parts`; a stream the reader rejects answers the decode
    /// error, one the model rejects the error of the first failing check.
    pub fn from_png_bytes(bytes: &Vec<u8>) -> (r: Result<Image, ImgError>)
        ensures
            (r is Ok) <==> (png_parsed(bytes@) matches Some(p) && p.ok()),
            r matches Ok(img) ==> (png_parsed(bytes@) matches Some(p) && img.wf() && img@
                == p.image()),
            (png_parsed(bytes@) is None) ==> (r matches Err(e) && e is Decode),
            png_parsed(bytes@) matches Some(p) ==> (!p.ok() ==> (r matches Err(e) && e
                == parts_error(p))),
    {
        match png_decode(bytes) {
            Ok(parts) => image_from_parts(parts),
            Err(e) => Err(ImgError::Decode(e)),
        }
    }

    /// Serialize the image with the fixed policy of this model: indexed
    /// color, full 8-bit sample depth even when the source was packed, no
    /// filtering, and the palette and transparency table written as they
    /// stand.
    pub fn encode(&self) -> (r: Vec<u8>)
        requires
            self.wf(),
        ensures
            r@ == png_stream(
                self@.width,
                self@.height,
                self@.pixels,
                rgb_bytes(self@.palette),
                self@.trns,
            ),
    {
        proof {
            crate::image::lemma_wf_view(self);
        }
        let pal = palette_to_bytes(self.palette());
        png_encode(
            self.width() as u32,
            self.height() as u32,
            self.image(),
            &pal,
            self.trns(),
        )
    }
}

} // verus!
