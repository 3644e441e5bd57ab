//! An uncompressed truecolor bitmap: an 18-byte little-endian header
//! followed by the raw pixel bytes, row-major, 4 bytes per pixel in the
//! order B, G, R, A.
//!
//! The header's descriptor byte signals a vertical origin convention that
//! the rendering pipeline never compensates for; the pixel data is stored
//! exactly as written, never flipped.

use vstd::prelude::*;

verus! {

/// Size of the bitmap header in bytes.
pub const TGAHEADER_BYTES_COUNT: usize = 18;

/// A pixel coordinate: column, then row.
pub type TGACoord = (u16, u16);

/// A color as the quadruple red, green, blue, alpha.
pub type TGAColor = (u8, u8, u8, u8);

/// Opaque black.
pub const BLACK: TGAColor = (0, 0, 0, 255);

/// Opaque white.
pub const WHITE: TGAColor = (255, 255, 255, 255);

/// Opaque pure red.
pub const RED: TGAColor = (255, 0, 0, 255);

/// Opaque pure green.
pub const GREEN: TGAColor = (0, 255, 0, 255);

/// Opaque pure blue.
pub const BLUE: TGAColor = (0, 0, 255, 255);

/// Errors of the bitmap codec.
#[derive(Clone, Copy, Debug, PartialEq, Eq, Structural)]
pub enum TgaError {
    /// Fewer than the 18 header bytes were given.
    TruncatedHeader,
    /// Fewer pixel bytes were given than the header announces.
    TruncatedImage,
}

/// The fixed-size bitmap header, field by field.
#[derive(Clone, Copy, Debug, PartialEq, Eq, Structural)]
pub struct TGAHeader {
    pub id_length: u8,
    pub color_map_type: u8,
    pub image_type: u8,
    pub color_map_origin: u16,
    pub color_map_entries_count: u16,
    pub color_map_bits_per_entry: u8,
    pub image_origin_x: u16,
    pub image_origin_y: u16,
    pub image_width: u16,
    pub image_height: u16,
    pub image_bits_per_pixel: u8,
    pub image_descriptor: u8,
}

impl Default for TGAHeader {
    /// The all-zero header.
    fn default() -> (h: Self)
        ensures
            h == TGAHeader::zeroed(),
    {
        TGAHeader {
            id_length: 0,
            color_map_type: 0,
            image_type: 0,
            color_map_origin: 0,
            color_map_entries_count: 0,
            color_map_bits_per_entry: 0,
            image_origin_x: 0,
            image_origin_y: 0,
            image_width: 0,
            image_height: 0,
            image_bits_per_pixel: 0,
            image_descriptor: 0,
        }
    }
}

/// The low byte of a 16-bit little-endian value.
pub open spec fn lo16(x: u16) -> u8 {
    (x % 256) as u8
}

/// The high byte of a 16-bit little-endian value.
pub open spec fn hi16(x: u16) -> u8 {
    (x / 256) as u8
}

/// The 16-bit value stored as the little-endian bytes `lo`, `hi`.
pub open spec fn le16(lo: u8, hi: u8) -> u16 {
    (lo + 256 * hi) as u16
}

/// The header read from the first 18 bytes of `b`.
pub open spec fn header_of(b: Seq<u8>) -> TGAHeader {
    TGAHeader {
        id_length: b[0],
        color_map_type: b[1],
        image_type: b[2],
        color_map_origin: le16(b[3], b[4]),
        color_map_entries_count: le16(b[5], b[6]),
        color_map_bits_per_entry: b[7],
        image_origin_x: le16(b[8], b[9]),
        image_origin_y: le16(b[10], b[11]),
        image_width: le16(b[12], b[13]),
        image_height: le16(b[14], b[15]),
        image_bits_per_pixel: b[16],
        image_descriptor: b[17],
    }
}

/// The 18 bytes that store the header `h`.
pub open spec fn header_bytes(h: TGAHeader) -> Seq<u8> {
    seq![
        h.id_length,
        h.color_map_type,
        h.image_type,
        lo16(h.color_map_origin),
        hi16(h.color_map_origin),
        lo16(h.color_map_entries_count),
        hi16(h.color_map_entries_count),
        h.color_map_bits_per_entry,
        lo16(h.image_origin_x),
        hi16(h.image_origin_x),
        lo16(h.image_origin_y),
        hi16(h.image_origin_y),
        lo16(h.image_width),
        hi16(h.image_width),
        lo16(h.image_height),
        hi16(h.image_height),
        h.image_bits_per_pixel,
        h.image_descriptor,
    ]
}

/// How many pixel bytes a header announces: width times height times bits
/// per pixel, in whole bytes.
pub open spec fn pixel_byte_count(h: TGAHeader) -> int {
    (h.image_width * h.image_height * h.image_bits_per_pixel) / 8
}

impl TGAHeader {
    /// The all-zero header.
    pub open spec fn zeroed() -> TGAHeader {
        TGAHeader {
            id_length: 0,
            color_map_type: 0,
            image_type: 0,
            color_map_origin: 0,
            color_map_entries_count: 0,
            color_map_bits_per_entry: 0,
            image_origin_x: 0,
            image_origin_y: 0,
            image_width: 0,
            image_height: 0,
            image_bits_per_pixel: 0,
            image_descriptor: 0,
        }
    }

    /// Reads a header from the leading 18 bytes; fewer bytes are rejected.
    pub fn from_bytes(bytes: &[u8]) -> (r: Result<Self, TgaError>)
        ensures
            match r {
                Ok(h) => bytes@.len() >= TGAHEADER_BYTES_COUNT && h == header_of(bytes@),
                Err(e) => e == TgaError::TruncatedHeader && bytes@.len() < TGAHEADER_BYTES_COUNT,
            },
    {
        if bytes.len() < TGAHEADER_BYTES_COUNT {
            return Err(TgaError::TruncatedHeader);
        }
        Ok(
            TGAHeader {
                id_length: bytes[0],
                color_map_type: bytes[1],
                image_type: bytes[2],
                color_map_origin: bytes[3] as u16 + bytes[4] as u16 * 256,
                color_map_entries_count: bytes[5] as u16 + bytes[6] as u16 * 256,
                color_map_bits_per_entry: bytes[7],
                image_origin_x: bytes[8] as u16 + bytes[9] as u16 * 256,
                image_origin_y: bytes[10] as u16 + bytes[11] as u16 * 256,
                image_width: bytes[12] as u16 + bytes[13] as u16 * 256,
                image_height: bytes[14] as u16 + bytes[15] as u16 * 256,
                image_bits_per_pixel: bytes[16],
                image_descriptor: bytes[17],
            },
        )
    }

    /// Writes the header as its 18 little-endian bytes.
    pub fn to_bytes(&self) -> (r: Vec<u8>)
        ensures
            r@ == header_bytes(*self),
            r@.len() == TGAHEADER_BYTES_COUNT,
    {
        let mut out: Vec<u8> = Vec::new();
        out.push(self.id_length);
        out.push(self.color_map_type);
        out.push(self.image_type);
        out.push((self.color_map_origin % 256) as u8);
        out.push((self.color_map_origin / 256) as u8);
        out.push((self.color_map_entries_count % 256) as u8);
        out.push((self.color_map_entries_count / 256) as u8);
        out.push(self.color_map_bits_per_entry);
        out.push((self.image_origin_x % 256) as u8);
        out.push((self.image_origin_x / 256) as u8);
        out.push((self.image_origin_y % 256) as u8);
        out.push((self.image_origin_y / 256) as u8);
        out.push((self.image_width % 256) as u8);
        out.push((self.image_width / 256) as u8);
        out.push((self.image_height % 256) as u8);
        out.push((self.image_height / 256) as u8);
        out.push(self.image_bits_per_pixel);
        out.push(self.image_descriptor);
        proof {
            assert(out@ =~= header_bytes(*self));
        }
        out
    }
}

/// The two little-endian bytes of a 16-bit value read back as that value.
proof fn lemma_le16_round_trip(x: u16)
    ensures
        le16(lo16(x), hi16(x)) == x,
{
    vstd::arithmetic::div_mod::lemma_fundamental_div_mod(x as int, 256);
}

/// Writing a header and reading it back gives the identical header.
pub proof fn lemma_header_round_trip(h: TGAHeader)
    ensures
        header_of(header_bytes(h)) == h,
{
    lemma_le16_round_trip(h.color_map_origin);
    lemma_le16_round_trip(h.color_map_entries_count);
    lemma_le16_round_trip(h.image_origin_x);
    lemma_le16_round_trip(h.image_origin_y);
    lemma_le16_round_trip(h.image_width);
    lemma_le16_round_trip(h.image_height);
}

/// The pixel bytes `bytes` with the color `c` written at column `x`, row
/// `y` of an image `w` pixels wide: four bytes at offset `(x + y * w) * 4`,
/// in the order B, G, R, A.
pub open spec fn paint_pixel(bytes: Seq<u8>, x: int, y: int, w: int, c: TGAColor) -> Seq<u8> {
    let base = (x + y * w) * 4;
    bytes.update(base, c.2).update(base + 1, c.1).update(base + 2, c.0).update(base + 3, c.3)
}

/// An in-memory bitmap: a header and the raw pixel bytes it announces.
#[derive(Debug)]
pub struct TGAImage {
    header: TGAHeader,
    bytes: Vec<u8>,
}

impl TGAImage {
    /// The header of the image.
    pub closed spec fn header_spec(&self) -> TGAHeader {
        self.header
    }

    /// The raw pixel bytes of the image.
    pub closed spec fn data(&self) -> Seq<u8> {
        self.bytes@
    }

    /// Well-formedness: the image holds exactly the pixel bytes that its
    /// header announces.
    pub closed spec fn wf(&self) -> bool {
        self.bytes@.len() == pixel_byte_count(self.header)
    }

    /// The header that [`TGAImage::new`] installs: uncompressed truecolor,
    /// 32 bits per pixel, descriptor announcing 8 alpha bits.
    pub open spec fn fresh_header(image_width: u16, image_height: u16) -> TGAHeader {
        TGAHeader {
            image_type: 2,
            image_width,
            image_height,
            image_bits_per_pixel: 32,
            image_descriptor: 8,
            ..TGAHeader::zeroed()
        }
    }

    /// A fresh truecolor image of the given size with all pixel bytes zero.
    pub fn new(image_width: u16, image_height: u16) -> (img: Self)
        requires
            image_width * image_height * 4 <= usize::MAX,
        ensures
            img.wf(),
            img.header_spec() == Self::fresh_header(image_width, image_height),
            img.data() == Seq::new((image_width * image_height * 4) as nat, |i: int| 0u8),
    {
        let header = TGAHeader {
            image_type: 2,
            image_width,
            image_height,
            image_bits_per_pixel: 32,
            image_descriptor: 8,
            ..Default::default()
        };
        proof {
            assert(image_width * image_height * 4 * 8 == image_width * image_height * 32)
                by (nonlinear_arith);
            vstd::arithmetic::div_mod::lemma_div_multiples_vanish(
                image_width as int * image_height as int * 4,
                8,
            );
        }
        let n: usize = image_width as usize * image_height as usize * 4;
        let mut bytes: Vec<u8> = Vec::new();
        let mut i: usize = 0;
        while i < n
            invariant
                i <= n,
                bytes@.len() == i,
                forall|k: int| 0 <= k < i ==> bytes@[k] == 0u8,
            decreases n - i,
        {
            bytes.push(0);
            i += 1;
        }
        let img = TGAImage { header, bytes };
        proof {
            assert(img.data() =~= Seq::new((image_width * image_height * 4) as nat, |i: int| 0u8));
        }
        img
    }

    /// The width of the image in pixels.
    pub fn get_width(&self) -> (w: u16)
        ensures
            w == self.header_spec().image_width,
    {
        self.header.image_width
    }

    /// The height of the image in pixels.
    pub fn get_height(&self) -> (h: u16)
        ensures
            h == self.header_spec().image_height,
    {
        self.header.image_height
    }

    /// Writes one color at one in-range pixel coordinate, as the four bytes
    /// B, G, R, A; every other byte is left unchanged.
    pub fn set_color(&mut self, coord: TGACoord, color: TGAColor)
        requires
            old(self).wf(),
            old(self).header_spec().image_bits_per_pixel == 32,
            coord.0 < old(self).header_spec().image_width,
            coord.1 < old(self).header_spec().image_height,
        ensures
            final(self).wf(),
            final(self).header_spec() == old(self).header_spec(),
            final(self).data() == paint_pixel(
                old(self).data(),
                coord.0 as int,
                coord.1 as int,
                old(self).header_spec().image_width as int,
                color,
            ),
    {
        let w = self.header.image_width;
        let h = self.header.image_height;
        let len = self.bytes.len();
        proof {
            assert(w * h * 4 * 8 == w * h * 32) by (nonlinear_arith);
            vstd::arithmetic::div_mod::lemma_div_multiples_vanish(w as int * h as int * 4, 8);
            assert(len == w * h * 4);
            assert((coord.0 + coord.1 * w) * 4 + 4 <= w * h * 4 && coord.1 * w <= w * h * 4
                && coord.0 + coord.1 * w <= w * h * 4) by (nonlinear_arith)
                requires
                    coord.0 < w,
                    coord.1 < h,
            ;
        }
        let index: usize = (coord.0 as usize + coord.1 as usize * w as usize) * 4;
        self.bytes.set(index, color.2);
        self.bytes.set(index + 1, color.1);
        self.bytes.set(index + 2, color.0);
        self.bytes.set(index + 3, color.3);
    }

    /// The full byte stream of the image: the 18 header bytes followed by
    /// every pixel byte.
    pub fn image_to_bytes(&self) -> (r: Vec<u8>)
        ensures
            r@ == header_bytes(self.header_spec()) + self.data(),
    {
        let mut out = self.header.to_bytes();
        let n = self.bytes.len();
        let mut i: usize = 0;
        while i < n
            invariant
                i <= n,
                n == self.bytes@.len(),
                out@ =~= header_bytes(self.header_spec()) + self.bytes@.take(i as int),
            decreases n - i,
        {
            out.push(self.bytes[i]);
            proof {
                assert(out@ =~= header_bytes(self.header_spec()) + self.bytes@.take(i + 1));
            }
            i += 1;
        }
        proof {
            assert(self.bytes@.take(n as int) =~= self.bytes@);
        }
        out
    }

    /// Reads an image back from a byte stream: the 18 header bytes, then
    /// exactly the pixel bytes the header announces; trailing bytes are
    /// ignored.  A stream too short for the header or for the pixel bytes
    /// is rejected.
    pub fn image_from_bytes(bytes: &Vec<u8>) -> (r: Result<Self, TgaError>)
        ensures
            match r {
                Ok(img) => {
                    &&& bytes@.len() >= TGAHEADER_BYTES_COUNT
                    &&& img.header_spec() == header_of(bytes@)
                    &&& TGAHEADER_BYTES_COUNT + pixel_byte_count(header_of(bytes@)) <= bytes@.len()
                    &&& img.wf()
                    &&& img.data() == bytes@.subrange(
                        TGAHEADER_BYTES_COUNT as int,
                        TGAHEADER_BYTES_COUNT + pixel_byte_count(header_of(bytes@)),
                    )
                },
                Err(TgaError::TruncatedHeader) => bytes@.len() < TGAHEADER_BYTES_COUNT,
                Err(TgaError::TruncatedImage) => {
                    &&& bytes@.len() >= TGAHEADER_BYTES_COUNT
                    &&& TGAHEADER_BYTES_COUNT + pixel_byte_count(header_of(bytes@)) > bytes@.len()
                },
            },
    {
        let header = match TGAHeader::from_bytes(bytes.as_slice()) {
            Ok(h) => h,
            Err(e) => {
                return Err(e);
            },
        };
        let blen = bytes.len();
        proof {
            assert(0 <= header.image_width as int * header.image_height as int <= 4294836225int
                && 0 <= header.image_width as int * header.image_height as int
                * header.image_bits_per_pixel as int <= 1095183237375int)
                by (nonlinear_arith)
                requires
                    header.image_width <= 0xffff,
                    header.image_height <= 0xffff,
                    header.image_bits_per_pixel <= 0xff,
            ;
        }
        let needed64: u64 = header.image_width as u64 * header.image_height as u64
            * header.image_bits_per_pixel as u64 / 8;
        proof {
            assert(needed64 == pixel_byte_count(header));
        }
        if needed64 > (usize::MAX as u64 - TGAHEADER_BYTES_COUNT as u64)
            || TGAHEADER_BYTES_COUNT + needed64 as usize > blen {
            return Err(TgaError::TruncatedImage);
        }
        let needed: usize = needed64 as usize;
        let mut data: Vec<u8> = Vec::new();
        let mut i: usize = 0;
        while i < needed
            invariant
                i <= needed,
                TGAHEADER_BYTES_COUNT + needed <= bytes@.len(),
                bytes@.len() <= usize::MAX,
                data@.len() == i,
                forall|k: int|
                    0 <= k < i ==> data@[k] == bytes@[TGAHEADER_BYTES_COUNT + k],
            decreases needed - i,
        {
            data.push(bytes[TGAHEADER_BYTES_COUNT + i]);
            i += 1;
        }
        let img = TGAImage { header, bytes: data };
        proof {
            assert(img.data() =~= bytes@.subrange(
                TGAHEADER_BYTES_COUNT as int,
                TGAHEADER_BYTES_COUNT + pixel_byte_count(header_of(bytes@)),
            ));
        }
        Ok(img)
    }
}

/// Writing an image's byte stream and reading it back gives exactly the
/// header fields and pixel bytes of the original image.
pub proof fn lemma_image_round_trip(h: TGAHeader, data: Seq<u8>)
    requires
        data.len() == pixel_byte_count(h),
    ensures
        (header_bytes(h) + data).len() >= TGAHEADER_BYTES_COUNT,
        header_of(header_bytes(h) + data) == h,
        (header_bytes(h) + data).subrange(
            TGAHEADER_BYTES_COUNT as int,
            TGAHEADER_BYTES_COUNT + pixel_byte_count(h),
        ) == data,
{
    let stream = header_bytes(h) + data;
    assert forall|k: int| 0 <= k < TGAHEADER_BYTES_COUNT implies stream[k] == header_bytes(
        h,
    )[k] by {}
    lemma_header_round_trip(h);
    assert(header_of(stream) == header_of(header_bytes(h)));
    assert(stream.subrange(TGAHEADER_BYTES_COUNT as int, TGAHEADER_BYTES_COUNT + pixel_byte_count(h))
        =~= data);
}

} // verus!
