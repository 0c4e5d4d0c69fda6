use vstd::prelude::*;

use crate::parser::{le_u16, le_u32, u16_at, u32_at};

verus! {

/// The two little-endian bytes of `v`.
pub open spec fn u16_bytes(v: u16) -> Seq<u8> {
    seq![(v % 0x100) as u8, (v / 0x100) as u8]
}

/// The four little-endian bytes of `v`.
pub open spec fn u32_bytes(v: u32) -> Seq<u8> {
    seq![
        (v % 0x100) as u8,
        ((v / 0x100) % 0x100) as u8,
        ((v / 0x1_0000) % 0x100) as u8,
        (v / 0x100_0000) as u8,
    ]
}

/// The container kind of an icon directory.
#[non_exhaustive]
#[derive(Debug, Clone, Copy, PartialEq, Eq, Structural)]
pub enum ImageType {
    /// Plain icons (ICO).
    Ico,
    /// Cursors, whose entries carry a hotspot (CUR).
    Cur,
}

/// The number that stands for `t` in an icon directory.
pub open spec fn image_type_number(t: ImageType) -> u16 {
    match t {
        ImageType::Ico => 1,
        ImageType::Cur => 2,
    }
}

impl ImageType {
    /// The number that stands for this kind in an icon directory.
    pub fn number(self) -> (r: u16)
        ensures
            r == image_type_number(self),
    {
        match self {
            ImageType::Ico => 1,
            ImageType::Cur => 2,
        }
    }
}

/// A number that stands for no image type.
#[derive(Debug, Clone, Copy, PartialEq, Eq, Structural)]
pub struct ImageTypeError;

impl ImageTypeError {
    /// What went wrong, in words.
    pub fn message(&self) -> (r: &'static str)
        ensures
            r@ == "invalid image type"@,
    {
        "invalid image type"
    }
}

impl TryFrom<u16> for ImageType {
    type Error = ImageTypeError;

    fn try_from(value: u16) -> (r: Result<ImageType, ImageTypeError>) {
        match value {
            1 => Ok(ImageType::Ico),
            2 => Ok(ImageType::Cur),
            _ => Err(ImageTypeError),
        }
    }
}

impl vstd::std_specs::convert::TryFromSpecImpl<u16> for ImageType {
    open spec fn obeys_try_from_spec() -> bool {
        true
    }

    open spec fn try_from_spec(value: u16) -> Result<ImageType, ImageTypeError> {
        if value == 1 {
            Ok(ImageType::Ico)
        } else if value == 2 {
            Ok(ImageType::Cur)
        } else {
            Err(ImageTypeError)
        }
    }
}

/// The six bytes that open an icon container.
pub struct IconDirModel {
    pub reserved: u16,
    pub image_type: u16,
    pub image_count: u16,
}

/// The six-byte header of an icon container.
#[derive(Debug, Clone, Copy)]
pub struct IconDir {
    reserved: u16,
    image_type: u16,
    image_count: u16,
}

impl View for IconDir {
    type V = IconDirModel;

    closed spec fn view(&self) -> IconDirModel {
        IconDirModel {
            reserved: self.reserved,
            image_type: self.image_type,
            image_count: self.image_count,
        }
    }
}

/// The icon directory header decoded from the six bytes at `i`.
pub open spec fn icon_dir_model(b: Seq<u8>, i: int) -> IconDirModel {
    IconDirModel {
        reserved: le_u16(b, i),
        image_type: le_u16(b, i + 2),
        image_count: le_u16(b, i + 4),
    }
}

impl IconDir {
    pub fn new(image_type: ImageType, image_count: u16) -> (r: Self)
        ensures
            r@ == (IconDirModel {
                reserved: 0,
                image_type: image_type_number(image_type),
                image_count,
            }),
    {
        IconDir { reserved: 0, image_type: image_type.number(), image_count }
    }

    /// Decodes the six-byte record that starts at offset `i` of `b`.
    pub fn from_record(b: &[u8], i: usize) -> (r: Self)
        requires
            i + 6 <= b@.len(),
        ensures
            r@ == icon_dir_model(b@, i as int),
    {
        proof {
            assert(b@.len() == b.len());
        }
        IconDir { reserved: u16_at(b, i), image_type: u16_at(b, i + 2), image_count: u16_at(b, i + 4) }
    }

    /// The container kind of the images (1: icon, 2: cursor).
    pub fn image_type(self) -> (r: u16)
        ensures
            r == self@.image_type,
    {
        self.image_type
    }

    /// The number of images in the container.
    pub fn image_count(self) -> (r: u16)
        ensures
            r == self@.image_count,
    {
        self.image_count
    }
}

/// The sixteen bytes that describe one image of an icon container.
pub struct IconDirEntryModel {
    pub width: u8,
    pub height: u8,
    pub colors: u8,
    pub reserved: u8,
    pub planes_or_hotspot_x: u16,
    pub bpp_or_hotspot_y: u16,
    pub data_size: u32,
    pub data_offset: u32,
}

/// The directory entry decoded from the sixteen bytes at `i`.
pub open spec fn entry_model(b: Seq<u8>, i: int) -> IconDirEntryModel {
    IconDirEntryModel {
        width: b[i],
        height: b[i + 1],
        colors: b[i + 2],
        reserved: b[i + 3],
        planes_or_hotspot_x: le_u16(b, i + 4),
        bpp_or_hotspot_y: le_u16(b, i + 6),
        data_size: le_u32(b, i + 8),
        data_offset: le_u32(b, i + 12),
    }
}

/// Describes one image of an icon container.
#[derive(Debug, Clone, Copy)]
pub struct IconDirEntry {
    width: u8,
    height: u8,
    colors: u8,
    reserved: u8,
    color_planes_or_hotspot_x: u16,
    bits_per_pixel_or_hotspot_y: u16,
    data_size: u32,
    data_offset: u32,
}

impl View for IconDirEntry {
    type V = IconDirEntryModel;

    closed spec fn view(&self) -> IconDirEntryModel {
        IconDirEntryModel {
            width: self.width,
            height: self.height,
            colors: self.colors,
            reserved: self.reserved,
            planes_or_hotspot_x: self.color_planes_or_hotspot_x,
            bpp_or_hotspot_y: self.bits_per_pixel_or_hotspot_y,
            data_size: self.data_size,
            data_offset: self.data_offset,
        }
    }
}

/// A size byte of a directory entry, where 0 stands for 256.
pub open spec fn pixels(byte: u8) -> u16 {
    if byte == 0 {
        256
    } else {
        byte as u16
    }
}

impl IconDirEntry {
    /// Decodes the sixteen-byte record that starts at offset `i` of `b`.
    pub fn from_record(b: &[u8], i: usize) -> (r: Self)
        requires
            i + 16 <= b@.len(),
        ensures
            r@ == entry_model(b@, i as int),
    {
        proof {
            assert(b@.len() == b.len());
        }
        IconDirEntry {
            width: b[i],
            height: b[i + 1],
            colors: b[i + 2],
            reserved: b[i + 3],
            color_planes_or_hotspot_x: u16_at(b, i + 4),
            bits_per_pixel_or_hotspot_y: u16_at(b, i + 6),
            data_size: u32_at(b, i + 8),
            data_offset: u32_at(b, i + 12),
        }
    }

    /// The width of the image in pixels.
    pub fn width(&self) -> (r: u16)
        ensures
            r == pixels(self@.width),
    {
        if self.width == 0 {
            256
        } else {
            self.width as u16
        }
    }

    /// The height of the image in pixels.
    pub fn height(&self) -> (r: u16)
        ensures
            r == pixels(self@.height),
    {
        if self.height == 0 {
            256
        } else {
            self.height as u16
        }
    }

    /// The number of palette colors (0 when no palette is used).
    pub fn colors(&self) -> (r: u8)
        ensures
            r == self@.colors,
    {
        self.colors
    }

    /// Color planes of an icon; the same field as `hotspot_x` of a cursor.
    pub fn color_planes(&self) -> (r: u16)
        ensures
            r == self@.planes_or_hotspot_x,
    {
        self.color_planes_or_hotspot_x
    }

    /// Pixels from the left edge to a cursor's tip; the same field as `color_planes`.
    pub fn hotspot_x(&self) -> (r: u16)
        ensures
            r == self@.planes_or_hotspot_x,
    {
        self.color_planes_or_hotspot_x
    }

    /// Bits per pixel of an icon; the same field as `hotspot_y` of a cursor.
    pub fn bits_per_pixel(&self) -> (r: u16)
        ensures
            r == self@.bpp_or_hotspot_y,
    {
        self.bits_per_pixel_or_hotspot_y
    }

    /// Pixels from the top edge to a cursor's tip; the same field as `bits_per_pixel`.
    pub fn hotspot_y(&self) -> (r: u16)
        ensures
            r == self@.bpp_or_hotspot_y,
    {
        self.bits_per_pixel_or_hotspot_y
    }

    /// The size of the image data in bytes.
    pub fn data_size(&self) -> (r: u32)
        ensures
            r == self@.data_size,
    {
        self.data_size
    }

    /// Where the image data starts, counted from the start of the icon container.
    pub fn data_offset(&self) -> (r: u32)
        ensures
            r == self@.data_offset,
    {
        self.data_offset
    }
}

/// One image: its directory entry and its encoded pixels.
pub struct ImageModel {
    pub header: IconDirEntryModel,
    pub data: Seq<u8>,
}

/// An image of a frame: its directory entry and the encoded pixel data (BMP or PNG).
#[derive(Debug, Clone)]
pub struct Image {
    header: IconDirEntry,
    data: Vec<u8>,
}

impl View for Image {
    type V = ImageModel;

    closed spec fn view(&self) -> ImageModel {
        ImageModel { header: self.header@, data: self.data@ }
    }
}

impl Image {
    pub fn new(header: IconDirEntry, data: Vec<u8>) -> (r: Self)
        ensures
            r@ == (ImageModel { header: header@, data: data@ }),
    {
        Image { header, data }
    }

    pub fn header(&self) -> (r: &IconDirEntry)
        ensures
            r@ == self@.header,
    {
        &self.header
    }

    /// The encoded image, without its directory entry.
    pub fn data(&self) -> (r: &[u8])
        ensures
            r@ == self@.data,
    {
        self.data.as_slice()
    }
}

/// One frame: the container header and its images, in order.
pub struct FrameModel {
    pub header: IconDirModel,
    pub images: Seq<ImageModel>,
}

/// The image views of a vector of images.
pub open spec fn images_model(v: Seq<Image>) -> Seq<ImageModel> {
    v.map_values(|i: Image| i@)
}

/// One frame of the animation: an icon container.
#[derive(Debug, Clone)]
pub struct Frame {
    header: IconDir,
    images: Vec<Image>,
}

impl View for Frame {
    type V = FrameModel;

    closed spec fn view(&self) -> FrameModel {
        FrameModel { header: self.header@, images: images_model(self.images@) }
    }
}

/// The bytes of an icon directory header.
pub open spec fn dir_bytes(d: IconDirModel) -> Seq<u8> {
    u16_bytes(d.reserved) + u16_bytes(d.image_type) + u16_bytes(d.image_count)
}

/// The bytes of a directory entry.
pub open spec fn entry_bytes(e: IconDirEntryModel) -> Seq<u8> {
    seq![e.width, e.height, e.colors, e.reserved] + u16_bytes(e.planes_or_hotspot_x) + u16_bytes(
        e.bpp_or_hotspot_y,
    ) + u32_bytes(e.data_size) + u32_bytes(e.data_offset)
}

/// Each image's entry followed by its data, image after image.
pub open spec fn images_bytes(s: Seq<ImageModel>) -> Seq<u8>
    decreases s.len(),
{
    if s.len() == 0 {
        Seq::empty()
    } else {
        images_bytes(s.drop_last()) + entry_bytes(s.last().header) + s.last().data
    }
}

/// The bytes of a frame: its header, then each image's entry and data.
pub open spec fn frame_bytes(f: FrameModel) -> Seq<u8> {
    dir_bytes(f.header) + images_bytes(f.images)
}

fn push_u16(v: &mut Vec<u8>, x: u16)
    ensures
        final(v)@ == old(v)@ + u16_bytes(x),
{
    v.push((x % 0x100) as u8);
    v.push((x / 0x100) as u8);
    assert(final(v)@ =~= old(v)@ + u16_bytes(x));
}

fn push_u32(v: &mut Vec<u8>, x: u32)
    ensures
        final(v)@ == old(v)@ + u32_bytes(x),
{
    v.push((x % 0x100) as u8);
    v.push(((x / 0x100) % 0x100) as u8);
    v.push(((x / 0x1_0000) % 0x100) as u8);
    v.push((x / 0x100_0000) as u8);
    assert(final(v)@ =~= old(v)@ + u32_bytes(x));
}

impl Frame {
    pub fn new(header: IconDir, images: Vec<Image>) -> (r: Self)
        ensures
            r@ == (FrameModel { header: header@, images: images_model(images@) }),
    {
        Frame { header, images }
    }

    pub fn header(&self) -> (r: IconDir)
        ensures
            r@ == self@.header,
    {
        self.header
    }

    pub fn images(&self) -> (r: &[Image])
        ensures
            images_model(r@) == self@.images,
    {
        self.images.as_slice()
    }

    /// The frame as bytes: the container header, then each image's entry followed by its data,
    /// every field little-endian.
    pub fn to_bytes(&self) -> (r: Vec<u8>)
        ensures
            r@ == frame_bytes(self@),
    {
        let mut bytes: Vec<u8> = Vec::new();
        push_u16(&mut bytes, self.header.reserved);
        push_u16(&mut bytes, self.header.image_type);
        push_u16(&mut bytes, self.header.image_count);
        let mut i: usize = 0;
        while i < self.images.len()
            invariant
                0 <= i <= self.images@.len(),
                bytes@ == dir_bytes(self.header@) + images_bytes(
                    images_model(self.images@.take(i as int)),
                ),
            decreases self.images@.len() - i,
        {
            let image = &self.images[i];
            let e = image.header;
            bytes.push(e.width);
            bytes.push(e.height);
            bytes.push(e.colors);
            bytes.push(e.reserved);
            push_u16(&mut bytes, e.color_planes_or_hotspot_x);
            push_u16(&mut bytes, e.bits_per_pixel_or_hotspot_y);
            push_u32(&mut bytes, e.data_size);
            push_u32(&mut bytes, e.data_offset);
            let ghost before = bytes@;
            let mut j: usize = 0;
            while j < image.data.len()
                invariant
                    0 <= j <= image.data@.len(),
                    bytes@ == before + image.data@.take(j as int),
                decreases image.data@.len() - j,
            {
                bytes.push(image.data[j]);
                j = j + 1;
                assert(bytes@ =~= before + image.data@.take(j as int));
            }
            proof {
                let s = images_model(self.images@.take(i + 1));
                assert(s.drop_last() =~= images_model(self.images@.take(i as int)));
                assert(s.last() == image@);
                assert(image.data@.take(j as int) =~= image.data@);
                assert(bytes@ =~= dir_bytes(self.header@) + images_bytes(s));
            }
            i = i + 1;
        }
        assert(self.images@.take(i as int) =~= self.images@);
        bytes
    }
}

} // verus!
