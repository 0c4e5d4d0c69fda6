use vstd::prelude::*;

use crate::error::DecodeError;
use crate::frame::{
    entry_model, icon_dir_model, images_model, FrameModel, Frame, IconDir, IconDirEntry, Image,
    ImageModel,
};
use crate::parser::{le_u16, le_u32};

verus! {

/// The number of entries an icon container declares.
pub open spec fn icon_count(b: Seq<u8>) -> nat {
    le_u16(b, 4) as nat
}

/// The offset of the `i`-th directory entry.
pub open spec fn entry_at(i: int) -> int {
    6 + 16 * i
}

/// Where the data of the `i`-th entry starts.
pub open spec fn entry_offset(b: Seq<u8>, i: int) -> int {
    le_u32(b, entry_at(i) + 12) as int
}

/// The byte length of the data of the `i`-th entry.
pub open spec fn entry_size(b: Seq<u8>, i: int) -> int {
    le_u32(b, entry_at(i) + 8) as int
}

/// The data of the `i`-th entry.
pub open spec fn entry_data(b: Seq<u8>, i: int) -> Seq<u8> {
    b.subrange(entry_offset(b, i), entry_offset(b, i) + entry_size(b, i))
}

/// The `i`-th entry has a zero reserved byte and its data lies inside the buffer.
pub open spec fn entry_ok(b: Seq<u8>, i: int) -> bool {
    &&& b[entry_at(i) + 3] == 0
    &&& entry_offset(b, i) + entry_size(b, i) <= b.len()
}

/// A well-formed icon container: a zero reserved word, the type 1 (icon) or 2 (cursor), and
/// every declared entry present, with a zero reserved byte and its data inside the buffer.
pub open spec fn icon_dir_valid(b: Seq<u8>) -> bool {
    &&& b.len() >= 6
    &&& le_u16(b, 0) == 0
    &&& (le_u16(b, 2) == 1 || le_u16(b, 2) == 2)
    &&& b.len() >= entry_at(icon_count(b) as int)
    &&& forall|i: int| 0 <= i < icon_count(b) ==> #[trigger] entry_ok(b, i)
}

/// The frame that a well-formed icon container holds.
pub open spec fn frame_model(b: Seq<u8>) -> FrameModel {
    FrameModel {
        header: icon_dir_model(b, 0),
        images: Seq::new(
            icon_count(b),
            |i: int| ImageModel { header: entry_model(b, entry_at(i)), data: entry_data(b, i) },
        ),
    }
}

/// The frame held in the payload of an `icon` chunk.
pub open spec fn decode_frame_spec(b: Seq<u8>) -> Result<FrameModel, DecodeError> {
    if icon_dir_valid(b) {
        Ok(frame_model(b))
    } else {
        Err(DecodeError::InvalidIcon)
    }
}

/// Relies on `ico::IconDir::read` (ico 0.6): it accepts a buffer exactly when `icon_dir_valid`
/// holds of it (each failed check returns an error), and it reads the data of each entry from the
/// span that the entry gives, keeping the directory's order.
#[verifier::external_body]
fn read_icon_entries(b: &[u8]) -> (r: Result<Vec<Vec<u8>>, std::io::Error>)
    ensures
        r is Ok <==> icon_dir_valid(b@),
        r matches Ok(v) ==> v@.len() == icon_count(b@) && forall|i: int|
            0 <= i < v@.len() ==> #[trigger] v@[i]@ == entry_data(b@, i),
{
    let dir = ico::IconDir::read(std::io::Cursor::new(b))?;
    Ok(dir.entries().iter().map(|e| e.data().to_vec()).collect())
}

/// Decodes the icon container in the payload of an `icon` chunk into a frame.
pub fn decode_frame(b: &[u8]) -> (r: Result<Frame, DecodeError>)
    ensures
        match decode_frame_spec(b@) {
            Ok(f) => r matches Ok(x) && x@ == f,
            Err(e) => r == Err::<Frame, DecodeError>(e),
        },
{
    let mut datas = match read_icon_entries(b) {
        Ok(v) => v,
        Err(_) => return Err(DecodeError::InvalidIcon),
    };
    let header = IconDir::from_record(b, 0);
    let count = header.image_count() as usize;
    let ghost all = datas@;
    let ghost target = frame_model(b@).images;
    let mut images: Vec<Image> = Vec::new();
    let mut i: usize = 0;
    while i < count
        invariant
            icon_dir_valid(b@),
            count == icon_count(b@),
            all.len() == count,
            forall|k: int| 0 <= k < all.len() ==> #[trigger] all[k]@ == entry_data(b@, k),
            0 <= i <= count,
            datas@ == all.skip(i as int),
            target == frame_model(b@).images,
            target.len() == count,
            images@.len() == i,
            images_model(images@) == target.take(i as int),
        decreases count - i,
    {
        let d = datas.remove(0);
        assert(d == all[i as int]);
        let e = IconDirEntry::from_record(b, 6 + 16 * i);
        let ghost before = images@;
        let img = Image::new(e, d);
        assert(img@ == target[i as int]);
        images.push(img);
        assert(images@ == before.push(img));
        assert forall|k: int| 0 <= k < i + 1 implies images_model(images@)[k] == target.take(
            i + 1,
        )[k] by {
            if k < i {
                assert(images@[k] == before[k]);
                assert(images_model(before)[k] == target.take(i as int)[k]);
            }
        }
        assert(images_model(images@) =~= target.take(i + 1));
        i = i + 1;
        assert(datas@ =~= all.skip(i as int));
    }
    assert(target.take(i as int) =~= target);
    Ok(Frame::new(header, images))
}

} // verus!
