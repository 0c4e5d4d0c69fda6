use vstd::prelude::*;

use crate::error::{DecodeError, Identifier};
use crate::frame::{Frame, FrameModel};
use crate::header::{header_model, Header, HeaderModel};
use crate::icon::{decode_frame, decode_frame_spec};
use crate::metadata::{opt_text, Metadata, MetadataModel};
use crate::parser::{expect_id_spec, le_u32, size_spec, take_spec, u32_at, Parser};

verus! {

/// `RIFF`
pub const RIFF: Identifier = [0x52, 0x49, 0x46, 0x46];

/// `ACON`
pub const ACON: Identifier = [0x41, 0x43, 0x4f, 0x4e];

/// `LIST`
pub const LIST: Identifier = [0x4c, 0x49, 0x53, 0x54];

/// `INFO`
pub const INFO: Identifier = [0x49, 0x4e, 0x46, 0x4f];

/// `INAM`
pub const INAM: Identifier = [0x49, 0x4e, 0x41, 0x4d];

/// `IART`
pub const IART: Identifier = [0x49, 0x41, 0x52, 0x54];

/// `anih`
pub const ANIH: Identifier = [0x61, 0x6e, 0x69, 0x68];

/// `rate`
pub const RATE: Identifier = [0x72, 0x61, 0x74, 0x65];

/// `seq `
pub const SEQ: Identifier = [0x73, 0x65, 0x71, 0x20];

/// `fram`
pub const FRAM: Identifier = [0x66, 0x72, 0x61, 0x6d];

/// `icon`
pub const ICON: Identifier = [0x69, 0x63, 0x6f, 0x6e];

/// The text that `String::from_utf8_lossy` makes of `b`.
pub uninterp spec fn utf8_lossy(b: Seq<u8>) -> Seq<char>;

/// Relies on `String::from_utf8_lossy`: it decodes UTF-8 and puts U+FFFD in place of each
/// invalid sequence, so the text depends on the bytes alone.
#[verifier::external_body]
fn lossy_text(b: &[u8]) -> (r: String)
    ensures
        r@ == utf8_lossy(b@),
{
    String::from_utf8_lossy(b).into_owned()
}

/// The outer signature: `RIFF`, a size that the bytes after it must cover, then `ACON`.
pub open spec fn signature_spec(s: Seq<u8>) -> Result<Seq<u8>, DecodeError> {
    match expect_id_spec(s, RIFF) {
        Err(e) => Err(e),
        Ok(s1) => match size_spec(s1) {
            Err(e) => Err(e),
            Ok((n, s2)) => if s2.len() < n {
                Err(DecodeError::SizeMismatch { expected: n as usize, actual: s2.len() as usize })
            } else {
                expect_id_spec(s2, ACON)
            },
        },
    }
}

/// An optional text field of the `INFO` list: the tag `id`, a length, then that many bytes.
pub open spec fn text_field_spec(s: Seq<u8>, id: Identifier) -> Result<
    (Option<Seq<char>>, Seq<u8>),
    DecodeError,
> {
    match expect_id_spec(s, id) {
        Ok(s1) => match size_spec(s1) {
            Err(e) => Err(e),
            Ok((n, s2)) => match take_spec(s2, n as nat) {
                Err(e) => Err(e),
                Ok((t, s3)) => Ok((Some(utf8_lossy(t)), s3)),
            },
        },
        Err(DecodeError::UnexpectedIdentifier { .. }) => Ok((None, s)),
        Err(e) => Err(e),
    }
}

/// The payload of an `INFO` list: an optional `INAM` (title), then an optional `IART` (author).
pub open spec fn info_spec(s: Seq<u8>) -> Result<(MetadataModel, Seq<u8>), DecodeError> {
    match text_field_spec(s, INAM) {
        Err(e) => Err(e),
        Ok((title, s1)) => match text_field_spec(s1, IART) {
            Err(e) => Err(e),
            Ok((author, s2)) => Ok((MetadataModel { title, author }, s2)),
        },
    }
}

/// The body of an `anih` chunk: a size that must be 36, then the 36-byte record.
pub open spec fn anih_spec(s: Seq<u8>) -> Result<(HeaderModel, Seq<u8>), DecodeError> {
    match size_spec(s) {
        Err(e) => Err(e),
        Ok((n, s1)) => if n != 36 {
            Err(DecodeError::InvalidHeaderSize { actual: n })
        } else {
            match take_spec(s1, 36) {
                Err(e) => Err(e),
                Ok((t, s2)) => Ok((header_model(t, 0), s2)),
            }
        },
    }
}

/// The little-endian `u32` values of `b`, four bytes each, in order.
pub open spec fn u32s_of(b: Seq<u8>) -> Seq<u32> {
    Seq::new(b.len() / 4, |i: int| le_u32(b, 4 * i))
}

/// The body of a `rate` or `seq ` chunk: a size that must be a multiple of 4, then a table of
/// `u32` values.
pub open spec fn table_spec(s: Seq<u8>) -> Result<(Seq<u32>, Seq<u8>), DecodeError> {
    match size_spec(s) {
        Err(e) => Err(e),
        Ok((n, s1)) => if n % 4 != 0 {
            Err(DecodeError::InvalidAlignmentU32)
        } else {
            match take_spec(s1, n as nat) {
                Err(e) => Err(e),
                Ok((t, s2)) => Ok((u32s_of(t), s2)),
            }
        },
    }
}

/// One `icon` chunk of the frame list, decoded into a frame.
pub open spec fn icon_chunk_spec(s: Seq<u8>) -> Result<(FrameModel, Seq<u8>), DecodeError> {
    match expect_id_spec(s, ICON) {
        Err(e) => Err(e),
        Ok(s1) => match size_spec(s1) {
            Err(e) => Err(e),
            Ok((n, s2)) => match take_spec(s2, n as nat) {
                Err(e) => Err(e),
                Ok((t, s3)) => match decode_frame_spec(t) {
                    Err(e) => Err(e),
                    Ok(f) => Ok((f, s3)),
                },
            },
        },
    }
}

/// `n` consecutive `icon` chunks.
pub open spec fn frames_spec(s: Seq<u8>, n: nat) -> Result<(Seq<FrameModel>, Seq<u8>), DecodeError>
    decreases n,
{
    if n == 0 {
        Ok((Seq::empty(), s))
    } else {
        match frames_spec(s, (n - 1) as nat) {
            Err(e) => Err(e),
            Ok((fs, s1)) => match icon_chunk_spec(s1) {
                Err(e) => Err(e),
                Ok((f, s2)) => Ok((fs.push(f), s2)),
            },
        }
    }
}

/// Once the frame list has failed, reading more frames fails the same way.
proof fn lemma_frames_err_stays(s: Seq<u8>, k: nat, n: nat)
    requires
        k <= n,
        frames_spec(s, k) is Err,
    ensures
        frames_spec(s, n) == frames_spec(s, k),
    decreases n - k,
{
    if k < n {
        lemma_frames_err_stays(s, k, (n - 1) as nat);
    }
}

/// The frame views of a vector of frames.
pub open spec fn frames_model(v: Seq<Frame>) -> Seq<FrameModel> {
    v.map_values(|f: Frame| f@)
}

/// Checks the outer signature: `RIFF`, a size that the rest of the data must cover (more data
/// than declared is tolerated), then `ACON`.
pub fn validate_signature(parser: &mut Parser) -> (r: Result<(), DecodeError>)
    requires
        old(parser).wf(),
    ensures
        final(parser).wf(),
        final(parser).input() == old(parser).input(),
        match signature_spec(old(parser).rest()) {
            Ok(rest) => r is Ok && final(parser).rest() == rest,
            Err(e) => r == Err::<(), DecodeError>(e),
        },
{
    parser.expect_identifier(RIFF)?;
    let s = parser.read_size()?;
    let size = s as usize;
    if parser.bytes_remaining() < size {
        return Err(DecodeError::SizeMismatch { expected: size, actual: parser.bytes_remaining() });
    }
    parser.expect_identifier(ACON)?;
    Ok(())
}

/// Reads an optional text field of the `INFO` list.
fn parse_text_field(parser: &mut Parser, id: Identifier) -> (r: Result<Option<String>, DecodeError>)
    requires
        old(parser).wf(),
    ensures
        final(parser).wf(),
        final(parser).input() == old(parser).input(),
        match text_field_spec(old(parser).rest(), id) {
            Ok((t, rest)) => r matches Ok(v) && opt_text(v) == t && final(parser).rest() == rest,
            Err(e) => r == Err::<Option<String>, DecodeError>(e),
        },
{
    match parser.expect_identifier(id) {
        Ok(()) => {
            let s = parser.read_size()?;
            let bytes = parser.read_bytes(s as usize)?;
            Ok(Some(lossy_text(bytes.as_slice())))
        },
        Err(DecodeError::UnexpectedIdentifier { .. }) => Ok(None),
        Err(err) => Err(err),
    }
}

/// Decodes the payload of an `INFO` list: an optional title (`INAM`), then an optional
/// author (`IART`), each decoded as lossy UTF-8.
pub fn parse_info_chunk(parser: &mut Parser) -> (r: Result<Metadata, DecodeError>)
    requires
        old(parser).wf(),
    ensures
        final(parser).wf(),
        final(parser).input() == old(parser).input(),
        match info_spec(old(parser).rest()) {
            Ok((m, rest)) => r matches Ok(v) && v@ == m && final(parser).rest() == rest,
            Err(e) => r == Err::<Metadata, DecodeError>(e),
        },
{
    let title = parse_text_field(parser, INAM)?;
    let author = parse_text_field(parser, IART)?;
    Ok(Metadata::new(title, author))
}

/// Decodes the body of an `anih` chunk; a declared size other than 36 is an error.
pub fn parse_anih_chunk(parser: &mut Parser) -> (r: Result<Header, DecodeError>)
    requires
        old(parser).wf(),
    ensures
        final(parser).wf(),
        final(parser).input() == old(parser).input(),
        match anih_spec(old(parser).rest()) {
            Ok((h, rest)) => r matches Ok(v) && v@ == h && final(parser).rest() == rest,
            Err(e) => r == Err::<Header, DecodeError>(e),
        },
{
    let size = parser.read_size()?;
    if size != 36 {
        return Err(DecodeError::InvalidHeaderSize { actual: size });
    }
    let record = parser.read_bytes(36)?;
    Ok(Header::from_record(record.as_slice(), 0))
}

/// Decodes a size field and the table of little-endian `u32` values that follows it.
pub(crate) fn parse_u32_table(parser: &mut Parser) -> (r: Result<Vec<u32>, DecodeError>)
    requires
        old(parser).wf(),
    ensures
        final(parser).wf(),
        final(parser).input() == old(parser).input(),
        match table_spec(old(parser).rest()) {
            Ok((t, rest)) => r matches Ok(v) && v@ == t && final(parser).rest() == rest,
            Err(e) => r == Err::<Vec<u32>, DecodeError>(e),
        },
{
    let s = parser.read_size()?;
    let size = s as usize;
    if size % 4 != 0 {
        return Err(DecodeError::InvalidAlignmentU32);
    }
    let bytes = parser.read_bytes(size)?;
    let mut values: Vec<u32> = Vec::new();
    let mut i: usize = 0;
    while i < size / 4
        invariant
            bytes@.len() == size,
            size % 4 == 0,
            0 <= i <= size / 4,
            values@ == u32s_of(bytes@).take(i as int),
        decreases size / 4 - i,
    {
        values.push(u32_at(bytes.as_slice(), 4 * i));
        i = i + 1;
        assert(values@ =~= u32s_of(bytes@).take(i as int));
    }
    assert(values@ =~= u32s_of(bytes@));
    Ok(values)
}

/// Decodes the body of a `rate` chunk: the display rate of each step, in jiffies.
pub fn parse_rate_chunk(parser: &mut Parser) -> (r: Result<Vec<u32>, DecodeError>)
    requires
        old(parser).wf(),
    ensures
        final(parser).wf(),
        final(parser).input() == old(parser).input(),
        match table_spec(old(parser).rest()) {
            Ok((t, rest)) => r matches Ok(v) && v@ == t && final(parser).rest() == rest,
            Err(e) => r == Err::<Vec<u32>, DecodeError>(e),
        },
{
    parse_u32_table(parser)
}

/// Decodes the body of a `seq ` chunk: the frame index of each step.
pub fn parse_seq_chunk(parser: &mut Parser) -> (r: Result<Vec<u32>, DecodeError>)
    requires
        old(parser).wf(),
    ensures
        final(parser).wf(),
        final(parser).input() == old(parser).input(),
        match table_spec(old(parser).rest()) {
            Ok((t, rest)) => r matches Ok(v) && v@ == t && final(parser).rest() == rest,
            Err(e) => r == Err::<Vec<u32>, DecodeError>(e),
        },
{
    parse_u32_table(parser)
}

/// Decodes `frames_count` consecutive `icon` chunks, each into a frame.
pub fn parse_fram_chunk(parser: &mut Parser, frames_count: u32) -> (r: Result<
    Vec<Frame>,
    DecodeError,
>)
    requires
        old(parser).wf(),
    ensures
        final(parser).wf(),
        final(parser).input() == old(parser).input(),
        match frames_spec(old(parser).rest(), frames_count as nat) {
            Ok((fs, rest)) => r matches Ok(v) && frames_model(v@) == fs && final(parser).rest()
                == rest,
            Err(e) => r == Err::<Vec<Frame>, DecodeError>(e),
        },
        r matches Ok(v) ==> v@.len() == frames_count,
{
    let ghost start = parser.rest();
    let mut frames: Vec<Frame> = Vec::new();
    let mut i: u32 = 0;
    assert(frames_model(frames@) =~= Seq::<FrameModel>::empty());
    while i < frames_count
        invariant
            parser.wf(),
            parser.input() == old(parser).input(),
            start == old(parser).rest(),
            0 <= i <= frames_count,
            frames_spec(start, i as nat) == Ok::<(Seq<FrameModel>, Seq<u8>), DecodeError>(
                (frames_model(frames@), parser.rest()),
            ),
            frames@.len() == i,
        decreases frames_count - i,
    {
        let ghost before = parser.rest();
        let ghost fs = frames@;
        let step = parse_icon(parser);
        match step {
            Ok(frame) => {
                frames.push(frame);
                assert(frames_model(frames@) =~= frames_model(fs).push(frame@));
                i = i + 1;
            },
            Err(e) => {
                proof {
                    lemma_frames_err_stays(start, (i + 1) as nat, frames_count as nat);
                }
                return Err(e);
            },
        }
    }
    Ok(frames)
}

/// Decodes one `icon` chunk into a frame.
fn parse_icon(parser: &mut Parser) -> (r: Result<Frame, DecodeError>)
    requires
        old(parser).wf(),
    ensures
        final(parser).wf(),
        final(parser).input() == old(parser).input(),
        match icon_chunk_spec(old(parser).rest()) {
            Ok((f, rest)) => r matches Ok(v) && v@ == f && final(parser).rest() == rest,
            Err(e) => r == Err::<Frame, DecodeError>(e),
        },
{
    parser.expect_identifier(ICON)?;
    let s = parser.read_size()?;
    let buffer = parser.read_bytes(s as usize)?;
    decode_frame(buffer.as_slice())
}

} // verus!
