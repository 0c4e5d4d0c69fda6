use vstd::prelude::*;

use crate::chunks::{
    anih_spec, frames_model, frames_spec, info_spec, parse_anih_chunk, parse_fram_chunk,
    parse_info_chunk, parse_rate_chunk, parse_seq_chunk, parse_u32_table, signature_spec,
    table_spec,
    validate_signature, ANIH, FRAM, INFO, LIST, RATE, SEQ,
};
use crate::error::{DecodeError, Identifier};
use crate::frame::{Frame, FrameModel};
use crate::header::{Header, HeaderModel};
use crate::metadata::{Metadata, MetadataModel};
use crate::parser::{expect_id_spec, read_id_spec, size_spec, take_spec, Parser};

verus! {

/// `info`: the nested tag by which the lenient scan recognises the metadata list.
pub const INFO_LOWER: Identifier = [0x69, 0x6e, 0x66, 0x6f];

/// What a decoded file holds.
pub struct AniModel {
    pub metadata: Option<MetadataModel>,
    pub header: HeaderModel,
    pub rates: Option<Seq<u32>>,
    pub sequence: Option<Seq<u32>>,
    pub frames: Seq<FrameModel>,
}

/// The contents of an animated cursor file.
pub struct Ani {
    metadata: Option<Metadata>,
    header: Header,
    rates: Option<Vec<u32>>,
    sequence: Option<Vec<u32>>,
    frames: Vec<Frame>,
}

/// The view of an optional metadata record.
pub open spec fn opt_meta(m: Option<Metadata>) -> Option<MetadataModel> {
    match m {
        Some(v) => Some(v@),
        None => None,
    }
}

/// The view of an optional table.
pub open spec fn opt_table(t: Option<Vec<u32>>) -> Option<Seq<u32>> {
    match t {
        Some(v) => Some(v@),
        None => None,
    }
}

impl View for Ani {
    type V = AniModel;

    closed spec fn view(&self) -> AniModel {
        AniModel {
            metadata: opt_meta(self.metadata),
            header: self.header@,
            rates: opt_table(self.rates),
            sequence: opt_table(self.sequence),
            frames: frames_model(self.frames@),
        }
    }
}

// ---- strict decoding: the chunks in the order of the grammar ----

/// The optional metadata list: `LIST`, a size, `INFO`, then its payload. Another identifier
/// in place of `LIST` means that the list is absent.
pub open spec fn strict_info_spec(s: Seq<u8>) -> Result<(Option<MetadataModel>, Seq<u8>), DecodeError> {
    match expect_id_spec(s, LIST) {
        Ok(s1) => match size_spec(s1) {
            Err(e) => Err(e),
            Ok((_, s2)) => match expect_id_spec(s2, INFO) {
                Err(e) => Err(e),
                Ok(s3) => match info_spec(s3) {
                    Err(e) => Err(e),
                    Ok((m, s4)) => Ok((Some(m), s4)),
                },
            },
        },
        Err(DecodeError::UnexpectedIdentifier { .. }) => Ok((None, s)),
        Err(e) => Err(e),
    }
}

/// The mandatory header chunk: `anih`, then its body.
pub open spec fn strict_header_spec(s: Seq<u8>) -> Result<(HeaderModel, Seq<u8>), DecodeError> {
    match expect_id_spec(s, ANIH) {
        Err(e) => Err(e),
        Ok(s1) => anih_spec(s1),
    }
}

/// An optional table chunk tagged `id`; another identifier means that it is absent.
pub open spec fn strict_table_spec(s: Seq<u8>, id: Identifier) -> Result<
    (Option<Seq<u32>>, Seq<u8>),
    DecodeError,
> {
    match expect_id_spec(s, id) {
        Ok(s1) => match table_spec(s1) {
            Err(e) => Err(e),
            Ok((t, s2)) => Ok((Some(t), s2)),
        },
        Err(DecodeError::UnexpectedIdentifier { .. }) => Ok((None, s)),
        Err(e) => Err(e),
    }
}

/// The mandatory frame list: `LIST`, a size, `fram`, then `n` icon chunks.
pub open spec fn strict_frames_spec(s: Seq<u8>, n: nat) -> Result<Seq<FrameModel>, DecodeError> {
    match expect_id_spec(s, LIST) {
        Err(e) => Err(e),
        Ok(s1) => match size_spec(s1) {
            Err(e) => Err(e),
            Ok((_, s2)) => match expect_id_spec(s2, FRAM) {
                Err(e) => Err(e),
                Ok(s3) => match frames_spec(s3, n) {
                    Err(e) => Err(e),
                    Ok((fs, _)) => Ok(fs),
                },
            },
        },
    }
}

/// Strict decoding of a whole file.
pub open spec fn strict_spec(d: Seq<u8>) -> Result<AniModel, DecodeError> {
    match signature_spec(d) {
        Err(e) => Err(e),
        Ok(s0) => match strict_info_spec(s0) {
            Err(e) => Err(e),
            Ok((metadata, s1)) => match strict_header_spec(s1) {
                Err(e) => Err(e),
                Ok((header, s2)) => match strict_table_spec(s2, RATE) {
                    Err(e) => Err(e),
                    Ok((rates, s3)) => match strict_table_spec(s3, SEQ) {
                        Err(e) => Err(e),
                        Ok((sequence, s4)) => match strict_frames_spec(s4, header.frames as nat) {
                            Err(e) => Err(e),
                            Ok(frames) => Ok(AniModel { metadata, header, rates, sequence, frames }),
                        },
                    },
                },
            },
        },
    }
}

// ---- lenient decoding: classify every chunk, then decode by kind ----

/// The kind of a chunk found by the lenient scan.
#[derive(Debug, Clone, Copy, PartialEq, Eq, Structural)]
pub enum ChunkKind {
    Metadata,
    Header,
    Rate,
    Sequence,
    Frames,
}

/// A classified chunk and the bytes buffered for it.
pub struct RawChunk {
    pub kind: ChunkKind,
    pub data: Seq<u8>,
}

/// The kind of the chunk at the front of `s`, the number of bytes to buffer for it, and where
/// those bytes start. A list buffers its size minus the 4 bytes of its nested tag (as `u32`
/// arithmetic, wrapping); `anih`, `rate` and `seq ` buffer their size field and their body.
pub open spec fn classify_spec(s: Seq<u8>) -> Result<(ChunkKind, nat, Seq<u8>), DecodeError> {
    match read_id_spec(s) {
        Err(e) => Err(e),
        Ok((id, s1)) => if id@ == LIST@ {
            match size_spec(s1) {
                Err(e) => Err(e),
                Ok((n, s2)) => match read_id_spec(s2) {
                    Err(e) => Err(e),
                    Ok((next, s3)) => if next@ == INFO_LOWER@ {
                        Ok((ChunkKind::Metadata, n.wrapping_sub(4) as nat, s3))
                    } else if next@ == FRAM@ {
                        Ok((ChunkKind::Frames, n.wrapping_sub(4) as nat, s3))
                    } else {
                        Err(DecodeError::UnknownIdentifier { actual: next })
                    },
                },
            }
        } else if id@ == ANIH@ || id@ == RATE@ || id@ == SEQ@ {
            match size_spec(s1) {
                Err(e) => Err(e),
                Ok((n, _)) => Ok(
                    (
                        if id@ == ANIH@ {
                            ChunkKind::Header
                        } else if id@ == RATE@ {
                            ChunkKind::Rate
                        } else {
                            ChunkKind::Sequence
                        },
                        4 + n as nat,
                        s1,
                    ),
                ),
            }
        } else {
            Err(DecodeError::UnknownIdentifier { actual: id })
        },
    }
}

/// The chunk at the front of `s`, with its buffered bytes, and what follows it.
pub open spec fn chunk_spec(s: Seq<u8>) -> Result<(RawChunk, Seq<u8>), DecodeError> {
    match classify_spec(s) {
        Err(e) => Err(e),
        Ok((kind, n, s1)) => match take_spec(s1, n) {
            Err(e) => Err(e),
            Ok((t, s2)) => Ok((RawChunk { kind, data: t }, s2)),
        },
    }
}

/// The scan over all chunks. A single byte left at the end is padding and is skipped.
pub open spec fn scan_spec(s: Seq<u8>) -> Result<Seq<RawChunk>, DecodeError>
    decreases s.len(),
{
    if s.len() <= 1 {
        Ok(Seq::empty())
    } else {
        match chunk_spec(s) {
            Err(e) => Err(e),
            Ok((c, s1)) => if s1.len() < s.len() {
                match scan_spec(s1) {
                    Err(e) => Err(e),
                    Ok(cs) => Ok(seq![c] + cs),
                }
            } else {
                Ok(Seq::empty())
            },
        }
    }
}

/// The bytes of the first chunk of kind `k`.
pub open spec fn first_of(cs: Seq<RawChunk>, k: ChunkKind) -> Option<Seq<u8>>
    decreases cs.len(),
{
    if cs.len() == 0 {
        None
    } else if cs[0].kind == k {
        Some(cs[0].data)
    } else {
        first_of(cs.drop_first(), k)
    }
}

/// The metadata of the first `info` list, if there is one.
pub open spec fn lenient_info_spec(cs: Seq<RawChunk>) -> Result<Option<MetadataModel>, DecodeError> {
    match first_of(cs, ChunkKind::Metadata) {
        None => Ok(None),
        Some(b) => match info_spec(b) {
            Err(e) => Err(e),
            Ok((m, _)) => Ok(Some(m)),
        },
    }
}

/// The header of the first `anih` chunk; without one the file is refused.
pub open spec fn lenient_header_spec(cs: Seq<RawChunk>) -> Result<HeaderModel, DecodeError> {
    match first_of(cs, ChunkKind::Header) {
        None => Err(DecodeError::MissingChunk { expected: ANIH }),
        Some(b) => match anih_spec(b) {
            Err(e) => Err(e),
            Ok((h, _)) => Ok(h),
        },
    }
}

/// The table of the first chunk of kind `k`, if there is one.
pub open spec fn lenient_table_spec(cs: Seq<RawChunk>, k: ChunkKind) -> Result<
    Option<Seq<u32>>,
    DecodeError,
> {
    match first_of(cs, k) {
        None => Ok(None),
        Some(b) => match table_spec(b) {
            Err(e) => Err(e),
            Ok((t, _)) => Ok(Some(t)),
        },
    }
}

/// `n` frames from the first `fram` list; without one the file is refused.
pub open spec fn lenient_frames_spec(cs: Seq<RawChunk>, n: nat) -> Result<
    Seq<FrameModel>,
    DecodeError,
> {
    match first_of(cs, ChunkKind::Frames) {
        None => Err(DecodeError::MissingChunk { expected: FRAM }),
        Some(b) => match frames_spec(b, n) {
            Err(e) => Err(e),
            Ok((fs, _)) => Ok(fs),
        },
    }
}

/// Decodes each kind from the first chunk of that kind, in the order metadata, header, rates,
/// sequence, frames.
pub open spec fn assemble_spec(cs: Seq<RawChunk>) -> Result<AniModel, DecodeError> {
    match lenient_info_spec(cs) {
        Err(e) => Err(e),
        Ok(metadata) => match lenient_header_spec(cs) {
            Err(e) => Err(e),
            Ok(header) => match lenient_table_spec(cs, ChunkKind::Rate) {
                Err(e) => Err(e),
                Ok(rates) => match lenient_table_spec(cs, ChunkKind::Sequence) {
                    Err(e) => Err(e),
                    Ok(sequence) => match lenient_frames_spec(cs, header.frames as nat) {
                        Err(e) => Err(e),
                        Ok(frames) => Ok(AniModel { metadata, header, rates, sequence, frames }),
                    },
                },
            },
        },
    }
}

/// Lenient decoding of a whole file.
pub open spec fn lenient_spec(d: Seq<u8>) -> Result<AniModel, DecodeError> {
    match signature_spec(d) {
        Err(e) => Err(e),
        Ok(s) => match scan_spec(s) {
            Err(e) => Err(e),
            Ok(cs) => assemble_spec(cs),
        },
    }
}

/// A chunk buffered by the lenient scan.
struct Chunk {
    kind: ChunkKind,
    data: Vec<u8>,
}

spec fn chunks_model(v: Seq<Chunk>) -> Seq<RawChunk> {
    v.map_values(|c: Chunk| RawChunk { kind: c.kind, data: c.data@ })
}

/// Whether two identifiers are the same four bytes.
fn same_id(a: Identifier, b: Identifier) -> (r: bool)
    ensures
        r == (a@ == b@),
{
    let r = a[0] == b[0] && a[1] == b[1] && a[2] == b[2] && a[3] == b[3];
    proof {
        if r {
            assert(a@ =~= b@);
        }
    }
    r
}

/// The scan result `r` with `p` put in front of its chunks.
spec fn after(p: Seq<RawChunk>, r: Result<Seq<RawChunk>, DecodeError>) -> Result<
    Seq<RawChunk>,
    DecodeError,
> {
    match r {
        Ok(cs) => Ok(p + cs),
        Err(e) => Err(e),
    }
}

/// Classifies the chunk at the cursor and buffers its bytes.
fn read_chunk(parser: &mut Parser) -> (r: Result<Chunk, DecodeError>)
    requires
        old(parser).wf(),
    ensures
        final(parser).wf(),
        final(parser).input() == old(parser).input(),
        match chunk_spec(old(parser).rest()) {
            Ok((c, rest)) => r matches Ok(v) && v.kind == c.kind && v.data@ == c.data && final(
                parser).rest() == rest,
            Err(e) => r == Err::<Chunk, DecodeError>(e),
        },
{
    let identifier = parser.read_identifier()?;
    let kind: ChunkKind;
    let size: u64;
    if same_id(identifier, LIST) {
        let s = parser.read_size()?;
        let next = parser.read_identifier()?;
        if same_id(next, INFO_LOWER) {
            kind = ChunkKind::Metadata;
        } else if same_id(next, FRAM) {
            kind = ChunkKind::Frames;
        } else {
            return Err(DecodeError::UnknownIdentifier { actual: next });
        }
        size = s.wrapping_sub(4) as u64;
    } else if same_id(identifier, ANIH) || same_id(identifier, RATE) || same_id(identifier, SEQ) {
        let s = parser.peek_size()?;
        kind = if same_id(identifier, ANIH) {
            ChunkKind::Header
        } else if same_id(identifier, RATE) {
            ChunkKind::Rate
        } else {
            ChunkKind::Sequence
        };
        size = 4 + s as u64;
    } else {
        return Err(DecodeError::UnknownIdentifier { actual: identifier });
    }
    let remaining = parser.bytes_remaining();
    if size > remaining as u64 {
        return Err(DecodeError::NotEnoughBytes { needed: (size - remaining as u64) as usize });
    }
    let data = parser.read_bytes(size as usize)?;
    Ok(Chunk { kind, data })
}

/// Scans the chunks from the cursor to the end of the data.
fn scan_chunks(parser: &mut Parser) -> (r: Result<Vec<Chunk>, DecodeError>)
    requires
        old(parser).wf(),
    ensures
        match scan_spec(old(parser).rest()) {
            Ok(cs) => r matches Ok(v) && chunks_model(v@) == cs,
            Err(e) => r == Err::<Vec<Chunk>, DecodeError>(e),
        },
{
    let ghost start = parser.rest();
    let mut chunks: Vec<Chunk> = Vec::new();
    assert(chunks_model(chunks@) + Seq::<RawChunk>::empty() =~= Seq::<RawChunk>::empty());
    assert(after(chunks_model(chunks@), scan_spec(start)) =~= scan_spec(start)) by {
        assert(chunks_model(chunks@) =~= Seq::<RawChunk>::empty());
        match scan_spec(start) {
            Ok(cs) => {
                assert(Seq::<RawChunk>::empty() + cs =~= cs);
            },
            Err(_) => {},
        }
    }
    while parser.bytes_remaining() > 0
        invariant
            parser.wf(),
            start == old(parser).rest(),
            scan_spec(start) == after(chunks_model(chunks@), scan_spec(parser.rest())),
        decreases parser.rest().len(),
    {
        if parser.bytes_remaining() == 1 {
            let _ = parser.read_bytes(1);
            assert(parser.rest().len() == 0);
            continue;
        }
        let ghost before = parser.rest();
        let ghost old_chunks = chunks_model(chunks@);
        let chunk = match read_chunk(parser) {
            Ok(c) => c,
            Err(e) => {
                assert(scan_spec(before) == Err::<Seq<RawChunk>, DecodeError>(e));
                assert(scan_spec(start) == Err::<Seq<RawChunk>, DecodeError>(e));
                return Err(e);
            },
        };
        proof {
            let c = RawChunk { kind: chunk.kind, data: chunk.data@ };
            lemma_chunk_shrinks(before);
            let rest = parser.rest();
            match scan_spec(rest) {
                Ok(cs) => {
                    assert(old_chunks + (seq![c] + cs) =~= old_chunks.push(c) + cs);
                },
                Err(_) => {},
            }
        }
        chunks.push(chunk);
        assert(chunks_model(chunks@) =~= old_chunks.push(
            RawChunk { kind: chunk.kind, data: chunk.data@ },
        ));
    }
    proof {
        assert(chunks_model(chunks@) + Seq::<RawChunk>::empty() =~= chunks_model(chunks@));
    }
    Ok(chunks)
}

/// A chunk consumes at least its four-byte identifier.
proof fn lemma_chunk_shrinks(s: Seq<u8>)
    requires
        chunk_spec(s) is Ok,
    ensures
        chunk_spec(s)->Ok_0.1.len() < s.len(),
{
}

/// The index of the first chunk of kind `kind`.
fn find_chunk(chunks: &Vec<Chunk>, kind: ChunkKind) -> (r: Option<usize>)
    ensures
        match first_of(chunks_model(chunks@), kind) {
            Some(b) => r matches Some(i) && i < chunks@.len() && chunks@[i as int].data@ == b,
            None => r is None,
        },
{
    let ghost all = chunks_model(chunks@);
    let mut i: usize = 0;
    assert(all.skip(0) =~= all);
    while i < chunks.len()
        invariant
            0 <= i <= chunks@.len(),
            all == chunks_model(chunks@),
            first_of(all, kind) == first_of(all.skip(i as int), kind),
        decreases chunks@.len() - i,
    {
        assert(all.skip(i as int)[0] == all[i as int]);
        if chunks[i].kind == kind {
            return Some(i);
        }
        assert(all.skip(i as int).drop_first() =~= all.skip(i + 1));
        i = i + 1;
    }
    None
}

/// Decodes the optional `LIST`/`INFO` metadata list of the strict grammar.
fn parse_optional_info(parser: &mut Parser) -> (r: Result<Option<Metadata>, DecodeError>)
    requires
        old(parser).wf(),
    ensures
        final(parser).wf(),
        final(parser).input() == old(parser).input(),
        match strict_info_spec(old(parser).rest()) {
            Ok((m, rest)) => r matches Ok(v) && opt_meta(v) == m && final(parser).rest() == rest,
            Err(e) => r == Err::<Option<Metadata>, DecodeError>(e),
        },
{
    match parser.expect_identifier(LIST) {
        Ok(()) => {
            parser.read_size()?;
            parser.expect_identifier(INFO)?;
            Ok(Some(parse_info_chunk(parser)?))
        },
        Err(DecodeError::UnexpectedIdentifier { .. }) => Ok(None),
        Err(err) => Err(err),
    }
}

/// Decodes the mandatory `anih` chunk of the strict grammar.
fn parse_header(parser: &mut Parser) -> (r: Result<Header, DecodeError>)
    requires
        old(parser).wf(),
    ensures
        final(parser).wf(),
        final(parser).input() == old(parser).input(),
        match strict_header_spec(old(parser).rest()) {
            Ok((h, rest)) => r matches Ok(v) && v@ == h && final(parser).rest() == rest,
            Err(e) => r == Err::<Header, DecodeError>(e),
        },
{
    parser.expect_identifier(ANIH)?;
    parse_anih_chunk(parser)
}

/// Decodes an optional table chunk tagged `id` of the strict grammar.
fn parse_optional_table(parser: &mut Parser, id: Identifier) -> (r: Result<
    Option<Vec<u32>>,
    DecodeError,
>)
    requires
        old(parser).wf(),
    ensures
        final(parser).wf(),
        final(parser).input() == old(parser).input(),
        match strict_table_spec(old(parser).rest(), id) {
            Ok((t, rest)) => r matches Ok(v) && opt_table(v) == t && final(parser).rest() == rest,
            Err(e) => r == Err::<Option<Vec<u32>>, DecodeError>(e),
        },
{
    match parser.expect_identifier(id) {
        Ok(()) => Ok(Some(parse_u32_table(parser)?)),
        Err(DecodeError::UnexpectedIdentifier { .. }) => Ok(None),
        Err(err) => Err(err),
    }
}

/// Decodes the mandatory `LIST`/`fram` list of the strict grammar.
fn parse_frame_list(parser: &mut Parser, n: u32) -> (r: Result<Vec<Frame>, DecodeError>)
    requires
        old(parser).wf(),
    ensures
        match strict_frames_spec(old(parser).rest(), n as nat) {
            Ok(fs) => r matches Ok(v) && frames_model(v@) == fs,
            Err(e) => r == Err::<Vec<Frame>, DecodeError>(e),
        },
        r matches Ok(v) ==> v@.len() == n,
{
    parser.expect_identifier(LIST)?;
    parser.read_size()?;
    parser.expect_identifier(FRAM)?;
    parse_fram_chunk(parser, n)
}

impl Ani {
    /// Decodes a file whose chunks come in the order of the grammar: the signature, an
    /// optional `LIST`/`INFO` metadata list, `anih`, optional `rate`, optional `seq `, then the
    /// `LIST`/`fram` list with as many `icon` chunks as the header declares frames.
    pub fn from_bytes_strict(data: &[u8]) -> (r: Result<Ani, DecodeError>)
        ensures
            match strict_spec(data@) {
                Ok(m) => r matches Ok(a) && a@ == m,
                Err(e) => r == Err::<Ani, DecodeError>(e),
            },
            r matches Ok(a) ==> a@.frames.len() == a@.header.frames,
    {
        let mut parser = Parser::new(data);
        validate_signature(&mut parser)?;
        let metadata = parse_optional_info(&mut parser)?;
        let header = parse_header(&mut parser)?;
        let rates = parse_optional_table(&mut parser, RATE)?;
        let sequence = parse_optional_table(&mut parser, SEQ)?;
        let frames = parse_frame_list(&mut parser, header.frames())?;
        Ok(Ani { metadata, header, rates, sequence, frames })
    }

    /// Decodes a file whatever the order of its chunks: after the signature every chunk is
    /// classified and buffered, then each kind is decoded from its first chunk. Unknown
    /// identifiers are errors; a missing header or frame list is `MissingChunk`.
    pub fn from_bytes(data: &[u8]) -> (r: Result<Ani, DecodeError>)
        ensures
            match lenient_spec(data@) {
                Ok(m) => r matches Ok(a) && a@ == m,
                Err(e) => r == Err::<Ani, DecodeError>(e),
            },
            r matches Ok(a) ==> a@.frames.len() == a@.header.frames,
    {
        let mut parser = Parser::new(data);
        validate_signature(&mut parser)?;
        let chunks = scan_chunks(&mut parser)?;
        let ghost cs = chunks_model(chunks@);
        let metadata = match find_chunk(&chunks, ChunkKind::Metadata) {
            Some(i) => {
                let mut p = Parser::new(chunks[i].data.as_slice());
                Some(parse_info_chunk(&mut p)?)
            },
            None => None,
        };
        let header = match find_chunk(&chunks, ChunkKind::Header) {
            Some(i) => {
                let mut p = Parser::new(chunks[i].data.as_slice());
                parse_anih_chunk(&mut p)?
            },
            None => return Err(DecodeError::MissingChunk { expected: ANIH }),
        };
        let rates = match find_chunk(&chunks, ChunkKind::Rate) {
            Some(i) => {
                let mut p = Parser::new(chunks[i].data.as_slice());
                Some(parse_rate_chunk(&mut p)?)
            },
            None => None,
        };
        let sequence = match find_chunk(&chunks, ChunkKind::Sequence) {
            Some(i) => {
                let mut p = Parser::new(chunks[i].data.as_slice());
                Some(parse_seq_chunk(&mut p)?)
            },
            None => None,
        };
        let frames = match find_chunk(&chunks, ChunkKind::Frames) {
            Some(i) => {
                let mut p = Parser::new(chunks[i].data.as_slice());
                parse_fram_chunk(&mut p, header.frames())?
            },
            None => return Err(DecodeError::MissingChunk { expected: FRAM }),
        };
        Ok(Ani { metadata, header, rates, sequence, frames })
    }

    /// Title and author, if the file has a metadata list.
    pub fn metadata(&self) -> (r: Option<&Metadata>)
        ensures
            match r {
                Some(m) => self@.metadata == Some(m@),
                None => self@.metadata is None,
            },
    {
        match &self.metadata {
            Some(m) => Some(m),
            None => None,
        }
    }

    pub fn header(&self) -> (r: &Header)
        ensures
            r@ == self@.header,
    {
        &self.header
    }

    /// The display rate of each step, if the file has a `rate` chunk.
    pub fn rates(&self) -> (r: Option<&[u32]>)
        ensures
            match r {
                Some(t) => self@.rates == Some(t@),
                None => self@.rates is None,
            },
    {
        match &self.rates {
            Some(t) => Some(t.as_slice()),
            None => None,
        }
    }

    /// The frame index of each step, if the file has a `seq ` chunk.
    pub fn sequence(&self) -> (r: Option<&[u32]>)
        ensures
            match r {
                Some(t) => self@.sequence == Some(t@),
                None => self@.sequence is None,
            },
    {
        match &self.sequence {
            Some(t) => Some(t.as_slice()),
            None => None,
        }
    }

    pub fn frames(&self) -> (r: &[Frame])
        ensures
            frames_model(r@) == self@.frames,
    {
        self.frames.as_slice()
    }
}

} // verus!
