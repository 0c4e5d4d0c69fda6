use vstd::prelude::*;

use vstd::arithmetic::div_mod::{lemma_div_denominator, lemma_fundamental_div_mod};

use crate::ani::{
    chunk_spec, first_of, lenient_header_spec, lenient_info_spec, lenient_spec,
    lenient_table_spec, scan_spec, strict_spec, AniModel, ChunkKind, RawChunk,
};
use crate::chunks::{
    anih_spec, frames_spec, signature_spec, table_spec, u32s_of, ACON, ANIH, FRAM, ICON, LIST,
    RATE, RIFF, SEQ,
};
use crate::error::{id_of, DecodeError, Identifier};
use crate::frame::u32_bytes;
use crate::header::HeaderModel;
use crate::parser::le_u32;

verus! {

/// A `rate` or `seq ` chunk body whose declared byte length is not a multiple of 4 is refused
/// with `InvalidAlignmentU32`, whatever follows the size field.
pub proof fn lemma_misaligned_table(s: Seq<u8>)
    requires
        s.len() >= 4,
        le_u32(s, 0) % 4 != 0,
    ensures
        table_spec(s) == Err::<(Seq<u32>, Seq<u8>), DecodeError>(DecodeError::InvalidAlignmentU32),
{
}

/// An `anih` chunk body whose declared size is not 36 is refused with `InvalidHeaderSize`,
/// which carries the declared size.
pub proof fn lemma_bad_header_size(s: Seq<u8>)
    requires
        s.len() >= 4,
        le_u32(s, 0) != 36,
    ensures
        anih_spec(s) == Err::<(HeaderModel, Seq<u8>), DecodeError>(
            DecodeError::InvalidHeaderSize { actual: le_u32(s, 0) },
        ),
{
}

/// No chunk of kind `k` means no first chunk of kind `k`.
proof fn lemma_first_of_absent(cs: Seq<RawChunk>, k: ChunkKind)
    requires
        forall|i: int| 0 <= i < cs.len() ==> (#[trigger] cs[i]).kind != k,
    ensures
        first_of(cs, k) is None,
    decreases cs.len(),
{
    if cs.len() > 0 {
        assert forall|i: int| 0 <= i < cs.drop_first().len() implies (
        #[trigger] cs.drop_first()[i]).kind != k by {
            assert(cs.drop_first()[i] == cs[i + 1]);
        }
        lemma_first_of_absent(cs.drop_first(), k);
    }
}

/// Lenient decoding of data whose chunks hold no `anih` chunk fails with
/// `MissingChunk { expected: "anih" }`, once the signature, the scan and the metadata list (if
/// any) have passed.
pub proof fn lemma_lenient_missing_header(d: Seq<u8>)
    requires
        signature_spec(d) is Ok,
        scan_spec(signature_spec(d)->Ok_0) is Ok,
        lenient_info_spec(scan_spec(signature_spec(d)->Ok_0)->Ok_0) is Ok,
        forall|i: int|
            0 <= i < scan_spec(signature_spec(d)->Ok_0)->Ok_0.len() ==> (#[trigger] scan_spec(
                signature_spec(d)->Ok_0,
            )->Ok_0[i]).kind != ChunkKind::Header,
    ensures
        lenient_spec(d) == Err::<crate::ani::AniModel, DecodeError>(
            DecodeError::MissingChunk { expected: ANIH },
        ),
{
    let cs = scan_spec(signature_spec(d)->Ok_0)->Ok_0;
    lemma_first_of_absent(cs, ChunkKind::Header);
}

/// Lenient decoding of data whose chunks hold no `fram` list fails with
/// `MissingChunk { expected: "fram" }`, once the signature, the scan and the chunks decoded
/// before the frames (metadata, header, rates, sequence) have passed.
pub proof fn lemma_lenient_missing_frames(d: Seq<u8>)
    requires
        signature_spec(d) is Ok,
        scan_spec(signature_spec(d)->Ok_0) is Ok,
        lenient_info_spec(scan_spec(signature_spec(d)->Ok_0)->Ok_0) is Ok,
        lenient_header_spec(scan_spec(signature_spec(d)->Ok_0)->Ok_0) is Ok,
        lenient_table_spec(scan_spec(signature_spec(d)->Ok_0)->Ok_0, ChunkKind::Rate) is Ok,
        lenient_table_spec(scan_spec(signature_spec(d)->Ok_0)->Ok_0, ChunkKind::Sequence) is Ok,
        forall|i: int|
            0 <= i < scan_spec(signature_spec(d)->Ok_0)->Ok_0.len() ==> (#[trigger] scan_spec(
                signature_spec(d)->Ok_0,
            )->Ok_0[i]).kind != ChunkKind::Frames,
    ensures
        lenient_spec(d) == Err::<crate::ani::AniModel, DecodeError>(
            DecodeError::MissingChunk { expected: FRAM },
        ),
{
    let cs = scan_spec(signature_spec(d)->Ok_0)->Ok_0;
    lemma_first_of_absent(cs, ChunkKind::Frames);
}

/// `t` is where the lenient scan of `s` stands after zero or more chunks.
pub open spec fn scan_reaches(s: Seq<u8>, t: Seq<u8>) -> bool
    decreases s.len(),
{
    if s == t {
        true
    } else if s.len() <= 1 {
        false
    } else {
        match chunk_spec(s) {
            Ok((_, s1)) => s1.len() < s.len() && scan_reaches(s1, t),
            Err(_) => false,
        }
    }
}

proof fn lemma_scan_reaches_err(s: Seq<u8>, t: Seq<u8>, e: DecodeError)
    requires
        scan_reaches(s, t),
        scan_spec(t) == Err::<Seq<RawChunk>, DecodeError>(e),
    ensures
        scan_spec(s) == Err::<Seq<RawChunk>, DecodeError>(e),
    decreases s.len(),
{
    if s != t {
        let s1 = chunk_spec(s)->Ok_0.1;
        lemma_scan_reaches_err(s1, t, e);
    }
}

/// Lenient decoding fails with `UnknownIdentifier` as soon as the scan meets a chunk whose
/// identifier is none of `LIST`, `anih`, `rate` and `seq ` (so also a second `RIFF`); the
/// error carries that identifier.
pub proof fn lemma_lenient_unknown_identifier(d: Seq<u8>, t: Seq<u8>)
    requires
        signature_spec(d) is Ok,
        scan_reaches(signature_spec(d)->Ok_0, t),
        t.len() >= 4,
        id_of(t)@ != LIST@,
        id_of(t)@ != ANIH@,
        id_of(t)@ != RATE@,
        id_of(t)@ != SEQ@,
    ensures
        lenient_spec(d) == Err::<crate::ani::AniModel, DecodeError>(
            DecodeError::UnknownIdentifier { actual: id_of(t) },
        ),
{
    let e = DecodeError::UnknownIdentifier { actual: id_of(t) };
    assert(scan_spec(t) == Err::<Seq<RawChunk>, DecodeError>(e));
    lemma_scan_reaches_err(signature_spec(d)->Ok_0, t, e);
}

/// The little-endian bytes of a `u32` decode back to it.
pub proof fn lemma_u32_bytes(v: u32)
    ensures
        le_u32(u32_bytes(v), 0) == v,
{
    let x = v as int;
    lemma_fundamental_div_mod(x, 0x100);
    lemma_fundamental_div_mod(x / 0x100, 0x100);
    lemma_fundamental_div_mod(x / 0x1_0000, 0x100);
    lemma_div_denominator(x, 0x100, 0x100);
    lemma_div_denominator(x, 0x1_0000, 0x100);
    assert(0 <= x % 0x100 < 0x100);
    assert(0 <= (x / 0x100) % 0x100 < 0x100);
    assert(0 <= (x / 0x1_0000) % 0x100 < 0x100);
    assert(0 <= x / 0x100_0000 < 0x100);
    let b = u32_bytes(v);
    assert(b[0] as int == x % 0x100);
    assert(b[1] as int == (x / 0x100) % 0x100);
    assert(b[2] as int == (x / 0x1_0000) % 0x100);
    assert(b[3] as int == x / 0x100_0000);
}

/// A chunk tagged `tag` whose body is a size field and `b`.
pub open spec fn sized_chunk(tag: Identifier, b: Seq<u8>) -> Seq<u8> {
    tag@ + u32_bytes(b.len() as u32) + b
}

/// An optional table chunk tagged `tag`.
pub open spec fn table_part(tag: Identifier, t: Option<Seq<u8>>) -> Seq<u8> {
    match t {
        Some(b) => sized_chunk(tag, b),
        None => Seq::empty(),
    }
}

/// The `icon` chunks that hold the payloads `ps`, in order.
pub open spec fn icon_chunks(ps: Seq<Seq<u8>>) -> Seq<u8>
    decreases ps.len(),
{
    if ps.len() == 0 {
        Seq::empty()
    } else {
        icon_chunks(ps.drop_last()) + sized_chunk(ICON, ps.last())
    }
}

/// The chunks after the signature, in grammar order, without a metadata list: the header
/// record, the optional `rate` and `seq ` tables, then the frame list of the `icon` payloads.
pub open spec fn grammar_body(
    record: Seq<u8>,
    rates: Option<Seq<u8>>,
    sequence: Option<Seq<u8>>,
    icons: Seq<Seq<u8>>,
) -> Seq<u8> {
    sized_chunk(ANIH, record) + table_part(RATE, rates) + table_part(SEQ, sequence) + sized_chunk(
        LIST,
        FRAM@ + icon_chunks(icons),
    )
}

/// A whole file in grammar order: `RIFF`, the declared size `riff`, `ACON`, then the body.
pub open spec fn grammar_file(
    riff: u32,
    record: Seq<u8>,
    rates: Option<Seq<u8>>,
    sequence: Option<Seq<u8>>,
    icons: Seq<Seq<u8>>,
) -> Seq<u8> {
    RIFF@ + u32_bytes(riff) + ACON@ + grammar_body(record, rates, sequence, icons)
}

/// The size fields of such a file can hold its parts, the tables are whole `u32` values, and
/// the declared size does not exceed the data.
pub open spec fn grammar_fits(
    riff: u32,
    record: Seq<u8>,
    rates: Option<Seq<u8>>,
    sequence: Option<Seq<u8>>,
    icons: Seq<Seq<u8>>,
) -> bool {
    &&& record.len() == 36
    &&& (rates matches Some(b) ==> b.len() % 4 == 0 && b.len() <= u32::MAX)
    &&& (sequence matches Some(b) ==> b.len() % 4 == 0 && b.len() <= u32::MAX)
    &&& 4 + icon_chunks(icons).len() <= u32::MAX
    &&& riff <= grammar_body(record, rates, sequence, icons).len() + 4
}

/// The first four bytes of `sized_chunk(tag, b) + rest` are `tag`.
pub(crate) proof fn lemma_tag_of(tag: Identifier, b: Seq<u8>, rest: Seq<u8>)
    ensures
        (sized_chunk(tag, b) + rest).len() >= 4,
        (sized_chunk(tag, b) + rest).take(4) == tag@,
        id_of(sized_chunk(tag, b) + rest)@ == tag@,
{
    let s = sized_chunk(tag, b) + rest;
    assert(s.take(4) =~= tag@);
    assert(id_of(s)@ =~= tag@);
}

/// Decoding the size field of `sized_chunk(tag, b) + rest` after its tag.
pub(crate) proof fn lemma_sized_parts(tag: Identifier, b: Seq<u8>, rest: Seq<u8>)
    requires
        b.len() <= u32::MAX,
    ensures
        (sized_chunk(tag, b) + rest).skip(4).len() >= 4,
        le_u32((sized_chunk(tag, b) + rest).skip(4), 0) == b.len(),
        (sized_chunk(tag, b) + rest).skip(4).skip(4) == b + rest,
        (sized_chunk(tag, b) + rest).skip(4) == u32_bytes(b.len() as u32) + (b + rest),
{
    let s = sized_chunk(tag, b) + rest;
    lemma_u32_bytes(b.len() as u32);
    assert(s.skip(4) =~= u32_bytes(b.len() as u32) + (b + rest));
    assert(s.skip(4).skip(4) =~= b + rest);
}

/// Tags that differ in their first byte are different.
proof fn lemma_tags_differ()
    ensures
        ANIH@ != LIST@,
        RATE@ != LIST@,
        SEQ@ != LIST@,
        SEQ@ != RATE@,
        LIST@ != RATE@,
        LIST@ != SEQ@,
        FRAM@ != crate::ani::INFO_LOWER@,
{
    assert(ANIH@[0] != LIST@[0]);
    assert(RATE@[0] != LIST@[0]);
    assert(SEQ@[0] != LIST@[0]);
    assert(SEQ@[0] != RATE@[0]);
    assert(FRAM@[0] != crate::ani::INFO_LOWER@[0]);
}

/// The first chunk of kind `k` in `a + b`, when `a` holds none of that kind.
proof fn lemma_first_of_skip(a: Seq<RawChunk>, b: Seq<RawChunk>, k: ChunkKind)
    requires
        forall|i: int| 0 <= i < a.len() ==> (#[trigger] a[i]).kind != k,
    ensures
        first_of(a + b, k) == first_of(b, k),
    decreases a.len(),
{
    if a.len() > 0 {
        assert((a + b).drop_first() =~= a.drop_first() + b);
        assert forall|i: int| 0 <= i < a.drop_first().len() implies (
        #[trigger] a.drop_first()[i]).kind != k by {
            assert(a.drop_first()[i] == a[i + 1]);
        }
        lemma_first_of_skip(a.drop_first(), b, k);
    } else {
        assert(a + b =~= b);
    }
}

/// The lenient scan of a table chunk followed by `rest`.
proof fn lemma_scan_table(tag: Identifier, t: Option<Seq<u8>>, k: ChunkKind, rest: Seq<u8>)
    requires
        tag == RATE || tag == SEQ,
        tag == RATE ==> k == ChunkKind::Rate,
        tag == SEQ ==> k == ChunkKind::Sequence,
        t matches Some(b) ==> b.len() <= u32::MAX,
        scan_spec(rest) is Ok,
    ensures
        scan_spec(table_part(tag, t) + rest) is Ok,
        scan_spec(table_part(tag, t) + rest)->Ok_0 == (match t {
            Some(b) => seq![RawChunk { kind: k, data: u32_bytes(b.len() as u32) + b }],
            None => Seq::<RawChunk>::empty(),
        }) + scan_spec(rest)->Ok_0,
{
    match t {
        Some(b) => {
            let s = sized_chunk(tag, b) + rest;
            assert(table_part(tag, t) + rest == s);
            lemma_tag_of(tag, b, rest);
            lemma_sized_parts(tag, b, rest);
            lemma_tags_differ();
            assert(tag@ != ANIH@) by {
                assert(tag@[0] != ANIH@[0]);
            }
            let data = u32_bytes(b.len() as u32) + b;
            assert(s.skip(4).take((4 + b.len()) as int) =~= data);
            assert(s.skip(4).skip((4 + b.len()) as int) =~= rest);
            assert(chunk_spec(s) == Ok::<(RawChunk, Seq<u8>), DecodeError>(
                (RawChunk { kind: k, data }, rest),
            ));
        },
        None => {
            assert(table_part(tag, t) + rest =~= rest);
            assert(Seq::<RawChunk>::empty() + scan_spec(rest)->Ok_0 =~= scan_spec(rest)->Ok_0);
        },
    }
}

/// A table body: its size field, then `b`, then whatever follows.
proof fn lemma_table_body(b: Seq<u8>, rest: Seq<u8>)
    requires
        b.len() % 4 == 0,
        b.len() <= u32::MAX,
    ensures
        table_spec(u32_bytes(b.len() as u32) + (b + rest)) == Ok::<
            (Seq<u32>, Seq<u8>),
            DecodeError,
        >((u32s_of(b), rest)),
{
    let s = u32_bytes(b.len() as u32) + (b + rest);
    lemma_u32_bytes(b.len() as u32);
    assert(le_u32(s, 0) == le_u32(u32_bytes(b.len() as u32), 0));
    assert(s.skip(4) =~= b + rest);
    assert((b + rest).take(b.len() as int) =~= b);
    assert((b + rest).skip(b.len() as int) =~= rest);
}

/// A header body: its size field 36, then the record, then whatever follows.
proof fn lemma_anih_body(record: Seq<u8>, rest: Seq<u8>)
    requires
        record.len() == 36,
    ensures
        anih_spec(u32_bytes(36) + (record + rest)) == Ok::<(HeaderModel, Seq<u8>), DecodeError>(
            (crate::header::header_model(record, 0), rest),
        ),
{
    let s = u32_bytes(36) + (record + rest);
    lemma_u32_bytes(36);
    assert(le_u32(s, 0) == le_u32(u32_bytes(36), 0));
    assert(s.skip(4) =~= record + rest);
    assert((record + rest).take(36) =~= record);
    assert((record + rest).skip(36) =~= rest);
}

/// Strict decoding of an optional table chunk tagged `tag`, followed by data that opens with
/// another tag.
proof fn lemma_strict_table(tag: Identifier, t: Option<Seq<u8>>, rest: Seq<u8>)
    requires
        t matches Some(b) ==> b.len() % 4 == 0 && b.len() <= u32::MAX,
        rest.len() >= 4,
        rest.take(4) != tag@,
    ensures
        crate::ani::strict_table_spec(table_part(tag, t) + rest, tag) == Ok::<
            (Option<Seq<u32>>, Seq<u8>),
            DecodeError,
        >(
            (
                match t {
                    Some(b) => Some(u32s_of(b)),
                    None => None,
                },
                rest,
            ),
        ),
{
    match t {
        Some(b) => {
            lemma_tag_of(tag, b, rest);
            lemma_sized_parts(tag, b, rest);
            lemma_table_body(b, rest);
        },
        None => {
            assert(table_part(tag, t) + rest =~= rest);
        },
    }
}

/// The lenient scan of the frame list.
proof fn lemma_scan_frames(icons: Seq<u8>)
    requires
        4 + icons.len() <= u32::MAX,
    ensures
        scan_spec(sized_chunk(LIST, FRAM@ + icons)) == Ok::<Seq<RawChunk>, DecodeError>(
            seq![RawChunk { kind: ChunkKind::Frames, data: icons }],
        ),
{
    let f = sized_chunk(LIST, FRAM@ + icons);
    let e = Seq::<u8>::empty();
    assert(f + e =~= f);
    lemma_tag_of(LIST, FRAM@ + icons, e);
    lemma_sized_parts(LIST, FRAM@ + icons, e);
    lemma_tags_differ();
    let s3 = f.skip(4).skip(4);
    assert(s3 =~= FRAM@ + icons);
    assert(id_of(s3)@ =~= FRAM@);
    assert(s3.skip(4) =~= icons);
    assert(((4 + icons.len()) as u32).wrapping_sub(4) == icons.len()) by {
        assert(4 + icons.len() <= u32::MAX);
    }
    assert(icons.take(icons.len() as int) =~= icons);
    assert(icons.skip(icons.len() as int) =~= e);
    assert(chunk_spec(f) == Ok::<(RawChunk, Seq<u8>), DecodeError>(
        (RawChunk { kind: ChunkKind::Frames, data: icons }, e),
    ));
    assert(scan_spec(e) == Ok::<Seq<RawChunk>, DecodeError>(Seq::empty()));
    assert(seq![RawChunk { kind: ChunkKind::Frames, data: icons }] + Seq::<RawChunk>::empty()
        =~= seq![RawChunk { kind: ChunkKind::Frames, data: icons }]);
}

/// The tables of a grammar-ordered file, decoded.
pub open spec fn tables_of(t: Option<Seq<u8>>) -> Option<Seq<u32>> {
    match t {
        Some(b) => Some(u32s_of(b)),
        None => None,
    }
}

/// What decoding a grammar-ordered file without a metadata list yields.
pub open spec fn grammar_result(
    record: Seq<u8>,
    rates: Option<Seq<u8>>,
    sequence: Option<Seq<u8>>,
    icons: Seq<Seq<u8>>,
) -> Result<AniModel, DecodeError> {
    let header = crate::header::header_model(record, 0);
    match frames_spec(icon_chunks(icons), header.frames as nat) {
        Err(e) => Err(e),
        Ok((frames, _)) => Ok(
            AniModel {
                metadata: None,
                header,
                rates: tables_of(rates),
                sequence: tables_of(sequence),
                frames,
            },
        ),
    }
}

proof fn lemma_grammar_signature(
    riff: u32,
    record: Seq<u8>,
    rates: Option<Seq<u8>>,
    sequence: Option<Seq<u8>>,
    icons: Seq<Seq<u8>>,
)
    requires
        grammar_fits(riff, record, rates, sequence, icons),
    ensures
        signature_spec(grammar_file(riff, record, rates, sequence, icons)) == Ok::<
            Seq<u8>,
            DecodeError,
        >(grammar_body(record, rates, sequence, icons)),
{
    let d = grammar_file(riff, record, rates, sequence, icons);
    let body = grammar_body(record, rates, sequence, icons);
    assert(d.take(4) =~= RIFF@);
    assert(d.skip(4) =~= u32_bytes(riff) + (ACON@ + body));
    lemma_u32_bytes(riff);
    assert(le_u32(d.skip(4), 0) == le_u32(u32_bytes(riff), 0));
    assert(d.skip(4).skip(4) =~= ACON@ + body);
    assert((ACON@ + body).take(4) =~= ACON@);
    assert((ACON@ + body).skip(4) =~= body);
}

proof fn lemma_strict_header_part(record: Seq<u8>, rest: Seq<u8>)
    requires
        record.len() == 36,
    ensures
        crate::ani::strict_info_spec(sized_chunk(ANIH, record) + rest) == Ok::<
            (Option<crate::metadata::MetadataModel>, Seq<u8>),
            DecodeError,
        >((None, sized_chunk(ANIH, record) + rest)),
        crate::ani::strict_header_spec(sized_chunk(ANIH, record) + rest) == Ok::<
            (HeaderModel, Seq<u8>),
            DecodeError,
        >((crate::header::header_model(record, 0), rest)),
{
    lemma_tags_differ();
    lemma_tag_of(ANIH, record, rest);
    lemma_sized_parts(ANIH, record, rest);
    lemma_anih_body(record, rest);
}

proof fn lemma_strict_frame_part(ic: Seq<u8>, n: nat)
    requires
        4 + ic.len() <= u32::MAX,
    ensures
        crate::ani::strict_frames_spec(sized_chunk(LIST, FRAM@ + ic), n) == (match frames_spec(
            ic,
            n,
        ) {
            Err(e) => Err(e),
            Ok((fs, _)) => Ok::<Seq<crate::frame::FrameModel>, DecodeError>(fs),
        }),
{
    let f = sized_chunk(LIST, FRAM@ + ic);
    lemma_tag_of(LIST, FRAM@ + ic, Seq::empty());
    assert(f + Seq::<u8>::empty() =~= f);
    lemma_sized_parts(LIST, FRAM@ + ic, Seq::empty());
    assert(f.skip(4).skip(4) =~= FRAM@ + ic);
    assert((FRAM@ + ic).take(4) =~= FRAM@);
    assert((FRAM@ + ic).skip(4) =~= ic);
}

/// The body of a grammar-ordered file, cut after the header, the rate table and the sequence
/// table; the parts after the header and after the rate table open with another tag than
/// `rate` and `seq ` respectively.
pub(crate) proof fn lemma_body_parts(
    record: Seq<u8>,
    rates: Option<Seq<u8>>,
    sequence: Option<Seq<u8>>,
    icons: Seq<Seq<u8>>,
)
    ensures
        grammar_body(record, rates, sequence, icons) == sized_chunk(ANIH, record) + (table_part(
            RATE,
            rates,
        ) + (table_part(SEQ, sequence) + sized_chunk(LIST, FRAM@ + icon_chunks(icons)))),
        (table_part(SEQ, sequence) + sized_chunk(LIST, FRAM@ + icon_chunks(icons))).len() >= 4,
        (table_part(SEQ, sequence) + sized_chunk(LIST, FRAM@ + icon_chunks(icons))).take(4)
            != RATE@,
        sized_chunk(LIST, FRAM@ + icon_chunks(icons)).len() >= 4,
        sized_chunk(LIST, FRAM@ + icon_chunks(icons)).take(4) != SEQ@,
{
    let ic = icon_chunks(icons);
    let f = sized_chunk(LIST, FRAM@ + ic);
    let qf = table_part(SEQ, sequence) + f;
    assert(grammar_body(record, rates, sequence, icons) =~= sized_chunk(ANIH, record) + (
    table_part(RATE, rates) + qf));
    lemma_tags_differ();
    lemma_tag_of(LIST, FRAM@ + ic, Seq::empty());
    assert(f + Seq::<u8>::empty() =~= f);
    match sequence {
        Some(b) => {
            lemma_tag_of(SEQ, b, f);
        },
        None => {
            assert(qf =~= f);
        },
    }
}

proof fn lemma_grammar_strict(
    riff: u32,
    record: Seq<u8>,
    rates: Option<Seq<u8>>,
    sequence: Option<Seq<u8>>,
    icons: Seq<Seq<u8>>,
)
    requires
        grammar_fits(riff, record, rates, sequence, icons),
    ensures
        strict_spec(grammar_file(riff, record, rates, sequence, icons)) == grammar_result(
            record,
            rates,
            sequence,
            icons,
        ),
{
    let ic = icon_chunks(icons);
    let f = sized_chunk(LIST, FRAM@ + ic);
    let qf = table_part(SEQ, sequence) + f;
    let rqf = table_part(RATE, rates) + qf;
    lemma_body_parts(record, rates, sequence, icons);
    lemma_grammar_signature(riff, record, rates, sequence, icons);
    lemma_strict_header_part(record, rqf);
    lemma_strict_table(RATE, rates, qf);
    lemma_strict_table(SEQ, sequence, f);
    let hm = crate::header::header_model(record, 0);
    lemma_strict_frame_part(ic, hm.frames as nat);
    let body = grammar_body(record, rates, sequence, icons);
    assert(body == sized_chunk(ANIH, record) + rqf);
    assert(crate::ani::strict_info_spec(body) == Ok::<
        (Option<crate::metadata::MetadataModel>, Seq<u8>),
        DecodeError,
    >((None, body)));
    assert(crate::ani::strict_header_spec(body) == Ok::<(HeaderModel, Seq<u8>), DecodeError>(
        (hm, rqf),
    ));
    assert(crate::ani::strict_table_spec(rqf, RATE) == Ok::<
        (Option<Seq<u32>>, Seq<u8>),
        DecodeError,
    >((tables_of(rates), qf)));
    assert(crate::ani::strict_table_spec(qf, SEQ) == Ok::<
        (Option<Seq<u32>>, Seq<u8>),
        DecodeError,
    >((tables_of(sequence), f)));
    lemma_strict_chain(
        grammar_file(riff, record, rates, sequence, icons),
        body,
        rqf,
        qf,
        f,
        hm,
        tables_of(rates),
        tables_of(sequence),
    );
}

/// Strict decoding, stage by stage.
proof fn lemma_strict_chain(
    d: Seq<u8>,
    body: Seq<u8>,
    rqf: Seq<u8>,
    qf: Seq<u8>,
    f: Seq<u8>,
    hm: HeaderModel,
    rt: Option<Seq<u32>>,
    st: Option<Seq<u32>>,
)
    requires
        signature_spec(d) == Ok::<Seq<u8>, DecodeError>(body),
        crate::ani::strict_info_spec(body) == Ok::<
            (Option<crate::metadata::MetadataModel>, Seq<u8>),
            DecodeError,
        >((None, body)),
        crate::ani::strict_header_spec(body) == Ok::<(HeaderModel, Seq<u8>), DecodeError>(
            (hm, rqf),
        ),
        crate::ani::strict_table_spec(rqf, RATE) == Ok::<(Option<Seq<u32>>, Seq<u8>), DecodeError>(
            (rt, qf),
        ),
        crate::ani::strict_table_spec(qf, SEQ) == Ok::<(Option<Seq<u32>>, Seq<u8>), DecodeError>(
            (st, f),
        ),
    ensures
        strict_spec(d) == (match crate::ani::strict_frames_spec(f, hm.frames as nat) {
            Err(e) => Err(e),
            Ok(frames) => Ok(
                AniModel { metadata: None, header: hm, rates: rt, sequence: st, frames },
            ),
        }),
{
}

/// The lenient scan of the header chunk followed by `rest`.
proof fn lemma_scan_header(record: Seq<u8>, rest: Seq<u8>)
    requires
        record.len() == 36,
        scan_spec(rest) is Ok,
    ensures
        scan_spec(sized_chunk(ANIH, record) + rest) == Ok::<Seq<RawChunk>, DecodeError>(
            seq![RawChunk { kind: ChunkKind::Header, data: u32_bytes(36) + record }] + scan_spec(
                rest,
            )->Ok_0,
        ),
{
    let s = sized_chunk(ANIH, record) + rest;
    let hc = RawChunk { kind: ChunkKind::Header, data: u32_bytes(36) + record };
    lemma_tags_differ();
    lemma_tag_of(ANIH, record, rest);
    lemma_sized_parts(ANIH, record, rest);
    assert(s.skip(4).take(40) =~= u32_bytes(36) + record);
    assert(s.skip(4).skip(40) =~= rest);
    assert(chunk_spec(s) == Ok::<(RawChunk, Seq<u8>), DecodeError>((hc, rest)));
}

/// The lenient assembly of the chunks of a grammar-ordered file.
proof fn lemma_assemble_grammar(
    record: Seq<u8>,
    rates: Option<Seq<u8>>,
    sequence: Option<Seq<u8>>,
    icons: Seq<Seq<u8>>,
    rcs: Seq<RawChunk>,
    qcs: Seq<RawChunk>,
)
    requires
        record.len() == 36,
        rates matches Some(b) ==> b.len() % 4 == 0 && b.len() <= u32::MAX,
        sequence matches Some(b) ==> b.len() % 4 == 0 && b.len() <= u32::MAX,
        rcs == (match rates {
            Some(b) => seq![RawChunk { kind: ChunkKind::Rate, data: u32_bytes(b.len() as u32) + b }],
            None => Seq::<RawChunk>::empty(),
        }),
        qcs == (match sequence {
            Some(b) => seq![
                RawChunk { kind: ChunkKind::Sequence, data: u32_bytes(b.len() as u32) + b },
            ],
            None => Seq::<RawChunk>::empty(),
        }),
    ensures
        crate::ani::assemble_spec(
            seq![RawChunk { kind: ChunkKind::Header, data: u32_bytes(36) + record }] + (rcs + (qcs
                + seq![RawChunk { kind: ChunkKind::Frames, data: icon_chunks(icons) }])),
        ) == grammar_result(record, rates, sequence, icons),
{
    let hc = RawChunk { kind: ChunkKind::Header, data: u32_bytes(36) + record };
    let fc = RawChunk { kind: ChunkKind::Frames, data: icon_chunks(icons) };
    let tail = rcs + (qcs + seq![fc]);
    let cs = seq![hc] + tail;
    assert(forall|i: int| 0 <= i < cs.len() ==> (#[trigger] cs[i]).kind != ChunkKind::Metadata);
    lemma_first_of_absent(cs, ChunkKind::Metadata);
    assert(first_of(cs, ChunkKind::Header) == Some(u32_bytes(36) + record));
    assert(record + Seq::<u8>::empty() =~= record);
    lemma_anih_body(record, Seq::empty());
    lemma_first_of_skip(seq![hc], tail, ChunkKind::Rate);
    lemma_first_of_skip(seq![hc] + rcs, qcs + seq![fc], ChunkKind::Sequence);
    lemma_first_of_skip(seq![hc] + rcs + qcs, seq![fc], ChunkKind::Frames);
    assert(cs =~= (seq![hc] + rcs) + (qcs + seq![fc]));
    assert(cs =~= (seq![hc] + rcs + qcs) + seq![fc]);
    match rates {
        Some(b) => {
            assert(b + Seq::<u8>::empty() =~= b);
            lemma_table_body(b, Seq::empty());
            assert(first_of(tail, ChunkKind::Rate) == Some(u32_bytes(b.len() as u32) + b));
        },
        None => {
            assert(tail =~= qcs + seq![fc]);
            lemma_first_of_absent(tail, ChunkKind::Rate);
        },
    }
    match sequence {
        Some(b) => {
            assert(b + Seq::<u8>::empty() =~= b);
            lemma_table_body(b, Seq::empty());
            assert(first_of(qcs + seq![fc], ChunkKind::Sequence) == Some(
                u32_bytes(b.len() as u32) + b,
            ));
        },
        None => {
            assert(qcs + seq![fc] =~= seq![fc]);
            lemma_first_of_absent(seq![fc], ChunkKind::Sequence);
        },
    }
    assert(first_of(seq![fc], ChunkKind::Frames) == Some(icon_chunks(icons)));
}

proof fn lemma_grammar_lenient(
    riff: u32,
    record: Seq<u8>,
    rates: Option<Seq<u8>>,
    sequence: Option<Seq<u8>>,
    icons: Seq<Seq<u8>>,
)
    requires
        grammar_fits(riff, record, rates, sequence, icons),
    ensures
        lenient_spec(grammar_file(riff, record, rates, sequence, icons)) == grammar_result(
            record,
            rates,
            sequence,
            icons,
        ),
{
    let body = grammar_body(record, rates, sequence, icons);
    let h = sized_chunk(ANIH, record);
    let ic = icon_chunks(icons);
    let f = sized_chunk(LIST, FRAM@ + ic);
    let qf = table_part(SEQ, sequence) + f;
    let rqf = table_part(RATE, rates) + qf;
    assert(body =~= h + rqf);
    lemma_grammar_signature(riff, record, rates, sequence, icons);
    let fc = RawChunk { kind: ChunkKind::Frames, data: ic };
    lemma_scan_frames(ic);
    lemma_scan_table(SEQ, sequence, ChunkKind::Sequence, f);
    lemma_scan_table(RATE, rates, ChunkKind::Rate, qf);
    let rcs = match rates {
        Some(b) => seq![RawChunk { kind: ChunkKind::Rate, data: u32_bytes(b.len() as u32) + b }],
        None => Seq::<RawChunk>::empty(),
    };
    let qcs = match sequence {
        Some(b) => seq![
            RawChunk { kind: ChunkKind::Sequence, data: u32_bytes(b.len() as u32) + b },
        ],
        None => Seq::<RawChunk>::empty(),
    };
    assert(scan_spec(qf) == Ok::<Seq<RawChunk>, DecodeError>(qcs + seq![fc]));
    assert(scan_spec(rqf) == Ok::<Seq<RawChunk>, DecodeError>(rcs + (qcs + seq![fc])));
    lemma_scan_header(record, rqf);
    lemma_assemble_grammar(record, rates, sequence, icons, rcs, qcs);
}

/// On a file laid out in grammar order without a metadata list, strict and lenient decoding
/// give the same result: the same decoded file, or the same error when an `icon` payload is
/// not a well-formed icon container. (With a metadata list the two cannot agree: the strict
/// grammar nests `INFO` in the list, while the lenient scan only accepts `info`.)
pub proof fn lemma_strict_lenient_agree(
    riff: u32,
    record: Seq<u8>,
    rates: Option<Seq<u8>>,
    sequence: Option<Seq<u8>>,
    icons: Seq<Seq<u8>>,
)
    requires
        grammar_fits(riff, record, rates, sequence, icons),
    ensures
        strict_spec(grammar_file(riff, record, rates, sequence, icons)) == lenient_spec(
            grammar_file(riff, record, rates, sequence, icons),
        ),
{
    lemma_grammar_strict(riff, record, rates, sequence, icons);
    lemma_grammar_lenient(riff, record, rates, sequence, icons);
}

} // verus!
