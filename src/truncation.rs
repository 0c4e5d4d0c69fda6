use vstd::prelude::*;

use crate::ani::{
    strict_frames_spec, strict_header_spec, strict_info_spec, strict_spec, strict_table_spec,
    AniModel,
};
use crate::chunks::{
    frames_spec, icon_chunk_spec, ACON, ANIH, FRAM, ICON, LIST, RATE, RIFF, SEQ,
};
use crate::error::{DecodeError, Identifier};
use crate::frame::{u32_bytes, FrameModel};
use crate::header::HeaderModel;
use crate::icon::icon_dir_valid;
use crate::laws::{
    icon_chunks, lemma_body_parts, lemma_sized_parts, lemma_tag_of, lemma_u32_bytes, sized_chunk,
    table_part,
};
use crate::metadata::MetadataModel;
use crate::parser::{expect_id_spec, le_u32, size_spec, take_spec};

verus! {

/// The total length of fields laid end to end.
pub open spec fn fields_len(f: Seq<nat>) -> nat
    decreases f.len(),
{
    if f.len() == 0 {
        0
    } else {
        f[0] + fields_len(f.drop_first())
    }
}

/// With fields of lengths `f` laid end to end from offset 0, the bytes missing after offset `k`
/// to complete the field in which `k` falls (0 past the last field).
pub open spec fn shortfall(f: Seq<nat>, k: int) -> int
    decreases f.len(),
{
    if f.len() == 0 {
        0
    } else if k < f[0] {
        f[0] - k
    } else {
        shortfall(f.drop_first(), k - f[0])
    }
}

proof fn lemma_shortfall_concat(a: Seq<nat>, b: Seq<nat>, k: int)
    requires
        0 <= k,
    ensures
        fields_len(a + b) == fields_len(a) + fields_len(b),
        k < fields_len(a) ==> shortfall(a + b, k) == shortfall(a, k),
        k >= fields_len(a) ==> shortfall(a + b, k) == shortfall(b, k - fields_len(a)),
    decreases a.len(),
{
    if a.len() == 0 {
        assert(a + b =~= b);
    } else {
        assert((a + b).drop_first() =~= a.drop_first() + b);
        if k >= a[0] {
            lemma_shortfall_concat(a.drop_first(), b, k - a[0]);
        } else {
            lemma_shortfall_concat(a.drop_first(), b, 0);
        }
    }
}

/// The fields of a chunk: its tag, its size, its body of `n` bytes.
pub open spec fn chunk_fields(n: nat) -> Seq<nat> {
    seq![4nat, 4nat, n]
}

proof fn lemma_chunk_fields(n: nat, k: int)
    requires
        0 <= k,
    ensures
        fields_len(chunk_fields(n)) == 8 + n,
        k < 4 ==> shortfall(chunk_fields(n), k) == 4 - k,
        4 <= k < 8 ==> shortfall(chunk_fields(n), k) == 8 - k,
        8 <= k < 8 + n ==> shortfall(chunk_fields(n), k) == 8 + n - k,
{
    let f = chunk_fields(n);
    assert(f.drop_first() =~= seq![4nat, n]);
    assert(f.drop_first().drop_first() =~= seq![n]);
    assert(f.drop_first().drop_first().drop_first() =~= Seq::<nat>::empty());
    assert(fields_len(Seq::<nat>::empty()) == 0);
    assert(fields_len(seq![n]) == n) by {
        assert(seq![n].drop_first() =~= Seq::<nat>::empty());
    }
    assert(fields_len(seq![4nat, n]) == 4 + n);
    if 4 <= k {
        assert(shortfall(f, k) == shortfall(seq![4nat, n], k - 4));
        if 8 <= k {
            assert(shortfall(seq![4nat, n], k - 4) == shortfall(seq![n], k - 8));
        }
    }
}

/// The fields of the optional table tagged by a table part.
pub open spec fn table_fields(t: Option<Seq<u8>>) -> Seq<nat> {
    match t {
        Some(b) => chunk_fields(b.len()),
        None => Seq::empty(),
    }
}

/// The fields of the `icon` chunks of the payloads `ps`.
pub open spec fn icon_fields(ps: Seq<Seq<u8>>) -> Seq<nat>
    decreases ps.len(),
{
    if ps.len() == 0 {
        Seq::empty()
    } else {
        icon_fields(ps.drop_last()) + chunk_fields(ps.last().len())
    }
}

proof fn lemma_icon_fields_len(ps: Seq<Seq<u8>>)
    ensures
        fields_len(icon_fields(ps)) == icon_chunks(ps).len(),
    decreases ps.len(),
{
    if ps.len() > 0 {
        lemma_icon_fields_len(ps.drop_last());
        lemma_shortfall_concat(icon_fields(ps.drop_last()), chunk_fields(ps.last().len()), 0);
        lemma_chunk_fields(ps.last().len(), 0);
    }
}

// ---- the primitive reads on a truncated input ----

proof fn lemma_trunc_expect(s: Seq<u8>, id: Identifier, m: int)
    requires
        4 <= s.len(),
        0 <= m <= s.len(),
    ensures
        m < 4 ==> expect_id_spec(s.take(m), id) == Err::<Seq<u8>, DecodeError>(
            DecodeError::NotEnoughBytes { needed: (4 - m) as usize },
        ),
        m >= 4 && s.take(4) == id@ ==> expect_id_spec(s.take(m), id) == Ok::<Seq<u8>, DecodeError>(
            s.skip(4).take(m - 4),
        ),
        m >= 4 && s.take(4) != id@ ==> expect_id_spec(s.take(m), id) is Err && !(expect_id_spec(
            s.take(m),
            id,
        ) matches Err(DecodeError::NotEnoughBytes { .. })),
{
    if m >= 4 {
        assert(s.take(m).take(4) =~= s.take(4));
        assert(s.take(m).skip(4) =~= s.skip(4).take(m - 4));
    }
}

proof fn lemma_trunc_size(s: Seq<u8>, m: int)
    requires
        4 <= s.len(),
        0 <= m <= s.len(),
    ensures
        m < 4 ==> size_spec(s.take(m)) == Err::<(u32, Seq<u8>), DecodeError>(
            DecodeError::NotEnoughBytes { needed: (4 - m) as usize },
        ),
        m >= 4 ==> size_spec(s.take(m)) == Ok::<(u32, Seq<u8>), DecodeError>(
            (le_u32(s, 0), s.skip(4).take(m - 4)),
        ),
{
    if m >= 4 {
        assert(s.take(m).skip(4) =~= s.skip(4).take(m - 4));
        assert(s.take(m)[0] == s[0] && s.take(m)[1] == s[1] && s.take(m)[2] == s[2] && s.take(
            m,
        )[3] == s[3]);
    }
}

proof fn lemma_trunc_take(s: Seq<u8>, n: nat, m: int)
    requires
        n <= s.len(),
        0 <= m <= s.len(),
    ensures
        m < n ==> take_spec(s.take(m), n) == Err::<(Seq<u8>, Seq<u8>), DecodeError>(
            DecodeError::NotEnoughBytes { needed: (n - m) as usize },
        ),
        m >= n ==> take_spec(s.take(m), n) == Ok::<(Seq<u8>, Seq<u8>), DecodeError>(
            (s.take(n as int), s.skip(n as int).take(m - n)),
        ),
{
    if m >= n {
        assert(s.take(m).take(n as int) =~= s.take(n as int));
        assert(s.take(m).skip(n as int) =~= s.skip(n as int).take(m - n));
    }
}

/// The tag of a sized chunk followed by `rest`, cut after `m` bytes.
proof fn lemma_cut_tag(tag: Identifier, b: Seq<u8>, rest: Seq<u8>, m: int)
    requires
        0 <= m <= (sized_chunk(tag, b) + rest).len(),
    ensures
        (sized_chunk(tag, b) + rest).len() >= 4,
        (sized_chunk(tag, b) + rest).take(4) == tag@,
        m < 4 ==> expect_id_spec((sized_chunk(tag, b) + rest).take(m), tag) == Err::<
            Seq<u8>,
            DecodeError,
        >(DecodeError::NotEnoughBytes { needed: (4 - m) as usize }),
        m >= 4 ==> expect_id_spec((sized_chunk(tag, b) + rest).take(m), tag) == Ok::<
            Seq<u8>,
            DecodeError,
        >((u32_bytes(b.len() as u32) + (b + rest)).take(m - 4)),
{
    let s = sized_chunk(tag, b) + rest;
    assert(s.take(4) =~= tag@);
    assert(s.skip(4) =~= u32_bytes(b.len() as u32) + (b + rest));
    lemma_trunc_expect(s, tag, m);
}

/// The size field of a sized chunk, cut `m` bytes after its tag began.
proof fn lemma_cut_size(b: Seq<u8>, rest: Seq<u8>, m: int)
    requires
        b.len() <= u32::MAX,
        4 <= m <= 8 + b.len() + rest.len(),
    ensures
        m < 8 ==> size_spec((u32_bytes(b.len() as u32) + (b + rest)).take(m - 4)) == Err::<
            (u32, Seq<u8>),
            DecodeError,
        >(DecodeError::NotEnoughBytes { needed: (8 - m) as usize }),
        m >= 8 ==> size_spec((u32_bytes(b.len() as u32) + (b + rest)).take(m - 4)) == Ok::<
            (u32, Seq<u8>),
            DecodeError,
        >((b.len() as u32, (b + rest).take(m - 8))),
{
    let u = u32_bytes(b.len() as u32) + (b + rest);
    lemma_u32_bytes(b.len() as u32);
    assert(le_u32(u, 0) == le_u32(u32_bytes(b.len() as u32), 0));
    assert(u.skip(4) =~= b + rest);
    lemma_trunc_size(u, m - 4);
}

/// The body of a sized chunk, cut `m` bytes after its tag began.
proof fn lemma_cut_body(b: Seq<u8>, rest: Seq<u8>, m: int)
    requires
        8 <= m <= 8 + b.len() + rest.len(),
    ensures
        m < 8 + b.len() ==> take_spec((b + rest).take(m - 8), b.len()) == Err::<
            (Seq<u8>, Seq<u8>),
            DecodeError,
        >(DecodeError::NotEnoughBytes { needed: (8 + b.len() - m) as usize }),
        m >= 8 + b.len() ==> take_spec((b + rest).take(m - 8), b.len()) == Ok::<
            (Seq<u8>, Seq<u8>),
            DecodeError,
        >((b, rest.take(m - 8 - b.len()))),
{
    lemma_trunc_take(b + rest, b.len(), m - 8);
    assert((b + rest).take(b.len() as int) =~= b);
    assert((b + rest).skip(b.len() as int) =~= rest);
}

/// Every payload fits a size field and holds a well-formed icon container.
pub open spec fn payloads_ok(ps: Seq<Seq<u8>>) -> bool {
    forall|i: int| 0 <= i < ps.len() ==> icon_dir_valid(#[trigger] ps[i]) && ps[i].len() <= u32::MAX
}

proof fn lemma_payloads_init(ps: Seq<Seq<u8>>)
    requires
        payloads_ok(ps),
        ps.len() > 0,
    ensures
        payloads_ok(ps.drop_last()),
        icon_dir_valid(ps.last()),
        ps.last().len() <= u32::MAX,
{
    assert forall|i: int| 0 <= i < ps.drop_last().len() implies icon_dir_valid(
        #[trigger] ps.drop_last()[i],
    ) && ps.drop_last()[i].len() <= u32::MAX by {
        assert(ps.drop_last()[i] == ps[i]);
        assert(icon_dir_valid(ps[i]) && ps[i].len() <= u32::MAX);
    }
    assert(icon_dir_valid(ps[ps.len() - 1]));
}

/// A well-formed `icon` chunk followed by `x` decodes and leaves `x`.
proof fn lemma_icon_chunk_whole(p: Seq<u8>, x: Seq<u8>)
    requires
        icon_dir_valid(p),
        p.len() <= u32::MAX,
    ensures
        icon_chunk_spec(sized_chunk(ICON, p) + x) is Ok,
        icon_chunk_spec(sized_chunk(ICON, p) + x)->Ok_0.1 == x,
{
    lemma_tag_of(ICON, p, x);
    lemma_sized_parts(ICON, p, x);
    assert((p + x).take(p.len() as int) =~= p);
    assert((p + x).skip(p.len() as int) =~= x);
    assert(crate::icon::decode_frame_spec(p) is Ok);
}

/// An `icon` chunk cut after `m` of its bytes.
#[verifier::rlimit(40)]
proof fn lemma_icon_chunk_cut(p: Seq<u8>, m: int)
    requires
        p.len() <= u32::MAX,
        0 <= m < sized_chunk(ICON, p).len(),
    ensures
        icon_chunk_spec(sized_chunk(ICON, p).take(m)) == Err::<(FrameModel, Seq<u8>), DecodeError>(
            DecodeError::NotEnoughBytes { needed: shortfall(chunk_fields(p.len()), m) as usize },
        ),
{
    let e = Seq::<u8>::empty();
    assert(sized_chunk(ICON, p) + e =~= sized_chunk(ICON, p));
    lemma_chunk_fields(p.len(), m);
    lemma_cut_tag(ICON, p, e, m);
    if m >= 4 {
        lemma_cut_size(p, e, m);
    }
    if m >= 8 {
        lemma_cut_body(p, e, m);
    }
}

/// Well-formed `icon` chunks followed by `x` decode and leave `x`.
proof fn lemma_frames_whole(ps: Seq<Seq<u8>>, x: Seq<u8>)
    requires
        payloads_ok(ps),
    ensures
        frames_spec(icon_chunks(ps) + x, ps.len()) is Ok,
        frames_spec(icon_chunks(ps) + x, ps.len())->Ok_0.1 == x,
    decreases ps.len(),
{
    if ps.len() == 0 {
        assert(icon_chunks(ps) + x =~= x);
    } else {
        lemma_payloads_init(ps);
        let c = sized_chunk(ICON, ps.last());
        let a = icon_chunks(ps.drop_last());
        assert(icon_chunks(ps) + x =~= a + (c + x));
        lemma_frames_whole(ps.drop_last(), c + x);
        lemma_icon_chunk_whole(ps.last(), x);
    }
}

/// Well-formed `icon` chunks cut after `m` bytes fail for want of the rest of the field that
/// the cut falls in.
proof fn lemma_frames_cut(ps: Seq<Seq<u8>>, m: int)
    requires
        payloads_ok(ps),
        0 <= m < icon_chunks(ps).len(),
    ensures
        frames_spec(icon_chunks(ps).take(m), ps.len()) == Err::<
            (Seq<FrameModel>, Seq<u8>),
            DecodeError,
        >(DecodeError::NotEnoughBytes { needed: shortfall(icon_fields(ps), m) as usize }),
    decreases ps.len(),
{
    lemma_payloads_init(ps);
    let init = ps.drop_last();
    let a = icon_chunks(init);
    let c = sized_chunk(ICON, ps.last());
    assert(icon_chunks(ps) == a + c);
    lemma_icon_fields_len(init);
    lemma_shortfall_concat(icon_fields(init), chunk_fields(ps.last().len()), m);
    if m < a.len() {
        assert(icon_chunks(ps).take(m) =~= a.take(m));
        lemma_frames_cut(init, m);
    } else {
        let cut = c.take(m - a.len());
        assert(icon_chunks(ps).take(m) =~= a + cut);
        lemma_frames_whole(init, cut);
        lemma_icon_chunk_cut(ps.last(), m - a.len());
    }
}

// ---- strict decoding, stage by stage ----

proof fn lemma_fail_sig(d: Seq<u8>, e: DecodeError)
    requires
        crate::chunks::signature_spec(d) == Err::<Seq<u8>, DecodeError>(e),
    ensures
        strict_spec(d) == Err::<AniModel, DecodeError>(e),
{
}

proof fn lemma_fail_info(d: Seq<u8>, b0: Seq<u8>, e: DecodeError)
    requires
        crate::chunks::signature_spec(d) == Ok::<Seq<u8>, DecodeError>(b0),
        strict_info_spec(b0) == Err::<(Option<MetadataModel>, Seq<u8>), DecodeError>(e),
    ensures
        strict_spec(d) == Err::<AniModel, DecodeError>(e),
{
}

proof fn lemma_fail_header(d: Seq<u8>, b0: Seq<u8>, s1: Seq<u8>, e: DecodeError)
    requires
        crate::chunks::signature_spec(d) == Ok::<Seq<u8>, DecodeError>(b0),
        strict_info_spec(b0) == Ok::<(Option<MetadataModel>, Seq<u8>), DecodeError>((None, s1)),
        strict_header_spec(s1) == Err::<(HeaderModel, Seq<u8>), DecodeError>(e),
    ensures
        strict_spec(d) == Err::<AniModel, DecodeError>(e),
{
}

proof fn lemma_fail_rates(
    d: Seq<u8>,
    b0: Seq<u8>,
    s1: Seq<u8>,
    h: HeaderModel,
    s2: Seq<u8>,
    e: DecodeError,
)
    requires
        crate::chunks::signature_spec(d) == Ok::<Seq<u8>, DecodeError>(b0),
        strict_info_spec(b0) == Ok::<(Option<MetadataModel>, Seq<u8>), DecodeError>((None, s1)),
        strict_header_spec(s1) == Ok::<(HeaderModel, Seq<u8>), DecodeError>((h, s2)),
        strict_table_spec(s2, RATE) == Err::<(Option<Seq<u32>>, Seq<u8>), DecodeError>(e),
    ensures
        strict_spec(d) == Err::<AniModel, DecodeError>(e),
{
}

proof fn lemma_fail_seq(
    d: Seq<u8>,
    b0: Seq<u8>,
    s1: Seq<u8>,
    h: HeaderModel,
    s2: Seq<u8>,
    r: Option<Seq<u32>>,
    s3: Seq<u8>,
    e: DecodeError,
)
    requires
        crate::chunks::signature_spec(d) == Ok::<Seq<u8>, DecodeError>(b0),
        strict_info_spec(b0) == Ok::<(Option<MetadataModel>, Seq<u8>), DecodeError>((None, s1)),
        strict_header_spec(s1) == Ok::<(HeaderModel, Seq<u8>), DecodeError>((h, s2)),
        strict_table_spec(s2, RATE) == Ok::<(Option<Seq<u32>>, Seq<u8>), DecodeError>((r, s3)),
        strict_table_spec(s3, SEQ) == Err::<(Option<Seq<u32>>, Seq<u8>), DecodeError>(e),
    ensures
        strict_spec(d) == Err::<AniModel, DecodeError>(e),
{
}

proof fn lemma_fail_frames(
    d: Seq<u8>,
    b0: Seq<u8>,
    s1: Seq<u8>,
    h: HeaderModel,
    s2: Seq<u8>,
    r: Option<Seq<u32>>,
    s3: Seq<u8>,
    q: Option<Seq<u32>>,
    s4: Seq<u8>,
    e: DecodeError,
)
    requires
        crate::chunks::signature_spec(d) == Ok::<Seq<u8>, DecodeError>(b0),
        strict_info_spec(b0) == Ok::<(Option<MetadataModel>, Seq<u8>), DecodeError>((None, s1)),
        strict_header_spec(s1) == Ok::<(HeaderModel, Seq<u8>), DecodeError>((h, s2)),
        strict_table_spec(s2, RATE) == Ok::<(Option<Seq<u32>>, Seq<u8>), DecodeError>((r, s3)),
        strict_table_spec(s3, SEQ) == Ok::<(Option<Seq<u32>>, Seq<u8>), DecodeError>((q, s4)),
        strict_frames_spec(s4, h.frames as nat) == Err::<Seq<FrameModel>, DecodeError>(e),
    ensures
        strict_spec(d) == Err::<AniModel, DecodeError>(e),
{
}

/// The metadata probe on a header chunk cut after `m` bytes.
proof fn lemma_cut_info(record: Seq<u8>, rest: Seq<u8>, m: int)
    requires
        0 <= m <= (sized_chunk(ANIH, record) + rest).len(),
    ensures
        m < 4 ==> strict_info_spec((sized_chunk(ANIH, record) + rest).take(m)) == Err::<
            (Option<MetadataModel>, Seq<u8>),
            DecodeError,
        >(DecodeError::NotEnoughBytes { needed: (4 - m) as usize }),
        m >= 4 ==> strict_info_spec((sized_chunk(ANIH, record) + rest).take(m)) == Ok::<
            (Option<MetadataModel>, Seq<u8>),
            DecodeError,
        >((None, (sized_chunk(ANIH, record) + rest).take(m))),
{
    let s = sized_chunk(ANIH, record) + rest;
    assert(s.take(4) =~= ANIH@);
    lemma_trunc_expect(s, LIST, m);
    assert(ANIH@ != LIST@) by {
        assert(ANIH@[0] != LIST@[0]);
    }
}

/// The header chunk cut after `m` bytes.
#[verifier::rlimit(40)]
proof fn lemma_cut_anih(record: Seq<u8>, rest: Seq<u8>, m: int)
    requires
        record.len() == 36,
        4 <= m <= (sized_chunk(ANIH, record) + rest).len(),
    ensures
        m < 44 ==> strict_header_spec((sized_chunk(ANIH, record) + rest).take(m)) == Err::<
            (HeaderModel, Seq<u8>),
            DecodeError,
        >(DecodeError::NotEnoughBytes { needed: shortfall(chunk_fields(36), m) as usize }),
        m >= 44 ==> strict_header_spec((sized_chunk(ANIH, record) + rest).take(m)) == Ok::<
            (HeaderModel, Seq<u8>),
            DecodeError,
        >((crate::header::header_model(record, 0), rest.take(m - 44))),
{
    lemma_chunk_fields(36, m);
    lemma_cut_tag(ANIH, record, rest, m);
    lemma_cut_size(record, rest, m);
    if m >= 8 {
        lemma_cut_body(record, rest, m);
    }
}

/// An optional table chunk tagged `tag`, cut after `m` bytes; what follows it opens with
/// another tag.
proof fn lemma_cut_table(tag: Identifier, t: Option<Seq<u8>>, rest: Seq<u8>, m: int)
    requires
        t matches Some(b) ==> b.len() % 4 == 0 && b.len() <= u32::MAX,
        rest.len() >= 4,
        rest.take(4) != tag@,
        0 <= m <= (table_part(tag, t) + rest).len(),
    ensures
        ({
            let x = (table_part(tag, t) + rest).take(m);
            let l = fields_len(table_fields(t));
            &&& l == table_part(tag, t).len()
            &&& m < l ==> strict_table_spec(x, tag) == Err::<
                (Option<Seq<u32>>, Seq<u8>),
                DecodeError,
            >(DecodeError::NotEnoughBytes { needed: shortfall(table_fields(t), m) as usize })
            &&& l <= m < l + 4 && t is None ==> strict_table_spec(x, tag) == Err::<
                (Option<Seq<u32>>, Seq<u8>),
                DecodeError,
            >(DecodeError::NotEnoughBytes { needed: (4 - m) as usize })
            &&& m >= l && (t is Some || m >= 4) ==> strict_table_spec(x, tag) == Ok::<
                (Option<Seq<u32>>, Seq<u8>),
                DecodeError,
            >((crate::laws::tables_of(t), rest.take(m - l)))
        }),
{
    match t {
        Some(b) => {
            lemma_chunk_fields(b.len(), m);
            lemma_cut_tag(tag, b, rest, m);
            if m >= 4 {
                lemma_cut_size(b, rest, m);
            }
            if m >= 8 {
                lemma_cut_body(b, rest, m);
            }
        },
        None => {
            assert(table_part(tag, t) + rest =~= rest);
            assert(fields_len(Seq::<nat>::empty()) == 0);
            lemma_trunc_expect(rest, tag, m);
            assert(rest.take(m).take(m) =~= rest.take(m));
        },
    }
}

/// The frame list cut after `m` bytes.
#[verifier::rlimit(40)]
proof fn lemma_cut_frame_list(icons: Seq<Seq<u8>>, m: int)
    requires
        payloads_ok(icons),
        4 + icon_chunks(icons).len() <= u32::MAX,
        0 <= m < sized_chunk(LIST, FRAM@ + icon_chunks(icons)).len(),
    ensures
        strict_frames_spec(sized_chunk(LIST, FRAM@ + icon_chunks(icons)).take(m), icons.len())
            == Err::<Seq<FrameModel>, DecodeError>(
            DecodeError::NotEnoughBytes {
                needed: shortfall(chunk_fields(4) + icon_fields(icons), m) as usize,
            },
        ),
{
    let ic = icon_chunks(icons);
    let e = Seq::<u8>::empty();
    let f = sized_chunk(LIST, FRAM@ + ic);
    assert(f + e =~= f);
    lemma_cut_tag(LIST, FRAM@ + ic, e, m);
    if m >= 4 {
        lemma_cut_size(FRAM@ + ic, e, m);
    }
    lemma_chunk_fields(4, m);
    lemma_icon_fields_len(icons);
    lemma_shortfall_concat(chunk_fields(4), icon_fields(icons), m);
    if m >= 8 {
        let y = (FRAM@ + ic + e).take(m - 8);
        assert(FRAM@ + ic + e =~= FRAM@ + ic);
        assert((FRAM@ + ic).take(4) =~= FRAM@);
        assert((FRAM@ + ic).skip(4) =~= ic);
        lemma_trunc_expect(FRAM@ + ic, FRAM, m - 8);
        if m >= 12 {
            assert(ic.take(m - 12) == (FRAM@ + ic).skip(4).take(m - 12));
            lemma_frames_cut(icons, m - 12);
        }
    }
}

/// The fields of a grammar-ordered file without a metadata list, in reading order: the
/// signature (`RIFF`, size, `ACON`), the header chunk, the optional tables, the head of the
/// frame list (`LIST`, size, `fram`), then each `icon` chunk.
pub open spec fn grammar_fields(
    rates: Option<Seq<u8>>,
    sequence: Option<Seq<u8>>,
    icons: Seq<Seq<u8>>,
) -> Seq<nat> {
    chunk_fields(4) + body_fields(rates, sequence, icons)
}

/// The fields after the signature.
pub open spec fn body_fields(
    rates: Option<Seq<u8>>,
    sequence: Option<Seq<u8>>,
    icons: Seq<Seq<u8>>,
) -> Seq<nat> {
    chunk_fields(36) + (table_fields(rates) + (table_fields(sequence) + (chunk_fields(4)
        + icon_fields(icons))))
}

/// The fields of a frame list.
pub open spec fn list_fields(icons: Seq<Seq<u8>>) -> Seq<nat> {
    chunk_fields(4) + icon_fields(icons)
}

/// Strict decoding that has passed the header and fails in the tables or the frame list.
#[verifier::rlimit(60)]
proof fn lemma_cut_after_header(
    d: Seq<u8>,
    b0: Seq<u8>,
    hm: HeaderModel,
    rates: Option<Seq<u8>>,
    sequence: Option<Seq<u8>>,
    icons: Seq<Seq<u8>>,
    m: int,
)
    requires
        rates matches Some(b) ==> b.len() % 4 == 0 && b.len() <= u32::MAX,
        sequence matches Some(b) ==> b.len() % 4 == 0 && b.len() <= u32::MAX,
        payloads_ok(icons),
        4 + icon_chunks(icons).len() <= u32::MAX,
        hm.frames == icons.len(),
        0 <= m < (table_part(RATE, rates) + (table_part(SEQ, sequence) + sized_chunk(
            LIST,
            FRAM@ + icon_chunks(icons),
        ))).len(),
        crate::chunks::signature_spec(d) == Ok::<Seq<u8>, DecodeError>(b0),
        strict_info_spec(b0) == Ok::<(Option<MetadataModel>, Seq<u8>), DecodeError>((None, b0)),
        strict_header_spec(b0) == Ok::<(HeaderModel, Seq<u8>), DecodeError>(
            (
                hm,
                (table_part(RATE, rates) + (table_part(SEQ, sequence) + sized_chunk(
                    LIST,
                    FRAM@ + icon_chunks(icons),
                ))).take(m),
            ),
        ),
    ensures
        strict_spec(d) == Err::<AniModel, DecodeError>(
            DecodeError::NotEnoughBytes {
                needed: shortfall(
                    table_fields(rates) + (table_fields(sequence) + list_fields(icons)),
                    m,
                ) as usize,
            },
        ),
{
    let ic = icon_chunks(icons);
    let f = sized_chunk(LIST, FRAM@ + ic);
    let qf = table_part(SEQ, sequence) + f;
    let rqf = table_part(RATE, rates) + qf;
    let tr = table_fields(rates);
    let tq = table_fields(sequence);
    let lf = list_fields(icons);
    lemma_body_parts(Seq::empty(), rates, sequence, icons);
    lemma_cut_table(RATE, rates, qf, m);
    lemma_shortfall_concat(tr, tq + lf, m);
    let lr = fields_len(tr);
    if m >= lr {
        lemma_chunk_fields(4, m - lr);
        lemma_shortfall_concat(chunk_fields(4), icon_fields(icons), m - lr);
        if let Some(b) = sequence {
            lemma_chunk_fields(b.len(), m - lr);
        }
        lemma_shortfall_concat(tq, lf, m - lr);
    }
    if m < lr {
        lemma_fail_rates(d, b0, b0, hm, rqf.take(m), DecodeError::NotEnoughBytes {
            needed: shortfall(tr, m) as usize,
        });
    } else if rates is None && m < lr + 4 {
        lemma_fail_rates(d, b0, b0, hm, rqf.take(m), DecodeError::NotEnoughBytes {
            needed: (4 - m) as usize,
        });
    } else {
        let m2 = m - lr;
        let s3 = qf.take(m2);
        assert(strict_table_spec(rqf.take(m), RATE) == Ok::<
            (Option<Seq<u32>>, Seq<u8>),
            DecodeError,
        >((crate::laws::tables_of(rates), s3)));
        lemma_cut_table(SEQ, sequence, f, m2);
        let lq = fields_len(tq);
        lemma_shortfall_concat(tq, lf, m2);
        if m2 >= lq {
            lemma_chunk_fields(4, m2 - lq);
        }
        if m2 < lq {
            lemma_fail_seq(d, b0, b0, hm, rqf.take(m), crate::laws::tables_of(rates), s3,
                DecodeError::NotEnoughBytes { needed: shortfall(tq, m2) as usize });
        } else if sequence is None && m2 < lq + 4 {
            lemma_fail_seq(d, b0, b0, hm, rqf.take(m), crate::laws::tables_of(rates), s3,
                DecodeError::NotEnoughBytes { needed: (4 - m2) as usize });
        } else {
            let m3 = m2 - lq;
            assert(strict_table_spec(s3, SEQ) == Ok::<
                (Option<Seq<u32>>, Seq<u8>),
                DecodeError,
            >((crate::laws::tables_of(sequence), f.take(m3))));
            lemma_cut_frame_list(icons, m3);
            lemma_fail_frames(d, b0, b0, hm, rqf.take(m), crate::laws::tables_of(rates), s3,
                crate::laws::tables_of(sequence), f.take(m3), DecodeError::NotEnoughBytes {
                    needed: shortfall(lf, m3) as usize,
                });
        }
    }
}

/// Strict decoding of a grammar-ordered file cut inside its body, `m` bytes after the
/// signature.
#[verifier::rlimit(40)]
proof fn lemma_cut_body_of_file(
    d: Seq<u8>,
    record: Seq<u8>,
    rates: Option<Seq<u8>>,
    sequence: Option<Seq<u8>>,
    icons: Seq<Seq<u8>>,
    m: int,
)
    requires
        record.len() == 36,
        rates matches Some(b) ==> b.len() % 4 == 0 && b.len() <= u32::MAX,
        sequence matches Some(b) ==> b.len() % 4 == 0 && b.len() <= u32::MAX,
        payloads_ok(icons),
        4 + icon_chunks(icons).len() <= u32::MAX,
        crate::header::header_model(record, 0).frames == icons.len(),
        0 <= m < crate::laws::grammar_body(record, rates, sequence, icons).len(),
        crate::chunks::signature_spec(d) == Ok::<Seq<u8>, DecodeError>(
            crate::laws::grammar_body(record, rates, sequence, icons).take(m),
        ),
    ensures
        strict_spec(d) == Err::<AniModel, DecodeError>(
            DecodeError::NotEnoughBytes {
                needed: shortfall(body_fields(rates, sequence, icons), m) as usize,
            },
        ),
{
    let ic = icon_chunks(icons);
    let rqf = table_part(RATE, rates) + (table_part(SEQ, sequence) + sized_chunk(
        LIST,
        FRAM@ + ic,
    ));
    let b0 = crate::laws::grammar_body(record, rates, sequence, icons).take(m);
    lemma_body_parts(record, rates, sequence, icons);
    lemma_chunk_fields(36, m);
    lemma_shortfall_concat(
        chunk_fields(36),
        table_fields(rates) + (table_fields(sequence) + list_fields(icons)),
        m,
    );
    lemma_cut_info(record, rqf, m);
    if m < 4 {
        lemma_fail_info(d, b0, DecodeError::NotEnoughBytes { needed: (4 - m) as usize });
    } else {
        lemma_cut_anih(record, rqf, m);
        let hm = crate::header::header_model(record, 0);
        if m < 44 {
            lemma_fail_header(d, b0, b0, DecodeError::NotEnoughBytes {
                needed: shortfall(chunk_fields(36), m) as usize,
            });
        } else {
            lemma_cut_after_header(d, b0, hm, rates, sequence, icons, m - 44);
        }
    }
}

/// A grammar-ordered file without a metadata list, whose `icon` payloads are well-formed and
/// whose header declares as many frames as there are payloads, cut after `k` bytes: strict
/// decoding fails with `NotEnoughBytes`, and `needed` is the number of bytes missing to
/// complete the field in which the cut falls. This holds for every cut before the declared
/// container size is reached at offset 8, and for every cut at or after `8 + riff`; a cut
/// between the two fails the size check of the signature instead (`SizeMismatch`).
pub proof fn lemma_strict_truncation(
    riff: u32,
    record: Seq<u8>,
    rates: Option<Seq<u8>>,
    sequence: Option<Seq<u8>>,
    icons: Seq<Seq<u8>>,
    k: int,
)
    requires
        crate::laws::grammar_fits(riff, record, rates, sequence, icons),
        payloads_ok(icons),
        crate::header::header_model(record, 0).frames == icons.len(),
        0 <= k < crate::laws::grammar_file(riff, record, rates, sequence, icons).len(),
        k < 8 || k >= 8 + riff,
    ensures
        strict_spec(crate::laws::grammar_file(riff, record, rates, sequence, icons).take(k))
            == Err::<AniModel, DecodeError>(
            DecodeError::NotEnoughBytes {
                needed: shortfall(grammar_fields(rates, sequence, icons), k) as usize,
            },
        ),
{
    let d = crate::laws::grammar_file(riff, record, rates, sequence, icons);
    let body = crate::laws::grammar_body(record, rates, sequence, icons);
    let dk = d.take(k);
    lemma_chunk_fields(4, k);
    lemma_shortfall_concat(chunk_fields(4), body_fields(rates, sequence, icons), k);
    assert(d.take(4) =~= RIFF@);
    lemma_trunc_expect(d, RIFF, k);
    if k < 4 {
        lemma_fail_sig(dk, DecodeError::NotEnoughBytes { needed: (4 - k) as usize });
    } else {
        let d4 = d.skip(4);
        assert(d4 =~= u32_bytes(riff) + (ACON@ + body));
        lemma_u32_bytes(riff);
        assert(le_u32(d4, 0) == le_u32(u32_bytes(riff), 0));
        lemma_trunc_size(d4, k - 4);
        if k < 8 {
            lemma_fail_sig(dk, DecodeError::NotEnoughBytes { needed: (8 - k) as usize });
        } else {
            let d8 = d4.skip(4);
            assert(d8 =~= ACON@ + body);
            assert(d8.take(4) =~= ACON@);
            assert(d8.skip(4) =~= body);
            lemma_trunc_expect(d8, ACON, k - 8);
            assert(crate::chunks::signature_spec(dk) == expect_id_spec(d8.take(k - 8), ACON));
            if k < 12 {
                lemma_fail_sig(dk, DecodeError::NotEnoughBytes { needed: (12 - k) as usize });
            } else {
                lemma_cut_body_of_file(dk, record, rates, sequence, icons, k - 12);
            }
        }
    }
}

} // verus!
