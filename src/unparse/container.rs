//! Writing chunk payloads by kind, the chunk container, and whole files.

use vstd::prelude::*;
use crate::data::chunks::{Chunk, RawChunkView, chunk_tag, tag_main};
use crate::parse::chunk::{spec_raw_chunk, spec_children, spec_file_raw};
use crate::parse::error::VoxErrorKind;
use crate::unparse::helpers::lemma_u32_round_trip;
use crate::data::custom::VoxScene;
use crate::convert::{from_custom, scene_fits};
use crate::parse::chunk::magic;
use crate::unparse::helpers::{le_u32, u32_le_bytes};
use crate::unparse::payload::{chunk_pack, chunk_size, chunk_xyzi, chunk_rgba, chunk_matt, chunk_ntrn,
    chunk_ngrp, chunk_nshp, chunk_matl, chunk_layr, pack_bytes, size_bytes, xyzi_bytes, rgba_bytes,
    matt_bytes, ntrn_bytes, ngrp_bytes, nshp_bytes, layr_bytes, matl_written, writes_any};

verus! {

/// `b` is a payload for the chunk `c`, with `MATL` floats written by
/// `write_f32`.
pub open spec fn chunk_written<G: Fn(u32) -> String>(write_f32: G, c: Chunk, b: Seq<u8>) -> bool {
    match c {
        Chunk::PACK(n) => b == pack_bytes(n),
        Chunk::SIZE(s) => b == size_bytes(s),
        Chunk::XYZI(v) => b == xyzi_bytes(v@),
        Chunk::RGBA(v) => b == rgba_bytes(v@),
        Chunk::MATT(m) => b == matt_bytes(m),
        Chunk::NTRN(t) => b == ntrn_bytes(t),
        Chunk::NGRP(g) => b == ngrp_bytes(g),
        Chunk::NSHP(s) => b == nshp_bytes(s),
        Chunk::MATL(m) => matl_written(write_f32, m, b),
        Chunk::LAYR(l) => b == layr_bytes(l),
    }
}

/// Writes the payload of the given chunk.
pub fn chunk<G: Fn(u32) -> String>(dst: &mut Vec<u8>, c: &Chunk, write_f32: &G)
    requires
        writes_any(*write_f32),
    ensures
        final(dst)@.subrange(0, old(dst)@.len() as int) == old(dst)@,
        chunk_written(*write_f32, *c, final(dst)@.subrange(old(dst)@.len() as int, final(dst)@.len() as int)),
{
    let ghost start = dst@;
    match c {
        Chunk::PACK(n) => {
            chunk_pack(dst, n);
            assert(dst@.subrange(start.len() as int, dst@.len() as int) =~= pack_bytes(*n));
        },
        Chunk::SIZE(v) => {
            chunk_size(dst, v);
            assert(dst@.subrange(start.len() as int, dst@.len() as int) =~= size_bytes(*v));
        },
        Chunk::XYZI(v) => {
            chunk_xyzi(dst, v);
            assert(dst@.subrange(start.len() as int, dst@.len() as int) =~= xyzi_bytes(v@));
        },
        Chunk::RGBA(v) => {
            chunk_rgba(dst, v);
            assert(dst@.subrange(start.len() as int, dst@.len() as int) =~= rgba_bytes(v@));
        },
        Chunk::MATT(m) => {
            chunk_matt(dst, m);
            assert(dst@.subrange(start.len() as int, dst@.len() as int) =~= matt_bytes(*m));
        },
        Chunk::NTRN(t) => {
            chunk_ntrn(dst, t);
            assert(dst@.subrange(start.len() as int, dst@.len() as int) =~= ntrn_bytes(*t));
        },
        Chunk::NGRP(g) => {
            chunk_ngrp(dst, g);
            assert(dst@.subrange(start.len() as int, dst@.len() as int) =~= ngrp_bytes(*g));
        },
        Chunk::NSHP(v) => {
            chunk_nshp(dst, v);
            assert(dst@.subrange(start.len() as int, dst@.len() as int) =~= nshp_bytes(*v));
        },
        Chunk::MATL(m) => {
            chunk_matl(dst, m, write_f32);
        },
        Chunk::LAYR(l) => {
            chunk_layr(dst, l);
            assert(dst@.subrange(start.len() as int, dst@.len() as int) =~= layr_bytes(*l));
        },
    }
    assert(dst@.subrange(0, start.len() as int) =~= start);
}

/// A chunk container: tag, payload length, children length, payload,
/// children (lengths as `u32`).
pub open spec fn raw_bytes(tag: Seq<u8>, payload: Seq<u8>, children: Seq<u8>) -> Seq<u8> {
    tag + u32_le_bytes(payload.len() as u32) + u32_le_bytes(children.len() as u32) + payload + children
}

/// Writes a chunk container.
pub fn raw_chunk(dst: &mut Vec<u8>, tag: &[u8; 4], payload: &[u8], children: &[u8])
    ensures
        final(dst)@ == old(dst)@ + raw_bytes(tag@, payload@, children@),
{
    push_all(dst, tag.as_slice());
    le_u32(dst, payload.len() as u32);
    le_u32(dst, children.len() as u32);
    push_all(dst, payload);
    push_all(dst, children);
    assert(final(dst)@ =~= old(dst)@ + raw_bytes(tag@, payload@, children@));
}

/// Appends bytes.
fn push_all(dst: &mut Vec<u8>, b: &[u8])
    ensures
        final(dst)@ == old(dst)@ + b@,
{
    let ghost start = dst@;
    let mut i: usize = 0;
    while i < b.len()
        invariant
            i <= b@.len(),
            dst@ == start + b@.subrange(0, i as int),
        decreases b@.len() - i,
    {
        dst.push(b[i]);
        i += 1;
        assert(dst@ =~= start + b@.subrange(0, i as int));
    }
    assert(b@.subrange(0, b@.len() as int) =~= b@);
}

/// The containers of chunks with the given tags and payloads, back to back.
pub open spec fn containers(tags: Seq<Seq<u8>>, payloads: Seq<Seq<u8>>) -> Seq<u8>
    decreases payloads.len(),
{
    if payloads.len() == 0 {
        Seq::empty()
    } else {
        containers(tags.drop_last(), payloads.drop_last()) + raw_bytes(tags.last(), payloads.last(), Seq::empty())
    }
}

/// A file: the magic, version 150, and a `MAIN` chunk without payload whose
/// children are the given chunks.
pub open spec fn file_bytes(tags: Seq<Seq<u8>>, payloads: Seq<Seq<u8>>) -> Seq<u8> {
    magic() + u32_le_bytes(150) + raw_bytes(tag_main(), Seq::empty(), containers(tags, payloads))
}

/// `b` is a file of the chunks `cs`, each with a payload that
/// [`chunk_written`] allows.
pub open spec fn file_written<G: Fn(u32) -> String>(write_f32: G, cs: Seq<Chunk>, b: Seq<u8>) -> bool {
    exists|payloads: Seq<Seq<u8>>| #[trigger] payloads.len() == cs.len()
        && (forall|i: int| 0 <= i < cs.len() ==> chunk_written(write_f32, cs[i], #[trigger] payloads[i]))
        && b == file_bytes(cs.map_values(|c: Chunk| chunk_tag(c)), payloads)
}

/// Writes a complete `.vox` file of the given chunks. Neither the chunks nor
/// their order are checked.
pub fn file_raw<G: Fn(u32) -> String>(chunks: &Vec<Chunk>, write_f32: &G) -> (r: Vec<u8>)
    requires
        writes_any(*write_f32),
    ensures
        file_written(*write_f32, chunks@, r@),
{
    let ghost tags = chunks@.map_values(|c: Chunk| chunk_tag(c));
    let mut main_children: Vec<u8> = Vec::new();
    let ghost mut payloads: Seq<Seq<u8>> = Seq::empty();
    let mut i: usize = 0;
    while i < chunks.len()
        invariant
            i <= chunks@.len(),
            writes_any(*write_f32),
            tags == chunks@.map_values(|c: Chunk| chunk_tag(c)),
            payloads.len() == i,
            forall|k: int| 0 <= k < i ==> chunk_written(*write_f32, chunks@[k], #[trigger] payloads[k]),
            main_children@ == containers(tags.subrange(0, i as int), payloads),
        decreases chunks@.len() - i,
    {
        let c = &chunks[i];
        let mut payload: Vec<u8> = Vec::new();
        chunk(&mut payload, c, write_f32);
        let tag = c.tag();
        let none: Vec<u8> = Vec::new();
        raw_chunk(&mut main_children, &tag, payload.as_slice(), none.as_slice());
        proof {
            assert(payload@.subrange(0, payload@.len() as int) =~= payload@);
            let np = payloads.push(payload@);
            assert(np.drop_last() =~= payloads);
            assert(tags.subrange(0, i + 1).drop_last() =~= tags.subrange(0, i as int));
            assert(tags.subrange(0, i + 1).last() == tag@);
            payloads = np;
        }
        i += 1;
    }
    let mut dst: Vec<u8> = Vec::new();
    dst.push(86);
    dst.push(79);
    dst.push(88);
    dst.push(32);
    le_u32(&mut dst, 150);
    let main_tag: [u8; 4] = [77, 65, 73, 78];
    let none: Vec<u8> = Vec::new();
    raw_chunk(&mut dst, &main_tag, none.as_slice(), main_children.as_slice());
    proof {
        assert(tags.subrange(0, chunks@.len() as int) =~= tags);
        assert(main_tag@ =~= tag_main());
        assert(dst@ =~= file_bytes(tags, payloads));
    }
    dst
}

/// Writes a scene as a `.vox` file: its chunks ([`from_custom`]) in a file
/// ([`file_raw`]).
pub fn file_custom<G: Fn(u32) -> String>(scene: &VoxScene, write_f32: &G) -> (r: Vec<u8>)
    requires
        scene_fits(*scene),
        writes_any(*write_f32),
    ensures
        exists|cs: Seq<Chunk>| crate::convert::chunks_view(cs) == crate::convert::spec_flatten(crate::convert::scene_view(*scene))
            && #[trigger] file_written(*write_f32, cs, r@),
{
    let chunks = from_custom(scene);
    let r = file_raw(&chunks, write_f32);
    assert(file_written(*write_f32, chunks@, r@));
    r
}

/// Chunks without children, with the given tags and payloads.
pub open spec fn leaf_views(tags: Seq<Seq<u8>>, payloads: Seq<Seq<u8>>) -> Seq<RawChunkView> {
    Seq::new(payloads.len(), |i: int| RawChunkView { tag: tags[i], payload: payloads[i], children: Seq::empty() })
}

/// One four-byte tag per payload, and every payload's length fits a `u32`.
pub open spec fn framing_fits(tags: Seq<Seq<u8>>, payloads: Seq<Seq<u8>>) -> bool {
    &&& tags.len() == payloads.len()
    &&& forall|i: int| 0 <= i < tags.len() ==> #[trigger] tags[i].len() == 4 && payloads[i].len() <= u32::MAX
}

/// The containers, split after the first one.
proof fn lemma_containers_front(tags: Seq<Seq<u8>>, payloads: Seq<Seq<u8>>)
    requires
        payloads.len() > 0,
        tags.len() == payloads.len(),
    ensures
        containers(tags, payloads) == raw_bytes(tags[0], payloads[0], Seq::empty())
            + containers(tags.drop_first(), payloads.drop_first()),
    decreases payloads.len(),
{
    if payloads.len() == 1 {
        assert(payloads.drop_last().len() == 0);
        assert(payloads.drop_first().len() == 0);
        assert(containers(tags.drop_first(), payloads.drop_first()) == Seq::<u8>::empty());
        assert(containers(tags.drop_last(), payloads.drop_last()) == Seq::<u8>::empty());
        assert(raw_bytes(tags[0], payloads[0], Seq::empty()) + Seq::<u8>::empty()
            =~= raw_bytes(tags[0], payloads[0], Seq::empty()));
        assert(Seq::<u8>::empty() + raw_bytes(tags[0], payloads[0], Seq::empty())
            =~= raw_bytes(tags[0], payloads[0], Seq::empty()));
    } else {
        let (t, p) = (tags.drop_last(), payloads.drop_last());
        lemma_containers_front(t, p);
        assert(t.drop_first() =~= tags.drop_first().drop_last());
        assert(p.drop_first() =~= payloads.drop_first().drop_last());
        assert(tags.drop_first().last() == tags.last());
        assert(payloads.drop_first().last() == payloads.last());
        assert(t[0] == tags[0] && p[0] == payloads[0]);
        assert(containers(tags, payloads) =~= raw_bytes(tags[0], payloads[0], Seq::empty())
            + containers(tags.drop_first(), payloads.drop_first()));
    }
}

/// A container without children, whatever follows it, reads back as its tag
/// and payload.
proof fn lemma_raw_leaf(tag: Seq<u8>, payload: Seq<u8>, rest: Seq<u8>)
    requires
        tag.len() == 4,
        payload.len() <= u32::MAX,
    ensures
        spec_raw_chunk(None, raw_bytes(tag, payload, Seq::empty()) + rest)
            == Ok::<(RawChunkView, int), VoxErrorKind>((RawChunkView { tag, payload, children: Seq::empty() }, 12 + payload.len() as int)),
{
    let w = raw_bytes(tag, payload, Seq::empty());
    let s = w + rest;
    let n = payload.len() as int;
    assert(w.len() == 12 + n);
    assert(s.subrange(0, 4) =~= tag);
    assert(s.subrange(4, 8) =~= u32_le_bytes(n as u32));
    lemma_u32_round_trip(s, 4, n as u32);
    assert(s.subrange(8, 12) =~= u32_le_bytes(0));
    lemma_u32_round_trip(s, 8, 0);
    assert(s.subrange(12, 12 + n) =~= payload);
    assert(s.subrange(12 + n, 12 + n) =~= Seq::<u8>::empty());
}

/// Containers without children, back to back, read back as their tags and
/// payloads, in order.
#[verifier::spinoff_prover]
#[verifier::rlimit(80)]
proof fn lemma_children_leaves(tags: Seq<Seq<u8>>, payloads: Seq<Seq<u8>>)
    requires
        framing_fits(tags, payloads),
    ensures
        spec_children(containers(tags, payloads)) == Ok::<Seq<RawChunkView>, VoxErrorKind>(leaf_views(tags, payloads)),
    decreases payloads.len(),
{
    if payloads.len() == 0 {
        assert(leaf_views(tags, payloads) =~= Seq::<RawChunkView>::empty());
    } else {
        lemma_containers_front(tags, payloads);
        let (t, p) = (tags.drop_first(), payloads.drop_first());
        assert(framing_fits(t, p)) by {
            assert forall|i: int| 0 <= i < t.len() implies #[trigger] t[i].len() == 4 && p[i].len() <= u32::MAX by {
                assert(t[i] == tags[i + 1] && p[i] == payloads[i + 1]);
            }
        }
        assert(tags[0].len() == 4 && payloads[0].len() <= u32::MAX);
        let rest = containers(t, p);
        let whole = containers(tags, payloads);
        lemma_raw_leaf(tags[0], payloads[0], rest);
        let n0 = 12 + payloads[0].len();
        assert(whole.subrange(n0 as int, whole.len() as int) =~= rest);
        assert(whole.len() > 0);
        lemma_children_leaves(t, p);
        assert(leaf_views(tags, payloads) =~= seq![RawChunkView { tag: tags[0], payload: payloads[0], children: Seq::empty() }]
            + leaf_views(t, p));
    }
}

/// Reading a written file gives back each chunk's tag and payload, in order,
/// and uses up the whole file.
#[verifier::spinoff_prover]
#[verifier::rlimit(100)]
pub proof fn lemma_file_round_trip(tags: Seq<Seq<u8>>, payloads: Seq<Seq<u8>>)
    requires
        framing_fits(tags, payloads),
        containers(tags, payloads).len() <= u32::MAX,
    ensures
        spec_file_raw(file_bytes(tags, payloads))
            == Ok::<(Seq<RawChunkView>, int), VoxErrorKind>((leaf_views(tags, payloads), file_bytes(tags, payloads).len() as int)),
{
    let c = containers(tags, payloads);
    let f = file_bytes(tags, payloads);
    let main = raw_bytes(tag_main(), Seq::empty(), c);
    assert(f.subrange(0, 4) =~= magic());
    assert(f.subrange(4, 8) =~= u32_le_bytes(150));
    lemma_u32_round_trip(f, 4, 150);
    let s = f.subrange(8, f.len() as int);
    assert(s =~= main);
    assert(s.subrange(0, 4) =~= tag_main());
    assert(s.subrange(4, 8) =~= u32_le_bytes(0));
    lemma_u32_round_trip(s, 4, 0);
    assert(s.subrange(8, 12) =~= u32_le_bytes(c.len() as u32));
    lemma_u32_round_trip(s, 8, c.len() as u32);
    assert(s.subrange(12, 12 + c.len() as int) =~= c);
    assert(s.subrange(12, 12) =~= Seq::<u8>::empty());
    lemma_children_leaves(tags, payloads);
}

} // verus!
