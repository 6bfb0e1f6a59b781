//! Members that hold no other structure come back.

use vstd::prelude::*;

use crate::meta_schema::{MetaType, MetaView, Read};
use crate::meta_write::{
    B_BYTE, B_STRING, T_BYTE_ARRAY, T_CHAR_ARRAY, T_CHAR_PTR, T_DATA_BLOCK_PTR, T_STRUCT, T_STRUCT_PTR,
    T_ARRAY,
};
use crate::pso_write::{BuildState, Context};
use crate::schema::{MetaEntryDef, MetaStructDefView};
use crate::value::ValueView;
use crate::warning::Warning;

verus! {

broadcast use crate::bytes::group_subrange_reads;

/// A file, and what its writer put together.
pub struct World {
    pub f: MetaView,
    pub c: Context,
    pub end: BuildState,
}

impl World {
    /// Whether the file shows what was put together.
    pub open spec fn shown(self) -> bool {
        crate::meta_laws::fits::shows(self.f, self.c, self.end)
    }

    /// Whether some bytes stand at a place in a block.
    pub open spec fn has(self, block: int, off: int, bytes: Seq<u8>) -> bool {
        &&& 0 <= block < self.f.blocks.len()
        &&& 0 <= off
        &&& off + bytes.len() <= self.f.blocks[block].data.len()
        &&& self.f.blocks[block].data.len() <= u32::MAX
        &&& self.f.blocks[block].data.subrange(off, off + bytes.len()) == bytes
    }
}

pub proof fn lemma_has(w: World, st: BuildState, block: int, off: int, name: u32, bytes: Seq<u8>)
    requires
        w.shown(),
        crate::meta_laws::grow::stands(st, block, off, name, bytes),
        crate::meta_laws::grow::grows(st, w.end),
    ensures
        w.has(block, off, bytes),
        w.f.blocks[block].name_hash == name,
        crate::meta_block::pointed(crate::meta_write::pointer(block, off)) == Some((block, off)),
{
    crate::meta_laws::grow::lemma_stands_on(st, w.end, block, off, name, bytes);
    lemma_pointer(block, off);
    assert(w.f.blocks[block].name_hash == w.end.blocks[block].0);
}

proof fn lemma_pointer(block: int, off: int)
    requires
        0 <= block < 0xFFF,
        0 <= off < 0x4000,
    ensures
        crate::meta_block::pointed(crate::meta_write::pointer(block, off)) == Some((block, off)),
{
    let raw = crate::meta_write::pointer(block, off);
    assert(raw == block + 1 + 0x1000 * off);
    assert(raw % 0x1000 == block + 1);
    assert(raw / 0x1000 == off);
}

/// A part of what stands at a place stands there too.
pub proof fn lemma_has_part(w: World, block: int, off: int, bytes: Seq<u8>, a: int, b: int)
    requires
        w.has(block, off, bytes),
        0 <= a <= b <= bytes.len(),
    ensures
        w.has(block, off + a, bytes.subrange(a, b)),
{
    let data = w.f.blocks[block].data;
    assert(data.subrange(off + a, off + b) =~= data.subrange(off, off + bytes.len()).subrange(
        a,
        b,
    ));
}

proof fn lemma_nul_end(s: Seq<u8>, i: int, n: int)
    requires
        0 <= i <= n <= s.len(),
        n == s.len() || s[n] == 0,
        forall|j: int| i <= j < n ==> #[trigger] s[j] != 0,
    ensures
        crate::text::nul_end(s, i) == n,
    decreases n - i,
{
    if i < n {
        lemma_nul_end(s, i + 1, n);
    }
}

/// A text comes back from bytes that start with it.
pub proof fn lemma_text(s: Seq<u8>, v: ValueView)
    requires
        crate::meta_laws::fits::fits_text(v, s.len() as int),
        ({
            let b = vstd::utf8::encode_utf8(v->Str_0);
            &&& s.subrange(0, b.len() as int) == b
            &&& b.len() == s.len() || s[b.len() as int] == 0
        }),
    ensures
        crate::text::nul_text(s) == v->Str_0,
{
    let b = vstd::utf8::encode_utf8(v->Str_0);
    let n = b.len() as int;
    assert forall|j: int| 0 <= j < n implies #[trigger] s[j] != 0 by {
        assert(s.subrange(0, n)[j] == s[j]);
        assert(b[j] != 0);
    }
    lemma_nul_end(s, 0, n);
    assert(s.take(n) =~= b);
    crate::text::law_text_round_trip(v->Str_0);
}

pub proof fn lemma_text_empty(t: Seq<char>)
    ensures
        vstd::utf8::encode_utf8(t).len() == 0 <==> t.len() == 0,
{
    let none = Seq::<char>::empty();
    crate::text::law_text_round_trip(t);
    crate::text::law_text_round_trip(none);
    assert(vstd::utf8::encode_utf8(none).len() == 0);
    if t.len() == 0 {
        assert(t =~= none);
    }
    if vstd::utf8::encode_utf8(t).len() == 0 {
        assert(vstd::utf8::encode_utf8(t) =~= vstd::utf8::encode_utf8(none));
    }
}

/// A member that is written and read: by what, into what, and where.
pub struct Spot {
    pub w: World,
    pub def: MetaStructDefView,
    pub e: MetaEntryDef,
    pub elem: Option<MetaEntryDef>,
    pub last: Option<int>,
    pub v: ValueView,
    pub buf: Seq<u8>,
    pub st: BuildState,
    pub fuel: nat,
    pub block: int,
    pub abs: u64,
    pub depth: nat,
}

/// An element descriptor as a file has it.
pub open spec fn info_elem(elem: Option<MetaEntryDef>) -> Option<crate::meta_schema::MetaEntryInfo> {
    match elem {
        Some(x) => Some(crate::meta_laws::fits::info_entry(x)),
        None => None,
    }
}

impl Spot {
    #[verifier::opaque]
    pub open spec fn after(self) -> (Seq<u8>, BuildState) {
        crate::meta_write::write_member(
            self.w.c,
            self.def,
            self.e,
            self.elem,
            Some(self.v),
            self.buf,
            self.st,
            self.fuel,
        )
    }

    pub open spec fn off(self) -> int {
        self.e.offset as int
    }

    pub open spec fn room(self) -> int {
        crate::meta_laws::fits::room(self.w.c.schema, self.e, self.elem)
    }

    /// The bytes of the member, once it is written.
    pub open spec fn slot(self) -> Seq<u8> {
        self.after().0.subrange(self.off(), self.off() + self.room())
    }

    pub open spec fn ready(self) -> bool {
        &&& self.w.shown()
        &&& self.st.blocks.len() > 0
        &&& crate::meta_laws::grow::grows(self.after().1, self.w.end)
        &&& 0 <= self.room()
        &&& self.off() + self.room() <= self.buf.len()
        &&& self.buf.subrange(self.off(), self.off() + self.room()) == crate::bytes::zeros(
            self.room(),
        )
        &&& self.w.has(self.block, self.abs as int, self.slot())
        &&& crate::meta_laws::fits::fits_member(
            self.w.f,
            self.w.c.schema,
            self.e,
            self.elem,
            self.v,
            self.depth,
        )
        &&& crate::meta_schema::element_of(
            crate::meta_laws::fits::info_of(self.def),
            crate::meta_laws::fits::info_entry(self.e),
            self.last,
        ) == info_elem(self.elem)
    }

    pub open spec fn read(self) -> Read {
        crate::meta_schema::read_member(
            self.w.f,
            crate::meta_laws::fits::info_of(self.def),
            crate::meta_laws::fits::info_entry(self.e),
            self.last,
            self.block,
            self.abs,
            self.depth,
        )
    }
}

proof fn lemma_splice_at(buf: Seq<u8>, off: int, b: Seq<u8>, room: int)
    requires
        0 <= off,
        b.len() <= room,
        off + room <= buf.len(),
        buf.subrange(off, off + room) == crate::bytes::zeros(room),
    ensures
        crate::bytes::splice(buf, off, b).subrange(off, off + room) == b + crate::bytes::zeros(
            room - b.len(),
        ),
{
    let out = crate::bytes::splice(buf, off, b);
    let want = b + crate::bytes::zeros(room - b.len());
    assert forall|j: int| 0 <= j < room implies out.subrange(off, off + room)[j]
        == #[trigger] want[j] by {
        if j >= b.len() {
            assert(buf.subrange(off, off + room)[j] == buf[off + j]);
        }
    }
    assert(out.subrange(off, off + room) =~= want);
}

proof fn lemma_plain_spot(p: Spot)
    requires
        p.ready(),
        crate::meta_laws::fits::fits_plain(p.w.f, p.e.ty, p.e.ref_key, p.v),
        p.e.ty != T_CHAR_ARRAY && p.e.ty != T_BYTE_ARRAY && p.e.ty != T_CHAR_PTR && p.e.ty
            != T_DATA_BLOCK_PTR && p.e.ty != T_STRUCT_PTR && p.e.ty != T_STRUCT && p.e.ty
            != T_ARRAY,
    ensures
        p.read() == crate::meta_schema::plain(p.v),
{
    reveal(Spot::after);
    crate::meta_laws::scalars::lemma_plain(p.w.f, p.w.c, p.e, p.v);
    let b = crate::meta_write::plain_bytes(p.w.c, p.e, p.v)->0;
    lemma_splice_at(p.buf, p.off(), b, p.room());
    assert(b + crate::bytes::zeros(0) =~= b);
    assert(p.slot() == b);
}

proof fn lemma_char_array_spot(p: Spot)
    requires
        p.ready(),
        p.e.ty == T_CHAR_ARRAY,
    ensures
        p.read() == crate::meta_schema::plain(p.v),
{
    reveal(Spot::after);
    let t = p.v->Str_0;
    let b = vstd::utf8::encode_utf8(t);
    let n = p.e.ref_key as int;
    assert(crate::pso_write::buffer_text(t, n) =~= b);
    lemma_splice_at(p.buf, p.off(), b, n);
    let slot = p.slot();
    assert(slot == b + crate::bytes::zeros(n - b.len()));
    assert(slot.subrange(0, b.len() as int) =~= b);
    lemma_text(slot, p.v);
}

proof fn lemma_bytes_spot(p: Spot)
    requires
        p.ready(),
        p.e.ty == T_BYTE_ARRAY,
        crate::meta_laws::fits::raw_elements(p.elem),
    ensures
        p.read() == crate::meta_schema::plain(p.v),
{
    reveal(Spot::after);
    let b = p.v->Bytes_0;
    let n = p.e.ref_key as int;
    assert(crate::meta_write::stride_of(p.elem) == 1);
    assert(p.room() == n);
    lemma_splice_at(p.buf, p.off(), b, n);
    assert(b.take(n) =~= b);
    assert(b + crate::bytes::zeros(0) =~= b);
    assert(p.slot() == b);
}

/// What a member becomes that holds raw bytes elsewhere.
proof fn lemma_data_after(p: Spot)
    requires
        p.e.ty == T_DATA_BLOCK_PTR,
        p.v is Bytes,
        p.off() + 8 <= p.buf.len(),
    ensures
        p.v->Bytes_0.len() == 0 ==> p.after() == (p.buf, p.st),
        p.v->Bytes_0.len() > 0 ==> ({
            let r = crate::meta_write::add_data_block(p.st, p.v->Bytes_0);
            p.after() == (
                crate::bytes::splice(p.buf, p.off(), crate::bytes::le64_bytes(r.1)),
                r.0,
            )
        }),
{
    reveal(Spot::after);
}

/// A block of raw bytes that nothing was appended to is found in the file.
proof fn lemma_data_block(w: World, st: BuildState, bytes: Seq<u8>)
    requires
        w.shown(),
        bytes.len() > 0,
        crate::meta_laws::fits::fits_data(w.f, bytes),
        crate::meta_laws::grow::grows(crate::meta_write::add_data_block(st, bytes).0, w.end),
    ensures
        ({
            let n = st.blocks.len() as int;
            &&& n < w.f.blocks.len()
            &&& w.f.blocks[n].data == bytes
            &&& crate::meta_block::pointed(crate::meta_write::add_data_block(st, bytes).1) == Some(
                (n, 0int),
            )
        }),
{
    let n = st.blocks.len() as int;
    let after = crate::meta_write::add_data_block(st, bytes).0;
    assert(after.blocks[n] == (B_BYTE, bytes));
    assert(w.end.blocks[n].0 == B_BYTE);
    assert(w.f.blocks[n].name_hash == B_BYTE && w.f.blocks[n].data == w.end.blocks[n].1);
    lemma_pointer(n, 0);
}

proof fn lemma_data_spot(p: Spot)
    requires
        p.ready(),
        p.e.ty == T_DATA_BLOCK_PTR,
    ensures
        p.read() == crate::meta_schema::plain(p.v),
{
    lemma_data_after(p);
    let bytes = p.v->Bytes_0;
    if bytes.len() == 0 {
        let z = crate::bytes::zeros(8);
        assert(p.slot() =~= z);
        lemma_zero_pointer(z);
        assert(bytes =~= Seq::<u8>::empty());
    } else {
        let r = crate::meta_write::add_data_block(p.st, bytes);
        let b = crate::bytes::le64_bytes(r.1);
        lemma_data_block(p.w, p.st, bytes);
        lemma_splice_at(p.buf, p.off(), b, 8);
        crate::bytes::law_u64_round_trip(r.1);
        assert(b + crate::bytes::zeros(0) =~= b);
        assert(p.slot() == b);
    }
}

pub proof fn lemma_zero_pointer(z: Seq<u8>)
    requires
        z.len() >= 8,
        forall|i: int| 0 <= i < 8 ==> #[trigger] z[i] == 0,
    ensures
        crate::bytes::le64(z, 0) == 0,
        crate::meta_block::pointed(crate::bytes::le64(z, 0)) is None,
{
    assert(z[0] == 0 && z[1] == 0 && z[2] == 0 && z[3] == 0);
    assert(z[4] == 0 && z[5] == 0 && z[6] == 0 && z[7] == 0);
}

/// What a counted pointer says, written over zeros.
pub proof fn lemma_counted(buf: Seq<u8>, off: int, ptr: u64, count: int)
    requires
        0 <= off,
        off + 16 <= buf.len(),
        0 <= count <= 0xFFFF,
    ensures
        ({
            let out = crate::meta_write::put_counted(buf, off, ptr, count);
            let slot = out.subrange(off, off + 16);
            &&& crate::bytes::le64(slot, 0) == ptr
            &&& crate::bytes::le16(slot, 8) == count
            &&& crate::bytes::le16(slot, 10) == count
        }),
{
    let out = crate::meta_write::put_counted(buf, off, ptr, count);
    let slot = out.subrange(off, off + 16);
    assert(slot.subrange(0, 8) =~= crate::bytes::le64_bytes(ptr));
    assert(slot.subrange(8, 10) =~= crate::bytes::le16_bytes(count as u16));
    assert(slot.subrange(10, 12) =~= crate::bytes::le16_bytes(count as u16));
    crate::bytes::law_u64_round_trip(ptr);
    crate::bytes::law_u16_round_trip(count as u16);
}

proof fn lemma_char_ptr_spot(p: Spot)
    requires
        p.ready(),
        p.e.ty == T_CHAR_PTR,
    ensures
        p.read() == crate::meta_schema::plain(p.v),
{
    reveal(Spot::after);
    let t = p.v->Str_0;
    let b = vstd::utf8::encode_utf8(t);
    lemma_text_empty(t);
    if t.len() == 0 {
        let z = crate::bytes::zeros(16);
        assert(p.slot() =~= z);
        assert(z[8] == 0 && z[9] == 0 && z[10] == 0 && z[11] == 0);
        assert(crate::bytes::le16(z, 8) == 0);
        assert(crate::bytes::le16(z, 10) == 0);
        assert(t =~= Seq::<char>::empty());
    } else {
        let text = b.push(0);
        let block = crate::meta_write::block_for(p.st.blocks, B_STRING, 0);
        let r = crate::meta_write::add_string(p.st, t);
        crate::meta_laws::grow::lemma_append(p.st, B_STRING, text, false);
        let off = if block < p.st.blocks.len() {
            p.st.blocks[block].1.len() as int
        } else {
            0
        };
        lemma_has(p.w, r.0, block, off, B_STRING, text);
        lemma_has_part(p.w, block, off, text, 0, b.len() as int);
        assert(text.subrange(0, b.len() as int) =~= b);
        lemma_counted(p.buf, p.off(), r.1, b.len() as int);
        assert(b.subrange(0, b.len() as int) =~= b);
        lemma_text(b, p.v);
    }
}

/// How the elements of a list are read, one by one.
proof fn lemma_next_element(
    w: World,
    ty: MetaType,
    ref_key: u32,
    block: int,
    at: int,
    v: ValueView,
    piece: Seq<u8>,
    n: nat,
    count: nat,
    depth: nat,
)
    requires
        n < count,
        0 <= at <= u32::MAX,
        0 < crate::meta_schema::stride_of(w.f, ty, ref_key) <= u32::MAX,
        piece.len() == crate::meta_schema::stride_of(w.f, ty, ref_key),
        w.has(block, at, piece),
        crate::meta_schema::read_element(
            w.f,
            ty,
            ref_key,
            block,
            at as u64,
            piece,
            n,
            depth,
        ) == crate::meta_schema::plain(v),
    ensures
        crate::meta_schema::elements_from(w.f, ty, ref_key, block, at as u64, n, count, depth) == ({
            let rest = crate::meta_schema::elements_from(
                w.f,
                ty,
                ref_key,
                block,
                (at + crate::meta_schema::stride_of(w.f, ty, ref_key)) as u64,
                n + 1,
                count,
                depth,
            );
            (seq![v] + rest.0, Seq::<Warning>::empty() + rest.1)
        }),
{
    assert(crate::meta_schema::element_place(w.f, ty, n, block, at as u64) == (block, at as u64));
}

/// The elements of a list come back where each stands at its place and is
/// read as what it is.
#[verifier::rlimit(40)]
#[verifier::spinoff_prover]
pub proof fn lemma_elements(
    w: World,
    ty: MetaType,
    ref_key: u32,
    block: int,
    off: int,
    items: Seq<ValueView>,
    pieces: Seq<Seq<u8>>,
    n: nat,
    depth: nat,
)
    requires
        n <= items.len(),
        pieces.len() == items.len(),
        0 <= off <= u32::MAX,
        0 < crate::meta_schema::stride_of(w.f, ty, ref_key) <= u32::MAX,
        items.len() <= u32::MAX,
        forall|i: int|
            0 <= i < items.len() ==> {
                let at = off + i * crate::meta_schema::stride_of(w.f, ty, ref_key);
                &&& (#[trigger] pieces[i]).len() == crate::meta_schema::stride_of(
                    w.f,
                    ty,
                    ref_key,
                )
                &&& w.has(block, at, pieces[i])
                &&& crate::meta_schema::read_element(
                    w.f,
                    ty,
                    ref_key,
                    block,
                    at as u64,
                    pieces[i],
                    i as nat,
                    depth,
                ) == crate::meta_schema::plain(items[i])
            },
    ensures
        crate::meta_schema::elements_from(
            w.f,
            ty,
            ref_key,
            block,
            (off + n * crate::meta_schema::stride_of(w.f, ty, ref_key)) as u64,
            n,
            items.len(),
            depth,
        ) == (items.skip(n as int), Seq::<Warning>::empty()),
    decreases items.len() - n,
{
    let stride = crate::meta_schema::stride_of(w.f, ty, ref_key);
    if n == items.len() {
        assert(items.skip(n as int) =~= Seq::<ValueView>::empty());
    } else {
        lemma_elements(w, ty, ref_key, block, off, items, pieces, n + 1, depth);
        let at = off + n * stride;
        assert(pieces[n as int].len() == stride);
        assert(at + stride == off + (n + 1) * stride) by (nonlinear_arith)
            requires
                at == off + n * stride,
        ;
        lemma_next_element(
            w,
            ty,
            ref_key,
            block,
            at,
            items[n as int],
            pieces[n as int],
            n,
            items.len(),
            depth,
        );
        assert(items.skip(n as int) =~= seq![items[n as int]] + items.skip(n + 1int));
        assert(Seq::<Warning>::empty() + Seq::<Warning>::empty() =~= Seq::<Warning>::empty());
    }
}

/// What stands in a byte array of integers.
proof fn lemma_integers_stand(
    c: Context,
    buf: Seq<u8>,
    off: int,
    stride: int,
    items: Seq<ValueView>,
    k: nat,
    i: int,
)
    requires
        stride == 2 || stride == 4,
        0 <= i < k <= items.len(),
        0 <= off,
        off + k * stride <= buf.len(),
        forall|j: int|
            0 <= j < items.len() ==> crate::coerce::as_integer(#[trigger] items[j], c.floats) is Some,
    ensures
        ({
            let r = crate::meta_write::integers_into(c, buf, off, stride, items, k);
            let n = crate::coerce::as_integer(items[i], c.floats)->0;
            &&& r.1
            &&& r.0.subrange(off + i * stride, off + i * stride + stride)
                == crate::meta_write::integer_bytes(n, stride)
        }),
    decreases k,
{
    let r = crate::meta_write::integers_into(c, buf, off, stride, items, k);
    let before = crate::meta_write::integers_into(c, buf, off, stride, items, (k - 1) as nat);
    crate::meta_laws::places::lemma_integers_confined(
        c,
        buf,
        off,
        stride,
        items,
        (k - 1) as nat,
    );
    assert(k * stride == (k - 1) * stride + stride) by (nonlinear_arith);
    assert(crate::coerce::as_integer(items[k - 1], c.floats) is Some);
    if k > 1 {
        lemma_integers_stand(
            c,
            buf,
            off,
            stride,
            items,
            (k - 1) as nat,
            if i < k - 1 {
                i
            } else {
                0
            },
        );
    }
    let at = off + i * stride;
    assert(0 <= i * stride && i * stride + stride <= k * stride) by (nonlinear_arith)
        requires
            0 <= i < k,
            stride > 0,
    ;
    if i < k - 1 {
        assert(i * stride + stride <= (k - 1) * stride) by (nonlinear_arith)
            requires
                i + 1 <= k - 1,
                stride > 0,
        ;
        assert(r.0.subrange(at, at + stride) =~= before.0.subrange(at, at + stride));
    } else {
        let n = crate::coerce::as_integer(items[i], c.floats)->0;
        assert(r.0.subrange(at, at + stride) =~= crate::meta_write::integer_bytes(n, stride));
    }
}

/// The bytes of some integers, one by one.
spec fn wide_pieces(items: Seq<ValueView>, stride: int) -> Seq<Seq<u8>> {
    Seq::new(
        items.len(),
        |i: int|
            crate::meta_write::integer_bytes(
                crate::meta_laws::scalars::number(items[i]),
                stride,
            ),
    )
}

proof fn lemma_wide_numbers(p: Spot, j: int)
    requires
        p.ready(),
        p.e.ty == T_BYTE_ARRAY,
        !crate::meta_laws::fits::raw_elements(p.elem),
        0 <= j < p.v->Array_0.items.len(),
    ensures
        ({
            let v = p.v->Array_0.items[j];
            let x = p.elem->0;
            &&& crate::meta_laws::fits::fits_plain(p.w.f, x.ty, 0, v)
            &&& crate::coerce::as_integer(v, p.w.c.floats) == Some(
                crate::meta_laws::scalars::number(v),
            )
        }),
{
    let v = p.v->Array_0.items[j];
    assert(crate::meta_laws::fits::fits_plain(p.w.f, p.elem->0.ty, 0, v));
}

proof fn lemma_wide_slot(p: Spot, i: int)
    requires
        p.ready(),
        p.e.ty == T_BYTE_ARRAY,
        !crate::meta_laws::fits::raw_elements(p.elem),
        0 <= i < p.v->Array_0.items.len(),
    ensures
        ({
            let stride = crate::meta_write::stride_of(p.elem);
            let piece = wide_pieces(p.v->Array_0.items, stride)[i];
            &&& piece.len() == stride
            &&& p.w.has(p.block, p.abs + i * stride, piece)
        }),
{
    reveal(Spot::after);
    let items = p.v->Array_0.items;
    let stride = crate::meta_write::stride_of(p.elem);
    let n = p.e.ref_key as nat;
    assert forall|j: int| 0 <= j < items.len() implies crate::coerce::as_integer(
        #[trigger] items[j],
        p.w.c.floats,
    ) is Some by {
        lemma_wide_numbers(p, j);
    }
    lemma_wide_numbers(p, i);
    let slot = p.slot();
    assert(p.room() == n * stride);
    crate::meta_laws::places::lemma_integers_confined(p.w.c, p.buf, p.off(), stride, items, n);
    assert(p.after().0 == crate::meta_write::integers_into(
        p.w.c,
        p.buf,
        p.off(),
        stride,
        items,
        n,
    ).0);
    lemma_integers_stand(p.w.c, p.buf, p.off(), stride, items, n, i);
    assert(0 <= i * stride && i * stride + stride <= n * stride) by (nonlinear_arith)
        requires
            0 <= i < n,
            stride > 0,
    ;
    lemma_has_part(p.w, p.block, p.abs as int, slot, i * stride, i * stride + stride);
    let at = p.off() + i * stride;
    assert(slot.subrange(i * stride, i * stride + stride) =~= p.after().0.subrange(
        at,
        at + stride,
    ));
}

proof fn lemma_wide_spot(p: Spot)
    requires
        p.ready(),
        p.e.ty == T_BYTE_ARRAY,
        !crate::meta_laws::fits::raw_elements(p.elem),
    ensures
        p.read() == crate::meta_schema::plain(p.v),
{
    let items = p.v->Array_0.items;
    let x = p.elem->0;
    let stride = crate::meta_write::stride_of(p.elem);
    let ty = crate::meta_schema::type_of(x.ty)->0;
    let pieces = wide_pieces(items, stride);
    assert(stride == crate::meta_schema::scalar_len(ty));
    assert(crate::meta_schema::stride_of(p.w.f, ty, 0) == stride);
    assert forall|i: int| 0 <= i < items.len() implies {
        let at = p.abs + i * crate::meta_schema::stride_of(p.w.f, ty, 0);
        &&& (#[trigger] pieces[i]).len() == crate::meta_schema::stride_of(p.w.f, ty, 0)
        &&& p.w.has(p.block, at, pieces[i])
        &&& crate::meta_schema::read_element(
            p.w.f,
            ty,
            0,
            p.block,
            at as u64,
            pieces[i],
            i as nat,
            p.depth,
        ) == crate::meta_schema::plain(items[i])
    } by {
        lemma_wide_slot(p, i);
        lemma_wide_numbers(p, i);
        crate::meta_laws::scalars::lemma_integer(p.w.f, x.ty, 0, items[i]);
    }
    lemma_elements(p.w, ty, 0, p.block, p.abs as int, items, pieces, 0, p.depth);
    assert(p.abs + 0 * stride == p.abs) by (nonlinear_arith);
    assert(items.skip(0) =~= items);
}

/// A member that holds no other structure comes back.
pub proof fn lemma_simple_spot(p: Spot)
    requires
        p.ready(),
        p.e.ty != T_STRUCT_PTR && p.e.ty != T_STRUCT && p.e.ty != T_ARRAY,
    ensures
        p.read() == crate::meta_schema::plain(p.v),
{
    if p.e.ty == T_CHAR_ARRAY {
        lemma_char_array_spot(p);
    } else if p.e.ty == T_BYTE_ARRAY {
        if crate::meta_laws::fits::raw_elements(p.elem) {
            lemma_bytes_spot(p);
        } else {
            lemma_wide_spot(p);
        }
    } else if p.e.ty == T_CHAR_PTR {
        lemma_char_ptr_spot(p);
    } else if p.e.ty == T_DATA_BLOCK_PTR {
        lemma_data_spot(p);
    } else {
        lemma_plain_spot(p);
    }
}

} // verus!
