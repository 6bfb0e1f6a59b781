//! Members that hold no other structure come back.

use vstd::prelude::*;

use crate::pso::{PsoView, Read};
use crate::pso_write::{
    BuildState, Context, B_STRING, T_ARRAY, T_ENUM, T_FLAGS, T_MAP, T_STRING, T_STRUCT,
};
use crate::schema::{PsoEntryDef, PsoStructDefView};
use crate::value::ValueView;

verus! {

broadcast use crate::bytes::group_big_endian_reads;

/// A file, and what its writer put together.
pub struct World {
    pub f: PsoView,
    pub c: Context,
    pub end: BuildState,
}

impl World {
    /// Whether the file shows what was put together.
    pub open spec fn shown(self) -> bool {
        crate::pso_laws::fits::shows(self.f, self.c, self.end)
    }

    /// Whether some bytes stand at a place in the data.
    pub open spec fn has(self, at: int, bytes: Seq<u8>) -> bool {
        &&& 0 <= at
        &&& at + bytes.len() <= self.f.data.len()
        &&& self.f.data.subrange(at, at + bytes.len()) == bytes
    }

    /// The place in the data that a pointer into a block leads to.
    pub open spec fn target(self, block: int, off: int) -> int {
        self.f.blocks[block].offset + off % 0x10_0000
    }
}

/// What a writer put into a block stands where the pointer to it leads.
pub proof fn lemma_has(w: World, st: BuildState, block: int, off: int, name: u32, bytes: Seq<u8>)
    requires
        w.shown(),
        crate::pso_laws::grow::stands(st, block, off, name, bytes),
        crate::pso_laws::grow::grows(st, w.end),
    ensures
        w.has(w.target(block, off), bytes),
        w.f.blocks[block].name_hash == name,
        crate::pso::pointee(w.f, crate::pso_write::pointer(block, off)) == Some(
            (w.f.blocks[block], w.target(block, off)),
        ),
        crate::pso_write::pointer(block, off) != 0,
        0 <= block < w.f.blocks.len(),
{
    crate::pso_laws::grow::lemma_stands_on(st, w.end, block, off, name, bytes);
    lemma_pointer(block, off);
    let b = w.f.blocks[block];
    let whole = w.end.blocks[block].1;
    let from = b.offset as int;
    assert(b.name_hash == w.end.blocks[block].0);
    assert(w.f.data.subrange(from, from + whole.len()) == whole);
    if off < 0x10_0000 {
        assert(off % 0x10_0000 == off);
        assert(w.f.data.subrange(from + off, from + off + bytes.len()) =~= whole.subrange(
            off,
            off + bytes.len(),
        ));
    } else {
        assert(bytes.len() == 0);
        assert(off % 0x10_0000 == 0);
        assert(w.f.data.subrange(from, from) =~= bytes);
    }
}

proof fn lemma_pointer(block: int, off: int)
    requires
        0 <= block < 0xFFF,
        0 <= off,
    ensures
        ({
            let raw = crate::pso_write::pointer(block, off);
            &&& raw != 0
            &&& raw % 0x1000 == block + 1
            &&& raw / 0x1000 == off % 0x10_0000
        }),
{
    let raw = crate::pso_write::pointer(block, off);
    let o = off % 0x10_0000;
    assert((block + 1) % 0x1000 == block + 1);
    assert(raw == block + 1 + 0x1000 * o);
}

/// A part of what stands at a place stands there too.
pub proof fn lemma_has_part(w: World, at: int, bytes: Seq<u8>, a: int, b: int)
    requires
        w.has(at, bytes),
        0 <= a <= b <= bytes.len(),
    ensures
        w.has(at + a, bytes.subrange(a, b)),
        crate::resource::window(w.f.data, at + a, b - a) == Some(bytes.subrange(a, b)),
{
    let data = w.f.data;
    assert(data.subrange(at + a, at + b) =~= data.subrange(at, at + bytes.len()).subrange(a, b));
}

/// What stands at a place is what a window shows.
pub proof fn lemma_window(w: World, at: int, bytes: Seq<u8>)
    requires
        w.has(at, bytes),
    ensures
        crate::resource::window(w.f.data, at, bytes.len() as int) == Some(bytes),
{
}

/// A member that is written and read: by what, into what, and where.
pub struct Spot {
    pub w: World,
    pub def: PsoStructDefView,
    pub e: PsoEntryDef,
    pub v: ValueView,
    pub buf: Seq<u8>,
    pub st: BuildState,
    pub fuel: nat,
    pub abs: int,
    pub depth: nat,
}

impl Spot {
    #[verifier::opaque]
    pub open spec fn after(self) -> (Seq<u8>, BuildState) {
        crate::pso_write::write_member(
            self.w.c,
            self.def,
            self.e,
            Some(self.v),
            self.buf,
            self.st,
            self.fuel,
        )
    }

    pub open spec fn off(self) -> int {
        self.e.offset as int
    }

    pub open spec fn room(self) -> int {
        crate::pso_laws::fits::room(self.w.c.schema, self.def, self.e)
    }

    /// The bytes of the member, once it is written.
    pub open spec fn slot(self) -> Seq<u8> {
        self.after().0.subrange(self.off(), self.off() + self.room())
    }

    /// Whether the member is written at its place, over zeros.
    pub open spec fn laid(self) -> bool {
        &&& self.w.shown()
        &&& crate::pso_laws::grow::grows(self.after().1, self.w.end)
        &&& 0 <= self.room()
        &&& self.off() + self.room() <= self.buf.len()
        &&& self.after().0.len() == self.buf.len()
        &&& self.buf.subrange(self.off(), self.off() + self.room()) == crate::bytes::zeros(
            self.room(),
        )
        &&& self.w.has(self.abs, self.slot())
    }

    /// Whether the member is written at its place, and its value fits.
    pub open spec fn ready(self) -> bool {
        &&& self.laid()
        &&& crate::pso_laws::fits::fits_member(
            self.w.f,
            self.w.c.schema,
            self.def,
            self.e,
            self.v,
            self.depth,
        )
    }

    pub open spec fn read(self) -> Read {
        crate::pso::read_member(
            self.w.f,
            crate::pso_laws::fits::info_of(self.def),
            crate::pso_laws::fits::info_entry(self.e),
            self.abs,
            self.depth,
        )
    }
}

pub proof fn lemma_splice_at(buf: Seq<u8>, off: int, b: Seq<u8>, room: int)
    requires
        0 <= off,
        b.len() <= room,
        off + room <= buf.len(),
        buf.subrange(off, off + room) == crate::bytes::zeros(room),
    ensures
        crate::bytes::splice(buf, off, b).subrange(off, off + room) == b + crate::bytes::zeros(
            room - b.len(),
        ),
{
    let out = crate::bytes::splice(buf, off, b);
    let want = b + crate::bytes::zeros(room - b.len());
    assert forall|j: int| 0 <= j < room implies out.subrange(off, off + room)[j]
        == #[trigger] want[j] by {
        if j >= b.len() {
            assert(buf.subrange(off, off + room)[j] == buf[off + j]);
        }
    }
    assert(out.subrange(off, off + room) =~= want);
}

/// The bytes of a member that holds its whole value in place.
proof fn lemma_plain_slot(p: Spot, b: Seq<u8>)
    requires
        p.ready(),
        crate::pso_write::plain_need(p.e) is Some,
        crate::pso_write::plain_bytes(p.w.c, p.def, p.e, p.v) == Some(b),
        b.len() <= p.room(),
    ensures
        p.slot() == b + crate::bytes::zeros(p.room() - b.len()),
{
    reveal(Spot::after);
    lemma_splice_at(p.buf, p.off(), b, p.room());
}

proof fn lemma_number_spot(p: Spot)
    requires
        p.ready(),
        crate::pso_laws::fits::fits_number(p.e.ty, false, p.v),
    ensures
        p.read() == crate::pso::plain(p.v),
{
    crate::pso_laws::scalars::lemma_number(p.w.c, p.def, p.e, p.v);
    let b = crate::pso_write::plain_bytes(p.w.c, p.def, p.e, p.v)->0;
    lemma_plain_slot(p, b);
    assert(b + crate::bytes::zeros(0) =~= b);
    let n = crate::pso::scalar_len(crate::pso::type_of(p.e.ty)->0);
    lemma_has_part(p.w, p.abs, b, 0, n);
}

proof fn lemma_buffer_spot(p: Spot)
    requires
        p.ready(),
        p.e.ty == T_STRING,
        p.e.subtype == 0,
    ensures
        p.read() == crate::pso::plain(p.v),
{
    let t = p.v->Str_0;
    let b = vstd::utf8::encode_utf8(t);
    let n = (p.e.ref_key / 0x1_0000) as int;
    assert(crate::pso_write::buffer_text(t, n) =~= b);
    lemma_plain_slot(p, b);
    let slot = p.slot();
    assert(slot.subrange(0, b.len() as int) =~= b);
    crate::meta_laws::spots::lemma_text(slot, p.v);
    lemma_window(p.w, p.abs, slot);
}

proof fn lemma_hash_spot(p: Spot)
    requires
        p.ready(),
        p.e.ty == T_STRING,
        p.e.subtype == 7 || p.e.subtype == 8,
    ensures
        p.read() == crate::pso::plain(p.v),
{
    let b = crate::bytes::be32_bytes(p.v->Hash_0);
    crate::pso_laws::scalars::lemma_words(0, p.v->Hash_0, 0);
    lemma_plain_slot(p, b);
    assert(b + crate::bytes::zeros(0) =~= b);
    lemma_window(p.w, p.abs, b);
}

proof fn lemma_enum_spot(p: Spot)
    requires
        p.ready(),
        p.e.ty == T_ENUM,
    ensures
        p.read() == crate::pso::plain(p.v),
{
    let n = p.v->value as u32;
    let size = crate::pso_write::enum_size(p.e.subtype);
    let b = crate::pso_write::sized_bytes(n, size);
    crate::pso_laws::scalars::lemma_sized(n, p.v->value);
    lemma_plain_slot(p, b);
    assert(b + crate::bytes::zeros(0) =~= b);
    lemma_window(p.w, p.abs, b);
}

proof fn lemma_flags_spot(p: Spot)
    requires
        p.ready(),
        p.e.ty == T_FLAGS,
    ensures
        p.read() == crate::pso::plain(p.v),
{
    let n = p.v->bits;
    let size = crate::pso_write::enum_size(p.e.subtype);
    let b = crate::pso_write::sized_bytes(n, size);
    crate::pso_laws::scalars::lemma_sized(n, 0);
    lemma_plain_slot(p, b);
    assert(b + crate::bytes::zeros(0) =~= b);
    lemma_window(p.w, p.abs, b);
}

/// What a counted pointer says.
pub proof fn lemma_counted(buf: Seq<u8>, off: int, ptr: u32, count: int)
    requires
        0 <= off,
        off + 16 <= buf.len(),
        0 <= count <= 0xFFFF,
    ensures
        ({
            let out = crate::pso_write::put_counted(buf, off, ptr, count);
            let slot = out.subrange(off, off + 16);
            &&& crate::bytes::be32(slot, 0) == ptr
            &&& crate::bytes::be16(slot, 8) == count
            &&& crate::bytes::be16(slot, 10) == count
        }),
{
    let out = crate::pso_write::put_counted(buf, off, ptr, count);
    let slot = out.subrange(off, off + 16);
    assert(slot.subrange(0, 4) =~= crate::bytes::be32_bytes(ptr));
    assert(slot.subrange(8, 10) =~= crate::bytes::be16_bytes(count as u16));
    assert(slot.subrange(10, 12) =~= crate::bytes::be16_bytes(count as u16));
    crate::pso_laws::scalars::lemma_words(count as u16, ptr, 0);
}

/// What a pointer says that stands before something else.
pub proof fn lemma_pointing(ptr: u32, rest: Seq<u8>)
    ensures
        crate::bytes::be32(crate::bytes::be32_bytes(ptr) + rest, 0) == ptr,
{
    let slot = crate::bytes::be32_bytes(ptr) + rest;
    assert(slot.subrange(0, 4) =~= crate::bytes::be32_bytes(ptr));
    crate::pso_laws::scalars::lemma_words(0, ptr, 0);
}

/// Zeros point at nothing and count nothing.
pub proof fn lemma_zero(z: Seq<u8>)
    requires
        z.len() >= 8,
        forall|i: int| 0 <= i < z.len() ==> #[trigger] z[i] == 0,
    ensures
        crate::bytes::be32(z, 0) == 0,
        z.len() >= 12 ==> crate::bytes::be16(z, 8) == 0 && crate::bytes::be16(z, 10) == 0,
{
    assert(z[0] == 0 && z[1] == 0 && z[2] == 0 && z[3] == 0);
    if z.len() >= 12 {
        assert(z[8] == 0 && z[9] == 0 && z[10] == 0 && z[11] == 0);
    }
}

/// A string element or member of some subtype, as the bytes of its slot: a
/// pointer or a counted pointer.
pub open spec fn leads(slot: Seq<u8>, subtype: u8, ptr: u32, count: int) -> bool {
    &&& crate::bytes::be32(slot, 0) == ptr
    &&& slot.len() == if subtype == 3 {
        16int
    } else {
        8int
    }
    &&& subtype == 3 ==> crate::bytes::be16(slot, 8) == count && crate::bytes::be16(slot, 10)
        == count
}

/// An empty text comes back from zeros.
pub proof fn lemma_empty_string(w: World, v: ValueView, subtype: u8, ref_key: u32, at: int, slot: Seq<u8>)
    requires
        subtype == 1 || subtype == 2 || subtype == 3,
        v is Str,
        v->Str_0.len() == 0,
        w.has(at, slot),
        slot == crate::bytes::zeros(
            if subtype == 3 {
                16int
            } else {
                8int
            },
        ),
    ensures
        crate::pso::read_string(w.f, subtype, ref_key, at) == crate::pso::plain(v),
{
    lemma_zero(slot);
    lemma_window(w, at, slot);
    assert(v->Str_0 =~= Seq::<char>::empty());
}

/// A text comes back that its slot leads to.
pub proof fn lemma_string(
    w: World,
    st: BuildState,
    v: ValueView,
    subtype: u8,
    ref_key: u32,
    at: int,
    slot: Seq<u8>,
)
    requires
        w.shown(),
        subtype == 1 || subtype == 2 || subtype == 3,
        crate::meta_laws::fits::fits_text(
            v,
            if subtype == 3 {
                0xFFFFint
            } else {
                4096int
            },
        ),
        v->Str_0.len() > 0,
        crate::pso_laws::grow::grows(crate::pso_write::add_string(st, v->Str_0).0, w.end),
        w.has(at, slot),
        leads(
            slot,
            subtype,
            crate::pso_write::add_string(st, v->Str_0).1,
            vstd::utf8::encode_utf8(v->Str_0).len() as int,
        ),
    ensures
        crate::pso::read_string(w.f, subtype, ref_key, at) == crate::pso::plain(v),
{
    let t = v->Str_0;
    let b = vstd::utf8::encode_utf8(t);
    let n = b.len() as int;
    let text = b.push(0);
    crate::meta_laws::spots::lemma_text_empty(t);
    crate::pso_laws::grow::lemma_add(st, B_STRING, text);
    let r = crate::pso_write::add_string(st, t);
    let block = crate::pso_laws::grow::block_at(st, B_STRING, text);
    let off = crate::pso_laws::grow::offset_at(st, B_STRING, text);
    lemma_has(w, r.0, block, off, B_STRING, text);
    let target = w.target(block, off);
    lemma_window(w, at, slot);
    if subtype == 3 {
        lemma_has_part(w, target, text, 0, n);
        assert(text.subrange(0, n) =~= b);
        assert(b.subrange(0, n) =~= b);
        crate::meta_laws::spots::lemma_text(b, v);
    } else {
        let end = crate::resource::least(w.f.data.len() as int, target + 4096);
        let seen = w.f.data.subrange(target, end);
        let whole = w.f.data.subrange(target, target + n + 1);
        assert(seen.subrange(0, n) =~= b) by {
            assert forall|j: int| 0 <= j < n implies seen.subrange(0, n)[j] == #[trigger] b[j] by {
                assert(whole[j] == text[j]);
            }
        }
        if n < seen.len() {
            assert(whole[n] == text[n]);
            assert(seen[n] == 0);
        }
        crate::meta_laws::spots::lemma_text(seen, v);
    }
}

/// What a member becomes that holds a text elsewhere.
proof fn lemma_string_after(p: Spot)
    requires
        p.e.ty == T_STRING,
        p.e.subtype == 1 || p.e.subtype == 2 || p.e.subtype == 3,
        p.v is Str,
        p.off() + p.room() <= p.buf.len(),
    ensures
        p.v->Str_0.len() == 0 ==> p.after() == (p.buf, p.st),
        p.v->Str_0.len() > 0 ==> ({
            let r = crate::pso_write::add_string(p.st, p.v->Str_0);
            p.after() == (
                if p.e.subtype == 3 {
                    crate::pso_write::put_counted(
                        p.buf,
                        p.off(),
                        r.1,
                        vstd::utf8::encode_utf8(p.v->Str_0).len() as int,
                    )
                } else {
                    crate::bytes::splice(p.buf, p.off(), crate::bytes::be32_bytes(r.1))
                },
                r.0,
            )
        }),
{
    reveal(Spot::after);
}

proof fn lemma_string_spot(p: Spot)
    requires
        p.ready(),
        p.e.ty == T_STRING,
        p.e.subtype == 1 || p.e.subtype == 2 || p.e.subtype == 3,
    ensures
        p.read() == crate::pso::plain(p.v),
{
    lemma_string_after(p);
    let t = p.v->Str_0;
    if t.len() == 0 {
        assert(p.slot() == crate::bytes::zeros(p.room()));
        lemma_empty_string(p.w, p.v, p.e.subtype, p.e.ref_key, p.abs, p.slot());
    } else {
        let r = crate::pso_write::add_string(p.st, t);
        let n = vstd::utf8::encode_utf8(t).len() as int;
        if p.e.subtype == 3 {
            lemma_counted(p.buf, p.off(), r.1, n);
        } else {
            let b = crate::bytes::be32_bytes(r.1);
            lemma_splice_at(p.buf, p.off(), b, 8);
            lemma_pointing(r.1, crate::bytes::zeros(4));
        }
        lemma_string(p.w, p.st, p.v, p.e.subtype, p.e.ref_key, p.abs, p.slot());
    }
}

/// A member that holds no other structure comes back.
pub proof fn lemma_simple_spot(p: Spot)
    requires
        p.ready(),
        p.e.ty != T_STRUCT && p.e.ty != T_ARRAY && p.e.ty != T_MAP,
    ensures
        p.read() == crate::pso::plain(p.v),
{
    if p.e.ty == T_STRING {
        if p.e.subtype == 0 {
            lemma_buffer_spot(p);
        } else if p.e.subtype == 7 || p.e.subtype == 8 {
            lemma_hash_spot(p);
        } else {
            lemma_string_spot(p);
        }
    } else if p.e.ty == T_ENUM {
        lemma_enum_spot(p);
    } else if p.e.ty == T_FLAGS {
        lemma_flags_spot(p);
    } else {
        lemma_number_spot(p);
    }
}

} // verus!
