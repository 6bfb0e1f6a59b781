//! What the accessors of trees, archetypes and navmeshes give.

use vstd::prelude::*;

use crate::build_warning::{BuildWarningView, ValueKind};
use crate::coerce::Floats;
use crate::math::Vec3;
use crate::meta_block::BlockView;
use crate::meta_schema::MetaType;
use crate::pso::PsoType;
use crate::schema::{MetaEntryDef, PsoEntryDef};
use crate::value::ValueView;
use crate::ynv::NavEdgeEnd;
use crate::ytyp::Archetype;

verus! {

// ─── trees ───────────────────────────────────────────────────────────────────

proof fn lemma_field(fields: Seq<(u32, ValueView)>, name: u32, k: int)
    requires
        0 <= k < fields.len(),
        fields[k].0 == name,
        forall|j: int| 0 <= j < k ==> (#[trigger] fields[j]).0 != name,
    ensures
        crate::value::field_of(fields, name) == Some(fields[k].1),
    decreases k,
{
    if k > 0 {
        let rest = fields.skip(1);
        assert(fields[0].0 != name);
        assert forall|j: int| 0 <= j < k - 1 implies (#[trigger] rest[j]).0 != name by {
            assert(rest[j] == fields[j + 1]);
        }
        lemma_field(rest, name, k - 1);
    }
}

/// The member of a name is the first that has it, and nothing where none has.
pub proof fn law_fields_by_name(fields: Seq<(u32, ValueView)>, name: u32)
    ensures
        forall|k: int|
            0 <= k < fields.len() && (#[trigger] fields[k]).0 == name && (forall|j: int|
                0 <= j < k ==> (#[trigger] fields[j]).0 != name) ==> crate::value::field_of(
                fields,
                name,
            ) == Some(fields[k].1),
        crate::value::field_of(fields, name) is None <==> forall|k: int|
            0 <= k < fields.len() ==> (#[trigger] fields[k]).0 != name,
{
    assert forall|k: int|
        0 <= k < fields.len() && (#[trigger] fields[k]).0 == name && (forall|j: int|
            0 <= j < k ==> (#[trigger] fields[j]).0 != name) implies crate::value::field_of(
        fields,
        name,
    ) == Some(fields[k].1) by {
        lemma_field(fields, name, k);
    }
    lemma_no_field(fields, name);
}

proof fn lemma_no_field(fields: Seq<(u32, ValueView)>, name: u32)
    ensures
        crate::value::field_of(fields, name) is None <==> forall|k: int|
            0 <= k < fields.len() ==> (#[trigger] fields[k]).0 != name,
    decreases fields.len(),
{
    if fields.len() > 0 {
        let rest = fields.skip(1);
        lemma_no_field(rest, name);
        if fields[0].0 != name {
            if crate::value::field_of(fields, name) is None {
                assert forall|k: int| 0 <= k < fields.len() implies (#[trigger] fields[k]).0
                    != name by {
                    if k > 0 {
                        assert(rest[k - 1] == fields[k]);
                    }
                }
            } else {
                let k = choose|k: int| 0 <= k < rest.len() && (#[trigger] rest[k]).0 == name;
                assert(fields[k + 1] == rest[k]);
            }
        }
    }
}

/// A number, a hash or a vector that a tree gives is the one that a member is
/// built from.
pub proof fn law_trees_give_what_is_built(v: ValueView, floats: Floats)
    ensures
        crate::value::integer_of(v) is Some ==> crate::coerce::as_integer(v, floats)
            == crate::value::integer_of(v),
        crate::value::unsigned_of(v) is Some ==> crate::coerce::as_integer(v, floats) == Some(
            crate::value::unsigned_of(v)->0 as i64,
        ),
        crate::value::hash_of(v) is Some && !(v is Str) ==> crate::coerce::as_hash(v)
            == crate::value::hash_of(v),
        crate::value::triple_of(v) is Some ==> {
            let p = crate::value::triple_of(v)->0;
            let q = crate::coerce::as_vector(v, 3, floats)->0;
            p == Vec3 { x: q.x, y: q.y, z: q.z }
        },
        v is Vec3 || v is Vec4 ==> crate::value::triple_of(v) is Some,
{
}

/// A list of hashes gives all of them, in order.
pub proof fn law_hash_lists(hashes: Seq<u32>, items: Seq<ValueView>, n: nat)
    requires
        n <= hashes.len() == items.len(),
        forall|i: int|
            0 <= i < hashes.len() ==> (#[trigger] items[i] == ValueView::Hash(hashes[i])
                || items[i] == ValueView::U32(hashes[i])),
    ensures
        crate::value::hashes_among(items, n) == hashes.take(n as int),
    decreases n,
{
    if n > 0 {
        law_hash_lists(hashes, items, (n - 1) as nat);
        assert(items[n - 1] == ValueView::Hash(hashes[n - 1]) || items[n - 1] == ValueView::U32(
            hashes[n - 1],
        ));
        assert(hashes.take(n as int) =~= hashes.take(n - 1).push(hashes[n - 1]));
    } else {
        assert(hashes.take(0) =~= Seq::empty());
    }
}

// ─── schemas ─────────────────────────────────────────────────────────────────

/// The member of a name is the first of a definition that has it.
pub proof fn law_meta_members_by_name(entries: Seq<MetaEntryDef>, k: int, i: int)
    requires
        0 <= i <= k < entries.len(),
        forall|j: int| 0 <= j < k ==> (#[trigger] entries[j]).name != entries[k].name,
    ensures
        crate::schema::meta_entry_of(entries, entries[k].name, i) == Some(entries[k]),
    decreases k - i,
{
    if i < k {
        law_meta_members_by_name(entries, k, i + 1);
    }
}

/// The member of a name is the first of a definition that has it.
pub proof fn law_pso_members_by_name(entries: Seq<PsoEntryDef>, k: int, i: int)
    requires
        0 <= i <= k < entries.len(),
        forall|j: int| 0 <= j < k ==> (#[trigger] entries[j]).name != entries[k].name,
    ensures
        crate::schema::pso_entry_of(entries, entries[k].name, i) == Some(entries[k]),
    decreases k - i,
{
    if i < k {
        law_pso_members_by_name(entries, k, i + 1);
    }
}

// ─── archetypes ──────────────────────────────────────────────────────────────

/// The texture dictionaries that a file binds are those of its archetypes, one
/// for each and in the same order.
pub proof fn law_dictionaries_are_those_of_the_archetypes(
    blocks: Seq<BlockView>,
    pointers: Seq<u8>,
    k: nat,
    i: int,
)
    ensures
        ({
            let txds = crate::ytyp::txds_upto(blocks, pointers, k);
            let archetypes = crate::ytyp::ytyp_upto(blocks, pointers, k).archetypes;
            &&& txds.len() == archetypes.len()
            &&& 0 <= i < txds.len() ==> txds[i].name_hash == archetypes[i].name_hash
                && txds[i].texture_dict_hash == archetypes[i].texture_dict_hash
        }),
    decreases k,
{
    if k > 0 {
        law_dictionaries_are_those_of_the_archetypes(blocks, pointers, (k - 1) as nat, i);
    }
}

/// Reading a file for its texture dictionaries alone succeeds and fails as
/// reading it whole does.
pub proof fn law_dictionaries_are_read_alike(system: Seq<u8>, graphics: Seq<u8>)
    ensures
        match (
            crate::ytyp::parsed_txds(system, graphics),
            crate::ytyp::parsed(system, graphics),
        ) {
            (Ok(txds), Ok(y)) => txds.len() == y.archetypes.len(),
            (Err(a), Err(b)) => a == b,
            _ => false,
        },
{
    match crate::ytyp::archetype_pointers(system, graphics) {
        Ok((blocks, Some(p))) => {
            law_dictionaries_are_those_of_the_archetypes(
                blocks,
                p,
                (p.len() / 8) as nat,
                0,
            );
        },
        _ => {},
    }
}

/// An archetype's model is found under its asset name, and under its own where
/// it has none. Only a fragment comes from a fragment, and only a member of a
/// named dictionary from a dictionary.
pub proof fn law_where_models_are(a: Archetype)
    ensures
        a.asset_name_hash == 0 ==> a.model() == a.name_hash,
        a.asset_name_hash != 0 ==> a.model() == a.asset_name_hash,
        a.from_fragment() <==> a.asset_type == 1,
        a.from_dictionary() ==> a.asset_type == 3 && a.drawable_dictionary_hash != 0,
        a.asset_type == 3 && !a.from_dictionary() ==> a.drawable_dictionary_hash == 0,
        !(a.from_fragment() && a.from_dictionary()),
{
}

/// A portal leads out where either of its rooms is the first one, whichever
/// way it is looked through.
pub proof fn law_portals_lead_out_both_ways(from: u32, to: u32)
    ensures
        crate::ytyp::leads_out(from, to) == crate::ytyp::leads_out(to, from),
        crate::ytyp::leads_out(from, 0),
        from > 0 && to > 0 ==> !crate::ytyp::leads_out(from, to),
{
}

// ─── navmeshes ───────────────────────────────────────────────────────────────

/// The cells of the grid are numbered row by row, a hundred to a row; what has
/// a higher number is no cell.
pub proof fn law_cells_by_their_number(x: u32, y: u32, area_id: u32)
    ensures
        x < 100 && y < 100 ==> crate::ynv::cell_of((y * 100 + x) as u32) == Some((x, y)),
        area_id >= 10000 ==> crate::ynv::cell_of(area_id) is None,
{
}

/// The side of an edge joins nothing where its polygon is the number that
/// stands for none, whatever else it says.
pub proof fn law_sides_that_join_nothing(e: NavEdgeEnd, area_id: u32)
    ensures
        crate::ynv::no_end().joins_nothing(),
        e.joins_nothing() <==> e.poly == 0x3FFF,
        (NavEdgeEnd { area_id, ..e }).joins_nothing() == e.joins_nothing(),
{
}

/// A mesh moves with a vehicle where the third bit of its flags is set, which
/// that of a new cell is not.
pub proof fn law_vehicle_meshes(y: crate::ynv::YnvView)
    ensures
        y.vehicle() <==> y.content_flags & 4 != 0,
        y.content_flags == crate::ynv::CONTENT_POLYGONS ==> !y.vehicle(),
{
    let f = y.content_flags;
    assert((f / 4 % 2 == 1) == (f & 4 != 0)) by (bit_vector);
}

// ─── limits ──────────────────────────────────────────────────────────────────

/// The warnings that are kept are the first two hundred.
pub proof fn law_first_warnings_are_kept(all: Seq<crate::warning::Warning>, i: int)
    ensures
        ({
            let kept = crate::warning::capped(all);
            &&& kept.len() <= all.len()
            &&& kept.len() <= 200
            &&& kept.len() < all.len() ==> kept.len() == 200
            &&& 0 <= i < kept.len() ==> kept[i] == all[i]
        }),
{
}

/// A text is too long a run of zeros only where there is one: short texts never
/// are, and neither are texts without a point.
pub proof fn law_short_texts_are_read(text: Seq<char>)
    ensures
        text.len() <= 32770 ==> crate::json_text::short_zeros(text),
        (forall|i: int| 0 <= i < text.len() ==> #[trigger] text[i] != '.')
            ==> crate::json_text::short_zeros(text),
{
    if forall|i: int| 0 <= i < text.len() ==> #[trigger] text[i] != '.' {
        assert forall|i: int| 0 <= i < text.len() implies !#[trigger] crate::json_text::too_small(
            text,
            i,
        ) by {
            if i + 1 < text.len() {
                assert(text[i + 1] != '.');
            }
        }
    }
}

/// A zero, a point and more zeros than can be counted are not read.
pub proof fn law_long_zeros_are_not_read(n: nat)
    requires
        n >= 32769,
    ensures
        !crate::json_text::short_zeros(seq!['0', '.'] + Seq::new(n, |i: int| '0')),
{
    let text = seq!['0', '.'] + Seq::new(n, |i: int| '0');
    assert forall|j: int| 2 <= j < text.len() implies #[trigger] text[j] == '0' by {
    }
    assert(crate::json_text::too_small(text, 0));
}

// ─── kinds of members ────────────────────────────────────────────────────────

/// The kind of value that a Meta member wants is the kind that it is read as.
pub proof fn law_meta_members_want_what_they_hold(ty: MetaType)
    ensures
        crate::meta_write::kind_of(ty.byte()) == (match ty {
            MetaType::Boolean => ValueKind::Boolean,
            MetaType::SignedByte => ValueKind::Integer,
            MetaType::UnsignedByte => ValueKind::Integer,
            MetaType::SignedShort => ValueKind::Integer,
            MetaType::UnsignedShort => ValueKind::Integer,
            MetaType::SignedInt => ValueKind::Integer,
            MetaType::UnsignedInt => ValueKind::Integer,
            MetaType::Float => ValueKind::Float,
            MetaType::Vec3 => ValueKind::Vector3,
            MetaType::Vec4 => ValueKind::Vector4,
            MetaType::ByteEnum => ValueKind::EnumMember,
            MetaType::IntEnum => ValueKind::EnumMember,
            MetaType::IntFlags1 => ValueKind::FlagSet,
            MetaType::ShortFlags => ValueKind::FlagSet,
            MetaType::IntFlags2 => ValueKind::FlagSet,
            MetaType::Hash => ValueKind::Hash,
            MetaType::Array => ValueKind::Array,
            MetaType::CharArray => ValueKind::Text,
            MetaType::ByteArray => ValueKind::Bytes,
            MetaType::DataBlockPointer => ValueKind::Bytes,
            MetaType::CharPointer => ValueKind::Text,
            MetaType::StructurePointer => ValueKind::Structure,
            MetaType::Structure => ValueKind::Structure,
        }),
{
}

/// The kind of value that a PSO member wants is the kind that its type names.
pub proof fn law_pso_members_want_what_they_hold(ty: PsoType)
    ensures
        crate::pso_write::kind_of(ty.byte()) == (match ty {
            PsoType::Bool => ValueKind::Boolean,
            PsoType::SByte => ValueKind::Integer,
            PsoType::UByte => ValueKind::Integer,
            PsoType::SShort => ValueKind::Integer,
            PsoType::UShort => ValueKind::Integer,
            PsoType::SInt => ValueKind::Integer,
            PsoType::UInt => ValueKind::Integer,
            PsoType::Float => ValueKind::Float,
            PsoType::Float2 => ValueKind::Vector2,
            PsoType::Float3 => ValueKind::Vector3,
            PsoType::Float4 => ValueKind::Vector4,
            PsoType::String => ValueKind::Name,
            PsoType::Structure => ValueKind::Structure,
            PsoType::Array => ValueKind::Array,
            PsoType::Enum => ValueKind::EnumMember,
            PsoType::Flags => ValueKind::FlagSet,
            PsoType::MapType => ValueKind::Pairs,
            PsoType::Float3a => ValueKind::Vector3,
            PsoType::Float4a => ValueKind::Vector4,
            PsoType::HFloat => ValueKind::Integer,
            PsoType::Long => ValueKind::Integer,
        }),
{
}

/// A warning is listed once: repeating it changes nothing, and no warning that
/// was listed is lost.
pub proof fn law_warnings_are_listed_once(ws: Seq<BuildWarningView>, w: BuildWarningView)
    requires
        w is Fault,
    ensures
        ({
            let once = crate::build_warning::warned(ws, w);
            &&& crate::build_warning::warned(once, w) == once
            &&& ws.len() <= once.len() <= ws.len() + 1
            &&& forall|i: int| 0 <= i < ws.len() ==> #[trigger] once[i] == ws[i]
            &&& exists|i: int|
                0 <= i < once.len() && crate::build_warning::alike_warnings(
                    #[trigger] once[i],
                    w,
                )
        }),
{
    let once = crate::build_warning::warned(ws, w);
    if once.len() > ws.len() {
        assert(once[ws.len() as int] == w);
        assert(crate::build_warning::alike_warnings(once[ws.len() as int], w));
    }
}

} // verus!
