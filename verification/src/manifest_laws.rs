//! What the members of a manifest's tree mean.

use vstd::prelude::*;

use crate::value::{ArrayView, StructView, ValueView};
use crate::ymf::{HashNameView, ManifestFormat, YmfError};

verus! {

/// A list of texts as a value.
pub open spec fn text_list(texts: Seq<Seq<char>>) -> ValueView {
    ValueView::Array(
        ArrayView {
            item_type: None,
            typed_items: false,
            items: Seq::new(texts.len(), |i: int| ValueView::Str(texts[i])),
        },
    )
}

/// A name that came as text: the text, and its hash.
pub open spec fn spelled(text: Seq<char>) -> HashNameView {
    HashNameView { hash: crate::hash::name_hash(text), name: Some(text) }
}

/// Some names that came as texts.
pub open spec fn all_spelled(texts: Seq<Seq<char>>) -> Seq<HashNameView> {
    Seq::new(texts.len(), |i: int| spelled(texts[i]))
}

/// Whether the member of that name is that value.
pub open spec fn says(fields: Seq<(u32, ValueView)>, name: Seq<char>, v: ValueView) -> bool {
    crate::value::field_of(fields, crate::hash::name_hash(name)) == Some(v)
}

proof fn lemma_text_list(texts: Seq<Seq<char>>)
    ensures
        crate::ymf::hash_names_of(Some(text_list(texts))) == all_spelled(texts),
{
    assert(crate::ymf::hash_names_of(Some(text_list(texts))) =~= all_spelled(texts));
}

/// A name is kept with its hash, a bare hash as it is, and where there is
/// neither the hash is zero.
pub proof fn law_names_and_hashes(text: Seq<char>, hash: u32)
    ensures
        crate::ymf::hash_name_of(Some(ValueView::Str(text))) == spelled(text),
        crate::ymf::hash_name_of(Some(ValueView::Hash(hash))) == (HashNameView {
            hash,
            name: None,
        }),
        crate::ymf::hash_name_of(None) == (HashNameView { hash: 0, name: None }),
        crate::ymf::asset_type_of(Some(ValueView::Str(text))) == spelled(text),
{
}

/// A group of map files has its name, its bounds, its weather types, its flags
/// and its hours each from the member called so.
pub proof fn law_groups_read_back(
    s: StructView,
    name: Seq<char>,
    bounds: Seq<Seq<char>>,
    weather: Seq<Seq<char>>,
    flags: u32,
    hours: u32,
)
    requires
        says(s.fields, "Name"@, ValueView::Str(name)),
        says(s.fields, "Bounds"@, text_list(bounds)),
        says(s.fields, "WeatherTypes"@, text_list(weather)),
        says(s.fields, "Flags"@, ValueView::U32(flags)),
        says(s.fields, "HoursOnOff"@, ValueView::U32(hours)),
    ensures
        ({
            let g = crate::ymf::map_data_group_of(ValueView::Struct(s));
            &&& g.name == spelled(name)
            &&& g.bounds == all_spelled(bounds)
            &&& g.weather_types == all_spelled(weather)
            &&& g.flags == flags
            &&& g.hours_on_off == hours
        }),
{
    lemma_text_list(bounds);
    lemma_text_list(weather);
}

/// A dependency of a map file names the map file, the archetype file and the
/// archive, each from the member called so.
pub proof fn law_map_dependencies_read_back(
    s: StructView,
    imap: Seq<char>,
    ityp: Seq<char>,
    pack: Seq<char>,
)
    requires
        says(s.fields, "imapName"@, ValueView::Str(imap)),
        says(s.fields, "itypName"@, ValueView::Str(ityp)),
        says(s.fields, "packFileName"@, ValueView::Str(pack)),
    ensures
        ({
            let d = crate::ymf::imap_dependency_of(ValueView::Struct(s));
            &&& d.imap == spelled(imap)
            &&& d.ityp == spelled(ityp)
            &&& d.pack_file == spelled(pack)
        }),
{
}

/// A binding of a high-detail texture dictionary names the kind of its asset,
/// the asset and the dictionary, each from the member called so.
pub proof fn law_bindings_read_back(
    s: StructView,
    kind: Seq<char>,
    asset: Seq<char>,
    txd: Seq<char>,
)
    requires
        says(s.fields, "assetType"@, ValueView::Str(kind)),
        says(s.fields, "targetAsset"@, ValueView::Str(asset)),
        says(s.fields, "HDTxd"@, ValueView::Str(txd)),
    ensures
        ({
            let b = crate::ymf::hd_txd_binding_of(ValueView::Struct(s));
            &&& b.asset_type == spelled(kind)
            &&& b.target_asset == asset
            &&& b.hd_txd == txd
        }),
{
}

/// An interior names itself and its bounds, each from the member called so.
pub proof fn law_interior_bounds_read_back(
    s: StructView,
    name: Seq<char>,
    bounds: Seq<Seq<char>>,
)
    requires
        says(s.fields, "Name"@, ValueView::Str(name)),
        says(s.fields, "Bounds"@, text_list(bounds)),
    ensures
        crate::ymf::interior_bounds_of(ValueView::Struct(s)).name == spelled(name),
        crate::ymf::interior_bounds_of(ValueView::Struct(s)).bounds == all_spelled(bounds),
{
    lemma_text_list(bounds);
}

/// A list of dependencies goes by the member that its own list says, and has
/// its flags and its archetype files each from the member called so.
pub proof fn law_dependencies_read_back(
    s: StructView,
    key: Seq<char>,
    name: Seq<char>,
    flags: u32,
    ityps: Seq<Seq<char>>,
)
    requires
        says(s.fields, key, ValueView::Str(name)),
        says(s.fields, "manifestFlags"@, ValueView::U32(flags)),
        says(s.fields, "itypDepArray"@, text_list(ityps)),
    ensures
        ({
            let d = crate::ymf::dependencies_of(ValueView::Struct(s), key);
            &&& d.name == spelled(name)
            &&& d.manifest_flags == flags
            &&& d.ityp_deps == all_spelled(ityps)
        }),
{
    lemma_text_list(ityps);
}

/// A list of structures as a value.
pub open spec fn struct_list(items: Seq<StructView>) -> ValueView {
    ValueView::Array(
        ArrayView {
            item_type: None,
            typed_items: false,
            items: Seq::new(items.len(), |i: int| ValueView::Struct(items[i])),
        },
    )
}

/// A manifest has one entry for each structure in the list called so, in
/// order: the second lists of dependencies go by the map file and by the
/// archetype file.
pub proof fn law_manifests_read_back(
    fields: Seq<(u32, ValueView)>,
    groups: Seq<StructView>,
    maps: Seq<StructView>,
    maps_2: Seq<StructView>,
    ityps_2: Seq<StructView>,
    bindings: Seq<StructView>,
    interiors: Seq<StructView>,
)
    requires
        says(fields, "MapDataGroups"@, struct_list(groups)),
        says(fields, "imapDependencies"@, struct_list(maps)),
        says(fields, "imapDependencies_2"@, struct_list(maps_2)),
        says(fields, "itypDependencies_2"@, struct_list(ityps_2)),
        says(fields, "HDTxdBindingArray"@, struct_list(bindings)),
        says(fields, "Interiors"@, struct_list(interiors)),
    ensures
        ({
            let m = crate::ymf::manifest_of(fields);
            &&& m.map_data_groups == Seq::new(
                groups.len(),
                |i: int| crate::ymf::map_data_group_of(ValueView::Struct(groups[i])),
            )
            &&& m.imap_dependencies == Seq::new(
                maps.len(),
                |i: int| crate::ymf::imap_dependency_of(ValueView::Struct(maps[i])),
            )
            &&& m.imap_dependencies_2 == Seq::new(
                maps_2.len(),
                |i: int| crate::ymf::dependencies_of(ValueView::Struct(maps_2[i]), "imapName"@),
            )
            &&& m.ityp_dependencies_2 == Seq::new(
                ityps_2.len(),
                |i: int| crate::ymf::dependencies_of(ValueView::Struct(ityps_2[i]), "itypName"@),
            )
            &&& m.hd_txd_bindings == Seq::new(
                bindings.len(),
                |i: int| crate::ymf::hd_txd_binding_of(ValueView::Struct(bindings[i])),
            )
            &&& m.interiors == Seq::new(
                interiors.len(),
                |i: int| crate::ymf::interior_bounds_of(ValueView::Struct(interiors[i])),
            )
        }),
{
    let m = crate::ymf::manifest_of(fields);
    assert(m.map_data_groups =~= Seq::new(
        groups.len(),
        |i: int| crate::ymf::map_data_group_of(ValueView::Struct(groups[i])),
    ));
    assert(m.imap_dependencies =~= Seq::new(
        maps.len(),
        |i: int| crate::ymf::imap_dependency_of(ValueView::Struct(maps[i])),
    ));
    assert(m.imap_dependencies_2 =~= Seq::new(
        maps_2.len(),
        |i: int| crate::ymf::dependencies_of(ValueView::Struct(maps_2[i]), "imapName"@),
    ));
    assert(m.ityp_dependencies_2 =~= Seq::new(
        ityps_2.len(),
        |i: int| crate::ymf::dependencies_of(ValueView::Struct(ityps_2[i]), "itypName"@),
    ));
    assert(m.hd_txd_bindings =~= Seq::new(
        bindings.len(),
        |i: int| crate::ymf::hd_txd_binding_of(ValueView::Struct(bindings[i])),
    ));
    assert(m.interiors =~= Seq::new(
        interiors.len(),
        |i: int| crate::ymf::interior_bounds_of(ValueView::Struct(interiors[i])),
    ));
}

/// The container of a manifest is told by its first four bytes, or, for XML,
/// by the tag that comes first.
pub proof fn law_containers_by_their_first_bytes(data: Seq<u8>)
    requires
        data.len() >= 4,
    ensures
        data.take(4) == seq![0x50u8, 0x53, 0x49, 0x4E] ==> crate::ymf::container(data) == Some(
            ManifestFormat::Pso,
        ),
        data.take(4) == seq![0x52u8, 0x42, 0x46, 0x30] ==> crate::ymf::container(data) == Some(
            ManifestFormat::Rbf,
        ),
        data.take(4) == seq![0x52u8, 0x53, 0x43, 0x37] ==> crate::ymf::container(data) == Some(
            ManifestFormat::Meta,
        ),
        data[0] == 0x3C ==> crate::ymf::container(data) == Some(ManifestFormat::Xml),
        0x61 <= data[0] <= 0x7A ==> crate::ymf::container(data) is None,
{
    let t = data.take(4);
    assert(t[0] == data[0] && t[1] == data[1] && t[2] == data[2] && t[3] == data[3]);
}

/// Only a structure called `CPackFileMetaData` is a manifest; what any other
/// tree is, the error says.
pub proof fn law_which_trees_are_manifests(root: ValueView)
    ensures
        match crate::ymf::manifest_in(root) {
            Ok(m) => root is Struct && root->Struct_0.type_hash == crate::hash::name_hash(
                "CPackFileMetaData"@,
            ) && m == crate::ymf::manifest_of(root->Struct_0.fields),
            Err(YmfError::WrongRoot(hash)) => root is Struct && root->Struct_0.type_hash == hash
                && hash != crate::hash::name_hash("CPackFileMetaData"@),
            Err(YmfError::NotStructure) => !(root is Struct),
            Err(_) => false,
        },
{
}

} // verus!
