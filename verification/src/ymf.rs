//! Pack-file manifests (`_manifest.ymf`): which `.ytyp`s each `.ymap` in a
//! resource depends on, HD texture bindings, interior collision lists and
//! timed map-data groups. The game reads them in three containers and
//! FiveM resources ship all three: PSO (most tools), RBF (retail props
//! packs, HD texture bindings only) and plain XML (hand-written). All three
//! decode to the same [`MetaValue`] tree and from there to [`Manifest`].

use vstd::prelude::*;
use vstd::slice::*;
use vstd::string::*;

use crate::coerce::FloatTexts;
use crate::hash::rage_joaat;
use crate::meta_block::MetaError;
use crate::meta_schema::dump_meta;
use crate::names::unknown;
use crate::pso::{dump_pso, is_pso, PsoError};
use crate::rbf::{is_rbf, rbf_to_value, RbfStructure};
use crate::resource::{is_fxap, u32_le, ResourceError, FXAP_MAGIC, RSC7_MAGIC};
use crate::text::{from_utf8, push_hex_lower};
use crate::value::{MetaDump, MetaStruct, MetaValue, ValueView};
use crate::warning::Warning;
use crate::xml::{from_xml, XmlError};

verus! {

broadcast use vstd::slice::group_slice_axioms;

/// A name that may have arrived as text (XML) or only as its hash (PSO).
#[derive(Debug, PartialEq, Eq)]
pub struct HashName {
    pub hash: u32,
    pub name: Option<String>,
}

/// The model of a [`HashName`].
#[verifier::ext_equal]
pub struct HashNameView {
    pub hash: u32,
    pub name: Option<Seq<char>>,
}

impl View for HashName {
    type V = HashNameView;

    open spec fn view(&self) -> HashNameView {
        HashNameView { hash: self.hash, name: crate::resource::text_of(self.name) }
    }
}

/// The models of a list of names.
pub open spec fn names_view(s: Seq<HashName>) -> Seq<HashNameView> {
    Seq::new(s.len(), |i: int| s[i]@)
}

/// What a value says as a name: nothing is the name with hash 0.
pub open spec fn hash_name_of(v: Option<ValueView>) -> HashNameView {
    match v {
        Some(ValueView::Str(s)) => HashNameView {
            hash: crate::hash::name_hash(s),
            name: Some(s),
        },
        Some(other) => HashNameView {
            hash: match crate::value::hash_of(other) {
                Some(h) => h,
                None => 0,
            },
            name: None,
        },
        None => HashNameView { hash: 0, name: None },
    }
}

/// What a value says as an asset type: a name, or the number that is stored.
pub open spec fn asset_type_of(v: Option<ValueView>) -> HashNameView {
    match v {
        Some(ValueView::Enum { value, .. }) => HashNameView {
            hash: value as u32,
            name: None,
        },
        Some(other) => match crate::value::hash_of(other) {
            Some(_) => hash_name_of(v),
            None => HashNameView { hash: number_or_zero(v), name: None },
        },
        None => hash_name_of(v),
    }
}

/// The elements of an array, none for anything else.
pub open spec fn items_or_none(v: Option<ValueView>) -> Seq<ValueView> {
    match v {
        Some(x) => crate::value::items_of(x),
        None => Seq::empty(),
    }
}

/// What a list says as names.
pub open spec fn hash_names_of(v: Option<ValueView>) -> Seq<HashNameView> {
    let items = items_or_none(v);
    Seq::new(items.len(), |i: int| hash_name_of(Some(items[i])))
}

/// The member of that name.
pub open spec fn member(fields: Seq<(u32, ValueView)>, name: Seq<char>) -> Option<ValueView> {
    crate::value::field_of(fields, crate::hash::name_hash(name))
}

/// The members of a structure, none for anything else.
pub open spec fn members_of(v: ValueView) -> Seq<(u32, ValueView)> {
    match v {
        ValueView::Struct(s) => s.fields,
        _ => Seq::empty(),
    }
}

/// A number, 0 for anything else.
pub open spec fn number_or_zero(v: Option<ValueView>) -> u32 {
    match v {
        Some(x) => match crate::value::unsigned_of(x) {
            Some(n) => n,
            None => 0,
        },
        None => 0,
    }
}

/// A text, empty for anything else.
pub open spec fn text_or_empty(v: Option<ValueView>) -> Seq<char> {
    match v {
        Some(ValueView::Str(s)) => s,
        _ => Seq::empty(),
    }
}

/// The elements of an array, none for anything else.
fn list_of(v: Option<&MetaValue>) -> (r: &[MetaValue])
    ensures
        crate::value::values_view(r@) == items_or_none(crate::value::opt_view(v)),
        r@.len() == items_or_none(crate::value::opt_view(v)).len(),
{
    match v {
        Some(x) => {
            let r = x.items();
            assert(crate::value::values_view(r@).len() == r@.len());
            r
        },
        None => {
            let none: &[MetaValue; 0] = &[];
            assert(crate::value::values_view(none@) =~= Seq::<ValueView>::empty());
            none
        },
    }
}

/// The member of that name, where the value is a structure.
fn find<'a>(v: &'a MetaValue, name: &str) -> (r: Option<&'a MetaValue>)
    ensures
        crate::value::opt_view(r) == member(members_of(v@), name@),
{
    match v {
        MetaValue::Struct(s) => {
            assert(v@ == ValueView::Struct(s@));
            s.field(name)
        },
        _ => None,
    }
}

fn read_number(v: Option<&MetaValue>) -> (r: u32)
    ensures
        r == number_or_zero(crate::value::opt_view(v)),
{
    match v {
        Some(x) => match x.as_u32() {
            Some(n) => n,
            None => 0,
        },
        None => 0,
    }
}

fn read_text(v: Option<&MetaValue>) -> (r: String)
    ensures
        r@ == text_or_empty(crate::value::opt_view(v)),
{
    match v {
        Some(MetaValue::Str(s)) => s.clone(),
        _ => {
            let r = String::new();
            assert(r@ =~= Seq::<char>::empty());
            r
        },
    }
}

impl HashName {
    fn from_value(v: Option<&MetaValue>) -> (r: Self)
        ensures
            r@ == hash_name_of(crate::value::opt_view(v)),
    {
        match v {
            Some(MetaValue::Str(s)) => Self { hash: rage_joaat(s.as_str()), name: Some(s.clone()) },
            Some(other) => Self {
                hash: match other.as_hash() {
                    Some(h) => h,
                    None => 0,
                },
                name: None,
            },
            None => Self { hash: 0, name: None },
        }
    }

    fn asset_type(v: Option<&MetaValue>) -> (r: Self)
        ensures
            r@ == asset_type_of(crate::value::opt_view(v)),
    {
        match v {
            Some(MetaValue::Enum { value, .. }) => Self { hash: *value as u32, name: None },
            Some(other) => match other.as_hash() {
                Some(_) => Self::from_value(v),
                None => Self {
                    hash: match other.as_u32() {
                        Some(n) => n,
                        None => 0,
                    },
                    name: None,
                },
            },
            None => Self::from_value(v),
        }
    }

    fn list(v: Option<&MetaValue>) -> (r: Vec<Self>)
        ensures
            names_view(r@) == hash_names_of(crate::value::opt_view(v)),
    {
        let items = list_of(v);
        let ghost all = items_or_none(crate::value::opt_view(v));
        let mut out: Vec<HashName> = Vec::new();
        let mut i: usize = 0;
        while i < items.len()
            invariant
                i <= items@.len(),
                crate::value::values_view(items@) == all,
                out@.len() == i,
                forall|k: int| 0 <= k < i ==> (#[trigger] out@[k])@ == hash_name_of(Some(all[k])),
            decreases items@.len() - i,
        {
            assert(all[i as int] == items@[i as int]@);
            out.push(Self::from_value(Some(&items[i])));
            i += 1;
        }
        assert(names_view(out@) =~= hash_names_of(crate::value::opt_view(v)));
        out
    }

    /// The name, or the placeholder of its hash.
    pub fn name(&self) -> (r: String)
        ensures
            r@ == (match self@.name {
                Some(n) => n,
                None => crate::names::placeholder(self.hash),
            }),
    {
        match &self.name {
            Some(n) => n.clone(),
            None => unknown(self.hash),
        }
    }
}

impl Default for HashName {
    fn default() -> (r: Self)
        ensures
            r@ == (HashNameView { hash: 0, name: None }),
    {
        HashName { hash: 0, name: None }
    }
}

/// A `CMapDataGroup`: a named set of map files switched by weather or hour.
#[derive(Debug, PartialEq, Eq)]
pub struct MapDataGroup {
    pub name: HashName,
    pub bounds: Vec<HashName>,
    pub weather_types: Vec<HashName>,
    pub flags: u32,
    pub hours_on_off: u32,
}

/// The model of a [`MapDataGroup`].
#[verifier::ext_equal]
pub struct MapDataGroupView {
    pub name: HashNameView,
    pub bounds: Seq<HashNameView>,
    pub weather_types: Seq<HashNameView>,
    pub flags: u32,
    pub hours_on_off: u32,
}

impl View for MapDataGroup {
    type V = MapDataGroupView;

    open spec fn view(&self) -> MapDataGroupView {
        MapDataGroupView {
            name: self.name@,
            bounds: names_view(self.bounds@),
            weather_types: names_view(self.weather_types@),
            flags: self.flags,
            hours_on_off: self.hours_on_off,
        }
    }
}

/// What a value says as a `MapDataGroup`.
pub open spec fn map_data_group_of(v: ValueView) -> MapDataGroupView {
    let s = members_of(v);
    MapDataGroupView {
        name: hash_name_of(member(s, "Name"@)),
        bounds: hash_names_of(member(s, "Bounds"@)),
        weather_types: hash_names_of(member(s, "WeatherTypes"@)),
        flags: number_or_zero(member(s, "Flags"@)),
        hours_on_off: number_or_zero(member(s, "HoursOnOff"@)),
    }
}

fn read_map_data_group(v: &MetaValue) -> (r: MapDataGroup)
    ensures
        r@ == map_data_group_of(v@),
{
    let r = MapDataGroup {
        name: HashName::from_value(find(v, "Name")),
        bounds: HashName::list(find(v, "Bounds")),
        weather_types: HashName::list(find(v, "WeatherTypes")),
        flags: read_number(find(v, "Flags")),
        hours_on_off: read_number(find(v, "HoursOnOff")),
    };
    assert(r@ =~= map_data_group_of(v@));
    r
}

/// The models of a list of these.
pub open spec fn map_data_group_views(s: Seq<MapDataGroup>) -> Seq<MapDataGroupView> {
    Seq::new(s.len(), |i: int| s[i]@)
}

/// What a list says as these.
pub open spec fn map_data_group_list(items: Seq<ValueView>) -> Seq<MapDataGroupView> {
    Seq::new(items.len(), |i: int| map_data_group_of(items[i]))
}

fn read_map_data_group_list(root: &MetaStruct, member_name: &str) -> (r: Vec<MapDataGroup>)
    ensures
        map_data_group_views(r@) == map_data_group_list(items_or_none(member(root@.fields, member_name@))),
{
    let items = list_of(root.field(member_name));
    let ghost all = items_or_none(member(root@.fields, member_name@));
    assert(items@.len() == all.len());
    let mut out: Vec<MapDataGroup> = Vec::new();
    let mut i: usize = 0;
    while i < items.len()
        invariant
            i <= items@.len(),
            crate::value::values_view(items@) == all,
            out@.len() == i,
            forall|k: int| 0 <= k < i ==> (#[trigger] out@[k])@ == map_data_group_of(all[k]),
        decreases items@.len() - i,
    {
        assert(all[i as int] == items@[i as int]@);
        out.push(read_map_data_group(&items[i]));
        i += 1;
    }
    assert(map_data_group_views(out@) =~= map_data_group_list(all));
    out
}

/// A `CImapDependency` (the older single-ytyp form).
#[derive(Debug, PartialEq, Eq)]
pub struct ImapDependency {
    pub imap: HashName,
    pub ityp: HashName,
    pub pack_file: HashName,
}

/// The model of a [`ImapDependency`].
#[verifier::ext_equal]
pub struct ImapDependencyView {
    pub imap: HashNameView,
    pub ityp: HashNameView,
    pub pack_file: HashNameView,
}

impl View for ImapDependency {
    type V = ImapDependencyView;

    open spec fn view(&self) -> ImapDependencyView {
        ImapDependencyView {
            imap: self.imap@,
            ityp: self.ityp@,
            pack_file: self.pack_file@,
        }
    }
}

/// What a value says as a `ImapDependency`.
pub open spec fn imap_dependency_of(v: ValueView) -> ImapDependencyView {
    let s = members_of(v);
    ImapDependencyView {
        imap: hash_name_of(member(s, "imapName"@)),
        ityp: hash_name_of(member(s, "itypName"@)),
        pack_file: hash_name_of(member(s, "packFileName"@)),
    }
}

fn read_imap_dependency(v: &MetaValue) -> (r: ImapDependency)
    ensures
        r@ == imap_dependency_of(v@),
{
    let r = ImapDependency {
        imap: HashName::from_value(find(v, "imapName")),
        ityp: HashName::from_value(find(v, "itypName")),
        pack_file: HashName::from_value(find(v, "packFileName")),
    };
    assert(r@ =~= imap_dependency_of(v@));
    r
}

/// The models of a list of these.
pub open spec fn imap_dependency_views(s: Seq<ImapDependency>) -> Seq<ImapDependencyView> {
    Seq::new(s.len(), |i: int| s[i]@)
}

/// What a list says as these.
pub open spec fn imap_dependency_list(items: Seq<ValueView>) -> Seq<ImapDependencyView> {
    Seq::new(items.len(), |i: int| imap_dependency_of(items[i]))
}

fn read_imap_dependency_list(root: &MetaStruct, member_name: &str) -> (r: Vec<ImapDependency>)
    ensures
        imap_dependency_views(r@) == imap_dependency_list(items_or_none(member(root@.fields, member_name@))),
{
    let items = list_of(root.field(member_name));
    let ghost all = items_or_none(member(root@.fields, member_name@));
    assert(items@.len() == all.len());
    let mut out: Vec<ImapDependency> = Vec::new();
    let mut i: usize = 0;
    while i < items.len()
        invariant
            i <= items@.len(),
            crate::value::values_view(items@) == all,
            out@.len() == i,
            forall|k: int| 0 <= k < i ==> (#[trigger] out@[k])@ == imap_dependency_of(all[k]),
        decreases items@.len() - i,
    {
        assert(all[i as int] == items@[i as int]@);
        out.push(read_imap_dependency(&items[i]));
        i += 1;
    }
    assert(imap_dependency_views(out@) =~= imap_dependency_list(all));
    out
}

/// A `CHDTxdAssetBinding`: the HD texture dictionary to swap in for an asset.
#[derive(Debug, PartialEq, Eq)]
pub struct HdTxdBinding {
    /// `AT_TXD`, `AT_DRB`, `AT_DWD` or `AT_FRG` as stored (0..=3), or the
    /// enum member's name from an XML manifest.
    pub asset_type: HashName,
    pub target_asset: String,
    pub hd_txd: String,
}

/// The model of a [`HdTxdBinding`].
#[verifier::ext_equal]
pub struct HdTxdBindingView {
    pub asset_type: HashNameView,
    pub target_asset: Seq<char>,
    pub hd_txd: Seq<char>,
}

impl View for HdTxdBinding {
    type V = HdTxdBindingView;

    open spec fn view(&self) -> HdTxdBindingView {
        HdTxdBindingView {
            asset_type: self.asset_type@,
            target_asset: self.target_asset@,
            hd_txd: self.hd_txd@,
        }
    }
}

/// What a value says as a `HdTxdBinding`.
pub open spec fn hd_txd_binding_of(v: ValueView) -> HdTxdBindingView {
    let s = members_of(v);
    HdTxdBindingView {
        asset_type: asset_type_of(member(s, "assetType"@)),
        target_asset: text_or_empty(member(s, "targetAsset"@)),
        hd_txd: text_or_empty(member(s, "HDTxd"@)),
    }
}

fn read_hd_txd_binding(v: &MetaValue) -> (r: HdTxdBinding)
    ensures
        r@ == hd_txd_binding_of(v@),
{
    let r = HdTxdBinding {
        asset_type: HashName::asset_type(find(v, "assetType")),
        target_asset: read_text(find(v, "targetAsset")),
        hd_txd: read_text(find(v, "HDTxd")),
    };
    assert(r@ =~= hd_txd_binding_of(v@));
    r
}

/// The models of a list of these.
pub open spec fn hd_txd_binding_views(s: Seq<HdTxdBinding>) -> Seq<HdTxdBindingView> {
    Seq::new(s.len(), |i: int| s[i]@)
}

/// What a list says as these.
pub open spec fn hd_txd_binding_list(items: Seq<ValueView>) -> Seq<HdTxdBindingView> {
    Seq::new(items.len(), |i: int| hd_txd_binding_of(items[i]))
}

fn read_hd_txd_binding_list(root: &MetaStruct, member_name: &str) -> (r: Vec<HdTxdBinding>)
    ensures
        hd_txd_binding_views(r@) == hd_txd_binding_list(items_or_none(member(root@.fields, member_name@))),
{
    let items = list_of(root.field(member_name));
    let ghost all = items_or_none(member(root@.fields, member_name@));
    assert(items@.len() == all.len());
    let mut out: Vec<HdTxdBinding> = Vec::new();
    let mut i: usize = 0;
    while i < items.len()
        invariant
            i <= items@.len(),
            crate::value::values_view(items@) == all,
            out@.len() == i,
            forall|k: int| 0 <= k < i ==> (#[trigger] out@[k])@ == hd_txd_binding_of(all[k]),
        decreases items@.len() - i,
    {
        assert(all[i as int] == items@[i as int]@);
        out.push(read_hd_txd_binding(&items[i]));
        i += 1;
    }
    assert(hd_txd_binding_views(out@) =~= hd_txd_binding_list(all));
    out
}

/// A `CInteriorBoundsFiles`: an interior and its collision files.
#[derive(Debug, PartialEq, Eq)]
pub struct InteriorBounds {
    pub name: HashName,
    pub bounds: Vec<HashName>,
}

/// The model of a [`InteriorBounds`].
#[verifier::ext_equal]
pub struct InteriorBoundsView {
    pub name: HashNameView,
    pub bounds: Seq<HashNameView>,
}

impl View for InteriorBounds {
    type V = InteriorBoundsView;

    open spec fn view(&self) -> InteriorBoundsView {
        InteriorBoundsView {
            name: self.name@,
            bounds: names_view(self.bounds@),
        }
    }
}

/// What a value says as a `InteriorBounds`.
pub open spec fn interior_bounds_of(v: ValueView) -> InteriorBoundsView {
    let s = members_of(v);
    InteriorBoundsView {
        name: hash_name_of(member(s, "Name"@)),
        bounds: hash_names_of(member(s, "Bounds"@)),
    }
}

fn read_interior_bounds(v: &MetaValue) -> (r: InteriorBounds)
    ensures
        r@ == interior_bounds_of(v@),
{
    let r = InteriorBounds {
        name: HashName::from_value(find(v, "Name")),
        bounds: HashName::list(find(v, "Bounds")),
    };
    assert(r@ =~= interior_bounds_of(v@));
    r
}

/// The models of a list of these.
pub open spec fn interior_bounds_views(s: Seq<InteriorBounds>) -> Seq<InteriorBoundsView> {
    Seq::new(s.len(), |i: int| s[i]@)
}

/// What a list says as these.
pub open spec fn interior_bounds_list(items: Seq<ValueView>) -> Seq<InteriorBoundsView> {
    Seq::new(items.len(), |i: int| interior_bounds_of(items[i]))
}

fn read_interior_bounds_list(root: &MetaStruct, member_name: &str) -> (r: Vec<InteriorBounds>)
    ensures
        interior_bounds_views(r@) == interior_bounds_list(items_or_none(member(root@.fields, member_name@))),
{
    let items = list_of(root.field(member_name));
    let ghost all = items_or_none(member(root@.fields, member_name@));
    assert(items@.len() == all.len());
    let mut out: Vec<InteriorBounds> = Vec::new();
    let mut i: usize = 0;
    while i < items.len()
        invariant
            i <= items@.len(),
            crate::value::values_view(items@) == all,
            out@.len() == i,
            forall|k: int| 0 <= k < i ==> (#[trigger] out@[k])@ == interior_bounds_of(all[k]),
        decreases items@.len() - i,
    {
        assert(all[i as int] == items@[i as int]@);
        out.push(read_interior_bounds(&items[i]));
        i += 1;
    }
    assert(interior_bounds_views(out@) =~= interior_bounds_list(all));
    out
}

/// A `CImapDependencies` / `CItypDependencies` entry: one map or type file
/// and the type files it needs loaded first.
#[derive(Debug, PartialEq, Eq)]
pub struct Dependencies {
    pub name: HashName,
    pub manifest_flags: u32,
    pub ityp_deps: Vec<HashName>,
}

/// The model of a [`Dependencies`].
#[verifier::ext_equal]
pub struct DependenciesView {
    pub name: HashNameView,
    pub manifest_flags: u32,
    pub ityp_deps: Seq<HashNameView>,
}

impl View for Dependencies {
    type V = DependenciesView;

    open spec fn view(&self) -> DependenciesView {
        DependenciesView {
            name: self.name@,
            manifest_flags: self.manifest_flags,
            ityp_deps: names_view(self.ityp_deps@),
        }
    }
}

/// What a value says as a `Dependencies`.
pub open spec fn dependencies_of(v: ValueView, name_field: Seq<char>) -> DependenciesView {
    let s = members_of(v);
    DependenciesView {
        name: hash_name_of(member(s, name_field)),
        manifest_flags: number_or_zero(member(s, "manifestFlags"@)),
        ityp_deps: hash_names_of(member(s, "itypDepArray"@)),
    }
}

fn read_dependencies(v: &MetaValue, name_field: &str) -> (r: Dependencies)
    ensures
        r@ == dependencies_of(v@, name_field@),
{
    let r = Dependencies {
        name: HashName::from_value(find(v, name_field)),
        manifest_flags: read_number(find(v, "manifestFlags")),
        ityp_deps: HashName::list(find(v, "itypDepArray")),
    };
    assert(r@ =~= dependencies_of(v@, name_field@));
    r
}

/// The models of a list of these.
pub open spec fn dependencies_views(s: Seq<Dependencies>) -> Seq<DependenciesView> {
    Seq::new(s.len(), |i: int| s[i]@)
}

/// What a list says as these.
pub open spec fn dependencies_list(items: Seq<ValueView>, name_field: Seq<char>) -> Seq<DependenciesView> {
    Seq::new(items.len(), |i: int| dependencies_of(items[i], name_field))
}

fn read_dependencies_list(root: &MetaStruct, member_name: &str, name_field: &str) -> (r: Vec<Dependencies>)
    ensures
        dependencies_views(r@) == dependencies_list(items_or_none(member(root@.fields, member_name@)), name_field@),
{
    let items = list_of(root.field(member_name));
    let ghost all = items_or_none(member(root@.fields, member_name@));
    assert(items@.len() == all.len());
    let mut out: Vec<Dependencies> = Vec::new();
    let mut i: usize = 0;
    while i < items.len()
        invariant
            i <= items@.len(),
            crate::value::values_view(items@) == all,
            out@.len() == i,
            forall|k: int| 0 <= k < i ==> (#[trigger] out@[k])@ == dependencies_of(all[k], name_field@),
        decreases items@.len() - i,
    {
        assert(all[i as int] == items@[i as int]@);
        out.push(read_dependencies(&items[i], name_field));
        i += 1;
    }
    assert(dependencies_views(out@) =~= dependencies_list(all, name_field@));
    out
}

/// The typed contents of a manifest.
#[derive(Debug, PartialEq, Eq)]
pub struct Manifest {
    pub map_data_groups: Vec<MapDataGroup>,
    pub imap_dependencies: Vec<ImapDependency>,
    pub imap_dependencies_2: Vec<Dependencies>,
    pub ityp_dependencies_2: Vec<Dependencies>,
    pub hd_txd_bindings: Vec<HdTxdBinding>,
    pub interiors: Vec<InteriorBounds>,
}

/// The model of a [`Manifest`].
#[verifier::ext_equal]
pub struct ManifestView {
    pub map_data_groups: Seq<MapDataGroupView>,
    pub imap_dependencies: Seq<ImapDependencyView>,
    pub imap_dependencies_2: Seq<DependenciesView>,
    pub ityp_dependencies_2: Seq<DependenciesView>,
    pub hd_txd_bindings: Seq<HdTxdBindingView>,
    pub interiors: Seq<InteriorBoundsView>,
}

impl View for Manifest {
    type V = ManifestView;

    open spec fn view(&self) -> ManifestView {
        ManifestView {
            map_data_groups: map_data_group_views(self.map_data_groups@),
            imap_dependencies: imap_dependency_views(self.imap_dependencies@),
            imap_dependencies_2: dependencies_views(self.imap_dependencies_2@),
            ityp_dependencies_2: dependencies_views(self.ityp_dependencies_2@),
            hd_txd_bindings: hd_txd_binding_views(self.hd_txd_bindings@),
            interiors: interior_bounds_views(self.interiors@),
        }
    }
}

/// The manifest that a structure's members hold.
pub open spec fn manifest_of(fields: Seq<(u32, ValueView)>) -> ManifestView {
    ManifestView {
        map_data_groups: map_data_group_list(items_or_none(member(fields, "MapDataGroups"@))),
        imap_dependencies: imap_dependency_list(items_or_none(member(fields, "imapDependencies"@))),
        imap_dependencies_2: dependencies_list(items_or_none(member(fields, "imapDependencies_2"@)), "imapName"@),
        ityp_dependencies_2: dependencies_list(items_or_none(member(fields, "itypDependencies_2"@)), "itypName"@),
        hd_txd_bindings: hd_txd_binding_list(items_or_none(member(fields, "HDTxdBindingArray"@))),
        interiors: interior_bounds_list(items_or_none(member(fields, "Interiors"@))),
    }
}

/// Which container a manifest came in.
#[derive(Debug, Clone, Copy, PartialEq, Eq, Structural)]
pub enum ManifestFormat {
    Pso,
    Rbf,
    Meta,
    Xml,
}

/// Whether a byte may stand before the first tag: white space or a part of a
/// byte order mark.
pub open spec fn is_lead_in(b: u8) -> bool {
    b == 0x20 || b == 9 || b == 10 || b == 12 || b == 13 || b == 0xEF || b == 0xBB || b == 0xBF
}

/// Whether the first byte from `i` on that is no lead-in is a `<`, among the
/// first sixty-four.
pub open spec fn starts_with_tag(data: Seq<u8>, i: int) -> bool
    decreases 64 - i,
{
    if i >= data.len() || i >= 64 {
        false
    } else if is_lead_in(data[i]) {
        starts_with_tag(data, i + 1)
    } else {
        data[i] == 0x3C
    }
}

/// The container that some bytes start like.
pub open spec fn container(data: Seq<u8>) -> Option<ManifestFormat> {
    if crate::pso::has_magic(data) {
        Some(ManifestFormat::Pso)
    } else if data.len() >= 4 && crate::bytes::le32(data, 0) == crate::rbf::RBF_MAGIC {
        Some(ManifestFormat::Rbf)
    } else if data.len() >= 4 && crate::bytes::le32(data, 0) == RSC7_MAGIC {
        Some(ManifestFormat::Meta)
    } else if starts_with_tag(data, 0) {
        Some(ManifestFormat::Xml)
    } else {
        None
    }
}

fn tag_comes_first(data: &[u8]) -> (r: bool)
    ensures
        r == starts_with_tag(data@, 0),
{
    let mut i: usize = 0;
    while i < data.len() && i < 64
        invariant
            i <= data@.len(),
            i <= 64,
            starts_with_tag(data@, 0) == starts_with_tag(data@, i as int),
        decreases 64 - i,
    {
        let b = data[i];
        if !(b == 0x20 || b == 9 || b == 10 || b == 12 || b == 13 || b == 0xEF || b == 0xBB || b
            == 0xBF) {
            return b == 0x3C;
        }
        i += 1;
    }
    false
}

impl ManifestFormat {
    /// Looks at the first bytes only.
    pub fn detect(data: &[u8]) -> (r: Option<Self>)
        ensures
            r == container(data@),
    {
        if is_pso(data) {
            Some(Self::Pso)
        } else if is_rbf(data) {
            Some(Self::Rbf)
        } else if data.len() >= 4 && u32_le(data, 0) == RSC7_MAGIC {
            Some(Self::Meta)
        } else if tag_comes_first(data) {
            Some(Self::Xml)
        } else {
            None
        }
    }
}

/// Why a manifest could not be read.
#[derive(Debug, Clone, Copy, PartialEq, Eq, Structural)]
pub enum YmfError {
    /// An escrowed file, which only the game can open.
    Escrowed,
    /// No container that manifests come in.
    Unknown,
    Pso(PsoError),
    /// The records of an RBF file were not read.
    Rbf,
    Meta(MetaError),
    /// An XML manifest that is not UTF-8.
    NotText,
    Xml(XmlError),
    NotStructure,
    /// The root is a structure of another type.
    WrongRoot(u32),
}

impl YmfError {
    /// The error in words.
    pub fn message(&self) -> (r: String)
        ensures
            r@ == self.text(),
    {
        let mut out = String::new();
        match self {
            YmfError::Escrowed => {
                out.append("manifest is an escrowed (FXAP) file and cannot be read");
            },
            YmfError::Unknown => {
                out.append("not a manifest: neither PSO, RBF, RSC7 Meta nor XML");
            },
            YmfError::Pso(e) => {
                let inner = e.message();
                out.append(inner.as_str());
            },
            YmfError::Rbf => {
                out.append("the RBF records could not be read");
            },
            YmfError::Meta(e) => {
                let inner = e.message();
                out.append(inner.as_str());
            },
            YmfError::NotText => {
                out.append("manifest XML is not UTF-8");
            },
            YmfError::Xml(e) => {
                let inner = e.message();
                out.append(inner.as_str());
            },
            YmfError::NotStructure => {
                out.append("manifest root is not a structure");
            },
            YmfError::WrongRoot(h) => {
                out.append("manifest root is not CPackFileMetaData (structure ");
                out.append("0x");
                push_hex_lower(&mut out, *h as u64, 8);
                out.append(")");
            },
        }
        assert(out@ =~= self.text());
        out
    }

    /// The error in words.
    pub open spec fn text(&self) -> Seq<char> {
        match self {
            YmfError::Escrowed => "manifest is an escrowed (FXAP) file and cannot be read"@,
            YmfError::Unknown => "not a manifest: neither PSO, RBF, RSC7 Meta nor XML"@,
            YmfError::Pso(e) => e.text(),
            YmfError::Rbf => "the RBF records could not be read"@,
            YmfError::Meta(e) => e.text(),
            YmfError::NotText => "manifest XML is not UTF-8"@,
            YmfError::Xml(e) => e.text(),
            YmfError::NotStructure => "manifest root is not a structure"@,
            YmfError::WrongRoot(h) => "manifest root is not CPackFileMetaData (structure "@ + "0x"@ + crate::text::hex_lower(*h as nat, 8) + ")"@,
        }
    }
}

/// A decoded tree and what could not be decoded.
#[verifier::ext_equal]
pub struct DumpView {
    pub root: ValueView,
    pub warnings: Seq<Warning>,
}

/// What a call decoded.
pub open spec fn dump_view(r: Result<(ManifestFormat, MetaDump), YmfError>) -> Result<
    (ManifestFormat, DumpView),
    YmfError,
> {
    match r {
        Ok((f, d)) => Ok((f, DumpView { root: d.root@, warnings: d.warnings@ })),
        Err(e) => Err(e),
    }
}

/// What a PSO manifest decodes to.
pub open spec fn pso_dump(data: Seq<u8>) -> Result<(ManifestFormat, DumpView), YmfError> {
    match crate::pso::parsed(data) {
        Ok(file) => {
            let w = crate::pso::walked(file);
            Ok(
                (
                    ManifestFormat::Pso,
                    DumpView { root: w.value, warnings: crate::warning::capped(w.warnings) },
                ),
            )
        },
        Err(e) => Err(YmfError::Pso(e)),
    }
}

/// What a Meta manifest with these sections decodes to.
pub open spec fn meta_dump(sections: Result<(Seq<u8>, Seq<u8>), ResourceError>) -> Result<
    (ManifestFormat, DumpView),
    YmfError,
> {
    match crate::meta_schema::parsed_file(sections) {
        Ok(file) => {
            let w = crate::meta_schema::walked(file);
            Ok(
                (
                    ManifestFormat::Meta,
                    DumpView { root: w.value, warnings: crate::warning::capped(w.warnings) },
                ),
            )
        },
        Err(e) => Err(YmfError::Meta(e)),
    }
}

/// What an XML manifest decodes to.
pub open spec fn xml_dump(data: Seq<u8>, floats: crate::coerce::Floats) -> Result<
    (ManifestFormat, DumpView),
    YmfError,
> {
    if !vstd::utf8::valid_utf8(data) {
        Err(YmfError::NotText)
    } else {
        let nodes = crate::xml::parsed_nodes(vstd::utf8::decode_utf8(data));
        match crate::xml::tree_of(nodes, floats) {
            Ok(root) => Ok((ManifestFormat::Xml, DumpView { root, warnings: Seq::empty() })),
            Err(e) => Err(YmfError::Xml(e)),
        }
    }
}

/// What an RBF manifest with these records decodes to.
pub open spec fn rbf_dump(rbf: Option<crate::rbf::RbfView>) -> Result<
    (ManifestFormat, DumpView),
    YmfError,
> {
    match rbf {
        Some(s) => Ok(
            (
                ManifestFormat::Rbf,
                DumpView { root: crate::rbf::lifted(s), warnings: Seq::empty() },
            ),
        ),
        None => Err(YmfError::Rbf),
    }
}

/// The model of optional records.
pub open spec fn records_view(rbf: Option<&RbfStructure>) -> Option<crate::rbf::RbfView> {
    match rbf {
        Some(s) => Some(s@),
        None => None,
    }
}

/// Whether a manifest decodes to `out`.
pub open spec fn dumps_to(
    data: Seq<u8>,
    rbf: Option<crate::rbf::RbfView>,
    floats: crate::coerce::Floats,
    out: Result<(ManifestFormat, DumpView), YmfError>,
) -> bool {
    if data.len() >= 4 && crate::bytes::le32(data, 0) == FXAP_MAGIC {
        out == Err::<(ManifestFormat, DumpView), YmfError>(YmfError::Escrowed)
    } else {
        match container(data) {
            None => out == Err::<(ManifestFormat, DumpView), YmfError>(YmfError::Unknown),
            Some(ManifestFormat::Pso) => out == pso_dump(data),
            Some(ManifestFormat::Rbf) => out == rbf_dump(rbf),
            Some(ManifestFormat::Xml) => out == xml_dump(data, floats),
            Some(ManifestFormat::Meta) => exists|sections: Result<
                (Seq<u8>, Seq<u8>),
                ResourceError,
            >| #[trigger]
                crate::resource::unpacks_to(data, sections) && out == meta_dump(sections),
        }
    }
}

/// Decodes a manifest in any of its containers into the generic tree. `rbf`
/// holds the records of an RBF manifest, `floats` what the texts of an XML
/// one write.
pub fn dump_ymf(data: &[u8], rbf: Option<&RbfStructure>, floats: &FloatTexts) -> (r: Result<
    (ManifestFormat, MetaDump),
    YmfError,
>)
    ensures
        dumps_to(data@, records_view(rbf), floats@, dump_view(r)),
{
    if is_fxap(data) {
        return Err(YmfError::Escrowed);
    }
    let format = match ManifestFormat::detect(data) {
        Some(f) => f,
        None => {
            return Err(YmfError::Unknown);
        },
    };
    match format {
        ManifestFormat::Pso => match dump_pso(data) {
            Ok(dump) => Ok((format, dump)),
            Err(e) => Err(YmfError::Pso(e)),
        },
        ManifestFormat::Rbf => match rbf {
            Some(s) => {
                let dump = MetaDump { root: rbf_to_value(s), warnings: Vec::new() };
                assert(dump.warnings@ =~= Seq::<Warning>::empty());
                Ok((format, dump))
            },
            None => Err(YmfError::Rbf),
        },
        ManifestFormat::Meta => match dump_meta(data) {
            Ok(dump) => Ok((format, dump)),
            Err(e) => Err(YmfError::Meta(e)),
        },
        ManifestFormat::Xml => match from_utf8(data) {
            None => Err(YmfError::NotText),
            Some(text) => match from_xml(text.as_str(), floats) {
                Ok(root) => {
                    let dump = MetaDump { root, warnings: Vec::new() };
                    assert(dump.warnings@ =~= Seq::<Warning>::empty());
                    Ok((format, dump))
                },
                Err(e) => Err(YmfError::Xml(e)),
            },
        },
    }
}

/// What a tree says as a manifest.
pub open spec fn manifest_in(root: ValueView) -> Result<ManifestView, YmfError> {
    match root {
        ValueView::Struct(s) => if s.type_hash != crate::hash::name_hash("CPackFileMetaData"@) {
            Err(YmfError::WrongRoot(s.type_hash))
        } else {
            Ok(manifest_of(s.fields))
        },
        _ => Err(YmfError::NotStructure),
    }
}

/// What a call read.
pub open spec fn manifest_view(r: Result<Manifest, YmfError>) -> Result<ManifestView, YmfError> {
    match r {
        Ok(m) => Ok(m@),
        Err(e) => Err(e),
    }
}

impl Manifest {
    /// Reads the typed lists out of a `CPackFileMetaData` tree.
    pub fn from_value(root: &MetaValue) -> (r: Result<Self, YmfError>)
        ensures
            manifest_view(r) == manifest_in(root@),
    {
        let root = match root {
            MetaValue::Struct(s) => {
                assert(root@ == ValueView::Struct(s@));
                s
            },
            _ => {
                return Err(YmfError::NotStructure);
            },
        };
        if root.type_hash != rage_joaat("CPackFileMetaData") {
            return Err(YmfError::WrongRoot(root.type_hash));
        }
        let m = Self {
            map_data_groups: read_map_data_group_list(root, "MapDataGroups"),
            imap_dependencies: read_imap_dependency_list(root, "imapDependencies"),
            imap_dependencies_2: read_dependencies_list(root, "imapDependencies_2", "imapName"),
            ityp_dependencies_2: read_dependencies_list(root, "itypDependencies_2", "itypName"),
            hd_txd_bindings: read_hd_txd_binding_list(root, "HDTxdBindingArray"),
            interiors: read_interior_bounds_list(root, "Interiors"),
        };
        assert(m@ =~= manifest_of(root@.fields));
        Ok(m)
    }

    /// True when nothing at all is listed.
    pub fn is_empty(&self) -> (r: bool)
        ensures
            r == (self@.map_data_groups.len() == 0 && self@.imap_dependencies.len() == 0 && self@.imap_dependencies_2.len() == 0 && self@.ityp_dependencies_2.len() == 0 && self@.hd_txd_bindings.len() == 0 && self@.interiors.len() == 0),
    {
        self.map_data_groups.len() == 0 && self.imap_dependencies.len() == 0 && self.imap_dependencies_2.len() == 0 && self.ityp_dependencies_2.len() == 0 && self.hd_txd_bindings.len() == 0 && self.interiors.len() == 0
    }
}

/// Parses a manifest in any of its containers.
pub fn parse_ymf(data: &[u8], rbf: Option<&RbfStructure>, floats: &FloatTexts) -> (r: Result<
    (ManifestFormat, Manifest),
    YmfError,
>)
    ensures
        exists|dump: Result<(ManifestFormat, DumpView), YmfError>| #[trigger]
            dumps_to(data@, records_view(rbf), floats@, dump) && (match dump {
                Err(e) => r == Err::<(ManifestFormat, Manifest), YmfError>(e),
                Ok((f, d)) => match r {
                    Ok((format, m)) => format == f && manifest_in(d.root) == Ok::<
                        ManifestView,
                        YmfError,
                    >(m@),
                    Err(e) => manifest_in(d.root) == Err::<ManifestView, YmfError>(e),
                },
            }),
{
    let dumped = dump_ymf(data, rbf, floats);
    let ghost seen = dump_view(dumped);
    assert(dumps_to(data@, records_view(rbf), floats@, seen));
    match dumped {
        Err(e) => Err(e),
        Ok((format, dump)) => match Manifest::from_value(&dump.root) {
            Ok(m) => Ok((format, m)),
            Err(e) => Err(e),
        },
    }
}

// ─── laws ────────────────────────────────────────────────────────────────────

/// A name that came as text has the hash of that text.
pub proof fn law_names_carry_their_hash(v: Option<ValueView>)
    ensures
        hash_name_of(v).name matches Some(n) ==> hash_name_of(v).hash == crate::hash::name_hash(n),
{
}

/// An escrowed file is no manifest in any container.
pub proof fn law_escrowed_is_no_container(data: Seq<u8>)
    requires
        data.len() >= 4,
        crate::bytes::le32(data, 0) == FXAP_MAGIC,
    ensures
        container(data) is None,
{
    broadcast use crate::bytes::group_subrange_reads;

}

} // verus!
