//! RAGE resource formats: the RSC7-wrapped files GTA V streams — texture
//! dictionaries (`.ytd`), collision (`.ybn`), navmeshes (`.ynv`), archetype
//! and placement metadata (`.ytyp`, `.ymap`), pack-file manifests (`.ymf`),
//! the world cache — read from bytes into plain structs and, where it
//! matters, written back. What every function returns is stated in its
//! contract and proved.
//!
//! Singles are kept as their bits throughout: this library moves them, orders
//! them and converts them to and from integers, but does no other arithmetic
//! on them.

pub mod access_laws;
pub mod build_warning;
pub mod bytes;
pub mod cache_dat;
pub mod cache_laws;
pub mod chars;
pub mod coerce;
pub mod coerce_laws;
pub mod dds;
pub mod fault_laws;
pub mod hash;
pub mod json;
pub mod json_laws;
pub mod json_text;
pub mod layout;
pub mod list_laws;
pub mod manifest_laws;
pub mod map_laws;
pub mod math;
pub mod meta_block;
pub mod meta_laws;
pub mod meta_schema;
pub mod meta_write;
pub mod mip_laws;
pub mod names;
pub mod page_laws;
pub mod paging;
pub mod pso;
pub mod pso_laws;
pub mod pso_write;
pub mod rbf;
pub mod resource;
pub mod schema;
pub mod schema_laws;
pub mod single;
pub mod text;
pub mod texture_encode;
pub mod texture_laws;
pub mod value;
pub mod value_laws;
pub mod warning;
pub mod word_laws;
pub mod writer_laws;
pub mod xml;
pub mod xml_laws;
pub mod ybn;
pub mod ybn_laws;
pub mod ymap;
pub mod ymf;
pub mod ynv;
pub mod ynv_laws;
pub mod ynv_write;
pub mod ytd;
pub mod ytd_laws;
pub mod ytd_write;
pub mod ytyp;

pub use cache_dat::{parse_cache_dat, CacheDat};
pub use dds::parse_dds;
pub use hash::rage_joaat;
pub use json::to_json;
pub use json_text::from_json;
pub use math::{Vec2, Vec3, Vec4};
pub use meta_schema::{dump_meta, parse_meta, MetaFile};
pub use meta_write::build_meta;
pub use names::NameTable;
pub use paging::{pack_pages, PagedLayout};
pub use pso::{dump_pso, is_pso, parse_pso, PsoFile, PSO_MAGIC};
pub use pso_write::build_pso;
pub use resource::{
    build_rsc7, build_rsc7_paged, build_rsc7_with_flags, is_fxap, prepare_rsc7,
    resource_size_from_flags, resource_version_from_flags, rsc7_flags_for_pages,
    rsc7_flags_for_size, rsc7_page_count, FXAP_MAGIC, GRAPHICS_BASE, RSC7_MAGIC, RSC8_MAGIC,
    SYSTEM_BASE,
};
pub use schema::Schema;
pub use texture_encode::{auto_format, encode_texture, is_normal_map_name, EncodeFormat};
pub use value::{MetaArray, MetaDump, MetaStruct, MetaValue};
pub use xml::{from_xml, to_xml};
pub use ybn::{
    parse_ybn, Bound, BoundGeometry, BoundKind, BoundTransform, BoundTriangle, Triangle, Ybn,
};
pub use ymap::{parse_ymap_entities, YmapEntity};
pub use ymf::{
    dump_ymf, parse_ymf, Dependencies, HashName, HdTxdBinding, ImapDependency, InteriorBounds,
    Manifest, ManifestFormat, MapDataGroup,
};
pub use ynv::{
    cell_file_name, parse_ynv, NavEdge, NavEdgeEnd, NavPoint, NavPoly, NavPortal, Ynv,
    ADJACENT_NONE,
};
pub use ynv_write::serialize_ynv;
pub use ytd::{
    full_mip_count, level_size, mip_chain_size, parse_ytd, stride_for, TextureFormat, YtdTexture,
};
pub use ytd_write::{serialize_ytd, YTD_VERSION};
pub use ytyp::{
    parse_archetype_txds, parse_ytyp, Archetype, ArchetypeTxd, MloDef, MloEntitySet, MloPortal,
    MloRoom, Ytyp,
};
