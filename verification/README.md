# rage-formats

Readers, and where it matters writers, for the RAGE resource formats that
GTA V streams, written in Verus. Bytes in, plain structs out; what each
function returns is stated in its contract and proved.

## Formats

| Format | Modules |
|---|---|
| RSC7 container, pages | `resource`, `paging` |
| `.ytd` textures, DDS, encoding | `ytd`, `ytd_write`, `dds`, `texture_encode` |
| `.ybn` collision | `ybn` |
| `.ynv` navmeshes | `ynv`, `ynv_write` |
| `.ytyp`, `.ymap` | `meta_block`, `ytyp`, `ymap` |
| any Meta file | `meta_schema`, `meta_write` |
| any PSO file | `pso`, `pso_write` |
| `_manifest.ymf` | `ymf`, `rbf` |
| world cache | `cache_dat` |
| trees, schemas, names, text | `value`, `coerce`, `schema`, `names`, `xml`, `json`, `json_text` |

Singles are kept as their bits. The arithmetic on them, the text they are
printed as and the files themselves are left to `app/`.

## Laws

Beside the contracts, the modules named `*_laws` prove what readers and
writers promise together: a written texture dictionary, navmesh, Meta file or
PSO file reads back as what was put into it, a second write of a navmesh gives
the same bytes, and a tree that fits its schema comes back whole and can be
built again by the schema that its file carries. `mip_laws` and `page_laws`
say how far the game's own size arithmetic goes.

## Layout

- `src/` the verified library
- `tests/` tests on hand-built files
- `app/` floating-point arithmetic and files
