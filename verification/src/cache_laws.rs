//! What the records and lines of a world cache mean.

use vstd::prelude::*;

use crate::cache_dat::{
    BoundsStoreItem, CacheBlock, CacheError, CacheView, LineStep, MapNodeView, ProxyView,
};
use crate::layout::{quad_bytes, stands, triple_bytes};

verus! {

broadcast use crate::layout::group_fields_stand;

/// Whether the 64 bytes of a map file's record say that.
pub open spec fn node_says(b: Seq<u8>, v: MapNodeView) -> bool {
    &&& b.len() == 64
    &&& stands(b, 0, crate::bytes::le32_bytes(v.name))
    &&& stands(b, 4, crate::bytes::le32_bytes(v.parent))
    &&& stands(b, 8, crate::bytes::le32_bytes(v.content_flags))
    &&& stands(b, 12, triple_bytes(v.streaming_min))
    &&& stands(b, 24, triple_bytes(v.streaming_max))
    &&& stands(b, 36, triple_bytes(v.entities_min))
    &&& stands(b, 48, triple_bytes(v.entities_max))
    &&& v.flags.len() == 4
    &&& stands(b, 60, v.flags)
}

/// A map file's record is read field by field, each from its own place.
pub proof fn law_map_nodes_read_back(b: Seq<u8>, v: MapNodeView)
    requires
        node_says(b, v),
    ensures
        crate::cache_dat::node_of(b) == v,
{
    let tail = b.subrange(60, 64);
    assert(tail == v.flags);
    assert(tail[0] == b[60] && tail[1] == b[61] && tail[2] == b[62] && tail[3] == b[63]);
    assert(crate::cache_dat::node_of(b).flags =~= v.flags);
    assert(crate::cache_dat::node_of(b) =~= v);
}

/// Whether the 104 bytes of an interior's record say that.
pub open spec fn proxy_says(b: Seq<u8>, v: ProxyView) -> bool {
    &&& b.len() == 104
    &&& v.unknown.len() == 3
    &&& v.trailing.len() == 4
    &&& stands(b, 0, crate::bytes::le32_bytes(v.unknown[0]))
    &&& stands(b, 4, crate::bytes::le32_bytes(v.unknown[1]))
    &&& stands(b, 8, crate::bytes::le32_bytes(v.unknown[2]))
    &&& stands(b, 12, crate::bytes::le32_bytes(v.name))
    &&& stands(b, 16, crate::bytes::le32_bytes(v.parent))
    &&& stands(b, 20, triple_bytes(v.position))
    &&& stands(b, 32, quad_bytes(v.orientation))
    &&& stands(b, 48, triple_bytes(v.bb_min))
    &&& stands(b, 60, triple_bytes(v.bb_max))
    &&& stands(b, 72, crate::bytes::le64_bytes(v.trailing[0]))
    &&& stands(b, 80, crate::bytes::le64_bytes(v.trailing[1]))
    &&& stands(b, 88, crate::bytes::le64_bytes(v.trailing[2]))
    &&& stands(b, 96, crate::bytes::le64_bytes(v.trailing[3]))
}

/// An interior's record is read field by field, each from its own place.
pub proof fn law_interior_proxies_read_back(b: Seq<u8>, v: ProxyView)
    requires
        proxy_says(b, v),
    ensures
        crate::cache_dat::proxy_of(b) == v,
{
    lemma_proxy_fields(b, v);
    lemma_proxy_lists(b, v);
    lemma_proxy_words(b, v);
    lemma_proxy_trailing(b, v);
    assert(crate::cache_dat::proxy_of(b) =~= v);
}

proof fn lemma_proxy_fields(b: Seq<u8>, v: ProxyView)
    requires
        proxy_says(b, v),
    ensures
        ({
            let r = crate::cache_dat::proxy_of(b);
            &&& r.name == v.name
            &&& r.parent == v.parent
            &&& r.position == v.position
            &&& r.orientation == v.orientation
            &&& r.bb_min == v.bb_min
            &&& r.bb_max == v.bb_max
        }),
{
}

proof fn lemma_proxy_words(b: Seq<u8>, v: ProxyView)
    requires
        v.unknown.len() == 3,
        crate::bytes::le32(b, 0) == v.unknown[0],
        crate::bytes::le32(b, 4) == v.unknown[1],
        crate::bytes::le32(b, 8) == v.unknown[2],
    ensures
        crate::cache_dat::proxy_of(b).unknown == v.unknown,
{
    assert(crate::cache_dat::proxy_of(b).unknown =~= v.unknown);
}

proof fn lemma_proxy_trailing(b: Seq<u8>, v: ProxyView)
    requires
        v.trailing.len() == 4,
        crate::bytes::le64(b, 72) == v.trailing[0],
        crate::bytes::le64(b, 80) == v.trailing[1],
        crate::bytes::le64(b, 88) == v.trailing[2],
        crate::bytes::le64(b, 96) == v.trailing[3],
    ensures
        crate::cache_dat::proxy_of(b).trailing == v.trailing,
{
    assert(crate::cache_dat::proxy_of(b).trailing =~= v.trailing);
}

proof fn lemma_proxy_lists(b: Seq<u8>, v: ProxyView)
    requires
        proxy_says(b, v),
    ensures
        crate::bytes::le32(b, 0) == v.unknown[0],
        crate::bytes::le32(b, 4) == v.unknown[1],
        crate::bytes::le32(b, 8) == v.unknown[2],
        crate::bytes::le64(b, 72) == v.trailing[0],
        crate::bytes::le64(b, 80) == v.trailing[1],
        crate::bytes::le64(b, 88) == v.trailing[2],
        crate::bytes::le64(b, 96) == v.trailing[3],
{
}

/// A collision file's record is read field by field, each from its own place.
pub proof fn law_bounds_items_read_back(b: Seq<u8>, v: BoundsStoreItem)
    requires
        stands(b, 0, crate::bytes::le32_bytes(v.name)),
        stands(b, 4, triple_bytes(v.min)),
        stands(b, 16, triple_bytes(v.max)),
        stands(b, 28, crate::bytes::le32_bytes(v.layer)),
    ensures
        crate::cache_dat::bounds_of(b) == v,
{
}

/// The records of a block are added to the list of their kind, in order, and
/// to no other; nothing else of the cache changes.
pub proof fn law_blocks_fill_their_list(c: CacheView, block: CacheBlock, body: Seq<u8>, k: nat)
    ensures
        ({
            let r = crate::cache_dat::with_records(c, block, body, k);
            let size = if block == CacheBlock::MapNodes {
                64int
            } else if block == CacheBlock::InteriorProxies {
                104
            } else {
                32
            };
            let rec = |i: int| body.subrange(i * size, (i + 1) * size);
            &&& r.version == c.version
            &&& r.file_dates == c.file_dates
            &&& r.map_nodes == c.map_nodes + (if block == CacheBlock::MapNodes {
                Seq::new(k, |i: int| crate::cache_dat::node_of(rec(i)))
            } else {
                Seq::empty()
            })
            &&& r.interior_proxies == c.interior_proxies + (if block
                == CacheBlock::InteriorProxies {
                Seq::new(k, |i: int| crate::cache_dat::proxy_of(rec(i)))
            } else {
                Seq::empty()
            })
            &&& r.bounds == c.bounds + (if block == CacheBlock::Bounds {
                Seq::new(k, |i: int| crate::cache_dat::bounds_of(rec(i)))
            } else {
                Seq::empty()
            })
        }),
    decreases k,
{
    let r = crate::cache_dat::with_records(c, block, body, k);
    if k > 0 {
        law_blocks_fill_their_list(c, block, body, (k - 1) as nat);
    }
    let size = if block == CacheBlock::MapNodes {
        64int
    } else if block == CacheBlock::InteriorProxies {
        104
    } else {
        32
    };
    let rec = |i: int| body.subrange(i * size, (i + 1) * size);
    assert(r.map_nodes =~= c.map_nodes + (if block == CacheBlock::MapNodes {
        Seq::new(k, |i: int| crate::cache_dat::node_of(rec(i)))
    } else {
        Seq::empty()
    }));
    assert(r.interior_proxies =~= c.interior_proxies + (if block == CacheBlock::InteriorProxies {
        Seq::new(k, |i: int| crate::cache_dat::proxy_of(rec(i)))
    } else {
        Seq::empty()
    }));
    assert(r.bounds =~= c.bounds + (if block == CacheBlock::Bounds {
        Seq::new(k, |i: int| crate::cache_dat::bounds_of(rec(i)))
    } else {
        Seq::empty()
    }));
}

/// Each kind of block goes by a name of its own.
pub proof fn law_block_names()
    ensures
        crate::cache_dat::block_named(vstd::utf8::encode_utf8("fwMapDataStore"@)) == Some(
            CacheBlock::MapNodes,
        ),
        crate::cache_dat::block_named(vstd::utf8::encode_utf8("CInteriorProxy"@)) == Some(
            CacheBlock::InteriorProxies,
        ),
        crate::cache_dat::block_named(vstd::utf8::encode_utf8("BoundsStore"@)) == Some(
            CacheBlock::Bounds,
        ),
        CacheBlock::MapNodes.size() == 64,
        CacheBlock::InteriorProxies.size() == 104,
        CacheBlock::Bounds.size() == 32,
{
    reveal_strlit("fwMapDataStore");
    reveal_strlit("CInteriorProxy");
    reveal_strlit("BoundsStore");
    crate::text::law_text_round_trip("fwMapDataStore"@);
    crate::text::law_text_round_trip("CInteriorProxy"@);
    crate::text::law_text_round_trip("BoundsStore"@);
    assert("fwMapDataStore"@[0] == 'f' && "CInteriorProxy"@[0] == 'C' && "BoundsStore"@[0] == 'B');
}

/// A line runs to the newline behind it, a carriage return before that left
/// out. It opens or closes the dates, announces a block, or is a date where
/// dates are open; the next one begins behind it, or behind the block.
pub proof fn law_lines_in_turn(
    d: Seq<u8>,
    start: int,
    line: Seq<u8>,
    dates: bool,
    c: CacheView,
    crlf: bool,
)
    requires
        0 <= start,
        forall|i: int| 0 <= i < line.len() ==> #[trigger] line[i] != 0 && line[i] != 10,
        line.len() == 0 || line.last() != 13,
        ({
            let ended = if crlf {
                line.push(13).push(10)
            } else {
                line.push(10)
            };
            crate::layout::stands(d, start, ended)
        }),
    ensures
        ({
            let next = start + line.len() + (if crlf {
                2int
            } else {
                1int
            });
            let step = crate::cache_dat::line_step(d, start, dates, c);
            &&& line == vstd::utf8::encode_utf8("<fileDates>"@) ==> step == (LineStep::Next {
                start: next,
                dates: true,
                cache: c,
            })
            &&& line == vstd::utf8::encode_utf8("</fileDates>"@) && line
                != vstd::utf8::encode_utf8("<fileDates>"@) ==> step == (LineStep::Next {
                start: next,
                dates: false,
                cache: c,
            })
            &&& line != vstd::utf8::encode_utf8("<fileDates>"@) && line
                != vstd::utf8::encode_utf8("</fileDates>"@) ==> match crate::cache_dat::block_named(
                line,
            ) {
                None => step == (LineStep::Next {
                    start: next,
                    dates,
                    cache: if dates {
                        crate::cache_dat::with_date(c, line)
                    } else {
                        c
                    },
                }),
                Some(block) => step == crate::cache_dat::block_step(d, next, dates, c, block),
            }
        }),
{
    reveal(crate::cache_dat::line_step);
    let ended = if crlf {
        line.push(13).push(10)
    } else {
        line.push(10)
    };
    let body = if crlf {
        line.push(13)
    } else {
        line
    };
    let s = d.subrange(start, start + ended.len());
    assert forall|i: int| 0 <= i < ended.len() implies d[start + i] == #[trigger] ended[i] by {
        assert(s[i] == d[start + i]);
    }
    assert forall|k: int| start <= k < start + body.len() implies #[trigger] d[k] != 0 && d[k]
        != 10 by {
        let i = k - start;
        assert(d[start + i] == ended[i]);
        if i < line.len() {
            assert(ended[i] == line[i]);
        }
    }
    let n = body.len() as int;
    assert(ended[n] == 10);
    assert(d[start + n] == ended[n]);
    lemma_line_end(d, start, start + n);
    let found = d.subrange(start, start + body.len());
    assert(found =~= body) by {
        assert forall|i: int| 0 <= i < body.len() implies found[i] == body[i] by {
            assert(d[start + i] == ended[i]);
        }
    }
    if crlf {
        assert(body.drop_last() =~= line);
    }
}

proof fn lemma_line_end(d: Seq<u8>, i: int, end: int)
    requires
        0 <= i <= end < d.len(),
        d[end] == 10,
        forall|k: int| i <= k < end ==> #[trigger] d[k] != 0 && d[k] != 10,
    ensures
        crate::cache_dat::line_end(d, i) == end,
    decreases end - i,
{
    if i < end {
        assert(d[i] != 0 && d[i] != 10);
        lemma_line_end(d, i + 1, end);
    }
}

/// A block is as long as the word behind its line says; the next line begins
/// behind it. One that says more than the file has fails.
pub proof fn law_blocks_end_where_they_say(
    d: Seq<u8>,
    at: int,
    dates: bool,
    c: CacheView,
    block: CacheBlock,
    len: u32,
)
    requires
        crate::layout::stands(d, at, crate::bytes::le32_bytes(len)),
    ensures
        match crate::cache_dat::block_step(d, at, dates, c, block) {
            LineStep::Next { start, dates: inside, cache: _ } => start == at + 4 + len && inside
                == dates && start <= d.len(),
            LineStep::Fail(e) => at + 4 + len > d.len() && e == CacheError::PastEnd(block),
            LineStep::End => false,
        },
{
    crate::layout::lemma_word_stands(d, at, len);
}

} // verus!
