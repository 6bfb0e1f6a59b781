//! Reading back the lists of a navmesh.

use vstd::prelude::*;

use crate::ynv::ListFault;

verus! {

broadcast use crate::bytes::group_subrange_reads;

/// The sizes of the items of the four lists.
pub open spec fn is_item(item: int) -> bool {
    item == 2 || item == 6 || item == 8 || item == 48
}

pub proof fn lemma_part(items: Seq<u8>, item: int, k: nat)
    requires
        is_item(item),
        items.len() % (item as nat) == 0,
        0 < k <= crate::ynv_write::part_count(items.len() as int, item),
    ensures
        ({
            let size = crate::ynv_write::part_size(item);
            let part = crate::ynv_write::part_at(items, item, k - 1);
            let before = (k - 1) * size;
            let after = crate::resource::least(k * size, items.len() as int);
            &&& 0 <= before < after <= items.len()
            &&& part == items.subrange(before, after)
            &&& (part.len() / (item as nat)) * item == part.len()
            &&& 0 < part.len() <= 16384
            &&& part.len() / (item as nat) > 0
        }),
{
    let size = crate::ynv_write::part_size(item);
    let n = crate::ynv_write::part_count(items.len() as int, item) as int;
    crate::ynv_write::lemma_part_size(item);
    crate::resource::lemma_ceil_div(items.len() as int, size);
    assert(0 <= (k - 1) * size < items.len() && k * size == (k - 1) * size + size) by (
        nonlinear_arith)
        requires
            size > 0,
            0 < k <= n,
            size * n < items.len() + size,
    ;
    let part = crate::ynv_write::part_at(items, item, k - 1);
    let before = (k - 1) * size;
    let after = crate::resource::least(k * size, items.len() as int);
    assert(k - 1 + 1 == k);
    assert(part == items.subrange(before, after));
    if item == 2 {
        lemma_even_parts(before, k - 1, 8192, 2);
    } else if item == 6 {
        lemma_even_parts(before, k - 1, 2730, 6);
    } else if item == 8 {
        lemma_even_parts(before, k - 1, 2048, 8);
    } else {
        lemma_even_parts(before, k - 1, 341, 48);
    }
    if after == k * size {
        lemma_whole(before, before + size, item);
    } else {
        lemma_whole(before, items.len() as int, item);
    }
}

/// Between two multiples of the size of an item there are whole items.
pub proof fn lemma_whole(a: int, b: int, item: int)
    requires
        is_item(item),
        a % item == 0,
        a < b,
        b % item == 0 || b == a + crate::ynv_write::part_size(item),
    ensures
        ((b - a) as nat) / (item as nat) * item == b - a,
        ((b - a) as nat) / (item as nat) > 0,
{
    crate::ynv_write::lemma_part_size(item);
    reveal(crate::ynv_write::part_size);
    let per = 16384int / item;
    let q = if b == a + crate::ynv_write::part_size(item) {
        per
    } else {
        b / item - a / item
    };
    vstd::arithmetic::div_mod::lemma_fundamental_div_mod(a, item);
    vstd::arithmetic::div_mod::lemma_fundamental_div_mod(b, item);
    assert(b - a == q * item) by (nonlinear_arith)
        requires
            a == item * (a / item),
            (b == a + per * item && q == per) || (b == item * (b / item) && q == b / item - a
                / item),
    ;
    assert(q > 0) by (nonlinear_arith)
        requires
            q * item > 0,
            item > 0,
    ;
    vstd::arithmetic::div_mod::lemma_div_multiples_vanish(q, item);
    assert(item * q == b - a) by (nonlinear_arith)
        requires
            b - a == q * item,
    ;
}

/// How many items and parts a list has.
pub proof fn lemma_list_numbers(len: int, item: int)
    requires
        is_item(item),
        0 <= len,
        len % item == 0,
    ensures
        ({
            let n = crate::ynv_write::part_count(len, item);
            &&& len <= n * crate::ynv_write::part_size(item)
            &&& n <= len
            &&& n == 0 <==> len == 0
            &&& 0 <= len / item <= len
            &&& len / item * item == len
        }),
{
    let n = crate::ynv_write::part_count(len, item) as int;
    let size = crate::ynv_write::part_size(item);
    crate::ynv_write::lemma_part_size(item);
    crate::resource::lemma_ceil_div(len, size);
    assert(n * size >= len) by (nonlinear_arith)
        requires
            len <= size * n,
    ;
    if n > len {
        assert(size * n >= len + size) by (nonlinear_arith)
            requires
                n >= len + 1,
                len >= 0,
                size >= 1,
        ;
    }
    if item == 2 {
    } else if item == 6 {
    } else if item == 8 {
    } else {
    }
}

pub proof fn lemma_even_parts(before: int, k: int, per: int, item: int)
    requires
        before == k * (per * item),
        item > 0,
    ensures
        before % item == 0,
{
    assert(before == (k * per) * item) by (nonlinear_arith)
        requires
            before == k * (per * item),
    ;
    vstd::arithmetic::div_mod::lemma_mod_multiples_basic(k * per, item);
}

pub proof fn lemma_record_reads(table: Seq<u8>, records: Seq<u8>, at: int, count: u32, i: int)
    requires
        records.len() == i,
        crate::ynv_laws::blocks::carries(
            table,
            records + (crate::bytes::le64_bytes(crate::ynv_write::address(at))
                + crate::bytes::le32_bytes(count) + crate::bytes::zeros(4)),
            0,
        ),
    ensures
        crate::bytes::le64(table, i) == crate::ynv_write::address(at),
        crate::bytes::le32(table, i + 8) == count,
{
    let record = crate::bytes::le64_bytes(crate::ynv_write::address(at))
        + crate::bytes::le32_bytes(count) + crate::bytes::zeros(4);
    let all = records + record;
    assert forall|j: int| 0 <= j < 16 implies #[trigger] table[i + j] == record[j] by {
        assert(table[i + j] == all[i + j]);
    }
    assert(table.subrange(i, i + 8) =~= crate::bytes::le64_bytes(crate::ynv_write::address(at)))
        by {
        assert forall|j: int| 0 <= j < 8 implies table.subrange(i, i + 8)[j]
            == #[trigger] record[j] by {
            assert(table[i + j] == record[j]);
        }
    }
    assert(table.subrange(i + 8, i + 12) =~= crate::bytes::le32_bytes(count)) by {
        assert forall|j: int| 8 <= j < 12 implies table.subrange(i + 8, i + 12)[j - 8]
            == #[trigger] record[j] by {
            assert(table[i + j] == record[j]);
        }
    }
    crate::bytes::law_u64_round_trip(crate::ynv_write::address(at));
    crate::bytes::law_u32_round_trip(count);
}

/// What has been written of the parts of a list reads back, whatever is
/// written behind it.
pub proof fn lemma_parts_read(
    s: Seq<u8>,
    graphics: Seq<u8>,
    table: Seq<u8>,
    buf: Seq<u8>,
    items: Seq<u8>,
    item: int,
    k: nat,
)
    requires
        is_item(item),
        items.len() % (item as nat) == 0,
        k <= crate::ynv_write::part_count(items.len() as int, item),
        crate::ynv_laws::blocks::carries(s, crate::ynv_write::with_parts(buf, items, item, k).0, buf.len() as int),
        crate::ynv_laws::blocks::carries(table, crate::ynv_write::with_parts(buf, items, item, k).1, 0),
        s.len() <= 0x1000_0000,
    ensures
        ({
            let (out, records, firsts) = crate::ynv_write::with_parts(buf, items, item, k);
            let end = crate::resource::least(
                k * crate::ynv_write::part_size(item),
                items.len() as int,
            );
            &&& crate::ynv_laws::blocks::carries(out, buf, 0)
            &&& out.len() >= buf.len() + end
            &&& records.len() == 16 * k
            &&& firsts.len() == 4 * k
            &&& crate::ynv::part_items(s, graphics, table, item, k) == Ok::<Seq<u8>, ListFault>(
                items.take(end),
            )
        }),
    decreases k,
{
    let size = crate::ynv_write::part_size(item);
    if k == 0 {
        assert(items.take(0) =~= Seq::<u8>::empty());
    } else {
        let (before, records0, firsts0) = crate::ynv_write::with_parts(
            buf,
            items,
            item,
            (k - 1) as nat,
        );
        let part = crate::ynv_write::part_at(items, item, k - 1);
        let at = crate::ynv_write::start_for(before.len() as int, part.len() as int);
        let count = (part.len() / (item as nat)) as u32;
        let record = crate::bytes::le64_bytes(crate::ynv_write::address(at))
            + crate::bytes::le32_bytes(count) + crate::bytes::zeros(4);
        let (out, records, firsts) = crate::ynv_write::with_parts(buf, items, item, k);
        lemma_part(items, item, k);
        crate::ynv_laws::blocks::lemma_put(before, part);
        assert(records == records0 + record);
        assert(crate::ynv_laws::blocks::carries(table, records0, 0)) by {
            assert forall|i: int| 0 <= i < records0.len() implies #[trigger] table[i]
                == records0[i] by {
                assert(table[i] == records[i]);
            }
        }
        assert(crate::ynv_laws::blocks::carries(s, before, buf.len() as int)) by {
            assert forall|i: int| buf.len() <= i < before.len() implies #[trigger] s[i]
                == before[i] by {
                assert(s[i] == out[i]);
                assert(out[i] == before[i]);
            }
        }
        lemma_parts_read(s, graphics, table, buf, items, item, (k - 1) as nat);
        assert(crate::ynv_laws::blocks::carries(out, buf, 0)) by {
            assert forall|i: int| 0 <= i < buf.len() implies #[trigger] out[i] == buf[i] by {
                assert(out[i] == before[i]);
            }
        }
        lemma_record_reads(table, records0, at, count, 16 * (k - 1));
        crate::ynv_laws::blocks::lemma_carried(s, out, buf.len() as int, at, part);
        crate::ynv_laws::blocks::lemma_resolves(s, graphics, at, part);
        let mid = (k - 1) * size;
        assert(crate::resource::least(mid, items.len() as int) == mid);
        let end = crate::resource::least(k * size, items.len() as int);
        assert(items.take(mid) + part =~= items.take(end));
    }
}

#[verifier::rlimit(40)]
#[verifier::spinoff_prover]
pub proof fn lemma_list_header_reads(vft: u32, count: int, parts: u64, firsts: u64, n: int)
    requires
        0 <= count <= u32::MAX,
        0 <= n <= u32::MAX,
    ensures
        ({
            let h = crate::ynv_write::list_header(vft, count, parts, firsts, n);
            &&& h.len() == 48
            &&& crate::bytes::le32(h, 0x08) == count
            &&& crate::bytes::le64(h, 0x10) == parts
            &&& crate::bytes::le32(h, 0x20) == n
        }),
{
    reveal(crate::ynv_write::list_header);
    let h = crate::ynv_write::list_header(vft, count, parts, firsts, n);
    assert(h.subrange(0x08, 0x0C) =~= crate::bytes::le32_bytes(count as u32));
    assert(h.subrange(0x10, 0x18) =~= crate::bytes::le64_bytes(parts));
    assert(h.subrange(0x20, 0x24) =~= crate::bytes::le32_bytes(n as u32));
    crate::bytes::law_u32_round_trip(count as u32);
    crate::bytes::law_u64_round_trip(parts);
    crate::bytes::law_u32_round_trip(n as u32);
}

/// Where the header, the table and the parts of a list stand.
pub struct ListLayout {
    pub header_at: int,
    pub header: Seq<u8>,
    pub table_at: int,
    pub table: Seq<u8>,
    pub parts_from: Seq<u8>,
    pub parts: Seq<u8>,
}

pub open spec fn list_layout(buf: Seq<u8>, vft: u32, items: Seq<u8>, item: int) -> ListLayout {
    let b1 = crate::ynv_write::grown(buf, 48);
    let n = crate::ynv_write::part_count(items.len() as int, item);
    let table = crate::ynv_write::start_for(b1.len() as int, 16int * n);
    let b2 = crate::ynv_write::grown(b1, 16int * n);
    let (b3, records, firsts) = crate::ynv_write::with_parts(b2, items, item, n);
    let b4 = crate::bytes::splice(b3, table, records);
    ListLayout {
        header_at: crate::ynv_write::start_for(buf.len() as int, 48),
        header: crate::ynv_write::list_header(
            vft,
            items.len() as int / item,
            crate::ynv_write::address(table),
            if n == 0 {
                0
            } else {
                crate::ynv_write::address(
                    crate::ynv_write::start_for(b4.len() as int, firsts.len() as int),
                )
            },
            n as int,
        ),
        table_at: table,
        table: records,
        parts_from: b2,
        parts: b3,
    }
}

pub proof fn lemma_list_stands(buf: Seq<u8>, vft: u32, items: Seq<u8>, item: int)
    ensures
        ({
            let out = crate::ynv_write::with_list(buf, vft, items, item);
            let l = list_layout(buf, vft, items, item);
            &&& crate::ynv_laws::blocks::carries(out, buf, 0)
            &&& crate::ynv_laws::blocks::carries(out, l.parts, l.parts_from.len() as int)
            &&& buf.len() <= l.header_at
            &&& l.header_at + l.header.len() <= l.table_at
            &&& l.table_at + l.table.len() == l.parts_from.len()
            &&& l.parts_from.len() <= out.len()
            &&& l.header.len() == 48
            &&& l.table.len() == 16 * crate::ynv_write::part_count(items.len() as int, item)
            &&& out.subrange(l.header_at, l.header_at + 48) == l.header
            &&& out.subrange(l.table_at, l.table_at + l.table.len()) == l.table
        }),
{
    reveal(crate::ynv_write::list_header);
    reveal(crate::ynv_write::with_list);
    let out = crate::ynv_write::with_list(buf, vft, items, item);
    let l = list_layout(buf, vft, items, item);
    let h = l.header_at;
    let n = crate::ynv_write::part_count(items.len() as int, item);
    let b1 = crate::ynv_write::grown(buf, 48);
    let b2 = l.parts_from;
    let b3 = l.parts;
    let table = l.table_at;
    let firsts = crate::ynv_write::with_parts(b2, items, item, n).2;
    crate::ynv_laws::blocks::lemma_grown(buf, 48);
    crate::ynv_laws::blocks::lemma_grown(b1, 16int * n);
    lemma_parts_shape(b2, items, item, n);
    let b4 = crate::bytes::splice(b3, table, l.table);
    crate::ynv_laws::blocks::lemma_put(b4, firsts);
    let b5 = if n == 0 {
        b4
    } else {
        crate::ynv_write::put(b4, firsts)
    };
    assert(out == crate::bytes::splice(b5, h, l.header));
    assert(crate::ynv_laws::blocks::carries(b5, b4, 0));
    assert forall|i: int| 0 <= i < buf.len() implies #[trigger] out[i] == buf[i] by {
        assert(b5[i] == b4[i]);
        assert(b3[i] == b2[i]);
        assert(b2[i] == b1[i]);
        assert(b1[i] == buf[i]);
    }
    assert forall|i: int| b2.len() <= i < b3.len() implies #[trigger] out[i] == b3[i] by {
        assert(b5[i] == b4[i]);
    }
    assert forall|i: int| table <= i < table + l.table.len() implies #[trigger] out[i]
        == l.table[i - table] by {
        assert(b5[i] == b4[i]);
    }
    assert(out.subrange(h, h + 48) =~= l.header);
    assert(out.subrange(table, table + l.table.len()) =~= l.table);
}

/// A list leaves alone what was written before it.
pub proof fn lemma_list_keeps(buf: Seq<u8>, vft: u32, items: Seq<u8>, item: int)
    ensures
        crate::ynv_laws::blocks::carries(
            crate::ynv_write::with_list(buf, vft, items, item),
            buf,
            0,
        ),
{
    lemma_list_stands(buf, vft, items, item);
}

/// A list that was written reads back, whatever is written behind it.
pub proof fn lemma_list_reads(
    s: Seq<u8>,
    graphics: Seq<u8>,
    buf: Seq<u8>,
    vft: u32,
    items: Seq<u8>,
    item: int,
)
    requires
        is_item(item),
        items.len() % (item as nat) == 0,
        items.len() <= u32::MAX,
        crate::ynv_laws::blocks::carries(s, crate::ynv_write::with_list(buf, vft, items, item), buf.len() as int),
        s.len() <= 0x1000_0000,
    ensures
        crate::ynv::list_items(
            s,
            graphics,
            crate::ynv_write::address(crate::ynv_write::start_for(buf.len() as int, 48)),
            item,
        ) == Ok::<Seq<u8>, ListFault>(items),
{
    reveal(crate::ynv::list_items);
    let out = crate::ynv_write::with_list(buf, vft, items, item);
    let l = list_layout(buf, vft, items, item);
    let n = crate::ynv_write::part_count(items.len() as int, item);
    let from = buf.len() as int;
    lemma_list_stands(buf, vft, items, item);
    lemma_list_numbers(items.len() as int, item);
    let count = items.len() as int / item;
    let b4 = crate::bytes::splice(l.parts, l.table_at, l.table);
    let firsts = crate::ynv_write::with_parts(l.parts_from, items, item, n).2;
    lemma_list_header_reads(
        vft,
        count,
        crate::ynv_write::address(l.table_at),
        if n == 0 {
            0
        } else {
            crate::ynv_write::address(
                crate::ynv_write::start_for(b4.len() as int, firsts.len() as int),
            )
        },
        n as int,
    );
    crate::ynv_laws::blocks::lemma_carried(s, out, from, l.header_at, l.header);
    crate::ynv_laws::blocks::lemma_resolves(s, graphics, l.header_at, l.header);
    if n == 0 {
        assert(items =~= Seq::<u8>::empty());
    } else {
        crate::ynv_laws::blocks::lemma_carried(s, out, from, l.table_at, l.table);
        crate::ynv_laws::blocks::lemma_resolves(s, graphics, l.table_at, l.table);
        assert(crate::ynv_laws::blocks::carries(s, l.parts, l.parts_from.len() as int)) by {
            assert forall|i: int| l.parts_from.len() <= i < l.parts.len() implies #[trigger] s[i]
                == l.parts[i] by {
                assert(s[i] == out[i]);
            }
        }
        lemma_parts_read(s, graphics, l.table, l.parts_from, items, item, n);
        assert(items.take(items.len() as int) =~= items);
    }
}

pub proof fn lemma_parts_shape(buf: Seq<u8>, items: Seq<u8>, item: int, k: nat)
    ensures
        ({
            let (out, records, firsts) = crate::ynv_write::with_parts(buf, items, item, k);
            &&& crate::ynv_laws::blocks::carries(out, buf, 0)
            &&& records.len() == 16 * k
            &&& firsts.len() == 4 * k
        }),
    decreases k,
{
    if k > 0 {
        let before = crate::ynv_write::with_parts(buf, items, item, (k - 1) as nat).0;
        let part = crate::ynv_write::part_at(items, item, k - 1);
        lemma_parts_shape(buf, items, item, (k - 1) as nat);
        crate::ynv_laws::blocks::lemma_put(before, part);
        let out = crate::ynv_write::put(before, part);
        assert forall|i: int| 0 <= i < buf.len() implies #[trigger] out[i] == buf[i] by {
            assert(out[i] == before[i]);
        }
    }
}

} // verus!
