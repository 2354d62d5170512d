//! Descriptor for one report: map of usage -> bit offset and size.
//!
//! A minimal HID main-item parser — enough for the Power Device descriptors
//! APC ships. Global state (usage page, report id/size/count) is tracked;
//! local usages are attached to each main item; Delimiter, Physical min/max
//! and Push/Pop are not supported.

use vstd::prelude::*;
use vstd::arithmetic::power2::*;
use vstd::bits::*;
use crate::bytes::{le_value, lemma_le_value_bound, lemma_le_value_extend, lemma_or_byte};

verus! {

/// A single variable field inside a report.
#[derive(Clone, Copy, Debug, PartialEq, Eq, Structural)]
pub struct FieldLoc {
    /// Bit offset of this field within the report payload (after report id).
    pub bit_offset: u128,
    pub bit_size: usize,
    /// Full usage id: (usage_page << 16) | usage.
    pub usage: u32,
}

/// All fields of one feature report.
#[derive(Debug)]
pub struct ReportLayout {
    pub report_id: u8,
    pub fields: Vec<FieldLoc>,
}

impl View for ReportLayout {
    type V = (u8, Seq<FieldLoc>);

    open spec fn view(&self) -> (u8, Seq<FieldLoc>) {
        (self.report_id, self.fields@)
    }
}

impl Default for ReportLayout {
    fn default() -> (r: Self)
        ensures
            r@ == (0u8, Seq::<FieldLoc>::empty()),
    {
        ReportLayout { report_id: 0, fields: Vec::new() }
    }
}

// ---------------------------------------------------------------------------
// Field extraction
// ---------------------------------------------------------------------------

/// Number of payload bytes that hold the field `loc`.
pub open spec fn bytes_needed(loc: FieldLoc) -> nat {
    ((loc.bit_offset % 8) + loc.bit_size + 7) as nat / 8
}

/// Whether the payload is long enough to hold the field.
pub open spec fn field_in_bounds(len: nat, loc: FieldLoc) -> bool {
    (loc.bit_offset / 8) as nat + bytes_needed(loc) <= len
}

/// The value of the field `loc` in `payload`: the little-endian bytes that
/// cover it, shifted right by the field's offset within its first byte, and
/// reduced to `bit_size` bits.
pub open spec fn field_value(payload: Seq<u8>, loc: FieldLoc) -> nat {
    let byte = (loc.bit_offset / 8) as int;
    let raw = le_value(payload.subrange(byte, byte + bytes_needed(loc)));
    (raw / pow2((loc.bit_offset % 8) as nat)) % pow2(loc.bit_size as nat)
}

/// Extract an unsigned field from a report payload (without report id byte).
/// `None` when the payload is too short to hold the field.
pub fn extract(payload: &[u8], loc: &FieldLoc) -> (r: Option<u64>)
    requires
        field_in_bounds(payload@.len(), *loc) ==> loc.bit_offset % 8 + loc.bit_size <= 64,
    ensures
        r.is_some() <==> field_in_bounds(payload@.len(), *loc),
        r matches Some(v) ==> v as nat == field_value(payload@, *loc),
{
    let bit: u128 = loc.bit_offset;
    let byte: u128 = bit / 8;
    let shift: u128 = bit % 8;
    let bytes_needed: u128 = (shift + loc.bit_size as u128 + 7) / 8;
    if byte + bytes_needed > payload.len() as u128 {
        return None;
    }
    let byte: usize = byte as usize;
    let need: usize = bytes_needed as usize;
    assert(need <= 8);
    let mut raw: u64 = 0;
    let mut k: usize = 0;
    proof {
        lemma2_to64();
    }
    while k < need
        invariant
            k <= need <= 8,
            byte + need <= payload.len(),
            raw as nat == le_value(payload@.subrange(byte as int, byte + k)),
            raw < pow2((8 * k) as nat),
        decreases need - k,
    {
        proof {
            lemma_or_byte(raw, payload@[byte + k], k as nat);
            lemma_le_value_extend(payload@, byte as int, k as int);
        }
        let sh: u64 = 8 * (k as u64);
        assert(sh < 64);
        let bv: u64 = payload[byte + k] as u64;
        let part: u64 = bv << sh;
        raw = raw | part;
        k = k + 1;
    }
    let shift: u64 = shift as u64;
    let size: usize = loc.bit_size;
    let shifted: u64 = raw >> shift;
    proof {
        lemma_u64_shr_is_div(raw, shift);
    }
    let value: u64 = if size >= 64 {
        assert(size == 64 && shift == 0);
        assert(shifted & u64::MAX == shifted) by (bit_vector);
        proof {
            lemma2_to64();
        }
        shifted & u64::MAX
    } else {
        let s: u64 = size as u64;
        proof {
            lemma_u64_pow2_no_overflow(s as nat);
            lemma_u64_shl_is_mul(1u64, s);
        }
        let mask: u64 = (1u64 << s) - 1;
        proof {
            assert(mask as nat == low_bits_mask(s as nat));
            lemma_u64_low_bits_mask_is_mod(shifted, s as nat);
        }
        shifted & mask
    };
    Some(value)
}

// ---------------------------------------------------------------------------
// Sign extension
// ---------------------------------------------------------------------------

/// `val` reduced to its low `bits` bits and read as a two's-complement
/// number of that width.
pub open spec fn signed_value(val: u64, bits: nat) -> int {
    let m = (val as nat) % pow2(bits);
    if m >= pow2((bits - 1) as nat) {
        m - pow2(bits)
    } else {
        m as int
    }
}

/// Sign-extend the low `bits` bits of `val` to an `i64`. Widths of 0 or 64
/// and more reinterpret all 64 bits.
pub fn sign_extend(val: u64, bits: usize) -> (r: i64)
    ensures
        (bits == 0 || bits >= 64) ==> r == val as i64,
        (0 < bits < 64) ==> r as int == signed_value(val, bits as nat),
{
    if bits == 0 || bits >= 64 {
        return val as i64;
    }
    let shift: u64 = (64 - bits) as u64;
    let r: i64 = ((val << shift) as i64) >> shift;
    proof {
        let b: u64 = bits as u64;
        let mask: u64 = ((1u64 << b) - 1) as u64;
        let m: u64 = val & mask;
        let half: u64 = 1u64 << ((b - 1) as u64);
        assert(0 < b < 64 && shift == 64 - b ==> (((val << shift) as i64) >> shift) == (if (
        val & (((1u64 << b) - 1) as u64)) >= (1u64 << ((b - 1) as u64)) {
            (((val & (((1u64 << b) - 1) as u64)) as i128) - ((1u64 << b) as i128)) as i64
        } else {
            (val & (((1u64 << b) - 1) as u64)) as i64
        })) by (bit_vector);
        lemma_u64_pow2_no_overflow(b as nat);
        lemma_u64_shl_is_mul(1u64, b);
        lemma_u64_low_bits_mask_is_mod(val, b as nat);
        lemma_u64_pow2_no_overflow((b - 1) as nat);
        lemma_u64_shl_is_mul(1u64, (b - 1) as u64);
        lemma_pow2_adds((b - 1) as nat, 1);
        lemma2_to64();
        assert(pow2(b as nat) == pow2((b - 1) as nat) * 2);
    }
    r
}

} // verus!

verus! {

// ---------------------------------------------------------------------------
// Descriptor parsing: the meaning of a descriptor
// ---------------------------------------------------------------------------

/// The parser's state between items: the global items seen so far, the
/// local items of the pending main item, the order in which report ids were
/// declared, the next free bit of every feature report that has one, and
/// every feature field found so far, tagged with its report id, in the order
/// in which the descriptor declares them.
#[verifier::ext_equal]
pub struct DescState {
    pub usage_page: u32,
    pub report_size: usize,
    pub report_count: usize,
    pub report_id: u8,
    pub usages: Seq<u32>,
    pub usage_min: Option<u32>,
    pub usage_max: Option<u32>,
    pub order: Seq<u8>,
    pub cursors: Map<u8, nat>,
    pub fields: Seq<(u8, FieldLoc)>,
}

/// Data size in bytes of a short item, from the low two bits of its prefix.
pub open spec fn item_size(b: u8) -> nat {
    if b & 3 == 0 {
        0
    } else if b & 3 == 1 {
        1
    } else if b & 3 == 2 {
        2
    } else {
        4
    }
}

/// Item type (0 main, 1 global, 2 local), bits 2-3 of the prefix.
pub open spec fn item_type(b: u8) -> u8 {
    (b >> 2u8) & 3
}

/// Item tag, bits 4-7 of the prefix.
pub open spec fn item_tag(b: u8) -> u8 {
    (b >> 4u8) & 0xF
}

/// How many usages a Usage Minimum / Usage Maximum pair spans.
pub open spec fn range_len(min: Option<u32>, max: Option<u32>) -> nat {
    match (min, max) {
        (Some(a), Some(b)) => if a <= b {
            (b - a + 1) as nat
        } else {
            0
        },
        _ => 0,
    }
}

/// The usage assigned to slot `k` of a variable main item: first the usage
/// range (each on the current usage page), then the listed usages; slots
/// beyond those get no usage.
pub open spec fn slot_usage(
    page: u32,
    usages: Seq<u32>,
    min: Option<u32>,
    max: Option<u32>,
    k: int,
) -> Option<u32> {
    let r = range_len(min, max);
    if k < r {
        Some((page << 16u32) | ((min.unwrap() + k) as u32))
    } else if k - r < usages.len() {
        Some(usages[k - r])
    } else {
        None
    }
}

/// The usages of the `count` slots of a variable main item.
pub open spec fn expanded_usages(
    page: u32,
    usages: Seq<u32>,
    min: Option<u32>,
    max: Option<u32>,
    count: nat,
) -> Seq<Option<u32>> {
    Seq::new(count, |k: int| slot_usage(page, usages, min, max, k))
}

/// The fields laid out by a feature main item: slot `k` starts at bit
/// `base + k * size`; slots without a usage are padding.
pub open spec fn slot_fields(rid: u8, base: nat, size: nat, slots: Seq<Option<u32>>) -> Seq<
    (u8, FieldLoc),
>
    decreases slots.len(),
{
    if slots.len() == 0 {
        Seq::empty()
    } else {
        let prev = slot_fields(rid, base, size, slots.drop_last());
        match slots.last() {
            Some(u) => prev.push(
                (
                    rid,
                    FieldLoc {
                        bit_offset: (base + (slots.len() - 1) * size) as u128,
                        bit_size: size as usize,
                        usage: u,
                    },
                ),
            ),
            None => prev,
        }
    }
}

/// The state with the local items cleared, as after any main item.
pub open spec fn clear_locals(st: DescState) -> DescState {
    DescState { usages: Seq::empty(), usage_min: None, usage_max: None, ..st }
}

/// The effect of a Feature main item with the given flags. Its report is
/// listed among the declared ones if it was not yet: this is how the
/// implicit report id 0 of a descriptor without Report ID items is listed.
pub open spec fn feature_item(st: DescState, flags: u64) -> DescState {
    let count = st.report_count as nat;
    let size = st.report_size as nat;
    let slots = if flags & 2 != 0 {
        expanded_usages(st.usage_page, st.usages, st.usage_min, st.usage_max, count)
    } else {
        Seq::new(count, |k: int| None::<u32>)
    };
    let base: nat = if st.cursors.contains_key(st.report_id) {
        st.cursors[st.report_id]
    } else {
        0
    };
    clear_locals(
        DescState {
            cursors: st.cursors.insert(st.report_id, base + count * size),
            fields: st.fields + slot_fields(st.report_id, base, size, slots),
            order: if st.order.contains(st.report_id) {
                st.order
            } else {
                st.order.push(st.report_id)
            },
            ..st
        },
    )
}

proof fn lemma_padding_slots(rid: u8, base: nat, size: nat, n: nat)
    ensures
        slot_fields(rid, base, size, Seq::new(n, |k: int| None::<u32>)) == Seq::<(u8, FieldLoc)>::empty(),
    decreases n,
{
    if n > 0 {
        let slots = Seq::new(n, |k: int| None::<u32>);
        assert(slots.drop_last() =~= Seq::new((n - 1) as nat, |k: int| None::<u32>));
        lemma_padding_slots(rid, base, size, (n - 1) as nat);
    }
}

/// Only the Variable bit (bit 1) of a Feature item's flags decides between
/// fields and padding; the Constant bit and the others do not matter (APC
/// marks live status bits Constant). With the Variable bit set, every slot
/// that has a usage becomes a field of the current report, laid out from
/// the report's cursor; without it, the item adds no field.
pub proof fn lemma_feature_item_variable_bit(st: DescState, flags: u64)
    ensures
        feature_item(st, flags) == feature_item(st, flags & 2),
        flags & 2 != 0 ==> feature_item(st, flags).fields == st.fields + slot_fields(
            st.report_id,
            if st.cursors.contains_key(st.report_id) {
                st.cursors[st.report_id]
            } else {
                0
            },
            st.report_size as nat,
            expanded_usages(
                st.usage_page,
                st.usages,
                st.usage_min,
                st.usage_max,
                st.report_count as nat,
            ),
        ),
        flags & 2 == 0 ==> feature_item(st, flags).fields == st.fields,
{
    assert((flags & 2) & 2 == flags & 2) by (bit_vector);
    assert(feature_item(st, flags) =~= feature_item(st, flags & 2));
    if flags & 2 == 0 {
        let base: nat = if st.cursors.contains_key(st.report_id) {
            st.cursors[st.report_id]
        } else {
            0
        };
        lemma_padding_slots(st.report_id, base, st.report_size as nat, st.report_count as nat);
        assert(st.fields + Seq::<(u8, FieldLoc)>::empty() =~= st.fields);
    }
}

/// The effect of one short item of the given type, tag and data value.
pub open spec fn step(st: DescState, typ: u8, tag: u8, val: u64) -> DescState {
    if typ == 1 {
        if tag == 0 {
            DescState { usage_page: val as u32, ..st }
        } else if tag == 7 {
            DescState { report_size: val as usize, ..st }
        } else if tag == 8 {
            let rid = val as u8;
            DescState {
                report_id: rid,
                order: if st.order.contains(rid) {
                    st.order
                } else {
                    st.order.push(rid)
                },
                ..st
            }
        } else if tag == 9 {
            DescState { report_count: val as usize, ..st }
        } else {
            st
        }
    } else if typ == 2 {
        if tag == 0 {
            DescState { usages: st.usages.push((st.usage_page << 16u32) | (val as u32)), ..st }
        } else if tag == 1 {
            DescState { usage_min: Some(val as u32), ..st }
        } else if tag == 2 {
            DescState { usage_max: Some(val as u32), ..st }
        } else {
            st
        }
    } else if typ == 0 {
        if tag == 0xB {
            feature_item(st, val)
        } else {
            clear_locals(st)
        }
    } else {
        st
    }
}

/// The state after reading the items of `desc` from position `i` on.
/// Long items are skipped; a truncated item ends the descriptor.
pub open spec fn walk_items(desc: Seq<u8>, i: nat, st: DescState) -> DescState
    decreases (if i < desc.len() {
        desc.len() - i
    } else {
        0
    }),
{
    if i >= desc.len() {
        st
    } else {
        let b = desc[i as int];
        if b == 0xFE {
            if i + 2 >= desc.len() {
                st
            } else {
                walk_items(desc, i + 3 + desc[i + 1int] as nat, st)
            }
        } else {
            let size = item_size(b);
            if i + 1 + size > desc.len() {
                st
            } else {
                let val = le_value(desc.subrange(i + 1int, (i + 1 + size) as int)) as u64;
                walk_items(desc, i + 1 + size, step(st, item_type(b), item_tag(b), val))
            }
        }
    }
}

/// The state before the first item.
pub open spec fn initial_desc_state() -> DescState {
    DescState {
        usage_page: 0,
        report_size: 0,
        report_count: 0,
        report_id: 0,
        usages: Seq::empty(),
        usage_min: None,
        usage_max: None,
        order: Seq::empty(),
        cursors: Map::empty(),
        fields: Seq::empty(),
    }
}

/// The fields of report `id`, in declaration order.
pub open spec fn fields_for(fs: Seq<(u8, FieldLoc)>, id: u8) -> Seq<FieldLoc>
    decreases fs.len(),
{
    if fs.len() == 0 {
        Seq::empty()
    } else {
        let prev = fields_for(fs.drop_last(), id);
        if fs.last().0 == id {
            prev.push(fs.last().1)
        } else {
            prev
        }
    }
}

/// For each listed report id, in the order listed, that has at least one
/// feature main item: the id and its fields.
pub open spec fn collect_layouts(order: Seq<u8>, st: DescState) -> Seq<(u8, Seq<FieldLoc>)>
    decreases order.len(),
{
    if order.len() == 0 {
        Seq::empty()
    } else {
        let prev = collect_layouts(order.drop_last(), st);
        let id = order.last();
        if st.cursors.contains_key(id) {
            prev.push((id, fields_for(st.fields, id)))
        } else {
            prev
        }
    }
}

/// The feature-report layouts that a descriptor declares.
pub open spec fn feature_layouts(desc: Seq<u8>) -> Seq<(u8, Seq<FieldLoc>)> {
    let st = walk_items(desc, 0, initial_desc_state());
    collect_layouts(st.order, st)
}

/// No report id is declared twice in `order`.
pub open spec fn ids_distinct(order: Seq<u8>) -> bool {
    forall|i: int, j: int| 0 <= i < j < order.len() ==> order[i] != order[j]
}

proof fn lemma_step_keeps_order_distinct(st: DescState, typ: u8, tag: u8, val: u64)
    requires
        ids_distinct(st.order),
    ensures
        ids_distinct(step(st, typ, tag, val).order),
{
    let rid = if typ == 1 && tag == 8 {
        val as u8
    } else {
        st.report_id
    };
    if !st.order.contains(rid) {
        let o = st.order.push(rid);
        assert forall|i: int, j: int| 0 <= i < j < o.len() implies o[i] != o[j] by {
            if j == st.order.len() {
                assert(o[i] == st.order[i]);
            }
        }
    }
}

proof fn lemma_run_keeps_order_distinct(desc: Seq<u8>, i: nat, st: DescState)
    requires
        ids_distinct(st.order),
    ensures
        ids_distinct(walk_items(desc, i, st).order),
    decreases (if i < desc.len() {
        desc.len() - i
    } else {
        0
    }),
{
    if i < desc.len() {
        let b = desc[i as int];
        if b == 0xFE {
            if i + 2 < desc.len() {
                lemma_run_keeps_order_distinct(desc, i + 3 + desc[i + 1int] as nat, st);
            }
        } else {
            let size = item_size(b);
            if i + 1 + size <= desc.len() {
                let val = le_value(desc.subrange(i + 1int, (i + 1 + size) as int)) as u64;
                lemma_step_keeps_order_distinct(st, item_type(b), item_tag(b), val);
                lemma_run_keeps_order_distinct(
                    desc,
                    i + 1 + size,
                    step(st, item_type(b), item_tag(b), val),
                );
            }
        }
    }
}

proof fn lemma_collect_ids(order: Seq<u8>, st: DescState)
    requires
        ids_distinct(order),
    ensures
        forall|k: int|
            0 <= k < collect_layouts(order, st).len() ==> order.contains(
                #[trigger] collect_layouts(order, st)[k].0,
            ),
        forall|a: int, b: int|
            0 <= a < b < collect_layouts(order, st).len() ==> collect_layouts(order, st)[a].0
                != collect_layouts(order, st)[b].0,
    decreases order.len(),
{
    if order.len() > 0 {
        let pre = order.drop_last();
        assert(ids_distinct(pre)) by {
            assert forall|i: int, j: int| 0 <= i < j < pre.len() implies pre[i] != pre[j] by {
                assert(pre[i] == order[i] && pre[j] == order[j]);
            }
        }
        lemma_collect_ids(pre, st);
        let prev = collect_layouts(pre, st);
        let id = order.last();
        assert forall|k: int| 0 <= k < prev.len() implies #[trigger] prev[k].0 != id by {
            let j = choose|j: int| 0 <= j < pre.len() && pre[j] == prev[k].0;
            assert(order[j] == pre[j]);
        }
        assert forall|k: int| 0 <= k < prev.len() implies order.contains(#[trigger] prev[k].0) by {
            let j = choose|j: int| 0 <= j < pre.len() && pre[j] == prev[k].0;
            assert(order[j] == pre[j]);
        }
        assert(order[order.len() - 1] == id);
    }
}

/// The fields of a layout lie one after another: each ends (offset plus
/// size) no later than any later one starts, and all end by `end`.
pub open spec fn fields_in_order(fs: Seq<FieldLoc>, end: nat) -> bool {
    &&& forall|a: int, b: int|
        0 <= a < b < fs.len() ==> #[trigger] fs[a].bit_offset + fs[a].bit_size
            <= #[trigger] fs[b].bit_offset
    &&& forall|a: int| 0 <= a < fs.len() ==> #[trigger] fs[a].bit_offset + fs[a].bit_size <= end
}

/// The next free bit of report `id` (0 before its first feature item).
pub open spec fn cursor_of(st: DescState, id: u8) -> nat {
    if st.cursors.contains_key(id) {
        st.cursors[id]
    } else {
        0
    }
}

/// What holds of the parser's state after the items before position `i`:
/// sizes and counts fit in 32 bits, no cursor is past `i * 2^64`, and the
/// fields of every report lie in order before its cursor.
pub open spec fn desc_state_ok(st: DescState, i: nat) -> bool {
    &&& st.report_size < 0x1_0000_0000
    &&& st.report_count < 0x1_0000_0000
    &&& forall|id: u8| #[trigger] cursor_of(st, id) <= i * item_span()
    &&& forall|id: u8| fields_in_order(#[trigger] fields_for(st.fields, id), cursor_of(st, id))
}

proof fn lemma_fields_for_concat(a: Seq<(u8, FieldLoc)>, b: Seq<(u8, FieldLoc)>, id: u8)
    ensures
        fields_for(a + b, id) == fields_for(a, id) + fields_for(b, id),
    decreases b.len(),
{
    if b.len() == 0 {
        assert(a + b =~= a);
        assert(fields_for(a, id) + fields_for(b, id) =~= fields_for(a, id));
    } else {
        lemma_fields_for_concat(a, b.drop_last(), id);
        assert((a + b).drop_last() =~= a + b.drop_last());
        assert((a + b).last() == b.last());
        if b.last().0 == id {
            assert(fields_for(a, id) + fields_for(b, id) =~= (fields_for(a, id) + fields_for(
                b.drop_last(),
                id,
            )).push(b.last().1));
        }
    }
}

proof fn lemma_slot_fields(rid: u8, base: nat, size: nat, slots: Seq<Option<u32>>, id: u8)
    requires
        size < 0x1_0000_0000,
        base + slots.len() * size < 0x1_0000_0000_0000_0000_0000_0000_0000_0000,
    ensures
        id != rid ==> fields_for(slot_fields(rid, base, size, slots), id).len() == 0,
        fields_in_order(fields_for(slot_fields(rid, base, size, slots), rid), base + slots.len() * size),
        forall|a: int|
            0 <= a < fields_for(slot_fields(rid, base, size, slots), rid).len() ==> #[trigger] fields_for(
                slot_fields(rid, base, size, slots),
                rid,
            )[a].bit_offset >= base,
    decreases slots.len(),
{
    if slots.len() > 0 {
        let pre = slots.drop_last();
        let n = slots.len();
        assert(pre.len() * size + size == n * size) by (nonlinear_arith)
            requires
                pre.len() + 1 == n,
        ;
        assert(pre.len() * size <= n * size) by (nonlinear_arith)
            requires
                pre.len() + 1 == n,
        ;
        lemma_slot_fields(rid, base, size, pre, id);
        let prev = slot_fields(rid, base, size, pre);
        let fp = fields_for(prev, rid);
        let sf = slot_fields(rid, base, size, slots);
        match slots.last() {
            Some(u) => {
                let f = FieldLoc {
                    bit_offset: (base + (n - 1) * size) as u128,
                    bit_size: size as usize,
                    usage: u,
                };
                assert(sf == prev.push((rid, f)));
                assert(sf.drop_last() =~= prev);
                assert(f.bit_offset == base + pre.len() * size);
                let fs = fields_for(sf, rid);
                assert(fs == fp.push(f));
                assert forall|a: int, b: int|
                    0 <= a < b < fs.len() implies #[trigger] fs[a].bit_offset + fs[a].bit_size
                    <= #[trigger] fs[b].bit_offset by {
                    if b == fp.len() {
                        assert(fs[a] == fp[a]);
                    } else {
                        assert(fs[a] == fp[a] && fs[b] == fp[b]);
                    }
                }
                assert forall|a: int| 0 <= a < fs.len() implies #[trigger] fs[a].bit_offset
                    + fs[a].bit_size <= base + n * size by {
                    if a < fp.len() {
                        assert(fs[a] == fp[a]);
                    }
                }
                assert forall|a: int| 0 <= a < fs.len() implies #[trigger] fs[a].bit_offset >= base by {
                    if a < fp.len() {
                        assert(fs[a] == fp[a]);
                    }
                }
                if id != rid {
                    assert(fields_for(sf, id) == fields_for(prev, id));
                }
            },
            None => {
                assert(sf == prev);
                let fs = fp;
                assert forall|a: int| 0 <= a < fs.len() implies #[trigger] fs[a].bit_offset
                    + fs[a].bit_size <= base + n * size by {
                }
            },
        }
    }
}

proof fn lemma_desc_state_ok_grows(st: DescState, i: nat, j: nat)
    requires
        desc_state_ok(st, i),
        i <= j,
    ensures
        desc_state_ok(st, j),
{
    assert forall|id: u8| #[trigger] cursor_of(st, id) <= j * item_span() by {
        assert(i * item_span() <= j * item_span()) by (nonlinear_arith)
            requires
                i <= j,
                item_span() > 0,
        ;
    }
}

proof fn lemma_feature_item_ok(st: DescState, flags: u64, i: nat)
    requires
        desc_state_ok(st, i),
        i + 1 <= item_span(),
    ensures
        desc_state_ok(feature_item(st, flags), i + 1),
{
    let count = st.report_count as nat;
    let size = st.report_size as nat;
    let rid = st.report_id;
    let slots = if flags & 2 != 0 {
        expanded_usages(st.usage_page, st.usages, st.usage_min, st.usage_max, count)
    } else {
        Seq::new(count, |k: int| None::<u32>)
    };
    let base = cursor_of(st, rid);
    let sf = slot_fields(rid, base, size, slots);
    let nst = feature_item(st, flags);
    assert(slots.len() == count);
    assert(count * size < item_span()) by (nonlinear_arith)
        requires
            count < 0x1_0000_0000,
            size < 0x1_0000_0000,
    ;
    assert(base <= i * item_span());
    assert((i + 1) * item_span() == i * item_span() + item_span()) by (nonlinear_arith);
    assert((i + 1) * item_span() <= item_span() * item_span()) by (nonlinear_arith)
        requires
            i + 1 <= item_span(),
    ;
    assert(nst.fields == st.fields + sf);
    assert(nst.cursors == st.cursors.insert(rid, base + count * size));
    assert forall|id: u8| #[trigger] cursor_of(nst, id) <= (i + 1) * item_span() by {
        if id != rid {
            assert(cursor_of(nst, id) == cursor_of(st, id));
        }
    }
    assert forall|id: u8| fields_in_order(#[trigger] fields_for(nst.fields, id), cursor_of(nst, id)) by {
        lemma_fields_for_concat(st.fields, sf, id);
        lemma_slot_fields(rid, base, size, slots, id);
        let fa = fields_for(st.fields, id);
        let fb = fields_for(sf, id);
        let fs = fields_for(nst.fields, id);
        assert(fs == fa + fb);
        if id != rid {
            assert(fb.len() == 0);
            assert(fs =~= fa);
            assert(cursor_of(nst, id) == cursor_of(st, id));
        } else {
            assert(cursor_of(st, id) == base);
            assert(cursor_of(nst, id) == base + count * size);
            assert(fields_in_order(fa, base));
            assert forall|a: int, b: int|
                0 <= a < b < fs.len() implies #[trigger] fs[a].bit_offset + fs[a].bit_size
                <= #[trigger] fs[b].bit_offset by {
                if b < fa.len() {
                    assert(fs[a] == fa[a] && fs[b] == fa[b]);
                } else if a < fa.len() {
                    assert(fs[a] == fa[a]);
                    assert(fs[b] == fb[b - fa.len()]);
                } else {
                    assert(fs[a] == fb[a - fa.len()]);
                    assert(fs[b] == fb[b - fa.len()]);
                }
            }
            assert forall|a: int| 0 <= a < fs.len() implies #[trigger] fs[a].bit_offset
                + fs[a].bit_size <= base + count * size by {
                if a < fa.len() {
                    assert(fs[a] == fa[a]);
                } else {
                    assert(fs[a] == fb[a - fa.len()]);
                }
            }
        }
    }
}

proof fn lemma_step_ok(st: DescState, typ: u8, tag: u8, val: u64, i: nat)
    requires
        desc_state_ok(st, i),
        i + 1 <= item_span(),
        val < 0x1_0000_0000,
    ensures
        desc_state_ok(step(st, typ, tag, val), i + 1),
{
    if typ == 0 && tag == 0xB {
        lemma_feature_item_ok(st, val, i);
    } else {
        lemma_desc_state_ok_grows(st, i, i + 1);
        let nst = step(st, typ, tag, val);
        assert(nst.fields == st.fields && nst.cursors == st.cursors);
        assert forall|id: u8| #[trigger] cursor_of(nst, id) <= (i + 1) * item_span() by {
            assert(cursor_of(nst, id) == cursor_of(st, id));
        }
        assert forall|id: u8| fields_in_order(#[trigger] fields_for(nst.fields, id), cursor_of(nst, id)) by {
            assert(cursor_of(nst, id) == cursor_of(st, id));
        }
    }
}

proof fn lemma_run_ok(desc: Seq<u8>, i: nat, st: DescState)
    requires
        desc_state_ok(st, i),
        i <= desc.len(),
        desc.len() < item_span(),
    ensures
        desc_state_ok(walk_items(desc, i, st), desc.len()),
    decreases desc.len() - i,
{
    if i >= desc.len() {
    } else {
        let b = desc[i as int];
        if b == 0xFE {
            if i + 2 >= desc.len() {
                lemma_desc_state_ok_grows(st, i, desc.len());
            } else {
                let j: nat = i + 3 + desc[i + 1int] as nat;
                if j >= desc.len() {
                    assert(walk_items(desc, j, st) == st);
                    lemma_desc_state_ok_grows(st, i, desc.len());
                } else {
                    lemma_desc_state_ok_grows(st, i, j);
                    lemma_run_ok(desc, j, st);
                }
            }
        } else {
            let size = item_size(b);
            if i + 1 + size > desc.len() {
                lemma_desc_state_ok_grows(st, i, desc.len());
            } else {
                let bytes = desc.subrange(i + 1int, (i + 1 + size) as int);
                lemma_le_value_bound(bytes);
                lemma2_to64();
                assert(pow2((8 * bytes.len()) as nat) <= 0x1_0000_0000) by {
                    if size == 0 {
                    } else if size == 1 {
                    } else if size == 2 {
                    } else {
                        assert(size == 4);
                    }
                }
                let val = le_value(bytes) as u64;
                assert(val == le_value(bytes));
                let nst = step(st, item_type(b), item_tag(b), val);
                lemma_step_ok(st, item_type(b), item_tag(b), val, i);
                lemma_desc_state_ok_grows(nst, i + 1, i + 1 + size);
                lemma_run_ok(desc, i + 1 + size, nst);
            }
        }
    }
}

proof fn lemma_collect_fields(order: Seq<u8>, st: DescState)
    ensures
        forall|k: int|
            0 <= k < collect_layouts(order, st).len() ==> (#[trigger] collect_layouts(order, st)[k]).1
                == fields_for(st.fields, collect_layouts(order, st)[k].0),
    decreases order.len(),
{
    if order.len() > 0 {
        lemma_collect_fields(order.drop_last(), st);
        let prev = collect_layouts(order.drop_last(), st);
        let c = collect_layouts(order, st);
        assert forall|k: int| 0 <= k < c.len() implies (#[trigger] c[k]).1 == fields_for(
            st.fields,
            c[k].0,
        ) by {
            if k < prev.len() {
                assert(c[k] == prev[k]);
            }
        }
    }
}

/// Within every layout the fields lie one after another, in declaration
/// order: each field ends (offset plus size) no later than the next one
/// starts, so no two fields of a report overlap.
pub proof fn lemma_layout_fields_in_order(desc: Seq<u8>)
    requires
        desc.len() <= usize::MAX,
    ensures
        forall|k: int, a: int, b: int|
            0 <= k < feature_layouts(desc).len() && 0 <= a < b < feature_layouts(desc)[k].1.len()
                ==> #[trigger] feature_layouts(desc)[k].1[a].bit_offset + feature_layouts(desc)[k].1[a].bit_size
                <= #[trigger] feature_layouts(desc)[k].1[b].bit_offset,
{
    let st0 = initial_desc_state();
    assert forall|id: u8| fields_in_order(#[trigger] fields_for(st0.fields, id), cursor_of(st0, id)) by {
        assert(fields_for(st0.fields, id).len() == 0);
    }
    lemma_run_ok(desc, 0, st0);
    let st = walk_items(desc, 0, st0);
    lemma_collect_fields(st.order, st);
    let fl = feature_layouts(desc);
    assert forall|k: int, a: int, b: int|
        0 <= k < fl.len() && 0 <= a < b < fl[k].1.len() implies #[trigger] fl[k].1[a].bit_offset
        + fl[k].1[a].bit_size <= #[trigger] fl[k].1[b].bit_offset by {
        let id = fl[k].0;
        assert(fl[k].1 == fields_for(st.fields, id));
        assert(fields_in_order(fields_for(st.fields, id), cursor_of(st, id)));
    }
}

proof fn lemma_run_shift(p: Seq<u8>, r: Seq<u8>, i: nat, st: DescState)
    ensures
        walk_items(p + r, p.len() + i, st) == walk_items(r, i, st),
    decreases r.len() - i,
{
    let d = p + r;
    let j: nat = p.len() + i;
    if i < r.len() {
        assert(d[j as int] == r[i as int]);
        let b = r[i as int];
        if b == 0xFE {
            if i + 2 < r.len() {
                assert(d[j + 1int] == r[i + 1int]);
                let i2: nat = i + 3 + r[i + 1int] as nat;
                if i2 < r.len() {
                    lemma_run_shift(p, r, i2, st);
                }
                assert(j + 3 + d[j + 1int] as nat == p.len() + i2);
            }
        } else {
            let size = item_size(b);
            if i + 1 + size <= r.len() {
                assert(d.subrange(j + 1int, (j + 1 + size) as int) =~= r.subrange(
                    i + 1int,
                    (i + 1 + size) as int,
                ));
                let val = le_value(r.subrange(i + 1int, (i + 1 + size) as int)) as u64;
                let nst = step(st, item_type(b), item_tag(b), val);
                let i2: nat = i + 1 + size;
                if i2 < r.len() {
                    lemma_run_shift(p, r, i2, nst);
                }
            }
        }
    }
}

/// A complete long item (`0xFE`, its data length `n`, a tag, then `n` data
/// bytes) at the start of a descriptor is skipped: the layouts are those of
/// the rest.
pub proof fn lemma_leading_long_item_skipped(n: u8, tag: u8, data: Seq<u8>, rest: Seq<u8>)
    requires
        data.len() == n,
    ensures
        feature_layouts(seq![0xFEu8, n, tag] + data + rest) == feature_layouts(rest),
{
    let prefix = seq![0xFEu8, n, tag] + data;
    let d = prefix + rest;
    let st0 = initial_desc_state();
    assert(d[0] == 0xFE);
    assert(d[1] == n);
    lemma_run_shift(prefix, rest, 0, st0);
    assert(walk_items(d, 0, st0) == walk_items(d, prefix.len() + 0, st0));
}

/// Whether reading items from position `i` of `d` ends exactly at its end,
/// every item complete.
pub open spec fn ends_on_item_boundary(d: Seq<u8>, i: nat) -> bool
    decreases (if i < d.len() {
        d.len() - i
    } else {
        0
    }),
{
    if i >= d.len() {
        i == d.len()
    } else {
        let b = d[i as int];
        if b == 0xFE {
            i + 2 < d.len() && ends_on_item_boundary(d, i + 3 + d[i + 1int] as nat)
        } else {
            i + 1 + item_size(b) <= d.len() && ends_on_item_boundary(d, i + 1 + item_size(b))
        }
    }
}

/// Whether `t` is a proper prefix of one item: the item it starts is cut
/// off before its end.
pub open spec fn cut_off_item(t: Seq<u8>) -> bool {
    t.len() == 0 || (t[0] == 0xFE && (t.len() < 3 || t.len() < 3 + t[1] as nat)) || (t[0]
        != 0xFE && t.len() < 1 + item_size(t[0]))
}

proof fn lemma_run_cut_off(d: Seq<u8>, t: Seq<u8>, i: nat, st: DescState)
    requires
        ends_on_item_boundary(d, i),
        cut_off_item(t),
    ensures
        walk_items(d + t, i, st) == walk_items(d, i, st),
    decreases d.len() - i,
{
    let e = d + t;
    if i == d.len() {
        if t.len() > 0 {
            assert(e[i as int] == t[0]);
            if t[0] == 0xFE {
                if i + 2 < e.len() {
                    assert(e[i + 1int] == t[1]);
                    let j: nat = i + 3 + t[1] as nat;
                    assert(j >= e.len());
                    assert(walk_items(e, j, st) == st);
                }
            }
        }
    } else {
        let b = d[i as int];
        assert(e[i as int] == b);
        if b == 0xFE {
            assert(e[i + 1int] == d[i + 1int]);
            let j: nat = i + 3 + d[i + 1int] as nat;
            assert(ends_on_item_boundary(d, j));
            assert(j <= d.len());
            lemma_run_cut_off(d, t, j, st);
        } else {
            let size = item_size(b);
            assert(e.subrange(i + 1int, (i + 1 + size) as int) =~= d.subrange(
                i + 1int,
                (i + 1 + size) as int,
            ));
            let val = le_value(d.subrange(i + 1int, (i + 1 + size) as int)) as u64;
            lemma_run_cut_off(d, t, i + 1 + size, step(st, item_type(b), item_tag(b), val));
        }
    }
}

/// An item cut off by the end of the descriptor is ignored: appending the
/// start of an item to a descriptor whose items are all complete leaves the
/// layouts unchanged.
pub proof fn lemma_cut_off_item_ignored(d: Seq<u8>, t: Seq<u8>)
    requires
        ends_on_item_boundary(d, 0),
        cut_off_item(t),
    ensures
        feature_layouts(d + t) == feature_layouts(d),
{
    lemma_run_cut_off(d, t, 0, initial_desc_state());
}

/// A descriptor yields at most one layout per report id.
pub proof fn lemma_layout_ids_distinct(desc: Seq<u8>)
    ensures
        forall|i: int, j: int|
            0 <= i < j < feature_layouts(desc).len() ==> feature_layouts(desc)[i].0
                != feature_layouts(desc)[j].0,
{
    let st = walk_items(desc, 0, initial_desc_state());
    lemma_run_keeps_order_distinct(desc, 0, initial_desc_state());
    lemma_collect_ids(st.order, st);
}

} // verus!

verus! {

// ---------------------------------------------------------------------------
// Descriptor parsing: the parser
// ---------------------------------------------------------------------------

/// 2^64: every item adds less than this to a report's bit cursor.
pub open spec fn item_span() -> int {
    0x1_0000_0000_0000_0000
}

/// The parser's working state. Per-report data is kept in 256-entry tables
/// indexed by report id.
struct ParserState {
    usage_page: u32,
    report_size: usize,
    report_count: usize,
    report_id: u8,
    usages: Vec<u32>,
    usage_min: Option<u32>,
    usage_max: Option<u32>,
    order: Vec<u8>,
    present: Vec<bool>,
    cursors: Vec<u128>,
    fields: Vec<(u8, FieldLoc)>,
}

impl View for ParserState {
    type V = DescState;

    closed spec fn view(&self) -> DescState {
        DescState {
            usage_page: self.usage_page,
            report_size: self.report_size,
            report_count: self.report_count,
            report_id: self.report_id,
            usages: self.usages@,
            usage_min: self.usage_min,
            usage_max: self.usage_max,
            order: self.order@,
            cursors: Map::new(
                |id: u8| self.present@[id as int],
                |id: u8| self.cursors@[id as int] as nat,
            ),
            fields: self.fields@,
        }
    }
}

impl ParserState {
    /// The tables have one entry per report id, absent reports have cursor 0,
    /// every cursor is at most `bound`, and report size and count fit in 32
    /// bits.
    spec fn wf(&self, bound: int) -> bool {
        &&& self.present@.len() == 256
        &&& self.cursors@.len() == 256
        &&& forall|id: int| 0 <= id < 256 && !self.present@[id] ==> self.cursors@[id] == 0
        &&& forall|id: int| 0 <= id < 256 ==> self.cursors@[id] <= bound
        &&& self.report_size < 0x1_0000_0000
        &&& self.report_count < 0x1_0000_0000
    }

    fn new() -> (r: Self)
        ensures
            r@ =~= initial_desc_state(),
            r.wf(0),
    {
        let mut present: Vec<bool> = Vec::new();
        let mut cursors: Vec<u128> = Vec::new();
        let mut k: usize = 0;
        while k < 256
            invariant
                k <= 256,
                present@.len() == k,
                cursors@.len() == k,
                forall|j: int| 0 <= j < k ==> !present@[j] && cursors@[j] == 0,
            decreases 256 - k,
        {
            present.push(false);
            cursors.push(0);
            k = k + 1;
        }
        ParserState {
            usage_page: 0,
            report_size: 0,
            report_count: 0,
            report_id: 0,
            usages: Vec::new(),
            usage_min: None,
            usage_max: None,
            order: Vec::new(),
            present,
            cursors,
            fields: Vec::new(),
        }
    }

    fn clear_locals(&mut self)
        ensures
            final(self)@ == clear_locals(old(self)@),
            final(self).present == old(self).present,
            final(self).cursors == old(self).cursors,
            final(self).report_size == old(self).report_size,
            final(self).report_count == old(self).report_count,
    {
        self.usages = Vec::new();
        self.usage_min = None;
        self.usage_max = None;
        assert(self@ =~= clear_locals(old(self)@));
    }

    /// Lay out the fields of a Feature main item.
    fn feature_item(&mut self, flags: u64, Ghost(bound): Ghost<int>)
        requires
            old(self).wf(bound),
            0 <= bound <= item_span() * (item_span() - 2),
        ensures
            final(self)@ == feature_item(old(self)@, flags),
            final(self).wf(bound + item_span()),
    {
        let count = self.report_count;
        let size = self.report_size;
        let expanded: Vec<Option<u32>> = if flags & 0x02 != 0 {
            expand_usages(
                self.usage_page,
                self.usages.as_slice(),
                self.usage_min,
                self.usage_max,
                count,
            )
        } else {
            no_usages(count)
        };
        let rid = self.report_id;
        let base: u128 = self.cursors[rid as usize];
        let ghost fields0 = self.fields@;
        let mut cursor: u128 = base;
        let mut k: usize = 0;
        while k < count
            invariant
                k <= count == self.report_count,
                size == self.report_size,
                old(self).wf(bound),
                self.present@ == old(self).present@,
                self.cursors@ == old(self).cursors@,
                self.usages@ == old(self).usages@,
                self.usage_min == old(self).usage_min,
                self.usage_max == old(self).usage_max,
                self.usage_page == old(self).usage_page,
                self.order@ == old(self).order@,
                self.report_count == old(self).report_count,
                self.report_size == old(self).report_size,
                self.report_id == old(self).report_id,
                base == old(self).cursors@[rid as int],
                fields0 == old(self).fields@,
                rid == self.report_id,
                count < 0x1_0000_0000,
                size < 0x1_0000_0000,
                expanded@.len() == count,
                0 <= base <= bound <= item_span() * (item_span() - 2),
                cursor as int == base + k * size,
                self.fields@ == fields0 + slot_fields(rid, base as nat, size as nat, expanded@.take(k as int)),
            decreases count - k,
        {
            proof {
                assert((k + 1) * size <= count * size) by (nonlinear_arith)
                    requires k < count;
                assert(count * size < item_span()) by (nonlinear_arith)
                    requires count < 0x1_0000_0000, size < 0x1_0000_0000;
                assert(k * size + size == (k + 1) * size) by (nonlinear_arith);
                let t = expanded@.take(k + 1);
                assert(t.drop_last() =~= expanded@.take(k as int));
            }
            match expanded[k] {
                Some(u) => {
                    self.fields.push(
                        (rid, FieldLoc { bit_offset: cursor, bit_size: size, usage: u }),
                    );
                },
                None => {},
            }
            cursor = cursor + size as u128;
            k = k + 1;
        }
        proof {
            assert(expanded@.take(count as int) =~= expanded@);
            assert(count * size < item_span()) by (nonlinear_arith)
                requires count < 0x1_0000_0000, size < 0x1_0000_0000;
        }
        let ghost old_cursors = self.cursors@;
        let ghost old_present = self.present@;
        self.present.set(rid as usize, true);
        self.cursors.set(rid as usize, cursor);
        if !contains_id(&self.order, rid) {
            self.order.push(rid);
        }
        self.clear_locals();
        proof {
            let st = old(self)@;
            let slots = if flags & 2 != 0 {
                expanded_usages(st.usage_page, st.usages, st.usage_min, st.usage_max, count as nat)
            } else {
                Seq::new(count as nat, |k: int| None::<u32>)
            };
            assert(expanded@ =~= slots);
            let b2: nat = if st.cursors.contains_key(st.report_id) {
                st.cursors[st.report_id]
            } else {
                0
            };
            assert(b2 == base);
            assert(self@.cursors =~= st.cursors.insert(rid, (base + count * size) as nat));
            assert(self@ =~= feature_item(st, flags));
        }
    }
}

impl ParserState {
    /// Apply one short item of the given type, tag and data value.
    fn apply_item(&mut self, typ: u8, tag: u8, val: u64, Ghost(bound): Ghost<int>)
        requires
            old(self).wf(bound),
            0 <= bound <= item_span() * (item_span() - 2),
            val < 0x1_0000_0000,
        ensures
            final(self)@ == step(old(self)@, typ, tag, val),
            final(self).wf(bound + item_span()),
    {
        if typ == 1 {
            if tag == 0 {
                self.usage_page = val as u32;
            } else if tag == 7 {
                self.report_size = val as usize;
            } else if tag == 8 {
                let rid = val as u8;
                self.report_id = rid;
                if !contains_id(&self.order, rid) {
                    self.order.push(rid);
                }
            } else if tag == 9 {
                self.report_count = val as usize;
            }
        } else if typ == 2 {
            if tag == 0 {
                let u: u32 = (self.usage_page << 16u32) | (val as u32);
                self.usages.push(u);
            } else if tag == 1 {
                self.usage_min = Some(val as u32);
            } else if tag == 2 {
                self.usage_max = Some(val as u32);
            }
        } else if typ == 0 {
            if tag == 0xB {
                self.feature_item(val, Ghost(bound));
            } else {
                self.clear_locals();
            }
        }
        assert(self@ =~= step(old(self)@, typ, tag, val));
    }
}

/// Parse a raw HID report descriptor and return feature-report layouts:
/// for each report id that has feature items (the implicit id 0 included
/// when the descriptor declares no Report ID before them), in the order the
/// ids are declared, the bit position of every usage.
pub fn parse_feature_layouts(desc: &[u8]) -> (r: Vec<ReportLayout>)
    ensures
        r@.map_values(|l: ReportLayout| l@) == feature_layouts(desc@),
{
    let n = desc.len();
    let mut st = ParserState::new();
    let ghost target = walk_items(desc@, 0, initial_desc_state());
    let mut i: usize = 0;
    while i < n
        invariant
            n == desc@.len(),
            i <= n,
            st.wf(i * item_span()),
            walk_items(desc@, i as nat, st@) == target,
        decreases n - i,
    {
        let b = desc[i];
        if b == 0xFE {
            if n - i <= 2 {
                i = n;
            } else {
                let len = desc[i + 1] as usize;
                let ghost i0 = i;
                if len + 3 >= n - i {
                    i = n;
                    assert(walk_items(desc@, (i0 + 3 + len) as nat, st@) == st@);
                } else {
                    i = i + 3 + len;
                }
                assert(walk_items(desc@, i0 as nat, st@) == walk_items(desc@, i as nat, st@));
            }
        } else {
            let size: usize = if b & 3 == 0 {
                0
            } else if b & 3 == 1 {
                1
            } else if b & 3 == 2 {
                2
            } else {
                4
            };
            assert(size == item_size(b));
            let typ: u8 = (b >> 2u8) & 3;
            let tag: u8 = (b >> 4u8) & 0xF;
            if size > n - i - 1 {
                i = n;
            } else {
                let start = i + 1;
                let mut val: u64 = 0;
                let mut k: usize = 0;
                proof {
                    lemma2_to64();
                }
                while k < size
                    invariant
                        k <= size <= 4,
                        start + size <= n,
                        n == desc@.len(),
                        val as nat == le_value(desc@.subrange(start as int, start + k)),
                        val < pow2((8 * k) as nat),
                    decreases size - k,
                {
                    proof {
                        lemma_or_byte(val, desc@[start + k], k as nat);
                        lemma_le_value_extend(desc@, start as int, k as int);
                    }
                    let sh: u64 = 8 * (k as u64);
                    let byte: u64 = desc[start + k] as u64;
                    val = val | (byte << sh);
                    k = k + 1;
                }
                proof {
                    lemma2_to64();
                    if size < 4 {
                        lemma_pow2_strictly_increases((8 * size) as nat, 32);
                    }
                    assert(val < 0x1_0000_0000);
                    assert(i * item_span() <= item_span() * (item_span() - 2)) by (nonlinear_arith)
                        requires i <= item_span() - 2;
                    assert(i * item_span() + item_span() <= (start + size) * item_span())
                        by (nonlinear_arith)
                        requires start + size >= i + 1;
                }
                let ghost i0 = i;
                let ghost st0 = st@;
                i = start + size;
                st.apply_item(typ, tag, val, Ghost(i0 * item_span()));
                proof {
                    assert(typ == item_type(b));
                    assert(tag == item_tag(b));
                    assert(desc@[i0 as int] == b);
                    assert(val == le_value(desc@.subrange(i0 + 1int, (i0 + 1 + size) as int)) as u64);
                    assert(walk_items(desc@, i0 as nat, st0) == walk_items(desc@, i as nat, st@));
                }
            }
        }
    }
    let mut out: Vec<ReportLayout> = Vec::new();
    let mut j: usize = 0;
    while j < st.order.len()
        invariant
            j <= st.order@.len(),
            st@ == target,
            st.present@.len() == 256,
            out@.map_values(|l: ReportLayout| l@) == collect_layouts(st@.order.take(j as int), st@),
        decreases st.order@.len() - j,
    {
        let id = st.order[j];
        proof {
            assert(st@.order.take(j + 1).drop_last() =~= st@.order.take(j as int));
        }
        if st.present[id as usize] {
            let fields = fields_of_report(&st.fields, id);
            let ghost before = out@;
            out.push(ReportLayout { report_id: id, fields });
            assert(out@.map_values(|l: ReportLayout| l@) =~= before.map_values(
                |l: ReportLayout| l@,
            ).push((id, fields_for(st@.fields, id))));
        }
        j = j + 1;
    }
    assert(st@.order.take(st@.order.len() as int) =~= st@.order);
    out
}

/// `count` slots without usages (an array main item).
fn no_usages(count: usize) -> (r: Vec<Option<u32>>)
    ensures
        r@ == Seq::new(count as nat, |k: int| None::<u32>),
{
    let mut out: Vec<Option<u32>> = Vec::new();
    let mut k: usize = 0;
    while k < count
        invariant
            k <= count,
            out@ =~= Seq::new(k as nat, |j: int| None::<u32>),
        decreases count - k,
    {
        out.push(None);
        k = k + 1;
    }
    out
}

/// The usages of the `count` slots of a variable main item: the usage range
/// (on the current usage page) first, then the listed usages, then `None`
/// for the remaining slots.
pub fn expand_usages(
    usage_page: u32,
    usages: &[u32],
    usage_min: Option<u32>,
    usage_max: Option<u32>,
    count: usize,
) -> (r: Vec<Option<u32>>)
    ensures
        r@ == expanded_usages(usage_page, usages@, usage_min, usage_max, count as nat),
{
    let range: u64 = match (usage_min, usage_max) {
        (Some(a), Some(b)) => if a <= b {
            (b - a) as u64 + 1
        } else {
            0
        },
        _ => 0,
    };
    assert(range == range_len(usage_min, usage_max));
    let mut out: Vec<Option<u32>> = Vec::new();
    let mut k: usize = 0;
    while k < count
        invariant
            k <= count,
            range == range_len(usage_min, usage_max),
            range <= 0x1_0000_0000,
            out@ =~= Seq::new(
                k as nat,
                |j: int| slot_usage(usage_page, usages@, usage_min, usage_max, j),
            ),
        decreases count - k,
    {
        let kk: u64 = k as u64;
        let slot: Option<u32> = if kk < range {
            let a: u32 = usage_min.unwrap();
            Some((usage_page << 16u32) | (a + kk as u32))
        } else if kk - range < usages.len() as u64 {
            Some(usages[(kk - range) as usize])
        } else {
            None
        };
        assert(slot == slot_usage(usage_page, usages@, usage_min, usage_max, k as int));
        out.push(slot);
        k = k + 1;
    }
    out
}

/// Whether `x` occurs in `v`.
fn contains_id(v: &Vec<u8>, x: u8) -> (b: bool)
    ensures
        b == v@.contains(x),
{
    let mut k: usize = 0;
    while k < v.len()
        invariant
            k <= v.len(),
            forall|j: int| 0 <= j < k ==> v@[j] != x,
        decreases v.len() - k,
    {
        if v[k] == x {
            return true;
        }
        k = k + 1;
    }
    false
}

/// The fields of report `id`, in declaration order.
fn fields_of_report(fs: &Vec<(u8, FieldLoc)>, id: u8) -> (r: Vec<FieldLoc>)
    ensures
        r@ == fields_for(fs@, id),
{
    let mut out: Vec<FieldLoc> = Vec::new();
    let mut k: usize = 0;
    while k < fs.len()
        invariant
            k <= fs.len(),
            out@ == fields_for(fs@.take(k as int), id),
        decreases fs.len() - k,
    {
        proof {
            assert(fs@.take(k + 1).drop_last() =~= fs@.take(k as int));
        }
        if fs[k].0 == id {
            out.push(fs[k].1);
        }
        k = k + 1;
    }
    assert(fs@.take(fs.len() as int) =~= fs@);
    out
}

} // verus!
