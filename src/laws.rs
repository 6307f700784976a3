//! Laws of the decoder, proved over the specifications of its moves.
use crate::decl::{AllocSite, ConstFieldInfo, FieldInfo, FieldType, FieldValue, Id};
use crate::model::{ArrayModel, ClassDescriptionModel, DumpModel, RecordModel};
use crate::reader::{fixed, p_u16, Parsed};
use crate::records::{
    chain_values, const_entry, const_entry_at, counted, field_entry, field_entry_at,
    field_values, p_value, repeat, spec_alloc_sites, spec_class_dump,
    spec_end_thread, spec_frame, spec_heap_summary, spec_instance_dump, spec_load_class,
    spec_object_array, spec_primitive_array, spec_root, spec_start_thread, spec_string,
    spec_trace, spec_unload_class, static_entry, static_entry_at, value_entry, value_entry_at,
    IdReader, LayoutModel,
};
use crate::stream::{
    is_record_tag, is_root_tag, measure, spec_next, spec_step, spec_subrecord, spec_top_record,
    state_wf, step_data, step_top, IteratorState,
};
use crate::decl::Ts;
use vstd::prelude::*;

verus! {

/// A successful outcome ends between its start and the bound.
pub open spec fn within<T>(p: Parsed<T>, i: int, e: int) -> bool {
    match p {
        Ok((_, j)) => i <= j <= e,
        Err(_) => true,
    }
}

proof fn lemma_fixed_within<T>(e: int, i: int, k: int, v: T)
    requires
        k >= 0,
    ensures
        within(fixed(e, i, k, v), i, e),
{
}

proof fn lemma_product_nonneg(a: int, b: int)
    requires
        a >= 0,
        b >= 0,
    ensures
        a * b >= 0,
{
    assert(a * b >= 0) by (nonlinear_arith)
        requires
            a >= 0,
            b >= 0,
    ;
}

proof fn lemma_repeat_within<T>(entry: spec_fn(int, int) -> Parsed<T>, k: int, j: int, n: nat, e: int)
    requires
        j <= e,
        forall|k2: int, j2: int| j2 <= e ==> #[trigger] within(entry(k2, j2), j2, e),
    ensures
        within(repeat(entry, k, j, n), j, e),
    decreases n,
{
    if n > 0 {
        assert(within(entry(k, j), j, e));
        match entry(k, j) {
            Err(_) => {},
            Ok((v, j2)) => {
                lemma_repeat_within(entry, k + 1, j2, (n - 1) as nat, e);
            },
        }
    }
}

proof fn lemma_value_within(s: Seq<u8>, e: int, i: int, t: crate::decl::FieldType, w: IdReader)
    ensures
        within(p_value(s, e, i, t, w), i, e),
{
}

proof fn lemma_counted_within<T>(s: Seq<u8>, e: int, i: int, entry: spec_fn(int, int) -> Parsed<T>)
    requires
        forall|k2: int, j2: int| j2 <= e ==> #[trigger] within(entry(k2, j2), j2, e),
    ensures
        within(counted(s, e, i, entry), i, e),
{
    match p_u16(s, e, i) {
        Err(_) => {},
        Ok((n, j)) => {
            lemma_repeat_within(entry, 0, j, n as nat, e);
        },
    }
}

proof fn lemma_class_dump_within(s: Seq<u8>, e: int, i: int, w: IdReader)
    requires
        w.wf(),
    ensures
        within(spec_class_dump(s, e, i, w), i, e),
{
    let n = w.id_size as int;
    let h = i + 7 * n + 8;
    assert forall|k2: int, j2: int| j2 <= e implies #[trigger] within(const_entry(s, e, w)(k2, j2), j2, e) by {
        assert(const_entry(s, e, w)(k2, j2) == const_entry_at(s, e, w, j2));
    }
    assert forall|k2: int, j2: int| j2 <= e implies #[trigger] within(static_entry(s, e, w)(k2, j2), j2, e) by {
        assert(static_entry(s, e, w)(k2, j2) == static_entry_at(s, e, w, j2));
    }
    assert forall|k2: int, j2: int| j2 <= e implies #[trigger] within(field_entry(s, e, w)(k2, j2), j2, e) by {
        assert(field_entry(s, e, w)(k2, j2) == field_entry_at(s, e, w, j2));
    }
    if h <= e {
        lemma_counted_within(s, e, h, const_entry(s, e, w));
        match counted(s, e, h, const_entry(s, e, w)) {
            Err(_) => {},
            Ok((_, j1)) => {
                lemma_counted_within(s, e, j1, static_entry(s, e, w));
                match counted(s, e, j1, static_entry(s, e, w)) {
                    Err(_) => {},
                    Ok((_, j2)) => {
                        lemma_counted_within(s, e, j2, field_entry(s, e, w));
                    },
                }
            },
        }
    }
}

proof fn lemma_top_record_within(s: Seq<u8>, e: int, q: int, tag: u8, size: u32, w: IdReader)
    requires
        w.wf(),
        is_record_tag(tag),
    ensures
        within(spec_top_record(s, e, q, tag, size, w), q, e),
{
    reveal(spec_top_record);
    let n = w.id_size as int;
    if q + 12 <= e {
        lemma_product_nonneg(crate::wire::be32(s, q + 8) as int, n);
    }
    if q + 34 <= e {
        lemma_product_nonneg(25, crate::wire::be32(s, q + 30) as int);
    }
}

proof fn lemma_subrecord_within(
    s: Seq<u8>,
    e: int,
    q: int,
    tag: u8,
    w: IdReader,
    classes: Map<u64, LayoutModel>,
    load_primitive_arrays: bool,
    load_object_arrays: bool,
)
    requires
        w.wf(),
    ensures
        within(spec_subrecord(s, e, q, tag, w, classes, load_primitive_arrays, load_object_arrays), q, e),
{
    reveal(spec_subrecord);
    let n = w.id_size as int;
    lemma_class_dump_within(s, e, q, w);
    if q + 2 * n + 8 <= e {
        lemma_product_nonneg(crate::wire::be32(s, q + n + 4) as int, n);
    }
    if q + n + 9 <= e {
        lemma_product_nonneg(crate::wire::be32(s, q + n + 4) as int, 8);
        lemma_product_nonneg(crate::wire::be32(s, q + n + 4) as int, 4);
        lemma_product_nonneg(crate::wire::be32(s, q + n + 4) as int, 2);
        lemma_product_nonneg(crate::wire::be32(s, q + n + 4) as int, 1);
    }
}

/// One move keeps the positions within the input; one that yields a record
/// lowers the measure; one that fails ends the decoder.
proof fn lemma_step_progress(
    s: Seq<u8>,
    base: Ts,
    st: IteratorState,
    classes: Map<u64, LayoutModel>,
    w: IdReader,
    load_primitive_arrays: bool,
    load_object_arrays: bool,
)
    requires
        s.len() <= usize::MAX,
        w.wf(),
        state_wf(st, s.len() as int),
    ensures
        ({
            let r = spec_step(s, base, st, classes, w, load_primitive_arrays, load_object_arrays);
            &&& state_wf(r.state, s.len() as int)
            &&& (r.item is Some ==> 0 <= measure(r.state, s.len() as int) < measure(st, s.len() as int))
            &&& (r.item matches Some(Err(_)) ==> r.state == IteratorState::Eof)
            &&& (r.item is None && r.state != IteratorState::Eof ==> 0 <= measure(r.state, s.len() as int) < measure(st, s.len() as int))
            &&& (st == IteratorState::Eof ==> r.state == IteratorState::Eof && r.item is None)
        }),
{
    reveal(step_top);
    reveal(step_data);
    let len = s.len() as int;
    match st {
        IteratorState::Eof => {},
        IteratorState::InNormal(p) => {
            if p + 9 <= len && is_record_tag(s[p as int]) {
                lemma_top_record_within(s, len, p + 9, s[p as int], crate::wire::be32(s, p + 5), w);
            }
        },
        IteratorState::InData(ts, p, e) => {
            if p < e {
                lemma_subrecord_within(s, e as int, p + 1, s[p as int], w, classes, load_primitive_arrays, load_object_arrays);
            }
        },
    }
}

/// Termination: every poll ends.  A poll that yields an item leaves the
/// decoder with a smaller measure, and a poll that yields nothing leaves it
/// at the end; as the measure starts at most `2 * len + 2` and never goes
/// below zero, a decoder yields finitely many items.
pub proof fn lemma_poll_progress(
    s: Seq<u8>,
    base: Ts,
    st: IteratorState,
    classes: Map<u64, LayoutModel>,
    w: IdReader,
    load_primitive_arrays: bool,
    load_object_arrays: bool,
)
    requires
        s.len() <= usize::MAX,
        w.wf(),
        state_wf(st, s.len() as int),
    ensures
        ({
            let r = spec_next(s, base, st, classes, w, load_primitive_arrays, load_object_arrays);
            &&& state_wf(r.state, s.len() as int)
            &&& 0 <= measure(st, s.len() as int) <= 2 * s.len() + 2
            &&& (r.item is Some ==> 0 <= measure(r.state, s.len() as int) < measure(st, s.len() as int))
            &&& (r.item is None ==> r.state == IteratorState::Eof)
            &&& (r.item matches Some(Err(_)) ==> r.state == IteratorState::Eof)
        }),
    decreases measure(st, s.len() as int),
{
    let len = s.len() as int;
    let r1 = spec_step(s, base, st, classes, w, load_primitive_arrays, load_object_arrays);
    lemma_step_progress(s, base, st, classes, w, load_primitive_arrays, load_object_arrays);
    if r1.item is None && r1.state != IteratorState::Eof && 0 <= measure(r1.state, len) < measure(st, len) {
        lemma_poll_progress(s, base, r1.state, r1.classes, w, load_primitive_arrays, load_object_arrays);
    }
}

/// Fused end: once a poll has yielded nothing or an error, every later
/// poll yields nothing and the decoder stays at its end.
pub proof fn lemma_fused(
    s: Seq<u8>,
    base: Ts,
    st: IteratorState,
    classes: Map<u64, LayoutModel>,
    w: IdReader,
    load_primitive_arrays: bool,
    load_object_arrays: bool,
)
    requires
        s.len() <= usize::MAX,
        w.wf(),
        state_wf(st, s.len() as int),
        ({
            let r = spec_next(s, base, st, classes, w, load_primitive_arrays, load_object_arrays);
            r.item is None || r.item matches Some(Err(_))
        }),
    ensures
        ({
            let r = spec_next(s, base, st, classes, w, load_primitive_arrays, load_object_arrays);
            let later = spec_next(s, base, r.state, r.classes, w, load_primitive_arrays, load_object_arrays);
            &&& r.state == IteratorState::Eof
            &&& later.item is None
            &&& later.state == IteratorState::Eof
            &&& later.classes == r.classes
        }),
{
    lemma_poll_progress(s, base, st, classes, w, load_primitive_arrays, load_object_arrays);
}

/// Segments: inside a segment that ends at `e`, a move either yields a
/// subrecord that ends within the segment, past where it started, or fails,
/// or (only at `e` itself) returns to the top level exactly at `e`.  So the
/// subrecords of a segment consume exactly its declared size; and a segment
/// record of payload `size` opens the segment `[p + 9, p + 9 + size)`.
pub proof fn lemma_segment_bounds(
    s: Seq<u8>,
    base: Ts,
    st: IteratorState,
    classes: Map<u64, LayoutModel>,
    w: IdReader,
    load_primitive_arrays: bool,
    load_object_arrays: bool,
)
    requires
        s.len() <= usize::MAX,
        w.wf(),
        state_wf(st, s.len() as int),
    ensures
        ({
            let r = spec_step(s, base, st, classes, w, load_primitive_arrays, load_object_arrays);
            &&& (st matches IteratorState::InData(ts, p, e) ==> {
                ||| (p < e && r.item is Some && (r.state matches IteratorState::InData(ts2, q, e2)
                    && ts2 == ts && e2 == e && p < q <= e))
                ||| (p == e && r.item is None && r.state == IteratorState::InNormal(e))
                ||| (r.state == IteratorState::Eof && r.item matches Some(Err(_)))
            })
            &&& (st matches IteratorState::InNormal(p) ==> (p + 9 <= s.len() && (s[p as int] == crate::decl::TAG_HEAP_DUMP
                || s[p as int] == crate::decl::TAG_HEAP_DUMP_SEGMENT) ==> {
                ||| r.state == IteratorState::InData(
                    r.state->InData_0,
                    (p + 9) as usize,
                    (p + 9 + crate::wire::be32(s, p + 5)) as usize,
                ) && r.item is None
                ||| r.state == IteratorState::Eof && r.item matches Some(Err(_))
            }))
        }),
{
    reveal(step_top);
    reveal(step_data);
    lemma_step_progress(s, base, st, classes, w, load_primitive_arrays, load_object_arrays);
    match st {
        IteratorState::InData(ts, p, e) => {
            if p < e {
                lemma_subrecord_within(s, e as int, p + 1, s[p as int], w, classes, load_primitive_arrays, load_object_arrays);
            }
        },
        _ => {},
    }
}

/// The instance field descriptors of class `id` and of its super classes,
/// in the order an instance stores their values.
pub open spec fn chain_fields(classes: Map<u64, LayoutModel>, id: u64, fuel: nat) -> Seq<FieldInfo>
    decreases fuel,
{
    if id == 0 || !classes.contains_key(id) || fuel == 0 {
        Seq::empty()
    } else {
        classes[id].fields + chain_fields(classes, classes[id].super_class_id, (fuel - 1) as nat)
    }
}

/// The descriptors of decoded values.
pub open spec fn descriptors(vs: Seq<(FieldInfo, FieldValue)>) -> Seq<FieldInfo> {
    vs.map_values(|x: (FieldInfo, FieldValue)| x.0)
}

proof fn lemma_descriptors_prepend(a: Seq<(FieldInfo, FieldValue)>, b: Seq<(FieldInfo, FieldValue)>)
    ensures
        descriptors(a + b) == descriptors(a) + descriptors(b),
{
    assert(descriptors(a + b) =~= descriptors(a) + descriptors(b));
}

proof fn lemma_field_values_descriptors(
    s: Seq<u8>,
    e: int,
    w: IdReader,
    fields: Seq<FieldInfo>,
    k: int,
    j: int,
    n: nat,
)
    requires
        0 <= k,
        k + n == fields.len(),
    ensures
        repeat(value_entry(s, e, w, fields), k, j, n) matches Ok((vs, _)) ==> descriptors(vs)
            == fields.subrange(k, k + n),
    decreases n,
{
    let entry = value_entry(s, e, w, fields);
    if n == 0 {
        assert(fields.subrange(k, k) =~= Seq::<FieldInfo>::empty());
        assert(descriptors(Seq::<(FieldInfo, FieldValue)>::empty()) =~= Seq::<FieldInfo>::empty());
    } else {
        assert(entry(k, j) == value_entry_at(s, e, w, fields, k, j));
        match entry(k, j) {
            Err(_) => {},
            Ok((v, j2)) => {
                lemma_field_values_descriptors(s, e, w, fields, k + 1, j2, (n - 1) as nat);
                match repeat(entry, k + 1, j2, (n - 1) as nat) {
                    Err(_) => {},
                    Ok((rest, _)) => {
                        lemma_descriptors_prepend(seq![v], rest);
                        assert(descriptors(seq![v]) =~= seq![fields[k]]);
                        assert(fields.subrange(k, k + n) =~= seq![fields[k]] + fields.subrange(k + 1, k + n));
                    },
                }
            },
        }
    }
}

proof fn lemma_chain_descriptors(
    s: Seq<u8>,
    e: int,
    j: int,
    classes: Map<u64, LayoutModel>,
    id: u64,
    fuel: nat,
    w: IdReader,
    data_size: u32,
)
    ensures
        chain_values(s, e, j, classes, id, fuel, w, data_size) matches Ok((vs, _)) ==> descriptors(vs)
            == chain_fields(classes, id, fuel),
    decreases fuel,
{
    if id == 0 {
        assert(descriptors(Seq::<(FieldInfo, FieldValue)>::empty()) =~= Seq::<FieldInfo>::empty());
    } else if classes.contains_key(id) && fuel > 0 {
        let fields = classes[id].fields;
        lemma_field_values_descriptors(s, e, w, fields, 0, j, fields.len());
        assert(fields.subrange(0, fields.len() as int) =~= fields);
        match field_values(s, e, j, fields, w) {
            Err(_) => {},
            Ok((vs, j2)) => {
                lemma_chain_descriptors(s, e, j2, classes, classes[id].super_class_id, (fuel - 1) as nat, w, data_size);
                match chain_values(s, e, j2, classes, classes[id].super_class_id, (fuel - 1) as nat, w, data_size) {
                    Err(_) => {},
                    Ok((rest, _)) => {
                        lemma_descriptors_prepend(vs, rest);
                    },
                }
            },
        }
    }
}

/// Instance dumps: the descriptors of the decoded values are the instance
/// fields of the object's class and then of each super class, in order;
/// and the dump ends exactly `data_size` bytes after its fixed part.
pub proof fn lemma_instance_fields(s: Seq<u8>, e: int, i: int, w: IdReader, classes: Map<u64, LayoutModel>)
    requires
        w.wf(),
    ensures
        spec_instance_dump(s, e, i, w, classes) matches Ok((d, j)) ==> {
            &&& descriptors(d.values) == chain_fields(classes, d.class_object_id.0, classes.len())
            &&& j == i + 2 * w.id_size + 8 + d.data_size
        },
{
    let n = w.id_size as int;
    let h = i + 2 * n + 8;
    if h <= e {
        let data_size = crate::wire::be32(s, i + 2 * n + 4);
        let class_id = crate::records::id_at(s, i + n + 4, w);
        lemma_chain_descriptors(s, h + data_size, h, classes, class_id, classes.len(), w, data_size);
    }
}

/// The big-endian bytes of a `u16`.
pub open spec fn u16_bytes(v: u16) -> Seq<u8> {
    seq![(v >> 8u16) as u8, v as u8]
}

/// The big-endian bytes of a `u32`.
pub open spec fn u32_bytes(v: u32) -> Seq<u8> {
    seq![(v >> 24u32) as u8, (v >> 16u32) as u8, (v >> 8u32) as u8, v as u8]
}

/// The little-endian bytes of a `u32`.
pub open spec fn u32_le_bytes(v: u32) -> Seq<u8> {
    seq![v as u8, (v >> 8u32) as u8, (v >> 16u32) as u8, (v >> 24u32) as u8]
}

/// The big-endian bytes of a `u64`.
pub open spec fn u64_bytes(v: u64) -> Seq<u8> {
    u32_bytes((v >> 32u64) as u32) + u32_bytes(v as u32)
}

/// The bytes of an identifier of the reader's width and order.
pub open spec fn id_bytes(id: crate::decl::Id, w: IdReader) -> Seq<u8> {
    if w.id_size == 4 {
        if w.little_endian {
            u32_le_bytes(id.0 as u32)
        } else {
            u32_bytes(id.0 as u32)
        }
    } else {
        if w.little_endian {
            u32_le_bytes(id.0 as u32) + u32_le_bytes((id.0 >> 32u64) as u32)
        } else {
            u64_bytes(id.0)
        }
    }
}

proof fn lemma_u16_round_trip(s: Seq<u8>, i: int)
    requires
        0 <= i,
        i + 2 <= s.len(),
    ensures
        u16_bytes(crate::wire::be16(s, i)) == s.subrange(i, i + 2),
{
    let (b0, b1) = (s[i], s[i + 1]);
    let v = crate::wire::be16(s, i);
    assert(((((b0 as u16) << 8u16) | (b1 as u16)) >> 8u16) as u8 == b0 && ((((b0 as u16) << 8u16)
        | (b1 as u16)) as u8) == b1) by (bit_vector);
    assert(u16_bytes(v) =~= s.subrange(i, i + 2));
}

proof fn lemma_u32_round_trip(s: Seq<u8>, i: int)
    requires
        0 <= i,
        i + 4 <= s.len(),
    ensures
        u32_bytes(crate::wire::be32(s, i)) == s.subrange(i, i + 4),
        u32_le_bytes(crate::wire::le32(s, i)) == s.subrange(i, i + 4),
{
    let (b0, b1, b2, b3) = (s[i], s[i + 1], s[i + 2], s[i + 3]);
    let v = crate::wire::be32(s, i);
    let u = crate::wire::le32(s, i);
    assert({
        let x = ((b0 as u32) << 24u32) | ((b1 as u32) << 16u32) | ((b2 as u32) << 8u32) | (b3 as u32);
        &&& (x >> 24u32) as u8 == b0
        &&& (x >> 16u32) as u8 == b1
        &&& (x >> 8u32) as u8 == b2
        &&& x as u8 == b3
    }) by (bit_vector);
    assert({
        let x = ((b3 as u32) << 24u32) | ((b2 as u32) << 16u32) | ((b1 as u32) << 8u32) | (b0 as u32);
        &&& (x >> 24u32) as u8 == b3
        &&& (x >> 16u32) as u8 == b2
        &&& (x >> 8u32) as u8 == b1
        &&& x as u8 == b0
    }) by (bit_vector);
    assert(u32_bytes(v) =~= s.subrange(i, i + 4));
    assert(u32_le_bytes(u) =~= s.subrange(i, i + 4));
}

proof fn lemma_u64_round_trip(s: Seq<u8>, i: int)
    requires
        0 <= i,
        i + 8 <= s.len(),
    ensures
        u64_bytes(crate::wire::be64(s, i)) == s.subrange(i, i + 8),
        u32_le_bytes(crate::wire::le64(s, i) as u32) + u32_le_bytes((crate::wire::le64(s, i) >> 32u64) as u32)
            == s.subrange(i, i + 8),
{
    let hi = crate::wire::be32(s, i);
    let lo = crate::wire::be32(s, i + 4);
    let lhi = crate::wire::le32(s, i + 4);
    let llo = crate::wire::le32(s, i);
    assert(((((hi as u64) << 32u64) | (lo as u64)) >> 32u64) as u32 == hi && ((((hi as u64) << 32u64)
        | (lo as u64)) as u32) == lo) by (bit_vector);
    assert(((((lhi as u64) << 32u64) | (llo as u64)) >> 32u64) as u32 == lhi && ((((lhi as u64)
        << 32u64) | (llo as u64)) as u32) == llo) by (bit_vector);
    lemma_u32_round_trip(s, i);
    lemma_u32_round_trip(s, i + 4);
    assert(s.subrange(i, i + 8) =~= s.subrange(i, i + 4) + s.subrange(i + 4, i + 8));
}

proof fn lemma_id_round_trip(s: Seq<u8>, i: int, w: IdReader)
    requires
        w.wf(),
        0 <= i,
        i + w.id_size <= s.len(),
    ensures
        id_bytes(crate::decl::Id(crate::records::id_at(s, i, w)), w) == s.subrange(i, i + w.id_size),
{
    if w.id_size == 4 {
        lemma_u32_round_trip(s, i);
        let v = crate::wire::be32(s, i);
        let u = crate::wire::le32(s, i);
        assert((v as u64) as u32 == v && (u as u64) as u32 == u);
    } else {
        lemma_u64_round_trip(s, i);
    }
}

/// Identifiers one after the other.
pub open spec fn ids_bytes(ids: Seq<Id>, w: IdReader) -> Seq<u8>
    decreases ids.len(),
{
    if ids.len() == 0 {
        Seq::empty()
    } else {
        id_bytes(ids[0], w) + ids_bytes(ids.drop_first(), w)
    }
}

pub open spec fn site_bytes(a: AllocSite) -> Seq<u8> {
    seq![a.is_array] + u32_bytes(a.class_serial) + u32_bytes(a.stack_trace_serial) + u32_bytes(
        a.bytes_alive,
    ) + u32_bytes(a.instances_alive) + u32_bytes(a.bytes_allocated) + u32_bytes(a.instances_allocated)
}

/// Allocation sites one after the other.
pub open spec fn sites_bytes(sites: Seq<AllocSite>) -> Seq<u8>
    decreases sites.len(),
{
    if sites.len() == 0 {
        Seq::empty()
    } else {
        site_bytes(sites[0]) + sites_bytes(sites.drop_first())
    }
}

/// The body of a top-level record as the file stores it.
pub open spec fn encode_body(r: RecordModel, w: IdReader) -> Seq<u8> {
    match r {
        RecordModel::String(id, b) => id_bytes(id, w) + b,
        RecordModel::LoadClass(c) => u32_bytes(c.serial) + id_bytes(c.class_obj_id, w) + u32_bytes(
            c.stack_trace_serial,
        ) + id_bytes(c.class_name_string_id, w),
        RecordModel::UnloadClass(n) => u32_bytes(n),
        RecordModel::StackFrame(f) => id_bytes(f.stack_frame_id, w) + id_bytes(f.method_name_id, w)
            + id_bytes(f.method_signature_id, w) + id_bytes(f.source_file_name_id, w) + u32_bytes(
            f.class_serial,
        ) + u32_bytes(f.line_number as u32),
        RecordModel::StackTrace(t) => u32_bytes(t.stack_trace_serial) + u32_bytes(t.thread_serial)
            + u32_bytes(t.stack_frame_ids.len() as u32) + ids_bytes(t.stack_frame_ids, w),
        RecordModel::AllocSites(a) => u16_bytes(a.flags) + u32_bytes(a.cutoff_ratio) + u32_bytes(
            a.total_live_bytes,
        ) + u32_bytes(a.total_live_instances) + u64_bytes(a.total_bytes_allocated) + u64_bytes(
            a.total_instances_allocated,
        ) + u32_bytes(a.sites.len() as u32) + sites_bytes(a.sites),
        RecordModel::HeapSummary(h) => u32_bytes(h.total_live_bytes) + u32_bytes(h.total_live_instances)
            + u64_bytes(h.total_bytes_allocated) + u64_bytes(h.total_instances_allocated),
        RecordModel::StartThread(t) => u32_bytes(t.thread_serial) + id_bytes(t.thead_object_id, w)
            + u32_bytes(t.stack_trace_serial) + id_bytes(t.thread_name_id, w) + id_bytes(
            t.thread_group_name_id,
            w,
        ) + id_bytes(t.thread_group_parent_name_id, w),
        RecordModel::EndThread(t) => u32_bytes(t.thread_serial),
        RecordModel::Dump(_) => Seq::empty(),
    }
}

proof fn lemma_ids_round_trip(s: Seq<u8>, j: int, n: nat, w: IdReader)
    requires
        w.wf(),
        0 <= j,
        j + n * w.id_size <= s.len(),
    ensures
        ids_bytes(crate::records::ids_at(s, j, n, w), w) == s.subrange(j, j + n * w.id_size),
    decreases n,
{
    let ids = crate::records::ids_at(s, j, n, w);
    let width = w.id_size as int;
    if n == 0 {
        assert(s.subrange(j, j) =~= Seq::<u8>::empty());
    } else {
        assert(n * width == width + (n - 1) * width) by (nonlinear_arith);
        lemma_product_nonneg((n - 1) as int, width);
        let rest = crate::records::ids_at(s, j + width, (n - 1) as nat, w);
        assert forall|k: int| 0 <= k < n - 1 implies #[trigger] ids.drop_first()[k] == rest[k] by {
            assert((k + 1) * width == k * width + width) by (nonlinear_arith);
        }
        assert(ids.drop_first() =~= rest);
        lemma_ids_round_trip(s, j + width, (n - 1) as nat, w);
        lemma_id_round_trip(s, j, w);
        assert(0 * width == 0);
        assert(s.subrange(j, j + n * width) =~= s.subrange(j, j + width) + s.subrange(j + width, j + n * width));
    }
}

#[verifier::rlimit(30)]
proof fn lemma_sites_round_trip(s: Seq<u8>, j: int, n: nat)
    requires
        0 <= j,
        j + 25 * n <= s.len(),
    ensures
        sites_bytes(Seq::new(n, |k: int| crate::records::site_at(s, j + 25 * k))) == s.subrange(j, j + 25 * n),
    decreases n,
{
    let sites = Seq::new(n, |k: int| crate::records::site_at(s, j + 25 * k));
    if n == 0 {
        assert(s.subrange(j, j) =~= Seq::<u8>::empty());
    } else {
        let rest = Seq::new((n - 1) as nat, |k: int| crate::records::site_at(s, j + 25 + 25 * k));
        assert(sites.drop_first() =~= rest);
        lemma_sites_round_trip(s, j + 25, (n - 1) as nat);
        let k = j + 1;
        lemma_u32_round_trip(s, k);
        lemma_u32_round_trip(s, k + 4);
        lemma_u32_round_trip(s, k + 8);
        lemma_u32_round_trip(s, k + 12);
        lemma_u32_round_trip(s, k + 16);
        lemma_u32_round_trip(s, k + 20);
        assert(site_bytes(sites[0]) =~= s.subrange(j, j + 25));
        assert(s.subrange(j, j + 25 * n) =~= s.subrange(j, j + 25) + s.subrange(j + 25, j + 25 * n));
    }
}

proof fn lemma_load_class_round_trip(s: Seq<u8>, e: int, q: int, w: IdReader)
    requires
        w.wf(),
        0 <= q,
        e <= s.len(),
    ensures
        spec_load_class(s, e, q, w) matches Ok((r, j)) ==> encode_body(RecordModel::LoadClass(r), w) == s.subrange(q, j),
{
    let n = w.id_size as int;
    if q + 8 + 2 * n <= e {
        lemma_u32_round_trip(s, q);
        lemma_id_round_trip(s, q + 4, w);
        lemma_u32_round_trip(s, q + 4 + n);
        lemma_id_round_trip(s, q + 8 + n, w);
        assert(s.subrange(q, q + 8 + 2 * n) =~= s.subrange(q, q + 4) + s.subrange(q + 4, q + 4 + n)
            + s.subrange(q + 4 + n, q + 8 + n) + s.subrange(q + 8 + n, q + 8 + 2 * n));
    }
}

proof fn lemma_frame_round_trip(s: Seq<u8>, e: int, q: int, w: IdReader)
    requires
        w.wf(),
        0 <= q,
        e <= s.len(),
    ensures
        spec_frame(s, e, q, w) matches Ok((r, j)) ==> encode_body(RecordModel::StackFrame(r), w) == s.subrange(q, j),
{
    let n = w.id_size as int;
    if q + 4 * n + 8 <= e {
        lemma_id_round_trip(s, q, w);
        lemma_id_round_trip(s, q + n, w);
        lemma_id_round_trip(s, q + 2 * n, w);
        lemma_id_round_trip(s, q + 3 * n, w);
        lemma_u32_round_trip(s, q + 4 * n);
        lemma_u32_round_trip(s, q + 4 * n + 4);
        let line = crate::wire::be32(s, q + 4 * n + 4);
        assert((line as i32) as u32 == line) by (bit_vector);
        assert(s.subrange(q, q + 4 * n + 8) =~= s.subrange(q, q + n) + s.subrange(q + n, q + 2 * n)
            + s.subrange(q + 2 * n, q + 3 * n) + s.subrange(q + 3 * n, q + 4 * n) + s.subrange(
            q + 4 * n,
            q + 4 * n + 4,
        ) + s.subrange(q + 4 * n + 4, q + 4 * n + 8));
    }
}

proof fn lemma_trace_round_trip(s: Seq<u8>, e: int, q: int, w: IdReader)
    requires
        w.wf(),
        0 <= q,
        e <= s.len(),
    ensures
        spec_trace(s, e, q, w) matches Ok((r, j)) ==> encode_body(RecordModel::StackTrace(r), w) == s.subrange(q, j),
{
    let n = w.id_size as int;
    if q + 12 <= e {
        let count = crate::wire::be32(s, q + 8);
        lemma_product_nonneg(count as int, n);
        if q + 12 + count * n <= e {
            lemma_u32_round_trip(s, q);
            lemma_u32_round_trip(s, q + 4);
            lemma_u32_round_trip(s, q + 8);
            lemma_ids_round_trip(s, q + 12, count as nat, w);
            assert(s.subrange(q, q + 12 + count * n) =~= s.subrange(q, q + 4) + s.subrange(q + 4, q + 8)
                + s.subrange(q + 8, q + 12) + s.subrange(q + 12, q + 12 + count * n));
        }
    }
}

#[verifier::rlimit(40)]
proof fn lemma_alloc_sites_round_trip(s: Seq<u8>, e: int, q: int, w: IdReader)
    requires
        w.wf(),
        0 <= q,
        e <= s.len(),
    ensures
        spec_alloc_sites(s, e, q) matches Ok((r, j)) ==> encode_body(RecordModel::AllocSites(r), w) == s.subrange(q, j),
{
    if q + 34 <= e {
        let count = crate::wire::be32(s, q + 30);
        if q + 34 + 25 * count <= e {
            lemma_u16_round_trip(s, q);
            lemma_u32_round_trip(s, q + 2);
            lemma_u32_round_trip(s, q + 6);
            lemma_u32_round_trip(s, q + 10);
            lemma_u64_round_trip(s, q + 14);
            lemma_u64_round_trip(s, q + 22);
            lemma_u32_round_trip(s, q + 30);
            lemma_sites_round_trip(s, q + 34, count as nat);
            let a = s.subrange(q, q + 2) + s.subrange(q + 2, q + 6) + s.subrange(q + 6, q + 10);
            let b = a + s.subrange(q + 10, q + 14) + s.subrange(q + 14, q + 22);
            let c = b + s.subrange(q + 22, q + 30) + s.subrange(q + 30, q + 34);
            assert(s.subrange(q, q + 10) =~= a);
            assert(s.subrange(q, q + 22) =~= b);
            assert(s.subrange(q, q + 34) =~= c);
            assert(s.subrange(q, q + 34 + 25 * count) =~= s.subrange(q, q + 34) + s.subrange(q + 34, q + 34 + 25 * count));
        }
    }
}

proof fn lemma_heap_summary_round_trip(s: Seq<u8>, e: int, q: int, w: IdReader)
    requires
        w.wf(),
        0 <= q,
        e <= s.len(),
    ensures
        spec_heap_summary(s, e, q) matches Ok((r, j)) ==> encode_body(RecordModel::HeapSummary(r), w) == s.subrange(q, j),
{
    if q + 24 <= e {
        lemma_u32_round_trip(s, q);
        lemma_u32_round_trip(s, q + 4);
        lemma_u64_round_trip(s, q + 8);
        lemma_u64_round_trip(s, q + 16);
        assert(s.subrange(q, q + 24) =~= s.subrange(q, q + 4) + s.subrange(q + 4, q + 8) + s.subrange(
            q + 8,
            q + 16,
        ) + s.subrange(q + 16, q + 24));
    }
}

proof fn lemma_start_thread_round_trip(s: Seq<u8>, e: int, q: int, w: IdReader)
    requires
        w.wf(),
        0 <= q,
        e <= s.len(),
    ensures
        spec_start_thread(s, e, q, w) matches Ok((r, j)) ==> encode_body(RecordModel::StartThread(r), w) == s.subrange(q, j),
{
    let n = w.id_size as int;
    if q + 8 + 4 * n <= e {
        lemma_u32_round_trip(s, q);
        lemma_id_round_trip(s, q + 4, w);
        lemma_u32_round_trip(s, q + 4 + n);
        lemma_id_round_trip(s, q + 8 + n, w);
        lemma_id_round_trip(s, q + 8 + 2 * n, w);
        lemma_id_round_trip(s, q + 8 + 3 * n, w);
        assert(s.subrange(q, q + 8 + 4 * n) =~= s.subrange(q, q + 4) + s.subrange(q + 4, q + 4 + n)
            + s.subrange(q + 4 + n, q + 8 + n) + s.subrange(q + 8 + n, q + 8 + 2 * n) + s.subrange(
            q + 8 + 2 * n,
            q + 8 + 3 * n,
        ) + s.subrange(q + 8 + 3 * n, q + 8 + 4 * n));
    }
}

proof fn lemma_string_round_trip(s: Seq<u8>, e: int, q: int, size: u32, w: IdReader)
    requires
        w.wf(),
        0 <= q,
        e <= s.len(),
    ensures
        spec_string(s, e, q, w, size) matches Ok((r, j)) ==> encode_body(RecordModel::String(r.0, r.1), w) == s.subrange(q, j),
{
    let n = w.id_size as int;
    if q + n <= e && size >= n && q + size <= e {
        lemma_id_round_trip(s, q, w);
        assert(s.subrange(q, q + size) =~= s.subrange(q, q + n) + s.subrange(q + n, q + size));
    }
}

proof fn lemma_u32_record_round_trip(s: Seq<u8>, e: int, q: int, w: IdReader)
    requires
        0 <= q,
        e <= s.len(),
    ensures
        spec_unload_class(s, e, q) matches Ok((r, j)) ==> encode_body(RecordModel::UnloadClass(r), w) == s.subrange(q, j),
        spec_end_thread(s, e, q) matches Ok((r, j)) ==> encode_body(RecordModel::EndThread(r), w) == s.subrange(q, j),
{
    if q + 4 <= e {
        lemma_u32_round_trip(s, q);
    }
}

/// Round trip: a top-level record decoded from the bytes `s[q..j]` encodes
/// back to exactly those bytes.
pub proof fn lemma_top_record_round_trip(s: Seq<u8>, e: int, q: int, tag: u8, size: u32, w: IdReader)
    requires
        w.wf(),
        is_record_tag(tag),
        0 <= q,
        e <= s.len(),
    ensures
        spec_top_record(s, e, q, tag, size, w) matches Ok((r, j)) ==> encode_body(r, w) == s.subrange(q, j),
{
    reveal(spec_top_record);
    lemma_string_round_trip(s, e, q, size, w);
    lemma_load_class_round_trip(s, e, q, w);
    lemma_u32_record_round_trip(s, e, q, w);
    lemma_frame_round_trip(s, e, q, w);
    lemma_trace_round_trip(s, e, q, w);
    lemma_alloc_sites_round_trip(s, e, q, w);
    lemma_heap_summary_round_trip(s, e, q, w);
    lemma_start_thread_round_trip(s, e, q, w);
}

/// The body of a heap-root subrecord as the file stores it.
pub open spec fn encode_root(d: DumpModel, w: IdReader) -> Seq<u8> {
    match d {
        DumpModel::RootUnknown { obj_id } => id_bytes(obj_id, w),
        DumpModel::RootJniGlobal { obj_id, jni_global_ref } => id_bytes(obj_id, w) + id_bytes(jni_global_ref, w),
        DumpModel::RootJniLocal { obj_id, thread_serial, frame_number } => id_bytes(obj_id, w) + u32_bytes(
            thread_serial,
        ) + u32_bytes(frame_number),
        DumpModel::RootJavaFrame { obj_id, thread_serial, frame_number } => id_bytes(obj_id, w)
            + u32_bytes(thread_serial) + u32_bytes(frame_number),
        DumpModel::RootNativeStack { obj_id, thread_serial } => id_bytes(obj_id, w) + u32_bytes(thread_serial),
        DumpModel::RootStickyClass { obj_id } => id_bytes(obj_id, w),
        DumpModel::RootThreadBlock { obj_id, thread_serial } => id_bytes(obj_id, w) + u32_bytes(thread_serial),
        DumpModel::RootMonitorUsed { obj_id } => id_bytes(obj_id, w),
        DumpModel::RootThreadObject { obj_id, thread_serial, stack_trace_serial } => id_bytes(obj_id, w)
            + u32_bytes(thread_serial) + u32_bytes(stack_trace_serial),
        _ => Seq::empty(),
    }
}

/// Round trip: a heap-root subrecord decoded from the bytes `s[q..j]`
/// encodes back to exactly those bytes.
pub proof fn lemma_root_round_trip(s: Seq<u8>, e: int, q: int, tag: u8, w: IdReader)
    requires
        w.wf(),
        is_root_tag(tag),
        0 <= q,
        e <= s.len(),
    ensures
        spec_root(s, e, q, w, tag) matches Ok((d, j)) ==> encode_root(d, w) == s.subrange(q, j),
{
    let n = w.id_size as int;
    if q + n <= e {
        lemma_id_round_trip(s, q, w);
    }
    if q + 2 * n <= e {
        lemma_id_round_trip(s, q + n, w);
        assert(s.subrange(q, q + 2 * n) =~= s.subrange(q, q + n) + s.subrange(q + n, q + 2 * n));
    }
    if q + n + 4 <= e {
        lemma_u32_round_trip(s, q + n);
        assert(s.subrange(q, q + n + 4) =~= s.subrange(q, q + n) + s.subrange(q + n, q + n + 4));
    }
    if q + n + 8 <= e {
        lemma_u32_round_trip(s, q + n + 4);
        assert(s.subrange(q, q + n + 8) =~= s.subrange(q, q + n) + s.subrange(q + n, q + n + 4)
            + s.subrange(q + n + 4, q + n + 8));
    }
}

/// Round trip: an object array decoded with its elements from the bytes
/// `s[q..j]` encodes back to exactly those bytes.  (Skipped elements are
/// not in the record, so only a loaded array can give its bytes back.)
pub proof fn lemma_object_array_round_trip(s: Seq<u8>, e: int, q: int, w: IdReader)
    requires
        w.wf(),
        0 <= q,
        e <= s.len(),
    ensures
        spec_object_array(s, e, q, w, true) matches Ok((a, j)) ==> a.values matches Some(ids) && id_bytes(
            a.object_id,
            w,
        ) + u32_bytes(a.stack_trace_serial) + u32_bytes(a.num_elements) + id_bytes(a.element_class_id, w)
            + ids_bytes(ids, w) == s.subrange(q, j),
{
    let n = w.id_size as int;
    let h = q + 2 * n + 8;
    if h <= e {
        let count = crate::wire::be32(s, q + n + 4);
        lemma_product_nonneg(count as int, n);
        if h + count * n <= e {
            lemma_id_round_trip(s, q, w);
            lemma_u32_round_trip(s, q + n);
            lemma_u32_round_trip(s, q + n + 4);
            lemma_id_round_trip(s, q + n + 8, w);
            lemma_ids_round_trip(s, h, count as nat, w);
            assert(s.subrange(q, h + count * n) =~= s.subrange(q, q + n) + s.subrange(q + n, q + n + 4)
                + s.subrange(q + n + 4, q + n + 8) + s.subrange(q + n + 8, h) + s.subrange(h, h + count * n));
        }
    }
}

/// The code of a kind in the file.
pub open spec fn type_code(t: crate::decl::FieldType) -> u8 {
    match t {
        crate::decl::FieldType::Object => 2,
        crate::decl::FieldType::Bool => 4,
        crate::decl::FieldType::Char => 5,
        crate::decl::FieldType::Float => 6,
        crate::decl::FieldType::Double => 7,
        crate::decl::FieldType::Byte => 8,
        crate::decl::FieldType::Short => 9,
        crate::decl::FieldType::Int => 10,
        crate::decl::FieldType::Long => 11,
    }
}

/// The elements of a primitive array as the file stores them; `true` as 1.
/// (A primitive array never holds objects.)
pub open spec fn elements_bytes(a: ArrayModel) -> Seq<u8> {
    match a {
        ArrayModel::Bool(v) => v.map_values(|b: bool| seq![if b { 1u8 } else { 0u8 }]).flatten(),
        ArrayModel::Byte(v) => v.map_values(|x: i8| seq![x as u8]).flatten(),
        ArrayModel::Char(v) => v.map_values(|x: u16| u16_bytes(x)).flatten(),
        ArrayModel::Short(v) => v.map_values(|x: i16| u16_bytes(x as u16)).flatten(),
        ArrayModel::Int(v) => v.map_values(|x: i32| u32_bytes(x as u32)).flatten(),
        ArrayModel::Float(v) => v.map_values(|x: u32| u32_bytes(x)).flatten(),
        ArrayModel::Long(v) => v.map_values(|x: i64| u64_bytes(x as u64)).flatten(),
        ArrayModel::Double(v) => v.map_values(|x: u64| u64_bytes(x)).flatten(),
        ArrayModel::Object(_) => Seq::empty(),
    }
}

/// Chunks of `size` bytes taken one after the other from `j` join back into
/// the bytes they were taken from.
proof fn lemma_flatten_chunks(s: Seq<u8>, j: int, size: int, count: nat, chunks: Seq<Seq<u8>>)
    requires
        size >= 0,
        0 <= j,
        j + size * count <= s.len(),
        chunks.len() == count,
        forall|k: int| 0 <= k < count ==> #[trigger] chunks[k] == s.subrange(j + size * k, j + size * k + size),
    ensures
        chunks.flatten() == s.subrange(j, j + size * count),
    decreases count,
{
    if count == 0 {
        assert(s.subrange(j, j) =~= Seq::<u8>::empty());
    } else {
        assert(size * count == size + size * (count - 1)) by (nonlinear_arith);
        lemma_product_nonneg(size, (count - 1) as int);
        let rest = chunks.drop_first();
        assert forall|k: int| 0 <= k < count - 1 implies #[trigger] rest[k] == s.subrange(
            (j + size) + size * k,
            (j + size) + size * k + size,
        ) by {
            assert(size * (k + 1) == size * k + size) by (nonlinear_arith);
            assert(rest[k] == chunks[k + 1]);
        }
        lemma_flatten_chunks(s, j + size, size, (count - 1) as nat, rest);
        assert(chunks[0] == s.subrange(j + size * 0, j + size * 0 + size));
        assert(size * 0 == 0);
        assert(s.subrange(j, j + size * count) =~= s.subrange(j, j + size) + s.subrange(j + size, j + size * count));
    }
}

proof fn lemma_chunk_in(h: int, size: int, k: int, count: int)
    requires
        0 <= k < count,
        size >= 0,
    ensures
        h <= h + size * k,
        h + size * k + size <= h + size * count,
{
    assert(0 <= size * k && size * k + size <= size * count) by (nonlinear_arith)
        requires
            0 <= k < count,
            size >= 0,
    ;
}

proof fn lemma_elements_round_trip(s: Seq<u8>, h: int, count: nat, t: crate::decl::FieldType, size: int)
    requires
        0 <= h,
        size >= 0,
        crate::decl::primitive_size(t) matches Some(z) && z == size,
        h + size * count <= s.len(),
        t == crate::decl::FieldType::Bool ==> forall|k: int| h <= k < h + count ==> s[k] <= 1,
    ensures
        elements_bytes(crate::records::array_at(s, h, count, t)) == s.subrange(h, h + size * count),
{
    let a = crate::records::array_at(s, h, count, t);
    match t {
        crate::decl::FieldType::Bool => {
            let chunks = Seq::new(count, |k: int| s[h + k] != 0).map_values(|b: bool| seq![if b { 1u8 } else { 0u8 }]);
            assert forall|k: int| 0 <= k < count implies #[trigger] chunks[k] == s.subrange(h + size * k, h + size * k + size) by {
                lemma_chunk_in(h, size, k, count as int);
                assert(size * k == 1 * k) by (nonlinear_arith)
                    requires
                        size == 1,
                ;
                assert(chunks[k] =~= s.subrange(h + size * k, h + size * k + size));
            }
            lemma_flatten_chunks(s, h, size, count, chunks);
        },
        crate::decl::FieldType::Byte => {
            let chunks = Seq::new(count, |k: int| s[h + k] as i8).map_values(|x: i8| seq![x as u8]);
            assert forall|k: int| 0 <= k < count implies #[trigger] chunks[k] == s.subrange(h + size * k, h + size * k + size) by {
                lemma_chunk_in(h, size, k, count as int);
                assert(size * k == 1 * k) by (nonlinear_arith)
                    requires
                        size == 1,
                ;
                let b = s[h + k];
                assert((b as i8) as u8 == b) by (bit_vector);
                assert(chunks[k] =~= s.subrange(h + size * k, h + size * k + size));
            }
            lemma_flatten_chunks(s, h, size, count, chunks);
        },
        crate::decl::FieldType::Char => {
            let chunks = Seq::new(count, |k: int| crate::wire::be16(s, h + 2 * k)).map_values(|x: u16| u16_bytes(x));
            assert forall|k: int| 0 <= k < count implies #[trigger] chunks[k] == s.subrange(h + size * k, h + size * k + size) by {
                lemma_chunk_in(h, size, k, count as int);
                assert(size * k == 2 * k) by (nonlinear_arith)
                    requires
                        size == 2,
                ;
                lemma_u16_round_trip(s, h + 2 * k);
            }
            lemma_flatten_chunks(s, h, size, count, chunks);
        },
        crate::decl::FieldType::Short => {
            let chunks = Seq::new(count, |k: int| crate::wire::be16(s, h + 2 * k) as i16).map_values(|x: i16| u16_bytes(x as u16));
            assert forall|k: int| 0 <= k < count implies #[trigger] chunks[k] == s.subrange(h + size * k, h + size * k + size) by {
                lemma_chunk_in(h, size, k, count as int);
                assert(size * k == 2 * k) by (nonlinear_arith)
                    requires
                        size == 2,
                ;
                let v = crate::wire::be16(s, h + 2 * k);
                assert((v as i16) as u16 == v) by (bit_vector);
                lemma_u16_round_trip(s, h + 2 * k);
            }
            lemma_flatten_chunks(s, h, size, count, chunks);
        },
        crate::decl::FieldType::Int => {
            let chunks = Seq::new(count, |k: int| crate::wire::be32(s, h + 4 * k) as i32).map_values(|x: i32| u32_bytes(x as u32));
            assert forall|k: int| 0 <= k < count implies #[trigger] chunks[k] == s.subrange(h + size * k, h + size * k + size) by {
                lemma_chunk_in(h, size, k, count as int);
                assert(size * k == 4 * k) by (nonlinear_arith)
                    requires
                        size == 4,
                ;
                let v = crate::wire::be32(s, h + 4 * k);
                assert((v as i32) as u32 == v) by (bit_vector);
                lemma_u32_round_trip(s, h + 4 * k);
            }
            lemma_flatten_chunks(s, h, size, count, chunks);
        },
        crate::decl::FieldType::Float => {
            let chunks = Seq::new(count, |k: int| crate::wire::be32(s, h + 4 * k)).map_values(|x: u32| u32_bytes(x));
            assert forall|k: int| 0 <= k < count implies #[trigger] chunks[k] == s.subrange(h + size * k, h + size * k + size) by {
                lemma_chunk_in(h, size, k, count as int);
                assert(size * k == 4 * k) by (nonlinear_arith)
                    requires
                        size == 4,
                ;
                lemma_u32_round_trip(s, h + 4 * k);
            }
            lemma_flatten_chunks(s, h, size, count, chunks);
        },
        crate::decl::FieldType::Long => {
            let chunks = Seq::new(count, |k: int| crate::wire::be64(s, h + 8 * k) as i64).map_values(|x: i64| u64_bytes(x as u64));
            assert forall|k: int| 0 <= k < count implies #[trigger] chunks[k] == s.subrange(h + size * k, h + size * k + size) by {
                lemma_chunk_in(h, size, k, count as int);
                assert(size * k == 8 * k) by (nonlinear_arith)
                    requires
                        size == 8,
                ;
                let v = crate::wire::be64(s, h + 8 * k);
                assert((v as i64) as u64 == v) by (bit_vector);
                lemma_u64_round_trip(s, h + 8 * k);
            }
            lemma_flatten_chunks(s, h, size, count, chunks);
        },
        crate::decl::FieldType::Double => {
            let chunks = Seq::new(count, |k: int| crate::wire::be64(s, h + 8 * k)).map_values(|x: u64| u64_bytes(x));
            assert forall|k: int| 0 <= k < count implies #[trigger] chunks[k] == s.subrange(h + size * k, h + size * k + size) by {
                lemma_chunk_in(h, size, k, count as int);
                assert(size * k == 8 * k) by (nonlinear_arith)
                    requires
                        size == 8,
                ;
                lemma_u64_round_trip(s, h + 8 * k);
            }
            lemma_flatten_chunks(s, h, size, count, chunks);
        },
        crate::decl::FieldType::Object => {},
    }
}

/// Round trip: a primitive array decoded with its elements from the bytes
/// `s[q..j]` encodes back to exactly those bytes, where its booleans are
/// stored as 0 or 1.  (A boolean is read from any byte, true when nonzero,
/// so another nonzero byte does not come back; and skipped elements are not
/// in the record.)
pub proof fn lemma_primitive_array_round_trip(s: Seq<u8>, e: int, q: int, w: IdReader)
    requires
        w.wf(),
        0 <= q,
        e <= s.len(),
        forall|k: int|
            #![trigger s[k]]
            q + w.id_size + 9 <= k < q + w.id_size + 9 + crate::wire::be32(s, q + w.id_size + 4) && k
                < s.len() && s[q + w.id_size + 8] == 4 ==> s[k] <= 1,
    ensures
        spec_primitive_array(s, e, q, w, true) matches Ok((a, j)) ==> a.values matches Some(v) && id_bytes(
            a.object_id,
            w,
        ) + u32_bytes(a.stack_trace_serial) + u32_bytes(a.num_elements) + seq![type_code(a.elem_type)]
            + elements_bytes(v) == s.subrange(q, j),
{
    let n = w.id_size as int;
    let h = q + n + 9;
    if h <= e {
        let count = crate::wire::be32(s, q + n + 4);
        match crate::decl::field_type_of(s[q + n + 8]) {
            None => {},
            Some(t) => match crate::decl::primitive_size(t) {
                None => {},
                Some(size) => {
                    if h + count * size <= e {
                        assert(count * size == size * count) by (nonlinear_arith);
                        lemma_elements_round_trip(s, h, count as nat, t, size as int);
                        lemma_id_round_trip(s, q, w);
                        lemma_u32_round_trip(s, q + n);
                        lemma_u32_round_trip(s, q + n + 4);
                        assert(s.subrange(q + n + 8, h) =~= seq![type_code(t)]);
                        assert(s.subrange(q, h + count * size) =~= s.subrange(q, q + n) + s.subrange(q + n, q + n + 4)
                            + s.subrange(q + n + 4, q + n + 8) + s.subrange(q + n + 8, h) + s.subrange(h, h + count * size));
                    }
                },
            },
        }
    }
}

/// A value as the file stores it; `true` as 1.
pub open spec fn value_bytes(v: FieldValue, w: IdReader) -> Seq<u8> {
    match v {
        FieldValue::Bool(b) => seq![if b { 1u8 } else { 0u8 }],
        FieldValue::Byte(x) => seq![x as u8],
        FieldValue::Char(x) => u16_bytes(x),
        FieldValue::Short(x) => u16_bytes(x as u16),
        FieldValue::Int(x) => u32_bytes(x as u32),
        FieldValue::Long(x) => u64_bytes(x as u64),
        FieldValue::Float(x) => u32_bytes(x),
        FieldValue::Double(x) => u64_bytes(x),
        FieldValue::Object(id) => id_bytes(id, w),
    }
}

/// A value of kind `t` at `j` that gives its byte back: any but a boolean
/// stored as a byte other than 0 or 1.
pub open spec fn value_canonical(s: Seq<u8>, j: int, t: FieldType) -> bool {
    t == FieldType::Bool && 0 <= j < s.len() ==> s[j] <= 1
}

proof fn lemma_value_round_trip(s: Seq<u8>, e: int, j: int, t: FieldType, w: IdReader)
    requires
        w.wf(),
        0 <= j,
        e <= s.len(),
        value_canonical(s, j, t),
    ensures
        p_value(s, e, j, t, w) matches Ok((v, j2)) ==> value_bytes(v, w) == s.subrange(j, j2),
{
    let z = crate::records::value_size(t, w);
    if j + z <= e {
        match t {
            FieldType::Object => lemma_id_round_trip(s, j, w),
            FieldType::Bool => {
                assert(value_bytes(crate::records::value_at(s, j, t, w), w) =~= s.subrange(j, j + 1));
            },
            FieldType::Byte => {
                let b = s[j];
                assert((b as i8) as u8 == b) by (bit_vector);
                assert(value_bytes(crate::records::value_at(s, j, t, w), w) =~= s.subrange(j, j + 1));
            },
            FieldType::Char => lemma_u16_round_trip(s, j),
            FieldType::Short => {
                let v = crate::wire::be16(s, j);
                assert((v as i16) as u16 == v) by (bit_vector);
                lemma_u16_round_trip(s, j);
            },
            FieldType::Int => {
                let v = crate::wire::be32(s, j);
                assert((v as i32) as u32 == v) by (bit_vector);
                lemma_u32_round_trip(s, j);
            },
            FieldType::Float => lemma_u32_round_trip(s, j),
            FieldType::Long => {
                let v = crate::wire::be64(s, j);
                assert((v as i64) as u64 == v) by (bit_vector);
                lemma_u64_round_trip(s, j);
            },
            FieldType::Double => lemma_u64_round_trip(s, j),
        }
    }
}

/// `pred` holds of the index and start of each of the `n` entries that `repeat` walks
/// from `j`, as far as they decode.
pub open spec fn holds_along<T>(
    entry: spec_fn(int, int) -> Parsed<T>,
    pred: spec_fn(int, int) -> bool,
    k: int,
    j: int,
    n: nat,
) -> bool
    decreases n,
{
    if n == 0 {
        true
    } else {
        pred(k, j) && match entry(k, j) {
            Err(_) => true,
            Ok((_, j2)) => holds_along(entry, pred, k + 1, j2, (n - 1) as nat),
        }
    }
}

/// Entries that each give their bytes back give back the bytes of the
/// whole run.
proof fn lemma_repeat_round_trip<T>(
    s: Seq<u8>,
    entry: spec_fn(int, int) -> Parsed<T>,
    pred: spec_fn(int, int) -> bool,
    enc: spec_fn(T) -> Seq<u8>,
    k: int,
    j: int,
    n: nat,
)
    requires
        0 <= j <= s.len(),
        holds_along(entry, pred, k, j, n),
        forall|k2: int, j2: int|
            0 <= j2 && pred(k2, j2) ==> (#[trigger] entry(k2, j2) matches Ok((x, j3)) ==> j2 <= j3 <= s.len()
                && enc(x) == s.subrange(j2, j3)),
    ensures
        repeat(entry, k, j, n) matches Ok((xs, j2)) ==> j <= j2 <= s.len() && xs.map_values(enc).flatten()
            == s.subrange(j, j2),
    decreases n,
{
    if n == 0 {
        assert(Seq::<T>::empty().map_values(enc) =~= Seq::<Seq<u8>>::empty());
        assert(s.subrange(j, j) =~= Seq::<u8>::empty());
    } else {
        assert(pred(k, j));
        match entry(k, j) {
            Err(_) => {},
            Ok((x, j2)) => {
                lemma_repeat_round_trip(s, entry, pred, enc, k + 1, j2, (n - 1) as nat);
                match repeat(entry, k + 1, j2, (n - 1) as nat) {
                    Err(_) => {},
                    Ok((rest, j3)) => {
                        let xs = seq![x] + rest;
                        assert(xs.map_values(enc) =~= seq![enc(x)] + rest.map_values(enc));
                        assert(xs.map_values(enc).drop_first() =~= rest.map_values(enc));
                        assert(s.subrange(j, j3) =~= s.subrange(j, j2) + s.subrange(j2, j3));
                    },
                }
            },
        }
    }
}

pub open spec fn const_entry_bytes(x: (ConstFieldInfo, FieldValue), w: IdReader) -> Seq<u8> {
    u16_bytes(x.0.const_pool_idx) + seq![type_code(x.0.const_type)] + value_bytes(x.1, w)
}

pub open spec fn static_entry_bytes(x: (FieldInfo, FieldValue), w: IdReader) -> Seq<u8> {
    id_bytes(x.0.name_id, w) + seq![type_code(x.0.field_type)] + value_bytes(x.1, w)
}

pub open spec fn field_entry_bytes(x: FieldInfo, w: IdReader) -> Seq<u8> {
    id_bytes(x.name_id, w) + seq![type_code(x.field_type)]
}

/// The fixed part of a class dump as the file stores it.
pub open spec fn class_header_bytes(c: ClassDescriptionModel, w: IdReader) -> Seq<u8> {
    id_bytes(c.class_id, w) + u32_bytes(c.stack_trace_serial) + id_bytes(c.super_class_object_id, w)
        + id_bytes(c.class_loader_object_id, w) + id_bytes(c.signers_object_id, w) + id_bytes(
        c.protection_domain_object_id,
        w,
    ) + id_bytes(c.reserved1, w) + id_bytes(c.reserved2, w) + u32_bytes(c.instance_size)
}

/// A class dump as the file stores it; `true` as 1.
pub open spec fn encode_class(c: ClassDescriptionModel, w: IdReader) -> Seq<u8> {
    class_header_bytes(c, w) + (u16_bytes(c.const_fields.len() as u16) + c.const_fields.map_values(
        const_enc(w),
    ).flatten()) + (u16_bytes(c.static_fields.len() as u16) + c.static_fields.map_values(
        static_enc(w),
    ).flatten()) + (u16_bytes(c.instance_fields.len() as u16) + c.instance_fields.map_values(
        field_enc(w),
    ).flatten())
}

pub open spec fn const_enc(w: IdReader) -> spec_fn((ConstFieldInfo, FieldValue)) -> Seq<u8> {
    |x: (ConstFieldInfo, FieldValue)| const_entry_bytes(x, w)
}

pub open spec fn static_enc(w: IdReader) -> spec_fn((FieldInfo, FieldValue)) -> Seq<u8> {
    |x: (FieldInfo, FieldValue)| static_entry_bytes(x, w)
}

pub open spec fn field_enc(w: IdReader) -> spec_fn(FieldInfo) -> Seq<u8> {
    |x: FieldInfo| field_entry_bytes(x, w)
}

/// Where `s[kind_at]` is the code of `Bool`, the byte `s[value_at]` is 0 or 1.
pub open spec fn bool_byte_ok(s: Seq<u8>, kind_at: int, value_at: int) -> bool {
    0 <= kind_at < s.len() && s[kind_at] == 4 && 0 <= value_at < s.len() ==> s[value_at] <= 1
}

pub open spec fn const_pred(s: Seq<u8>) -> spec_fn(int, int) -> bool {
    |k: int, j: int| bool_byte_ok(s, j + 2, j + 3)
}

pub open spec fn static_pred(s: Seq<u8>, w: IdReader) -> spec_fn(int, int) -> bool {
    |k: int, j: int| bool_byte_ok(s, j + w.id_size, j + w.id_size + 1)
}

pub open spec fn any_pos() -> spec_fn(int, int) -> bool {
    |k: int, j: int| true
}

/// Every boolean of a class dump's constant pool and static fields is
/// stored as 0 or 1.
pub open spec fn class_bools_canonical(s: Seq<u8>, e: int, q: int, w: IdReader) -> bool {
    let h = q + 7 * w.id_size + 8;
    match p_u16(s, e, h) {
        Err(_) => true,
        Ok((nc, j1)) => holds_along(const_entry(s, e, w), const_pred(s), 0, j1, nc as nat) && match repeat(
            const_entry(s, e, w),
            0,
            j1,
            nc as nat,
        ) {
            Err(_) => true,
            Ok((_, j2)) => match p_u16(s, e, j2) {
                Err(_) => true,
                Ok((ns, j3)) => holds_along(static_entry(s, e, w), static_pred(s, w), 0, j3, ns as nat),
            },
        },
    }
}

proof fn lemma_holds_everywhere<T>(entry: spec_fn(int, int) -> Parsed<T>, k: int, j: int, n: nat)
    ensures
        holds_along(entry, any_pos(), k, j, n),
    decreases n,
{
    if n > 0 {
        match entry(k, j) {
            Err(_) => {},
            Ok((_, j2)) => lemma_holds_everywhere(entry, k + 1, j2, (n - 1) as nat),
        }
    }
}

proof fn lemma_const_entry_round_trip(s: Seq<u8>, e: int, w: IdReader, j: int)
    requires
        w.wf(),
        0 <= j,
        e <= s.len(),
        bool_byte_ok(s, j + 2, j + 3),
    ensures
        const_entry_at(s, e, w, j) matches Ok((x, j3)) ==> j <= j3 <= s.len() && const_entry_bytes(x, w)
            == s.subrange(j, j3),
{
    if j + 3 <= e {
        match crate::decl::field_type_of(s[j + 2]) {
            None => {},
            Some(t) => {
                lemma_value_round_trip(s, e, j + 3, t, w);
                lemma_value_within(s, e, j + 3, t, w);
                lemma_u16_round_trip(s, j);
                match p_value(s, e, j + 3, t, w) {
                    Err(_) => {},
                    Ok((v, j3)) => {
                        assert(s.subrange(j + 2, j + 3) =~= seq![type_code(t)]);
                        assert(s.subrange(j, j3) =~= s.subrange(j, j + 2) + s.subrange(j + 2, j + 3)
                            + s.subrange(j + 3, j3));
                    },
                }
            },
        }
    }
}

proof fn lemma_static_entry_round_trip(s: Seq<u8>, e: int, w: IdReader, j: int)
    requires
        w.wf(),
        0 <= j,
        e <= s.len(),
        bool_byte_ok(s, j + w.id_size, j + w.id_size + 1),
    ensures
        static_entry_at(s, e, w, j) matches Ok((x, j3)) ==> j <= j3 <= s.len() && static_entry_bytes(x, w)
            == s.subrange(j, j3),
{
    let n = w.id_size as int;
    if j + n + 1 <= e {
        match crate::decl::field_type_of(s[j + n]) {
            None => {},
            Some(t) => {
                lemma_value_round_trip(s, e, j + n + 1, t, w);
                lemma_value_within(s, e, j + n + 1, t, w);
                lemma_id_round_trip(s, j, w);
                match p_value(s, e, j + n + 1, t, w) {
                    Err(_) => {},
                    Ok((v, j3)) => {
                        assert(s.subrange(j + n, j + n + 1) =~= seq![type_code(t)]);
                        assert(s.subrange(j, j3) =~= s.subrange(j, j + n) + s.subrange(j + n, j + n + 1)
                            + s.subrange(j + n + 1, j3));
                    },
                }
            },
        }
    }
}

proof fn lemma_field_entry_round_trip(s: Seq<u8>, e: int, w: IdReader, j: int)
    requires
        w.wf(),
        0 <= j,
        e <= s.len(),
    ensures
        field_entry_at(s, e, w, j) matches Ok((x, j3)) ==> j <= j3 <= s.len() && field_entry_bytes(x, w)
            == s.subrange(j, j3),
{
    let n = w.id_size as int;
    if j + n + 1 <= e {
        lemma_id_round_trip(s, j, w);
        match crate::decl::field_type_of(s[j + n]) {
            None => {},
            Some(t) => {
                assert(s.subrange(j + n, j + n + 1) =~= seq![type_code(t)]);
                assert(s.subrange(j, j + n + 1) =~= s.subrange(j, j + n) + s.subrange(j + n, j + n + 1));
            },
        }
    }
}

proof fn lemma_repeat_len<T>(entry: spec_fn(int, int) -> Parsed<T>, k: int, j: int, n: nat)
    ensures
        repeat(entry, k, j, n) matches Ok((xs, _)) ==> xs.len() == n,
    decreases n,
{
    if n > 0 {
        match entry(k, j) {
            Err(_) => {},
            Ok((_, j2)) => lemma_repeat_len(entry, k + 1, j2, (n - 1) as nat),
        }
    }
}

/// A counted table that decodes gives back its bytes: the count, then each
/// entry.
proof fn lemma_counted_round_trip<T>(
    s: Seq<u8>,
    e: int,
    i: int,
    entry: spec_fn(int, int) -> Parsed<T>,
    pred: spec_fn(int, int) -> bool,
    enc: spec_fn(T) -> Seq<u8>,
)
    requires
        0 <= i,
        e <= s.len(),
        p_u16(s, e, i) matches Ok((n, j)) ==> holds_along(entry, pred, 0, j, n as nat),
        forall|k2: int, j2: int|
            0 <= j2 && pred(k2, j2) ==> (#[trigger] entry(k2, j2) matches Ok((x, j3)) ==> j2 <= j3 <= s.len()
                && enc(x) == s.subrange(j2, j3)),
    ensures
        counted(s, e, i, entry) matches Ok((xs, j)) ==> i <= j <= s.len() && u16_bytes(xs.len() as u16)
            + xs.map_values(enc).flatten() == s.subrange(i, j),
{
    match p_u16(s, e, i) {
        Err(_) => {},
        Ok((n, j)) => {
            lemma_u16_round_trip(s, i);
            lemma_repeat_len(entry, 0, j, n as nat);
            lemma_repeat_round_trip(s, entry, pred, enc, 0, j, n as nat);
            match repeat(entry, 0, j, n as nat) {
                Err(_) => {},
                Ok((xs, j2)) => {
                    assert(s.subrange(i, j2) =~= s.subrange(i, i + 2) + s.subrange(i + 2, j2));
                },
            }
        },
    }
}

/// The fixed part of the class dump at `q`, re-encoded from its fields.
pub open spec fn class_header_at(s: Seq<u8>, q: int, w: IdReader) -> Seq<u8> {
    let n = w.id_size as int;
    id_bytes(Id(crate::records::id_at(s, q, w)), w) + u32_bytes(crate::wire::be32(s, q + n)) + id_bytes(
        Id(crate::records::id_at(s, q + n + 4, w)),
        w,
    ) + id_bytes(Id(crate::records::id_at(s, q + 2 * n + 4, w)), w) + id_bytes(
        Id(crate::records::id_at(s, q + 3 * n + 4, w)),
        w,
    ) + id_bytes(Id(crate::records::id_at(s, q + 4 * n + 4, w)), w) + id_bytes(
        Id(crate::records::id_at(s, q + 5 * n + 4, w)),
        w,
    ) + id_bytes(Id(crate::records::id_at(s, q + 6 * n + 4, w)), w) + u32_bytes(
        crate::wire::be32(s, q + 7 * n + 4),
    )
}

/// Bytes `s[a..c]` are `s[a..b]` followed by `s[b..c]`.
proof fn lemma_split(s: Seq<u8>, a: int, b: int, c: int)
    requires
        0 <= a <= b <= c <= s.len(),
    ensures
        s.subrange(a, c) == s.subrange(a, b) + s.subrange(b, c),
{
    assert(s.subrange(a, c) =~= s.subrange(a, b) + s.subrange(b, c));
}

proof fn lemma_class_header_round_trip(s: Seq<u8>, q: int, w: IdReader)
    requires
        w.wf(),
        0 <= q,
        q + 7 * w.id_size + 8 <= s.len(),
    ensures
        class_header_at(s, q, w) == s.subrange(q, q + 7 * w.id_size + 8),
{
    let n = w.id_size as int;
    lemma_id_round_trip(s, q, w);
    lemma_u32_round_trip(s, q + n);
    lemma_id_round_trip(s, q + n + 4, w);
    lemma_id_round_trip(s, q + 2 * n + 4, w);
    lemma_id_round_trip(s, q + 3 * n + 4, w);
    lemma_id_round_trip(s, q + 4 * n + 4, w);
    lemma_id_round_trip(s, q + 5 * n + 4, w);
    lemma_id_round_trip(s, q + 6 * n + 4, w);
    lemma_u32_round_trip(s, q + 7 * n + 4);
    lemma_split(s, q, q + n, q + n + 4);
    lemma_split(s, q, q + n + 4, q + 2 * n + 4);
    lemma_split(s, q, q + 2 * n + 4, q + 3 * n + 4);
    lemma_split(s, q, q + 3 * n + 4, q + 4 * n + 4);
    lemma_split(s, q, q + 4 * n + 4, q + 5 * n + 4);
    lemma_split(s, q, q + 5 * n + 4, q + 6 * n + 4);
    lemma_split(s, q, q + 6 * n + 4, q + 7 * n + 4);
    lemma_split(s, q, q + 7 * n + 4, q + 7 * n + 8);
}

/// Each entry of the three tables of a class dump gives its bytes back.
proof fn lemma_entries_give_bytes_back(s: Seq<u8>, e: int, w: IdReader)
    requires
        w.wf(),
        e <= s.len(),
    ensures
        forall|k2: int, j2: int|
            0 <= j2 && const_pred(s)(k2, j2) ==> (#[trigger] const_entry(s, e, w)(k2, j2) matches Ok((x, j3))
                ==> j2 <= j3 <= s.len() && const_enc(w)(x) == s.subrange(j2, j3)),
        forall|k2: int, j2: int|
            0 <= j2 && static_pred(s, w)(k2, j2) ==> (#[trigger] static_entry(s, e, w)(k2, j2) matches Ok((x, j3))
                ==> j2 <= j3 <= s.len() && static_enc(w)(x) == s.subrange(j2, j3)),
        forall|k2: int, j2: int|
            0 <= j2 && any_pos()(k2, j2) ==> (#[trigger] field_entry(s, e, w)(k2, j2) matches Ok((x, j3))
                ==> j2 <= j3 <= s.len() && field_enc(w)(x) == s.subrange(j2, j3)),
{
    let ce = const_entry(s, e, w);
    let se = static_entry(s, e, w);
    let fe = field_entry(s, e, w);
    assert forall|k2: int, j2: int| 0 <= j2 && const_pred(s)(k2, j2) implies (#[trigger] ce(k2, j2) matches Ok((x, j3))
        ==> j2 <= j3 <= s.len() && const_enc(w)(x) == s.subrange(j2, j3)) by {
        assert(ce(k2, j2) == const_entry_at(s, e, w, j2));
        lemma_const_entry_round_trip(s, e, w, j2);
    }
    assert forall|k2: int, j2: int| 0 <= j2 && static_pred(s, w)(k2, j2) implies (#[trigger] se(k2, j2) matches Ok((x, j3))
        ==> j2 <= j3 <= s.len() && static_enc(w)(x) == s.subrange(j2, j3)) by {
        assert(se(k2, j2) == static_entry_at(s, e, w, j2));
        lemma_static_entry_round_trip(s, e, w, j2);
    }
    assert forall|k2: int, j2: int| 0 <= j2 && any_pos()(k2, j2) implies (#[trigger] fe(k2, j2) matches Ok((x, j3))
        ==> j2 <= j3 <= s.len() && field_enc(w)(x) == s.subrange(j2, j3)) by {
        assert(fe(k2, j2) == field_entry_at(s, e, w, j2));
        lemma_field_entry_round_trip(s, e, w, j2);
    }
}

/// Round trip: a class dump decoded from the bytes `s[q..j]` encodes back
/// to exactly those bytes, where the booleans of its constant pool and
/// static fields are stored as 0 or 1.  (A boolean is read from any byte,
/// true when nonzero, so another nonzero byte does not come back.)
#[verifier::rlimit(50)]
pub proof fn lemma_class_dump_round_trip(s: Seq<u8>, e: int, q: int, w: IdReader)
    requires
        w.wf(),
        0 <= q,
        e <= s.len(),
        class_bools_canonical(s, e, q, w),
    ensures
        spec_class_dump(s, e, q, w) matches Ok((c, j)) ==> encode_class(c, w) == s.subrange(q, j),
{
    let n = w.id_size as int;
    let h = q + 7 * n + 8;
    let ce = const_entry(s, e, w);
    let se = static_entry(s, e, w);
    let fe = field_entry(s, e, w);
    lemma_entries_give_bytes_back(s, e, w);
    if h <= e {
        lemma_counted_round_trip(s, e, h, ce, const_pred(s), const_enc(w));
        match counted(s, e, h, ce) {
            Err(_) => {},
            Ok((cf, j1)) => {
                lemma_counted_round_trip(s, e, j1, se, static_pred(s, w), static_enc(w));
                match counted(s, e, j1, se) {
                    Err(_) => {},
                    Ok((sf, j2)) => {
                        match p_u16(s, e, j2) {
                            Err(_) => {},
                            Ok((ni, j2b)) => lemma_holds_everywhere(fe, 0, j2b, ni as nat),
                        }
                        lemma_counted_round_trip(s, e, j2, fe, any_pos(), field_enc(w));
                        match counted(s, e, j2, fe) {
                            Err(_) => {},
                            Ok((inf, j3)) => {
                                lemma_class_header_round_trip(s, q, w);
                                assert(s.subrange(q, j3) =~= s.subrange(q, h) + s.subrange(h, j1) + s.subrange(j1, j2)
                                    + s.subrange(j2, j3));
                            },
                        }
                    },
                }
            },
        }
    }
}

/// The bytes of a decoded value, its descriptor dropped.
pub open spec fn val_enc(w: IdReader) -> spec_fn((FieldInfo, FieldValue)) -> Seq<u8> {
    |x: (FieldInfo, FieldValue)| value_bytes(x.1, w)
}

pub open spec fn field_pred(s: Seq<u8>, fields: Seq<FieldInfo>) -> spec_fn(int, int) -> bool {
    |k: int, j: int| 0 <= k < fields.len() && value_canonical(s, j, fields[k].field_type)
}

/// Every boolean among the values of an instance, read up the class chain
/// from `j`, is stored as 0 or 1.
pub open spec fn chain_bools_canonical(
    s: Seq<u8>,
    e: int,
    j: int,
    classes: Map<u64, LayoutModel>,
    id: u64,
    fuel: nat,
    w: IdReader,
) -> bool
    decreases fuel,
{
    if id == 0 || !classes.contains_key(id) || fuel == 0 {
        true
    } else {
        let fields = classes[id].fields;
        holds_along(value_entry(s, e, w, fields), field_pred(s, fields), 0, j, fields.len()) && match field_values(
            s,
            e,
            j,
            fields,
            w,
        ) {
            Err(_) => true,
            Ok((_, j2)) => chain_bools_canonical(s, e, j2, classes, classes[id].super_class_id, (fuel - 1) as nat, w),
        }
    }
}

proof fn lemma_value_entries(s: Seq<u8>, e: int, w: IdReader, fields: Seq<FieldInfo>)
    requires
        w.wf(),
        e <= s.len(),
    ensures
        forall|k2: int, j2: int|
            0 <= j2 && field_pred(s, fields)(k2, j2) ==> (#[trigger] value_entry(s, e, w, fields)(k2, j2) matches Ok(
                (x, j3),
            ) ==> j2 <= j3 <= s.len() && val_enc(w)(x) == s.subrange(j2, j3)),
{
    assert forall|k2: int, j2: int| 0 <= j2 && field_pred(s, fields)(k2, j2) implies (#[trigger] value_entry(
        s,
        e,
        w,
        fields,
    )(k2, j2) matches Ok((x, j3)) ==> j2 <= j3 <= s.len() && val_enc(w)(x) == s.subrange(j2, j3)) by {
        assert(value_entry(s, e, w, fields)(k2, j2) == value_entry_at(s, e, w, fields, k2, j2));
        lemma_value_round_trip(s, e, j2, fields[k2].field_type, w);
        lemma_value_within(s, e, j2, fields[k2].field_type, w);
    }
}

proof fn lemma_chain_round_trip(
    s: Seq<u8>,
    e: int,
    j: int,
    classes: Map<u64, LayoutModel>,
    id: u64,
    fuel: nat,
    w: IdReader,
    data_size: u32,
)
    requires
        w.wf(),
        0 <= j <= s.len(),
        e <= s.len(),
        chain_bools_canonical(s, e, j, classes, id, fuel, w),
    ensures
        chain_values(s, e, j, classes, id, fuel, w, data_size) matches Ok((vs, j2)) ==> j <= j2 <= s.len()
            && vs.map_values(val_enc(w)).flatten() == s.subrange(j, j2),
    decreases fuel,
{
    if id == 0 {
        assert(Seq::<(FieldInfo, FieldValue)>::empty().map_values(val_enc(w)) =~= Seq::<Seq<u8>>::empty());
        assert(s.subrange(j, j) =~= Seq::<u8>::empty());
    } else if classes.contains_key(id) && fuel > 0 {
        let fields = classes[id].fields;
        lemma_value_entries(s, e, w, fields);
        lemma_repeat_round_trip(s, value_entry(s, e, w, fields), field_pred(s, fields), val_enc(w), 0, j, fields.len());
        match field_values(s, e, j, fields, w) {
            Err(_) => {},
            Ok((vs, j2)) => {
                let sup = classes[id].super_class_id;
                lemma_chain_round_trip(s, e, j2, classes, sup, (fuel - 1) as nat, w, data_size);
                match chain_values(s, e, j2, classes, sup, (fuel - 1) as nat, w, data_size) {
                    Err(_) => {},
                    Ok((rest, j3)) => {
                        assert((vs + rest).map_values(val_enc(w)) =~= vs.map_values(val_enc(w)) + rest.map_values(val_enc(w)));
                        vstd::seq_lib::lemma_flatten_concat(vs.map_values(val_enc(w)), rest.map_values(val_enc(w)));
                        lemma_split(s, j, j2, j3);
                    },
                }
            },
        }
    }
}

/// An instance dump as the file stores it, its values filling `data_size`;
/// `true` as 1.
pub open spec fn encode_instance(d: crate::model::InstanceDumpModel, w: IdReader) -> Seq<u8> {
    id_bytes(d.object_id, w) + u32_bytes(d.stack_trace_serial) + id_bytes(d.class_object_id, w) + u32_bytes(
        d.data_size,
    ) + d.values.map_values(val_enc(w)).flatten()
}

/// Round trip: an instance dump decoded from the bytes `s[q..j]` encodes
/// back to exactly those bytes, where its values fill its `data_size` and
/// its booleans are stored as 0 or 1.  (Bytes past the values are skipped
/// and not in the record; a boolean is read from any byte, true when
/// nonzero, so another nonzero byte does not come back.)
pub proof fn lemma_instance_dump_round_trip(s: Seq<u8>, e: int, q: int, w: IdReader, classes: Map<u64, LayoutModel>)
    requires
        w.wf(),
        0 <= q,
        e <= s.len(),
        ({
            let n = w.id_size as int;
            let h = q + 2 * n + 8;
            h <= e ==> chain_bools_canonical(
                s,
                h + crate::wire::be32(s, q + 2 * n + 4),
                h,
                classes,
                crate::records::id_at(s, q + n + 4, w),
                classes.len(),
                w,
            )
        }),
    ensures
        spec_instance_dump(s, e, q, w, classes) matches Ok((d, j)) ==> (d.values.map_values(val_enc(w)).flatten().len()
            == d.data_size ==> encode_instance(d, w) == s.subrange(q, j)),
{
    let n = w.id_size as int;
    let h = q + 2 * n + 8;
    if h <= e {
        let ds = crate::wire::be32(s, q + 2 * n + 4);
        let cid = crate::records::id_at(s, q + n + 4, w);
        if h + ds <= e {
            lemma_chain_round_trip(s, h + ds, h, classes, cid, classes.len(), w, ds);
            lemma_id_round_trip(s, q, w);
            lemma_u32_round_trip(s, q + n);
            lemma_id_round_trip(s, q + n + 4, w);
            lemma_u32_round_trip(s, q + 2 * n + 4);
            match chain_values(s, h + ds, h, classes, cid, classes.len(), w, ds) {
                Err(_) => {},
                Ok((vs, j2)) => {
                    if vs.map_values(val_enc(w)).flatten().len() == ds {
                        assert(j2 == h + ds);
                        lemma_split(s, q, q + n, q + n + 4);
                        lemma_split(s, q, q + n + 4, q + 2 * n + 4);
                        lemma_split(s, q, q + 2 * n + 4, h);
                        lemma_split(s, q, h, h + ds);
                    }
                },
            }
        }
    }
}

} // verus!
