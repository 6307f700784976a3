//! Decoders of the records, one per tag, each stated against the layout of
//! its bytes.
use crate::decl::{
    ArrayValue, ObjectArrayDump, PrimitiveArrayDump, MSG_OBJECT_ARRAY,
    InstanceDump, TAG_GC_INSTANCE_DUMP,
    field_type_of, primitive_size, ClassDescription, ConstFieldInfo, FieldInfo, MSG_FIELD_TYPE, AllocSite, AllocSitesRecord, FieldType, FieldValue, StackTraceRecord,
    ClassRecord, DumpRecord, EndThreadRecord, Error, HeapSummaryRecord, Id, StackFrameRecord,
    StartThreadRecord, TAG_GC_ROOT_JAVA_FRAME, TAG_GC_ROOT_JNI_GLOBAL, TAG_GC_ROOT_JNI_LOCAL,
    TAG_GC_ROOT_MONITOR_USED, TAG_GC_ROOT_NATIVE_STACK, TAG_GC_ROOT_STICKY_CLASS,
    TAG_GC_ROOT_THREAD_BLOCK, TAG_GC_ROOT_THREAD_OBJ, TAG_GC_ROOT_UNKNOWN, TAG_STRING,
};
use crate::model::{ArrayModel, ObjectArrayModel, PrimitiveArrayModel, InstanceDumpModel, AllocSitesModel, ClassDescriptionModel, DumpModel, StackTraceModel};
use crate::reader::{fixed, p_u16, outcome, outcome_view, Memory, Parsed};
use crate::wire::{
    be16, be32, be64, le32, le64, native_is_little_endian, read_be_u32, read_be_u64, read_le_u32,
    read_le_u64,
};
use std::collections::HashMap;
use vstd::prelude::*;

verus! {

broadcast use vstd::std_specs::hash::group_hash_axioms;

#[derive(Clone, Copy, Debug, PartialEq, Eq, Structural)]
pub enum ByteOrder {
    Native,
    Network,
}

pub const MSG_ID_SIZE: &'static str = "Id size not supported";

/// Decodes identifiers: their width and the order of their bytes.
/// `little_endian` is the order that `order` stands for on this machine.
#[derive(Clone, Copy, Debug)]
pub struct IdReader {
    pub id_size: u32,
    pub order: ByteOrder,
    pub little_endian: bool,
}

impl IdReader {
    /// Width 4 or 8, and network order read most significant byte first.
    pub open spec fn wf(self) -> bool {
        &&& (self.id_size == 4 || self.id_size == 8)
        &&& (self.order == ByteOrder::Network ==> !self.little_endian)
    }

    /// A reader of no supported width yet, in network order.
    pub fn new() -> (r: Self)
        ensures
            r.id_size == 0,
            r.order == ByteOrder::Network,
            !r.little_endian,
    {
        IdReader { id_size: 0, order: ByteOrder::Network, little_endian: false }
    }

    /// A reader of `id_size` bytes in `order`.
    pub fn with_order(id_size: u32, order: ByteOrder) -> (r: Self)
        ensures
            r.id_size == id_size,
            r.order == order,
            order == ByteOrder::Network ==> !r.little_endian,
    {
        let little_endian = match order {
            ByteOrder::Native => native_is_little_endian(),
            ByteOrder::Network => false,
        };
        IdReader { id_size, order, little_endian }
    }

    pub fn read_id(self, m: &mut Memory) -> (r: Result<Id, Error>)
        requires
            old(m).wf(),
        ensures
            final(m).same_source(old(m)),
            outcome(r, final(m).pos as int) == p_id(old(m).data@, old(m).end as int, old(m).pos as int, self),
    {
        if self.id_size == 4 {
            if m.end - m.pos < 4 {
                return Err(Error::PrematureEOF);
            }
            let b = vstd::slice::slice_subrange(m.data, m.pos, m.pos + 4);
            let v = if self.little_endian {
                read_le_u32(b)
            } else {
                read_be_u32(b)
            };
            proof {
                assert forall|k: int| 0 <= k < 4 implies b@[k] == m.data@[m.pos + k] by {}
            }
            m.pos = m.pos + 4;
            Ok(Id(v as u64))
        } else if self.id_size == 8 {
            if m.end - m.pos < 8 {
                return Err(Error::PrematureEOF);
            }
            let b = vstd::slice::slice_subrange(m.data, m.pos, m.pos + 8);
            let v = if self.little_endian {
                read_le_u64(b)
            } else {
                read_be_u64(b)
            };
            proof {
                assert forall|k: int| 0 <= k < 8 implies b@[k] == m.data@[m.pos + k] by {}
                assert(le32(b@, 0) == le32(m.data@, m.pos as int));
                assert(le32(b@, 4) == le32(m.data@, m.pos + 4));
                assert(be32(b@, 0) == be32(m.data@, m.pos as int));
                assert(be32(b@, 4) == be32(m.data@, m.pos + 4));
            }
            m.pos = m.pos + 8;
            Ok(Id(v))
        } else {
            Err(Error::InvalidHeader(MSG_ID_SIZE))
        }
    }
}

impl Default for IdReader {
    fn default() -> (r: Self)
        ensures
            r.id_size == 0,
            r.order == ByteOrder::Network,
            !r.little_endian,
    {
        Self::new()
    }
}

/// The identifier stored at `s[i..]`, widened to 64 bits.
pub open spec fn id_at(s: Seq<u8>, i: int, w: IdReader) -> u64 {
    if w.id_size == 4 {
        if w.little_endian {
            le32(s, i) as u64
        } else {
            be32(s, i) as u64
        }
    } else {
        if w.little_endian {
            le64(s, i)
        } else {
            be64(s, i)
        }
    }
}

pub open spec fn p_id(s: Seq<u8>, e: int, i: int, w: IdReader) -> Parsed<Id> {
    if w.id_size == 4 || w.id_size == 8 {
        fixed(e, i, w.id_size as int, Id(id_at(s, i, w)))
    } else {
        Err(Error::InvalidHeader(MSG_ID_SIZE))
    }
}

pub open spec fn spec_load_class(s: Seq<u8>, e: int, i: int, w: IdReader) -> Parsed<ClassRecord> {
    let n = w.id_size as int;
    fixed(
        e,
        i,
        8 + 2 * n,
        ClassRecord {
            serial: be32(s, i),
            class_obj_id: Id(id_at(s, i + 4, w)),
            stack_trace_serial: be32(s, i + 4 + n),
            class_name_string_id: Id(id_at(s, i + 8 + n, w)),
        },
    )
}

pub fn read_02_load_class(m: &mut Memory, w: IdReader) -> (r: Result<ClassRecord, Error>)
    requires
        old(m).wf(),
        w.wf(),
    ensures
        final(m).same_source(old(m)),
        outcome(r, final(m).pos as int) == spec_load_class(old(m).data@, old(m).end as int, old(m).pos as int, w),
{
    let serial = m.read_u32()?;
    let class_obj_id = w.read_id(m)?;
    let stack_trace_serial = m.read_u32()?;
    let class_name_string_id = w.read_id(m)?;
    Ok(ClassRecord { serial, class_obj_id, stack_trace_serial, class_name_string_id })
}

pub open spec fn spec_unload_class(s: Seq<u8>, e: int, i: int) -> Parsed<u32> {
    fixed(e, i, 4, be32(s, i))
}

pub fn read_03_unload_class(m: &mut Memory) -> (r: Result<u32, Error>)
    requires
        old(m).wf(),
    ensures
        final(m).same_source(old(m)),
        outcome(r, final(m).pos as int) == spec_unload_class(old(m).data@, old(m).end as int, old(m).pos as int),
{
    m.read_u32()
}

pub open spec fn spec_frame(s: Seq<u8>, e: int, i: int, w: IdReader) -> Parsed<StackFrameRecord> {
    let n = w.id_size as int;
    fixed(
        e,
        i,
        4 * n + 8,
        StackFrameRecord {
            stack_frame_id: Id(id_at(s, i, w)),
            method_name_id: Id(id_at(s, i + n, w)),
            method_signature_id: Id(id_at(s, i + 2 * n, w)),
            source_file_name_id: Id(id_at(s, i + 3 * n, w)),
            class_serial: be32(s, i + 4 * n),
            line_number: be32(s, i + 4 * n + 4) as i32,
        },
    )
}

pub fn read_04_frame(m: &mut Memory, w: IdReader) -> (r: Result<StackFrameRecord, Error>)
    requires
        old(m).wf(),
        w.wf(),
    ensures
        final(m).same_source(old(m)),
        outcome(r, final(m).pos as int) == spec_frame(old(m).data@, old(m).end as int, old(m).pos as int, w),
{
    let stack_frame_id = w.read_id(m)?;
    let method_name_id = w.read_id(m)?;
    let method_signature_id = w.read_id(m)?;
    let source_file_name_id = w.read_id(m)?;
    let class_serial = m.read_u32()?;
    let line_number = m.read_u32()? as i32;
    Ok(
        StackFrameRecord {
            stack_frame_id,
            method_name_id,
            method_signature_id,
            source_file_name_id,
            class_serial,
            line_number,
        },
    )
}

pub open spec fn spec_heap_summary(s: Seq<u8>, e: int, i: int) -> Parsed<HeapSummaryRecord> {
    fixed(
        e,
        i,
        24,
        HeapSummaryRecord {
            total_live_bytes: be32(s, i),
            total_live_instances: be32(s, i + 4),
            total_bytes_allocated: be64(s, i + 8),
            total_instances_allocated: be64(s, i + 16),
        },
    )
}

pub fn read_07_heap_summary(m: &mut Memory) -> (r: Result<HeapSummaryRecord, Error>)
    requires
        old(m).wf(),
    ensures
        final(m).same_source(old(m)),
        outcome(r, final(m).pos as int) == spec_heap_summary(old(m).data@, old(m).end as int, old(m).pos as int),
{
    let total_live_bytes = m.read_u32()?;
    let total_live_instances = m.read_u32()?;
    let total_bytes_allocated = m.read_u64()?;
    let total_instances_allocated = m.read_u64()?;
    Ok(
        HeapSummaryRecord {
            total_live_bytes,
            total_live_instances,
            total_bytes_allocated,
            total_instances_allocated,
        },
    )
}

pub open spec fn spec_start_thread(s: Seq<u8>, e: int, i: int, w: IdReader) -> Parsed<
    StartThreadRecord,
> {
    let n = w.id_size as int;
    fixed(
        e,
        i,
        8 + 4 * n,
        StartThreadRecord {
            thread_serial: be32(s, i),
            thead_object_id: Id(id_at(s, i + 4, w)),
            stack_trace_serial: be32(s, i + 4 + n),
            thread_name_id: Id(id_at(s, i + 8 + n, w)),
            thread_group_name_id: Id(id_at(s, i + 8 + 2 * n, w)),
            thread_group_parent_name_id: Id(id_at(s, i + 8 + 3 * n, w)),
        },
    )
}

pub fn read_0a_start_thread(m: &mut Memory, w: IdReader) -> (r: Result<StartThreadRecord, Error>)
    requires
        old(m).wf(),
        w.wf(),
    ensures
        final(m).same_source(old(m)),
        outcome(r, final(m).pos as int) == spec_start_thread(old(m).data@, old(m).end as int, old(m).pos as int, w),
{
    let thread_serial = m.read_u32()?;
    let thead_object_id = w.read_id(m)?;
    let stack_trace_serial = m.read_u32()?;
    let thread_name_id = w.read_id(m)?;
    let thread_group_name_id = w.read_id(m)?;
    let thread_group_parent_name_id = w.read_id(m)?;
    Ok(
        StartThreadRecord {
            thread_serial,
            thead_object_id,
            stack_trace_serial,
            thread_name_id,
            thread_group_name_id,
            thread_group_parent_name_id,
        },
    )
}

pub open spec fn spec_end_thread(s: Seq<u8>, e: int, i: int) -> Parsed<EndThreadRecord> {
    fixed(e, i, 4, EndThreadRecord { thread_serial: be32(s, i) })
}

pub fn read_0b_end_thread(m: &mut Memory) -> (r: Result<EndThreadRecord, Error>)
    requires
        old(m).wf(),
    ensures
        final(m).same_source(old(m)),
        outcome(r, final(m).pos as int) == spec_end_thread(old(m).data@, old(m).end as int, old(m).pos as int),
{
    let thread_serial = m.read_u32()?;
    Ok(EndThreadRecord { thread_serial })
}

/// A string record whose payload is `payload_size` bytes: an identifier,
/// then the bytes of the string.
pub open spec fn spec_string(s: Seq<u8>, e: int, i: int, w: IdReader, payload_size: u32) -> Parsed<
    (Id, Seq<u8>),
> {
    let n = w.id_size as int;
    if i + n > e {
        Err(Error::PrematureEOF)
    } else if payload_size < n {
        Err(Error::InvalidPacket(TAG_STRING, payload_size))
    } else {
        fixed(e, i + n, payload_size - n, (Id(id_at(s, i, w)), s.subrange(i + n, i + payload_size)))
    }
}

pub fn read_01_string<'a>(m: &mut Memory<'a>, id_reader: IdReader, payload_size: u32) -> (r: Result<
    (Id, &'a [u8]),
    Error,
>)
    requires
        old(m).wf(),
        id_reader.wf(),
    ensures
        final(m).same_source(old(m)),
        outcome(
            match r {
                Ok((id, b)) => Ok::<(Id, Seq<u8>), Error>((id, b@)),
                Err(e) => Err(e),
            },
            final(m).pos as int,
        ) == spec_string(old(m).data@, old(m).end as int, old(m).pos as int, id_reader, payload_size),
{
    let id = id_reader.read_id(m)?;
    if payload_size < id_reader.id_size {
        return Err(Error::InvalidPacket(TAG_STRING, payload_size));
    }
    let data = m.read_string(payload_size - id_reader.id_size)?;
    Ok((id, data))
}

/// The roots of the heap: a subrecord of fixed layout, told apart by `tag`.
pub open spec fn spec_root(s: Seq<u8>, e: int, i: int, w: IdReader, tag: u8) -> Parsed<DumpModel> {
    let n = w.id_size as int;
    let obj_id = Id(id_at(s, i, w));
    if tag == TAG_GC_ROOT_UNKNOWN {
        fixed(e, i, n, DumpModel::RootUnknown { obj_id })
    } else if tag == TAG_GC_ROOT_JNI_GLOBAL {
        fixed(e, i, 2 * n, DumpModel::RootJniGlobal { obj_id, jni_global_ref: Id(id_at(s, i + n, w)) })
    } else if tag == TAG_GC_ROOT_JNI_LOCAL {
        fixed(
            e,
            i,
            n + 8,
            DumpModel::RootJniLocal {
                obj_id,
                thread_serial: be32(s, i + n),
                frame_number: be32(s, i + n + 4),
            },
        )
    } else if tag == TAG_GC_ROOT_JAVA_FRAME {
        fixed(
            e,
            i,
            n + 8,
            DumpModel::RootJavaFrame {
                obj_id,
                thread_serial: be32(s, i + n),
                frame_number: be32(s, i + n + 4),
            },
        )
    } else if tag == TAG_GC_ROOT_NATIVE_STACK {
        fixed(e, i, n + 4, DumpModel::RootNativeStack { obj_id, thread_serial: be32(s, i + n) })
    } else if tag == TAG_GC_ROOT_STICKY_CLASS {
        fixed(e, i, n, DumpModel::RootStickyClass { obj_id })
    } else if tag == TAG_GC_ROOT_THREAD_BLOCK {
        fixed(e, i, n + 4, DumpModel::RootThreadBlock { obj_id, thread_serial: be32(s, i + n) })
    } else if tag == TAG_GC_ROOT_MONITOR_USED {
        fixed(e, i, n, DumpModel::RootMonitorUsed { obj_id })
    } else {
        fixed(
            e,
            i,
            n + 8,
            DumpModel::RootThreadObject {
                obj_id,
                thread_serial: be32(s, i + n),
                stack_trace_serial: be32(s, i + n + 4),
            },
        )
    }
}

pub fn read_data_ff_root_unknown(m: &mut Memory, id_reader: IdReader) -> (r: Result<DumpRecord, Error>)
    requires
        old(m).wf(),
        id_reader.wf(),
    ensures
        final(m).same_source(old(m)),
        outcome_view(r, final(m).pos as int) == spec_root(old(m).data@, old(m).end as int, old(m).pos as int, id_reader, TAG_GC_ROOT_UNKNOWN),
{
    Ok(DumpRecord::RootUnknown { obj_id: id_reader.read_id(m)? })
}

pub fn read_data_01_root_jni_global(m: &mut Memory, id_reader: IdReader) -> (r: Result<DumpRecord, Error>)
    requires
        old(m).wf(),
        id_reader.wf(),
    ensures
        final(m).same_source(old(m)),
        outcome_view(r, final(m).pos as int) == spec_root(old(m).data@, old(m).end as int, old(m).pos as int, id_reader, TAG_GC_ROOT_JNI_GLOBAL),
{
    let obj_id = id_reader.read_id(m)?;
    let jni_global_ref = id_reader.read_id(m)?;
    Ok(DumpRecord::RootJniGlobal { obj_id, jni_global_ref })
}

pub fn read_data_02_root_jni_local(m: &mut Memory, id_reader: IdReader) -> (r: Result<DumpRecord, Error>)
    requires
        old(m).wf(),
        id_reader.wf(),
    ensures
        final(m).same_source(old(m)),
        outcome_view(r, final(m).pos as int) == spec_root(old(m).data@, old(m).end as int, old(m).pos as int, id_reader, TAG_GC_ROOT_JNI_LOCAL),
{
    let obj_id = id_reader.read_id(m)?;
    let thread_serial = m.read_u32()?;
    let frame_number = m.read_u32()?;
    Ok(DumpRecord::RootJniLocal { obj_id, thread_serial, frame_number })
}

pub fn read_data_03_root_java_frame(m: &mut Memory, id_reader: IdReader) -> (r: Result<DumpRecord, Error>)
    requires
        old(m).wf(),
        id_reader.wf(),
    ensures
        final(m).same_source(old(m)),
        outcome_view(r, final(m).pos as int) == spec_root(old(m).data@, old(m).end as int, old(m).pos as int, id_reader, TAG_GC_ROOT_JAVA_FRAME),
{
    let obj_id = id_reader.read_id(m)?;
    let thread_serial = m.read_u32()?;
    let frame_number = m.read_u32()?;
    Ok(DumpRecord::RootJavaFrame { obj_id, thread_serial, frame_number })
}

pub fn read_data_04_root_native_stack(m: &mut Memory, id_reader: IdReader) -> (r: Result<DumpRecord, Error>)
    requires
        old(m).wf(),
        id_reader.wf(),
    ensures
        final(m).same_source(old(m)),
        outcome_view(r, final(m).pos as int) == spec_root(old(m).data@, old(m).end as int, old(m).pos as int, id_reader, TAG_GC_ROOT_NATIVE_STACK),
{
    let obj_id = id_reader.read_id(m)?;
    let thread_serial = m.read_u32()?;
    Ok(DumpRecord::RootNativeStack { obj_id, thread_serial })
}

pub fn read_data_05_root_sticky_class(m: &mut Memory, id_reader: IdReader) -> (r: Result<DumpRecord, Error>)
    requires
        old(m).wf(),
        id_reader.wf(),
    ensures
        final(m).same_source(old(m)),
        outcome_view(r, final(m).pos as int) == spec_root(old(m).data@, old(m).end as int, old(m).pos as int, id_reader, TAG_GC_ROOT_STICKY_CLASS),
{
    Ok(DumpRecord::RootStickyClass { obj_id: id_reader.read_id(m)? })
}

pub fn read_data_06_root_thread_block(m: &mut Memory, id_reader: IdReader) -> (r: Result<DumpRecord, Error>)
    requires
        old(m).wf(),
        id_reader.wf(),
    ensures
        final(m).same_source(old(m)),
        outcome_view(r, final(m).pos as int) == spec_root(old(m).data@, old(m).end as int, old(m).pos as int, id_reader, TAG_GC_ROOT_THREAD_BLOCK),
{
    let obj_id = id_reader.read_id(m)?;
    let thread_serial = m.read_u32()?;
    Ok(DumpRecord::RootThreadBlock { obj_id, thread_serial })
}

pub fn read_data_07_root_monitor_used(m: &mut Memory, id_reader: IdReader) -> (r: Result<DumpRecord, Error>)
    requires
        old(m).wf(),
        id_reader.wf(),
    ensures
        final(m).same_source(old(m)),
        outcome_view(r, final(m).pos as int) == spec_root(old(m).data@, old(m).end as int, old(m).pos as int, id_reader, TAG_GC_ROOT_MONITOR_USED),
{
    Ok(DumpRecord::RootMonitorUsed { obj_id: id_reader.read_id(m)? })
}

pub fn read_data_08_root_thread_obj(m: &mut Memory, id_reader: IdReader) -> (r: Result<DumpRecord, Error>)
    requires
        old(m).wf(),
        id_reader.wf(),
    ensures
        final(m).same_source(old(m)),
        outcome_view(r, final(m).pos as int) == spec_root(old(m).data@, old(m).end as int, old(m).pos as int, id_reader, TAG_GC_ROOT_THREAD_OBJ),
{
    let obj_id = id_reader.read_id(m)?;
    let thread_serial = m.read_u32()?;
    let stack_trace_serial = m.read_u32()?;
    Ok(DumpRecord::RootThreadObject { obj_id, thread_serial, stack_trace_serial })
}

/// Bytes that a value of kind `t` takes: an identifier for `Object`.
pub open spec fn value_size(t: FieldType, w: IdReader) -> int {
    match primitive_size(t) {
        Some(n) => n as int,
        None => w.id_size as int,
    }
}

/// The value of kind `t` stored at `s[i..]`.
pub open spec fn value_at(s: Seq<u8>, i: int, t: FieldType, w: IdReader) -> FieldValue {
    match t {
        FieldType::Object => FieldValue::Object(Id(id_at(s, i, w))),
        FieldType::Bool => FieldValue::Bool(s[i] != 0),
        FieldType::Char => FieldValue::Char(be16(s, i)),
        FieldType::Float => FieldValue::Float(be32(s, i)),
        FieldType::Double => FieldValue::Double(be64(s, i)),
        FieldType::Byte => FieldValue::Byte(s[i] as i8),
        FieldType::Short => FieldValue::Short(be16(s, i) as i16),
        FieldType::Int => FieldValue::Int(be32(s, i) as i32),
        FieldType::Long => FieldValue::Long(be64(s, i) as i64),
    }
}

pub open spec fn p_value(s: Seq<u8>, e: int, i: int, t: FieldType, w: IdReader) -> Parsed<FieldValue> {
    fixed(e, i, value_size(t, w), value_at(s, i, t, w))
}

pub fn read_type_value(m: &mut Memory, ty: FieldType, id_reader: IdReader) -> (r: Result<FieldValue, Error>)
    requires
        old(m).wf(),
        id_reader.wf(),
    ensures
        final(m).same_source(old(m)),
        outcome(r, final(m).pos as int) == p_value(old(m).data@, old(m).end as int, old(m).pos as int, ty, id_reader),
{
    Ok(
        match ty {
            FieldType::Object => FieldValue::Object(id_reader.read_id(m)?),
            FieldType::Bool => FieldValue::Bool(m.read_u8()? != 0),
            FieldType::Char => FieldValue::Char(m.read_u16()?),
            FieldType::Float => FieldValue::Float(m.read_u32()?),
            FieldType::Double => FieldValue::Double(m.read_u64()?),
            FieldType::Byte => FieldValue::Byte(m.read_u8()? as i8),
            FieldType::Short => FieldValue::Short(m.read_u16()? as i16),
            FieldType::Int => FieldValue::Int(m.read_u32()? as i32),
            FieldType::Long => FieldValue::Long(m.read_u64()? as i64),
        },
    )
}

/// `n` identifiers stored one after the other from `s[i..]`.
pub open spec fn ids_at(s: Seq<u8>, i: int, n: nat, w: IdReader) -> Seq<Id> {
    Seq::new(n, |k: int| Id(id_at(s, i + k * w.id_size, w)))
}

proof fn lemma_step_fits(start: int, k: int, n: int, size: int, e: int)
    requires
        0 <= k < n,
        size >= 0,
        start + n * size <= e,
    ensures
        start + k * size + size <= e,
        (k + 1) * size == k * size + size,
{
    assert(k * size + size <= n * size) by (nonlinear_arith)
        requires
            0 <= k < n,
            size >= 0,
    ;
    assert((k + 1) * size == k * size + size) by (nonlinear_arith);
}

proof fn lemma_count_times_width(n: u32, w: u32)
    requires
        w <= 8,
    ensures
        n * w <= 0xFFFF_FFFFu64 * 8,
{
    assert(n * w <= 0xFFFF_FFFFu64 * 8) by (nonlinear_arith)
        requires
            w <= 8,
            n <= 0xFFFF_FFFFu64,
    ;
}

/// Reads `n` identifiers, having checked that they fit before the bound.
fn read_ids(m: &mut Memory, id_reader: IdReader, n: u32) -> (r: Vec<Id>)
    requires
        old(m).wf(),
        id_reader.wf(),
        old(m).pos + n * id_reader.id_size <= old(m).end,
    ensures
        final(m).same_source(old(m)),
        final(m).pos == old(m).pos + n * id_reader.id_size,
        r@ == ids_at(old(m).data@, old(m).pos as int, n as nat, id_reader),
{
    let ghost start = m.pos as int;
    let ghost w = id_reader.id_size as int;
    let mut ids: Vec<Id> = Vec::new();
    let mut k: u32 = 0;
    while k < n
        invariant
            m.same_source(old(m)),
            0 <= k <= n,
            m.pos == start + k * w,
            start + n * w <= m.end,
            id_reader.wf(),
            w == id_reader.id_size,
            ids@ =~= ids_at(old(m).data@, start, k as nat, id_reader),
        decreases n - k,
    {
        proof {
            lemma_step_fits(start, k as int, n as int, w, m.end as int);
        }
        match id_reader.read_id(m) {
            Ok(id) => ids.push(id),
            Err(_) => {
                proof {
                    assert(false);
                }
            },
        }
        k = k + 1;
    }
    ids
}

pub open spec fn spec_trace(s: Seq<u8>, e: int, i: int, w: IdReader) -> Parsed<StackTraceModel> {
    if i + 12 > e {
        Err(Error::PrematureEOF)
    } else {
        let n = be32(s, i + 8);
        fixed(
            e,
            i + 12,
            n * w.id_size,
            StackTraceModel {
                stack_trace_serial: be32(s, i),
                thread_serial: be32(s, i + 4),
                stack_frame_ids: ids_at(s, i + 12, n as nat, w),
            },
        )
    }
}

pub fn read_05_trace(m: &mut Memory, id_reader: IdReader) -> (r: Result<StackTraceRecord, Error>)
    requires
        old(m).wf(),
        id_reader.wf(),
    ensures
        final(m).same_source(old(m)),
        outcome_view(r, final(m).pos as int) == spec_trace(old(m).data@, old(m).end as int, old(m).pos as int, id_reader),
{
    let stack_trace_serial = m.read_u32()?;
    let thread_serial = m.read_u32()?;
    let num_frames = m.read_u32()?;
    proof {
        lemma_count_times_width(num_frames, id_reader.id_size);
    }
    if (num_frames as u64) * (id_reader.id_size as u64) > m.remaining() as u64 {
        return Err(Error::PrematureEOF);
    }
    let stack_frame_ids = read_ids(m, id_reader, num_frames);
    Ok(StackTraceRecord { stack_trace_serial, thread_serial, stack_frame_ids })
}

/// One allocation site of 25 bytes at `s[i..]`.
pub open spec fn site_at(s: Seq<u8>, i: int) -> AllocSite {
    AllocSite {
        is_array: s[i],
        class_serial: be32(s, i + 1),
        stack_trace_serial: be32(s, i + 5),
        bytes_alive: be32(s, i + 9),
        instances_alive: be32(s, i + 13),
        bytes_allocated: be32(s, i + 17),
        instances_allocated: be32(s, i + 21),
    }
}

pub open spec fn spec_alloc_sites(s: Seq<u8>, e: int, i: int) -> Parsed<AllocSitesModel> {
    if i + 34 > e {
        Err(Error::PrematureEOF)
    } else {
        let n = be32(s, i + 30);
        fixed(
            e,
            i + 34,
            25 * n,
            AllocSitesModel {
                flags: be16(s, i),
                cutoff_ratio: be32(s, i + 2),
                total_live_bytes: be32(s, i + 6),
                total_live_instances: be32(s, i + 10),
                total_bytes_allocated: be64(s, i + 14),
                total_instances_allocated: be64(s, i + 22),
                sites: Seq::new(n as nat, |k: int| site_at(s, i + 34 + 25 * k)),
            },
        )
    }
}

pub fn read_06_alloc_sites(m: &mut Memory) -> (r: Result<AllocSitesRecord, Error>)
    requires
        old(m).wf(),
    ensures
        final(m).same_source(old(m)),
        outcome_view(r, final(m).pos as int) == spec_alloc_sites(old(m).data@, old(m).end as int, old(m).pos as int),
{
    let ghost s = m.data@;
    let ghost i = m.pos as int;
    let flags = m.read_u16()?;
    let cutoff_ratio = m.read_u32()?;
    let total_live_bytes = m.read_u32()?;
    let total_live_instances = m.read_u32()?;
    let total_bytes_allocated = m.read_u64()?;
    let total_instances_allocated = m.read_u64()?;
    let num_sites = m.read_u32()?;
    if (num_sites as u64) * 25 > m.remaining() as u64 {
        return Err(Error::PrematureEOF);
    }
    let mut sites: Vec<AllocSite> = Vec::new();
    let mut k: u32 = 0;
    while k < num_sites
        invariant
            m.same_source(old(m)),
            s == m.data@,
            0 <= k <= num_sites,
            m.pos == i + 34 + 25 * k,
            i + 34 + 25 * num_sites <= m.end,
            sites@ =~= Seq::new(k as nat, |j: int| site_at(s, i + 34 + 25 * j)),
        decreases num_sites - k,
    {
        let is_array = m.read_u8()?;
        let class_serial = m.read_u32()?;
        let stack_trace_serial = m.read_u32()?;
        let bytes_alive = m.read_u32()?;
        let instances_alive = m.read_u32()?;
        let bytes_allocated = m.read_u32()?;
        let instances_allocated = m.read_u32()?;
        sites.push(
            AllocSite {
                is_array,
                class_serial,
                stack_trace_serial,
                bytes_alive,
                instances_alive,
                bytes_allocated,
                instances_allocated,
            },
        );
        k = k + 1;
    }
    Ok(
        AllocSitesRecord {
            flags,
            cutoff_ratio,
            total_live_bytes,
            total_live_instances,
            total_bytes_allocated,
            total_instances_allocated,
            sites,
        },
    )
}

/// Prefixes `p` to the sequence of a successful outcome.
pub open spec fn prepend<T>(p: Seq<T>, r: Parsed<Seq<T>>) -> Parsed<Seq<T>> {
    match r {
        Ok((q, j)) => Ok((p + q, j)),
        Err(x) => Err(x),
    }
}

/// `n` entries one after the other from position `j`; the one of index `k`
/// is decoded by `entry(k, position)`.  The first error ends the sequence.
pub open spec fn repeat<T>(entry: spec_fn(int, int) -> Parsed<T>, k: int, j: int, n: nat) -> Parsed<
    Seq<T>,
>
    decreases n,
{
    if n == 0 {
        Ok((Seq::empty(), j))
    } else {
        match entry(k, j) {
            Err(x) => Err(x),
            Ok((v, j2)) => prepend(seq![v], repeat(entry, k + 1, j2, (n - 1) as nat)),
        }
    }
}

/// A table: a big-endian `u16` count at `i`, then that many entries.
pub open spec fn counted<T>(s: Seq<u8>, e: int, i: int, entry: spec_fn(int, int) -> Parsed<T>) -> Parsed<
    Seq<T>,
> {
    match p_u16(s, e, i) {
        Err(x) => Err(x),
        Ok((n, j)) => repeat(entry, 0, j, n as nat),
    }
}

proof fn lemma_repeat_unfold<T>(entry: spec_fn(int, int) -> Parsed<T>, k: int, j: int, n: nat)
    requires
        n > 0,
    ensures
        repeat(entry, k, j, n) == match entry(k, j) {
            Err(x) => Err(x),
            Ok((v, j2)) => prepend(seq![v], repeat(entry, k + 1, j2, (n - 1) as nat)),
        },
{
}

proof fn lemma_prepend_join<T>(a: Seq<T>, b: Seq<T>, r: Parsed<Seq<T>>)
    ensures
        prepend(a, prepend(b, r)) == prepend(a + b, r),
{
    match r {
        Ok((q, j)) => {
            assert(a + (b + q) =~= (a + b) + q);
        },
        Err(_) => {},
    }
}

proof fn lemma_prepend_empty<T>(a: Seq<T>, j: int)
    ensures
        prepend(a, Ok((Seq::empty(), j))) == Ok::<(Seq<T>, int), Error>((a, j)),
{
    assert(a + Seq::<T>::empty() =~= a);
}

/// Constant-pool entry at `j`: `u16` index, kind code, value.
pub open spec fn const_entry_at(s: Seq<u8>, e: int, w: IdReader, j: int) -> Parsed<
    (ConstFieldInfo, FieldValue),
> {
    if j + 3 > e {
        Err(Error::PrematureEOF)
    } else {
        match field_type_of(s[j + 2]) {
            None => Err(Error::InvalidField(MSG_FIELD_TYPE)),
            Some(t) => match p_value(s, e, j + 3, t, w) {
                Ok((v, j2)) => Ok(((ConstFieldInfo { const_pool_idx: be16(s, j), const_type: t }, v), j2)),
                Err(x) => Err(x),
            },
        }
    }
}

pub open spec fn const_entry(s: Seq<u8>, e: int, w: IdReader) -> spec_fn(int, int) -> Parsed<
    (ConstFieldInfo, FieldValue),
> {
    |k: int, j: int| const_entry_at(s, e, w, j)
}

/// Static field at `j`: name identifier, kind code, value.
pub open spec fn static_entry_at(s: Seq<u8>, e: int, w: IdReader, j: int) -> Parsed<(FieldInfo, FieldValue)> {
    if j + w.id_size + 1 > e {
        Err(Error::PrematureEOF)
    } else {
        match field_type_of(s[j + w.id_size]) {
            None => Err(Error::InvalidField(MSG_FIELD_TYPE)),
            Some(t) => match p_value(s, e, j + w.id_size + 1, t, w) {
                Ok((v, j2)) => Ok(((FieldInfo { name_id: Id(id_at(s, j, w)), field_type: t }, v), j2)),
                Err(x) => Err(x),
            },
        }
    }
}

pub open spec fn static_entry(s: Seq<u8>, e: int, w: IdReader) -> spec_fn(int, int) -> Parsed<
    (FieldInfo, FieldValue),
> {
    |k: int, j: int| static_entry_at(s, e, w, j)
}

/// Instance field descriptor at `j`: name identifier and kind code.
pub open spec fn field_entry_at(s: Seq<u8>, e: int, w: IdReader, j: int) -> Parsed<FieldInfo> {
    if j + w.id_size + 1 > e {
        Err(Error::PrematureEOF)
    } else {
        match field_type_of(s[j + w.id_size]) {
            None => Err(Error::InvalidField(MSG_FIELD_TYPE)),
            Some(t) => Ok((FieldInfo { name_id: Id(id_at(s, j, w)), field_type: t }, j + w.id_size + 1)),
        }
    }
}

pub open spec fn field_entry(s: Seq<u8>, e: int, w: IdReader) -> spec_fn(int, int) -> Parsed<FieldInfo> {
    |k: int, j: int| field_entry_at(s, e, w, j)
}

fn read_field_type(m: &mut Memory) -> (r: Result<FieldType, Error>)
    requires
        old(m).wf(),
    ensures
        final(m).same_source(old(m)),
        old(m).pos + 1 > old(m).end ==> r == Err::<FieldType, Error>(Error::PrematureEOF),
        old(m).pos + 1 <= old(m).end ==> final(m).pos == old(m).pos + 1 && match field_type_of(
            old(m).data@[old(m).pos as int],
        ) {
            Some(t) => r == Ok::<FieldType, Error>(t),
            None => r == Err::<FieldType, Error>(Error::InvalidField(MSG_FIELD_TYPE)),
        },
{
    let code = m.read_u8()?;
    match FieldType::from_code(code) {
        Some(t) => Ok(t),
        None => Err(Error::InvalidField(MSG_FIELD_TYPE)),
    }
}

fn read_const_fields(m: &mut Memory, w: IdReader) -> (r: Result<Vec<(ConstFieldInfo, FieldValue)>, Error>)
    requires
        old(m).wf(),
        w.wf(),
    ensures
        final(m).same_source(old(m)),
        outcome_view(r, final(m).pos as int) == counted(old(m).data@, old(m).end as int, old(m).pos as int, const_entry(old(m).data@, old(m).end as int, w)),
{
    let ghost s = m.data@;
    let ghost e = m.end as int;
    let ghost entry = const_entry(s, e, w);
    let count = m.read_u16()?;
    let ghost j0 = m.pos as int;
    let mut v: Vec<(ConstFieldInfo, FieldValue)> = Vec::new();
    let mut k: u16 = 0;
    while k < count
        invariant
            m.same_source(old(m)),
            s == m.data@,
            e == m.end,
            w.wf(),
            entry == const_entry(s, e, w),
            counted(s, e, old(m).pos as int, entry) == repeat(entry, 0, j0, count as nat),
            k <= count,
            v@.len() == k,
            repeat(entry, 0, j0, count as nat) == prepend(v@, repeat(entry, k as int, m.pos as int, (count - k) as nat)),
        decreases count - k,
    {
        let ghost j = m.pos as int;
        proof {
            assert(entry(k as int, j) == const_entry_at(s, e, w, j));
            lemma_repeat_unfold(entry, k as int, j, (count - k) as nat);
        }
        let const_pool_idx = m.read_u16()?;
        let const_type = read_field_type(m)?;
        let value = read_type_value(m, const_type, w)?;
        let item = (ConstFieldInfo { const_pool_idx, const_type }, value);
        let ghost before = v@;
        proof {
            assert(entry(k as int, j) == Ok::<(((ConstFieldInfo, FieldValue), int)), Error>((item, m.pos as int)));
            lemma_prepend_join(before, seq![item], repeat(entry, k + 1, m.pos as int, (count - k - 1) as nat));
        }
        v.push(item);
        assert(v@ =~= before + seq![item]);
        k = k + 1;
    }
    proof {
        lemma_prepend_empty(v@, m.pos as int);
    }
    Ok(v)
}

fn read_static_fields(m: &mut Memory, w: IdReader) -> (r: Result<Vec<(FieldInfo, FieldValue)>, Error>)
    requires
        old(m).wf(),
        w.wf(),
    ensures
        final(m).same_source(old(m)),
        outcome_view(r, final(m).pos as int) == counted(old(m).data@, old(m).end as int, old(m).pos as int, static_entry(old(m).data@, old(m).end as int, w)),
{
    let ghost s = m.data@;
    let ghost e = m.end as int;
    let ghost entry = static_entry(s, e, w);
    let count = m.read_u16()?;
    let ghost j0 = m.pos as int;
    let mut v: Vec<(FieldInfo, FieldValue)> = Vec::new();
    let mut k: u16 = 0;
    while k < count
        invariant
            m.same_source(old(m)),
            s == m.data@,
            e == m.end,
            w.wf(),
            entry == static_entry(s, e, w),
            counted(s, e, old(m).pos as int, entry) == repeat(entry, 0, j0, count as nat),
            k <= count,
            v@.len() == k,
            repeat(entry, 0, j0, count as nat) == prepend(v@, repeat(entry, k as int, m.pos as int, (count - k) as nat)),
        decreases count - k,
    {
        let ghost j = m.pos as int;
        proof {
            assert(entry(k as int, j) == static_entry_at(s, e, w, j));
            lemma_repeat_unfold(entry, k as int, j, (count - k) as nat);
        }
        let name_id = w.read_id(m)?;
        let field_type = read_field_type(m)?;
        let value = read_type_value(m, field_type, w)?;
        let item = (FieldInfo { name_id, field_type }, value);
        let ghost before = v@;
        proof {
            assert(entry(k as int, j) == Ok::<(((FieldInfo, FieldValue), int)), Error>((item, m.pos as int)));
            lemma_prepend_join(before, seq![item], repeat(entry, k + 1, m.pos as int, (count - k - 1) as nat));
        }
        v.push(item);
        assert(v@ =~= before + seq![item]);
        k = k + 1;
    }
    proof {
        lemma_prepend_empty(v@, m.pos as int);
    }
    Ok(v)
}

fn read_instance_fields(m: &mut Memory, w: IdReader) -> (r: Result<Vec<FieldInfo>, Error>)
    requires
        old(m).wf(),
        w.wf(),
    ensures
        final(m).same_source(old(m)),
        outcome_view(r, final(m).pos as int) == counted(old(m).data@, old(m).end as int, old(m).pos as int, field_entry(old(m).data@, old(m).end as int, w)),
{
    let ghost s = m.data@;
    let ghost e = m.end as int;
    let ghost entry = field_entry(s, e, w);
    let count = m.read_u16()?;
    let ghost j0 = m.pos as int;
    let mut v: Vec<FieldInfo> = Vec::new();
    let mut k: u16 = 0;
    while k < count
        invariant
            m.same_source(old(m)),
            s == m.data@,
            e == m.end,
            w.wf(),
            entry == field_entry(s, e, w),
            counted(s, e, old(m).pos as int, entry) == repeat(entry, 0, j0, count as nat),
            k <= count,
            v@.len() == k,
            repeat(entry, 0, j0, count as nat) == prepend(v@, repeat(entry, k as int, m.pos as int, (count - k) as nat)),
        decreases count - k,
    {
        let ghost j = m.pos as int;
        proof {
            assert(entry(k as int, j) == field_entry_at(s, e, w, j));
            lemma_repeat_unfold(entry, k as int, j, (count - k) as nat);
        }
        let name_id = w.read_id(m)?;
        let field_type = read_field_type(m)?;
        let item = FieldInfo { name_id, field_type };
        let ghost before = v@;
        proof {
            assert(entry(k as int, j) == Ok::<((FieldInfo, int)), Error>((item, m.pos as int)));
            lemma_prepend_join(before, seq![item], repeat(entry, k + 1, m.pos as int, (count - k - 1) as nat));
        }
        v.push(item);
        assert(v@ =~= before + seq![item]);
        k = k + 1;
    }
    proof {
        lemma_prepend_empty(v@, m.pos as int);
    }
    Ok(v)
}

/// A class dump: identifiers and sizes of fixed layout, then the constant
/// pool, the static fields and the instance field descriptors.
pub open spec fn spec_class_dump(s: Seq<u8>, e: int, i: int, w: IdReader) -> Parsed<ClassDescriptionModel> {
    let n = w.id_size as int;
    let h = i + 7 * n + 8;
    if h > e {
        Err(Error::PrematureEOF)
    } else {
        match counted(s, e, h, const_entry(s, e, w)) {
            Err(x) => Err(x),
            Ok((const_fields, j1)) => match counted(s, e, j1, static_entry(s, e, w)) {
                Err(x) => Err(x),
                Ok((static_fields, j2)) => match counted(s, e, j2, field_entry(s, e, w)) {
                    Err(x) => Err(x),
                    Ok((instance_fields, j3)) => Ok(
                        (
                            ClassDescriptionModel {
                                class_id: Id(id_at(s, i, w)),
                                stack_trace_serial: be32(s, i + n),
                                super_class_object_id: Id(id_at(s, i + n + 4, w)),
                                class_loader_object_id: Id(id_at(s, i + 2 * n + 4, w)),
                                signers_object_id: Id(id_at(s, i + 3 * n + 4, w)),
                                protection_domain_object_id: Id(id_at(s, i + 4 * n + 4, w)),
                                reserved1: Id(id_at(s, i + 5 * n + 4, w)),
                                reserved2: Id(id_at(s, i + 6 * n + 4, w)),
                                instance_size: be32(s, i + 7 * n + 4),
                                const_fields,
                                static_fields,
                                instance_fields,
                            },
                            j3,
                        ),
                    ),
                },
            },
        }
    }
}

pub fn read_data_20_class_dump(m: &mut Memory, id_reader: IdReader) -> (r: Result<ClassDescription, Error>)
    requires
        old(m).wf(),
        id_reader.wf(),
    ensures
        final(m).same_source(old(m)),
        outcome_view(r, final(m).pos as int) == spec_class_dump(old(m).data@, old(m).end as int, old(m).pos as int, id_reader),
{
    let class_id = id_reader.read_id(m)?;
    let stack_trace_serial = m.read_u32()?;
    let super_class_object_id = id_reader.read_id(m)?;
    let class_loader_object_id = id_reader.read_id(m)?;
    let signers_object_id = id_reader.read_id(m)?;
    let protection_domain_object_id = id_reader.read_id(m)?;
    let reserved1 = id_reader.read_id(m)?;
    let reserved2 = id_reader.read_id(m)?;
    let instance_size = m.read_u32()?;
    let const_fields = read_const_fields(m, id_reader)?;
    let static_fields = read_static_fields(m, id_reader)?;
    let instance_fields = read_instance_fields(m, id_reader)?;
    Ok(
        ClassDescription {
            class_id,
            stack_trace_serial,
            super_class_object_id,
            class_loader_object_id,
            signers_object_id,
            protection_domain_object_id,
            reserved1,
            reserved2,
            instance_size,
            const_fields,
            static_fields,
            instance_fields,
        },
    )
}

/// What decoding an instance needs of its class: the super class, and the
/// instance field descriptors in the order of the file.
pub struct ClassLayout {
    pub super_class_id: u64,
    pub fields: Vec<FieldInfo>,
}

pub ghost struct LayoutModel {
    pub super_class_id: u64,
    pub fields: Seq<FieldInfo>,
}

impl View for ClassLayout {
    type V = LayoutModel;

    open spec fn view(&self) -> LayoutModel {
        LayoutModel { super_class_id: self.super_class_id, fields: self.fields@ }
    }
}

/// The class table, each class seen through its view.
pub open spec fn table_model(t: Map<u64, ClassLayout>) -> Map<u64, LayoutModel> {
    t.map_values(|c: ClassLayout| c@)
}

/// The values of `fields`, one after the other from `j`.
pub open spec fn field_values(s: Seq<u8>, e: int, j: int, fields: Seq<FieldInfo>, w: IdReader) -> Parsed<
    Seq<(FieldInfo, FieldValue)>,
> {
    repeat(value_entry(s, e, w, fields), 0, j, fields.len())
}

/// The value of the field of index `k` at `p`, with its descriptor.
pub open spec fn value_entry_at(s: Seq<u8>, e: int, w: IdReader, fields: Seq<FieldInfo>, k: int, p: int) -> Parsed<
    (FieldInfo, FieldValue),
> {
    match p_value(s, e, p, fields[k].field_type, w) {
        Ok((v, p2)) => Ok(((fields[k], v), p2)),
        Err(x) => Err(x),
    }
}

pub open spec fn value_entry(s: Seq<u8>, e: int, w: IdReader, fields: Seq<FieldInfo>) -> spec_fn(int, int) -> Parsed<
    (FieldInfo, FieldValue),
> {
    |k: int, p: int| value_entry_at(s, e, w, fields, k, p)
}

/// The values of the instance fields of class `id` and then of its super
/// classes, up to the class of identifier 0.  A class missing from the
/// table fails; so does a chain longer than `fuel`, which must turn in a
/// cycle when `fuel` is the size of the table.
pub open spec fn chain_values(
    s: Seq<u8>,
    e: int,
    j: int,
    classes: Map<u64, LayoutModel>,
    id: u64,
    fuel: nat,
    w: IdReader,
    data_size: u32,
) -> Parsed<Seq<(FieldInfo, FieldValue)>>
    decreases fuel,
{
    if id == 0 {
        Ok((Seq::empty(), j))
    } else if !classes.contains_key(id) {
        Err(Error::UnknownClass(Id(id)))
    } else if fuel == 0 {
        Err(Error::InvalidSubpacket(TAG_GC_INSTANCE_DUMP, data_size))
    } else {
        match field_values(s, e, j, classes[id].fields, w) {
            Err(x) => Err(x),
            Ok((vs, j2)) => prepend(
                vs,
                chain_values(s, e, j2, classes, classes[id].super_class_id, (fuel - 1) as nat, w, data_size),
            ),
        }
    }
}

fn read_field_values(m: &mut Memory, fields: &Vec<FieldInfo>, w: IdReader) -> (r: Result<
    Vec<(FieldInfo, FieldValue)>,
    Error,
>)
    requires
        old(m).wf(),
        w.wf(),
    ensures
        final(m).same_source(old(m)),
        outcome_view(r, final(m).pos as int) == field_values(old(m).data@, old(m).end as int, old(m).pos as int, fields@, w),
{
    let ghost s = m.data@;
    let ghost e = m.end as int;
    let ghost entry = value_entry(s, e, w, fields@);
    let ghost j0 = m.pos as int;
    let mut v: Vec<(FieldInfo, FieldValue)> = Vec::new();
    let mut k: usize = 0;
    while k < fields.len()
        invariant
            m.same_source(old(m)),
            s == m.data@,
            e == m.end,
            w.wf(),
            entry == value_entry(s, e, w, fields@),
            j0 == old(m).pos,
            field_values(s, e, j0, fields@, w) == repeat(entry, 0, j0, fields@.len()),
            k <= fields@.len(),
            v@.len() == k,
            repeat(entry, 0, j0, fields@.len()) == prepend(v@, repeat(entry, k as int, m.pos as int, (fields@.len() - k) as nat)),
        decreases fields@.len() - k,
    {
        let ghost j = m.pos as int;
        proof {
            assert(entry(k as int, j) == value_entry_at(s, e, w, fields@, k as int, j));
            lemma_repeat_unfold(entry, k as int, j, (fields@.len() - k) as nat);
        }
        let info = fields[k];
        let value = read_type_value(m, info.field_type, w)?;
        let item = (info, value);
        let ghost before = v@;
        proof {
            assert(entry(k as int, j) == Ok::<(((FieldInfo, FieldValue), int)), Error>((item, m.pos as int)));
            lemma_prepend_join(before, seq![item], repeat(entry, k + 1, m.pos as int, (fields@.len() - k - 1) as nat));
        }
        v.push(item);
        assert(v@ =~= before + seq![item]);
        k = k + 1;
    }
    proof {
        lemma_prepend_empty(v@, m.pos as int);
    }
    Ok(v)
}

/// An instance dump: identifiers, serial, and `data_size` bytes of field
/// values, read class by class up the class chain within those bytes.
pub open spec fn spec_instance_dump(
    s: Seq<u8>,
    e: int,
    i: int,
    w: IdReader,
    classes: Map<u64, LayoutModel>,
) -> Parsed<InstanceDumpModel> {
    let n = w.id_size as int;
    let h = i + 2 * n + 8;
    if h > e {
        Err(Error::PrematureEOF)
    } else {
        let data_size = be32(s, i + 2 * n + 4);
        let class_id = id_at(s, i + n + 4, w);
        if h + data_size > e {
            Err(Error::PrematureEOF)
        } else {
            match chain_values(s, h + data_size, h, classes, class_id, classes.len(), w, data_size) {
                Err(x) => Err(x),
                Ok((values, _)) => Ok(
                    (
                        InstanceDumpModel {
                            object_id: Id(id_at(s, i, w)),
                            stack_trace_serial: be32(s, i + n),
                            class_object_id: Id(class_id),
                            data_size,
                            values,
                        },
                        h + data_size,
                    ),
                ),
            }
        }
    }
}

pub fn read_data_21_instance_dump(
    m: &mut Memory,
    id_reader: IdReader,
    class_info: &HashMap<u64, ClassLayout>,
) -> (r: Result<InstanceDump, Error>)
    requires
        old(m).wf(),
        id_reader.wf(),
    ensures
        final(m).same_source(old(m)),
        outcome_view(r, final(m).pos as int) == spec_instance_dump(old(m).data@, old(m).end as int, old(m).pos as int, id_reader, table_model(class_info@)),
{
    let ghost s = m.data@;
    let ghost classes = table_model(class_info@);
    let object_id = id_reader.read_id(m)?;
    let stack_trace_serial = m.read_u32()?;
    let class_object_id = id_reader.read_id(m)?;
    let data_size = m.read_u32()?;
    let mut sub = m.take(data_size)?;
    let ghost e = sub.end as int;
    let ghost j0 = sub.pos as int;
    let mut values: Vec<(FieldInfo, FieldValue)> = Vec::new();
    let mut current: u64 = class_object_id.0;
    let mut fuel: usize = class_info.len();
    assert(classes.dom() =~= class_info@.dom());
    let ghost whole = chain_values(s, e, j0, classes, current, fuel as nat, id_reader, data_size);
    let ghost result = match whole {
        Err(x) => Err(x),
        Ok((vals, _)) => Ok(
            (
                InstanceDumpModel { object_id, stack_trace_serial, class_object_id, data_size, values: vals },
                e,
            ),
        ),
    };
    assert(spec_instance_dump(s, old(m).end as int, old(m).pos as int, id_reader, classes) == result);
    while current != 0
        invariant
            m.same_source(old(m)),
            s == m.data@,
            spec_instance_dump(s, old(m).end as int, old(m).pos as int, id_reader, classes) == result,
            result == match whole {
                Err(x) => Err(x),
                Ok((vals, _)) => Ok(
                    (
                        InstanceDumpModel { object_id, stack_trace_serial, class_object_id, data_size, values: vals },
                        e,
                    ),
                ),
            },
            e <= m.end,
            sub.wf(),
            sub.data@ == s,
            sub.end == e,
            id_reader.wf(),
            classes == table_model(class_info@),
            whole == prepend(values@, chain_values(s, e, sub.pos as int, classes, current, fuel as nat, id_reader, data_size)),
        decreases fuel,
    {
        let layout = match class_info.get(&current) {
            Some(c) => c,
            None => {
                return Err(Error::UnknownClass(Id(current)));
            },
        };
        if fuel == 0 {
            return Err(Error::InvalidSubpacket(TAG_GC_INSTANCE_DUMP, data_size));
        }
        let ghost before = values@;
        let ghost p = sub.pos as int;
        let mut vs = read_field_values(&mut sub, &layout.fields, id_reader)?;
        proof {
            assert(classes[current] == layout@);
            lemma_prepend_join(before, vs@, chain_values(s, e, sub.pos as int, classes, layout.super_class_id, (fuel - 1) as nat, id_reader, data_size));
        }
        values.append(&mut vs);
        current = layout.super_class_id;
        fuel = fuel - 1;
    }
    proof {
        lemma_prepend_empty(values@, sub.pos as int);
    }
    m.pos = sub.end;
    Ok(InstanceDump { object_id, stack_trace_serial, class_object_id, data_size, values })
}

pub open spec fn spec_object_array(s: Seq<u8>, e: int, i: int, w: IdReader, load: bool) -> Parsed<
    ObjectArrayModel,
> {
    let n = w.id_size as int;
    let h = i + 2 * n + 8;
    if h > e {
        Err(Error::PrematureEOF)
    } else {
        let count = be32(s, i + n + 4);
        fixed(
            e,
            h,
            count * n,
            ObjectArrayModel {
                object_id: Id(id_at(s, i, w)),
                stack_trace_serial: be32(s, i + n),
                num_elements: count,
                element_class_id: Id(id_at(s, i + n + 8, w)),
                values: if load {
                    Some(ids_at(s, h, count as nat, w))
                } else {
                    None
                },
            },
        )
    }
}

pub fn read_data_22_object_array(m: &mut Memory, id_reader: IdReader, load_object_arrays: bool) -> (r: Result<
    ObjectArrayDump,
    Error,
>)
    requires
        old(m).wf(),
        id_reader.wf(),
    ensures
        final(m).same_source(old(m)),
        outcome_view(r, final(m).pos as int) == spec_object_array(old(m).data@, old(m).end as int, old(m).pos as int, id_reader, load_object_arrays),
{
    let object_id = id_reader.read_id(m)?;
    let stack_trace_serial = m.read_u32()?;
    let num_elements = m.read_u32()?;
    let element_class_id = id_reader.read_id(m)?;
    proof {
        lemma_count_times_width(num_elements, id_reader.id_size);
    }
    let total = (num_elements as u64) * (id_reader.id_size as u64);
    if total > m.remaining() as u64 {
        return Err(Error::PrematureEOF);
    }
    let values = if load_object_arrays {
        Some(read_ids(m, id_reader, num_elements))
    } else {
        m.skip(total)?;
        None
    };
    Ok(ObjectArrayDump { object_id, stack_trace_serial, num_elements, element_class_id, values })
}

/// `count` elements of primitive kind `t`, one after the other from `j`.
pub open spec fn array_at(s: Seq<u8>, j: int, count: nat, t: FieldType) -> ArrayModel {
    match t {
        FieldType::Bool => ArrayModel::Bool(Seq::new(count, |k: int| s[j + k] != 0)),
        FieldType::Byte => ArrayModel::Byte(Seq::new(count, |k: int| s[j + k] as i8)),
        FieldType::Char => ArrayModel::Char(Seq::new(count, |k: int| be16(s, j + 2 * k))),
        FieldType::Short => ArrayModel::Short(Seq::new(count, |k: int| be16(s, j + 2 * k) as i16)),
        FieldType::Int => ArrayModel::Int(Seq::new(count, |k: int| be32(s, j + 4 * k) as i32)),
        FieldType::Float => ArrayModel::Float(Seq::new(count, |k: int| be32(s, j + 4 * k))),
        FieldType::Long => ArrayModel::Long(Seq::new(count, |k: int| be64(s, j + 8 * k) as i64)),
        FieldType::Double => ArrayModel::Double(Seq::new(count, |k: int| be64(s, j + 8 * k))),
        FieldType::Object => ArrayModel::Object(Seq::empty()),
    }
}

pub open spec fn spec_primitive_array(s: Seq<u8>, e: int, i: int, w: IdReader, load: bool) -> Parsed<
    PrimitiveArrayModel,
> {
    let n = w.id_size as int;
    let h = i + n + 9;
    if h > e {
        Err(Error::PrematureEOF)
    } else {
        let count = be32(s, i + n + 4);
        match field_type_of(s[i + n + 8]) {
            None => Err(Error::InvalidField(MSG_FIELD_TYPE)),
            Some(t) => match primitive_size(t) {
                None => Err(Error::InvalidField(MSG_OBJECT_ARRAY)),
                Some(size) => fixed(
                    e,
                    h,
                    count * size,
                    PrimitiveArrayModel {
                        object_id: Id(id_at(s, i, w)),
                        stack_trace_serial: be32(s, i + n),
                        num_elements: count,
                        elem_type: t,
                        values: if load {
                            Some(array_at(s, h, count as nat, t))
                        } else {
                            None
                        },
                    },
                ),
            },
        }
    }
}

/// Reads `count` elements of kind `t`, which fit before the bound, so that
/// every read succeeds.
fn read_array(m: &mut Memory, t: FieldType, count: u32, size: u64) -> (r: ArrayValue)
    requires
        old(m).wf(),
        primitive_size(t) == Some(size),
        old(m).pos + count * size <= old(m).end,
    ensures
        final(m).same_source(old(m)),
        final(m).pos == old(m).pos + count * size,
        r@ == array_at(old(m).data@, old(m).pos as int, count as nat, t),
{
    let ghost s = m.data@;
    let ghost j = m.pos as int;
    let ghost sz = size as int;
    match t {
        FieldType::Bool => {
            let mut v: Vec<bool> = Vec::new();
            let mut k: u32 = 0;
            while k < count
                invariant
                    m.same_source(old(m)), s == m.data@, k <= count, j + count * sz <= m.end, sz == 1,
                    m.pos == j + k * sz,
                    v@ =~= Seq::new(k as nat, |x: int| s[j + x] != 0),
                decreases count - k,
            {
                proof { lemma_step_fits(j, k as int, count as int, sz, m.end as int); }
                let b = m.read_u8();
                if let Ok(b) = b { v.push(b != 0); }
                k = k + 1;
            }
            ArrayValue::Bool(v)
        },
        FieldType::Byte => {
            let mut v: Vec<i8> = Vec::new();
            let mut k: u32 = 0;
            while k < count
                invariant
                    m.same_source(old(m)), s == m.data@, k <= count, j + count * sz <= m.end, sz == 1,
                    m.pos == j + k * sz,
                    v@ =~= Seq::new(k as nat, |x: int| s[j + x] as i8),
                decreases count - k,
            {
                proof { lemma_step_fits(j, k as int, count as int, sz, m.end as int); }
                let b = m.read_u8();
                if let Ok(b) = b { v.push(b as i8); }
                k = k + 1;
            }
            ArrayValue::Byte(v)
        },
        FieldType::Char => {
            let mut v: Vec<u16> = Vec::new();
            let mut k: u32 = 0;
            while k < count
                invariant
                    m.same_source(old(m)), s == m.data@, k <= count, j + count * sz <= m.end, sz == 2,
                    m.pos == j + k * sz,
                    v@ =~= Seq::new(k as nat, |x: int| be16(s, j + 2 * x)),
                decreases count - k,
            {
                proof { lemma_step_fits(j, k as int, count as int, sz, m.end as int); }
                let b = m.read_u16();
                if let Ok(b) = b { v.push(b); }
                k = k + 1;
            }
            ArrayValue::Char(v)
        },
        FieldType::Short => {
            let mut v: Vec<i16> = Vec::new();
            let mut k: u32 = 0;
            while k < count
                invariant
                    m.same_source(old(m)), s == m.data@, k <= count, j + count * sz <= m.end, sz == 2,
                    m.pos == j + k * sz,
                    v@ =~= Seq::new(k as nat, |x: int| be16(s, j + 2 * x) as i16),
                decreases count - k,
            {
                proof { lemma_step_fits(j, k as int, count as int, sz, m.end as int); }
                let b = m.read_u16();
                if let Ok(b) = b { v.push(b as i16); }
                k = k + 1;
            }
            ArrayValue::Short(v)
        },
        FieldType::Int => {
            let mut v: Vec<i32> = Vec::new();
            let mut k: u32 = 0;
            while k < count
                invariant
                    m.same_source(old(m)), s == m.data@, k <= count, j + count * sz <= m.end, sz == 4,
                    m.pos == j + k * sz,
                    v@ =~= Seq::new(k as nat, |x: int| be32(s, j + 4 * x) as i32),
                decreases count - k,
            {
                proof { lemma_step_fits(j, k as int, count as int, sz, m.end as int); }
                let b = m.read_u32();
                if let Ok(b) = b { v.push(b as i32); }
                k = k + 1;
            }
            ArrayValue::Int(v)
        },
        FieldType::Float => {
            let mut v: Vec<u32> = Vec::new();
            let mut k: u32 = 0;
            while k < count
                invariant
                    m.same_source(old(m)), s == m.data@, k <= count, j + count * sz <= m.end, sz == 4,
                    m.pos == j + k * sz,
                    v@ =~= Seq::new(k as nat, |x: int| be32(s, j + 4 * x)),
                decreases count - k,
            {
                proof { lemma_step_fits(j, k as int, count as int, sz, m.end as int); }
                let b = m.read_u32();
                if let Ok(b) = b { v.push(b); }
                k = k + 1;
            }
            ArrayValue::Float(v)
        },
        FieldType::Long => {
            let mut v: Vec<i64> = Vec::new();
            let mut k: u32 = 0;
            while k < count
                invariant
                    m.same_source(old(m)), s == m.data@, k <= count, j + count * sz <= m.end, sz == 8,
                    m.pos == j + k * sz,
                    v@ =~= Seq::new(k as nat, |x: int| be64(s, j + 8 * x) as i64),
                decreases count - k,
            {
                proof { lemma_step_fits(j, k as int, count as int, sz, m.end as int); }
                let b = m.read_u64();
                if let Ok(b) = b { v.push(b as i64); }
                k = k + 1;
            }
            ArrayValue::Long(v)
        },
        FieldType::Double => {
            let mut v: Vec<u64> = Vec::new();
            let mut k: u32 = 0;
            while k < count
                invariant
                    m.same_source(old(m)), s == m.data@, k <= count, j + count * sz <= m.end, sz == 8,
                    m.pos == j + k * sz,
                    v@ =~= Seq::new(k as nat, |x: int| be64(s, j + 8 * x)),
                decreases count - k,
            {
                proof { lemma_step_fits(j, k as int, count as int, sz, m.end as int); }
                let b = m.read_u64();
                if let Ok(b) = b { v.push(b); }
                k = k + 1;
            }
            ArrayValue::Double(v)
        },
        FieldType::Object => ArrayValue::Object(Vec::new()),
    }
}

pub fn read_data_23_primitive_array(m: &mut Memory, id_reader: IdReader, load_primitive_arrays: bool) -> (r: Result<
    PrimitiveArrayDump,
    Error,
>)
    requires
        old(m).wf(),
        id_reader.wf(),
    ensures
        final(m).same_source(old(m)),
        outcome_view(r, final(m).pos as int) == spec_primitive_array(old(m).data@, old(m).end as int, old(m).pos as int, id_reader, load_primitive_arrays),
{
    let object_id = id_reader.read_id(m)?;
    let stack_trace_serial = m.read_u32()?;
    let num_elements = m.read_u32()?;
    let elem_type = read_field_type(m)?;
    let size = elem_type.byte_size()?;
    proof {
        lemma_count_times_width(num_elements, size as u32);
    }
    let total = (num_elements as u64) * size;
    if total > m.remaining() as u64 {
        return Err(Error::PrematureEOF);
    }
    let values = if load_primitive_arrays {
        Some(read_array(m, elem_type, num_elements, size))
    } else {
        m.skip(total)?;
        None
    };
    Ok(PrimitiveArrayDump { object_id, stack_trace_serial, num_elements, elem_type, values })
}

} // verus!
