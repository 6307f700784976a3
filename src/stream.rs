//! The record stream: header parsing, and the state machine that alternates
//! between top-level records and the subrecords of heap-dump segments.
use crate::decl::{
    DumpRecord, Error, Record, Ts, TAG_ALLOC_SITES, TAG_END_THREAD, TAG_GC_CLASS_DUMP,
    TAG_GC_INSTANCE_DUMP, TAG_GC_OBJ_ARRAY_DUMP, TAG_GC_PRIM_ARRAY_DUMP, TAG_GC_ROOT_JAVA_FRAME,
    TAG_GC_ROOT_JNI_GLOBAL, TAG_GC_ROOT_JNI_LOCAL, TAG_GC_ROOT_MONITOR_USED,
    TAG_GC_ROOT_NATIVE_STACK, TAG_GC_ROOT_STICKY_CLASS, TAG_GC_ROOT_THREAD_BLOCK,
    TAG_GC_ROOT_THREAD_OBJ, TAG_GC_ROOT_UNKNOWN, TAG_HEAP_DUMP, TAG_HEAP_DUMP_END,
    TAG_HEAP_DUMP_SEGMENT, TAG_HEAP_SUMMARY, TAG_LOAD_CLASS, TAG_STACK_FRAME, TAG_STACK_TRACE,
    TAG_START_THREAD, TAG_STRING, TAG_UNLOAD_CLASS,
};
use crate::decl::FieldInfo;
use crate::model::{DumpModel, RecordModel};
use crate::reader::{map_parsed, outcome_view, Memory, Parsed};
use crate::records::{
    read_01_string, read_02_load_class, read_03_unload_class, read_04_frame, read_05_trace,
    read_06_alloc_sites, read_07_heap_summary, read_0a_start_thread, read_0b_end_thread,
    read_data_01_root_jni_global, read_data_02_root_jni_local, read_data_03_root_java_frame,
    read_data_04_root_native_stack, read_data_05_root_sticky_class,
    read_data_06_root_thread_block, read_data_07_root_monitor_used, read_data_08_root_thread_obj,
    read_data_20_class_dump, read_data_21_instance_dump, read_data_22_object_array,
    read_data_23_primitive_array, read_data_ff_root_unknown, spec_alloc_sites, spec_class_dump,
    spec_end_thread, spec_frame, spec_heap_summary, spec_instance_dump, spec_load_class,
    spec_object_array, spec_primitive_array, spec_root, spec_start_thread, spec_string,
    spec_trace, spec_unload_class, table_model, ByteOrder, ClassLayout, IdReader, LayoutModel,
};
use crate::wire::{be32, utf8_decoded, utf8_string};
use std::collections::HashMap;
use vstd::prelude::*;

verus! {

broadcast use vstd::std_specs::hash::group_hash_axioms;

/// How to decode a file: the byte order of identifiers, and whether the
/// elements of arrays are loaded or skipped.
pub struct StreamHprofReader {
    pub id_byteorder: ByteOrder,
    pub load_primitive_arrays: bool,
    pub load_object_arrays: bool,
}

/// Where the decoder stands: done, inside a heap-dump segment (its
/// timestamp, the position, and the end of the segment), or between
/// top-level records (the position).
#[derive(Clone, Copy, Debug, PartialEq, Eq, Structural)]
pub enum IteratorState {
    Eof,
    InData(Ts, usize, usize),
    InNormal(usize),
}

impl Default for IteratorState {
    fn default() -> (r: Self)
        ensures
            r == IteratorState::Eof,
    {
        IteratorState::Eof
    }
}

impl IteratorState {
    /// Moves the state out, leaving `Eof` behind.
    pub fn take(&mut self) -> (r: Self)
        ensures
            r == *old(self),
            *final(self) == IteratorState::Eof,
    {
        let r = *self;
        *self = IteratorState::Eof;
        r
    }
}

/// Tags of the top-level records that carry data of their own.
pub open spec fn is_record_tag(tag: u8) -> bool {
    tag == TAG_STRING || tag == TAG_LOAD_CLASS || tag == TAG_UNLOAD_CLASS || tag == TAG_STACK_FRAME
        || tag == TAG_STACK_TRACE || tag == TAG_ALLOC_SITES || tag == TAG_HEAP_SUMMARY || tag
        == TAG_START_THREAD || tag == TAG_END_THREAD
}

/// Absolute time of a record: the base plus the delta, modulo 2^64.
pub open spec fn record_time(base: u64, delta: u32) -> u64 {
    if base + delta > u64::MAX {
        (base + delta - 0x1_0000_0000_0000_0000) as u64
    } else {
        (base + delta) as u64
    }
}

/// The top-level record of tag `tag` whose body starts at `q`.
#[verifier::opaque]
pub open spec fn spec_top_record(s: Seq<u8>, e: int, q: int, tag: u8, size: u32, w: IdReader) -> Parsed<
    RecordModel,
> {
    if tag == TAG_STRING {
        map_parsed(spec_string(s, e, q, w, size), |v: (crate::decl::Id, Seq<u8>)| RecordModel::String(v.0, v.1))
    } else if tag == TAG_LOAD_CLASS {
        map_parsed(spec_load_class(s, e, q, w), |r| RecordModel::LoadClass(r))
    } else if tag == TAG_UNLOAD_CLASS {
        map_parsed(spec_unload_class(s, e, q), |r| RecordModel::UnloadClass(r))
    } else if tag == TAG_STACK_FRAME {
        map_parsed(spec_frame(s, e, q, w), |r| RecordModel::StackFrame(r))
    } else if tag == TAG_STACK_TRACE {
        map_parsed(spec_trace(s, e, q, w), |r| RecordModel::StackTrace(r))
    } else if tag == TAG_ALLOC_SITES {
        map_parsed(spec_alloc_sites(s, e, q), |r| RecordModel::AllocSites(r))
    } else if tag == TAG_HEAP_SUMMARY {
        map_parsed(spec_heap_summary(s, e, q), |r| RecordModel::HeapSummary(r))
    } else if tag == TAG_START_THREAD {
        map_parsed(spec_start_thread(s, e, q, w), |r| RecordModel::StartThread(r))
    } else {
        map_parsed(spec_end_thread(s, e, q), |r| RecordModel::EndThread(r))
    }
}

pub open spec fn is_root_tag(tag: u8) -> bool {
    tag == TAG_GC_ROOT_UNKNOWN || tag == TAG_GC_ROOT_JNI_GLOBAL || tag == TAG_GC_ROOT_JNI_LOCAL
        || tag == TAG_GC_ROOT_JAVA_FRAME || tag == TAG_GC_ROOT_NATIVE_STACK || tag
        == TAG_GC_ROOT_STICKY_CLASS || tag == TAG_GC_ROOT_THREAD_BLOCK || tag
        == TAG_GC_ROOT_MONITOR_USED || tag == TAG_GC_ROOT_THREAD_OBJ
}

/// The subrecord of tag `tag` whose body starts at `q`, within a segment
/// that ends at `e`.
#[verifier::opaque]
pub open spec fn spec_subrecord(
    s: Seq<u8>,
    e: int,
    q: int,
    tag: u8,
    w: IdReader,
    classes: Map<u64, LayoutModel>,
    load_primitive_arrays: bool,
    load_object_arrays: bool,
) -> Parsed<DumpModel> {
    if is_root_tag(tag) {
        spec_root(s, e, q, w, tag)
    } else if tag == TAG_GC_CLASS_DUMP {
        map_parsed(spec_class_dump(s, e, q, w), |c| DumpModel::ClassDump(c))
    } else if tag == TAG_GC_INSTANCE_DUMP {
        map_parsed(spec_instance_dump(s, e, q, w, classes), |d| DumpModel::InstanceDump(d))
    } else if tag == TAG_GC_OBJ_ARRAY_DUMP {
        map_parsed(spec_object_array(s, e, q, w, load_object_arrays), |a| DumpModel::ObjectArrayDump(a))
    } else if tag == TAG_GC_PRIM_ARRAY_DUMP {
        map_parsed(
            spec_primitive_array(s, e, q, w, load_primitive_arrays),
            |a| DumpModel::PrimitiveArrayDump(a),
        )
    } else {
        Err(Error::UnknownSubpacket(tag))
    }
}

/// The class table after a subrecord: a class dump enters its class.
pub open spec fn with_class(classes: Map<u64, LayoutModel>, d: DumpModel) -> Map<u64, LayoutModel> {
    match d {
        DumpModel::ClassDump(c) => classes.insert(
            c.class_id.0,
            LayoutModel { super_class_id: c.super_class_object_id.0, fields: c.instance_fields },
        ),
        _ => classes,
    }
}

/// One move of the decoder: its next state and class table, and the item
/// it yields, if any.
pub ghost struct Step {
    pub state: IteratorState,
    pub classes: Map<u64, LayoutModel>,
    pub item: Option<Result<(Ts, RecordModel), Error>>,
}

pub open spec fn fail(x: Error, classes: Map<u64, LayoutModel>) -> Step {
    Step { state: IteratorState::Eof, classes, item: Some(Err(x)) }
}

/// A move between top-level records, at position `p`.
#[verifier::opaque]
pub open spec fn step_top(s: Seq<u8>, base: Ts, p: int, classes: Map<u64, LayoutModel>, w: IdReader) -> Step {
    let len = s.len() as int;
    if p >= len {
        Step { state: IteratorState::Eof, classes, item: None }
    } else if p + 9 > len {
        fail(Error::PrematureEOF, classes)
    } else {
        let tag = s[p];
        let ts = record_time(base, be32(s, p + 1));
        let size = be32(s, p + 5);
        let q = p + 9;
        if is_record_tag(tag) {
            match spec_top_record(s, len, q, tag, size, w) {
                Ok((r, j)) => Step { state: IteratorState::InNormal(j as usize), classes, item: Some(Ok((ts, r))) },
                Err(x) => fail(x, classes),
            }
        } else if tag == TAG_HEAP_DUMP || tag == TAG_HEAP_DUMP_SEGMENT {
            if q + size > len {
                fail(Error::PrematureEOF, classes)
            } else {
                Step { state: IteratorState::InData(ts, q as usize, (q + size) as usize), classes, item: None }
            }
        } else if tag == TAG_HEAP_DUMP_END {
            Step { state: IteratorState::InNormal(q as usize), classes, item: None }
        } else {
            fail(Error::UnknownPacket(tag, size), classes)
        }
    }
}

/// A move inside a heap-dump segment of timestamp `ts`, at position `p`,
/// the segment ending at `e`.
#[verifier::opaque]
pub open spec fn step_data(
    s: Seq<u8>,
    ts: Ts,
    p: int,
    e: int,
    classes: Map<u64, LayoutModel>,
    w: IdReader,
    load_primitive_arrays: bool,
    load_object_arrays: bool,
) -> Step {
    if p >= e {
        Step { state: IteratorState::InNormal(e as usize), classes, item: None }
    } else {
        match spec_subrecord(s, e, p + 1, s[p], w, classes, load_primitive_arrays, load_object_arrays) {
            Err(x) => fail(x, classes),
            Ok((d, j)) => Step {
                state: IteratorState::InData(ts, j as usize, e as usize),
                classes: with_class(classes, d),
                item: Some(Ok((ts, RecordModel::Dump(d)))),
            },
        }
    }
}

pub open spec fn spec_step(
    s: Seq<u8>,
    base: Ts,
    st: IteratorState,
    classes: Map<u64, LayoutModel>,
    w: IdReader,
    load_primitive_arrays: bool,
    load_object_arrays: bool,
) -> Step {
    match st {
        IteratorState::Eof => Step { state: IteratorState::Eof, classes, item: None },
        IteratorState::InNormal(p) => step_top(s, base, p as int, classes, w),
        IteratorState::InData(ts, p, e) => step_data(
            s,
            ts,
            p as int,
            e as int,
            classes,
            w,
            load_primitive_arrays,
            load_object_arrays,
        ),
    }
}

/// Bytes left to the decoder, counted so that every move lowers it.
pub open spec fn measure(st: IteratorState, len: int) -> int {
    match st {
        IteratorState::Eof => 0,
        IteratorState::InNormal(p) => 2 * (len - p) + 1,
        IteratorState::InData(_, p, _) => 2 * (len - p) + 2,
    }
}

/// The positions of a state lie within the input, a segment within it.
pub open spec fn state_wf(st: IteratorState, len: int) -> bool {
    match st {
        IteratorState::Eof => true,
        IteratorState::InNormal(p) => p <= len,
        IteratorState::InData(_, p, e) => p <= e <= len,
    }
}

/// A poll: moves until an item comes or the input ends.
pub open spec fn spec_next(
    s: Seq<u8>,
    base: Ts,
    st: IteratorState,
    classes: Map<u64, LayoutModel>,
    w: IdReader,
    load_primitive_arrays: bool,
    load_object_arrays: bool,
) -> Step
    decreases measure(st, s.len() as int),
{
    let r = spec_step(s, base, st, classes, w, load_primitive_arrays, load_object_arrays);
    if r.item is None && r.state != IteratorState::Eof && 0 <= measure(r.state, s.len() as int) < measure(
        st,
        s.len() as int,
    ) {
        spec_next(s, base, r.state, r.classes, w, load_primitive_arrays, load_object_arrays)
    } else {
        r
    }
}

/// A move that yields nothing and does not end keeps the positions within
/// the input and lowers the measure.
pub proof fn lemma_step_continue(
    s: Seq<u8>,
    base: Ts,
    st: IteratorState,
    classes: Map<u64, LayoutModel>,
    w: IdReader,
    load_primitive_arrays: bool,
    load_object_arrays: bool,
)
    requires
        s.len() <= usize::MAX,
        state_wf(st, s.len() as int),
        spec_step(s, base, st, classes, w, load_primitive_arrays, load_object_arrays).item is None,
        spec_step(s, base, st, classes, w, load_primitive_arrays, load_object_arrays).state
            != IteratorState::Eof,
    ensures
        ({
            let next = spec_step(s, base, st, classes, w, load_primitive_arrays, load_object_arrays).state;
            state_wf(next, s.len() as int) && 0 <= measure(next, s.len() as int) < measure(st, s.len() as int)
        }),
{
    reveal(step_top);
    reveal(step_data);
    let len = s.len() as int;
    match st {
        IteratorState::Eof => {},
        IteratorState::InNormal(p) => {},
        IteratorState::InData(ts, p, e) => {},
    }
}

/// An item seen through the views of its record.
pub open spec fn item_view<'a>(x: Option<Result<(Ts, Record<&'a [u8]>), Error>>) -> Option<
    Result<(Ts, RecordModel), Error>,
> {
    match x {
        None => None,
        Some(Ok((ts, r))) => Some(Ok((ts, r@))),
        Some(Err(e)) => Some(Err(e)),
    }
}

fn read_top_record<'a>(m: &mut Memory<'a>, tag: u8, size: u32, w: IdReader) -> (r: Result<
    Record<&'a [u8]>,
    Error,
>)
    requires
        old(m).wf(),
        w.wf(),
        is_record_tag(tag),
    ensures
        final(m).same_source(old(m)),
        outcome_view(r, final(m).pos as int) == spec_top_record(old(m).data@, old(m).end as int, old(m).pos as int, tag, size, w),
{
    reveal(spec_top_record);
    if tag == TAG_STRING {
        let (id, b) = read_01_string(m, w, size)?;
        Ok(Record::String(id, b))
    } else if tag == TAG_LOAD_CLASS {
        Ok(Record::LoadClass(read_02_load_class(m, w)?))
    } else if tag == TAG_UNLOAD_CLASS {
        Ok(Record::UnloadClass(read_03_unload_class(m)?))
    } else if tag == TAG_STACK_FRAME {
        Ok(Record::StackFrame(read_04_frame(m, w)?))
    } else if tag == TAG_STACK_TRACE {
        Ok(Record::StackTrace(read_05_trace(m, w)?))
    } else if tag == TAG_ALLOC_SITES {
        Ok(Record::AllocSites(read_06_alloc_sites(m)?))
    } else if tag == TAG_HEAP_SUMMARY {
        Ok(Record::HeapSummary(read_07_heap_summary(m)?))
    } else if tag == TAG_START_THREAD {
        Ok(Record::StartThread(read_0a_start_thread(m, w)?))
    } else {
        Ok(Record::EndThread(read_0b_end_thread(m)?))
    }
}

fn read_subrecord(
    m: &mut Memory,
    tag: u8,
    w: IdReader,
    class_info: &HashMap<u64, ClassLayout>,
    load_primitive_arrays: bool,
    load_object_arrays: bool,
) -> (r: Result<DumpRecord, Error>)
    requires
        old(m).wf(),
        w.wf(),
    ensures
        final(m).same_source(old(m)),
        outcome_view(r, final(m).pos as int) == spec_subrecord(old(m).data@, old(m).end as int, old(m).pos as int, tag, w, table_model(class_info@), load_primitive_arrays, load_object_arrays),
{
    reveal(spec_subrecord);
    if tag == TAG_GC_ROOT_UNKNOWN {
        read_data_ff_root_unknown(m, w)
    } else if tag == TAG_GC_ROOT_JNI_GLOBAL {
        read_data_01_root_jni_global(m, w)
    } else if tag == TAG_GC_ROOT_JNI_LOCAL {
        read_data_02_root_jni_local(m, w)
    } else if tag == TAG_GC_ROOT_JAVA_FRAME {
        read_data_03_root_java_frame(m, w)
    } else if tag == TAG_GC_ROOT_NATIVE_STACK {
        read_data_04_root_native_stack(m, w)
    } else if tag == TAG_GC_ROOT_STICKY_CLASS {
        read_data_05_root_sticky_class(m, w)
    } else if tag == TAG_GC_ROOT_THREAD_BLOCK {
        read_data_06_root_thread_block(m, w)
    } else if tag == TAG_GC_ROOT_MONITOR_USED {
        read_data_07_root_monitor_used(m, w)
    } else if tag == TAG_GC_ROOT_THREAD_OBJ {
        read_data_08_root_thread_obj(m, w)
    } else if tag == TAG_GC_CLASS_DUMP {
        Ok(DumpRecord::ClassDump(read_data_20_class_dump(m, w)?))
    } else if tag == TAG_GC_INSTANCE_DUMP {
        Ok(DumpRecord::InstanceDump(read_data_21_instance_dump(m, w, class_info)?))
    } else if tag == TAG_GC_OBJ_ARRAY_DUMP {
        Ok(DumpRecord::ObjectArrayDump(read_data_22_object_array(m, w, load_object_arrays)?))
    } else if tag == TAG_GC_PRIM_ARRAY_DUMP {
        Ok(DumpRecord::PrimitiveArrayDump(read_data_23_primitive_array(m, w, load_primitive_arrays)?))
    } else {
        Err(Error::UnknownSubpacket(tag))
    }
}

fn copy_fields(v: &Vec<FieldInfo>) -> (r: Vec<FieldInfo>)
    ensures
        r@ == v@,
{
    let mut r: Vec<FieldInfo> = Vec::new();
    let mut k: usize = 0;
    while k < v.len()
        invariant
            k <= v@.len(),
            r@ =~= v@.subrange(0, k as int),
        decreases v@.len() - k,
    {
        r.push(v[k]);
        k = k + 1;
    }
    assert(r@ =~= v@);
    r
}

/// The outcome of one move: go on moving, or hand this to the caller.
enum Poll<'a> {
    Continue,
    Ready(Option<Result<(Ts, Record<&'a [u8]>), Error>>),
}

/// The decoder over an input that each poll hands in again: its state, the
/// class table, and the settings read from the header.
pub struct StreamHprofIterator {
    pub timestamp: Ts,
    state: IteratorState,
    class_info: HashMap<u64, ClassLayout>,
    id_reader: IdReader,
    load_primitive_arrays: bool,
    load_object_arrays: bool,
    len: usize,
}

impl StreamHprofIterator {
    pub closed spec fn base(&self) -> Ts {
        self.timestamp
    }

    pub closed spec fn state(&self) -> IteratorState {
        self.state
    }

    pub closed spec fn classes(&self) -> Map<u64, LayoutModel> {
        table_model(self.class_info@)
    }

    pub closed spec fn id_reader(&self) -> IdReader {
        self.id_reader
    }

    pub closed spec fn loads_primitive_arrays(&self) -> bool {
        self.load_primitive_arrays
    }

    pub closed spec fn loads_object_arrays(&self) -> bool {
        self.load_object_arrays
    }

    /// Length of the input that the decoder walks.
    pub closed spec fn input_len(&self) -> nat {
        self.len as nat
    }

    pub closed spec fn wf(&self) -> bool {
        &&& self.id_reader.wf()
        &&& state_wf(self.state, self.len as int)
    }

    /// What one move from here does on input `s`.
    pub open spec fn spec_step_on(&self, s: Seq<u8>) -> Step {
        spec_step(s, self.base(), self.state(), self.classes(), self.id_reader(), self.loads_primitive_arrays(), self.loads_object_arrays())
    }

    /// What one poll from here does on input `s`.
    pub open spec fn spec_next_on(&self, s: Seq<u8>) -> Step {
        spec_next(s, self.base(), self.state(), self.classes(), self.id_reader(), self.loads_primitive_arrays(), self.loads_object_arrays())
    }

    /// The same decoder, moved on: same settings and input.
    pub open spec fn moved_on_from(&self, old: &StreamHprofIterator) -> bool {
        &&& self.wf()
        &&& self.base() == old.base()
        &&& self.id_reader() == old.id_reader()
        &&& self.loads_primitive_arrays() == old.loads_primitive_arrays()
        &&& self.loads_object_arrays() == old.loads_object_arrays()
        &&& self.input_len() == old.input_len()
    }

    /// Polls the decoder on `data`, the input it was opened on: the next
    /// record with its timestamp, an error, or `None` at the end.
    pub fn next_from<'a>(&mut self, data: &'a [u8]) -> (r: Option<Result<(Ts, Record<&'a [u8]>), Error>>)
        requires
            old(self).wf(),
            data@.len() == old(self).input_len(),
        ensures
            final(self).moved_on_from(old(self)),
            final(self).state() == old(self).spec_next_on(data@).state,
            final(self).classes() == old(self).spec_next_on(data@).classes,
            item_view(r) == old(self).spec_next_on(data@).item,
    {
        let ghost whole = old(self).spec_next_on(data@);
        loop
            invariant
                self.moved_on_from(old(self)),
                data@.len() == self.input_len(),
                self.spec_next_on(data@) == whole,
                whole == old(self).spec_next_on(data@),
            decreases measure(self.state(), data@.len() as int),
        {
            let ghost st = self.state();
            let ghost old_classes = self.classes();
            let ghost r_spec = self.spec_step_on(data@);
            assert(whole == (if r_spec.item is None && r_spec.state != IteratorState::Eof && 0 <= measure(r_spec.state, data@.len() as int) < measure(st, data@.len() as int) {
                spec_next(data@, self.base(), r_spec.state, r_spec.classes, self.id_reader(), self.loads_primitive_arrays(), self.loads_object_arrays())
            } else {
                r_spec
            }));
            match self.step(data) {
                Poll::Continue => {
                    proof {
                        lemma_step_continue(data@, self.base(), st, old_classes, self.id_reader(), self.loads_primitive_arrays(), self.loads_object_arrays());
                    }
                },
                Poll::Ready(x) => {
                    return x;
                },
            }
        }
    }

    /// The spec of one move, on the state and table that the decoder had.
    spec fn ready_or_continue<'a>(r: Poll<'a>, st: Step) -> bool {
        match r {
            Poll::Continue => st.item is None && st.state != IteratorState::Eof,
            Poll::Ready(x) => item_view(x) == st.item && (x is Some || st.state == IteratorState::Eof),
        }
    }

    fn step<'a>(&mut self, data: &'a [u8]) -> (r: Poll<'a>)
        requires
            old(self).wf(),
            data@.len() == old(self).input_len(),
        ensures
            final(self).moved_on_from(old(self)),
            final(self).state() == old(self).spec_step_on(data@).state,
            final(self).classes() == old(self).spec_step_on(data@).classes,
            Self::ready_or_continue(r, old(self).spec_step_on(data@)),
    {
        match self.state.take() {
            IteratorState::Eof => Poll::Ready(None),
            IteratorState::InNormal(p) => self.step_top(data, p),
            IteratorState::InData(ts, p, e) => self.step_data(data, ts, p, e),
        }
    }

    fn step_top<'a>(&mut self, data: &'a [u8], p: usize) -> (r: Poll<'a>)
        requires
            old(self).wf(),
            data@.len() == old(self).input_len(),
            old(self).state() == IteratorState::Eof,
            p <= data@.len(),
        ensures
            final(self).moved_on_from(old(self)),
            final(self).state() == step_top(data@, old(self).base(), p as int, old(self).classes(), old(self).id_reader()).state,
            final(self).classes() == step_top(data@, old(self).base(), p as int, old(self).classes(), old(self).id_reader()).classes,
            Self::ready_or_continue(r, step_top(data@, old(self).base(), p as int, old(self).classes(), old(self).id_reader())),
    {
        reveal(step_top);
        let w = self.id_reader;
        let mut m = Memory::new(data, p, self.len);
        let tag = match m.try_read_u8() {
            Some(t) => t,
            None => {
                return Poll::Ready(None);
            },
        };
        let delta = match m.read_u32() {
            Ok(v) => v,
            Err(x) => {
                return Poll::Ready(Some(Err(x)));
            },
        };
        let payload_size = match m.read_u32() {
            Ok(v) => v,
            Err(x) => {
                return Poll::Ready(Some(Err(x)));
            },
        };
        let timestamp = self.timestamp.wrapping_add(delta as u64);
        if tag == TAG_STRING || tag == TAG_LOAD_CLASS || tag == TAG_UNLOAD_CLASS || tag
            == TAG_STACK_FRAME || tag == TAG_STACK_TRACE || tag == TAG_ALLOC_SITES || tag
            == TAG_HEAP_SUMMARY || tag == TAG_START_THREAD || tag == TAG_END_THREAD {
            match read_top_record(&mut m, tag, payload_size, w) {
                Ok(r) => {
                    self.state = IteratorState::InNormal(m.pos);
                    Poll::Ready(Some(Ok((timestamp, r))))
                },
                Err(x) => Poll::Ready(Some(Err(x))),
            }
        } else if tag == TAG_HEAP_DUMP || tag == TAG_HEAP_DUMP_SEGMENT {
            match m.take(payload_size) {
                Ok(t) => {
                    self.state = IteratorState::InData(timestamp, t.pos, t.end);
                    Poll::Continue
                },
                Err(x) => Poll::Ready(Some(Err(x))),
            }
        } else if tag == TAG_HEAP_DUMP_END {
            self.state = IteratorState::InNormal(m.pos);
            Poll::Continue
        } else {
            Poll::Ready(Some(Err(Error::UnknownPacket(tag, payload_size))))
        }
    }

    fn step_data<'a>(&mut self, data: &'a [u8], ts: Ts, p: usize, e: usize) -> (r: Poll<'a>)
        requires
            old(self).wf(),
            data@.len() == old(self).input_len(),
            old(self).state() == IteratorState::Eof,
            p <= e <= data@.len(),
        ensures
            final(self).moved_on_from(old(self)),
            final(self).state() == step_data(data@, ts, p as int, e as int, old(self).classes(), old(self).id_reader(), old(self).loads_primitive_arrays(), old(self).loads_object_arrays()).state,
            final(self).classes() == step_data(data@, ts, p as int, e as int, old(self).classes(), old(self).id_reader(), old(self).loads_primitive_arrays(), old(self).loads_object_arrays()).classes,
            Self::ready_or_continue(r, step_data(data@, ts, p as int, e as int, old(self).classes(), old(self).id_reader(), old(self).loads_primitive_arrays(), old(self).loads_object_arrays())),
    {
        reveal(step_data);
        let mut m = Memory::new(data, p, e);
        let tag = match m.try_read_u8() {
            Some(t) => t,
            None => {
                self.state = IteratorState::InNormal(e);
                return Poll::Continue;
            },
        };
        match read_subrecord(&mut m, tag, self.id_reader, &self.class_info, self.load_primitive_arrays, self.load_object_arrays) {
            Ok(d) => {
                if let DumpRecord::ClassDump(c) = &d {
                    let layout = ClassLayout {
                        super_class_id: c.super_class_object_id.0,
                        fields: copy_fields(&c.instance_fields),
                    };
                    self.class_info.insert(c.class_id.0, layout);
                }
                self.state = IteratorState::InData(ts, m.pos, e);
                Poll::Ready(Some(Ok((ts, Record::Dump(d)))))
            },
            Err(x) => Poll::Ready(Some(Err(x))),
        }
    }
}

pub const MSG_BANNER: &'static str = "Failed to parse banner in HPROF file header";

/// Position of the first zero byte at or after `i`, if any.
pub open spec fn first_zero(s: Seq<u8>, i: int) -> Option<int>
    decreases s.len() - i,
{
    if i < 0 || i >= s.len() {
        None
    } else if s[i] == 0 {
        Some(i)
    } else {
        first_zero(s, i + 1)
    }
}

/// What the header holds: the banner's bytes (before its zero byte), the
/// identifier width, the base timestamp, and where the records start.
pub ghost struct HeaderModel {
    pub banner: Seq<u8>,
    pub id_size: u32,
    pub timestamp: u64,
    pub records_start: int,
}

/// The header: a zero-terminated UTF-8 banner, the `u32` identifier width
/// (4 or 8), and the base timestamp as two `u32` halves, high first.
pub open spec fn spec_header(s: Seq<u8>) -> Result<HeaderModel, Error> {
    match first_zero(s, 0) {
        None => Err(Error::InvalidHeader(MSG_BANNER)),
        Some(z) => if utf8_decoded(s.subrange(0, z)) is None {
            Err(Error::InvalidHeader(MSG_BANNER))
        } else if z + 5 > s.len() {
            Err(Error::PrematureEOF)
        } else if be32(s, z + 1) != 4 && be32(s, z + 1) != 8 {
            Err(Error::IdSizeNotSupported(be32(s, z + 1)))
        } else if z + 13 > s.len() {
            Err(Error::PrematureEOF)
        } else {
            Ok(
                HeaderModel {
                    banner: s.subrange(0, z),
                    id_size: be32(s, z + 1),
                    timestamp: (be32(s, z + 5) * 0x1_0000_0000 + be32(s, z + 9)) as u64,
                    records_start: z + 13,
                },
            )
        },
    }
}

/// Index of the banner's terminating zero byte.
fn find_banner_end(data: &[u8]) -> (r: Option<usize>)
    ensures
        match r {
            Some(z) => first_zero(data@, 0) == Some(z as int) && z < data@.len(),
            None => first_zero(data@, 0) is None,
        },
{
    let mut i: usize = 0;
    while i < data.len()
        invariant
            i <= data@.len(),
            first_zero(data@, 0) == first_zero(data@, i as int),
        decreases data@.len() - i,
    {
        if data[i] == 0 {
            return Some(i);
        }
        i = i + 1;
    }
    None
}

proof fn lemma_join_halves(hi: u32, lo: u32)
    ensures
        ((hi as u64) << 32u64) | (lo as u64) == (hi * 0x1_0000_0000 + lo) as u64,
{
    assert(((hi as u64) << 32u64) | (lo as u64) == (hi as u64) * 0x1_0000_0000u64 + (lo as u64))
        by (bit_vector);
}

impl StreamHprofReader {
    /// Identifiers in native order, arrays loaded.
    pub fn new() -> (r: Self)
        ensures
            r.id_byteorder == ByteOrder::Native,
            r.load_primitive_arrays,
            r.load_object_arrays,
    {
        Self { id_byteorder: ByteOrder::Native, load_primitive_arrays: true, load_object_arrays: true }
    }

    pub fn with_id_byteorder(self, id_byteorder: ByteOrder) -> (r: Self)
        ensures
            r.id_byteorder == id_byteorder,
            r.load_primitive_arrays == self.load_primitive_arrays,
            r.load_object_arrays == self.load_object_arrays,
    {
        let mut r = self;
        r.id_byteorder = id_byteorder;
        r
    }

    pub fn with_load_primitive_arrays(self, flag: bool) -> (r: Self)
        ensures
            r.id_byteorder == self.id_byteorder,
            r.load_primitive_arrays == flag,
            r.load_object_arrays == self.load_object_arrays,
    {
        let mut r = self;
        r.load_primitive_arrays = flag;
        r
    }

    pub fn with_load_object_arrays(self, flag: bool) -> (r: Self)
        ensures
            r.id_byteorder == self.id_byteorder,
            r.load_primitive_arrays == self.load_primitive_arrays,
            r.load_object_arrays == flag,
    {
        let mut r = self;
        r.load_object_arrays = flag;
        r
    }

    /// Reads the header of `data` and sets a decoder at the first record:
    /// the banner, and the decoder with an empty class table.
    pub fn read_hprof(&self, data: &[u8]) -> (r: Result<(String, StreamHprofIterator), Error>)
        ensures
            match spec_header(data@) {
                Err(x) => r matches Err(y) && y == x,
                Ok(h) => r matches Ok((banner, it)) && {
                    &&& utf8_decoded(h.banner) == Some(banner@)
                    &&& it.wf()
                    &&& it.input_len() == data@.len()
                    &&& it.base() == h.timestamp
                    &&& it.state() == IteratorState::InNormal(h.records_start as usize)
                    &&& it.classes() == Map::<u64, LayoutModel>::empty()
                    &&& it.id_reader().id_size == h.id_size
                    &&& it.id_reader().order == self.id_byteorder
                    &&& it.loads_primitive_arrays() == self.load_primitive_arrays
                    &&& it.loads_object_arrays() == self.load_object_arrays
                },
            },
    {
        let z = match find_banner_end(data) {
            Some(z) => z,
            None => {
                return Err(Error::InvalidHeader(MSG_BANNER));
            },
        };
        let bytes = vstd::slice::slice_to_vec(vstd::slice::slice_subrange(data, 0, z));
        let banner = match utf8_string(bytes) {
            Some(b) => b,
            None => {
                return Err(Error::InvalidHeader(MSG_BANNER));
            },
        };
        let n = data.len();
        let mut m = Memory::new(data, z + 1, n);
        let id_size = m.read_u32()?;
        if id_size != 4 && id_size != 8 {
            return Err(Error::IdSizeNotSupported(id_size));
        }
        let hi = m.read_u32()?;
        let lo = m.read_u32()?;
        let timestamp = ((hi as u64) << 32u64) | (lo as u64);
        proof {
            lemma_join_halves(hi, lo);
        }
        let id_reader = IdReader::with_order(id_size, self.id_byteorder);
        let it = StreamHprofIterator {
            timestamp,
            state: IteratorState::InNormal(m.pos),
            class_info: HashMap::new(),
            id_reader,
            load_primitive_arrays: self.load_primitive_arrays,
            load_object_arrays: self.load_object_arrays,
            len: data.len(),
        };
        assert(it.classes() =~= Map::<u64, LayoutModel>::empty());
        Ok((banner, it))
    }

    /// Opens the bytes of a whole file; string records borrow from `data`.
    pub fn read_hprof_from_memory<'a>(&self, data: &'a [u8]) -> (r: Result<MemoryHprofIterator<'a>, Error>)
        ensures
            match spec_header(data@) {
                Err(x) => r matches Err(y) && y == x,
                Ok(h) => r matches Ok(it) && {
                    &&& it.wf()
                    &&& it.data()@ == data@
                    &&& utf8_decoded(h.banner) == Some(it.banner_text())
                    &&& it.base_time() == h.timestamp
                    &&& it.decoder().base() == h.timestamp
                    &&& it.decoder().state() == IteratorState::InNormal(h.records_start as usize)
                    &&& it.decoder().classes() == Map::<u64, LayoutModel>::empty()
                    &&& it.decoder().id_reader().id_size == h.id_size
                    &&& it.decoder().id_reader().order == self.id_byteorder
                    &&& it.decoder().loads_primitive_arrays() == self.load_primitive_arrays
                    &&& it.decoder().loads_object_arrays() == self.load_object_arrays
                },
            },
    {
        let (banner, iter) = self.read_hprof(data)?;
        let timestamp = iter.timestamp;
        Ok(MemoryHprofIterator { iter, data, timestamp, banner })
    }
}

impl Default for StreamHprofReader {
    fn default() -> (r: Self)
        ensures
            r.id_byteorder == ByteOrder::Native,
            r.load_primitive_arrays,
            r.load_object_arrays,
    {
        Self::new()
    }
}

/// Records of a file held in memory, in file order; string records borrow
/// their bytes from it.
pub struct MemoryHprofIterator<'a> {
    iter: StreamHprofIterator,
    data: &'a [u8],
    pub timestamp: Ts,
    pub banner: String,
}

impl<'a> MemoryHprofIterator<'a> {
    pub closed spec fn decoder(&self) -> StreamHprofIterator {
        self.iter
    }

    pub closed spec fn banner_text(&self) -> Seq<char> {
        self.banner@
    }

    pub closed spec fn base_time(&self) -> Ts {
        self.timestamp
    }

    pub closed spec fn data(&self) -> &'a [u8] {
        self.data
    }

    pub closed spec fn wf(&self) -> bool {
        &&& self.iter.wf()
        &&& self.iter.input_len() == self.data@.len()
    }

    /// The next record with its absolute timestamp, an error, or `None`
    /// once the input has ended; after an error or the end, always `None`.
    pub fn next(&mut self) -> (r: Option<Result<(Ts, Record<&'a [u8]>), Error>>)
        requires
            old(self).wf(),
        ensures
            final(self).wf(),
            final(self).data() == old(self).data(),
            final(self).decoder().moved_on_from(&old(self).decoder()),
            final(self).decoder().state() == old(self).decoder().spec_next_on(old(self).data()@).state,
            final(self).decoder().classes() == old(self).decoder().spec_next_on(old(self).data()@).classes,
            item_view(r) == old(self).decoder().spec_next_on(old(self).data()@).item,
    {
        self.iter.next_from(self.data)
    }
}

} // verus!
