//! Mathematical views of the records that hold vectors: each `Vec` seen as
//! the `Seq` of its elements.
use crate::decl::{
    AllocSite, AllocSitesRecord, ArrayValue, ClassDescription, ClassRecord, ConstFieldInfo,
    DumpRecord, EndThreadRecord, FieldInfo, FieldType, FieldValue, HeapSummaryRecord, Id,
    InstanceDump, ObjectArrayDump, PrimitiveArrayDump, Record, SerialNumber, StackFrameRecord,
    StackTraceRecord, StartThreadRecord,
};
use vstd::prelude::*;

verus! {

pub ghost struct StackTraceModel {
    pub stack_trace_serial: SerialNumber,
    pub thread_serial: SerialNumber,
    pub stack_frame_ids: Seq<Id>,
}

pub ghost struct AllocSitesModel {
    pub flags: u16,
    pub cutoff_ratio: u32,
    pub total_live_bytes: u32,
    pub total_live_instances: u32,
    pub total_bytes_allocated: u64,
    pub total_instances_allocated: u64,
    pub sites: Seq<AllocSite>,
}

pub ghost struct ClassDescriptionModel {
    pub class_id: Id,
    pub stack_trace_serial: SerialNumber,
    pub super_class_object_id: Id,
    pub class_loader_object_id: Id,
    pub signers_object_id: Id,
    pub protection_domain_object_id: Id,
    pub reserved1: Id,
    pub reserved2: Id,
    pub instance_size: u32,
    pub const_fields: Seq<(ConstFieldInfo, FieldValue)>,
    pub static_fields: Seq<(FieldInfo, FieldValue)>,
    pub instance_fields: Seq<FieldInfo>,
}

pub ghost struct InstanceDumpModel {
    pub object_id: Id,
    pub stack_trace_serial: SerialNumber,
    pub class_object_id: Id,
    pub data_size: u32,
    pub values: Seq<(FieldInfo, FieldValue)>,
}

pub ghost struct ObjectArrayModel {
    pub object_id: Id,
    pub stack_trace_serial: SerialNumber,
    pub num_elements: u32,
    pub element_class_id: Id,
    pub values: Option<Seq<Id>>,
}

pub ghost enum ArrayModel {
    Bool(Seq<bool>),
    Byte(Seq<i8>),
    Char(Seq<u16>),
    Short(Seq<i16>),
    Int(Seq<i32>),
    Long(Seq<i64>),
    Float(Seq<u32>),
    Double(Seq<u64>),
    Object(Seq<Id>),
}

pub ghost struct PrimitiveArrayModel {
    pub object_id: Id,
    pub stack_trace_serial: SerialNumber,
    pub num_elements: u32,
    pub elem_type: FieldType,
    pub values: Option<ArrayModel>,
}

pub ghost enum DumpModel {
    RootUnknown { obj_id: Id },
    RootJniGlobal { obj_id: Id, jni_global_ref: Id },
    RootJniLocal { obj_id: Id, thread_serial: SerialNumber, frame_number: u32 },
    RootJavaFrame { obj_id: Id, thread_serial: SerialNumber, frame_number: u32 },
    RootNativeStack { obj_id: Id, thread_serial: SerialNumber },
    RootStickyClass { obj_id: Id },
    RootThreadBlock { obj_id: Id, thread_serial: SerialNumber },
    RootMonitorUsed { obj_id: Id },
    RootThreadObject { obj_id: Id, thread_serial: SerialNumber, stack_trace_serial: SerialNumber },
    ClassDump(ClassDescriptionModel),
    InstanceDump(InstanceDumpModel),
    ObjectArrayDump(ObjectArrayModel),
    PrimitiveArrayDump(PrimitiveArrayModel),
}

pub ghost enum RecordModel {
    String(Id, Seq<u8>),
    LoadClass(ClassRecord),
    UnloadClass(SerialNumber),
    StackFrame(StackFrameRecord),
    StackTrace(StackTraceModel),
    AllocSites(AllocSitesModel),
    HeapSummary(HeapSummaryRecord),
    StartThread(StartThreadRecord),
    EndThread(EndThreadRecord),
    Dump(DumpModel),
}

impl View for StackTraceRecord {
    type V = StackTraceModel;

    open spec fn view(&self) -> StackTraceModel {
        StackTraceModel {
            stack_trace_serial: self.stack_trace_serial,
            thread_serial: self.thread_serial,
            stack_frame_ids: self.stack_frame_ids@,
        }
    }
}

impl View for AllocSitesRecord {
    type V = AllocSitesModel;

    open spec fn view(&self) -> AllocSitesModel {
        AllocSitesModel {
            flags: self.flags,
            cutoff_ratio: self.cutoff_ratio,
            total_live_bytes: self.total_live_bytes,
            total_live_instances: self.total_live_instances,
            total_bytes_allocated: self.total_bytes_allocated,
            total_instances_allocated: self.total_instances_allocated,
            sites: self.sites@,
        }
    }
}

impl View for ClassDescription {
    type V = ClassDescriptionModel;

    open spec fn view(&self) -> ClassDescriptionModel {
        ClassDescriptionModel {
            class_id: self.class_id,
            stack_trace_serial: self.stack_trace_serial,
            super_class_object_id: self.super_class_object_id,
            class_loader_object_id: self.class_loader_object_id,
            signers_object_id: self.signers_object_id,
            protection_domain_object_id: self.protection_domain_object_id,
            reserved1: self.reserved1,
            reserved2: self.reserved2,
            instance_size: self.instance_size,
            const_fields: self.const_fields@,
            static_fields: self.static_fields@,
            instance_fields: self.instance_fields@,
        }
    }
}

impl View for InstanceDump {
    type V = InstanceDumpModel;

    open spec fn view(&self) -> InstanceDumpModel {
        InstanceDumpModel {
            object_id: self.object_id,
            stack_trace_serial: self.stack_trace_serial,
            class_object_id: self.class_object_id,
            data_size: self.data_size,
            values: self.values@,
        }
    }
}

impl View for ObjectArrayDump {
    type V = ObjectArrayModel;

    open spec fn view(&self) -> ObjectArrayModel {
        ObjectArrayModel {
            object_id: self.object_id,
            stack_trace_serial: self.stack_trace_serial,
            num_elements: self.num_elements,
            element_class_id: self.element_class_id,
            values: match self.values {
                Some(v) => Some(v@),
                None => None,
            },
        }
    }
}

impl View for ArrayValue {
    type V = ArrayModel;

    open spec fn view(&self) -> ArrayModel {
        match self {
            ArrayValue::Bool(v) => ArrayModel::Bool(v@),
            ArrayValue::Byte(v) => ArrayModel::Byte(v@),
            ArrayValue::Char(v) => ArrayModel::Char(v@),
            ArrayValue::Short(v) => ArrayModel::Short(v@),
            ArrayValue::Int(v) => ArrayModel::Int(v@),
            ArrayValue::Long(v) => ArrayModel::Long(v@),
            ArrayValue::Float(v) => ArrayModel::Float(v@),
            ArrayValue::Double(v) => ArrayModel::Double(v@),
            ArrayValue::Object(v) => ArrayModel::Object(v@),
        }
    }
}

impl View for PrimitiveArrayDump {
    type V = PrimitiveArrayModel;

    open spec fn view(&self) -> PrimitiveArrayModel {
        PrimitiveArrayModel {
            object_id: self.object_id,
            stack_trace_serial: self.stack_trace_serial,
            num_elements: self.num_elements,
            elem_type: self.elem_type,
            values: match self.values {
                Some(v) => Some(v@),
                None => None,
            },
        }
    }
}

impl View for DumpRecord {
    type V = DumpModel;

    open spec fn view(&self) -> DumpModel {
        match *self {
            DumpRecord::RootUnknown { obj_id } => DumpModel::RootUnknown { obj_id },
            DumpRecord::RootJniGlobal { obj_id, jni_global_ref } => DumpModel::RootJniGlobal {
                obj_id,
                jni_global_ref,
            },
            DumpRecord::RootJniLocal { obj_id, thread_serial, frame_number } =>
                DumpModel::RootJniLocal { obj_id, thread_serial, frame_number },
            DumpRecord::RootJavaFrame { obj_id, thread_serial, frame_number } =>
                DumpModel::RootJavaFrame { obj_id, thread_serial, frame_number },
            DumpRecord::RootNativeStack { obj_id, thread_serial } => DumpModel::RootNativeStack {
                obj_id,
                thread_serial,
            },
            DumpRecord::RootStickyClass { obj_id } => DumpModel::RootStickyClass { obj_id },
            DumpRecord::RootThreadBlock { obj_id, thread_serial } => DumpModel::RootThreadBlock {
                obj_id,
                thread_serial,
            },
            DumpRecord::RootMonitorUsed { obj_id } => DumpModel::RootMonitorUsed { obj_id },
            DumpRecord::RootThreadObject { obj_id, thread_serial, stack_trace_serial } =>
                DumpModel::RootThreadObject { obj_id, thread_serial, stack_trace_serial },
            DumpRecord::ClassDump(c) => DumpModel::ClassDump(c@),
            DumpRecord::InstanceDump(d) => DumpModel::InstanceDump(d@),
            DumpRecord::ObjectArrayDump(a) => DumpModel::ObjectArrayDump(a@),
            DumpRecord::PrimitiveArrayDump(a) => DumpModel::PrimitiveArrayDump(a@),
        }
    }
}

impl<'a> View for Record<&'a [u8]> {
    type V = RecordModel;

    open spec fn view(&self) -> RecordModel {
        match *self {
            Record::String(id, s) => RecordModel::String(id, s@),
            Record::LoadClass(r) => RecordModel::LoadClass(r),
            Record::UnloadClass(n) => RecordModel::UnloadClass(n),
            Record::StackFrame(r) => RecordModel::StackFrame(r),
            Record::StackTrace(r) => RecordModel::StackTrace(r@),
            Record::AllocSites(r) => RecordModel::AllocSites(r@),
            Record::HeapSummary(r) => RecordModel::HeapSummary(r),
            Record::StartThread(r) => RecordModel::StartThread(r),
            Record::EndThread(r) => RecordModel::EndThread(r),
            Record::Dump(d) => RecordModel::Dump(d@),
        }
    }
}

} // verus!
