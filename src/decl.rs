//! The records that an HPROF file holds, and the errors of decoding one.
use vstd::prelude::*;

verus! {

pub const TAG_STRING: u8 = 0x01;
pub const TAG_LOAD_CLASS: u8 = 0x02;
pub const TAG_UNLOAD_CLASS: u8 = 0x03;
pub const TAG_STACK_FRAME: u8 = 0x04;
pub const TAG_STACK_TRACE: u8 = 0x05;
pub const TAG_ALLOC_SITES: u8 = 0x06;
pub const TAG_HEAP_SUMMARY: u8 = 0x07;
pub const TAG_START_THREAD: u8 = 0x0A;
pub const TAG_END_THREAD: u8 = 0x0B;
pub const TAG_HEAP_DUMP: u8 = 0x0C;
pub const TAG_HEAP_DUMP_SEGMENT: u8 = 0x1C;
pub const TAG_HEAP_DUMP_END: u8 = 0x2C;

pub const TAG_GC_ROOT_UNKNOWN: u8 = 0xFF;
pub const TAG_GC_ROOT_JNI_GLOBAL: u8 = 0x01;
pub const TAG_GC_ROOT_JNI_LOCAL: u8 = 0x02;
pub const TAG_GC_ROOT_JAVA_FRAME: u8 = 0x03;
pub const TAG_GC_ROOT_NATIVE_STACK: u8 = 0x04;
pub const TAG_GC_ROOT_STICKY_CLASS: u8 = 0x05;
pub const TAG_GC_ROOT_THREAD_BLOCK: u8 = 0x06;
pub const TAG_GC_ROOT_MONITOR_USED: u8 = 0x07;
pub const TAG_GC_ROOT_THREAD_OBJ: u8 = 0x08;
pub const TAG_GC_CLASS_DUMP: u8 = 0x20;
pub const TAG_GC_INSTANCE_DUMP: u8 = 0x21;
pub const TAG_GC_OBJ_ARRAY_DUMP: u8 = 0x22;
pub const TAG_GC_PRIM_ARRAY_DUMP: u8 = 0x23;

/// An object identifier, widened to 64 bits whatever its width in the file.
#[derive(Copy, Clone, Debug, PartialEq, Eq, Hash, Structural)]
pub struct Id(pub u64);

impl From<u64> for Id {
    fn from(id: u64) -> (r: Id)
        ensures
            r.0 == id,
    {
        Id(id)
    }
}

impl vstd::std_specs::convert::FromSpecImpl<u64> for Id {
    open spec fn obeys_from_spec() -> bool {
        true
    }

    open spec fn from_spec(v: u64) -> Id {
        Id(v)
    }
}

impl From<u32> for Id {
    fn from(id: u32) -> (r: Id)
        ensures
            r.0 == id as u64,
    {
        Id(id as u64)
    }
}

impl vstd::std_specs::convert::FromSpecImpl<u32> for Id {
    open spec fn obeys_from_spec() -> bool {
        true
    }

    open spec fn from_spec(v: u32) -> Id {
        Id(v as u64)
    }
}

impl From<Id> for u64 {
    fn from(val: Id) -> (r: u64)
        ensures
            r == val.0,
    {
        val.0
    }
}

impl vstd::std_specs::convert::FromSpecImpl<Id> for u64 {
    open spec fn obeys_from_spec() -> bool {
        true
    }

    open spec fn from_spec(v: Id) -> u64 {
        v.0
    }
}

/// Timestamp.
pub type Ts = u64;

/// Class serial number.
pub type SerialNumber = u32;

/// A top-level record; `Str` is the type of a string record's bytes.
#[derive(Debug)]
pub enum Record<Str> {
    String(Id, Str),
    LoadClass(ClassRecord),
    UnloadClass(SerialNumber),
    StackFrame(StackFrameRecord),
    StackTrace(StackTraceRecord),
    AllocSites(AllocSitesRecord),
    HeapSummary(HeapSummaryRecord),
    StartThread(StartThreadRecord),
    EndThread(EndThreadRecord),
    Dump(DumpRecord),
}

#[derive(Clone, Debug)]
pub struct HprofHeader<Str> {
    pub format_name: Option<Str>,
    pub id_size: u32,
    pub timestamp: u64,
}

#[derive(Copy, Clone, Debug, PartialEq, Eq, Structural)]
pub struct ClassRecord {
    pub serial: SerialNumber,
    pub class_obj_id: Id,
    pub stack_trace_serial: u32,
    pub class_name_string_id: Id,
}

#[derive(Copy, Clone, Debug, PartialEq, Eq, Structural)]
pub struct StackFrameRecord {
    pub stack_frame_id: Id,
    pub method_name_id: Id,
    pub method_signature_id: Id,
    pub source_file_name_id: Id,
    pub class_serial: SerialNumber,
    pub line_number: i32,
}

#[derive(Clone, Debug, PartialEq, Eq)]
pub struct StackTraceRecord {
    pub stack_trace_serial: SerialNumber,
    pub thread_serial: SerialNumber,
    pub stack_frame_ids: Vec<Id>,
}

#[derive(Copy, Clone, Debug, PartialEq, Eq, Structural)]
pub struct AllocSite {
    pub is_array: u8,
    pub class_serial: SerialNumber,
    pub stack_trace_serial: SerialNumber,
    pub bytes_alive: u32,
    pub instances_alive: u32,
    pub bytes_allocated: u32,
    pub instances_allocated: u32,
}

#[derive(Clone, Debug, PartialEq, Eq)]
pub struct AllocSitesRecord {
    pub flags: u16,
    pub cutoff_ratio: u32,
    pub total_live_bytes: u32,
    pub total_live_instances: u32,
    pub total_bytes_allocated: u64,
    pub total_instances_allocated: u64,
    pub sites: Vec<AllocSite>,
}

#[derive(Copy, Clone, Debug, PartialEq, Eq, Structural)]
pub struct HeapSummaryRecord {
    pub total_live_bytes: u32,
    pub total_live_instances: u32,
    pub total_bytes_allocated: u64,
    pub total_instances_allocated: u64,
}

#[derive(Copy, Clone, Debug, PartialEq, Eq, Structural)]
pub struct StartThreadRecord {
    pub thread_serial: SerialNumber,
    pub thead_object_id: Id,
    pub stack_trace_serial: SerialNumber,
    pub thread_name_id: Id,
    pub thread_group_name_id: Id,
    pub thread_group_parent_name_id: Id,
}

#[derive(Copy, Clone, Debug, PartialEq, Eq, Structural)]
pub struct EndThreadRecord {
    pub thread_serial: SerialNumber,
}

/// The kind of a field or of an array element, with its code in the file.
#[derive(Clone, Copy, Debug, PartialEq, Eq, Structural)]
pub enum FieldType {
    Object,
    Bool,
    Char,
    Float,
    Double,
    Byte,
    Short,
    Int,
    Long,
}

/// The field kind that a code of the file stands for.
pub open spec fn field_type_of(code: u8) -> Option<FieldType> {
    match code {
        2 => Some(FieldType::Object),
        4 => Some(FieldType::Bool),
        5 => Some(FieldType::Char),
        6 => Some(FieldType::Float),
        7 => Some(FieldType::Double),
        8 => Some(FieldType::Byte),
        9 => Some(FieldType::Short),
        10 => Some(FieldType::Int),
        11 => Some(FieldType::Long),
        _ => None,
    }
}

/// Storage size of a primitive kind; `Object` has none of its own.
pub open spec fn primitive_size(t: FieldType) -> Option<u64> {
    match t {
        FieldType::Object => None,
        FieldType::Byte | FieldType::Bool => Some(1),
        FieldType::Char | FieldType::Short => Some(2),
        FieldType::Float | FieldType::Int => Some(4),
        FieldType::Double | FieldType::Long => Some(8),
    }
}

pub const MSG_OBJECT_ARRAY: &'static str = "object type in primitive array";

pub const MSG_FIELD_TYPE: &'static str = "ty";

impl FieldType {
    /// Kind for a code of the file; `None` for a code that names no kind.
    pub fn from_code(code: u8) -> (r: Option<FieldType>)
        ensures
            r == field_type_of(code),
    {
        match code {
            2 => Some(FieldType::Object),
            4 => Some(FieldType::Bool),
            5 => Some(FieldType::Char),
            6 => Some(FieldType::Float),
            7 => Some(FieldType::Double),
            8 => Some(FieldType::Byte),
            9 => Some(FieldType::Short),
            10 => Some(FieldType::Int),
            11 => Some(FieldType::Long),
            _ => None,
        }
    }

    /// Storage byte size of each kind; `Bool` takes one byte.
    /// `Object` has no size of its own, and gives `InvalidField`.
    pub fn byte_size(self) -> (r: Result<u64, Error>)
        ensures
            match primitive_size(self) {
                Some(n) => r == Ok::<u64, Error>(n),
                None => r == Err::<u64, Error>(Error::InvalidField(MSG_OBJECT_ARRAY)),
            },
    {
        Ok(
            match self {
                FieldType::Object => { return Err(Error::InvalidField(MSG_OBJECT_ARRAY)) },
                FieldType::Byte | FieldType::Bool => 1,
                FieldType::Char | FieldType::Short => 2,
                FieldType::Float | FieldType::Int => 4,
                FieldType::Double | FieldType::Long => 8,
            },
        )
    }
}

/// A decoded value.  `Float` and `Double` hold the IEEE 754 bit pattern
/// (`f32::from_bits`, `f64::from_bits` give the number).
#[derive(Clone, Copy, Debug, PartialEq, Eq, Structural)]
pub enum FieldValue {
    Bool(bool),
    Byte(i8),
    Char(u16),
    Short(i16),
    Int(i32),
    Long(i64),
    Float(u32),
    Double(u64),
    Object(Id),
}

/// The elements of a primitive array; floating-point elements as bit patterns.
#[derive(Clone, Debug, PartialEq, Eq)]
pub enum ArrayValue {
    Bool(Vec<bool>),
    Byte(Vec<i8>),
    Char(Vec<u16>),
    Short(Vec<i16>),
    Int(Vec<i32>),
    Long(Vec<i64>),
    Float(Vec<u32>),
    Double(Vec<u64>),
    Object(Vec<Id>),
}

#[derive(Clone, Copy, Debug, PartialEq, Eq, Structural)]
pub enum FieldLifeTime {
    Const,
    Object,
    Static,
}

#[derive(Clone, Copy, Debug, PartialEq, Eq, Structural)]
pub struct ConstFieldInfo {
    pub const_pool_idx: u16,
    pub const_type: FieldType,
}

#[derive(Clone, Copy, Debug, PartialEq, Eq, Structural)]
pub struct FieldInfo {
    pub name_id: Id,
    pub field_type: FieldType,
}

/// Class information: fields, etc.
#[derive(Clone, Debug, PartialEq, Eq)]
pub struct ClassDescription {
    pub class_id: Id,
    pub stack_trace_serial: SerialNumber,
    pub super_class_object_id: Id,
    pub class_loader_object_id: Id,
    pub signers_object_id: Id,
    pub protection_domain_object_id: Id,
    pub reserved1: Id,
    pub reserved2: Id,
    pub instance_size: u32,
    pub const_fields: Vec<(ConstFieldInfo, FieldValue)>,
    pub static_fields: Vec<(FieldInfo, FieldValue)>,
    pub instance_fields: Vec<FieldInfo>,
}

/// Instance dump.
#[derive(Clone, Debug, PartialEq, Eq)]
pub struct InstanceDump {
    pub object_id: Id,
    pub stack_trace_serial: SerialNumber,
    pub class_object_id: Id,
    pub data_size: u32,
    pub values: Vec<(FieldInfo, FieldValue)>,
}

/// Array of Object (or any subclass).  It contains only Ids of objects,
/// i.e. their addresses.
#[derive(Clone, Debug, PartialEq, Eq)]
pub struct ObjectArrayDump {
    pub object_id: Id,
    pub stack_trace_serial: SerialNumber,
    pub num_elements: u32,
    pub element_class_id: Id,
    pub values: Option<Vec<Id>>,
}

/// Array of primitive values.
#[derive(Clone, Debug, PartialEq, Eq)]
pub struct PrimitiveArrayDump {
    pub object_id: Id,
    pub stack_trace_serial: SerialNumber,
    pub num_elements: u32,
    pub elem_type: FieldType,
    pub values: Option<ArrayValue>,
}

#[derive(Clone, Debug, PartialEq, Eq)]
pub enum DumpRecord {
    RootUnknown { obj_id: Id },
    RootJniGlobal { obj_id: Id, jni_global_ref: Id },
    RootJniLocal { obj_id: Id, thread_serial: SerialNumber, frame_number: u32 },
    RootJavaFrame { obj_id: Id, thread_serial: SerialNumber, frame_number: u32 },
    RootNativeStack { obj_id: Id, thread_serial: SerialNumber },
    RootStickyClass { obj_id: Id },
    RootThreadBlock { obj_id: Id, thread_serial: SerialNumber },
    RootMonitorUsed { obj_id: Id },
    RootThreadObject { obj_id: Id, thread_serial: SerialNumber, stack_trace_serial: SerialNumber },
    ClassDump(ClassDescription),
    InstanceDump(InstanceDump),
    ObjectArrayDump(ObjectArrayDump),
    PrimitiveArrayDump(PrimitiveArrayDump),
}

/// `std::io::Error`, carried unopened by `Error::UnderlyingIOError` for the
/// errors of reading a stream.
#[verifier::external_type_specification]
#[verifier::external_body]
pub struct ExIoError(std::io::Error);

#[derive(Debug)]
pub enum Error {
    /// Id size not supported
    IdSizeNotSupported(u32),
    /// Integer conversion
    IntegerConversionErrror,
    /// Header contains invalid data
    InvalidHeader(&'static str),
    InvalidField(&'static str),
    /// Invalid UTF-8 string
    InvalidUtf8,
    /// Known packet contains invalid information
    InvalidPacket(u8, u32),
    /// Completely unknown packet type.
    UnknownPacket(u8, u32),
    /// Invalid HPROF_DATA subpacket
    InvalidSubpacket(u8, u32),
    /// Completely unknown HPROF_DATA subpacket type.
    UnknownSubpacket(u8),
    /// An object of a class that no class dump described before it.
    UnknownClass(Id),
    /// Incomplete packet/subpacket
    PrematureEOF,
    /// Generic IO error
    UnderlyingIOError(std::io::Error),
}

impl From<std::io::Error> for Error {
    fn from(error: std::io::Error) -> (r: Error)
        ensures
            r == Error::UnderlyingIOError(error),
    {
        Error::UnderlyingIOError(error)
    }
}

impl vstd::std_specs::convert::FromSpecImpl<std::io::Error> for Error {
    open spec fn obeys_from_spec() -> bool {
        true
    }

    open spec fn from_spec(v: std::io::Error) -> Error {
        Error::UnderlyingIOError(v)
    }
}

} // verus!
