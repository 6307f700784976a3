use hprof_stream::decl::{
    ArrayValue, DumpRecord, Error, FieldInfo, FieldType, FieldValue, Id, Record,
};
use hprof_stream::records::ByteOrder;
use hprof_stream::{MemoryHprofIterator, StreamHprofReader};

fn u16be(v: u16) -> Vec<u8> {
    v.to_be_bytes().to_vec()
}

fn u32be(v: u32) -> Vec<u8> {
    v.to_be_bytes().to_vec()
}

fn u64be(v: u64) -> Vec<u8> {
    v.to_be_bytes().to_vec()
}

fn header(id_size: u32, hi: u32, lo: u32) -> Vec<u8> {
    let mut out = b"JAVA PROFILE 1.0.2\0".to_vec();
    out.extend(u32be(id_size));
    out.extend(u32be(hi));
    out.extend(u32be(lo));
    out
}

fn record(tag: u8, delta: u32, body: &[u8]) -> Vec<u8> {
    let mut out = vec![tag];
    out.extend(u32be(delta));
    out.extend(u32be(body.len() as u32));
    out.extend_from_slice(body);
    out
}

fn segment(body: &[u8]) -> Vec<u8> {
    record(0x1C, 0, body)
}

fn class_dump(class_id: u64, super_id: u64, fields: &[(u64, u8)]) -> Vec<u8> {
    let mut out = vec![0x20];
    out.extend(u64be(class_id));
    out.extend(u32be(1));
    out.extend(u64be(super_id));
    for _ in 0..5 {
        out.extend(u64be(0));
    }
    out.extend(u32be(4));
    out.extend(u16be(0));
    out.extend(u16be(0));
    out.extend(u16be(fields.len() as u16));
    for (name, kind) in fields {
        out.extend(u64be(*name));
        out.push(*kind);
    }
    out
}

fn instance_dump(object_id: u64, class_id: u64, data: &[u8]) -> Vec<u8> {
    let mut out = vec![0x21];
    out.extend(u64be(object_id));
    out.extend(u32be(0));
    out.extend(u64be(class_id));
    out.extend(u32be(data.len() as u32));
    out.extend_from_slice(data);
    out
}

fn prim_array(object_id: u64, n: u32, kind: u8, data: &[u8]) -> Vec<u8> {
    let mut out = vec![0x23];
    out.extend(u64be(object_id));
    out.extend(u32be(0));
    out.extend(u32be(n));
    out.push(kind);
    out.extend_from_slice(data);
    out
}

fn open(data: &[u8]) -> MemoryHprofIterator<'_> {
    StreamHprofReader::new()
        .with_id_byteorder(ByteOrder::Network)
        .read_hprof_from_memory(data)
        .unwrap()
}

fn next_dump(it: &mut MemoryHprofIterator<'_>) -> DumpRecord {
    match it.next() {
        Some(Ok((_, Record::Dump(d)))) => d,
        other => panic!("expected a dump record, got {:?}", other),
    }
}

#[test]
fn minimal_file() {
    let data = header(8, 1, 2);
    let mut it = open(&data);
    assert_eq!(it.banner, "JAVA PROFILE 1.0.2");
    assert_eq!(it.timestamp, 0x1_0000_0002);
    assert!(it.next().is_none());
    assert!(it.next().is_none());
}

#[test]
fn single_string_record() {
    let mut data = header(8, 1, 2);
    let mut body = u64be(0x42);
    body.extend_from_slice(b"hello");
    data.extend(record(0x01, 0, &body));
    let mut it = open(&data);
    match it.next() {
        Some(Ok((ts, Record::String(id, s)))) => {
            assert_eq!(ts, 0x1_0000_0002);
            assert_eq!(id, Id(0x42));
            assert_eq!(s, b"hello");
        }
        other => panic!("unexpected {:?}", other),
    }
    assert!(it.next().is_none());
}

#[test]
fn string_record_shorter_than_an_id() {
    let mut data = header(8, 0, 0);
    let mut rec = vec![0x01];
    rec.extend(u32be(0));
    rec.extend(u32be(3));
    rec.extend(u64be(7));
    data.extend(rec);
    let mut it = open(&data);
    assert!(matches!(it.next(), Some(Err(Error::InvalidPacket(0x01, 3)))));
    assert!(it.next().is_none());
}

#[test]
fn load_then_instance() {
    let mut data = header(8, 0, 0);
    let mut body = class_dump(7, 0, &[(100, 10)]);
    body.extend(instance_dump(9, 7, &[0, 0, 0, 5]));
    data.extend(segment(&body));
    let mut it = open(&data);
    match next_dump(&mut it) {
        DumpRecord::ClassDump(c) => {
            assert_eq!(c.class_id, Id(7));
            assert_eq!(c.super_class_object_id, Id(0));
            assert_eq!(c.instance_size, 4);
            assert_eq!(
                c.instance_fields,
                vec![FieldInfo { name_id: Id(100), field_type: FieldType::Int }]
            );
        }
        other => panic!("unexpected {:?}", other),
    }
    match next_dump(&mut it) {
        DumpRecord::InstanceDump(d) => {
            assert_eq!(d.object_id, Id(9));
            assert_eq!(d.class_object_id, Id(7));
            assert_eq!(d.data_size, 4);
            assert_eq!(
                d.values,
                vec![(FieldInfo { name_id: Id(100), field_type: FieldType::Int }, FieldValue::Int(5))]
            );
        }
        other => panic!("unexpected {:?}", other),
    }
    assert!(it.next().is_none());
}

#[test]
fn instance_walks_super_classes() {
    let mut data = header(8, 0, 0);
    let mut body = class_dump(1, 0, &[(200, 8)]);
    body.extend(class_dump(2, 1, &[(201, 4), (202, 9)]));
    let mut values = vec![1u8];
    values.extend(u16be(0xFFFE));
    values.push(0x7F);
    values.extend([0xAA, 0xBB]);
    body.extend(instance_dump(3, 2, &values));
    body.extend([0x05]);
    body.extend(u64be(11));
    data.extend(segment(&body));
    let mut it = open(&data);
    next_dump(&mut it);
    next_dump(&mut it);
    match next_dump(&mut it) {
        DumpRecord::InstanceDump(d) => {
            assert_eq!(d.data_size, 6);
            assert_eq!(
                d.values,
                vec![
                    (FieldInfo { name_id: Id(201), field_type: FieldType::Bool }, FieldValue::Bool(true)),
                    (FieldInfo { name_id: Id(202), field_type: FieldType::Short }, FieldValue::Short(-2)),
                    (FieldInfo { name_id: Id(200), field_type: FieldType::Byte }, FieldValue::Byte(0x7F)),
                ]
            );
        }
        other => panic!("unexpected {:?}", other),
    }
    assert!(matches!(next_dump(&mut it), DumpRecord::RootStickyClass { obj_id: Id(11) }));
}

#[test]
fn redeclared_class_replaces_the_earlier() {
    let mut data = header(8, 0, 0);
    let mut body = class_dump(7, 0, &[(100, 10)]);
    body.extend(class_dump(7, 0, &[(101, 8)]));
    body.extend(instance_dump(9, 7, &[3]));
    data.extend(segment(&body));
    let mut it = open(&data);
    next_dump(&mut it);
    next_dump(&mut it);
    match next_dump(&mut it) {
        DumpRecord::InstanceDump(d) => assert_eq!(
            d.values,
            vec![(FieldInfo { name_id: Id(101), field_type: FieldType::Byte }, FieldValue::Byte(3))]
        ),
        other => panic!("unexpected {:?}", other),
    }
}

#[test]
fn unknown_class() {
    let mut data = header(8, 0, 0);
    data.extend(segment(&instance_dump(9, 42, &[0, 0, 0, 5])));
    let mut it = open(&data);
    assert!(matches!(it.next(), Some(Err(Error::UnknownClass(Id(42))))));
    assert!(it.next().is_none());
}

#[test]
fn class_cycle_is_refused() {
    let mut data = header(8, 0, 0);
    let mut body = class_dump(7, 7, &[]);
    body.extend(instance_dump(9, 7, &[]));
    data.extend(segment(&body));
    let mut it = open(&data);
    next_dump(&mut it);
    assert!(matches!(it.next(), Some(Err(Error::InvalidSubpacket(0x21, 0)))));
    assert!(it.next().is_none());
}

#[test]
fn multi_segment_dump() {
    let mut data = header(8, 0, 0);
    let mut body = vec![0x05];
    body.extend(u64be(11));
    data.extend(segment(&body));
    data.extend(record(0x2C, 0, &[]));
    let mut it = open(&data);
    assert!(matches!(next_dump(&mut it), DumpRecord::RootStickyClass { obj_id: Id(11) }));
    assert!(it.next().is_none());
}

#[test]
fn load_flag_off() {
    let mut data = header(8, 0, 0);
    let mut body = prim_array(5, 3, 10, &[0, 0, 0, 1, 0, 0, 0, 2, 0, 0, 0, 3]);
    body.extend([0x07]);
    body.extend(u64be(12));
    data.extend(segment(&body));
    let hprof = StreamHprofReader::new()
        .with_id_byteorder(ByteOrder::Network)
        .with_load_primitive_arrays(false);
    let mut it = hprof.read_hprof_from_memory(&data).unwrap();
    match next_dump(&mut it) {
        DumpRecord::PrimitiveArrayDump(a) => {
            assert_eq!(a.num_elements, 3);
            assert_eq!(a.elem_type, FieldType::Int);
            assert!(a.values.is_none());
        }
        other => panic!("unexpected {:?}", other),
    }
    assert!(matches!(next_dump(&mut it), DumpRecord::RootMonitorUsed { obj_id: Id(12) }));
    assert!(it.next().is_none());
}

#[test]
fn primitive_arrays_loaded() {
    let mut data = header(8, 0, 0);
    let mut body = prim_array(1, 3, 10, &[0, 0, 0, 1, 0xFF, 0xFF, 0xFF, 0xFF, 0, 0, 0, 3]);
    body.extend(prim_array(2, 2, 4, &[0, 9]));
    body.extend(prim_array(3, 1, 6, &1.5f32.to_be_bytes()));
    body.extend(prim_array(4, 1, 7, &(-2.25f64).to_be_bytes()));
    body.extend(prim_array(5, 1, 5, &u16be(0x263A)));
    body.extend(prim_array(6, 1, 11, &u64be(u64::MAX)));
    data.extend(segment(&body));
    let mut it = open(&data);
    let values = |d: DumpRecord| match d {
        DumpRecord::PrimitiveArrayDump(a) => a.values.unwrap(),
        other => panic!("unexpected {:?}", other),
    };
    assert_eq!(values(next_dump(&mut it)), ArrayValue::Int(vec![1, -1, 3]));
    assert_eq!(values(next_dump(&mut it)), ArrayValue::Bool(vec![false, true]));
    match values(next_dump(&mut it)) {
        ArrayValue::Float(v) => assert_eq!(f32::from_bits(v[0]), 1.5),
        other => panic!("unexpected {:?}", other),
    }
    match values(next_dump(&mut it)) {
        ArrayValue::Double(v) => assert_eq!(f64::from_bits(v[0]), -2.25),
        other => panic!("unexpected {:?}", other),
    }
    assert_eq!(values(next_dump(&mut it)), ArrayValue::Char(vec![0x263A]));
    assert_eq!(values(next_dump(&mut it)), ArrayValue::Long(vec![-1]));
    assert!(it.next().is_none());
}

#[test]
fn object_arrays_loaded_and_skipped() {
    let mut body = vec![0x22];
    body.extend(u64be(1));
    body.extend(u32be(0));
    body.extend(u32be(2));
    body.extend(u64be(77));
    body.extend(u64be(5));
    body.extend(u64be(6));
    let mut data = header(8, 0, 0);
    data.extend(segment(&body));
    let mut it = open(&data);
    match next_dump(&mut it) {
        DumpRecord::ObjectArrayDump(a) => {
            assert_eq!(a.element_class_id, Id(77));
            assert_eq!(a.values, Some(vec![Id(5), Id(6)]));
        }
        other => panic!("unexpected {:?}", other),
    }
    let hprof = StreamHprofReader::new()
        .with_id_byteorder(ByteOrder::Network)
        .with_load_object_arrays(false);
    let mut it = hprof.read_hprof_from_memory(&data).unwrap();
    match next_dump(&mut it) {
        DumpRecord::ObjectArrayDump(a) => {
            assert_eq!(a.num_elements, 2);
            assert_eq!(a.values, None);
        }
        other => panic!("unexpected {:?}", other),
    }
    assert!(it.next().is_none());
}

#[test]
fn empty_input_is_invalid_header() {
    let data: Vec<u8> = Vec::new();
    assert!(matches!(
        StreamHprofReader::new().read_hprof_from_memory(&data),
        Err(Error::InvalidHeader(_))
    ));
}

#[test]
fn banner_not_utf8_is_invalid_header() {
    let mut data = vec![0xFF, 0xFE, 0];
    data.extend(u32be(8));
    data.extend(u64be(0));
    assert!(matches!(
        StreamHprofReader::new().read_hprof_from_memory(&data),
        Err(Error::InvalidHeader(_))
    ));
}

#[test]
fn id_size_two_not_supported() {
    let data = header(2, 0, 0);
    assert!(matches!(
        StreamHprofReader::new().read_hprof_from_memory(&data),
        Err(Error::IdSizeNotSupported(2))
    ));
}

#[test]
fn truncated_header_is_premature_eof() {
    let mut data = header(8, 0, 0);
    data.truncate(data.len() - 1);
    assert!(matches!(
        StreamHprofReader::new().read_hprof_from_memory(&data),
        Err(Error::PrematureEOF)
    ));
}

#[test]
fn zero_length_segment() {
    let mut data = header(8, 0, 0);
    data.extend(segment(&[]));
    data.extend(record(0x03, 5, &u32be(77)));
    let mut it = open(&data);
    match it.next() {
        Some(Ok((ts, Record::UnloadClass(serial)))) => {
            assert_eq!(ts, 5);
            assert_eq!(serial, 77);
        }
        other => panic!("unexpected {:?}", other),
    }
    assert!(it.next().is_none());
}

#[test]
fn object_kind_in_primitive_array() {
    let mut data = header(8, 0, 0);
    data.extend(segment(&prim_array(1, 0, 2, &[])));
    let mut it = open(&data);
    assert!(matches!(it.next(), Some(Err(Error::InvalidField(_)))));
    assert!(it.next().is_none());
    let hprof = StreamHprofReader::new().with_load_primitive_arrays(false);
    let mut it = hprof.read_hprof_from_memory(&data).unwrap();
    assert!(matches!(it.next(), Some(Err(Error::InvalidField(_)))));
}

#[test]
fn unknown_field_kind_in_class_dump() {
    let mut data = header(8, 0, 0);
    data.extend(segment(&class_dump(1, 0, &[(5, 3)])));
    let mut it = open(&data);
    assert!(matches!(it.next(), Some(Err(Error::InvalidField(_)))));
    assert!(it.next().is_none());
}

#[test]
fn unknown_packet_ends_the_stream() {
    let mut data = header(8, 0, 0);
    data.extend(record(0x55, 0, &[1, 2, 3]));
    data.extend(record(0x03, 0, &u32be(1)));
    let mut it = open(&data);
    assert!(matches!(it.next(), Some(Err(Error::UnknownPacket(0x55, 3)))));
    assert!(it.next().is_none());
    assert!(it.next().is_none());
}

#[test]
fn unknown_subpacket_ends_the_stream() {
    let mut data = header(8, 0, 0);
    data.extend(segment(&[0x99, 0, 0]));
    let mut it = open(&data);
    assert!(matches!(it.next(), Some(Err(Error::UnknownSubpacket(0x99)))));
    assert!(it.next().is_none());
}

#[test]
fn truncated_record_is_premature_eof() {
    let mut data = header(8, 0, 0);
    let mut rec = vec![0x07];
    rec.extend(u32be(0));
    rec.extend(u32be(24));
    rec.extend(u32be(1));
    data.extend(rec);
    let mut it = open(&data);
    assert!(matches!(it.next(), Some(Err(Error::PrematureEOF))));
    assert!(it.next().is_none());
}

#[test]
fn segment_longer_than_input_is_premature_eof() {
    let mut data = header(8, 0, 0);
    let mut rec = vec![0x0C];
    rec.extend(u32be(0));
    rec.extend(u32be(100));
    data.extend(rec);
    let mut it = open(&data);
    assert!(matches!(it.next(), Some(Err(Error::PrematureEOF))));
    assert!(it.next().is_none());
}

#[test]
fn top_level_records() {
    let mut data = header(4, 0, 1000);
    let mut load = u32be(1);
    load.extend(u32be(0x1000));
    load.extend(u32be(2));
    load.extend(u32be(0x2000));
    data.extend(record(0x02, 1, &load));
    let mut frame = Vec::new();
    for id in [1u32, 2, 3, 4] {
        frame.extend(u32be(id));
    }
    frame.extend(u32be(9));
    frame.extend(u32be(-3i32 as u32));
    data.extend(record(0x04, 2, &frame));
    let mut trace = u32be(5);
    trace.extend(u32be(6));
    trace.extend(u32be(2));
    trace.extend(u32be(0xA));
    trace.extend(u32be(0xB));
    data.extend(record(0x05, 3, &trace));
    let mut summary = u32be(10);
    summary.extend(u32be(20));
    summary.extend(u64be(30));
    summary.extend(u64be(40));
    data.extend(record(0x07, 4, &summary));
    let mut start = u32be(1);
    for v in [2u32, 3, 4, 5, 6] {
        start.extend(u32be(v));
    }
    data.extend(record(0x0A, 5, &start));
    data.extend(record(0x0B, 6, &u32be(8)));
    let mut it = open(&data);
    match it.next() {
        Some(Ok((1001, Record::LoadClass(c)))) => {
            assert_eq!(c.serial, 1);
            assert_eq!(c.class_obj_id, Id(0x1000));
            assert_eq!(c.stack_trace_serial, 2);
            assert_eq!(c.class_name_string_id, Id(0x2000));
        }
        other => panic!("unexpected {:?}", other),
    }
    match it.next() {
        Some(Ok((1002, Record::StackFrame(f)))) => {
            assert_eq!(f.stack_frame_id, Id(1));
            assert_eq!(f.source_file_name_id, Id(4));
            assert_eq!(f.class_serial, 9);
            assert_eq!(f.line_number, -3);
        }
        other => panic!("unexpected {:?}", other),
    }
    match it.next() {
        Some(Ok((1003, Record::StackTrace(t)))) => {
            assert_eq!(t.stack_trace_serial, 5);
            assert_eq!(t.thread_serial, 6);
            assert_eq!(t.stack_frame_ids, vec![Id(0xA), Id(0xB)]);
        }
        other => panic!("unexpected {:?}", other),
    }
    match it.next() {
        Some(Ok((1004, Record::HeapSummary(h)))) => {
            assert_eq!(h.total_live_bytes, 10);
            assert_eq!(h.total_live_instances, 20);
            assert_eq!(h.total_bytes_allocated, 30);
            assert_eq!(h.total_instances_allocated, 40);
        }
        other => panic!("unexpected {:?}", other),
    }
    match it.next() {
        Some(Ok((1005, Record::StartThread(s)))) => {
            assert_eq!(s.thread_serial, 1);
            assert_eq!(s.thead_object_id, Id(2));
            assert_eq!(s.stack_trace_serial, 3);
            assert_eq!(s.thread_group_parent_name_id, Id(6));
        }
        other => panic!("unexpected {:?}", other),
    }
    match it.next() {
        Some(Ok((1006, Record::EndThread(e)))) => assert_eq!(e.thread_serial, 8),
        other => panic!("unexpected {:?}", other),
    }
    assert!(it.next().is_none());
}

#[test]
fn alloc_sites_record() {
    let mut body = u16be(1);
    body.extend(u32be(2));
    body.extend(u32be(3));
    body.extend(u32be(4));
    body.extend(u64be(5));
    body.extend(u64be(6));
    body.extend(u32be(1));
    body.push(1);
    for v in 10u32..16 {
        body.extend(u32be(v));
    }
    let mut data = header(8, 0, 0);
    data.extend(record(0x06, 0, &body));
    let mut it = open(&data);
    match it.next() {
        Some(Ok((_, Record::AllocSites(a)))) => {
            assert_eq!(a.flags, 1);
            assert_eq!(a.total_instances_allocated, 6);
            assert_eq!(a.sites.len(), 1);
            assert_eq!(a.sites[0].is_array, 1);
            assert_eq!(a.sites[0].class_serial, 10);
            assert_eq!(a.sites[0].instances_allocated, 15);
        }
        other => panic!("unexpected {:?}", other),
    }
}

#[test]
fn record_time_wraps_past_the_top() {
    let mut data = header(8, 0xFFFF_FFFF, 0xFFFF_FFFF);
    data.extend(record(0x0B, 2, &u32be(1)));
    let mut it = open(&data);
    assert!(matches!(it.next(), Some(Ok((1, Record::EndThread(_))))));
}

#[test]
fn native_order_identifiers() {
    let mut data = header(4, 0, 0);
    let mut body = 0x0102_0304u32.to_ne_bytes().to_vec();
    body.extend_from_slice(b"x");
    data.extend(record(0x01, 0, &body));
    let mut it = StreamHprofReader::new().read_hprof_from_memory(&data).unwrap();
    match it.next() {
        Some(Ok((_, Record::String(id, s)))) => {
            assert_eq!(id, Id(0x0102_0304));
            assert_eq!(s, b"x");
        }
        other => panic!("unexpected {:?}", other),
    }
}

#[test]
fn network_order_four_byte_identifiers() {
    let mut data = header(4, 0, 0);
    let mut body = vec![0x01, 0x02, 0x03, 0x04];
    body.extend_from_slice(b"ab");
    data.extend(record(0x01, 0, &body));
    let mut it = open(&data);
    match it.next() {
        Some(Ok((_, Record::String(id, s)))) => {
            assert_eq!(id, Id(0x0102_0304));
            assert_eq!(s, b"ab");
        }
        other => panic!("unexpected {:?}", other),
    }
}

#[test]
fn field_type_sizes() {
    assert_eq!(FieldType::Bool.byte_size().unwrap(), 1);
    assert_eq!(FieldType::Byte.byte_size().unwrap(), 1);
    assert_eq!(FieldType::Char.byte_size().unwrap(), 2);
    assert_eq!(FieldType::Short.byte_size().unwrap(), 2);
    assert_eq!(FieldType::Float.byte_size().unwrap(), 4);
    assert_eq!(FieldType::Int.byte_size().unwrap(), 4);
    assert_eq!(FieldType::Double.byte_size().unwrap(), 8);
    assert_eq!(FieldType::Long.byte_size().unwrap(), 8);
    assert!(matches!(FieldType::Object.byte_size(), Err(Error::InvalidField(_))));
}

#[test]
fn field_type_codes() {
    assert_eq!(FieldType::from_code(2), Some(FieldType::Object));
    assert_eq!(FieldType::from_code(10), Some(FieldType::Int));
    assert_eq!(FieldType::from_code(11), Some(FieldType::Long));
    assert_eq!(FieldType::from_code(3), None);
    assert_eq!(FieldType::from_code(12), None);
}

#[test]
fn builders_set_their_option() {
    let r = StreamHprofReader::new();
    assert_eq!(r.id_byteorder, ByteOrder::Native);
    assert!(r.load_primitive_arrays && r.load_object_arrays);
    let r = r
        .with_id_byteorder(ByteOrder::Network)
        .with_load_primitive_arrays(false)
        .with_load_object_arrays(false);
    assert_eq!(r.id_byteorder, ByteOrder::Network);
    assert!(!r.load_primitive_arrays && !r.load_object_arrays);
}

#[test]
fn id_conversions() {
    assert_eq!(Id::from(5u64), Id(5));
    assert_eq!(Id::from(7u32), Id(7));
    assert_eq!(u64::from(Id(9)), 9);
}

#[test]
fn polls_end_within_the_input_size() {
    let mut data = header(8, 0, 0);
    let mut body = vec![0x05];
    body.extend(u64be(1));
    body.extend([0x07]);
    body.extend(u64be(2));
    data.extend(segment(&body));
    data.extend(record(0x2C, 0, &[]));
    data.extend(record(0x0B, 0, &u32be(3)));
    let mut it = open(&data);
    let mut items = 0;
    while it.next().is_some() {
        items += 1;
        assert!(items <= 2 * data.len() + 2);
    }
    assert_eq!(items, 3);
    assert!(it.next().is_none());
}

#[test]
fn segment_end_returns_to_top_level_exactly() {
    let mut data = header(8, 0, 0);
    let mut body = vec![0x01];
    body.extend(u64be(4));
    body.extend(u64be(5));
    data.extend(segment(&body));
    data.extend(record(0x03, 9, &u32be(6)));
    let mut it = open(&data);
    assert!(matches!(
        next_dump(&mut it),
        DumpRecord::RootJniGlobal { obj_id: Id(4), jni_global_ref: Id(5) }
    ));
    assert!(matches!(it.next(), Some(Ok((9, Record::UnloadClass(6))))));
    assert!(it.next().is_none());
}

#[test]
fn decoded_record_re_encodes_to_its_bytes() {
    let mut body = u32be(0x0102_0304);
    body.extend(u64be(0x1122_3344_5566_7788));
    body.extend(u32be(0xA0B0_C0D0));
    body.extend(u64be(0x99));
    let mut data = header(8, 0, 0);
    data.extend(record(0x02, 0, &body));
    let mut it = open(&data);
    match it.next() {
        Some(Ok((_, Record::LoadClass(c)))) => {
            let mut again = u32be(c.serial);
            again.extend(u64be(c.class_obj_id.0));
            again.extend(u32be(c.stack_trace_serial));
            again.extend(u64be(c.class_name_string_id.0));
            assert_eq!(again, body);
        }
        other => panic!("unexpected {:?}", other),
    }
}

#[test]
fn decoded_dumps_re_encode_to_their_bytes() {
    let class = class_dump(7, 0, &[(100, 10), (101, 4)]);
    let instance = instance_dump(9, 7, &[0, 0, 0, 5, 1]);
    let mut body = class.clone();
    body.extend(instance.clone());
    let mut data = header(8, 0, 0);
    data.extend(segment(&body));
    let mut it = open(&data);
    match next_dump(&mut it) {
        DumpRecord::ClassDump(c) => {
            let mut again = vec![0x20];
            again.extend(u64be(c.class_id.0));
            again.extend(u32be(c.stack_trace_serial));
            for id in [
                c.super_class_object_id,
                c.class_loader_object_id,
                c.signers_object_id,
                c.protection_domain_object_id,
                c.reserved1,
                c.reserved2,
            ] {
                again.extend(u64be(id.0));
            }
            again.extend(u32be(c.instance_size));
            again.extend(u16be(c.const_fields.len() as u16));
            again.extend(u16be(c.static_fields.len() as u16));
            again.extend(u16be(c.instance_fields.len() as u16));
            for f in &c.instance_fields {
                again.extend(u64be(f.name_id.0));
                again.push(match f.field_type {
                    FieldType::Int => 10,
                    FieldType::Bool => 4,
                    other => panic!("unexpected {:?}", other),
                });
            }
            assert_eq!(again, class);
        }
        other => panic!("unexpected {:?}", other),
    }
    match next_dump(&mut it) {
        DumpRecord::InstanceDump(d) => {
            let mut again = vec![0x21];
            again.extend(u64be(d.object_id.0));
            again.extend(u32be(d.stack_trace_serial));
            again.extend(u64be(d.class_object_id.0));
            again.extend(u32be(d.data_size));
            for (_, v) in &d.values {
                match v {
                    FieldValue::Int(x) => again.extend(x.to_be_bytes()),
                    FieldValue::Bool(b) => again.push(*b as u8),
                    other => panic!("unexpected {:?}", other),
                }
            }
            assert_eq!(again, instance);
        }
        other => panic!("unexpected {:?}", other),
    }
}
