use lv2_atom::atoms::chunk::Chunk;
use lv2_atom::atoms::object::{Object, ObjectHeader, PropertyHeader};
use lv2_atom::atoms::scalar::{AtomURID, Bool, Double, Float, Int, Long, ScalarAtom};
use lv2_atom::atoms::sequence::{Sequence, SequenceUnitType};
use lv2_atom::atoms::string::{Literal, LiteralInfo, String as StringAtom};
use lv2_atom::atoms::tuple::Tuple;
use lv2_atom::atoms::vector::Vector;
use lv2_atom::atoms::{atom_uri_str, AtomURIDCollection};
use lv2_atom::atoms::bodies::{LiteralBody, ObjectBody, PropertyBody, SequenceBody, VectorBody};
use lv2_atom::header::AtomHeader;
use lv2_atom::space::allocator::SpaceAllocator;
use lv2_atom::space::cursor::SpaceCursor;
use lv2_atom::space::error::{AtomReadError, AtomWriteError, UriKind};
use lv2_atom::space::vec::AlignedVec;
use lv2_atom::space::writer::SpaceWriter;
use lv2_atom::unidentified::UnidentifiedAtom;
use urid::HashURIDMapper;

fn urids(map: &mut HashURIDMapper) -> AtomURIDCollection {
    AtomURIDCollection::from_map(map).0.unwrap()
}

fn test_scalar<A: ScalarAtom>(kind: UriKind, urid: u32, value: A::InternalType)
where
    A::InternalType: PartialEq + std::fmt::Debug,
{
    let mut raw_space = AlignedVec::<AtomHeader>::new_with_capacity(64);

    // writing
    {
        let mut space = SpaceCursor::new(raw_space.as_bytes_mut());
        let frame = space.write_atom(urid).unwrap();
        A::write_scalar(frame).set(value).unwrap();
    }

    // verifying
    {
        let mut reader = raw_space.as_space().read();
        let header: AtomHeader = reader.next_value().unwrap();
        let body: A::InternalType = reader.next_value().unwrap();

        assert_eq!(header.type_, urid);
        assert_eq!(header.size as usize, 8); // All are always aligned and padded
        assert_eq!(body, value);
    }

    // reading
    {
        let atom = raw_space.as_space().read().next_atom().unwrap();
        let read_value = A::read_scalar(&atom.read(kind, urid).unwrap()).unwrap();
        assert_eq!(read_value, value);
    }
}

#[test]
fn scalar_test_scalars() {
    let mut map = HashURIDMapper::new();
    let urids = urids(&mut map);
    test_scalar::<Double>(UriKind::Double, urids.double, 42.0f64.to_bits());
    test_scalar::<Float>(UriKind::Float, urids.float, 42.0f32.to_bits());
    test_scalar::<Long>(UriKind::Long, urids.long, 42);
    test_scalar::<Int>(UriKind::Int, urids.int, 42);
    test_scalar::<Bool>(UriKind::Bool, urids.bool, 1);
    test_scalar::<AtomURID>(UriKind::Urid, urids.urid, 1);
}

#[test]
fn chunk_test_chunk_and_slice_writer() {
    const SLICE_LENGTH: usize = 42;

    let mut map = HashURIDMapper::new();
    let urids = urids(&mut map);

    let mut raw_space = AlignedVec::<AtomHeader>::new_with_capacity(64);

    // writing
    {
        let mut space = SpaceCursor::new(raw_space.as_bytes_mut());
        {
            let mut writer = Chunk::write(space.write_atom(urids.chunk).unwrap()).unwrap();
            let data = writer.allocate(SLICE_LENGTH).unwrap();
            let values: Vec<u8> = (0..SLICE_LENGTH).map(|i| i as u8).collect();
            writer.write_at(data, &values);
        }
        space.write_value(41u8).unwrap();
    }

    // verifying
    {
        let atom = raw_space.as_space().read().next_atom().unwrap();
        assert_eq!(atom.header().size_of_body(), SLICE_LENGTH);
        assert_eq!(atom.header().urid(), urids.chunk);

        let data = atom.body().as_bytes();
        for (i, value) in data.iter().enumerate() {
            assert_eq!(*value as usize, i);
        }
    }

    // reading
    {
        let atom = raw_space.as_space().read().next_atom().unwrap();
        let data = Chunk::read(&atom.body()).unwrap();
        assert_eq!(data.bytes_len(), SLICE_LENGTH);

        for (i, value) in data.as_bytes().iter().enumerate() {
            assert_eq!(*value as usize, i);
        }
    }
}

#[test]
fn slice_test_chunk_and_slice_writer() {
    const SLICE_LENGTH: usize = 42;

    let mut map = HashURIDMapper::new();
    let urids = urids(&mut map);

    let mut raw_space = AlignedVec::<AtomHeader>::new_with_capacity(256 / 8);

    // writing
    {
        let mut space = SpaceCursor::new(raw_space.as_bytes_mut());
        {
            let mut writer = Chunk::write(space.write_atom(urids.chunk).unwrap()).unwrap();
            let values: Vec<u8> = (0..SLICE_LENGTH).map(|i| i as u8).collect();
            writer.write_bytes(&values).unwrap();
        }
        space.write_value(41u8).unwrap();
    }

    // verifying
    {
        let mut reader = raw_space.as_space().read();
        let header: AtomHeader = reader.next_value().unwrap();
        assert_eq!(header.size as usize, SLICE_LENGTH);
        assert_eq!(header.type_, urids.chunk);
        let data = reader.next_bytes(SLICE_LENGTH).unwrap();
        for (i, value) in data.iter().enumerate() {
            assert_eq!(*value as usize, i);
        }
    }

    // reading
    {
        let atom = raw_space.as_space().read().next_atom().unwrap();
        let data = Chunk::read(&atom.read(UriKind::Chunk, urids.chunk).unwrap()).unwrap();
        assert_eq!(data.bytes_len(), SLICE_LENGTH);
        for (i, value) in data.as_bytes().iter().enumerate() {
            assert_eq!(*value as usize, i);
        }
    }
}

fn write_and_check_vector(capacity: usize) {
    const CHILD_COUNT: usize = 17;

    let mut map = HashURIDMapper::new();
    let urids = urids(&mut map);

    let mut raw_space = AlignedVec::<AtomHeader>::new_with_capacity(capacity);

    // writing
    {
        let mut space = SpaceCursor::new(raw_space.as_bytes_mut());
        let mut writer = Vector::write(space.write_atom(urids.vector).unwrap())
            .unwrap()
            .of_type::<Int>(urids.int)
            .unwrap();

        writer.append(&[42; CHILD_COUNT - 1]).unwrap();
        writer.push(1).unwrap();
    }

    // verifying
    {
        let mut reader = raw_space.as_space().read();
        let header: AtomHeader = reader.next_value().unwrap();
        let body: VectorBody = reader.next_value().unwrap();
        assert_eq!(header.type_, urids.vector);
        assert_eq!(header.size as usize, 8 + 4 * CHILD_COUNT);
        assert_eq!(body.child_size as usize, 4);
        assert_eq!(body.child_type, urids.int);

        let children = reader.next_values::<i32>(CHILD_COUNT).unwrap();
        assert_eq!(children.len(), CHILD_COUNT);
        for value in &children[..CHILD_COUNT - 1] {
            assert_eq!(*value, 42);
        }
        assert_eq!(children[children.len() - 1], 1);
    }

    // reading
    {
        let atom = raw_space.as_space().read().next_atom().unwrap();
        let reader = Vector::read(&atom.read(UriKind::Vector, urids.vector).unwrap()).unwrap();
        assert_eq!(reader.len(), CHILD_COUNT);
        assert!(!reader.is_empty());
        let children = reader.of_type::<Int>(urids.int).unwrap();

        assert_eq!(children.len(), CHILD_COUNT);
        for i in &children[..CHILD_COUNT - 1] {
            assert_eq!(*i, 42);
        }
        assert_eq!(children[children.len() - 1], 1);
    }
}

#[test]
fn vector_test_vector() {
    write_and_check_vector(64);
}

#[test]
fn slice_test_vector() {
    write_and_check_vector(256 / 8);
}

#[test]
fn vector_of_wrong_type_is_refused() {
    let mut map = HashURIDMapper::new();
    let urids = urids(&mut map);
    let mut raw_space = AlignedVec::<AtomHeader>::new_with_capacity(8);
    {
        let mut space = SpaceCursor::new(raw_space.as_bytes_mut());
        let mut writer = Vector::write(space.write_atom(urids.vector).unwrap())
            .unwrap()
            .of_type::<Int>(urids.int)
            .unwrap();
        writer.push(3).unwrap();
    }
    let atom = raw_space.as_space().read().next_atom().unwrap();
    let body = atom.read(UriKind::Vector, urids.vector).unwrap();
    assert_eq!(
        Vector::read(&body).unwrap().of_type::<Long>(urids.long),
        Err(AtomReadError::InvalidAtomUrid {
            expected: UriKind::Long,
            expected_urid: urids.long,
            found_urid: urids.int,
        })
    );
    assert_eq!(
        Vector::read(&body).unwrap().of_type::<Long>(urids.int),
        Err(AtomReadError::InvalidAtomValue {
            reading_type: UriKind::Vector,
            error_message: "child_size value does not match actual size of type",
        })
    );
    assert_eq!(Vector::read(&body).unwrap().of_type::<Int>(urids.int).unwrap(), vec![3]);
}

#[test]
fn tuple_test_tuple() {
    let mut map = HashURIDMapper::new();
    let urids = urids(&mut map);

    let mut raw_space = AlignedVec::<AtomHeader>::new_with_capacity(64);

    // writing
    {
        let mut cursor = SpaceCursor::new(raw_space.as_bytes_mut());
        let mut writer = Tuple::write(cursor.write_atom(urids.tuple).unwrap()).unwrap();
        {
            let mut vector_writer = Vector::write(writer.init(urids.vector).unwrap())
                .unwrap()
                .of_type::<Int>(urids.int)
                .unwrap();
            vector_writer.append(&[17; 9]).unwrap();
        }
        Int::write_scalar(writer.init(urids.int).unwrap()).set(42).unwrap();
    }

    // verifying
    {
        let atom = raw_space.as_space().read().next_atom().unwrap();
        let header = atom.header();
        assert_eq!(header.urid(), urids.tuple);
        assert_eq!(header.size_of_body(), 16 + 4 * 9 + 4 + 16);

        let mut reader = atom.body().read();
        let vector_header: AtomHeader = reader.next_value().unwrap();
        let vector_body: VectorBody = reader.next_value().unwrap();

        assert_eq!(vector_header.type_, urids.vector);
        assert_eq!(vector_header.size as usize, 8 + 4 * 9);
        assert_eq!(vector_body.child_size as usize, 4);
        assert_eq!(vector_body.child_type, urids.int);

        let vector_items = reader.next_values::<i32>(9).unwrap();
        assert_eq!(vector_items, [17; 9]);

        let int_header: AtomHeader = reader.next_value().unwrap();
        let int_body: i32 = reader.next_value().unwrap();
        assert_eq!(int_header.type_, urids.int);
        assert_eq!(int_header.size as usize, 8);
        assert_eq!(int_body, 42);
    }

    // reading
    {
        let atom = raw_space.as_space().read().next_atom().unwrap();
        let mut iter = Tuple::read(&atom.read(UriKind::Tuple, urids.tuple).unwrap()).unwrap();
        let mut items: Vec<UnidentifiedAtom> = Vec::new();
        while let Some(item) = iter.next() {
            items.push(item);
        }
        assert_eq!(items.len(), 2);
        let vector = Vector::read(&items[0].read(UriKind::Vector, urids.vector).unwrap()).unwrap();
        assert_eq!(vector.of_type::<Int>(urids.int).unwrap(), [17; 9]);
        let int = Int::read_scalar(&items[1].read(UriKind::Int, urids.int).unwrap()).unwrap();
        assert_eq!(int, 42);
    }
}

#[test]
fn object_test_object() {
    let mut map = HashURIDMapper::new();
    let urids = urids(&mut map);

    let object_type = urid::Map::map_str(&map, "urn:my-type").unwrap().get();

    let first_key = urid::Map::map_str(&map, "urn:value-a").unwrap().get();
    let first_value: i32 = 17;

    let second_key = urid::Map::map_str(&map, "urn:value-b").unwrap().get();
    let second_value: f32 = 42.0;

    let mut raw_space = AlignedVec::<AtomHeader>::new_with_capacity(64);

    // writing
    {
        let mut cursor = SpaceCursor::new(raw_space.as_bytes_mut());
        let frame = cursor.write_atom(urids.object).unwrap();
        let mut writer = Object::write(frame)
            .unwrap()
            .write_header(ObjectHeader { id: None, otype: object_type })
            .unwrap();
        {
            Int::write_scalar(writer.new_property(first_key, urids.int).unwrap())
                .set(first_value)
                .unwrap();
        }
        {
            Float::write_scalar(writer.new_property(second_key, urids.float).unwrap())
                .set(second_value.to_bits())
                .unwrap();
        }
    }

    // verifying
    {
        // Header
        let atom = raw_space.as_space().read().next_atom().unwrap();

        assert_eq!(atom.header().urid(), urids.object);
        assert_eq!(atom.header().size_of_body(), 8 + 8 + 2 * 4 + 8 + 8 + 2 * 4 + 8);

        // Object.
        let mut object_reader = atom.body().read();
        let object: ObjectBody = object_reader.next_value().unwrap();
        assert_eq!(object.id, 0);
        assert_eq!(object.otype, object_type);

        // First property.
        let property: PropertyBody = object_reader.next_value().unwrap();
        let value_header: AtomHeader = object_reader.next_value().unwrap();
        assert_eq!(property.key, first_key);
        assert_eq!(property.context, 0);
        assert_eq!(value_header.type_, urids.int);
        assert_eq!(value_header.size as usize, 2 * 4);

        let value: i32 = object_reader.next_value().unwrap();
        assert_eq!(value, first_value);

        // Second property.
        let property: PropertyBody = object_reader.next_value().unwrap();
        let value_header: AtomHeader = object_reader.next_value().unwrap();
        assert_eq!(property.key, second_key);
        assert_eq!(property.context, 0);
        assert_eq!(value_header.type_, urids.float);
        assert_eq!(value_header.size as usize, 2 * 4);

        let value: u32 = object_reader.next_value().unwrap();
        assert_eq!(f32::from_bits(value), second_value);
        assert_eq!(object_reader.remaining_bytes().len(), 4);
    }

    // reading
    {
        let atom = raw_space.as_space().read().next_atom().unwrap();
        let (header, mut iter) = Object::read(&atom.read(UriKind::Object, urids.object).unwrap())
            .unwrap();

        assert_eq!(header.otype, object_type);
        assert_eq!(header.id, None);

        let mut properties: Vec<(PropertyHeader, UnidentifiedAtom)> = Vec::new();
        while let Some(property) = iter.next() {
            properties.push(property);
        }

        let (header, atom) = properties[0];
        assert_eq!(header.key, first_key);
        assert_eq!(
            Int::read_scalar(&atom.read(UriKind::Int, urids.int).unwrap()).unwrap(),
            first_value
        );

        let (header, atom) = properties[1];
        assert_eq!(header.key, second_key);
        assert_eq!(
            f32::from_bits(Float::read_scalar(&atom.read(UriKind::Float, urids.float).unwrap()).unwrap()),
            second_value
        );
    }
}

const SAMPLE0: &str = "Da steh ich nun, ich armer Tor! ";
const SAMPLE1: &str = "Und bin so klug als wie zuvor;";

#[test]
fn string_test_literal() {
    let mut map = HashURIDMapper::new();
    let urids = urids(&mut map);
    let german = urid::Map::map_str(&map, "http://lexvo.org/id/iso639-1/de").unwrap().get();

    let mut raw_space = AlignedVec::<AtomHeader>::new_with_capacity(64);

    // writing
    {
        let mut space = SpaceCursor::new(raw_space.as_bytes_mut());

        let mut writer = Literal::write(space.write_atom(urids.literal).unwrap())
            .unwrap()
            .write_info(LiteralInfo::Language(german))
            .unwrap();

        writer.append(SAMPLE0).unwrap();
        writer.append(SAMPLE1).unwrap();
    }

    // verifying
    {
        let mut reader = raw_space.as_space().read();
        let header: AtomHeader = reader.next_value().unwrap();
        let body: LiteralBody = reader.next_value().unwrap();

        assert_eq!(header.type_, urids.literal);
        assert_eq!(header.size as usize, 8 + SAMPLE0.len() + SAMPLE1.len() + 1);
        assert_eq!(body.lang, german);
        assert_eq!(body.datatype, 0);

        let size = header.size as usize - 8;
        let bytes = reader.next_bytes(size).unwrap();
        assert_eq!(bytes[size - 1], 0);
        let string = std::str::from_utf8(&bytes[..size - 1]).unwrap();
        assert_eq!(SAMPLE0.to_owned() + SAMPLE1, string);
    }

    // reading
    {
        let atom = raw_space.as_space().read().next_atom().unwrap();
        let (info, text) = Literal::read(&atom.read(UriKind::Literal, urids.literal).unwrap())
            .unwrap();

        assert_eq!(info, LiteralInfo::Language(german));
        assert_eq!(text, SAMPLE0.to_owned() + SAMPLE1);
    }
}

#[test]
fn string_test_string() {
    let mut map = HashURIDMapper::new();
    let urids = urids(&mut map);

    let mut raw_space = AlignedVec::<AtomHeader>::new_with_capacity(64);

    // writing
    {
        let mut space = SpaceCursor::new(raw_space.as_bytes_mut());

        let mut writer = StringAtom::write(space.write_atom(urids.string).unwrap()).unwrap();
        writer.append(SAMPLE0).unwrap();
        writer.append(SAMPLE1).unwrap();
    }

    // verifying
    {
        let mut reader = raw_space.as_space().read();
        let header: AtomHeader = reader.next_value().unwrap();
        assert_eq!(header.type_, urids.string);
        assert_eq!(header.size as usize, SAMPLE0.len() + SAMPLE1.len() + 1);

        let string = std::str::from_utf8(reader.next_bytes(header.size as usize).unwrap()).unwrap();
        assert_eq!(string[..string.len() - 1], SAMPLE0.to_owned() + SAMPLE1);
    }

    // reading
    {
        let atom = raw_space.as_space().read().next_atom().unwrap();
        let string = StringAtom::read(&atom.read(UriKind::String, urids.string).unwrap()).unwrap();
        assert_eq!(string, SAMPLE0.to_owned() + SAMPLE1);
    }
}

#[test]
fn string_without_terminator_is_refused() {
    let mut map = HashURIDMapper::new();
    let urids = urids(&mut map);
    let mut raw_space = AlignedVec::<AtomHeader>::new_with_capacity(8);
    {
        let mut space = SpaceCursor::new(raw_space.as_bytes_mut());
        let mut writer = Chunk::write(space.write_atom(urids.string).unwrap()).unwrap();
        writer.write_bytes(b"ab").unwrap();
    }
    let atom = raw_space.as_space().read().next_atom().unwrap();
    assert_eq!(
        StringAtom::read(&atom.read(UriKind::String, urids.string).unwrap()),
        Err(AtomReadError::InvalidAtomValue {
            reading_type: UriKind::String,
            error_message: "String value is not null-terminated",
        })
    );
}

#[test]
fn sequence_test_sequence() {
    let mut map = HashURIDMapper::new();
    let urids = urids(&mut map);
    let frame = urid::Map::map_str(&map, "http://lv2plug.in/ns/extensions/units#frame").unwrap().get();

    let mut raw_space = AlignedVec::<AtomHeader>::new_with_capacity(64);

    // writing
    {
        let mut space = SpaceCursor::new(raw_space.as_bytes_mut());
        let mut writer = Sequence::write(space.write_atom(urids.sequence).unwrap())
            .unwrap()
            .with_unit(frame)
            .unwrap();

        Int::write_scalar(writer.new_event(0, urids.int).unwrap()).set(42).unwrap();
        Long::write_scalar(writer.new_event(1, urids.long).unwrap()).set(17).unwrap();
    }

    // verifying
    {
        let mut reader = raw_space.as_space().read();
        let header: AtomHeader = reader.next_value().unwrap();
        let body: SequenceBody = reader.next_value().unwrap();
        assert_eq!(header.type_, urids.sequence);
        assert_eq!(header.size as usize, 8 + 8 + 16 + 8 + 16);
        assert_eq!(body.unit, frame);

        let stamp: i64 = reader.next_value().unwrap();
        assert_eq!(stamp, 0);

        let int_header: AtomHeader = reader.next_value().unwrap();
        let int_body: i32 = reader.next_value().unwrap();
        assert_eq!(int_header.type_, urids.int);
        assert_eq!(int_header.size as usize, 2 * 4);
        assert_eq!(int_body, 42);

        let stamp: i64 = reader.next_value().unwrap();
        assert_eq!(stamp, 1);

        let long_header: AtomHeader = reader.next_value().unwrap();
        let long_body: i64 = reader.next_value().unwrap();
        assert_eq!(long_header.type_, urids.long);
        assert_eq!(long_header.size as usize, 8);
        assert_eq!(long_body, 17);
    }

    // reading
    {
        let atom = raw_space.as_space().read().next_atom().unwrap();
        let mut reader = Sequence::read(&atom.read(UriKind::Sequence, urids.sequence).unwrap())
            .unwrap()
            .with_unit(SequenceUnitType::Frame, frame)
            .unwrap();

        let (stamp, atom) = reader.next().unwrap();
        assert_eq!(stamp as i64, 0);
        assert_eq!(Int::read_scalar(&atom.read(UriKind::Int, urids.int).unwrap()).unwrap(), 42);

        let (stamp, atom) = reader.next().unwrap();
        assert_eq!(stamp as i64, 1);
        assert_eq!(Long::read_scalar(&atom.read(UriKind::Long, urids.long).unwrap()).unwrap(), 17);

        assert!(reader.next().is_none());
    }
}

#[test]
fn sequence_refuses_decreasing_time_stamps() {
    let mut map = HashURIDMapper::new();
    let urids = urids(&mut map);
    let mut raw_space = AlignedVec::<AtomHeader>::new_with_capacity(64);
    let mut space = SpaceCursor::new(raw_space.as_bytes_mut());
    let mut writer = Sequence::write(space.write_atom(urids.sequence).unwrap())
        .unwrap()
        .with_frame_unit()
        .unwrap();
    Int::write_scalar(writer.new_event(5, urids.int).unwrap()).set(1).unwrap();
    assert_eq!(
        writer.new_event(4, urids.int).err(),
        Some(AtomWriteError::WritingIllegalState { writing_type: UriKind::Sequence })
    );
    assert!(writer.new_event(5, urids.int).is_ok());
}

fn write_ints(ints: &[(i64, i32)], buf: &mut AlignedVec<AtomHeader>, urids: &AtomURIDCollection) {
    let mut cursor = buf.write();
    let mut sequence = Sequence::write(cursor.write_atom(urids.sequence).unwrap())
        .unwrap()
        .with_frame_unit()
        .unwrap();

    for (timestamp, value) in ints {
        Int::write_scalar(sequence.new_event(*timestamp, urids.int).unwrap())
            .set(*value)
            .unwrap();
    }
}

#[test]
pub fn example() {
    let mut mapper = HashURIDMapper::new();
    let urids = urids(&mut mapper);
    let frame = urid::Map::map_str(&mapper, "http://lv2plug.in/ns/extensions/units#frame").unwrap().get();
    let mut first_buf = AlignedVec::<AtomHeader>::new();
    let mut second_buf = AlignedVec::<AtomHeader>::new();

    write_ints(&[(1, 10), (2, 20), (5, 50), (6, 60)], &mut first_buf, &urids);
    write_ints(&[(3, 30), (4, 40), (5, 55), (8, 80)], &mut second_buf, &urids);

    let first_space = first_buf.as_space();
    let first_atom = first_space.read().next_atom().unwrap();
    let first_seq = Sequence::read(&first_atom.read(UriKind::Sequence, urids.sequence).unwrap())
        .unwrap()
        .with_unit(SequenceUnitType::Frame, frame)
        .unwrap();

    let second_space = second_buf.as_space();
    let second_atom = second_space.read().next_atom().unwrap();
    let second_seq = Sequence::read(&second_atom.read(UriKind::Sequence, urids.sequence).unwrap())
        .unwrap()
        .with_unit(SequenceUnitType::Frame, frame)
        .unwrap();

    let mut zipped = first_seq.zip_sequence(second_seq);
    let mut ints: Vec<(i64, i32)> = Vec::new();
    while let Some((t, val)) = zipped.next() {
        ints.push((
            t as i64,
            Int::read_scalar(&val.read(UriKind::Int, urids.int).unwrap()).unwrap(),
        ));
    }

    assert_eq!(
        ints,
        &[(1, 10), (2, 20), (3, 30), (4, 40), (5, 50), (5, 55), (6, 60), (8, 80)]
    )
}

#[test]
fn atom_urid_collection_maps_in_field_order() {
    let mut map = HashURIDMapper::new();
    let urids = urids(&mut map);
    assert_eq!(urids.blank, 1);
    assert_eq!(urids.double, 2);
    assert_eq!(urids.int, 4);
    assert_eq!(urids.sequence, 15);
    assert_eq!(urid::Map::map_str(&map, "http://lv2plug.in/ns/ext/atom#Int").unwrap().get(), 4);
}

#[test]
fn sequence_with_another_unit_is_refused() {
    let mut map = HashURIDMapper::new();
    let urids = urids(&mut map);
    let frame = urid::Map::map_str(&map, "http://lv2plug.in/ns/extensions/units#frame").unwrap().get();
    let beat = urid::Map::map_str(&map, "http://lv2plug.in/ns/extensions/units#beat").unwrap().get();
    let mut raw_space = AlignedVec::<AtomHeader>::new_with_capacity(8);
    {
        let mut space = SpaceCursor::new(raw_space.as_bytes_mut());
        Sequence::write(space.write_atom(urids.sequence).unwrap())
            .unwrap()
            .with_unit(frame)
            .unwrap();
    }
    let atom = raw_space.as_space().read().next_atom().unwrap();
    let body = atom.read(UriKind::Sequence, urids.sequence).unwrap();
    assert!(Sequence::read(&body).unwrap().with_unit(SequenceUnitType::Frame, frame).is_ok());
    assert_eq!(
        Sequence::read(&body).unwrap().with_unit(SequenceUnitType::Beat, beat).err(),
        Some(AtomReadError::InvalidUrid {
            expected: UriKind::Beat,
            expected_urid: beat,
            found_urid: frame,
        })
    );
    // a sequence in frames may leave its unit at 0
    let mut raw_space = AlignedVec::<AtomHeader>::new_with_capacity(8);
    {
        let mut space = SpaceCursor::new(raw_space.as_bytes_mut());
        Sequence::write(space.write_atom(urids.sequence).unwrap())
            .unwrap()
            .with_frame_unit()
            .unwrap();
    }
    let atom = raw_space.as_space().read().next_atom().unwrap();
    let body = atom.read(UriKind::Sequence, urids.sequence).unwrap();
    assert!(Sequence::read(&body).unwrap().with_unit(SequenceUnitType::Frame, frame).is_ok());
    assert!(Sequence::read(&body).unwrap().with_unit(SequenceUnitType::Beat, beat).is_err());
}

#[test]
fn reading_an_atom_of_another_type_is_refused() {
    let mut map = HashURIDMapper::new();
    let urids = urids(&mut map);
    let mut raw_space = AlignedVec::<AtomHeader>::new_with_capacity(8);
    {
        let mut space = SpaceCursor::new(raw_space.as_bytes_mut());
        Int::write_scalar(space.write_atom(urids.int).unwrap()).set(3).unwrap();
    }
    let atom = raw_space.as_space().read().next_atom().unwrap();
    assert_eq!(
        atom.read(UriKind::Long, urids.long).err(),
        Some(AtomReadError::InvalidAtomUrid {
            expected: UriKind::Long,
            expected_urid: urids.long,
            found_urid: urids.int,
        })
    );
}

#[test]
fn object_without_type_is_refused() {
    let mut map = HashURIDMapper::new();
    let urids = urids(&mut map);
    let mut raw_space = AlignedVec::<AtomHeader>::new_with_capacity(8);
    {
        let mut space = SpaceCursor::new(raw_space.as_bytes_mut());
        let mut writer = Chunk::write(space.write_atom(urids.object).unwrap()).unwrap();
        writer.write_value(ObjectBody { id: 0, otype: 0 }).unwrap();
    }
    let atom = raw_space.as_space().read().next_atom().unwrap();
    assert_eq!(
        Object::read(&atom.body()).err(),
        Some(AtomReadError::InvalidAtomValue {
            reading_type: UriKind::Object,
            error_message: "Invalid object type URID: 0",
        })
    );
}

#[test]
fn literal_without_information_is_refused() {
    let mut map = HashURIDMapper::new();
    let urids = urids(&mut map);
    let mut raw_space = AlignedVec::<AtomHeader>::new_with_capacity(8);
    {
        let mut space = SpaceCursor::new(raw_space.as_bytes_mut());
        let mut writer = Chunk::write(space.write_atom(urids.literal).unwrap()).unwrap();
        writer.write_value(LiteralBody { lang: 0, datatype: 0 }).unwrap();
        writer.write_bytes(&[0]).unwrap();
    }
    let atom = raw_space.as_space().read().next_atom().unwrap();
    assert_eq!(
        Literal::read(&atom.body()).err(),
        Some(AtomReadError::InvalidAtomValue {
            reading_type: UriKind::Literal,
            error_message: "Invalid Literal header: neither lang or datatype URIDs are set",
        })
    );
}

#[test]
fn literal_with_invalid_text_gives_its_valid_prefix() {
    let mut map = HashURIDMapper::new();
    let urids = urids(&mut map);
    let mut raw_space = AlignedVec::<AtomHeader>::new_with_capacity(8);
    {
        let mut space = SpaceCursor::new(raw_space.as_bytes_mut());
        let mut writer = Chunk::write(space.write_atom(urids.literal).unwrap()).unwrap();
        writer.write_value(LiteralBody { lang: 0, datatype: 9 }).unwrap();
        writer.write_bytes(&[b'a', b'b', 0xff, b'c', 0]).unwrap();
    }
    let atom = raw_space.as_space().read().next_atom().unwrap();
    let (info, text) = Literal::read(&atom.body()).unwrap();
    assert_eq!(info, LiteralInfo::Datatype(9));
    assert_eq!(text, "ab");
}

#[test]
fn object_properties_with_context() {
    let mut map = HashURIDMapper::new();
    let urids = urids(&mut map);
    let mut raw_space = AlignedVec::<AtomHeader>::new_with_capacity(16);
    {
        let mut space = SpaceCursor::new(raw_space.as_bytes_mut());
        let mut writer = Object::write(space.write_atom(urids.object).unwrap())
            .unwrap()
            .write_header(ObjectHeader { id: Some(7), otype: 3 })
            .unwrap();
        Int::write_scalar(writer.new_property_with_context(5, 6, urids.int).unwrap())
            .set(-1)
            .unwrap();
    }
    let atom = raw_space.as_space().read().next_atom().unwrap();
    let (header, mut iter) = Object::read(&atom.body()).unwrap();
    assert_eq!(header, ObjectHeader { id: Some(7), otype: 3 });
    let (property, value) = iter.next().unwrap();
    assert_eq!(property, PropertyHeader { key: 5, context: Some(6) });
    assert_eq!(Int::read_scalar(&value.body()).unwrap(), -1);
    assert!(iter.next().is_none());
}

#[test]
fn vector_children_can_be_allocated_then_read() {
    let mut map = HashURIDMapper::new();
    let urids = urids(&mut map);
    let mut raw_space = AlignedVec::<AtomHeader>::new_with_capacity(8);
    {
        let mut space = SpaceCursor::new(raw_space.as_bytes_mut());
        let mut writer = Vector::write(space.write_atom(urids.vector).unwrap())
            .unwrap()
            .of_type::<Long>(urids.long)
            .unwrap();
        // header (8) and vector body (8) come first
        assert_eq!(writer.allocate_uninit(3), Ok(16));
        writer.push(5).unwrap();
    }
    let atom = raw_space.as_space().read().next_atom().unwrap();
    let reader = Vector::read(&atom.read(UriKind::Vector, urids.vector).unwrap()).unwrap();
    assert_eq!(reader.of_type::<Long>(urids.long).unwrap(), vec![0, 0, 0, 5]);
}

#[test]
fn sequence_iterator_reports_its_unit() {
    let mut map = HashURIDMapper::new();
    let urids = urids(&mut map);
    let beat = urid::Map::map_str(&map, "http://lv2plug.in/ns/ext/time#beat").unwrap().get();
    let mut raw_space = AlignedVec::<AtomHeader>::new_with_capacity(8);
    {
        let mut space = SpaceCursor::new(raw_space.as_bytes_mut());
        Sequence::write(space.write_atom(urids.sequence).unwrap())
            .unwrap()
            .with_unit(beat)
            .unwrap();
    }
    let atom = raw_space.as_space().read().next_atom().unwrap();
    let mut events = Sequence::read(&atom.read(UriKind::Sequence, urids.sequence).unwrap())
        .unwrap()
        .with_unit(SequenceUnitType::Beat, beat)
        .unwrap();
    assert_eq!(events.unit_type(), SequenceUnitType::Beat);
    assert!(events.next().is_none());
}

#[test]
fn urid_collection_from_urids_follows_field_order() {
    let values: Vec<u32> = (1..=15).map(|i| i * 10).collect();
    let c = AtomURIDCollection::from_urids(&values);
    assert_eq!(c.blank, 10);
    assert_eq!(c.int, 40);
    assert_eq!(c.urid, 60);
    assert_eq!(c.sequence, 150);
    assert_eq!(atom_uri_str(3), "http://lv2plug.in/ns/ext/atom#Int");
    assert_eq!(atom_uri_str(14), "http://lv2plug.in/ns/ext/atom#Sequence");
}
