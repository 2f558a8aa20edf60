use lv2_atom::atom::AtomIter;
use lv2_atom::atoms::scalar::{Int, Long, ScalarAtom};
use lv2_atom::atoms::sequence::{Sequence, SequenceUnitType};
use lv2_atom::atoms::AtomURIDCollection;
use lv2_atom::atomspace::AtomSpace;
use lv2_atom::buf_size::{BufferSizes, MaxBlockLength, MinBlockLength, NominalBlockLength, SequenceSize};
use lv2_atom::frame::{create_atom_frame, RootWritingFrame, WritingFrame};
use lv2_atom::header::AtomHeader;
use lv2_atom::port::{PortReader, PortWriter};
use lv2_atom::space::atom_writer::AtomWriter;
use lv2_atom::space::cursor::SpaceCursor;
use lv2_atom::space::error::UriKind;
use lv2_atom::space::list::{SpaceHead, SpaceList};
use lv2_atom::space::reader::SpaceReader;
use lv2_atom::space::vec::AlignedVec;
use lv2_atom::space::writer::SpaceWriter;
use urid::HashURIDMapper;

#[test]
fn test_atom_space() {
    let mut vector: Vec<u8> = vec![0; 256];
    for i in 0..128 {
        vector[i] = i as u8;
    }
    vector[128..132].copy_from_slice(&0x42424242u32.to_ne_bytes());

    let mut space = AtomSpace::new(vector.as_slice(), 0);
    let lower_space = space.retrieve_raw(128).unwrap();
    for i in 0..128 {
        assert_eq!(lower_space[i], i as u8);
    }

    let integer = space.retrieve_type::<u32>().unwrap();
    assert_eq!(integer, 0x42424242);
}

#[test]
fn atom_space_pads_and_runs_out() {
    let data = [0u8; 12];
    let mut space = AtomSpace::new(&data, 0);
    assert_eq!(space.retrieve_raw(3).unwrap().len(), 3);
    // after 3 bytes and 5 bytes of padding, 4 bytes remain
    assert!(space.retrieve_raw(5).is_none());
    assert_eq!(space.retrieve_space(4).unwrap().retrieve_raw(4).unwrap().len(), 4);
    // the padding after the last 4 bytes does not fit: the space is exhausted
    assert!(space.retrieve_raw(0).is_none());
}

#[test]
fn test_root_frame() {
    const MEMORY_SIZE: usize = 256;
    let mut memory = vec![0u8; MEMORY_SIZE * 8];
    let mut frame = RootWritingFrame::new(&mut memory);

    let test_data: Vec<u8> = (0..24).map(|i| i as u8).collect();

    match frame.write_raw(test_data.as_slice()) {
        Some(written_data) => {
            assert_eq!(test_data.as_slice(), &frame.as_bytes()[written_data..written_data + 24])
        }
        None => panic!("Writing failed!"),
    }

    let test_atom = AtomHeader { size: 42, type_: 1 };
    let written_atom = frame.write(&test_atom).unwrap();
    let mut reader = SpaceReader::new(&frame.as_bytes()[written_atom..], 0);
    let read_atom: AtomHeader = reader.next_value().unwrap();
    assert_eq!(read_atom.size, test_atom.size);
    assert_eq!(read_atom.type_, test_atom.type_);
}

#[test]
fn test_atom_frame() {
    const MEMORY_SIZE: usize = 256;
    let mut memory = vec![0u8; MEMORY_SIZE * 8];
    let mut root = RootWritingFrame::new(&mut memory);

    let mut map = HashURIDMapper::new();
    let urids = AtomURIDCollection::from_map(&mut map).0.unwrap();

    let mut atom_frame = create_atom_frame(&mut root, urids.int).unwrap();

    let test_data: Vec<u8> = (0..24).map(|i| i as u8).collect();

    let written_data = atom_frame.write_raw(test_data.as_slice()).unwrap();
    assert_eq!(test_data.as_slice(), &atom_frame.as_bytes()[written_data..written_data + 24]);
    let mut reader = SpaceReader::new(atom_frame.as_bytes(), 0);
    let header: AtomHeader = reader.next_value().unwrap();
    assert_eq!(header.size, test_data.len() as u32);
    assert_eq!(header.type_, urids.int);

    let test_atom = AtomHeader { size: 42, type_: 1 };
    let written_atom = atom_frame.write(&test_atom).unwrap();
    let mut reader = SpaceReader::new(&atom_frame.as_bytes()[written_atom..], 0);
    let read_atom: AtomHeader = reader.next_value().unwrap();
    assert_eq!(read_atom.size, test_atom.size);
    assert_eq!(read_atom.type_, test_atom.type_);
    let mut reader = SpaceReader::new(atom_frame.as_bytes(), 0);
    let header: AtomHeader = reader.next_value().unwrap();
    assert_eq!(header.size as usize, test_data.len() + 8);
}

#[test]
fn root_frame_closes_when_full() {
    let mut memory = vec![0u8; 16];
    let mut frame = RootWritingFrame::new(&mut memory);
    assert_eq!(frame.write_raw(&[1, 2, 3]), Some(0));
    // 3 bytes and 5 bytes of padding leave 8 bytes: exactly 8 more bytes do not leave room
    // for anything after them, so the frame closes
    assert_eq!(frame.write_raw(&[4; 8]), Some(8));
    assert_eq!(frame.write_raw(&[5]), None);
    assert_eq!(&frame.as_bytes()[..11], &[1, 2, 3, 0, 0, 0, 0, 0, 4, 4, 4]);
}

#[test]
fn test_atom_port() {
    let mut map = HashURIDMapper::new();
    let urids = AtomURIDCollection::from_map(&mut map).0.unwrap();

    let mut raw_space: Box<[u8]> = Box::new([0; 256]);

    // writing a chunk to indicate the size of the space.
    {
        let mut space = SpaceCursor::new(raw_space.as_mut());
        let mut writer = AtomWriter::write_new(&mut space, urids.chunk).unwrap();
        writer.allocate(256 - 8).unwrap();
    }

    // Getting a writer with the port.
    {
        let mut writer = PortWriter::new(raw_space.as_mut());
        Int::write_scalar(writer.init(urids.int).unwrap()).set(42).unwrap();
        assert!(writer.init(urids.int).is_none());
    }

    // Reading
    {
        let reader = PortReader::new(raw_space.as_ref());
        let body = reader.read(UriKind::Int, urids.int).unwrap();
        assert_eq!(Int::read_scalar(&body).unwrap(), 42);
        assert!(reader.read(UriKind::Long, urids.long).is_none());
    }
}

#[test]
fn atom_iter_reads_headers() {
    let mut data = vec![0u8; 24];
    data[0..4].copy_from_slice(&4u32.to_le_bytes());
    data[4..8].copy_from_slice(&7u32.to_le_bytes());
    let mut iter = AtomIter::<()>::new(&data);
    let (pre_header, header) = iter.next().unwrap();
    assert_eq!(pre_header.len(), 0);
    assert_eq!(header, AtomHeader { size: 4, type_: 7 });
    // without a pre-header, the iterator advances by the body size only
    let (_, header) = iter.next().unwrap();
    assert_eq!(header, AtomHeader { size: 7, type_: 0 });
    // an empty header at the position does not move the iterator
    let (_, header) = iter.next().unwrap();
    assert_eq!(header, AtomHeader { size: 0, type_: 0 });
    let (_, header) = iter.next().unwrap();
    assert_eq!(header, AtomHeader { size: 0, type_: 0 });

    let short = [1u8, 0, 0];
    assert!(AtomIter::<()>::new(&short).next().is_none());
}

#[test]
fn space_list_allocates_chunks() {
    let mut list = SpaceList::default();
    assert_eq!(list.allocate(4), Some(1));
    assert_eq!(list.allocate(4), None);
    assert_eq!(list.to_vec(), vec![0; 4]);

    let mut list = SpaceList::default();
    {
        let mut head = SpaceHead::new(&mut list);
        assert_eq!(head.allocate_unaligned(3), Some(0));
        assert_eq!(head.allocate_unaligned(2), Some(1));
        assert_eq!(head.as_bytes().len(), 0);
    }
    assert_eq!(list.to_vec(), vec![0; 5]);
    let chunks = list.iter();
    assert_eq!(chunks.len(), 2);
    assert_eq!(chunks[0].len(), 3);
    assert_eq!(chunks[1].len(), 2);
}

#[test]
fn buffer_sizes() {
    let sizes = BufferSizes::default();
    assert!(sizes.min_block_length.is_none());
    assert!(sizes.sequence_size.is_none());
    assert_eq!(MinBlockLength(-1).get(), u32::MAX);
    assert_eq!(MaxBlockLength::from_option_value(512), Some(MaxBlockLength(512)));
    assert_eq!(NominalBlockLength(128).as_option_value(), 128);
    assert_eq!(SequenceSize(4096).get(), 4096);
}

/// The run of a plugin that doubles the integers of its input sequence and forwards every
/// other event, from an input port to an output port.
fn double_integers(input: &[u8], output: &mut [u8], urids: &AtomURIDCollection, frame: u32) {
    let reader = PortReader::new(input);
    let body = reader.read(UriKind::Sequence, urids.sequence).unwrap();
    let mut events = Sequence::read(&body)
        .unwrap()
        .with_unit(SequenceUnitType::Frame, frame)
        .unwrap();

    let mut port = PortWriter::new(output);
    let mut sequence = Sequence::write(port.init(urids.sequence).unwrap())
        .unwrap()
        .with_unit(frame)
        .unwrap();

    while let Some((stamp, atom)) = events.next() {
        match atom.read(UriKind::Int, urids.int) {
            Ok(body) => {
                let value = Int::read_scalar(&body).unwrap();
                Int::write_scalar(sequence.new_event(stamp as i64, urids.int).unwrap())
                    .set(value * 2)
                    .unwrap();
            }
            Err(_) => {
                sequence.forward(stamp as i64, &atom).unwrap();
            }
        }
    }
}

#[test]
fn plugin_run_doubles_integers_of_a_sequence() {
    let mut map = HashURIDMapper::new();
    let urids = AtomURIDCollection::from_map(&mut map).0.unwrap();
    let frame = urid::Map::map_str(&map, "http://lv2plug.in/ns/extensions/units#frame")
        .unwrap()
        .get();

    let mut input = AlignedVec::<AtomHeader>::new_with_capacity(64);
    {
        let mut space = SpaceCursor::new(input.as_bytes_mut());
        let mut writer = Sequence::write(space.write_atom(urids.sequence).unwrap())
            .unwrap()
            .with_unit(frame)
            .unwrap();
        Int::write_scalar(writer.new_event(0, urids.int).unwrap()).set(42).unwrap();
        Long::write_scalar(writer.new_event(1, urids.long).unwrap()).set(17).unwrap();
        Int::write_scalar(writer.new_event(2, urids.int).unwrap()).set(3).unwrap();
    }

    let mut output = AlignedVec::<AtomHeader>::new_with_capacity(64);
    double_integers(input.as_bytes(), output.as_bytes_mut(), &urids, frame);

    let reader = PortReader::new(output.as_bytes());
    let body = reader.read(UriKind::Sequence, urids.sequence).unwrap();
    let mut events = Sequence::read(&body)
        .unwrap()
        .with_unit(SequenceUnitType::Frame, frame)
        .unwrap();
    let mut seen = 0;
    while let Some((stamp, atom)) = events.next() {
        match stamp {
            0 => assert_eq!(
                Int::read_scalar(&atom.read(UriKind::Int, urids.int).unwrap()).unwrap(),
                84
            ),
            1 => assert_eq!(
                Long::read_scalar(&atom.read(UriKind::Long, urids.long).unwrap()).unwrap(),
                17
            ),
            2 => assert_eq!(
                Int::read_scalar(&atom.read(UriKind::Int, urids.int).unwrap()).unwrap(),
                6
            ),
            _ => panic!("Invalid time stamp in sequence!"),
        }
        seen += 1;
    }
    assert_eq!(seen, 3);
}
