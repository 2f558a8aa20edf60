use lv2_atom::atoms::scalar::{Int, ScalarAtom};
use lv2_atom::atoms::AtomURIDCollection;
use lv2_atom::header::AtomHeader;
use lv2_atom::space::aligned::{AlignedSpace, AtomSpace};
use lv2_atom::space::allocator::SpaceAllocator;
use lv2_atom::space::atom_writer::AtomWriter;
use lv2_atom::space::cursor::SpaceCursor;
use lv2_atom::space::error::{AlignmentError, AlignmentErrorKind, AtomError, AtomReadError, AtomWriteError};
use lv2_atom::space::reader::SpaceReader;
use lv2_atom::space::terminated::Terminated;
use lv2_atom::space::boxed::BoxedSpace;
use lv2_atom::space::vec::AlignedVec;
use lv2_atom::space::writer::SpaceWriter;
use lv2_atom::unidentified::UnidentifiedAtom;
use lv2_atom::util::{byte_index_to_value_index, try_padding_for, value_index_to_byte_index};
use urid::HashURIDMapper;

fn two_values() -> Vec<u8> {
    let mut bytes = Vec::new();
    bytes.extend_from_slice(&42u64.to_le_bytes());
    bytes.extend_from_slice(&69u64.to_le_bytes());
    bytes
}

#[test]
fn from_bytes() {
    let bytes = two_values();

    assert_eq!(
        AlignedSpace::<u64>::from_bytes(&bytes, 0).unwrap().bytes_len(),
        ::core::mem::size_of::<u64>() * 2
    );
    assert_eq!(
        AlignedSpace::<u64>::from_bytes_unchecked(&bytes, 0).bytes_len(),
        ::core::mem::size_of::<u64>() * 2
    );
    assert_eq!(
        AlignedSpace::<u64>::from_bytes(&bytes[1..], 1).err(),
        Some(AlignmentError(AlignmentErrorKind::UnalignedBuffer { addr: 1, align: 8 }))
    );
}

#[test]
fn align_from_bytes() {
    let bytes = two_values();
    let size = ::core::mem::size_of::<u64>();

    assert_eq!(
        AlignedSpace::<u64>::align_from_bytes(&bytes, 0).unwrap().bytes_len(),
        size * 2
    );
    assert_eq!(
        AlignedSpace::<u64>::align_from_bytes(&bytes[1..], 1).unwrap().bytes_len(),
        size
    );
    assert_eq!(
        AlignedSpace::<u64>::align_from_bytes(&bytes[9..], 9).unwrap().bytes_len(),
        0
    );
    assert_eq!(
        AlignedSpace::<u64>::align_from_bytes(&bytes[9..11], 9).err(),
        Some(AlignmentError(AlignmentErrorKind::NotEnoughSpaceToRealign {
            addr: 9,
            align: 8,
            available_size: 2,
            required_padding: 8,
        }))
    );
}

#[test]
fn aligned_test_root_mut_space() {
    const MEMORY_SIZE: usize = 256;
    let mut memory = [0u8; MEMORY_SIZE];
    let mut map = HashURIDMapper::new();
    let urids = AtomURIDCollection::from_map(&mut map).0.unwrap();

    let test_data: Vec<u8> = (0..128).map(|i| i as u8).collect();
    let written_atom_addr;
    {
        let mut space = SpaceCursor::new(&mut memory[..]);

        let written_data = space.write_bytes(test_data.as_slice()).unwrap();
        assert_eq!(test_data.as_slice(), &space.allocated_bytes()[written_data..written_data + 128]);

        let test_atom = AtomHeader { size: 42, type_: 1 };
        written_atom_addr = space.write_value(test_atom).unwrap();
        let mut reader = SpaceReader::new(&space.allocated_bytes()[written_atom_addr..], 0);
        let written_atom: AtomHeader = reader.next_value().unwrap();
        assert_eq!(written_atom.size, test_atom.size);
        assert_eq!(written_atom.type_, test_atom.type_);

        {
            let mut atom_frame = AtomWriter::write_new(&mut space, urids.chunk).unwrap();

            let test_data: Vec<u8> = (0..24).map(|i| i as u8).collect();

            let written_data = atom_frame.write_bytes(&test_data).unwrap();
            assert_eq!(
                test_data.as_slice(),
                &atom_frame.allocated_bytes()[written_data..written_data + 24]
            );
            assert_eq!(atom_frame.atom_header().size_of_body(), test_data.len());

            let test_atom = AtomHeader { size: 42, type_: 1 };
            let written_atom = atom_frame.write_value(test_atom).unwrap();
            let mut reader = SpaceReader::new(&atom_frame.allocated_bytes()[written_atom..], 0);
            let read_atom: AtomHeader = reader.next_value().unwrap();
            assert_eq!(read_atom.size, test_atom.size);
            assert_eq!(read_atom.type_, test_atom.type_);
            assert_eq!(atom_frame.atom_header().size_of_body(), test_data.len() + 8);
        }
    }

    let space = AtomSpace::from_bytes(&memory[written_atom_addr..], written_atom_addr).unwrap();
    let created_space = UnidentifiedAtom::from_space(&space).unwrap().atom_space();
    assert_eq!(created_space.address(), written_atom_addr);
    assert_eq!(created_space.bytes_len(), 8 + 42);
}

#[test]
fn aligned_unaligned_root_write() {
    let mut raw_space = Box::new([0u8; 8]);

    {
        let mut root_space = SpaceCursor::new(&mut raw_space[3..]);
        root_space.write_value(42u8).unwrap();
    }

    assert_eq!(&[0, 0, 0, 42, 0, 0, 0, 0], raw_space.as_ref());
}

#[test]
fn test_write_value() {
    let mut space = vec![0; 32];

    let mut cursor = SpaceCursor::new(&mut space);
    let new_value = cursor.write_value(42u8).unwrap();

    assert_eq!(42, cursor.allocated_bytes()[new_value]);
    assert_eq!(31, cursor.remaining_bytes().len());
}

#[test]
fn test_write_atom() {
    let mut space = vec![0; 32];

    let mut cursor = SpaceCursor::new(&mut space);

    {
        Int::write_scalar(cursor.write_atom(5).unwrap()).set(69).unwrap();
        assert_eq!(16, cursor.remaining_bytes().len());
    }

    assert_eq!(space[0..4], 8u32.to_ne_bytes());
    assert_eq!(space[4..8], 5u32.to_ne_bytes());
    assert_eq!(space[8..12], 69u32.to_ne_bytes());
}

#[test]
fn test_init_atom_lifetimes() {
    let mut space = AlignedVec::<AtomHeader>::new_with_capacity(4);

    {
        let mut cursor = SpaceCursor::new(space.as_bytes_mut());
        let new_value = cursor.write_value(42u8).unwrap();

        assert_eq!(42, cursor.allocated_bytes()[new_value]);
        assert_eq!(31, cursor.remaining_bytes().len());

        {
            Int::write_scalar(cursor.write_atom(5).unwrap()).set(69).unwrap();
            assert_eq!(8, cursor.remaining_bytes().len());
        }
    }

    assert_eq!(32, space.as_bytes().len());
}

#[test]
fn test_padding_inside_frame() {
    let mut space = AlignedVec::<AtomHeader>::new_with_capacity(64);
    let raw_space = space.as_bytes_mut();

    // writing
    {
        let mut root = SpaceCursor::new(raw_space);
        let mut frame = AtomWriter::write_new(&mut root, 1).unwrap();
        frame.write_value(42u32).unwrap();
        frame.write_value(17u32).unwrap();
    }

    // checking
    {
        let mut reader = SpaceReader::new(space.as_bytes(), 0);
        let atom: AtomHeader = reader.next_value().unwrap();
        assert_eq!(atom.type_, 1);
        assert_eq!(atom.size as usize, 8);

        let value: u32 = reader.next_value().unwrap();
        assert_eq!(value, 42);

        let value: u32 = reader.next_value().unwrap();
        assert_eq!(value, 17);
    }
}

#[test]
fn test_read_atom() {
    let mut space = AlignedVec::<AtomHeader>::new_with_capacity(64);
    let urid: u32 = 17;

    // Writing an integer atom.
    {
        let bytes = space.as_bytes_mut();
        bytes[0..4].copy_from_slice(&4u32.to_le_bytes());
        bytes[4..8].copy_from_slice(&urid.to_le_bytes());
        bytes[8..12].copy_from_slice(&42i32.to_le_bytes());
    }

    let atom = space.as_space().read().next_atom().unwrap();
    let body = atom.body().as_bytes();

    assert_eq!(4, body.len());
    assert_eq!(42, i32::from_le_bytes([body[0], body[1], body[2], body[3]]));
}

#[test]
fn reading_an_atom_beyond_the_buffer_is_refused() {
    let mut space = AlignedVec::<AtomHeader>::new_with_capacity(2);
    {
        let bytes = space.as_bytes_mut();
        bytes[0..4].copy_from_slice(&100u32.to_le_bytes());
        bytes[4..8].copy_from_slice(&3u32.to_le_bytes());
    }
    assert_eq!(
        space.as_space().read().next_atom().err(),
        Some(AtomReadError::ReadingOutOfBounds { available: 16, requested: 108 })
    );
}

#[test]
fn test_lifetimes_and_alignment_of_positions() {
    let mut buffer = AlignedVec::<u64>::new_with_capacity(1);
    let mut cursor = buffer.write();
    assert_eq!(cursor.write_value(7u8).unwrap(), 0);
    // the next u32 goes to the next multiple of 4, growing the buffer by whole u64 values
    assert_eq!(cursor.write_value(9u32).unwrap(), 4);
    assert_eq!(cursor.write_value(1u64).unwrap(), 8);
    assert_eq!(cursor.allocated_bytes().len(), 16);
    assert_eq!(cursor.remaining_bytes().len(), 0);
}

#[test]
fn test_alignment() {
    fn aligned_vec<T: lv2_atom::encoding::Pod>() {
        let space = AlignedVec::<T>::new_with_capacity(4);
        assert_eq!(
            space.as_bytes().as_ptr() as usize % ::core::mem::align_of::<T>(),
            0
        );
    }

    aligned_vec::<u8>();
    aligned_vec::<u16>();
    aligned_vec::<u32>();
    aligned_vec::<u64>();
}

#[test]
fn aligned_vec_values_round_trip() {
    let values = vec![1u32, 0xdead_beef, 7];
    let vec = AlignedVec::<u32>::from_vec(values.clone());
    assert_eq!(vec.as_bytes().len(), 12);
    assert_eq!(vec.into_vec(), values);
}

#[test]
fn aligned_vec_resize_adds_zeroed_values() {
    let mut vec = AlignedVec::<u32>::from_vec(vec![5]);
    vec.resize(3);
    assert_eq!(vec.as_bytes(), &[5, 0, 0, 0, 0, 0, 0, 0, 0, 0, 0, 0]);
    vec.resize(0);
    assert_eq!(vec.as_bytes().len(), 0);
    let boxed = AlignedVec::<u32>::from_vec(vec![1, 2]).into_boxed_space();
    assert_eq!(boxed.as_bytes().len(), 8);
}

#[test]
fn terminated_writer_keeps_a_terminator() {
    let mut buffer = [0u8; 20];
    {
        let cursor = SpaceCursor::new(&mut buffer);
        let mut writer = Terminated::new(cursor, 0x42);

        writer.write_bytes(b"Hello, world!").unwrap();
        assert_eq!(writer.allocated_bytes(), b"Hello, world!\x42");

        writer.write_bytes(b" Boop!").unwrap();
    }
    assert_eq!(&buffer, b"Hello, world! Boop!\x42");
}

#[test]
fn atom_writer_tracks_the_body_size() {
    let mut buf = vec![0; 64];
    let mut cursor = SpaceCursor::new(&mut buf);

    let mut writer = AtomWriter::write_new(&mut cursor, 42).unwrap();

    let message = b"Hello, world!";
    writer.write_bytes(message).unwrap();
    assert_eq!(writer.atom_header().size_of_body(), message.len());
    assert_eq!(writer.atom().size_of_body(), message.len());
    writer.rewind(3).unwrap();
    assert_eq!(writer.atom_header().size_of_body(), message.len() - 3);
}

#[test]
fn cursor_reports_errors() {
    let mut buf = vec![0; 4];
    let mut cursor = SpaceCursor::new(&mut buf);
    assert_eq!(
        cursor.allocate(5),
        Err(AtomWriteError::OutOfSpace { used: 0, capacity: 4, requested: 5 })
    );
    assert_eq!(cursor.allocate(3), Ok(0));
    assert_eq!(
        cursor.rewind(4),
        Err(AtomWriteError::RewindBeyondAllocated { allocated: 3, requested: 4 })
    );
    assert_eq!(cursor.rewind(3), Ok(()));
    assert_eq!(cursor.allocated_bytes().len(), 0);
}

#[test]
fn index_arithmetic() {
    assert_eq!(try_padding_for::<u64>(9), 7);
    assert_eq!(try_padding_for::<u64>(16), 0);
    assert_eq!(try_padding_for::<u32>(5), 3);
    assert_eq!(value_index_to_byte_index::<u32>(3), 12);
    assert_eq!(byte_index_to_value_index::<u32>(9), 3);
    assert_eq!(byte_index_to_value_index::<u32>(8), 2);
}

#[test]
fn space_reader_reads_values_and_bytes() {
    let bytes = [1u8, 0, 0, 0, 2, 0, 3, 4, 5, 6];
    let mut reader = SpaceReader::new(&bytes, 0);
    let a: u8 = reader.next_value().unwrap();
    let b: u32 = reader.next_value().unwrap();
    assert_eq!((a, b), (1, 0x0403_0002));
    assert_eq!(reader.address(), 8);
    assert_eq!(reader.next_bytes(2).unwrap(), &[5, 6]);
    assert_eq!(
        reader.next_bytes(1).err(),
        Some(AtomReadError::ReadingOutOfBounds { available: 0, requested: 1 })
    );
    assert_eq!(reader.remaining_bytes().len(), 0);
}

#[test]
fn reading_needs_room_for_the_padding() {
    let bytes = [1u8, 2];
    let mut reader = SpaceReader::new(&bytes, 1);
    assert_eq!(
        reader.next_value::<u64>().err(),
        Some(AtomReadError::AlignmentError(AlignmentError(
            AlignmentErrorKind::NotEnoughSpaceToRealign {
                addr: 1,
                align: 8,
                required_padding: 8,
                available_size: 2,
            }
        )))
    );
    // the reader did not move
    assert_eq!(reader.address(), 1);
    assert_eq!(reader.next_value::<u8>().unwrap(), 1);
}

#[test]
fn rewinding_an_allocation_restores_the_state() {
    let mut buf = vec![0; 32];
    let mut cursor = SpaceCursor::new(&mut buf);
    let mut writer = AtomWriter::write_new(&mut cursor, 3).unwrap();
    writer.write_bytes(&[1, 2, 3]).unwrap();
    let before = (writer.allocated_bytes().len(), writer.atom_header());
    writer.allocate(5).unwrap();
    assert_eq!(writer.atom_header().size_of_body(), 8);
    writer.rewind(5).unwrap();
    assert_eq!((writer.allocated_bytes().len(), writer.atom_header()), before);
}

#[test]
fn copying_an_atom_keeps_its_bytes() {
    let mut source = AlignedVec::<AtomHeader>::new_with_capacity(4);
    {
        let mut space = SpaceCursor::new(source.as_bytes_mut());
        let mut writer = AtomWriter::write_new(&mut space, 9).unwrap();
        writer.write_bytes(&[1, 2, 3, 4, 5]).unwrap();
    }
    let atom = source.as_space().read().next_atom().unwrap();
    let mut target = vec![0u8; 32];
    {
        let mut space = SpaceCursor::new(&mut target);
        space.write_value(1u8).unwrap();
        assert_eq!(space.copy_atom(&atom).unwrap(), 8);
    }
    assert_eq!(&target[8..21], &source.as_bytes()[..13]);
}

#[test]
fn padding_is_allocated_for_the_next_value() {
    let mut memory = [0u8; 16];
    let mut cursor = SpaceCursor::new(&mut memory[..]);
    cursor.write_value(1u8).unwrap();
    cursor.allocate_padding_for::<u64>().unwrap();
    assert_eq!(cursor.allocated_bytes().len(), 8);
    // already aligned: nothing more is allocated
    cursor.allocate_padding_for::<u64>().unwrap();
    assert_eq!(cursor.allocated_bytes().len(), 8);

    let mut small = [0u8; 4];
    let mut cursor = SpaceCursor::new(&mut small[..]);
    cursor.write_value(1u8).unwrap();
    assert_eq!(
        cursor.allocate_padding_for::<u64>(),
        Err(AtomWriteError::OutOfSpace { used: 1, capacity: 4, requested: 7 })
    );
    assert_eq!(cursor.allocated_bytes().len(), 1);
}

#[test]
fn errors_convert_into_each_other() {
    let alignment = AlignmentError(AlignmentErrorKind::UnalignedBuffer { addr: 3, align: 8 });
    assert_eq!(AtomWriteError::from(alignment), AtomWriteError::AlignmentError(alignment));
    assert_eq!(AtomReadError::from(alignment), AtomReadError::AlignmentError(alignment));

    let read = AtomReadError::ReadingOutOfBounds { available: 2, requested: 8 };
    assert_eq!(AtomError::from(read), AtomError::ReadError(read));
    let write = AtomWriteError::RewindBeyondAllocated { allocated: 0, requested: 1 };
    assert_eq!(AtomError::from(write), AtomError::WriteError(write));
}

#[test]
fn header_sizes() {
    let mut header = AtomHeader::new(7);
    header.set_size_of_body(12);
    assert_eq!(header, AtomHeader { size: 12, type_: 7 });
    assert_eq!(header.size_of_body(), 12);
    assert_eq!(header.size_of_atom(), 20);
    // only the low 32 bits of a size are kept
    header.set_size_of_body(0x1_0000_0003);
    assert_eq!(header.size_of_body(), 3);
}

#[test]
fn aligned_space_counts_and_reads_whole_values() {
    let mut bytes = Vec::new();
    bytes.extend_from_slice(&5u32.to_le_bytes());
    bytes.extend_from_slice(&9u32.to_le_bytes());
    bytes.push(1);
    let space = AlignedSpace::<u32>::from_bytes(&bytes, 0).unwrap();
    assert_eq!(space.values_len(), 2);
    assert_eq!(space.assume_init_slice(), vec![5, 9]);
}

#[test]
fn zeroed_boxed_space_rounds_up_to_whole_values() {
    let boxed = BoxedSpace::<u64>::new_zeroed(9);
    assert_eq!(boxed.as_bytes(), &[0u8; 16][..]);
    let empty = BoxedSpace::<u64>::new_zeroed(0);
    assert_eq!(empty.as_bytes().len(), 0);
}

#[test]
fn terminated_writer_gives_back_its_inner_writer() {
    let mut memory = [0xffu8; 8];
    let cursor = SpaceCursor::new(&mut memory[..]);
    let mut terminated = cursor.terminated(0);
    terminated.write_bytes(b"ab").unwrap();
    let cursor = terminated.into_inner();
    assert_eq!(cursor.allocated_bytes(), b"ab\0");
}

#[test]
fn a_value_is_allocated_aligned() {
    let mut memory = [0u8; 16];
    let mut cursor = SpaceCursor::new(&mut memory[..]);
    cursor.write_value(1u8).unwrap();
    assert_eq!(cursor.allocate_value::<u32>(), Ok(4));
    assert_eq!(cursor.allocated_bytes().len(), 8);
    assert_eq!(cursor.allocate_value::<u64>(), Ok(8));
    assert_eq!(
        cursor.allocate_value::<u8>(),
        Err(AtomWriteError::OutOfSpace { used: 16, capacity: 16, requested: 1 })
    );
}

#[test]
fn aligned_vec_default_and_clone() {
    let empty = AlignedVec::<u64>::default();
    assert_eq!(empty.as_bytes().len(), 0);

    let values = AlignedVec::<u32>::from_vec(vec![3, 4]);
    let copy = values.clone();
    assert_eq!(copy.as_bytes(), values.as_bytes());
    assert_eq!(copy.into_vec(), vec![3, 4]);
}

#[test]
fn a_failed_terminated_write_keeps_the_terminator() {
    let mut buffer = [0u8; 8];
    let cursor = SpaceCursor::new(&mut buffer);
    let mut writer = Terminated::new(cursor, 0x42);
    writer.write_bytes(b"abc").unwrap();
    assert_eq!(
        writer.write_bytes(b"too long"),
        Err(AtomWriteError::OutOfSpace { used: 4, capacity: 8, requested: 8 })
    );
    assert_eq!(writer.allocated_bytes(), b"abc\x42");
    assert_eq!(writer.write_bytes(b"de"), Ok(3));
    assert_eq!(writer.allocated_bytes(), b"abcde\x42");
}

#[test]
fn index_arithmetic_of_types_without_data() {
    assert_eq!(byte_index_to_value_index::<u64>(0), 0);
    assert_eq!(byte_index_to_value_index::<u64>(1), 1);
    assert_eq!(byte_index_to_value_index::<u64>(8), 1);
    assert_eq!(byte_index_to_value_index::<u64>(9), 2);
    assert_eq!(byte_index_to_value_index::<u64>(16), 2);
    assert_eq!(byte_index_to_value_index::<()>(5), 0);
    assert_eq!(value_index_to_byte_index::<()>(5), 0);

    let bytes = [1u8, 2, 3];
    let space = AlignedSpace::<()>::from_bytes(&bytes, 3).unwrap();
    assert_eq!(space.values_len(), usize::MAX);
    let mut values = Vec::new();
    values.extend_from_slice(&42u64.to_le_bytes());
    values.extend_from_slice(&69u64.to_le_bytes());
    let space = AlignedSpace::<u64>::from_bytes(&values, 0).unwrap();
    assert_eq!(space.values_len(), 2);
    assert_eq!(space.bytes_len(), 16);
}
