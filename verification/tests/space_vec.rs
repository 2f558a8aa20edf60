use lv2_atom::space::allocator::SpaceAllocator;
use lv2_atom::space::vec::AlignedVec;
use lv2_atom::space::writer::SpaceWriter;

#[test]
pub fn test_lifetimes() {
    let mut buffer = AlignedVec::<u8>::new_with_capacity(16);

    {
        let mut cursor = buffer.write();
        let buf1 = cursor.allocate(2).unwrap();
        cursor.write_at(buf1, &[5]);
    }

    let _other_cursor = buffer.write();
    let _other_cursor2 = buffer.write();
}
