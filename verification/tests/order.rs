use procserve::order::ByteOrder;

#[test]
fn u16_layouts() {
    assert_eq!(ByteOrder::Little.put_u16(0x1234), vec![0x34, 0x12]);
    assert_eq!(ByteOrder::Big.put_u16(0x1234), vec![0x12, 0x34]);
    assert_eq!(ByteOrder::Little.get_u16(&[0x34, 0x12]), Some(0x1234));
    assert_eq!(ByteOrder::Big.get_u16(&[0x34, 0x12]), Some(0x3412));
}

#[test]
fn u16_agrees_with_std() {
    for x in [0u16, 1, 0xff, 0x100, 0x7fff, 0x8000, 0xabcd, 0xffff] {
        assert_eq!(ByteOrder::Little.put_u16(x), x.to_le_bytes().to_vec());
        assert_eq!(ByteOrder::Big.put_u16(x), x.to_be_bytes().to_vec());
        assert_eq!(ByteOrder::Little.get_u16(&x.to_le_bytes()), Some(x));
        assert_eq!(ByteOrder::Big.get_u16(&x.to_be_bytes()), Some(x));
    }
}

#[test]
fn u16_of_other_lengths() {
    for order in [ByteOrder::Little, ByteOrder::Big] {
        assert_eq!(order.get_u16(&[]), None);
        assert_eq!(order.get_u16(&[1]), None);
        assert_eq!(order.get_u16(&[1, 2, 3]), None);
    }
}

#[test]
fn u32_layouts() {
    assert_eq!(ByteOrder::Little.put_u32(0x0102_0304), vec![4, 3, 2, 1]);
    assert_eq!(ByteOrder::Big.put_u32(0x0102_0304), vec![1, 2, 3, 4]);
    assert_eq!(ByteOrder::Little.get_u32(&[4, 3, 2, 1]), Some(0x0102_0304));
    assert_eq!(ByteOrder::Big.get_u32(&[4, 3, 2, 1]), Some(0x0403_0201));
}

#[test]
fn u32_round_trip() {
    for order in [ByteOrder::Little, ByteOrder::Big] {
        for x in [0u32, 1, 0xff, 0x1_0000, 0x8000_0000, 0xdead_beef, u32::MAX] {
            assert_eq!(order.get_u32(&order.put_u32(x)), Some(x));
        }
        assert_eq!(order.get_u32(&[1, 2, 3]), None);
        assert_eq!(order.get_u32(&[1, 2, 3, 4, 5]), None);
    }
}

#[test]
fn i32_layouts() {
    for x in [0i32, 1, -1, -2, 255, -256, i32::MAX, i32::MIN] {
        assert_eq!(ByteOrder::Little.put_i32(x), x.to_le_bytes().to_vec());
        assert_eq!(ByteOrder::Big.put_i32(x), x.to_be_bytes().to_vec());
    }
}

#[test]
fn big_mirrors_little() {
    let mut bytes = ByteOrder::Little.put_u32(0x0a0b_0c0d);
    bytes.reverse();
    assert_eq!(bytes, ByteOrder::Big.put_u32(0x0a0b_0c0d));
}

#[test]
fn order_of_a_sample() {
    assert_eq!(ByteOrder::of_sample(0x1234, &[0x34, 0x12]), Some(ByteOrder::Little));
    assert_eq!(ByteOrder::of_sample(0x1234, &[0x12, 0x34]), Some(ByteOrder::Big));
    assert_eq!(ByteOrder::of_sample(0x1234, &[0x12, 0x12]), None);
    assert_eq!(ByteOrder::of_sample(0x1234, &[0x34]), None);
    assert_eq!(ByteOrder::of_sample(0x1111, &[0x11, 0x11]), Some(ByteOrder::Little));
}

#[test]
fn native_order_is_the_machines() {
    let order = ByteOrder::native();
    assert_eq!(order.put_u16(0x1234), 0x1234u16.to_ne_bytes().to_vec());
    assert_eq!(order.put_u32(0x1234_5678), 0x1234_5678u32.to_ne_bytes().to_vec());
    assert_eq!(order.put_i32(-77), (-77i32).to_ne_bytes().to_vec());
}
