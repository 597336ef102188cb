use procserve::message::{Empty, GenericError, ToAttr};
use procserve::order::ByteOrder;
use procserve::proto::{Attr, AttrName, Command, ResultCode};

#[test]
fn attribute_values() {
    let order = ByteOrder::Little;
    assert_eq!(Empty {}.encode_attr(order), Vec::<u8>::new());
    assert_eq!((-2i32).encode_attr(order), vec![0xfe, 0xff, 0xff, 0xff]);
    assert_eq!(0x0102_0304u32.encode_attr(order), vec![4, 3, 2, 1]);
    assert_eq!(0x0102_0304u32.encode_attr(ByteOrder::Big), vec![1, 2, 3, 4]);
    assert_eq!("h\u{e9}".encode_attr(order), vec![b'h', 0xc3, 0xa9]);
    assert_eq!(String::from("h\u{e9}").encode_attr(order), vec![b'h', 0xc3, 0xa9]);
    assert_eq!([7u8, 8][..].encode_attr(order), vec![7, 8]);
}

#[test]
fn message_without_attributes() {
    let message = GenericError::new(ResultCode::Failed);
    assert_eq!(message.to_bytes(ByteOrder::Little), vec![5, 0, 0, 0]);
    assert_eq!(message.to_bytes(ByteOrder::Big), vec![0, 5, 0, 0]);
}

#[test]
fn message_with_attributes() {
    let order = ByteOrder::Little;
    let message = GenericError::new(ResultCode::Output)
        .attr(AttrName::Pid, &0x0102_0304u32, order)
        .attr(AttrName::Data, &[9u8, 8, 7][..], order)
        .attr(AttrName::Stderr, &Empty {}, order);
    assert_eq!(
        message.to_bytes(order),
        vec![
            7, 0, 3, 0, // header
            3, 0, 4, 0, 4, 3, 2, 1, // the process
            4, 0, 3, 0, 9, 8, 7, // what it printed
            5, 0, 0, 0, // on standard error
        ]
    );
}

#[test]
fn message_text() {
    let order = ByteOrder::Big;
    let message =
        GenericError::new(ResultCode::InvalidState).attr(AttrName::Message, &"no", order);
    assert_eq!(message.to_bytes(order), vec![0, 2, 1, 0, 0, 2, 0, 2, b'n', b'o']);
}

#[test]
fn counts_keep_their_lowest_bits() {
    let order = ByteOrder::Little;
    let mut message = GenericError::new(ResultCode::Success);
    for _ in 0..257 {
        message = message.attr(AttrName::Stderr, &Empty {}, order);
    }
    let bytes = message.to_bytes(order);
    assert_eq!(bytes.len(), 4 + 257 * 4);
    assert_eq!(bytes[2], 1);

    let long = vec![1u8; 65537];
    let message =
        GenericError::new(ResultCode::Success).attr(AttrName::Data, long.as_slice(), order);
    let bytes = message.to_bytes(order);
    assert_eq!(bytes.len(), 4 + 4 + 65537);
    assert_eq!(&bytes[4..8], &[4, 0, 1, 0]);
}

fn read_back(order: ByteOrder, bytes: &[u8]) -> (u16, Vec<(u16, Vec<u8>)>, usize) {
    let command = Command::read_from_bytes(order, &bytes[..4]).unwrap();
    let mut at = 4;
    let mut fields = Vec::new();
    for _ in 0..command.num_attrs {
        let attr = Attr::read_from_bytes(order, &bytes[at..at + 4]).unwrap();
        let end = at + 4 + attr.len as usize;
        fields.push((attr.attr, bytes[at + 4..end].to_vec()));
        at = end;
    }
    (command.op, fields, at)
}

#[test]
fn messages_are_read_back_one_by_one() {
    for order in [ByteOrder::Little, ByteOrder::Big] {
        let first = GenericError::new(ResultCode::Sigchild)
            .attr(AttrName::Pid, &42u32, order)
            .attr(AttrName::ExitCode, &-1i32, order);
        let second = GenericError::new(ResultCode::Success);
        let mut bytes = first.to_bytes(order);
        let cut = bytes.len();
        bytes.extend(second.to_bytes(order));

        let (op, fields, at) = read_back(order, &bytes);
        assert_eq!(op, 8);
        assert_eq!(fields, vec![(3, order.put_u32(42)), (6, order.put_i32(-1))]);
        assert_eq!(at, cut);

        let (op, fields, at) = read_back(order, &bytes[cut..]);
        assert_eq!(op, 1);
        assert!(fields.is_empty());
        assert_eq!(at, 4);
    }
}

#[test]
fn messages_are_read_back_in_order() {
    let order = ByteOrder::Big;
    let mut bytes = Vec::new();
    for n in 0..5u32 {
        let message = GenericError::new(ResultCode::Output)
            .attr(AttrName::Pid, &n, order)
            .attr(AttrName::Data, &vec![n as u8; n as usize][..], order);
        bytes.extend(message.to_bytes(order));
    }
    bytes.extend_from_slice(b"rest");
    let mut at = 0;
    for n in 0..5u32 {
        let (op, fields, len) = read_back(order, &bytes[at..]);
        assert_eq!(op, 7);
        assert_eq!(fields, vec![(3, order.put_u32(n)), (4, vec![n as u8; n as usize])]);
        at += len;
    }
    assert_eq!(&bytes[at..], b"rest");
}
