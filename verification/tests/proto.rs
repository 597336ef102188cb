use procserve::order::ByteOrder;
use procserve::proto::{Attr, AttrName, Command, Opcode, ResultCode};

#[test]
fn opcodes() {
    assert_eq!(Opcode::try_from(1), Ok(Opcode::Run));
    assert_eq!(Opcode::try_from(2), Ok(Opcode::Write));
    assert_eq!(Opcode::try_from(3), Ok(Opcode::Close));
    assert_eq!(Opcode::try_from(0), Err(0));
    assert_eq!(Opcode::try_from(4), Err(4));
    assert_eq!(Opcode::try_from(0xffff), Err(0xffff));
}

#[test]
fn attr_names() {
    assert_eq!(AttrName::try_from(1), Ok(AttrName::Command));
    assert_eq!(AttrName::try_from(2), Ok(AttrName::Message));
    assert_eq!(AttrName::try_from(3), Ok(AttrName::Pid));
    assert_eq!(AttrName::try_from(4), Ok(AttrName::Data));
    assert_eq!(AttrName::try_from(0), Err(()));
    assert_eq!(AttrName::try_from(7), Err(()));
}

#[test]
fn server_names_are_not_taken_from_requests() {
    assert_eq!(AttrName::Stderr.code(), 5);
    assert_eq!(AttrName::ExitCode.code(), 6);
    assert_eq!(AttrName::try_from(5), Err(()));
    assert_eq!(AttrName::try_from(6), Err(()));
}

#[test]
fn attr_name_codes() {
    let names = [AttrName::Command, AttrName::Message, AttrName::Pid, AttrName::Data];
    for (i, name) in names.into_iter().enumerate() {
        assert_eq!(name.code() as usize, i + 1);
        assert_eq!(AttrName::try_from(name.code()), Ok(name));
    }
}

#[test]
fn result_codes() {
    let results = [
        ResultCode::Success,
        ResultCode::InvalidState,
        ResultCode::NotFound,
        ResultCode::Closed,
        ResultCode::Failed,
        ResultCode::UnknownOp,
        ResultCode::Output,
        ResultCode::Sigchild,
        ResultCode::Close,
    ];
    for (i, result) in results.into_iter().enumerate() {
        assert_eq!(result.code() as usize, i + 1);
    }
}

#[test]
fn command_headers() {
    let command = Command { op: 0x0102, num_attrs: 3, padding: 4 };
    assert_eq!(command.as_bytes(ByteOrder::Little), vec![2, 1, 3, 4]);
    assert_eq!(command.as_bytes(ByteOrder::Big), vec![1, 2, 3, 4]);
    for order in [ByteOrder::Little, ByteOrder::Big] {
        let bytes = command.as_bytes(order);
        assert_eq!(Command::read_from_bytes(order, &bytes), Some(command));
        assert_eq!(Command::read_from_bytes(order, &bytes[..3]), None);
        assert_eq!(Command::read_from_bytes(order, &[1, 2, 3, 4, 5]), None);
    }
}

#[test]
fn attr_headers() {
    let attr = Attr { attr: 0x0102, len: 0x0304 };
    assert_eq!(attr.as_bytes(ByteOrder::Little), vec![2, 1, 4, 3]);
    assert_eq!(attr.as_bytes(ByteOrder::Big), vec![1, 2, 3, 4]);
    for order in [ByteOrder::Little, ByteOrder::Big] {
        let bytes = attr.as_bytes(order);
        assert_eq!(Attr::read_from_bytes(order, &bytes), Some(attr));
        assert_eq!(Attr::read_from_bytes(order, &bytes[1..]), None);
        assert_eq!(Attr::read_from_bytes(order, &[]), None);
    }
}
