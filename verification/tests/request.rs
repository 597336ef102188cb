use procserve::message::GenericError;
use procserve::order::ByteOrder;
use procserve::proto::{AttrName, ResultCode};
use procserve::request::{
    BodyPlan, FromAttrs, NoOp, Op, Reaction, RunOp, StreamTarget, WriteOp,
};
use procserve::state::{ProcState, State};

const ORDER: ByteOrder = ByteOrder::Little;

fn invalid(text: &str) -> GenericError {
    GenericError::new(ResultCode::InvalidState).attr(AttrName::Message, &text, ORDER)
}

#[test]
fn state_of_processes() {
    let mut state = State::new();
    assert!(!state.knows(5));
    assert_eq!(state.stdin_mut(5), None);
    state.insert(5, ProcState::new('a'));
    assert!(state.knows(5));
    assert!(!state.knows(6));
    *state.stdin_mut(5).unwrap() = 'b';
    assert_eq!(state.stdin_mut(5), Some(&mut 'b'));
    state.insert(5, ProcState::new('c'));
    assert_eq!(state.stdin_mut(5), Some(&mut 'c'));
}

#[test]
fn run_takes_every_known_attribute_as_a_word() {
    let mut op = RunOp::default();
    let names = [AttrName::Command, AttrName::Message, AttrName::Pid, AttrName::Data];
    for name in names {
        assert_eq!(op.plan_attr(name, 3), BodyPlan::Read(3));
        op.set_attr(name, b"abc");
    }
    op.set_attr(AttrName::Command, b"");
    op.set_attr(AttrName::Command, &[0xff]);
    assert_eq!(op.args, vec!["abc", "abc", "abc", "abc", "", ""]);
}

#[test]
fn run_calls_for_a_program() {
    let state = State::<()>::new();
    let mut op = RunOp::default();
    op.set_attr(AttrName::Command, b"echo");
    op.set_attr(AttrName::Command, b"-n");
    op.set_attr(AttrName::Command, b"hi");
    assert_eq!(
        op.update_state(&state, ORDER),
        Reaction::Spawn("echo".to_string(), vec!["-n".to_string(), "hi".to_string()])
    );
}

#[test]
fn run_without_words() {
    let state = State::<()>::new();
    assert_eq!(
        RunOp::default().update_state(&state, ORDER),
        Reaction::Reply(invalid("No arguments given"))
    );
}

#[test]
fn run_answer() {
    assert_eq!(
        RunOp::started(0x0102, ORDER).to_bytes(ORDER),
        vec![1, 0, 1, 0, 3, 0, 4, 0, 2, 1, 0, 0]
    );
}

#[test]
fn write_goes_by_the_name_of_an_attribute() {
    let op = WriteOp::default();
    assert_eq!(op.plan_attr(AttrName::Pid, 0), BodyPlan::Read(4));
    assert_eq!(op.plan_attr(AttrName::Pid, 9), BodyPlan::Read(4));
    assert_eq!(op.plan_attr(AttrName::Data, 9), BodyPlan::Read(9));
    assert_eq!(op.plan_attr(AttrName::Command, 9), BodyPlan::Read(0));
    assert_eq!(op.plan_attr(AttrName::Message, 9), BodyPlan::Read(0));
}

#[test]
fn write_gathers_its_target_and_data() {
    let mut op = WriteOp::default();
    op.set_attr(AttrName::Pid, &[0, 0, 1, 2]);
    op.set_attr(AttrName::Data, b"first");
    op.set_attr(AttrName::Message, b"");
    op.set_attr(AttrName::Data, b"second");
    assert_eq!(op.target, Some(StreamTarget::PidStream(258)));
    assert_eq!(op.buf, b"second");
}

#[test]
fn write_without_a_target() {
    let state = State::<()>::new();
    let mut op = WriteOp::default();
    op.set_attr(AttrName::Data, b"lost");
    assert_eq!(op.update_state(&state, ORDER), Reaction::Reply(invalid("No write target")));
}

#[test]
fn write_to_known_and_unknown_processes() {
    let mut state = State::new();
    state.insert(5, ProcState::new(()));
    let write = |pid: u8| {
        let mut op = WriteOp::default();
        op.set_attr(AttrName::Pid, &[0, 0, 0, pid]);
        op.set_attr(AttrName::Data, b"in");
        op
    };
    assert_eq!(write(5).update_state(&state, ORDER), Reaction::Feed(5, b"in".to_vec()));
    let not_found = GenericError::new(ResultCode::NotFound).attr(AttrName::Pid, &6u32, ORDER);
    assert_eq!(write(6).update_state(&state, ORDER), Reaction::Reply(not_found));
}

#[test]
fn write_answers() {
    assert_eq!(WriteOp::finished(true), GenericError::new(ResultCode::Success));
    assert_eq!(WriteOp::finished(false), GenericError::new(ResultCode::Failed));
}

#[test]
fn unknown_requests_drop_everything() {
    let state = State::<()>::new();
    let mut op = NoOp::default();
    assert_eq!(op.plan_attr(AttrName::Data, 7), BodyPlan::Discard(7));
    op.set_attr(AttrName::Data, b"ignored");
    assert_eq!(
        op.update_state(&state, ORDER),
        Reaction::Reply(GenericError::new(ResultCode::UnknownOp))
    );
}

#[test]
fn requests_by_number() {
    assert!(matches!(Op::start(1), Op::Run(_)));
    assert!(matches!(Op::start(2), Op::Write(_)));
    assert!(matches!(Op::start(0), Op::Unknown(_)));
    assert!(matches!(Op::start(4), Op::Unknown(_)));
    assert!(matches!(Op::start(999), Op::Unknown(_)));
}

#[test]
fn requests_of_any_kind() {
    let state = State::<()>::new();
    let mut run = Op::start(1);
    assert_eq!(run.plan_attr(AttrName::Pid, 2), BodyPlan::Read(2));
    run.set_attr(AttrName::Command, b"ls");
    assert_eq!(
        run.update_state(&state, ORDER),
        Reaction::Spawn("ls".to_string(), Vec::new())
    );
    let mut write = Op::start(2);
    assert_eq!(write.plan_attr(AttrName::Pid, 2), BodyPlan::Read(4));
    write.set_attr(AttrName::Pid, &[0, 0, 0, 1]);
    let not_found = GenericError::new(ResultCode::NotFound).attr(AttrName::Pid, &1u32, ORDER);
    assert_eq!(write.update_state(&state, ORDER), Reaction::Reply(not_found));
    let other = Op::start(77);
    assert_eq!(other.plan_attr(AttrName::Pid, 2), BodyPlan::Discard(2));
    assert_eq!(
        other.update_state(&state, ORDER),
        Reaction::Reply(GenericError::new(ResultCode::UnknownOp))
    );
}
