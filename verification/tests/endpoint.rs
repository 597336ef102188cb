use procserve::endpoint::{open_stream, Found, Plan};

#[test]
fn plans() {
    assert_eq!(open_stream(Found::Socket, true), Plan::Replace);
    assert_eq!(open_stream(Found::Socket, false), Plan::Connect);
    assert_eq!(open_stream(Found::Other, true), Plan::Open);
    assert_eq!(open_stream(Found::Other, false), Plan::Open);
    assert_eq!(open_stream(Found::Missing, true), Plan::Serve);
    assert_eq!(open_stream(Found::Missing, false), Plan::Fail);
    assert_eq!(open_stream(Found::Unknown, true), Plan::Fail);
    assert_eq!(open_stream(Found::Unknown, false), Plan::Fail);
}
