use can_via_pi::message::{normalize, CanMessage, InvalidFrame, RawFrame};
use can_via_pi::outbound::{prepare_outbound, SendRequest};

fn raw(id: u32, data: Vec<u8>, is_extended: bool, is_rtr: bool) -> RawFrame {
    RawFrame { id, data, is_extended, is_error: false, is_rtr }
}

fn fields(m: &CanMessage) -> (u32, Vec<u8>, bool, bool, bool) {
    (m.id(), m.data().clone(), m.is_extended(), m.is_error(), m.is_rtr())
}

#[test]
fn standard_frame_round_trip() {
    let m = normalize(raw(0x123, vec![1, 2, 3], false, false)).unwrap();
    assert_eq!(m.id(), 0x123);
    assert_eq!(m.data(), &vec![1u8, 2, 3]);
    assert!(!m.is_extended());
    assert!(!m.is_rtr());
    assert!(!m.is_error());
}

#[test]
fn standard_id_above_range_is_invalid() {
    let r = normalize(raw(0x800, vec![], false, false));
    assert_eq!(r.unwrap_err(), InvalidFrame::IdentifierOutOfRange);
}

#[test]
fn standard_id_at_limit_is_accepted() {
    let m = normalize(raw(0x7FF, vec![], false, false)).unwrap();
    assert_eq!(fields(&m), (0x7FF, vec![], false, false, false));
}

#[test]
fn extended_id_limits() {
    let m = normalize(raw(0x1FFF_FFFF, vec![9], true, false)).unwrap();
    assert_eq!(fields(&m), (0x1FFF_FFFF, vec![9], true, false, false));
    let m = normalize(raw(0x800, vec![], true, false)).unwrap();
    assert_eq!(m.id(), 0x800);
    assert!(m.is_extended());
    let r = normalize(raw(0x2000_0000, vec![], true, false));
    assert_eq!(r.unwrap_err(), InvalidFrame::IdentifierOutOfRange);
    let r = normalize(raw(u32::MAX, vec![], true, false));
    assert_eq!(r.unwrap_err(), InvalidFrame::IdentifierOutOfRange);
}

#[test]
fn data_frame_payload_limit() {
    let m = normalize(raw(1, vec![0, 1, 2, 3, 4, 5, 6, 7], false, false)).unwrap();
    assert_eq!(m.data().len(), 8);
    let r = normalize(raw(1, vec![0; 9], false, false));
    assert_eq!(r.unwrap_err(), InvalidFrame::PayloadTooLong);
}

#[test]
fn remote_request_is_held_to_the_payload_limit() {
    let m = normalize(raw(1, vec![0; 8], false, true)).unwrap();
    assert!(m.is_rtr());
    assert_eq!(m.data().len(), 8);
    let r = normalize(raw(1, vec![0; 9], false, true));
    assert_eq!(r.unwrap_err(), InvalidFrame::PayloadTooLong);
    let r = normalize(raw(1, vec![0; 9], true, true));
    assert_eq!(r.unwrap_err(), InvalidFrame::PayloadTooLong);
}

#[test]
fn identifier_is_judged_before_payload() {
    let r = normalize(raw(0x800, vec![0; 9], false, false));
    assert_eq!(r.unwrap_err(), InvalidFrame::IdentifierOutOfRange);
}

#[test]
fn error_frame_is_kept_as_it_is() {
    let m = normalize(RawFrame {
        id: 0x004,
        data: vec![0, 0, 0, 0, 0, 0, 0, 0],
        is_extended: false,
        is_error: true,
        is_rtr: false,
    })
    .unwrap();
    assert!(m.is_error());
    assert_eq!(m.id(), 4);
}

#[test]
fn clone_keeps_every_field() {
    let m = normalize(raw(0x321, vec![7, 8], false, false)).unwrap();
    let c = m.clone();
    assert_eq!(fields(&c), fields(&m));
}

#[test]
fn outbound_request_is_copied() {
    let f = prepare_outbound(SendRequest {
        id: 0x123,
        data: vec![1, 2, 3],
        is_extended: false,
        is_rtr: false,
    })
    .unwrap();
    assert_eq!(f.id(), 0x123);
    assert_eq!(f.data(), &vec![1u8, 2, 3]);
    assert!(!f.is_extended());
    assert!(!f.is_rtr());
}

#[test]
fn outbound_extended_remote_request() {
    let f = prepare_outbound(SendRequest {
        id: 0x1ABC_DEF0,
        data: vec![0; 4],
        is_extended: true,
        is_rtr: true,
    })
    .unwrap();
    assert_eq!(f.id(), 0x1ABC_DEF0);
    assert_eq!(f.data().len(), 4);
    assert!(f.is_extended());
    assert!(f.is_rtr());
}

#[test]
fn outbound_identifier_is_not_truncated() {
    let r = prepare_outbound(SendRequest {
        id: 0x1_0123,
        data: vec![],
        is_extended: false,
        is_rtr: false,
    });
    assert_eq!(r.unwrap_err(), InvalidFrame::IdentifierOutOfRange);
    let r = prepare_outbound(SendRequest {
        id: 0x2000_0000,
        data: vec![],
        is_extended: true,
        is_rtr: false,
    });
    assert_eq!(r.unwrap_err(), InvalidFrame::IdentifierOutOfRange);
}

#[test]
fn outbound_length_limit_holds_for_both_kinds() {
    let r = prepare_outbound(SendRequest {
        id: 1,
        data: vec![0; 9],
        is_extended: false,
        is_rtr: false,
    });
    assert_eq!(r.unwrap_err(), InvalidFrame::PayloadTooLong);
    let r = prepare_outbound(SendRequest {
        id: 1,
        data: vec![0; 9],
        is_extended: false,
        is_rtr: true,
    });
    assert_eq!(r.unwrap_err(), InvalidFrame::PayloadTooLong);
    let ok = prepare_outbound(SendRequest {
        id: 1,
        data: vec![0; 8],
        is_extended: false,
        is_rtr: true,
    });
    assert!(ok.is_ok());
}
