use can_via_pi::message::InvalidFrame;
use can_via_pi::outbound::{prepare_outbound, SendRequest};
use can_via_pi::wire::{build_frame, encode_request};
use socketcan::{EmbeddedFrame, Frame, Id};

fn raw_id(id: Id) -> u32 {
    match id {
        Id::Standard(s) => s.as_raw() as u32,
        Id::Extended(e) => e.as_raw(),
    }
}

#[test]
fn standard_data_frame_is_built_from_the_request() {
    let f = encode_request(SendRequest {
        id: 0x123,
        data: vec![1, 2, 3],
        is_extended: false,
        is_rtr: false,
    })
    .unwrap();
    assert!(matches!(f.id(), Id::Standard(_)));
    assert_eq!(raw_id(f.id()), 0x123);
    assert_eq!(f.data(), &[1u8, 2, 3]);
    assert!(!f.is_extended());
    assert!(!f.is_remote_frame());
    assert!(!f.is_error_frame());
}

#[test]
fn extended_data_frame_with_a_small_identifier_stays_extended() {
    let f = encode_request(SendRequest {
        id: 0x12,
        data: vec![0xAA; 8],
        is_extended: true,
        is_rtr: false,
    })
    .unwrap();
    assert!(matches!(f.id(), Id::Extended(_)));
    assert_eq!(raw_id(f.id()), 0x12);
    assert_eq!(f.data(), &[0xAAu8; 8]);
    assert!(f.is_extended());
}

#[test]
fn remote_request_names_the_length_of_its_data() {
    let f = encode_request(SendRequest {
        id: 0x7FF,
        data: vec![0; 5],
        is_extended: false,
        is_rtr: true,
    })
    .unwrap();
    assert!(f.is_remote_frame());
    assert_eq!(f.dlc(), 5);
    assert_eq!(raw_id(f.id()), 0x7FF);
    let f = encode_request(SendRequest {
        id: 0x1FFF_FFFF,
        data: vec![],
        is_extended: true,
        is_rtr: true,
    })
    .unwrap();
    assert!(f.is_remote_frame());
    assert!(f.is_extended());
    assert_eq!(f.dlc(), 0);
    assert_eq!(raw_id(f.id()), 0x1FFF_FFFF);
}

#[test]
fn refused_request_builds_no_frame() {
    let r = encode_request(SendRequest {
        id: 0x800,
        data: vec![],
        is_extended: false,
        is_rtr: false,
    });
    assert_eq!(r.unwrap_err(), InvalidFrame::IdentifierOutOfRange);
    let r = encode_request(SendRequest {
        id: 0x1_0123,
        data: vec![],
        is_extended: false,
        is_rtr: true,
    });
    assert_eq!(r.unwrap_err(), InvalidFrame::IdentifierOutOfRange);
    let r = encode_request(SendRequest {
        id: 0x2000_0000,
        data: vec![],
        is_extended: true,
        is_rtr: false,
    });
    assert_eq!(r.unwrap_err(), InvalidFrame::IdentifierOutOfRange);
    let r = encode_request(SendRequest {
        id: 1,
        data: vec![0; 9],
        is_extended: true,
        is_rtr: false,
    });
    assert_eq!(r.unwrap_err(), InvalidFrame::PayloadTooLong);
    let r = encode_request(SendRequest {
        id: 1,
        data: vec![0; 9],
        is_extended: false,
        is_rtr: true,
    });
    assert_eq!(r.unwrap_err(), InvalidFrame::PayloadTooLong);
}

#[test]
fn validated_frame_always_builds() {
    for (id, ext) in [(0u32, false), (0x7FF, false), (0, true), (0x800, true), (0x1FFF_FFFF, true)]
    {
        for len in 0..=8usize {
            for rtr in [false, true] {
                let frame = prepare_outbound(SendRequest {
                    id,
                    data: vec![len as u8; len],
                    is_extended: ext,
                    is_rtr: rtr,
                })
                .unwrap();
                let built = build_frame(&frame);
                assert_eq!(raw_id(built.id()), id);
                assert_eq!(built.is_extended(), ext);
                assert_eq!(built.is_remote_frame(), rtr);
                assert_eq!(built.dlc(), len);
                if !rtr {
                    assert_eq!(built.data(), &vec![len as u8; len][..]);
                }
            }
        }
    }
}

#[test]
fn data_frame_is_read_field_by_field() {
    let frame = socketcan::CanFrame::new(socketcan::StandardId::new(0x123).unwrap(), &[1, 2, 3])
        .unwrap();
    let raw = can_via_pi::wire::read_raw(&frame).unwrap();
    assert_eq!(raw.id, 0x123);
    assert_eq!(raw.data, vec![1, 2, 3]);
    assert!(!raw.is_extended);
    assert!(!raw.is_error);
    assert!(!raw.is_rtr);
    let m = can_via_pi::wire::decode(&frame).unwrap();
    assert_eq!(m.id(), 0x123);
    assert_eq!(m.data(), &vec![1u8, 2, 3]);
    assert!(!m.is_extended());
    assert!(!m.is_error());
    assert!(!m.is_rtr());
}

#[test]
fn remote_frame_keeps_the_length_it_asks_for() {
    let frame =
        socketcan::CanFrame::new_remote(socketcan::ExtendedId::new(0x1ABC_DEF0).unwrap(), 4)
            .unwrap();
    let m = can_via_pi::wire::decode(&frame).unwrap();
    assert_eq!(m.id(), 0x1ABC_DEF0);
    assert!(m.is_extended());
    assert!(m.is_rtr());
    assert!(!m.is_error());
    assert_eq!(m.data(), &vec![0u8, 0, 0, 0]);
    for dlc in 0..=8usize {
        let frame =
            socketcan::CanFrame::new_remote(socketcan::StandardId::new(1).unwrap(), dlc).unwrap();
        let raw = can_via_pi::wire::read_raw(&frame).unwrap();
        assert!(raw.is_rtr);
        assert_eq!(raw.data, vec![0u8; dlc]);
    }
}

#[test]
fn error_frame_is_read_as_an_error_record() {
    let frame = socketcan::CanFrame::Error(
        socketcan::CanErrorFrame::new_error(0x004, &[0, 1, 0, 0, 0, 0, 0, 0]).unwrap(),
    );
    let m = can_via_pi::wire::decode(&frame).unwrap();
    assert!(m.is_error());
    assert!(!m.is_rtr());
    assert_eq!(m.id(), 0x004);
    assert_eq!(m.data(), &vec![0u8, 1, 0, 0, 0, 0, 0, 0]);
}

#[test]
fn frame_with_a_length_beyond_eight_is_refused_and_not_read() {
    let mut plain = socketcan::frame::can_frame_default();
    plain.can_id = 0x123;
    plain.can_dlc = 9;
    let frame = socketcan::CanFrame::from(plain);
    assert_eq!(
        can_via_pi::wire::read_raw(&frame).unwrap_err(),
        InvalidFrame::PayloadTooLong
    );
    assert_eq!(can_via_pi::wire::decode(&frame).unwrap_err(), InvalidFrame::PayloadTooLong);
    let mut remote = socketcan::frame::can_frame_default();
    remote.can_id = 0x123 | 0x4000_0000;
    remote.can_dlc = 15;
    let frame = socketcan::CanFrame::from(remote);
    assert_eq!(can_via_pi::wire::decode(&frame).unwrap_err(), InvalidFrame::PayloadTooLong);
    let mut full = socketcan::frame::can_frame_default();
    full.can_id = 0x123;
    full.can_dlc = 8;
    full.data = [1, 2, 3, 4, 5, 6, 7, 8];
    let frame = socketcan::CanFrame::from(full);
    assert_eq!(
        can_via_pi::wire::decode(&frame).unwrap().data(),
        &vec![1u8, 2, 3, 4, 5, 6, 7, 8]
    );
}

#[test]
fn built_frame_reads_back_as_the_request() {
    for (id, ext) in [(0u32, false), (0x7FF, false), (0x456, true), (0x1FFF_FFFF, true)] {
        for len in 0..=8usize {
            let bytes: Vec<u8> = (0..len as u8).map(|b| b + 1).collect();
            for rtr in [false, true] {
                let built = encode_request(SendRequest {
                    id,
                    data: bytes.clone(),
                    is_extended: ext,
                    is_rtr: rtr,
                })
                .unwrap();
                let raw = can_via_pi::wire::read_raw(&built).unwrap();
                assert_eq!(raw.id, id);
                assert_eq!(raw.is_extended, ext);
                assert_eq!(raw.is_rtr, rtr);
                assert!(!raw.is_error);
                if rtr {
                    assert_eq!(raw.data, vec![0u8; len]);
                } else {
                    assert_eq!(raw.data, bytes);
                }
                assert!(can_via_pi::wire::decode(&built).is_ok());
            }
        }
    }
}
