use bytes::BytesMut;
use peer_wire::framed::{MyPeerMsgError, MyPeerMsgFramed};
use peer_wire::message::{MyPeerMsg, MyPeerMsgTag, MAX_PAYLOAD};

fn buffer_of(bytes: &[u8]) -> BytesMut {
    BytesMut::from(bytes)
}

fn encoded(tag: MyPeerMsgTag, payload: Vec<u8>) -> BytesMut {
    let mut dst = BytesMut::new();
    MyPeerMsgFramed
        .encode(MyPeerMsg { tag, payload }, &mut dst)
        .unwrap();
    dst
}

#[test]
fn a() {
    let mut f = MyPeerMsgFramed;
    let a = b"\0\0\01\x14\0d1:md11:ut_metadatai239ee13:metadata_sizei132ee";
    let a = f.decode(&mut BytesMut::from_iter(a.iter()));
    let _ = a;
}

#[test]
fn handshake_frame_is_an_extended_message() {
    let mut f = MyPeerMsgFramed;
    let bytes = b"\0\0\01\x14\0d1:md11:ut_metadatai239ee13:metadata_sizei132ee";
    let mut src = BytesMut::from_iter(bytes.iter());
    let m = f.decode(&mut src).unwrap().unwrap();
    assert_eq!(m.tag, MyPeerMsgTag::Extended);
    assert_eq!(m.payload.len(), 48);
    assert_eq!(m.payload[0], 0);
    assert_eq!(&m.payload[1..], &bytes[6..]);
    assert!(src.is_empty());
}

#[test]
fn tag_three_with_one_byte() {
    let mut f = MyPeerMsgFramed;
    let mut src = buffer_of(&[0, 0, 0, 2, 3, 1]);
    let m = f.decode(&mut src).unwrap().unwrap();
    assert_eq!(m.tag, MyPeerMsgTag::NotInterested);
    assert_eq!(m.tag.to_u8(), 3);
    assert_eq!(m.payload, vec![1]);
    assert!(src.is_empty());
    let mut dst = BytesMut::new();
    assert_eq!(f.encode(m, &mut dst), Ok(()));
    assert_eq!(&dst[..], &[0, 0, 0, 2, 3, 1]);
}

#[test]
fn keep_alive_then_one_message() {
    let mut f = MyPeerMsgFramed;
    let mut src = buffer_of(&[0, 0, 0, 0, 0, 0, 0, 2, 0, 5]);
    let m = f.decode(&mut src).unwrap().unwrap();
    assert_eq!(m.tag, MyPeerMsgTag::Choke);
    assert_eq!(m.payload, vec![5]);
    assert!(src.is_empty());
    assert_eq!(f.decode(&mut src), Ok(None));
}

#[test]
fn many_keep_alives_are_silent() {
    let mut f = MyPeerMsgFramed;
    let mut src = BytesMut::new();
    for _ in 0..50_000 {
        src.extend_from_slice(&[0, 0, 0, 0]);
    }
    src.extend_from_slice(&[0, 0, 0, 3, 4, 9, 8]);
    let m = f.decode(&mut src).unwrap().unwrap();
    assert_eq!(m, MyPeerMsg { tag: MyPeerMsgTag::Have, payload: vec![9, 8] });
    assert!(src.is_empty());
}

#[test]
fn keep_alives_alone_leave_nothing() {
    let mut f = MyPeerMsgFramed;
    let mut src = buffer_of(&[0, 0, 0, 0, 0, 0, 0, 0, 0, 0]);
    assert_eq!(f.decode(&mut src), Ok(None));
    assert_eq!(&src[..], &[0, 0]);
}

#[test]
fn round_trip_of_each_tag() {
    let tags = [
        MyPeerMsgTag::Choke,
        MyPeerMsgTag::Unchoke,
        MyPeerMsgTag::Interested,
        MyPeerMsgTag::NotInterested,
        MyPeerMsgTag::Have,
        MyPeerMsgTag::Bitfield,
        MyPeerMsgTag::Request,
        MyPeerMsgTag::Piece,
        MyPeerMsgTag::Cancel,
        MyPeerMsgTag::Port,
        MyPeerMsgTag::Extended,
    ];
    let mut f = MyPeerMsgFramed;
    for (i, tag) in tags.iter().enumerate() {
        let payload: Vec<u8> = (0..i * 7).map(|x| (x % 251) as u8).collect();
        let mut buf = encoded(*tag, payload.clone());
        assert_eq!(buf.len(), 5 + payload.len());
        let m = f.decode(&mut buf).unwrap().unwrap();
        assert_eq!(m, MyPeerMsg { tag: *tag, payload });
        assert!(buf.is_empty());
    }
}

#[test]
fn empty_payload_is_five_bytes() {
    let buf = encoded(MyPeerMsgTag::Unchoke, vec![]);
    assert_eq!(&buf[..], &[0, 0, 0, 1, 1]);
    let mut buf = buf;
    let m = MyPeerMsgFramed.decode(&mut buf).unwrap().unwrap();
    assert_eq!(m, MyPeerMsg { tag: MyPeerMsgTag::Unchoke, payload: vec![] });
}

#[test]
fn length_prefix_is_big_endian() {
    let buf = encoded(MyPeerMsgTag::Piece, vec![7; 300]);
    assert_eq!(&buf[..5], &[0, 0, 1, 45, 7]);
    let buf = encoded(MyPeerMsgTag::Piece, vec![7; MAX_PAYLOAD]);
    assert_eq!(&buf[..5], &[0, 1, 0, 0, 7]);
}

#[test]
fn encode_appends_to_what_is_there() {
    let mut dst = buffer_of(&[9, 9]);
    let m = MyPeerMsg { tag: MyPeerMsgTag::Cancel, payload: vec![1, 2, 255, 4] };
    assert_eq!(MyPeerMsgFramed.encode(m, &mut dst), Ok(()));
    assert_eq!(&dst[..], &[9, 9, 0, 0, 0, 5, 8, 1, 2, 255, 4]);
}

#[test]
fn fed_byte_by_byte() {
    let whole = encoded(MyPeerMsgTag::Request, vec![1, 2, 3, 4, 5, 6, 7, 8, 9, 10, 11, 12]);
    let mut f = MyPeerMsgFramed;
    let mut src = BytesMut::new();
    let mut got = None;
    for (i, byte) in whole.iter().enumerate() {
        src.extend_from_slice(&[*byte]);
        let step = f.decode(&mut src).unwrap();
        if i + 1 < whole.len() {
            assert_eq!(step, None);
            assert_eq!(&src[..], &whole[..i + 1]);
        } else {
            got = step;
        }
    }
    let mut again = whole.clone();
    assert_eq!(got, f.decode(&mut again).unwrap());
    assert_eq!(
        got,
        Some(MyPeerMsg {
            tag: MyPeerMsgTag::Request,
            payload: vec![1, 2, 3, 4, 5, 6, 7, 8, 9, 10, 11, 12],
        })
    );
    assert!(src.is_empty());
}

#[test]
fn fed_in_uneven_chunks() {
    let whole = encoded(MyPeerMsgTag::Bitfield, vec![0xAA; 1000]);
    for cut in [1usize, 3, 4, 5, 6, 500, 1004] {
        let mut f = MyPeerMsgFramed;
        let mut src = BytesMut::new();
        src.extend_from_slice(&whole[..cut]);
        assert_eq!(f.decode(&mut src), Ok(None));
        assert_eq!(f.decode(&mut src), Ok(None));
        assert_eq!(src.len(), cut);
        src.extend_from_slice(&whole[cut..]);
        let m = f.decode(&mut src).unwrap().unwrap();
        assert_eq!(m, MyPeerMsg { tag: MyPeerMsgTag::Bitfield, payload: vec![0xAA; 1000] });
        assert!(src.is_empty());
    }
}

#[test]
fn largest_payload_round_trips() {
    let payload = [1].repeat(MAX_PAYLOAD);
    let mut buf = encoded(MyPeerMsgTag::Interested, payload.clone());
    assert_eq!(buf.len(), 5 + 65535);
    let m = MyPeerMsgFramed.decode(&mut buf).unwrap().unwrap();
    assert_eq!(m.tag, MyPeerMsgTag::Interested);
    assert_eq!(m.payload, payload);
    assert!(buf.is_empty());
}

#[test]
fn payload_one_above_the_limit_is_refused() {
    let mut src = BytesMut::new();
    src.extend_from_slice(&[0, 1, 0, 1, 2]);
    src.extend_from_slice(&vec![0u8; 65536]);
    let before = src.clone();
    assert_eq!(MyPeerMsgFramed.decode(&mut src), Err(MyPeerMsgError::MalformedFrame));
    assert_eq!(src, before);
}

#[test]
fn overlong_claim_is_refused_before_its_payload_arrives() {
    let mut src = buffer_of(&[0, 1, 0, 1]);
    assert_eq!(MyPeerMsgFramed.decode(&mut src), Err(MyPeerMsgError::MalformedFrame));
    assert_eq!(&src[..], &[0, 1, 0, 1]);
    let mut src = buffer_of(&[0, 0, 0, 0, 255, 255, 255, 255, 2]);
    assert_eq!(MyPeerMsgFramed.decode(&mut src), Err(MyPeerMsgError::MalformedFrame));
    assert_eq!(&src[..], &[255, 255, 255, 255, 2]);
    let mut src = buffer_of(&[0, 1, 0, 0]);
    assert_eq!(MyPeerMsgFramed.decode(&mut src), Ok(None));
    assert_eq!(&src[..], &[0, 1, 0, 0]);
}

#[test]
fn encode_refuses_a_payload_above_the_limit() {
    let mut dst = buffer_of(&[4, 2]);
    let m = MyPeerMsg { tag: MyPeerMsgTag::Piece, payload: vec![0; MAX_PAYLOAD + 1] };
    assert_eq!(MyPeerMsgFramed.encode(m, &mut dst), Err(MyPeerMsgError::PayloadTooLarge));
    assert_eq!(&dst[..], &[4, 2]);
}

#[test]
fn checked_encode_writes_the_same_frames() {
    let mut f = MyPeerMsgFramed;
    let mut dst = buffer_of(&[7]);
    let m = MyPeerMsg { tag: MyPeerMsgTag::Have, payload: vec![0, 0, 0, 9] };
    assert_eq!(f.encode_checked(m, &mut dst), Ok(()));
    assert_eq!(&dst[..], &[7, 0, 0, 0, 5, 4, 0, 0, 0, 9]);
    let m = MyPeerMsg { tag: MyPeerMsgTag::Piece, payload: vec![0; MAX_PAYLOAD + 1] };
    assert_eq!(f.encode_checked(m, &mut dst), Err(MyPeerMsgError::PayloadTooLarge));
    assert_eq!(dst.len(), 10);
}

#[test]
fn unknown_tag_is_an_error() {
    let mut src = buffer_of(&[0, 0, 0, 2, 10, 1]);
    assert_eq!(MyPeerMsgFramed.decode(&mut src), Err(MyPeerMsgError::UnknownTag));
    assert_eq!(&src[..], &[0, 0, 0, 2, 10, 1]);
    let mut src = buffer_of(&[0, 0, 0, 0, 0, 0, 0, 1, 255]);
    assert_eq!(MyPeerMsgFramed.decode(&mut src), Err(MyPeerMsgError::UnknownTag));
    assert_eq!(&src[..], &[0, 0, 0, 1, 255]);
}

#[test]
fn short_input_needs_more() {
    let mut f = MyPeerMsgFramed;
    let mut src = BytesMut::new();
    assert_eq!(f.decode(&mut src), Ok(None));
    let mut src = buffer_of(&[0, 0, 0]);
    assert_eq!(f.decode(&mut src), Ok(None));
    assert_eq!(&src[..], &[0, 0, 0]);
    let mut src = buffer_of(&[0, 0, 0, 3, 4, 1]);
    assert_eq!(f.decode(&mut src), Ok(None));
    assert_eq!(&src[..], &[0, 0, 0, 3, 4, 1]);
}

#[test]
fn messages_come_out_in_order() {
    let mut f = MyPeerMsgFramed;
    let mut src = BytesMut::new();
    f.encode(MyPeerMsg { tag: MyPeerMsgTag::Have, payload: vec![1] }, &mut src).unwrap();
    src.extend_from_slice(&[0, 0, 0, 0]);
    f.encode(MyPeerMsg { tag: MyPeerMsgTag::Port, payload: vec![2, 3] }, &mut src).unwrap();
    src.extend_from_slice(&[0, 0]);
    assert_eq!(
        f.decode(&mut src),
        Ok(Some(MyPeerMsg { tag: MyPeerMsgTag::Have, payload: vec![1] }))
    );
    assert_eq!(&src[..4], &[0, 0, 0, 0]);
    assert_eq!(
        f.decode(&mut src),
        Ok(Some(MyPeerMsg { tag: MyPeerMsgTag::Port, payload: vec![2, 3] }))
    );
    assert_eq!(f.decode(&mut src), Ok(None));
    assert_eq!(&src[..], &[0, 0]);
}

#[test]
fn tag_bytes() {
    let known: [u8; 11] = [0, 1, 2, 3, 4, 5, 6, 7, 8, 9, 20];
    for b in 0..=255u8 {
        match MyPeerMsgTag::from_u8(b) {
            Some(t) => {
                assert!(known.contains(&b));
                assert_eq!(t.to_u8(), b);
            }
            None => assert!(!known.contains(&b)),
        }
    }
    assert_eq!(MyPeerMsgTag::from_u8(2), Some(MyPeerMsgTag::Interested));
    assert_eq!(MyPeerMsgTag::from_u8(20), Some(MyPeerMsgTag::Extended));
    assert_eq!(MyPeerMsgTag::Extended.to_u8(), 20);
}
