use bearcub::types::{
    MessageError, RequestMessage, ResponseMessage, BUF_CAP, DATA_BYTES_PER_FRAME,
};
use bearcub::wire::{try_parse_frame, Frame};

#[test]
fn test_get_id_to_frames() {
    let id_str = String::from("2ab3da63-e24f-47e2-9b56-f3d19fade0cf");
    let msg = RequestMessage::Get { user_id: "2ab3da63-e24f-47e2-9b56-f3d19fade0cf".to_string(), id: Some(id_str.clone()), path: None };
    let frames = msg.to_frames();
    assert_eq!(frames.len(), 1);
    assert_eq!(frames[0].size(), 49 + 36);
    assert_eq!(String::from_utf8(frames[0].data.to_vec()).unwrap().eq(&id_str), true);
}

#[test]
fn test_set_large_msg() {
    let id_str = String::from("2ab3da63-e24f-47e2-9b56-f3d19fade0cf");
    let mut data_buf: Vec<u8> = Vec::with_capacity(BUF_CAP * 2);
    for _i in 0..(BUF_CAP * 2) {
        data_buf.push(3 as u8);
    }
    let msg = RequestMessage::SetBlob { user_id: "2ab3da63-e24f-47e2-9b56-f3d19fade0cf".to_string(), id: id_str.clone(), data: data_buf };
    let frames = msg.to_frames();

    assert_eq!(frames.len(), 3);

    for i in 0..(frames.len() - 1) {
        if i == 0 {
            assert_eq!(frames[i].size(), 13 + 36 + DATA_BYTES_PER_FRAME);
        } else {
            assert_eq!(frames[i].size(), 13 + DATA_BYTES_PER_FRAME);
        }
    }

    let mut new_buf: Vec<u8> = Vec::with_capacity(BUF_CAP * 2);
    for fi in 0..frames.len() {
        let f = frames[fi].clone();
        if fi > 0 {
            new_buf.extend_from_slice(&f.data);
        } else {
            new_buf.extend_from_slice(&f.data[72..]);
        }
    }

    for b in new_buf {
        assert_eq!(b, 3 as u8);
    }
}

#[test]
fn test_data_frames() {
    let small_data = "hello";
    let msg = ResponseMessage::Data { data: small_data.as_bytes().to_vec() };
    let frames = msg.to_frames();
    assert_eq!(frames.len(), 1);
    for fi in 0..frames.len() {
        let f = &frames[fi];
        let bs = f.to_bytes();
        let frame2 = try_parse_frame(&bs).unwrap();
        assert_eq!(frame2.msg_type_flag == ('d' as u8), true);
        let s = String::from_utf8(frame2.data.to_vec()).unwrap();
        assert!(s.eq("hello"));
    }

    let res_msg = ResponseMessage::from_frames(frames).unwrap();
    println!("resmsg = {:?}", &res_msg);
    let b = match res_msg {
        ResponseMessage::Data { data } => {
            let dats = String::from_utf8(data.to_vec()).unwrap();
            dats.eq("hello")
        },
        _ => false,
    };
    assert!(b);
}

#[test]
fn test_error_frames() {
    let small_data = "hello";
    let msg = ResponseMessage::Error { code: 128, description: String::from(small_data) };
    let frames = msg.to_frames();
    assert_eq!(frames.len(), 1);

    let res_msg = ResponseMessage::from_frames(frames).unwrap();
    println!("resmsg = {:?}", &res_msg);
    let b = match res_msg {
        ResponseMessage::Error { code, description } => (code == 128) && (description.eq("hello")),
        _ => false,
    };
    assert!(b);
}

#[test]
fn test_put_frames() {
    let msg = RequestMessage::Put { user_id: "2ab3da63-e24f-47e2-9b56-f3d19fade0cf".to_string(), parent: None, id: "2ab3da63-e24f-47e2-9b56-f3d19fade0ce".to_string(), data: "{\"title\": \"abcdef\"}".as_bytes().to_vec() };
    let frames = msg.to_frames();
    println!("frame 0: {:?}", &frames[0]);
    let req_msg_res = RequestMessage::from_frames(frames);
    if req_msg_res.is_err() {
        println!("error = {:?}", req_msg_res.unwrap_err());
        panic!("error");
    }
    let req_msg = req_msg_res.unwrap();
    println!("req_msg: {:?}", req_msg);
    let b = match req_msg {
        RequestMessage::Put { user_id, id, data, parent } => {
            let b1 = user_id.eq("2ab3da63-e24f-47e2-9b56-f3d19fade0cf");
            let b2 = id.eq("2ab3da63-e24f-47e2-9b56-f3d19fade0ce");
            let b3 = String::from_utf8(data.to_vec()).unwrap().eq("{\"title\": \"abcdef\"}");
            let b4 = parent.is_none();
            println!("bools {} {} {} {}", b1, b2, b3, b4);
            b1 && b2 && b3 && b4
        },
        _ => false,
    };
    assert!(b);
}

#[test]
fn test_set_frames() {
    let msg = RequestMessage::SetBlob { user_id: "2ab3da63-e24f-47e2-9b56-f3d19fade0cf".to_string(), id: "2ab3da63-e24f-47e2-9b56-f3d19fade0ce".to_string(), data: "{\"title\": \"abcdef\"}".as_bytes().to_vec() };
    let frames = msg.to_frames();
    println!("frame 0: {:?}", &frames[0]);
    let req_msg_res = RequestMessage::from_frames(frames);
    if req_msg_res.is_err() {
        println!("error = {:?}", req_msg_res.unwrap_err());
        panic!("error");
    }
    let req_msg = req_msg_res.unwrap();
    println!("req_msg: {:?}", req_msg);
    let b = match req_msg {
        RequestMessage::SetBlob { user_id, id, data } => {
            let b1 = user_id.eq("2ab3da63-e24f-47e2-9b56-f3d19fade0cf");
            let b2 = id.eq("2ab3da63-e24f-47e2-9b56-f3d19fade0ce");
            let b3 = String::from_utf8(data.to_vec()).unwrap().eq("{\"title\": \"abcdef\"}");
            println!("bools {} {} {}", b1, b2, b3);
            b1 && b2 && b3
        },
        _ => false,
    };
    assert!(b);
}

#[test]
fn test_data_frames_big() {
    let mut big_data: Vec<u8> = Vec::with_capacity(BUF_CAP * 4);
    for _i in 0..(BUF_CAP * 4) {
        big_data.push(3 as u8);
    }
    let msg = ResponseMessage::Data { data: big_data };
    let frames = msg.to_frames();
    assert_eq!(frames.len(), 5);

    let res_msg = ResponseMessage::from_frames(frames).unwrap();
    println!("resmsg = {:?}", &res_msg);
    let b = match res_msg {
        ResponseMessage::Data { data } => {
            data.len() == (BUF_CAP * 4) && data.iter().map(|x| *x == (3 as u8)).reduce(|x, y| x && y).unwrap_or(false)
        },
        _ => false,
    };
    assert!(b);
}

const UID: &str = "beaa3a60-0082-4e5d-8153-a3c062dfdd2a";
const ID1: &str = "0e58d858-0808-4cef-8143-8eb4db188a64";
const ID2: &str = "2ab3da63-e24f-47e2-9b56-f3d19fade0cf";

fn data_frames(len: usize) -> Vec<Frame> {
    ResponseMessage::Data { data: vec![7u8; len] }.to_frames()
}

#[test]
fn empty_body_still_takes_one_frame() {
    let frames = data_frames(0);
    assert_eq!(frames.len(), 1);
    assert_eq!(frames[0].n_remaining_frames, 1);
    assert_eq!(frames[0].data.len(), 0);
    match ResponseMessage::from_frames(frames).unwrap() {
        ResponseMessage::Data { data } => assert!(data.is_empty()),
        _ => panic!("expected data"),
    }
}

#[test]
fn chunk_boundaries_at_one_chunk() {
    assert_eq!(DATA_BYTES_PER_FRAME, 3968);
    assert_eq!(data_frames(3968).len(), 1);
    let two = data_frames(3969);
    assert_eq!(two.len(), 2);
    assert_eq!(two[0].data.len(), 3968);
    assert_eq!(two[1].data.len(), 1);
    assert_eq!(two[0].n_remaining_frames, 2);
    assert_eq!(two[1].n_remaining_frames, 1);
    assert_eq!(two[1].msg_type_flag, b'd');
}

#[test]
fn four_chunks_count_down() {
    let frames = data_frames(4 * 3968);
    assert_eq!(frames.len(), 4);
    for (i, f) in frames.iter().enumerate() {
        assert_eq!(f.n_remaining_frames as usize, 4 - i);
        assert_eq!(f.data.len(), 3968);
        assert_eq!(f.user_id, None);
    }
}

#[test]
fn put_chunks_carry_id_slots_in_the_first_frame() {
    let msg = RequestMessage::Put { user_id: UID.to_string(), id: ID1.to_string(), parent: Some(ID2.to_string()), data: vec![1u8; 4 * 3968] };
    let frames = msg.to_frames();
    // the two 36-byte id slots push the payload past four chunks
    assert_eq!(frames.len(), 5);
    assert_eq!(frames[0].msg_type_flag, b'p');
    assert_eq!(frames[0].user_id.as_deref(), Some(UID));
    for f in &frames[1..] {
        assert_eq!(f.msg_type_flag, b'd');
        assert_eq!(f.user_id, None);
    }
    assert_eq!(&frames[0].data[0..36], ID1.as_bytes());
    assert_eq!(&frames[0].data[36..72], ID2.as_bytes());
    match RequestMessage::from_frames(frames).unwrap() {
        RequestMessage::Put { user_id, id, parent, data } => {
            assert_eq!(user_id, UID);
            assert_eq!(id, ID1);
            assert_eq!(parent.as_deref(), Some(ID2));
            assert_eq!(data, vec![1u8; 4 * 3968]);
        },
        other => panic!("unexpected {:?}", other),
    }
}

#[test]
fn put_with_zero_parent_slot_decodes_without_parent() {
    let msg = RequestMessage::Put { user_id: UID.to_string(), id: ID1.to_string(), parent: None, data: b"{}".to_vec() };
    let frames = msg.to_frames();
    assert_eq!(&frames[0].data[36..72], &[0u8; 36][..]);
    match RequestMessage::from_frames(frames).unwrap() {
        RequestMessage::Put { parent, .. } => assert!(parent.is_none()),
        other => panic!("unexpected {:?}", other),
    }
}

#[test]
fn get_with_id_and_path_goes_by_id() {
    let msg = RequestMessage::Get { user_id: UID.to_string(), id: Some(ID1.to_string()), path: Some("abc".to_string()) };
    let frames = msg.to_frames();
    assert_eq!(frames[0].msg_type_flag, b'G');
    match RequestMessage::from_frames(frames).unwrap() {
        RequestMessage::Get { id, path, .. } => {
            assert_eq!(id.as_deref(), Some(ID1));
            assert!(path.is_none());
        },
        other => panic!("unexpected {:?}", other),
    }
}

#[test]
fn get_by_path_list_and_remove_round_trip() {
    let msgs = vec![
        RequestMessage::Get { user_id: UID.to_string(), id: None, path: Some("top:chi".to_string()) },
        RequestMessage::List { user_id: UID.to_string(), blob_id: None },
        RequestMessage::List { user_id: UID.to_string(), blob_id: Some(ID1.to_string()) },
        RequestMessage::Remove { user_id: UID.to_string(), id: ID1.to_string() },
    ];
    let flags = [b'P', b'L', b'L', b'R'];
    for (m, flag) in msgs.into_iter().zip(flags) {
        let before = format!("{:?}", m);
        let frames = m.to_frames();
        assert_eq!(frames.len(), 1);
        assert_eq!(frames[0].msg_type_flag, flag);
        let back = RequestMessage::from_frames(frames).unwrap();
        assert_eq!(format!("{:?}", back), before);
    }
}

#[test]
fn message_errors() {
    assert_eq!(RequestMessage::from_frames(vec![]).unwrap_err(), MessageError::NoFrames);
    assert_eq!(ResponseMessage::from_frames(vec![]).unwrap_err(), MessageError::NoFrames);
    let odd = Frame::new(Some(UID.to_string()), 1, b'x', vec![]);
    assert_eq!(RequestMessage::from_frames(vec![odd.clone()]).unwrap_err(), MessageError::UnknownType);
    assert_eq!(ResponseMessage::from_frames(vec![odd]).unwrap_err(), MessageError::UnknownType);
    let no_user = Frame::new(None, 1, b'G', b"id".to_vec());
    assert_eq!(RequestMessage::from_frames(vec![no_user]).unwrap_err(), MessageError::MissingUserId);
    let short_put = Frame::new(Some(UID.to_string()), 1, b'p', vec![b'a'; 40]);
    assert_eq!(RequestMessage::from_frames(vec![short_put]).unwrap_err(), MessageError::Malformed);
    let bad_utf8 = Frame::new(Some(UID.to_string()), 1, b'G', vec![0xff, 0xfe]);
    assert_eq!(RequestMessage::from_frames(vec![bad_utf8]).unwrap_err(), MessageError::Malformed);
    let short_err = Frame::new(None, 1, b'e', vec![0, 0]);
    assert_eq!(ResponseMessage::from_frames(vec![short_err]).unwrap_err(), MessageError::Malformed);
}

#[test]
fn error_frame_layout_and_unknown_text() {
    let frames = ResponseMessage::Error { code: 12, description: "no such entity".to_string() }.to_frames();
    assert_eq!(frames[0].msg_type_flag, b'e');
    assert_eq!(&frames[0].data[0..4], &[0, 0, 0, 12]);
    assert_eq!(&frames[0].data[4..], b"no such entity");
    let garbled = Frame::new(None, 1, b'e', vec![0, 0, 0, 11, 0xff]);
    match ResponseMessage::from_frames(vec![garbled]).unwrap() {
        ResponseMessage::Error { code, description } => {
            assert_eq!(code, 11);
            assert_eq!(description, "unknown error");
        },
        _ => panic!("expected error"),
    }
}

#[test]
fn encodability_checks() {
    assert!(RequestMessage::Get { user_id: UID.to_string(), id: Some("x".to_string()), path: None }.is_encodable());
    assert!(!RequestMessage::Get { user_id: UID.to_string(), id: None, path: None }.is_encodable());
    assert!(!RequestMessage::Get { user_id: "short".to_string(), id: Some("x".to_string()), path: None }.is_encodable());
    assert!(!RequestMessage::Put { user_id: UID.to_string(), id: "short".to_string(), parent: None, data: vec![] }.is_encodable());
    assert!(ResponseMessage::Data { data: vec![] }.is_encodable());
}

#[test]
fn put_payload_of_four_chunks_takes_four_frames() {
    // 72 bytes of id slots plus 15,800 bytes of data make 4 × 3968 bytes
    let msg = RequestMessage::Put { user_id: UID.to_string(), id: ID1.to_string(), parent: None, data: vec![5u8; 15800] };
    let frames = msg.to_frames();
    assert_eq!(frames.len(), 4);
    for f in &frames {
        assert_eq!(f.data.len(), 3968);
    }
    match RequestMessage::from_frames(frames).unwrap() {
        RequestMessage::Put { data, .. } => assert_eq!(data, vec![5u8; 15800]),
        other => panic!("unexpected {:?}", other),
    }
}
