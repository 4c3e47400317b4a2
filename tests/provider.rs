use std::collections::HashMap;

use bearcub::blobs::{extract_owner_id, extract_title, BlobError};
use bearcub::connection::{BearcubMessage, Connection, MessagePump, PumpStep};
use bearcub::provider::{after_skeleton_save, reply_to_read, reply_to_write, BlobRead, Provider, StorageStep, WriteAction};
use bearcub::registry::{RegistryError, UserProvider};
use bearcub::skeleton::{Listing, SkeletonHandle};
use bearcub::types::{RequestMessage, ResponseMessage, ERR_CODE_INVALID_MSG, ERR_CODE_NO_SUCH_ENTITY};
use bearcub::wire::Frame;

const UID: &str = "beaa3a60-0082-4e5d-8153-a3c062dfdd2a";
const ID1: &str = "0e58d858-0808-4cef-8143-8eb4db188a64";

/// Files kept in memory, by path.
type Disk = HashMap<String, Vec<u8>>;

fn listing_ids(l: &Listing, out: &mut Vec<String>) {
    out.push(l.id.clone());
    for c in &l.children {
        listing_ids(c, out);
    }
}

fn serve(p: &mut Provider, disk: &mut Disk, req: RequestMessage) -> ResponseMessage {
    match p.respond_to(req) {
        StorageStep::Reply { msg } => msg,
        StorageStep::ReadBlob { path } => reply_to_read(match disk.get(&path) {
            Some(d) => BlobRead::Found { data: d.clone() },
            None => BlobRead::Missing,
        }),
        StorageStep::Write { skeleton_path, blob_path, data } => {
            if let Some(sp) = skeleton_path {
                disk.insert(sp, b"skeleton".to_vec());
            }
            disk.insert(blob_path, data);
            reply_to_write(true)
        },
        StorageStep::List { listing } => {
            let mut ids = vec![];
            listing_ids(&listing, &mut ids);
            ResponseMessage::Data { data: ids.join(",").into_bytes() }
        },
    }
}

fn provider() -> Provider {
    Provider::new("./data".to_string(), UID.to_string(), SkeletonHandle::new())
}

fn put(id: &str, parent: Option<&str>, body: &str) -> RequestMessage {
    RequestMessage::Put { user_id: UID.to_string(), id: id.to_string(), parent: parent.map(|s| s.to_string()), data: body.as_bytes().to_vec() }
}

fn get_id(id: &str) -> RequestMessage {
    RequestMessage::Get { user_id: UID.to_string(), id: Some(id.to_string()), path: None }
}

fn get_path(path: &str) -> RequestMessage {
    RequestMessage::Get { user_id: UID.to_string(), id: None, path: Some(path.to_string()) }
}

fn is_data(r: &ResponseMessage, expected: &[u8]) -> bool {
    matches!(r, ResponseMessage::Data { data } if data.as_slice() == expected)
}

fn is_error(r: &ResponseMessage, expected: u32) -> bool {
    matches!(r, ResponseMessage::Error { code, .. } if *code == expected)
}

#[test]
fn put_then_get_by_id() {
    let mut p = provider();
    let mut disk = Disk::new();
    let r = serve(&mut p, &mut disk, put(ID1, None, "{\"title\":\"abc\"}"));
    assert!(is_data(&r, b"SUCCESS"));
    let r = serve(&mut p, &mut disk, get_id(ID1));
    assert!(is_data(&r, b"{\"title\":\"abc\"}"));
    assert!(disk.contains_key(&format!("./data/{}/blobs.bson", UID)));
    assert!(disk.contains_key(&format!("./data/{}/{}.json", UID, ID1)));
}

#[test]
fn set_rewrites_title() {
    let mut p = provider();
    let mut disk = Disk::new();
    serve(&mut p, &mut disk, put(ID1, None, "{\"title\":\"abc\"}"));
    let set = RequestMessage::SetBlob { user_id: UID.to_string(), id: ID1.to_string(), data: b"{\"title\":\"def\"}".to_vec() };
    assert!(is_data(&serve(&mut p, &mut disk, set), b"SUCCESS"));
    assert!(is_error(&serve(&mut p, &mut disk, get_path("abc")), ERR_CODE_NO_SUCH_ENTITY));
    assert!(is_data(&serve(&mut p, &mut disk, get_path("def")), b"{\"title\":\"def\"}"));
}

#[test]
fn path_lookup_by_prefix() {
    let mut p = provider();
    let mut disk = Disk::new();
    serve(&mut p, &mut disk, put(ID1, None, "{\"title\":\"notebook\"}"));
    assert!(is_data(&serve(&mut p, &mut disk, get_path("note")), b"{\"title\":\"notebook\"}"));
}

#[test]
fn missing_title_is_invalid_and_stores_nothing() {
    let mut p = provider();
    let mut disk = Disk::new();
    assert!(is_error(&serve(&mut p, &mut disk, put(ID1, None, "not json")), ERR_CODE_INVALID_MSG));
    assert!(is_error(&serve(&mut p, &mut disk, get_id(ID1)), ERR_CODE_NO_SUCH_ENTITY));
    assert!(disk.is_empty());
}

#[test]
fn put_under_missing_parent_is_invalid() {
    let mut p = provider();
    let mut disk = Disk::new();
    let r = serve(&mut p, &mut disk, put(ID1, Some("2ab3da63-e24f-47e2-9b56-f3d19fade0cf"), "{\"title\":\"abc\"}"));
    assert!(is_error(&r, ERR_CODE_INVALID_MSG));
    assert!(disk.is_empty());
    assert!(p.get_skeleton_node(ID1).is_none());
}

#[test]
fn get_naming_nothing_and_remove() {
    let mut p = provider();
    let mut disk = Disk::new();
    let none = RequestMessage::Get { user_id: UID.to_string(), id: None, path: None };
    assert!(is_error(&serve(&mut p, &mut disk, none), ERR_CODE_NO_SUCH_ENTITY));
    let rm = RequestMessage::Remove { user_id: UID.to_string(), id: ID1.to_string() };
    assert!(is_error(&serve(&mut p, &mut disk, rm), ERR_CODE_INVALID_MSG));
}

#[test]
fn replies_to_storage_outcomes() {
    assert!(is_data(&reply_to_read(BlobRead::Found { data: b"x".to_vec() }), b"x"));
    assert!(is_error(&reply_to_read(BlobRead::Missing), ERR_CODE_NO_SUCH_ENTITY));
    assert!(is_error(&reply_to_read(BlobRead::Failed), ERR_CODE_INVALID_MSG));
    assert!(is_data(&reply_to_write(true), b"SUCCESS"));
    assert!(is_error(&reply_to_write(false), ERR_CODE_INVALID_MSG));
}

#[test]
fn file_paths() {
    let p = provider();
    assert_eq!(p.user_data_path(), format!("./data/{}", UID));
    assert_eq!(p.skeleton_filename(), format!("./data/{}/blobs.bson", UID));
    assert_eq!(p.blob_filename("abc"), format!("./data/{}/abc.json", UID));
}

#[test]
fn batch_of_puts_survives_a_restart() {
    let mut p = provider();
    let mut disk = Disk::new();
    let mut ids = vec![];
    for i in 0..1000 {
        let id = uuid::Uuid::new_v4().to_string();
        let r = serve(&mut p, &mut disk, put(&id, None, &format!("{{\"title\": \"t{}\"}}", i)));
        assert!(is_data(&r, b"SUCCESS"));
        ids.push(id);
    }
    let sk = p.skeleton();
    let reloaded = SkeletonHandle::from_parts(sk.root(), sk.nodes()).unwrap();
    let mut restarted = Provider::new("./data".to_string(), UID.to_string(), reloaded);
    let list = RequestMessage::List { user_id: UID.to_string(), blob_id: None };
    match serve(&mut restarted, &mut disk, list) {
        ResponseMessage::Data { data } => {
            let text = String::from_utf8(data).unwrap();
            let listed: Vec<&str> = text.split(',').collect();
            assert_eq!(listed.len(), 1001);
            assert_eq!(listed[0], "root");
            for id in &ids {
                assert!(listed.contains(&id.as_str()));
            }
        },
        other => panic!("unexpected {:?}", other),
    }
}

#[test]
fn title_extraction() {
    assert_eq!(extract_title(b"{\"title\": \"abc\", \"x\": 1}").unwrap(), "abc");
    assert_eq!(extract_title(b"{\"title\": 5}").unwrap_err(), BlobError::MissingField);
    assert_eq!(extract_title(b"not json").unwrap_err(), BlobError::MissingField);
    assert_eq!(extract_title(b"[1, 2]").unwrap_err(), BlobError::MissingField);
    assert_eq!(extract_owner_id(b"{\"owner_id\": \"u1\"}").unwrap(), "u1");
    assert_eq!(extract_owner_id(b"{\"title\": \"abc\"}").unwrap_err(), BlobError::MissingField);
}

#[test]
fn registry_keeps_one_store_per_tenant() {
    let mut reg = UserProvider::new("./data");
    assert!(reg.position(UID).is_none());
    let i = reg.register(provider()).unwrap();
    assert_eq!(reg.position(UID), Some(i));
    assert_eq!(reg.register(provider()).unwrap_err(), RegistryError::AlreadyLoaded);
    let elsewhere = Provider::new("./other".to_string(), "x".to_string(), SkeletonHandle::new());
    assert_eq!(reg.register(elsewhere).unwrap_err(), RegistryError::OtherDataDir);
    let step = reg.respond_to(i, put(ID1, None, "{\"title\":\"abc\"}"));
    assert!(matches!(step, StorageStep::Write { .. }));
    assert!(reg.get(i).get_skeleton_node(ID1).is_some());
}

fn pump_round_trip(server: &mut MessagePump, p: &mut Provider, disk: &mut Disk, frames: Vec<Frame>) -> Vec<Frame> {
    let mut conn = Connection::new(0);
    for f in &frames {
        conn.receive(&f.to_bytes(), 1);
    }
    let mut out = vec![];
    loop {
        match conn.parse_frame().unwrap() {
            None => break,
            Some(f) => match server.on_frame(f) {
                PumpStep::Continue => {},
                PumpStep::Deliver { msg: BearcubMessage::Request { msg } } => {
                    let reply = serve(p, disk, msg);
                    match server.on_reply(Some(BearcubMessage::Response { msg: reply })) {
                        PumpStep::Send { frames } => out.extend(frames),
                        other => panic!("unexpected {:?}", other),
                    }
                },
                PumpStep::Send { frames } => out.extend(frames),
                other => panic!("unexpected {:?}", other),
            },
        }
    }
    assert!(conn.end_of_stream().is_ok());
    out
}

#[test]
fn large_payload_travels_in_chunks_both_ways() {
    let mut server = MessagePump::new(false);
    let mut p = provider();
    let mut disk = Disk::new();
    let mut body = b"{\"title\": \"big\", \"pad\": \"".to_vec();
    while body.len() < 4 * 3968 - 2 {
        body.push(b'x');
    }
    body.extend_from_slice(b"\"}");
    assert_eq!(body.len(), 15872);
    let req = RequestMessage::Put { user_id: UID.to_string(), id: ID1.to_string(), parent: None, data: body.clone() };
    let req_frames = req.to_frames();
    // the payload is the body plus the two 36-byte id slots
    assert_eq!(req_frames.len(), 5);
    let reply = pump_round_trip(&mut server, &mut p, &mut disk, req_frames);
    assert!(is_data(&ResponseMessage::from_frames(reply).unwrap(), b"SUCCESS"));
    let reply = pump_round_trip(&mut server, &mut p, &mut disk, get_id(ID1).to_frames());
    assert_eq!(reply.len(), 4);
    let mut joined = vec![];
    for f in &reply {
        joined.extend_from_slice(&f.data);
    }
    assert_eq!(joined, body);
}

#[test]
fn server_pump_answers_garbage_with_invalid_msg() {
    let mut server = MessagePump::new(false);
    let bad = Frame::new(None, 1, b'x', vec![]);
    match server.on_frame(bad) {
        PumpStep::Send { frames } => {
            assert!(is_error(&ResponseMessage::from_frames(frames).unwrap(), ERR_CODE_INVALID_MSG));
        },
        other => panic!("unexpected {:?}", other),
    }
    let req = get_id(ID1);
    match server.on_reply(Some(BearcubMessage::Request { msg: req })) {
        PumpStep::Send { frames } => {
            assert!(is_error(&ResponseMessage::from_frames(frames).unwrap(), ERR_CODE_INVALID_MSG));
        },
        other => panic!("unexpected {:?}", other),
    }
    assert!(matches!(server.on_reply(None), PumpStep::Close));
}

#[test]
fn client_pump_sends_requests_and_closes_on_garbage() {
    let mut client = MessagePump::new(true);
    let reply = ResponseMessage::Data { data: b"ok".to_vec() }.to_frames();
    match client.on_frame(reply[0].clone()) {
        PumpStep::Deliver { msg: BearcubMessage::Response { msg } } => assert!(is_data(&msg, b"ok")),
        other => panic!("unexpected {:?}", other),
    }
    match client.on_reply(Some(BearcubMessage::Request { msg: get_id(ID1) })) {
        PumpStep::Send { frames } => assert_eq!(frames[0].msg_type_flag, b'G'),
        other => panic!("unexpected {:?}", other),
    }
    assert!(matches!(client.on_frame(Frame::new(None, 1, b'x', vec![])), PumpStep::Close));
    let first = Frame::new(None, 2, b'd', b"a".to_vec());
    assert!(matches!(client.on_frame(first), PumpStep::Continue));
}

#[test]
fn connection_timeouts_and_truncation() {
    let mut c = Connection::new(1000);
    assert!(!c.is_timed_out(6000));
    assert!(c.is_timed_out(6001));
    c.receive(b"c0.1", 7000);
    assert!(!c.is_timed_out(12000));
    assert!(c.is_timed_out(12001));
    assert!(c.parse_frame().unwrap().is_none());
    assert!(c.end_of_stream().is_err());
    let mut bad = Connection::new(0);
    bad.receive(b"nope and more bytes", 1);
    assert!(bad.parse_frame().is_err());
}

#[test]
fn dispatch_with_a_known_title() {
    let mut p = provider();
    let req = put(ID1, None, "opaque bytes");
    match p.respond_titled(req, Some("given")) {
        StorageStep::Write { skeleton_path, blob_path, data } => {
            assert_eq!(skeleton_path, Some(format!("./data/{}/blobs.bson", UID)));
            assert_eq!(blob_path, format!("./data/{}/{}.json", UID, ID1));
            assert_eq!(data, b"opaque bytes".to_vec());
        },
        other => panic!("unexpected {:?}", other),
    }
    assert_eq!(p.get_skeleton_node(ID1).unwrap().title(), "given");
    match p.respond_titled(put(ID1, None, "{\"title\": \"x\"}"), None) {
        StorageStep::Reply { msg } => assert!(is_error(&msg, ERR_CODE_INVALID_MSG)),
        other => panic!("unexpected {:?}", other),
    }
    let set = RequestMessage::SetBlob { user_id: UID.to_string(), id: ID1.to_string(), data: vec![] };
    assert!(matches!(p.respond_titled(set, Some("renamed")), StorageStep::Write { skeleton_path: None, .. }));
    assert_eq!(p.get_node_by_path("ren").unwrap().id(), ID1);
}

#[test]
fn blob_is_written_only_after_the_skeleton_is_saved() {
    match after_skeleton_save(true, "a.json".to_string(), b"x".to_vec()) {
        WriteAction::WriteBlob { path, data } => {
            assert_eq!(path, "a.json");
            assert_eq!(data, b"x".to_vec());
        },
        other => panic!("unexpected {:?}", other),
    }
    match after_skeleton_save(false, "a.json".to_string(), b"x".to_vec()) {
        WriteAction::Reply { msg } => assert!(is_error(&msg, ERR_CODE_INVALID_MSG)),
        other => panic!("unexpected {:?}", other),
    }
}

#[test]
fn reloaded_skeleton_is_the_same() {
    let mut p = provider();
    let mut disk = Disk::new();
    serve(&mut p, &mut disk, put(ID1, None, "{\"title\":\"abc\"}"));
    let again = p.skeleton().reloaded();
    assert_eq!(again.top_level_ids(), vec![ID1.to_string()]);
    assert_eq!(again.get(ID1).unwrap().title(), "abc");
}
