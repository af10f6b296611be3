use flate2::write::GzEncoder;
use flate2::Compression;
use std::io::Write;
use whoosh::airdrop::cpio::{
    pack_dvzip, pack_gzip, unpack, unpack_reader, write_entry, ArchiveEntry,
};
use whoosh::airdrop::http::{
    status_of, write_request, write_response, Progress, Reader, Request, CONTINUE,
};
use whoosh::airdrop::protocol::{
    ask_request, ask_response, build_upload, describe, discover_request, discover_response,
    extract_upload, parse_ask,
};
use whoosh::airdrop::server::{
    ask_call, bad_request, check_ask, check_upload, discover_call, keeps_open, upload_call,
    AirdropConfig, AirdropReceiver, Reply, Response,
};
use whoosh::error::Error;

#[test]
fn gzip_cpio_roundtrips_and_rejects_parents() {
    let packed = pack_gzip(&[
        ("photo.jpg".into(), b"jpeg".to_vec()),
        ("album/clip.mp4".into(), b"mp4".to_vec()),
    ])
    .unwrap();
    let entries = unpack(&packed, "application/x-cpio", 1024).unwrap();
    assert_eq!(entries.len(), 2);
    assert_eq!(entries[0].name, "photo.jpg");
    assert_eq!(entries[1].name, "clip.mp4");
    assert_eq!(entries[1].bytes, b"mp4");

    let mut raw = Vec::new();
    write_entry(&mut raw, "./../../etc/passwd", b"no", 0o100644).unwrap();
    write_entry(&mut raw, "TRAILER!!!", b"", 0).unwrap();
    let mut encoder = GzEncoder::new(Vec::new(), Compression::fast());
    encoder.write_all(&raw).unwrap();
    let packed = encoder.finish().unwrap();
    assert!(unpack(&packed, "application/x-cpio", 1024).is_err());
}

#[test]
fn dvzip_roundtrips() {
    let packed = pack_dvzip(&[("clip.mov".into(), vec![7; 200_000])]).unwrap();
    let entries = unpack(&packed, "application/x-dvzip", 300_000).unwrap();
    assert_eq!(entries[0].name, "clip.mov");
    assert_eq!(entries[0].bytes.len(), 200_000);
}

#[test]
fn decompression_is_capped() {
    let packed = pack_gzip(&[("big.bin".into(), vec![1; 1000])]).unwrap();
    assert!(unpack(&packed, "application/x-cpio", 100).is_err());
}

fn read_all(raw: &[u8], max_bytes: u64) -> Result<Vec<ArchiveEntry>, Error> {
    let mut entries = Vec::new();
    unpack_reader(raw, max_bytes, &mut entries)?;
    Ok(entries)
}

#[test]
fn members_before_a_bad_one_are_handed_out() {
    let mut raw = Vec::new();
    write_entry(&mut raw, "./a.txt", b"abc", 0o100644).unwrap();
    write_entry(&mut raw, "x/b.txt", b"de", 0o100644).unwrap();
    write_entry(&mut raw, "x/y/c.txt", b"f", 0o100644).unwrap();
    write_entry(&mut raw, "TRAILER!!!", b"", 0).unwrap();
    let mut entries = Vec::new();
    let read = unpack_reader(&raw, 100, &mut entries);
    assert!(matches!(read, Err(Error::UnsafeName)));
    assert_eq!(entries.len(), 2);
    assert_eq!(entries[1].name, "b.txt");
    assert_eq!(entries[1].bytes, b"de");
}

#[test]
fn damaged_archives_are_refused() {
    assert!(read_all(b"no archive", 100).is_err());
    assert!(unpack(b"\x1f\x8b broken", "application/x-cpio", 100).is_err());
    let mut raw = Vec::new();
    write_entry(&mut raw, "./a.txt", b"abc", 0o100644).unwrap();
    assert!(read_all(&raw, 100).is_err());
    write_entry(&mut raw, "TRAILER!!!", b"", 0).unwrap();
    let entries = read_all(&raw, 100).unwrap();
    assert_eq!(entries.len(), 1);
    assert_eq!(entries[0].name, "a.txt");
    assert_eq!(entries[0].bytes, b"abc");
    for len in 0..110 {
        assert!(read_all(&raw[..len], 100).is_err());
    }
    assert!(matches!(read_all(&raw, 2), Err(Error::TooLarge)));
    assert_eq!(&raw[..6], b"070701");
}

/// Feeds bytes to a reader in pieces, as far as they reach.
fn read(bytes: &[u8], piece: usize, max_body: usize) -> (usize, Result<Request, Error>) {
    let mut reader = Reader::new();
    let mut rest = bytes;
    let mut continues = 0;
    loop {
        let len = reader.want().min(piece).min(rest.len());
        if len == 0 {
            return (continues, Err(reader.closed()));
        }
        let (go_on, progress) = reader.feed(&rest[..len], max_body);
        rest = &rest[len..];
        continues += go_on as usize;
        match progress {
            Progress::More(next) => reader = next,
            Progress::Done(request) => return (continues, Ok(request)),
            Progress::Bad(error) => return (continues, Err(error)),
        }
    }
}

#[test]
fn reads_content_length_chunked_and_continue() {
    let request = b"POST /Discover HTTP/1.1\r\nHost: a\r\nContent-Length: 5\r\n\r\nplist";
    let (continues, first) = read(request, 2048, 1024);
    let first = first.unwrap();
    assert_eq!(continues, 0);
    assert_eq!(first.path, "/Discover");
    assert_eq!(first.body, b"plist");
    let reply = write_response(200, "OK", "application/octet-stream", b"ok");
    assert!(std::str::from_utf8(&reply).unwrap().contains("200"));

    let mut chunked =
        b"POST /Upload HTTP/1.1\r\nTransfer-Encoding: chunked\r\nExpect: 100-continue\r\n\r\n"
            .to_vec();
    chunked.extend_from_slice(b"5\r\nhello\r\n0\r\n\r\n");
    let (continues, second) = read(&chunked, 2048, 1024);
    assert_eq!(continues, 1);
    assert!(CONTINUE.contains("100"));
    assert_eq!(second.unwrap().body, b"hello");
    let reply = write_response(204, "No Content", "text/plain", b"");
    assert!(std::str::from_utf8(&reply).unwrap().contains("204"));
}

#[test]
fn pieces_make_no_difference() {
    let request = b"POST /Ask HTTP/1.1\r\nCONTENT-length:  3 \r\nX: y\r\n\r\nabc";
    let chunked = b"POST /U HTTP/1.1\r\ntransfer-encoding: Chunked\r\n\r\nA;x=1\r\n0123456789\r\n1\r\nx\r\n0\r\nT: v\r\n\r\n";
    for piece in [1, 2, 3, 7, 1000] {
        let got = read(request, piece, 100).1.unwrap();
        assert_eq!(got.method, "POST");
        assert_eq!(got.path, "/Ask");
        assert_eq!(got.headers.get("x").map(String::as_str), Some("y"));
        assert_eq!(got.body, b"abc");
        assert_eq!(read(chunked, piece, 100).1.unwrap().body, b"0123456789x");
    }
}

#[test]
fn unfit_requests_are_refused() {
    let sized = b"POST /Ask HTTP/1.1\r\nContent-Length: 4\r\n\r\nabcd";
    assert!(read(sized, 9, 4).1.is_ok());
    assert!(matches!(read(sized, 9, 3).1, Err(Error::TooLarge)));
    let chunked = b"POST /U HTTP/1.1\r\nTransfer-Encoding: chunked\r\n\r\n4\r\nabcd\r\n0\r\n\r\n";
    assert!(matches!(read(chunked, 9, 3).1, Err(Error::TooLarge)));
    assert!(matches!(read(b"", 9, 4).1, Err(Error::Closed)));
    assert_eq!(
        read(&sized[..20], 9, 4).1.err().unwrap().message(),
        "connection closed during headers"
    );
    assert!(matches!(read(&sized[..sized.len() - 1], 9, 4).1, Err(Error::Closed)));
    let odd = b"POST /U HTTP/1.1\r\nTransfer-Encoding: chunked\r\n\r\nzz\r\n";
    assert!(matches!(read(odd, 9, 3).1, Err(Error::Protocol(_))));
    let endless = vec![b'a'; 70 * 1024];
    assert!(read(&endless, 2048, 3).1.is_err());
}

#[test]
fn requests_and_responses_are_read_back() {
    let request = read(&write_request("/Ask", "text/plain", b"body"), 5, 100).1.unwrap();
    assert_eq!(request.path, "/Ask");
    assert_eq!(request.body, b"body");
    assert_eq!(request.headers.get("content-type").map(String::as_str), Some("text/plain"));
    let response = read(&write_response(409, "Conflict", "text/plain", b"no"), 5, 100).1.unwrap();
    assert_eq!(status_of(&response), 409);
    assert_eq!(response.body, b"no");
}

#[test]
fn discover_and_ask_plists_roundtrip() {
    let body = discover_response("Harry", "Crossdrop").unwrap();
    assert!(body.starts_with(b"bplist"));
    let ask = ask_request(
        "iPhone",
        "abc",
        &[("photo.jpg".into(), "image/jpeg".into())],
    )
    .unwrap();
    let parsed = parse_ask(&ask).unwrap();
    assert_eq!(parsed.sender_name, "iPhone");
    assert_eq!(parsed.files[0].name, "photo.jpg");
    assert!(ask_response("Harry", "Crossdrop")
        .unwrap()
        .starts_with(b"bplist"));
}

#[test]
fn answers_hold_names_and_capabilities() {
    let answer = plist::Value::from_reader(std::io::Cursor::new(
        discover_response("Harry", "Whoosh").unwrap(),
    ))
    .unwrap();
    let dict = answer.as_dictionary().unwrap();
    assert_eq!(
        dict.get("ReceiverComputerName").and_then(|value| value.as_string()),
        Some("Harry")
    );
    assert_eq!(
        dict.get("ReceiverModelName").and_then(|value| value.as_string()),
        Some("Whoosh")
    );
    assert!(dict.get("ReceiverMediaCapabilities").is_some());
    let ask = plist::Value::from_reader(std::io::Cursor::new(
        ask_request("iPhone", "abc", &[("a.jpg".into(), "public.jpeg".into())]).unwrap(),
    ))
    .unwrap();
    let dict = ask.as_dictionary().unwrap();
    let file = dict.get("Files").and_then(|value| value.as_array()).unwrap()[0]
        .as_dictionary()
        .unwrap();
    assert_eq!(file.get("FileName").and_then(|value| value.as_string()), Some("a.jpg"));
    assert_eq!(
        dict.get("SenderComputerName").and_then(|value| value.as_string()),
        Some("iPhone")
    );
    assert!(discover_request().unwrap().starts_with(b"bplist"));
    assert!(parse_ask(b"junk").is_err());
    assert_eq!(
        describe("a.jpg", &[0xFF, 0xD8, 0xFF]),
        ("image/jpeg".to_string(), "public.jpeg".to_string())
    );
}

#[test]
fn uploads_are_gzip_archives() {
    let packed = build_upload(&[("a.txt".into(), b"abc".to_vec())]).unwrap();
    let entries = extract_upload(&packed, "application/x-cpio", 1024).unwrap();
    assert_eq!(entries[0].name, "a.txt");
    assert_eq!(entries[0].bytes, b"abc");
}

type Saved = Vec<(String, Vec<u8>)>;

fn answer(receiver: &mut AirdropReceiver, call: &[u8], allow: bool, saved: &mut Saved) -> Reply {
    let request = read(call, 2048, receiver.body_limit()).1.unwrap();
    match receiver.dispatch(&request) {
        Response::Reply(reply) => reply,
        Response::Ask(_) => receiver.on_decision(allow),
        Response::Store { files, complete, reply } => {
            for file in files {
                saved.push((file.dest.name, file.bytes));
            }
            if complete {
                receiver.stored();
            }
            reply
        }
    }
}

fn status(reply: &Reply) -> u16 {
    let bytes = write_response(reply.status, reply.reason, reply.content_type, &reply.body);
    status_of(&read(&bytes, 2048, 1024 * 1024).1.unwrap())
}

fn send(config: AirdropConfig, allow: bool, files: &[(String, Vec<u8>)]) -> (Saved, Result<(), Error>) {
    let mut receiver = AirdropReceiver::new(config);
    let mut saved = Vec::new();
    let reply = answer(&mut receiver, &discover_call().unwrap(), allow, &mut saved);
    assert_eq!(status(&reply), 200);
    let reply = answer(&mut receiver, &ask_call("iPhone", files).unwrap(), allow, &mut saved);
    if let Err(error) = check_ask(status(&reply)) {
        return (saved, Err(error));
    }
    let reply = answer(&mut receiver, &upload_call(files).unwrap(), allow, &mut saved);
    (saved, check_upload(status(&reply)))
}

#[test]
fn receives_a_photo_and_a_video() {
    let jpeg = vec![0xFF, 0xD8, 0xFF, 0xD9];
    let video = b"ftypisom-video".to_vec();
    let files = [
        ("photo.jpg".to_string(), jpeg.clone()),
        ("clip.mp4".to_string(), video.clone()),
    ];
    let (saved, sent) = send(AirdropConfig::auto(), true, &files);
    sent.unwrap();
    assert_eq!(saved, files);
}

#[test]
fn decline_and_traversal_do_not_write() {
    let (saved, sent) = send(AirdropConfig::auto(), false, &[("a.jpg".into(), b"x".to_vec())]);
    let error = sent.unwrap_err();
    assert!(error.message().contains("409") || error.message().contains("ask"));
    assert!(saved.is_empty());
}

#[test]
fn uploads_need_consent_and_safe_names() {
    let mut receiver = AirdropReceiver::new(AirdropConfig::auto());
    let mut saved = Vec::new();
    let upload = upload_call(&[("a.jpg".into(), b"x".to_vec())]).unwrap();
    let reply = answer(&mut receiver, &upload, true, &mut saved);
    assert!(check_upload(status(&reply)).is_err());
    assert!(saved.is_empty());
    let ask = ask_call("iPhone", &[("../a.jpg".into(), b"x".to_vec())]).unwrap();
    let reply = answer(&mut receiver, &ask, true, &mut saved);
    assert!(check_ask(status(&reply)).is_err());
    let other = write_request("/Other", "text/plain", b"");
    assert_eq!(status(&answer(&mut receiver, &other, true, &mut saved)), 404);
}

#[test]
fn consent_is_used_up() {
    let mut receiver = AirdropReceiver::new(AirdropConfig::auto());
    let mut saved = Vec::new();
    let files = [("a.jpg".to_string(), b"x".to_vec())];
    answer(&mut receiver, &ask_call("iPhone", &files).unwrap(), true, &mut saved);
    assert!(receiver.accepted);
    let upload = upload_call(&files).unwrap();
    let reply = answer(&mut receiver, &upload, true, &mut saved);
    assert!(check_upload(status(&reply)).is_ok());
    assert_eq!(saved.len(), 1);
    let reply = answer(&mut receiver, &upload, true, &mut saved);
    assert!(check_upload(status(&reply)).is_err());
    assert_eq!(saved.len(), 1);
}

#[test]
fn broken_requests_get_an_answer() {
    let reply = bad_request(&Error::TooLarge);
    assert!(reply.status >= 400);
    assert!(!keeps_open(reply.status) || reply.status < 500);
    assert!(keeps_open(200));
    let receiver = AirdropReceiver::new(AirdropConfig::auto());
    assert_eq!(receiver.body_limit(), 32 * 1024 * 1024 * 1024 + 1024 * 1024);
    assert!(receiver.not_stored(&Error::UnsafeName).status >= 400);
}

#[test]
fn archives_are_compressed() {
    let files = [("zeros.bin".to_string(), vec![0; 100_000])];
    let packed = pack_gzip(&files).unwrap();
    assert_eq!(&packed[..2], &[0x1F, 0x8B]);
    assert!(packed.len() < 10_000);
    let packed = pack_dvzip(&files).unwrap();
    assert!(packed.len() < 10_000);
    assert_eq!(&packed[packed.len() - 4..], &[0, 0, 0, 0]);
    let first = u32::from_be_bytes([packed[0], packed[1], packed[2], packed[3]]) as usize;
    let mut decoder = flate2::read::ZlibDecoder::new(&packed[4..4 + first]);
    let mut piece = Vec::new();
    std::io::Read::read_to_end(&mut decoder, &mut piece).unwrap();
    assert_eq!(piece.len(), 64 * 1024);
    assert_eq!(&piece[..6], b"070701");
}
