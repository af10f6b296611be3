use whoosh::error::Error;
use whoosh::mime::sniff;
use whoosh::native::codec::{
    decode, encode, encode_file_header, Control, FileOffer, Hello, Offer, MAGIC,
};
use whoosh::native::session::{
    check_answer, check_completion, check_greeting, constant_eq, control_len, control_message,
    greeting, make_offer, offer_bytes, Action, Decision, Event, Incoming, LocalFile, Outgoing,
    Phase, ReceiveOptions, Receiver,
};

#[test]
fn roundtrips_every_message() {
    let messages = [
        Control::Hello(Hello {
            name: "Mac".into(),
            device_id: [7; 16],
            pin_required: true,
        }),
        Control::Offer(Offer {
            transfer_id: [9; 16],
            pin: "0420".into(),
            files: vec![FileOffer {
                id: 3,
                size: 99,
                name: "café.mp4".into(),
                mime: "video/mp4".into(),
            }],
        }),
        Control::Accept {
            transfer_id: [1; 16],
        },
        Control::Reject {
            transfer_id: [2; 16],
            reason: "no".into(),
        },
        Control::Done {
            transfer_id: [4; 16],
        },
    ];
    for message in messages {
        let bytes = encode(&message).unwrap();
        let (decoded, used) = decode(&bytes).unwrap();
        assert_eq!(used, bytes.len());
        assert_eq!(decoded, message);
    }
}

#[test]
fn rejects_a_truncated_frame() {
    assert!(decode(&[2, 0, 0, 0, 1]).is_err());
}

#[test]
fn every_cut_of_a_frame_is_refused() {
    let bytes = encode(&Control::Reject {
        transfer_id: [2; 16],
        reason: "no room".into(),
    })
    .unwrap();
    for len in 0..bytes.len() {
        assert!(decode(&bytes[..len]).is_err());
    }
    let mut more = bytes.clone();
    more.extend_from_slice(b"next");
    assert_eq!(decode(&more).unwrap().1, bytes.len());
}

#[test]
fn frames_have_a_fixed_layout() {
    let bytes = encode(&Control::Accept { transfer_id: [5; 16] }).unwrap();
    let mut expected = vec![17, 0, 0, 0, 3];
    expected.extend_from_slice(&[5; 16]);
    assert_eq!(bytes, expected);
    assert_eq!(
        encode_file_header(0x0102, 0x0A),
        [2, 1, 0, 0, 10, 0, 0, 0, 0, 0, 0, 0]
    );
    assert!(decode(&[1, 0, 0, 0, 99]).is_err());
    let long = Control::Reject { transfer_id: [0; 16], reason: "r".repeat(70_000) };
    assert!(encode(&long).is_err());
}

#[test]
fn control_bodies_have_a_limit() {
    assert!(control_len(&[0, 0, 0, 0]).is_err());
    assert!(control_len(&[1, 0, 16, 0]).is_err());
    assert_eq!(control_len(&[0, 0, 16, 0]).unwrap(), 1024 * 1024);
    let bytes = encode(&Control::Done { transfer_id: [4; 16] }).unwrap();
    let prefix = [bytes[0], bytes[1], bytes[2], bytes[3]];
    assert_eq!(control_len(&prefix).unwrap(), bytes.len() - 4);
    assert_eq!(
        control_message(&prefix, &bytes[4..]).unwrap(),
        Control::Done { transfer_id: [4; 16] }
    );
}

/// The bytes of a message as they pass over the control stream.
fn pass(message: &Control) -> Control {
    let bytes = encode(message).unwrap();
    let prefix = [bytes[0], bytes[1], bytes[2], bytes[3]];
    control_message(&prefix, &bytes[4..]).unwrap()
}

struct Outcome {
    sender: Result<usize, Error>,
    receiver: Result<u64, Error>,
    saved: Vec<(String, Vec<u8>)>,
}

fn stopped(sender: Error, receiver: Error) -> Outcome {
    Outcome { sender: Err(sender), receiver: Err(receiver), saved: Vec::new() }
}

fn transfer(
    files: &[(&str, Vec<u8>)],
    required: Option<&str>,
    pin: Option<&str>,
    decision: Decision,
) -> Outcome {
    let receiver = Receiver {
        name: "receiver".into(),
        device_id: [1; 16],
        pin: required.map(str::to_string),
        max_file_bytes: 32 * 1024 * 1024,
    };
    let options = ReceiveOptions { sort_media: false, max_file_bytes: 32 * 1024 * 1024 };
    let (phase, action) = receiver.step(Phase::Magic, Event::Magic(MAGIC));
    assert!(matches!(action, Action::Read));
    let hello = pass(&greeting("sender", [2; 16]));
    let (phase, action) = receiver.step(phase, Event::Message(hello));
    let Action::Reply(reply) = action else { panic!("no greeting") };
    if let Err(error) = check_greeting(&pass(&reply), pin) {
        return stopped(error, Error::Closed);
    }
    let local: Vec<LocalFile> = files
        .iter()
        .map(|(name, bytes)| LocalFile {
            name: name.to_string(),
            size: bytes.len() as u64,
            mime: sniff(bytes, name).1.to_string(),
        })
        .collect();
    let offer = make_offer([3; 16], pin, &local).unwrap();
    let (phase, action) = receiver.step(phase, Event::Message(pass(&Control::Offer(offer.clone()))));
    let shown = match action {
        Action::Ask(shown) => shown,
        Action::Refuse { reply, error } => {
            return stopped(check_answer(pass(&reply), &[3; 16]).unwrap_err(), error);
        }
        _ => panic!("no question"),
    };
    assert_eq!(shown.peer, "sender");
    assert_eq!(shown.files.len(), files.len());
    let (mut phase, action) = receiver.step(phase, Event::Decided(decision));
    match action {
        Action::TakeFiles(reply) => check_answer(pass(&reply), &[3; 16]).unwrap(),
        Action::Refuse { reply, error } => {
            return stopped(check_answer(pass(&reply), &[3; 16]).unwrap_err(), error);
        }
        _ => panic!("no decision"),
    }
    let mut saved = Vec::new();
    for (index, (_, bytes)) in files.iter().enumerate() {
        let file = &offer.files[index];
        let header = encode_file_header(file.id, file.size);
        let mut outgoing = Outgoing::new();
        let mut incoming = Incoming::open(&header, &offer.files, &options).unwrap();
        let mut rest = bytes.as_slice();
        let mut written = Vec::new();
        while !incoming.is_full() {
            let len = incoming.want(100_000);
            outgoing.absorb(&rest[..len]);
            incoming.absorb(&rest[..len]).unwrap();
            written.extend_from_slice(&rest[..len]);
            rest = &rest[len..];
        }
        incoming.finish(&outgoing.finish(file).unwrap()).unwrap();
        saved.push((incoming.dest.name.clone(), written));
        let (next, action) = receiver.step(phase, Event::FileStored(file.size));
        phase = next;
        match action {
            Action::AwaitFile => assert!(index + 1 < files.len()),
            Action::Complete { reply, peer, bytes } => {
                assert_eq!(index + 1, files.len());
                assert_eq!(peer, "sender");
                check_completion(pass(&reply), &[3; 16]).unwrap();
                return Outcome { sender: Ok(saved.len()), receiver: Ok(bytes), saved };
            }
            _ => panic!("no progress"),
        }
    }
    panic!("not complete")
}

#[test]
fn sends_photo_video_and_empty_file() {
    let jpeg = vec![0xFF, 0xD8, 0xFF, 0xD9];
    let mut video = vec![0, 0, 0, 32];
    video.extend_from_slice(b"ftypisom");
    video.extend(std::iter::repeat(7).take(250_000));
    let files = [
        ("café.jpg", jpeg.clone()),
        ("clip.mp4", video.clone()),
        ("empty.bin", Vec::new()),
    ];
    let got = transfer(&files, None, None, Decision::Accepted);
    assert_eq!(got.sender.unwrap(), 3);
    assert_eq!(got.receiver.unwrap(), (jpeg.len() + video.len()) as u64);
    assert_eq!(got.saved[0], ("café.jpg".to_string(), jpeg));
    assert_eq!(got.saved[1], ("clip.mp4".to_string(), video));
    assert!(got.saved[2].1.is_empty());
}

#[test]
fn pin_and_decline_block_the_transfer() {
    let files = [("a.txt", b"hello".to_vec())];
    let wrong = transfer(&files, Some("1234"), Some("9999"), Decision::Accepted);
    assert!(wrong.sender.unwrap_err().message().contains("pin"));
    assert!(matches!(wrong.receiver, Err(Error::Pin)));
    assert!(wrong.saved.is_empty());
    let declined = transfer(&[("a.txt", b"abc".to_vec())], None, None, Decision::Declined);
    assert!(declined.sender.unwrap_err().message().contains("declined"));
    assert!(declined.receiver.is_err());
    assert!(declined.saved.is_empty());
}

#[test]
fn a_missing_pin_stops_the_sender() {
    let files = [("a.txt", b"hello".to_vec())];
    let missing = transfer(&files, Some("1234"), None, Decision::Accepted);
    assert!(matches!(missing.sender, Err(Error::Pin)));
    let right = transfer(&files, Some("1234"), Some("1234"), Decision::Accepted);
    assert_eq!(right.sender.unwrap(), 1);
}

#[test]
fn silence_is_no_consent() {
    let files = [("a.txt", b"hello".to_vec())];
    let late = transfer(&files, None, None, Decision::TimedOut);
    assert!(late.sender.is_err() && late.receiver.is_err());
    assert!(late.saved.is_empty());
}

fn receiver() -> Receiver {
    Receiver { name: "r".into(), device_id: [1; 16], pin: None, max_file_bytes: 10 }
}

fn offered(files: Vec<FileOffer>) -> Action {
    let offer = Offer { transfer_id: [3; 16], pin: String::new(), files };
    let phase = Phase::Offer { peer: "s".into() };
    receiver().step(phase, Event::Message(Control::Offer(offer))).1
}

fn file(id: u32, size: u64, name: &str) -> FileOffer {
    FileOffer { id, size, name: name.into(), mime: "text/plain".into() }
}

#[test]
fn unfit_offers_are_rejected() {
    assert!(matches!(offered(vec![file(0, 10, "a.txt")]), Action::Ask(_)));
    for files in [
        Vec::new(),
        vec![file(0, 11, "a.txt")],
        vec![file(0, 1, "../a.txt")],
        vec![file(0, 1, "CON")],
    ] {
        assert!(matches!(offered(files), Action::Refuse { .. } | Action::Fail(_)));
    }
}

#[test]
fn strangers_are_turned_away() {
    let (phase, action) = receiver().step(Phase::Magic, Event::Magic(*b"WHOOSH02"));
    assert!(matches!(phase, Phase::Over));
    let Action::Fail(error) = action else { panic!("taken") };
    assert_eq!(error.message(), "not a crossdrop peer");
    let done = Control::Done { transfer_id: [0; 16] };
    assert!(matches!(
        receiver().step(Phase::Hello, Event::Message(done.clone())).1,
        Action::Fail(_)
    ));
    assert_eq!(check_greeting(&done, None).unwrap_err().message(), "expected hello");
    assert!(check_answer(done.clone(), &[0; 16]).is_err());
    assert!(check_completion(done, &[1; 16]).is_err());
    assert!(check_answer(Control::Accept { transfer_id: [1; 16] }, &[0; 16]).is_err());
}

#[test]
fn streams_must_match_the_offer() {
    let offers = vec![file(0, 3, "a.txt"), file(1, 4, "b.jpg")];
    let options = ReceiveOptions { sort_media: true, max_file_bytes: 4 };
    assert!(Incoming::open(&encode_file_header(1, 4), &offers, &options).is_ok());
    assert_eq!(
        Incoming::open(&encode_file_header(2, 4), &offers, &options).err().unwrap().message(),
        "unknown file id"
    );
    assert!(Incoming::open(&encode_file_header(1, 3), &offers, &options).is_err());
    let small = ReceiveOptions { sort_media: true, max_file_bytes: 3 };
    assert!(Incoming::open(&encode_file_header(1, 4), &offers, &small).is_err());
    assert_eq!(ReceiveOptions::auto().max_file_bytes, 32 * 1024 * 1024 * 1024);
}

#[test]
fn damaged_files_are_refused() {
    let offers = vec![file(0, 3, "a.txt")];
    let mut incoming =
        Incoming::open(&encode_file_header(0, 3), &offers, &ReceiveOptions::auto()).unwrap();
    incoming.absorb(b"abc").unwrap();
    assert!(matches!(incoming.finish(&[0; 32]), Err(Error::Hash(name)) if name == "a.txt"));
    let digest: [u8; 32] = blake3::hash(b"abc").into();
    assert!(incoming.finish(&digest).is_ok());
    let mut cut =
        Incoming::open(&encode_file_header(0, 3), &offers, &ReceiveOptions::auto()).unwrap();
    assert!(matches!(cut.absorb(b""), Err(Error::Closed)));
    let mut outgoing = Outgoing::new();
    outgoing.absorb(b"ab");
    assert_eq!(
        outgoing.finish(&offers[0]).unwrap_err().message(),
        "a.txt changed size while it was being sent"
    );
    outgoing.absorb(b"c");
    assert_eq!(outgoing.finish(&offers[0]).unwrap(), digest);
}

#[test]
fn offers_number_their_files() {
    let local = |name: &str, size| LocalFile { name: name.into(), size, mime: "m".into() };
    let offer = make_offer([0; 16], Some("1"), &vec![local("a", 1), local("b", 2)]).unwrap();
    assert_eq!(offer.files[1], FileOffer { id: 1, size: 2, name: "b".into(), mime: "m".into() });
    assert_eq!(offer_bytes(&offer), 3);
    assert_eq!(make_offer([0; 16], None, &vec![]).unwrap_err().message(), "no files to send");
    assert!(matches!(make_offer([0; 16], None, &vec![local("../a", 1)]), Err(Error::UnsafeName)));
    assert!(constant_eq("1234", "1234") && !constant_eq("1234", "1235"));
    assert!(!constant_eq("123", "1234"));
}

#[test]
fn read_messages_are_written_back() {
    let hello = Control::Hello(Hello {
        name: "café".into(),
        device_id: [7; 16],
        pin_required: true,
    });
    let mut bytes = encode(&hello).unwrap();
    let last = bytes.len() - 1;
    bytes[last] = 0xFF;
    let (read, used) = decode(&bytes).unwrap();
    assert_eq!(read, hello);
    let again = encode(&read).unwrap();
    assert_eq!(again.len(), used);
    assert_eq!(again[..last], bytes[..last]);
    assert_eq!(again[last], 1);
    let offer = Control::Offer(Offer {
        transfer_id: [9; 16],
        pin: "12".into(),
        files: vec![file(3, 99, "a.txt"), file(4, 0, "b")],
    });
    let mut bytes = encode(&offer).unwrap();
    bytes.extend_from_slice(b"more");
    let (read, used) = decode(&bytes).unwrap();
    assert_eq!(encode(&read).unwrap(), bytes[..used]);
}
