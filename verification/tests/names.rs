use whoosh::error::Error;
use whoosh::mime::{human_size, kind_of_mime, sniff, uniform_type, MediaKind};
use whoosh::paths::{archive_member_name, destination, partial_path, unique_path};
use whoosh::sanitize::safe_file_name;

#[test]
fn sniffs_photos_and_videos() {
    assert_eq!(
        sniff(&[0xFF, 0xD8, 0xFF, 0xE0], "x.bin"),
        (MediaKind::Photo, "image/jpeg")
    );
    assert_eq!(
        sniff(b"\x89PNG\r\n\x1a\n", "x.bin"),
        (MediaKind::Photo, "image/png")
    );
    let mut mp4 = vec![0, 0, 0, 0x18];
    mp4.extend_from_slice(b"ftypisom");
    assert_eq!(sniff(&mp4, "x.bin"), (MediaKind::Video, "video/mp4"));
    let mut mov = vec![0, 0, 0, 0x14];
    mov.extend_from_slice(b"ftypqt  ");
    assert_eq!(sniff(&mov, "x.bin"), (MediaKind::Video, "video/quicktime"));
    assert_eq!(sniff(&[], "clip.webm"), (MediaKind::Video, "video/webm"));
    assert_eq!(
        sniff(&[], "note.txt"),
        (MediaKind::Other, "application/octet-stream")
    );
}

#[test]
fn the_rest_of_the_signatures() {
    assert_eq!(sniff(b"GIF89a", "x"), (MediaKind::Photo, "image/gif"));
    let mut webp = b"RIFF".to_vec();
    webp.extend_from_slice(&[1, 2, 3, 4]);
    webp.extend_from_slice(b"WEBP");
    assert_eq!(sniff(&webp, "x"), (MediaKind::Photo, "image/webp"));
    let mut heic = vec![0, 0, 0, 24];
    heic.extend_from_slice(b"ftypheic");
    assert_eq!(sniff(&heic, "x"), (MediaKind::Photo, "image/heic"));
    assert_eq!(sniff(b"ID3\x03", "x").0, MediaKind::Audio);
    assert_eq!(sniff(&[], "A.JPG"), (MediaKind::Photo, "image/jpeg"));
}

#[test]
fn kinds_have_folders_and_numbers() {
    assert_eq!(MediaKind::Photo.subdir(), Some("Photos"));
    assert_eq!(MediaKind::Video.subdir(), Some("Videos"));
    assert_eq!(MediaKind::Audio.subdir(), Some("Audio"));
    assert_eq!(MediaKind::Other.subdir(), None);
    assert_eq!(MediaKind::Photo.quickshare_type(), 1);
    assert_eq!(MediaKind::Video.quickshare_type(), 2);
    assert_eq!(MediaKind::Audio.quickshare_type(), 4);
    assert_eq!(MediaKind::Other.quickshare_type(), 5);
    assert_eq!(kind_of_mime("image/png"), MediaKind::Photo);
    assert_eq!(kind_of_mime("video/x"), MediaKind::Video);
    assert_eq!(kind_of_mime("audio/mpeg"), MediaKind::Audio);
    assert_eq!(kind_of_mime("text/plain"), MediaKind::Other);
}

#[test]
fn maps_uti() {
    assert_eq!(uniform_type("image/jpeg"), "public.jpeg");
    assert_eq!(uniform_type("video/mp4"), "public.mpeg-4");
    assert_eq!(uniform_type("application/zip"), "public.data");
}

fn size_by_division(bytes: u64) -> String {
    let units = ["B", "KB", "MB", "GB", "TB"];
    let mut value = bytes as f64;
    let mut unit = 0;
    while value >= 1024.0 && unit < 4 {
        value /= 1024.0;
        unit += 1;
    }
    if unit == 0 {
        format!("{bytes} B")
    } else {
        format!("{value:.1} {}", units[unit])
    }
}

#[test]
fn sizes_read_as_tenths_of_a_unit() {
    assert_eq!(human_size(0), "0 B");
    assert_eq!(human_size(1023), "1023 B");
    assert_eq!(human_size(1024), "1.0 KB");
    assert_eq!(human_size(1536), "1.5 KB");
    assert_eq!(human_size(1024 * 1024 - 1), "1024.0 KB");
    assert_eq!(human_size(5 * 1024 * 1024 * 1024), "5.0 GB");
    assert_eq!(human_size(u64::MAX), "16777216.0 TB");
    for near in [
        1280u64,
        1331,
        1332,
        1382,
        1792,
        3 * 1024 + 256,
        3 * 1024 + 768,
        1024 * 1024 + 52428,
        1 << 40,
        (1 << 40) + (1 << 38),
        (1 << 53) + (1 << 38) + 1,
        (1 << 60) + (1 << 38) + 65,
        (1 << 63) + (1 << 38) + 1024,
        (1 << 63) + (3 << 38) + 1025,
        u64::MAX - 1023,
        u64::MAX - 1024,
    ] {
        for bytes in [near - 1, near, near + 1] {
            assert_eq!(human_size(bytes), size_by_division(bytes));
        }
    }
    let mut state = 0x9E37_79B9_7F4A_7C15u64;
    for shift in 0..64 {
        for _ in 0..50 {
            state = state.wrapping_mul(6364136223846793005).wrapping_add(1442695040888963407);
            let bytes = state >> shift;
            assert_eq!(human_size(bytes), size_by_division(bytes));
        }
    }
}

#[test]
fn accepts_ordinary_and_unicode_names() {
    assert_eq!(safe_file_name("photo.jpg").unwrap(), "photo.jpg");
    assert_eq!(safe_file_name("café.png").unwrap(), "café.png");
    assert_eq!(safe_file_name("clip.mp4").unwrap(), "clip.mp4");
    assert_eq!(safe_file_name(".hidden").unwrap(), ".hidden");
}

#[test]
fn strips_trailing_dots_and_spaces() {
    assert_eq!(safe_file_name("notes.txt. ").unwrap(), "notes.txt");
}

#[test]
fn rejects_traversal_and_device_names() {
    for name in [
        "../x",
        "..\\x",
        "/etc/passwd",
        "C:foo",
        "..",
        ".",
        "",
        " ",
        "CON.txt",
        "aux",
        "nul.",
        "a/b",
        "a\\b",
        "bad\0name",
    ] {
        assert!(safe_file_name(name).is_err(), "{name}");
    }
}

#[test]
fn kept_names_are_bounded_and_stay() {
    let long = "n".repeat(240);
    assert_eq!(safe_file_name(&long).unwrap(), long);
    assert!(matches!(
        safe_file_name(&"n".repeat(241)),
        Err(Error::UnsafeName)
    ));
    for name in ["photo.jpg", " a. . ", "console.txt", "com10", "tab\u{301}"] {
        let kept = safe_file_name(name).unwrap();
        assert_eq!(safe_file_name(&kept).unwrap(), kept);
        assert!(!kept.contains('/') && !kept.contains('\\') && kept != "..");
    }
    for name in ["com1", "LPT9.log", "prn", "tab\tname"] {
        assert!(safe_file_name(name).is_err(), "{name}");
    }
}

#[test]
fn unique_path_adds_a_suffix() {
    let taken = ["a.txt"];
    let mut tried = 0;
    let path = loop {
        let candidate = unique_path("a.txt", tried);
        if !taken.contains(&candidate.as_str()) {
            break candidate;
        }
        tried += 1;
    };
    assert_eq!(path, "a (1).txt");
}

#[test]
fn candidates_number_the_stem() {
    assert_eq!(unique_path("a.tar.gz", 0), "a.tar.gz");
    assert_eq!(unique_path("a.tar.gz", 2), "a.tar (2).gz");
    assert_eq!(unique_path("noext", 3), "noext (3)");
    assert_eq!(unique_path(".hidden", 1), ".hidden (1)");
    assert_eq!(unique_path("a.txt", 9_999), "a (9999).txt");
    assert_eq!(unique_path("a.txt", 10_000), "a (10000).txt");
}

#[test]
fn archive_names_reject_parents_and_keep_the_leaf() {
    assert_eq!(archive_member_name("./photo.jpg").unwrap(), "photo.jpg");
    assert_eq!(archive_member_name("album/cover.png").unwrap(), "cover.png");
    assert!(archive_member_name("./../../etc/passwd").is_err());
    assert!(archive_member_name("/etc/passwd").is_err());
}

#[test]
fn archive_names_need_a_leaf() {
    for name in ["", ".", "./", "a/..", "a\\b", "a/b/c.txt", "a//b/./c.txt", "./a/b/c/d"] {
        assert!(matches!(archive_member_name(name), Err(Error::UnsafeName)), "{name}");
    }
    assert_eq!(archive_member_name(".//a/./c.txt").unwrap(), "c.txt");
    assert_eq!(archive_member_name("album/").unwrap(), "album");
}

#[test]
fn sort_media_uses_a_subdirectory() {
    let dest = destination("pic.jpg", MediaKind::Photo, true).unwrap();
    assert_eq!(dest.folder, Some("Photos"));
    assert_eq!(dest.name, "pic.jpg");
}

#[test]
fn unsorted_files_stay_in_the_inbox() {
    let dest = destination("pic.jpg", MediaKind::Photo, false).unwrap();
    assert_eq!(dest.folder, None);
    assert_eq!(destination("notes.txt", MediaKind::Other, true).unwrap().folder, None);
    assert!(matches!(
        destination("../pic.jpg", MediaKind::Photo, true),
        Err(Error::UnsafeName)
    ));
    assert_eq!(partial_path("clip.mp4"), ".clip.mp4.partial");
}

#[test]
fn candidates_do_not_repeat() {
    for name in ["a.txt", ".hidden", "noext", "a (1).txt"] {
        let tried: Vec<String> = (0..300).map(|index| unique_path(name, index)).collect();
        for (index, candidate) in tried.iter().enumerate() {
            assert!(!tried[..index].contains(candidate), "{candidate}");
        }
    }
}
