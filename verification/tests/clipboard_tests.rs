use zerowhats::clipboard::{
    bitmap_clip, file_clip, image_clip, mime_from_name, percent_decode, pick_clip_files,
    preferred_wayland_image_type, uri_list_file_paths, ClipFile, MAX_CLIP_BYTES,
};

// --- Wayland image MIME preference ---

#[test]
fn wayland_image_prefers_png() {
    assert_eq!(
        preferred_wayland_image_type("text/plain\nimage/jpeg\nimage/png\n"),
        Some(("image/png", "png"))
    );
}

#[test]
fn wayland_image_accepts_common_fallbacks() {
    assert_eq!(
        preferred_wayland_image_type("image/webp\ntext/plain\n"),
        Some(("image/webp", "webp"))
    );
    assert_eq!(
        preferred_wayland_image_type("IMAGE/JPEG\n"),
        Some(("image/jpeg", "jpg"))
    );
}

#[test]
fn wayland_image_ignores_non_images() {
    assert_eq!(
        preferred_wayland_image_type("text/plain\ntext/uri-list\n"),
        None
    );
}

#[test]
fn wayland_image_trims_offered_lines() {
    assert_eq!(
        preferred_wayland_image_type("  image/gif \r\n"),
        Some(("image/gif", "gif"))
    );
    assert_eq!(preferred_wayland_image_type(""), None);
}

// --- percent_decode ---

#[test]
fn percent_decode_no_encoding() {
    assert_eq!(percent_decode("/home/user/file.png"), "/home/user/file.png");
}

#[test]
fn percent_decode_spaces() {
    assert_eq!(
        percent_decode("/home/user/my%20file.png"),
        "/home/user/my file.png"
    );
}

#[test]
fn percent_decode_multiple() {
    assert_eq!(percent_decode("a%20b%20c"), "a b c");
}

#[test]
fn percent_decode_special_chars() {
    assert_eq!(percent_decode("%23hash"), "#hash");
    assert_eq!(percent_decode("%25percent"), "%percent");
}

#[test]
fn percent_decode_incomplete_at_end() {
    assert_eq!(percent_decode("abc%2"), "abc%2");
    assert_eq!(percent_decode("abc%"), "abc%");
}

#[test]
fn percent_decode_invalid_hex() {
    assert_eq!(percent_decode("%ZZtest"), "%ZZtest");
}

#[test]
fn percent_decode_empty() {
    assert_eq!(percent_decode(""), "");
}

#[test]
fn percent_decode_utf8_path() {
    assert_eq!(percent_decode("/home/user/%C3%A7%C3%A3o"), "/home/user/ção");
}

#[test]
fn percent_decode_invalid_utf8_is_replaced() {
    assert_eq!(percent_decode("a%FFb"), "a\u{FFFD}b");
}

#[test]
fn percent_decode_needs_two_hex_digits() {
    assert_eq!(percent_decode("a%+2b"), "a%+2b");
    assert_eq!(percent_decode("%a\u{e9}"), "%a\u{e9}");
    assert_eq!(percent_decode("%2\u{e7}x"), "%2\u{e7}x");
    assert_eq!(percent_decode("%4a%4A"), "JJ");
}

// --- mime_from_name ---

#[test]
fn mime_images() {
    assert_eq!(mime_from_name("photo.png"), "image/png");
    assert_eq!(mime_from_name("photo.jpg"), "image/jpeg");
    assert_eq!(mime_from_name("photo.jpeg"), "image/jpeg");
    assert_eq!(mime_from_name("photo.gif"), "image/gif");
    assert_eq!(mime_from_name("photo.webp"), "image/webp");
    assert_eq!(mime_from_name("photo.bmp"), "image/bmp");
    assert_eq!(mime_from_name("photo.svg"), "image/svg+xml");
}

#[test]
fn mime_videos() {
    assert_eq!(mime_from_name("video.mp4"), "video/mp4");
    assert_eq!(mime_from_name("video.webm"), "video/webm");
    assert_eq!(mime_from_name("video.mov"), "video/quicktime");
}

#[test]
fn mime_audio() {
    assert_eq!(mime_from_name("song.mp3"), "audio/mpeg");
    assert_eq!(mime_from_name("song.ogg"), "audio/ogg");
    assert_eq!(mime_from_name("song.wav"), "audio/wav");
}

#[test]
fn mime_documents() {
    assert_eq!(mime_from_name("doc.pdf"), "application/pdf");
    assert_eq!(mime_from_name("doc.txt"), "text/plain");
    assert_eq!(mime_from_name("doc.zip"), "application/zip");
    assert_eq!(mime_from_name("doc.doc"), "application/msword");
    assert_eq!(
        mime_from_name("doc.docx"),
        "application/vnd.openxmlformats-officedocument.wordprocessingml.document"
    );
    assert_eq!(mime_from_name("doc.xls"), "application/vnd.ms-excel");
    assert_eq!(
        mime_from_name("doc.xlsx"),
        "application/vnd.openxmlformats-officedocument.spreadsheetml.sheet"
    );
}

#[test]
fn mime_unknown() {
    assert_eq!(mime_from_name("file.xyz"), "application/octet-stream");
    assert_eq!(mime_from_name("noext"), "application/octet-stream");
}

#[test]
fn mime_case_insensitive() {
    assert_eq!(mime_from_name("PHOTO.PNG"), "image/png");
    assert_eq!(mime_from_name("video.MP4"), "video/mp4");
}

#[test]
fn mime_multiple_dots() {
    assert_eq!(mime_from_name("archive.tar.gz"), "application/octet-stream");
    assert_eq!(mime_from_name("photo.backup.jpg"), "image/jpeg");
}

// --- uri lists and clipboard entries ---

#[test]
fn uri_list_keeps_file_uris_only() {
    let raw = "# comment\r\nfile:///home/user/a%20b.txt\r\nhttps://example.com/x\r\n  file:///tmp/c.png  \n";
    assert_eq!(
        uri_list_file_paths(raw),
        vec!["/home/user/a%20b.txt".to_string(), "/tmp/c.png".to_string()]
    );
    assert!(uri_list_file_paths("").is_empty());
}

#[test]
fn file_clip_builds_base64_data_url() {
    let clip = file_clip("note.TXT".to_string(), b"hi").unwrap();
    assert_eq!(clip.name, "note.TXT");
    assert_eq!(clip.mime, "text/plain");
    assert_eq!(clip.data_url, "data:text/plain;base64,aGk=");
}

#[test]
fn file_clip_refuses_oversized_files() {
    let big = vec![0u8; MAX_CLIP_BYTES + 1];
    assert!(file_clip("big.bin".to_string(), &big).is_none());
}

#[test]
fn image_clip_keeps_offered_type() {
    let clip = image_clip("image/webp", "webp", &[1, 2, 3]).unwrap();
    assert_eq!(clip.name, "pasted-image.webp");
    assert_eq!(clip.mime, "image/webp");
    assert_eq!(clip.data_url, "data:image/webp;base64,AQID");
}

#[test]
fn bitmap_clip_encodes_png() {
    let clip = bitmap_clip(1, 1, &[255, 0, 0, 255]).unwrap();
    assert_eq!(clip.name, "pasted-image.png");
    assert_eq!(clip.mime, "image/png");
    assert!(clip.data_url.starts_with("data:image/png;base64,iVBORw0KGgo"));
}

#[test]
fn bitmap_clip_rejects_mismatched_pixels() {
    assert!(bitmap_clip(2, 2, &[0, 0, 0, 0]).is_none());
}

#[test]
fn mime_needs_an_extension() {
    assert_eq!(mime_from_name("png"), "application/octet-stream");
    assert_eq!(mime_from_name("JPG"), "application/octet-stream");
    assert_eq!(mime_from_name(".png"), "image/png");
    assert_eq!(mime_from_name("photo."), "application/octet-stream");
}

#[test]
fn bitmap_clip_refuses_sizes_that_do_not_match_the_pixels() {
    assert!(bitmap_clip(1 << 31, 1 << 31, &[]).is_none());
    assert!(bitmap_clip(0, 5, &[]).is_none());
}

fn clip(name: &str) -> ClipFile {
    ClipFile {
        name: name.to_string(),
        mime: "text/plain".to_string(),
        data_url: String::new(),
    }
}

#[test]
fn clip_sources_are_picked_in_order() {
    let got = pick_clip_files(vec![clip("a"), clip("b")], Some(clip("w")), Some(clip("m")));
    assert_eq!(got.iter().map(|c| c.name.as_str()).collect::<Vec<_>>(), vec!["a", "b"]);
    let got = pick_clip_files(vec![], Some(clip("w")), Some(clip("m")));
    assert_eq!(got.iter().map(|c| c.name.as_str()).collect::<Vec<_>>(), vec!["w"]);
    let got = pick_clip_files(vec![], None, Some(clip("m")));
    assert_eq!(got.iter().map(|c| c.name.as_str()).collect::<Vec<_>>(), vec!["m"]);
    assert!(pick_clip_files(vec![], None, None).is_empty());
}

#[test]
fn percent_decode_undoes_full_encoding() {
    let text = "/home/ção/a b%#.png";
    let encoded: String = text.bytes().map(|x| format!("%{:02X}", x)).collect();
    assert_eq!(percent_decode(&encoded), text);
    assert_eq!(percent_decode("plain/path é"), "plain/path é");
}

#[test]
fn data_urls_use_standard_padded_base64() {
    for (raw, b64) in [
        ("f", "Zg=="),
        ("fo", "Zm8="),
        ("foo", "Zm9v"),
        ("foob", "Zm9vYg=="),
        ("foobar", "Zm9vYmFy"),
    ] {
        let clip = file_clip("x.bin".to_string(), raw.as_bytes()).unwrap();
        assert_eq!(clip.data_url, format!("data:application/octet-stream;base64,{b64}"));
    }
    let clip = image_clip("image/png", "png", &[0xfb, 0xff]).unwrap();
    assert_eq!(clip.data_url, "data:image/png;base64,+/8=");
}
