use paste_rs::paste::{Paste, PasteError};

const PNG_HEADER: [u8; 16] = [
    0x89, 0x50, 0x4E, 0x47, 0x0D, 0x0A, 0x1A, 0x0A, 0x00, 0x00, 0x00, 0x0D, 0x49, 0x48, 0x44, 0x52,
];

fn is_alnum(s: &str) -> bool {
    s.chars().all(|c| c.is_ascii_alphanumeric())
}

#[test]
fn test_mime_type() {
    let data = "hello world".as_bytes().to_vec();
    let paste = Paste { data };
    let (mime_type, extension) = Paste::mime_type(&paste.data);
    assert_eq!(mime_type, "text/plain");
    assert_eq!(extension, "txt");

    let data = r#"<!DOCTYPE html>
<html lang="ko">
<head>
<meta charset="UTF-8"/>
<title>title</title>
<body>hello world</body>
</html>"#
        .as_bytes()
        .to_vec();
    let paste = Paste { data };
    let (mime_type, extension) = Paste::mime_type(&paste.data);
    assert_eq!(mime_type, "text/html");
    assert_eq!(extension, "html");
}

#[test]
fn test_random_file_name() {
    let taken: Vec<String> = Vec::new();
    let s = Paste::random_file_name(&taken).unwrap();
    assert_eq!(s.len(), 3);
}

#[test]
fn test_save_as() {
    let data = "hello world".as_bytes().to_vec();
    let paste = Paste { data };
    let taken: Vec<String> = Vec::new();
    let filename = paste.save_to("./upload", &taken).unwrap();
    assert!(filename.starts_with("./upload/"));
    assert_eq!(filename.len(), "./upload/".len() + 3);
    assert!(is_alnum(&filename["./upload/".len()..]));
}

#[test]
fn save_to_refuses_binary_content() {
    let paste = Paste { data: PNG_HEADER.to_vec() };
    let taken: Vec<String> = Vec::new();
    assert!(matches!(paste.save_to("./upload", &taken), Err(PasteError::NotPermitted)));
}

#[test]
fn mime_type_of_png_is_sniffed() {
    let (mime_type, extension) = Paste::mime_type(&PNG_HEADER);
    assert_eq!(mime_type, "image/png");
    assert_eq!(extension, "png");
}

#[test]
fn mime_type_is_deterministic_and_non_empty() {
    let buffers: Vec<Vec<u8>> = vec![Vec::new(), b"hello".to_vec(), PNG_HEADER.to_vec(), vec![0, 1, 2, 3]];
    for b in &buffers {
        let first = Paste::mime_type(b);
        let second = Paste::mime_type(&b.clone());
        assert_eq!(first, second);
        assert!(!first.0.is_empty());
    }
    assert_eq!(Paste::mime_type(&[]), ("text/plain", "txt"));
}

#[test]
fn classify_sniffed_defaults_to_plain_text() {
    assert_eq!(Paste::classify_sniffed(None), ("text/plain", "txt"));
    assert_eq!(Paste::classify_sniffed(Some(("image/png", "png"))), ("image/png", "png"));
    assert_eq!(Paste::classify_sniffed(Some(("text/plain", "txt"))), ("text/plain", "txt"));
}

#[test]
fn text_policy_accepts_only_text_types() {
    assert!(Paste::is_text_type("text/plain"));
    assert!(Paste::is_text_type("text/html"));
    assert!(Paste::is_text_type("text"));
    assert!(!Paste::is_text_type("tex"));
    assert!(!Paste::is_text_type(""));
    assert!(!Paste::is_text_type("application/text"));
    assert!(!Paste::is_text_type("image/png"));
    assert!(Paste::permits(b"hello world"));
    assert!(!Paste::permits(&PNG_HEADER));
}

#[test]
fn is_free_checks_every_name() {
    let taken = vec!["abc".to_string(), "XYZ".to_string(), "123".to_string()];
    assert!(!Paste::is_free(&"abc".to_string(), &taken));
    assert!(!Paste::is_free(&"123".to_string(), &taken));
    assert!(Paste::is_free(&"xyz".to_string(), &taken));
    assert!(Paste::is_free(&"abc".to_string(), &Vec::new()));
}

#[test]
fn random_file_name_avoids_taken_names() {
    let taken = vec!["abc".to_string(), "XYZ".to_string(), "123".to_string()];
    for _ in 0..200 {
        let name = Paste::random_file_name(&taken).unwrap();
        assert_eq!(name.chars().count(), 3);
        assert!(is_alnum(&name));
        assert!(!taken.contains(&name));
    }
}

#[test]
fn random_file_name_succeeds_when_nothing_clashes() {
    let taken = vec!["upload".to_string(), "a.txt".to_string(), "ab".to_string()];
    for _ in 0..100 {
        assert!(Paste::random_file_name(&taken).is_some());
        assert!(Paste::random_file_name(&Vec::new()).is_some());
    }
}

#[test]
fn save_to_succeeds_on_text() {
    let paste = Paste { data: b"hello world".to_vec() };
    let taken = vec!["notes.txt".to_string()];
    let path = paste.save_to("dir", &taken).ok().unwrap();
    assert!(path.starts_with("dir/"));
    assert_eq!(path.len(), 7);
}

#[test]
fn mime_type_extension_is_non_empty() {
    for b in [&b"hello"[..], &PNG_HEADER[..], &[][..]] {
        assert!(!Paste::mime_type(b).1.is_empty());
    }
}

#[test]
fn mime_type_judges_the_leading_window() {
    let mut png = PNG_HEADER.to_vec();
    png.extend(std::iter::repeat(0u8).take(20000));
    assert_eq!(Paste::mime_type(&png), ("image/png", "png"));
    let text = vec![b'a'; 100_000];
    assert_eq!(Paste::mime_type(&text), ("text/plain", "txt"));
    // a long chain of empty zstd skippable frames is judged from its head only
    let mut frames = Vec::new();
    for _ in 0..200_000 {
        frames.extend_from_slice(&[0x50, 0x2A, 0x4D, 0x18, 0, 0, 0, 0]);
    }
    let (mime, _) = Paste::mime_type(&frames);
    assert!(!mime.is_empty());
}

#[test]
fn random_file_name_finds_the_last_free_identifier() {
    let alphabet: Vec<char> = ('A'..='Z').chain('a'..='z').chain('0'..='9').collect();
    let mut taken = Vec::new();
    for a in &alphabet {
        for b in &alphabet {
            for c in &alphabet {
                taken.push(format!("{a}{b}{c}"));
            }
        }
    }
    let last = taken.pop().unwrap();
    assert_eq!(Paste::random_file_name(&taken), Some(last.clone()));
    taken.push(last);
    assert_eq!(Paste::random_file_name(&taken), None);
}
