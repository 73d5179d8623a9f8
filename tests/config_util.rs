use paste_rs::config::{duration_text_fits, find, read_usize, str_eq, Config, ConfigErrorKind};
use paste_rs::util::{age_secs, expired, expired_files, FileAge};

fn entries(pairs: &[(&str, &str)]) -> Vec<(String, String)> {
    pairs.iter().map(|(k, v)| (k.to_string(), v.to_string())).collect()
}

fn full() -> Vec<(String, String)> {
    entries(&[
        ("address", "127.0.0.1:8080"),
        ("workers", "4"),
        ("upload_path", "./upload"),
        ("max_content_length", "1048576"),
        ("delete_expired_enabled", "true"),
        ("delete_expired_ttl", "1h"),
    ])
}

#[test]
fn config_reads_every_field() {
    let c = Config::from(&full()).ok().unwrap();
    assert_eq!(c.address, "127.0.0.1:8080");
    assert_eq!(c.workers, Some(4));
    assert_eq!(c.upload_path, "./upload");
    assert_eq!(c.max_content_length, 1048576);
    assert_eq!(c.delete_expired_enabled, Some(true));
    assert_eq!(c.delete_expired_ttl, Some(3600));
}

#[test]
fn config_optional_fields_may_be_absent() {
    let e = entries(&[("address", "0.0.0.0:80"), ("upload_path", "up"), ("max_content_length", "10")]);
    let c = Config::from(&e).ok().unwrap();
    assert_eq!(c.workers, None);
    assert_eq!(c.delete_expired_enabled, None);
    assert_eq!(c.delete_expired_ttl, None);
}

#[test]
fn config_ttl_reads_humantime() {
    let mut e = full();
    e[5].1 = "2h 37min".to_string();
    assert_eq!(Config::from(&e).ok().unwrap().delete_expired_ttl, Some(9420));
    e[5].1 = "30s".to_string();
    assert_eq!(Config::from(&e).ok().unwrap().delete_expired_ttl, Some(30));
}

#[test]
fn config_missing_key_is_named() {
    let e = entries(&[("upload_path", "up"), ("max_content_length", "10")]);
    let err = Config::from(&e).err().unwrap();
    assert_eq!(err.key, "address");
    assert_eq!(err.kind, ConfigErrorKind::Missing);

    let e = entries(&[("address", "a"), ("upload_path", "up")]);
    let err = Config::from(&e).err().unwrap();
    assert_eq!(err.key, "max_content_length");
    assert_eq!(err.kind, ConfigErrorKind::Missing);
}

#[test]
fn config_invalid_values_are_named() {
    let mut e = full();
    e[3].1 = "ten".to_string();
    let err = Config::from(&e).err().unwrap();
    assert_eq!(err.key, "max_content_length");
    assert_eq!(err.kind, ConfigErrorKind::Invalid);

    let mut e = full();
    e[1].1 = "-1".to_string();
    let err = Config::from(&e).err().unwrap();
    assert_eq!(err.key, "workers");
    assert_eq!(err.kind, ConfigErrorKind::Invalid);

    let mut e = full();
    e[4].1 = "maybe".to_string();
    assert_eq!(Config::from(&e).err().unwrap().key, "delete_expired_enabled");

    let mut e = full();
    e[5].1 = "soon".to_string();
    let err = Config::from(&e).err().unwrap();
    assert_eq!(err.key, "delete_expired_ttl");
    assert_eq!(err.kind, ConfigErrorKind::Invalid);
}

#[test]
fn config_first_entry_wins() {
    let mut e = full();
    e.push(("address".to_string(), "other".to_string()));
    assert_eq!(Config::from(&e).ok().unwrap().address, "127.0.0.1:8080");
    assert_eq!(find(&e, "address").unwrap(), "127.0.0.1:8080");
    assert!(find(&e, "port").is_none());
}

#[test]
fn numbers_read_like_the_config_crate() {
    assert_eq!(read_usize("0"), Some(0));
    assert_eq!(read_usize("007"), Some(7));
    assert_eq!(read_usize("9223372036854775807"), Some(9223372036854775807));
    assert_eq!(read_usize("18446744073709551615"), None);
    assert_eq!(read_usize("-1"), None);
    assert_eq!(read_usize(""), None);
    assert_eq!(read_usize("ten"), None);
    assert_eq!(read_usize("yes"), Some(1));
    assert!(str_eq("abc", "abc"));
    assert!(!str_eq("abc", "abd"));
    assert!(!str_eq("abc", "ab"));
}

#[test]
fn expired_entries_are_older_than_ttl() {
    let listing = vec![
        FileAge { path: "up/a".to_string(), age: Some(10) },
        FileAge { path: "up/b".to_string(), age: Some(100) },
        FileAge { path: "up/c".to_string(), age: None },
        FileAge { path: "up/d".to_string(), age: Some(50) },
        FileAge { path: "up/e".to_string(), age: Some(51) },
    ];
    assert_eq!(expired_files(&listing, 50), vec!["up/b".to_string(), "up/e".to_string()]);
    assert!(expired_files(&Vec::new(), 0).is_empty());
    assert!(!expired(Some(50), 50));
    assert!(expired(Some(51), 50));
    assert!(!expired(None, 0));
}

#[test]
fn fresh_entries_survive_repeated_sweeps() {
    for age in [0u64, 30, 60, 3599, 3600] {
        let listing = vec![FileAge { path: "up/x".to_string(), age: Some(age) }];
        assert!(expired_files(&listing, 3600).is_empty());
    }
    let listing = vec![FileAge { path: "up/x".to_string(), age: Some(3601) }];
    assert_eq!(expired_files(&listing, 3600), vec!["up/x".to_string()]);
}

#[test]
fn flags_read_like_the_config_crate() {
    let mut e = full();
    for (text, value) in [("true", true), ("TRUE", true), ("On", true), ("yes", true), ("1", true),
        ("false", false), ("Off", false), ("NO", false), ("0", false)] {
        e[4].1 = text.to_string();
        assert_eq!(Config::from(&e).ok().unwrap().delete_expired_enabled, Some(value), "{text}");
    }
    for bad in ["", "maybe", "2", "tru", "yess"] {
        e[4].1 = bad.to_string();
        let err = Config::from(&e).err().unwrap();
        assert_eq!(err.key, "delete_expired_enabled");
        assert_eq!(err.kind, ConfigErrorKind::Invalid);
    }
}

#[test]
fn ttl_texts_that_would_overflow_are_invalid_not_a_panic() {
    let mut e = full();
    for text in [
        "18446744073709551615s 1000000000ns",
        "0.5s 1 8 4 4 6 7 4 4 0 7 3 7 0 9 5 5 1 6 1 5.5s",
        "18446744073709551615s",
        "600000000000y",
    ] {
        e[5].1 = text.to_string();
        let err = Config::from(&e).err().unwrap();
        assert_eq!(err.key, "delete_expired_ttl");
        assert_eq!(err.kind, ConfigErrorKind::Invalid);
        assert!(!duration_text_fits(text));
    }
}

#[test]
fn long_ttl_texts_that_humantime_reads_are_accepted() {
    let mut e = full();
    e[5].1 = "1s ".repeat(23).trim_end().to_string();
    assert_eq!(Config::from(&e).ok().unwrap().delete_expired_ttl, Some(23));
    e[5].1 = "00000000001s".to_string();
    assert_eq!(Config::from(&e).ok().unwrap().delete_expired_ttl, Some(1));
    e[5].1 = "9999999999y".to_string();
    assert_eq!(Config::from(&e).ok().unwrap().delete_expired_ttl, Some(9999999999 * 31_557_600));
    e[5].1 = "1 2s".to_string();
    assert_eq!(Config::from(&e).ok().unwrap().delete_expired_ttl, Some(12));
    e[5].1 = "100000000000ms".to_string();
    assert_eq!(Config::from(&e).ok().unwrap().delete_expired_ttl, Some(100_000_000));
    assert!(duration_text_fits("1h 30min 12.5s"));
    e[5].1 = "18446744073709551614ns".to_string();
    assert_eq!(Config::from(&e).ok().unwrap().delete_expired_ttl, Some(18_446_744_073));
    e[5].1 = "1000millis 2min".to_string();
    assert_eq!(Config::from(&e).ok().unwrap().delete_expired_ttl, Some(121));
    e[5].1 = "1.5h".to_string();
    assert_eq!(Config::from(&e).ok().unwrap().delete_expired_ttl, Some(5400));
}

#[test]
fn ages_round_up_to_whole_seconds() {
    assert_eq!(age_secs(50, 0), 50);
    assert_eq!(age_secs(50, 1), 51);
    assert_eq!(age_secs(50, 999_999_999), 51);
    assert_eq!(age_secs(u64::MAX, 5), u64::MAX);
    assert!(!expired(Some(age_secs(50, 0)), 50));
    assert!(expired(Some(age_secs(50, 1)), 50));
}
