use pairqr::qr::can_display;
use pairqr::credentials::{pick, random_string, Credentials, NAME_CHARS, PASS_CHARS};

#[test]
fn test_random_string() {
    let s1 = random_string(&NAME_CHARS, 10);
    let s2 = random_string(&NAME_CHARS, 10);
    assert_eq!(s1.len(), 10);
    assert_eq!(s2.len(), 10);
    assert_ne!(s1, s2);
    assert!(s1.chars().all(|c| NAME_CHARS.contains(&(c as u8))));
}

#[test]
fn character_sets_are_as_written() {
    let names = b"abcdefghijklmnopqrstuvwxyzABCDEFGHIJKLMNOPQRSTUVWXYZ0123456789";
    let passes = b"abcdefghijklmnopqrstuvwxyzABCDEFGHIJKLMNOPQRSTUVWXYZ0123456789!@#$%";
    assert_eq!(&NAME_CHARS, names);
    assert_eq!(&PASS_CHARS, passes);
}

#[test]
fn random_string_of_no_characters() {
    assert_eq!(random_string(&[], 0), "");
    assert_eq!(random_string(b"x", 4), "xxxx");
}

#[test]
fn pick_takes_characters_at_places() {
    assert_eq!(pick(b"abcd", &[3, 0, 0, 2]), "daac");
    assert_eq!(pick(&[0xe9, 0x41], &[0, 1]), "\u{e9}A");
    assert_eq!(pick(b"abcd", &[]), "");
}

#[test]
fn random_draws_reach_the_whole_set() {
    let s = random_string(b"ab", 200);
    assert!(s.contains('a') && s.contains('b'));
}

#[test]
fn qr_text_has_the_wifi_format() {
    let c = Credentials { name: "studio-test".to_string(), password: "password".to_string() };
    assert_eq!(c.qr_text(), "WIFI:T:ADB;S:studio-test;P:password;;");
}

#[test]
fn generated_credentials_have_their_shape() {
    let c = Credentials::generate();
    assert_eq!(c.name.len(), 17);
    assert!(c.name.starts_with("studio-"));
    assert!(c.name[7..].bytes().all(|b| NAME_CHARS.contains(&b)));
    assert_eq!(c.password.len(), 10);
    assert!(c.password.bytes().all(|b| PASS_CHARS.contains(&b)));
    assert!(!c.qr_text()[13..30].contains(';'));
    assert_eq!(c.qr_text().len(), 45);
    assert!(c.qr_text().is_ascii());
    assert!(can_display(&c.qr_text()));
}

#[test]
fn credentials_of_drawn_strings() {
    let c = Credentials::of("abcDEF0123", "p@ss!WORD9");
    assert_eq!(c.name, "studio-abcDEF0123");
    assert_eq!(c.password, "p@ss!WORD9");
    assert_eq!(c.qr_text(), "WIFI:T:ADB;S:studio-abcDEF0123;P:p@ss!WORD9;;");
}

#[test]
fn name_and_password_are_drawn_apart() {
    let c = Credentials::generate();
    assert_ne!(c.name[7..], c.password[..]);
}

#[test]
fn different_credentials_have_different_texts() {
    let c = Credentials { name: "studio-a".to_string(), password: ";P:b".to_string() };
    let d = Credentials { name: "studio-a".to_string(), password: "b".to_string() };
    assert_ne!(c.qr_text(), d.qr_text());
}
