use pairqr::qr::{can_display, display_qr_code, render, try_display_qr_code};
use qrcode::{Color, QrCode};

#[test]
fn test_display_qr_code_no_panic() {
    assert!(display_qr_code("WIFI:T:ADB;S:studio-test;P:password;;").is_ok());
}

#[test]
fn render_of_one_dark_module() {
    assert_eq!(render(1, &[true]), vec!["█████", "██▄██", "█████"]);
}

#[test]
fn render_of_one_light_module() {
    assert_eq!(render(1, &[false]), vec!["█████", "█████", "█████"]);
}

#[test]
fn render_packs_two_rows() {
    let lines = render(2, &[true, false, false, true]);
    assert_eq!(lines, vec!["██████", "██▄▀██", "██████"]);
    let lines = render(2, &[true, true, true, true]);
    assert_eq!(lines, vec!["██████", "██  ██", "██████"]);
}

#[test]
fn render_of_no_modules_is_all_border() {
    assert_eq!(render(0, &[]), vec!["████", "████"]);
}

#[test]
fn different_symbols_have_different_pictures() {
    let a = render(3, &[true, false, true, false, true, false, true, false, true]);
    let b = render(3, &[true, false, true, false, false, false, true, false, true]);
    assert_ne!(a, b);
}

#[test]
fn picture_is_that_of_the_encoded_symbol() {
    let text = "WIFI:T:ADB;S:studio-test;P:password;;";
    let code = QrCode::new(text).unwrap();
    let width = code.width();
    let modules: Vec<bool> = code.to_colors().iter().map(|c| *c == Color::Dark).collect();
    let lines = display_qr_code(text).unwrap();
    assert_eq!(lines, render(width, &modules));
    assert_eq!(lines.len(), (width + 5) / 2);
    for line in &lines {
        assert_eq!(line.chars().count(), width + 4);
        assert!(line.starts_with("██") && line.ends_with("██"));
    }
    // The upper left finder pattern: a ring of dark modules around a light one.
    let second: Vec<char> = lines[1].chars().collect();
    assert_eq!(second[2..9].iter().collect::<String>(), " ▄▄▄▄▄ ");
}

#[test]
fn picture_shows_every_module() {
    let code = QrCode::new("pairqr").unwrap();
    let width = code.width();
    let colors = code.to_colors();
    let lines: Vec<Vec<char>> =
        display_qr_code("pairqr").unwrap().iter().map(|l| l.chars().collect()).collect();
    for row in 0..width {
        for col in 0..width {
            let c = lines[(row + 2) / 2][col + 2];
            let lit = if (row + 2) % 2 == 0 { c == '▀' || c == '█' } else { c == '▄' || c == '█' };
            assert_eq!(lit, colors[row * width + col] == Color::Light);
        }
    }
}

fn too_long() -> Result<Vec<String>, String> {
    Err("Failed to generate QR code: data too long".to_string())
}

#[test]
fn too_long_data_is_reported() {
    let texts = [
        "x".repeat(5597),
        "1".repeat(5597),
        "a".repeat(3000),
        "a".repeat(2332),
        "A1".repeat(600) + &"b;".repeat(1166),
        "\u{e9}".repeat(2873),
        // Many short parts take more bits than the bytes do.
        "a11111".repeat(300),
    ];
    for text in texts {
        assert!(can_display(&text), "{}", text);
        assert_eq!(display_qr_code(&text), too_long());
        assert_eq!(try_display_qr_code(&text), Some(too_long()));
    }
}

#[test]
fn short_data_has_pictures() {
    assert_eq!(display_qr_code("").unwrap().len(), 13);
    let texts = [
        "f".repeat(213),
        "1".repeat(213),
        "12345a".repeat(35),
        "\u{6659}".repeat(71),
        "f".repeat(300),
        "f".repeat(331),
        "A:".repeat(165),
        "1".repeat(331),
        // Not short by its length alone.
        "\u{e9}".repeat(107),
        "1".repeat(790),
    ];
    for text in texts {
        assert!(can_display(&text));
        let lines = display_qr_code(&text).unwrap();
        assert!(lines.len() <= 37);
        assert_eq!(lines.len(), (lines[0].chars().count() + 1) / 2);
        assert_eq!(try_display_qr_code(&text), Some(Ok(lines)));
    }
}

#[test]
fn wide_symbols_are_not_displayed() {
    let texts = [
        "x".repeat(332),
        "x".repeat(2331),
        "1".repeat(5596),
        "\u{e9}".repeat(200),
        // 2400 bytes that can be read as Shift JIS still have a symbol.
        "\u{6659}".repeat(800),
    ];
    for text in texts {
        assert!(!can_display(&text));
        assert_eq!(try_display_qr_code(&text), None);
    }
}
