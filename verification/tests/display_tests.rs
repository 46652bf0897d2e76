use birch_vfd::display::BirchVfd;
use birch_vfd::fit::{PlacementError, TextFit};

const US: u8 = 0x1f;
const DOLLAR: u8 = 0x24;

fn cursor_cmd(col: u8, row: u8) -> Vec<u8> {
    vec![US, DOLLAR, col + 1, row + 1]
}

#[test]
fn new_display_starts_at_home() {
    let vfd = BirchVfd::new(20, 2);
    assert_eq!(vfd.get_cursor(), (0, 0));
}

#[test]
fn initialize_bytes_and_home() {
    let mut vfd = BirchVfd::new(20, 2);
    let _ = vfd.set_cursor(3, 1);
    let cmd = vfd.initialize();
    assert_eq!(cmd, vec![0x1b, 0x40]);
    assert_eq!(vfd.get_cursor(), (0, 0));
}

#[test]
fn clear_homes_cursor() {
    let mut vfd = BirchVfd::new(20, 2);
    let _ = vfd.set_cursor(5, 1);
    let cmd = vfd.clear();
    assert_eq!(cmd, vec![0x0c]);
    assert_eq!(vfd.get_cursor(), (0, 0));
}

#[test]
fn set_cursor_clamps_to_edges() {
    let mut vfd = BirchVfd::new(20, 2);
    let cmd = vfd.set_cursor(255, 0);
    assert_eq!(vfd.get_cursor(), (20, 0));
    assert_eq!(cmd, cursor_cmd(20, 0));
    let cmd = vfd.set_cursor(3, 7);
    assert_eq!(vfd.get_cursor(), (3, 2));
    assert_eq!(cmd, cursor_cmd(3, 2));
}

#[test]
fn classify_one_line_at_any_column() {
    let mut vfd = BirchVfd::new(20, 2);
    let text = "12345678901234567890"; // exactly one full line
    assert_eq!(vfd.classify(text, false, false), TextFit::OneLine);
    let _ = vfd.set_cursor(19, 0);
    assert_eq!(vfd.classify(text, false, false), TextFit::OneLine);
    let _ = vfd.set_cursor(20, 1);
    assert_eq!(vfd.classify(text, true, true), TextFit::OneLine);
}

#[test]
fn one_line_write_keeps_cursor() {
    let mut vfd = BirchVfd::new(20, 2);
    assert_eq!(vfd.classify("Epale!", false, false), TextFit::OneLine);
    let out = vfd.write_text("Epale!", false, false).unwrap();
    assert_eq!(out, b"Epale!".to_vec());
    assert_eq!(vfd.get_cursor(), (0, 0));
}

#[test]
fn writeln_writes_one_line() {
    let mut vfd = BirchVfd::new(20, 2);
    let out = vfd.writeln("Epale!").unwrap();
    assert_eq!(out, b"Epale!".to_vec());
    assert_eq!(vfd.get_cursor(), (0, 0));
}

#[test]
fn writeln_refuses_wrap() {
    let mut vfd = BirchVfd::new(20, 2);
    let text = "Rust speaking serial to a *VFD* :)";
    let err = vfd.writeln(text).unwrap_err();
    assert_eq!(err, PlacementError::WrapNotAllowed);
    assert_eq!(vfd.get_cursor(), (0, 0));
}

#[test]
fn writeln_rejects_over_capacity() {
    let mut vfd = BirchVfd::new(20, 2);
    let text = "12345678901234567890123456789012345678901234567890"; // 50 bytes
    let err = vfd.writeln(text).unwrap_err();
    assert_eq!(
        err,
        PlacementError::TextTooLong { capacity: 40, provided: 50 }
    );
    assert_eq!(vfd.get_cursor(), (0, 0));
}

#[test]
fn wrap_across_two_lines() {
    let mut vfd = BirchVfd::new(20, 2);
    let text = "Rust speaking serial to a *VFD* :)"; // 34 bytes
    assert_eq!(vfd.classify(text, false, true), TextFit::NeedsWrap);
    let out = vfd.write_text(text, false, true).unwrap();
    let mut expected = b"Rust speaking serial".to_vec();
    expected.extend_from_slice(&cursor_cmd(0, 1));
    expected.extend_from_slice(b" to a *VFD* :)");
    assert_eq!(out, expected);
    assert_eq!(vfd.get_cursor(), (0, 1));
}

#[test]
fn wrap_chunks_respect_line_width() {
    let mut vfd = BirchVfd::new(20, 2);
    let _ = vfd.set_cursor(5, 0);
    let text = "abcdefghijklmnopqrstuvwxyz1234"; // 30 bytes, 15 columns left
    let out = vfd.write_text(text, false, false).unwrap();
    let mut expected = b"abcdefghijklmno".to_vec(); // 15 bytes: width - column
    expected.extend_from_slice(&cursor_cmd(0, 1));
    expected.extend_from_slice(b"pqrstuvwxyz1234"); // the 15 that remain
    assert_eq!(out, expected);
    assert_eq!(vfd.get_cursor(), (0, 1));
}

#[test]
fn exact_fit_fills_both_lines() {
    let mut vfd = BirchVfd::new(20, 2);
    let text = "1234567890123456789012345678901234567890"; // 40 bytes
    let out = vfd.write_text(text, false, false).unwrap();
    let mut expected = b"12345678901234567890".to_vec();
    expected.extend_from_slice(&cursor_cmd(0, 1));
    expected.extend_from_slice(b"12345678901234567890");
    assert_eq!(out, expected);
    assert_eq!(vfd.get_cursor(), (0, 1));
}

#[test]
fn too_long_on_last_row_is_rejected() {
    let mut vfd = BirchVfd::new(20, 2);
    let _ = vfd.set_cursor(0, 1);
    let text = "ABCDEFGHIJKLMNOPQRSTUVWXY"; // 25 bytes, 20 of capacity left
    assert_eq!(vfd.classify(text, false, false), TextFit::TooLong);
    let err = vfd.write_text(text, false, false).unwrap_err();
    assert_eq!(
        err,
        PlacementError::TextTooLong { capacity: 20, provided: 25 }
    );
    assert_eq!(vfd.get_cursor(), (0, 1));
}

#[test]
fn truncation_fills_rest_of_line() {
    let mut vfd = BirchVfd::new(20, 2);
    let _ = vfd.set_cursor(0, 1);
    let text = "ABCDEFGHIJKLMNOPQRSTUVWXY"; // 25 bytes, 20 of capacity left
    assert_eq!(vfd.classify(text, false, true), TextFit::OneLineTruncated);
    let out = vfd.write_text(text, false, true).unwrap();
    assert_eq!(out, b"ABCDEFGHIJKLMNOPQRST".to_vec());
    assert_eq!(vfd.get_cursor(), (20, 1));
}

#[test]
fn wrap_around_returns_to_top_row() {
    let mut vfd = BirchVfd::new(20, 2);
    let _ = vfd.set_cursor(0, 1);
    let text = "abcdefghijklmnopqrstuvwxyz1234"; // 30 bytes, 20 of capacity left
    let out = vfd.write_text(text, true, false).unwrap();
    let mut expected = b"abcdefghijklmnopqrst".to_vec();
    expected.extend_from_slice(&cursor_cmd(0, 0));
    expected.extend_from_slice(b"uvwxyz1234");
    assert_eq!(out, expected);
    assert_eq!(vfd.get_cursor(), (0, 0));
}

#[test]
fn wrap_from_a_full_line_moves_first() {
    let mut vfd = BirchVfd::new(20, 2);
    let _ = vfd.set_cursor(20, 0);
    let text = "abcdefghijklmnopqrstu"; // 21 bytes, no room on the current line
    let out = vfd.write_text(text, true, false).unwrap();
    let mut expected = cursor_cmd(0, 1);
    expected.extend_from_slice(b"abcdefghijklmnopqrst");
    expected.extend_from_slice(&cursor_cmd(0, 0));
    expected.extend_from_slice(b"u");
    assert_eq!(out, expected);
    assert_eq!(vfd.get_cursor(), (0, 0));
}
