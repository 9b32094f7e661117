use mouse_poll_rate_tester::wide::to_wide;

#[test]
fn ascii_text_gets_one_unit_per_char_and_a_nul() {
    let w = to_wide("Consolas");
    let expected: Vec<u16> = "Consolas".bytes().map(|b| b as u16).chain(std::iter::once(0)).collect();
    assert_eq!(w, expected);
    assert_eq!(w.len(), 9);
    assert_eq!(*w.last().unwrap(), 0);
}

#[test]
fn empty_text_is_just_the_nul() {
    assert_eq!(to_wide(""), vec![0u16]);
}

#[test]
fn text_outside_the_basic_plane_takes_surrogate_pairs() {
    assert_eq!(to_wide("\u{1F600}"), vec![0xD83D, 0xDE00, 0]);
    assert_eq!(to_wide("a\u{10FFFF}\u{FFFF}"), vec![0x61, 0xDBFF, 0xDFFF, 0xFFFF, 0]);
}

#[test]
fn wide_text_matches_std_encoding() {
    for s in ["Mouse Poll Rate Tester", "MprtWndClass", "轮询率统计", "Hz \u{1F5B1}", ""] {
        let expected: Vec<u16> = s.encode_utf16().chain(std::iter::once(0)).collect();
        assert_eq!(to_wide(s), expected);
    }
}

#[test]
fn decoding_without_the_nul_gives_the_text_back() {
    for s in ["Consolas", "", "a\u{10FFFF}\u{FFFF}\u{1F600}z", "轮询率"] {
        let w = to_wide(s);
        assert_eq!(String::from_utf16(&w[..w.len() - 1]).unwrap(), s);
    }
}
