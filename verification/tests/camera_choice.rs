use hand_tracking_mouse::camera::{
    camera_choice_from_text, find_preferred_camera, interpret_camera_choice, parse_usize, trim_whitespace,
    CameraChoice, CameraDevice, CameraId,
};

fn cams() -> Vec<CameraDevice> {
    vec![
        CameraDevice { display_name: "Integrated Camera".to_string(), index: CameraId::Index(0) },
        CameraDevice { display_name: "USB Cam".to_string(), index: CameraId::Index(1) },
        CameraDevice { display_name: "USB Cam".to_string(), index: CameraId::Name("/dev/video4".to_string()) },
    ]
}

#[test]
fn preferred_camera_is_found_by_name() {
    assert_eq!(find_preferred_camera(&cams(), &Some("USB Cam".to_string())), Some(1));
    assert_eq!(find_preferred_camera(&cams(), &Some("Other".to_string())), None);
    assert_eq!(find_preferred_camera(&cams(), &None), None);
}

#[test]
fn parse_like_from_str() {
    assert_eq!(parse_usize("12"), Some(12));
    assert_eq!(parse_usize("+7"), Some(7));
    assert_eq!(parse_usize("007"), Some(7));
    assert_eq!(parse_usize(""), None);
    assert_eq!(parse_usize("+"), None);
    assert_eq!(parse_usize("-1"), None);
    assert_eq!(parse_usize("1a"), None);
    assert_eq!(parse_usize("１"), None);
    assert_eq!(parse_usize(&usize::MAX.to_string()), Some(usize::MAX));
    assert_eq!(parse_usize("99999999999999999999999"), None);
    for s in ["0", "42", "+3", "x", " 1", "18446744073709551616"] {
        assert_eq!(parse_usize(s), s.parse::<usize>().ok());
    }
}

#[test]
fn answers_to_the_camera_prompt() {
    assert_eq!(interpret_camera_choice(" 2\n", 3), CameraChoice::Selected(1));
    assert_eq!(interpret_camera_choice("1\r\n", 3), CameraChoice::Selected(0));
    assert_eq!(interpret_camera_choice("0\n", 3), CameraChoice::OutOfRange);
    assert_eq!(interpret_camera_choice("4\n", 3), CameraChoice::OutOfRange);
    assert_eq!(interpret_camera_choice("abc\n", 3), CameraChoice::NotANumber);
    assert_eq!(interpret_camera_choice("\n", 3), CameraChoice::NotANumber);
    assert_eq!(camera_choice_from_text("3", 3), CameraChoice::Selected(2));
    assert_eq!(camera_choice_from_text(" 3", 3), CameraChoice::NotANumber);
}

#[test]
fn trim_removes_unicode_white_space_at_both_ends() {
    assert_eq!(trim_whitespace("\u{3000}\t 12 3\u{a0}\r\n"), "12 3");
    assert_eq!(trim_whitespace("\u{2000}\u{200a}\u{85}x\u{2028}\u{2029}\u{202f}\u{205f}\u{1680}"), "x");
    assert_eq!(trim_whitespace(" \n\t"), "");
    assert_eq!(trim_whitespace(""), "");
    assert_eq!(trim_whitespace("a\u{200b}"), "a\u{200b}");
}

#[test]
fn trim_agrees_with_str_trim() {
    let samples = [
        "", " ", "abc", "  abc  ", "\u{b}\u{c}x\u{d}", "\u{1f}y\u{1f}", "\u{feff}z", "\u{180e}q\u{180e}",
        "\u{2000}\u{2001}\u{2002}\u{2003}\u{2004}\u{2005}\u{2006}\u{2007}\u{2008}\u{2009}\u{200a}w",
        "\u{65e5}\u{672c} \u{8a9e}\u{3000}",
    ];
    for s in samples {
        assert_eq!(trim_whitespace(s), s.trim(), "on {:?}", s);
    }
    for code in 0u32..0x3100 {
        if let Some(c) = char::from_u32(code) {
            let s = format!("{c}a{c}");
            assert_eq!(trim_whitespace(&s), s.trim(), "on U+{:04X}", code);
        }
    }
}

#[test]
fn camera_choice_ignores_unicode_white_space() {
    assert_eq!(interpret_camera_choice("\u{3000}2\u{a0}\n", 3), CameraChoice::Selected(1));
}
