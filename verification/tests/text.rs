use irauth::hardware::{copy_device, Evidence, VideoDevice};
use irauth::howdy::{dlib_dir_candidates, howdy_config_candidates, required_model_names, select_first};
use irauth::passkey::join_comma_strings;
use irauth::text::{
    chars_of, contains_char, find_first_of, is_alnum, is_hex, is_whitespace, lex_less,
    line_spans, parse_u32_range, push_chars, push_decimal, push_range, range_contains,
    range_ends_with, range_eq_ignore_case, range_starts_with, split_spans, string_from_range,
    to_lower, trim_bounds,
};

fn v(s: &str) -> Vec<char> {
    chars_of(s)
}

#[test]
fn character_classes() {
    assert!(is_whitespace(' ') && is_whitespace('\t') && is_whitespace('\u{3000}'));
    assert!(!is_whitespace('a'));
    assert!(is_alnum('Z') && is_alnum('7') && !is_alnum('_'));
    assert!(is_hex('f') && is_hex('F') && is_hex('0') && !is_hex('g'));
    assert_eq!(to_lower('Q'), 'q');
    assert_eq!(to_lower('é'), 'é');
    assert!(contains_char(&['#', ';'], ';'));
    assert!(!contains_char(&['#', ';'], '='));
}

#[test]
fn ranges() {
    let t = v("  key = value # note  ");
    let n = t.len();
    let (a, b) = trim_bounds(&t, 0, n);
    assert_eq!(string_from_range(&t, a, b), "key = value # note");
    assert_eq!(find_first_of(&t, 0, n, &['=', '#']), Some(6));
    assert_eq!(find_first_of(&t, 0, 5, &['=']), None);
    assert!(range_starts_with(&t, 2, n, &['k', 'e', 'y']));
    assert!(range_ends_with(&t, 0, 20, &['n', 'o', 't', 'e']));
    assert!(range_contains(&t, 0, n, &['v', 'a', 'l']));
    assert!(!range_contains(&t, 0, 5, &['v', 'a', 'l']));
    assert!(range_eq_ignore_case(&v("ViDeO"), 0, 5, &['v', 'i', 'd', 'e', 'o']));
    assert!(!range_eq_ignore_case(&v("video0"), 0, 6, &['v', 'i', 'd', 'e', 'o']));
}

#[test]
fn lines_and_fields() {
    let t = v("a:b\r\n\nc");
    let spans = line_spans(&t);
    let texts: Vec<String> = spans.iter().map(|&(lo, hi)| string_from_range(&t, lo, hi)).collect();
    assert_eq!(texts, vec!["a:b".to_string(), "".to_string(), "c".to_string()]);
    let f = v("root:x:0::");
    let fields = split_spans(&f, 0, f.len(), ':');
    let parts: Vec<String> = fields.iter().map(|&(lo, hi)| string_from_range(&f, lo, hi)).collect();
    assert_eq!(parts, vec!["root", "x", "0", "", ""]);
    assert!(line_spans(&v("")).is_empty());
}

#[test]
fn numbers() {
    let t = v("V4294967295");
    assert_eq!(parse_u32_range(&t, 1, t.len()), Some(u32::MAX));
    let t = v("4294967296");
    assert_eq!(parse_u32_range(&t, 0, t.len()), None);
    let t = v("+07");
    assert_eq!(parse_u32_range(&t, 0, t.len()), Some(7));
    let t = v("-1");
    assert_eq!(parse_u32_range(&t, 0, t.len()), None);
    assert_eq!(parse_u32_range(&t, 0, 0), None);
    let mut s = String::from("n=");
    push_decimal(&mut s, 0);
    push_decimal(&mut s, 1024);
    assert_eq!(s, "n=01024");
}

#[test]
fn building_strings() {
    let mut s = String::new();
    push_chars(&mut s, &['a', 'b']);
    push_range(&mut s, &v("xyz"), 1, 3);
    assert_eq!(s, "abyz");
    assert!(lex_less(&v("/dev/video1"), &v("/dev/video10")));
    assert!(lex_less(&v("/dev/video10"), &v("/dev/video2")));
    assert!(!lex_less(&v("b"), &v("b")));
    assert_eq!(join_comma_strings(&vec![]), "");
    assert_eq!(
        join_comma_strings(&vec!["a".into(), "b".into(), "c".into()]),
        "a, b, c"
    );
}

#[test]
fn fixed_candidate_lists() {
    assert_eq!(howdy_config_candidates().len(), 6);
    assert_eq!(howdy_config_candidates()[0], "/usr/local/etc/howdy/config.ini");
    assert_eq!(dlib_dir_candidates()[3], "/usr/lib/security/howdy/dlib-data");
    assert_eq!(required_model_names()[2], "shape_predictor_5_face_landmarks.dat");
    assert_eq!(
        select_first(vec!["a".into(), "b".into()], &[false, true]).as_deref(),
        Some("b")
    );
    assert_eq!(select_first(vec!["a".into()], &[false]), None);
}

#[test]
fn device_copies_are_equal() {
    let d = VideoDevice {
        node: "/dev/video0".into(),
        name: "IR".into(),
        usb_id: Some("1234:abcd".into()),
        usb_interface: Some("02".into()),
        evidence: Evidence::IrName,
    };
    assert_eq!(copy_device(&d), d);
}
