use lumen::globals::{parse_float, parse_int, FloatLiteral};
use lumen::num;
use lumen::num::{next_state, random_bits};
use lumen::num_format::{round_digits, to_exponential, to_precision};
use lumen::string;
use lumen::uri::{escape, unescape, uri_decode, uri_encode};

fn u(s: &str) -> Vec<u16> {
    s.encode_utf16().collect()
}

fn t(v: Vec<u16>) -> String {
    String::from_utf16(&v).unwrap()
}

#[test]
fn searching_forward_and_backward() {
    let s = u("banana");
    assert_eq!(string::find_from(&s, &u("an"), 0), Some(1));
    assert_eq!(string::find_from(&s, &u("an"), 2), Some(3));
    assert_eq!(string::find_from(&s, &u("an"), 4), None);
    assert_eq!(string::find_from(&s, &u(""), 6), Some(6));
    assert_eq!(string::find_from(&s, &u(""), 7), None);
    assert_eq!(string::find_last(&s, &u("an"), 6), Some(3));
    assert_eq!(string::find_last(&s, &u("an"), 2), Some(1));
    assert_eq!(string::find_last(&s, &u("x"), 6), None);
    assert_eq!(string::find_last(&s, &u(""), 3), Some(3));
}

#[test]
fn trimming_knows_every_white_space() {
    assert_eq!(t(string::trim(&u("\u{b}\u{feff} a b \u{2029}\n"), true, true)), "a b");
    assert_eq!(t(string::trim(&u("  a "), true, false)), "a ");
    assert_eq!(t(string::trim(&u("  a "), false, true)), "  a");
    // NEXT LINE is no white space.
    assert_eq!(t(string::trim(&u("\u{85}a"), true, true)), "\u{85}a");
    assert_eq!(t(string::trim(&u(" \t "), true, true)), "");
}

#[test]
fn padding_cycles_the_filler() {
    assert_eq!(t(string::pad(&u("7"), 4, &u("ab"), true)), "aba7");
    assert_eq!(t(string::pad(&u("7"), 4, &u("ab"), false)), "7aba");
    assert_eq!(t(string::pad(&u("long"), 2, &u("x"), true)), "long");
    assert_eq!(t(string::pad(&u("7"), 4, &u(""), true)), "7");
}

#[test]
fn repeating() {
    assert_eq!(t(string::repeat(&u("ab"), 3)), "ababab");
    assert_eq!(t(string::repeat(&u("ab"), 0)), "");
}

#[test]
fn splitting_and_joining() {
    let pieces: Vec<String> = string::split(&u("a,b,,c"), &u(","), u32::MAX).into_iter().map(t).collect();
    assert_eq!(pieces, ["a", "b", "", "c"]);
    assert_eq!(pieces.join(","), "a,b,,c");
    let two: Vec<String> = string::split(&u("a,b,,c"), &u(","), 2).into_iter().map(t).collect();
    assert_eq!(two, ["a", "b"]);
    let units = string::split(&u("ab"), &u(""), u32::MAX);
    assert_eq!(units, [vec![0x61], vec![0x62]]);
    assert_eq!(string::split(&u(""), &u(""), u32::MAX).len(), 0);
    assert_eq!(string::split(&u(""), &u(","), u32::MAX).len(), 1);
    // Half of a pair separates the other half.
    let halves = string::split(&u("\u{1f600}"), &vec![0xd83d], u32::MAX);
    assert_eq!(halves, [vec![], vec![0xde00]]);
}

#[test]
fn replacing_with_templates() {
    assert_eq!(t(string::replace_first(&u("abcabc"), &u("b"), &u("[$&]"))), "a[b]cabc");
    assert_eq!(t(string::replace_first(&u("abc"), &u("b"), &u("$`$'$$$x"))), "aac$$xc");
    assert_eq!(t(string::replace_first(&u("abc"), &u("z"), &u("!"))), "abc");
    assert_eq!(t(string::replace_all(&u("abcabc"), &u("b"), &u("-"))), "a-ca-c");
    assert_eq!(t(string::replace_all(&u("ab"), &u(""), &u("-"))), "-a-b-");
    assert_eq!(t(string::replace_all(&u("aaa"), &u("aa"), &u("b"))), "ba");
    assert_eq!(t(string::replace_all(&u("xax"), &u("x"), &u("($`|$')"))), "(|ax)a(xa|)");
    assert!(string::replacement_needs_context(&u("a$'")));
    assert!(!string::replacement_needs_context(&u("$&$$")));
}

#[test]
fn surrogates() {
    let lone = vec![0x61, 0xd800, 0x62, 0xdc00];
    assert!(!string::is_well_formed(&lone));
    assert_eq!(string::to_well_formed(&lone), [0x61, 0xfffd, 0x62, 0xfffd]);
    let paired = u("a\u{1f600}");
    assert!(string::is_well_formed(&paired));
    assert_eq!(string::to_well_formed(&paired), paired);
    assert_eq!(string::code_point_at(&paired, 1), 0x1f600);
    assert_eq!(string::code_point_at(&paired, 2), 0xde00);
    assert_eq!(string::advance_string_index(&paired, 1, true), 3);
    assert_eq!(string::advance_string_index(&paired, 1, false), 2);
    let mut out = Vec::new();
    string::push_code_point(&mut out, 0x1f600);
    string::push_code_point(&mut out, 0x41);
    assert_eq!(out, u("\u{1f600}A"));
}

#[test]
fn html_wrappers_quote_their_attribute() {
    assert_eq!(
        t(string::create_html(&u("x"), &u("a"), &u("name"), &u("say \"hi\""))),
        "<a name=\"say &quot;hi&quot;\">x</a>"
    );
    assert_eq!(t(string::create_html(&u("x"), &u("b"), &u(""), &u("y"))), "<b>x</b>");
}

#[test]
fn uris_round_trip() {
    let s = u("a b/é€\u{1f600}#");
    let component = uri_encode(&s, false).unwrap();
    assert_eq!(t(component.clone()), "a%20b%2F%C3%A9%E2%82%AC%F0%9F%98%80%23");
    assert_eq!(uri_decode(&component, false).unwrap(), s);
    let whole = uri_encode(&s, true).unwrap();
    assert_eq!(t(whole.clone()), "a%20b/%C3%A9%E2%82%AC%F0%9F%98%80#");
    assert_eq!(uri_decode(&whole, true).unwrap(), s);
    assert_eq!(uri_encode(&vec![0xd800], false), None);
    assert_eq!(uri_encode(&vec![0xdc00, 0xd800], true), None);
}

#[test]
fn reserved_escapes_stay_in_whole_uris() {
    assert_eq!(t(uri_decode(&u("%23%41"), true).unwrap()), "%23A");
    assert_eq!(t(uri_decode(&u("%23%41"), false).unwrap()), "#A");
}

#[test]
fn malformed_uris_are_refused() {
    for bad in [
        "%", "%4", "%zz", "%80", "%C0%80", "%C3", "%C3%28", "%E0%80%80", "%ED%A0%80",
        "%F4%90%80%80", "%F5%80%80%80", "%E2%82",
    ] {
        assert_eq!(uri_decode(&u(bad), false), None, "{bad}");
    }
}

#[test]
fn escapes_round_trip() {
    let s = vec![0x61, 0x20, 0xe9, 0x20ac, 0xd800, 0x25, 0x2b];
    let e = escape(&s);
    assert_eq!(t(e.clone()), "a%20%E9%u20AC%uD800%25+");
    assert_eq!(unescape(&e), s);
    assert_eq!(t(unescape(&u("%u12%zz%4"))), "%u12%zz%4");
    assert_eq!(t(unescape(&u("%u0041%41"))), "AA");
}

#[test]
fn integers_are_scanned() {
    let l = parse_int(&u("  -0x1Fz"), 0).unwrap();
    assert_eq!((l.negative, l.radix, l.digits.clone()), (true, 16, vec![1, 15]));
    let l = parse_int(&u("12px"), 10).unwrap();
    assert_eq!((l.negative, l.radix, l.digits.clone()), (false, 10, vec![1, 2]));
    let l = parse_int(&u("+zZ"), 36).unwrap();
    assert_eq!((l.negative, l.radix, l.digits.clone()), (false, 36, vec![35, 35]));
    assert!(parse_int(&u("129"), 2).unwrap().digits == vec![1]);
    assert!(parse_int(&u("x"), 10).is_none());
    assert!(parse_int(&u("1"), 1).is_none());
    assert!(parse_int(&u("1"), 37).is_none());
    assert!(parse_int(&u("0x"), 16).is_none());
}

fn decimal(s: &str) -> Option<String> {
    match parse_float(&u(s)) {
        FloatLiteral::Decimal(v) => Some(t(v)),
        _ => None,
    }
}

#[test]
fn floats_are_scanned() {
    assert_eq!(decimal(" 1.5e3x").as_deref(), Some("1.5e3"));
    assert_eq!(decimal("1ex").as_deref(), Some("1"));
    assert_eq!(decimal("1e+").as_deref(), Some("1"));
    assert_eq!(decimal("-.5").as_deref(), Some("-.5"));
    assert_eq!(decimal("5.").as_deref(), Some("5."));
    assert!(matches!(parse_float(&u(".")), FloatLiteral::NotANumber));
    assert!(matches!(parse_float(&u("abc")), FloatLiteral::NotANumber));
    assert!(matches!(parse_float(&u("-Infinityx")), FloatLiteral::Infinity { negative: true }));
    assert!(matches!(parse_float(&u("Infinity")), FloatLiteral::Infinity { negative: false }));
}

#[test]
fn digits_are_rounded_half_up() {
    assert_eq!(round_digits(&vec![1, 2, 5], 2), (vec![1, 3], false));
    assert_eq!(round_digits(&vec![1, 2, 4], 2), (vec![1, 2], false));
    assert_eq!(round_digits(&vec![9, 9, 5], 2), (vec![1, 0], true));
    assert_eq!(round_digits(&vec![7], 3), (vec![7, 0, 0], false));
}

#[test]
fn exponential_and_precision_layouts() {
    assert_eq!(t(to_exponential(false, &vec![1, 2, 3, 4, 5], 4, 2)), "1.23e+4");
    assert_eq!(t(to_exponential(true, &vec![9, 9, 9], -3, 0)), "-1e-2");
    assert_eq!(t(to_precision(false, &vec![1, 2, 3], 4, 3)), "1.23e+4");
    assert_eq!(t(to_precision(false, &vec![1], 21, 1)), "1e+21");
    assert_eq!(t(to_precision(true, &vec![1, 2, 3], 0, 3)), "-1.23");
    assert_eq!(t(to_precision(false, &vec![1, 2, 3], 2, 3)), "123");
    assert_eq!(t(to_precision(false, &vec![1, 2], -3, 2)), "0.0012");
    assert_eq!(t(to_precision(false, &vec![1, 2], -7, 2)), "1.2e-7");
    // Ties go away from zero, and a carry moves the point.
    assert_eq!(t(to_precision(false, &vec![2, 5], 0, 1)), "3");
    assert_eq!(t(to_precision(false, &vec![9, 9, 5], 0, 2)), "10");
    assert_eq!(t(to_precision(false, &vec![0], 0, 3)), "0.00");
}

#[test]
fn numbers_are_cast_and_clamped() {
    let b = |x: f64| x.to_bits();
    assert_eq!(num::as_i64(b(-3.7)), -3);
    assert_eq!(num::as_i64(b(f64::NAN)), 0);
    assert_eq!(num::as_i64(b(f64::INFINITY)), i64::MAX);
    assert_eq!(num::as_u64(b(-1.0)), 0);
    assert_eq!(num::as_u64(b(1e30)), u64::MAX);
    assert_eq!(num::to_uint32(b(-1.0)), u32::MAX);
    assert_eq!(num::to_uint32(b(4294967298.5)), 2);
    assert_eq!(num::to_uint32(b(1e20)), 1661992960);
    assert_eq!(num::of_u64(12345), b(12345.0));
    assert_eq!(num::clamp_position(b(7.9), 5), 5);
    assert_eq!(num::resolve_position(b(-2.0), 5), 3);
    assert_eq!(num::resolve_position(b(f64::NEG_INFINITY), 5), 0);
    assert!(num::is_integral(b(3.0)) && !num::is_integral(b(3.5)));
    assert!(num::is_less(b(-0.5), b(0.0)) && !num::is_less(b(-0.0), b(0.0)));
    assert!(num::is_equal(b(-0.0), b(0.0)) && !num::is_equal(b(f64::NAN), b(f64::NAN)));
}

#[test]
fn the_generator_steps_by_shifts() {
    assert_eq!(next_state(1), 0x4082_2041);
    assert_eq!(random_bits(u64::MAX), (1 << 53) - 1);
    assert_ne!(next_state(0x2545_F491_4F6C_DD1D), 0);
}
