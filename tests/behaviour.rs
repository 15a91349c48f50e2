use dyn_fmt::fields::{directive_from, parse_usize_range, position_from, trim_range};
use dyn_fmt::model::Position;
use dyn_fmt::render::render_into;
use dyn_fmt::value::{integer_to_text, unsigned_to_text};
use dyn_fmt::{Arguments, AsStrFormatExt, Directive, Sink, SinkError};

fn chars(s: &str) -> Vec<char> {
    s.chars().collect()
}

#[test]
fn template_without_braces_is_copied() {
    assert_eq!("hello, world".format(&[1, 2, 3]), "hello, world");
    assert_eq!("".format(&[1]), "");
    assert_eq!("plain".format::<i32>(&[]), "plain");
}

#[test]
fn escapes_collapse_two_to_one() {
    assert_eq!("{{a}}".format(&[1]), "{a}");
    assert_eq!("{{{{}}}}".format(&[1]), "{{}}");
    assert_eq!("x{{y}}z{}".format(&[7]), "x{y}z7");
}

#[test]
fn extra_arguments_are_ignored() {
    assert_eq!("{}-{}".format(&[1, 2, 3, 4, 5]), "1-2");
    assert_eq!("{1}".format(&[1, 2, 3]), "2");
}

#[test]
fn missing_arguments_show_nothing() {
    assert_eq!("{}{}{}{}".format(&[1, 2]), "12");
    assert_eq!("[{}][{}]".format::<i32>(&[]), "[][]");
}

#[test]
fn explicit_indices_leave_the_cursor() {
    assert_eq!("{0}{}{0}{}".format(&[5, 6]), "5556");
    assert_eq!("{1}{1}{}{}{}".format(&[7, 8]), "8878");
}

#[test]
fn zero_padding_follows_first_width_character() {
    assert_eq!("{:05}".format(&[42]), "00042");
    assert_eq!("{:5}".format(&[42]), "   42");
    assert_eq!("{:+5}".format(&[42]), "   42");
    assert_eq!("{:05}".format(&[-42]), "-0042");
    assert_eq!("{:5}".format(&[-42]), "  -42");
    assert_eq!("{:0}".format(&[42]), "42");
    assert_eq!("{:x}".format(&[42]), "42");
    assert_eq!("{:0:3}".format(&[7]), "7");
}

#[test]
fn precision_does_not_change_integers() {
    assert_eq!("{:5.2}".format(&[42]), "   42");
    assert_eq!("{:05.9}".format(&[42]), "00042");
    assert_eq!("{:3.x}".format(&[7]), "  7");
}

#[test]
fn dangling_and_unclosed_braces_are_dropped() {
    assert_eq!("ab{".format(&[1]), "ab");
    assert_eq!("ab}".format(&[1]), "ab");
    assert_eq!("ab{1:2".format(&[1, 2]), "ab");
    assert_eq!("}x".format(&[1]), "x");
    assert_eq!("}{".format(&[1]), "{");
    assert_eq!("{ab{}".format(&[1]), "{");
}

#[test]
fn unusable_positions_show_nothing() {
    assert_eq!("<{a}>".format(&[1]), "<>");
    assert_eq!("<{5}>".format(&[1]), "<>");
    assert_eq!("<{-1}>".format(&[1]), "<>");
    assert_eq!("<{99999999999999999999999}>".format(&[1]), "<>");
    assert_eq!("<{+1}>".format(&[1, 2]), "<2>");
    assert_eq!("<{\u{3000}1\u{a0}}>".format(&[1, 2]), "<2>");
    assert_eq!("<{é}>".format(&[1]), "<>");
}

#[test]
fn extreme_integers() {
    assert_eq!("{}".format(&[u64::MAX]), "18446744073709551615");
    assert_eq!("{}".format(&[i64::MIN]), "-9223372036854775808");
    assert_eq!("{} {}".format(&[i8::MIN, i8::MAX]), "-128 127");
    assert_eq!("{:03}".format(&[0u8]), "000");
}

#[test]
fn integer_text_pads_as_asked() {
    let zero = Directive { zero_pad: true, width: 4, precision: None };
    let space = Directive { zero_pad: false, width: 4, precision: Some(2) };
    assert_eq!(integer_to_text(-5, &zero), "-005");
    assert_eq!(integer_to_text(-5, &space), "  -5");
    assert_eq!(integer_to_text(123456, &zero), "123456");
    assert_eq!(integer_to_text(9, &Directive { zero_pad: false, width: 0, precision: None }), "9");
    assert_eq!(unsigned_to_text(42, &zero), "0042");
    assert_eq!(unsigned_to_text(42, &space), "  42");
}

#[test]
fn full_sink_refuses_and_keeps_what_was_written() {
    let mut sink = Sink::with_limit(3);
    let r = Arguments::new("{}{}", &[12, 34]).write_to(&mut sink);
    assert_eq!(r, Err(SinkError::Full));
    assert_eq!(sink.as_str(), "12");
}

#[test]
fn sink_with_exact_room_succeeds() {
    let mut sink = Sink::with_limit(6);
    assert_eq!(Arguments::new("a{}b{}", &[1, 22]).write_to(&mut sink), Ok(()));
    assert_eq!(sink.as_str(), "a1b22");
    let mut exact = Sink::with_limit(5);
    assert_eq!(Arguments::new("a{}b{}", &[1, 22]).write_to(&mut exact), Ok(()));
    assert_eq!(exact.into_string(), "a1b22");
}

#[test]
fn sink_writes_are_whole_or_nothing() {
    let mut sink = Sink::with_limit(4);
    assert_eq!(sink.write_str("аб"), Ok(()));
    assert_eq!(sink.write_str("вгд"), Err(SinkError::Full));
    assert_eq!(sink.write_char('x'), Ok(()));
    assert_eq!(sink.write_char('y'), Ok(()));
    assert_eq!(sink.write_char('z'), Err(SinkError::Full));
    assert_eq!(sink.as_str(), "абxy");
    let mut open = Sink::new();
    assert_eq!(open.write_str("any length at all"), Ok(()));
    assert_eq!(open.as_str(), "any length at all");
}

#[test]
fn render_appends_to_what_the_sink_holds() {
    let mut sink = Sink::new();
    sink.write_str("> ").unwrap();
    render_into(&chars("{}+{}"), &[1, 2], &mut sink).unwrap();
    assert_eq!(sink.as_str(), "> 1+2");
}

#[test]
fn reads_decimal_fields() {
    let t = chars("+12|+|-1||18446744073709551615|18446744073709551616|0x1");
    assert_eq!(parse_usize_range(&t, 0, 3), Some(12));
    assert_eq!(parse_usize_range(&t, 4, 5), None);
    assert_eq!(parse_usize_range(&t, 6, 8), None);
    assert_eq!(parse_usize_range(&t, 9, 9), None);
    assert_eq!(parse_usize_range(&t, 10, 30), Some(usize::MAX));
    assert_eq!(parse_usize_range(&t, 31, 51), None);
    assert_eq!(parse_usize_range(&t, 52, 55), None);
}

#[test]
fn reads_position_and_layout_fields() {
    let t = chars("  7 |\t|x|04.3|4|z.1");
    assert_eq!(trim_range(&t, 0, 4), (2, 3));
    assert_eq!(position_from(&t, 0, 4), Position::At(7));
    assert_eq!(position_from(&t, 5, 6), Position::Next);
    assert_eq!(position_from(&t, 7, 8), Position::Invalid);
    assert_eq!(
        directive_from(&t, 9, 11, 12, 13),
        Directive { zero_pad: true, width: 4, precision: Some(3) }
    );
    assert_eq!(
        directive_from(&t, 14, 15, 15, 15),
        Directive { zero_pad: false, width: 4, precision: None }
    );
    assert_eq!(
        directive_from(&t, 16, 17, 18, 19),
        Directive { zero_pad: false, width: 0, precision: Some(1) }
    );
}

#[test]
fn widths_beyond_sixteen_bits_are_padded() {
    let wide = "{:70000}".format(&[1]);
    assert_eq!(wide.chars().count(), 70000);
    assert!(wide.ends_with(" 1"));
    assert!(wide.chars().take(69999).all(|c| c == ' '));
    let zeros = "{:070000}".format(&[-1]);
    assert_eq!(zeros.chars().count(), 70000);
    assert!(zeros.starts_with("-00"));
    assert!(zeros.ends_with("01"));
    let text = "{:70000}".format(&["ab"]);
    assert_eq!(text.chars().count(), 70000);
    assert!(text.starts_with("ab "));
}

#[test]
fn wide_integers() {
    assert_eq!("{}".format(&[i128::MIN]), "-170141183460469231731687303715884105728");
    assert_eq!("{}".format(&[u128::MAX]), "340282366920938463463374607431768211455");
    assert_eq!("{:06}".format(&[-12i128]), "-00012");
    assert_eq!("{:4}".format(&[7u128]), "   7");
}

#[test]
fn strings_are_cut_and_padded_as_std_does() {
    assert_eq!("[{}]".format(&["hello"]), "[hello]");
    assert_eq!("[{:8}]".format(&["hello"]), "[hello   ]");
    assert_eq!("[{:08}]".format(&["hello"]), "[hello   ]");
    assert_eq!("[{:.2}]".format(&["hello"]), "[he]");
    assert_eq!("[{:5.3}]".format(&["абвгд"]), "[абв  ]");
    assert_eq!("[{:.9}]".format(&["hi"]), "[hi]");
    let owned = vec![String::from("x"), String::from("yz")];
    assert_eq!("{1}{0:3}|".format(&owned), "yzx  |");
    for (s, d) in [("hello", Directive { zero_pad: true, width: 7, precision: Some(4) })] {
        assert_eq!(dyn_fmt::value::str_to_text(s, &d), format!("{:07.4}", s));
    }
}

#[test]
fn chars_and_bools_show_as_std_does() {
    assert_eq!("{}{}".format(&['a', 'é']), "aé");
    assert_eq!("[{:3}]".format(&['a']), "[a  ]");
    assert_eq!("[{:.0}]".format(&['a']), "[]");
    assert_eq!("{} {:6}|".format(&[true, false]), "true false |");
    assert_eq!("[{:.1}]".format(&[true]), "[t]");
}

#[test]
fn templates_by_reference() {
    let owned = String::from("{}-{}");
    let by_ref: &String = &owned;
    assert_eq!(by_ref.format(&[1, 2]), "1-2");
    let nested: &&str = &"<{}>";
    assert_eq!(nested.format(&[3]), "<3>");
}

#[test]
fn precision_kept_out_of_integers_but_width_kept() {
    assert_eq!("{:04.2}".format(&[7u32]), "{:04}".format(&[7u32]));
    assert_eq!("{:4.9}".format(&[7i64]), "   7");
}

#[test]
fn spent_placeholders_write_no_padding() {
    assert_eq!("{}a{}b{:4}c".format(&[1, 2]), "1a2bc");
    assert_eq!("{}{}{:05}|{1}".format(&[1, 2]), "12|2");
}
