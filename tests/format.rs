use dyn_fmt::{Arguments, AsStrFormatExt, Directive, FormatArg, Sink};

/// A floating-point value, shown as std shows an `f64`.
struct Float(f64);

impl FormatArg for Float {
    fn to_text(&self, d: &Directive) -> String {
        match (d.zero_pad, d.precision) {
            (true, Some(p)) => format!("{:01$.2$}", self.0, d.width, p),
            (false, Some(p)) => format!("{:1$.2$}", self.0, d.width, p),
            (true, None) => format!("{:01$}", self.0, d.width),
            (false, None) => format!("{:1$}", self.0, d.width),
        }
    }
}

fn floats(v: &[f64]) -> Vec<Float> {
    v.iter().map(|x| Float(*x)).collect()
}

#[test]
fn test_format() {
    assert_eq!("{}a{}b{}c".format(&[1, 2, 3]), "1a2b3c");
    assert_eq!("{}a{}b{}c".format(&[1, 2, 3, 4]), "1a2b3c");
    assert_eq!("{}a{}b{}c".format(&[1, 2]), "1a2bc");
    assert_eq!("{{}}{}".format(&[1, 2]), "{}1");
}

#[test]
fn test_format_pos() {
    assert_eq!("{2}a中文内{1}b{0}c".format(&[1, 2, 3]), "3a中文内2b1c");
    assert_eq!("{1 }a{ 2}b{0}c".format(&[1, 2, 3, 4]), "2a3b1c");
    assert_eq!("{1}a{ }b{0}c".format(&[1, 2]), "2a1b1c");
    assert_eq!("{1}a{}b{}c".format(&[1, 2, 3]), "2a1b2c");
    assert_eq!("{{}}{}".format(&[1, 2]), "{}1");
}

#[test]
fn test_format_width() {
    assert_eq!("{2:04}a{1}b{0}c".format(&[1, 2, 3]), "0003a2b1c");
    assert_eq!("{1:05}a{2}b{0:02}c".format(&[1, 2, 3, 4]), "00002a3b01c");
    assert_eq!("{1 }a{:4}b{0}c".format(&[1, 2]), "2a   1b1c");
    assert_eq!("{ 1}a{:02}b{:03}c".format(&[1, 2, 3]), "2a01b002c");
    assert_eq!("{{:01}}{:04}".format(&[1, 2]), "{:01}0001");
}

#[test]
fn test_format_precision() {
    assert_eq!("{2:04.1}a{1}b{0}c".format(&[1, 2, 3]), "0003a2b1c");
    assert_eq!(
        "{1:05}a{2}абвгдb{0:02}c".format(&[1, 2, 3, 4]),
        "00002a3абвгдb01c"
    );
    assert_eq!(
        "{  1:.3}a{:4.3}b{0:.2}c".format(&floats(&[1.0, 2.123456])),
        "2.123a1.000b1.00c"
    );
    assert_eq!(
        "{1}a{:02}b{:03}c".format(&floats(&[1.0, 2.0, 3.0])),
        "2a01b002c"
    );
    assert_eq!(
        "{{:01.2}}{:04.2}".format(&floats(&[1.0, 2.5677])),
        "{:01.2}1.00"
    );
}

#[test]
fn test_format_with_string_format() {
    let format: String = "{}a{}b{}c".into();
    assert_eq!(format.format(&[1, 2, 3]), "1a2b3c");
    assert_eq!(format.format(&[2, 3, 4]), "2a3b4c");
}

#[test]
fn test_write() {
    let mut writer = Sink::with_limit(128);
    Arguments::new("{}a{}b{}c", &[1, 2, 3])
        .write_to(&mut writer)
        .unwrap();
    assert_eq!("1a2b3c", writer.as_str());
}

#[test]
fn lib_write_args() {
    let args_format = Arguments::new("{}{}{}", &[1, 2, 3]);
    let mut writer = Sink::with_limit(128);
    args_format.write_to(&mut writer).unwrap();
    assert_eq!("123", writer.as_str());
}

#[test]
fn write_unsized_args() {
    let args = &[&1, &2, &3];
    let args_format = Arguments::new("{}{}{}", args);
    let mut writer = Sink::with_limit(128);
    args_format.write_to(&mut writer).unwrap();
    assert_eq!("123", writer.as_str());
}

#[test]
fn format_unsized_args() {
    let args = &[&1, &2, &3];
    let args_format = "{}{}{}".format(args);
    let mut writer = Sink::with_limit(128);
    writer.write_str(&args_format).unwrap();
    assert_eq!("123", writer.as_str());
}

#[test]
fn lib_write_str() {
    let args_format = Arguments::new("abcd{}абвгд{}{}", &[1, 2, 3]);
    let mut writer = Sink::with_limit(128);
    args_format.write_to(&mut writer).unwrap();
    assert_eq!("abcd1абвгд23", writer.as_str());
}

#[test]
fn lib_complex_case_1() {
    let args_format = Arguments::new("{{}}x{{}{}}y{", &[1, 2, 3]);
    let mut writer = Sink::with_limit(128);
    args_format.write_to(&mut writer).unwrap();
    assert_eq!("{}x{{}y", writer.as_str());
}

#[test]
fn lib_complex_case_2() {
    let args_format = Arguments::new("{{{}}}x{y}", &[1, 2, 3]);
    let mut writer = Sink::with_limit(128);
    args_format.write_to(&mut writer).unwrap();
    assert_eq!("{1}x", writer.as_str());
}

#[test]
fn lib_complex_case_3() {
    let args_format = Arguments::new("{{{}}}x{{}", &[1, 2, 3]);
    let mut writer = Sink::with_limit(128);
    args_format.write_to(&mut writer).unwrap();
    assert_eq!("{1}x{", writer.as_str());
}

#[test]
fn lib_fmt_lifetime() {
    fn display<'a, 'b>(f: &'a str, i: &'a [u8], sink: &'b mut Sink) -> &'b str {
        let args_format = Arguments::new(f, i);
        args_format.write_to(sink).unwrap();
        sink.as_str()
    }
    let mut writer = Sink::with_limit(128);
    let res = display("{}", &[0], &mut writer);
    assert_eq!("0", res);
}

#[test]
fn write_macros() {
    let mut writer = Sink::with_limit(128);
    Arguments::new("abcd{}абвгд{}{}", &[1, 2, 3])
        .write_to(&mut writer)
        .unwrap();
    assert_eq!("abcd1абвгд23", writer.as_str());
}
