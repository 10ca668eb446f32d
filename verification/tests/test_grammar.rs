use std::collections::HashMap;

use rt_format::digits::parse_decimal;
use rt_format::grammar::Class;
use rt_format::map::{Lookup, NoMap};
use rt_format::letters::{identifier_part, identifier_start};
use rt_format::parser::{
    read_argument, read_reference, read_specifier, scan_identifier, scan_run, scan_text,
};
use rt_format::text::{part, read_char, width_of};
use rt_format::{
    Align, Argument, ArgumentRef, Arguments, Format, FormattableValue, Pad, Precision, Repr,
    Segment, Sign, Specifier, Width,
};

/// A value that renders as its name, followed by the letter of the output
/// kind it was asked for.
#[derive(Debug, PartialEq)]
struct Word(&'static str);

impl FormattableValue for Word {
    fn format(&self, specifier: &Specifier) -> String {
        let kind = match specifier.format {
            Format::Display => "",
            Format::Debug => "?",
            Format::Octal => "o",
            Format::LowerHex => "x",
            Format::UpperHex => "X",
            Format::Binary => "b",
            Format::LowerExp => "e",
            Format::UpperExp => "E",
        };
        format!("<{}{}>", self.0, kind)
    }
}

const NONE: &[Word] = &[];

fn neutral() -> Specifier {
    Specifier {
        align: Align::Unset,
        sign: Sign::Default,
        repr: Repr::Default,
        pad: Pad::Space,
        width: Width::Auto,
        precision: Precision::Auto,
        format: Format::Display,
    }
}

fn only_specifier(format: &str) -> Result<Specifier, usize> {
    let values = [Word("a")];
    let arguments = Arguments::parse(format, &values, &NoMap)?;
    assert_eq!(1, arguments.segments.len());
    match arguments.segments[0] {
        Segment::Argument(argument) => Ok(argument.specifier),
        Segment::Text(_) => panic!("a text segment"),
    }
}

#[test]
fn empty_format_string_has_no_segments() {
    let arguments = Arguments::parse("", NONE, &NoMap).unwrap();
    assert!(arguments.segments.is_empty());
    assert_eq!("", arguments.to_string());
}

#[test]
fn plain_text_is_one_segment() {
    let arguments = Arguments::parse("plain text", NONE, &NoMap).unwrap();
    assert_eq!(vec![Segment::Text("plain text")], arguments.segments);
}

#[test]
fn text_segment_takes_the_first_brace_of_an_escape() {
    let arguments = Arguments::parse("a{{b}}c", NONE, &NoMap).unwrap();
    assert_eq!(
        vec![Segment::Text("a{"), Segment::Text("b}"), Segment::Text("c")],
        arguments.segments
    );
    assert_eq!("a{b}c", arguments.to_string());
}

#[test]
fn escapes_in_a_row() {
    let arguments = Arguments::parse("{{{{}}}}", NONE, &NoMap).unwrap();
    assert_eq!(
        vec![Segment::Text("{"), Segment::Text("{"), Segment::Text("}"), Segment::Text("}")],
        arguments.segments
    );
    assert_eq!("{{}}", arguments.to_string());
}

#[test]
fn escaped_braces_around_an_argument() {
    let values = [Word("a")];
    let arguments = Arguments::parse("{{{}}}", &values, &NoMap).unwrap();
    assert_eq!("{<a>}", arguments.to_string());
}

#[test]
fn text_without_arguments_renders_collapsed() {
    for (format, expected) in [
        ("", ""),
        ("no braces", "no braces"),
        ("{{", "{"),
        ("}}", "}"),
        ("{{}}", "{}"),
        ("}}{{", "}{"),
        ("a {{b}} c {{{{d}}}}", "a {b} c {{d}}"),
        ("grüße {{ß}}", "grüße {ß}"),
    ] {
        assert_eq!(expected, Arguments::parse(format, NONE, &NoMap).unwrap().to_string());
    }
}

#[test]
fn argument_between_texts() {
    let values = [Word("a")];
    let arguments = Arguments::parse("x {} y", &values, &NoMap).unwrap();
    assert_eq!(
        vec![
            Segment::Text("x "),
            Segment::Argument(Argument {
                reference: ArgumentRef::Next,
                specifier: neutral(),
                value: &values[0],
            }),
            Segment::Text(" y"),
        ],
        arguments.segments
    );
    assert_eq!("x <a> y", arguments.to_string());
}

#[test]
fn adjacent_arguments_have_no_text_between_them() {
    let values = [Word("a"), Word("b")];
    let arguments = Arguments::parse("{}{}", &values, &NoMap).unwrap();
    assert_eq!(2, arguments.segments.len());
    assert_eq!("<a><b>", arguments.to_string());
}

#[test]
fn empty_references_go_from_left_to_right() {
    let values = [Word("a"), Word("b"), Word("c")];
    assert_eq!(
        "<a> <b> <c>",
        Arguments::parse("{} {} {}", &values, &NoMap).unwrap().to_string()
    );
}

#[test]
fn explicit_index_leaves_the_counter_alone() {
    let values = [Word("a"), Word("b")];
    assert_eq!(
        "<b> <a> <a> <b> <b>",
        Arguments::parse("{1} {} {0} {} {1}", &values, &NoMap).unwrap().to_string()
    );
}

#[test]
fn named_argument_leaves_the_counter_alone() {
    let values = [Word("a"), Word("b")];
    let mut named = HashMap::new();
    named.insert("key".to_string(), Word("k"));
    assert_eq!(
        "<k> <a> <k> <b>",
        Arguments::parse("{key} {} {key} {}", &values, &named).unwrap().to_string()
    );
}

#[test]
fn counter_past_the_values_fails_at_that_argument() {
    let values = [Word("a"), Word("b")];
    assert_eq!(Err(10), Arguments::parse("{} {1} {} {}", &values, &NoMap));
}

#[test]
fn first_failure_wins() {
    let values = [Word("a")];
    assert_eq!(Err(0), Arguments::parse("{5} {", &values, &NoMap));
    assert_eq!(Err(4), Arguments::parse("{0} { {7}", &values, &NoMap));
    assert_eq!(Err(3), Arguments::parse("{} } {", &values, &NoMap));
}

#[test]
fn references_as_written() {
    let values = [Word("a"), Word("b")];
    let mut named = HashMap::new();
    named.insert("_k9".to_string(), Word("k"));
    let arguments = Arguments::parse("{}{1}{_k9}{01}", &values, &named).unwrap();
    let references: Vec<ArgumentRef> = arguments
        .segments
        .iter()
        .map(|segment| match segment {
            Segment::Argument(argument) => argument.reference,
            Segment::Text(_) => panic!("a text segment"),
        })
        .collect();
    assert_eq!(
        vec![
            ArgumentRef::Next,
            ArgumentRef::Positional(1),
            ArgumentRef::Named("_k9"),
            ArgumentRef::Positional(1),
        ],
        references
    );
    assert_eq!("<a><b><k><b>", arguments.to_string());
}

#[test]
fn malformed_references_fail_at_the_opening_brace() {
    let values = [Word("a")];
    let mut named = HashMap::new();
    named.insert("a".to_string(), Word("k"));
    for format in ["ab { }", "ab {0 }", "ab {a b}", "ab {a-b}", "ab {-1}", "ab {0.5}", "ab {é}", "ab {a{}"] {
        assert_eq!(Err(3), Arguments::parse(format, &values, &named), "{}", format);
    }
}

#[test]
fn index_too_large_for_a_usize_fails() {
    let values = [Word("a")];
    assert_eq!(
        Err(2),
        Arguments::parse("x {99999999999999999999999999999999999999999}", &values, &NoMap)
    );
}

#[test]
fn offsets_count_bytes() {
    assert_eq!(Err(3), Arguments::parse("é {", NONE, &NoMap));
    assert_eq!(Err(7), Arguments::parse("日本 }", NONE, &NoMap));
    assert_eq!(Err(6), Arguments::parse("{{é}}}", NONE, &NoMap));
}

#[test]
fn stray_close_after_escape() {
    assert_eq!(Err(2), Arguments::parse("}}}", NONE, &NoMap));
    assert_eq!(Err(2), Arguments::parse("{{{", NONE, &NoMap));
    assert_eq!(Err(0), Arguments::parse("}", NONE, &NoMap));
    assert_eq!(Err(0), Arguments::parse("{", NONE, &NoMap));
}

#[test]
fn no_specifier_text_is_the_neutral_specifier() {
    assert_eq!(Ok(neutral()), only_specifier("{}"));
    assert_eq!(Ok(neutral()), only_specifier("{:}"));
    assert_eq!(Ok(neutral()), only_specifier("{0:}"));
    assert_eq!(neutral(), Specifier::default());
}

#[test]
fn each_axis_alone() {
    assert_eq!(Ok(Specifier { align: Align::Left, ..neutral() }), only_specifier("{:<}"));
    assert_eq!(Ok(Specifier { align: Align::Center, ..neutral() }), only_specifier("{:^}"));
    assert_eq!(Ok(Specifier { align: Align::Right, ..neutral() }), only_specifier("{:>}"));
    assert_eq!(Ok(Specifier { sign: Sign::Always, ..neutral() }), only_specifier("{:+}"));
    assert_eq!(Ok(Specifier { repr: Repr::Alt, ..neutral() }), only_specifier("{:#}"));
    assert_eq!(Ok(Specifier { pad: Pad::Zero, ..neutral() }), only_specifier("{:0}"));
    assert_eq!(
        Ok(Specifier { width: Width::AtLeast { width: 12 }, ..neutral() }),
        only_specifier("{:12}")
    );
    assert_eq!(
        Ok(Specifier { precision: Precision::Exactly { precision: 3 }, ..neutral() }),
        only_specifier("{:.3}")
    );
    assert_eq!(
        Ok(Specifier { precision: Precision::Exactly { precision: 0 }, ..neutral() }),
        only_specifier("{:.0}")
    );
}

#[test]
fn each_output_kind() {
    for (format, kind) in [
        ("{:?}", Format::Debug),
        ("{:o}", Format::Octal),
        ("{:x}", Format::LowerHex),
        ("{:X}", Format::UpperHex),
        ("{:b}", Format::Binary),
        ("{:e}", Format::LowerExp),
        ("{:E}", Format::UpperExp),
    ] {
        assert_eq!(Ok(Specifier { format: kind, ..neutral() }), only_specifier(format));
    }
}

#[test]
fn value_receives_the_output_kind() {
    let values = [Word("a")];
    assert_eq!(
        "<a><a?><ao><ax><aX><ab><ae><aE>",
        Arguments::parse("{0}{0:?}{0:o}{0:x}{0:X}{0:b}{0:e}{0:E}", &values, &NoMap)
            .unwrap()
            .to_string()
    );
}

#[test]
fn all_axes_together() {
    assert_eq!(
        Ok(Specifier {
            align: Align::Left,
            sign: Sign::Always,
            repr: Repr::Alt,
            pad: Pad::Zero,
            width: Width::AtLeast { width: 8 },
            precision: Precision::Exactly { precision: 3 },
            format: Format::LowerHex,
        }),
        only_specifier("{:<+#08.3x}")
    );
}

#[test]
fn zero_before_digits_is_the_pad() {
    assert_eq!(
        Ok(Specifier { pad: Pad::Zero, width: Width::AtLeast { width: 5 }, ..neutral() }),
        only_specifier("{:05}")
    );
    assert_eq!(
        Ok(Specifier { pad: Pad::Zero, width: Width::AtLeast { width: 0 }, ..neutral() }),
        only_specifier("{:00}")
    );
    assert_eq!(
        Ok(Specifier { pad: Pad::Zero, width: Width::AtLeast { width: 7 }, ..neutral() }),
        only_specifier("{:007}")
    );
    assert_eq!(
        Ok(Specifier { width: Width::AtLeast { width: 50 }, ..neutral() }),
        only_specifier("{:50}")
    );
}

#[test]
fn axes_out_of_order_fail() {
    for format in ["{:+<}", "{:#+}", "{:0#}", "{:5<}", "{:.3 5}", "{:x5}", "{:x?}", "{:<<}", "{:++}"] {
        assert_eq!(Err(0), only_specifier(format), "{}", format);
    }
}

#[test]
fn unknown_specifier_tokens_fail() {
    for format in ["{:Z}", "{: }", "{:-}", "{:*}", "{:.}", "{:.x}", "{:5$}", "{:.*}", "{:d}", "{::}"] {
        assert_eq!(Err(0), only_specifier(format), "{}", format);
    }
}

#[test]
fn width_and_precision_must_fit_in_a_usize() {
    let most = usize::MAX.to_string();
    assert_eq!(
        Ok(Specifier { width: Width::AtLeast { width: usize::MAX }, ..neutral() }),
        only_specifier(&format!("{{:{}}}", most))
    );
    assert_eq!(
        Ok(Specifier { precision: Precision::Exactly { precision: usize::MAX }, ..neutral() }),
        only_specifier(&format!("{{:.{}}}", most))
    );
    assert_eq!(Err(0), only_specifier(&format!("{{:{}0}}", most)));
    assert_eq!(Err(0), only_specifier(&format!("{{:.{}0}}", most)));
    assert_eq!(Err(0), only_specifier("{:340282366920938463463374607431768211456}"));
}

#[test]
fn unclosed_specifier_fails_at_the_opening_brace() {
    let values = [Word("a")];
    assert_eq!(Err(1), Arguments::parse("x{:<5", &values, &NoMap));
    assert_eq!(Err(1), Arguments::parse("x{0:", &values, &NoMap));
    assert_eq!(Err(1), Arguments::parse("x{0", &values, &NoMap));
    assert_eq!(Err(1), Arguments::parse("x{name", &values, &NoMap));
}

#[test]
fn decimal_numbers() {
    assert_eq!(None, parse_decimal(b""));
    assert_eq!(Some(0), parse_decimal(b"0"));
    assert_eq!(Some(7), parse_decimal(b"007"));
    assert_eq!(Some(1234567890), parse_decimal(b"1234567890"));
    assert_eq!(Some(usize::MAX), parse_decimal(usize::MAX.to_string().as_bytes()));
    assert_eq!(None, parse_decimal(format!("{}", usize::MAX as u128 + 1).as_bytes()));
    assert_eq!(None, parse_decimal(b"12a"));
    assert_eq!(None, parse_decimal(b"+12"));
    assert_eq!(None, parse_decimal(b"-1"));
    assert_eq!(None, parse_decimal(b" 1"));
}

#[test]
fn width_from_capture() {
    assert_eq!(Ok(Width::Auto), Width::from_capture(b""));
    assert_eq!(Ok(Width::AtLeast { width: 42 }), Width::from_capture(b"42"));
    assert_eq!(Err(()), Width::from_capture(b"4x"));
    assert_eq!(Err(()), Width::from_capture(b"99999999999999999999999999"));
}

#[test]
fn precision_from_capture() {
    assert_eq!(Ok(Precision::Auto), Precision::from_capture(b""));
    assert_eq!(Ok(Precision::Exactly { precision: 6 }), Precision::from_capture(b"6"));
    assert_eq!(Err(()), Precision::from_capture(b".6"));
    assert_eq!(Err(()), Precision::from_capture(b"99999999999999999999999999"));
}

#[test]
fn tokens_of_each_axis() {
    assert_eq!(Some(Align::Left), Align::from_token(b'<'));
    assert_eq!(Some(Align::Center), Align::from_token(b'^'));
    assert_eq!(Some(Align::Right), Align::from_token(b'>'));
    assert_eq!(None, Align::from_token(b'+'));
    assert_eq!(Some(Sign::Always), Sign::from_token(b'+'));
    assert_eq!(None, Sign::from_token(b'-'));
    assert_eq!(Some(Repr::Alt), Repr::from_token(b'#'));
    assert_eq!(None, Repr::from_token(b'0'));
    assert_eq!(Some(Pad::Zero), Pad::from_token(b'0'));
    assert_eq!(None, Pad::from_token(b' '));
    assert_eq!(Some(Format::Debug), Format::from_token(b'?'));
    assert_eq!(Some(Format::Octal), Format::from_token(b'o'));
    assert_eq!(Some(Format::LowerHex), Format::from_token(b'x'));
    assert_eq!(Some(Format::UpperHex), Format::from_token(b'X'));
    assert_eq!(Some(Format::Binary), Format::from_token(b'b'));
    assert_eq!(Some(Format::LowerExp), Format::from_token(b'e'));
    assert_eq!(Some(Format::UpperExp), Format::from_token(b'E'));
    assert_eq!(None, Format::from_token(b'Z'));
    assert_eq!(None, Format::from_token(b'}'));
}

#[test]
fn runs_of_a_class() {
    assert_eq!(3, scan_run(b"123abc", 0, Class::Digit));
    assert_eq!(2, scan_run(b"123abc", 2, Class::Digit) - 1);
    assert_eq!(3, scan_run(b"123abc", 3, Class::Digit));
    assert_eq!(6, scan_run(b"123abc", 6, Class::Digit));
    assert_eq!(4, scan_run(b"text{}", 0, Class::Literal));
    assert_eq!(4, scan_run(b"text}", 0, Class::Literal));
    assert_eq!(4, scan_run(b"text", 0, Class::Literal));
    assert!(Class::Digit.contains(b'0') && Class::Digit.contains(b'9'));
    assert!(!Class::Digit.contains(b'/') && !Class::Digit.contains(b':'));
    assert!(!Class::Literal.contains(b'{') && !Class::Literal.contains(b'}'));
    assert!(Class::Literal.contains(b'|') && Class::Literal.contains(0xc3));
}

#[test]
fn characters_of_identifiers() {
    for c in ['a', 'z', 'A', 'Z', '_', 'é', 'ß', 'λ', 'Ж', '日'] {
        assert!(identifier_start(c), "{}", c);
        assert!(identifier_part(c), "{}", c);
    }
    for c in ['0', '9', '٣', '²'] {
        assert!(!identifier_start(c), "{}", c);
        assert!(identifier_part(c), "{}", c);
    }
    for c in [' ', '-', '{', '}', ':', '.', '$', '@', '[', '`', '→', '\u{1F49D}'] {
        assert!(!identifier_start(c), "{}", c);
        assert!(!identifier_part(c), "{}", c);
    }
}

#[test]
fn runs_of_identifier_characters() {
    assert_eq!(7, scan_identifier("a_1Z9z9-x", 0));
    assert_eq!(7, scan_identifier("a_1Z9z9-x", 3));
    assert_eq!(7, scan_identifier("a_1Z9z9-x", 7));
    assert_eq!(9, scan_identifier("a_1Z9z9-x", 8));
    assert_eq!(9, scan_identifier("a_1Z9z9-x", 9));
    assert_eq!(8, scan_identifier("{größe}", 1));
    assert_eq!(10, scan_identifier("{日本語}", 1));
    assert_eq!(0, scan_identifier("→a", 0));
    assert_eq!(0, scan_identifier("", 0));
}

#[test]
fn characters_of_a_string() {
    assert_eq!('h', read_char("héllo→", 0));
    assert_eq!('é', read_char("héllo→", 1));
    assert_eq!('l', read_char("héllo→", 3));
    assert_eq!('→', read_char("héllo→", 6));
    assert_eq!('\u{1F49D}', read_char("a\u{1F49D}", 1));
    assert_eq!(1, width_of(b'a'));
    assert_eq!(1, width_of(0x7f));
    assert_eq!(2, width_of("é".as_bytes()[0]));
    assert_eq!(3, width_of("→".as_bytes()[0]));
    assert_eq!(4, width_of("\u{1F49D}".as_bytes()[0]));
}

#[test]
fn identifiers_in_any_script() {
    let mut named = HashMap::new();
    named.insert("größe".to_string(), Word("g"));
    named.insert("日本語".to_string(), Word("n"));
    named.insert("_".to_string(), Word("u"));
    named.insert("x٣".to_string(), Word("x"));
    assert_eq!(
        "<g> <n?> <u> <x>",
        Arguments::parse("{größe} {日本語:?} {_} {x٣}", NONE, &named).unwrap().to_string()
    );
    assert_eq!(Err(10), Arguments::parse("{größe} {grösse}", NONE, &named));
    assert_eq!(Err(0), Arguments::parse("{٣x}", NONE, &named));
    assert_eq!(Err(0), Arguments::parse("{→}", NONE, &named));
    assert_eq!(Err(0), Arguments::parse("{größe→}", NONE, &named));
}

#[test]
fn extent_of_a_text_segment() {
    assert_eq!((3, 3), scan_text(b"abc", 0));
    assert_eq!((3, 3), scan_text(b"abc{}", 0));
    assert_eq!((4, 5), scan_text(b"abc{{d", 0));
    assert_eq!((4, 5), scan_text(b"abc}}d", 0));
    assert_eq!((3, 3), scan_text(b"abc}{d", 0));
    assert_eq!((3, 3), scan_text(b"abc{", 0));
    assert_eq!((1, 2), scan_text(b"{{", 0));
    assert_eq!((6, 6), scan_text(b"abc{{d", 5));
}

#[test]
fn reading_the_parts_of_an_argument() {
    assert_eq!(Some((ArgumentRef::Next, 1)), read_reference("{}", 1));
    assert_eq!(Some((ArgumentRef::Positional(12), 3)), read_reference("{12}", 1));
    assert_eq!(Some((ArgumentRef::Named("ab_1"), 5)), read_reference("{ab_1:x}", 1));
    assert_eq!(Some((ArgumentRef::Named("né"), 4)), read_reference("{né}", 1));
    assert_eq!(Some((ArgumentRef::Next, 1)), read_reference("{:x}", 1));
    assert_eq!(Some((ArgumentRef::Next, 1)), read_reference("{", 1));
    assert_eq!(None, read_reference("{-}", 1));
    assert_eq!(None, read_reference("{ }", 1));
    assert_eq!(Some((ArgumentRef::Positional(0), 2)), read_reference("{0bar}", 1));
    assert_eq!(None, read_reference("{99999999999999999999999999}", 1));
    assert_eq!(
        Some((Specifier { align: Align::Center, format: Format::Binary, ..neutral() }, 4)),
        read_specifier(b"{:^b}", 2)
    );
    assert_eq!(Some((neutral(), 2)), read_specifier(b"{:Z}", 2));
    assert_eq!(None, read_specifier(b"{:.}", 2));
    assert_eq!(
        Some((ArgumentRef::Positional(3), Specifier { sign: Sign::Always, ..neutral() }, 6)),
        read_argument("a{3:+}b", 1)
    );
    assert_eq!(None, read_argument("a{3:+b", 1));
    assert_eq!(None, read_argument("a{:Z}", 1));
}

#[test]
fn part_of_a_string() {
    assert_eq!("", part("héllo", 0, 0));
    assert_eq!("hé", part("héllo", 0, 3));
    assert_eq!("llo", part("héllo", 3, 6));
    assert_eq!("héllo", part("héllo", 0, 6));
}

#[test]
fn lookup_in_a_hash_map() {
    let mut named = HashMap::new();
    named.insert("one".to_string(), 1);
    named.insert("two".to_string(), 2);
    assert_eq!(Some(&1), Lookup::get(&named, "one"));
    assert_eq!(Some(&2), Lookup::get(&named, "two"));
    assert_eq!(None, Lookup::get(&named, "three"));
    assert_eq!(None, Lookup::get(&named, "On"));
    assert_eq!(None, Lookup::get(&named, ""));
}

#[test]
fn lookup_in_no_map() {
    assert_eq!(None::<&i32>, Lookup::get(&NoMap, "one"));
    assert_eq!(None::<&i32>, Lookup::get(&NoMap, ""));
}

#[test]
fn resolving_a_reference() {
    let values = [Word("a"), Word("b")];
    let mut named = HashMap::new();
    named.insert("key".to_string(), Word("k"));
    assert_eq!(Some(&values[0]), ArgumentRef::Next.resolve(0, &values, &named));
    assert_eq!(Some(&values[1]), ArgumentRef::Next.resolve(1, &values, &named));
    assert_eq!(None, ArgumentRef::Next.resolve(2, &values, &named));
    assert_eq!(Some(&values[1]), ArgumentRef::Positional(1).resolve(0, &values, &named));
    assert_eq!(None, ArgumentRef::Positional(2).resolve(0, &values, &named));
    assert_eq!(Some(&Word("k")), ArgumentRef::Named("key").resolve(5, &values, &named));
    assert_eq!(None, ArgumentRef::Named("other").resolve(0, &values, &named));
    assert_eq!(None, ArgumentRef::Named("key").resolve(0, &values, &NoMap));
}

#[test]
fn equal_inputs_give_equal_arguments() {
    let values = [Word("a"), Word("b")];
    let mut named = HashMap::new();
    named.insert("key".to_string(), Word("k"));
    let format = String::from("x{{ {} {key:>4} {1:#x} }}y");
    let first = Arguments::parse("x{{ {} {key:>4} {1:#x} }}y", &values, &named);
    let second = Arguments::parse(&format, &values, &named);
    assert!(first.is_ok());
    assert_eq!(first, second);
    let copy = first.clone().unwrap().clone();
    assert_eq!(Ok(copy), second);
}

#[test]
fn segments_render_one_by_one() {
    let values = [Word("a")];
    let arguments = Arguments::parse("x{{{:?}", &values, &NoMap).unwrap();
    let texts: Vec<String> = arguments.segments.iter().map(|s| s.to_string()).collect();
    assert_eq!(vec!["x{".to_string(), "<a?>".to_string()], texts);
    match arguments.segments[1] {
        Segment::Argument(argument) => assert_eq!("<a?>", argument.to_string()),
        Segment::Text(_) => panic!("a text segment"),
    }
}

#[test]
fn parser_hands_out_the_segments_one_by_one() {
    let values = [Word("a"), Word("b")];
    let mut parser = rt_format::parser::Parser::new("x{{{1:?} {}", &values, &NoMap);
    assert_eq!(Some(Ok(Segment::Text("x{"))), parser.next());
    assert_eq!(
        Some(Ok(Segment::Argument(Argument {
            reference: ArgumentRef::Positional(1),
            specifier: Specifier { format: Format::Debug, ..neutral() },
            value: &values[1],
        }))),
        parser.next()
    );
    assert_eq!(Some(Ok(Segment::Text(" "))), parser.next());
    assert_eq!(
        Some(Ok(Segment::Argument(Argument {
            reference: ArgumentRef::Next,
            specifier: neutral(),
            value: &values[0],
        }))),
        parser.next()
    );
    assert_eq!(None, parser.next());
    assert_eq!(None, parser.next());
}

#[test]
fn parser_ends_at_the_first_failure() {
    let values = [Word("a")];
    let mut parser = rt_format::parser::Parser::new("ab{} {} {}", &values, &NoMap);
    assert_eq!(Some(Ok(Segment::Text("ab"))), parser.next());
    assert!(matches!(parser.next(), Some(Ok(Segment::Argument(_)))));
    assert_eq!(Some(Ok(Segment::Text(" "))), parser.next());
    assert_eq!(Some(Err(5)), parser.next());
    assert_eq!(None, parser.next());
    let mut empty = rt_format::parser::Parser::new("", &values, &NoMap);
    assert_eq!(None, empty.next());
}
