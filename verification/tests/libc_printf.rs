use lib::libc::{abs, atoi, isdigit, isspace, strcasecmp, strcmp, strlen, strncmp, tolower, toupper};
use lib::printf::{arg_kind, arg_kinds, parse_directive, printf_core, render, vsnprintf, ArgKind, ArgValue, Directive};

#[test]
fn strlen_counts_up_to_the_terminator() {
    assert_eq!(strlen(b"hello\0world\0"), 5);
    assert_eq!(strlen(b"\0"), 0);
}

#[test]
fn strcmp_gives_the_first_difference() {
    assert_eq!(strcmp(b"abc\0", b"abc\0"), 0);
    assert_eq!(strcmp(b"abd\0", b"abc\0"), 1);
    assert_eq!(strcmp(b"ab\0", b"abc\0"), -99);
    assert_eq!(strcmp(b"A\0", b"a\0"), -32);
}

#[test]
fn strncmp_looks_at_most_n_bytes() {
    assert_eq!(strncmp(b"abcX\0", b"abcY\0", 3), 0);
    assert_eq!(strncmp(b"abcX\0", b"abcY\0", 4), -1);
    assert_eq!(strncmp(b"abc", b"xyz", 0), 0);
}

#[test]
fn strcasecmp_ignores_ascii_case() {
    assert_eq!(strcasecmp(b"HeLLo\0", b"hello\0"), 0);
    assert_eq!(strcasecmp(b"a\0", b"B\0"), -1);
    assert_eq!(strcasecmp(b"abc\0", b"ab\0"), 67);
}

#[test]
fn character_classes_and_case() {
    assert_eq!(toupper(97), 65);
    assert_eq!(toupper(65), 65);
    assert_eq!(toupper(-1), -1);
    assert_eq!(tolower(90), 122);
    assert_eq!(tolower(123), 123);
    assert_eq!(isspace(32), 1);
    assert_eq!(isspace(11), 1);
    assert_eq!(isspace(65), 0);
    assert_eq!(isdigit(48), 1);
    assert_eq!(isdigit(58), 0);
    assert_eq!(abs(-7), 7);
    assert_eq!(abs(7), 7);
}

#[test]
fn atoi_reads_leading_digits() {
    assert_eq!(atoi(b"1234xyz\0"), 1234);
    assert_eq!(atoi(b"x12\0"), 0);
    assert_eq!(atoi(b"2147483647\0"), i32::MAX);
}

fn out(fmt: &[u8], args: &[ArgValue]) -> String {
    String::from_utf8(printf_core(fmt, args)).unwrap()
}

#[test]
fn printf_copies_plain_text() {
    assert_eq!(out(b"plain text\0", &[]), "plain text");
    assert_eq!(out(b"100%%\0", &[]), "100%");
    assert_eq!(out(b"stop\0ignored", &[]), "stop");
}

#[test]
fn printf_signed_numbers() {
    assert_eq!(out(b"%d\0", &[ArgValue::Signed(-42)]), "-42");
    assert_eq!(out(b"[%5d]\0", &[ArgValue::Signed(42)]), "[   42]");
    assert_eq!(out(b"[%05d]\0", &[ArgValue::Signed(42)]), "[00042]");
    assert_eq!(out(b"[%.4d]\0", &[ArgValue::Signed(7)]), "[0007]");
    assert_eq!(out(b"[%.5d]\0", &[ArgValue::Signed(-42)]), "[-0042]");
    assert_eq!(out(b"%ld\0", &[ArgValue::Signed(i64::MIN)]), "-9223372036854775808");
    assert_eq!(out(b"%i\0", &[ArgValue::Signed(0)]), "0");
}

#[test]
fn printf_unsigned_and_hex() {
    assert_eq!(out(b"%u\0", &[ArgValue::Unsigned(4000000000)]), "4000000000");
    assert_eq!(out(b"%x\0", &[ArgValue::Unsigned(255)]), "ff");
    assert_eq!(out(b"%X\0", &[ArgValue::Unsigned(48879)]), "BEEF");
    assert_eq!(out(b"%08x\0", &[ArgValue::Unsigned(0xabc)]), "00000abc");
    assert_eq!(out(b"%p\0", &[ArgValue::Unsigned(0x1000)]), "1000");
    assert_eq!(out(b"%.3u\0", &[ArgValue::Unsigned(5)]), "005");
}

#[test]
fn printf_strings_chars_and_others() {
    assert_eq!(out(b"%s!\0", &[ArgValue::Text(Some(b"hi".to_vec()))]), "hi!");
    assert_eq!(out(b"[%6s]\0", &[ArgValue::Text(Some(b"hi".to_vec()))]), "[    hi]");
    assert_eq!(out(b"[%06s]\0", &[ArgValue::Text(Some(b"hi".to_vec()))]), "[    hi]");
    assert_eq!(out(b"%.2s\0", &[ArgValue::Text(Some(b"hello".to_vec()))]), "he");
    assert_eq!(out(b"%s\0", &[ArgValue::Text(None)]), "(null)");
    assert_eq!(out(b"%c%c\0", &[ArgValue::Char(72), ArgValue::Char(0x169)]), "Hi");
    assert_eq!(out(b"%f\0", &[ArgValue::Real]), "FLOAT");
    assert_eq!(out(b"%q\0", &[]), "%q");
}

#[test]
fn printf_mixed_format() {
    let s = out(
        b"pid=%d name=%s mem=%zuKB at %p\0",
        &[ArgValue::Signed(3), ArgValue::Text(Some(b"shell".to_vec())), ArgValue::Unsigned(512), ArgValue::Unsigned(0xdead)],
    );
    assert_eq!(s, "pid=3 name=shell mem=512KB at dead");
}

#[test]
fn directive_parsing_reads_flags_width_precision_and_modifiers() {
    let (d, next) = parse_directive(b"%08.3lld\0", 1);
    assert_eq!(d, Directive { zero_pad: true, width: 8, precision: 3, long_cnt: 2, size_t: false, spec: b'd' });
    assert_eq!(next, 8);
    assert_eq!(arg_kind(&d), ArgKind::Long);
    let (z, _) = parse_directive(b"%zu\0", 1);
    assert_eq!(arg_kind(&z), ArgKind::USize);
    let (s, _) = parse_directive(b"%s\0", 1);
    assert_eq!(s.precision, -1);
    assert_eq!(arg_kind(&s), ArgKind::Str);
}

#[test]
fn argument_kinds_follow_the_directives() {
    assert_eq!(
        arg_kinds(b"%d %u %lx %s %c %f %% %p %hd\0"),
        vec![ArgKind::Int, ArgKind::UInt, ArgKind::ULong, ArgKind::Str, ArgKind::Chr, ArgKind::Double, ArgKind::USize, ArgKind::Int]
    );
}

#[test]
fn render_appends_one_directive() {
    let (d, _) = parse_directive(b"%4x\0", 1);
    let mut buf = b"x=".to_vec();
    render(&d, &ArgValue::Unsigned(26), &mut buf);
    assert_eq!(buf, b"x=  1a".to_vec());
}

#[test]
fn vsnprintf_truncates_and_terminates() {
    let mut buf = [0xAAu8; 8];
    let n = vsnprintf(&mut buf, 5, b"value %d\0", &[ArgValue::Signed(12345)]);
    assert_eq!(n, 11);
    assert_eq!(&buf[..5], b"valu\0");
    assert_eq!(buf[5], 0xAA);
    let mut big = [0xAAu8; 16];
    assert_eq!(vsnprintf(&mut big, 16, b"ok\0", &[]), 2);
    assert_eq!(&big[..3], b"ok\0");
    let mut none = [0xAAu8; 2];
    assert_eq!(vsnprintf(&mut none, 0, b"abc\0", &[]), 3);
    assert_eq!(none, [0xAA, 0xAA]);
}
