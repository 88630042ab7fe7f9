use typstyle::line_endings::{apply_crlf_preserve, push_crlf, LineEnding};

fn detect(text: &str) -> LineEnding {
    LineEnding::detect_consistent(text)
}

fn to_crlf(text: &str) -> String {
    LineEnding::CrLf.apply(text.to_string())
}

#[test]
fn detect_without_newlines_is_lf() {
    assert_eq!(detect(""), LineEnding::Lf);
    assert_eq!(detect("#let value = 1"), LineEnding::Lf);
    assert_eq!(detect("a\u{2028}b"), LineEnding::Lf);
}

#[test]
fn detect_all_crlf_is_crlf() {
    assert_eq!(detect("#let a = 0\r\n"), LineEnding::CrLf);
    assert_eq!(detect("\r\n"), LineEnding::CrLf);
    assert_eq!(detect("\r\n\r\n"), LineEnding::CrLf);
    assert_eq!(detect("#let a = 0\r\n#let b = 1"), LineEnding::CrLf);
    assert_eq!(detect("#let value = \"a\u{2028}b\"\r\n"), LineEnding::CrLf);
    assert_eq!(detect("été\r\nünï\r\n"), LineEnding::CrLf);
}

#[test]
fn detect_mixed_is_lf() {
    assert_eq!(detect("#let a = 0\r\n#let b = 1\n"), LineEnding::Lf);
    assert_eq!(detect("\n"), LineEnding::Lf);
    assert_eq!(detect("a\nb\r\n"), LineEnding::Lf);
    assert_eq!(detect("a\r\n\n"), LineEnding::Lf);
}

#[test]
fn detect_bare_cr_is_lf() {
    assert_eq!(detect("#let a = 0\r\n#let b = 1\r"), LineEnding::Lf);
    assert_eq!(detect("a\r\r\n"), LineEnding::Lf);
    assert_eq!(detect("a\rb\r\n"), LineEnding::Lf);
    assert_eq!(detect("\r"), LineEnding::Lf);
}

#[test]
fn apply_lf_keeps_text() {
    let text = "a\nb\r\nc\rd".to_string();
    assert_eq!(LineEnding::Lf.apply(text.clone()), text);
    assert_eq!(LineEnding::Lf.apply(String::new()), "");
}

#[test]
fn apply_crlf_inserts_carriage_returns() {
    assert_eq!(to_crlf(""), "");
    assert_eq!(to_crlf("a\nb"), "a\r\nb");
    assert_eq!(to_crlf("\n"), "\r\n");
    assert_eq!(to_crlf("\n\n"), "\r\n\r\n");
    assert_eq!(to_crlf("#let a = 0\n#let b = 1\n"), "#let a = 0\r\n#let b = 1\r\n");
}

#[test]
fn apply_crlf_keeps_existing_pairs_and_bare_cr() {
    assert_eq!(to_crlf("a\r\nb\n"), "a\r\nb\r\n");
    assert_eq!(to_crlf("a\rb"), "a\rb");
    assert_eq!(to_crlf("a\r\r\n"), "a\r\r\n");
    assert_eq!(to_crlf("a\n\rb"), "a\r\n\rb");
}

#[test]
fn apply_crlf_leaves_unicode_line_separator() {
    assert_eq!(to_crlf("a\u{2028}b\n"), "a\u{2028}b\r\n");
    assert_eq!(to_crlf("é\nü"), "é\r\nü");
}

#[test]
fn push_crlf_appends_converted_text() {
    let mut out = String::from("head:");
    push_crlf(&mut out, "x\ny\r\nz");
    assert_eq!(out, "head:x\r\ny\r\nz");
}

#[test]
fn push_crlf_looks_only_at_the_pushed_text() {
    let mut out = String::from("x\r");
    push_crlf(&mut out, "\nz");
    assert_eq!(out, "x\r\r\nz");
}

#[test]
fn push_crlf_of_empty_text_changes_nothing() {
    let mut out = String::from("keep\n");
    push_crlf(&mut out, "");
    assert_eq!(out, "keep\n");
}

#[test]
fn preserve_crlf_original_converts_output() {
    let out = apply_crlf_preserve("#let a  =  0\r\n", "#let a = 0\n".to_string());
    assert_eq!(out, "#let a = 0\r\n");
}

#[test]
fn preserve_crlf_original_without_final_newline() {
    let out = apply_crlf_preserve(
        "#let a  =  0\r\n#let b  =  1",
        "#let a = 0\n#let b = 1\n".to_string(),
    );
    assert_eq!(out, "#let a = 0\r\n#let b = 1\r\n");
}

#[test]
fn preserve_mixed_original_keeps_output() {
    let out = apply_crlf_preserve(
        "#let a  =  0\r\n#let b  =  1\n",
        "#let a = 0\n#let b = 1\n".to_string(),
    );
    assert_eq!(out, "#let a = 0\n#let b = 1\n");
}

#[test]
fn preserve_cr_at_end_keeps_output() {
    let out = apply_crlf_preserve(
        "#let a  =  0\r\n#let b  =  1\r",
        "#let a = 0\n#let b = 1\n".to_string(),
    );
    assert_eq!(out, "#let a = 0\n#let b = 1\n");
}

#[test]
fn preserve_bare_cr_in_the_middle_keeps_output() {
    let out = apply_crlf_preserve(
        "#let a  =  0\r\n#let b  =  1\r#let c  =  2",
        "#let a = 0\n#let b = 1\r#let c = 2\n".to_string(),
    );
    assert_eq!(out, "#let a = 0\n#let b = 1\r#let c = 2\n");
}

#[test]
fn preserve_without_newlines_keeps_output() {
    let out = apply_crlf_preserve("#let value  =  1", "#let value = 1\n".to_string());
    assert_eq!(out, "#let value = 1\n");
}

#[test]
fn preserve_multiline_literals() {
    let out = apply_crlf_preserve(
        "#let string  =  \"a\r\nb\"\r\n#let raw  =  ```a\r\nb```\r\n",
        "#let string = \"a\r\nb\"\n#let raw = ```a\r\nb```\n".to_string(),
    );
    assert_eq!(out, "#let string = \"a\r\nb\"\r\n#let raw = ```a\r\nb```\r\n");
}

#[test]
fn preserve_does_not_rewrite_non_ascii_newline() {
    let out = apply_crlf_preserve(
        "#let value  =  \"a\u{2028}b\"\r\n",
        "#let value = \"a\u{2028}b\"\n".to_string(),
    );
    assert_eq!(out, "#let value = \"a\u{2028}b\"\r\n");
}

#[test]
fn preserve_again_with_output_as_original_is_stable() {
    let formatted = "#let a = 0\n#let b = 1\n";
    let first = apply_crlf_preserve("#let a  =  0\r\n#let b  =  1", formatted.to_string());
    let second = apply_crlf_preserve(&first, formatted.to_string());
    assert_eq!(first, "#let a = 0\r\n#let b = 1\r\n");
    assert_eq!(second, first);
}

#[test]
fn preserve_again_after_lf_output_is_stable() {
    let formatted = "#let a = 0\n";
    let first = apply_crlf_preserve("#let a  =  0\n", formatted.to_string());
    let second = apply_crlf_preserve(&first, formatted.to_string());
    assert_eq!(first, formatted);
    assert_eq!(second, first);
}

#[test]
fn crlf_output_is_detected_as_crlf() {
    let out = to_crlf("#let a = 0\n#let b = 1");
    assert_eq!(detect(&out), LineEnding::CrLf);
}

#[test]
fn crlf_conversion_is_idempotent() {
    let once = to_crlf("a\nb\r\nc\rd\n");
    assert_eq!(once, "a\r\nb\r\nc\rd\r\n");
    assert_eq!(to_crlf(&once), once);
}

#[test]
fn crlf_conversion_only_adds_carriage_returns() {
    let input = "a\nb\r\nc\rd\u{2028}\n";
    let once = to_crlf(input);
    let strip = |s: &str| s.chars().filter(|c| *c != '\r').collect::<String>();
    assert_eq!(strip(&once), strip(input));
}

#[test]
fn line_ending_values_compare() {
    assert_ne!(LineEnding::Lf, LineEnding::CrLf);
    let copy = LineEnding::CrLf;
    assert_eq!(copy.clone(), LineEnding::CrLf);
    assert_eq!(format!("{:?}", LineEnding::Lf), "Lf");
}
