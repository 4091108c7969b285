use juju::document::parse_document;
use juju::document::Document;
use juju::formatter::{parse_template, render_template, FormatError, Segment, Token};

fn smap(entries: &[(&str, &str)]) -> Vec<(String, String)> {
    entries.iter().map(|(k, v)| (k.to_string(), v.to_string())).collect()
}

fn svmap(entries: &[(&str, Option<&str>)]) -> Vec<(String, Option<String>)> {
    entries.iter().map(|(k, v)| (k.to_string(), v.map(|x| x.to_string()))).collect()
}

fn text_of(segs: &Vec<Segment>) -> String {
    let mut s = String::new();
    for seg in segs {
        s.push_str(&seg.text);
    }
    s
}

#[test]
fn plain_text_renders_unstyled() {
    let segs = render_template("hello", &smap(&[]), &svmap(&[]), &smap(&[])).unwrap();
    assert_eq!(segs.len(), 1);
    assert_eq!(segs[0].text, "hello");
    assert_eq!(segs[0].style, None);
}

#[test]
fn variable_and_text_share_one_unstyled_segment() {
    let segs = render_template(
        "a$x!",
        &smap(&[]),
        &svmap(&[("x", Some("X"))]),
        &smap(&[]),
    )
    .unwrap();
    assert_eq!(segs.len(), 1);
    assert_eq!(segs[0].text, "aX!");
}

#[test]
fn meta_variable_wins_over_data_variable() {
    let segs = render_template(
        "$x",
        &smap(&[("x", "meta")]),
        &svmap(&[("x", Some("data"))]),
        &smap(&[]),
    )
    .unwrap();
    assert_eq!(text_of(&segs), "meta");
}

#[test]
fn known_variable_without_value_is_empty_not_an_error() {
    let segs = render_template(
        "a$x b",
        &smap(&[]),
        &svmap(&[("x", None)]),
        &smap(&[]),
    )
    .unwrap();
    assert_eq!(text_of(&segs), "a b");
}

#[test]
fn styled_group_gets_its_style() {
    let segs = render_template(
        "a[b](red) c",
        &smap(&[]),
        &svmap(&[]),
        &smap(&[("red", "fg:red")]),
    )
    .unwrap();
    assert_eq!(segs.len(), 3);
    assert_eq!(segs[0].text, "a");
    assert_eq!(segs[0].style, None);
    assert_eq!(segs[1].text, "b");
    assert_eq!(segs[1].style, Some("fg:red".to_string()));
    assert_eq!(segs[2].text, " c");
    assert_eq!(segs[2].style, None);
}

#[test]
fn nested_groups_flatten_in_template_order() {
    let segs = render_template(
        "[a[b](inner)c](outer)",
        &smap(&[]),
        &svmap(&[]),
        &smap(&[("outer", "O"), ("inner", "I")]),
    )
    .unwrap();
    assert_eq!(segs.len(), 3);
    assert_eq!(segs[0].text, "a");
    assert_eq!(segs[0].style, Some("O".to_string()));
    assert_eq!(segs[1].text, "b");
    assert_eq!(segs[1].style, Some("I".to_string()));
    assert_eq!(segs[2].text, "c");
    assert_eq!(segs[2].style, Some("O".to_string()));
}

#[test]
fn style_name_may_carry_a_leading_dollar() {
    let segs = render_template(
        "[x]($style)",
        &smap(&[]),
        &svmap(&[]),
        &smap(&[("style", "S")]),
    )
    .unwrap();
    assert_eq!(segs[0].style, Some("S".to_string()));
}

#[test]
fn unknown_variable_fails_whole_render() {
    let err = render_template("a$nope b", &smap(&[]), &svmap(&[]), &smap(&[])).unwrap_err();
    assert!(matches!(err, FormatError::UnknownVariable(name) if name == "nope"));
}

#[test]
fn unknown_style_fails_whole_render() {
    let err = render_template("[x](bad)", &smap(&[]), &svmap(&[]), &smap(&[("style", "S")]))
        .unwrap_err();
    assert!(matches!(err, FormatError::UnknownStyle(name) if name == "bad"));
}

#[test]
fn parse_error_variants() {
    assert!(matches!(parse_template("a]b"), Err(FormatError::UnmatchedGroupClose)));
    assert!(matches!(parse_template("[ab"), Err(FormatError::UnterminatedGroup)));
    assert!(matches!(parse_template("a$ b"), Err(FormatError::EmptyVariableName)));
    assert!(matches!(parse_template("a$"), Err(FormatError::EmptyVariableName)));
    assert!(matches!(parse_template("[x]y"), Err(FormatError::MissingStyle)));
    assert!(matches!(parse_template("[x](s"), Err(FormatError::MissingStyle)));
    assert!(matches!(parse_template("[x]"), Err(FormatError::MissingStyle)));
}

#[test]
fn variable_name_ends_at_non_name_character() {
    let segs = render_template(
        "$a-$b_c",
        &smap(&[]),
        &svmap(&[("a", Some("1")), ("b_c", Some("2"))]),
        &smap(&[]),
    )
    .unwrap();
    assert_eq!(text_of(&segs), "1-2");
}

#[test]
fn empty_template_renders_no_segments() {
    let segs = render_template("", &smap(&[]), &svmap(&[]), &smap(&[])).unwrap();
    assert_eq!(segs.len(), 0);
}

#[test]
fn parse_template_token_shape() {
    let toks = parse_template("hi$v").unwrap();
    // per-character text tokens, then the variable
    assert_eq!(toks.len(), 3);
    assert!(matches!(&toks[0], Token::Text(t) if t == "h"));
    assert!(matches!(&toks[1], Token::Text(t) if t == "i"));
    assert!(matches!(&toks[2], Token::Var(n) if n == "v"));
}

#[test]
fn parse_document_reads_nested_fields() {
    let doc = parse_document("a: x\nb:\n  c: y\n").unwrap();
    assert_eq!(doc.get_str("a").unwrap(), "x");
    let b = doc.get("b").unwrap();
    assert_eq!(b.get_str("c").unwrap(), "y");
    assert!(doc.get_str("b").is_none());
    assert!(doc.get("missing").is_none());
}

#[test]
fn parse_document_folds_failures_into_absence() {
    assert!(parse_document("a: [unclosed\n : :").is_none());
    assert!(parse_document("").is_none());
}

#[test]
fn parse_document_non_mapping_root() {
    let doc = parse_document("- 1\n- 2\n").unwrap();
    assert!(matches!(doc, Document::List(_)));
    assert!(doc.get("a").is_none());
    let scalar = parse_document("plain\n").unwrap();
    assert!(matches!(scalar, Document::Str(s) if s == "plain"));
}
