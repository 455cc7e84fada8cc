use constrained::surface::{parse_params, Tok};

fn ident(x: &str) -> Tok {
    Tok::Ident(x.to_string())
}

#[test]
fn parses_names_and_reference_marks() {
    let toks = vec![
        ident("a"),
        Tok::Comma,
        Tok::Amp,
        ident("b"),
        Tok::Comma,
        ident("c"),
    ];
    let params = parse_params(&toks);
    assert_eq!(params.len(), 3);
    assert_eq!(params[0].name, "a");
    assert!(!params[0].by_reference);
    assert_eq!(params[1].name, "b");
    assert!(params[1].by_reference);
    assert_eq!(params[2].name, "c");
    assert!(!params[2].by_reference);
}

#[test]
fn parses_empty_and_separator_only_lists() {
    assert_eq!(parse_params(&Vec::new()).len(), 0);
    assert_eq!(parse_params(&vec![Tok::Comma, Tok::Comma]).len(), 0);
}

#[test]
fn reference_mark_survives_a_comma() {
    // `&, a` still marks a: the mark is consumed by the next name.
    let toks = vec![Tok::Amp, Tok::Comma, ident("a"), ident("b")];
    let params = parse_params(&toks);
    assert_eq!(params.len(), 2);
    assert!(params[0].by_reference);
    assert!(!params[1].by_reference);
}
