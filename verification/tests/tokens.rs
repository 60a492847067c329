use pyret_annotations::error::ParseError;
use pyret_annotations::ident::IdentifierExpression;
use pyret_annotations::state::LexerState;
use pyret_annotations::token::{Token, TokenLexer};
use pyret_annotations::type_ann::TypeAnnotation;

fn st(src: &str) -> LexerState {
    LexerState::new(src.to_string())
}

#[test]
fn identifier_lex_matches_maximal_run() {
    let mut s = st("_x9 rest");
    let id = IdentifierExpression::lex(&mut s).unwrap().unwrap();
    assert_eq!(id.name, "_x9".to_string());
    assert_eq!(id.span, (0, 3));
    assert_eq!(s.offset(), 3);
}

#[test]
fn identifier_lex_failure_keeps_cursor() {
    let mut s = st("123abc");
    let before = s.offset();
    let r = IdentifierExpression::lex(&mut s).unwrap();
    assert!(r.is_none());
    assert_eq!(s.offset(), before);
}

#[test]
fn type_annotation_lex_failure_keeps_cursor() {
    let mut s = st("x + y");
    let r = TypeAnnotation::lex(&mut s).unwrap();
    assert!(r.is_none());
    assert_eq!(s.offset(), 0);
}

#[test]
fn type_annotation_lex_success_advances_past_construct() {
    let mut s = st(" :: (Number) -> Number tail");
    let t = TypeAnnotation::lex(&mut s).unwrap().unwrap();
    assert_eq!(t.span, (1, 22));
    assert_eq!(s.offset(), 22);
}

#[test]
fn type_annotation_lex_error_once_marker_matched() {
    let mut s = st(":: ()");
    let e = TypeAnnotation::lex(&mut s).unwrap_err();
    assert_eq!(e, ParseError::MalformedTuple { offset: 3 });
}

#[test]
fn token_surface_of_identifiers() {
    let id = IdentifierExpression::new("abc".to_string(), 4, 7);
    assert_eq!(id.start(), 4);
    assert_eq!(id.end(), 7);
    assert_eq!(id.span(), 4..7);
    assert_eq!(id.leaf_name(), "identifier");
    assert_eq!(IdentifierExpression::node_name(), "identifier");
    let ser = id.serialize();
    assert_eq!(ser.name, "identifier".to_string());
    assert_eq!(ser.span, 4..7);
}

#[test]
fn leaf_name_tells_annotation_kinds_apart() {
    let mut s1 = st(":: Number");
    let t1 = pyret_annotations::type_ann::TypeAnnotation::lex(&mut s1).unwrap().unwrap();
    assert_eq!(t1.leaf_name(), "name-annotation");
    assert_eq!(t1.serialize().span, 0..9);

    let mut s2 = st(":: (Number, String)");
    let t2 = TypeAnnotation::lex(&mut s2).unwrap().unwrap();
    assert_eq!(t2.leaf_name(), "tuple-annotation");

    let mut s3 = st(":: {}");
    let t3 = TypeAnnotation::lex(&mut s3).unwrap().unwrap();
    assert_eq!(t3.leaf_name(), "record-annotation");

    let mut s4 = st(":: () -> Number");
    let t4 = TypeAnnotation::lex(&mut s4).unwrap().unwrap();
    assert_eq!(t4.leaf_name(), "arrow-annotation");
    assert_eq!(TypeAnnotation::node_name(), "type-annotation");
}

#[test]
fn error_offset_accessor() {
    let e = ParseError::UnterminatedGroup { offset: 5 };
    assert_eq!(e.offset(), 5);
    let d = ParseError::DuplicateField { offset: 9, name: "f".to_string() };
    assert_eq!(d.offset(), 9);
}
