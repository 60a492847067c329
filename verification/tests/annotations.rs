use pyret_annotations::error::ParseError;
use pyret_annotations::ident::IdentifierExpression;
use pyret_annotations::state::LexerState;
use pyret_annotations::token::{Token, TokenParser};
use pyret_annotations::type_ann::{
    parse_annotation, AnnotationType, IdentifierAnnotation, RecordField, TypeAnnotation,
};

fn st(src: &str) -> LexerState {
    LexerState::new(src.to_string())
}

fn ident(name: &str, start: usize, end: usize) -> IdentifierExpression {
    IdentifierExpression::new(name.to_string(), start, end)
}

fn name_ann(name: &str, start: usize, end: usize) -> AnnotationType {
    AnnotationType::NameAnnotation {
        value: IdentifierAnnotation::Name(ident(name, start, end)),
        parameters: vec![],
        predicate: None,
    }
}

#[test]
fn bare_name() {
    let mut s = st("Number");
    let (ann, span) = parse_annotation(&mut s).unwrap();
    assert_eq!(span, (0, 6));
    assert_eq!(s.offset(), 6);
    assert_eq!(ann, name_ann("Number", 0, 6));
}

#[test]
fn dotted_path_in_order() {
    let mut s = st("a.b.c");
    let (ann, span) = parse_annotation(&mut s).unwrap();
    assert_eq!(span, (0, 5));
    assert_eq!(
        ann,
        AnnotationType::NameAnnotation {
            value: IdentifierAnnotation::Dot(vec![
                ident("a", 0, 1),
                ident("b", 2, 3),
                ident("c", 4, 5),
            ]),
            parameters: vec![],
            predicate: None,
        }
    );
}

#[test]
fn name_with_parameters() {
    let mut s = st("List<Number>");
    let (ann, span) = parse_annotation(&mut s).unwrap();
    assert_eq!(span, (0, 12));
    assert_eq!(
        ann,
        AnnotationType::NameAnnotation {
            value: IdentifierAnnotation::Name(ident("List", 0, 4)),
            parameters: vec![ident("Number", 5, 11)],
            predicate: None,
        }
    );
}

#[test]
fn name_with_empty_parameter_list() {
    let mut s = st("List<>");
    let (ann, span) = parse_annotation(&mut s).unwrap();
    assert_eq!(span, (0, 6));
    assert_eq!(
        ann,
        AnnotationType::NameAnnotation {
            value: IdentifierAnnotation::Name(ident("List", 0, 4)),
            parameters: vec![],
            predicate: None,
        }
    );
}

#[test]
fn name_with_predicate() {
    let mut s = st("Number % positive");
    let (ann, span) = parse_annotation(&mut s).unwrap();
    assert_eq!(span, (0, 17));
    assert_eq!(
        ann,
        AnnotationType::NameAnnotation {
            value: IdentifierAnnotation::Name(ident("Number", 0, 6)),
            parameters: vec![],
            predicate: Some(ident("positive", 9, 17)),
        }
    );
}

#[test]
fn arrow_without_generics() {
    let mut s = st("(Number, String) -> Boolean");
    let (ann, span) = parse_annotation(&mut s).unwrap();
    assert_eq!(span, (0, 27));
    assert_eq!(
        ann,
        AnnotationType::ArrowAnnotation {
            generics: None,
            arguments: vec![name_ann("Number", 1, 7), name_ann("String", 9, 15)],
            return_annotation: Box::new(name_ann("Boolean", 20, 27)),
        }
    );
}

#[test]
fn arrow_with_generics() {
    let mut s = st("<T> (T) -> T");
    let (ann, span) = parse_annotation(&mut s).unwrap();
    assert_eq!(span, (0, 12));
    assert_eq!(
        ann,
        AnnotationType::ArrowAnnotation {
            generics: Some(vec![ident("T", 1, 2)]),
            arguments: vec![name_ann("T", 5, 6)],
            return_annotation: Box::new(name_ann("T", 11, 12)),
        }
    );
}

#[test]
fn arrow_with_no_arguments() {
    let mut s = st("() -> Number");
    let (ann, span) = parse_annotation(&mut s).unwrap();
    assert_eq!(span, (0, 12));
    assert_eq!(
        ann,
        AnnotationType::ArrowAnnotation {
            generics: None,
            arguments: vec![],
            return_annotation: Box::new(name_ann("Number", 6, 12)),
        }
    );
}

#[test]
fn arrow_with_empty_generic_clause() {
    let mut s = st("<> () -> Number");
    let (ann, span) = parse_annotation(&mut s).unwrap();
    assert_eq!(span, (0, 15));
    assert_eq!(
        ann,
        AnnotationType::ArrowAnnotation {
            generics: Some(vec![]),
            arguments: vec![],
            return_annotation: Box::new(name_ann("Number", 9, 15)),
        }
    );
}

#[test]
fn arrow_return_is_itself_an_arrow() {
    let mut s = st("(Number) -> (String) -> Boolean");
    let (ann, span) = parse_annotation(&mut s).unwrap();
    assert_eq!(span, (0, 31));
    assert_eq!(
        ann,
        AnnotationType::ArrowAnnotation {
            generics: None,
            arguments: vec![name_ann("Number", 1, 7)],
            return_annotation: Box::new(AnnotationType::ArrowAnnotation {
                generics: None,
                arguments: vec![name_ann("String", 13, 19)],
                return_annotation: Box::new(name_ann("Boolean", 24, 31)),
            }),
        }
    );
}

#[test]
fn tuple_of_two() {
    let mut s = st("(Number, String)");
    let (ann, span) = parse_annotation(&mut s).unwrap();
    assert_eq!(span, (0, 16));
    assert_eq!(
        ann,
        AnnotationType::TupleAnnotation(vec![
            name_ann("Number", 1, 7),
            name_ann("String", 9, 15),
        ])
    );
}

#[test]
fn tuple_with_surrounding_whitespace() {
    let mut s = st(" ( Number , String ) ");
    let (ann, span) = parse_annotation(&mut s).unwrap();
    assert_eq!(span, (1, 20));
    assert_eq!(s.offset(), 20);
    assert_eq!(
        ann,
        AnnotationType::TupleAnnotation(vec![
            name_ann("Number", 3, 9),
            name_ann("String", 12, 18),
        ])
    );
}

#[test]
fn empty_tuple_is_malformed() {
    let mut s = st("()");
    let e = parse_annotation(&mut s).unwrap_err();
    assert_eq!(e, ParseError::MalformedTuple { offset: 0 });
}

#[test]
fn record_with_two_fields() {
    let mut s = st("{a :: Number, b :: mod.Type}");
    let (ann, span) = parse_annotation(&mut s).unwrap();
    assert_eq!(span, (0, 28));
    assert_eq!(
        ann,
        AnnotationType::RecordAnnotation(vec![
            RecordField { name: ident("a", 1, 2), annotation: name_ann("Number", 6, 12) },
            RecordField {
                name: ident("b", 14, 15),
                annotation: AnnotationType::NameAnnotation {
                    value: IdentifierAnnotation::Dot(vec![
                        ident("mod", 19, 22),
                        ident("Type", 23, 27),
                    ]),
                    parameters: vec![],
                    predicate: None,
                },
            },
        ])
    );
}

#[test]
fn empty_record() {
    let mut s = st("{}");
    let (ann, span) = parse_annotation(&mut s).unwrap();
    assert_eq!(span, (0, 2));
    assert_eq!(ann, AnnotationType::RecordAnnotation(vec![]));
}

#[test]
fn duplicate_field_is_rejected_at_second_occurrence() {
    let mut s = st("{a :: Number, a :: String}");
    let e = parse_annotation(&mut s).unwrap_err();
    assert_eq!(e, ParseError::DuplicateField { offset: 14, name: "a".to_string() });
}

#[test]
fn empty_input_expects_annotation() {
    let mut s = st("");
    let e = parse_annotation(&mut s).unwrap_err();
    assert!(matches!(e, ParseError::ExpectedConstruct { offset: 0, .. }));
    assert_eq!(e.offset(), 0);
}

#[test]
fn junk_input_expects_annotation() {
    let mut s = st("?!");
    let e = parse_annotation(&mut s).unwrap_err();
    assert!(matches!(e, ParseError::ExpectedConstruct { offset: 0, .. }));
}

#[test]
fn dot_without_identifier_fails() {
    let mut s = st("a.");
    let e = parse_annotation(&mut s).unwrap_err();
    assert!(matches!(e, ParseError::ExpectedConstruct { offset: 2, .. }));
}

#[test]
fn predicate_marker_without_identifier_fails() {
    let mut s = st("Number %");
    let e = parse_annotation(&mut s).unwrap_err();
    assert!(matches!(e, ParseError::ExpectedConstruct { offset: 8, .. }));
}

#[test]
fn unterminated_argument_list() {
    let mut s = st("(Number");
    let e = parse_annotation(&mut s).unwrap_err();
    assert_eq!(e, ParseError::UnterminatedGroup { offset: 0 });
}

#[test]
fn unterminated_parameter_list() {
    let mut s = st("List<A B>");
    let e = parse_annotation(&mut s).unwrap_err();
    assert_eq!(e, ParseError::UnterminatedGroup { offset: 4 });
}

#[test]
fn span_end_matches_cursor_with_trailing_input() {
    let mut s = st("Number rest");
    let (_, span) = parse_annotation(&mut s).unwrap();
    assert_eq!(span.1, s.offset());
    assert_eq!(span, (0, 6));
}

#[test]
fn type_annotation_parse_consumes_marker() {
    let mut s = st(":: Number");
    let t = TypeAnnotation::parse(&mut s).unwrap();
    assert_eq!(t.span, (0, 9));
    assert_eq!(t.value, name_ann("Number", 3, 9));
    assert_eq!(s.offset(), 9);
}

#[test]
fn type_annotation_parse_after_whitespace() {
    let mut s = st("  :: List<Number>");
    let t = TypeAnnotation::parse(&mut s).unwrap();
    assert_eq!(t.span, (2, 17));
    assert_eq!(t.start(), 2);
    assert_eq!(t.end(), 17);
}

#[test]
fn type_annotation_parse_without_marker_fails() {
    let mut s = st("Number");
    let e = TypeAnnotation::parse(&mut s).unwrap_err();
    assert!(matches!(e, ParseError::ExpectedConstruct { offset: 0, .. }));
}

#[test]
fn single_element_tuple() {
    let mut s = st("(Number)");
    let (ann, span) = parse_annotation(&mut s).unwrap();
    assert_eq!(span, (0, 8));
    assert_eq!(ann, AnnotationType::TupleAnnotation(vec![name_ann("Number", 1, 7)]));
}

#[test]
fn parameters_tolerate_whitespace() {
    let mut s = st("List < Number >");
    let (ann, span) = parse_annotation(&mut s).unwrap();
    assert_eq!(span, (0, 15));
    assert_eq!(
        ann,
        AnnotationType::NameAnnotation {
            value: IdentifierAnnotation::Name(ident("List", 0, 4)),
            parameters: vec![ident("Number", 7, 13)],
            predicate: None,
        }
    );
}

#[test]
fn dotted_name_with_parameters() {
    let mut s = st("mod.List<A>");
    let (ann, span) = parse_annotation(&mut s).unwrap();
    assert_eq!(span, (0, 11));
    assert_eq!(
        ann,
        AnnotationType::NameAnnotation {
            value: IdentifierAnnotation::Dot(vec![ident("mod", 0, 3), ident("List", 4, 8)]),
            parameters: vec![ident("A", 9, 10)],
            predicate: None,
        }
    );
}

#[test]
fn parameters_then_predicate() {
    let mut s = st("List<A> % ok");
    let (ann, span) = parse_annotation(&mut s).unwrap();
    assert_eq!(span, (0, 12));
    assert_eq!(
        ann,
        AnnotationType::NameAnnotation {
            value: IdentifierAnnotation::Name(ident("List", 0, 4)),
            parameters: vec![ident("A", 5, 6)],
            predicate: Some(ident("ok", 10, 12)),
        }
    );
}

#[test]
fn deeply_nested_annotation() {
    let mut s = st("<A, B> (A, {x :: (A, B)}) -> B");
    let (ann, span) = parse_annotation(&mut s).unwrap();
    assert_eq!(span, (0, 30));
    assert_eq!(
        ann,
        AnnotationType::ArrowAnnotation {
            generics: Some(vec![ident("A", 1, 2), ident("B", 4, 5)]),
            arguments: vec![
                name_ann("A", 8, 9),
                AnnotationType::RecordAnnotation(vec![RecordField {
                    name: ident("x", 12, 13),
                    annotation: AnnotationType::TupleAnnotation(vec![
                        name_ann("A", 18, 19),
                        name_ann("B", 21, 22),
                    ]),
                }]),
            ],
            return_annotation: Box::new(name_ann("B", 29, 30)),
        }
    );
}

#[test]
fn record_trailing_comma_expects_field() {
    let mut s = st("{a :: Number,}");
    let e = parse_annotation(&mut s).unwrap_err();
    assert!(matches!(e, ParseError::ExpectedConstruct { offset: 13, .. }));
}

#[test]
fn unterminated_record() {
    let mut s = st("{a :: Number");
    let e = parse_annotation(&mut s).unwrap_err();
    assert_eq!(e, ParseError::UnterminatedGroup { offset: 0 });
}

#[test]
fn arrow_without_return_fails() {
    let mut s = st("() ->");
    let e = parse_annotation(&mut s).unwrap_err();
    assert!(matches!(e, ParseError::ExpectedConstruct { offset: 5, .. }));
}

#[test]
fn generic_clause_without_argument_list_fails() {
    let mut s = st("<T> Number");
    let e = parse_annotation(&mut s).unwrap_err();
    assert!(matches!(e, ParseError::ExpectedConstruct { offset: 4, .. }));
}
