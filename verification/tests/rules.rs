use typedef_parser::{csl, field_list, ident, opt_typed_name, type_def, Field, ParseError};

fn pairs(fields: &[Field]) -> Vec<(&str, Option<&str>)> {
    fields.iter().map(|f| (f.name.as_str(), f.typ.as_deref())).collect()
}

#[test]
fn field_without_a_type() {
    let (rest, field) = opt_typed_name("a, b").unwrap();
    assert_eq!(rest, ", b");
    assert_eq!(field.name, "a");
    assert_eq!(field.typ, None);
}

#[test]
fn field_with_a_type() {
    let (rest, field) = opt_typed_name("a: int, b").unwrap();
    assert_eq!(rest, ", b");
    assert_eq!(field.name, "a");
    assert_eq!(field.typ, Some("int".to_string()));
}

#[test]
fn field_with_blanks_around_the_colon() {
    let (rest, field) = opt_typed_name("  x \t:\t f64  }").unwrap();
    assert_eq!(rest, "}");
    assert_eq!(field.name, "x");
    assert_eq!(field.typ, Some("f64".to_string()));
}

#[test]
fn field_does_not_look_for_a_colon_on_the_next_line() {
    let (rest, field) = opt_typed_name("x\n: f64").unwrap();
    assert_eq!(rest, "\n: f64");
    assert_eq!(field.name, "x");
    assert_eq!(field.typ, None);
}

#[test]
fn field_leaves_a_colon_that_no_type_follows() {
    let (rest, field) = opt_typed_name("a: 1").unwrap();
    assert_eq!(rest, ": 1");
    assert_eq!(field.name, "a");
    assert_eq!(field.typ, None);

    let (rest, field) = opt_typed_name("a:").unwrap();
    assert_eq!(rest, ":");
    assert_eq!(field.typ, None);
    assert_eq!(field.name, "a");
}

#[test]
fn field_needs_a_name() {
    assert_eq!(opt_typed_name(": int").unwrap_err(), ParseError::Identifier);
    assert_eq!(opt_typed_name("").unwrap_err(), ParseError::Identifier);
    assert_eq!(opt_typed_name("9a: int").unwrap_err(), ParseError::Identifier);
}

#[test]
fn field_list_of_nothing() {
    let (rest, fields) = field_list("").unwrap();
    assert_eq!(rest, "");
    assert!(fields.is_empty());

    let (rest, fields) = field_list("}").unwrap();
    assert_eq!(rest, "}");
    assert!(fields.is_empty());

    let (rest, fields) = field_list("  \n }").unwrap();
    assert_eq!(rest, "}");
    assert!(fields.is_empty());
}

#[test]
fn field_list_with_a_trailing_comma() {
    let (rest, fields) = field_list("a, b, c,").unwrap();
    assert_eq!(rest, "");
    assert_eq!(pairs(&fields), vec![("a", None), ("b", None), ("c", None)]);
}

#[test]
fn field_list_with_and_without_types() {
    let (rest, fields) = field_list("a: int, b").unwrap();
    assert_eq!(rest, "");
    assert_eq!(pairs(&fields), vec![("a", Some("int")), ("b", None)]);
}

#[test]
fn field_list_over_several_lines() {
    let (rest, fields) = field_list("\n  x: f64,\r\n  y: f64\n  ,\n  z\n}\n").unwrap();
    assert_eq!(rest, "}\n");
    assert_eq!(pairs(&fields), vec![("x", Some("f64")), ("y", Some("f64")), ("z", None)]);
}

#[test]
fn field_list_keeps_order_and_duplicates() {
    let (rest, fields) = field_list("b, a, b: t, a").unwrap();
    assert_eq!(rest, "");
    assert_eq!(pairs(&fields), vec![("b", None), ("a", None), ("b", Some("t")), ("a", None)]);
}

#[test]
fn field_list_ends_where_no_comma_follows() {
    let (rest, fields) = field_list("a b, c").unwrap();
    assert_eq!(rest, "b, c");
    assert_eq!(pairs(&fields), vec![("a", None)]);
}

#[test]
fn field_list_ends_at_a_second_comma() {
    let (rest, fields) = field_list("a,, b").unwrap();
    assert_eq!(rest, ", b");
    assert_eq!(pairs(&fields), vec![("a", None)]);

    let (rest, fields) = field_list(", a").unwrap();
    assert_eq!(rest, ", a");
    assert!(fields.is_empty());
}

#[test]
fn csl_of_fields_is_the_field_list() {
    let parser = csl(opt_typed_name);
    for text in ["", "a, b, c,", "a: int, b", " x : y ,\n z }", "a: 1, b", "1, 2"] {
        let (rest, fields) = parser(text).unwrap();
        let (rest_2, fields_2) = field_list(text).unwrap();
        assert_eq!(rest, rest_2);
        assert_eq!(pairs(&fields), pairs(&fields_2));
    }
}

#[test]
fn csl_of_identifiers() {
    let (rest, names) = csl(ident)(" x, y ,\n z1 , ").unwrap();
    assert_eq!(rest, "");
    assert_eq!(names, vec!["x".to_string(), "y".to_string(), "z1".to_string()]);

    let (rest, names) = csl(ident)("x, 1").unwrap();
    assert_eq!(rest, "1");
    assert_eq!(names, vec!["x".to_string()]);
}

fn upper(text: &str) -> Result<(&str, String), ParseError> {
    let (rest, name) = ident(text)?;
    Ok((rest, name.to_uppercase()))
}

fn row(text: &str) -> Result<(&str, Vec<String>), ParseError> {
    let (text, _) = ident(text)?;
    csl(ident)(text)
}

#[test]
fn csl_of_another_parser() {
    let (rest, names) = csl(upper)("ab, cd; ef").unwrap();
    assert_eq!(rest, "; ef");
    assert_eq!(names, vec!["AB".to_string(), "CD".to_string()]);
}

#[test]
fn csl_of_a_closure() {
    let (rest, names) = csl(|text| upper(text))("ab , cd , 3").unwrap();
    assert_eq!(rest, "3");
    assert_eq!(names, vec!["AB".to_string(), "CD".to_string()]);
}

#[test]
fn csl_of_lists() {
    let (rest, lists) = csl(row)("row a b").unwrap();
    assert_eq!(rest, "b");
    assert_eq!(lists, vec![vec!["a".to_string()]]);

    let (rest, lists) = csl(row)("row a, b, row c").unwrap();
    assert_eq!(rest, "c");
    assert_eq!(lists, vec![vec!["a".to_string(), "b".to_string(), "row".to_string()]]);
}

#[test]
fn type_def_with_typed_fields() {
    let (rest, def) = type_def("type Point { x: f64, y: f64, }").unwrap();
    assert_eq!(rest, "");
    assert_eq!(def.name, "Point");
    assert_eq!(pairs(&def.fields), vec![("x", Some("f64")), ("y", Some("f64"))]);
}

#[test]
fn type_def_without_fields() {
    let (rest, def) = type_def("type Unit {}").unwrap();
    assert_eq!(rest, "");
    assert_eq!(def.name, "Unit");
    assert!(def.fields.is_empty());

    let (rest, def) = type_def("type\tUnit{\n}\n\nrest").unwrap();
    assert_eq!(rest, "rest");
    assert_eq!(def.name, "Unit");
    assert!(def.fields.is_empty());
}

#[test]
fn type_def_over_several_lines() {
    let text = "type Shape {\n    kind,\n    area: f64,\n    name: String\n}\n\n// end";
    let (rest, def) = type_def(text).unwrap();
    assert_eq!(rest, "// end");
    assert_eq!(def.name, "Shape");
    assert_eq!(
        pairs(&def.fields),
        vec![("kind", None), ("area", Some("f64")), ("name", Some("String"))]
    );
}

#[test]
fn type_def_needs_no_blank_after_the_keyword() {
    let (rest, def) = type_def("typePoint{x}").unwrap();
    assert_eq!(rest, "");
    assert_eq!(def.name, "Point");
    assert_eq!(pairs(&def.fields), vec![("x", None)]);
}

#[test]
fn type_def_without_the_closing_brace() {
    assert_eq!(type_def("type Point { x: f64").unwrap_err(), ParseError::CloseBrace);
    assert_eq!(type_def("type Point { x: f64, ").unwrap_err(), ParseError::CloseBrace);
    assert_eq!(type_def("type Point { x y }").unwrap_err(), ParseError::CloseBrace);
    assert_eq!(type_def("type Point { x: 1 }").unwrap_err(), ParseError::CloseBrace);
    assert_eq!(type_def("type Point { x,, y }").unwrap_err(), ParseError::CloseBrace);
}

#[test]
fn type_def_without_the_keyword() {
    let text = "Point { x: f64 }";
    assert_eq!(type_def(text).unwrap_err(), ParseError::Keyword);
    // nothing was taken: the name is still the first thing in the text
    assert_eq!(ident(text), Ok(("{ x: f64 }", "Point".to_string())));
    assert_eq!(type_def(" type P {}").unwrap_err(), ParseError::Keyword);
    assert_eq!(type_def("typ P {}").unwrap_err(), ParseError::Keyword);
    assert_eq!(type_def("Type P {}").unwrap_err(), ParseError::Keyword);
    assert_eq!(type_def("").unwrap_err(), ParseError::Keyword);
}

#[test]
fn type_def_without_the_name() {
    assert_eq!(type_def("type { x }").unwrap_err(), ParseError::Identifier);
    assert_eq!(type_def("type 9 { x }").unwrap_err(), ParseError::Identifier);
    assert_eq!(type_def("type").unwrap_err(), ParseError::Identifier);
    assert_eq!(type_def("type\nPoint {}").unwrap_err(), ParseError::Identifier);
}

#[test]
fn type_def_without_the_opening_brace() {
    assert_eq!(type_def("type Point x }").unwrap_err(), ParseError::OpenBrace);
    assert_eq!(type_def("type Point").unwrap_err(), ParseError::OpenBrace);
    assert_eq!(type_def("type Point\n{ x }").unwrap_err(), ParseError::OpenBrace);
    assert_eq!(type_def("type Point ( x )").unwrap_err(), ParseError::OpenBrace);
}

#[test]
fn type_def_rest_does_not_parse_again() {
    let (rest, _) = type_def("type Point { x: f64, y: f64, }").unwrap();
    assert_eq!(rest, "");
    assert_eq!(type_def(rest).unwrap_err(), ParseError::Keyword);

    let (rest, _) = type_def("type A { a }  \n\n  fn main() {}").unwrap();
    assert_eq!(rest, "fn main() {}");
    assert_eq!(type_def(rest).unwrap_err(), ParseError::Keyword);
}

#[test]
fn type_def_one_after_another() {
    let (rest, first) = type_def("type A { a }\ntype B { b: A }\n").unwrap();
    assert_eq!(first.name, "A");
    assert_eq!(rest, "type B { b: A }\n");
    let (rest, second) = type_def(rest).unwrap();
    assert_eq!(second.name, "B");
    assert_eq!(pairs(&second.fields), vec![("b", Some("A"))]);
    assert_eq!(rest, "");
}
