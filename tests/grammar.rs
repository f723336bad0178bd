use extxyz::{
    key_value, parse_key_value_pairs, recognize_boolean, recognize_integer,
    recognize_old_one_d_array, recognize_sci_float, recognize_unsigned_integer,
    reformat_extxyz_value, reformat_old_style_array, ScanError,
};

#[test]
fn test_parse_value() {
    let (t, _) = recognize_integer("+12").unwrap();
    assert_eq!(t.parse::<i32>().unwrap(), 12);

    let (t, _) = recognize_integer("-12").unwrap();
    assert_eq!(t.parse::<i32>().unwrap(), -12);

    let (t, _) = recognize_sci_float("-12.34d-1").unwrap();
    assert_eq!(t.parse::<f64>().unwrap(), -1.234);

    let (t, _) = recognize_sci_float("-12").unwrap();
    assert_eq!(t.parse::<f64>().unwrap(), -12.0);

    let (t, _) = recognize_sci_float("-12.3E-1").unwrap();
    assert_eq!(t.parse::<f64>().unwrap(), -1.23);
}

#[test]
fn test_key_value() {
    let s = r#"Lattice="5.44 0.0 0.0 0.0 5.44 0.0 0.0 0.0 5.44" Properties=species:S:1:pos:R:3 Time=0.0"#;
    let (r, _) = parse_key_value_pairs(s);
    assert_eq!(r.len(), 3);

    let s = r#"array="1 2 3" nested="[[1], [2], [3]]""#;
    let x = key_value(s);
    assert!(x.is_some());

    let s = r#""real quoted"="3.14" array_complex="1 2 3" nested="[[1], [2], [3]]""#;
    let (r, _) = parse_key_value_pairs(s);
    assert_eq!(r.len(), 3);
}

#[test]
fn test_parse_1d_array() {
    let input = "5.44 0.0 0.0 0.0 5.44 0.0 0.0 0.0 5.44";
    let (x, _) = recognize_old_one_d_array(input).unwrap();
    assert_eq!(x.len(), 9);

    let input = "[5.44 0.0 0.0 0.0 5.44 0.0 0.0 0.0 5.44]";
    let (_x, _) = recognize_old_one_d_array(input).unwrap();

    let input = "{5.44 0.0 0.0 0.0 5.44 0.0 0.0 0.0 5.44}";
    let (x, _) = recognize_old_one_d_array(input).unwrap();
    assert_eq!(x.len(), 9);

    let input = "[5.44, 0.0,0.0,0.0,5.44,0.0,0.0,0.0,5.44]";
    let (x, _) = recognize_old_one_d_array(input).unwrap();
    assert_eq!(x.len(), 9);

    // bool type vector
    let input = "T T T";
    let (x, _) = recognize_old_one_d_array(input).unwrap();
    assert_eq!(x.len(), 3);

    // not a vector
    let input = "T";
    let r = recognize_old_one_d_array(input);
    assert!(r.is_err());
}

#[test]
fn test_extxyz_value() {
    let x = reformat_extxyz_value("True");
    assert_eq!(x, "true");

    let x = reformat_extxyz_value("-12.4D-5");
    assert_eq!(x, "-12.4E-5");

    let x = reformat_extxyz_value("-12");
    assert_eq!(x, "-12");

    let x = reformat_extxyz_value("T T T");
    assert_eq!(x, "[true, true, true]");
}

#[test]
fn unsigned_integer_takes_the_digits() {
    assert_eq!(recognize_unsigned_integer("042x"), Ok(("042".to_string(), 3)));
    assert_eq!(recognize_unsigned_integer("x42"), Err(ScanError::Cut));
    assert_eq!(recognize_unsigned_integer(""), Err(ScanError::Cut));
}

#[test]
fn integer_needs_digits_after_sign() {
    assert_eq!(recognize_integer("-7 rest"), Ok(("-7".to_string(), 2)));
    assert_eq!(recognize_integer("-x"), Err(ScanError::Cut));
    assert_eq!(recognize_integer("+"), Err(ScanError::Cut));
}

#[test]
fn boolean_forms() {
    assert_eq!(recognize_boolean("True"), Ok((true, 4)));
    assert_eq!(recognize_boolean("FALSE"), Ok((false, 5)));
    assert_eq!(recognize_boolean("tRuE"), Ok((true, 4)));
    assert_eq!(recognize_boolean("T T"), Ok((true, 1)));
    assert_eq!(recognize_boolean("F"), Ok((false, 1)));
    assert_eq!(recognize_boolean("Fx"), Ok((false, 1)));
    assert_eq!(recognize_boolean("yes"), Err(ScanError::Backtrack));
    assert_eq!(recognize_boolean("t"), Err(ScanError::Backtrack));
}

#[test]
fn sci_float_forms() {
    assert_eq!(recognize_sci_float("1.5e3x"), Ok(("1.5E3".to_string(), 5)));
    assert_eq!(recognize_sci_float(".5"), Ok((".5".to_string(), 2)));
    assert_eq!(recognize_sci_float("5."), Ok(("5.".to_string(), 2)));
    assert_eq!(recognize_sci_float("+2D+04"), Ok(("+2E+04".to_string(), 6)));
    assert_eq!(recognize_sci_float("."), Err(ScanError::Backtrack));
    assert_eq!(recognize_sci_float("abc"), Err(ScanError::Backtrack));
    // an exponent marker commits to an exponent
    assert_eq!(recognize_sci_float("1e"), Err(ScanError::Cut));
    assert_eq!(recognize_sci_float("1.0d+"), Err(ScanError::Cut));
}

#[test]
fn fortran_exponent_reads_as_e_exponent() {
    let (d, _) = recognize_sci_float("-12.34d-1").unwrap();
    let (upper_d, _) = recognize_sci_float("-12.34D-1").unwrap();
    let (e, _) = recognize_sci_float("-12.34e-1").unwrap();
    assert_eq!(d, e);
    assert_eq!(upper_d, e);
    assert_eq!(d.parse::<f64>().unwrap(), "-1.234".parse::<f64>().unwrap());
}

#[test]
fn single_scalar_is_not_promoted() {
    assert_eq!(reformat_extxyz_value("T"), "true");
    assert_eq!(reformat_extxyz_value("abc"), "abc");
    assert_eq!(reformat_extxyz_value("5.44"), "5.44");
    assert_eq!(reformat_extxyz_value("1e"), "1e");
    assert!(recognize_old_one_d_array("abc").is_err());
    assert!(recognize_old_one_d_array("5.44").is_err());
}

#[test]
fn legacy_array_of_nine_floats() {
    let x = reformat_extxyz_value("5.44 0.0 0.0 0.0 5.44 0.0 0.0 0.0 5.44");
    assert_eq!(x, "[5.44, 0.0, 0.0, 0.0, 5.44, 0.0, 0.0, 0.0, 5.44]");
    let (items, n) = recognize_old_one_d_array("{1,2} tail").unwrap();
    assert_eq!(items, vec!["1".to_string(), "2".to_string()]);
    assert_eq!(n, 5);
}

#[test]
fn legacy_array_elements_are_rewritten() {
    assert_eq!(reformat_extxyz_value("1d0 F abc"), "[1E0, false, abc]");
    assert_eq!(reformat_extxyz_value("[1 2]"), "[1, 2]");
    // a cut inside the list stops the rewriting
    assert_eq!(reformat_extxyz_value("1 2e"), "1 2e");
    // the list must be the whole text
    assert_eq!(reformat_extxyz_value("1 2 \"x\""), "1 2 \"x\"");
}

#[test]
fn old_style_array_rewrite() {
    assert_eq!(reformat_old_style_array("1 2"), Ok("[1, 2]".to_string()));
    assert_eq!(reformat_old_style_array("1 2 ;"), Ok("1 2 ;".to_string()));
    assert_eq!(reformat_old_style_array("1"), Err(ScanError::Backtrack));
    assert_eq!(reformat_old_style_array("1e 2"), Err(ScanError::Cut));
}

#[test]
fn key_value_token_forms() {
    assert_eq!(
        key_value("b2= F rest"),
        Some((("b2".to_string(), "F".to_string()), 5))
    );
    assert_eq!(
        key_value("\"a b\" = \"c d\""),
        Some((("a b".to_string(), "c d".to_string()), 13))
    );
    assert_eq!(key_value("k="), Some((("k".to_string(), "".to_string()), 2)));
    assert_eq!(key_value("novalue"), None);
    assert_eq!(key_value("=x"), None);
}

#[test]
fn key_value_pairs_stop_at_unparsed_text() {
    let (pairs, n) = parse_key_value_pairs("a=1  b=2 junk");
    assert_eq!(pairs.len(), 2);
    assert_eq!(pairs[1], ("b".to_string(), "2".to_string()));
    assert_eq!(n, 8);
    let (pairs, n) = parse_key_value_pairs("");
    assert!(pairs.is_empty());
    assert_eq!(n, 0);
}
