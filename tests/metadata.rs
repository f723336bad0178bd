use extxyz::{
    parse_extxyz_title, parse_property_values, ColumnValue, Context, Info, PropertyValueType,
    Scalar,
};

fn one_real(c: &ColumnValue) -> f64 {
    match c {
        ColumnValue::One(Scalar::Real(t)) => t.parse::<f64>().unwrap(),
        _ => panic!("not a real value: {:?}", c),
    }
}

fn reals(c: &ColumnValue) -> Vec<f64> {
    match c {
        ColumnValue::Many(xs) => xs
            .iter()
            .map(|x| match x {
                Scalar::Real(t) => t.parse::<f64>().unwrap(),
                _ => panic!("not a real value: {:?}", x),
            })
            .collect(),
        _ => panic!("not a list: {:?}", c),
    }
}

#[test]
fn test_parse_properties() {
    let input = "species:S:1:pos:R:3";
    let (properties, _) = parse_property_values(input).unwrap();
    assert_eq!(properties.len(), 2);
}

#[test]
fn test_parse_extxyz_title() {
    let s = r#"Lattice="5.44 0.0 0.0 0.0 5.44 0.0 0.0 0.0 5.44" Properties=species:S:1:pos:R:3 Time=0.0 pbc="T T T""#;
    let info = parse_extxyz_title(s).unwrap();
    assert_eq!(info.get("Time").unwrap(), &0.0);
    assert_eq!(info.get("pbc").unwrap()[0], true);

    let s = r#"s=string b1=True b2= F real=3.14 integer=-314 array="[1,2,3]""#;
    let info = parse_extxyz_title(s).unwrap();
    assert_eq!(info.get("real").unwrap(), &3.14);
    assert_eq!(info.get("s").unwrap(), "string");
    assert_eq!(info.get("integer").unwrap(), &-314);
    assert_eq!(info.get("b1").unwrap(), &true);
    assert_eq!(info.get("b2").unwrap(), &false);
    assert_eq!(info.get("array").unwrap()[0], 1);

    let s = r#""real quoted"="3.14" array="1.2 2 3" nested="[[1], [2], [3]]" special="1 2 T""#;
    let info = parse_extxyz_title(s).unwrap();
    assert_eq!(info.get("real quoted").unwrap(), &3.14);
    assert_eq!(info.get("array").unwrap()[0], 1.2);
    assert_eq!(info.get("nested").unwrap()[0][0], 1);
    assert_eq!(info.get("special").unwrap()[0], 1);
    assert_eq!(info.get("special").unwrap()[2], true);

    let s = r#"Lattice="10.83 0.0 0.0 0.0 10.83 0.0 0.0 0.0 10.83" Properties=forces:R:3:energies:R:1 user-data="_JSON [1, 2, 3]" energy=0.634"#;
    let info = parse_extxyz_title(s).unwrap();
    assert!(info.get("user-data").unwrap()[0].is_u64());
}

#[test]
fn test_extxyz_info() {
    let s = r#"Lattice="5.44 0.0 0.0 0.0 5.44 0.0 0.0 0.0 5.44" Properties=species:S:1:pos:R:3:forces:R:3:freeze:L:1 Time=0.0"#;
    let info: Info = s.parse().unwrap();
    assert_eq!(info.get("Time").unwrap(), &0.0);
    assert_eq!(info.get("Lattice").unwrap()[0], 5.44);

    let extra = "       0.03244218       0.02902981      -0.00495554 F";
    let atom_properties = info.parse_extra_columns(extra).unwrap();
    assert_eq!(reals(atom_properties.get("forces").unwrap())[0], 0.03244218);
    assert!(matches!(
        atom_properties.get("freeze").unwrap(),
        ColumnValue::One(Scalar::Logical(false))
    ));
}

#[test]
fn time_is_a_float_and_lattice_an_array() {
    let s = r#"Lattice="5.44 0.0 0.0 0.0 5.44 0.0 0.0 0.0 5.44" Properties=species:S:1:pos:R:3 Time=0.0"#;
    let info = parse_extxyz_title(s).unwrap();
    assert!(info.get("Time").unwrap().is_f64());
    assert_eq!(info.get("Time").unwrap().as_f64(), Some(0.0));
    let lattice = info.get("Lattice").unwrap().as_array().unwrap();
    assert_eq!(lattice.len(), 9);
    assert_eq!(lattice[0], 5.44);
    assert_eq!(lattice[4], 5.44);
}

#[test]
fn forces_and_freeze_from_extra_columns() {
    let s = "Properties=species:S:1:pos:R:3:forces:R:3:freeze:L:1";
    let info = parse_extxyz_title(s).unwrap();
    let cols = info.parse_extra_columns("0.03244218 0.02902981 -0.00495554 F").unwrap();
    assert_eq!(
        reals(cols.get("forces").unwrap()),
        vec![0.03244218, 0.02902981, -0.00495554]
    );
    assert!(matches!(cols.get("freeze").unwrap(), ColumnValue::One(Scalar::Logical(false))));
    assert!(cols.get("species").is_none());
    assert!(cols.get("pos").is_none());
    assert_eq!(cols.entries().len(), 2);
}

#[test]
fn quoted_key_with_space() {
    let info = parse_extxyz_title(r#""real quoted"="3.14""#).unwrap();
    assert_eq!(info.get("real quoted").unwrap(), &3.14);
    assert!(info.get("real").is_none());
}

#[test]
fn json_marker_value() {
    let info = parse_extxyz_title(r#"user-data="_JSON [1, 2, 3]""#).unwrap();
    let v = info.get("user-data").unwrap();
    assert!(v.is_array());
    assert_eq!(v, &serde_json::Value::from(vec![1, 2, 3]));
}

#[test]
fn value_that_is_no_json_stays_text() {
    let info = parse_extxyz_title("a=+12 b=1. c=abc d=\"\" e=").unwrap();
    assert_eq!(info.get("a").unwrap(), "+12");
    assert_eq!(info.get("b").unwrap(), "1.");
    assert_eq!(info.get("c").unwrap(), "abc");
    assert_eq!(info.get("d").unwrap(), "");
    assert_eq!(info.get("e").unwrap(), "");
    // a value that decodes to no JSON is kept verbatim
    let info = parse_extxyz_title("x=\"1.2 2 some\" y=1").unwrap();
    assert_eq!(info.get("x").unwrap(), "1.2 2 some");
    assert_eq!(info.get("y").unwrap(), &1);
    let info = parse_extxyz_title("z=\"_JSON [1,\"").unwrap();
    assert_eq!(info.get("z").unwrap(), "_JSON [1,");
}

#[test]
fn later_key_overrides_and_pop_removes() {
    let mut info = parse_extxyz_title("a=1 b=2 a=3").unwrap();
    assert_eq!(info.get("a").unwrap(), &3);
    assert_eq!(info.pop("a"), Some(serde_json::Value::from(3)));
    assert!(info.get("a").is_none());
    assert_eq!(info.pop("a"), None);
    assert_eq!(info.get("b").unwrap(), &2);
}

#[test]
fn raw_map_views_and_edits_the_dictionary() {
    let mut info = parse_extxyz_title("a=1 b=T").unwrap();
    assert_eq!(info.raw_map().len(), 2);
    assert_eq!(info.raw_map()["b"], true);
    info.raw_map_mut().insert("c".to_string(), serde_json::Value::from("x"));
    assert_eq!(info.get("c").unwrap(), "x");
    let copy = info.clone();
    assert_eq!(copy.raw_map(), info.raw_map());
}

#[test]
fn comment_line_via_from_str() {
    let info: Info = "Time=0.0 \"real quoted\"=\"3.14\" user-data=\"_JSON [1, 2, 3]\"".parse().unwrap();
    assert!(info.get("Time").unwrap().is_f64());
    assert_eq!(info.get("real quoted").unwrap(), &3.14);
    assert_eq!(info.get("user-data").unwrap(), &serde_json::Value::from(vec![1, 2, 3]));
    assert!("a".parse::<Info>().is_err());
    assert!("=1".parse::<Info>().is_err());
}

#[test]
fn empty_comment_gives_empty_info() {
    let info = parse_extxyz_title("").unwrap();
    assert!(info.get("anything").is_none());
    assert!(info.raw_map().is_empty());
    assert!(Info::default().raw_map().is_empty());
}

#[test]
fn comment_that_is_not_key_value_fails() {
    let e = parse_extxyz_title("a=1 comment").unwrap_err();
    assert_eq!(e.context, Context::KeyValuePairs);
    assert_eq!(e.remainder, " comment");
    assert_eq!(e.input, "a=1 comment");
    let e = parse_extxyz_title("a=1 ").unwrap_err();
    assert_eq!(e.remainder, " ");
    let e = " a=1".parse::<Info>().unwrap_err();
    assert_eq!(e.remainder, " a=1");
}

#[test]
fn properties_layout() {
    let (props, n) = parse_property_values("species:S:1:pos:R:3:forces:R:3 x").unwrap();
    assert_eq!(n, 30);
    assert_eq!(props.len(), 3);
    assert_eq!(props[2].name, "forces");
    assert_eq!(props[2].value_type, PropertyValueType::Real);
    assert_eq!(props[2].num_columns, 3);
    assert_eq!(props[0].value_type, PropertyValueType::String);
    assert!(parse_property_values("species:X:1").is_err());
    assert!(parse_property_values("species:S:0").is_err());
    assert!(parse_property_values(":S:1").is_err());
    assert_eq!(PropertyValueType::new('L'), PropertyValueType::Logical);
    assert_eq!(PropertyValueType::new('I'), PropertyValueType::Integer);
}

#[test]
fn default_properties_without_key() {
    let info = parse_extxyz_title("energy=1.5").unwrap();
    let props = info.get_properties().unwrap();
    assert_eq!(props.len(), 2);
    assert_eq!(props[0].name, "species");
    assert_eq!(props[1].name, "pos");
    let cols = info.parse_extra_columns("anything at all").unwrap();
    assert!(cols.entries().is_empty());
}

#[test]
fn malformed_properties_fail() {
    let info = parse_extxyz_title("Properties=species:S:1:pos:R").unwrap();
    let e = info.get_properties().unwrap_err();
    assert_eq!(e.context, Context::PropertySpec);
    assert_eq!(e.input, "species:S:1:pos:R");
    assert_eq!(e.remainder, ":pos:R");
    let e = info.parse_extra_columns("1.0").unwrap_err();
    assert_eq!(e.context, Context::PropertySpec);
}

#[test]
fn non_string_properties_fall_back_to_default() {
    let info = parse_extxyz_title("Properties=3").unwrap();
    let props = info.get_properties().unwrap();
    assert_eq!(props.len(), 2);
}

#[test]
fn typed_extra_columns() {
    let info = parse_extxyz_title("Properties=species:S:1:pos:R:3:tag:S:1:id:I:1:ids:I:2:q:R:1").unwrap();
    let cols = info.parse_extra_columns("  H_1  -42 +7 008 2.5d1  trailing").unwrap();
    assert!(matches!(cols.get("tag").unwrap(), ColumnValue::One(Scalar::Str(t)) if t == "H_1"));
    assert!(matches!(cols.get("id").unwrap(), ColumnValue::One(Scalar::Integer(-42))));
    match cols.get("ids").unwrap() {
        ColumnValue::Many(xs) => {
            assert!(matches!(xs[0], Scalar::Integer(7)));
            assert!(matches!(xs[1], Scalar::Integer(8)));
        }
        other => panic!("not a list: {:?}", other),
    }
    assert_eq!(one_real(cols.get("q").unwrap()), 25.0);
}

#[test]
fn extra_columns_errors() {
    let info = parse_extxyz_title("Properties=species:S:1:pos:R:3:forces:R:3").unwrap();
    let e = info.parse_extra_columns("1.0 2.0").unwrap_err();
    assert_eq!(e.context, Context::ExtraColumns);
    assert_eq!(e.remainder, "1.0 2.0");
    assert_eq!(e.input, "species:S:1:pos:R:3:forces:R:3");
    let e = info.parse_extra_columns("1.0 x 2.0").unwrap_err();
    assert_eq!(e.context, Context::ExtraColumns);
    let info = parse_extxyz_title("Properties=n:I:1").unwrap();
    assert!(info.parse_extra_columns("99999999999999999999").is_err());
    assert!(info.parse_extra_columns("-9223372036854775808").is_ok());
}
