use extxyz::{Context, RawAtom, RawAtoms};

#[test]
fn test_parse_extxyz_frame() {
    let input = "C        3.66613204       0.98814863       0.17310000";
    let atom = RawAtom::parse_from(input).unwrap();
    assert_eq!(atom.element, "C");

    let input = "C        3.66613204       0.98814863D0     0.17310000 extra F\n";
    let atom = RawAtom::parse_from(input).unwrap();
    assert_eq!(atom.extra, "extra F");

    let input = r#" 128
comment
C        3.66613204       0.98814863       0.17310000
C        1.89018534       2.42153712       3.34052440
C        2.66063880       4.93469322       3.30108500
 "#;
    let atoms = RawAtoms::parse_from(input).unwrap();
    assert_eq!(atoms.natoms, 128);
    assert_eq!(atoms.atoms.len(), 3);
}

#[test]
fn atom_line_fields() {
    let atom = RawAtom::parse_from("  26 1.0 -2.5e-1 3d2   0.5 T\r\n").unwrap();
    assert_eq!(atom.element, "26");
    assert_eq!(atom.position[0], "1.0");
    assert_eq!(atom.position[1], "-2.5E-1");
    assert_eq!(atom.position[2], "3E2");
    assert_eq!(atom.position[2].parse::<f64>().unwrap(), 300.0);
    assert_eq!(atom.extra, "0.5 T");
    let atom = RawAtom::parse_from("H 0 0 0").unwrap();
    assert_eq!(atom.extra, "");
}

#[test]
fn atom_line_errors() {
    let e = RawAtom::parse_from("1.5 0 0 0").unwrap_err();
    assert_eq!(e.context, Context::ElementSymbol);
    let e = RawAtom::parse_from("C 1.0 2.0").unwrap_err();
    assert_eq!(e.context, Context::Coordinates);
    assert_eq!(e.remainder, "1.0 2.0");
    let e = RawAtom::parse_from("C 1.0 2.0 3e").unwrap_err();
    assert_eq!(e.context, Context::Coordinates);
    let e = RawAtom::parse_from("C 1 2 3 x\ry").unwrap_err();
    assert_eq!(e.context, Context::AtomExtra);
    let e = RawAtom::parse_from("C 1 2 3\nH 1 2 3").unwrap_err();
    assert_eq!(e.context, Context::TrailingText);
    assert_eq!(e.remainder, "\nH 1 2 3");
    assert_eq!(e.input, "C 1 2 3\nH 1 2 3");
}

#[test]
fn frame_with_crlf_and_fewer_atoms_than_declared() {
    let frames = RawAtoms::parse_from("5\r\nLattice=\"1 0 0 0 1 0 0 0 1\"\r\nO 0 0 0\r\nH 0 0 1\r\n").unwrap();
    assert_eq!(frames.natoms, 5);
    assert_eq!(frames.comment, "Lattice=\"1 0 0 0 1 0 0 0 1\"");
    assert_eq!(frames.atoms.len(), 2);
    assert_eq!(frames.atoms[1].element, "H");
}

#[test]
fn frame_errors() {
    let e = RawAtoms::parse_from("x\ncomment\nH 0 0 0").unwrap_err();
    assert_eq!(e.context, Context::AtomCount);
    let e = RawAtoms::parse_from("99999999999999999999999\nc\nH 0 0 0").unwrap_err();
    assert_eq!(e.context, Context::AtomCount);
    let e = RawAtoms::parse_from("1\ncomment").unwrap_err();
    assert_eq!(e.context, Context::CommentLine);
    assert_eq!(e.remainder, "comment");
    let e = RawAtoms::parse_from("2\ncomment\nH 0 0 0\nbad line").unwrap_err();
    assert_eq!(e.context, Context::Coordinates);
    assert_eq!(e.remainder, "line");
    let e = RawAtoms::parse_from("2\ncomment\nH 0 0 0\n.5 0 0 0").unwrap_err();
    assert_eq!(e.context, Context::ElementSymbol);
    assert_eq!(e.remainder, ".5 0 0 0");
    let e = RawAtoms::parse_from("2\n\nH 0 0").unwrap_err();
    assert_eq!(e.context, Context::Coordinates);
}

#[test]
fn zero_count_frame_still_needs_an_atom_line() {
    assert!(RawAtoms::parse_from("0\ncomment\n").is_err());
    let f = RawAtoms::parse_from("0\n\nH 0 0 0").unwrap();
    assert_eq!(f.natoms, 0);
    assert_eq!(f.comment, "");
    assert!(!f.atoms.is_empty());
}
