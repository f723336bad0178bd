use extxyz::{
    atom_count_of, read_xyz_frames_direct, selected_frames, Context, FrameAction, FrameSelection,
    RawAtoms, TextReader,
};

const TRAJECTORY: &str = "2\nframe 0\nH 0 0 0\nH 0 0 1\n1\nframe 1\nO 1 1 1\n3\nframe 2\nC 0 0 0\nC 1 0 0\nC 2 0 0\n";

fn run(selection: &mut FrameSelection, requests: &[usize]) -> Vec<FrameAction> {
    requests
        .iter()
        .map(|j| selection.next_action(Some(*j)))
        .collect()
}

#[test]
fn selection_reads_requested_frames_in_order() {
    let mut s = FrameSelection::new(5);
    assert_eq!(
        run(&mut s, &[3, 0, 4]),
        vec![FrameAction::Read(3), FrameAction::Read(0), FrameAction::Read(4)]
    );
}

#[test]
fn selection_stops_at_first_index_past_the_end() {
    let mut s = FrameSelection::new(3);
    assert_eq!(
        run(&mut s, &[1, 3, 0, 2]),
        vec![FrameAction::Read(1), FrameAction::Stop, FrameAction::Stop, FrameAction::Stop]
    );
    let mut s = FrameSelection::new(3);
    assert_eq!(s.next_action(None), FrameAction::Stop);
    assert_eq!(s.next_action(Some(0)), FrameAction::Stop);
}

#[test]
fn strided_selection_count() {
    // every 2nd frame from 100 over 105 frames: ceil((105 - 100) / 2) = 3
    let mut s = FrameSelection::new(105);
    let mut read = Vec::new();
    for j in (100..).step_by(2) {
        match s.next_action(Some(j)) {
            FrameAction::Read(k) => read.push(k),
            FrameAction::Stop => break,
        }
    }
    assert_eq!(read, vec![100, 102, 104]);
    let mut s = FrameSelection::new(50);
    assert_eq!(s.next_action(Some(100)), FrameAction::Stop);
}

#[test]
fn selection_is_repeatable() {
    let requests = [4, 1, 7, 2];
    let first = run(&mut FrameSelection::new(6), &requests);
    let second = run(&mut FrameSelection::new(6), &requests);
    assert_eq!(first, second);
}

#[test]
fn text_reader_lines_and_rest() {
    let mut r = TextReader::new("a\r\nbc\nlast".as_bytes());
    let mut buf = String::new();
    assert_eq!(r.read_line(&mut buf), Some(3));
    assert_eq!(buf, "a\r\n");
    assert_eq!(r.read_line(&mut buf), Some(3));
    assert_eq!(buf, "a\r\nbc\n");
    let mut rest = String::new();
    assert_eq!(r.read_to_string(&mut rest).unwrap(), 4);
    assert_eq!(rest, "last");
    assert_eq!(r.read_line(&mut buf), None);

    let mut lines = TextReader::new("x\r\ny\n\nz".as_bytes()).lines();
    let mut got = Vec::new();
    while let Some(line) = lines.next_line() {
        got.push(line.unwrap());
    }
    assert_eq!(got, vec!["x", "y", "", "z"]);
}

#[test]
fn atom_count_line() {
    assert_eq!(atom_count_of(" 12 \n"), Some(12));
    assert_eq!(atom_count_of("+3"), Some(3));
    assert_eq!(atom_count_of("-3"), None);
    assert_eq!(atom_count_of("3 atoms"), None);
    assert_eq!(atom_count_of(""), None);
}

#[test]
fn direct_frames_follow_the_counts() {
    let mut frames = read_xyz_frames_direct(TextReader::new(TRAJECTORY.as_bytes()));
    let mut texts = Vec::new();
    while let Some(t) = frames.next_frame() {
        texts.push(t);
    }
    assert_eq!(texts.len(), 3);
    assert_eq!(texts[1], "1\nframe 1\nO 1 1 1\n");
    for t in &texts {
        let f = RawAtoms::parse_from(t).unwrap();
        assert_eq!(f.natoms, f.atoms.len());
        assert!(!f.atoms.is_empty());
    }
    let mut short = read_xyz_frames_direct(TextReader::new("3\nc\nH 0 0 0\n".as_bytes()));
    assert_eq!(short.next_frame(), None);
}

#[test]
fn selected_frames_runs_a_selection() {
    assert_eq!(selected_frames(5, &vec![3, 0, 4, 5, 1]), vec![3, 0, 4]);
    let strided: Vec<usize> = (100..120).step_by(2).collect();
    assert_eq!(selected_frames(105, &strided), vec![100, 102, 104]);
    assert_eq!(selected_frames(105, &strided), selected_frames(105, &strided));
    assert!(selected_frames(0, &vec![0]).is_empty());
}

#[test]
fn context_labels() {
    assert_eq!(Context::AtomCount.label(), "num of atoms");
    assert_eq!(Context::ElementSymbol.label(), "element symbol or number");
    assert_eq!(Context::Coordinates.label(), "xyz coords");
    assert_eq!(Context::ExtraColumns.label(), "extra columns");
}
