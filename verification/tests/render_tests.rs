use factor_trace::Digits;
use factor_trace::VerboseFactoring;
use factor_trace::render::summary_line;

fn d(n: u64) -> Digits {
    Digits::from_u64(n)
}

const HOME: &str = "\u{1b}[1;1H";
const CLEAR: &str = "\u{1b}[J";
const GREEN: &str = "\u{1b}[38;5;2m";
const RED: &str = "\u{1b}[38;5;1m";
const RESET: &str = "\u{1b}[39m";
const BOLD: &str = "\u{1b}[1m";
const NOBOLD: &str = "\u{1b}[21m";
const GRAY: &str = "\u{1b}[38;2;120;120;120m";

#[test]
fn rendering_twice_is_byte_identical() {
    let mut t = VerboseFactoring::new(d(12), true);
    t.factorized(&d(12), &vec![], &vec![], &vec![d(2), d(6)]);
    assert_eq!(t.print_state(), t.print_state());
    let mut s = VerboseFactoring::new(d(12), false);
    s.factorized(&d(12), &vec![], &vec![], &vec![d(2), d(6)]);
    assert_eq!(s.print_state(), s.print_state());
}

#[test]
fn styles_match_termion() {
    assert_eq!(GREEN, termion::color::Green.fg_str());
    assert_eq!(RED, termion::color::Red.fg_str());
    assert_eq!(RESET, termion::color::Reset.fg_str());
    assert_eq!(GRAY, termion::color::Rgb(120, 120, 120).fg_string());
    assert_eq!(HOME, format!("{}", termion::cursor::Goto(1, 1)));
    assert_eq!(CLEAR, format!("{}", termion::clear::AfterCursor));
    assert_eq!(BOLD, format!("{}", termion::style::Bold));
    assert_eq!(NOBOLD, format!("{}", termion::style::NoBold));
}

#[test]
fn succinct_frame_omits_composite_section_when_no_leaf_remains() {
    // One pending value and no unexpanded composite: only the prime and
    // pending sections appear.
    let mut t = VerboseFactoring::new(d(12), false);
    t.factorized(&d(12), &vec![], &vec![], &vec![d(7)]);
    let frame = t.print_state();
    let expected = format!(
        "{}{}Prime factors: [{}{}]\n\r\n\rFactors being checked for primality: [7]\n\r",
        HOME, CLEAR, GREEN, RESET,
    );
    assert_eq!(frame, expected.into_bytes());
    let text = String::from_utf8(frame).unwrap();
    assert!(!text.contains("Composite factors"));
    assert!(text.contains("Factors being checked for primality"));
}

#[test]
fn succinct_frame_lists_unexpanded_composites_in_red() {
    let mut t = VerboseFactoring::new(d(60), false);
    t.factorized(&d(60), &vec![d(2)], &vec![d(30)], &vec![]);
    let frame = t.print_state();
    let expected = format!(
        "{}{}Prime factors: [{}2{}]\n\r\n\rComposite factors: [{}30{}]\n\r",
        HOME, CLEAR, GREEN, RESET, RED, RESET,
    );
    assert_eq!(frame, expected.into_bytes());
}

#[test]
fn fresh_tracker_renders_root_as_bold_red_leaf_in_historical_mode() {
    let t = VerboseFactoring::new(d(12), true);
    let frame = t.print_state();
    let expected = format!("{}{}{}{}12{}{}\n\r", HOME, CLEAR, RED, BOLD, NOBOLD, RESET);
    assert_eq!(frame, expected.into_bytes());
}

#[test]
fn historical_frame_shows_tree_and_summary() {
    let mut t = VerboseFactoring::new(d(12), true);
    t.factorized(&d(12), &vec![d(3)], &vec![d(4)], &vec![]);
    let frame = t.print_state();
    let expected = format!(
        "{}{}{}12{}\n\r      {}3{} {}4{} \n\r{}{}4{}{}\n\r\n\rFound prime divisors: [{}3{}]\n\r",
        HOME, CLEAR, GRAY, RESET, GREEN, RESET, RED, RESET, RED, BOLD, NOBOLD, RESET, GREEN,
        RESET,
    );
    assert_eq!(frame, expected.into_bytes());
}

#[test]
fn summary_line_joins_factors_with_spaces() {
    let line = summary_line(&d(12), &vec![d(2), d(2), d(3)]);
    assert_eq!(line, b"12: 2 2 3".to_vec());
    let empty = summary_line(&d(7), &vec![d(7)]);
    assert_eq!(empty, b"7: 7".to_vec());
}
