use netom::cli::lex::{Pipe, PipeOp};
use netom::cli::lines::LineReader;
use netom::cli::pipe::LineFilter;

fn run(op: PipeOp, pattern: &str, input: &str) -> String {
    let pipe = Pipe { op, pattern: pattern.to_string() };
    let mut f = LineFilter::new(&pipe);
    f.write(input.as_bytes());
    let out = f.finish();
    String::from_utf8(out).unwrap()
}

#[test]
fn include_keeps_only_matching_lines() {
    let out = run(PipeOp::Include, "bgp", "a bgp x\nbmp y\nBGP z\n");
    assert_eq!(out, "a bgp x\nBGP z\n");
}

#[test]
fn exclude_drops_matching_lines() {
    let out = run(PipeOp::Exclude, "bmp", "a bgp x\nbmp y\n");
    assert_eq!(out, "a bgp x\n");
}

#[test]
fn begin_passes_everything_from_the_first_hit() {
    let out = run(PipeOp::Begin, "two", "one\ntwo\nthree\n");
    assert_eq!(out, "two\nthree\n");
}

#[test]
fn count_reports_the_total_and_suppresses_lines() {
    let out = run(PipeOp::Count, "", "one\ntwo\nthree\n");
    assert_eq!(out, "Number of lines which match: 3\n");
}

#[test]
fn a_trailing_line_without_a_newline_is_not_lost() {
    let out = run(PipeOp::Include, "x", "ax\nbx");
    assert_eq!(out, "ax\nbx\n");
}

#[test]
fn matching_ignores_case_both_ways() {
    let out = run(PipeOp::Include, "BGP", "a bgp x\n");
    assert_eq!(out, "a bgp x\n");
}

#[test]
fn matching_ignores_case_beyond_ascii() {
    let out = run(PipeOp::Include, "ÄRGER", "viel ärger\nkeiner\n");
    assert_eq!(out, "viel ärger\n");
}

#[test]
fn works_across_arbitrary_write_boundaries() {
    let pipe = Pipe { op: PipeOp::Include, pattern: "bgp".into() };
    let mut f = LineFilter::new(&pipe);
    f.write(b"a b");
    f.write(b"gp x\nbmp");
    f.write(b" y\n");
    let out = String::from_utf8(f.finish()).unwrap();
    assert_eq!(out, "a bgp x\n");
}

#[test]
fn passed_lines_can_be_taken_early() {
    let pipe = Pipe { op: PipeOp::Include, pattern: "x".into() };
    let mut f = LineFilter::new(&pipe);
    f.write(b"ax\nb");
    assert_eq!(f.take_passed(), b"ax\n");
    f.write(b"x\n");
    assert_eq!(f.finish(), b"bx\n");
}

#[test]
fn octets_that_are_no_text_do_not_stop_the_filter() {
    let pipe = Pipe { op: PipeOp::Include, pattern: "ok".into() };
    let mut f = LineFilter::new(&pipe);
    f.write(b"\xff ok\nno\n");
    assert_eq!(f.finish(), b"\xff ok\n");
}

#[test]
fn lines_of_a_stream_come_without_their_ends() {
    let mut reader = LineReader::new();
    assert_eq!(reader.feed(b"a\r\nb"), vec![b"a".to_vec()]);
    assert_eq!(reader.feed(b"c\n\nd\r"), vec![b"bc".to_vec(), b"".to_vec()]);
    assert_eq!(reader.finish(), Some(b"d\r".to_vec()));
    assert_eq!(LineReader::new().finish(), None);
}

#[test]
fn a_filter_keeps_lines_however_they_are_cut() {
    let input = "one\nTWO\n\nthree two";
    for (op, expected) in [
        (PipeOp::Include, "TWO\nthree two\n"),
        (PipeOp::Exclude, "one\n\n"),
        (PipeOp::Begin, "TWO\n\nthree two\n"),
        (PipeOp::Count, "Number of lines which match: 4\n"),
    ] {
        for size in 1..input.len() {
            let mut f = LineFilter::new(&Pipe { op, pattern: "two".to_string() });
            for part in input.as_bytes().chunks(size) {
                f.write(part);
            }
            assert_eq!(f.finish(), expected.as_bytes());
        }
    }
}
