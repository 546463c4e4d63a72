use netom::cli::lex::{split_pipe, tokenize, PipeOp};

#[test]
fn tokenizes_with_offsets() {
    let toks = tokenize("show ip bgp");
    assert_eq!(toks.len(), 3);
    assert_eq!(toks[0].text, "show");
    assert_eq!(toks[0].offset, 0);
    assert_eq!(toks[2].text, "bgp");
    assert_eq!(toks[2].offset, 8);
}

#[test]
fn offsets_survive_irregular_spacing() {
    let toks = tokenize("   show    ip ");
    assert_eq!(toks[0].offset, 3);
    assert_eq!(toks[1].offset, 11);
}

#[test]
fn offsets_count_octets() {
    let toks = tokenize("é ü x");
    assert_eq!(toks[1].offset, 3);
    assert_eq!(toks[2].offset, 6);
}

#[test]
fn empty_line_has_no_tokens() {
    assert!(tokenize("   ").is_empty());
}

#[test]
fn splits_output_filter() {
    let (cmd, pipe) = split_pipe("show ingresses | include bgp");
    assert_eq!(cmd.trim(), "show ingresses");
    let pipe = pipe.unwrap();
    assert_eq!(pipe.op, PipeOp::Include);
    assert_eq!(pipe.pattern, "bgp");
}

#[test]
fn accepts_abbreviated_filter_verbs() {
    let (_, pipe) = split_pipe("show ingresses | inc bgp");
    assert_eq!(pipe.unwrap().op, PipeOp::Include);
    let (_, pipe) = split_pipe("show ingresses | exc bmp");
    assert_eq!(pipe.unwrap().op, PipeOp::Exclude);
}

#[test]
fn count_needs_no_pattern() {
    let (cmd, pipe) = split_pipe("show ingresses | count");
    assert_eq!(cmd.trim(), "show ingresses");
    assert_eq!(pipe.unwrap().op, PipeOp::Count);
}

#[test]
fn multi_word_pattern_is_kept_whole() {
    let (_, pipe) = split_pipe("show status | include bgp tcp in");
    assert_eq!(pipe.unwrap().pattern, "bgp tcp in");
}

#[test]
fn malformed_filter_stays_in_the_command() {
    let (cmd, pipe) = split_pipe("show status | frobnicate x");
    assert!(cmd.contains('|'));
    assert!(pipe.is_none());

    let (cmd, pipe) = split_pipe("show status |");
    assert!(cmd.contains('|'));
    assert!(pipe.is_none());
}

#[test]
fn no_filter_is_the_common_case() {
    let (cmd, pipe) = split_pipe("show ip bgp summary");
    assert_eq!(cmd, "show ip bgp summary");
    assert!(pipe.is_none());
}
