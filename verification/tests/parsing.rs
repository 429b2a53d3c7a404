use template_scan::parse::{count_newlines, parse_template, Block, NumberedInput, ScanError, Special};

/// Renders a parse as comparable plain data: on success the (line, rendering)
/// of each span, on failure the error kind's name with offset and line.
fn parse_summary(input: &[u8]) -> Result<Vec<(usize, String)>, (String, usize, usize)> {
    match parse_template(input) {
        Ok((rest, blocks)) => {
            assert_eq!(rest.input_len(), 0);
            Ok(blocks.iter().map(|b| (b.line_number, b.block.describe())).collect())
        }
        Err(e) => Err((format!("{:?}", e.error), e.offset, e.line_number)),
    }
}

fn ok_spans(pairs: &[(usize, &str)]) -> Result<Vec<(usize, String)>, (String, usize, usize)> {
    Ok(pairs.iter().map(|(n, s)| (*n, s.to_string())).collect())
}

fn stray_close_at(offset: usize, line: usize) -> Result<Vec<(usize, String)>, (String, usize, usize)>
{
    Err(("MalformedClosingDelimiter".to_string(), offset, line))
}

#[test]
fn test_simple() {
    assert_eq!(
        parse_summary(b"{{ hello }}"),
        ok_spans(&[(1, "TagCurly(Ok(\"hello\"))")])
    );
}

#[test]
fn test_separator_in_special() {
    assert_eq!(parse_summary(b"{{ {{ }}"), ok_spans(&[(1, "TagCurly(Ok(\"{{\"))")]));
    assert_eq!(parse_summary(b"{% {{ %}"), ok_spans(&[(1, "TagPercent(Ok(\"{{\"))")]));
    assert_eq!(parse_summary(b"{# {{ #}"), ok_spans(&[(1, "TagHash(Ok(\"{{\"))")]));

    assert_eq!(parse_summary(b"{{ {% }}"), ok_spans(&[(1, "TagCurly(Ok(\"{%\"))")]));
    assert_eq!(parse_summary(b"{% {% %}"), ok_spans(&[(1, "TagPercent(Ok(\"{%\"))")]));
    assert_eq!(parse_summary(b"{# {% #}"), ok_spans(&[(1, "TagHash(Ok(\"{%\"))")]));

    assert_eq!(parse_summary(b"{{ {# }}"), ok_spans(&[(1, "TagCurly(Ok(\"{#\"))")]));
    assert_eq!(parse_summary(b"{% {# %}"), ok_spans(&[(1, "TagPercent(Ok(\"{#\"))")]));
    assert_eq!(parse_summary(b"{# {# #}"), ok_spans(&[(1, "TagHash(Ok(\"{#\"))")]));

    // The outer tag's own closing token inside the body closes it early and
    // leaves a stray closing token behind.
    assert_eq!(parse_summary(b"{{ }} }}"), stray_close_at(6, 1));
    assert_eq!(parse_summary(b"{% }} %}"), ok_spans(&[(1, "TagPercent(Ok(\"}}\"))")]));
    assert_eq!(parse_summary(b"{# }} #}"), ok_spans(&[(1, "TagHash(Ok(\"}}\"))")]));

    assert_eq!(parse_summary(b"{{ %} }}"), ok_spans(&[(1, "TagCurly(Ok(\"%}\"))")]));
    assert_eq!(parse_summary(b"{% %} %}"), stray_close_at(6, 1));
    assert_eq!(parse_summary(b"{# %} #}"), ok_spans(&[(1, "TagHash(Ok(\"%}\"))")]));

    assert_eq!(parse_summary(b"{{ #} }}"), ok_spans(&[(1, "TagCurly(Ok(\"#}\"))")]));
    assert_eq!(parse_summary(b"{% #} %}"), ok_spans(&[(1, "TagPercent(Ok(\"#}\"))")]));
    assert_eq!(parse_summary(b"{# #} #}"), stray_close_at(6, 1));
}

#[test]
fn test_newlines() {
    assert_eq!(
        parse_summary(b"{{\n\n}}\n\nfoo"),
        ok_spans(&[(1, "TagCurly(Ok(\"\"))"), (3, "Plain(Ok(\"\\n\\nfoo\"))")])
    );
    assert_eq!(
        parse_summary(b"\n\n{{\n\n}}\n\nfoo"),
        ok_spans(&[
            (1, "Plain(Ok(\"\\n\\n\"))"),
            (3, "TagCurly(Ok(\"\"))"),
            (5, "Plain(Ok(\"\\n\\nfoo\"))"),
        ])
    );
    assert_eq!(
        parse_summary(b"\n\nbar{{\n bar \n}}\n\nfoo"),
        ok_spans(&[
            (1, "Plain(Ok(\"\\n\\nbar\"))"),
            (3, "TagCurly(Ok(\"bar\"))"),
            (5, "Plain(Ok(\"\\n\\nfoo\"))"),
        ])
    );
}

#[test]
fn plain_and_tag_structure() {
    let (rest, blocks) = parse_template(b"Hello {{ world }}").unwrap();
    assert_eq!(rest.input_len(), 0);
    assert_eq!(rest.line_number, 1);
    assert_eq!(blocks.len(), 2);
    assert_eq!(blocks[0].line_number, 1);
    match blocks[0].block {
        Block::Plain(x) => assert_eq!(x, b"Hello "),
        _ => panic!("first span should be plain text"),
    }
    assert_eq!(blocks[1].line_number, 1);
    match blocks[1].block {
        Block::Special(Special::TagCurly(x)) => assert_eq!(x, b"world"),
        _ => panic!("second span should be a curly tag"),
    }
}

#[test]
fn stray_closing_delimiter_is_fatal() {
    let e = parse_template(b"}} hi").unwrap_err();
    assert_eq!(e.error, ScanError::MalformedClosingDelimiter);
    assert_eq!(e.offset, 0);
    assert_eq!(e.line_number, 1);
}

#[test]
fn unterminated_tag_is_an_error() {
    let e = parse_template(b"{{ abc").unwrap_err();
    assert_eq!(e.error, ScanError::UnterminatedTag);
    assert_eq!(e.offset, 0);
    assert_eq!(e.line_number, 1);
}

#[test]
fn unterminated_tag_after_text_reports_its_position() {
    let e = parse_template(b"ab\ncd{%x").unwrap_err();
    assert_eq!(e.error, ScanError::UnterminatedTag);
    assert_eq!(e.offset, 5);
    assert_eq!(e.line_number, 2);
}

#[test]
fn empty_input_parses_to_no_spans() {
    let (rest, blocks) = parse_template(b"").unwrap();
    assert_eq!(rest.input_len(), 0);
    assert_eq!(blocks.len(), 0);
}

#[test]
fn scanner_reports_end_of_input() {
    let cur = NumberedInput { line_number: 1, i: b"" };
    let r = template_scan::parse::scan_block(&cur);
    assert_eq!(r.unwrap_err(), ScanError::EndOfInput);
}

#[test]
fn scanner_takes_one_span() {
    let cur = NumberedInput { line_number: 1, i: b"a\nb{{x}}" };
    let (nb, rest) = template_scan::parse::scan_block(&cur).unwrap();
    assert_eq!(nb.line_number, 1);
    match nb.block {
        Block::Plain(x) => assert_eq!(x, b"a\nb"),
        _ => panic!("expected a plain span"),
    }
    assert_eq!(rest.line_number, 2);
    assert_eq!(rest.input_len(), 5);
    assert_eq!(rest.i, b"{{x}}");
}

#[test]
fn lone_braces_are_plain_text() {
    // A single `{` or `}` is no delimiter token; the whole input is one
    // plain run.
    assert_eq!(parse_summary(b"a { b } c"), ok_spans(&[(1, "Plain(Ok(\"a { b } c\"))")]));
    assert_eq!(parse_summary(b"{"), ok_spans(&[(1, "Plain(Ok(\"{\"))")]));
}

#[test]
fn tag_bodies_are_trimmed() {
    assert_eq!(
        parse_summary(b"{%\t if x \n%}"),
        ok_spans(&[(1, "TagPercent(Ok(\"if x\"))")])
    );
}

#[test]
fn newline_counting_matches_a_byte_scan() {
    assert_eq!(count_newlines(b"", 0, 0), 0);
    assert_eq!(count_newlines(b"\n\n\n", 0, 3), 3);
    assert_eq!(count_newlines(b"abc", 0, 3), 0);
    assert_eq!(count_newlines(b"a\nb\n", 0, 4), 2);
    assert_eq!(count_newlines(b"a\nb\n", 1, 3), 1);
}

#[test]
fn all_whitespace_kinds_are_trimmed() {
    let (_, blocks) = parse_template(b"{{ \t\r\n x y \x0C\r\n }}").unwrap();
    assert_eq!(blocks.len(), 1);
    match blocks[0].block {
        Block::Special(Special::TagCurly(x)) => assert_eq!(x, b"x y"),
        _ => panic!("expected a curly tag"),
    }
}
