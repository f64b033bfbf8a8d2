use csv_stream::error::ParseError;
use csv_stream::parser::SkipComments;
use csv_stream::{CsvParser, HeadersOption, JsCsvParserOptions, LabeledRow};

fn entries(row: &LabeledRow) -> Vec<(String, String)> {
    (0..row.len())
        .map(|i| (row.label(i).clone(), row.value(i).clone()))
        .collect()
}

fn all_entries(rows: &[LabeledRow]) -> Vec<Vec<(String, String)>> {
    rows.iter().map(entries).collect()
}

fn pair(label: &str, value: &str) -> (String, String) {
    (label.to_string(), value.to_string())
}

fn numbered() -> Option<JsCsvParserOptions> {
    Some(JsCsvParserOptions {
        headers: Some(HeadersOption::Boolean(false)),
        ..JsCsvParserOptions::default()
    })
}

fn utf16le(text: &str) -> Vec<u8> {
    let mut bytes = vec![0xFF, 0xFE];
    for unit in text.encode_utf16() {
        bytes.extend_from_slice(&unit.to_le_bytes());
    }
    bytes
}

fn utf16be(text: &str) -> Vec<u8> {
    let mut bytes = vec![0xFE, 0xFF];
    for unit in text.encode_utf16() {
        bytes.extend_from_slice(&unit.to_be_bytes());
    }
    bytes
}

#[test]
fn single_row_comes_out_as_its_cells() {
    let mut parser = CsvParser::new(numbered());
    let rows = parser.push(b"a,\"b,c\",\"d\"\"e\"\n").unwrap();
    assert_eq!(
        all_entries(&rows),
        vec![vec![pair("0", "a"), pair("1", "b,c"), pair("2", "d\"e")]]
    );
    assert!(parser.finish().unwrap().is_empty());
}

#[test]
fn first_row_names_the_columns_by_default() {
    let mut parser = CsvParser::new(None);
    assert!(parser.get_headers().is_none());
    let rows = parser.push(b"name,age\nJohn,30\n").unwrap();
    assert_eq!(
        parser.get_headers(),
        Some(vec!["name".to_string(), "age".to_string()])
    );
    assert_eq!(all_entries(&rows), vec![vec![pair("name", "John"), pair("age", "30")]]);
}

#[test]
fn headers_true_is_the_default() {
    let mut parser = CsvParser::new(Some(JsCsvParserOptions {
        headers: Some(HeadersOption::Boolean(true)),
        ..JsCsvParserOptions::default()
    }));
    let rows = parser.push(b"name,age\nJohn,30\n").unwrap();
    assert_eq!(all_entries(&rows), vec![vec![pair("name", "John"), pair("age", "30")]]);
}

#[test]
fn empty_header_list_numbers_the_columns() {
    let mut parser = CsvParser::new(Some(JsCsvParserOptions {
        headers: Some(HeadersOption::List(vec![])),
        ..JsCsvParserOptions::default()
    }));
    let rows = parser.push(b"1,2\n3,4\n").unwrap();
    assert_eq!(
        parser.get_headers(),
        Some(vec!["0".to_string(), "1".to_string()])
    );
    assert_eq!(
        all_entries(&rows),
        vec![
            vec![pair("0", "1"), pair("1", "2")],
            vec![pair("0", "3"), pair("1", "4")]
        ]
    );
}

#[test]
fn given_labels_are_in_force_from_the_start() {
    let mut parser = CsvParser::new(Some(JsCsvParserOptions {
        headers: Some(HeadersOption::List(vec!["x".to_string(), "y".to_string()])),
        ..JsCsvParserOptions::default()
    }));
    assert_eq!(
        parser.get_headers(),
        Some(vec!["x".to_string(), "y".to_string()])
    );
    let rows = parser.push(b"1,2\n").unwrap();
    assert_eq!(all_entries(&rows), vec![vec![pair("x", "1"), pair("y", "2")]]);
}

#[test]
fn strict_failure_after_a_row_is_kept_for_the_next_call() {
    let mut parser = CsvParser::new(Some(JsCsvParserOptions {
        strict: Some(true),
        headers: Some(HeadersOption::List(vec!["a".to_string(), "b".to_string()])),
        ..JsCsvParserOptions::default()
    }));
    let rows = parser.push(b"1,2\n1,2,3\n").unwrap();
    assert_eq!(all_entries(&rows), vec![vec![pair("a", "1"), pair("b", "2")]]);
    // The next call reports the failure and does not take its chunk.
    assert_eq!(parser.push(b"5,6\n").unwrap_err(), ParseError::SchemaMismatchError);
    // It is reported once.
    let rows = parser.push(b"7,8\n").unwrap();
    assert_eq!(all_entries(&rows), vec![vec![pair("a", "7"), pair("b", "8")]]);
}

#[test]
fn failure_before_any_row_is_reported_at_once() {
    let mut parser = CsvParser::new(Some(JsCsvParserOptions {
        strict: Some(true),
        headers: Some(HeadersOption::List(vec!["a".to_string(), "b".to_string()])),
        ..JsCsvParserOptions::default()
    }));
    assert_eq!(
        parser.push(b"1,2,3\n4,5\npart").unwrap_err(),
        ParseError::SchemaMismatchError
    );
    // The complete rows behind the failure went with it; the unfinished row stays.
    let rows = parser.push(b"ial,x\n").unwrap();
    assert_eq!(all_entries(&rows), vec![vec![pair("a", "partial"), pair("b", "x")]]);
}

#[test]
fn kept_failure_is_reported_by_finish_too() {
    let mut parser = CsvParser::new(Some(JsCsvParserOptions {
        strict: Some(true),
        headers: Some(HeadersOption::List(vec!["a".to_string(), "b".to_string()])),
        ..JsCsvParserOptions::default()
    }));
    assert_eq!(parser.push(b"1,2\n1\n3,4").unwrap().len(), 1);
    assert_eq!(parser.finish().unwrap_err(), ParseError::SchemaMismatchError);
    let rows = parser.finish().unwrap();
    assert_eq!(all_entries(&rows), vec![vec![pair("a", "3"), pair("b", "4")]]);
    assert!(parser.finish().unwrap().is_empty());
}

#[test]
fn comment_rows_give_nothing() {
    let mut parser = CsvParser::new(Some(JsCsvParserOptions {
        skip_comments: Some(SkipComments::Boolean(true)),
        ..JsCsvParserOptions::default()
    }));
    let rows = parser.push(b"a,b\n#note\n1,2\n").unwrap();
    assert_eq!(all_entries(&rows), vec![vec![pair("a", "1"), pair("b", "2")]]);
}

#[test]
fn comment_marker_of_ones_own() {
    let mut parser = CsvParser::new(Some(JsCsvParserOptions {
        skip_comments: Some(SkipComments::String("~~".to_string())),
        ..JsCsvParserOptions::default()
    }));
    let rows = parser.push(b"~x\na,b\n~note\n1,2\n#3,4\n").unwrap();
    assert_eq!(
        all_entries(&rows),
        vec![
            vec![pair("a", "1"), pair("b", "2")],
            vec![pair("a", "#3"), pair("b", "4")]
        ]
    );
}

#[test]
fn finish_twice_gives_nothing_twice() {
    let mut parser = CsvParser::new(None);
    assert!(parser.finish().unwrap().is_empty());
    assert!(parser.finish().unwrap().is_empty());

    let mut parser = CsvParser::new(None);
    parser.push(b"a,b\n1,2\n").unwrap();
    assert!(parser.finish().unwrap().is_empty());
    assert!(parser.finish().unwrap().is_empty());
}

#[test]
fn finish_parses_the_unterminated_rest_once() {
    let mut parser = CsvParser::new(None);
    assert!(parser.push(b"a,b\n1,2").unwrap().is_empty());
    let rows = parser.finish().unwrap();
    assert_eq!(all_entries(&rows), vec![vec![pair("a", "1"), pair("b", "2")]]);
    assert!(parser.finish().unwrap().is_empty());
    assert!(parser.flush().unwrap().is_empty());
}

#[test]
fn flush_ends_the_input_like_finish() {
    let mut parser = CsvParser::new(None);
    assert!(parser.push(b"a,b\n1,2").unwrap().is_empty());
    let rows = parser.flush().unwrap();
    assert_eq!(all_entries(&rows), vec![vec![pair("a", "1"), pair("b", "2")]]);
}

#[test]
fn finish_failure_empties_the_buffers() {
    let mut parser = CsvParser::new(Some(JsCsvParserOptions {
        strict: Some(true),
        ..JsCsvParserOptions::default()
    }));
    assert!(parser.push(b"a,b\n1").unwrap().is_empty());
    assert_eq!(parser.finish().unwrap_err(), ParseError::SchemaMismatchError);
    assert!(parser.finish().unwrap().is_empty());
}

#[test]
fn utf16le_gives_the_rows_of_its_utf8_equivalent() {
    let text = "name,city\nZo\u{eb},K\u{f8}benhavn\n\u{65e5}\u{672c},\u{1f600}\n";
    let mut wide = CsvParser::new(None);
    let mut plain = CsvParser::new(None);
    let wide_rows = wide.push(&utf16le(text)).unwrap();
    let plain_rows = plain.push(text.as_bytes()).unwrap();
    assert_eq!(all_entries(&wide_rows), all_entries(&plain_rows));
    assert_eq!(
        all_entries(&wide_rows),
        vec![
            vec![pair("name", "Zo\u{eb}"), pair("city", "K\u{f8}benhavn")],
            vec![pair("name", "\u{65e5}\u{672c}"), pair("city", "\u{1f600}")]
        ]
    );
    assert_eq!(wide.get_headers(), plain.get_headers());
}

#[test]
fn utf16be_is_detected_by_its_mark() {
    let mut parser = CsvParser::new(None);
    let rows = parser.push(&utf16be("a,b\n1,2\n")).unwrap();
    assert_eq!(all_entries(&rows), vec![vec![pair("a", "1"), pair("b", "2")]]);
}

#[test]
fn utf16_holds_back_an_odd_byte() {
    let bytes = utf16le("a,b\n1,2\n");
    let cut = 7; // in the middle of a unit
    let mut parser = CsvParser::new(None);
    let mut rows = parser.push(&bytes[..cut]).unwrap();
    rows.extend(parser.push(&bytes[cut..]).unwrap());
    assert_eq!(all_entries(&rows), vec![vec![pair("a", "1"), pair("b", "2")]]);
}

#[test]
fn utf16_malformed_input_fails_at_once() {
    // A low surrogate on its own.
    let mut bytes = utf16le("a,b\n");
    bytes.extend_from_slice(&[0x00, 0xDC, 0x0A, 0x00]);
    let mut parser = CsvParser::new(None);
    assert_eq!(parser.push(&bytes).unwrap_err(), ParseError::EncodingError);
    // The chunk went with the failure; later input is parsed.
    let mut more = Vec::new();
    for unit in "x,y\n1,2\n".encode_utf16() {
        more.extend_from_slice(&unit.to_le_bytes());
    }
    let rows = parser.push(&more).unwrap();
    assert_eq!(all_entries(&rows), vec![vec![pair("x", "1"), pair("y", "2")]]);
}

#[test]
fn utf8_mark_is_removed() {
    let mut parser = CsvParser::new(None);
    let rows = parser.push(b"\xEF\xBB\xBFa,b\n1,2\n").unwrap();
    assert_eq!(
        parser.get_headers(),
        Some(vec!["a".to_string(), "b".to_string()])
    );
    assert_eq!(all_entries(&rows), vec![vec![pair("a", "1"), pair("b", "2")]]);
}

#[test]
fn mark_detection_waits_for_two_bytes() {
    let bytes = utf16le("a,b\n1,2\n");
    let mut parser = CsvParser::new(None);
    assert!(parser.push(&bytes[..1]).unwrap().is_empty());
    let rows = parser.push(&bytes[1..]).unwrap();
    assert_eq!(all_entries(&rows), vec![vec![pair("a", "1"), pair("b", "2")]]);

    let mut parser = CsvParser::new(numbered());
    assert!(parser.push(b"x").unwrap().is_empty());
    assert!(parser.push(b"").unwrap().is_empty());
    let rows = parser.push(b"\n").unwrap();
    assert_eq!(all_entries(&rows), vec![vec![pair("0", "x")]]);
}

#[test]
fn single_waiting_byte_is_parsed_at_the_end() {
    let mut parser = CsvParser::new(numbered());
    assert!(parser.push(b"x").unwrap().is_empty());
    let rows = parser.finish().unwrap();
    assert_eq!(all_entries(&rows), vec![vec![pair("0", "x")]]);
}

#[test]
fn chunking_is_invisible_at_every_cut() {
    let input: &[u8] = b"name,note\n\"Ann\",\"likes \"\"x\"\",\nand y\"\r\nBob,\"\"\n";
    let mut whole = CsvParser::new(None);
    let expected = all_entries(&whole.push(input).unwrap());
    assert_eq!(
        expected,
        vec![
            vec![pair("name", "Ann"), pair("note", "likes \"x\",\nand y")],
            vec![pair("name", "Bob"), pair("note", "")]
        ]
    );
    for cut in 0..=input.len() {
        let mut parser = CsvParser::new(None);
        let mut rows = parser.push(&input[..cut]).unwrap();
        rows.extend(parser.push(&input[cut..]).unwrap());
        assert_eq!(all_entries(&rows), expected, "cut at {}", cut);
        assert!(parser.finish().unwrap().is_empty());
    }
}

#[test]
fn byte_by_byte_input_gives_the_same_rows() {
    let input: &[u8] = b"a,b\n\"1\n2\",3\n4,\"5\"\"\"\n";
    let mut parser = CsvParser::new(None);
    let mut rows = Vec::new();
    for byte in input {
        rows.extend(parser.push(&[*byte]).unwrap());
    }
    assert_eq!(
        all_entries(&rows),
        vec![
            vec![pair("a", "1\n2"), pair("b", "3")],
            vec![pair("a", "4"), pair("b", "5\"")]
        ]
    );
}

#[test]
fn terminator_inside_quotes_does_not_end_the_row() {
    let mut parser = CsvParser::new(numbered());
    assert!(parser.push(b"\"a\nb").unwrap().is_empty());
    assert!(parser.push(b"\nc").unwrap().is_empty());
    let rows = parser.push(b"\",d\n").unwrap();
    assert_eq!(all_entries(&rows), vec![vec![pair("0", "a\nb\nc"), pair("1", "d")]]);
}

#[test]
fn crlf_rows() {
    let mut parser = CsvParser::new(None);
    let rows = parser.push(b"a,b\r\n1,2\r\n\r\n3,4\r\n").unwrap();
    assert_eq!(
        all_entries(&rows),
        vec![
            vec![pair("a", "1"), pair("b", "2")],
            vec![pair("a", "3"), pair("b", "4")]
        ]
    );
}

#[test]
fn settings_take_the_first_byte_of_each_text() {
    let mut parser = CsvParser::new(Some(JsCsvParserOptions {
        quote: Some("'".to_string()),
        separator: Some(";;".to_string()),
        newline: Some("|".to_string()),
        ..JsCsvParserOptions::default()
    }));
    let rows = parser.push(b"a;b|'x;''y';2|").unwrap();
    assert_eq!(all_entries(&rows), vec![vec![pair("a", "x;'y"), pair("b", "2")]]);
}

#[test]
fn escape_setting_of_its_own() {
    let mut parser = CsvParser::new(Some(JsCsvParserOptions {
        escape: Some("\\".to_string()),
        headers: Some(HeadersOption::Boolean(false)),
        ..JsCsvParserOptions::default()
    }));
    let rows = parser.push(b"\"say \\\"hi\\\"\",c\n").unwrap();
    assert_eq!(all_entries(&rows), vec![vec![pair("0", "say \"hi\""), pair("1", "c")]]);
}

#[test]
fn raw_setting_decodes_lossily() {
    let mut parser = CsvParser::new(Some(JsCsvParserOptions {
        raw: Some(true),
        headers: Some(HeadersOption::Boolean(false)),
        ..JsCsvParserOptions::default()
    }));
    let rows = parser.push(b"ab\xffcd\n").unwrap();
    assert_eq!(all_entries(&rows), vec![vec![pair("0", "ab\u{fffd}cd")]]);

    let mut parser = CsvParser::new(numbered());
    assert_eq!(parser.push(b"ab\xffcd\n").unwrap_err(), ParseError::Utf8DecodeError);
}

#[test]
fn size_limit_setting() {
    let mut parser = CsvParser::new(Some(JsCsvParserOptions {
        max_row_bytes: Some(4),
        headers: Some(HeadersOption::Boolean(false)),
        ..JsCsvParserOptions::default()
    }));
    assert_eq!(parser.push(b"a,b\n").unwrap().len(), 1);
    assert_eq!(parser.push(b"a,bc\n").unwrap_err(), ParseError::OversizedRowError);
}

#[test]
fn skip_lines_setting() {
    let mut parser = CsvParser::new(Some(JsCsvParserOptions {
        skip_lines: Some(2),
        ..JsCsvParserOptions::default()
    }));
    let rows = parser.push(b"junk\nmore\na,b\n1,2\n").unwrap();
    assert_eq!(
        parser.get_headers(),
        Some(vec!["a".to_string(), "b".to_string()])
    );
    assert_eq!(all_entries(&rows), vec![vec![pair("a", "1"), pair("b", "2")]]);
}

#[test]
fn transform_splits_at_every_terminator() {
    let mut parser = CsvParser::new(None);
    let rows = parser.transform(b"a,b\n1,2\n3,", "utf8".to_string()).unwrap();
    assert_eq!(all_entries(&rows), vec![vec![pair("a", "1"), pair("b", "2")]]);
    let rows = parser.transform(b"4\n", "utf8".to_string()).unwrap();
    assert_eq!(all_entries(&rows), vec![vec![pair("a", "3"), pair("b", "4")]]);
    assert!(parser.flush().unwrap().is_empty());
}

#[test]
fn transform_does_not_protect_a_quoted_terminator() {
    let mut parser = CsvParser::new(numbered());
    let rows = parser.transform(b"\"a\nb\",c\n", String::new()).unwrap();
    assert_eq!(
        all_entries(&rows),
        vec![vec![pair("0", "\"a")], vec![pair("0", "b\",c")]]
    );
}

#[test]
fn transform_rest_is_parsed_by_flush() {
    let mut parser = CsvParser::new(None);
    assert!(parser.transform(b"a,b\n1,2", String::new()).unwrap().is_empty());
    let rows = parser.flush().unwrap();
    assert_eq!(all_entries(&rows), vec![vec![pair("a", "1"), pair("b", "2")]]);
}

#[test]
fn transform_failure_is_reported_at_once() {
    let mut parser = CsvParser::new(Some(JsCsvParserOptions {
        strict: Some(true),
        ..JsCsvParserOptions::default()
    }));
    assert_eq!(
        parser.transform(b"a,b\n1,2\n3\n", String::new()).unwrap_err(),
        ParseError::SchemaMismatchError
    );
}

#[test]
fn reasons_are_spelled_out() {
    assert_eq!(
        ParseError::EncodingError.message(),
        "Encoding conversion error: invalid characters found"
    );
    assert_eq!(ParseError::OversizedRowError.message(), "Row exceeds the maximum size");
    assert_eq!(
        ParseError::SchemaMismatchError.message(),
        "Row length does not match headers"
    );
    assert_eq!(
        ParseError::Utf8DecodeError.message(),
        "UTF-8 conversion error: invalid byte sequence in cell"
    );
    assert_eq!(ParseError::NoHeadersDefinedError.message(), "No headers defined");
}

#[test]
fn escaped_quotes_in_a_stream() {
    let mut parser = CsvParser::new(None);
    let rows = parser.push(b"text\n\"Hello \"\"World\"\"\"\n").unwrap();
    assert_eq!(all_entries(&rows), vec![vec![pair("text", "Hello \"World\"")]]);
}

#[test]
fn push_text_takes_utf8_as_it_is() {
    let mut parser = CsvParser::new(None);
    assert!(parser.push_text(b"a,b\n1,").unwrap().is_empty());
    let rows = parser.push_text(b"2\n3,4\n").unwrap();
    assert_eq!(
        all_entries(&rows),
        vec![
            vec![pair("a", "1"), pair("b", "2")],
            vec![pair("a", "3"), pair("b", "4")]
        ]
    );
    // One byte is taken at once: text does not wait for a mark.
    let mut parser = CsvParser::new(numbered());
    assert!(parser.push_text(b"x").unwrap().is_empty());
    let rows = parser.push_text(b"\n").unwrap();
    assert_eq!(all_entries(&rows), vec![vec![pair("0", "x")]]);
}

#[test]
fn chunk_gives_what_its_text_gives() {
    let text = "a,b\n\u{e9},\"x\ny\"\nlast,";
    let mut fed_bytes = CsvParser::new(None);
    let mut fed_text = CsvParser::new(None);
    let from_bytes = fed_bytes.push(&utf16le(text)).unwrap();
    let from_text = fed_text.push_text(text.as_bytes()).unwrap();
    assert_eq!(all_entries(&from_bytes), all_entries(&from_text));
    assert_eq!(
        all_entries(&from_bytes),
        vec![vec![pair("a", "\u{e9}"), pair("b", "x\ny")]]
    );
    assert_eq!(
        all_entries(&fed_bytes.finish().unwrap()),
        all_entries(&fed_text.finish().unwrap())
    );
}

#[test]
fn push_text_reports_a_kept_failure_first() {
    let mut parser = CsvParser::new(Some(JsCsvParserOptions {
        strict: Some(true),
        headers: Some(HeadersOption::List(vec!["a".to_string()])),
        ..JsCsvParserOptions::default()
    }));
    assert_eq!(parser.push_text(b"1\n1,2\n").unwrap().len(), 1);
    assert_eq!(parser.push_text(b"3\n").unwrap_err(), ParseError::SchemaMismatchError);
    assert_eq!(parser.push_text(b"4\n").unwrap().len(), 1);
}

#[test]
fn mark_cut_after_its_first_byte_is_recognized() {
    let mut parser = CsvParser::new(None);
    assert!(parser.push(b"\xEF").unwrap().is_empty());
    parser.push(b"\xBB\xBFa,b\n1,2\n").unwrap();
    assert_eq!(
        parser.get_headers(),
        Some(vec!["a".to_string(), "b".to_string()])
    );
}

#[test]
fn mark_cut_after_its_second_byte_is_taken_for_text() {
    let mut parser = CsvParser::new(None);
    assert!(parser.push(b"\xEF\xBB").unwrap().is_empty());
    parser.push(b"\xBFa,b\n1,2\n").unwrap();
    assert_eq!(
        parser.get_headers(),
        Some(vec!["\u{feff}a".to_string(), "b".to_string()])
    );
}

#[test]
fn utf16_odd_last_byte_is_dropped_at_the_end() {
    let mut bytes = utf16le("a,b\n1,2");
    bytes.push(0x33);
    let mut parser = CsvParser::new(None);
    assert!(parser.push(&bytes).unwrap().is_empty());
    let rows = parser.finish().unwrap();
    assert_eq!(all_entries(&rows), vec![vec![pair("a", "1"), pair("b", "2")]]);
    assert!(parser.finish().unwrap().is_empty());
}

#[test]
fn empty_chunk_changes_nothing() {
    let mut parser = CsvParser::new(None);
    assert!(parser.push(b"").unwrap().is_empty());
    assert!(parser.push(b"a,b\n1").unwrap().is_empty());
    assert!(parser.push(b"").unwrap().is_empty());
    let rows = parser.push(b",2\n").unwrap();
    assert_eq!(all_entries(&rows), vec![vec![pair("a", "1"), pair("b", "2")]]);
}

#[test]
fn rows_behind_a_failure_are_dropped_with_it() {
    let mut parser = CsvParser::new(Some(JsCsvParserOptions {
        strict: Some(true),
        headers: Some(HeadersOption::List(vec!["a".to_string()])),
        ..JsCsvParserOptions::default()
    }));
    let rows = parser.push(b"1\n2,3\n4\n5").unwrap();
    assert_eq!(all_entries(&rows), vec![vec![pair("a", "1")]]);
    assert_eq!(parser.push(b"").unwrap_err(), ParseError::SchemaMismatchError);
    let rows = parser.push(b"6\n").unwrap();
    assert_eq!(all_entries(&rows), vec![vec![pair("a", "56")]]);
}

fn write_row(cells: &[&str]) -> Vec<u8> {
    let mut row = Vec::new();
    for (i, cell) in cells.iter().enumerate() {
        if i > 0 {
            row.push(b',');
        }
        row.push(b'"');
        for byte in cell.bytes() {
            if byte == b'"' {
                row.push(b'"');
            }
            row.push(byte);
        }
        row.push(b'"');
    }
    row.push(b'\n');
    row
}

#[test]
fn written_rows_read_back() {
    let rows: Vec<Vec<&str>> = vec![
        vec!["plain", "with,separator", "with \"quotes\""],
        vec!["", "\"", "\"\""],
        vec!["line\nbreak", "\r\n", ",\",\n\","],
        vec!["gr\u{fc}n", "#no comment", " "],
    ];
    let mut input = Vec::new();
    for row in &rows {
        input.extend(write_row(row));
    }
    let mut parser = CsvParser::new(numbered());
    let read = parser.push(&input).unwrap();
    assert_eq!(read.len(), rows.len());
    for (row, written) in read.iter().zip(&rows) {
        let values: Vec<&str> = (0..row.len()).map(|i| row.value(i).as_str()).collect();
        assert_eq!(&values, written);
    }
    assert!(parser.finish().unwrap().is_empty());
}
