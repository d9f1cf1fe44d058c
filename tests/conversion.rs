use lsb_ynab::output_name::output_file_name;
use lsb_ynab::pipeline::{convert, decode_row, encode_row, header_line, RowError, SkippedRow, Transaction};
use lsb_ynab::transcode::{transcode_amount, transcode_date};

fn run(input: &[u8]) -> (String, Vec<SkippedRow>) {
    let mut output = Vec::new();
    let skipped = convert(input, &mut output);
    (String::from_utf8(output).unwrap(), skipped)
}

#[test]
fn test_process_file() {
    let input = r#"20-10-2021;Test;1.234,56;456,78;EUR
15-01-2022;Test2;7,89;12,34;DKK
"#;
    let mut output = Vec::new();
    convert(input.as_bytes(), &mut output);
    assert_eq!(
        String::from_utf8(output).unwrap(),
        r#"Date,Payee,Memo,Amount
2021-10-20,Test,,1234.56
2022-01-15,Test2,,7.89
"#
    );
}

#[test]
fn amount_drops_thousands_and_swaps_decimal() {
    assert_eq!(transcode_amount("1.234,56"), "1234.56");
    assert_eq!(transcode_amount("7,89"), "7.89");
    assert_eq!(transcode_amount("1.234.567,00"), "1234567.00");
    assert_eq!(transcode_amount("-12,5"), "-12.5");
}

#[test]
fn amount_without_separators_is_unchanged() {
    assert_eq!(transcode_amount("42"), "42");
    assert_eq!(transcode_amount(""), "");
    assert_eq!(transcode_amount("abc"), "abc");
}

#[test]
fn amount_with_several_commas_turns_each_into_a_dot() {
    assert_eq!(transcode_amount("1,2,3"), "1.2.3");
}

#[test]
fn date_components_are_reversed() {
    assert_eq!(transcode_date("20-10-2021"), "2021-10-20");
    assert_eq!(transcode_date("31-13-9999"), "9999-13-31");
}

#[test]
fn date_with_other_component_counts_is_reversed_too() {
    assert_eq!(transcode_date("10-2021"), "2021-10");
    assert_eq!(transcode_date("2021"), "2021");
    assert_eq!(transcode_date(""), "");
    assert_eq!(transcode_date("1-2-3-4"), "4-3-2-1");
    assert_eq!(transcode_date("-5"), "5-");
}

#[test]
fn amount_rewritten_twice_differs() {
    let once = transcode_amount("1.234,56");
    let twice = transcode_amount(&once);
    assert_eq!(once, "1234.56");
    assert_eq!(twice, "123456");
    assert_ne!(once, twice);
}

#[test]
fn date_rewritten_twice_gives_back_the_input() {
    let once = transcode_date("20-10-2021");
    let twice = transcode_date(&once);
    assert_eq!(twice, "20-10-2021");
    assert_ne!(once, twice);
}

#[test]
fn decode_row_rewrites_date_and_amount() {
    let fields: Vec<String> = ["20-10-2021", "Shop", "1.234,56", "456,78", "EUR"]
        .iter()
        .map(|s| s.to_string())
        .collect();
    let t = decode_row(&fields).ok().unwrap();
    assert_eq!(t.date, "2021-10-20");
    assert_eq!(t.payee, "Shop");
    assert_eq!(t.amount, "1234.56");
}

#[test]
fn decode_row_rejects_wrong_field_counts() {
    let short: Vec<String> = vec!["20-10-2021".to_string(), "Shop".to_string()];
    assert_eq!(decode_row(&short).err(), Some(RowError::FieldCount { found: 2 }));
    let long: Vec<String> = (0..6).map(|i| i.to_string()).collect();
    assert_eq!(decode_row(&long).err(), Some(RowError::FieldCount { found: 6 }));
}

#[test]
fn header_is_the_import_layout() {
    assert_eq!(header_line(), "Date,Payee,Memo,Amount\n");
}

#[test]
fn encode_row_leaves_memo_empty() {
    let t = Transaction {
        date: "2021-10-20".to_string(),
        payee: "Test".to_string(),
        amount: "1234.56".to_string(),
    };
    assert_eq!(encode_row(&t), "2021-10-20,Test,,1234.56\n");
}

#[test]
fn payee_with_comma_is_quoted() {
    let t = Transaction {
        date: "2021-10-20".to_string(),
        payee: "Smith, John".to_string(),
        amount: "5.00".to_string(),
    };
    assert_eq!(encode_row(&t), "2021-10-20,\"Smith, John\",,5.00\n");
    let (out, skipped) = run("20-10-2021;Smith, John;5,00;0,00;EUR\n".as_bytes());
    assert_eq!(out, "Date,Payee,Memo,Amount\n2021-10-20,\"Smith, John\",,5.00\n");
    assert!(skipped.is_empty());
}

#[test]
fn payee_with_double_quote_is_quoted_and_doubled() {
    let t = Transaction {
        date: "2021-10-20".to_string(),
        payee: "The \"Best\" Shop".to_string(),
        amount: "1.00".to_string(),
    };
    assert_eq!(encode_row(&t), "2021-10-20,\"The \"\"Best\"\" Shop\",,1.00\n");
}

#[test]
fn empty_input_gives_header_only() {
    let (out, skipped) = run(b"");
    assert_eq!(out, "Date,Payee,Memo,Amount\n");
    assert!(skipped.is_empty());
}

#[test]
fn short_row_is_reported_and_skipped() {
    let input = "20-10-2021;Test;1.234,56;456,78;EUR\nbroken;row\n15-01-2022;Test2;7,89;12,34;DKK\n";
    let (out, skipped) = run(input.as_bytes());
    assert_eq!(
        out,
        "Date,Payee,Memo,Amount\n2021-10-20,Test,,1234.56\n2022-01-15,Test2,,7.89\n"
    );
    assert_eq!(
        skipped,
        vec![SkippedRow { index: 1, error: RowError::FieldCount { found: 2 } }]
    );
}

#[test]
fn long_row_is_reported_and_skipped() {
    let (out, skipped) = run(b"20-10-2021;Test;1,00;2,00;EUR;extra\n");
    assert_eq!(out, "Date,Payee,Memo,Amount\n");
    assert_eq!(
        skipped,
        vec![SkippedRow { index: 0, error: RowError::FieldCount { found: 6 } }]
    );
}

#[test]
fn row_that_is_not_text_is_reported_and_skipped() {
    let mut input: Vec<u8> = b"20-10-2021;".to_vec();
    input.push(0xff);
    input.extend_from_slice(b";1,00;2,00;EUR\n15-01-2022;Test2;7,89;12,34;DKK\n");
    let (out, skipped) = run(&input);
    assert_eq!(out, "Date,Payee,Memo,Amount\n2022-01-15,Test2,,7.89\n");
    assert_eq!(skipped, vec![SkippedRow { index: 0, error: RowError::Unreadable }]);
}

#[test]
fn output_is_appended_to_what_is_there() {
    let mut output = b"x".to_vec();
    let skipped = convert(b"01-02-2003;P;3,00;0;EUR\n", &mut output);
    assert!(skipped.is_empty());
    assert_eq!(String::from_utf8(output).unwrap(), "xDate,Payee,Memo,Amount\n2003-02-01,P,,3.00\n");
}

#[test]
fn default_output_name_carries_the_timestamp() {
    assert_eq!(output_file_name("2024-01-02 03:04:05"), "ynab 2024-01-02 03:04:05.csv");
}
