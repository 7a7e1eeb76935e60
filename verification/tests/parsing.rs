use npc_dialog::dialog::{DialogLine, Gender, LineFault};

#[test]
fn test_try_from_string() {
    match DialogLine::try_from(
        "{1}{How can I help you?}{How can I help you?}{}{}{}{}".to_string(),
    ) {
        Ok(dialog) => {
            assert_eq!(dialog.number, 1);
            assert_eq!(dialog.text, "How can I help you?".to_string());
            assert_eq!(dialog.female_text, Some("How can I help you?".to_string()));
            assert_eq!(dialog.intelligence, None);
            assert_eq!(dialog.test, None);
            assert_eq!(dialog.response, None);
            assert_eq!(dialog.result, None);
            assert!(dialog.choices.is_empty());
        }
        Err(e) => panic!("Expected successful conversion, but got error: {}", e),
    }

    match DialogLine::try_from("{2}{B:}{}{5}{}{8}{}Barter".to_string()) {
        Ok(dialog) => {
            assert_eq!(dialog.number, 2);
            assert_eq!(dialog.text, "B:".to_string());
            assert_eq!(dialog.female_text, None);
            assert_eq!(dialog.intelligence, Some(5));
            assert_eq!(dialog.test, None);
            assert_eq!(dialog.response, Some(8));
            assert_eq!(dialog.result, None);
            assert!(dialog.choices.is_empty());
        }
        Err(e) => panic!("Expected successful conversion, but got error: {}", e),
    }

    match DialogLine::try_from("{6}{Let’s Go.}{}{5}{wa}{0}{uw}Stop Waiting".to_string()) {
        Ok(dialog) => {
            assert_eq!(dialog.number, 6);
            assert_eq!(dialog.text, "Let’s Go.".to_string());
            assert_eq!(dialog.female_text, None);
            assert_eq!(dialog.intelligence, Some(5));
            assert_eq!(dialog.test, Some("wa".to_string()));
            assert_eq!(dialog.response, Some(0));
            assert_eq!(dialog.result, Some("uw".to_string()));
            assert!(dialog.choices.is_empty());
        }
        Err(e) => panic!("Expected successful conversion, but got error: {}", e),
    }
}

#[test]
fn parse_reports_each_fault() {
    assert_eq!(DialogLine::parse("no braces").unwrap_err(), LineFault::MissingNumber);
    assert_eq!(DialogLine::parse("{x}{text}").unwrap_err(), LineFault::InvalidNumber);
    assert_eq!(DialogLine::parse("{-1}{text}").unwrap_err(), LineFault::InvalidNumber);
    assert_eq!(DialogLine::parse("{}").unwrap_err(), LineFault::InvalidNumber);
    assert_eq!(DialogLine::parse("{7}").unwrap_err(), LineFault::MissingText);
    assert_eq!(DialogLine::parse("}{1}{text}").unwrap_err(), LineFault::UnmatchedBrace);
}

#[test]
fn female_text_falls_back_to_text() {
    let line = DialogLine::parse("{1}{Hello sir}{}{}{}{}{}").unwrap();
    assert_eq!(line.get_text(&Gender::Female), "Hello sir");
    assert_eq!(line.get_text(&Gender::Male), "Hello sir");
    let line = DialogLine::parse("{1}{Hello sir}{Hello madam}{}{}{}{}").unwrap();
    assert_eq!(line.get_text(&Gender::Female), "Hello madam");
    assert_eq!(line.get_text(&Gender::Male), "Hello sir");
}

#[test]
fn fields_are_trimmed_and_the_label_is_ignored() {
    let line =
        DialogLine::parse("{ 12 }{  Hi there  }{ }{ 5 }{ fo }{ 0 }{ lv } ends {the} talk").unwrap();
    assert_eq!(line.number, 12);
    assert_eq!(line.text, "Hi there");
    assert_eq!(line.female_text, None);
    assert_eq!(line.intelligence, Some(5));
    assert_eq!(line.test, Some("fo".to_string()));
    assert_eq!(line.response, Some(0));
    assert_eq!(line.result, Some("lv".to_string()));
    assert!(line.choices.is_empty());
}

#[test]
fn optional_numbers_that_cannot_be_read_are_absent() {
    let line = DialogLine::parse("{3}{t}{}{five}{}{x8}{}").unwrap();
    assert_eq!(line.intelligence, None);
    assert_eq!(line.response, None);
    let line = DialogLine::parse("{3}{t}{}{2147483648}{}{-1}{}").unwrap();
    assert_eq!(line.intelligence, None);
    assert_eq!(line.response, None);
    let line = DialogLine::parse("{3}{t}{}{-2147483648}{}{+7}{}").unwrap();
    assert_eq!(line.intelligence, Some(i32::MIN));
    assert_eq!(line.response, Some(7));
    let line = DialogLine::parse("{3}{t}{}{2147483647}{}{007}{}").unwrap();
    assert_eq!(line.intelligence, Some(i32::MAX));
    assert_eq!(line.response, Some(7));
    let line = DialogLine::parse("{3}{t}{}{1 2}{}{1_000}{}").unwrap();
    assert_eq!(line.intelligence, None);
    assert_eq!(line.response, None);
}

#[test]
fn the_number_is_an_unsigned_decimal() {
    assert_eq!(DialogLine::parse("{+5}{t}").unwrap().number, 5);
    assert_eq!(DialogLine::parse("{0}{t}").unwrap().number, 0);
    let largest = format!("{{{}}}{{t}}", usize::MAX);
    assert_eq!(DialogLine::parse(&largest).unwrap().number, usize::MAX);
    let too_large = format!("{{{}0}}{{t}}", usize::MAX);
    assert_eq!(DialogLine::parse(&too_large).unwrap_err(), LineFault::InvalidNumber);
    assert_eq!(DialogLine::parse("{+}{t}").unwrap_err(), LineFault::InvalidNumber);
    assert_eq!(DialogLine::parse("{1.5}{t}").unwrap_err(), LineFault::InvalidNumber);
    assert_eq!(DialogLine::parse("{٣}{t}").unwrap_err(), LineFault::InvalidNumber);
}

#[test]
fn two_fields_are_enough() {
    let line = DialogLine::parse("{4}{Only text}").unwrap();
    assert_eq!(line.number, 4);
    assert_eq!(line.text, "Only text");
    assert_eq!(line.female_text, None);
    assert_eq!(line.intelligence, None);
    assert_eq!(line.test, None);
    assert_eq!(line.response, None);
    assert_eq!(line.result, None);
    let line = DialogLine::parse("{4}{}").unwrap();
    assert_eq!(line.text, "");
}

#[test]
fn braces_pair_by_rank() {
    assert_eq!(DialogLine::parse("{1{2}3}{t}").unwrap_err(), LineFault::InvalidNumber);
    let line = DialogLine::parse("{1}{a{b}c}").unwrap();
    assert_eq!(line.text, "a{b");
    assert_eq!(line.female_text, Some("b}c".to_string()));
    assert_eq!(DialogLine::parse("{1}}{t}").unwrap_err(), LineFault::UnmatchedBrace);
    let line = DialogLine::parse("{1}{a}{b}{2}{c}{3}{d}}{").unwrap();
    assert_eq!(line.result, Some("d".to_string()));
}

#[test]
fn try_from_describes_faults_in_words() {
    assert_eq!(
        DialogLine::try_from("text".to_string()).unwrap_err(),
        "`number` field is missing"
    );
    assert_eq!(
        DialogLine::try_from("{one}{text}".to_string()).unwrap_err(),
        "`number` field must be a valid usize"
    );
    assert_eq!(
        DialogLine::try_from("{1}".to_string()).unwrap_err(),
        "`text` field is missing"
    );
    assert_eq!(
        DialogLine::try_from("}{".to_string()).unwrap_err(),
        "a closing brace comes before its opening brace"
    );
    assert_eq!(LineFault::MissingText.message(), "`text` field is missing");
}

#[test]
fn a_written_line_is_read_back() {
    let cases: Vec<(usize, &str, Option<&str>, Option<i32>, Option<&str>, Option<usize>, Option<&str>)> = vec![
        (1, "How can I help you?", Some("How can I help you?"), None, None, None, None),
        (6, "Let’s Go.", None, Some(5), Some("wa"), Some(0), Some("uw")),
        (usize::MAX, "", None, Some(i32::MIN), None, Some(usize::MAX), Some("so")),
        (0, "a b", Some("c d"), Some(-1), Some("fo"), Some(12), None),
    ];
    for (number, text, female_text, intelligence, test, response, result) in cases {
        let written = format!(
            "{{{}}}{{{}}}{{{}}}{{{}}}{{{}}}{{{}}}{{{}}}a label",
            number,
            text,
            female_text.unwrap_or(""),
            intelligence.map(|v| v.to_string()).unwrap_or_default(),
            test.unwrap_or(""),
            response.map(|v| v.to_string()).unwrap_or_default(),
            result.unwrap_or(""),
        );
        let line = DialogLine::parse(&written).unwrap();
        assert_eq!(line.number, number);
        assert_eq!(line.text, text);
        assert_eq!(line.female_text.as_deref(), female_text);
        assert_eq!(line.intelligence, intelligence);
        assert_eq!(line.test.as_deref(), test);
        assert_eq!(line.response, response);
        assert_eq!(line.result.as_deref(), result);
        assert!(line.choices.is_empty());
    }
}

#[test]
fn new_takes_the_fields_as_they_are() {
    let line = DialogLine::new(
        9,
        " text ".to_string(),
        Some(String::new()),
        Some(-4),
        Some("fo".to_string()),
        Some(3),
        None,
    );
    assert_eq!(line.number, 9);
    assert_eq!(line.text, " text ");
    assert_eq!(line.female_text, Some(String::new()));
    assert_eq!(line.intelligence, Some(-4));
    assert_eq!(line.test, Some("fo".to_string()));
    assert_eq!(line.response, Some(3));
    assert_eq!(line.result, None);
    assert!(line.choices.is_empty());
    assert_eq!(line.get_text(&Gender::Female), "");
    assert_eq!(line.get_text(&Gender::Male), " text ");
}

#[test]
fn scenario_female_player_sees_the_female_text() {
    let line =
        DialogLine::try_from("{1}{How can I help you?}{How can I help you?}{}{}{}{}".to_string())
            .unwrap();
    assert_eq!(line.get_text(&Gender::Female), "How can I help you?");
}
