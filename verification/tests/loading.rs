use npc_dialog::dialog::{DialogLine, LineFault};
use npc_dialog::script::{parse_dialog_lines, DialogTree};

fn lines(text: &[&str]) -> Vec<String> {
    text.iter().map(|s| s.to_string()).collect()
}

fn sample() -> Vec<String> {
    lines(&[
        "# A trader",
        "",
        "{1}{How can I help you, @pcname@?}{How can I help you, madam?}{}{}{}{}",
        "{2}{B:}{}{5}{}{8}{}Barter",
        "  {3}{Follow me.}{}{}{}{0}{uw}Recruit",
        "{4}{Wait here.}{}{}{fo}{0}{wa}",
        "not a line {5}{x}",
        "{8}{Here are my goods.}{}{}{}{}{}",
        "{9}{Thanks.}{}{}{}{1}{}",
        "{10}{Goodbye.}{}{}{}{0}{}",
    ])
}

#[test]
fn choices_belong_to_the_prompt_before_them_in_file_order() {
    let tree = parse_dialog_lines(&sample()).unwrap();
    assert_eq!(tree.len(), 7);
    assert_eq!(tree.get(1).unwrap().choices, vec![2, 3, 4]);
    assert_eq!(tree.get(8).unwrap().choices, vec![9, 10]);
    for reply in [2, 3, 4, 9, 10] {
        assert!(tree.get(reply).unwrap().choices.is_empty());
        let owners: Vec<usize> = [1usize, 2, 3, 4, 8, 9, 10]
            .into_iter()
            .filter(|k| tree.get(*k).unwrap().choices.contains(&reply))
            .collect();
        assert_eq!(owners.len(), 1);
        assert_eq!(owners[0], if reply < 8 { 1 } else { 8 });
    }
    assert!(tree.get(5).is_none());
    assert!(tree.get(0).is_none());
}

#[test]
fn lines_keep_their_fields_in_the_graph() {
    let tree = parse_dialog_lines(&sample()).unwrap();
    let line = tree.get(4).unwrap();
    assert_eq!(line.number, 4);
    assert_eq!(line.text, "Wait here.");
    assert_eq!(line.female_text, None);
    assert_eq!(line.intelligence, None);
    assert_eq!(line.test, Some("fo".to_string()));
    assert_eq!(line.response, Some(0));
    assert_eq!(line.result, Some("wa".to_string()));
    let line = tree.get(1).unwrap();
    assert_eq!(line.female_text, Some("How can I help you, madam?".to_string()));
    assert_eq!(line.response, None);
}

#[test]
fn an_empty_script_gives_an_empty_graph() {
    assert_eq!(parse_dialog_lines(&Vec::new()).unwrap().len(), 0);
    assert_eq!(parse_dialog_lines(&lines(&["", "# only comments", "text"])).unwrap().len(), 0);
}

#[test]
fn the_first_line_that_cannot_be_read_stops_the_load() {
    let error = parse_dialog_lines(&lines(&[
        "{1}{Hello}{}{}{}{}{}",
        "comment",
        "   {two}{B:}{}{}{}{8}{}  ",
        "{3}",
    ]))
    .unwrap_err();
    assert_eq!(error.index, 2);
    assert_eq!(error.content, "{two}{B:}{}{}{}{8}{}");
    assert_eq!(error.fault, LineFault::InvalidNumber);
    assert_eq!(
        error.message(),
        "Failed to parse dialog line: `number` field must be a valid usize"
    );
    let error = parse_dialog_lines(&lines(&["{3}"])).unwrap_err();
    assert_eq!(error.index, 0);
    assert_eq!(error.fault, LineFault::MissingText);
    assert_eq!(error.message(), "Failed to parse dialog line: `text` field is missing");
    let error = parse_dialog_lines(&lines(&["{"])).unwrap_err();
    assert_eq!(error.fault, LineFault::MissingNumber);
    assert_eq!(error.message(), "Failed to parse dialog line: `number` field is missing");
    let error = parse_dialog_lines(&lines(&["{1}{a}", "{}}{"])).unwrap_err();
    assert_eq!(error.index, 1);
    assert_eq!(error.fault, LineFault::UnmatchedBrace);
}

#[test]
fn a_reply_before_any_prompt_belongs_to_no_line() {
    let tree = parse_dialog_lines(&lines(&["{2}{B:}{}{5}{}{8}{}", "{1}{Hello}{}{}{}{}{}"])).unwrap();
    assert_eq!(tree.len(), 2);
    assert!(tree.get(1).unwrap().choices.is_empty());
    assert!(tree.get(2).unwrap().choices.is_empty());
    assert!(tree.get(0).is_none());
}

#[test]
fn a_reply_before_any_prompt_goes_to_line_zero_where_there_is_one() {
    let tree = parse_dialog_lines(&lines(&["{0}{A:}{}{}{}{3}{}", "{5}{B:}{}{}{}{0}{}"])).unwrap();
    assert_eq!(tree.get(0).unwrap().choices, vec![5]);
    assert!(tree.get(5).unwrap().choices.is_empty());
}

#[test]
fn a_later_line_takes_the_place_of_an_earlier_one_with_its_number() {
    let tree = parse_dialog_lines(&lines(&[
        "{1}{First}{}{}{}{}{}",
        "{2}{B:}{}{}{}{0}{}",
        "{1}{Second}{}{}{}{}{}",
        "{3}{C:}{}{}{}{0}{}",
    ]))
    .unwrap();
    assert_eq!(tree.len(), 3);
    assert_eq!(tree.get(1).unwrap().text, "Second");
    assert_eq!(tree.get(1).unwrap().choices, vec![3]);
    let tree = parse_dialog_lines(&lines(&[
        "{1}{Prompt}{}{}{}{}{}",
        "{1}{Reply}{}{}{}{0}{}",
        "{2}{Other}{}{}{}{0}{}",
    ]))
    .unwrap();
    assert_eq!(tree.get(1).unwrap().text, "Reply");
    assert_eq!(tree.get(1).unwrap().choices, vec![2]);
}

#[test]
fn a_graph_can_be_built_by_hand() {
    let mut tree = DialogTree::new();
    assert_eq!(tree.len(), 0);
    tree.insert(DialogLine::parse("{1}{Hello}").unwrap());
    tree.insert(DialogLine::parse("{2}{Bye}{}{}{}{0}{}").unwrap());
    tree.add_choice(1, 2);
    tree.add_choice(1, 7);
    tree.add_choice(5, 2);
    assert_eq!(tree.len(), 2);
    assert_eq!(tree.get(1).unwrap().choices, vec![2, 7]);
    assert!(tree.get(2).unwrap().choices.is_empty());
    assert!(tree.get(5).is_none());
    tree.insert(DialogLine::parse("{1}{Hello again}").unwrap());
    assert_eq!(tree.len(), 2);
    assert_eq!(tree.get(1).unwrap().text, "Hello again");
    assert!(tree.get(1).unwrap().choices.is_empty());
}
