use exmex::{Express, FlatEx};
use grapher::euler::parse_request;
use grapher::grapher::{clamp_resolution, DEFAULT_POINTS, MAX_ENTRIES, MAX_POINTS, MIN_POINTS};
use grapher::{FunctionEntry, Grapher};

fn compile(text: &str) -> Result<FlatEx<f64>, String> {
    exmex::parse::<f64>(text).map_err(|e| e.to_string())
}

fn edit(grapher: &mut Grapher<FlatEx<f64>>, index: usize, text: &str) -> bool {
    match grapher.set_text(index, text.to_string()) {
        Some(source) => grapher.set_parsed(index, compile(&source)),
        None => true,
    }
}

fn texts(grapher: &Grapher<FlatEx<f64>>) -> Vec<String> {
    grapher.entries().iter().map(|e| e.text.clone()).collect()
}

#[test]
fn new_entry_is_empty() {
    let entry: FunctionEntry<FlatEx<f64>> = FunctionEntry::new();
    assert_eq!(entry.text, "");
    assert!(entry.func.is_none());
}

#[test]
fn new_grapher_has_one_empty_row() {
    let grapher: Grapher<FlatEx<f64>> = Grapher::new();
    assert_eq!(grapher.entries().len(), 1);
    assert_eq!(grapher.entries()[0].text, "");
    assert!(grapher.entries()[0].func.is_none());
    assert!(grapher.error().is_none());
    assert_eq!(grapher.points(), 500);
    assert_eq!(DEFAULT_POINTS, 500);
    assert!(grapher.lines().is_empty());
}

#[test]
fn default_grapher_is_the_new_one() {
    let grapher: Grapher<FlatEx<f64>> = Grapher::default();
    assert_eq!(texts(&grapher), vec![String::new()]);
    assert!(grapher.error().is_none());
    assert_eq!(grapher.points(), 500);
}

#[test]
fn rows_are_added_up_to_eighteen() {
    let mut grapher: Grapher<FlatEx<f64>> = Grapher::new();
    assert_eq!(MAX_ENTRIES, 18);
    for expected in 2..=18 {
        assert!(grapher.can_add());
        grapher.add_entry();
        assert_eq!(grapher.entries().len(), expected);
    }
    assert!(!grapher.can_add());
    grapher.add_entry();
    assert_eq!(grapher.entries().len(), 18);
}

#[test]
fn last_row_is_removed_but_never_the_only_one() {
    let mut grapher: Grapher<FlatEx<f64>> = Grapher::new();
    assert!(!grapher.can_remove());
    grapher.remove_entry();
    assert_eq!(grapher.entries().len(), 1);
    assert!(edit(&mut grapher, 0, "x"));
    grapher.add_entry();
    assert!(edit(&mut grapher, 1, "x+1"));
    assert!(grapher.can_remove());
    grapher.remove_entry();
    assert_eq!(texts(&grapher), vec!["x".to_string()]);
    assert!(grapher.entries()[0].func.is_some());
}

#[test]
fn added_row_is_empty_and_keeps_the_others() {
    let mut grapher: Grapher<FlatEx<f64>> = Grapher::new();
    assert!(edit(&mut grapher, 0, "x^2"));
    grapher.add_entry();
    assert_eq!(texts(&grapher), vec!["x^2".to_string(), String::new()]);
    assert!(grapher.entries()[0].func.is_some());
    assert!(grapher.entries()[1].func.is_none());
}

#[test]
fn resolution_is_brought_into_range() {
    let mut grapher: Grapher<FlatEx<f64>> = Grapher::new();
    assert_eq!((MIN_POINTS, MAX_POINTS), (10, 1000));
    grapher.set_points(250);
    assert_eq!(grapher.points(), 250);
    grapher.set_points(3);
    assert_eq!(grapher.points(), 10);
    grapher.set_points(10);
    assert_eq!(grapher.points(), 10);
    grapher.set_points(1000);
    assert_eq!(grapher.points(), 1000);
    grapher.set_points(1001);
    assert_eq!(grapher.points(), 1000);
    grapher.set_points(usize::MAX);
    assert_eq!(grapher.points(), 1000);
    grapher.set_points(0);
    assert_eq!(grapher.points(), 10);
}

#[test]
fn clamp_resolution_gives_the_nearest_in_range() {
    assert_eq!(clamp_resolution(0), 10);
    assert_eq!(clamp_resolution(9), 10);
    assert_eq!(clamp_resolution(10), 10);
    assert_eq!(clamp_resolution(500), 500);
    assert_eq!(clamp_resolution(1000), 1000);
    assert_eq!(clamp_resolution(1001), 1000);
}

#[test]
fn set_text_asks_for_a_parse_of_a_non_empty_text() {
    let mut grapher: Grapher<FlatEx<f64>> = Grapher::new();
    let request = grapher.set_text(0, "2*e".to_string());
    assert_eq!(request, Some("2*2.7182818284590452353602874713527".to_string()));
    assert_eq!(request, parse_request("2*e"));
    assert_eq!(grapher.entries()[0].text, "2*e");
    assert!(grapher.entries()[0].func.is_none());
}

#[test]
fn set_text_keeps_the_function_until_the_parser_answers() {
    let mut grapher: Grapher<FlatEx<f64>> = Grapher::new();
    assert!(edit(&mut grapher, 0, "x"));
    assert!(grapher.set_text(0, "x+1".to_string()).is_some());
    assert_eq!(grapher.entries()[0].text, "x+1");
    assert_eq!(grapher.entries()[0].func.as_ref().unwrap().eval(&[2.0]).unwrap(), 2.0);
    assert!(grapher.set_parsed(0, compile("x+1")));
    assert_eq!(grapher.entries()[0].func.as_ref().unwrap().eval(&[2.0]).unwrap(), 3.0);
}

#[test]
fn set_text_keeps_the_failure_until_the_parser_answers() {
    let mut grapher: Grapher<FlatEx<f64>> = Grapher::new();
    assert!(!edit(&mut grapher, 0, "x+"));
    let shown = grapher.error().cloned();
    assert!(grapher.set_text(0, "x+1".to_string()).is_some());
    assert_eq!(grapher.error().cloned(), shown);
    assert!(grapher.set_parsed(0, compile("x+1")));
    assert!(grapher.error().is_none());
}

#[test]
fn valid_text_compiles_and_is_drawn() {
    let mut grapher: Grapher<FlatEx<f64>> = Grapher::new();
    assert!(edit(&mut grapher, 0, "x^2"));
    assert!(grapher.error().is_none());
    let func = grapher.entries()[0].func.as_ref().unwrap();
    assert_eq!(func.eval(&[3.0]).unwrap(), 9.0);
    assert_eq!(grapher.lines(), vec![0]);
}

#[test]
fn empty_text_is_no_function_and_is_not_parsed() {
    let mut grapher: Grapher<FlatEx<f64>> = Grapher::new();
    assert!(edit(&mut grapher, 0, "x"));
    assert_eq!(grapher.set_text(0, String::new()), None);
    assert!(grapher.entries()[0].func.is_none());
    assert!(grapher.error().is_none());
}

#[test]
fn emptying_another_row_leaves_the_error() {
    let mut grapher: Grapher<FlatEx<f64>> = Grapher::new();
    grapher.add_entry();
    assert!(edit(&mut grapher, 0, "x"));
    assert!(!edit(&mut grapher, 1, "x+"));
    let shown = grapher.error().cloned();
    assert!(shown.is_some());
    assert_eq!(grapher.set_text(0, String::new()), None);
    assert!(grapher.entries()[0].func.is_none());
    assert_eq!(grapher.error().cloned(), shown);
    assert!(grapher.lines().is_empty());
}

#[test]
fn emptying_the_failed_row_ends_the_error() {
    let mut grapher: Grapher<FlatEx<f64>> = Grapher::new();
    grapher.add_entry();
    assert!(edit(&mut grapher, 0, "x"));
    assert!(!edit(&mut grapher, 1, "x+"));
    assert!(grapher.error().is_some());
    assert_eq!(grapher.set_text(1, String::new()), None);
    assert!(grapher.entries()[1].func.is_none());
    assert!(grapher.error().is_none());
    assert_eq!(grapher.lines(), vec![0]);
}

#[test]
fn valid_edit_of_another_row_leaves_the_error() {
    let mut grapher: Grapher<FlatEx<f64>> = Grapher::new();
    grapher.add_entry();
    assert!(!edit(&mut grapher, 0, "x+"));
    let shown = grapher.error().cloned();
    assert!(shown.is_some());
    assert!(edit(&mut grapher, 1, "x^2"));
    assert!(grapher.entries()[1].func.is_some());
    assert_eq!(grapher.error().cloned(), shown);
    assert!(grapher.lines().is_empty());
    assert!(edit(&mut grapher, 0, "x+1"));
    assert!(grapher.error().is_none());
    assert_eq!(grapher.lines(), vec![0, 1]);
}

#[test]
fn error_is_of_the_first_failed_row_from_the_top() {
    let mut grapher: Grapher<FlatEx<f64>> = Grapher::new();
    grapher.add_entry();
    assert!(!edit(&mut grapher, 1, "x+"));
    assert!(!edit(&mut grapher, 0, "("));
    assert_eq!(grapher.error(), Some(&compile("(").err().unwrap()));
    assert!(edit(&mut grapher, 0, "x"));
    assert_eq!(grapher.error(), Some(&compile("x+").err().unwrap()));
    assert!(grapher.lines().is_empty());
}

#[test]
fn removing_the_failed_row_ends_its_error() {
    let mut grapher: Grapher<FlatEx<f64>> = Grapher::new();
    grapher.add_entry();
    assert!(edit(&mut grapher, 0, "x"));
    assert!(!edit(&mut grapher, 1, "x+"));
    grapher.remove_entry();
    assert!(grapher.error().is_none());
    assert_eq!(grapher.lines(), vec![0]);
}

#[test]
fn answer_for_an_empty_text_is_left_aside() {
    let mut grapher: Grapher<FlatEx<f64>> = Grapher::new();
    assert!(grapher.set_parsed(0, compile("x")));
    assert!(grapher.entries()[0].func.is_none());
    assert!(grapher.set_parsed(0, Err("no".to_string())));
    assert!(grapher.error().is_none());
}

#[test]
fn actions_on_a_row_that_is_not_there_change_nothing() {
    let mut grapher: Grapher<FlatEx<f64>> = Grapher::new();
    assert!(edit(&mut grapher, 0, "x"));
    assert_eq!(grapher.set_text(1, "x+1".to_string()), None);
    assert!(grapher.set_parsed(7, Err("no".to_string())));
    assert_eq!(texts(&grapher), vec!["x".to_string()]);
    assert!(grapher.entries()[0].func.is_some());
    assert!(grapher.error().is_none());
}

#[test]
fn invalid_text_sets_the_error_and_hides_every_line() {
    let mut grapher: Grapher<FlatEx<f64>> = Grapher::new();
    grapher.add_entry();
    assert!(edit(&mut grapher, 0, "x^2"));
    assert_eq!(grapher.lines(), vec![0]);
    assert!(!edit(&mut grapher, 1, "x+"));
    let message = compile("x+").err().unwrap();
    assert_eq!(grapher.error(), Some(&message));
    assert!(grapher.entries()[0].func.is_some());
    assert!(grapher.entries()[1].func.is_none());
    assert!(grapher.lines().is_empty());
}

#[test]
fn failed_parse_takes_the_stale_function_away() {
    let mut grapher: Grapher<FlatEx<f64>> = Grapher::new();
    assert!(edit(&mut grapher, 0, "x"));
    assert!(!edit(&mut grapher, 0, "x+"));
    assert!(grapher.entries()[0].func.is_none());
    assert_eq!(grapher.entries()[0].text, "x+");
}

#[test]
fn editing_into_a_valid_text_clears_the_error() {
    let mut grapher: Grapher<FlatEx<f64>> = Grapher::new();
    grapher.add_entry();
    assert!(edit(&mut grapher, 0, "x^2"));
    assert!(!edit(&mut grapher, 1, "x+"));
    assert!(grapher.lines().is_empty());
    assert!(edit(&mut grapher, 1, "x+1"));
    assert!(grapher.error().is_none());
    assert_eq!(grapher.lines(), vec![0, 1]);
}

#[test]
fn lines_skip_rows_without_a_function() {
    let mut grapher: Grapher<FlatEx<f64>> = Grapher::new();
    grapher.add_entry();
    grapher.add_entry();
    grapher.add_entry();
    assert!(edit(&mut grapher, 1, "sin(x)"));
    assert!(edit(&mut grapher, 3, "x*3"));
    assert_eq!(grapher.lines(), vec![1, 3]);
}

#[test]
fn pass_without_edits_changes_nothing() {
    let mut grapher: Grapher<FlatEx<f64>> = Grapher::from_url("#x,x+1");
    grapher.set_all_parsed(vec![(0, compile("x"))]);
    assert!(grapher.take_pass(Vec::new()));
    assert_eq!(texts(&grapher), vec!["x".to_string(), "x+1".to_string()]);
    assert!(grapher.entries()[0].func.is_some());
    assert!(grapher.entries()[1].func.is_none());
    assert!(grapher.error().is_none());
    assert_eq!(grapher.points(), 500);
}

#[test]
fn pass_takes_every_edit_with_its_answer() {
    let mut grapher: Grapher<FlatEx<f64>> = Grapher::from_url("#a,b,c");
    let edits = vec![
        (0, "x".to_string(), Some(compile("x"))),
        (2, "x*2".to_string(), Some(compile("x*2"))),
    ];
    assert!(grapher.take_pass(edits));
    assert_eq!(texts(&grapher), vec!["x".to_string(), "b".to_string(), "x*2".to_string()]);
    assert!(grapher.entries()[1].func.is_none());
    assert_eq!(grapher.lines(), vec![0, 2]);
    assert_eq!(grapher.entries()[2].func.as_ref().unwrap().eval(&[4.0]).unwrap(), 8.0);
}

#[test]
fn rows_edited_behind_a_failure_keep_their_function() {
    let mut grapher: Grapher<FlatEx<f64>> = Grapher::new();
    grapher.add_entry();
    grapher.add_entry();
    assert!(edit(&mut grapher, 0, "x"));
    assert!(edit(&mut grapher, 1, "x^2"));
    let edits = vec![
        (0, "x+".to_string(), Some(compile("x+"))),
        (1, "x^3".to_string(), Some(compile("x^3"))),
        (2, "x*2".to_string(), Some(compile("x*2"))),
    ];
    assert!(!grapher.take_pass(edits));
    assert_eq!(grapher.error(), Some(&compile("x+").err().unwrap()));
    assert_eq!(texts(&grapher), vec!["x+".to_string(), "x^3".to_string(), "x*2".to_string()]);
    assert!(grapher.entries()[0].func.is_none());
    assert_eq!(grapher.entries()[1].func.as_ref().unwrap().eval(&[2.0]).unwrap(), 4.0);
    assert!(grapher.entries()[2].func.is_none());
    assert!(grapher.lines().is_empty());
}

#[test]
fn text_emptied_behind_a_failure_leaves_its_row_empty() {
    let mut grapher: Grapher<FlatEx<f64>> = Grapher::new();
    grapher.add_entry();
    assert!(edit(&mut grapher, 1, "x^2"));
    let edits = vec![(0, "(".to_string(), Some(compile("("))), (1, String::new(), None)];
    assert!(!grapher.take_pass(edits));
    assert!(grapher.entries()[1].func.is_none());
    assert_eq!(grapher.entries()[1].text, "");
    assert_eq!(grapher.error(), Some(&compile("(").err().unwrap()));
}

#[test]
fn pass_leaves_rows_that_were_not_edited() {
    let mut grapher: Grapher<FlatEx<f64>> = Grapher::new();
    grapher.add_entry();
    grapher.add_entry();
    assert!(edit(&mut grapher, 0, "x"));
    assert!(!edit(&mut grapher, 2, "x+"));
    let shown = grapher.error().cloned();
    assert!(grapher.take_pass(vec![(1, "x^2".to_string(), Some(compile("x^2")))]));
    assert_eq!(grapher.entries()[0].text, "x");
    assert!(grapher.entries()[0].func.is_some());
    assert_eq!(grapher.entries()[2].text, "x+");
    assert!(grapher.entries()[2].func.is_none());
    assert_eq!(grapher.error().cloned(), shown);
    assert_eq!(grapher.entries().len(), 3);
}

#[test]
fn text_taken_without_an_answer_is_not_parsed() {
    let mut grapher: Grapher<FlatEx<f64>> = Grapher::new();
    assert!(edit(&mut grapher, 0, "x"));
    assert!(grapher.take_pass(vec![(0, "x+1".to_string(), None)]));
    assert_eq!(grapher.entries()[0].text, "x+1");
    assert_eq!(grapher.entries()[0].func.as_ref().unwrap().eval(&[2.0]).unwrap(), 2.0);
    assert!(grapher.error().is_none());
}

#[test]
fn edit_pass_stops_at_the_first_failure() {
    let mut grapher: Grapher<FlatEx<f64>> = Grapher::new();
    assert!(edit(&mut grapher, 0, "x"));
    assert!(!edit(&mut grapher, 0, "x+"));
    assert!(grapher.set_parsed(0, compile("x")));
}

#[test]
fn load_takes_every_answer() {
    let mut grapher: Grapher<FlatEx<f64>> = Grapher::from_url("#x+,x^2,(,x*2");
    let answers =
        vec![(0, compile("x+")), (1, compile("x^2")), (2, compile("(")), (3, compile("x*2"))];
    grapher.set_all_parsed(answers);
    assert!(grapher.entries()[0].func.is_none());
    assert!(grapher.entries()[1].func.is_some());
    assert!(grapher.entries()[2].func.is_none());
    assert!(grapher.entries()[3].func.is_some());
    assert_eq!(grapher.entries()[1].func.as_ref().unwrap().eval(&[3.0]).unwrap(), 9.0);
    assert_eq!(grapher.error(), Some(&compile("x+").err().unwrap()));
    assert!(grapher.lines().is_empty());
    assert!(edit(&mut grapher, 0, "x"));
    assert_eq!(grapher.error(), Some(&compile("(").err().unwrap()));
    assert_eq!(grapher.set_text(2, String::new()), None);
    assert!(grapher.error().is_none());
    assert_eq!(grapher.lines(), vec![0, 1, 3]);
}

#[test]
fn load_without_failure_shows_every_line() {
    let mut grapher: Grapher<FlatEx<f64>> = Grapher::from_url("#x,,x*2");
    let answers = vec![(0, compile("x")), (2, compile("x*2"))];
    grapher.set_all_parsed(answers);
    assert!(grapher.error().is_none());
    assert_eq!(grapher.lines(), vec![0, 2]);
    grapher.set_all_parsed(Vec::new());
    assert_eq!(grapher.lines(), vec![0, 2]);
}

#[test]
fn from_url_takes_the_texts_unparsed() {
    let grapher: Grapher<FlatEx<f64>> = Grapher::from_url("https://example.org/grapher/#x^2,sin(x)");
    assert_eq!(texts(&grapher), vec!["x^2".to_string(), "sin(x)".to_string()]);
    assert!(grapher.entries().iter().all(|e| e.func.is_none()));
    assert!(grapher.error().is_none());
    assert_eq!(grapher.points(), 500);
}

#[test]
fn from_url_without_texts_starts_with_one_empty_row() {
    for href in ["", "https://example.org/grapher/", "https://example.org/grapher/#"] {
        let grapher: Grapher<FlatEx<f64>> = Grapher::from_url(href);
        assert_eq!(texts(&grapher), vec![String::new()]);
        assert!(grapher.entries()[0].func.is_none());
    }
}

#[test]
fn url_string_of_the_rows() {
    let mut grapher: Grapher<FlatEx<f64>> = Grapher::new();
    assert_eq!(grapher.url_string(), "#");
    assert!(edit(&mut grapher, 0, "x^2"));
    grapher.add_entry();
    assert_eq!(grapher.url_string(), "#x^2,");
    assert!(edit(&mut grapher, 1, "sin(x)"));
    assert_eq!(grapher.url_string(), "#x^2,sin(x)");
}

#[test]
fn rows_come_back_from_their_url() {
    let mut grapher: Grapher<FlatEx<f64>> = Grapher::new();
    grapher.add_entry();
    grapher.add_entry();
    assert!(edit(&mut grapher, 0, "x^2"));
    assert!(edit(&mut grapher, 2, "cos(x)"));
    let href = format!("https://example.org/grapher/{}", grapher.url_string());
    let loaded: Grapher<FlatEx<f64>> = Grapher::from_url(&href);
    assert_eq!(texts(&loaded), texts(&grapher));
}
