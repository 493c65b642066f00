use urun::config::Config;
use urun::controller::Controller;
use urun::controller::RunChoice;

fn config_with(entries: &[&str]) -> Config {
    Config {
        history: entries.iter().map(|s| s.to_string()).collect(),
    }
}

#[test]
fn default_config_has_empty_history() {
    let c = Config::default();
    assert_eq!(c.history.len(), 0);
}

#[test]
fn push_history_appends_in_order() {
    let mut c = Config::default();
    c.push_history("first".to_string());
    c.push_history("second".to_string());
    c.push_history("third".to_string());
    assert_eq!(c.history, vec!["first", "second", "third"]);
}

#[test]
fn history_round_trip() {
    let mut c = Config::default();
    c.push_history("ls -la".to_string());
    c.push_history("echo \"hello world\"".to_string());
    c.push_history("grep -r 'needle' .".to_string());
    c.push_history("tab\there".to_string());
    c.push_history("ünïcödé λ".to_string());
    let doc = c.to_doc();
    let back = Config::from_doc(doc.as_str());
    assert_eq!(back.history, c.history);
}

#[test]
fn empty_history_round_trip() {
    let c = Config::default();
    let back = Config::from_doc(c.to_doc().as_str());
    assert_eq!(back.history.len(), 0);
}

#[test]
fn corrupt_document_falls_back_to_default() {
    let back = Config::from_doc("not { remotely [ valid");
    assert_eq!(back.history.len(), 0);

    // Valid document, but the field holds the wrong kind of data.
    let back = Config::from_doc("history = 5");
    assert_eq!(back.history.len(), 0);

    let back = Config::from_doc("history = [1, 2, 3]");
    assert_eq!(back.history.len(), 0);
}

#[test]
fn handwritten_document_parses() {
    let back = Config::from_doc("history = [\"make\", \"make install\"]");
    assert_eq!(back.history, vec!["make", "make install"]);
}

#[test]
fn recall_walks_back_and_stops_at_oldest() {
    let mut ctl = Controller::new(config_with(&["oldest", "middle", "newest"]));
    assert_eq!(ctl.input, "");
    assert!(ctl.history_idx.is_none());

    ctl.recall_previous();
    assert_eq!(ctl.input, "newest");
    ctl.recall_previous();
    assert_eq!(ctl.input, "middle");
    ctl.recall_previous();
    assert_eq!(ctl.input, "oldest");
    // Clamped: a further step is a no-op, edits to the recalled text
    // included.
    ctl.input = "oldest --edited".to_string();
    ctl.recall_previous();
    assert_eq!(ctl.input, "oldest --edited");
    assert_eq!(ctl.history_idx, Some(2));
}

#[test]
fn recall_walks_forward_and_returns_to_live() {
    let mut ctl = Controller::new(config_with(&["oldest", "middle", "newest"]));
    ctl.recall_previous();
    ctl.recall_previous();
    ctl.recall_previous();
    assert_eq!(ctl.input, "oldest");

    ctl.recall_next();
    assert_eq!(ctl.input, "middle");
    ctl.recall_next();
    assert_eq!(ctl.input, "newest");
    ctl.recall_next();
    assert_eq!(ctl.input, "");
    assert!(ctl.history_idx.is_none());
    // Idempotent once live.
    ctl.recall_next();
    assert_eq!(ctl.input, "");
    assert!(ctl.history_idx.is_none());
}

#[test]
fn recall_on_empty_history_is_a_no_op() {
    let mut ctl = Controller::new(Config::default());
    ctl.input = "half-typed command".to_string();
    ctl.recall_previous();
    assert_eq!(ctl.input, "half-typed command");
    assert!(ctl.history_idx.is_none());
    ctl.recall_next();
    assert_eq!(ctl.input, "half-typed command");
    assert!(ctl.history_idx.is_none());
}

#[test]
fn recall_next_when_live_keeps_typed_input() {
    let mut ctl = Controller::new(config_with(&["older", "newer"]));
    ctl.input = "draft".to_string();
    ctl.recall_next();
    assert_eq!(ctl.input, "draft");
    assert!(ctl.history_idx.is_none());
}

#[test]
fn execute_appends_exactly_one_entry() {
    let mut ctl = Controller::new(config_with(&["before"]));
    ctl.input = "firefox".to_string();
    ctl.recall_previous();
    assert!(ctl.history_idx.is_some());

    ctl.record_execution("firefox".to_string());
    assert_eq!(ctl.config.history, vec!["before", "firefox"]);
    assert!(ctl.history_idx.is_none());
    assert_eq!(ctl.input, "");

    ctl.record_execution("mutt".to_string());
    assert_eq!(ctl.config.history, vec!["before", "firefox", "mutt"]);
}

#[test]
fn focus_moves_stay_in_bounds() {
    let mut ctl = Controller::new(Config::default());
    assert_eq!(ctl.focused, 0);

    // No results: neither direction underflows or moves.
    ctl.focus_down(0);
    assert_eq!(ctl.focused, 0);
    ctl.focus_up();
    assert_eq!(ctl.focused, 0);

    ctl.focus_down(3);
    assert_eq!(ctl.focused, 1);
    ctl.focus_down(3);
    assert_eq!(ctl.focused, 2);
    ctl.focus_down(3);
    assert_eq!(ctl.focused, 2);
    ctl.focus_up();
    assert_eq!(ctl.focused, 1);
    ctl.reset_focus();
    assert_eq!(ctl.focused, 0);
}

#[test]
fn run_choice_picks_entry_then_raw_then_nothing() {
    let mut ctl = Controller::new(Config::default());
    ctl.input = "htop".to_string();
    assert!(matches!(ctl.run_choice(4), RunChoice::Entry));
    assert!(matches!(ctl.run_choice(0), RunChoice::Raw));
    ctl.input = String::new();
    assert!(matches!(ctl.run_choice(0), RunChoice::Nothing));
    assert!(matches!(ctl.run_choice(1), RunChoice::Entry));
}
