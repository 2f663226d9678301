use termdoc::input_engine::{BindOptions, DocType, Focus, InputEngine, Mode};
use termdoc::key::parse_key;
use termdoc::token::{ArgValue, CommandRequest, Token};

fn strings(items: &[&str]) -> Vec<String> {
    items.iter().map(|s| s.to_string()).collect()
}

fn focus() -> Focus {
    Focus { doc_id: "doc-1".to_string(), doc_type: DocType::Text, insertable: true }
}

fn command(id: &str) -> Token {
    Token::Command(CommandRequest::new(id))
}

fn feed(e: &mut InputEngine, key: &str) -> Option<CommandRequest> {
    e.feed(parse_key(key).unwrap(), &focus()).unwrap()
}

fn normal_engine() -> InputEngine {
    let mut e = InputEngine::new();
    e.change_mode(Mode::Normal);
    e
}

fn text_arg(c: &CommandRequest, i: usize) -> (String, String) {
    match &c.args[i].value {
        ArgValue::Text(t) => (c.args[i].name.clone(), t.clone()),
        ArgValue::Number(_) => panic!("not text"),
    }
}

fn number_arg(c: &CommandRequest, i: usize) -> (String, u32) {
    match &c.args[i].value {
        ArgValue::Number(n) => (c.args[i].name.clone(), *n),
        ArgValue::Text(_) => panic!("not a number"),
    }
}

#[test]
fn two_key_chord_resolves_global_command() {
    let mut e = normal_engine();
    e.bind_global(Mode::Normal, &strings(&["ctrl+w", "down"]), command("window.split_down")).unwrap();
    assert!(feed(&mut e, "ctrl+w").is_none());
    assert_eq!(e.cursors.len(), 1);
    let r = feed(&mut e, "down").unwrap();
    assert_eq!(r.id, "window.split_down");
    assert!(r.args.is_empty());
    assert!(e.cursors.is_empty());
}

#[test]
fn operator_then_motion_emits_operator_command() {
    let mut e = normal_engine();
    e.pending.operator = Some("delete".to_string());
    let c = e.accept(Token::Motion("word".to_string())).unwrap();
    assert_eq!(c.id, "editor.operator");
    assert_eq!(c.args.len(), 2);
    assert_eq!(text_arg(&c, 0), ("operator".to_string(), "delete".to_string()));
    assert_eq!(text_arg(&c, 1), ("motion".to_string(), "word".to_string()));
    assert!(e.pending.operator.is_none());
}

#[test]
fn unmatched_key_gives_nothing_and_leaks_nothing() {
    let mut e = normal_engine();
    e.bind_global(Mode::Normal, &strings(&["ctrl+w", "down"]), command("window.split_down")).unwrap();
    assert!(e.feed(parse_key("z").unwrap(), &focus()).unwrap().is_none());
    assert!(e.cursors.is_empty());
    assert!(feed(&mut e, "ctrl+w").is_none());
    assert_eq!(feed(&mut e, "down").unwrap().id, "window.split_down");
}

#[test]
fn failed_chord_drops_partial_sequence() {
    let mut e = normal_engine();
    e.bind_global(Mode::Normal, &strings(&["ctrl+w", "down"]), command("window.split_down")).unwrap();
    assert!(feed(&mut e, "ctrl+w").is_none());
    assert!(feed(&mut e, "up").is_none());
    assert!(e.cursors.is_empty());
    assert!(feed(&mut e, "down").is_none());
}

#[test]
fn full_gesture_through_keys() {
    let mut e = normal_engine();
    e.bind_global(Mode::Normal, &strings(&["3"]), Token::Digit(3)).unwrap();
    e.bind_global(Mode::Normal, &strings(&["d"]), Token::Operator("delete".to_string())).unwrap();
    e.bind_global(Mode::Normal, &strings(&["w"]), Token::Motion("word".to_string())).unwrap();
    assert!(feed(&mut e, "3").is_none());
    assert_eq!(e.pending.count, Some(3));
    assert!(feed(&mut e, "d").is_none());
    let c = feed(&mut e, "w").unwrap();
    assert_eq!(c.id, "editor.operator");
    assert_eq!(c.args.len(), 3);
    assert_eq!(text_arg(&c, 0), ("operator".to_string(), "delete".to_string()));
    assert_eq!(number_arg(&c, 1), ("count".to_string(), 3));
    assert_eq!(text_arg(&c, 2), ("motion".to_string(), "word".to_string()));
    assert!(e.pending.count.is_none() && e.pending.operator.is_none());
}

#[test]
fn digits_overwrite_the_count() {
    let mut e = normal_engine();
    assert!(e.accept(Token::Digit(1)).is_none());
    assert!(e.accept(Token::Digit(2)).is_none());
    assert_eq!(e.pending.count, Some(2));
}

#[test]
fn motion_without_operator_gives_nothing() {
    let mut e = normal_engine();
    e.pending.count = Some(4);
    assert!(e.accept(Token::Motion("word".to_string())).is_none());
    assert!(e.pending.count.is_none());
}

#[test]
fn operator_command_includes_modifier_last() {
    let mut e = normal_engine();
    e.pending.operator = Some("change".to_string());
    e.pending.modifier = Some("inner".to_string());
    e.pending.motion = Some("word".to_string());
    let c = e.create_operator_command().unwrap();
    assert_eq!(c.args.len(), 3);
    assert_eq!(text_arg(&c, 2), ("modifier".to_string(), "inner".to_string()));
    assert_eq!(e.pending.operator.as_deref(), Some("change"));
}

#[test]
fn command_token_passes_through_and_clears_gesture() {
    let mut e = normal_engine();
    e.pending.operator = Some("delete".to_string());
    let c = e.accept(command("file.save")).unwrap();
    assert_eq!(c.id, "file.save");
    assert!(e.pending.operator.is_none());
}

#[test]
fn document_scope_wins_over_global() {
    let mut e = normal_engine();
    e.bind_global(Mode::Normal, &strings(&["x"]), command("global.x")).unwrap();
    e.bind_document("doc-1", Mode::Normal, &strings(&["x"]), command("doc.x")).unwrap();
    e.bind_doctype(DocType::Text, Mode::Normal, &strings(&["x"]), command("text.x")).unwrap();
    assert_eq!(feed(&mut e, "x").unwrap().id, "doc.x");
    let other = Focus { doc_id: "doc-2".to_string(), doc_type: DocType::Text, insertable: true };
    assert_eq!(e.feed(parse_key("x").unwrap(), &other).unwrap().unwrap().id, "text.x");
    let sheet = Focus { doc_id: "doc-3".to_string(), doc_type: DocType::SpreadSheet, insertable: true };
    assert_eq!(e.feed(parse_key("x").unwrap(), &sheet).unwrap().unwrap().id, "global.x");
}

#[test]
fn lower_scope_continues_when_higher_fails() {
    let mut e = normal_engine();
    e.bind_document("doc-1", Mode::Normal, &strings(&["g", "a"]), command("doc.ga")).unwrap();
    e.bind_global(Mode::Normal, &strings(&["g", "b"]), command("global.gb")).unwrap();
    assert!(feed(&mut e, "g").is_none());
    assert_eq!(e.cursors.len(), 2);
    assert_eq!(feed(&mut e, "b").unwrap().id, "global.gb");
}

#[test]
fn bind_options_choose_the_scope() {
    let mut e = normal_engine();
    let opts = BindOptions { doc: None, doc_type: Some(DocType::Info) };
    e.bind(&opts, &strings(&["i"]), command("info.i")).unwrap();
    let info = Focus { doc_id: "help".to_string(), doc_type: DocType::Info, insertable: false };
    assert_eq!(e.feed(parse_key("i").unwrap(), &info).unwrap().unwrap().id, "info.i");
    assert!(feed(&mut e, "i").is_none());
    let err = e.bind(&BindOptions { doc: None, doc_type: None }, &strings(&["what+i"]), command("x"));
    assert_eq!(err.unwrap_err(), "Unknown modifier: what");
}

#[test]
fn input_mode_routes_plain_keys_to_text() {
    let mut e = InputEngine::new();
    e.bind_global(Mode::Input, &strings(&["a"]), command("never")).unwrap();
    let a = parse_key("a").unwrap();
    assert!(e.routes_to_text(&a, &focus()));
    assert!(e.feed(a, &focus()).unwrap().is_none());
    e.bind_global(Mode::Input, &strings(&["ctrl+s"]), command("file.save")).unwrap();
    assert_eq!(feed(&mut e, "ctrl+s").unwrap().id, "file.save");
}

#[test]
fn escape_leaves_input_mode() {
    let mut e = InputEngine::new();
    e.pending.count = Some(5);
    assert!(feed(&mut e, "esc").is_none());
    assert_eq!(e.mode(), Mode::Normal);
    assert!(e.pending.count.is_none());
}

#[test]
fn change_mode_resets_walk() {
    let mut e = normal_engine();
    e.bind_global(Mode::Normal, &strings(&["g", "g"]), command("top")).unwrap();
    assert!(feed(&mut e, "g").is_none());
    e.change_mode(Mode::Visualize);
    assert!(e.cursors.is_empty());
    assert_eq!(e.mode(), Mode::Visualize);
    e.reset();
    assert!(e.pending.count.is_none());
}
