use termdoc::key::{parse_key, Key, KeyCode, Modifiers};
use termdoc::keymaps::{build_keymap_tree, insert_into_tree, parse_keys, ActionNode, Advance};
use termdoc::token::{CommandRequest, Token};

fn strings(items: &[&str]) -> Vec<String> {
    items.iter().map(|s| s.to_string()).collect()
}

fn no_mods() -> Modifiers {
    Modifiers { ctrl: false, alt: false, shift: false, super_key: false }
}

#[test]
fn parses_modifiers_and_named_key() {
    let k = parse_key("ctrl+shift+down").unwrap();
    assert_eq!(k.code, KeyCode::Down);
    assert_eq!(k.modifiers, Modifiers { ctrl: true, alt: false, shift: true, super_key: false });
}

#[test]
fn parses_names_without_regard_to_case() {
    let k = parse_key("CTRL+ENTER").unwrap();
    assert_eq!(k.code, KeyCode::Enter);
    assert!(k.modifiers.ctrl);
    let k = parse_key("Control+Alt+w").unwrap();
    assert_eq!(k.code, KeyCode::Char('w'));
    assert!(k.modifiers.ctrl && k.modifiers.alt);
    let k = parse_key("Meta+Esc").unwrap();
    assert_eq!(k.code, KeyCode::Esc);
    assert!(k.modifiers.super_key);
}

#[test]
fn parses_single_characters_and_space() {
    assert_eq!(parse_key("x").unwrap(), Key { code: KeyCode::Char('x'), modifiers: no_mods() });
    assert_eq!(parse_key("space").unwrap().code, KeyCode::Char(' '));
    assert_eq!(parse_key("f").unwrap().code, KeyCode::Char('f'));
    assert_eq!(parse_key("A").unwrap(), Key { code: KeyCode::Char('A'), modifiers: no_mods() });
    assert_eq!(parse_key("shift+W").unwrap().code, KeyCode::Char('W'));
    assert_eq!(parse_key("é").unwrap().code, KeyCode::Char('é'));
    assert_eq!(parse_key("F").unwrap().code, KeyCode::Char('F'));
}

#[test]
fn parses_function_keys() {
    assert_eq!(parse_key("f12").unwrap().code, KeyCode::F(12));
    assert_eq!(parse_key("F1").unwrap().code, KeyCode::F(1));
    assert_eq!(parse_key("f255").unwrap().code, KeyCode::F(255));
}

#[test]
fn rejects_unknown_modifier() {
    assert_eq!(parse_key("hyper+x").unwrap_err(), "Unknown modifier: hyper");
    assert_eq!(parse_key("ctrl+Foo+bar+x").unwrap_err(), "Unknown modifier: Foo");
}

#[test]
fn rejects_unknown_key() {
    assert_eq!(parse_key("ctrl+Banana").unwrap_err(), "Unknown key: Banana");
    assert_eq!(parse_key("").unwrap_err(), "Unknown key: ");
}

#[test]
fn rejects_invalid_function_key() {
    assert_eq!(parse_key("f256").unwrap_err(), "Invalid function key: f256");
    assert_eq!(parse_key("fx").unwrap_err(), "Invalid function key: fx");
}

#[test]
fn printable_keys() {
    let mut k = parse_key("a").unwrap();
    assert!(k.is_printable());
    let mut k = parse_key("tab").unwrap();
    assert!(k.is_printable());
    let mut k = parse_key("enter").unwrap();
    assert!(!k.is_printable());
    let mut k = Key { code: KeyCode::Char('\u{7}'), modifiers: no_mods() };
    assert!(!k.is_printable());
}

#[test]
fn parse_keys_reports_first_bad_text() {
    let r = parse_keys(&strings(&["a", "bogus", "also+bad"]));
    assert_eq!(r.unwrap_err(), "Unknown key: bogus");
    let ks = parse_keys(&strings(&["ctrl+w", "down"])).unwrap();
    assert_eq!(ks.len(), 2);
    assert_eq!(ks[1].code, KeyCode::Down);
}

fn command(id: &str) -> Token {
    Token::Command(CommandRequest::new(id))
}

fn command_id(t: &Token) -> String {
    match t {
        Token::Command(c) => c.id.clone(),
        _ => panic!("not a command"),
    }
}

#[test]
fn inserted_sequence_walks_to_its_action() {
    let mut root = ActionNode::new();
    insert_into_tree(&mut root, &strings(&["ctrl+w", "down", "x"]), command("a")).unwrap();
    let k1 = parse_key("ctrl+w").unwrap();
    let k2 = parse_key("down").unwrap();
    let k3 = parse_key("x").unwrap();
    assert!(matches!(root.advance(&k1), Advance::Continuing));
    let n1 = root.step(&k1).unwrap();
    assert!(matches!(n1.advance(&k2), Advance::Continuing));
    let n2 = n1.step(&k2).unwrap();
    assert!(matches!(n2.advance(&k3), Advance::Matched));
    let n3 = root.walk(&[k1, k2, k3]).unwrap();
    assert_eq!(command_id(n3.action.as_ref().unwrap()), "a");
}

#[test]
fn shared_prefix_keeps_both_actions() {
    let mut root = ActionNode::new();
    insert_into_tree(&mut root, &strings(&["g", "g"]), command("top")).unwrap();
    insert_into_tree(&mut root, &strings(&["g", "t"]), command("next")).unwrap();
    let g = parse_key("g").unwrap();
    let t = parse_key("t").unwrap();
    assert_eq!(command_id(root.walk(&[g, g]).unwrap().action.as_ref().unwrap()), "top");
    assert_eq!(command_id(root.walk(&[g, t]).unwrap().action.as_ref().unwrap()), "next");
    assert!(root.walk(&[g]).unwrap().action.is_none());
}

#[test]
fn later_binding_replaces_earlier() {
    let mut root = ActionNode::new();
    insert_into_tree(&mut root, &strings(&["q"]), command("first")).unwrap();
    insert_into_tree(&mut root, &strings(&["q"]), command("second")).unwrap();
    let q = parse_key("q").unwrap();
    assert_eq!(command_id(root.walk(&[q]).unwrap().action.as_ref().unwrap()), "second");
    assert_eq!(root.children.len(), 1);
}

#[test]
fn missing_edge_is_dead() {
    let root = build_keymap_tree(&strings(&["a"]), command("a")).unwrap();
    let b = parse_key("b").unwrap();
    assert!(matches!(root.advance(&b), Advance::Dead));
    assert!(root.walk(&[b]).is_none());
}

#[test]
fn bad_key_leaves_trie_alone() {
    let mut root = ActionNode::new();
    let r = insert_into_tree(&mut root, &strings(&["a", "nope"]), command("a"));
    assert_eq!(r.unwrap_err(), "Unknown key: nope");
    assert!(root.children.is_empty());
    assert!(build_keymap_tree(&strings(&["shift+nope"]), command("a")).is_err());
}

#[test]
fn empty_sequence_binds_nothing() {
    let root = build_keymap_tree(&Vec::new(), command("a")).unwrap();
    assert!(root.children.is_empty());
    assert!(root.action.is_none());
}

#[test]
fn collect_lists_actions_in_preorder() {
    let mut root = ActionNode::new();
    insert_into_tree(&mut root, &strings(&["a", "b"]), command("ab")).unwrap();
    insert_into_tree(&mut root, &strings(&["a"]), command("a")).unwrap();
    insert_into_tree(&mut root, &strings(&["c"]), Token::Digit(3)).unwrap();
    let mut out = Vec::new();
    root.collect(&mut out);
    assert_eq!(out.len(), 3);
    assert_eq!(command_id(&out[0]), "a");
    assert_eq!(command_id(&out[1]), "ab");
    assert!(matches!(out[2], Token::Digit(3)));
}
