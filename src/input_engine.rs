use vstd::prelude::*;

use crate::entries::{
    entry_index, find_entry, lemma_entry_index, lemma_entry_index_push, lemma_entry_index_same_names,
    lemma_unique_push, unique_names,
};
use crate::key::{Key, KeyCode, Modifier};
use crate::keymaps::{bound_alone, inserted, parse_keys, parse_keys_spec, ActionNode};
use crate::token::{ArgValueView, CommandArg, CommandRequest, CommandView, Token, TokenView};

verus! {

/// The input mode of the editor.
#[derive(Debug, Clone, Copy, PartialEq, Eq, Hash, Structural)]
pub enum Mode {
    Input,
    Visualize,
    Normal,
}

/// The kind of a document.
#[derive(Debug, Clone, Copy, PartialEq, Eq, Hash, Structural)]
pub enum DocType {
    SpreadSheet,
    Info,
    Text,
}

/// Where a binding goes: the document `doc` where given, else documents of
/// kind `doc_type` where given, else everywhere.
pub struct BindOptions {
    pub doc: Option<String>,
    pub doc_type: Option<DocType>,
}

/// A document that takes typed text in input mode.
pub trait InsertModeProvider {
    fn handle_key(&mut self, window: &mut crate::workspace::WindowState, key: Key) -> Result<(), String>;
}

/// What the focused window shows: its document, that document's kind, and
/// whether that kind takes typed text.
pub struct Focus {
    pub doc_id: String,
    pub doc_type: DocType,
    pub insertable: bool,
}

/// `new` holds the binding of `ks` to `action` made in `old` (or in a fresh
/// trie where there was none).
pub open spec fn bound(old: Option<ActionNode>, new: Option<ActionNode>, ks: Seq<Key>, action: Token) -> bool {
    match new {
        None => false,
        Some(n) => match old {
            Some(o) => if ks.len() == 0 {
                n == o
            } else {
                inserted(o, n, ks, action)
            },
            None => if ks.len() == 0 {
                n.children@.len() == 0 && n.action is None
            } else {
                bound_alone(n, ks, action)
            },
        },
    }
}

/// `new` is `old` after binding `action` to the keys written in `ks` in mode
/// `mode`, with the outcome `r`: an error naming the first text that is not a
/// key, with nothing changed; or the binding made in that mode's trie (made
/// where there was none), the other modes left alone.
pub open spec fn binds(
    old: ModeMaps,
    new: ModeMaps,
    mode: Mode,
    ks: Seq<String>,
    action: Token,
    r: Result<(), String>,
) -> bool {
    match parse_keys_spec(ks) {
        Err(e) => r matches Err(m) && m@ == e && new == old,
        Ok(keys) => {
            &&& r is Ok
            &&& bound(old.get_spec(mode), new.get_spec(mode), keys, action)
            &&& forall|m: Mode| m != mode ==> #[trigger] new.get_spec(m) == old.get_spec(m)
        },
    }
}

/// One trie per mode, where bindings were made.
pub struct ModeMaps {
    pub input: Option<ActionNode>,
    pub visualize: Option<ActionNode>,
    pub normal: Option<ActionNode>,
}

impl ModeMaps {
    /// Each trie keeps its keys unique at every node.
    pub open spec fn wf(self) -> bool {
        &&& (self.get_spec(Mode::Input) matches Some(n) ==> n.wf())
        &&& (self.get_spec(Mode::Visualize) matches Some(n) ==> n.wf())
        &&& (self.get_spec(Mode::Normal) matches Some(n) ==> n.wf())
    }

    pub open spec fn get_spec(self, mode: Mode) -> Option<ActionNode> {
        match mode {
            Mode::Input => self.input,
            Mode::Visualize => self.visualize,
            Mode::Normal => self.normal,
        }
    }

    /// No bindings.
    pub fn new() -> (r: ModeMaps)
        ensures
            r.input is None && r.visualize is None && r.normal is None,
            r.wf(),
    {
        ModeMaps { input: None, visualize: None, normal: None }
    }

    /// The trie of `mode`.
    pub fn get(&self, mode: Mode) -> (r: Option<&ActionNode>)
        ensures
            match r {
                Some(n) => self.get_spec(mode) == Some(*n),
                None => self.get_spec(mode) is None,
            },
    {
        let slot = match mode {
            Mode::Input => &self.input,
            Mode::Visualize => &self.visualize,
            Mode::Normal => &self.normal,
        };
        match slot {
            Some(n) => Some(n),
            None => None,
        }
    }

    fn take(&mut self, mode: Mode) -> (r: Option<ActionNode>)
        ensures
            r == old(self).get_spec(mode),
            final(self).get_spec(mode) is None,
            forall|m: Mode| m != mode ==> #[trigger] final(self).get_spec(m) == old(self).get_spec(m),
    {
        match mode {
            Mode::Input => {
                let r = self.input.take();
                r
            },
            Mode::Visualize => {
                let r = self.visualize.take();
                r
            },
            Mode::Normal => {
                let r = self.normal.take();
                r
            },
        }
    }

    fn put(&mut self, mode: Mode, n: ActionNode)
        ensures
            final(self).get_spec(mode) == Some(n),
            forall|m: Mode| m != mode ==> #[trigger] final(self).get_spec(m) == old(self).get_spec(m),
    {
        match mode {
            Mode::Input => self.input = Some(n),
            Mode::Visualize => self.visualize = Some(n),
            Mode::Normal => self.normal = Some(n),
        }
    }

    /// Binds `action` to the key sequence written in `key_sequence` in the
    /// trie of `mode`, which is made where there was none. Where a text is not
    /// a key, the error names it and nothing changes.
    pub fn bind(&mut self, mode: Mode, key_sequence: &[String], action: Token) -> (r: Result<(), String>)
        ensures
            binds(*old(self), *final(self), mode, key_sequence@, action, r),
            old(self).wf() ==> final(self).wf(),
    {
        let keys = parse_keys(key_sequence)?;
        let mut root = match self.take(mode) {
            Some(n) => n,
            None => ActionNode::new(),
        };
        let ghost before = root;
        root.insert(keys.as_slice(), action);
        proof {
            if old(self).get_spec(mode) is None && keys@.len() > 0 {
                crate::keymaps::lemma_insert_into_empty(before, root, keys@, action);
            }
        }
        self.put(mode, root);
        Ok(())
    }
}

/// The tries of each kind of document.
pub struct DocTypeMaps {
    pub spreadsheet: ModeMaps,
    pub info: ModeMaps,
    pub text: ModeMaps,
}

impl DocTypeMaps {
    pub open spec fn wf(self) -> bool {
        self.get_spec(DocType::SpreadSheet).wf() && self.get_spec(DocType::Info).wf() && self.get_spec(
            DocType::Text,
        ).wf()
    }

    pub open spec fn get_spec(self, t: DocType) -> ModeMaps {
        match t {
            DocType::SpreadSheet => self.spreadsheet,
            DocType::Info => self.info,
            DocType::Text => self.text,
        }
    }

    pub fn new() -> (r: DocTypeMaps)
        ensures
            forall|t: DocType, m: Mode| #[trigger] r.get_spec(t).get_spec(m) is None,
            r.wf(),
    {
        DocTypeMaps { spreadsheet: ModeMaps::new(), info: ModeMaps::new(), text: ModeMaps::new() }
    }

    fn slot(&mut self, t: DocType) -> (r: &mut ModeMaps)
        ensures
            *r == old(self).get_spec(t),
            final(self).get_spec(t) == *final(r),
            forall|u: DocType| u != t ==> #[trigger] final(self).get_spec(u) == old(self).get_spec(u),
    {
        match t {
            DocType::SpreadSheet => &mut self.spreadsheet,
            DocType::Info => &mut self.info,
            DocType::Text => &mut self.text,
        }
    }

    pub fn get(&self, t: DocType) -> (r: &ModeMaps)
        ensures
            *r == self.get_spec(t),
    {
        match t {
            DocType::SpreadSheet => &self.spreadsheet,
            DocType::Info => &self.info,
            DocType::Text => &self.text,
        }
    }
}

/// Where a layer of bindings comes from.
pub enum Scope {
    Document(String),
    DocType(DocType),
    Global,
}

/// The pending parts of a count/operator/motion gesture.
pub struct PendingState {
    pub count: Option<u32>,
    pub operator: Option<String>,
    pub modifier: Option<String>,
    pub motion: Option<String>,
}

impl PendingState {
    pub open spec fn is_clear(self) -> bool {
        self.count is None && self.operator is None && self.modifier is None && self.motion is None
    }

    /// Nothing pending.
    pub fn new() -> (r: PendingState)
        ensures
            r.is_clear(),
    {
        PendingState { count: None, operator: None, modifier: None, motion: None }
    }
}

pub open spec fn text_arg(name: Seq<char>, v: Option<String>) -> Seq<(Seq<char>, ArgValueView)> {
    match v {
        Some(s) => seq![(name, ArgValueView::Text(s@))],
        None => Seq::empty(),
    }
}

pub open spec fn number_arg(name: Seq<char>, v: Option<u32>) -> Seq<(Seq<char>, ArgValueView)> {
    match v {
        Some(n) => seq![(name, ArgValueView::Number(n))],
        None => Seq::empty(),
    }
}

/// The `editor.operator` request that a pending gesture makes: its operator,
/// count, motion and modifier in that order, each only where it is set; none
/// without an operator.
pub open spec fn operator_command_spec(p: PendingState) -> Option<CommandView> {
    match p.operator {
        None => None,
        Some(op) => Some(
            CommandView {
                id: "editor.operator"@,
                args: text_arg("operator"@, Some(op)) + number_arg("count"@, p.count) + text_arg(
                    "motion"@,
                    p.motion,
                ) + text_arg("modifier"@, p.modifier),
            },
        ),
    }
}

/// Turns keys into command requests: walks the tries of the scopes that apply
/// to the focused document, and composes count/operator/motion gestures.
///
/// A walk fixes its scopes when it starts; each cursor is the key sequence
/// walked so far in its scope's trie, which is looked up afresh on each key.
pub struct InputEngine {
    /// The key sequence walked so far in each scope of the walk in progress,
    /// `None` where that scope has failed; empty where no walk is in progress.
    pub cursors: Vec<Option<Vec<Key>>>,
    /// The scope of each cursor, highest priority first.
    pub scopes: Vec<Scope>,
    pub pending: PendingState,
    pub mode: Mode,
    pub global_map: ModeMaps,
    pub document_map: Vec<(String, ModeMaps)>,
    pub doctype_map: DocTypeMaps,
}

/// The cursor `c` of a walk in the trie `root`, advanced by `k`: `None` once
/// no edge is left to follow.
pub open spec fn advanced(root: Option<ActionNode>, c: Option<Seq<Key>>, k: Key) -> Option<Seq<Key>> {
    match (root, c) {
        (Some(r), Some(p)) => if r.node_at(p.push(k)) is Some {
            Some(p.push(k))
        } else {
            None
        },
        _ => None,
    }
}

/// The action that advancing the cursor `c` by `k` reaches.
pub open spec fn matched(root: Option<ActionNode>, c: Option<Seq<Key>>, k: Key) -> Option<Token> {
    match (root, c) {
        (Some(r), Some(p)) => r.action_at(p.push(k)),
        _ => None,
    }
}

impl InputEngine {
    /// One scope per cursor, at most one entry per document among the
    /// per-document bindings, and every trie with unique keys at each node.
    pub open spec fn wf(self) -> bool {
        &&& self.cursors@.len() == self.scopes@.len()
        &&& unique_names(self.document_map@)
        &&& self.global_map.wf()
        &&& self.doctype_map.wf()
        &&& forall|i: int| 0 <= i < self.document_map@.len() ==> (#[trigger] self.document_map@[i]).1.wf()
    }

    /// The bindings made for the document `id`.
    pub open spec fn doc_maps(self, id: Seq<char>) -> Option<ModeMaps> {
        let i = entry_index(self.document_map@, id);
        if i < self.document_map@.len() {
            Some(self.document_map@[i].1)
        } else {
            None
        }
    }

    /// The trie of `sc` in the current mode.
    pub open spec fn root_of(self, sc: Scope) -> Option<ActionNode> {
        match sc {
            Scope::Document(d) => match self.doc_maps(d@) {
                Some(m) => m.get_spec(self.mode),
                None => None,
            },
            Scope::DocType(t) => self.doctype_map.get_spec(t).get_spec(self.mode),
            Scope::Global => self.global_map.get_spec(self.mode),
        }
    }

    /// The scopes that have a trie in the current mode for the focused
    /// document, highest priority first: the document, its kind, everything.
    pub open spec fn stack_spec(self, focus: Focus) -> Seq<Scope> {
        let d = Scope::Document(focus.doc_id);
        let t = Scope::DocType(focus.doc_type);
        (if self.root_of(d) is Some {
            seq![d]
        } else {
            Seq::empty()
        }) + (if self.root_of(t) is Some {
            seq![t]
        } else {
            Seq::empty()
        }) + (if self.root_of(Scope::Global) is Some {
            seq![Scope::Global]
        } else {
            Seq::empty()
        })
    }

    /// The scopes and cursors that the next key advances: those of the walk in
    /// progress, or a fresh cursor at the root of each scope that applies.
    pub open spec fn walk_start(self, focus: Focus) -> (Seq<Scope>, Seq<Option<Seq<Key>>>) {
        if self.cursors@.len() > 0 {
            (self.scopes@, self.cursors@.map_values(|c: Option<Vec<Key>>| opt_path(c)))
        } else {
            let s = self.stack_spec(focus);
            (s, Seq::new(s.len(), |i: int| Some(Seq::<Key>::empty())))
        }
    }

    /// The cursors of `self` as key sequences.
    pub open spec fn paths(self) -> Seq<Option<Seq<Key>>> {
        self.cursors@.map_values(|c: Option<Vec<Key>>| opt_path(c))
    }

    /// The key routes to the focused document's text input: typed in input
    /// mode, without Ctrl or Alt, other than Escape, in a document that takes
    /// text.
    pub open spec fn routes_to_text_spec(self, key: Key, focus: Focus) -> bool {
        self.mode == Mode::Input && !(key.code == KeyCode::Esc || key.modifiers.ctrl
            || key.modifiers.alt) && focus.insertable
    }
}

pub open spec fn opt_path(c: Option<Vec<Key>>) -> Option<Seq<Key>> {
    match c {
        Some(v) => Some(v@),
        None => None,
    }
}

/// `i` is the first cursor, by priority, whose advance by `k` reaches an action.
pub open spec fn first_match(e: InputEngine, scopes: Seq<Scope>, cs: Seq<Option<Seq<Key>>>, k: Key, i: int) -> bool {
    &&& 0 <= i < cs.len()
    &&& matched(e.root_of(scopes[i]), cs[i], k) is Some
    &&& forall|j: int| 0 <= j < i ==> matched(e.root_of(scopes[j]), cs[j], k) is None
}

pub open spec fn opt_token_view(t: Option<Token>) -> Option<TokenView> {
    match t {
        Some(x) => Some(x@),
        None => None,
    }
}

pub open spec fn opt_view(o: Option<CommandRequest>) -> Option<CommandView> {
    match o {
        Some(c) => Some(c@),
        None => None,
    }
}

/// `b` is `a` with its pending gesture changed at most.
pub open spec fn same_but_pending(a: InputEngine, b: InputEngine) -> bool {
    &&& b.cursors == a.cursors
    &&& b.scopes == a.scopes
    &&& b.mode == a.mode
    &&& b.global_map == a.global_map
    &&& b.document_map == a.document_map
    &&& b.doctype_map == a.doctype_map
}

/// `b` is `a` with the bindings and mode kept, no walk in progress and nothing
/// pending.
pub open spec fn is_reset_of(a: InputEngine, b: InputEngine) -> bool {
    &&& b.cursors@.len() == 0
    &&& b.scopes@.len() == 0
    &&& b.pending.is_clear()
    &&& b.mode == a.mode
    &&& b.global_map == a.global_map
    &&& b.document_map == a.document_map
    &&& b.doctype_map == a.doctype_map
}

/// `b` is `a` with only the walk changed.
pub open spec fn same_but_walk(a: InputEngine, b: InputEngine) -> bool {
    &&& b.pending == a.pending
    &&& b.mode == a.mode
    &&& b.global_map == a.global_map
    &&& b.document_map == a.document_map
    &&& b.doctype_map == a.doctype_map
}

/// One key through the tries: `t` is the token that the key completes, if any.
/// A completed sequence ends the walk; a key on which every cursor fails ends
/// the walk and drops the pending gesture; otherwise the live cursors advance.
pub open spec fn walk_step(a: InputEngine, b: InputEngine, key: Key, focus: Focus, t: Option<TokenView>) -> bool {
    let (sc, cs) = a.walk_start(focus);
    let live = exists|j: int| 0 <= j < cs.len() && advanced(a.root_of(sc[j]), cs[j], key) is Some;
    &&& b.wf()
    &&& match t {
        Some(v) => {
            &&& exists|i: int| first_match(a, sc, cs, key, i) && v == matched(a.root_of(sc[i]), cs[i], key)->Some_0@
            &&& b.cursors@.len() == 0 && b.scopes@.len() == 0
            &&& same_but_walk(a, b)
        },
        None => {
            &&& forall|i: int| 0 <= i < cs.len() ==> matched(a.root_of(sc[i]), cs[i], key) is None
            &&& if live {
                &&& b.scopes@ == sc
                &&& b.paths() == Seq::new(cs.len(), |j: int| advanced(a.root_of(sc[j]), cs[j], key))
                &&& same_but_walk(a, b)
            } else {
                is_reset_of(a, b)
            }
        },
    }
}

/// A token handed to the gesture accumulator: a digit sets the count, an
/// operator the operator; a motion completes the gesture into its request and
/// a command request passes through, both ending the walk and the gesture.
pub open spec fn accept_step(a: InputEngine, b: InputEngine, t: Token, r: Option<CommandRequest>) -> bool {
    match t {
        Token::Digit(d) => r is None && same_but_pending(a, b) && b.pending == PendingState {
            count: Some(d),
            ..a.pending
        },
        Token::Operator(op) => r is None && same_but_pending(a, b) && b.pending == PendingState {
            operator: Some(op),
            ..a.pending
        },
        Token::Motion(m) => opt_view(r) == operator_command_spec(
            PendingState { motion: Some(m), ..a.pending },
        ) && is_reset_of(a, b),
        Token::Command(c) => opt_view(r) == Some(c@) && is_reset_of(a, b),
    }
}

/// Escape in input mode switches to normal mode and drops the walk and the
/// pending gesture; any other key leaves the engine as it is.
pub open spec fn escape_step(a: InputEngine, b: InputEngine, key: Key) -> bool {
    if a.mode == Mode::Input && key.code == KeyCode::Esc {
        is_reset_of(InputEngine { mode: Mode::Normal, ..a }, b) && b.mode == Mode::Normal
    } else {
        b == a
    }
}

/// The keys `p` followed by `k`.
fn extended(p: &Vec<Key>, k: Key) -> (r: Vec<Key>)
    ensures
        r@ == p@.push(k),
{
    let mut q: Vec<Key> = Vec::new();
    let mut i: usize = 0;
    while i < p.len()
        invariant
            i <= p@.len(),
            q@ == p@.subrange(0, i as int),
        decreases p@.len() - i,
    {
        q.push(p[i]);
        assert(p@.subrange(0, i + 1) == p@.subrange(0, i as int).push(p@[i as int]));
        i = i + 1;
    }
    assert(p@.subrange(0, i as int) == p@);
    q.push(k);
    q
}

impl InputEngine {
    /// No bindings, no walk, nothing pending, in input mode.
    pub fn new() -> (r: InputEngine)
        ensures
            r.wf(),
            r.cursors@.len() == 0,
            r.pending.is_clear(),
            r.mode == Mode::Input,
            r.document_map@.len() == 0,
            forall|m: Mode| #[trigger] r.global_map.get_spec(m) is None,
            forall|t: DocType, m: Mode| #[trigger] r.doctype_map.get_spec(t).get_spec(m) is None,
    {
        InputEngine {
            cursors: Vec::new(),
            scopes: Vec::new(),
            pending: PendingState::new(),
            mode: Mode::Input,
            global_map: ModeMaps::new(),
            document_map: Vec::new(),
            doctype_map: DocTypeMaps::new(),
        }
    }

    /// The current mode.
    pub fn mode(&self) -> (r: Mode)
        ensures
            r == self.mode,
    {
        self.mode
    }

    /// Drops the walk in progress and the pending gesture.
    pub fn reset(&mut self)
        ensures
            is_reset_of(*old(self), *final(self)),
            old(self).wf() ==> final(self).wf(),
    {
        self.cursors = Vec::new();
        self.scopes = Vec::new();
        self.pending = PendingState::new();
    }

    /// Switches to `mode`, dropping the walk in progress and the pending gesture.
    pub fn change_mode(&mut self, mode: Mode)
        ensures
            is_reset_of(InputEngine { mode, ..*old(self) }, *final(self)),
            final(self).mode == mode,
            old(self).wf() ==> final(self).wf(),
    {
        self.reset();
        self.mode = mode;
    }

    /// The entry of the document `id` in the per-document bindings.
    fn find_doc(&self, id: &str) -> (r: usize)
        ensures
            r == entry_index(self.document_map@, id@),
    {
        find_entry(&self.document_map, id)
    }

    /// The trie of `sc` in the current mode.
    pub fn root(&self, sc: &Scope) -> (r: Option<&ActionNode>)
        ensures
            match r {
                Some(n) => self.root_of(*sc) == Some(*n),
                None => self.root_of(*sc) is None,
            },
    {
        match sc {
            Scope::Document(d) => {
                let i = self.find_doc(d.as_str());
                if i < self.document_map.len() {
                    self.document_map[i].1.get(self.mode)
                } else {
                    None
                }
            },
            Scope::DocType(t) => self.doctype_map.get(*t).get(self.mode),
            Scope::Global => self.global_map.get(self.mode),
        }
    }

    /// The scopes that have a trie in the current mode for the focused
    /// document, highest priority first.
    pub fn current_keymap_stack(&self, focus: &Focus) -> (r: Vec<Scope>)
        ensures
            r@ == self.stack_spec(*focus),
    {
        let mut chain: Vec<Scope> = Vec::new();
        let d = Scope::Document(focus.doc_id.clone());
        let t = Scope::DocType(focus.doc_type);
        if self.root(&d).is_some() {
            chain.push(d);
        }
        if self.root(&t).is_some() {
            chain.push(t);
        }
        if self.global_map.get(self.mode).is_some() {
            chain.push(Scope::Global);
        }
        assert(chain@ =~= self.stack_spec(*focus));
        chain
    }

    /// Cursor `i` advanced by `key`, and the action that the advance reaches.
    fn advance_cursor(&self, i: usize, key: Key) -> (r: (Option<Vec<Key>>, Option<Token>))
        requires
            self.wf(),
            i < self.cursors@.len(),
        ensures
            opt_path(r.0) == advanced(self.root_of(self.scopes@[i as int]), self.paths()[i as int], key),
            match r.1 {
                Some(t) => matched(self.root_of(self.scopes@[i as int]), self.paths()[i as int], key) matches Some(a)
                    && t@ == a@,
                None => matched(self.root_of(self.scopes@[i as int]), self.paths()[i as int], key) is None,
            },
    {
        match &self.cursors[i] {
            None => (None, None),
            Some(p) => {
                match self.root(&self.scopes[i]) {
                    None => (None, None),
                    Some(root) => {
                        let q = extended(p, key);
                        match root.walk(q.as_slice()) {
                            None => (None, None),
                            Some(node) => {
                                let t = match &node.action {
                                    Some(a) => Some(a.duplicate()),
                                    None => None,
                                };
                                (Some(q), t)
                            },
                        }
                    },
                }
            },
        }
    }

    /// Advances the walk by one key and returns the token that the key
    /// completes in the scope of highest priority, if any.
    pub fn get_token(&mut self, key: Key, focus: &Focus) -> (r: Option<Token>)
        requires
            old(self).wf(),
        ensures
            walk_step(*old(self), *final(self), key, *focus, opt_token_view(r)),
    {
        let ghost a = *self;
        let ghost sc = a.walk_start(*focus).0;
        let ghost cs = a.walk_start(*focus).1;
        if self.cursors.len() == 0 {
            let stack = self.current_keymap_stack(focus);
            let mut fresh: Vec<Option<Vec<Key>>> = Vec::new();
            let mut i: usize = 0;
            while i < stack.len()
                invariant
                    i <= stack@.len(),
                    fresh@.len() == i,
                    forall|j: int| 0 <= j < i ==> opt_path(#[trigger] fresh@[j]) == Some(Seq::<Key>::empty()),
                decreases stack@.len() - i,
            {
                fresh.push(Some(Vec::new()));
                i = i + 1;
            }
            self.scopes = stack;
            self.cursors = fresh;
        }
        assert(self.paths() =~= cs);
        assert(self.scopes@ == sc);
        let n = self.cursors.len();
        let mut found: Option<Token> = None;
        let mut next: Vec<Option<Vec<Key>>> = Vec::new();
        let mut live = false;
        let mut i: usize = 0;
        while i < n
            invariant
                self.wf(),
                n == self.cursors@.len(),
                self.paths() == cs,
                self.scopes@ == sc,
                cs.len() == sc.len(),
                same_but_walk(a, *self),
                i <= n,
                next@.len() == i,
                forall|j: int| 0 <= j < i ==> opt_path(#[trigger] next@[j]) == advanced(a.root_of(sc[j]), cs[j], key),
                live == exists|j: int| 0 <= j < i && advanced(a.root_of(sc[j]), cs[j], key) is Some,
                match found {
                    Some(t) => exists|j: int| 0 <= j < i && first_match(a, sc, cs, key, j) && t@ == matched(a.root_of(sc[j]), cs[j], key)->Some_0@,
                    None => forall|j: int| 0 <= j < i ==> matched(a.root_of(sc[j]), cs[j], key) is None,
                },
            decreases n - i,
        {
            let (c, t) = self.advance_cursor(i, key);
            assert(self.root_of(sc[i as int]) == a.root_of(sc[i as int]));
            if c.is_some() {
                live = true;
            }
            next.push(c);
            if found.is_none() {
                found = t;
                proof {
                    if found is Some {
                        assert(first_match(a, sc, cs, key, i as int));
                    }
                }
            }
            i = i + 1;
        }
        match found {
            Some(t) => {
                self.cursors = Vec::new();
                self.scopes = Vec::new();
                Some(t)
            },
            None => {
                if !live {
                    self.reset();
                } else {
                    self.cursors = next;
                    assert(self.paths() =~= Seq::new(cs.len(), |j: int| advanced(a.root_of(sc[j]), cs[j], key)));
                }
                None
            },
        }
    }

    /// The `editor.operator` request of the pending gesture; without an
    /// operator, none, and the walk and the gesture are dropped.
    pub fn create_operator_command(&mut self) -> (r: Option<CommandRequest>)
        ensures
            opt_view(r) == operator_command_spec(old(self).pending),
            old(self).pending.operator is None ==> is_reset_of(*old(self), *final(self)),
            old(self).pending.operator is Some ==> *final(self) == *old(self),
            old(self).wf() ==> final(self).wf(),
    {
        match &self.pending.operator {
            None => {
                self.reset();
                None
            },
            Some(op) => {
                let mut args: Vec<CommandArg> = Vec::new();
                args.push(CommandArg::text("operator", op.clone()));
                let ghost a1 = args@.map_values(|x: CommandArg| x@);
                if let Some(c) = self.pending.count {
                    args.push(CommandArg::number("count", c));
                }
                let ghost a2 = args@.map_values(|x: CommandArg| x@);
                if let Some(m) = &self.pending.motion {
                    args.push(CommandArg::text("motion", m.clone()));
                }
                let ghost a3 = args@.map_values(|x: CommandArg| x@);
                if let Some(m) = &self.pending.modifier {
                    args.push(CommandArg::text("modifier", m.clone()));
                }
                let r = CommandRequest { id: String::from_str("editor.operator"), args };
                proof {
                    let p = self.pending;
                    assert(a1 =~= text_arg("operator"@, p.operator));
                    assert(a2 =~= a1 + number_arg("count"@, p.count));
                    assert(a3 =~= a2 + text_arg("motion"@, p.motion));
                    assert(r@.args =~= a3 + text_arg("modifier"@, p.modifier));
                }
                Some(r)
            },
        }
    }

    /// Hands a token to the gesture accumulator.
    pub fn accept(&mut self, token: Token) -> (r: Option<CommandRequest>)
        requires
            old(self).wf(),
        ensures
            accept_step(*old(self), *final(self), token, r),
            final(self).wf(),
    {
        match token {
            Token::Digit(d) => {
                self.pending.count = Some(d);
                None
            },
            Token::Operator(op) => {
                self.pending.operator = Some(op);
                None
            },
            Token::Motion(m) => {
                self.pending.motion = Some(m);
                let cmd = self.create_operator_command();
                self.reset();
                cmd
            },
            Token::Command(c) => {
                self.reset();
                Some(c)
            },
        }
    }

    /// Whether `key` goes to the focused document's text input instead of the
    /// tries.
    pub fn routes_to_text(&self, key: &Key, focus: &Focus) -> (r: bool)
        ensures
            r == self.routes_to_text_spec(*key, *focus),
    {
        self.mode == Mode::Input && !(key.code == KeyCode::Esc || key.modifiers.contains(
            Modifier::Ctrl,
        ) || key.modifiers.contains(Modifier::Alt)) && focus.insertable
    }

    /// Takes one key. A key that goes to the focused document's text input
    /// (see `routes_to_text`) changes nothing here and gives no request;
    /// Escape in input mode first switches to normal mode. The key then
    /// advances the walk through the tries, and a token that it completes goes
    /// to the gesture accumulator, whose request is returned.
    pub fn feed(&mut self, key: Key, focus: &Focus) -> (r: Result<Option<CommandRequest>, String>)
        requires
            old(self).wf(),
        ensures
            final(self).wf(),
            r is Ok,
            old(self).routes_to_text_spec(key, *focus) ==> r == Ok::<Option<CommandRequest>, String>(None)
                && *final(self) == *old(self),
            !old(self).routes_to_text_spec(key, *focus) ==> exists|a: InputEngine, b: InputEngine, t: Option<Token>|
                {
                    &&& #[trigger] escape_step(*old(self), a, key)
                    &&& #[trigger] walk_step(a, b, key, *focus, opt_token_view(t))
                    &&& match t {
                        Some(x) => accept_step(b, *final(self), x, r->Ok_0),
                        None => *final(self) == b && r->Ok_0 is None,
                    }
                },
    {
        if self.routes_to_text(&key, focus) {
            return Ok(None);
        }
        let ghost s0 = *self;
        if self.mode == Mode::Input && key.code == KeyCode::Esc {
            self.mode = Mode::Normal;
            self.reset();
        }
        let ghost a = *self;
        assert(escape_step(s0, a, key));
        let token = self.get_token(key, focus);
        let ghost b = *self;
        match token {
            None => {
                assert(walk_step(a, b, key, *focus, opt_token_view(token)));
                Ok(None)
            },
            Some(t) => {
                let ghost tv = t;
                assert(walk_step(a, b, key, *focus, opt_token_view(Some(tv))));
                let r = self.accept(t);
                assert(accept_step(b, *self, tv, r));
                Ok(r)
            },
        }
    }
}

impl InputEngine {
    /// The bindings of the document `id`, none where no entry exists.
    pub open spec fn doc_maps_or_empty(self, id: Seq<char>) -> ModeMaps {
        match self.doc_maps(id) {
            Some(m) => m,
            None => ModeMaps { input: None, visualize: None, normal: None },
        }
    }

    /// Binds `action` to the keys written in `key_sequence` in the global
    /// trie of `mode`.
    pub fn bind_global(&mut self, mode: Mode, key_sequence: &[String], action: Token) -> (r: Result<(), String>)
        requires
            old(self).wf(),
        ensures
            final(self).wf(),
            binds(old(self).global_map, final(self).global_map, mode, key_sequence@, action, r),
            *final(self) == (InputEngine { global_map: final(self).global_map, ..*old(self) }),
    {
        self.global_map.bind(mode, key_sequence, action)
    }

    /// Binds `action` to the keys written in `key_sequence` in the trie of
    /// `mode` for documents of kind `doc_type`.
    pub fn bind_doctype(&mut self, doc_type: DocType, mode: Mode, key_sequence: &[String], action: Token) -> (r:
        Result<(), String>)
        requires
            old(self).wf(),
        ensures
            final(self).wf(),
            binds(
                old(self).doctype_map.get_spec(doc_type),
                final(self).doctype_map.get_spec(doc_type),
                mode,
                key_sequence@,
                action,
                r,
            ),
            forall|u: DocType| u != doc_type ==> #[trigger] final(self).doctype_map.get_spec(u) == old(self).doctype_map.get_spec(u),
            *final(self) == (InputEngine { doctype_map: final(self).doctype_map, ..*old(self) }),
    {
        self.doctype_map.slot(doc_type).bind(mode, key_sequence, action)
    }

    /// Binds `action` to the keys written in `key_sequence` in the trie of
    /// `mode` for the document `doc_id` alone.
    pub fn bind_document(&mut self, doc_id: &str, mode: Mode, key_sequence: &[String], action: Token) -> (r:
        Result<(), String>)
        requires
            old(self).wf(),
        ensures
            final(self).wf(),
            binds(
                old(self).doc_maps_or_empty(doc_id@),
                final(self).doc_maps_or_empty(doc_id@),
                mode,
                key_sequence@,
                action,
                r,
            ),
            forall|d: Seq<char>| d != doc_id@ ==> #[trigger] final(self).doc_maps(d) == old(self).doc_maps(d),
            *final(self) == (InputEngine { document_map: final(self).document_map, ..*old(self) }),
    {
        let ghost before = self.document_map@;
        let i = self.find_doc(doc_id);
        proof {
            lemma_entry_index(before, doc_id@);
        }
        if i < self.document_map.len() {
            let entry = &mut self.document_map[i];
            let r = entry.1.bind(mode, key_sequence, action);
            proof {
                let after = self.document_map@;
                assert(after == before.update(i as int, after[i as int]));
                assert forall|j: int| 0 <= j < before.len() implies (#[trigger] before[j]).0@ == after[j].0@ by {}
                assert forall|d: Seq<char>| d != doc_id@ implies #[trigger] self.doc_maps(d) == old(self).doc_maps(d) by {
                    lemma_entry_index_same_names(before, after, d);
                    lemma_entry_index(before, d);
                }
                lemma_entry_index_same_names(before, after, doc_id@);
                assert forall|x: int, y: int| 0 <= x < y < after.len() implies (#[trigger] after[x]).0@
                    != (#[trigger] after[y]).0@ by {
                    assert(before[x].0@ == after[x].0@ && before[y].0@ == after[y].0@);
                }
            }
            r
        } else {
            let mut m = ModeMaps::new();
            let r = m.bind(mode, key_sequence, action);
            if r.is_ok() {
                let e = (String::from_str(doc_id), m);
                proof {
                    lemma_unique_push(before, e);
                }
                self.document_map.push(e);
                proof {
                    assert forall|d: Seq<char>| d != doc_id@ implies #[trigger] self.doc_maps(d) == old(self).doc_maps(d) by {
                        lemma_entry_index_push(before, e, d);
                        lemma_entry_index(before, d);
                    }
                    lemma_entry_index_push(before, e, doc_id@);
                }
            }
            r
        }
    }
}

impl InputEngine {
    /// Binds `action` to the keys written in `key_sequence` in the current
    /// mode, in the scope that `options` names.
    pub fn bind(&mut self, options: &BindOptions, key_sequence: &[String], action: Token) -> (r: Result<(), String>)
        requires
            old(self).wf(),
        ensures
            final(self).wf(),
            match (options.doc, options.doc_type) {
                (Some(d), _) => {
                    &&& binds(old(self).doc_maps_or_empty(d@), final(self).doc_maps_or_empty(d@), old(self).mode, key_sequence@, action, r)
                    &&& forall|e: Seq<char>| e != d@ ==> #[trigger] final(self).doc_maps(e) == old(self).doc_maps(e)
                    &&& *final(self) == (InputEngine { document_map: final(self).document_map, ..*old(self) })
                },
                (None, Some(t)) => {
                    &&& binds(old(self).doctype_map.get_spec(t), final(self).doctype_map.get_spec(t), old(self).mode, key_sequence@, action, r)
                    &&& forall|u: DocType| u != t ==> #[trigger] final(self).doctype_map.get_spec(u) == old(self).doctype_map.get_spec(u)
                    &&& *final(self) == (InputEngine { doctype_map: final(self).doctype_map, ..*old(self) })
                },
                (None, None) => {
                    &&& binds(old(self).global_map, final(self).global_map, old(self).mode, key_sequence@, action, r)
                    &&& *final(self) == (InputEngine { global_map: final(self).global_map, ..*old(self) })
                },
            },
    {
        let mode = self.mode;
        match &options.doc {
            Some(d) => self.bind_document(d.as_str(), mode, key_sequence, action),
            None => match options.doc_type {
                Some(t) => self.bind_doctype(t, mode, key_sequence, action),
                None => self.bind_global(mode, key_sequence, action),
            },
        }
    }
}

/// A key that no scope takes, fed while no walk is in progress and no
/// gesture is pending, leaves nothing behind: the bindings and the mode are
/// kept, no walk is in progress, nothing is pending, and the next key starts
/// its walk exactly as it would have without that key, under any focus.
pub proof fn lemma_unmatched_key_leaks_nothing(a: InputEngine, b: InputEngine, key: Key, focus: Focus)
    requires
        a.cursors@.len() == 0,
        a.pending.is_clear(),
        walk_step(a, b, key, focus, None),
        forall|j: int|
            0 <= j < a.walk_start(focus).1.len() ==> advanced(
                a.root_of(a.walk_start(focus).0[j]),
                #[trigger] a.walk_start(focus).1[j],
                key,
            ) is None,
    ensures
        b.cursors@.len() == 0,
        b.scopes@.len() == 0,
        b.pending.is_clear(),
        b.mode == a.mode,
        b.global_map == a.global_map,
        b.document_map == a.document_map,
        b.doctype_map == a.doctype_map,
        forall|sc: Scope| #[trigger] b.root_of(sc) == a.root_of(sc),
        forall|f: Focus| #[trigger] b.walk_start(f) == a.walk_start(f),
{
    let (sc, cs) = a.walk_start(focus);
    assert(!exists|j: int| 0 <= j < cs.len() && advanced(a.root_of(sc[j]), cs[j], key) is Some);
    assert(is_reset_of(a, b));
    assert forall|sc2: Scope| #[trigger] b.root_of(sc2) == a.root_of(sc2) by {}
    assert forall|f: Focus| #[trigger] b.walk_start(f) == a.walk_start(f) by {
        assert(b.stack_spec(f) == a.stack_spec(f));
    }
}

} // verus!
