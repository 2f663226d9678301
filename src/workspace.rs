use vstd::prelude::*;

use crate::entries::{
    entry_index, find_entry, lemma_entry_index, lemma_unique_push, lemma_unique_without,
    lemma_without_lacks, remove_entries, unique_names, without,
};
use crate::input_engine::{DocType, Focus};
use crate::key::Key;
use crate::layout::{
    hit, lemma_removed_wf, lemma_split_wf, neighbor_result, LayoutNode, Ratio, Rect, SplitDirection,
};
use crate::popup::{PopupPosition, PopupWindow};
use crate::text::same_text;

verus! {

/// Relies on `uuid::Uuid::new_v4` and its `Display`: a random identifier in
/// the hyphenated form, 36 characters long.
#[verifier::external_body]
fn fresh_id() -> (r: String)
    ensures
        r@.len() == 36,
{
    uuid::Uuid::new_v4().to_string()
}

/// The view of a window onto its document.
pub struct WindowState {
    pub doc_id: String,
    pub cursor_row: usize,
    pub cursor_col: usize,
    pub scroll_rows: usize,
    pub scroll_cols: usize,
}

impl WindowState {
    /// A window onto `doc_id` with the cursor and the scroll at the start.
    pub open spec fn fresh(doc_id: String) -> WindowState {
        WindowState { doc_id, cursor_row: 0, cursor_col: 0, scroll_rows: 0, scroll_cols: 0 }
    }

    /// A new window onto `doc_id`, under a new random identifier.
    pub fn new(doc_id: String) -> (r: (String, WindowState))
        ensures
            r.1 == WindowState::fresh(doc_id),
            r.0@.len() == 36,
    {
        (fresh_id(), WindowState { doc_id, cursor_row: 0, cursor_col: 0, scroll_rows: 0, scroll_cols: 0 })
    }
}

/// The kinds of engine events.
#[derive(Debug, Clone, Copy, PartialEq, Eq, Hash, Structural)]
pub enum EngineEventKind {
    WindowCreate,
    WindowClose,
    WindowDocChange,
    LayoutChange,
    DocumentCreate,
    InputEvent,
}

/// Something that happened in the engine, for subscribers.
pub enum EngineEvent {
    WindowCreate(String),
    WindowClose(String),
    WindowDocChange(String, String),
    LayoutChange,
    DocumentCreate(String),
    InputEvent(Key),
}

impl EngineEvent {
    pub open spec fn kind_spec(&self) -> EngineEventKind {
        match self {
            EngineEvent::WindowCreate(_) => EngineEventKind::WindowCreate,
            EngineEvent::WindowClose(_) => EngineEventKind::WindowClose,
            EngineEvent::WindowDocChange(_, _) => EngineEventKind::WindowDocChange,
            EngineEvent::LayoutChange => EngineEventKind::LayoutChange,
            EngineEvent::DocumentCreate(_) => EngineEventKind::DocumentCreate,
            EngineEvent::InputEvent(_) => EngineEventKind::InputEvent,
        }
    }

    /// The kind of this event.
    pub fn kind(&self) -> (r: EngineEventKind)
        ensures
            r == self.kind_spec(),
    {
        match self {
            EngineEvent::WindowCreate(_) => EngineEventKind::WindowCreate,
            EngineEvent::WindowClose(_) => EngineEventKind::WindowClose,
            EngineEvent::WindowDocChange(_, _) => EngineEventKind::WindowDocChange,
            EngineEvent::LayoutChange => EngineEventKind::LayoutChange,
            EngineEvent::DocumentCreate(_) => EngineEventKind::DocumentCreate,
            EngineEvent::InputEvent(_) => EngineEventKind::InputEvent,
        }
    }
}

/// A window and the document it shows.
pub struct GetWindowResult {
    pub window_id: String,
    pub document_id: String,
}

/// Whether documents of kind `t` take typed text.
pub open spec fn takes_text(t: DocType) -> bool {
    t != DocType::Info
}

/// The windows and documents of the editor, their layout and the active window.
pub struct Engine {
    pub events: Vec<EngineEvent>,
    pub docs: Vec<(String, DocType)>,
    pub windows: Vec<(String, WindowState)>,
    pub active_window: String,
    pub layout: Option<LayoutNode>,
    pub popups: Option<PopupWindow>,
    pub should_quit: bool,
}

impl Engine {
    /// Every split of the layout has a ratio strictly between 0 and 1, and
    /// no two windows, nor two documents, share an identifier.
    pub open spec fn wf(self) -> bool {
        &&& unique_names(self.windows@)
        &&& unique_names(self.docs@)
        &&& match self.layout {
            Some(l) => l.wf(),
            None => true,
        }
        &&& match self.popups {
            Some(p) => p.layout.wf(),
            None => true,
        }
    }

    pub open spec fn window_entry(self, id: Seq<char>) -> Option<WindowState> {
        let i = entry_index(self.windows@, id);
        if i < self.windows@.len() {
            Some(self.windows@[i].1)
        } else {
            None
        }
    }

    pub open spec fn doc_entry(self, id: Seq<char>) -> Option<DocType> {
        let i = entry_index(self.docs@, id);
        if i < self.docs@.len() {
            Some(self.docs@[i].1)
        } else {
            None
        }
    }

    /// What the active window shows, where it and its document are known.
    pub open spec fn focus_spec(self) -> Option<(Seq<char>, DocType)> {
        match self.window_entry(self.active_window@) {
            None => None,
            Some(w) => match self.doc_entry(w.doc_id@) {
                None => None,
                Some(t) => Some((w.doc_id@, t)),
            },
        }
    }

    /// An editor with one text document shown in one window, which is active.
    pub fn with_ids(window_id: String, doc_id: String) -> (r: Engine)
        ensures
            r.wf(),
            r.layout == Some(LayoutNode::Leaf(window_id)),
            r.active_window == window_id,
            r.windows@ == seq![(window_id, WindowState::fresh(doc_id))],
            r.docs@ == seq![(doc_id, DocType::Text)],
            r.events@ == seq![EngineEvent::WindowCreate(window_id)],
            r.popups is None,
            !r.should_quit,
    {
        let mut events: Vec<EngineEvent> = Vec::new();
        events.push(EngineEvent::WindowCreate(window_id.clone()));
        let mut windows: Vec<(String, WindowState)> = Vec::new();
        windows.push(
            (
                window_id.clone(),
                WindowState {
                    doc_id: doc_id.clone(),
                    cursor_row: 0,
                    cursor_col: 0,
                    scroll_rows: 0,
                    scroll_cols: 0,
                },
            ),
        );
        let mut docs: Vec<(String, DocType)> = Vec::new();
        docs.push((doc_id, DocType::Text));
        let r = Engine {
            events,
            docs,
            windows,
            active_window: window_id.clone(),
            layout: Some(LayoutNode::Leaf(window_id)),
            popups: None,
            should_quit: false,
        };
        assert(r.windows@ =~= seq![(window_id, WindowState::fresh(doc_id))]);
        assert(r.docs@ =~= seq![(doc_id, DocType::Text)]);
        assert(r.events@ =~= seq![EngineEvent::WindowCreate(window_id)]);
        r
    }

    /// An editor with one text document shown in one window, under new
    /// random identifiers.
    pub fn new() -> (r: Engine)
        ensures
            r.wf(),
            r.windows@.len() == 1,
            r.docs@.len() == 1,
            r.layout == Some(LayoutNode::Leaf(r.windows@[0].0)),
            r.active_window == r.windows@[0].0,
            r.windows@[0].1 == WindowState::fresh(r.docs@[0].0),
            r.docs@[0].1 == DocType::Text,
            r.events@ == seq![EngineEvent::WindowCreate(r.windows@[0].0)],
            r.popups is None,
            !r.should_quit,
    {
        let w = fresh_id();
        let d = fresh_id();
        Engine::with_ids(w, d)
    }

    /// Registers the document `id` of kind `doc_type`; an identifier already
    /// in use is an error, and nothing changes.
    pub fn add_document(&mut self, id: String, doc_type: DocType) -> (r: Result<(), String>)
        requires
            old(self).wf(),
        ensures
            final(self).wf(),
            if old(self).doc_entry(id@) is Some {
                r matches Err(e) && e@ == "Document id already in use"@ && *final(self) == *old(self)
            } else {
                &&& r is Ok
                &&& final(self).docs@ == old(self).docs@.push((id, doc_type))
                &&& final(self).events@ == old(self).events@.push(EngineEvent::DocumentCreate(id))
                &&& final(self).windows == old(self).windows
                &&& final(self).layout == old(self).layout
                &&& final(self).popups == old(self).popups
                &&& final(self).active_window == old(self).active_window
                &&& final(self).should_quit == old(self).should_quit
            },
    {
        if find_entry(&self.docs, id.as_str()) < self.docs.len() {
            return Err(String::from_str("Document id already in use"));
        }
        proof {
            lemma_entry_index(self.docs@, id@);
            lemma_unique_push(self.docs@, (id, doc_type));
        }
        self.events.push(EngineEvent::DocumentCreate(id.clone()));
        self.docs.push((id, doc_type));
        Ok(())
    }

    /// What the active window shows: its document, the document's kind, and
    /// whether that kind takes typed text; none where either is unknown.
    pub fn current_focus(&self) -> (r: Option<Focus>)
        ensures
            match r {
                Some(f) => self.focus_spec() == Some((f.doc_id@, f.doc_type)) && f.insertable == takes_text(
                    f.doc_type,
                ),
                None => self.focus_spec() is None,
            },
    {
        let wi = find_entry(&self.windows, self.active_window.as_str());
        if wi >= self.windows.len() {
            return None;
        }
        let doc_id = &self.windows[wi].1.doc_id;
        let di = find_entry(&self.docs, doc_id.as_str());
        if di >= self.docs.len() {
            return None;
        }
        let t = self.docs[di].1;
        Some(Focus { doc_id: doc_id.clone(), doc_type: t, insertable: t != DocType::Info })
    }

    /// The window `win_id` and the document it shows, where it is known.
    pub fn get_window(&self, win_id: &str) -> (r: Option<GetWindowResult>)
        ensures
            match r {
                Some(g) => self.window_entry(win_id@) matches Some(w) && g.window_id@ == win_id@
                    && g.document_id@ == w.doc_id@,
                None => self.window_entry(win_id@) is None,
            },
    {
        let wi = find_entry(&self.windows, win_id);
        if wi >= self.windows.len() {
            return None;
        }
        proof {
            lemma_entry_index(self.windows@, win_id@);
        }
        Some(
            GetWindowResult {
                window_id: self.windows[wi].0.clone(),
                document_id: self.windows[wi].1.doc_id.clone(),
            },
        )
    }

    /// The active window and the document it shows, where it is known.
    pub fn get_current_window(&self) -> (r: Option<GetWindowResult>)
        ensures
            match r {
                Some(g) => self.window_entry(self.active_window@) matches Some(w) && g.window_id@
                    == self.active_window@ && g.document_id@ == w.doc_id@,
                None => self.window_entry(self.active_window@) is None,
            },
    {
        self.get_window(self.active_window.as_str())
    }

    /// Asks the editor to stop.
    pub fn kill(&mut self)
        ensures
            final(self).should_quit,
            final(self).windows == old(self).windows,
            final(self).docs == old(self).docs,
            final(self).layout == old(self).layout,
            final(self).active_window == old(self).active_window,
            final(self).events == old(self).events,
            final(self).popups == old(self).popups,
    {
        self.should_quit = true;
    }
}

impl Engine {
    /// Opens the window `win_id` onto the document `doc` beside the window
    /// `src_win`, in direction `direction`, the two sharing its region by
    /// `ratio` (one half where none is given); the new window becomes active
    /// where `enter` is set.
    pub fn create_split_window_with_id(
        &mut self,
        win_id: String,
        doc: String,
        src_win: &str,
        direction: SplitDirection,
        ratio: Option<Ratio>,
        enter: bool,
    ) -> (r: Result<String, String>)
        requires
            old(self).wf(),
            ratio matches Some(q) ==> q.wf(),
        ensures
            final(self).wf(),
            match old(self).layout {
                None => r matches Err(e) && e@ == "Invalid Layout"@ && *final(self) == *old(self),
                Some(l) => if !l.has_window(src_win@) {
                    r matches Err(e) && e@ == "Could not find layout"@ && *final(self) == *old(self)
                } else if l.has_window(win_id@) || old(self).window_entry(win_id@) is Some {
                    r matches Err(e) && e@ == "Window id already in use"@ && *final(self) == *old(self)
                } else {
                    let q = match ratio {
                        Some(q) => q,
                        None => Ratio { num: 1, den: 2 },
                    };
                    &&& r matches Ok(id) && id == win_id
                    &&& final(self).layout == Some(
                        l.split_spec(src_win@, LayoutNode::Leaf(win_id), direction, q),
                    )
                    &&& final(self).windows@ == old(self).windows@.push((win_id, WindowState::fresh(doc)))
                    &&& final(self).active_window == if enter {
                        win_id
                    } else {
                        old(self).active_window
                    }
                    &&& final(self).events@ == old(self).events@.push(EngineEvent::WindowCreate(win_id))
                    &&& final(self).docs == old(self).docs
                    &&& final(self).popups == old(self).popups
                    &&& final(self).should_quit == old(self).should_quit
                },
            },
    {
        let l = match self.layout.take() {
            None => {
                return Err(String::from_str("Invalid Layout"));
            },
            Some(l) => l,
        };
        if !l.contains_window(src_win) {
            self.layout = Some(l);
            return Err(String::from_str("Could not find layout"));
        }
        if l.contains_window(win_id.as_str()) || find_entry(&self.windows, win_id.as_str())
            < self.windows.len() {
            self.layout = Some(l);
            return Err(String::from_str("Window id already in use"));
        }
        let q = match ratio {
            Some(q) => q,
            None => Ratio::half(),
        };
        proof {
            lemma_split_wf(l, src_win@, LayoutNode::Leaf(win_id), direction, q);
        }
        self.layout = Some(l.split_window(src_win, win_id.clone(), direction, q));
        proof {
            lemma_entry_index(self.windows@, win_id@);
            lemma_unique_push(self.windows@, (win_id, WindowState::fresh(doc)));
        }
        self.windows.push(
            (
                win_id.clone(),
                WindowState { doc_id: doc, cursor_row: 0, cursor_col: 0, scroll_rows: 0, scroll_cols: 0 },
            ),
        );
        if enter {
            self.active_window = win_id.clone();
        }
        self.events.push(EngineEvent::WindowCreate(win_id.clone()));
        Ok(win_id)
    }

    /// As `create_split_window_with_id`, under a new random identifier; that
    /// identifier may already be in use, which is then the error.
    pub fn create_window(
        &mut self,
        doc: String,
        src_win: &str,
        direction: SplitDirection,
        ratio: Option<Ratio>,
        enter: bool,
    ) -> (r: Result<String, String>)
        requires
            old(self).wf(),
            ratio matches Some(q) ==> q.wf(),
        ensures
            final(self).wf(),
            match old(self).layout {
                None => r matches Err(e) && e@ == "Invalid Layout"@ && *final(self) == *old(self),
                Some(l) => if !l.has_window(src_win@) {
                    r matches Err(e) && e@ == "Could not find layout"@ && *final(self) == *old(self)
                } else {
                    let q = match ratio {
                        Some(q) => q,
                        None => Ratio { num: 1, den: 2 },
                    };
                    match r {
                        Ok(id) => {
                            &&& id@.len() == 36
                            &&& final(self).layout == Some(
                                l.split_spec(src_win@, LayoutNode::Leaf(id), direction, q),
                            )
                            &&& final(self).windows@ == old(self).windows@.push(
                                (id, WindowState::fresh(doc)),
                            )
                            &&& final(self).active_window == if enter {
                                id
                            } else {
                                old(self).active_window
                            }
                            &&& final(self).events@ == old(self).events@.push(
                                EngineEvent::WindowCreate(id),
                            )
                            &&& final(self).docs == old(self).docs
                            &&& final(self).popups == old(self).popups
                            &&& final(self).should_quit == old(self).should_quit
                        },
                        Err(e) => e@ == "Window id already in use"@ && *final(self) == *old(self),
                    }
                },
            },
    {
        let id = fresh_id();
        let r = self.create_split_window_with_id(id, doc, src_win, direction, ratio, enter);
        r
    }

    /// Closes the window `window_id`: its leaf leaves the layout (a split that
    /// loses a side becomes the other side) and its entries leave the registry.
    /// Where it was active, the first window of what is left of the layout
    /// becomes active; where no layout is left, that is an error after the
    /// window has gone.
    pub fn close_window(&mut self, window_id: &str) -> (r: Result<(), String>)
        requires
            old(self).wf(),
        ensures
            final(self).wf(),
            match old(self).layout {
                None => r matches Err(e) && e@ == "No Valid Layout"@ && *final(self) == *old(self),
                Some(l) => if !l.has_window(window_id@) {
                    r matches Err(e) && e@ == "Window `"@ + window_id@ + "` not found in layout"@
                        && *final(self) == *old(self)
                } else {
                    &&& final(self).layout == l.removed(window_id@)
                    &&& final(self).windows@ == without(old(self).windows@, window_id@)
                    &&& final(self).window_entry(window_id@) is None
                    &&& final(self).events@.len() == old(self).events@.len() + 1
                    &&& final(self).events@.drop_last() == old(self).events@
                    &&& final(self).events@.last() matches EngineEvent::WindowClose(w) && w@ == window_id@
                    &&& final(self).docs == old(self).docs
                    &&& final(self).popups == old(self).popups
                    &&& final(self).should_quit == old(self).should_quit
                    &&& if old(self).active_window@ != window_id@ {
                        r is Ok && final(self).active_window == old(self).active_window
                    } else {
                        match l.removed(window_id@) {
                            Some(u) => r is Ok && final(self).active_window == u.first_window_spec(),
                            None => r matches Err(e) && e@ == "No windows left after closing window"@
                                && final(self).active_window == old(self).active_window,
                        }
                    }
                },
            },
    {
        let l = match self.layout.take() {
            None => {
                return Err(String::from_str("No Valid Layout"));
            },
            Some(l) => l,
        };
        if !l.contains_window(window_id) {
            self.layout = Some(l);
            return Err(String::from_str("Window `").concat(window_id).concat("` not found in layout"));
        }
        proof {
            lemma_removed_wf(l, window_id@);
        }
        self.layout = l.remove_window(window_id);
        remove_entries(&mut self.windows, window_id);
        proof {
            lemma_without_lacks(old(self).windows@, window_id@);
            lemma_unique_without(old(self).windows@, window_id@);
        }
        let event = EngineEvent::WindowClose(String::from_str(window_id));
        self.events.push(event);
        if same_text(self.active_window.as_str(), window_id) {
            match &self.layout {
                Some(u) => {
                    self.active_window = u.first_window();
                },
                None => {
                    return Err(String::from_str("No windows left after closing window"));
                },
            }
        }
        Ok(())
    }

    /// Makes the window nearest to the active one in direction `direction`
    /// active, with the layout laid out inside `container`; returns it, or
    /// none where no window lies that way.
    pub fn move_window(&mut self, direction: SplitDirection, container: &Rect) -> (r: Result<
        Option<String>,
        String,
    >)
        requires
            old(self).wf(),
            container.fits(),
        ensures
            final(self).wf(),
            match old(self).layout {
                None => r matches Err(e) && e@ == "No Valid Layout"@ && *final(self) == *old(self),
                Some(l) => r matches Ok(o) && neighbor_result(
                    l.rects_spec(*container),
                    old(self).active_window@,
                    direction,
                    match o {
                        Some(w) => Some(w@),
                        None => None,
                    },
                ) && match o {
                    Some(w) => final(self).active_window == w && final(self).events@ == old(
                        self,
                    ).events@.push(EngineEvent::LayoutChange) && final(self).layout == old(self).layout
                        && final(self).windows == old(self).windows && final(self).docs == old(
                        self,
                    ).docs && final(self).popups == old(self).popups && final(self).should_quit == old(
                        self,
                    ).should_quit,
                    None => *final(self) == *old(self),
                },
            },
    {
        match &self.layout {
            None => Err(String::from_str("No Valid Layout")),
            Some(l) => {
                let n = l.get_neighbor(self.active_window.as_str(), direction, container);
                match n {
                    Some(id) => {
                        self.active_window = id.clone();
                        self.events.push(EngineEvent::LayoutChange);
                        Ok(Some(id))
                    },
                    None => Ok(None),
                }
            },
        }
    }

    /// Makes the window under the cell at `col`, `row` active, with the layout
    /// laid out inside `container`, and returns it; none where no window is
    /// there.
    pub fn process_mouse(&mut self, col: usize, row: usize, container: &Rect) -> (r: Option<String>)
        requires
            old(self).wf(),
            container.fits(),
        ensures
            final(self).wf(),
            match r {
                Some(w) => old(self).layout matches Some(l) && (exists|j: int|
                    hit(l.rects_spec(*container), col as int, row as int, j) && l.rects_spec(
                        *container,
                    )[j].0 == w@) && final(self).active_window == w && final(self).layout == old(
                    self,
                ).layout && final(self).windows == old(self).windows && final(self).docs == old(
                    self,
                ).docs && final(self).events == old(self).events && final(self).popups == old(self).popups
                    && final(self).should_quit == old(self).should_quit,
                None => *final(self) == *old(self) && match old(self).layout {
                    Some(l) => forall|j: int|
                        0 <= j < l.rects_spec(*container).len() ==> !(#[trigger] l.rects_spec(
                            *container,
                        )[j]).1.contains_point(col as int, row as int),
                    None => true,
                },
            },
    {
        match &self.layout {
            None => None,
            Some(l) => {
                let w = l.window_at(container, col, row);
                match w {
                    Some(id) => {
                        self.active_window = id.clone();
                        Some(id)
                    },
                    None => None,
                }
            },
        }
    }
}

impl Engine {
    /// Opens the window `win_id` onto the document `doc` as the popup, of
    /// `width` by `height` cells at `position`, replacing any popup there was;
    /// the new window becomes active where `enter` is set.
    pub fn create_floating_window_with_id(
        &mut self,
        win_id: String,
        doc: String,
        position: PopupPosition,
        width: usize,
        height: usize,
        enter: bool,
    ) -> (r: Result<String, String>)
        requires
            old(self).wf(),
        ensures
            final(self).wf(),
            if old(self).window_entry(win_id@) is Some {
                r matches Err(e) && e@ == "Window id already in use"@ && *final(self) == *old(self)
            } else {
                &&& r matches Ok(id) && id == win_id
                &&& final(self).popups == Some(
                    PopupWindow { layout: LayoutNode::Leaf(win_id), position, width, height },
                )
                &&& final(self).windows@ == old(self).windows@.push((win_id, WindowState::fresh(doc)))
                &&& final(self).active_window == if enter {
                    win_id
                } else {
                    old(self).active_window
                }
                &&& final(self).events@ == old(self).events@.push(EngineEvent::WindowCreate(win_id))
                &&& final(self).layout == old(self).layout
                &&& final(self).docs == old(self).docs
                &&& final(self).should_quit == old(self).should_quit
            },
    {
        if find_entry(&self.windows, win_id.as_str()) < self.windows.len() {
            return Err(String::from_str("Window id already in use"));
        }
        proof {
            lemma_entry_index(self.windows@, win_id@);
            lemma_unique_push(self.windows@, (win_id, WindowState::fresh(doc)));
        }
        self.windows.push(
            (
                win_id.clone(),
                WindowState { doc_id: doc, cursor_row: 0, cursor_col: 0, scroll_rows: 0, scroll_cols: 0 },
            ),
        );
        self.popups = Some(PopupWindow { layout: LayoutNode::Leaf(win_id.clone()), position, width, height });
        if enter {
            self.active_window = win_id.clone();
        }
        self.events.push(EngineEvent::WindowCreate(win_id.clone()));
        Ok(win_id)
    }

    /// As `create_floating_window_with_id`, under a new random identifier;
    /// that identifier may already be in use, which is then the error.
    pub fn create_popup(
        &mut self,
        doc: String,
        position: PopupPosition,
        width: usize,
        height: usize,
        enter: bool,
    ) -> (r: Result<String, String>)
        requires
            old(self).wf(),
        ensures
            final(self).wf(),
            match r {
                Ok(id) => {
                    &&& id@.len() == 36
                    &&& final(self).popups == Some(
                        PopupWindow { layout: LayoutNode::Leaf(id), position, width, height },
                    )
                    &&& final(self).windows@ == old(self).windows@.push((id, WindowState::fresh(doc)))
                    &&& final(self).active_window == if enter {
                        id
                    } else {
                        old(self).active_window
                    }
                    &&& final(self).events@ == old(self).events@.push(EngineEvent::WindowCreate(id))
                    &&& final(self).layout == old(self).layout
                    &&& final(self).docs == old(self).docs
                    &&& final(self).should_quit == old(self).should_quit
                },
                Err(e) => e@ == "Window id already in use"@ && *final(self) == *old(self),
            },
    {
        let id = fresh_id();
        self.create_floating_window_with_id(id, doc, position, width, height, enter)
    }
}

/// `new` is `old` after the document `doc_id` of kind `doc_type` was made
/// and shown in the window `win_id`, split off the active window in
/// direction `direction` by one half; the active window stays.
pub open spec fn split_with_document(
    old: Engine,
    new: Engine,
    win_id: String,
    doc_id: String,
    doc_type: DocType,
    direction: SplitDirection,
) -> bool {
    &&& old.layout matches Some(l) && new.layout == Some(
        l.split_spec(old.active_window@, LayoutNode::Leaf(win_id), direction, Ratio { num: 1, den: 2 }),
    )
    &&& new.windows@ == old.windows@.push((win_id, WindowState::fresh(doc_id)))
    &&& new.docs@ == old.docs@.push((doc_id, doc_type))
    &&& new.events@ == old.events@.push(EngineEvent::WindowCreate(win_id)).push(
        EngineEvent::DocumentCreate(doc_id),
    )
    &&& new.active_window == old.active_window
    &&& new.popups == old.popups
    &&& new.should_quit == old.should_quit
}

impl Engine {
    /// Makes the document `doc_id` of kind `doc_type` and shows it in the new
    /// window `win_id`, split off the active window in direction `direction`
    /// by one half. Where the split or the document cannot be made, nothing
    /// changes.
    pub fn split_window_document_with_ids(
        &mut self,
        win_id: String,
        doc_id: String,
        doc_type: DocType,
        direction: SplitDirection,
    ) -> (r: Result<String, String>)
        requires
            old(self).wf(),
        ensures
            final(self).wf(),
            match old(self).layout {
                None => r matches Err(e) && e@ == "Invalid Layout"@ && *final(self) == *old(self),
                Some(l) => if !l.has_window(old(self).active_window@) {
                    r matches Err(e) && e@ == "Could not find layout"@ && *final(self) == *old(self)
                } else if l.has_window(win_id@) || old(self).window_entry(win_id@) is Some {
                    r matches Err(e) && e@ == "Window id already in use"@ && *final(self) == *old(self)
                } else if old(self).doc_entry(doc_id@) is Some {
                    r matches Err(e) && e@ == "Document id already in use"@ && *final(self) == *old(self)
                } else {
                    r matches Ok(id) && id == win_id && split_with_document(
                        *old(self),
                        *final(self),
                        win_id,
                        doc_id,
                        doc_type,
                        direction,
                    )
                },
            },
    {
        match &self.layout {
            None => {
                return Err(String::from_str("Invalid Layout"));
            },
            Some(l) => {
                if !l.contains_window(self.active_window.as_str()) {
                    return Err(String::from_str("Could not find layout"));
                }
                if l.contains_window(win_id.as_str()) || find_entry(&self.windows, win_id.as_str())
                    < self.windows.len() {
                    return Err(String::from_str("Window id already in use"));
                }
            },
        }
        if find_entry(&self.docs, doc_id.as_str()) < self.docs.len() {
            return Err(String::from_str("Document id already in use"));
        }
        let active = self.active_window.clone();
        let r = self.create_split_window_with_id(
            win_id,
            doc_id.clone(),
            active.as_str(),
            direction,
            None,
            false,
        );
        self.add_document(doc_id, doc_type)?;
        r
    }

    /// Makes a new document of kind `doc_type` and shows it in a new window
    /// split off the active window in direction `direction`, both under new
    /// random identifiers; returns the window and the document. A window
    /// identifier already in use is an error.
    pub fn split_window_document(&mut self, doc_type: DocType, direction: SplitDirection) -> (r: Result<
        (String, String),
        String,
    >)
        requires
            old(self).wf(),
        ensures
            final(self).wf(),
            match old(self).layout {
                None => r matches Err(e) && e@ == "Invalid Layout"@ && *final(self) == *old(self),
                Some(l) => if !l.has_window(old(self).active_window@) {
                    r matches Err(e) && e@ == "Could not find layout"@ && *final(self) == *old(self)
                } else {
                    match r {
                        Ok((w, d)) => w@.len() == 36 && d@.len() == 36 && split_with_document(
                            *old(self),
                            *final(self),
                            w,
                            d,
                            doc_type,
                            direction,
                        ),
                        Err(e) => (e@ == "Window id already in use"@ || e@
                            == "Document id already in use"@) && *final(self) == *old(self),
                    }
                },
            },
    {
        let w = fresh_id();
        let d = fresh_id();
        match self.split_window_document_with_ids(w, d.clone(), doc_type, direction) {
            Ok(w) => Ok((w, d)),
            Err(e) => Err(e),
        }
    }
}

} // verus!
