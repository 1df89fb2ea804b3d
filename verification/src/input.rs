//! What each key does to the session.
//!
//! While a deletion waits for its answer, every key is that answer. Otherwise
//! a key goes to the handler of the current mode. A handler changes the state
//! and says what the caller has to do next: nothing, save the records, run a
//! remote shell, or quit.

use crate::app::{lemma_refiltered, lemma_visible_for, AppState, AppStateView, Mode};
use crate::config::{add_from_line, parse_line, parsed_view};
use crate::filter::match_score;
use crate::models::{connection_views, label_of, Connection, ConnectionView};
use crate::ssh::Failure;
use crate::text::trimmed;
use vstd::prelude::*;
use vstd::string::*;

verus! {

/// A key, as far as the session tells keys apart.
#[derive(Debug, Clone, Copy, PartialEq, Eq, Structural)]
pub enum Key {
    Char(char),
    Enter,
    Esc,
    Backspace,
    Up,
    Down,
    /// Any other key.
    Other,
}

/// What the terminal reports.
#[derive(Debug, Clone, Copy, PartialEq, Eq, Structural)]
pub enum InputEvent {
    /// A key, and whether the control key was held with it.
    Key { key: Key, control: bool },
    /// The terminal has a new size.
    Resize,
    /// Anything else.
    Other,
}

/// What the caller has to do after an event.
#[derive(Debug)]
pub enum Action {
    /// Nothing.
    Continue,
    /// Leave the event loop.
    Quit,
    /// Save the records; a failure to do so is ignored.
    Save,
    /// Run a remote shell for this record, then call `finish_session`.
    Connect(Connection),
}

/// An `Action`, as a mathematical value.
pub enum ActionView {
    Continue,
    Quit,
    Save,
    Connect(ConnectionView),
}

impl View for Action {
    type V = ActionView;

    open spec fn view(&self) -> ActionView {
        match self {
            Action::Continue => ActionView::Continue,
            Action::Quit => ActionView::Quit,
            Action::Save => ActionView::Save,
            Action::Connect(c) => ActionView::Connect(c@),
        }
    }
}

/// Whether a key confirms a deletion.
pub open spec fn is_yes(key: Key) -> bool {
    key == Key::Char('y') || key == Key::Char('Y')
}

impl AppStateView {
    /// The state after the answer `key` to the question whether to delete:
    /// on `y` or `Y`, with a record under the cursor, that record is removed
    /// and the filter runs; any key ends the question.
    pub open spec fn after_answer(self, key: Key) -> AppStateView {
        if is_yes(key) && self.selection() is Some {
            AppStateView {
                connections: self.connections.remove(self.selection()->0),
                status: "Deleted."@,
                pending_delete: false,
                ..self
            }.refiltered()
        } else {
            AppStateView { pending_delete: false, ..self }
        }
    }

    /// The state after `key` in mode `Add`.
    pub open spec fn after_add_key(self, key: Key) -> AppStateView {
        match key {
            Key::Esc => AppStateView {
                mode: Mode::Normal,
                add_buffer: Seq::empty(),
                status: Seq::empty(),
                ..self
            },
            Key::Enter => match parse_line(self.add_buffer) {
                Ok(c) => AppStateView {
                    connections: self.connections.push(c),
                    add_buffer: Seq::empty(),
                    mode: Mode::Normal,
                    status: "Saved."@,
                    ..self
                }.refiltered(),
                Err(e) => AppStateView { status: "Error: "@ + e.text(), ..self },
            },
            Key::Backspace => AppStateView { add_buffer: without_last(self.add_buffer), ..self },
            Key::Char(c) => AppStateView { add_buffer: self.add_buffer.push(c), ..self },
            _ => self,
        }
    }

    /// The state after `key` in mode `Search`. Control with `u` empties the
    /// query.
    pub open spec fn after_search_key(self, key: Key, control: bool) -> AppStateView {
        match key {
            Key::Esc => AppStateView { mode: Mode::Normal, ..self },
            Key::Enter => AppStateView { mode: Mode::Normal, ..self },
            Key::Backspace => AppStateView { search: without_last(self.search), ..self }.refiltered(),
            Key::Char(c) => AppStateView {
                search: if control && c == 'u' {
                    Seq::empty()
                } else {
                    self.search.push(c)
                },
                ..self
            }.refiltered(),
            _ => self,
        }
    }

    /// The state after `key` in mode `Normal`.
    pub open spec fn after_normal_key(self, key: Key) -> AppStateView {
        match key {
            Key::Char(c) => if c == 'h' {
                AppStateView { show_help: !self.show_help, ..self }
            } else if c == '/' {
                AppStateView { mode: Mode::Search, status: Seq::empty(), ..self }
            } else if c == 'a' {
                AppStateView {
                    mode: Mode::Add,
                    add_buffer: Seq::empty(),
                    status: Seq::empty(),
                    ..self
                }
            } else if c == 'd' {
                AppStateView { pending_delete: true, ..self }
            } else if c == 'k' {
                self.cursor_up()
            } else if c == 'j' {
                self.cursor_down()
            } else {
                self
            },
            Key::Up => self.cursor_up(),
            Key::Down => self.cursor_down(),
            _ => self,
        }
    }

    /// The cursor one entry up, unless it is at the top.
    pub open spec fn cursor_up(self) -> AppStateView {
        AppStateView {
            selected: if self.selected > 0 {
                self.selected - 1
            } else {
                self.selected
            },
            ..self
        }
    }

    /// The cursor one entry down, unless it is on the last entry.
    pub open spec fn cursor_down(self) -> AppStateView {
        AppStateView {
            selected: if self.selected + 1 < self.filtered_indices.len() {
                self.selected + 1
            } else {
                self.selected
            },
            ..self
        }
    }

    /// The state after an event.
    pub open spec fn after(self, event: InputEvent) -> AppStateView {
        match event {
            InputEvent::Key { key, control } => if self.pending_delete {
                self.after_answer(key)
            } else {
                match self.mode {
                    Mode::Add => self.after_add_key(key),
                    Mode::Search => self.after_search_key(key, control),
                    Mode::Normal => self.after_normal_key(key),
                }
            },
            _ => self,
        }
    }

    /// What the caller has to do after an event.
    pub open spec fn action(self, event: InputEvent) -> ActionView {
        match event {
            InputEvent::Key { key, control } => if self.pending_delete {
                if is_yes(key) && self.selection() is Some {
                    ActionView::Save
                } else {
                    ActionView::Continue
                }
            } else {
                match self.mode {
                    Mode::Add => if key == Key::Enter && parse_line(self.add_buffer) is Ok {
                        ActionView::Save
                    } else {
                        ActionView::Continue
                    },
                    Mode::Search => ActionView::Continue,
                    Mode::Normal => if key == Key::Char('q') {
                        ActionView::Quit
                    } else if key == Key::Enter && self.selection() is Some {
                        ActionView::Connect(self.connections[self.selection()->0])
                    } else {
                        ActionView::Continue
                    },
                }
            },
            _ => ActionView::Continue,
        }
    }

    /// The state after a remote shell has ended: the status names the record,
    /// or says what failed.
    pub open spec fn after_session(
        self,
        name: Seq<char>,
        failure: Option<Failure>,
        detail: Seq<char>,
    ) -> AppStateView {
        AppStateView {
            status: match failure {
                None => "Returned from "@ + name,
                Some(Failure::Launch) => "SSH error: failed to launch ssh"@,
                Some(_) => "SSH error: "@ + detail,
            },
            ..self
        }
    }
}

/// `s` without its last character; `s` itself where it is empty.
pub open spec fn without_last(s: Seq<char>) -> Seq<char> {
    if s.len() > 0 {
        s.drop_last()
    } else {
        s
    }
}

/// The index of the record under the cursor.
pub fn selection(app: &AppState) -> (r: Option<usize>)
    requires
        app@.wf(),
    ensures
        r is Some ==> r->0 < app.connections.len(),
        match r {
            Some(i) => app@.selection() == Some(i as int),
            None => app@.selection().is_none(),
        },
{
    if app.selected < app.filtered_indices.len() {
        Some(app.filtered_indices[app.selected])
    } else {
        None
    }
}

fn answer(app: &mut AppState, key: Key) -> (action: Action)
    requires
        old(app)@.wf(),
    ensures
        final(app)@ == old(app)@.after_answer(key),
        action@ == (if is_yes(key) && old(app)@.selection() is Some {
            ActionView::Save
        } else {
            ActionView::Continue
        }),
{
    let yes = match key {
        Key::Char(c) => c == 'y' || c == 'Y',
        _ => false,
    };
    let target = selection(app);
    app.pending_delete = false;
    if yes && target.is_some() {
        let i: usize = target.unwrap();
        let ghost before = app.connections@;
        app.connections.remove(i);
        assert(connection_views(app.connections@) =~= connection_views(before).remove(i as int));
        app.status = String::from_str("Deleted.");
        assert(app@ == AppStateView {
            connections: old(app)@.connections.remove(i as int),
            status: "Deleted."@,
            pending_delete: false,
            ..old(app)@
        });
        app.apply_filter();
        Action::Save
    } else {
        assert(app@ == AppStateView { pending_delete: false, ..old(app)@ });
        Action::Continue
    }
}

fn add_key(app: &mut AppState, key: Key) -> (action: Action)
    requires
        old(app)@.wf(),
    ensures
        final(app)@ == old(app)@.after_add_key(key),
        action@ == (if key == Key::Enter && parse_line(old(app)@.add_buffer) is Ok {
            ActionView::Save
        } else {
            ActionView::Continue
        }),
{
    match key {
        Key::Esc => {
            app.mode = Mode::Normal;
            app.add_buffer.clear();
            app.status.clear();
            Action::Continue
        },
        Key::Enter => {
            let parsed = add_from_line(app.add_buffer.as_str());
            assert(parsed_view(parsed) == parse_line(app@.add_buffer));
            match parsed {
                Ok(conn) => {
                    let ghost before = app.connections@;
                    app.connections.push(conn);
                    assert(connection_views(app.connections@) =~= connection_views(before).push(
                        conn@,
                    ));
                    app.add_buffer.clear();
                    app.mode = Mode::Normal;
                    app.status = String::from_str("Saved.");
                    app.apply_filter();
                    Action::Save
                },
                Err(e) => {
                    let mut status = String::from_str("Error: ");
                    status.append(e.message().as_str());
                    app.status = status;
                    Action::Continue
                },
            }
        },
        Key::Backspace => {
            app.add_buffer.pop();
            Action::Continue
        },
        Key::Char(c) => {
            app.add_buffer.push(c);
            Action::Continue
        },
        _ => Action::Continue,
    }
}

fn search_key(app: &mut AppState, key: Key, control: bool)
    requires
        old(app)@.wf(),
    ensures
        final(app)@ == old(app)@.after_search_key(key, control),
{
    match key {
        Key::Esc => {
            app.mode = Mode::Normal;
        },
        Key::Enter => {
            app.mode = Mode::Normal;
        },
        Key::Backspace => {
            app.search.pop();
            app.apply_filter();
        },
        Key::Char(c) => {
            if control && c == 'u' {
                app.search.clear();
            } else {
                app.search.push(c);
            }
            app.apply_filter();
        },
        _ => {},
    }
}

fn normal_key(app: &mut AppState, key: Key) -> (action: Action)
    requires
        old(app)@.wf(),
    ensures
        final(app)@ == old(app)@.after_normal_key(key),
        action@ == (if key == Key::Char('q') {
            ActionView::Quit
        } else if key == Key::Enter && old(app)@.selection() is Some {
            ActionView::Connect(old(app)@.connections[old(app)@.selection()->0])
        } else {
            ActionView::Continue
        }),
{
    match key {
        Key::Char(c) => {
            if c == 'q' {
                return Action::Quit;
            } else if c == 'h' {
                app.show_help = !app.show_help;
            } else if c == '/' {
                app.mode = Mode::Search;
                app.status.clear();
            } else if c == 'a' {
                app.mode = Mode::Add;
                app.add_buffer.clear();
                app.status.clear();
            } else if c == 'd' {
                app.pending_delete = true;
            } else if c == 'k' {
                cursor_up(app);
            } else if c == 'j' {
                cursor_down(app);
            }
            Action::Continue
        },
        Key::Up => {
            cursor_up(app);
            Action::Continue
        },
        Key::Down => {
            cursor_down(app);
            Action::Continue
        },
        Key::Enter => {
            match selection(app) {
                Some(i) => Action::Connect(app.connections[i].clone()),
                None => Action::Continue,
            }
        },
        _ => Action::Continue,
    }
}

fn cursor_up(app: &mut AppState)
    ensures
        final(app)@ == old(app)@.cursor_up(),
{
    if app.selected > 0 {
        app.selected -= 1;
    }
}

fn cursor_down(app: &mut AppState)
    ensures
        final(app)@ == old(app)@.cursor_down(),
{
    if app.selected < app.filtered_indices.len() && app.selected + 1 < app.filtered_indices.len() {
        app.selected += 1;
    }
}

/// Handles one event: changes the session as `AppStateView::after` says and
/// returns what `AppStateView::action` says the caller has to do.
pub fn handle_input(app: &mut AppState, event: InputEvent) -> (action: Action)
    requires
        old(app)@.wf(),
    ensures
        final(app)@ == old(app)@.after(event),
        action@ == old(app)@.action(event),
        final(app)@.wf(),
        old(app)@.is_filtered() ==> final(app)@.is_filtered(),
{
    proof {
        lemma_after_keeps_wf(app@, event);
    }
    match event {
        InputEvent::Key { key, control } => {
            if app.pending_delete {
                answer(app, key)
            } else {
                match app.mode {
                    Mode::Add => add_key(app, key),
                    Mode::Search => {
                        search_key(app, key, control);
                        Action::Continue
                    },
                    Mode::Normal => normal_key(app, key),
                }
            }
        },
        _ => Action::Continue,
    }
}

/// Records how a remote shell ended: the status names the record from which
/// the session came back, or says what failed. For a failure to give the
/// terminal away or to take it back, `detail` is the system's message.
pub fn finish_session(app: &mut AppState, name: &str, failure: Option<Failure>, detail: &str)
    ensures
        final(app)@ == old(app)@.after_session(name@, failure, detail@),
        old(app)@.wf() ==> final(app)@.wf(),
        old(app)@.is_filtered() ==> final(app)@.is_filtered(),
{
    let mut status: String;
    match failure {
        None => {
            status = String::from_str("Returned from ");
            status.append(name);
        },
        Some(Failure::Launch) => {
            status = String::from_str("SSH error: failed to launch ssh");
        },
        Some(_) => {
            status = String::from_str("SSH error: ");
            status.append(detail);
        },
    }
    app.status = status;
}

/// Every event leaves the state well formed: each visible index names a
/// record and the cursor is on a visible entry, or is 0 where there is none.
/// A state in which what is visible is what the query leaves stays so.
pub proof fn lemma_after_keeps_wf(s: AppStateView, event: InputEvent)
    requires
        s.wf(),
    ensures
        s.after(event).wf(),
        s.is_filtered() ==> s.after(event).is_filtered(),
{
    match event {
        InputEvent::Key { key, control } => {
            if s.pending_delete {
                if is_yes(key) && s.selection() is Some {
                    lemma_refiltered(
                        AppStateView {
                            connections: s.connections.remove(s.selection()->0),
                            status: "Deleted."@,
                            pending_delete: false,
                            ..s
                        },
                    );
                }
            } else {
                match s.mode {
                    Mode::Add => {
                        if key == Key::Enter {
                            match parse_line(s.add_buffer) {
                                Ok(c) => {
                                    lemma_refiltered(
                                        AppStateView {
                                            connections: s.connections.push(c),
                                            add_buffer: Seq::empty(),
                                            mode: Mode::Normal,
                                            status: "Saved."@,
                                            ..s
                                        },
                                    );
                                },
                                Err(e) => {},
                            }
                        }
                    },
                    Mode::Search => {
                        match key {
                            Key::Backspace => {
                                lemma_refiltered(
                                    AppStateView { search: without_last(s.search), ..s },
                                );
                            },
                            Key::Char(c) => {
                                lemma_refiltered(
                                    AppStateView {
                                        search: if control && c == 'u' {
                                            Seq::empty()
                                        } else {
                                            s.search.push(c)
                                        },
                                        ..s
                                    },
                                );
                            },
                            _ => {},
                        }
                    },
                    Mode::Normal => {},
                }
            }
        },
        _ => {},
    }
}

/// A confirmed deletion removes one record, the one under the cursor: the
/// records before it stay where they are and those after it move up by one,
/// in their order. Any other answer leaves the records as they are. Either
/// way the question is over.
pub proof fn lemma_answer(s: AppStateView, key: Key)
    requires
        s.wf(),
    ensures
        !s.after_answer(key).pending_delete,
        is_yes(key) && s.selection() is Some ==> {
            let i = s.selection()->0;
            let t = s.after_answer(key);
            &&& t.connections.len() == s.connections.len() - 1
            &&& forall|j: int| 0 <= j < i ==> t.connections[j] == s.connections[j]
            &&& forall|j: int| i <= j < t.connections.len() ==> t.connections[j] == s.connections[j + 1]
        },
        !(is_yes(key) && s.selection() is Some) ==> s.after_answer(key) == (AppStateView {
            pending_delete: false,
            ..s
        }),
{
}

/// A line that is a connection is added at the end of the records. Under a
/// query that is empty once trimmed the new record is visible; under any
/// other it is visible if and only if its label matches the trimmed query.
pub proof fn lemma_add(s: AppStateView)
    requires
        s.wf(),
        parse_line(s.add_buffer) is Ok,
    ensures
        ({
            let c = parse_line(s.add_buffer)->Ok_0;
            let t = s.after_add_key(Key::Enter);
            let last = t.connections.len() - 1;
            &&& t.connections == s.connections.push(c)
            &&& t.connections[last] == c
            &&& t.mode == Mode::Normal
            &&& t.add_buffer.len() == 0
            &&& trimmed(s.search).len() == 0 ==> t.filtered_indices.contains(last)
            &&& trimmed(s.search).len() > 0 ==> (t.filtered_indices.contains(last) <==> match_score(
                label_of(c),
                trimmed(s.search),
            ) is Some)
        }),
{
    let c = parse_line(s.add_buffer)->Ok_0;
    let t = s.after_add_key(Key::Enter);
    let last = t.connections.len() - 1;
    lemma_visible_for(t.connections, s.search);
    if trimmed(s.search).len() == 0 {
        assert(t.filtered_indices[last] == last);
    }
}

/// A line that is no connection changes the status only: the buffer and the
/// mode stay, so that the line can be corrected.
pub proof fn lemma_add_rejected(s: AppStateView)
    requires
        parse_line(s.add_buffer) is Err,
    ensures
        s.after_add_key(Key::Enter) == (AppStateView {
            status: "Error: "@ + parse_line(s.add_buffer)->Err_0.text(),
            ..s
        }),
{
}

} // verus!
