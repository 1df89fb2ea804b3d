//! What is drawn: the decisions of the screen, without the drawing.

use crate::app::{AppState, AppStateView, Mode};
use crate::models::{port_suffix, push_port, Connection, ConnectionView};
use crate::text::{decimal, pad_right, padded, push_decimal};
use vstd::prelude::*;
use vstd::string::*;

verus! {

/// The dialog that lies over the list.
#[derive(Debug, Clone, Copy, PartialEq, Eq, Structural)]
pub enum Dialog {
    /// No dialog.
    Hidden,
    /// The line of a new record.
    Add,
    /// The question whether to delete.
    ConfirmDelete,
    /// The keys.
    Help,
}

/// The width to which names are padded in the list.
pub const NAME_WIDTH: usize = 20;

/// The dialog that a state shows: adding comes before the question whether
/// to delete, and that before the help.
pub open spec fn dialog_of(s: AppStateView) -> Dialog {
    if s.mode == Mode::Add {
        Dialog::Add
    } else if s.pending_delete {
        Dialog::ConfirmDelete
    } else if s.show_help {
        Dialog::Help
    } else {
        Dialog::Hidden
    }
}

/// The dialog to draw over the list.
pub fn dialog(app: &AppState) -> (d: Dialog)
    ensures
        d == dialog_of(app@),
{
    if app.mode == Mode::Add {
        Dialog::Add
    } else if app.pending_delete {
        Dialog::ConfirmDelete
    } else if app.show_help {
        Dialog::Help
    } else {
        Dialog::Hidden
    }
}

/// The cells of one line of the list.
#[derive(Debug)]
pub struct Row {
    /// The name, padded to `NAME_WIDTH`.
    pub name: String,
    pub user: String,
    /// The host, followed by `:` and the port where one is set.
    pub address: String,
    /// The terminal type in square brackets, where one is set.
    pub term: Option<String>,
}

/// A `Row`, as mathematical values.
pub struct RowView {
    pub name: Seq<char>,
    pub user: Seq<char>,
    pub address: Seq<char>,
    pub term: Option<Seq<char>>,
}

impl View for Row {
    type V = RowView;

    open spec fn view(&self) -> RowView {
        RowView {
            name: self.name@,
            user: self.user@,
            address: self.address@,
            term: match self.term {
                Some(t) => Some(t@),
                None => None,
            },
        }
    }
}

/// The line of the list that shows `c`.
pub open spec fn row_of(c: ConnectionView) -> RowView {
    RowView {
        name: padded(c.name, NAME_WIDTH as nat),
        user: c.user,
        address: c.host + port_suffix(c.port),
        term: match c.term {
            Some(t) => Some(seq!['['] + t + seq![']']),
            None => None,
        },
    }
}

/// The line of the list that shows `conn`.
pub fn row(conn: &Connection) -> (r: Row)
    ensures
        r@ == row_of(conn@),
{
    let mut address = conn.host.clone();
    push_port(&mut address, conn.port);
    let term = match &conn.term {
        Some(t) => {
            let mut s = String::new();
            s.push('[');
            s.append(t.as_str());
            s.push(']');
            assert(s@ =~= seq!['['] + t@ + seq![']']);
            Some(s)
        },
        None => None,
    };
    Row { name: pad_right(conn.name.as_str(), NAME_WIDTH), user: conn.user.clone(), address, term }
}

/// Where the cursor stands: `0/0` where nothing is visible, else the
/// cursor's place, counted from 1, a `/`, and the number of visible records.
pub open spec fn position_of_cursor(s: AppStateView) -> Seq<char> {
    if s.filtered_indices.len() == 0 {
        "0/0"@
    } else {
        decimal((s.selected + 1) as nat) + seq!['/'] + decimal(s.filtered_indices.len())
    }
}

/// Where the cursor stands, as the footer shows it.
pub fn position_text(app: &AppState) -> (s: String)
    requires
        app@.wf(),
    ensures
        s@ == position_of_cursor(app@),
{
    if app.filtered_indices.len() == 0 {
        String::from_str("0/0")
    } else {
        let mut s = String::new();
        push_decimal(&mut s, (app.selected + 1) as u64);
        s.push('/');
        push_decimal(&mut s, app.filtered_indices.len() as u64);
        assert(s@ =~= position_of_cursor(app@));
        s
    }
}

} // verus!
