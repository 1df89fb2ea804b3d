//! The state of a session: the records, what of them is visible, the cursor
//! and the input buffers.

use crate::filter::{indices, is_ranking, lemma_ranked, match_score, rank, ranked, score};
use crate::models::{connection_views, label_of, Connection, ConnectionView};
use crate::text::{lemma_trimmed, trim, trimmed};
use vstd::prelude::*;
use vstd::string::*;

verus! {

/// Which handler the keys go to.
#[derive(Debug, Clone, Copy, PartialEq, Eq, Structural)]
pub enum Mode {
    /// Moving through the list.
    Normal,
    /// Typing the query.
    Search,
    /// Typing the line of a new record.
    Add,
}

impl Default for Mode {
    fn default() -> (m: Self)
        ensures
            m == Mode::Normal,
    {
        Mode::Normal
    }
}

/// The state of a session.
#[derive(Debug)]
pub struct AppState {
    /// The records, in the order in which they were added.
    pub connections: Vec<Connection>,
    /// Indices into `connections`: the records that the query leaves, in the
    /// order in which they are shown.
    pub filtered_indices: Vec<usize>,
    /// Index into `filtered_indices`: the cursor. 0 where nothing is shown.
    pub selected: usize,
    /// The query.
    pub search: String,
    pub mode: Mode,
    pub show_help: bool,
    /// Set while the next key answers the question whether to delete.
    pub pending_delete: bool,
    /// The line of the record that is being added.
    pub add_buffer: String,
    /// The message shown until the next one replaces it.
    pub status: String,
}

/// What an `AppState` holds, as mathematical values.
pub struct AppStateView {
    pub connections: Seq<ConnectionView>,
    pub filtered_indices: Seq<int>,
    pub selected: int,
    pub search: Seq<char>,
    pub mode: Mode,
    pub show_help: bool,
    pub pending_delete: bool,
    pub add_buffer: Seq<char>,
    pub status: Seq<char>,
}

impl View for AppState {
    type V = AppStateView;

    open spec fn view(&self) -> AppStateView {
        AppStateView {
            connections: connection_views(self.connections@),
            filtered_indices: indices(self.filtered_indices@),
            selected: self.selected as int,
            search: self.search@,
            mode: self.mode,
            show_help: self.show_help,
            pending_delete: self.pending_delete,
            add_buffer: self.add_buffer@,
            status: self.status@,
        }
    }
}

/// The indices `0, 1, ..., n - 1`.
pub open spec fn identity(n: nat) -> Seq<int> {
    Seq::new(n, |i: int| i)
}

/// The score of each record's label against `query`.
pub open spec fn scores_of(records: Seq<ConnectionView>, query: Seq<char>) -> Seq<Option<i64>> {
    Seq::new(records.len(), |i: int| match_score(label_of(records[i]), query))
}

/// The records that `query` leaves, in the order in which they are shown.
/// A query that is empty once trimmed leaves all records in their own order;
/// any other leaves those whose label matches it, ranked by score.
pub open spec fn visible_for(records: Seq<ConnectionView>, query: Seq<char>) -> Seq<int> {
    if trimmed(query).len() == 0 {
        identity(records.len())
    } else {
        ranked(scores_of(records, trimmed(query)))
    }
}

impl AppStateView {
    /// The state before anything is loaded.
    pub open spec fn initial() -> AppStateView {
        AppStateView {
            connections: Seq::empty(),
            filtered_indices: Seq::empty(),
            selected: 0,
            search: Seq::empty(),
            mode: Mode::Normal,
            show_help: false,
            pending_delete: false,
            add_buffer: Seq::empty(),
            status: Seq::empty(),
        }
    }

    /// Every visible index names a record, and the cursor is on a visible
    /// entry, or is 0 where there is none.
    pub open spec fn wf(self) -> bool {
        &&& forall|k: int|
            0 <= k < self.filtered_indices.len() ==> 0 <= (#[trigger] self.filtered_indices[k])
                < self.connections.len()
        &&& self.cursor_in_range()
    }

    /// The cursor is 0, or on a visible entry.
    pub open spec fn cursor_in_range(self) -> bool {
        self.selected == 0 || 0 <= self.selected < self.filtered_indices.len()
    }

    /// What is visible is what the query leaves of the records.
    pub open spec fn is_filtered(self) -> bool {
        self.filtered_indices == visible_for(self.connections, self.search)
    }

    /// The index of the record under the cursor.
    pub open spec fn selection(self) -> Option<int> {
        if 0 <= self.selected < self.filtered_indices.len() {
            Some(self.filtered_indices[self.selected])
        } else {
            None
        }
    }

    /// The state after the filter has run: what is visible is worked out anew
    /// from the records and the query, and the cursor goes to the top.
    pub open spec fn refiltered(self) -> AppStateView {
        AppStateView {
            filtered_indices: visible_for(self.connections, self.search),
            selected: 0,
            ..self
        }
    }
}

/// What a query leaves names records only. Under a query that is empty once
/// trimmed every record is visible, in stored order. Under any other query a
/// record is visible if and only if its label has a score against the
/// trimmed query, and of two visible records the one with the higher score
/// comes first, the one stored first where the scores are equal.
pub proof fn lemma_visible_for(records: Seq<ConnectionView>, query: Seq<char>)
    ensures
        forall|k: int|
            0 <= k < visible_for(records, query).len() ==> 0 <= (#[trigger] visible_for(
                records,
                query,
            )[k]) < records.len(),
        trimmed(query).len() == 0 ==> visible_for(records, query) == identity(records.len()),
        trimmed(query).len() > 0 ==> is_ranking(
            scores_of(records, trimmed(query)),
            visible_for(records, query),
        ),
        trimmed(query).len() > 0 ==> forall|i: int|
            0 <= i < records.len() ==> (visible_for(records, query).contains(i)
                <==> #[trigger] match_score(label_of(records[i]), trimmed(query)) is Some),
{
    if trimmed(query).len() > 0 {
        let scores = scores_of(records, trimmed(query));
        let order = visible_for(records, query);
        lemma_ranked(scores);
        assert forall|i: int| 0 <= i < records.len() implies (order.contains(i)
            <==> #[trigger] match_score(label_of(records[i]), trimmed(query)) is Some) by {
            assert(scores[i] == match_score(label_of(records[i]), trimmed(query)));
            if order.contains(i) {
                let k = choose|k: int| 0 <= k < order.len() && order[k] == i;
                assert(scores[order[k]] is Some);
            }
        }
    }
}

/// The filter gives one answer: states with the same records and the same
/// query show the same records in the same order, and running the filter a
/// second time changes nothing.
pub proof fn lemma_filter_deterministic(a: AppStateView, b: AppStateView)
    requires
        a.connections == b.connections,
        a.search == b.search,
    ensures
        a.refiltered().filtered_indices == b.refiltered().filtered_indices,
        a.refiltered().refiltered() == a.refiltered(),
{
}

/// After the filter has run the state is well formed and what is visible is
/// what the query leaves.
pub proof fn lemma_refiltered(s: AppStateView)
    ensures
        s.refiltered().wf(),
        s.refiltered().is_filtered(),
{
    lemma_visible_for(s.connections, s.search);
}

impl Default for AppState {
    fn default() -> (s: Self)
        ensures
            s@ == AppStateView::initial(),
            s@.wf(),
            s@.is_filtered(),
    {
        let s = AppState {
            connections: Vec::new(),
            filtered_indices: Vec::new(),
            selected: 0,
            search: String::new(),
            mode: Mode::Normal,
            show_help: false,
            pending_delete: false,
            add_buffer: String::new(),
            status: String::new(),
        };
        proof {
            assert(s@.connections =~= Seq::empty());
            assert(s@.filtered_indices =~= Seq::empty());
            lemma_trimmed(s@.search);
            assert(s@.filtered_indices =~= identity(0));
        }
        s
    }
}

impl AppState {
    /// Whether every visible index names a record and the cursor is on a
    /// visible entry, or is 0 where there is none.
    pub fn well_formed(&self) -> (b: bool)
        ensures
            b == self@.wf(),
    {
        let n: usize = self.connections.len();
        let mut k: usize = 0;
        while k < self.filtered_indices.len()
            invariant
                k <= self.filtered_indices.len(),
                n == self.connections.len(),
                forall|j: int| 0 <= j < k ==> (#[trigger] self.filtered_indices@[j]) < n,
            decreases self.filtered_indices.len() - k,
        {
            if self.filtered_indices[k] >= n {
                assert(!(self@.filtered_indices[k as int] < self@.connections.len()));
                return false;
            }
            k += 1;
        }
        assert forall|j: int| 0 <= j < self@.filtered_indices.len() implies 0 <= (
        #[trigger] self@.filtered_indices[j]) < self@.connections.len() by {
            assert(self@.filtered_indices[j] == self.filtered_indices@[j]);
        }
        self.selected == 0 || self.selected < self.filtered_indices.len()
    }

    /// Works out anew what is visible, from the records and the query, and
    /// puts the cursor at the top.
    pub fn apply_filter(&mut self)
        ensures
            final(self)@ == old(self)@.refiltered(),
            final(self)@.wf(),
            final(self)@.is_filtered(),
            final(self).selected == 0,
            trimmed(old(self).search@).len() == 0 ==> indices(final(self).filtered_indices@)
                == identity(old(self).connections@.len()),
            final(self).connections == old(self).connections,
    {
        let n: usize = self.connections.len();
        let ghost records = self@.connections;
        let query = trim(self.search.as_str());
        if query.is_empty() {
            let mut all: Vec<usize> = Vec::new();
            let mut i: usize = 0;
            assert(indices(all@) =~= identity(0));
            while i < n
                invariant
                    i <= n,
                    indices(all@) == identity(i as nat),
                decreases n - i,
            {
                let ghost before = indices(all@);
                all.push(i);
                assert(indices(all@) =~= before.push(i as int));
                i += 1;
                assert(indices(all@) =~= identity(i as nat));
            }
            self.filtered_indices = all;
        } else {
            let mut scores: Vec<Option<i64>> = Vec::new();
            let mut i: usize = 0;
            while i < n
                invariant
                    i <= n == self.connections.len(),
                    records == connection_views(self.connections@),
                    scores.len() == i,
                    forall|k: int|
                        0 <= k < i ==> #[trigger] scores@[k] == match_score(
                            label_of(records[k]),
                            query@,
                        ),
                decreases n - i,
            {
                let label = self.connections[i].label();
                scores.push(score(label.as_str(), query));
                i += 1;
            }
            assert(scores@ =~= scores_of(records, query@));
            self.filtered_indices = rank(&scores);
        }
        self.selected = 0;
        proof {
            lemma_refiltered(old(self)@);
        }
    }
}

} // verus!
