//! The session controller: the interactive state over a scan's findings.
//!
//! [`App`] owns the discovered entries, the cursor, the selection set (one
//! flag per entry), derived byte totals, and the screen state. Every
//! operation is a pure state transition; the outer event loop feeds it
//! [`Key`] events and performs the filesystem work between transitions.

use vstd::prelude::*;

use crate::render::dec_spec;
use crate::render::u64_to_string;
use crate::scanner::NodeModulesEntry;

verus! {

/// The current screen.
#[derive(Debug, Clone, Copy, PartialEq, Eq, Structural)]
pub enum AppMode {
    Welcome,
    List,
}

/// A key event, as the controller reads it.
#[derive(Debug, Clone, Copy, PartialEq, Eq, Structural)]
pub enum Key {
    Char(char),
    Up,
    Down,
    Left,
    Right,
    Home,
    End,
    Enter,
    Esc,
    Backspace,
    Delete,
    Other,
}

/// A user-facing status message.
#[derive(Debug, Clone, PartialEq, Eq)]
pub enum Message {
    /// A scan finished without finding any marker directory.
    NoEntriesFound,
    /// A scan failed outright; the payload describes the cause.
    ScanError(String),
    /// The submitted path does not name a directory.
    InvalidPath,
    /// A deletion sequence finished: how many entries were deleted, and how
    /// many deletions failed.
    DeleteSummary { deleted: usize, errors: usize },
}

/// The rendering of a message.
pub open spec fn message_text(m: Message) -> Seq<char> {
    match m {
        Message::NoEntriesFound => "No node_modules folders found."@,
        Message::ScanError(e) => "Error scanning: "@ + e@,
        Message::InvalidPath => "Invalid path. Please enter a valid directory."@,
        Message::DeleteSummary { deleted, errors } => {
            if errors == 0 {
                "Successfully deleted "@ + dec_spec(deleted as nat) + " folders"@
            } else {
                "Deleted "@ + dec_spec(deleted as nat) + " folders, "@ + dec_spec(errors as nat)
                    + " errors"@
            }
        },
    }
}

impl Message {
    /// The message as display text.
    pub fn text(&self) -> (s: String)
        ensures
            s@ == message_text(*self),
    {
        match self {
            Message::NoEntriesFound => "No node_modules folders found.".to_owned(),
            Message::ScanError(e) => {
                let mut s = "Error scanning: ".to_owned();
                s.append(e.as_str());
                s
            },
            Message::InvalidPath => "Invalid path. Please enter a valid directory.".to_owned(),
            Message::DeleteSummary { deleted, errors } => {
                if *errors == 0 {
                    let mut s = "Successfully deleted ".to_owned();
                    s.append(u64_to_string(*deleted as u64).as_str());
                    s.append(" folders");
                    proof {
                        assert(s@ =~= message_text(*self));
                    }
                    s
                } else {
                    let mut s = "Deleted ".to_owned();
                    s.append(u64_to_string(*deleted as u64).as_str());
                    s.append(" folders, ");
                    s.append(u64_to_string(*errors as u64).as_str());
                    s.append(" errors");
                    proof {
                        assert(s@ =~= message_text(*self));
                    }
                    s
                }
            },
        }
    }
}

/// Sum of the sizes of all entries.
pub open spec fn total_of(es: Seq<NodeModulesEntry>) -> int
    decreases es.len(),
{
    if es.len() == 0 {
        0
    } else {
        total_of(es.drop_last()) + es.last().size
    }
}

/// Sum of the sizes of the entries whose selection flag is set.
pub open spec fn selected_total(es: Seq<NodeModulesEntry>, sel: Seq<bool>) -> int
    decreases es.len(),
{
    if es.len() == 0 {
        0
    } else {
        selected_total(es.drop_last(), sel.drop_last()) + (if sel.len() == es.len() && sel.last() {
            es.last().size as int
        } else {
            0
        })
    }
}

/// The selected part never exceeds the whole.
pub proof fn lemma_selected_le_total(es: Seq<NodeModulesEntry>, sel: Seq<bool>)
    ensures
        0 <= selected_total(es, sel) <= total_of(es),
    decreases es.len(),
{
    if es.len() > 0 {
        lemma_selected_le_total(es.drop_last(), sel.drop_last());
    }
}

/// Flipping one selection flag moves the selected total by that entry's size.
pub proof fn lemma_selected_update(es: Seq<NodeModulesEntry>, sel: Seq<bool>, i: int, b: bool)
    requires
        sel.len() == es.len(),
        0 <= i < es.len(),
    ensures
        selected_total(es, sel.update(i, b)) == selected_total(es, sel) - (if sel[i] {
            es[i].size as int
        } else {
            0
        }) + (if b {
            es[i].size as int
        } else {
            0
        }),
    decreases es.len(),
{
    let updated = sel.update(i, b);
    if i == es.len() - 1 {
        assert(updated.drop_last() =~= sel.drop_last());
    } else {
        assert(updated.drop_last() =~= sel.drop_last().update(i, b));
        lemma_selected_update(es.drop_last(), sel.drop_last(), i, b);
    }
}

/// With every flag set, the selected total is the whole.
pub proof fn lemma_selected_all(es: Seq<NodeModulesEntry>, sel: Seq<bool>)
    requires
        sel.len() == es.len(),
        forall|i: int| 0 <= i < sel.len() ==> sel[i],
    ensures
        selected_total(es, sel) == total_of(es),
    decreases es.len(),
{
    if es.len() > 0 {
        lemma_selected_all(es.drop_last(), sel.drop_last());
    }
}

/// With no flag set, the selected total is zero.
pub proof fn lemma_selected_none(es: Seq<NodeModulesEntry>, sel: Seq<bool>)
    requires
        sel.len() == es.len(),
        forall|i: int| 0 <= i < sel.len() ==> !sel[i],
    ensures
        selected_total(es, sel) == 0,
    decreases es.len(),
{
    if es.len() > 0 {
        lemma_selected_none(es.drop_last(), sel.drop_last());
    }
}

proof fn lemma_total_take_le(es: Seq<NodeModulesEntry>, i: int)
    requires
        0 <= i <= es.len(),
    ensures
        total_of(es.take(i)) <= total_of(es),
    decreases es.len() - i,
{
    if i == es.len() {
        assert(es.take(i) =~= es);
    } else {
        assert(es.take(i + 1).drop_last() =~= es.take(i));
        lemma_total_take_le(es, i + 1);
    }
}

/// The session state: entries, cursor, selection, derived totals, screen and
/// progress flags.
pub struct App {
    pub entries: Vec<NodeModulesEntry>,
    pub cursor: Option<usize>,
    pub selected: Vec<bool>,
    pub scanning: bool,
    pub scan_path: String,
    pub scanning_current_path: String,
    pub total_size: u64,
    pub selected_size: u64,
    pub show_help: bool,
    pub show_confirm: bool,
    pub message: Option<Message>,
    pub should_quit: bool,
    pub mode: AppMode,
    pub input_path: String,
    pub cursor_position: usize,
    pub deleting: bool,
    pub delete_progress: (usize, usize),
    pub delete_current_path: String,
}

impl App {
    /// The state's internal consistency: one selection flag per entry, the
    /// derived totals equal to the sums they stand for, the cursor within
    /// range, and the input cursor within the input line.
    pub open spec fn wf(self) -> bool {
        &&& self.selected.len() == self.entries.len()
        &&& total_of(self.entries@) == self.total_size
        &&& selected_total(self.entries@, self.selected@) == self.selected_size
        &&& match self.cursor {
            Some(i) => i < self.entries.len(),
            None => true,
        }
        &&& self.cursor_position <= self.input_path@.len()
    }

    /// A fresh session: welcome screen, nothing discovered, nothing selected.
    pub fn new() -> (app: App)
        ensures
            app.wf(),
            app.entries@.len() == 0,
            app.cursor is None,
            app.selected@.len() == 0,
            !app.scanning,
            app.scan_path@.len() == 0,
            app.scanning_current_path@.len() == 0,
            app.total_size == 0,
            app.selected_size == 0,
            !app.show_help,
            !app.show_confirm,
            app.message is None,
            !app.should_quit,
            app.mode == AppMode::Welcome,
            app.input_path@.len() == 0,
            app.cursor_position == 0,
            !app.deleting,
            app.delete_progress == (0usize, 0usize),
            app.delete_current_path@.len() == 0,
    {
        App {
            entries: Vec::new(),
            cursor: None,
            selected: Vec::new(),
            scanning: false,
            scan_path: String::new(),
            scanning_current_path: String::new(),
            total_size: 0,
            selected_size: 0,
            show_help: false,
            show_confirm: false,
            message: None,
            should_quit: false,
            mode: AppMode::Welcome,
            input_path: String::new(),
            cursor_position: 0,
            deleting: false,
            delete_progress: (0, 0),
            delete_current_path: String::new(),
        }
    }
}

/// All selection flags cleared, for `n` entries.
pub open spec fn no_selection(n: nat) -> Seq<bool> {
    Seq::new(n, |i: int| false)
}

/// All selection flags set, for `n` entries.
pub open spec fn full_selection(n: nat) -> Seq<bool> {
    Seq::new(n, |i: int| true)
}

/// What `toggle_select` does: without a cursor nothing changes; under a
/// cursor, that entry's flag flips and the selected total moves by its size.
pub open spec fn toggle_select_post(pre: App, post: App) -> bool {
    match pre.cursor {
        None => post == pre,
        Some(i) => {
            &&& post == (App {
                selected: post.selected,
                selected_size: post.selected_size,
                ..pre
            })
            &&& post.selected@ == pre.selected@.update(i as int, !pre.selected@[i as int])
            &&& post.selected_size == if pre.selected@[i as int] {
                pre.selected_size - pre.entries@[i as int].size
            } else {
                pre.selected_size + pre.entries@[i as int].size
            }
        },
    }
}

/// What `select_all` does: every flag set, the selected total the whole.
pub open spec fn select_all_post(pre: App, post: App) -> bool {
    &&& post == (App { selected: post.selected, selected_size: post.selected_size, ..pre })
    &&& post.selected@ == full_selection(pre.entries@.len())
    &&& post.selected_size == pre.total_size
}

/// What `deselect_all` does: every flag cleared, the selected total zero.
pub open spec fn deselect_all_post(pre: App, post: App) -> bool {
    &&& post == (App { selected: post.selected, selected_size: 0, ..pre })
    &&& post.selected@ == no_selection(pre.entries@.len())
    &&& post.selected_size == 0
}

/// What `next` does: on an empty list nothing; else the cursor advances,
/// wrapping from the last entry to the first.
pub open spec fn next_post(pre: App, post: App) -> bool {
    if pre.entries@.len() == 0 {
        post == pre
    } else {
        &&& post == (App { cursor: post.cursor, ..pre })
        &&& post.cursor == (match pre.cursor {
            None => Some(0usize),
            Some(i) => if i as int >= pre.entries@.len() - 1 {
                Some(0usize)
            } else {
                Some((i + 1) as usize)
            },
        })
    }
}

/// What `previous` does: on an empty list nothing; else the cursor steps
/// back, wrapping from the first entry to the last.
pub open spec fn previous_post(pre: App, post: App) -> bool {
    if pre.entries@.len() == 0 {
        post == pre
    } else {
        &&& post == (App { cursor: post.cursor, ..pre })
        &&& post.cursor == (match pre.cursor {
            None => Some(0usize),
            Some(i) => if i == 0 {
                Some((pre.entries@.len() - 1) as usize)
            } else {
                Some((i - 1) as usize)
            },
        })
    }
}

fn fill_flags(n: usize, b: bool) -> (v: Vec<bool>)
    ensures
        v@ == Seq::new(n as nat, |i: int| b),
{
    let mut v: Vec<bool> = Vec::new();
    let mut i: usize = 0;
    while i < n
        invariant
            i <= n,
            v@.len() == i,
            forall|j: int| 0 <= j < i ==> v@[j] == b,
        decreases n - i,
    {
        v.push(b);
        i = i + 1;
    }
    proof {
        assert(v@ =~= Seq::new(n as nat, |i: int| b));
    }
    v
}

impl App {
    /// Installs a fresh entry list: recomputes the total, clears the
    /// selection, and puts the cursor on the first entry (when there is one).
    pub fn set_entries(&mut self, entries: Vec<NodeModulesEntry>)
        requires
            old(self).wf(),
            total_of(entries@) <= u64::MAX,
        ensures
            final(self).wf(),
            *final(self) == (App {
                entries: final(self).entries,
                selected: final(self).selected,
                cursor: final(self).cursor,
                total_size: final(self).total_size,
                selected_size: 0,
                ..*old(self)
            }),
            final(self).entries == entries,
            final(self).total_size == total_of(entries@),
            final(self).selected@ == no_selection(entries@.len()),
            final(self).selected_size == 0,
            final(self).cursor == (if entries@.len() > 0 {
                Some(0usize)
            } else {
                None::<usize>
            }),
    {
        let n = entries.len();
        let total = match entries_total_checked(&entries) {
            Some(v) => v,
            None => {
                proof {
                    assert(false);
                }
                0
            },
        };
        self.total_size = total;
        self.entries = entries;
        self.selected = fill_flags(n, false);
        self.selected_size = 0;
        self.cursor = if n > 0 {
            Some(0)
        } else {
            None
        };
        proof {
            lemma_selected_none(self.entries@, self.selected@);
        }
    }

    /// Flips the selection flag of the entry under the cursor, adjusting the
    /// selected total incrementally; without a cursor, does nothing.
    pub fn toggle_select(&mut self)
        requires
            old(self).wf(),
        ensures
            final(self).wf(),
            toggle_select_post(*old(self), *final(self)),
    {
        match self.cursor {
            None => {},
            Some(i) => {
                proof {
                    lemma_selected_update(
                        self.entries@,
                        self.selected@,
                        i as int,
                        !self.selected@[i as int],
                    );
                    lemma_selected_le_total(
                        self.entries@,
                        self.selected@.update(i as int, !self.selected@[i as int]),
                    );
                }
                if self.selected[i] {
                    self.selected[i] = false;
                    self.selected_size = self.selected_size - self.entries[i].size;
                } else {
                    self.selected[i] = true;
                    self.selected_size = self.selected_size + self.entries[i].size;
                }
            },
        }
    }

    /// Selects every entry; the selected total becomes the whole.
    pub fn select_all(&mut self)
        requires
            old(self).wf(),
        ensures
            final(self).wf(),
            select_all_post(*old(self), *final(self)),
    {
        self.selected = fill_flags(self.entries.len(), true);
        self.selected_size = self.total_size;
        proof {
            lemma_selected_all(self.entries@, self.selected@);
        }
    }

    /// Clears the selection.
    pub fn deselect_all(&mut self)
        requires
            old(self).wf(),
        ensures
            final(self).wf(),
            deselect_all_post(*old(self), *final(self)),
    {
        self.selected = fill_flags(self.entries.len(), false);
        self.selected_size = 0;
        proof {
            lemma_selected_none(self.entries@, self.selected@);
        }
    }

    /// Moves the cursor to the next entry, wrapping past the end; on an
    /// empty list this is a no-op and leaves no selection behind.
    pub fn next(&mut self)
        requires
            old(self).wf(),
        ensures
            final(self).wf(),
            next_post(*old(self), *final(self)),
    {
        if self.entries.len() == 0 {
            return ;
        }
        let i: usize = match self.cursor {
            Some(i) => {
                if i >= self.entries.len() - 1 {
                    0
                } else {
                    i + 1
                }
            },
            None => 0,
        };
        self.cursor = Some(i);
    }

    /// Moves the cursor to the previous entry, wrapping before the start; on
    /// an empty list this is a no-op and leaves no selection behind.
    pub fn previous(&mut self)
        requires
            old(self).wf(),
        ensures
            final(self).wf(),
            previous_post(*old(self), *final(self)),
    {
        if self.entries.len() == 0 {
            return ;
        }
        let i: usize = match self.cursor {
            Some(i) => {
                if i == 0 {
                    self.entries.len() - 1
                } else {
                    i - 1
                }
            },
            None => 0,
        };
        self.cursor = Some(i);
    }
}

/// The selected indices, in ascending order.
pub open spec fn selected_indices_spec(sel: Seq<bool>) -> Seq<int>
    decreases sel.len(),
{
    if sel.len() == 0 {
        Seq::empty()
    } else {
        selected_indices_spec(sel.drop_last()) + (if sel.last() {
            seq![sel.len() - 1]
        } else {
            Seq::empty()
        })
    }
}

/// Every selected index lies below the flag count, and they ascend strictly.
pub proof fn lemma_selected_indices_bounds(sel: Seq<bool>)
    ensures
        forall|k: int|
            0 <= k < selected_indices_spec(sel).len() ==> 0 <= #[trigger] selected_indices_spec(
                sel,
            )[k] < sel.len(),
        forall|j: int, k: int|
            0 <= j < k < selected_indices_spec(sel).len() ==> selected_indices_spec(sel)[j]
                < selected_indices_spec(sel)[k],
    decreases sel.len(),
{
    if sel.len() > 0 {
        lemma_selected_indices_bounds(sel.drop_last());
        let s0 = selected_indices_spec(sel.drop_last());
        let s = selected_indices_spec(sel);
        if sel.last() {
            assert(s == s0 + seq![sel.len() - 1]);
            assert forall|k: int| 0 <= k < s.len() implies 0 <= #[trigger] s[k] < sel.len() by {
                if k < s0.len() {
                    assert(s[k] == s0[k]);
                } else {
                    assert(s[k] == sel.len() - 1);
                }
            }
            assert forall|j: int, k: int| 0 <= j < k < s.len() implies s[j] < s[k] by {
                assert(s[j] == s0[j]);
                if k < s0.len() {
                    assert(s[k] == s0[k]);
                } else {
                    assert(s[k] == sel.len() - 1);
                    assert(s0[j] < sel.drop_last().len());
                }
            }
        } else {
            assert(s =~= s0);
            assert forall|k: int| 0 <= k < s.len() implies 0 <= #[trigger] s[k] < sel.len() by {
                assert(s[k] == s0[k]);
                assert(s0[k] < sel.drop_last().len());
            }
        }
    }
}

/// A sequence of usize values, as mathematical integers.
pub open spec fn to_ints(s: Seq<usize>) -> Seq<int> {
    s.map_values(|u: usize| u as int)
}

/// `idx` is a strictly ascending sequence of positions below `n`: the shape
/// a deletion snapshot has.
pub open spec fn valid_removal(idx: Seq<int>, n: int) -> bool {
    &&& forall|k: int| 0 <= k < idx.len() ==> 0 <= #[trigger] idx[k] < n
    &&& forall|j: int, k: int| 0 <= j < k < idx.len() ==> idx[j] < idx[k]
}

/// `es` with the positions in `idx` (read ascending) removed, order kept;
/// a position out of range is skipped.
pub open spec fn remove_indices(es: Seq<NodeModulesEntry>, idx: Seq<int>) -> Seq<
    NodeModulesEntry,
>
    decreases idx.len(),
{
    if idx.len() == 0 {
        es
    } else if 0 <= idx.last() < es.len() {
        remove_indices(es.remove(idx.last()), idx.drop_last())
    } else {
        remove_indices(es, idx.drop_last())
    }
}

proof fn lemma_total_remove(es: Seq<NodeModulesEntry>, i: int)
    requires
        0 <= i < es.len(),
    ensures
        total_of(es.remove(i)) == total_of(es) - es[i].size,
    decreases es.len(),
{
    if i == es.len() - 1 {
        assert(es.remove(i) =~= es.drop_last());
    } else {
        assert(es.remove(i).drop_last() =~= es.drop_last().remove(i));
        assert(es.remove(i).last() == es.last());
        lemma_total_remove(es.drop_last(), i);
    }
}

proof fn lemma_remove_indices_le(es: Seq<NodeModulesEntry>, idx: Seq<int>)
    ensures
        total_of(remove_indices(es, idx)) <= total_of(es),
    decreases idx.len(),
{
    if idx.len() > 0 {
        if 0 <= idx.last() < es.len() {
            lemma_total_remove(es, idx.last());
            lemma_remove_indices_le(es.remove(idx.last()), idx.drop_last());
        } else {
            lemma_remove_indices_le(es, idx.drop_last());
        }
    }
}

impl App {
    /// Is any entry selected?
    pub fn any_selected(&self) -> (r: bool)
        ensures
            r == self.selected@.contains(true),
    {
        let mut i: usize = 0;
        while i < self.selected.len()
            invariant
                i <= self.selected.len(),
                forall|j: int| 0 <= j < i ==> !self.selected@[j],
            decreases self.selected.len() - i,
        {
            if self.selected[i] {
                return true;
            }
            i = i + 1;
        }
        false
    }

    /// The deletion snapshot: the selected entries as (index, path) pairs,
    /// in ascending index order.
    pub fn get_selected_entries(&self) -> (result: Vec<(usize, String)>)
        requires
            self.wf(),
        ensures
            result@.len() == selected_indices_spec(self.selected@).len(),
            forall|k: int|
                0 <= k < result@.len() ==> {
                    &&& (#[trigger] result@[k]).0 as int == selected_indices_spec(
                        self.selected@,
                    )[k]
                    &&& result@[k].1@ == self.entries@[selected_indices_spec(
                        self.selected@,
                    )[k]].path@
                },
    {
        let mut result: Vec<(usize, String)> = Vec::new();
        let mut i: usize = 0;
        while i < self.selected.len()
            invariant
                self.wf(),
                i <= self.selected.len(),
                result@.len() == selected_indices_spec(self.selected@.take(i as int)).len(),
                forall|k: int|
                    0 <= k < result@.len() ==> {
                        &&& (#[trigger] result@[k]).0 as int == selected_indices_spec(
                            self.selected@.take(i as int),
                        )[k]
                        &&& result@[k].1@ == self.entries@[selected_indices_spec(
                            self.selected@.take(i as int),
                        )[k]].path@
                    },
            decreases self.selected.len() - i,
        {
            let ghost s0 = selected_indices_spec(self.selected@.take(i as int));
            proof {
                lemma_selected_indices_bounds(self.selected@.take(i as int));
                assert(self.selected@.take(i + 1).drop_last() =~= self.selected@.take(i as int));
                assert(self.selected@.take(i + 1).last() == self.selected@[i as int]);
                if self.selected@[i as int] {
                    assert(selected_indices_spec(self.selected@.take(i + 1)) == s0 + seq![
                        i as int,
                    ]);
                } else {
                    assert(selected_indices_spec(self.selected@.take(i + 1)) =~= s0);
                }
            }
            if self.selected[i] {
                result.push((i, self.entries[i].path.clone()));
                proof {
                    let s1 = selected_indices_spec(self.selected@.take(i + 1));
                    assert forall|k: int| 0 <= k < result@.len() implies {
                        &&& (#[trigger] result@[k]).0 as int == s1[k]
                        &&& result@[k].1@ == self.entries@[s1[k]].path@
                    } by {
                        if k < s0.len() {
                            assert(s1[k] == s0[k]);
                        } else {
                            assert(s1[k] == i as int);
                        }
                    }
                }
            }
            i = i + 1;
        }
        proof {
            assert(self.selected@.take(self.selected@.len() as int) =~= self.selected@);
            lemma_selected_indices_bounds(self.selected@);
        }
        result
    }

    /// Removes the entries at the given positions (strictly ascending, all
    /// in range), clears the selection, recomputes the total, and clamps the
    /// cursor to the shortened list.
    pub fn remove_deleted(&mut self, deleted_indices: &Vec<usize>)
        requires
            old(self).wf(),
            valid_removal(to_ints(deleted_indices@), old(self).entries@.len() as int),
        ensures
            final(self).wf(),
            *final(self) == (App {
                entries: final(self).entries,
                selected: final(self).selected,
                selected_size: 0,
                total_size: final(self).total_size,
                cursor: final(self).cursor,
                ..*old(self)
            }),
            final(self).entries@ == remove_indices(old(self).entries@, to_ints(deleted_indices@)),
            final(self).selected@ == no_selection(final(self).entries@.len()),
            final(self).selected_size == 0,
            final(self).total_size == total_of(final(self).entries@),
            final(self).cursor == (if final(self).entries@.len() == 0 {
                None::<usize>
            } else {
                match old(self).cursor {
                    None => None::<usize>,
                    Some(c) => if c as int >= final(self).entries@.len() {
                        Some((final(self).entries@.len() - 1) as usize)
                    } else {
                        Some(c)
                    },
                }
            }),
    {
        let ghost old_entries = self.entries@;
        let ghost idxs = to_ints(deleted_indices@);
        let mut j: usize = deleted_indices.len();
        proof {
            assert(idxs.take(idxs.len() as int) =~= idxs);
        }
        while j > 0
            invariant
                j <= deleted_indices.len(),
                idxs == to_ints(deleted_indices@),
                *self == (App { entries: self.entries, ..*old(self) }),
                self.entries@.len() == old_entries.len() - (idxs.len() - j),
                valid_removal(idxs.take(j as int), self.entries@.len() as int),
                remove_indices(self.entries@, idxs.take(j as int)) == remove_indices(
                    old_entries,
                    idxs,
                ),
            decreases j,
        {
            j = j - 1;
            let i = deleted_indices[j];
            proof {
                assert(idxs.take(j as int + 1).last() == i as int);
                assert(idxs.take(j as int + 1).drop_last() =~= idxs.take(j as int));
            }
            self.entries.remove(i);
        }
        proof {
            assert(idxs.take(0) =~= Seq::<int>::empty());
            lemma_remove_indices_le(old_entries, idxs);
        }
        let n = self.entries.len();
        let total = match entries_total_checked(&self.entries) {
            Some(v) => v,
            None => {
                proof {
                    assert(false);
                }
                0
            },
        };
        self.total_size = total;
        self.selected = fill_flags(n, false);
        self.selected_size = 0;
        if n == 0 {
            self.cursor = None;
        } else {
            match self.cursor {
                Some(c) => {
                    if c >= n {
                        self.cursor = Some(n - 1);
                    }
                },
                None => {},
            }
        }
        proof {
            lemma_selected_none(self.entries@, self.selected@);
        }
    }

    /// Opens a deletion sequence over `total` snapshot items.
    pub fn begin_deletion(&mut self, total: usize)
        requires
            old(self).wf(),
        ensures
            final(self).wf(),
            *final(self) == (App {
                deleting: true,
                delete_progress: (0usize, total),
                ..*old(self)
            }),
    {
        self.deleting = true;
        self.delete_progress = (0, total);
    }

    /// Records, before an item's deletion is attempted, which item is in
    /// flight: the display shows the current item, not the one just done.
    pub fn mark_deleting(&mut self, current: usize, total: usize, path: String)
        requires
            old(self).wf(),
        ensures
            final(self).wf(),
            *final(self) == (App {
                delete_progress: (current, total),
                delete_current_path: final(self).delete_current_path,
                ..*old(self)
            }),
            final(self).delete_current_path == path,
    {
        self.delete_progress = (current, total);
        self.delete_current_path = path;
    }

    /// Closes a deletion sequence: drops the successfully deleted entries
    /// (their original indices, strictly ascending), resets selection and
    /// totals, and posts the summary message with both counts.
    pub fn finish_deletion(&mut self, deleted_indices: &Vec<usize>, errors: usize)
        requires
            old(self).wf(),
            valid_removal(to_ints(deleted_indices@), old(self).entries@.len() as int),
        ensures
            final(self).wf(),
            *final(self) == (App {
                entries: final(self).entries,
                selected: final(self).selected,
                selected_size: 0,
                total_size: final(self).total_size,
                cursor: final(self).cursor,
                deleting: false,
                message: Some(
                    Message::DeleteSummary {
                        deleted: deleted_indices@.len() as usize,
                        errors,
                    },
                ),
                ..*old(self)
            }),
            final(self).entries@ == remove_indices(old(self).entries@, to_ints(deleted_indices@)),
            final(self).selected@ == no_selection(final(self).entries@.len()),
            final(self).total_size == total_of(final(self).entries@),
    {
        self.remove_deleted(deleted_indices);
        self.deleting = false;
        self.message = Some(Message::DeleteSummary { deleted: deleted_indices.len(), errors });
    }
}

/// Clearing the selection is idempotent: a second `deselect_all` leaves the
/// state the first one left (the selection view and total, and every other
/// field, are unchanged).
pub proof fn lemma_deselect_all_idempotent(s0: App, s1: App, s2: App)
    requires
        deselect_all_post(s0, s1),
        deselect_all_post(s1, s2),
    ensures
        s2.selected@ == s1.selected@,
        s2.selected_size == s1.selected_size,
        s2 == (App { selected: s2.selected, ..s1 }),
{
    assert(s1.entries@.len() == s0.entries@.len());
    assert(s2.selected@ =~= s1.selected@);
}

/// What `handle_input` does on the list screen. A shown help overlay is
/// dismissed by the next key, which is otherwise discarded; a shown
/// confirmation prompt answers to y/Y (delete), n/N/Esc (cancel) and ignores
/// everything else; otherwise the key's bound operation runs. The result is
/// `true` exactly when a deletion sequence was confirmed.
pub open spec fn list_input_post(pre: App, post: App, key: Key, delete: bool) -> bool {
    if pre.show_help {
        post == (App { show_help: false, ..pre }) && !delete
    } else if pre.show_confirm {
        match key {
            Key::Char(c) => {
                if c == 'y' || c == 'Y' {
                    post == (App { show_confirm: false, ..pre }) && delete
                } else if c == 'n' || c == 'N' {
                    post == (App { show_confirm: false, ..pre }) && !delete
                } else {
                    post == pre && !delete
                }
            },
            Key::Esc => post == (App { show_confirm: false, ..pre }) && !delete,
            _ => post == pre && !delete,
        }
    } else {
        match key {
            Key::Char(c) => {
                if c == 'q' {
                    post == (App { should_quit: true, ..pre }) && !delete
                } else if c == 'j' {
                    next_post(pre, post) && !delete
                } else if c == 'k' {
                    previous_post(pre, post) && !delete
                } else if c == ' ' {
                    toggle_select_post(pre, post) && !delete
                } else if c == 'a' {
                    select_all_post(pre, post) && !delete
                } else if c == 'n' {
                    deselect_all_post(pre, post) && !delete
                } else if c == 'd' {
                    post == (App { show_confirm: pre.selected@.contains(true), ..pre }) && !delete
                } else if c == '?' {
                    post == (App { show_help: true, ..pre }) && !delete
                } else {
                    post == pre && !delete
                }
            },
            Key::Esc => post == (App { should_quit: true, ..pre }) && !delete,
            Key::Down => next_post(pre, post) && !delete,
            Key::Up => previous_post(pre, post) && !delete,
            _ => post == pre && !delete,
        }
    }
}

impl App {
    /// One key event on the list screen; returns whether a deletion sequence
    /// was confirmed.
    pub fn handle_input(&mut self, key: Key) -> (delete: bool)
        requires
            old(self).wf(),
        ensures
            final(self).wf(),
            list_input_post(*old(self), *final(self), key, delete),
    {
        if self.show_help {
            self.show_help = false;
            return false;
        }
        if self.show_confirm {
            match key {
                Key::Char(c) => {
                    if c == 'y' || c == 'Y' {
                        self.show_confirm = false;
                        return true;
                    } else if c == 'n' || c == 'N' {
                        self.show_confirm = false;
                    }
                },
                Key::Esc => {
                    self.show_confirm = false;
                },
                _ => {},
            }
            return false;
        }
        match key {
            Key::Char(c) => {
                if c == 'q' {
                    self.should_quit = true;
                } else if c == 'j' {
                    self.next();
                } else if c == 'k' {
                    self.previous();
                } else if c == ' ' {
                    self.toggle_select();
                } else if c == 'a' {
                    self.select_all();
                } else if c == 'n' {
                    self.deselect_all();
                } else if c == 'd' {
                    if self.any_selected() {
                        self.show_confirm = true;
                    }
                } else if c == '?' {
                    self.show_help = true;
                }
            },
            Key::Esc => {
                self.should_quit = true;
            },
            Key::Down => {
                self.next();
            },
            Key::Up => {
                self.previous();
            },
            _ => {},
        }
        false
    }
}

/// Relies on `String::push`: appends exactly the one character. The new
/// character count is bounded by the new byte length, so the old count plus
/// one fits in `usize`.
#[verifier::external_body]
fn push_char(s: &mut String, c: char)
    ensures
        final(s)@ == old(s)@.push(c),
        old(s)@.len() + 1 <= usize::MAX,
{
    s.push(c);
}

/// What `handle_welcome_input` does. While a scan runs, keys are ignored
/// here (the loop polls only for its quit signal). Otherwise any key clears
/// the message; then: q on an empty line or Esc quits; Enter submits a
/// non-empty line; printable characters are inserted at the input cursor;
/// Backspace/Delete edit around it; Left/Right/Home/End move it.
pub open spec fn welcome_input_post(pre: App, post: App, key: Key, submitted: Option<
    String,
>) -> bool {
    if pre.scanning {
        post == pre && submitted is None
    } else {
        let cleared = App { message: None::<Message>, ..pre };
        match key {
            Key::Char(c) => {
                if c == 'q' && pre.input_path@.len() == 0 {
                    post == (App { should_quit: true, ..cleared }) && submitted is None
                } else {
                    &&& post == (App {
                        input_path: post.input_path,
                        cursor_position: (pre.cursor_position + 1) as usize,
                        ..cleared
                    })
                    &&& post.input_path@ == pre.input_path@.take(pre.cursor_position as int)
                        + seq![c] + pre.input_path@.skip(pre.cursor_position as int)
                    &&& submitted is None
                }
            },
            Key::Esc => post == (App { should_quit: true, ..cleared }) && submitted is None,
            Key::Enter => {
                if pre.input_path@.len() > 0 {
                    &&& post == cleared
                    &&& submitted matches Some(p) && p@ == pre.input_path@
                } else {
                    post == cleared && submitted is None
                }
            },
            Key::Backspace => {
                if pre.cursor_position > 0 {
                    &&& post == (App {
                        input_path: post.input_path,
                        cursor_position: (pre.cursor_position - 1) as usize,
                        ..cleared
                    })
                    &&& post.input_path@ == pre.input_path@.take(pre.cursor_position - 1)
                        + pre.input_path@.skip(pre.cursor_position as int)
                    &&& submitted is None
                } else {
                    post == cleared && submitted is None
                }
            },
            Key::Delete => {
                if pre.cursor_position < pre.input_path@.len() {
                    &&& post == (App { input_path: post.input_path, ..cleared })
                    &&& post.input_path@ == pre.input_path@.take(pre.cursor_position as int)
                        + pre.input_path@.skip(pre.cursor_position + 1)
                    &&& submitted is None
                } else {
                    post == cleared && submitted is None
                }
            },
            Key::Left => {
                &&& post == (App {
                    cursor_position: (if pre.cursor_position > 0 {
                        pre.cursor_position - 1
                    } else {
                        0
                    }) as usize,
                    ..cleared
                })
                &&& submitted is None
            },
            Key::Right => {
                &&& post == (App {
                    cursor_position: (if pre.cursor_position < pre.input_path@.len() {
                        pre.cursor_position + 1
                    } else {
                        pre.cursor_position as int
                    }) as usize,
                    ..cleared
                })
                &&& submitted is None
            },
            Key::Home => post == (App { cursor_position: 0usize, ..cleared }) && submitted
                is None,
            Key::End => post == (App {
                cursor_position: pre.input_path@.len() as usize,
                ..cleared
            }) && submitted is None,
            _ => post == cleared && submitted is None,
        }
    }
}

impl App {
    /// One key event on the welcome screen; returns the submitted path, if
    /// the key submitted one.
    pub fn handle_welcome_input(&mut self, key: Key) -> (submitted: Option<String>)
        requires
            old(self).wf(),
        ensures
            final(self).wf(),
            welcome_input_post(*old(self), *final(self), key, submitted),
    {
        if self.scanning {
            return None;
        }
        self.message = None;
        match key {
            Key::Char(c) => {
                if c == 'q' && self.input_path.as_str().is_empty() {
                    self.should_quit = true;
                } else {
                    let cur = self.cursor_position;
                    let n = self.input_path.as_str().unicode_len();
                    let mut ns = {
                        let pre_part = self.input_path.as_str().substring_char(0, cur);
                        pre_part.to_owned()
                    };
                    push_char(&mut ns, c);
                    {
                        let post_part = self.input_path.as_str().substring_char(cur, n);
                        ns.append(post_part);
                    }
                    proof {
                        assert(ns@ =~= old(self).input_path@.take(cur as int) + seq![c] + old(
                            self,
                        ).input_path@.skip(cur as int));
                    }
                    self.input_path = ns;
                    self.cursor_position = cur + 1;
                }
            },
            Key::Esc => {
                self.should_quit = true;
            },
            Key::Enter => {
                if !self.input_path.as_str().is_empty() {
                    return Some(self.input_path.clone());
                }
            },
            Key::Backspace => {
                if self.cursor_position > 0 {
                    let cur = self.cursor_position;
                    let n = self.input_path.as_str().unicode_len();
                    let mut ns = {
                        let pre_part = self.input_path.as_str().substring_char(0, cur - 1);
                        pre_part.to_owned()
                    };
                    {
                        let post_part = self.input_path.as_str().substring_char(cur, n);
                        ns.append(post_part);
                    }
                    proof {
                        assert(ns@ =~= old(self).input_path@.take(cur - 1) + old(
                            self,
                        ).input_path@.skip(cur as int));
                    }
                    self.input_path = ns;
                    self.cursor_position = cur - 1;
                }
            },
            Key::Delete => {
                if self.cursor_position < self.input_path.as_str().unicode_len() {
                    let cur = self.cursor_position;
                    let n = self.input_path.as_str().unicode_len();
                    let mut ns = {
                        let pre_part = self.input_path.as_str().substring_char(0, cur);
                        pre_part.to_owned()
                    };
                    {
                        let post_part = self.input_path.as_str().substring_char(cur + 1, n);
                        ns.append(post_part);
                    }
                    proof {
                        assert(ns@ =~= old(self).input_path@.take(cur as int) + old(
                            self,
                        ).input_path@.skip(cur + 1));
                    }
                    self.input_path = ns;
                }
            },
            Key::Left => {
                if self.cursor_position > 0 {
                    self.cursor_position = self.cursor_position - 1;
                }
            },
            Key::Right => {
                if self.cursor_position < self.input_path.as_str().unicode_len() {
                    self.cursor_position = self.cursor_position + 1;
                }
            },
            Key::Home => {
                self.cursor_position = 0;
            },
            Key::End => {
                self.cursor_position = self.input_path.as_str().unicode_len();
            },
            _ => {},
        }
        None
    }

    /// Notes that a scan of `path` has started: the welcome screen shows the
    /// scan state until `on_scan_complete`.
    pub fn start_scan(&mut self, path: String)
        requires
            old(self).wf(),
        ensures
            final(self).wf(),
            *final(self) == (App {
                scanning: true,
                scan_path: final(self).scan_path,
                scanning_current_path: final(self).scanning_current_path,
                ..*old(self)
            }),
            final(self).scan_path == path,
            final(self).scanning_current_path@.len() == 0,
    {
        self.scanning = true;
        self.scan_path = path;
        self.scanning_current_path = String::new();
    }

    /// Notes that the submitted path names no directory.
    pub fn note_invalid_path(&mut self)
        requires
            old(self).wf(),
        ensures
            final(self).wf(),
            *final(self) == (App { message: Some(Message::InvalidPath), ..*old(self) }),
    {
        self.message = Some(Message::InvalidPath);
    }

    /// Takes a finished scan's outcome. A non-empty result fills the entry
    /// list and moves to the list screen; an empty result or an error leaves
    /// the welcome screen with a message; either way the scan state clears.
    pub fn on_scan_complete(&mut self, outcome: Result<Vec<NodeModulesEntry>, String>)
        requires
            old(self).wf(),
            outcome matches Ok(es) ==> total_of(es@) <= u64::MAX,
        ensures
            final(self).wf(),
            match outcome {
                Ok(es) => {
                    if es@.len() == 0 {
                        *final(self) == (App {
                            message: Some(Message::NoEntriesFound),
                            scanning: false,
                            scanning_current_path: final(self).scanning_current_path,
                            ..*old(self)
                        })
                    } else {
                        &&& *final(self) == (App {
                            entries: final(self).entries,
                            selected: final(self).selected,
                            cursor: final(self).cursor,
                            total_size: final(self).total_size,
                            selected_size: 0,
                            mode: AppMode::List,
                            scanning: false,
                            scanning_current_path: final(self).scanning_current_path,
                            ..*old(self)
                        })
                        &&& final(self).entries == es
                        &&& final(self).total_size == total_of(es@)
                        &&& final(self).selected@ == no_selection(es@.len())
                        &&& final(self).cursor == Some(0usize)
                    }
                },
                Err(e) => *final(self) == (App {
                    message: Some(Message::ScanError(e)),
                    scanning: false,
                    scanning_current_path: final(self).scanning_current_path,
                    ..*old(self)
                }),
            },
            !final(self).scanning,
            final(self).scanning_current_path@.len() == 0,
    {
        match outcome {
            Ok(es) => {
                if es.len() == 0 {
                    self.message = Some(Message::NoEntriesFound);
                } else {
                    self.set_entries(es);
                    self.mode = AppMode::List;
                }
            },
            Err(e) => {
                self.message = Some(Message::ScanError(e));
            },
        }
        self.scanning = false;
        self.scanning_current_path = String::new();
    }
}

/// Computes the sum of all entry sizes, when it fits in a byte counter;
/// `None` means the mathematical sum exceeds `u64::MAX`.
pub fn entries_total_checked(es: &Vec<NodeModulesEntry>) -> (r: Option<u64>)
    ensures
        match r {
            Some(v) => v == total_of(es@),
            None => total_of(es@) > u64::MAX,
        },
{
    let mut acc: u64 = 0;
    let mut i: usize = 0;
    while i < es.len()
        invariant
            i <= es.len(),
            acc == total_of(es@.take(i as int)),
        decreases es.len() - i,
    {
        proof {
            assert(es@.take(i + 1).drop_last() =~= es@.take(i as int));
        }
        match acc.checked_add(es[i].size) {
            None => {
                proof {
                    lemma_total_take_le(es@, i + 1);
                }
                return None;
            },
            Some(s) => {
                acc = s;
            },
        }
        i = i + 1;
    }
    proof {
        assert(es@.take(es@.len() as int) =~= es@);
    }
    Some(acc)
}

/// A screen rectangle, in terminal cells.
#[derive(Debug, Clone, Copy, PartialEq, Eq, Structural)]
pub struct Rect {
    pub x: u16,
    pub y: u16,
    pub width: u16,
    pub height: u16,
}

/// The rectangle covering the given percentages of `r`, centered in it:
/// where popups go.
pub fn centered_rect(percent_x: u16, percent_y: u16, r: Rect) -> (c: Rect)
    requires
        percent_x <= 100,
        percent_y <= 100,
        r.x + r.width <= u16::MAX,
        r.y + r.height <= u16::MAX,
    ensures
        c.width == r.width * percent_x / 100,
        c.height == r.height * percent_y / 100,
        c.x == r.x + (r.width - c.width) / 2,
        c.y == r.y + (r.height - c.height) / 2,
        r.x <= c.x && c.x + c.width <= r.x + r.width,
        r.y <= c.y && c.y + c.height <= r.y + r.height,
{
    proof {
        assert(r.width * percent_x <= 6553500 && r.width * percent_x / 100 <= r.width) by (nonlinear_arith)
            requires
                0 <= percent_x <= 100,
                0 <= r.width <= 65535,
        ;
        assert(r.height * percent_y <= 6553500 && r.height * percent_y / 100 <= r.height) by (nonlinear_arith)
            requires
                0 <= percent_y <= 100,
                0 <= r.height <= 65535,
        ;
    }
    let w = ((r.width as u32 * percent_x as u32) / 100) as u16;
    let h = ((r.height as u32 * percent_y as u32) / 100) as u16;
    Rect { x: r.x + (r.width - w) / 2, y: r.y + (r.height - h) / 2, width: w, height: h }
}

/// The whole-percent progress of `current` out of `total` items (zero when
/// nothing is to be done).
pub fn progress_percent(current: usize, total: usize) -> (p: u16)
    requires
        current <= total,
    ensures
        total > 0 ==> p == current * 100 / (total as int),
        total == 0 ==> p == 0,
{
    if total == 0 {
        0
    } else {
        proof {
            assert(current * 100 / (total as int) <= 100) by (nonlinear_arith)
                requires
                    0 < total,
                    0 <= current <= total,
            ;
        }
        ((current as u128 * 100) / (total as u128)) as u16
    }
}

/// How many of `width` bar cells are filled at `current` out of `total`.
pub fn progress_bar_filled(current: usize, total: usize, width: usize) -> (f: usize)
    requires
        current <= total,
    ensures
        total > 0 ==> f == width * current / (total as int),
        total == 0 ==> f == 0,
        f <= width,
{
    if total == 0 {
        0
    } else {
        proof {
            assert(width * current <= 0xffffffffffffffff * 0xffffffffffffffff) by (nonlinear_arith)
                requires
                    0 <= width <= 0xffffffffffffffff,
                    0 <= current <= 0xffffffffffffffff,
            ;
            assert(width * current / (total as int) <= width) by (nonlinear_arith)
                requires
                    0 < total,
                    0 <= current <= total,
                    0 <= width,
            ;
        }
        ((width as u128 * current as u128) / (total as u128)) as usize
    }
}

/// The display form of a long path: over 50 characters, an ellipsis and the
/// last 47.
pub open spec fn truncated_path(p: Seq<char>) -> Seq<char> {
    if p.len() > 50 {
        "..."@ + p.subrange(p.len() - 47, p.len() as int)
    } else {
        p
    }
}

/// Shortens a path for display in a fixed-width popup.
pub fn truncate_path_display(path: &str) -> (s: String)
    ensures
        s@ == truncated_path(path@),
{
    let n = path.unicode_len();
    if n > 50 {
        let tail = path.substring_char(n - 47, n);
        let mut s = "...".to_owned();
        s.append(tail);
        s
    } else {
        path.to_owned()
    }
}

} // verus!
