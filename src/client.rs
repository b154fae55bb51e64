use vstd::prelude::*;

use crate::model::{copy_bytes, ItemOp, ManifestItem};
use crate::paths::{join_path, joined_spec, renamed_path, renamed_spec};

verus! {

/// How a client applies a `Remove` entry whose file exists locally.
#[derive(Clone, Copy, Debug, PartialEq, Eq, Structural, PartialOrd, Ord, Hash)]
pub enum DeleteMode {
    /// Move the file aside under a marked name; nothing is lost.
    Rename,
    /// Unlink the file.
    Delete,
}

impl Default for DeleteMode {
    fn default() -> (r: DeleteMode)
        ensures
            r == DeleteMode::Rename,
    {
        DeleteMode::Rename
    }
}

/// The suffix appended to a file that a remove moves aside.
pub const RENAMED_SUFFIX: &'static str = "del";

/// A manifest entry as the client works on it.
#[derive(Debug)]
pub struct ClientManifestItem {
    /// Local path, display name and path key.
    pub path: (String, String, String),
    pub op: ItemOp,
    pub len: u64,
    pub hash: Vec<u8>,
}

/// The client's list of entries for one run.
pub type ClientManifest = Vec<ClientManifestItem>;

/// The client's entries for a decoded manifest under the working directory
/// `cwd`, in the order given.
pub fn client_manifest(cwd: &str, entries: Vec<(String, ManifestItem)>) -> (r: ClientManifest)
    ensures
        r@.len() == entries@.len(),
        forall|i: int| #![trigger r@[i]] 0 <= i < r@.len() ==> {
            &&& r@[i].path.0@ == joined_spec(cwd@, entries@[i].0@)
            &&& r@[i].path.1@ == entries@[i].0@
            &&& r@[i].path.2@ == entries@[i].0@
            &&& r@[i].op == entries@[i].1.op
            &&& r@[i].len == entries@[i].1.len
            &&& r@[i].hash@ == entries@[i].1.hash@
        },
{
    let mut out: ClientManifest = Vec::new();
    let mut i: usize = 0;
    while i < entries.len()
        invariant
            i <= entries@.len(),
            out@.len() == i,
            forall|j: int| #![trigger out@[j]] 0 <= j < i ==> {
                &&& out@[j].path.0@ == joined_spec(cwd@, entries@[j].0@)
                &&& out@[j].path.1@ == entries@[j].0@
                &&& out@[j].path.2@ == entries@[j].0@
                &&& out@[j].op == entries@[j].1.op
                &&& out@[j].len == entries@[j].1.len
                &&& out@[j].hash@ == entries@[j].1.hash@
            },
        decreases entries@.len() - i,
    {
        let key = &entries[i].0;
        let item = &entries[i].1;
        out.push(
            ClientManifestItem {
                path: (join_path(cwd, key.as_str()), key.clone(), key.clone()),
                op: item.op,
                len: item.len,
                hash: copy_bytes(&item.hash),
            },
        );
        i += 1;
    }
    out
}

/// The request path under which the server serves the content of a key.
pub fn content_path(key: &str) -> (r: String)
    ensures
        r@ == "content/"@ + key@,
{
    let mut r = String::from_str("content/");
    r.append(key);
    r
}

/// Where an item stands during a run.
#[derive(Clone, Copy, Debug, PartialEq, Eq, Structural)]
pub enum ItemState {
    Pending,
    /// The local file is being hashed to see whether it is current.
    Hash,
    /// The content is being downloaded.
    Sync,
    /// Nothing had to be done.
    NoOp,
    Finish,
    Error,
}

/// Whether a state ends an item's run.
pub open spec fn is_terminal(s: ItemState) -> bool {
    s == ItemState::NoOp || s == ItemState::Finish || s == ItemState::Error
}

impl ItemState {
    /// Whether this state ends an item's run.
    pub fn terminal(self) -> (r: bool)
        ensures
            r == is_terminal(self),
    {
        match self {
            ItemState::NoOp | ItemState::Finish | ItemState::Error => true,
            _ => false,
        }
    }
}

/// What the outside world reported for an item.
pub enum Event {
    /// No file at the item's local path.
    Absent,
    /// A file of this length at the item's local path.
    Present(u64),
    /// The digest of the local file.
    Hashed(Vec<u8>),
    /// The last action succeeded.
    Done,
    /// The last action failed.
    Failed,
}

/// What the outside world must do next for an item.
pub enum Action {
    /// Hash the local file and report `Hashed`.
    HashLocal,
    /// Fetch the content and write it to the local path, creating parent
    /// directories and overwriting any file there; report `Done`.
    Download,
    /// Rename the local file to this path; report `Done`.
    RenameTo(String),
    /// Remove the local file; report `Done`.
    DeleteLocal,
    /// Nothing more: the item has reached its terminal state.
    Stop,
}

/// An event as a value.
pub enum EventView {
    Absent,
    Present(u64),
    Hashed(Seq<u8>),
    Done,
    Failed,
}

/// An action as a value.
pub enum ActionView {
    HashLocal,
    Download,
    RenameTo(Seq<char>),
    DeleteLocal,
    Stop,
}

impl View for Event {
    type V = EventView;

    open spec fn view(&self) -> EventView {
        match self {
            Event::Absent => EventView::Absent,
            Event::Present(n) => EventView::Present(*n),
            Event::Hashed(h) => EventView::Hashed(h@),
            Event::Done => EventView::Done,
            Event::Failed => EventView::Failed,
        }
    }
}

impl View for Action {
    type V = ActionView;

    open spec fn view(&self) -> ActionView {
        match self {
            Action::HashLocal => ActionView::HashLocal,
            Action::Download => ActionView::Download,
            Action::RenameTo(p) => ActionView::RenameTo(p@),
            Action::DeleteLocal => ActionView::DeleteLocal,
            Action::Stop => ActionView::Stop,
        }
    }
}

/// An item as a value: local path, operation, length, digest.
pub type ClientItemView = (Seq<char>, ItemOp, u64, Seq<u8>);

impl View for ClientManifestItem {
    type V = ClientItemView;

    open spec fn view(&self) -> ClientItemView {
        (self.path.0@, self.op, self.len, self.hash@)
    }
}

/// One step of an item's run: from its state and what was reported, the
/// next state and what to do.
///
/// A `Sync` item whose local file is absent, or present with another
/// length, is downloaded; one with the same length is hashed first and is
/// left alone when the digest matches. A `Remove` item whose file is absent
/// needs nothing; an existing one is renamed aside or deleted. Any failure
/// ends the item in `Error`, a finished action in `Finish`; a report that
/// does not fit the state is a failure. A terminal state never changes.
pub open spec fn step_spec(item: ClientItemView, mode: DeleteMode, state: ItemState, ev: EventView) -> (ItemState, ActionView) {
    let (local, op, len, hash) = item;
    if is_terminal(state) {
        (state, ActionView::Stop)
    } else {
        match ev {
            EventView::Failed => (ItemState::Error, ActionView::Stop),
            EventView::Absent => if state == ItemState::Pending {
                if op == ItemOp::Sync {
                    (ItemState::Sync, ActionView::Download)
                } else {
                    (ItemState::NoOp, ActionView::Stop)
                }
            } else {
                (ItemState::Error, ActionView::Stop)
            },
            EventView::Present(n) => if state == ItemState::Pending {
                if op == ItemOp::Sync {
                    if n == len {
                        (ItemState::Hash, ActionView::HashLocal)
                    } else {
                        (ItemState::Sync, ActionView::Download)
                    }
                } else if mode == DeleteMode::Rename {
                    (ItemState::Pending, ActionView::RenameTo(renamed_spec(local, RENAMED_SUFFIX@)))
                } else {
                    (ItemState::Pending, ActionView::DeleteLocal)
                }
            } else {
                (ItemState::Error, ActionView::Stop)
            },
            EventView::Hashed(h) => if state == ItemState::Hash {
                if h == hash {
                    (ItemState::NoOp, ActionView::Stop)
                } else {
                    (ItemState::Sync, ActionView::Download)
                }
            } else {
                (ItemState::Error, ActionView::Stop)
            },
            EventView::Done => if state == ItemState::Sync || (state == ItemState::Pending && op
                == ItemOp::Remove) {
                (ItemState::Finish, ActionView::Stop)
            } else {
                (ItemState::Error, ActionView::Stop)
            },
        }
    }
}

/// Whether two byte vectors hold the same bytes.
pub fn same_bytes(a: &Vec<u8>, b: &Vec<u8>) -> (r: bool)
    ensures
        r == (a@ == b@),
{
    if a.len() != b.len() {
        return false;
    }
    let mut i: usize = 0;
    while i < a.len()
        invariant
            a@.len() == b@.len(),
            i <= a@.len(),
            forall|j: int| 0 <= j < i ==> a@[j] == b@[j],
        decreases a@.len() - i,
    {
        if a[i] != b[i] {
            return false;
        }
        i += 1;
    }
    assert(a@ =~= b@);
    true
}

/// Decides the next state and action of an item.
pub fn step(item: &ClientManifestItem, mode: DeleteMode, state: ItemState, ev: &Event) -> (r: (ItemState, Action))
    ensures
        (r.0, r.1@) == step_spec(item@, mode, state, ev@),
{
    if state.terminal() {
        return (state, Action::Stop);
    }
    match ev {
        Event::Failed => (ItemState::Error, Action::Stop),
        Event::Absent => {
            if state == ItemState::Pending {
                if item.op == ItemOp::Sync {
                    (ItemState::Sync, Action::Download)
                } else {
                    (ItemState::NoOp, Action::Stop)
                }
            } else {
                (ItemState::Error, Action::Stop)
            }
        },
        Event::Present(n) => {
            if state == ItemState::Pending {
                if item.op == ItemOp::Sync {
                    if *n == item.len {
                        (ItemState::Hash, Action::HashLocal)
                    } else {
                        (ItemState::Sync, Action::Download)
                    }
                } else if mode == DeleteMode::Rename {
                    (ItemState::Pending, Action::RenameTo(renamed_path(item.path.0.as_str(), RENAMED_SUFFIX)))
                } else {
                    (ItemState::Pending, Action::DeleteLocal)
                }
            } else {
                (ItemState::Error, Action::Stop)
            }
        },
        Event::Hashed(h) => {
            if state == ItemState::Hash {
                if same_bytes(h, &item.hash) {
                    (ItemState::NoOp, Action::Stop)
                } else {
                    (ItemState::Sync, Action::Download)
                }
            } else {
                (ItemState::Error, Action::Stop)
            }
        },
        Event::Done => {
            if state == ItemState::Sync || (state == ItemState::Pending && item.op == ItemOp::Remove) {
                (ItemState::Finish, Action::Stop)
            } else {
                (ItemState::Error, Action::Stop)
            }
        },
    }
}

/// A second run over an unchanged tree downloads nothing: a `Sync` item
/// whose local file has the manifest's length and digest, as a finished
/// download leaves it, is hashed and then left alone.
pub proof fn lemma_second_run_no_download(item: ClientItemView, mode: DeleteMode)
    requires
        item.1 == ItemOp::Sync,
    ensures
        step_spec(item, mode, ItemState::Pending, EventView::Present(item.2)) == (ItemState::Hash, ActionView::HashLocal),
        step_spec(item, mode, ItemState::Hash, EventView::Hashed(item.3)) == (ItemState::NoOp, ActionView::Stop),
{
}

/// A local file with the manifest's length but another digest is
/// downloaded again, and the item finishes when the download does.
pub proof fn lemma_changed_content_downloaded(item: ClientItemView, mode: DeleteMode, local_hash: Seq<u8>)
    requires
        item.1 == ItemOp::Sync,
        local_hash != item.3,
    ensures
        step_spec(item, mode, ItemState::Pending, EventView::Present(item.2)) == (ItemState::Hash, ActionView::HashLocal),
        step_spec(item, mode, ItemState::Hash, EventView::Hashed(local_hash)) == (ItemState::Sync, ActionView::Download),
        step_spec(item, mode, ItemState::Sync, EventView::Done) == (ItemState::Finish, ActionView::Stop),
{
}

/// A `Remove` item whose file exists is renamed aside in `Rename` mode, to
/// a path that differs from its own and extends it, and unlinked in
/// `Delete` mode; either way it finishes when that is done.
pub proof fn lemma_remove_applies_mode(item: ClientItemView, mode: DeleteMode, n: u64)
    requires
        item.1 == ItemOp::Remove,
    ensures
        mode == DeleteMode::Rename ==> ({
            let target = renamed_spec(item.0, RENAMED_SUFFIX@);
            &&& step_spec(item, mode, ItemState::Pending, EventView::Present(n)) == (ItemState::Pending, ActionView::RenameTo(target))
            &&& target != item.0
            &&& target.subrange(0, item.0.len() as int) == item.0
        }),
        mode == DeleteMode::Delete ==> step_spec(item, mode, ItemState::Pending, EventView::Present(n)) == (ItemState::Pending, ActionView::DeleteLocal),
        step_spec(item, mode, ItemState::Pending, EventView::Done) == (ItemState::Finish, ActionView::Stop),
{
    let target = renamed_spec(item.0, RENAMED_SUFFIX@);
    assert(target.len() > item.0.len());
    assert(target.subrange(0, item.0.len() as int) =~= item.0);
}

/// How many of the states are terminal.
pub open spec fn count_terminal(s: Seq<ItemState>) -> nat
    decreases s.len(),
{
    if s.len() == 0 {
        0
    } else {
        count_terminal(s.drop_last()) + if is_terminal(s.last()) {
            1nat
        } else {
            0nat
        }
    }
}

proof fn lemma_count_bound(s: Seq<ItemState>)
    ensures
        count_terminal(s) <= s.len(),
    decreases s.len(),
{
    if s.len() > 0 {
        lemma_count_bound(s.drop_last());
    }
}

proof fn lemma_count_update(s: Seq<ItemState>, i: int, x: ItemState)
    requires
        0 <= i < s.len(),
    ensures
        count_terminal(s.update(i, x)) + (if is_terminal(s[i]) { 1int } else { 0int }) == count_terminal(s) + (
        if is_terminal(x) {
            1int
        } else {
            0int
        }),
    decreases s.len(),
{
    let t = s.update(i, x);
    if i == s.len() - 1 {
        assert(t.drop_last() =~= s.drop_last());
    } else {
        assert(t.drop_last() =~= s.drop_last().update(i, x));
        lemma_count_update(s.drop_last(), i, x);
    }
}

/// Once every item has reached a terminal state, all of them count as done,
/// whether they ended in `Finish`, `NoOp` or `Error`, and the run stands at
/// a full hundred percent: failed items do not hold it back.
pub proof fn lemma_all_terminal_all_done(s: Seq<ItemState>)
    requires
        forall|i: int| 0 <= i < s.len() ==> is_terminal(#[trigger] s[i]),
    ensures
        count_terminal(s) == s.len(),
        s.len() > 0 ==> count_terminal(s) * 10000 / s.len() == 10000,
    decreases s.len(),
{
    if s.len() > 0 {
        let n = s.len() as int;
        assert(n * 10000 / n == 10000) by (nonlinear_arith)
            requires
                n > 0,
        ;
        assert forall|i: int| 0 <= i < s.drop_last().len() implies is_terminal(#[trigger] s.drop_last()[i]) by {
            assert(s.drop_last()[i] == s[i]);
        }
        lemma_all_terminal_all_done(s.drop_last());
        assert(is_terminal(s[s.len() - 1]));
    }
}

/// Progress of a whole run: the state of each item and how many have
/// reached a terminal state.
pub struct SyncProgress {
    states: Vec<ItemState>,
    done: usize,
}

impl View for SyncProgress {
    type V = Seq<ItemState>;

    closed spec fn view(&self) -> Seq<ItemState> {
        self.states@
    }
}

impl SyncProgress {
    /// The count of done items is right.
    pub closed spec fn wf(&self) -> bool {
        self.done as nat == count_terminal(self.states@)
    }

    /// Progress of a run over `total` items, all pending.
    pub fn new(total: usize) -> (r: SyncProgress)
        ensures
            r.wf(),
            r@ == Seq::new(total as nat, |i: int| ItemState::Pending),
    {
        let mut states: Vec<ItemState> = Vec::new();
        let mut i: usize = 0;
        while i < total
            invariant
                i <= total,
                states@ == Seq::new(i as nat, |j: int| ItemState::Pending),
                count_terminal(states@) == 0,
            decreases total - i,
        {
            let ghost before = states@;
            states.push(ItemState::Pending);
            assert(states@.drop_last() == before);
            i += 1;
            assert(states@ =~= Seq::new(i as nat, |j: int| ItemState::Pending));
        }
        SyncProgress { states, done: 0 }
    }

    /// Records the new state of item `index`.
    pub fn set_state(&mut self, index: usize, state: ItemState)
        requires
            old(self).wf(),
            index < old(self)@.len(),
        ensures
            final(self).wf(),
            final(self)@ == old(self)@.update(index as int, state),
    {
        proof {
            lemma_count_update(self.states@, index as int, state);
            lemma_count_bound(self.states@);
            lemma_count_bound(self.states@.update(index as int, state));
        }
        let was = self.states[index].terminal();
        let now = state.terminal();
        self.states.set(index, state);
        if was && !now {
            self.done = self.done - 1;
        } else if !was && now {
            assert(self.states@.len() == self.states.len());
            self.done = self.done + 1;
        }
    }

    /// The state of item `index`.
    pub fn state(&self, index: usize) -> (r: ItemState)
        requires
            index < self@.len(),
        ensures
            r == self@[index as int],
    {
        self.states[index]
    }

    /// How many items there are.
    pub fn total(&self) -> (r: usize)
        ensures
            r == self@.len(),
    {
        self.states.len()
    }

    /// How many items have reached a terminal state.
    pub fn done(&self) -> (r: usize)
        requires
            self.wf(),
        ensures
            r == count_terminal(self@),
    {
        self.done
    }

    /// The share of items done, in hundredths of a percent; a run without
    /// items is complete.
    pub fn percent(&self) -> (r: u64)
        requires
            self.wf(),
        ensures
            self@.len() == 0 ==> r == 10000,
            self@.len() > 0 ==> r == count_terminal(self@) * 10000 / self@.len(),
    {
        proof {
            lemma_count_bound(self.states@);
        }
        hundredths(self.done as u64, self.states.len() as u64)
    }
}

/// `done` out of `total`, in hundredths of a percent, with `done` taken as
/// at most `total`; nothing out of nothing is complete.
pub fn hundredths(done: u64, total: u64) -> (r: u64)
    ensures
        total == 0 ==> r == 10000,
        total > 0 ==> r == (if done <= total { done } else { total }) * 10000 / total as int,
        r <= 10000,
{
    if total == 0 {
        return 10000;
    }
    let d = if done <= total { done } else { total };
    let r = (d as u128 * 10000) / total as u128;
    assert((d as int * 10000) / (total as int) <= 10000) by (nonlinear_arith)
        requires
            d <= total,
            total > 0,
    ;
    r as u64
}

/// Spaces progress reports out in time: a report is due once more than the
/// interval has passed since the last one.
pub struct ReportThrottle {
    pub last: u64,
    pub interval: u64,
}

/// The interval between two progress reports, in microseconds.
pub const REPORT_INTERVAL_MICROS: u64 = 200000;

impl ReportThrottle {
    /// A throttle whose clock started at `now`.
    pub fn new(now: u64) -> (r: ReportThrottle)
        ensures
            r.last == now,
            r.interval == REPORT_INTERVAL_MICROS,
    {
        ReportThrottle { last: now, interval: REPORT_INTERVAL_MICROS }
    }

    /// Whether a report is due at `now`; if so, the clock restarts there.
    pub fn due(&mut self, now: u64) -> (r: bool)
        ensures
            r == (now >= old(self).last && now - old(self).last > old(self).interval),
            final(self).interval == old(self).interval,
            final(self).last == if r {
                now
            } else {
                old(self).last
            },
    {
        if now >= self.last && now - self.last > self.interval {
            self.last = now;
            true
        } else {
            false
        }
    }
}

} // verus!
