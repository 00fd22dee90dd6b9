//! The spoiler registry: the service's central store.
//!
//! The registry owns four maps (creation sessions, staged content, the
//! finished-spoiler table, and the double-tap confirmation gate) together
//! with the expiry index.  Every operation is a short, non-blocking,
//! in-memory step; a process that serves concurrent callers guards the
//! whole registry with one lock and passes the current clock reading in.
use vstd::prelude::*;
use vstd::hash_map::HashMapWithView;
use vstd::hash_map::StringHashMap;

use crate::expiry::ExpiryIndex;
use crate::spoiler::Content;
use crate::spoiler::Spoiler;
use crate::spoiler::SpoilerCreationStatus;
use crate::spoiler::effective_duration;
use crate::util;

verus! {

broadcast use vstd::std_specs::hash::group_hash_axioms;

/// A finished spoiler joined with its expiry bookkeeping: the absolute
/// deadline, in seconds, at which it leaves the registry, and the expiry
/// index handle that was created together with it.
pub struct StoredSpoiler {
    /// The spoiler itself.
    pub spoiler: Spoiler,
    /// When the entry expires, in seconds on the caller's clock.
    pub deadline: u64,
    /// The expiry index handle under which the entry can be cancelled.
    pub key: u64,
}

/// The set a gate list stands for: one element per user and spoiler id the
/// user has already tapped once.
pub open spec fn gate_set(s: Seq<(i64, String)>) -> Set<(i64, Seq<char>)>
    decreases s.len(),
{
    if s.len() == 0 {
        Set::empty()
    } else {
        gate_set(s.drop_last()).insert((s.last().0, s.last().1@))
    }
}

/// No user-and-id pair occurs twice in the confirmation-gate list.
pub open spec fn gate_distinct(s: Seq<(i64, String)>) -> bool {
    forall|i: int, j: int|
        0 <= i < j < s.len() ==> !((#[trigger] s[i]).0 == (#[trigger] s[j]).0 && s[i].1@
            == s[j].1@)
}

/// An element lies in a gate set exactly when some list slot carries it.
proof fn lemma_gate_set_membership(s: Seq<(i64, String)>, user: i64, idv: Seq<char>)
    ensures
        gate_set(s).contains((user, idv)) <==> exists|i: int|
            0 <= i < s.len() && (#[trigger] s[i]).0 == user && s[i].1@ == idv,
    decreases s.len(),
{
    if s.len() > 0 {
        lemma_gate_set_membership(s.drop_last(), user, idv);
        if gate_set(s).contains((user, idv)) {
            if (s.last().0, s.last().1@) == (user, idv) {
                assert(s[s.len() - 1].0 == user && s[s.len() - 1].1@ == idv);
            } else {
                let i = choose|i: int|
                    0 <= i < s.drop_last().len() && (#[trigger] s.drop_last()[i]).0 == user
                        && s.drop_last()[i].1@ == idv;
                assert(s[i].0 == user && s[i].1@ == idv);
            }
        }
        if exists|i: int| 0 <= i < s.len() && (#[trigger] s[i]).0 == user && s[i].1@ == idv {
            let i = choose|i: int|
                0 <= i < s.len() && (#[trigger] s[i]).0 == user && s[i].1@ == idv;
            if i == s.len() - 1 {
                assert(gate_set(s).contains((user, idv)));
            } else {
                assert(s.drop_last()[i].0 == user && s.drop_last()[i].1@ == idv);
            }
        }
    }
}

/// Appending a fresh pair inserts it into a gate set.
proof fn lemma_gate_set_push(s: Seq<(i64, String)>, p: (i64, String))
    ensures
        gate_set(s.push(p)) == gate_set(s).insert((p.0, p.1@)),
{
    assert(s.push(p).drop_last() =~= s);
    assert(s.push(p).last() == p);
}

/// Removing slot `i` of a duplicate-free list removes its pair from the
/// gate set.
proof fn lemma_gate_set_remove(s: Seq<(i64, String)>, i: int)
    requires
        gate_distinct(s),
        0 <= i < s.len(),
    ensures
        gate_set(s.remove(i)) == gate_set(s).remove((s[i].0, s[i].1@)),
    decreases s.len(),
{
    let e = (s[i].0, s[i].1@);
    if i == s.len() - 1 {
        assert(s.remove(i) =~= s.drop_last());
        lemma_gate_set_membership(s.drop_last(), e.0, e.1);
        assert(!gate_set(s.drop_last()).contains(e));
        assert(gate_set(s.drop_last()).insert(e).remove(e) =~= gate_set(s.drop_last()));
    } else {
        lemma_gate_set_remove(s.drop_last(), i);
        assert(s.remove(i).drop_last() =~= s.drop_last().remove(i));
        assert(s.remove(i).last() == s.last());
        let tail = (s.last().0, s.last().1@);
        assert(e != tail);
        assert(gate_set(s.remove(i)) == gate_set(s.drop_last().remove(i)).insert(tail));
        assert(gate_set(s.drop_last()).remove(e).insert(tail) =~= gate_set(
            s.drop_last(),
        ).insert(tail).remove(e));
    }
}

/// The registry.
pub struct State {
    /// Tracks the progress of users creating a spoiler through the
    /// two-step dialog.
    creation_status: HashMapWithView<i64, SpoilerCreationStatus>,
    /// Content staged per user, awaiting a title.
    new_spoilers: HashMapWithView<i64, Content>,
    /// One entry per user currently halfway through opening a major
    /// spoiler (which takes a second tap).
    open_major_spoiler: Vec<(i64, String)>,
    /// The queue that yields the spoiler expiring next.
    expirations: ExpiryIndex,
    /// All registered spoilers, joined with their expiry bookkeeping.
    spoilers: StringHashMap<StoredSpoiler>,
}

impl State {
    /// The creation session of each user that has one.
    pub closed spec fn statuses(&self) -> Map<i64, SpoilerCreationStatus> {
        self.creation_status@
    }

    /// The content each user has staged and not yet finalized.
    pub closed spec fn staged(&self) -> Map<i64, Content> {
        self.new_spoilers@
    }

    /// The confirmation gate: the pairs that have tapped once already.
    pub closed spec fn gate(&self) -> Set<(i64, Seq<char>)> {
        gate_set(self.open_major_spoiler@)
    }

    /// The finished-spoiler table, keyed by spoiler id.
    pub closed spec fn table(&self) -> Map<Seq<char>, StoredSpoiler> {
        self.spoilers@
    }

    /// The expiry queue: handle to `(deadline, id)` entries.
    pub closed spec fn queue(&self) -> Map<u64, (u64, String)> {
        self.expirations.pending()
    }

    /// Whether the expiry index can still hand out a fresh handle.
    pub closed spec fn can_schedule(&self) -> bool {
        self.expirations.can_schedule()
    }

    /// Well-formedness: the confirmation-gate list is duplicate-free, the index is
    /// sound, and the table and the queue tie each live spoiler to exactly
    /// one live expiry entry, created together and removed together.
    pub closed spec fn wf(&self) -> bool {
        &&& self.expirations.wf()
        &&& gate_distinct(self.open_major_spoiler@)
        &&& forall|id: Seq<char>| #[trigger] self.spoilers@.contains_key(id) ==> {
            &&& self.expirations.pending().contains_key(self.spoilers@[id].key)
            &&& self.expirations.pending()[self.spoilers@[id].key].0 == self.spoilers@[id].deadline
            &&& self.expirations.pending()[self.spoilers@[id].key].1@ == id
            &&& self.spoilers@[id].spoiler.id@ == id
        }
        &&& forall|k: u64| #[trigger] self.expirations.pending().contains_key(k) ==> {
            &&& self.spoilers@.contains_key(self.expirations.pending()[k].1@)
            &&& self.spoilers@[self.expirations.pending()[k].1@].key == k
            &&& self.spoilers@[self.expirations.pending()[k].1@].deadline
                == self.expirations.pending()[k].0
        }
    }

    /// Creates an empty registry.
    pub fn new() -> (s: State)
        ensures
            s.wf(),
            s.statuses() == Map::<i64, SpoilerCreationStatus>::empty(),
            s.staged() == Map::<i64, Content>::empty(),
            s.gate() == Set::<(i64, Seq<char>)>::empty(),
            s.table() == Map::<Seq<char>, StoredSpoiler>::empty(),
            s.queue() == Map::<u64, (u64, String)>::empty(),
            s.can_schedule(),
    {
        State {
            creation_status: HashMapWithView::new(),
            new_spoilers: HashMapWithView::new(),
            open_major_spoiler: Vec::new(),
            expirations: ExpiryIndex::new(),
            spoilers: StringHashMap::new(),
        }
    }

    /// Whether a finalize could schedule an expiry entry right now; callers
    /// check it before `set_spoiler_title_and_expiration`.
    pub fn has_capacity(&self) -> (r: bool)
        ensures
            r == self.can_schedule(),
    {
        self.expirations.has_capacity()
    }
}

impl Default for State {
    /// An empty registry.
    fn default() -> (s: State)
        ensures
            s.wf(),
            s.statuses() == Map::<i64, SpoilerCreationStatus>::empty(),
            s.staged() == Map::<i64, Content>::empty(),
            s.gate() == Set::<(i64, Seq<char>)>::empty(),
            s.table() == Map::<Seq<char>, StoredSpoiler>::empty(),
            s.queue() == Map::<u64, (u64, String)>::empty(),
            s.can_schedule(),
    {
        State::new()
    }
}

/// What a session transition leaves behind: the user's status is replaced,
/// the previous one is reported, and nothing else moves.
pub open spec fn session_set_ok(
    pre: State,
    post: State,
    user: i64,
    status: SpoilerCreationStatus,
    r: Option<SpoilerCreationStatus>,
) -> bool {
    &&& post.statuses() == pre.statuses().insert(user, status)
    &&& r == (if pre.statuses().contains_key(user) {
        Some(pre.statuses()[user])
    } else {
        None::<SpoilerCreationStatus>
    })
    &&& post.staged() == pre.staged()
    &&& post.gate() == pre.gate()
    &&& post.table() == pre.table()
    &&& post.queue() == pre.queue()
    &&& post.can_schedule() == pre.can_schedule()
}

/// What cancelling a session leaves behind.
pub open spec fn cancel_ok(
    pre: State,
    post: State,
    user: i64,
    r: Option<SpoilerCreationStatus>,
) -> bool {
    &&& post.statuses() == pre.statuses().remove(user)
    &&& r == (if pre.statuses().contains_key(user) {
        Some(pre.statuses()[user])
    } else {
        None::<SpoilerCreationStatus>
    })
    &&& post.staged() == pre.staged()
    &&& post.gate() == pre.gate()
    &&& post.table() == pre.table()
    &&& post.queue() == pre.queue()
    &&& post.can_schedule() == pre.can_schedule()
}

/// What staging content leaves behind.
pub open spec fn stage_ok(pre: State, post: State, user: i64, content: Content) -> bool {
    &&& post.staged() == pre.staged().insert(user, content)
    &&& post.statuses() == pre.statuses()
    &&& post.gate() == pre.gate()
    &&& post.table() == pre.table()
    &&& post.queue() == pre.queue()
    &&& post.can_schedule() == pre.can_schedule()
}

/// Is the registry waiting for this user to send the content to spoil?
pub open spec fn spec_waiting_for_spoiler(s: State, user: i64) -> bool {
    s.statuses().contains_key(user) && s.statuses()[user] is WaitingForSpoiler
}

/// Is the registry waiting for this user to send a title?
pub open spec fn spec_waiting_for_title(s: State, user: i64) -> bool {
    s.statuses().contains_key(user) && s.statuses()[user] is WaitingForTitle
}

impl State {
    /// Marks the user as about to send a spoiler, overwriting any session,
    /// and reports the overwritten state.
    pub fn set_waiting_for_spoiler(&mut self, user: i64) -> (r: Option<SpoilerCreationStatus>)
        requires
            old(self).wf(),
        ensures
            final(self).wf(),
            session_set_ok(
                *old(self),
                *final(self),
                user,
                SpoilerCreationStatus::WaitingForSpoiler,
                r,
            ),
    {
        let previous = match self.creation_status.get(&user) {
            Some(status) => Some(*status),
            None => None,
        };
        self.creation_status.insert(user, SpoilerCreationStatus::WaitingForSpoiler);
        previous
    }

    /// Marks the user as about to send a title for the staged spoiler.
    pub fn set_waiting_for_title(&mut self, user: i64) -> (r: Option<SpoilerCreationStatus>)
        requires
            old(self).wf(),
        ensures
            final(self).wf(),
            session_set_ok(
                *old(self),
                *final(self),
                user,
                SpoilerCreationStatus::WaitingForTitle,
                r,
            ),
    {
        let previous = match self.creation_status.get(&user) {
            Some(status) => Some(*status),
            None => None,
        };
        self.creation_status.insert(user, SpoilerCreationStatus::WaitingForTitle);
        previous
    }

    /// Cancels the spoiler creation; `None` reports that there was nothing
    /// to cancel.
    pub fn cancel_spoiler_creation(&mut self, user: i64) -> (r: Option<SpoilerCreationStatus>)
        requires
            old(self).wf(),
        ensures
            final(self).wf(),
            cancel_ok(*old(self), *final(self), user, r),
    {
        let removed = self.creation_status.remove(&user);
        proof {
            if removed is None {
                assert(old(self).creation_status@.remove(user) =~= old(self).creation_status@);
            }
        }
        removed
    }

    /// Returns true if the registry is waiting for this user's title.
    pub fn waiting_for_title(&self, user: i64) -> (r: bool)
        ensures
            r == spec_waiting_for_title(*self, user),
    {
        match self.creation_status.get(&user) {
            Some(status) => match status {
                SpoilerCreationStatus::WaitingForTitle => true,
                SpoilerCreationStatus::WaitingForSpoiler => false,
            },
            None => false,
        }
    }

    /// Returns true if the registry is waiting for this user's content.
    pub fn waiting_for_spoiler(&self, user: i64) -> (r: bool)
        ensures
            r == spec_waiting_for_spoiler(*self, user),
    {
        match self.creation_status.get(&user) {
            Some(status) => match status {
                SpoilerCreationStatus::WaitingForSpoiler => true,
                SpoilerCreationStatus::WaitingForTitle => false,
            },
            None => false,
        }
    }

    /// Stages content for the user, overwriting anything staged before.
    /// Session state is untouched; callers pair this with a transition.
    pub fn new_spoiler(&mut self, user: i64, content: Content)
        requires
            old(self).wf(),
        ensures
            final(self).wf(),
            stage_ok(*old(self), *final(self), user, content),
    {
        self.new_spoilers.insert(user, content);
    }

    /// Fetches a spoiler without touching it; repeated lookups return the
    /// same entry until it expires.
    pub fn get_spoiler<'a>(&'a self, id: &String) -> (r: Option<&'a Spoiler>)
        ensures
            match r {
                Some(s) => self.table().contains_key(id@) && *s == self.table()[id@].spoiler,
                None => !self.table().contains_key(id@),
            },
    {
        match self.spoilers.get(id.as_str()) {
            Some(stored) => Some(&stored.spoiler),
            None => None,
        }
    }

    /// The title of the requested spoiler: the empty string stands for a
    /// spoiler whose title was skipped, `None` for an unknown id.
    pub fn get_spoiler_title(&self, id: &String) -> (r: Option<String>)
        ensures
            match r {
                Some(t) => self.table().contains_key(id@) && t@ == spec_title_text(
                    self.table()[id@].spoiler.title,
                ),
                None => !self.table().contains_key(id@),
            },
    {
        match self.spoilers.get(id.as_str()) {
            Some(stored) => match &stored.spoiler.title {
                Some(title) => Some(title.clone()),
                None => Some(String::new()),
            },
            None => None,
        }
    }
}

/// The text a stored title shows: its characters, or nothing when the
/// title was skipped.
pub open spec fn spec_title_text(title: Option<String>) -> Seq<char> {
    match title {
        Some(t) => t@,
        None => Seq::empty(),
    }
}

/// What one confirmation-gate step leaves behind: the one-shot flag for
/// `(user, id)` is flipped, and `true` (tap again) comes back exactly when
/// the flag was absent.
pub open spec fn tap_ok(pre: State, post: State, user: i64, idv: Seq<char>, r: bool) -> bool {
    &&& r == !pre.gate().contains((user, idv))
    &&& post.gate() == (if r {
        pre.gate().insert((user, idv))
    } else {
        pre.gate().remove((user, idv))
    })
    &&& post.statuses() == pre.statuses()
    &&& post.staged() == pre.staged()
    &&& post.table() == pre.table()
    &&& post.queue() == pre.queue()
    &&& post.can_schedule() == pre.can_schedule()
}

/// Finds the confirmation-gate slot holding `(user, spoiler_id)`, if any.
fn find_gate_slot(gate: &Vec<(i64, String)>, user: i64, spoiler_id: &String) -> (r: Option<usize>)
    ensures
        match r {
            Some(i) => i < gate@.len() && gate@[i as int].0 == user && gate@[i as int].1@
                == spoiler_id@,
            None => forall|i: int|
                0 <= i < gate@.len() ==> !((#[trigger] gate@[i]).0 == user && gate@[i].1@
                    == spoiler_id@),
        },
{
    let n = gate.len();
    let mut i: usize = 0;
    while i < n
        invariant
            i <= n,
            n == gate@.len(),
            forall|j: int|
                0 <= j < i ==> !((#[trigger] gate@[j]).0 == user && gate@[j].1@ == spoiler_id@),
        decreases n - i,
    {
        let entry = &gate[i];
        if entry.0 == user && entry.1 == *spoiler_id {
            return Some(i);
        }
        i = i + 1;
    }
    None
}

impl State {
    /// The confirmation gate: consumes the one-shot flag for
    /// `(user, spoiler_id)` and reveals (`false`), or plants the flag and
    /// asks for a second tap (`true`).  One call does both the check and
    /// the flip, so callers hold no separate check-then-set window.
    pub fn needs_to_tap_once_more(&mut self, user: i64, spoiler_id: &String) -> (r: bool)
        requires
            old(self).wf(),
        ensures
            final(self).wf(),
            tap_ok(*old(self), *final(self), user, spoiler_id@, r),
    {
        proof {
            lemma_gate_set_membership(self.open_major_spoiler@, user, spoiler_id@);
        }
        match find_gate_slot(&self.open_major_spoiler, user, spoiler_id) {
            Some(i) => {
                proof {
                    lemma_gate_set_remove(self.open_major_spoiler@, i as int);
                }
                let ghost pre_gate = self.open_major_spoiler@;
                let _consumed = self.open_major_spoiler.remove(i);
                proof {
                    let w = self.open_major_spoiler@;
                    assert(gate_set(w) == gate_set(pre_gate).remove((user, spoiler_id@))) by {
                        assert(pre_gate[i as int].0 == user && pre_gate[i as int].1@
                            == spoiler_id@);
                    }
                    assert forall|a: int, b: int| 0 <= a < b < w.len() implies !((
                    #[trigger] w[a]).0 == (#[trigger] w[b]).0 && w[a].1@ == w[b].1@) by {
                        let a0 = if a < i as int {
                            a
                        } else {
                            a + 1
                        };
                        let b0 = if b < i as int {
                            b
                        } else {
                            b + 1
                        };
                        assert(w[a] == pre_gate[a0]);
                        assert(w[b] == pre_gate[b0]);
                    }
                }
                false
            },
            None => {
                let ghost pre_gate = self.open_major_spoiler@;
                self.open_major_spoiler.push((user, spoiler_id.clone()));
                proof {
                    let p = self.open_major_spoiler@.last();
                    assert(self.open_major_spoiler@ == pre_gate.push(p));
                    lemma_gate_set_push(pre_gate, p);
                    let w = self.open_major_spoiler@;
                    assert forall|a: int, b: int| 0 <= a < b < w.len() implies !((
                    #[trigger] w[a]).0 == (#[trigger] w[b]).0 && w[a].1@ == w[b].1@) by {
                        if b == w.len() - 1 {
                            assert(w[a] == pre_gate[a]);
                            assert(!(pre_gate[a].0 == user && pre_gate[a].1@ == spoiler_id@));
                        } else {
                            assert(w[a] == pre_gate[a]);
                            assert(w[b] == pre_gate[b]);
                        }
                    }
                }
                true
            },
        }
    }
}

/// Does the stored title reflect the submitted text: stripped of its
/// duration shorthand, and skipped entirely when a single dash was sent?
pub open spec fn spoiler_title_ok(stored: Option<String>, submitted: Seq<char>) -> bool {
    let stripped = util::spec_strip_suffix(submitted);
    if stripped == seq!['-'] {
        stored is None
    } else {
        stored matches Some(t) && t@ == stripped
    }
}

/// The queue that a finalize leaves behind: the entry of an overwritten id
/// (a negligible-probability collision) is cancelled, and the fresh entry
/// is added under the new handle.
pub open spec fn finalize_queue(pre: State, idv: Seq<char>, st: StoredSpoiler) -> Map<
    u64,
    (u64, String),
> {
    let base = if pre.table().contains_key(idv) {
        pre.queue().remove(pre.table()[idv].key)
    } else {
        pre.queue()
    };
    base.insert(st.key, (st.deadline, st.spoiler.id))
}

/// What a finalize leaves behind.  With content staged, the registry gains
/// one spoiler under the returned id, bound to that content, the cleaned
/// title and the effective duration, together with its expiry entry; the
/// staged content is consumed.  Without staged content (an inconsistency
/// the service tolerates), the id comes back bound to nothing and the
/// registry is unchanged.
pub open spec fn finalize_ok(
    pre: State,
    post: State,
    user: i64,
    title: Seq<char>,
    expires_in: Option<u64>,
    now: u64,
    r: String,
) -> bool {
    &&& r@.len() == util::SPOILER_ID_LENGTH
    &&& forall|i: int| 0 <= i < r@.len() ==> util::is_id_char(#[trigger] r@[i])
    &&& post.statuses() == pre.statuses()
    &&& post.gate() == pre.gate()
    &&& if pre.staged().contains_key(user) {
        let st = post.table()[r@];
        &&& post.staged() == pre.staged().remove(user)
        &&& post.table().contains_key(r@)
        &&& st.spoiler.id == r
        &&& st.spoiler.content == pre.staged()[user]
        &&& spoiler_title_ok(st.spoiler.title, title)
        &&& st.spoiler.expires_in == effective_duration(expires_in)
        &&& st.deadline == util::saturating_deadline(now, effective_duration(expires_in))
        &&& !pre.queue().contains_key(st.key)
        &&& post.table() == pre.table().insert(r@, st)
        &&& post.queue() == finalize_queue(pre, r@, st)
    } else {
        &&& post.staged() == pre.staged()
        &&& post.table() == pre.table()
        &&& post.queue() == pre.queue()
    }
}

/// Is the cleaned title a single dash, the marker for "no title"?
fn title_skipped(s: &String) -> (r: bool)
    ensures
        r == (s@ == seq!['-']),
{
    if s.as_str().unicode_len() == 1 {
        let c = s.as_str().get_char(0);
        proof {
            if c == '-' {
                assert(s@ =~= seq!['-']);
            } else {
                assert(s@ != seq!['-']) by {
                    assert(seq!['-'][0] == '-');
                }
            }
        }
        c == '-'
    } else {
        proof {
            assert(seq!['-'].len() == 1);
        }
        false
    }
}

impl State {
    /// Registers a finished spoiler: creates its expiry entry and its table
    /// row together.  A colliding id (negligible probability) has its old
    /// expiry entry cancelled so that exactly one live entry per live
    /// spoiler remains.
    fn add_spoiler_to_queue(&mut self, spoiler: Spoiler, now: u64)
        requires
            old(self).wf(),
            old(self).can_schedule(),
        ensures
            final(self).wf(),
            final(self).statuses() == old(self).statuses(),
            final(self).staged() == old(self).staged(),
            final(self).gate() == old(self).gate(),
            final(self).table().contains_key(spoiler.id@),
            ({
                let st = final(self).table()[spoiler.id@];
                &&& st.spoiler == spoiler
                &&& st.deadline == util::saturating_deadline(now, spoiler.expires_in)
                &&& !old(self).queue().contains_key(st.key)
                &&& final(self).table() == old(self).table().insert(spoiler.id@, st)
                &&& final(self).queue() == finalize_queue(*old(self), spoiler.id@, st)
            }),
    {
        let deadline = match now.checked_add(spoiler.expires_in) {
            Some(d) => d,
            None => u64::MAX,
        };
        let prior_key: Option<u64> = match self.spoilers.get(spoiler.id.as_str()) {
            Some(stored) => Some(stored.key),
            None => None,
        };
        proof {
            self.expirations.lemma_pending_below_generation();
        }
        match prior_key {
            Some(k0) => self.expirations.cancel(k0),
            None => {},
        }
        let delay_key = self.expirations.schedule(spoiler.id.clone(), deadline);
        let id_for_table = spoiler.id.clone();
        let ghost spv = spoiler;
        self.spoilers.insert(id_for_table, StoredSpoiler { spoiler, deadline, key: delay_key });
        proof {
            let idv = spv.id@;
            let t0 = old(self).table();
            let q0 = old(self).queue();
            let st = StoredSpoiler { spoiler: spv, deadline, key: delay_key };
            assert(self.table() == t0.insert(idv, st));
            assert forall|id2: Seq<char>| #[trigger] self.spoilers@.contains_key(id2) implies {
                &&& self.expirations.pending().contains_key(self.spoilers@[id2].key)
                &&& self.expirations.pending()[self.spoilers@[id2].key].0
                    == self.spoilers@[id2].deadline
                &&& self.expirations.pending()[self.spoilers@[id2].key].1@ == id2
                &&& self.spoilers@[id2].spoiler.id@ == id2
            } by {
                if id2 != idv {
                    let st2 = t0[id2];
                    assert(t0.contains_key(id2));
                    assert(q0.contains_key(st2.key));
                    assert(q0[st2.key].1@ == id2);
                    assert(st2.key < old(self).expirations.generation());
                    if t0.contains_key(idv) {
                        assert(q0[t0[idv].key].1@ == idv);
                        assert(st2.key != t0[idv].key);
                    }
                }
            }
            assert forall|k2: u64| #[trigger] self.expirations.pending().contains_key(
                k2,
            ) implies {
                &&& self.spoilers@.contains_key(self.expirations.pending()[k2].1@)
                &&& self.spoilers@[self.expirations.pending()[k2].1@].key == k2
                &&& self.spoilers@[self.expirations.pending()[k2].1@].deadline
                    == self.expirations.pending()[k2].0
            } by {
                if k2 != delay_key {
                    assert(q0.contains_key(k2));
                    let id2 = q0[k2].1@;
                    assert(t0.contains_key(id2));
                    assert(t0[id2].key == k2);
                    if t0.contains_key(idv) {
                        assert(k2 != t0[idv].key);
                        if id2 == idv {
                            assert(t0[idv].key == k2);
                        }
                    }
                    assert(id2 != idv);
                }
            }
        }
    }

    /// The core creation transaction.  Cleans the title (a lone dash skips
    /// it), draws a fresh id, consumes the user's staged content, registers
    /// the spoiler with `expires_in` seconds of life (one day when absent)
    /// counted from `now`, and returns the id.  Without staged content the
    /// id comes back bound to nothing and the registry is unchanged, the
    /// tolerated inconsistency the contract spells out.
    pub fn set_spoiler_title_and_expiration(
        &mut self,
        user_id: i64,
        title: String,
        expires_in: Option<u64>,
        now: u64,
    ) -> (r: String)
        requires
            old(self).wf(),
            old(self).can_schedule(),
        ensures
            final(self).wf(),
            finalize_ok(*old(self), *final(self), user_id, title@, expires_in, now, r),
    {
        let stripped = util::strip_expiration_suffix(title.as_str());
        let title_opt: Option<String> = if title_skipped(&stripped) {
            None
        } else {
            Some(stripped)
        };
        let spoiler_id = util::random_id();
        let content = self.new_spoilers.remove(&user_id);
        match content {
            Some(content) => {
                let spoiler = Spoiler::new(spoiler_id.clone(), title_opt, content, expires_in);
                self.add_spoiler_to_queue(spoiler, now);
            },
            None => {
                proof {
                    assert(old(self).new_spoilers@.remove(user_id) =~= old(self).new_spoilers@);
                }
            },
        }
        spoiler_id
    }
}

/// What removing an id leaves behind: its table row and its expiry entry
/// go together; an absent id changes nothing.
pub open spec fn remove_ok(pre: State, post: State, idv: Seq<char>) -> bool {
    &&& post.table() == pre.table().remove(idv)
    &&& post.queue() == (if pre.table().contains_key(idv) {
        pre.queue().remove(pre.table()[idv].key)
    } else {
        pre.queue()
    })
    &&& post.statuses() == pre.statuses()
    &&& post.staged() == pre.staged()
    &&& post.gate() == pre.gate()
    &&& post.can_schedule() == pre.can_schedule()
}

impl State {
    /// Deletes the entry for `id` and cancels its expiry entry; removing an
    /// id that is already gone is a no-op.
    pub fn remove_expired(&mut self, id: &String)
        requires
            old(self).wf(),
        ensures
            final(self).wf(),
            remove_ok(*old(self), *final(self), id@),
    {
        let key_opt: Option<u64> = match self.spoilers.get(id.as_str()) {
            Some(stored) => Some(stored.key),
            None => None,
        };
        match key_opt {
            Some(k) => {
                self.expirations.cancel(k);
                self.spoilers.remove(id.as_str());
                proof {
                    let t0 = old(self).table();
                    let q0 = old(self).queue();
                    let idv = id@;
                    assert forall|id2: Seq<char>|
                        #[trigger] self.spoilers@.contains_key(id2) implies {
                        &&& self.expirations.pending().contains_key(self.spoilers@[id2].key)
                        &&& self.expirations.pending()[self.spoilers@[id2].key].0
                            == self.spoilers@[id2].deadline
                        &&& self.expirations.pending()[self.spoilers@[id2].key].1@ == id2
                        &&& self.spoilers@[id2].spoiler.id@ == id2
                    } by {
                        assert(t0.contains_key(id2) && id2 != idv);
                        assert(q0[t0[id2].key].1@ == id2);
                        assert(q0[k].1@ == idv);
                        assert(t0[id2].key != k);
                    }
                    assert forall|k2: u64| #[trigger] self.expirations.pending().contains_key(
                        k2,
                    ) implies {
                        &&& self.spoilers@.contains_key(self.expirations.pending()[k2].1@)
                        &&& self.spoilers@[self.expirations.pending()[k2].1@].key == k2
                        &&& self.spoilers@[self.expirations.pending()[k2].1@].deadline
                            == self.expirations.pending()[k2].0
                    } by {
                        assert(q0.contains_key(k2) && k2 != k);
                        let id2 = q0[k2].1@;
                        assert(t0[id2].key == k2);
                        if id2 == idv {
                            assert(t0[idv].key == k);
                        }
                    }
                }
            },
            None => {
                proof {
                    assert(old(self).table().remove(id@) =~= old(self).table());
                }
            },
        }
    }
}

/// What one sweep at time `now` leaves behind: entries still in the future
/// are untouched, entries whose deadline has passed are gone, nothing
/// appears, and sessions, staged content and confirmation flags are unchanged.
pub open spec fn sweep_ok(pre: State, post: State, now: u64) -> bool {
    &&& post.statuses() == pre.statuses()
    &&& post.staged() == pre.staged()
    &&& post.gate() == pre.gate()
    &&& post.can_schedule() == pre.can_schedule()
    &&& forall|id: Seq<char>|
        pre.table().contains_key(id) && (#[trigger] pre.table()[id]).deadline > now
            ==> post.table().contains_key(id) && post.table()[id] == pre.table()[id]
    &&& forall|id: Seq<char>|
        pre.table().contains_key(id) && (#[trigger] pre.table()[id]).deadline <= now
            ==> !post.table().contains_key(id)
    &&& forall|id: Seq<char>| #[trigger]
        post.table().contains_key(id) ==> pre.table().contains_key(id) && post.table()[id]
            == pre.table()[id]
    &&& forall|k: u64| #[trigger]
        post.queue().contains_key(k) ==> pre.queue().contains_key(k) && post.queue()[k]
            == pre.queue()[k] && pre.queue()[k].0 > now
}

impl State {
    /// One sweep of the expiration task: drains every entry of the expiry
    /// index whose deadline has elapsed as of `now` and removes the
    /// matching spoilers.
    pub fn sweep_expired(&mut self, now: u64)
        requires
            old(self).wf(),
        ensures
            final(self).wf(),
            sweep_ok(*old(self), *final(self), now),
    {
        loop
            invariant
                self.wf(),
                self.statuses() == old(self).statuses(),
                self.staged() == old(self).staged(),
                self.gate() == old(self).gate(),
                self.can_schedule() == old(self).can_schedule(),
                forall|id: Seq<char>| #[trigger]
                    self.table().contains_key(id) ==> old(self).table().contains_key(id)
                        && self.table()[id] == old(self).table()[id],
                forall|id: Seq<char>|
                    old(self).table().contains_key(id) && (#[trigger] old(
                        self,
                    ).table()[id]).deadline > now ==> self.table().contains_key(id),
                forall|k: u64| #[trigger]
                    self.queue().contains_key(k) ==> old(self).queue().contains_key(k)
                        && self.queue()[k] == old(self).queue()[k],
            decreases self.expirations.slots(),
        {
            let ghost pre_iter = *self;
            match self.expirations.pop_expired(now) {
                None => {
                    proof {
                        assert(self.table() == pre_iter.table());
                        assert(self.queue() == pre_iter.queue());
                        assert forall|id: Seq<char>|
                            old(self).table().contains_key(id) && (#[trigger] old(
                                self,
                            ).table()[id]).deadline <= now implies !self.table().contains_key(
                            id,
                        ) by {
                            if pre_iter.table().contains_key(id) {
                                let st = pre_iter.table()[id];
                                assert(st == old(self).table()[id]);
                                assert(pre_iter.queue().contains_key(st.key));
                                assert(self.queue()[st.key].0 > now);
                                assert(pre_iter.queue()[st.key].0 == st.deadline);
                            }
                        }
                    }
                    return ;
                },
                Some(popped) => {
                    let (k, id) = popped;
                    self.spoilers.remove(id.as_str());
                    proof {
                        let t0 = pre_iter.table();
                        let q0 = pre_iter.queue();
                        let idv = id@;
                        assert(q0[k].1@ == idv);
                        assert(t0.contains_key(idv) && t0[idv].key == k);
                        assert forall|id2: Seq<char>|
                            #[trigger] self.spoilers@.contains_key(id2) implies {
                            &&& self.expirations.pending().contains_key(self.spoilers@[id2].key)
                            &&& self.expirations.pending()[self.spoilers@[id2].key].0
                                == self.spoilers@[id2].deadline
                            &&& self.expirations.pending()[self.spoilers@[id2].key].1@ == id2
                            &&& self.spoilers@[id2].spoiler.id@ == id2
                        } by {
                            assert(t0.contains_key(id2) && id2 != idv);
                            assert(q0[t0[id2].key].1@ == id2);
                            assert(t0[id2].key != k);
                        }
                        assert forall|k2: u64|
                            #[trigger] self.expirations.pending().contains_key(k2) implies {
                            &&& self.spoilers@.contains_key(self.expirations.pending()[k2].1@)
                            &&& self.spoilers@[self.expirations.pending()[k2].1@].key == k2
                            &&& self.spoilers@[self.expirations.pending()[k2].1@].deadline
                                == self.expirations.pending()[k2].0
                        } by {
                            assert(q0.contains_key(k2) && k2 != k);
                            let id2 = q0[k2].1@;
                            assert(t0[id2].key == k2);
                            if id2 == idv {
                                assert(t0[idv].key == k);
                            }
                        }
                    }
                },
            }
        }
    }
}

/// Round trip: finalizing staged content registers a spoiler, under the
/// returned id, whose content, title and duration are exactly the inputs
/// (the title cleaned of its duration shorthand, a lone dash meaning no
/// title); `get_spoiler` on that id returns it by its own contract.
pub proof fn lemma_finalize_round_trip(
    pre: State,
    post: State,
    user: i64,
    title: Seq<char>,
    expires_in: Option<u64>,
    now: u64,
    r: String,
)
    requires
        pre.staged().contains_key(user),
        finalize_ok(pre, post, user, title, expires_in, now, r),
    ensures
        post.table().contains_key(r@),
        post.table()[r@].spoiler.content == pre.staged()[user],
        spoiler_title_ok(post.table()[r@].spoiler.title, title),
        post.table()[r@].spoiler.expires_in == effective_duration(expires_in),
        post.staged() == pre.staged().remove(user),
{
}

/// Expiry is enforced: a sweep at time `now` keeps every spoiler whose
/// deadline still lies ahead untouched, and leaves none whose deadline has
/// passed.
pub proof fn lemma_expiry_enforced(pre: State, post: State, now: u64, idv: Seq<char>)
    requires
        sweep_ok(pre, post, now),
        pre.table().contains_key(idv),
    ensures
        pre.table()[idv].deadline > now ==> post.table().contains_key(idv) && post.table()[idv]
            == pre.table()[idv],
        pre.table()[idv].deadline <= now ==> !post.table().contains_key(idv),
{
}

/// The confirmation gate alternates: for a fixed user and id, two
/// consecutive calls never answer the same way.
pub proof fn lemma_gate_alternates(
    s0: State,
    s1: State,
    s2: State,
    user: i64,
    idv: Seq<char>,
    r1: bool,
    r2: bool,
)
    requires
        tap_ok(s0, s1, user, idv, r1),
        tap_ok(s1, s2, user, idv, r2),
    ensures
        r2 == !r1,
{
    if r1 {
        assert(s1.gate().contains((user, idv)));
    } else {
        assert(!s1.gate().contains((user, idv)));
    }
}

/// Session exclusivity, first step: after a user is marked as about to
/// send content, exactly the content query answers true.
pub proof fn lemma_begin_creation_exclusive(
    pre: State,
    post: State,
    user: i64,
    r: Option<SpoilerCreationStatus>,
)
    requires
        session_set_ok(pre, post, user, SpoilerCreationStatus::WaitingForSpoiler, r),
    ensures
        spec_waiting_for_spoiler(post, user),
        !spec_waiting_for_title(post, user),
{
}

/// Session exclusivity, second step: after a user is marked as about to
/// send a title, exactly the title query answers true.
pub proof fn lemma_await_title_exclusive(
    pre: State,
    post: State,
    user: i64,
    r: Option<SpoilerCreationStatus>,
)
    requires
        session_set_ok(pre, post, user, SpoilerCreationStatus::WaitingForTitle, r),
    ensures
        spec_waiting_for_title(post, user),
        !spec_waiting_for_spoiler(post, user),
{
}

/// Session exclusivity, last step: after a cancel both queries answer
/// false.
pub proof fn lemma_cancel_clears_session(
    pre: State,
    post: State,
    user: i64,
    r: Option<SpoilerCreationStatus>,
)
    requires
        cancel_ok(pre, post, user, r),
    ensures
        !spec_waiting_for_spoiler(post, user),
        !spec_waiting_for_title(post, user),
{
}

/// Finalize isolation: two finalizes by different users, each with their
/// own staged content, leave two entries that each hold their own user's
/// content.  The hypothesis that the two drawn ids differ excludes the
/// negligible-probability random collision, on which the second entry
/// would overwrite the first.
pub proof fn lemma_finalize_isolation(
    s0: State,
    s1: State,
    s2: State,
    u1: i64,
    u2: i64,
    t1: Seq<char>,
    t2: Seq<char>,
    d1: Option<u64>,
    d2: Option<u64>,
    now1: u64,
    now2: u64,
    r1: String,
    r2: String,
)
    requires
        u1 != u2,
        s0.staged().contains_key(u1),
        s0.staged().contains_key(u2),
        finalize_ok(s0, s1, u1, t1, d1, now1, r1),
        finalize_ok(s1, s2, u2, t2, d2, now2, r2),
        r1@ != r2@,
    ensures
        s2.table().contains_key(r1@),
        s2.table()[r1@].spoiler.content == s0.staged()[u1],
        s2.table().contains_key(r2@),
        s2.table()[r2@].spoiler.content == s0.staged()[u2],
{
    assert(s1.staged().contains_key(u2));
    assert(s1.staged()[u2] == s0.staged()[u2]);
    assert(s2.table()[r1@] == s1.table()[r1@]);
}

/// Removal is idempotent: removing an id twice is safe, and the second
/// call changes nothing at all.
pub proof fn lemma_remove_expired_idempotent(s0: State, s1: State, s2: State, idv: Seq<char>)
    requires
        remove_ok(s0, s1, idv),
        remove_ok(s1, s2, idv),
    ensures
        s2.table() == s1.table(),
        s2.queue() == s1.queue(),
        s2.statuses() == s1.statuses(),
        s2.staged() == s1.staged(),
        s2.gate() == s1.gate(),
{
    assert(!s1.table().contains_key(idv));
    assert(s1.table().remove(idv) =~= s1.table());
}

} // verus!
