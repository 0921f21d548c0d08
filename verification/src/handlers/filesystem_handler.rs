//! The decisions of the filesystem handler: which changes are kept, and the
//! debounce timer that batches them.

use vstd::prelude::*;
use crate::event::Event;
use crate::event::keys;
use crate::string_map::{StringMap, entries_map, keys_of};
use crate::glob::{path_is_kept, path_kept};
use crate::text::strings_view;

verus! {

/// The kind of a filesystem change.
#[derive(Debug, Clone, Copy, PartialEq, Eq)]
pub enum FsChangeKind {
    Create,
    Modify,
    Remove,
    /// Any other notification (access, metadata only, ...)
    Other,
}

pub open spec fn kind_label(k: FsChangeKind) -> Seq<char> {
    match k {
        FsChangeKind::Create => "create"@,
        FsChangeKind::Modify => "modify"@,
        FsChangeKind::Remove => "remove"@,
        FsChangeKind::Other => "other"@,
    }
}

impl FsChangeKind {
    /// The lowercase name of the kind.
    pub fn label(&self) -> (r: &'static str)
        ensures
            r@ == kind_label(*self),
    {
        match self {
            FsChangeKind::Create => "create",
            FsChangeKind::Modify => "modify",
            FsChangeKind::Remove => "remove",
            FsChangeKind::Other => "other",
        }
    }
}

/// How long the loop sleeps when nothing is pending (one hour).
pub const IDLE_SLEEP_MS: u64 = 3_600_000;

/// Changes waiting for the debounce timer: the last kind seen for each path,
/// and when the timer fires.
pub struct Debouncer {
    /// Path to the lowercase name of its last change
    pub pending: StringMap,
    /// When the timer fires, in milliseconds
    pub deadline: Option<u64>,
}

/// The pending changes after `kind` happened to each of `paths` that the
/// include and exclude patterns keep.
pub open spec fn record_paths(
    m: Map<Seq<char>, Seq<char>>,
    paths: Seq<String>,
    include_patterns: Seq<Seq<char>>,
    exclude_patterns: Seq<Seq<char>>,
    kind: FsChangeKind,
) -> Map<Seq<char>, Seq<char>>
    decreases paths.len(),
{
    if paths.len() == 0 {
        m
    } else {
        let prev = record_paths(m, paths.drop_last(), include_patterns, exclude_patterns, kind);
        if path_kept(include_patterns, exclude_patterns, paths.last()@) {
            prev.insert(paths.last()@, kind_label(kind))
        } else {
            prev
        }
    }
}

/// Some path of `paths` is kept by the patterns.
pub open spec fn some_path_kept(paths: Seq<String>, include_patterns: Seq<Seq<char>>, exclude_patterns: Seq<Seq<char>>) -> bool {
    exists|i: int| 0 <= i < paths.len() && path_kept(include_patterns, exclude_patterns, #[trigger] paths[i]@)
}

/// `key` is none of the kept paths of `paths`.
pub open spec fn not_kept_among(
    paths: Seq<String>,
    include_patterns: Seq<Seq<char>>,
    exclude_patterns: Seq<Seq<char>>,
    key: Seq<char>,
) -> bool {
    forall|i: int| 0 <= i < paths.len() && path_kept(include_patterns, exclude_patterns, #[trigger] paths[i]@)
        ==> paths[i]@ != key
}

/// Recording `kind` for `paths` leaves every kept path pending with the
/// lowercase name of that kind itself (`create`, `modify`, `remove`), and
/// leaves every other path as it was.
pub proof fn lemma_recorded_paths_carry_their_kind(
    m: Map<Seq<char>, Seq<char>>,
    paths: Seq<String>,
    include_patterns: Seq<Seq<char>>,
    exclude_patterns: Seq<Seq<char>>,
    kind: FsChangeKind,
)
    ensures
        forall|i: int| 0 <= i < paths.len() && path_kept(include_patterns, exclude_patterns, #[trigger] paths[i]@)
            ==> record_paths(m, paths, include_patterns, exclude_patterns, kind).contains_key(paths[i]@)
            && record_paths(m, paths, include_patterns, exclude_patterns, kind)[paths[i]@] == match kind {
                FsChangeKind::Create => "create"@,
                FsChangeKind::Modify => "modify"@,
                FsChangeKind::Remove => "remove"@,
                FsChangeKind::Other => "other"@,
            },
        forall|key: Seq<char>| #[trigger] not_kept_among(paths, include_patterns, exclude_patterns, key) ==> (
            record_paths(m, paths, include_patterns, exclude_patterns, kind).contains_key(key) == m.contains_key(key)
            && (m.contains_key(key) ==> record_paths(m, paths, include_patterns, exclude_patterns, kind)[key] == m[key])),
    decreases paths.len(),
{
    if paths.len() > 0 {
        let prev = paths.drop_last();
        lemma_recorded_paths_carry_their_kind(m, prev, include_patterns, exclude_patterns, kind);
        let r0 = record_paths(m, prev, include_patterns, exclude_patterns, kind);
        let r = record_paths(m, paths, include_patterns, exclude_patterns, kind);
        let last = paths[paths.len() - 1];
        assert forall|i: int| 0 <= i < paths.len() && path_kept(include_patterns, exclude_patterns, #[trigger] paths[i]@)
            implies r.contains_key(paths[i]@) && r[paths[i]@] == match kind {
                FsChangeKind::Create => "create"@,
                FsChangeKind::Modify => "modify"@,
                FsChangeKind::Remove => "remove"@,
                FsChangeKind::Other => "other"@,
            } by {
            if i < prev.len() {
                assert(prev[i] == paths[i]);
            }
        }
        assert forall|key: Seq<char>| #[trigger] not_kept_among(paths, include_patterns, exclude_patterns, key) implies (
            r.contains_key(key) == m.contains_key(key)
            && (m.contains_key(key) ==> r[key] == m[key])) by {
            assert forall|i: int| 0 <= i < prev.len() && path_kept(include_patterns, exclude_patterns, #[trigger] prev[i]@)
                implies prev[i]@ != key by {
                assert(prev[i] == paths[i]);
            }
            assert(not_kept_among(prev, include_patterns, exclude_patterns, key));
            assert(r0.contains_key(key) == m.contains_key(key));
            if m.contains_key(key) {
                assert(r0[key] == m[key]);
            }
            if path_kept(include_patterns, exclude_patterns, last@) {
                assert(paths[paths.len() - 1]@ != key);
                assert(r == r0.insert(last@, kind_label(kind)));
            } else {
                assert(r == r0);
            }
        }
    } else {
        assert(record_paths(m, paths, include_patterns, exclude_patterns, kind) == m);
    }
}

proof fn lemma_nothing_kept_changes_nothing(
    m: Map<Seq<char>, Seq<char>>,
    paths: Seq<String>,
    include_patterns: Seq<Seq<char>>,
    exclude_patterns: Seq<Seq<char>>,
    kind: FsChangeKind,
)
    requires
        !some_path_kept(paths, include_patterns, exclude_patterns),
    ensures
        record_paths(m, paths, include_patterns, exclude_patterns, kind) == m,
    decreases paths.len(),
{
    if paths.len() > 0 {
        let prev = paths.drop_last();
        if some_path_kept(prev, include_patterns, exclude_patterns) {
            let k = choose|k: int| 0 <= k < prev.len() && path_kept(include_patterns, exclude_patterns, #[trigger] prev[k]@);
            assert(paths[k] == prev[k]);
        }
        lemma_nothing_kept_changes_nothing(m, prev, include_patterns, exclude_patterns, kind);
        assert(!path_kept(include_patterns, exclude_patterns, paths[paths.len() - 1]@));
    }
}

/// The changes handed over when the timer fires, one per path.
pub struct DebouncedBatch {
    pub changes: Vec<(String, String)>,
}

impl Debouncer {
    /// Nothing pending, no timer.
    pub fn new() -> (r: Debouncer)
        ensures
            r.pending@ == Map::<Seq<char>, Seq<char>>::empty(),
            r.deadline is None,
    {
        Debouncer { pending: StringMap::new(), deadline: None }
    }

    /// Records a notification at `now_ms`. Creations, modifications and
    /// removals of the paths that the include and exclude patterns keep
    /// replace the pending change of each such path and restart the timer;
    /// other kinds, and paths the patterns leave out, change nothing. Returns
    /// whether a change was kept.
    pub fn record(
        &mut self,
        kind: FsChangeKind,
        paths: &Vec<String>,
        include_patterns: &Vec<String>,
        exclude_patterns: &Vec<String>,
        now_ms: u64,
        debounce_ms: u64,
    ) -> (kept: bool)
        requires
            now_ms + debounce_ms <= u64::MAX,
        ensures
            kept == (kind != FsChangeKind::Other
                && some_path_kept(paths@, strings_view(include_patterns@), strings_view(exclude_patterns@))),
            !kept ==> final(self).pending@ == old(self).pending@ && final(self).deadline == old(self).deadline,
            kept ==> final(self).pending@ == record_paths(old(self).pending@, paths@,
                    strings_view(include_patterns@), strings_view(exclude_patterns@), kind)
                && final(self).deadline == Some((now_ms + debounce_ms) as u64),
            kind != FsChangeKind::Other ==> forall|i: int| 0 <= i < paths@.len()
                && path_kept(strings_view(include_patterns@), strings_view(exclude_patterns@), #[trigger] paths@[i]@)
                ==> final(self).pending@.contains_key(paths@[i]@) && final(self).pending@[paths@[i]@] == match kind {
                    FsChangeKind::Create => "create"@,
                    FsChangeKind::Modify => "modify"@,
                    FsChangeKind::Remove => "remove"@,
                    FsChangeKind::Other => "other"@,
                },
    {
        if let FsChangeKind::Other = kind {
            return false;
        }
        let ghost inc = strings_view(include_patterns@);
        let ghost exc = strings_view(exclude_patterns@);
        let label = kind.label();
        let ghost start = self.pending@;
        let mut any = false;
        let mut i: usize = 0;
        while i < paths.len()
            invariant
                i <= paths.len(),
                label@ == kind_label(kind),
                inc == strings_view(include_patterns@),
                exc == strings_view(exclude_patterns@),
                self.pending@ == record_paths(start, paths@.take(i as int), inc, exc, kind),
                any == some_path_kept(paths@.take(i as int), inc, exc),
                self.deadline == old(self).deadline,
                start == old(self).pending@,
            decreases paths.len() - i,
        {
            let ghost prefix = paths@.take(i as int);
            let ghost prefix1 = paths@.take(i + 1);
            assert(prefix1.drop_last() =~= prefix);
            assert(prefix1.last() == paths@[i as int]);
            let keep = path_is_kept(include_patterns, exclude_patterns, paths[i].as_str());
            if keep {
                self.pending.insert(paths[i].clone(), label.to_owned());
                assert(path_kept(inc, exc, prefix1[i as int]@));
                any = true;
            } else {
                proof {
                    if some_path_kept(prefix1, inc, exc) {
                        let k = choose|k: int| 0 <= k < prefix1.len() && path_kept(inc, exc, #[trigger] prefix1[k]@);
                        assert(prefix[k] == prefix1[k]);
                    }
                }
            }
            proof {
                if some_path_kept(prefix, inc, exc) {
                    let k = choose|k: int| 0 <= k < prefix.len() && path_kept(inc, exc, #[trigger] prefix[k]@);
                    assert(prefix1[k] == prefix[k]);
                }
            }
            i = i + 1;
        }
        assert(paths@.take(paths.len() as int) =~= paths@);
        proof {
            lemma_recorded_paths_carry_their_kind(start, paths@, inc, exc, kind);
            if !any {
                lemma_nothing_kept_changes_nothing(start, paths@, inc, exc, kind);
            }
        }
        if any {
            self.deadline = Some(now_ms + debounce_ms);
        }
        any
    }

    /// How long to sleep from `now_ms` until the timer fires: the time left
    /// (zero once it has passed), or an hour without a timer.
    pub fn sleep_millis(&self, now_ms: u64) -> (r: u64)
        ensures
            r == match self.deadline {
                None => IDLE_SLEEP_MS as int,
                Some(d) => if d > now_ms { d - now_ms } else { 0 },
            },
    {
        match self.deadline {
            None => IDLE_SLEEP_MS,
            Some(d) => if d > now_ms { d - now_ms } else { 0 },
        }
    }

    /// The timer fired: hands over the pending changes and clears them with
    /// the timer; does nothing when no change is pending.
    pub fn fire(&mut self) -> (r: Option<DebouncedBatch>)
        ensures
            old(self).pending@.dom().len() == 0 ==> r is None && final(self).pending@ == old(self).pending@
                && final(self).deadline == old(self).deadline,
            old(self).pending@.dom().len() > 0 ==> final(self).pending@ == Map::<Seq<char>, Seq<char>>::empty()
                && final(self).deadline is None
                && (r matches Some(b) && entries_map(b.changes@) == old(self).pending@
                    && keys_of(b.changes@).no_duplicates() && b.changes@.len() > 0),
    {
        if self.pending.is_empty() {
            return None;
        }
        let changes = self.pending.to_pairs();
        proof {
            if changes@.len() == 0 {
                assert(entries_map(changes@).dom() =~= Set::empty());
            }
        }
        self.pending = StringMap::new();
        self.deadline = None;
        Some(DebouncedBatch { changes })
    }
}

impl DebouncedBatch {
    /// The event forwarded for the batch: the first change's path and kind
    /// (an empty path and `other` for an empty batch).
    pub fn forward_event(&self, handler_name: &str) -> (r: Event)
        ensures
            r.source_handler@ == handler_name@,
            r.event_type == crate::event::EventType::Filesystem,
            self.changes@.len() > 0 ==> r.data@ == Map::<Seq<char>, Seq<char>>::empty()
                .insert(keys::FILE_PATH@, self.changes@[0].0@)
                .insert(keys::FILE_EVENT_KIND@, self.changes@[0].1@),
            self.changes@.len() == 0 ==> r.data@ == Map::<Seq<char>, Seq<char>>::empty()
                .insert(keys::FILE_PATH@, Seq::<char>::empty())
                .insert(keys::FILE_EVENT_KIND@, "other"@),
    {
        if self.changes.len() > 0 {
            Event::from_filesystem(handler_name, self.changes[0].0.as_str(), self.changes[0].1.as_str())
        } else {
            proof {
                reveal_strlit("");
                assert(""@ =~= Seq::<char>::empty());
            }
            Event::from_filesystem(handler_name, "", "other")
        }
    }
}

} // verus!
