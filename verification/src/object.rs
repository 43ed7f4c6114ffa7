//! The named object store: a process-wide table of heterogeneous service
//! and peripheral objects under unique string keys, each held under
//! runtime-enforced exclusive access. A guard must be checked out before
//! an object can be touched and checked back in afterwards; a second
//! checkout of the same key is rejected, never silently granted. The
//! panic path alone may force every borrow open again so the report can
//! still reach the console.

use vstd::prelude::*;

use vstd::pervasive::unreached;

use crate::log::ModuleMetaManager;
use crate::pin::MockPin;
use crate::selftest::ChildObject1;
use crate::selftest::CounterTask;
use crate::time::TimeProvider;
use crate::tty::Tty;

verus! {

/// The closed universe of object types the store can hold.
#[derive(Clone, Copy, PartialEq, Eq, Structural, Debug)]
pub enum ObjectKind {
    Tty,
    Time,
    LoggerMeta,
    Pin,
    Child,
    Counter,
}

/// A stored object, tagged with its type.
pub enum ObjectValue {
    Tty(Tty),
    Time(TimeProvider),
    LoggerMeta(ModuleMetaManager),
    Pin(MockPin),
    Child(ChildObject1),
    Counter(CounterTask),
}

impl ObjectValue {
    /// The type tag a value carries.
    pub open spec fn kind(self) -> ObjectKind {
        match self {
            ObjectValue::Tty(_) => ObjectKind::Tty,
            ObjectValue::Time(_) => ObjectKind::Time,
            ObjectValue::LoggerMeta(_) => ObjectKind::LoggerMeta,
            ObjectValue::Pin(_) => ObjectKind::Pin,
            ObjectValue::Child(_) => ObjectKind::Child,
            ObjectValue::Counter(_) => ObjectKind::Counter,
        }
    }

    pub fn kind_of(&self) -> (k: ObjectKind)
        ensures
            k == self.kind(),
    {
        match self {
            ObjectValue::Tty(_) => ObjectKind::Tty,
            ObjectValue::Time(_) => ObjectKind::Time,
            ObjectValue::LoggerMeta(_) => ObjectKind::LoggerMeta,
            ObjectValue::Pin(_) => ObjectKind::Pin,
            ObjectValue::Child(_) => ObjectKind::Child,
            ObjectValue::Counter(_) => ObjectKind::Counter,
        }
    }

    /// The terminal inside a `Tty` value.
    pub open spec fn as_tty(self) -> Tty {
        match self {
            ObjectValue::Tty(t) => t,
            _ => vstd::pervasive::arbitrary(),
        }
    }

    pub open spec fn as_time(self) -> TimeProvider {
        match self {
            ObjectValue::Time(t) => t,
            _ => vstd::pervasive::arbitrary(),
        }
    }

    pub open spec fn as_meta(self) -> ModuleMetaManager {
        match self {
            ObjectValue::LoggerMeta(m) => m,
            _ => vstd::pervasive::arbitrary(),
        }
    }

    pub open spec fn as_counter(self) -> CounterTask {
        match self {
            ObjectValue::Counter(c) => c,
            _ => vstd::pervasive::arbitrary(),
        }
    }
}

/// Why a store operation was refused.
#[derive(Clone, Copy, PartialEq, Eq, Structural, Debug)]
pub enum StoreError {
    /// `insert` found the key already taken.
    DuplicateKey,
    /// No entry has the given key.
    NoSuchKey,
    /// The key's guard is already checked out.
    Borrowed,
    /// The entry holds a value of another type.
    TypeMismatch,
}

/// The capability to touch one checked-out entry. Only the store creates
/// guards; checking one back in consumes it.
pub struct Guard {
    idx: usize,
    key: Ghost<Seq<char>>,
}

impl Guard {
    /// The index of the entry this guard covers.
    pub closed spec fn index(self) -> int {
        self.idx as int
    }

    /// The key this guard was checked out for.
    pub closed spec fn key_view(self) -> Seq<char> {
        self.key@
    }
}

/// One entry's state as contracts see it.
pub struct EntryModel {
    pub key: Seq<char>,
    pub value: ObjectValue,
    pub borrowed: bool,
}

struct Entry {
    key: String,
    value: ObjectValue,
    borrowed: bool,
}

/// The store itself.
pub struct ObjectStore {
    entries: Vec<Entry>,
}

impl ObjectStore {
    /// The entries in insertion order.
    pub closed spec fn rows(self) -> Seq<EntryModel> {
        Seq::new(
            self.entries@.len(),
            |i: int|
                EntryModel {
                    key: self.entries@[i].key@,
                    value: self.entries@[i].value,
                    borrowed: self.entries@[i].borrowed,
                },
        )
    }

    /// Keys are unique: each name maps to one entry.
    pub closed spec fn wf(self) -> bool {
        forall|i: int, j: int|
            0 <= i < j < self.entries@.len() ==> self.entries@[i].key@ != self.entries@[j].key@
    }

    pub open spec fn contains_key(self, key: Seq<char>) -> bool {
        exists|i: int| 0 <= i < self.rows().len() && (#[trigger] self.rows()[i]).key == key
    }

    /// The index of `key`'s entry.
    pub open spec fn index_of(self, key: Seq<char>) -> int {
        choose|i: int| 0 <= i < self.rows().len() && (#[trigger] self.rows()[i]).key == key
    }

    pub open spec fn value_of(self, key: Seq<char>) -> ObjectValue {
        self.rows()[self.index_of(key)].value
    }

    pub open spec fn is_borrowed(self, key: Seq<char>) -> bool {
        self.rows()[self.index_of(key)].borrowed
    }

    /// Whether `g` is the live guard for its entry.
    pub open spec fn holds(self, g: Guard) -> bool {
        &&& 0 <= g.index() < self.rows().len()
        &&& (#[trigger] self.rows()[g.index()]).borrowed
        &&& self.rows()[g.index()].key == g.key_view()
    }

    pub fn new() -> (s: ObjectStore)
        ensures
            s.wf(),
            s.rows() =~= Seq::<EntryModel>::empty(),
    {
        ObjectStore { entries: Vec::new() }
    }

    fn find(&self, key: &str) -> (r: Option<usize>)
        ensures
            match r {
                Some(i) => i < self.rows().len() && self.rows()[i as int].key == key@,
                None => !self.contains_key(key@),
            },
    {
        let mut i: usize = 0;
        let n = self.entries.len();
        while i < n
            invariant
                n == self.entries@.len(),
                i <= n,
                forall|j: int| 0 <= j < i ==> (#[trigger] self.rows()[j]).key != key@,
            decreases n - i,
        {
            if crate::text::str_eq(self.entries[i].key.as_str(), key) {
                proof {
                    assert(self.rows()[i as int].key == key@);
                }
                return Some(i);
            }
            proof {
                assert(self.rows()[i as int].key == self.entries@[i as int].key@);
            }
            i = i + 1;
        }
        None
    }

    /// With unique keys, the entry the search found is the entry every
    /// spec lookup of that key names.
    proof fn lemma_index_is(self, key: Seq<char>, i: int)
        requires
            self.wf(),
            0 <= i < self.rows().len(),
            self.rows()[i].key == key,
        ensures
            self.contains_key(key),
            self.index_of(key) == i,
    {
        assert(self.contains_key(key));
        let k = self.index_of(key);
        if k != i {
            assert(self.rows()[k].key == self.entries@[k].key@);
            assert(self.rows()[i].key == self.entries@[i].key@);
            assert(false);
        }
    }

    /// With unique keys, every spec lookup of row `i`'s key lands on row
    /// `i`.
    pub proof fn lemma_row_lookup(s: ObjectStore, i: int)
        requires
            s.wf(),
            0 <= i < s.rows().len(),
        ensures
            s.contains_key(s.rows()[i].key),
            s.index_of(s.rows()[i].key) == i,
            s.value_of(s.rows()[i].key) == s.rows()[i].value,
            s.is_borrowed(s.rows()[i].key) == s.rows()[i].borrowed,
    {
        s.lemma_index_is(s.rows()[i].key, i);
    }

    /// Replacing one entry, key kept, moves no lookup: the changed key now
    /// reads the new value and borrow state, and every other key reads as
    /// before.
    pub proof fn lemma_update_keeps_lookups(
        pre: ObjectStore,
        post: ObjectStore,
        ci: int,
        e: EntryModel,
    )
        requires
            pre.wf(),
            0 <= ci < pre.rows().len(),
            e.key == pre.rows()[ci].key,
            post.rows() == pre.rows().update(ci, e),
        ensures
            post.wf(),
            post.contains_key(e.key),
            post.index_of(e.key) == ci,
            post.value_of(e.key) == e.value,
            post.is_borrowed(e.key) == e.borrowed,
            pre.contains_key(e.key),
            pre.index_of(e.key) == ci,
            forall|k: Seq<char>|
                k != e.key ==> (#[trigger] post.contains_key(k) <==> pre.contains_key(k)),
            forall|k: Seq<char>|
                k != e.key && pre.contains_key(k) ==> #[trigger] post.index_of(k)
                    == pre.index_of(k),
            forall|k: Seq<char>|
                k != e.key && pre.contains_key(k) ==> #[trigger] post.value_of(k)
                    == pre.value_of(k),
            forall|k: Seq<char>|
                k != e.key && pre.contains_key(k) ==> #[trigger] post.is_borrowed(k)
                    == pre.is_borrowed(k),
    {
        assert(forall|i: int|
            0 <= i < post.rows().len() ==> (#[trigger] post.rows()[i]).key == pre.rows()[i].key);
        assert forall|a: int, b: int|
            0 <= a < b < post.entries@.len() implies post.entries@[a].key@
            != post.entries@[b].key@ by {
            assert(post.rows()[a].key == post.entries@[a].key@);
            assert(post.rows()[b].key == post.entries@[b].key@);
            assert(pre.rows()[a].key == pre.entries@[a].key@);
            assert(pre.rows()[b].key == pre.entries@[b].key@);
        }
        Self::lemma_row_lookup(post, ci);
        Self::lemma_row_lookup(pre, ci);
        assert forall|k: Seq<char>| k != e.key implies (#[trigger] post.contains_key(k)
            <==> pre.contains_key(k)) by {
            if pre.contains_key(k) {
                let i = pre.index_of(k);
                assert(pre.rows()[i].key == k);
                assert(post.rows()[i].key == k);
                assert(post.contains_key(k));
            }
            if post.contains_key(k) {
                let i = post.index_of(k);
                assert(post.rows()[i].key == k);
                assert(pre.rows()[i].key == k);
                assert(pre.contains_key(k));
            }
        }
        assert forall|k: Seq<char>| k != e.key && pre.contains_key(k) implies #[trigger] post.index_of(
            k,
        ) == pre.index_of(k) && post.value_of(k) == pre.value_of(k) && post.is_borrowed(k)
            == pre.is_borrowed(k) by {
            let i = pre.index_of(k);
            assert(pre.rows()[i].key == k);
            assert(post.rows()[i].key == k);
            Self::lemma_row_lookup(post, i);
            assert(i != ci);
            assert(post.rows()[i] == pre.rows()[i]);
        }
    }

    /// Appending a fresh entry moves no existing lookup, and the new key
    /// reads the new entry.
    pub proof fn lemma_push_keeps_lookups(pre: ObjectStore, post: ObjectStore, e: EntryModel)
        requires
            pre.wf(),
            post.wf(),
            !pre.contains_key(e.key),
            post.rows() == pre.rows().push(e),
        ensures
            post.contains_key(e.key),
            post.index_of(e.key) == pre.rows().len(),
            post.value_of(e.key) == e.value,
            post.is_borrowed(e.key) == e.borrowed,
            forall|k: Seq<char>|
                k != e.key ==> (#[trigger] post.contains_key(k) <==> pre.contains_key(k)),
            forall|k: Seq<char>|
                k != e.key && pre.contains_key(k) ==> #[trigger] post.index_of(k)
                    == pre.index_of(k),
            forall|k: Seq<char>|
                k != e.key && pre.contains_key(k) ==> #[trigger] post.value_of(k)
                    == pre.value_of(k),
            forall|k: Seq<char>|
                k != e.key && pre.contains_key(k) ==> #[trigger] post.is_borrowed(k)
                    == pre.is_borrowed(k),
    {
        let n = pre.rows().len() as int;
        assert(post.rows()[n] == e);
        Self::lemma_row_lookup(post, n);
        assert forall|k: Seq<char>| k != e.key implies (#[trigger] post.contains_key(k)
            <==> pre.contains_key(k)) by {
            if pre.contains_key(k) {
                let i = pre.index_of(k);
                assert(pre.rows()[i].key == k);
                assert(post.rows()[i].key == k);
                assert(post.contains_key(k));
            }
            if post.contains_key(k) {
                let i = post.index_of(k);
                assert(post.rows()[i].key == k);
                assert(i != n);
                assert(pre.rows()[i].key == k);
                assert(pre.contains_key(k));
            }
        }
        assert forall|k: Seq<char>| k != e.key && pre.contains_key(k) implies #[trigger] post.index_of(
            k,
        ) == pre.index_of(k) && post.value_of(k) == pre.value_of(k) && post.is_borrowed(k)
            == pre.is_borrowed(k) by {
            let i = pre.index_of(k);
            assert(pre.rows()[i].key == k);
            assert(post.rows()[i].key == k);
            Self::lemma_row_lookup(post, i);
            Self::lemma_row_lookup(pre, i);
        }
    }

    /// Dropping one entry moves no other lookup.
    pub proof fn lemma_remove_keeps_lookups(pre: ObjectStore, post: ObjectStore, ri: int)
        requires
            pre.wf(),
            post.wf(),
            0 <= ri < pre.rows().len(),
            post.rows() == pre.rows().remove(ri),
        ensures
            !post.contains_key(pre.rows()[ri].key),
            forall|k: Seq<char>|
                k != pre.rows()[ri].key ==> (#[trigger] post.contains_key(k)
                    <==> pre.contains_key(k)),
            forall|k: Seq<char>|
                k != pre.rows()[ri].key && pre.contains_key(k) && pre.index_of(k) < ri
                    ==> #[trigger] post.index_of(k) == pre.index_of(k) && post.value_of(k)
                    == pre.value_of(k) && post.is_borrowed(k) == pre.is_borrowed(k),
    {
        let rk = pre.rows()[ri].key;
        if post.contains_key(rk) {
            let i = post.index_of(rk);
            assert(post.rows()[i].key == rk);
            if i < ri {
                assert(pre.rows()[i].key == rk);
                assert(false);
            } else {
                assert(pre.rows()[i + 1].key == rk);
                assert(false);
            }
        }
        assert forall|k: Seq<char>| k != rk implies (#[trigger] post.contains_key(k)
            <==> pre.contains_key(k)) by {
            if pre.contains_key(k) {
                let i = pre.index_of(k);
                assert(pre.rows()[i].key == k);
                assert(i != ri);
                if i < ri {
                    assert(post.rows()[i].key == k);
                } else {
                    assert(post.rows()[i - 1].key == k);
                }
                assert(post.contains_key(k));
            }
            if post.contains_key(k) {
                let i = post.index_of(k);
                assert(post.rows()[i].key == k);
                if i < ri {
                    assert(pre.rows()[i].key == k);
                } else {
                    assert(pre.rows()[i + 1].key == k);
                }
                assert(pre.contains_key(k));
            }
        }
        assert forall|k: Seq<char>|
            k != rk && pre.contains_key(k) && pre.index_of(k) < ri implies #[trigger] post.index_of(
            k,
        ) == pre.index_of(k) && post.value_of(k) == pre.value_of(k) && post.is_borrowed(k)
            == pre.is_borrowed(k) by {
            let i = pre.index_of(k);
            assert(pre.rows()[i].key == k);
            assert(post.rows()[i].key == k);
            Self::lemma_row_lookup(post, i);
            Self::lemma_row_lookup(pre, i);
        }
    }

    /// Adds a fresh entry. A key already present is refused, never
    /// overwritten: boot code inserts each object exactly once.
    pub fn insert(&mut self, key: String, value: ObjectValue) -> (r: Result<(), StoreError>)
        requires
            old(self).wf(),
        ensures
            final(self).wf(),
            match r {
                Ok(()) => !old(self).contains_key(key@) && final(self).rows() == old(self).rows().push(EntryModel { key: key@, value, borrowed: false }),
                Err(e) => e == StoreError::DuplicateKey && old(self).contains_key(key@) && final(self).rows() == old(self).rows(),
            },
    {
        let found = self.find(key.as_str());
        match found {
            Some(i) => {
                proof {
                    self.lemma_index_is(key@, i as int);
                }
                Err(StoreError::DuplicateKey)
            }
            None => {
                let ghost pre = self.rows();
                self.entries.push(Entry { key, value, borrowed: false });
                proof {
                    let n = pre.len() as int;
                    assert(self.rows() =~= pre.push(
                        EntryModel { key: key@, value, borrowed: false },
                    ));
                    assert forall|a: int, b: int|
                        0 <= a < b < self.entries@.len() implies self.entries@[a].key@
                        != self.entries@[b].key@ by {
                        if b < n {
                            assert(old(self).wf());
                        } else {
                            assert(pre[a].key == self.entries@[a].key@);
                        }
                    }
                }
                Ok(())
            }
        }
    }

    /// Deletes `key`'s entry, refusing a missing key or one whose guard is
    /// out. Used by test code for lifecycle symmetry.
    pub fn remove(&mut self, key: &str) -> (r: Result<ObjectValue, StoreError>)
        requires
            old(self).wf(),
        ensures
            final(self).wf(),
            match r {
                Ok(v) => old(self).contains_key(key@) && !old(self).is_borrowed(key@) && v == old(self).value_of(key@) && final(self).rows() == old(self).rows().remove(
                    old(self).index_of(key@),
                ),
                Err(StoreError::NoSuchKey) => !old(self).contains_key(key@) && final(self).rows()
                    == old(self).rows(),
                Err(StoreError::Borrowed) => old(self).contains_key(key@) && old(self).is_borrowed(key@) && final(self).rows() == old(self).rows(),
                Err(_) => false,
            },
    {
        let found = self.find(key);
        match found {
            None => Err(StoreError::NoSuchKey),
            Some(i) => {
                proof {
                    self.lemma_index_is(key@, i as int);
                }
                if self.entries[i].borrowed {
                    Err(StoreError::Borrowed)
                } else {
                    let ghost pre = self.rows();
                    let e = self.entries.remove(i);
                    proof {
                        assert(self.rows() =~= pre.remove(i as int));
                        assert forall|a: int, b: int|
                            0 <= a < b < self.entries@.len() implies self.entries@[a].key@
                            != self.entries@[b].key@ by {
                            if a < i as int {
                                if b < i as int {
                                    assert(old(self).entries@[a].key@ != old(
                                        self,
                                    ).entries@[b].key@);
                                } else {
                                    assert(old(self).entries@[a].key@ != old(self).entries@[b
                                        + 1].key@);
                                }
                            } else {
                                assert(old(self).entries@[a + 1].key@ != old(self).entries@[b
                                    + 1].key@);
                            }
                        }
                    }
                    Ok(e.value)
                }
            }
        }
    }

    /// A snapshot of every key, insertion order, for diagnostic display.
    pub fn keys(&self) -> (ks: Vec<String>)
        ensures
            ks.deep_view().len() == self.rows().len(),
            forall|i: int|
                0 <= i < self.rows().len() ==> #[trigger] ks.deep_view()[i] == self.rows()[i].key,
    {
        let mut ks: Vec<String> = Vec::new();
        let n = self.entries.len();
        let mut i: usize = 0;
        while i < n
            invariant
                n == self.entries@.len(),
                i <= n,
                ks.deep_view().len() == i,
                forall|j: int|
                    0 <= j < i ==> #[trigger] ks.deep_view()[j] == self.rows()[j].key,
            decreases n - i,
        {
            let k = self.entries[i].key.clone();
            let ghost before = ks.deep_view();
            ks.push(k);
            proof {
                assert(ks.deep_view() =~= before.push(k@));
                assert(self.rows()[i as int].key == self.entries@[i as int].key@);
            }
            i = i + 1;
        }
        ks
    }

    /// Takes the guard for `key`. A key whose guard is already out is
    /// rejected — two live views of one object are never granted — and a
    /// missing key is reported as such.
    pub fn checkout(&mut self, key: &str) -> (r: Result<Guard, StoreError>)
        requires
            old(self).wf(),
        ensures
            final(self).wf(),
            match r {
                Ok(g) => {
                    &&& old(self).contains_key(key@)
                    &&& !old(self).is_borrowed(key@)
                    &&& g.index() == old(self).index_of(key@)
                    &&& g.key_view() == key@
                    &&& final(self).rows() == old(self).rows().update(
                        g.index(),
                        EntryModel {
                            key: key@,
                            value: old(self).value_of(key@),
                            borrowed: true,
                        },
                    )
                    &&& final(self).holds(g)
                },
                Err(StoreError::NoSuchKey) => !old(self).contains_key(key@) && final(self).rows()
                    == old(self).rows(),
                Err(StoreError::Borrowed) => old(self).contains_key(key@) && old(self).is_borrowed(key@) && final(self).rows() == old(self).rows(),
                Err(_) => false,
            },
    {
        let found = self.find(key);
        match found {
            None => Err(StoreError::NoSuchKey),
            Some(i) => {
                proof {
                    self.lemma_index_is(key@, i as int);
                }
                if self.entries[i].borrowed {
                    Err(StoreError::Borrowed)
                } else {
                    let ghost pre = self.rows();
                    let e = &mut self.entries[i];
                    e.borrowed = true;
                    let g = Guard { idx: i, key: Ghost(e.key@) };
                    proof {
                        assert(self.rows() =~= pre.update(
                            i as int,
                            EntryModel {
                                key: key@,
                                value: pre[i as int].value,
                                borrowed: true,
                            },
                        ));
                        assert forall|a: int, b: int|
                            0 <= a < b < self.entries@.len() implies self.entries@[a].key@
                            != self.entries@[b].key@ by {
                            assert(old(self).entries@[a].key@ != old(self).entries@[b].key@);
                        }
                    }
                    Ok(g)
                }
            }
        }
    }

    /// Returns the guard, releasing `key` for the next checkout.
    pub fn checkin(&mut self, g: Guard)
        requires
            old(self).wf(),
            old(self).holds(g),
        ensures
            final(self).wf(),
            final(self).rows() == old(self).rows().update(
                g.index(),
                EntryModel {
                    key: g.key_view(),
                    value: old(self).rows()[g.index()].value,
                    borrowed: false,
                },
            ),
    {
        let ghost pre = self.rows();
        let e = &mut self.entries[g.idx];
        e.borrowed = false;
        proof {
            assert(self.rows() =~= pre.update(
                g.index(),
                EntryModel { key: g.key_view(), value: pre[g.index()].value, borrowed: false },
            ));
            assert forall|a: int, b: int|
                0 <= a < b < self.entries@.len() implies self.entries@[a].key@
                != self.entries@[b].key@ by {
                assert(old(self).entries@[a].key@ != old(self).entries@[b].key@);
            }
        }
    }

    /// Forces every guard open again, whatever was outstanding. This
    /// bypasses the store's one access rule; nothing but the fatal-error
    /// path may call it, and only so the panic report can still reach the
    /// console when the panic struck mid-borrow.
    pub fn reset_borrows(&mut self)
        requires
            old(self).wf(),
        ensures
            final(self).wf(),
            final(self).rows().len() == old(self).rows().len(),
            forall|i: int|
                0 <= i < old(self).rows().len() ==> #[trigger] final(self).rows()[i]
                    == (EntryModel {
                    key: old(self).rows()[i].key,
                    value: old(self).rows()[i].value,
                    borrowed: false,
                }),
    {
        let n = self.entries.len();
        let mut i: usize = 0;
        while i < n
            invariant
                n == self.entries@.len(),
                i <= n,
                forall|j: int|
                    0 <= j < n ==> (#[trigger] self.entries@[j]).key@ == old(self).entries@[j].key@ && self.entries@[j].value == old(self).entries@[j].value,
                forall|j: int| 0 <= j < i ==> !(#[trigger] self.entries@[j]).borrowed,
            decreases n - i,
        {
            let e = &mut self.entries[i];
            e.borrowed = false;
            i = i + 1;
        }
        proof {
            assert forall|a: int, b: int|
                0 <= a < b < self.entries@.len() implies self.entries@[a].key@
                != self.entries@[b].key@ by {
                assert(old(self).entries@[a].key@ != old(self).entries@[b].key@);
            }
            assert forall|j: int| 0 <= j < old(self).rows().len() implies #[trigger] self.rows()[j]
                == (EntryModel {
                key: old(self).rows()[j].key,
                value: old(self).rows()[j].value,
                borrowed: false,
            }) by {
                assert(self.entries@[j].key@ == old(self).entries@[j].key@);
            }
        }
    }

    /// Reads the checked-out entry's value.
    pub fn value_ref<'a>(&'a self, g: &Guard) -> (v: &'a ObjectValue)
        requires
            self.holds(*g),
        ensures
            *v == self.rows()[g.index()].value,
    {
        &self.entries[g.idx].value
    }

    /// Type-checked retrieval: the checked-out entry's terminal, or a
    /// loud error when the entry holds a value of another type.
    pub fn try_tty<'a>(&'a self, g: &Guard) -> (r: Result<&'a Tty, StoreError>)
        requires
            self.holds(*g),
        ensures
            match r {
                Ok(t) => self.rows()[g.index()].value.kind() == ObjectKind::Tty && *t
                    == self.rows()[g.index()].value.as_tty(),
                Err(e) => e == StoreError::TypeMismatch && self.rows()[g.index()].value.kind()
                    != ObjectKind::Tty,
            },
    {
        match &self.entries[g.idx].value {
            ObjectValue::Tty(t) => Ok(t),
            _ => Err(StoreError::TypeMismatch),
        }
    }

    /// The checked-out entry's terminal, for reading or writing in place;
    /// the type tag must match.
    pub fn tty_mut<'a>(&'a mut self, g: &Guard) -> (t: &'a mut Tty)
        requires
            old(self).wf(),
            old(self).holds(*g),
            old(self).rows()[g.index()].value.kind() == ObjectKind::Tty,
        ensures
            *t == old(self).rows()[g.index()].value.as_tty(),
            final(self).rows() == old(self).rows().update(
                g.index(),
                EntryModel {
                    key: g.key_view(),
                    value: ObjectValue::Tty(*final(t)),
                    borrowed: true,
                },
            ),
            final(self).wf(),
            final(self).holds(*g),
    {
        let e = &mut self.entries[g.idx];
        match &mut e.value {
            ObjectValue::Tty(t) => t,
            _ => unreached(),
        }
    }

    /// The checked-out entry's logger metadata table; the tag must match.
    pub fn meta_mut<'a>(&'a mut self, g: &Guard) -> (m: &'a mut ModuleMetaManager)
        requires
            old(self).wf(),
            old(self).holds(*g),
            old(self).rows()[g.index()].value.kind() == ObjectKind::LoggerMeta,
        ensures
            *m == old(self).rows()[g.index()].value.as_meta(),
            final(self).rows() == old(self).rows().update(
                g.index(),
                EntryModel {
                    key: g.key_view(),
                    value: ObjectValue::LoggerMeta(*final(m)),
                    borrowed: true,
                },
            ),
            final(self).wf(),
            final(self).holds(*g),
    {
        let e = &mut self.entries[g.idx];
        match &mut e.value {
            ObjectValue::LoggerMeta(m) => m,
            _ => unreached(),
        }
    }

    /// The checked-out entry's tick counter; the tag must match.
    pub fn time_mut<'a>(&'a mut self, g: &Guard) -> (t: &'a mut TimeProvider)
        requires
            old(self).wf(),
            old(self).holds(*g),
            old(self).rows()[g.index()].value.kind() == ObjectKind::Time,
        ensures
            *t == old(self).rows()[g.index()].value.as_time(),
            final(self).rows() == old(self).rows().update(
                g.index(),
                EntryModel {
                    key: g.key_view(),
                    value: ObjectValue::Time(*final(t)),
                    borrowed: true,
                },
            ),
            final(self).wf(),
            final(self).holds(*g),
    {
        let e = &mut self.entries[g.idx];
        match &mut e.value {
            ObjectValue::Time(t) => t,
            _ => unreached(),
        }
    }

    /// The checked-out entry's countdown task; the tag must match.
    pub fn counter_mut<'a>(&'a mut self, g: &Guard) -> (c: &'a mut CounterTask)
        requires
            old(self).wf(),
            old(self).holds(*g),
            old(self).rows()[g.index()].value.kind() == ObjectKind::Counter,
        ensures
            *c == old(self).rows()[g.index()].value.as_counter(),
            final(self).rows() == old(self).rows().update(
                g.index(),
                EntryModel {
                    key: g.key_view(),
                    value: ObjectValue::Counter(*final(c)),
                    borrowed: true,
                },
            ),
            final(self).wf(),
            final(self).holds(*g),
    {
        let e = &mut self.entries[g.idx];
        match &mut e.value {
            ObjectValue::Counter(c) => c,
            _ => unreached(),
        }
    }
}

/// An inserted key is found again: after a fresh insert, the key is
/// present, its guard is free, and the value looked up under it — with
/// its type tag — is exactly the value inserted.
pub proof fn lemma_insert_get_roundtrip(
    pre: ObjectStore,
    post: ObjectStore,
    key: Seq<char>,
    value: ObjectValue,
)
    requires
        pre.wf(),
        post.wf(),
        !pre.contains_key(key),
        post.rows() == pre.rows().push(EntryModel { key, value, borrowed: false }),
    ensures
        post.contains_key(key),
        post.value_of(key) == value,
        post.value_of(key).kind() == value.kind(),
        !post.is_borrowed(key),
{
    let n = pre.rows().len() as int;
    assert(post.rows()[n].key == key);
    assert(post.contains_key(key));
    let k = post.index_of(key);
    if k != n {
        assert(pre.rows()[k].key == key);
        assert(false);
    }
}

/// A checkout while the key's guard is already out is rejected — the
/// store never grants two live views — and rejection changes nothing.
pub proof fn lemma_double_checkout_rejected(
    pre: ObjectStore,
    post: ObjectStore,
    key: Seq<char>,
    r: Result<Guard, StoreError>,
)
    requires
        pre.contains_key(key),
        pre.is_borrowed(key),
        match r {
            Ok(g) => {
                &&& !pre.is_borrowed(key)
            },
            Err(StoreError::NoSuchKey) => !pre.contains_key(key) && post.rows() == pre.rows(),
            Err(StoreError::Borrowed) => pre.contains_key(key) && pre.is_borrowed(key)
                && post.rows() == pre.rows(),
            Err(_) => false,
        },
    ensures
        r == Err::<Guard, StoreError>(StoreError::Borrowed),
        post.rows() == pre.rows(),
{
}

} // verus!
