//! The snapshot store: the registry of the most recently committed window
//! records, keyed by window id, together with the UI-window flag that shares
//! its exclusion discipline. A commit replaces the whole mapping at once, so
//! a reader always sees the records of one completed cycle, never a mix.

use vstd::prelude::*;

verus! {

use crate::types::Window;

/// The mapping that a sequence of window records denotes: each record keyed
/// by its id, later records overriding earlier ones.
pub open spec fn map_of_seq(s: Seq<Window>) -> Map<u32, Window>
    decreases s.len(),
{
    if s.len() == 0 {
        Map::empty()
    } else {
        map_of_seq(s.drop_last()).insert(s.last().id, s.last())
    }
}

/// No two records in the sequence share a window id.
pub open spec fn distinct_ids(s: Seq<Window>) -> bool {
    forall|i: int, j: int| 0 <= i < j < s.len() ==> s[i].id != s[j].id
}

/// A key is in the denoted mapping exactly when some record carries it.
pub proof fn lemma_map_of_seq_dom(s: Seq<Window>, k: u32)
    ensures
        map_of_seq(s).contains_key(k) <==> exists|i: int| 0 <= i < s.len() && s[i].id == k,
    decreases s.len(),
{
    if s.len() > 0 {
        lemma_map_of_seq_dom(s.drop_last(), k);
        if s.last().id == k {
            assert(s[s.len() - 1].id == k);
        } else if map_of_seq(s).contains_key(k) {
            let i = choose|i: int| 0 <= i < s.drop_last().len() && s.drop_last()[i].id == k;
            assert(s[i].id == k);
        } else if exists|i: int| 0 <= i < s.len() && s[i].id == k {
            let i = choose|i: int| 0 <= i < s.len() && s[i].id == k;
            assert(s.drop_last()[i].id == k);
        }
    }
}

/// Whatever the mapping holds under a key is one of the records carrying it.
pub proof fn lemma_map_of_seq_get(s: Seq<Window>, k: u32)
    requires
        map_of_seq(s).contains_key(k),
    ensures
        exists|i: int| 0 <= i < s.len() && s[i].id == k && map_of_seq(s)[k] == s[i],
    decreases s.len(),
{
    if s.len() > 0 {
        if s.last().id == k {
            assert(s[s.len() - 1].id == k && map_of_seq(s)[k] == s[s.len() - 1]);
        } else {
            lemma_map_of_seq_get(s.drop_last(), k);
            let i = choose|i: int|
                0 <= i < s.drop_last().len() && s.drop_last()[i].id == k && map_of_seq(
                    s.drop_last(),
                )[k] == s.drop_last()[i];
            assert(s[i].id == k && map_of_seq(s)[k] == s[i]);
        }
    }
}

/// With distinct ids, the mapping holds each record under its own id.
pub proof fn lemma_map_of_seq_index(s: Seq<Window>, i: int)
    requires
        distinct_ids(s),
        0 <= i < s.len(),
    ensures
        map_of_seq(s).contains_key(s[i].id),
        map_of_seq(s)[s[i].id] == s[i],
    decreases s.len(),
{
    lemma_map_of_seq_dom(s, s[i].id);
    lemma_map_of_seq_get(s, s[i].id);
    let j = choose|j: int| 0 <= j < s.len() && s[j].id == s[i].id && map_of_seq(s)[s[i].id] == s[j];
    assert(j == i);
}

/// With distinct ids, the mapping has exactly one key per record.
pub proof fn lemma_map_of_seq_len(s: Seq<Window>)
    requires
        distinct_ids(s),
    ensures
        map_of_seq(s).dom().finite(),
        map_of_seq(s).dom().len() == s.len(),
    decreases s.len(),
{
    if s.len() > 0 {
        lemma_map_of_seq_len(s.drop_last());
        lemma_map_of_seq_dom(s.drop_last(), s.last().id);
        assert forall|i: int|
            0 <= i < s.drop_last().len() implies s.drop_last()[i].id != s.last().id by {
            assert(s.drop_last()[i] == s[i]);
            assert(s[i].id != s[s.len() - 1].id);
        }
        assert(!map_of_seq(s.drop_last()).contains_key(s.last().id));
    }
}

/// Replacing the record that carries a key rewrites that key alone.
proof fn lemma_map_of_seq_update(s: Seq<Window>, i: int, w: Window)
    requires
        distinct_ids(s),
        0 <= i < s.len(),
        s[i].id == w.id,
    ensures
        map_of_seq(s.update(i, w)) == map_of_seq(s).insert(w.id, w),
    decreases s.len(),
{
    let t = s.update(i, w);
    if i == s.len() - 1 {
        assert(t.drop_last() =~= s.drop_last());
        assert(t.last() == w);
        assert(map_of_seq(s).insert(w.id, w) =~= map_of_seq(s.drop_last()).insert(w.id, w));
    } else {
        assert(t.drop_last() =~= s.drop_last().update(i, w));
        assert(t.last() == s.last());
        lemma_map_of_seq_update(s.drop_last(), i, w);
        assert(s.drop_last()[i] == s[i]);
        assert(s.last().id != w.id);
        assert(map_of_seq(s.drop_last()).insert(w.id, w).insert(s.last().id, s.last())
            =~= map_of_seq(s.drop_last()).insert(s.last().id, s.last()).insert(w.id, w));
    }
}

/// The committed registry: window id to the most recently committed record.
pub struct WindowMap {
    entries: Vec<Window>,
}

impl View for WindowMap {
    type V = Map<u32, Window>;

    closed spec fn view(&self) -> Map<u32, Window> {
        map_of_seq(self.entries@)
    }
}

impl WindowMap {
    /// Well-formed: no two entries share a window id.
    pub closed spec fn wf(self) -> bool {
        distinct_ids(self.entries@)
    }

    /// An empty registry.
    pub fn new() -> (m: WindowMap)
        ensures
            m.wf(),
            m@ == Map::<u32, Window>::empty(),
    {
        WindowMap { entries: Vec::new() }
    }

    /// How many windows are registered.
    pub fn len(&self) -> (n: usize)
        requires
            self.wf(),
        ensures
            n == self@.dom().len(),
    {
        proof {
            lemma_map_of_seq_len(self.entries@);
        }
        self.entries.len()
    }

    /// Insert or replace the record under its own id.
    pub fn insert(&mut self, w: Window)
        requires
            old(self).wf(),
        ensures
            final(self).wf(),
            final(self)@ == old(self)@.insert(w.id, w),
    {
        let ghost orig = self.entries@;
        let n = self.entries.len();
        let mut i: usize = 0;
        while i < n
            invariant
                n == self.entries.len(),
                i <= n,
                orig == old(self).entries@,
                self.entries@ == orig,
                distinct_ids(orig),
                forall|j: int| 0 <= j < i ==> orig[j].id != w.id,
            decreases n - i,
        {
            if self.entries[i].id == w.id {
                self.entries.set(i, w);
                proof {
                    let t = orig.update(i as int, w);
                    assert(self.entries@ == t);
                    lemma_map_of_seq_update(orig, i as int, w);
                    assert forall|p: int, q: int| 0 <= p < q < t.len() implies t[p].id
                        != t[q].id by {
                        assert(orig[p].id != orig[q].id);
                        assert(t[p].id == orig[p].id && t[q].id == orig[q].id);
                    }
                }
                return ;
            }
            i += 1;
        }
        self.entries.push(w);
        proof {
            let t = orig.push(w);
            assert(t.drop_last() =~= orig);
            assert forall|p: int, q: int| 0 <= p < q < t.len() implies t[p].id != t[q].id by {
                if q < t.len() - 1 {
                    assert(t[p] == orig[p] && t[q] == orig[q]);
                } else {
                    assert(t[p] == orig[p] && t[q] == w);
                }
            }
        }
    }

    /// The last committed record for an id, if the id is registered.
    pub fn get(&self, id: u32) -> (r: Option<&Window>)
        requires
            self.wf(),
        ensures
            match r {
                Some(w) => self@.contains_key(id) && *w == self@[id],
                None => !self@.contains_key(id),
            },
    {
        let n = self.entries.len();
        let mut i: usize = 0;
        while i < n
            invariant
                n == self.entries.len(),
                i <= n,
                distinct_ids(self.entries@),
                forall|j: int| 0 <= j < i ==> self.entries@[j].id != id,
            decreases n - i,
        {
            if self.entries[i].id == id {
                proof {
                    lemma_map_of_seq_index(self.entries@, i as int);
                }
                return Some(&self.entries[i]);
            }
            i += 1;
        }
        proof {
            lemma_map_of_seq_dom(self.entries@, id);
        }
        None
    }
}

/// Merge a cycle's changed and unchanged records into the registry that the
/// cycle commits: every captured window under its id, the changed records
/// first, exactly as the capture's partition produced them.
pub fn reconcile(changed: Vec<Window>, unchanged: Vec<Window>) -> (m: WindowMap)
    ensures
        m.wf(),
        m@ == map_of_seq(changed@ + unchanged@),
{
    let ghost all = changed@ + unchanged@;
    let n1 = changed.len();
    let n2 = unchanged.len();
    let mut m = WindowMap::new();
    let mut rest = changed;
    let mut i: usize = 0;
    proof {
        assert(all.take(n1 as int) =~= changed@);
        assert(all.take(n1 as int).skip(0) =~= changed@);
        assert(all.take(0) =~= Seq::<Window>::empty());
    }
    while i < n1
        invariant
            m.wf(),
            i <= n1,
            n1 as int + n2 as int == all.len(),
            rest@ == all.take(n1 as int).skip(i as int),
            m@ == map_of_seq(all.take(i as int)),
        decreases n1 - i,
    {
        proof {
            assert(rest@.len() == n1 - i);
        }
        let w = rest.remove(0);
        proof {
            assert(w == all.take(n1 as int)[i as int]);
            assert(w == all[i as int]);
            assert(rest@ =~= all.take(n1 as int).skip(i + 1));
            assert(all.take(i + 1).drop_last() =~= all.take(i as int));
            assert(all.take(i + 1).last() == all[i as int]);
        }
        m.insert(w);
        i += 1;
    }
    let mut rest2 = unchanged;
    let mut j: usize = 0;
    proof {
        assert(all.skip(n1 as int) =~= unchanged@);
    }
    while j < n2
        invariant
            m.wf(),
            j <= n2,
            n1 as int + n2 as int == all.len(),
            rest2@ == all.skip(n1 as int + j as int),
            m@ == map_of_seq(all.take(n1 as int + j as int)),
        decreases n2 - j,
    {
        let ghost k = n1 as int + j as int;
        proof {
            assert(rest2@.len() == all.len() - k);
        }
        let w = rest2.remove(0);
        proof {
            assert(w == all[k]);
            assert(rest2@ =~= all.skip(k + 1));
            assert(all.take(k + 1).drop_last() =~= all.take(k));
            assert(all.take(k + 1).last() == all[k]);
        }
        m.insert(w);
        j += 1;
    }
    proof {
        assert(all.take(all.len() as int) =~= all);
    }
    m
}

/// The process-wide shared state: the committed window registry and the flag
/// for the single UI window, both meant to sit behind one exclusion primitive
/// so that a reader observes them together and consistently.
pub struct State {
    windows: WindowMap,
    window_open: bool,
}

impl State {
    /// Well-formed: the registry keeps one entry per window id.
    pub closed spec fn wf(self) -> bool {
        self.windows.wf()
    }

    /// The committed window mapping.
    pub closed spec fn snapshot(self) -> Map<u32, Window> {
        self.windows@
    }

    /// Whether the UI window is currently open.
    pub closed spec fn ui_open(self) -> bool {
        self.window_open
    }

    /// Fresh state: nothing committed, UI window closed.
    pub fn new() -> (s: State)
        ensures
            s.wf(),
            s.snapshot() == Map::<u32, Window>::empty(),
            !s.ui_open(),
    {
        State { windows: WindowMap::new(), window_open: false }
    }

    /// Atomically replace the whole window mapping with a cycle's result.
    /// A window absent from the new registry is thereby evicted.
    pub fn commit(&mut self, new_windows: WindowMap)
        requires
            new_windows.wf(),
        ensures
            final(self).wf(),
            final(self).snapshot() == new_windows@,
            final(self).ui_open() == old(self).ui_open(),
    {
        self.windows = new_windows;
    }

    /// The last committed record for an id; `None` once a window has been
    /// evicted or when it was never seen.
    pub fn get(&self, id: u32) -> (r: Option<&Window>)
        requires
            self.wf(),
        ensures
            match r {
                Some(w) => self.snapshot().contains_key(id) && *w == self.snapshot()[id],
                None => !self.snapshot().contains_key(id),
            },
    {
        self.windows.get(id)
    }

    /// How many windows the last commit holds (the UI's read surface).
    pub fn window_count(&self) -> (n: usize)
        requires
            self.wf(),
        ensures
            n == self.snapshot().dom().len(),
    {
        self.windows.len()
    }

    /// Record that the UI window opened or closed.
    pub fn set_ui_open(&mut self, open: bool)
        ensures
            final(self).wf() == old(self).wf(),
            final(self).ui_open() == open,
            final(self).snapshot() == old(self).snapshot(),
    {
        self.window_open = open;
    }

    /// Whether the UI window is open (the UI's read surface).
    pub fn is_ui_open(&self) -> (b: bool)
        ensures
            b == self.ui_open(),
    {
        self.window_open
    }
}

} // verus!
