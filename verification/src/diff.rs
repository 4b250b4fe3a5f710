//! Change detection: partition a fresh capture against the last committed
//! snapshot into changed and unchanged windows, and the laws that the
//! partition and the commit built from it obey.

use vstd::prelude::*;

verus! {

use crate::store::{distinct_ids, lemma_map_of_seq_dom, lemma_map_of_seq_get, map_of_seq, State};
use crate::types::Window;

/// A captured window counts as changed when the store holds no record under
/// its id, or holds one whose fingerprint differs.
pub open spec fn is_changed(w: Window, prior: Map<u32, Window>) -> bool {
    !prior.contains_key(w.id) || prior[w.id].jpeg_metrohash != w.jpeg_metrohash
}

/// The changed part of a capture, in capture order.
pub open spec fn changed_of(s: Seq<Window>, prior: Map<u32, Window>) -> Seq<Window> {
    s.filter(|w: Window| is_changed(w, prior))
}

/// The unchanged part of a capture, in capture order.
pub open spec fn unchanged_of(s: Seq<Window>, prior: Map<u32, Window>) -> Seq<Window> {
    s.filter(|w: Window| !is_changed(w, prior))
}

/// The mapping a cycle commits: the capture's changed records, then its
/// unchanged records, each under its own id.
pub open spec fn committed_of(s: Seq<Window>, prior: Map<u32, Window>) -> Map<u32, Window> {
    map_of_seq(changed_of(s, prior) + unchanged_of(s, prior))
}

/// The ids that a sequence of window records carries.
pub open spec fn id_set(s: Seq<Window>) -> Set<u32> {
    Set::new(|id: u32| exists|i: int| 0 <= i < s.len() && s[i].id == id)
}

/// Partition a fresh capture against the store: windows the store has never
/// seen, or whose fingerprint differs, land in the first list; fingerprint
/// matches land in the second. Both keep capture order. Windows the store
/// knows but the capture lacks appear in neither, so the commit built from
/// this partition evicts them.
pub fn get_and_compare_windows(windows: Vec<Window>, state: &State) -> (r: (
    Vec<Window>,
    Vec<Window>,
))
    requires
        state.wf(),
    ensures
        r.0@ == changed_of(windows@, state.snapshot()),
        r.1@ == unchanged_of(windows@, state.snapshot()),
{
    let ghost orig = windows@;
    let ghost m = state.snapshot();
    let n = windows.len();
    let mut rest = windows;
    let mut changed: Vec<Window> = Vec::new();
    let mut unchanged: Vec<Window> = Vec::new();
    let mut i: usize = 0;
    proof {
        assert(orig.skip(0) =~= orig);
        assert(orig.take(0).filter(|w: Window| is_changed(w, m)) =~= Seq::<Window>::empty());
        assert(orig.take(0).filter(|w: Window| !is_changed(w, m)) =~= Seq::<Window>::empty());
    }
    while i < n
        invariant
            state.wf(),
            m == state.snapshot(),
            i <= n,
            n == orig.len(),
            rest@ == orig.skip(i as int),
            changed@ == changed_of(orig.take(i as int), m),
            unchanged@ == unchanged_of(orig.take(i as int), m),
        decreases n - i,
    {
        let w = rest.remove(0);
        proof {
            assert(orig.skip(i as int)[0] == orig[i as int]);
            assert(rest@ =~= orig.skip(i + 1));
        }
        let fresh = match state.get(w.id) {
            Some(last) => last.jpeg_metrohash != w.jpeg_metrohash,
            None => true,
        };
        proof {
            assert(fresh == is_changed(orig[i as int], m));
            assert(orig.take(i + 1) =~= orig.take(i as int).push(orig[i as int]));
            orig.take(i as int).lemma_filter_push(orig[i as int], |x: Window| is_changed(x, m));
            orig.take(i as int).lemma_filter_push(orig[i as int], |x: Window| !is_changed(x, m));
        }
        if fresh {
            changed.push(w);
        } else {
            unchanged.push(w);
        }
        i += 1;
    }
    proof {
        assert(orig.take(n as int) =~= orig);
    }
    (changed, unchanged)
}

/// Filtering keeps a sequence whole when every element passes.
proof fn lemma_all_pos_filter_id(s: Seq<Window>, pred: spec_fn(Window) -> bool)
    requires
        forall|i: int| 0 <= i < s.len() ==> #[trigger] pred(s[i]),
    ensures
        s.filter(pred) == s,
    decreases s.len(),
{
    reveal(Seq::filter);
    if s.len() > 0 {
        assert(forall|i: int| 0 <= i < s.drop_last().len() ==> #[trigger] pred(s.drop_last()[i]));
        lemma_all_pos_filter_id(s.drop_last(), pred);
        assert(pred(s.last()));
        assert(s.drop_last().push(s.last()) =~= s);
    }
}

/// Whatever list an element of the partition's concatenation came from, the
/// capture itself carries it at exactly one index.
proof fn lemma_partition_element(s: Seq<Window>, prior: Map<u32, Window>, j: int)
    requires
        0 <= j < (changed_of(s, prior) + unchanged_of(s, prior)).len(),
    ensures
        s.contains((changed_of(s, prior) + unchanged_of(s, prior))[j]),
{
    let c = changed_of(s, prior);
    let u = unchanged_of(s, prior);
    let x = (c + u)[j];
    if j < c.len() {
        assert(c[j] == x);
        assert(c.contains(x));
        s.lemma_filter_contains_rev(|w: Window| is_changed(w, prior), x);
    } else {
        assert(u[j - c.len()] == x);
        assert(u.contains(x));
        s.lemma_filter_contains_rev(|w: Window| !is_changed(w, prior), x);
    }
}

/// Law (partition completeness): for a capture with distinct ids, the changed
/// and the unchanged windows together carry exactly the captured ids, no id
/// is carried by both lists, and together they count every captured window.
pub proof fn lemma_partition_complete(s: Seq<Window>, prior: Map<u32, Window>)
    requires
        distinct_ids(s),
    ensures
        id_set(changed_of(s, prior)).union(id_set(unchanged_of(s, prior))) =~= id_set(s),
        id_set(changed_of(s, prior)).intersect(id_set(unchanged_of(s, prior))) =~= Set::<
            u32,
        >::empty(),
        changed_of(s, prior).len() + unchanged_of(s, prior).len() == s.len(),
{
    let c = changed_of(s, prior);
    let u = unchanged_of(s, prior);
    let pc = |w: Window| is_changed(w, prior);
    let pu = |w: Window| !is_changed(w, prior);
    lemma_partition_len(s, prior);
    assert forall|id: u32| id_set(c).union(id_set(u)).contains(id) implies id_set(s).contains(
        id,
    ) by {
        if id_set(c).contains(id) {
            let i = choose|i: int| 0 <= i < c.len() && c[i].id == id;
            assert(c.contains(c[i]));
            s.lemma_filter_contains_rev(pc, c[i]);
            let a = choose|a: int| 0 <= a < s.len() && s[a] == c[i];
            assert(s[a].id == id);
        } else {
            let i = choose|i: int| 0 <= i < u.len() && u[i].id == id;
            assert(u.contains(u[i]));
            s.lemma_filter_contains_rev(pu, u[i]);
            let a = choose|a: int| 0 <= a < s.len() && s[a] == u[i];
            assert(s[a].id == id);
        }
    }
    assert forall|id: u32| id_set(s).contains(id) implies id_set(c).union(id_set(u)).contains(
        id,
    ) by {
        let i = choose|i: int| 0 <= i < s.len() && s[i].id == id;
        if is_changed(s[i], prior) {
            s.lemma_filter_contains(pc, i);
            let j = choose|j: int| 0 <= j < c.len() && c[j] == s[i];
            assert(c[j].id == id);
        } else {
            s.lemma_filter_contains(pu, i);
            let j = choose|j: int| 0 <= j < u.len() && u[j] == s[i];
            assert(u[j].id == id);
        }
    }
    assert forall|id: u32|
        !(id_set(c).contains(id) && id_set(u).contains(id)) by {
        if id_set(c).contains(id) && id_set(u).contains(id) {
            let i = choose|i: int| 0 <= i < c.len() && c[i].id == id;
            let j = choose|j: int| 0 <= j < u.len() && u[j].id == id;
            s.lemma_filter_pred(pc, i);
            s.lemma_filter_pred(pu, j);
            assert(c.contains(c[i]));
            assert(u.contains(u[j]));
            s.lemma_filter_contains_rev(pc, c[i]);
            s.lemma_filter_contains_rev(pu, u[j]);
            let a = choose|a: int| 0 <= a < s.len() && s[a] == c[i];
            let b = choose|b: int| 0 <= b < s.len() && s[b] == u[j];
            assert(is_changed(s[a], prior) && !is_changed(s[b], prior));
            assert(a != b);
            assert(s[a].id == s[b].id);
            if a < b {
                assert(s[a].id != s[b].id);
            } else {
                assert(s[b].id != s[a].id);
            }
        }
    }
}

/// The partition never loses or duplicates a window: the two parts' lengths
/// always sum to the capture's.
proof fn lemma_partition_len(s: Seq<Window>, prior: Map<u32, Window>)
    ensures
        changed_of(s, prior).len() + unchanged_of(s, prior).len() == s.len(),
    decreases s.len(),
{
    if s.len() > 0 {
        lemma_partition_len(s.drop_last(), prior);
        s.drop_last().lemma_filter_push(s.last(), |w: Window| is_changed(w, prior));
        s.drop_last().lemma_filter_push(s.last(), |w: Window| !is_changed(w, prior));
        assert(s.drop_last().push(s.last()) =~= s);
    }
}

/// Law (eviction): an id that the capture does not carry is absent from the
/// mapping the cycle commits, whatever the store held before. A closed or
/// hidden window disappears with the commit; no separate eviction pass runs.
pub proof fn lemma_eviction(s: Seq<Window>, prior: Map<u32, Window>, id: u32)
    requires
        !id_set(s).contains(id),
    ensures
        !committed_of(s, prior).contains_key(id),
{
    let t = changed_of(s, prior) + unchanged_of(s, prior);
    lemma_map_of_seq_dom(t, id);
    if committed_of(s, prior).contains_key(id) {
        let j = choose|j: int| 0 <= j < t.len() && t[j].id == id;
        lemma_partition_element(s, prior, j);
        let a = choose|a: int| 0 <= a < s.len() && s[a] == t[j];
        assert(s[a].id == id);
    }
}

/// Law (idempotence): committing a capture and then capturing the same
/// content again — same ids, same fingerprints, however fresh the records —
/// finds nothing changed and everything unchanged on the second diff, so no
/// work is dispatched for stable content. Committing the very same capture
/// twice is the special case `s2 == s`.
pub proof fn lemma_idempotent(s: Seq<Window>, s2: Seq<Window>, prior: Map<u32, Window>)
    requires
        distinct_ids(s),
        s2.len() == s.len(),
        forall|i: int|
            0 <= i < s.len() ==> (#[trigger] s2[i]).id == s[i].id && s2[i].jpeg_metrohash
                == s[i].jpeg_metrohash,
    ensures
        changed_of(s2, committed_of(s, prior)) == Seq::<Window>::empty(),
        unchanged_of(s2, committed_of(s, prior)) == s2,
{
    let m = committed_of(s, prior);
    let c = changed_of(s, prior);
    let u = unchanged_of(s, prior);
    let t = c + u;
    assert forall|i: int| 0 <= i < s.len() implies m.contains_key((#[trigger] s[i]).id) && m[s[i].id]
        == s[i] by {
        let w = s[i];
        if is_changed(w, prior) {
            s.lemma_filter_contains(|x: Window| is_changed(x, prior), i);
            let k = choose|k: int| 0 <= k < c.len() && c[k] == w;
            assert(t[k] == w);
        } else {
            s.lemma_filter_contains(|x: Window| !is_changed(x, prior), i);
            let k = choose|k: int| 0 <= k < u.len() && u[k] == w;
            assert(t[c.len() + k] == w);
        }
        assert(exists|j: int| 0 <= j < t.len() && t[j].id == w.id) by {
            let j = choose|j: int| 0 <= j < t.len() && t[j] == w;
            assert(t[j].id == w.id);
        }
        lemma_map_of_seq_dom(t, w.id);
        lemma_map_of_seq_get(t, w.id);
        let j = choose|j: int| 0 <= j < t.len() && t[j].id == w.id && map_of_seq(t)[w.id] == t[j];
        lemma_partition_element(s, prior, j);
        let a = choose|a: int| 0 <= a < s.len() && s[a] == t[j];
        assert(a == i) by {
            if a < i {
                assert(s[a].id != s[i].id);
            } else if i < a {
                assert(s[i].id != s[a].id);
            }
        }
        assert(m[w.id] == w);
    }
    assert forall|i: int| 0 <= i < s2.len() implies !is_changed(#[trigger] s2[i], m) by {
        assert(m.contains_key(s[i].id) && m[s[i].id] == s[i]);
        assert(s2[i].id == s[i].id && s2[i].jpeg_metrohash == s[i].jpeg_metrohash);
    }
    s2.lemma_all_neg_filter_empty(|x: Window| is_changed(x, m));
    assert(changed_of(s2, m).len() == 0);
    assert(changed_of(s2, m) =~= Seq::<Window>::empty());
    lemma_all_pos_filter_id(s2, |x: Window| !is_changed(x, m));
}

/// Law (at-most-once embedding): a captured window whose fingerprint matches
/// the store's record under its id is not among the changed windows, and only
/// changed windows ever have an embedding request built for them.
pub proof fn lemma_unchanged_not_dispatched(s: Seq<Window>, prior: Map<u32, Window>, i: int)
    requires
        0 <= i < s.len(),
        prior.contains_key(s[i].id),
        prior[s[i].id].jpeg_metrohash == s[i].jpeg_metrohash,
    ensures
        !changed_of(s, prior).contains(s[i]),
{
    let c = changed_of(s, prior);
    if c.contains(s[i]) {
        let j = choose|j: int| 0 <= j < c.len() && c[j] == s[i];
        s.lemma_filter_pred(|x: Window| is_changed(x, prior), j);
        assert(is_changed(s[i], prior));
    }
}

} // verus!
