//! The delta between two recorded view states: windows added, removed and changed,
//! each list in the ascending key order of the state it comes from.
use vstd::prelude::*;

use crate::grouping::strictly_sorted;
use crate::text::{text_eq, utf8_len};
use crate::view_json::{delta_json_text, delta_text, utf8_byte_len};
use crate::view_state::{
    canon_view, state_keys, state_view, CanonView, CanonicalWindow, StateEntry, StateView,
    ViewErrorKind, MAX_DELTA_BYTES, MAX_DELTA_ENTRIES,
};

verus! {

/// Whether a state records a window under a key.
pub open spec fn key_in(s: StateView, k: Seq<char>) -> bool {
    state_keys(s).contains(k)
}

/// Whether a state records the key of an entry with another window state.
pub open spec fn differs_in(s: StateView, e: (Seq<char>, CanonView)) -> bool {
    exists|i: int| 0 <= i < s.len() && #[trigger] s[i].0 == e.0 && s[i].1 != e.1
}

/// Entries of the current state whose key the previous state lacks.
pub open spec fn added_of(p: StateView, c: StateView) -> StateView {
    c.filter(|e: (Seq<char>, CanonView)| !key_in(p, e.0))
}

/// Keys of the previous state that the current state lacks.
pub open spec fn removed_of(p: StateView, c: StateView) -> Seq<Seq<char>> {
    state_keys(p).filter(|k: Seq<char>| !key_in(c, k))
}

/// Entries of the current state whose key the previous state records with another state.
pub open spec fn changed_of(p: StateView, c: StateView) -> StateView {
    c.filter(|e: (Seq<char>, CanonView)| differs_in(p, e))
}

/// How many entries the delta between two states reports.
pub open spec fn delta_size(p: StateView, c: StateView) -> nat {
    added_of(p, c).len() + removed_of(p, c).len() + changed_of(p, c).len()
}

/// Bytes of the compact JSON encoding of the delta between two states.
pub open spec fn delta_bytes(p: StateView, c: StateView) -> nat {
    utf8_len(delta_text(added_of(p, c), removed_of(p, c), changed_of(p, c)))
}

/// Whether a delta reports exactly what changed between two states.
pub open spec fn delta_of(p: StateView, c: StateView, d: StateDelta) -> bool {
    &&& state_view(d.added@) == added_of(p, c)
    &&& text_views(d.removed@) == removed_of(p, c)
    &&& state_view(d.changed@) == changed_of(p, c)
}

/// What changed between two views.
#[derive(Debug)]
pub struct StateDelta {
    pub added: Vec<StateEntry>,
    pub removed: Vec<String>,
    pub changed: Vec<StateEntry>,
}

/// The plain values of a list of keys.
pub open spec fn text_views(s: Seq<String>) -> Seq<Seq<char>> {
    s.map_values(|t: String| t@)
}

impl StateDelta {
    /// The delta's compact JSON text, as its byte limit measures it.
    pub fn json_text(&self) -> (r: String)
        ensures
            r@ == delta_text(state_view(self.added@), text_views(self.removed@), state_view(self.changed@)),
    {
        delta_json_text(&self.added, &self.removed, &self.changed)
    }

    /// `entry_count`: the number of entries the delta reports.
    pub fn entry_count(&self) -> (r: usize)
        requires
            self.added.len() + self.removed.len() + self.changed.len() <= usize::MAX,
        ensures
            r == self.added.len() + self.removed.len() + self.changed.len(),
    {
        self.added.len() + self.removed.len() + self.changed.len()
    }
}

/// Whether two canonical windows hold the same values.
pub fn same_window(a: &CanonicalWindow, b: &CanonicalWindow) -> (r: bool)
    ensures
        r == (canon_view(*a) == canon_view(*b)),
{
    a.pid == b.pid && text_eq(a.app_name.as_str(), b.app_name.as_str()) && text_eq(
        a.process_instance.as_str(),
        b.process_instance.as_str(),
    ) && text_eq(a.title.as_str(), b.title.as_str()) && text_eq(
        a.presentation.as_str(),
        b.presentation.as_str(),
    )
}

impl CanonicalWindow {
    /// A copy with the same values.
    pub fn duplicate(&self) -> (r: Self)
        ensures
            canon_view(r) == canon_view(*self),
    {
        CanonicalWindow {
            app_name: self.app_name.clone(),
            pid: self.pid,
            process_instance: self.process_instance.clone(),
            title: self.title.clone(),
            presentation: self.presentation.clone(),
        }
    }
}

impl StateEntry {
    /// A copy with the same values.
    pub fn duplicate(&self) -> (r: Self)
        ensures
            r.key@ == self.key@,
            canon_view(r.window) == canon_view(self.window),
    {
        StateEntry { key: self.key.clone(), window: self.window.duplicate() }
    }
}

/// A copy of a recorded state.
pub fn copy_state(s: &Vec<StateEntry>) -> (r: Vec<StateEntry>)
    ensures
        state_view(r@) == state_view(s@),
{
    let mut r: Vec<StateEntry> = Vec::new();
    let mut i: usize = 0;
    while i < s.len()
        invariant
            i <= s.len(),
            state_view(r@) == state_view(s@.take(i as int)),
        decreases s.len() - i,
    {
        let e = s[i].duplicate();
        r.push(e);
        assert(state_view(s@.take(i + 1)) =~= state_view(s@.take(i as int)).push(
            (s@[i as int].key@, canon_view(s@[i as int].window)),
        ));
        assert(state_view(r@) =~= state_view(r@.drop_last()).push((e.key@, canon_view(e.window))));
        i = i + 1;
    }
    assert(s@.take(s.len() as int) =~= s@);
    r
}

/// The position of the first entry recorded under a key, if any.
fn find_key(s: &Vec<StateEntry>, key: &str) -> (r: Option<usize>)
    ensures
        match r {
            Some(j) => j < s.len() && s@[j as int].key@ == key@ && forall|q: int|
                0 <= q < j ==> (#[trigger] s@[q]).key@ != key@,
            None => !key_in(state_view(s@), key@),
        },
{
    let mut j: usize = 0;
    while j < s.len()
        invariant
            j <= s.len(),
            forall|q: int| 0 <= q < j ==> (#[trigger] s@[q]).key@ != key@,
        decreases s.len() - j,
    {
        if text_eq(s[j].key.as_str(), key) {
            return Some(j);
        }
        j = j + 1;
    }
    proof {
        let ks = state_keys(state_view(s@));
        if ks.contains(key@) {
            let q = choose|q: int| 0 <= q < ks.len() && ks[q] == key@;
            assert(s@[q].key@ == key@);
        }
    }
    None
}

/// `view_delta::diff`: what was added, removed and changed between a previous and a
/// current state; refused when it would report more than `MAX_DELTA_ENTRIES` entries or
/// its JSON encoding would exceed `MAX_DELTA_BYTES` bytes.
pub fn diff(previous: &Vec<StateEntry>, current: &Vec<StateEntry>) -> (r: Result<
    StateDelta,
    ViewErrorKind,
>)
    requires
        strictly_sorted(state_keys(state_view(previous@))),
    ensures
        ({
            let p = state_view(previous@);
            let c = state_view(current@);
            &&& r is Err <==> (delta_size(p, c) > MAX_DELTA_ENTRIES || delta_bytes(p, c) > MAX_DELTA_BYTES)
            &&& r matches Err(k) ==> k == ViewErrorKind::DeltaLimit
            &&& r matches Ok(d) ==> delta_of(p, c, d)
        }),
{
    let ghost p = state_view(previous@);
    let ghost c = state_view(current@);
    let mut added: Vec<StateEntry> = Vec::new();
    let mut changed: Vec<StateEntry> = Vec::new();
    let mut i: usize = 0;
    while i < current.len()
        invariant
            i <= current.len(),
            p == state_view(previous@),
            c == state_view(current@),
            strictly_sorted(state_keys(p)),
            state_view(added@) == added_of(p, c.take(i as int)),
            state_view(changed@) == changed_of(p, c.take(i as int)),
        decreases current.len() - i,
    {
        let ghost e = c[i as int];
        proof {
            reveal(Seq::filter);
            assert(c.take(i + 1).drop_last() =~= c.take(i as int));
            assert(c.take(i + 1).last() == e);
        }
        let entry = &current[i];
        match find_key(previous, entry.key.as_str()) {
            None => {
                let copy = entry.duplicate();
                added.push(copy);
                assert(state_view(added@) =~= state_view(added@.drop_last()).push(e));
                assert(!differs_in(p, e)) by {
                    if differs_in(p, e) {
                        let q = choose|q: int| 0 <= q < p.len() && #[trigger] p[q].0 == e.0 && p[q].1 != e.1;
                        assert(state_keys(p)[q] == e.0);
                    }
                }
                assert(added_of(p, c.take(i + 1)) == added_of(p, c.take(i as int)).push(e));
                assert(changed_of(p, c.take(i + 1)) == changed_of(p, c.take(i as int)));
            },
            Some(j) => {
                proof {
                    assert(state_keys(p)[j as int] == e.0);
                }
                if !same_window(&previous[j].window, &entry.window) {
                    let copy = entry.duplicate();
                    changed.push(copy);
                    assert(state_view(changed@) =~= state_view(changed@.drop_last()).push(e));
                    assert(p[j as int].0 == e.0);
                    assert(differs_in(p, e));
                    assert(key_in(p, e.0));
                    assert(added_of(p, c.take(i + 1)) == added_of(p, c.take(i as int)));
                    assert(changed_of(p, c.take(i + 1)) == changed_of(p, c.take(i as int)).push(e));
                } else {
                    assert(!differs_in(p, e)) by {
                        if differs_in(p, e) {
                            let q = choose|q: int| 0 <= q < p.len() && #[trigger] p[q].0 == e.0 && p[q].1 != e.1;
                            if q != j {
                                let ks = state_keys(p);
                                assert(ks[q] == ks[j as int]);
                                if q < j {
                                    assert(crate::text::chars_lt(ks[q], ks[j as int]));
                                } else {
                                    assert(crate::text::chars_lt(ks[j as int], ks[q]));
                                }
                                crate::text::lemma_chars_lt_irreflexive(ks[q]);
                            }
                        }
                    }
                    assert(key_in(p, e.0));
                    assert(added_of(p, c.take(i + 1)) == added_of(p, c.take(i as int)));
                    assert(changed_of(p, c.take(i + 1)) == changed_of(p, c.take(i as int)));
                }
            },
        }
        i = i + 1;
    }
    assert(c.take(current.len() as int) =~= c);
    let mut removed: Vec<String> = Vec::new();
    let mut j: usize = 0;
    let ghost pk = state_keys(p);
    while j < previous.len()
        invariant
            j <= previous.len(),
            p == state_view(previous@),
            c == state_view(current@),
            pk == state_keys(p),
            text_views(removed@) == pk.take(j as int).filter(|k: Seq<char>| !key_in(c, k)),
        decreases previous.len() - j,
    {
        proof {
            reveal(Seq::filter);
            assert(pk.take(j + 1).drop_last() =~= pk.take(j as int));
            assert(pk.take(j + 1).last() == previous@[j as int].key@);
        }
        let key = &previous[j].key;
        match find_key(current, key.as_str()) {
            None => {
                removed.push(key.clone());
                assert(text_views(removed@) =~= text_views(removed@.drop_last()).push(key@));
                assert(pk.take(j + 1).filter(|k: Seq<char>| !key_in(c, k)) == pk.take(
                    j as int,
                ).filter(|k: Seq<char>| !key_in(c, k)).push(key@));
            },
            Some(q) => {
                assert(state_keys(c)[q as int] == key@);
                assert(pk.take(j + 1).filter(|k: Seq<char>| !key_in(c, k)) == pk.take(
                    j as int,
                ).filter(|k: Seq<char>| !key_in(c, k)));
            },
        }
        j = j + 1;
    }
    assert(pk.take(previous.len() as int) =~= pk);
    let na = added.len();
    let nr = removed.len();
    let nc = changed.len();
    if na > MAX_DELTA_ENTRIES || nr > MAX_DELTA_ENTRIES - na || nc > MAX_DELTA_ENTRIES - na - nr {
        return Err(ViewErrorKind::DeltaLimit);
    }
    let text = delta_json_text(&added, &removed, &changed);
    if utf8_byte_len(text.as_str()) > MAX_DELTA_BYTES {
        return Err(ViewErrorKind::DeltaLimit);
    }
    Ok(StateDelta { added, removed, changed })
}

/// Whether two recorded states hold the same values.
pub fn same_state(a: &Vec<StateEntry>, b: &Vec<StateEntry>) -> (r: bool)
    ensures
        r == (state_view(a@) == state_view(b@)),
{
    if a.len() != b.len() {
        return false;
    }
    let mut i: usize = 0;
    while i < a.len()
        invariant
            i <= a.len(),
            a.len() == b.len(),
            forall|q: int| 0 <= q < i ==> state_view(a@)[q] == #[trigger] state_view(b@)[q],
        decreases a.len() - i,
    {
        if !text_eq(a[i].key.as_str(), b[i].key.as_str()) || !same_window(&a[i].window, &b[i].window) {
            assert(state_view(a@)[i as int] != state_view(b@)[i as int]);
            return false;
        }
        i = i + 1;
    }
    assert(state_view(a@) =~= state_view(b@));
    true
}



/// Two observations of the same state have an empty delta.
pub proof fn lemma_identical_states_have_empty_delta(s: StateView)
    requires
        strictly_sorted(state_keys(s)),
    ensures
        added_of(s, s).len() == 0,
        removed_of(s, s).len() == 0,
        changed_of(s, s).len() == 0,
        delta_size(s, s) == 0,
{
    let pa = |e: (Seq<char>, CanonView)| !key_in(s, e.0);
    let pr = |k: Seq<char>| !key_in(s, k);
    let pc = |e: (Seq<char>, CanonView)| differs_in(s, e);
    if added_of(s, s).len() > 0 {
        s.filter_lemma(pa);
        let x = added_of(s, s)[0];
        assert(added_of(s, s).contains(x));
        s.lemma_filter_contains_rev(pa, x);
        let j = choose|j: int| 0 <= j < s.len() && s[j] == x;
        assert(state_keys(s)[j] == x.0);
    }
    let ks = state_keys(s);
    if removed_of(s, s).len() > 0 {
        ks.filter_lemma(pr);
        let x = removed_of(s, s)[0];
        assert(removed_of(s, s).contains(x));
        ks.lemma_filter_contains_rev(pr, x);
    }
    if changed_of(s, s).len() > 0 {
        s.filter_lemma(pc);
        let x = changed_of(s, s)[0];
        assert(changed_of(s, s).contains(x));
        s.lemma_filter_contains_rev(pc, x);
        let j = choose|j: int| 0 <= j < s.len() && s[j] == x;
        let q = choose|q: int| 0 <= q < s.len() && #[trigger] s[q].0 == x.0 && s[q].1 != x.1;
        assert(q != j);
        assert(ks[q] == ks[j]);
        if q < j {
            assert(crate::text::chars_lt(ks[q], ks[j]));
        } else {
            assert(crate::text::chars_lt(ks[j], ks[q]));
        }
        crate::text::lemma_chars_lt_irreflexive(ks[q]);
    }
}

} // verus!
