//! Grouping of two snapshots by semantic key and the per-group comparison of runtime
//! identities that decides which items were replaced, ended or started.
//!
//! Items are summarized by a semantic key (text) and an optional runtime identity
//! `(pid, process generation, native handle)`. Keys are visited in ascending text order,
//! as an ordered map would visit them.
use vstd::prelude::*;

use crate::text::{chars_less, chars_lt, lemma_chars_lt_asymmetric, lemma_chars_lt_irreflexive, lemma_chars_lt_total, lemma_chars_lt_transitive};

verus! {

/// A runtime identity as plain values: pid, process generation, native handle.
pub type IdentityView = Option<(u32, Seq<char>, Seq<char>)>;

/// A runtime identity: pid, process generation, and native handle (empty for apps).
pub struct RuntimeIdentity {
    pub pid: u32,
    pub instance: Vec<char>,
    pub handle: Vec<char>,
}

/// The plain values of an optional identity.
pub open spec fn identity_view(i: Option<RuntimeIdentity>) -> IdentityView {
    match i {
        Some(x) => Some((x.pid, x.instance@, x.handle@)),
        None => None,
    }
}

/// The plain values of a list of optional identities.
pub open spec fn identity_views(s: Seq<Option<RuntimeIdentity>>) -> Seq<IdentityView> {
    s.map_values(|i: Option<RuntimeIdentity>| identity_view(i))
}

/// The plain values of a list of keys.
pub open spec fn key_views(s: Seq<Vec<char>>) -> Seq<Seq<char>> {
    s.map_values(|k: Vec<char>| k@)
}

/// What a group comparison found: an item replaced by another, one that ended,
/// or one that started (indices into the previous and current lists).
#[derive(Clone, Copy, Debug, PartialEq, Eq)]
pub enum Change {
    Replaced(usize, usize),
    Exited(usize),
    Started(usize),
}

/// The positions, ascending, at which `keys` holds `k`.
pub open spec fn indices_with(keys: Seq<Seq<char>>, k: Seq<char>) -> Seq<usize>
    decreases keys.len(),
{
    if keys.len() == 0 {
        seq![]
    } else {
        let rest = indices_with(keys.drop_last(), k);
        if keys.last() == k {
            rest.push((keys.len() - 1) as usize)
        } else {
            rest
        }
    }
}

/// Some item at the listed positions of `ids` has identity `id`.
pub open spec fn has_match(id: IdentityView, ids: Seq<IdentityView>, idx: Seq<usize>) -> bool {
    exists|j: int| 0 <= j < idx.len() && ids[idx[j] as int] == id
}

/// Items of the previous group with no identity match in the current group, in order.
pub open spec fn exits(
    prev: Seq<IdentityView>,
    cur: Seq<IdentityView>,
    old: Seq<usize>,
    new: Seq<usize>,
) -> Seq<Change>
    decreases old.len(),
{
    if old.len() == 0 {
        seq![]
    } else {
        exits(prev, cur, old.drop_last(), new) + if has_match(
            prev[old.last() as int],
            cur,
            new,
        ) {
            Seq::<Change>::empty()
        } else {
            seq![Change::Exited(old.last())]
        }
    }
}

/// Items of the current group with no identity match in the previous group, in order.
pub open spec fn starts(
    prev: Seq<IdentityView>,
    cur: Seq<IdentityView>,
    old: Seq<usize>,
    new: Seq<usize>,
) -> Seq<Change>
    decreases new.len(),
{
    if new.len() == 0 {
        seq![]
    } else {
        starts(prev, cur, old, new.drop_last()) + if has_match(
            cur[new.last() as int],
            prev,
            old,
        ) {
            Seq::<Change>::empty()
        } else {
            seq![Change::Started(new.last())]
        }
    }
}

/// The changes of one group: a one-to-one group whose identity changed is a replacement;
/// otherwise every unmatched previous item ended and every unmatched current item started.
pub open spec fn group_changes(
    prev: Seq<IdentityView>,
    cur: Seq<IdentityView>,
    old: Seq<usize>,
    new: Seq<usize>,
) -> Seq<Change> {
    if old.len() == 1 && new.len() == 1 {
        if prev[old[0] as int] != cur[new[0] as int] {
            seq![Change::Replaced(old[0], new[0])]
        } else {
            seq![]
        }
    } else {
        exits(prev, cur, old, new) + starts(prev, cur, old, new)
    }
}

/// The changes of the listed keys, group after group.
pub open spec fn changes_over(
    pk: Seq<Seq<char>>,
    pi: Seq<IdentityView>,
    ck: Seq<Seq<char>>,
    ci: Seq<IdentityView>,
    keys: Seq<Seq<char>>,
) -> Seq<Change>
    decreases keys.len(),
{
    if keys.len() == 0 {
        seq![]
    } else {
        changes_over(pk, pi, ck, ci, keys.drop_last()) + group_changes(
            pi,
            ci,
            indices_with(pk, keys.last()),
            indices_with(ck, keys.last()),
        )
    }
}

/// Texts in strictly ascending order.
pub open spec fn strictly_sorted(ks: Seq<Seq<char>>) -> bool {
    forall|i: int, j: int| 0 <= i < j < ks.len() ==> chars_lt(#[trigger] ks[i], #[trigger] ks[j])
}

/// The keys of both lists, each once, ascending.
pub open spec fn is_key_order(ks: Seq<Seq<char>>, pk: Seq<Seq<char>>, ck: Seq<Seq<char>>) -> bool {
    &&& strictly_sorted(ks)
    &&& forall|x: Seq<char>| #[trigger] ks.contains(x) <==> (pk.contains(x) || ck.contains(x))
}

/// The ascending list of distinct keys of both lists.
pub open spec fn key_order(pk: Seq<Seq<char>>, ck: Seq<Seq<char>>) -> Seq<Seq<char>> {
    choose|ks: Seq<Seq<char>>| is_key_order(ks, pk, ck)
}

/// The changes between two summarized snapshots, group by group in key order.
pub open spec fn diff_changes(
    pk: Seq<Seq<char>>,
    pi: Seq<IdentityView>,
    ck: Seq<Seq<char>>,
    ci: Seq<IdentityView>,
) -> Seq<Change> {
    changes_over(pk, pi, ck, ci, key_order(pk, ck))
}

/// Two strictly ascending lists with the same members are equal.
pub proof fn lemma_sorted_unique(a: Seq<Seq<char>>, b: Seq<Seq<char>>)
    requires
        strictly_sorted(a),
        strictly_sorted(b),
        forall|x: Seq<char>| a.contains(x) <==> b.contains(x),
    ensures
        a == b,
    decreases a.len(),
{
    if a.len() == 0 {
        if b.len() > 0 {
            assert(b.contains(b[0]));
        }
        assert(a =~= b);
    } else {
        assert(a.contains(a[0]));
        let j = choose|j: int| 0 <= j < b.len() && b[j] == a[0];
        assert(b.contains(b[0]));
        let i = choose|i: int| 0 <= i < a.len() && a[i] == b[0];
        if j > 0 {
            assert(chars_lt(b[0], b[j]));
            if i > 0 {
                assert(chars_lt(a[0], a[i]));
                lemma_chars_lt_asymmetric(a[0], a[i]);
            } else {
                lemma_chars_lt_irreflexive(a[0]);
            }
        }
        assert(a[0] == b[0]);
        let ra = a.drop_first();
        let rb = b.drop_first();
        assert forall|x: Seq<char>| ra.contains(x) <==> rb.contains(x) by {
            if ra.contains(x) {
                let k = choose|k: int| 0 <= k < ra.len() && ra[k] == x;
                assert(a[k + 1] == x);
                assert(chars_lt(a[0], a[k + 1]));
                lemma_chars_lt_irreflexive(x);
                assert(b.contains(x));
                let m = choose|m: int| 0 <= m < b.len() && b[m] == x;
                assert(m != 0);
                assert(rb[m - 1] == x);
            }
            if rb.contains(x) {
                let k = choose|k: int| 0 <= k < rb.len() && rb[k] == x;
                assert(b[k + 1] == x);
                assert(chars_lt(b[0], b[k + 1]));
                lemma_chars_lt_irreflexive(x);
                assert(a.contains(x));
                let m = choose|m: int| 0 <= m < a.len() && a[m] == x;
                assert(m != 0);
                assert(ra[m - 1] == x);
            }
        }
        assert forall|p: int, q: int| 0 <= p < q < ra.len() implies chars_lt(
            #[trigger] ra[p],
            #[trigger] ra[q],
        ) by {
            assert(ra[p] == a[p + 1] && ra[q] == a[q + 1]);
        }
        assert forall|p: int, q: int| 0 <= p < q < rb.len() implies chars_lt(
            #[trigger] rb[p],
            #[trigger] rb[q],
        ) by {
            assert(rb[p] == b[p + 1] && rb[q] == b[q + 1]);
        }
        lemma_sorted_unique(ra, rb);
        assert(a =~= seq![a[0]] + ra);
        assert(b =~= seq![b[0]] + rb);
    }
}

/// Inserting into a list adds exactly the inserted element to its members.
pub proof fn lemma_insert_contains<A>(s: Seq<A>, pos: int, a: A)
    requires
        0 <= pos <= s.len(),
    ensures
        forall|x: A| #[trigger] s.insert(pos, a).contains(x) <==> (s.contains(x) || x == a),
{
    let n = s.insert(pos, a);
    assert forall|x: A| #[trigger] n.contains(x) <==> (s.contains(x) || x == a) by {
        if n.contains(x) {
            let j = choose|j: int| 0 <= j < n.len() && n[j] == x;
            if j < pos {
                assert(s[j] == x);
            } else if j > pos {
                assert(s[j - 1] == x);
            }
        }
        if s.contains(x) {
            let j = choose|j: int| 0 <= j < s.len() && s[j] == x;
            if j < pos {
                assert(n[j] == x);
            } else {
                assert(n[j + 1] == x);
            }
        }
        if x == a {
            assert(n[pos] == x);
        }
    }
}

/// A key placed after every smaller key and before the next larger one keeps a
/// strictly ascending list strictly ascending, and was not in it.
pub proof fn lemma_sorted_insert(ks: Seq<Seq<char>>, pos: int, k: Seq<char>)
    requires
        strictly_sorted(ks),
        0 <= pos <= ks.len(),
        forall|q: int| 0 <= q < pos ==> chars_lt(#[trigger] ks[q], k),
        pos < ks.len() ==> chars_lt(k, ks[pos]),
    ensures
        strictly_sorted(ks.insert(pos, k)),
        !ks.contains(k),
{
    let nk = ks.insert(pos, k);
    assert forall|a: int, b: int| 0 <= a < b < nk.len() implies chars_lt(#[trigger] nk[a], #[trigger] nk[b]) by {
        if b < pos {
            assert(nk[a] == ks[a] && nk[b] == ks[b]);
        } else if b == pos {
            assert(nk[a] == ks[a]);
        } else {
            assert(nk[b] == ks[b - 1]);
            if b - 1 > pos {
                assert(chars_lt(ks[pos], ks[b - 1]));
                lemma_chars_lt_transitive(k, ks[pos], ks[b - 1]);
            }
            if a < pos {
                assert(nk[a] == ks[a]);
                lemma_chars_lt_transitive(nk[a], k, nk[b]);
            } else if a > pos {
                assert(nk[a] == ks[a - 1]);
            }
        }
    }
    if ks.contains(k) {
        let j = choose|j: int| 0 <= j < ks.len() && ks[j] == k;
        if j < pos {
            lemma_chars_lt_irreflexive(k);
        } else if j == pos {
            lemma_chars_lt_irreflexive(k);
        } else {
            assert(chars_lt(ks[pos], ks[j]));
            lemma_chars_lt_asymmetric(k, ks[pos]);
        }
    }
}

/// Positions listed by `indices_with` are in range and hold the key.
pub proof fn lemma_indices_with_sound(keys: Seq<Seq<char>>, k: Seq<char>)
    requires
        keys.len() <= usize::MAX,
    ensures
        forall|j: int|
            0 <= j < indices_with(keys, k).len() ==> (#[trigger] indices_with(keys, k)[j])
                < keys.len() && keys[indices_with(keys, k)[j] as int] == k,
    decreases keys.len(),
{
    if keys.len() > 0 {
        lemma_indices_with_sound(keys.drop_last(), k);
        let rest = indices_with(keys.drop_last(), k);
        assert forall|j: int| 0 <= j < indices_with(keys, k).len() implies (
        #[trigger] indices_with(keys, k)[j]) < keys.len() && keys[indices_with(keys, k)[j] as int]
            == k by {
            if j < rest.len() {
                assert(indices_with(keys, k)[j] == rest[j]);
                assert(keys.drop_last()[rest[j] as int] == keys[rest[j] as int]);
            } else {
                assert(keys.last() == k);
                assert(indices_with(keys, k) == rest.push((keys.len() - 1) as usize));
                assert(indices_with(keys, k)[j] == keys.len() - 1);
            }
        }
    }
}

/// A key that does not occur has no positions.
pub proof fn lemma_indices_with_absent(keys: Seq<Seq<char>>, k: Seq<char>)
    requires
        !keys.contains(k),
    ensures
        indices_with(keys, k) == Seq::<usize>::empty(),
    decreases keys.len(),
{
    if keys.len() > 0 {
        assert(!keys.drop_last().contains(k)) by {
            if keys.drop_last().contains(k) {
                let j = choose|j: int| 0 <= j < keys.drop_last().len() && keys.drop_last()[j] == k;
                assert(keys[j] == k);
            }
        }
        assert(keys.last() != k) by {
            if keys.last() == k {
                assert(keys[keys.len() - 1] == k);
            }
        }
        lemma_indices_with_absent(keys.drop_last(), k);
    }
}

/// A group of items sharing a key: their positions in the previous and current lists.
struct Group {
    key: Vec<char>,
    old: Vec<usize>,
    new: Vec<usize>,
}

spec fn group_keys(g: Seq<Group>) -> Seq<Seq<char>> {
    g.map_values(|x: Group| x.key@)
}

/// The groups of the first items of both lists, in key order.
spec fn groups_ok(g: Seq<Group>, p: Seq<Seq<char>>, c: Seq<Seq<char>>) -> bool {
    &&& strictly_sorted(group_keys(g))
    &&& forall|x: Seq<char>| #[trigger] group_keys(g).contains(x) <==> (p.contains(x) || c.contains(x))
    &&& forall|i: int|
        0 <= i < g.len() ==> (#[trigger] g[i]).old@ == indices_with(p, g[i].key@) && g[i].new@
            == indices_with(c, g[i].key@)
}

proof fn lemma_indices_push_other(keys: Seq<Seq<char>>, k: Seq<char>, other: Seq<char>)
    requires
        k != other,
    ensures
        indices_with(keys.push(k), other) == indices_with(keys, other),
{
    assert(keys.push(k).drop_last() =~= keys);
}

proof fn lemma_indices_push_same(keys: Seq<Seq<char>>, k: Seq<char>)
    ensures
        indices_with(keys.push(k), k) == indices_with(keys, k).push(keys.len() as usize),
{
    assert(keys.push(k).drop_last() =~= keys);
}

/// Records position `index` of key `key` (in the previous list when `into_old`, else the
/// current one), keeping the groups in key order.
fn insert_index(
    groups: &mut Vec<Group>,
    key: &Vec<char>,
    index: usize,
    into_old: bool,
    p: Ghost<Seq<Seq<char>>>,
    c: Ghost<Seq<Seq<char>>>,
)
    requires
        groups_ok(old(groups)@, p@, c@),
        into_old ==> index == p@.len(),
        !into_old ==> index == c@.len(),
    ensures
        into_old ==> groups_ok(final(groups)@, p@.push(key@), c@),
        !into_old ==> groups_ok(final(groups)@, p@, c@.push(key@)),
{
    let ghost g0 = groups@;
    let ghost p2 = if into_old {
        p@.push(key@)
    } else {
        p@
    };
    let ghost c2 = if into_old {
        c@
    } else {
        c@.push(key@)
    };
    let mut pos: usize = 0;
    while pos < groups.len() && chars_less(&groups[pos].key, key)
        invariant
            pos <= groups.len(),
            groups@ == g0,
            forall|q: int| 0 <= q < pos ==> chars_lt(#[trigger] group_keys(g0)[q], key@),
        decreases groups.len() - pos,
    {
        pos = pos + 1;
    }
    let found = pos < groups.len() && crate::text::vec_chars_eq(&groups[pos].key, key);
    proof {
        assert(group_keys(g0).len() == g0.len());
    }
    if found {
        let mut g = groups.remove(pos);
        if into_old {
            g.old.push(index);
        } else {
            g.new.push(index);
        }
        groups.insert(pos, g);
        proof {
            assert(group_keys(groups@) =~= group_keys(g0));
            assert forall|i: int| 0 <= i < groups@.len() implies (#[trigger] groups@[i]).old@
                == indices_with(p2, groups@[i].key@) && groups@[i].new@ == indices_with(
                c2,
                groups@[i].key@,
            ) by {
                if i == pos {
                    if into_old {
                        lemma_indices_push_same(p@, key@);
                    } else {
                        lemma_indices_push_same(c@, key@);
                    }
                } else {
                    assert(groups@[i] == g0[i]);
                    assert(group_keys(g0)[i] != group_keys(g0)[pos as int]);
                    if into_old {
                        lemma_indices_push_other(p@, key@, g0[i].key@);
                    } else {
                        lemma_indices_push_other(c@, key@, g0[i].key@);
                    }
                }
            }
            assert forall|x: Seq<char>| #[trigger] group_keys(groups@).contains(x) <==> (
            p2.contains(x) || c2.contains(x)) by {
                if x == key@ {
                    assert(group_keys(g0)[pos as int] == x);
                    if into_old {
                        assert(p2[p2.len() - 1] == x);
                    } else {
                        assert(c2[c2.len() - 1] == x);
                    }
                }
                if p2.contains(x) && !p@.contains(x) {
                    let j = choose|j: int| 0 <= j < p2.len() && p2[j] == x;
                    assert(j == p@.len());
                }
                if c2.contains(x) && !c@.contains(x) {
                    let j = choose|j: int| 0 <= j < c2.len() && c2[j] == x;
                    assert(j == c@.len());
                }
                if p@.contains(x) {
                    let j = choose|j: int| 0 <= j < p@.len() && p@[j] == x;
                    assert(p2[j] == x);
                }
                if c@.contains(x) {
                    let j = choose|j: int| 0 <= j < c@.len() && c@[j] == x;
                    assert(c2[j] == x);
                }
            }
        }
    } else {
        let mut old_list: Vec<usize> = Vec::new();
        let mut new_list: Vec<usize> = Vec::new();
        if into_old {
            old_list.push(index);
        } else {
            new_list.push(index);
        }
        let g = Group { key: key.clone(), old: old_list, new: new_list };
        groups.insert(pos, g);
        proof {
            assert(!group_keys(g0).contains(key@)) by {
                if group_keys(g0).contains(key@) {
                    let j = choose|j: int| 0 <= j < g0.len() && group_keys(g0)[j] == key@;
                    if j < pos {
                        lemma_chars_lt_irreflexive(key@);
                    } else if j > pos {
                        assert(chars_lt(group_keys(g0)[pos as int], group_keys(g0)[j]));
                        lemma_chars_lt_total(group_keys(g0)[pos as int], key@);
                        lemma_chars_lt_asymmetric(key@, group_keys(g0)[pos as int]);
                    }
                }
            }
            assert(!p@.contains(key@));
            assert(!c@.contains(key@));
            lemma_indices_with_absent(p@, key@);
            lemma_indices_with_absent(c@, key@);
            lemma_indices_push_same(p@, key@);
            lemma_indices_push_same(c@, key@);
            let gk = group_keys(groups@);
            assert(gk =~= group_keys(g0).insert(pos as int, key@));
            if pos < g0.len() {
                lemma_chars_lt_total(group_keys(g0)[pos as int], key@);
                assert(group_keys(g0)[pos as int] != key@);
                assert(chars_lt(key@, group_keys(g0)[pos as int]));
            }
            assert forall|a: int, b: int| 0 <= a < b < gk.len() implies chars_lt(
                #[trigger] gk[a],
                #[trigger] gk[b],
            ) by {
                if a < pos && b < pos {
                    assert(gk[a] == group_keys(g0)[a] && gk[b] == group_keys(g0)[b]);
                } else if a < pos && b == pos {
                    assert(gk[a] == group_keys(g0)[a]);
                } else if a < pos && b > pos {
                    assert(gk[a] == group_keys(g0)[a] && gk[b] == group_keys(g0)[b - 1]);
                    if b - 1 > pos {
                        assert(chars_lt(group_keys(g0)[pos as int], group_keys(g0)[b - 1]));
                        lemma_chars_lt_transitive(key@, group_keys(g0)[pos as int], group_keys(g0)[b - 1]);
                    }
                    lemma_chars_lt_transitive(gk[a], key@, gk[b]);
                } else if a == pos {
                    assert(gk[b] == group_keys(g0)[b - 1]);
                    if b - 1 > pos {
                        assert(chars_lt(group_keys(g0)[pos as int], group_keys(g0)[b - 1]));
                        lemma_chars_lt_transitive(key@, group_keys(g0)[pos as int], group_keys(g0)[b - 1]);
                    }
                } else {
                    assert(gk[a] == group_keys(g0)[a - 1] && gk[b] == group_keys(g0)[b - 1]);
                }
            }
            assert forall|i: int| 0 <= i < groups@.len() implies (#[trigger] groups@[i]).old@
                == indices_with(p2, groups@[i].key@) && groups@[i].new@ == indices_with(
                c2,
                groups@[i].key@,
            ) by {
                if i == pos {
                    assert(groups@[i].old@ =~= indices_with(p2, key@));
                    assert(groups@[i].new@ =~= indices_with(c2, key@));
                } else {
                    let k = if i < pos { i } else { i - 1 };
                    assert(groups@[i] == g0[k]);
                    assert(group_keys(g0)[k] != key@) by {
                        assert(group_keys(g0).contains(group_keys(g0)[k]));
                    }
                    if into_old {
                        lemma_indices_push_other(p@, key@, g0[k].key@);
                    } else {
                        lemma_indices_push_other(c@, key@, g0[k].key@);
                    }
                }
            }
            assert forall|x: Seq<char>| #[trigger] gk.contains(x) <==> (p2.contains(x)
                || c2.contains(x)) by {
                if x == key@ {
                    assert(gk[pos as int] == x);
                    if into_old {
                        assert(p2[p2.len() - 1] == x);
                    } else {
                        assert(c2[c2.len() - 1] == x);
                    }
                } else {
                    if gk.contains(x) {
                        let j = choose|j: int| 0 <= j < gk.len() && gk[j] == x;
                        let k = if j < pos { j } else { j - 1 };
                        assert(group_keys(g0)[k] == x);
                        assert(group_keys(g0).contains(x));
                    }
                    if group_keys(g0).contains(x) {
                        let j = choose|j: int| 0 <= j < g0.len() && group_keys(g0)[j] == x;
                        let k = if j < pos { j } else { j + 1 };
                        assert(gk[k] == x);
                    }
                }
                if p2.contains(x) && !p@.contains(x) {
                    let j = choose|j: int| 0 <= j < p2.len() && p2[j] == x;
                    assert(j == p@.len());
                }
                if c2.contains(x) && !c@.contains(x) {
                    let j = choose|j: int| 0 <= j < c2.len() && c2[j] == x;
                    assert(j == c@.len());
                }
                if p@.contains(x) {
                    let j = choose|j: int| 0 <= j < p@.len() && p@[j] == x;
                    assert(p2[j] == x);
                }
                if c@.contains(x) {
                    let j = choose|j: int| 0 <= j < c@.len() && c@[j] == x;
                    assert(c2[j] == x);
                }
            }
        }
    }
}


fn build_groups(pk: &Vec<Vec<char>>, ck: &Vec<Vec<char>>) -> (g: Vec<Group>)
    ensures
        groups_ok(g@, key_views(pk@), key_views(ck@)),
{
    let mut groups: Vec<Group> = Vec::new();
    let ghost none = Seq::<Seq<char>>::empty();
    assert(groups_ok(groups@, key_views(pk@).take(0), none)) by {
        assert(group_keys(groups@) =~= Seq::<Seq<char>>::empty());
        assert(key_views(pk@).take(0) =~= Seq::<Seq<char>>::empty());
    }
    let mut i: usize = 0;
    while i < pk.len()
        invariant
            i <= pk.len(),
            groups_ok(groups@, key_views(pk@).take(i as int), none),
        decreases pk.len() - i,
    {
        insert_index(
            &mut groups,
            &pk[i],
            i,
            true,
            Ghost(key_views(pk@).take(i as int)),
            Ghost(none),
        );
        assert(key_views(pk@).take(i as int).push(pk@[i as int]@) =~= key_views(pk@).take(
            i + 1,
        ));
        i = i + 1;
    }
    assert(key_views(pk@).take(pk.len() as int) =~= key_views(pk@));
    assert(key_views(ck@).take(0) =~= none);
    let mut j: usize = 0;
    while j < ck.len()
        invariant
            j <= ck.len(),
            groups_ok(groups@, key_views(pk@), key_views(ck@).take(j as int)),
        decreases ck.len() - j,
    {
        insert_index(
            &mut groups,
            &ck[j],
            j,
            false,
            Ghost(key_views(pk@)),
            Ghost(key_views(ck@).take(j as int)),
        );
        assert(key_views(ck@).take(j as int).push(ck@[j as int]@) =~= key_views(ck@).take(
            j + 1,
        ));
        j = j + 1;
    }
    assert(key_views(ck@).take(ck.len() as int) =~= key_views(ck@));
    groups
}

fn same_identity(a: &Option<RuntimeIdentity>, b: &Option<RuntimeIdentity>) -> (r: bool)
    ensures
        r == (identity_view(*a) == identity_view(*b)),
{
    match (a, b) {
        (Some(x), Some(y)) => x.pid == y.pid && crate::text::vec_chars_eq(&x.instance, &y.instance)
            && crate::text::vec_chars_eq(&x.handle, &y.handle),
        (None, None) => true,
        _ => false,
    }
}

fn has_identity_match(
    id: &Option<RuntimeIdentity>,
    ids: &Vec<Option<RuntimeIdentity>>,
    idx: &Vec<usize>,
) -> (r: bool)
    requires
        forall|j: int| 0 <= j < idx.len() ==> #[trigger] idx@[j] < ids.len(),
    ensures
        r == has_match(identity_view(*id), identity_views(ids@), idx@),
{
    let mut j: usize = 0;
    while j < idx.len()
        invariant
            j <= idx.len(),
            forall|q: int| 0 <= q < idx.len() ==> #[trigger] idx@[q] < ids.len(),
            forall|q: int|
                0 <= q < j ==> identity_views(ids@)[#[trigger] idx@[q] as int] != identity_view(
                    *id,
                ),
        decreases idx.len() - j,
    {
        if same_identity(&ids[idx[j]], id) {
            assert(identity_views(ids@)[idx@[j as int] as int] == identity_view(*id));
            return true;
        }
        j = j + 1;
    }
    false
}

fn push_exits(
    pi: &Vec<Option<RuntimeIdentity>>,
    ci: &Vec<Option<RuntimeIdentity>>,
    olds: &Vec<usize>,
    news: &Vec<usize>,
    out: &mut Vec<Change>,
)
    requires
        forall|j: int| 0 <= j < olds.len() ==> #[trigger] olds@[j] < pi.len(),
        forall|j: int| 0 <= j < news.len() ==> #[trigger] news@[j] < ci.len(),
    ensures
        final(out)@ == old(out)@ + exits(identity_views(pi@), identity_views(ci@), olds@, news@),
{
    let ghost base = out@;
    let mut t: usize = 0;
    assert(olds@.take(0) =~= Seq::<usize>::empty());
    assert(base + Seq::<Change>::empty() =~= base);
    while t < olds.len()
        invariant
            t <= olds.len(),
            forall|j: int| 0 <= j < olds.len() ==> #[trigger] olds@[j] < pi.len(),
            forall|j: int| 0 <= j < news.len() ==> #[trigger] news@[j] < ci.len(),
            out@ == base + exits(identity_views(pi@), identity_views(ci@), olds@.take(t as int), news@),
        decreases olds.len() - t,
    {
        let index = olds[t];
        let matched = has_identity_match(&pi[index], ci, news);
        proof {
            assert(olds@.take(t + 1).drop_last() =~= olds@.take(t as int));
            assert(olds@.take(t + 1).last() == index);
            assert(identity_views(pi@)[index as int] == identity_view(pi@[index as int]));
        }
        if !matched {
            out.push(Change::Exited(index));
        }
        proof {
            let e = exits(identity_views(pi@), identity_views(ci@), olds@.take(t as int), news@);
            if matched {
                assert(base + exits(identity_views(pi@), identity_views(ci@), olds@.take(t + 1), news@) =~= base + e + Seq::<Change>::empty());
            } else {
                assert(base + exits(identity_views(pi@), identity_views(ci@), olds@.take(t + 1), news@) =~= (base + e).push(Change::Exited(index)));
            }
        }
        t = t + 1;
    }
    assert(olds@.take(olds.len() as int) =~= olds@);
}

fn push_starts(
    pi: &Vec<Option<RuntimeIdentity>>,
    ci: &Vec<Option<RuntimeIdentity>>,
    olds: &Vec<usize>,
    news: &Vec<usize>,
    out: &mut Vec<Change>,
)
    requires
        forall|j: int| 0 <= j < olds.len() ==> #[trigger] olds@[j] < pi.len(),
        forall|j: int| 0 <= j < news.len() ==> #[trigger] news@[j] < ci.len(),
    ensures
        final(out)@ == old(out)@ + starts(identity_views(pi@), identity_views(ci@), olds@, news@),
{
    let ghost base = out@;
    let mut t: usize = 0;
    assert(news@.take(0) =~= Seq::<usize>::empty());
    assert(base + Seq::<Change>::empty() =~= base);
    while t < news.len()
        invariant
            t <= news.len(),
            forall|j: int| 0 <= j < olds.len() ==> #[trigger] olds@[j] < pi.len(),
            forall|j: int| 0 <= j < news.len() ==> #[trigger] news@[j] < ci.len(),
            out@ == base + starts(identity_views(pi@), identity_views(ci@), olds@, news@.take(t as int)),
        decreases news.len() - t,
    {
        let index = news[t];
        let matched = has_identity_match(&ci[index], pi, olds);
        proof {
            assert(news@.take(t + 1).drop_last() =~= news@.take(t as int));
            assert(news@.take(t + 1).last() == index);
            assert(identity_views(ci@)[index as int] == identity_view(ci@[index as int]));
        }
        if !matched {
            out.push(Change::Started(index));
        }
        proof {
            let e = starts(identity_views(pi@), identity_views(ci@), olds@, news@.take(t as int));
            if matched {
                assert(base + starts(identity_views(pi@), identity_views(ci@), olds@, news@.take(t + 1)) =~= base + e + Seq::<Change>::empty());
            } else {
                assert(base + starts(identity_views(pi@), identity_views(ci@), olds@, news@.take(t + 1)) =~= (base + e).push(Change::Started(index)));
            }
        }
        t = t + 1;
    }
    assert(news@.take(news.len() as int) =~= news@);
}

fn push_group_changes(
    pi: &Vec<Option<RuntimeIdentity>>,
    ci: &Vec<Option<RuntimeIdentity>>,
    olds: &Vec<usize>,
    news: &Vec<usize>,
    out: &mut Vec<Change>,
)
    requires
        forall|j: int| 0 <= j < olds.len() ==> #[trigger] olds@[j] < pi.len(),
        forall|j: int| 0 <= j < news.len() ==> #[trigger] news@[j] < ci.len(),
    ensures
        final(out)@ == old(out)@ + group_changes(identity_views(pi@), identity_views(ci@), olds@, news@),
{
    let ghost base = out@;
    if olds.len() == 1 && news.len() == 1 {
        let same = same_identity(&pi[olds[0]], &ci[news[0]]);
        proof {
            assert(identity_views(pi@)[olds@[0] as int] == identity_view(pi@[olds@[0] as int]));
            assert(identity_views(ci@)[news@[0] as int] == identity_view(ci@[news@[0] as int]));
        }
        if !same {
            out.push(Change::Replaced(olds[0], news[0]));
        } else {
            assert(out@ =~= base + Seq::<Change>::empty());
        }
    } else {
        push_exits(pi, ci, olds, news, out);
        push_starts(pi, ci, olds, news, out);
        assert(out@ =~= base + (exits(identity_views(pi@), identity_views(ci@), olds@, news@) + starts(identity_views(pi@), identity_views(ci@), olds@, news@)));
    }
}

/// The changes between two summarized snapshots: items grouped by semantic key, groups
/// visited in ascending key order, each group compared by runtime identity.
pub fn compute_changes(
    pk: &Vec<Vec<char>>,
    pi: &Vec<Option<RuntimeIdentity>>,
    ck: &Vec<Vec<char>>,
    ci: &Vec<Option<RuntimeIdentity>>,
) -> (r: Vec<Change>)
    requires
        pk.len() == pi.len(),
        ck.len() == ci.len(),
    ensures
        r@ == diff_changes(key_views(pk@), identity_views(pi@), key_views(ck@), identity_views(ci@)),
{
    let groups = build_groups(pk, ck);
    let ghost p = key_views(pk@);
    let ghost c = key_views(ck@);
    let ghost keys = group_keys(groups@);
    proof {
        assert(is_key_order(keys, p, c));
        let chosen = key_order(p, c);
        assert(is_key_order(chosen, p, c));
        lemma_sorted_unique(keys, chosen);
        lemma_indices_with_sound(p, Seq::empty());
    }
    let mut out: Vec<Change> = Vec::new();
    let mut g: usize = 0;
    assert(keys.take(0) =~= Seq::<Seq<char>>::empty());
    while g < groups.len()
        invariant
            g <= groups.len(),
            pk.len() == pi.len(),
            ck.len() == ci.len(),
            p == key_views(pk@),
            c == key_views(ck@),
            keys == group_keys(groups@),
            groups_ok(groups@, p, c),
            out@ == changes_over(p, identity_views(pi@), c, identity_views(ci@), keys.take(g as int)),
        decreases groups.len() - g,
    {
        let group = &groups[g];
        proof {
            assert(groups@[g as int] == *group);
            lemma_indices_with_sound(p, group.key@);
            lemma_indices_with_sound(c, group.key@);
            assert(group.old@ == indices_with(p, group.key@));
            assert(group.new@ == indices_with(c, group.key@));
            assert forall|j: int| 0 <= j < group.old.len() implies #[trigger] group.old@[j] < pi.len() by {
                assert(group.old@[j] == indices_with(p, group.key@)[j]);
            }
            assert forall|j: int| 0 <= j < group.new.len() implies #[trigger] group.new@[j] < ci.len() by {
                assert(group.new@[j] == indices_with(c, group.key@)[j]);
            }
            assert(keys.take(g + 1).drop_last() =~= keys.take(g as int));
            assert(keys.take(g + 1).last() == group.key@);
        }
        push_group_changes(pi, ci, &group.old, &group.new, &mut out);
        g = g + 1;
    }
    assert(keys.take(groups.len() as int) =~= keys);
    out
}


/// The positions a change refers to lie inside the two lists.
pub open spec fn change_in_range(c: Change, np: int, nc: int) -> bool {
    match c {
        Change::Replaced(i, j) => i < np && j < nc,
        Change::Exited(i) => i < np,
        Change::Started(j) => j < nc,
    }
}

proof fn lemma_exits_in_range(
    prev: Seq<IdentityView>,
    cur: Seq<IdentityView>,
    olds: Seq<usize>,
    news: Seq<usize>,
    np: int,
    nc: int,
)
    requires
        forall|j: int| 0 <= j < olds.len() ==> #[trigger] olds[j] < np,
    ensures
        forall|k: int|
            0 <= k < exits(prev, cur, olds, news).len() ==> change_in_range(
                #[trigger] exits(prev, cur, olds, news)[k],
                np,
                nc,
            ),
    decreases olds.len(),
{
    if olds.len() > 0 {
        lemma_exits_in_range(prev, cur, olds.drop_last(), news, np, nc);
        let rest = exits(prev, cur, olds.drop_last(), news);
        assert(olds.last() == olds[olds.len() - 1]);
        assert forall|k: int| 0 <= k < exits(prev, cur, olds, news).len() implies change_in_range(
            #[trigger] exits(prev, cur, olds, news)[k],
            np,
            nc,
        ) by {
            if k < rest.len() {
                assert(exits(prev, cur, olds, news)[k] == rest[k]);
            }
        }
    }
}

proof fn lemma_starts_in_range(
    prev: Seq<IdentityView>,
    cur: Seq<IdentityView>,
    olds: Seq<usize>,
    news: Seq<usize>,
    np: int,
    nc: int,
)
    requires
        forall|j: int| 0 <= j < news.len() ==> #[trigger] news[j] < nc,
    ensures
        forall|k: int|
            0 <= k < starts(prev, cur, olds, news).len() ==> change_in_range(
                #[trigger] starts(prev, cur, olds, news)[k],
                np,
                nc,
            ),
    decreases news.len(),
{
    if news.len() > 0 {
        lemma_starts_in_range(prev, cur, olds, news.drop_last(), np, nc);
        let rest = starts(prev, cur, olds, news.drop_last());
        assert(news.last() == news[news.len() - 1]);
        assert forall|k: int| 0 <= k < starts(prev, cur, olds, news).len() implies change_in_range(
            #[trigger] starts(prev, cur, olds, news)[k],
            np,
            nc,
        ) by {
            if k < rest.len() {
                assert(starts(prev, cur, olds, news)[k] == rest[k]);
            }
        }
    }
}

proof fn lemma_changes_over_in_range(
    pk: Seq<Seq<char>>,
    pi: Seq<IdentityView>,
    ck: Seq<Seq<char>>,
    ci: Seq<IdentityView>,
    keys: Seq<Seq<char>>,
)
    requires
        pk.len() <= usize::MAX,
        ck.len() <= usize::MAX,
    ensures
        forall|k: int|
            0 <= k < changes_over(pk, pi, ck, ci, keys).len() ==> change_in_range(
                #[trigger] changes_over(pk, pi, ck, ci, keys)[k],
                pk.len() as int,
                ck.len() as int,
            ),
    decreases keys.len(),
{
    if keys.len() > 0 {
        lemma_changes_over_in_range(pk, pi, ck, ci, keys.drop_last());
        let rest = changes_over(pk, pi, ck, ci, keys.drop_last());
        let olds = indices_with(pk, keys.last());
        let news = indices_with(ck, keys.last());
        lemma_indices_with_sound(pk, keys.last());
        lemma_indices_with_sound(ck, keys.last());
        assert forall|j: int| 0 <= j < olds.len() implies #[trigger] olds[j] < pk.len() by {}
        assert forall|j: int| 0 <= j < news.len() implies #[trigger] news[j] < ck.len() by {}
        lemma_exits_in_range(pi, ci, olds, news, pk.len() as int, ck.len() as int);
        lemma_starts_in_range(pi, ci, olds, news, pk.len() as int, ck.len() as int);
        let g = group_changes(pi, ci, olds, news);
        assert forall|k: int| 0 <= k < g.len() implies change_in_range(
            #[trigger] g[k],
            pk.len() as int,
            ck.len() as int,
        ) by {
            if !(olds.len() == 1 && news.len() == 1) {
                let e = exits(pi, ci, olds, news);
                if k < e.len() {
                    assert(g[k] == e[k]);
                } else {
                    assert(g[k] == starts(pi, ci, olds, news)[k - e.len()]);
                }
            }
        }
        assert forall|k: int| 0 <= k < changes_over(pk, pi, ck, ci, keys).len() implies change_in_range(
            #[trigger] changes_over(pk, pi, ck, ci, keys)[k],
            pk.len() as int,
            ck.len() as int,
        ) by {
            if k < rest.len() {
                assert(changes_over(pk, pi, ck, ci, keys)[k] == rest[k]);
            } else {
                assert(changes_over(pk, pi, ck, ci, keys)[k] == g[k - rest.len()]);
            }
        }
    }
}

/// Every change between two summarized snapshots refers to positions inside them.
pub proof fn lemma_diff_changes_in_range(
    pk: Seq<Seq<char>>,
    pi: Seq<IdentityView>,
    ck: Seq<Seq<char>>,
    ci: Seq<IdentityView>,
)
    requires
        pk.len() <= usize::MAX,
        ck.len() <= usize::MAX,
    ensures
        forall|k: int|
            0 <= k < diff_changes(pk, pi, ck, ci).len() ==> change_in_range(
                #[trigger] diff_changes(pk, pi, ck, ci)[k],
                pk.len() as int,
                ck.len() as int,
            ),
{
    lemma_changes_over_in_range(pk, pi, ck, ci, key_order(pk, ck));
}


/// The texts of a list, each once, in ascending order (`sort` then `dedup`).
pub fn sorted_distinct_texts(v: &Vec<String>) -> (r: Vec<String>)
    ensures
        crate::refs::text_views(r@) == key_order(crate::refs::text_views(v@), Seq::empty()),
{
    let ghost input = crate::refs::text_views(v@);
    let ghost none = Seq::<Seq<char>>::empty();
    let mut out: Vec<String> = Vec::new();
    let mut keys: Vec<Vec<char>> = Vec::new();
    let mut i: usize = 0;
    while i < v.len()
        invariant
            i <= v.len(),
            input == crate::refs::text_views(v@),
            keys.len() == out.len(),
            forall|q: int| 0 <= q < keys.len() ==> (#[trigger] keys@[q])@ == out@[q]@,
            strictly_sorted(key_views(keys@)),
            forall|x: Seq<char>| #[trigger] key_views(keys@).contains(x) <==> input.take(i as int).contains(x),
        decreases v.len() - i,
    {
        let k = crate::text::to_chars(v[i].as_str());
        let ghost ks = key_views(keys@);
        assert(forall|x: Seq<char>| #[trigger] ks.contains(x) <==> input.take(i as int).contains(x));
        let mut pos: usize = 0;
        while pos < keys.len() && chars_less(&keys[pos], &k)
            invariant
                pos <= keys.len(),
                ks == key_views(keys@),
                forall|q: int| 0 <= q < pos ==> chars_lt(#[trigger] ks[q], k@),
            decreases keys.len() - pos,
        {
            pos = pos + 1;
        }
        let found = pos < keys.len() && crate::text::vec_chars_eq(&keys[pos], &k);
        proof {
            assert(input.take(i + 1) =~= input.take(i as int).push(k@));
        }
        if !found {
            proof {
                assert(!ks.contains(k@)) by {
                    if ks.contains(k@) {
                        let j = choose|j: int| 0 <= j < ks.len() && ks[j] == k@;
                        if j < pos {
                            lemma_chars_lt_irreflexive(k@);
                        } else if j > pos {
                            assert(chars_lt(ks[pos as int], ks[j]));
                            lemma_chars_lt_total(ks[pos as int], k@);
                            lemma_chars_lt_asymmetric(k@, ks[pos as int]);
                        }
                    }
                }
                if pos < ks.len() {
                    lemma_chars_lt_total(ks[pos as int], k@);
                }
            }
            let ghost old_keys = keys@;
            let ghost old_out = out@;
            out.insert(pos, v[i].clone());
            keys.insert(pos, k);
            proof {
                let nk = key_views(keys@);
                assert(nk =~= ks.insert(pos as int, k@));
                assert forall|q: int| 0 <= q < keys.len() implies (#[trigger] keys@[q])@ == out@[q]@ by {
                    if q < pos {
                        assert(keys@[q] == old_keys[q] && out@[q] == old_out[q]);
                    } else if q > pos {
                        assert(keys@[q] == old_keys[q - 1] && out@[q] == old_out[q - 1]);
                    }
                }
                assert forall|a: int, b: int| 0 <= a < b < nk.len() implies chars_lt(
                    #[trigger] nk[a],
                    #[trigger] nk[b],
                ) by {
                    if b < pos {
                        assert(nk[a] == ks[a] && nk[b] == ks[b]);
                    } else if b == pos {
                        assert(nk[a] == ks[a]);
                    } else if a < pos {
                        assert(nk[a] == ks[a] && nk[b] == ks[b - 1]);
                        if b - 1 > pos {
                            assert(chars_lt(ks[pos as int], ks[b - 1]));
                            lemma_chars_lt_transitive(k@, ks[pos as int], ks[b - 1]);
                        }
                        lemma_chars_lt_transitive(nk[a], k@, nk[b]);
                    } else if a == pos {
                        assert(nk[b] == ks[b - 1]);
                        if b - 1 > pos {
                            assert(chars_lt(ks[pos as int], ks[b - 1]));
                            lemma_chars_lt_transitive(k@, ks[pos as int], ks[b - 1]);
                        }
                    } else {
                        assert(nk[a] == ks[a - 1] && nk[b] == ks[b - 1]);
                    }
                }
                assert forall|x: Seq<char>| #[trigger] nk.contains(x) <==> input.take(i + 1).contains(x) by {
                    let t = input.take(i as int);
                    if x == k@ {
                        assert(nk[pos as int] == x);
                        assert(input.take(i + 1)[i as int] == x);
                    } else {
                        if nk.contains(x) {
                            let j = choose|j: int| 0 <= j < nk.len() && nk[j] == x;
                            let q = if j < pos { j } else { j - 1 };
                            assert(ks[q] == x);
                            assert(ks.contains(x));
                            let w = choose|w: int| 0 <= w < t.len() && t[w] == x;
                            assert(input.take(i + 1)[w] == x);
                        }
                        if input.take(i + 1).contains(x) {
                            let w = choose|w: int| 0 <= w < i + 1 && #[trigger] input.take(i + 1)[w] == x;
                            assert(w < i);
                            assert(t[w] == x);
                            assert(t.contains(x));
                            assert(ks.contains(x));
                            let j = choose|j: int| 0 <= j < ks.len() && ks[j] == x;
                            let q = if j < pos { j } else { j + 1 };
                            assert(nk[q] == x);
                        }
                    }
                }
            }
        } else {
            proof {
                let t = input.take(i as int);
                assert(ks[pos as int] == k@);
                assert forall|x: Seq<char>| #[trigger] ks.contains(x) <==> input.take(i + 1).contains(x) by {
                    if x == k@ {
                        assert(input.take(i + 1)[i as int] == x);
                    } else {
                        if ks.contains(x) {
                            let w = choose|w: int| 0 <= w < t.len() && t[w] == x;
                            assert(input.take(i + 1)[w] == x);
                        }
                        if input.take(i + 1).contains(x) {
                            let w = choose|w: int| 0 <= w < i + 1 && #[trigger] input.take(i + 1)[w] == x;
                            assert(t[w] == x);
                        }
                    }
                }
            }
        }
        i = i + 1;
    }
    proof {
        assert(input.take(v.len() as int) =~= input);
        let r = crate::refs::text_views(out@);
        assert(r =~= key_views(keys@));
        assert(is_key_order(r, input, none));
        let chosen = key_order(input, none);
        assert(is_key_order(chosen, input, none));
        lemma_sorted_unique(r, chosen);
    }
    out
}

/// A key placed into a strictly ascending list at its place.
pub open spec fn insert_sorted(ks: Seq<Seq<char>>, k: Seq<char>) -> Seq<Seq<char>>
    decreases ks.len(),
{
    if ks.len() == 0 {
        seq![k]
    } else if chars_lt(ks.last(), k) {
        ks.push(k)
    } else {
        insert_sorted(ks.drop_last(), k).push(ks.last())
    }
}

proof fn lemma_insert_sorted(ks: Seq<Seq<char>>, k: Seq<char>)
    requires
        strictly_sorted(ks),
        !ks.contains(k),
    ensures
        strictly_sorted(insert_sorted(ks, k)),
        forall|x: Seq<char>| #[trigger] insert_sorted(ks, k).contains(x) <==> (ks.contains(x) || x == k),
    decreases ks.len(),
{
    let r = insert_sorted(ks, k);
    if ks.len() == 0 {
        assert forall|x: Seq<char>| #[trigger] r.contains(x) <==> (ks.contains(x) || x == k) by {
            if r.contains(x) {
                assert(r[0] == x);
            }
            if x == k {
                assert(r[0] == k);
            }
        }
    } else if chars_lt(ks.last(), k) {
        assert forall|a: int, b: int| 0 <= a < b < r.len() implies chars_lt(#[trigger] r[a], #[trigger] r[b]) by {
            if b == r.len() - 1 {
                if a < ks.len() - 1 {
                    lemma_chars_lt_transitive(ks[a], ks.last(), k);
                }
            } else {
                assert(r[a] == ks[a] && r[b] == ks[b]);
            }
        }
        assert forall|x: Seq<char>| #[trigger] r.contains(x) <==> (ks.contains(x) || x == k) by {
            if r.contains(x) {
                let j = choose|j: int| 0 <= j < r.len() && r[j] == x;
                if j < ks.len() {
                    assert(ks[j] == x);
                }
            }
            if ks.contains(x) {
                let j = choose|j: int| 0 <= j < ks.len() && ks[j] == x;
                assert(r[j] == x);
            }
            if x == k {
                assert(r[ks.len() as int] == k);
            }
        }
    } else {
        let init = ks.drop_last();
        let last = ks.last();
        assert(ks[ks.len() - 1] == last);
        assert(last != k);
        lemma_chars_lt_total(last, k);
        assert(strictly_sorted(init)) by {
            assert forall|a: int, b: int| 0 <= a < b < init.len() implies chars_lt(#[trigger] init[a], #[trigger] init[b]) by {
                assert(init[a] == ks[a] && init[b] == ks[b]);
            }
        }
        assert(!init.contains(k)) by {
            if init.contains(k) {
                let j = choose|j: int| 0 <= j < init.len() && init[j] == k;
                assert(ks[j] == k);
            }
        }
        lemma_insert_sorted(init, k);
        let t = insert_sorted(init, k);
        assert(r == t.push(last));
        assert forall|q: int| 0 <= q < t.len() implies chars_lt(#[trigger] t[q], last) by {
            assert(t.contains(t[q]));
            if t[q] != k {
                let j = choose|j: int| 0 <= j < init.len() && init[j] == t[q];
                assert(ks[j] == t[q]);
            }
        }
        assert forall|a: int, b: int| 0 <= a < b < r.len() implies chars_lt(#[trigger] r[a], #[trigger] r[b]) by {
            if b == r.len() - 1 {
                assert(r[a] == t[a]);
            } else {
                assert(r[a] == t[a] && r[b] == t[b]);
            }
        }
        assert forall|x: Seq<char>| #[trigger] r.contains(x) <==> (ks.contains(x) || x == k) by {
            if r.contains(x) {
                let j = choose|j: int| 0 <= j < r.len() && r[j] == x;
                if j < t.len() {
                    assert(t[j] == x);
                    assert(t.contains(x));
                    if x != k {
                        let i = choose|i: int| 0 <= i < init.len() && init[i] == x;
                        assert(ks[i] == x);
                    }
                }
            }
            if ks.contains(x) {
                let j = choose|j: int| 0 <= j < ks.len() && ks[j] == x;
                if j < ks.len() - 1 {
                    assert(init[j] == x);
                    assert(t.contains(x));
                    let i = choose|i: int| 0 <= i < t.len() && t[i] == x;
                    assert(r[i] == x);
                } else {
                    assert(r[t.len() as int] == x);
                }
            }
            if x == k {
                assert(t.contains(k));
                let i = choose|i: int| 0 <= i < t.len() && t[i] == k;
                assert(r[i] == k);
            }
        }
    }
}

proof fn lemma_sorted_members_exist(xs: Seq<Seq<char>>)
    ensures
        exists|ks: Seq<Seq<char>>| strictly_sorted(ks) && forall|x: Seq<char>| #[trigger] ks.contains(x) <==> xs.contains(x),
    decreases xs.len(),
{
    if xs.len() == 0 {
        let ks = Seq::<Seq<char>>::empty();
        assert(strictly_sorted(ks) && forall|x: Seq<char>| #[trigger] ks.contains(x) <==> xs.contains(x));
    } else {
        let init = xs.drop_last();
        lemma_sorted_members_exist(init);
        let ks = choose|ks: Seq<Seq<char>>| strictly_sorted(ks) && forall|x: Seq<char>| #[trigger] ks.contains(x) <==> init.contains(x);
        let k = xs.last();
        assert forall|x: Seq<char>| xs.contains(x) <==> (init.contains(x) || x == k) by {
            if xs.contains(x) {
                let j = choose|j: int| 0 <= j < xs.len() && xs[j] == x;
                if j < init.len() {
                    assert(init[j] == x);
                }
            }
            if init.contains(x) {
                let j = choose|j: int| 0 <= j < init.len() && init[j] == x;
                assert(xs[j] == x);
            }
            if x == k {
                assert(xs[xs.len() - 1] == x);
            }
        }
        if ks.contains(k) {
            assert(strictly_sorted(ks) && forall|x: Seq<char>| #[trigger] ks.contains(x) <==> xs.contains(x));
        } else {
            lemma_insert_sorted(ks, k);
            let r = insert_sorted(ks, k);
            assert(strictly_sorted(r) && forall|x: Seq<char>| #[trigger] r.contains(x) <==> xs.contains(x));
        }
    }
}

/// Every two lists have a key order.
pub proof fn lemma_key_order_exists(pk: Seq<Seq<char>>, ck: Seq<Seq<char>>)
    ensures
        is_key_order(key_order(pk, ck), pk, ck),
{
    let all = pk + ck;
    lemma_sorted_members_exist(all);
    let ks = choose|ks: Seq<Seq<char>>| strictly_sorted(ks) && forall|x: Seq<char>| #[trigger] ks.contains(x) <==> all.contains(x);
    assert forall|x: Seq<char>| #[trigger] ks.contains(x) <==> (pk.contains(x) || ck.contains(x)) by {
        if all.contains(x) {
            let j = choose|j: int| 0 <= j < all.len() && all[j] == x;
            if j < pk.len() {
                assert(pk[j] == x);
            } else {
                assert(ck[j - pk.len()] == x);
            }
        }
        if pk.contains(x) {
            let j = choose|j: int| 0 <= j < pk.len() && pk[j] == x;
            assert(all[j] == x);
        }
        if ck.contains(x) {
            let j = choose|j: int| 0 <= j < ck.len() && ck[j] == x;
            assert(all[pk.len() + j] == x);
        }
    }
    assert(is_key_order(ks, pk, ck));
}

/// The key order of two lists does not depend on which list comes first.
pub proof fn lemma_key_order_symmetric(pk: Seq<Seq<char>>, ck: Seq<Seq<char>>)
    ensures
        key_order(pk, ck) == key_order(ck, pk),
{
    lemma_key_order_exists(pk, ck);
    lemma_key_order_exists(ck, pk);
    let a = key_order(pk, ck);
    let b = key_order(ck, pk);
    assert forall|x: Seq<char>| a.contains(x) <==> b.contains(x) by {
        assert(a.contains(x) <==> (pk.contains(x) || ck.contains(x)));
        assert(b.contains(x) <==> (ck.contains(x) || pk.contains(x)));
    }
    lemma_sorted_unique(a, b);
}

/// A change seen from the other side: a replacement the other way round, an ended item
/// as a started one and a started item as an ended one.
pub open spec fn swap_change(c: Change) -> Change {
    match c {
        Change::Replaced(i, j) => Change::Replaced(j, i),
        Change::Exited(i) => Change::Started(i),
        Change::Started(j) => Change::Exited(j),
    }
}

/// Members of a concatenation.
pub proof fn lemma_concat_contains<A>(a: Seq<A>, b: Seq<A>, x: A)
    ensures
        (a + b).contains(x) <==> (a.contains(x) || b.contains(x)),
{
    if (a + b).contains(x) {
        let j = choose|j: int| 0 <= j < (a + b).len() && (a + b)[j] == x;
        if j < a.len() {
            assert(a[j] == x);
        } else {
            assert(b[j - a.len()] == x);
        }
    }
    if a.contains(x) {
        let j = choose|j: int| 0 <= j < a.len() && a[j] == x;
        assert((a + b)[j] == x);
    }
    if b.contains(x) {
        let j = choose|j: int| 0 <= j < b.len() && b[j] == x;
        assert((a + b)[a.len() + j] == x);
    }
}

proof fn lemma_exits_swap(pi: Seq<IdentityView>, ci: Seq<IdentityView>, old: Seq<usize>, new: Seq<usize>)
    ensures
        exits(pi, ci, old, new).map_values(|c: Change| swap_change(c)) == starts(ci, pi, new, old),
        starts(pi, ci, old, new).map_values(|c: Change| swap_change(c)) == exits(ci, pi, new, old),
    decreases old.len() + new.len(),
{
    if old.len() > 0 {
        lemma_exits_swap(pi, ci, old.drop_last(), new);
        assert(exits(pi, ci, old, new).map_values(|c: Change| swap_change(c)) =~= starts(ci, pi, new, old));
    } else {
        assert(exits(pi, ci, old, new).map_values(|c: Change| swap_change(c)) =~= starts(ci, pi, new, old));
    }
    if new.len() > 0 {
        lemma_exits_swap(pi, ci, old, new.drop_last());
        assert(starts(pi, ci, old, new).map_values(|c: Change| swap_change(c)) =~= exits(ci, pi, new, old));
    } else {
        assert(starts(pi, ci, old, new).map_values(|c: Change| swap_change(c)) =~= exits(ci, pi, new, old));
    }
}

proof fn lemma_swapped_member(s: Seq<Change>, x: Change)
    requires
        s.contains(x),
    ensures
        s.map_values(|c: Change| swap_change(c)).contains(swap_change(x)),
{
    let j = choose|j: int| 0 <= j < s.len() && s[j] == x;
    assert(s.map_values(|c: Change| swap_change(c))[j] == swap_change(x));
}

proof fn lemma_group_changes_swap(
    pi: Seq<IdentityView>,
    ci: Seq<IdentityView>,
    old: Seq<usize>,
    new: Seq<usize>,
    x: Change,
)
    requires
        group_changes(pi, ci, old, new).contains(x),
    ensures
        group_changes(ci, pi, new, old).contains(swap_change(x)),
{
    if old.len() == 1 && new.len() == 1 {
        assert(group_changes(pi, ci, old, new)[0] == x);
        assert(group_changes(ci, pi, new, old)[0] == swap_change(x));
    } else {
        lemma_exits_swap(pi, ci, old, new);
        let e = exits(pi, ci, old, new);
        let st = starts(pi, ci, old, new);
        lemma_concat_contains(e, st, x);
        lemma_concat_contains(exits(ci, pi, new, old), starts(ci, pi, new, old), swap_change(x));
        if e.contains(x) {
            lemma_swapped_member(e, x);
        } else {
            lemma_swapped_member(st, x);
        }
    }
}

proof fn lemma_changes_over_swap(
    pk: Seq<Seq<char>>,
    pi: Seq<IdentityView>,
    ck: Seq<Seq<char>>,
    ci: Seq<IdentityView>,
    keys: Seq<Seq<char>>,
    x: Change,
)
    requires
        changes_over(pk, pi, ck, ci, keys).contains(x),
    ensures
        changes_over(ck, ci, pk, pi, keys).contains(swap_change(x)),
    decreases keys.len(),
{
    if keys.len() > 0 {
        let rest = changes_over(pk, pi, ck, ci, keys.drop_last());
        let g = group_changes(pi, ci, indices_with(pk, keys.last()), indices_with(ck, keys.last()));
        let rest2 = changes_over(ck, ci, pk, pi, keys.drop_last());
        let g2 = group_changes(ci, pi, indices_with(ck, keys.last()), indices_with(pk, keys.last()));
        lemma_concat_contains(rest, g, x);
        lemma_concat_contains(rest2, g2, swap_change(x));
        if rest.contains(x) {
            lemma_changes_over_swap(pk, pi, ck, ci, keys.drop_last(), x);
        } else {
            lemma_group_changes_swap(pi, ci, indices_with(pk, keys.last()), indices_with(ck, keys.last()), x);
        }
    }
}

/// A change found between two snapshots is found, seen from the other side, between
/// the same snapshots taken the other way round.
pub proof fn lemma_diff_changes_swap(
    pk: Seq<Seq<char>>,
    pi: Seq<IdentityView>,
    ck: Seq<Seq<char>>,
    ci: Seq<IdentityView>,
    x: Change,
)
    requires
        diff_changes(pk, pi, ck, ci).contains(x),
    ensures
        diff_changes(ck, ci, pk, pi).contains(swap_change(x)),
{
    lemma_key_order_symmetric(pk, ck);
    lemma_changes_over_swap(pk, pi, ck, ci, key_order(pk, ck), x);
}

} // verus!
