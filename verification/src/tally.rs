//! Counting plugin occurrences by (kind, name), in order of first occurrence.
use vstd::prelude::*;
use crate::{PluginInfo, PluginModel};

verus! {

/// Index of the entry for (`kind`, `name`) in `list`, or -1 when there is none.
pub open spec fn plugin_index(list: Seq<PluginModel>, kind: Seq<char>, name: Seq<char>) -> int
    decreases list.len(),
{
    if list.len() == 0 {
        -1
    } else {
        let j = plugin_index(list.drop_last(), kind, name);
        if j >= 0 {
            j
        } else if list.last().plugin_type == kind && list.last().name == name {
            list.len() - 1
        } else {
            -1
        }
    }
}

/// One more, wrapping past `u32::MAX` to zero as `u32` addition does when it is
/// not checked.
pub open spec fn wrap_inc(x: u32) -> u32 {
    if x == u32::MAX { 0 } else { (x + 1) as u32 }
}

/// One more occurrence of (`kind`, `name`): its count goes up by one (wrapping),
/// or a new entry with count 1 is appended.
pub open spec fn tally_add(list: Seq<PluginModel>, kind: Seq<char>, name: Seq<char>) -> Seq<PluginModel> {
    let j = plugin_index(list, kind, name);
    if j >= 0 {
        list.update(j, PluginModel { name: name, plugin_type: kind, count: wrap_inc(list[j].count) })
    } else {
        list.push(PluginModel { name: name, plugin_type: kind, count: 1 })
    }
}

/// The tally of a sequence of (kind, name) occurrences: one entry per distinct
/// pair, in order of first occurrence, with its number of occurrences.
pub open spec fn tally(keys: Seq<(Seq<char>, Seq<char>)>) -> Seq<PluginModel>
    decreases keys.len(),
{
    if keys.len() == 0 {
        Seq::empty()
    } else {
        tally_add(tally(keys.drop_last()), keys.last().0, keys.last().1)
    }
}

/// The (kind, name) keys for `names`, all of kind `kind`.
pub open spec fn keys_of(kind: Seq<char>, names: Seq<Seq<char>>) -> Seq<(Seq<char>, Seq<char>)> {
    names.map_values(|n: Seq<char>| (kind, n))
}

/// Every count in `list` is at most `n`.
pub open spec fn counts_at_most(list: Seq<PluginModel>, n: int) -> bool {
    forall|i: int| 0 <= i < list.len() ==> list[i].count <= n
}

proof fn lemma_plugin_index(list: Seq<PluginModel>, kind: Seq<char>, name: Seq<char>)
    ensures
        -1 <= plugin_index(list, kind, name) < list.len(),
        plugin_index(list, kind, name) >= 0 ==> ({
            let j = plugin_index(list, kind, name);
            list[j].plugin_type == kind && list[j].name == name
        }),
        plugin_index(list, kind, name) == -1 ==> forall|i: int|
            0 <= i < list.len() ==> !(list[i].plugin_type == kind && list[i].name == name),
    decreases list.len(),
{
    if list.len() > 0 {
        lemma_plugin_index(list.drop_last(), kind, name);
        assert forall|i: int| 0 <= i < list.len() - 1 implies list.drop_last()[i] == list[i] by {}
    }
}

/// Tallying `n` occurrences never counts beyond `n`.
pub proof fn lemma_tally_bound(keys: Seq<(Seq<char>, Seq<char>)>)
    ensures
        counts_at_most(tally(keys), keys.len() as int),
        tally(keys).len() <= keys.len(),
    decreases keys.len(),
{
    if keys.len() > 0 {
        let prev = tally(keys.drop_last());
        lemma_tally_bound(keys.drop_last());
        lemma_plugin_index(prev, keys.last().0, keys.last().1);
    }
}

/// One more occurrence raises no count by more than one.
pub proof fn lemma_tally_add_bound(list: Seq<PluginModel>, kind: Seq<char>, name: Seq<char>, n: int)
    requires
        counts_at_most(list, n),
        0 <= n,
    ensures
        counts_at_most(tally_add(list, kind, name), n + 1),
{
    lemma_plugin_index(list, kind, name);
}

/// Looks up the entry for (`kind`, `name`).
fn find_plugin(list: &Vec<PluginInfo>, kind: &String, name: &String) -> (r: Option<usize>)
    ensures
        r == (if plugin_index(list.deep_view(), kind@, name@) >= 0 {
            Some(plugin_index(list.deep_view(), kind@, name@) as usize)
        } else {
            None::<usize>
        }),
{
    let ghost l = list.deep_view();
    let mut i: usize = 0;
    while i < list.len()
        invariant
            0 <= i <= list.len(),
            l == list.deep_view(),
            plugin_index(l.take(i as int), kind@, name@) == -1,
        decreases list.len() - i,
    {
        assert(l.take(i + 1).drop_last() =~= l.take(i as int));
        if list[i].plugin_type == *kind && list[i].name == *name {
            proof {
                lemma_plugin_index(l, kind@, name@);
                lemma_plugin_index(l.take(i as int), kind@, name@);
                let j = plugin_index(l, kind@, name@);
                assert(j == i as int) by {
                    lemma_prefix_index(l, kind@, name@, i as int + 1);
                }
            }
            return Some(i);
        }
        i = i + 1;
    }
    assert(l.take(i as int) =~= l);
    None
}

proof fn lemma_prefix_index(l: Seq<PluginModel>, kind: Seq<char>, name: Seq<char>, k: int)
    requires
        0 <= k <= l.len(),
        plugin_index(l.take(k), kind, name) >= 0,
    ensures
        plugin_index(l, kind, name) == plugin_index(l.take(k), kind, name),
    decreases l.len() - k,
{
    if k < l.len() {
        assert(l.take(k + 1).drop_last() =~= l.take(k));
        lemma_prefix_index(l, kind, name, k + 1);
    } else {
        assert(l.take(k) =~= l);
    }
}

/// Records one more occurrence of (`kind`, `name`) in `list`.
pub(crate) fn tally_push(list: &mut Vec<PluginInfo>, kind: String, name: String, Ghost(bound): Ghost<int>)
    ensures
        final(list).deep_view() == tally_add(old(list).deep_view(), kind@, name@),
        counts_at_most(old(list).deep_view(), bound) && 0 <= bound < u32::MAX
            ==> counts_at_most(final(list).deep_view(), bound + 1),
{
    let ghost l = list.deep_view();
    assert(l.len() == list@.len());
    assert(list@.len() == list.len());
    proof {
        lemma_plugin_index(l, kind@, name@);
    }
    let found = find_plugin(list, &kind, &name);
    assert(found == (if plugin_index(l, kind@, name@) >= 0 {
        Some(plugin_index(l, kind@, name@) as usize)
    } else {
        None::<usize>
    }));
    match found {
        Some(i) => {
            let c = list[i].count;
            assert(i as int == plugin_index(l, kind@, name@));
            assert(l[i as int].plugin_type == kind@ && l[i as int].name == name@);
            let c2 = if c == u32::MAX { 0 } else { c + 1 };
            let updated = PluginInfo { name: name, plugin_type: kind, count: c2 };
            list.set(i, updated);
            assert(l[i as int].count == c);
            assert(l[i as int].plugin_type == kind@ && l[i as int].name == name@);
            assert forall|k: int| 0 <= k < l.len() implies list.deep_view()[k] == tally_add(l, kind@, name@)[k] by {
                if k != i as int {
                    assert(list@[k] == old(list)@[k]);
                }
            }
            assert(list.deep_view() =~= tally_add(l, kind@, name@));
            proof {
                if counts_at_most(l, bound) && 0 <= bound < u32::MAX {
                    assert(l[i as int].count <= bound);
                    assert forall|k: int| 0 <= k < list.deep_view().len() implies list.deep_view()[k].count <= bound + 1 by {
                        if k != i as int {
                            assert(list.deep_view()[k] == l[k]);
                        }
                    }
                }
            }
        },
        None => {
            list.push(PluginInfo { name: name, plugin_type: kind, count: 1 });
            assert(list.deep_view() =~= tally_add(l, kind@, name@));
            proof {
                if counts_at_most(l, bound) && 0 <= bound < u32::MAX {
                    assert forall|k: int| 0 <= k < list.deep_view().len() implies list.deep_view()[k].count <= bound + 1 by {
                        if k < l.len() {
                            assert(list.deep_view()[k] == l[k]);
                        }
                    }
                }
            }
        },
    }
}

/// The tally of `names`, all of kind `kind`.
pub fn tally_names(kind: &str, names: &Vec<String>) -> (r: Vec<PluginInfo>)
    requires
        names@.len() < u32::MAX,
    ensures
        r.deep_view() == tally(keys_of(kind@, names.deep_view())),
{
    let ghost keys = keys_of(kind@, names.deep_view());
    let mut list: Vec<PluginInfo> = Vec::new();
    assert(keys.take(0) =~= Seq::<(Seq<char>, Seq<char>)>::empty());
    assert(list.deep_view() =~= Seq::<PluginModel>::empty());
    let mut j: usize = 0;
    while j < names.len()
        invariant
            0 <= j <= names.len(),
            names@.len() < u32::MAX,
            keys == keys_of(kind@, names.deep_view()),
            list.deep_view() == tally(keys.take(j as int)),
            counts_at_most(list.deep_view(), j as int),
        decreases names.len() - j,
    {
        assert(keys.take(j + 1).drop_last() =~= keys.take(j as int));
        tally_push(&mut list, String::from_str(kind), names[j].clone(), Ghost(j as int));
        j = j + 1;
    }
    assert(keys.take(names.len() as int) =~= keys);
    list
}

} // verus!

verus! {

/// Tallying one more occurrence keeps every (type, name) pair once and every
/// count positive, as long as no count is at its maximum.
pub proof fn lemma_tally_add_tallied(list: Seq<PluginModel>, kind: Seq<char>, name: Seq<char>)
    requires
        crate::plugins_tallied(list),
        counts_at_most(list, u32::MAX - 1),
    ensures
        crate::plugins_tallied(tally_add(list, kind, name)),
{
    lemma_plugin_index(list, kind, name);
    let r = tally_add(list, kind, name);
    let j = plugin_index(list, kind, name);
    if j >= 0 {
        assert forall|a: int, b: int| 0 <= a < b < r.len() implies !(#[trigger] r[a].plugin_type == #[trigger] r[b].plugin_type
            && r[a].name == r[b].name) by {
            assert(list[a].plugin_type == r[a].plugin_type && list[a].name == r[a].name);
            assert(list[b].plugin_type == r[b].plugin_type && list[b].name == r[b].name);
        }
        assert forall|a: int| 0 <= a < r.len() implies #[trigger] r[a].count >= 1 by {
            if a != j {
                assert(r[a] == list[a]);
            }
        }
    } else {
        assert forall|a: int, b: int| 0 <= a < b < r.len() implies !(#[trigger] r[a].plugin_type == #[trigger] r[b].plugin_type
            && r[a].name == r[b].name) by {
            if b < list.len() {
                assert(r[a] == list[a] && r[b] == list[b]);
            } else {
                assert(r[a] == list[a]);
            }
        }
        assert forall|a: int| 0 <= a < r.len() implies #[trigger] r[a].count >= 1 by {
            if a < list.len() {
                assert(r[a] == list[a]);
            }
        }
    }
}

/// A tally lists each (type, name) pair once, with a positive count.
pub proof fn law_tally_lists_each_plugin_once(keys: Seq<(Seq<char>, Seq<char>)>)
    requires
        keys.len() < u32::MAX,
    ensures
        crate::plugins_tallied(tally(keys)),
    decreases keys.len(),
{
    if keys.len() > 0 {
        law_tally_lists_each_plugin_once(keys.drop_last());
        lemma_tally_bound(keys.drop_last());
        lemma_tally_add_tallied(tally(keys.drop_last()), keys.last().0, keys.last().1);
    }
}

} // verus!

verus! {

/// Every entry of a tally has the kind of the keys, when all keys share one kind.
pub proof fn lemma_tally_kinds(keys: Seq<(Seq<char>, Seq<char>)>, kind: Seq<char>)
    requires
        forall|i: int| 0 <= i < keys.len() ==> (#[trigger] keys[i]).0 == kind,
    ensures
        forall|i: int| 0 <= i < tally(keys).len() ==> (#[trigger] tally(keys)[i]).plugin_type == kind,
    decreases keys.len(),
{
    if keys.len() > 0 {
        let p = keys.drop_last();
        assert forall|i: int| 0 <= i < p.len() implies (#[trigger] p[i]).0 == kind by {
            assert(p[i] == keys[i]);
        }
        lemma_tally_kinds(p, kind);
        assert(keys[keys.len() - 1].0 == kind);
        lemma_plugin_index(tally(p), keys.last().0, keys.last().1);
        let t = tally(keys);
        let q = tally(p);
        assert forall|i: int| 0 <= i < t.len() implies (#[trigger] t[i]).plugin_type == kind by {
            if i < q.len() {
                assert(q[i].plugin_type == kind);
            }
        }
    }
}

/// Every entry of a tally names one of the keys.
pub proof fn lemma_tally_names(keys: Seq<(Seq<char>, Seq<char>)>)
    ensures
        forall|i: int| 0 <= i < tally(keys).len() ==>
            exists|j: int| 0 <= j < keys.len() && keys[j].1 == (#[trigger] tally(keys)[i]).name,
    decreases keys.len(),
{
    if keys.len() > 0 {
        let p = keys.drop_last();
        lemma_tally_names(p);
        lemma_plugin_index(tally(p), keys.last().0, keys.last().1);
        let t = tally(keys);
        let q = tally(p);
        assert forall|i: int| 0 <= i < t.len() implies
            exists|j: int| 0 <= j < keys.len() && keys[j].1 == (#[trigger] t[i]).name by {
            if i < q.len() && t[i].name == q[i].name {
                let j = choose|j: int| 0 <= j < p.len() && p[j].1 == q[i].name;
                assert(keys[j] == p[j]);
            } else {
                assert(keys[keys.len() - 1].1 == t[i].name);
            }
        }
    }
}

/// One more occurrence gives an entry of kind `kind` or keeps an entry's kind.
pub proof fn lemma_tally_add_kinds(list: Seq<PluginModel>, kind: Seq<char>, name: Seq<char>)
    ensures
        tally_add(list, kind, name).len() >= list.len(),
        forall|i: int| 0 <= i < tally_add(list, kind, name).len() ==>
            (#[trigger] tally_add(list, kind, name)[i]).plugin_type == kind
            || (i < list.len() && tally_add(list, kind, name)[i].plugin_type == list[i].plugin_type),
{
    lemma_plugin_index(list, kind, name);
}

/// The list has an entry of kind `kind` named `name`.
pub open spec fn has_entry(list: Seq<PluginModel>, kind: Seq<char>, name: Seq<char>) -> bool {
    exists|i: int| 0 <= i < list.len() && (#[trigger] list[i]).plugin_type == kind && list[i].name == name
}

/// One more occurrence gives its pair an entry and keeps every other entry.
pub proof fn lemma_tally_add_keeps(list: Seq<PluginModel>, kind: Seq<char>, name: Seq<char>)
    ensures
        has_entry(tally_add(list, kind, name), kind, name),
        forall|k2: Seq<char>, n2: Seq<char>| has_entry(list, k2, n2) ==> has_entry(tally_add(list, kind, name), k2, n2),
{
    lemma_plugin_index(list, kind, name);
    let r = tally_add(list, kind, name);
    let j = plugin_index(list, kind, name);
    if j >= 0 {
        assert(r[j].plugin_type == kind && r[j].name == name);
    } else {
        assert(r[list.len() as int].plugin_type == kind && r[list.len() as int].name == name);
    }
    assert forall|k2: Seq<char>, n2: Seq<char>| has_entry(list, k2, n2) implies has_entry(r, k2, n2) by {
        let i = choose|i: int| 0 <= i < list.len() && (#[trigger] list[i]).plugin_type == k2 && list[i].name == n2;
        assert(r[i].plugin_type == k2 && r[i].name == n2);
    }
}

/// Every key of a tally has its entry.
pub proof fn lemma_tally_has_keys(keys: Seq<(Seq<char>, Seq<char>)>)
    ensures
        forall|j: int| 0 <= j < keys.len() ==> has_entry(tally(keys), (#[trigger] keys[j]).0, keys[j].1),
    decreases keys.len(),
{
    if keys.len() > 0 {
        let p = keys.drop_last();
        lemma_tally_has_keys(p);
        lemma_tally_add_keeps(tally(p), keys.last().0, keys.last().1);
        assert forall|j: int| 0 <= j < keys.len() implies has_entry(tally(keys), (#[trigger] keys[j]).0, keys[j].1) by {
            if j < p.len() {
                assert(p[j] == keys[j]);
                assert(has_entry(tally(p), p[j].0, p[j].1));
            }
        }
    }
}

/// A bound on every count holds for any larger bound.
pub proof fn lemma_counts_mono(list: Seq<PluginModel>, n: int, m: int)
    requires
        counts_at_most(list, n),
        n <= m,
    ensures
        counts_at_most(list, m),
{
}

} // verus!
