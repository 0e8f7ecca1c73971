//! What holds of prefixes and of every lookup: the returned entries
//! match, come in descending priority, and share the longest prefix.

use vstd::prelude::*;
use num::bigint::BigUint;
use crate::table::{
    by_priority, entry_views, first_lpm, insert_by_priority, key_admits, key_matches_spec,
    keyset_matches_spec, lemma_pow2_128, longest_prefix, lpm_len, matching, ordered, pruned,
    selected, selector_view, EntryModel, KeyModel, Prefix, Table, TableEntry,
};

verus! {

/// A prefix of length 0 matches every selector that fits its width.
pub proof fn lemma_empty_prefix_matches(selector: nat, p: Prefix)
    requires
        p.len == 0,
        key_admits(selector, KeyModel::Lpm(p)),
    ensures
        key_matches_spec(selector, KeyModel::Lpm(p)),
{
    vstd::arithmetic::power2::lemma2_to64();
    lemma_pow2_128();
    let d = vstd::arithmetic::power2::pow2(p.width());
    assert(p.addr_value() < d);
    vstd::arithmetic::div_mod::lemma_basic_div(selector as int, d as int);
    vstd::arithmetic::div_mod::lemma_basic_div(p.addr_value() as int, d as int);
}

/// A prefix of the full width matches the address itself and nothing
/// else.
pub proof fn lemma_full_prefix_is_exact(selector: nat, p: Prefix)
    requires
        p.len == p.width(),
    ensures
        key_matches_spec(selector, KeyModel::Lpm(p)) <==> selector == p.addr_value(),
{
    vstd::arithmetic::power2::lemma2_to64();
    let one = vstd::arithmetic::power2::pow2((p.width() - p.len) as nat);
    assert(one == 1);
    assert(selector / one == selector);
    assert(p.addr_value() / one == p.addr_value());
}

/// No entry has a lower priority than one behind it.
pub open spec fn descending(s: Seq<EntryModel>) -> bool {
    forall|i: int, j: int| 0 <= i < j < s.len() ==> s[i].priority >= s[j].priority
}

/// Where `insert_by_priority` puts `e`: behind every entry whose priority
/// is at least its own, before the lower ones that follow.
proof fn lemma_insert_shape(s: Seq<EntryModel>, e: EntryModel) -> (p: int)
    ensures
        0 <= p <= s.len(),
        insert_by_priority(s, e) == s.insert(p, e),
        forall|k: int| p <= k < s.len() ==> s[k].priority < e.priority,
        p == 0 || s[p - 1].priority >= e.priority,
    decreases s.len(),
{
    if s.len() == 0 {
        assert(seq![e] =~= s.insert(0, e));
        0
    } else if s.last().priority >= e.priority {
        assert(s.push(e) =~= s.insert(s.len() as int, e));
        s.len() as int
    } else {
        let p = lemma_insert_shape(s.drop_last(), e);
        assert(s.drop_last().insert(p, e).push(s.last()) =~= s.insert(p, e));
        assert forall|k: int| p <= k < s.len() implies s[k].priority < e.priority by {
            if k < s.len() - 1 {
                assert(s.drop_last()[k] == s[k]);
            }
        }
        assert(p == 0 || s.drop_last()[p - 1] == s[p - 1]);
        p
    }
}

/// Ordering by priority keeps every entry, each as often as it stood
/// there.
pub proof fn lemma_by_priority_permutes(s: Seq<EntryModel>)
    ensures
        by_priority(s).to_multiset() == s.to_multiset(),
        by_priority(s).len() == s.len(),
    decreases s.len(),
{
    if s.len() > 0 {
        lemma_by_priority_permutes(s.drop_last());
        let r = by_priority(s.drop_last());
        let p = lemma_insert_shape(r, s.last());
        vstd::seq_lib::to_multiset_insert(r, p, s.last());
        vstd::seq_lib::to_multiset_build(s.drop_last(), s.last());
        assert(s.drop_last().push(s.last()) =~= s);
    }
}

/// Ordering by priority gives a list in descending priority.
pub proof fn lemma_by_priority_descending(s: Seq<EntryModel>)
    ensures
        descending(by_priority(s)),
    decreases s.len(),
{
    if s.len() > 0 {
        lemma_by_priority_descending(s.drop_last());
        let r = by_priority(s.drop_last());
        let e = s.last();
        let p = lemma_insert_shape(r, e);
        let t = r.insert(p, e);
        assert forall|i: int, j: int| 0 <= i < j < t.len() implies t[i].priority
            >= t[j].priority by {
            if j < p {
                assert(t[i] == r[i] && t[j] == r[j]);
            } else if j == p {
                assert(t[i] == r[i]);
                assert(r[i].priority >= r[p - 1].priority);
            } else if i < p {
                assert(t[i] == r[i] && t[j] == r[j - 1]);
            } else if i == p {
                assert(t[j] == r[j - 1]);
            } else {
                assert(t[i] == r[i - 1] && t[j] == r[j - 1]);
            }
        }
    }
}

/// Two lists with the same entries, each as often, have the same members.
proof fn lemma_same_members(a: Seq<EntryModel>, b: Seq<EntryModel>, x: EntryModel)
    requires
        a.to_multiset() == b.to_multiset(),
        a.contains(x),
    ensures
        b.contains(x),
{
    vstd::seq_lib::to_multiset_contains(a, x);
    vstd::seq_lib::to_multiset_contains(b, x);
}

/// No prefix in dimension `d` is longer than the longest.
pub proof fn lemma_longest_prefix_is_max(entries: Seq<EntryModel>, d: int, i: int)
    requires
        0 <= i < entries.len(),
    ensures
        lpm_len(entries[i].key, d) is Some ==> lpm_len(entries[i].key, d)->0 <= longest_prefix(
            entries,
            d,
        ),
    decreases entries.len(),
{
    if i < entries.len() - 1 {
        lemma_longest_prefix_is_max(entries.drop_last(), d, i);
    }
}

/// Every entry that pruning keeps is one of the entries and has the
/// longest prefix in dimension `d`.
pub proof fn lemma_pruned_entries(entries: Seq<EntryModel>, d: int, i: int)
    requires
        0 <= i < pruned(entries, d).len(),
    ensures
        entries.contains(pruned(entries, d)[i]),
        lpm_len(pruned(entries, d)[i].key, d) == Some(longest_prefix(entries, d)),
{
    let pred = |e: EntryModel| lpm_len(e.key, d) == Some(longest_prefix(entries, d));
    let x = entries.filter(pred)[i];
    entries.lemma_filter_pred(pred, i);
    assert(entries.filter(pred).contains(x));
    entries.lemma_filter_contains_rev(pred, x);
}

/// Every entry of the ordered list is one of the entries.
pub proof fn lemma_ordered_entries(entries: Seq<EntryModel>, i: int)
    requires
        0 <= i < ordered(entries).len(),
    ensures
        entries.contains(ordered(entries)[i]),
{
    let x = ordered(entries)[i];
    if entries.len() > 0 {
        match first_lpm(entries[0].key, 0) {
            Some(d) => {
                let kept = pruned(entries, d);
                lemma_by_priority_permutes(kept);
                assert(by_priority(kept).contains(x));
                lemma_same_members(by_priority(kept), kept, x);
                let k = choose|k: int| 0 <= k < kept.len() && kept[k] == x;
                lemma_pruned_entries(entries, d, k);
            },
            None => {
                lemma_by_priority_permutes(entries);
                assert(by_priority(entries).contains(x));
                lemma_same_members(by_priority(entries), entries, x);
            },
        }
    }
}

/// Every entry that a lookup returns is an entry of the table, and the
/// selector matches its keyset.
pub proof fn lemma_selected_entries_match(entries: Seq<EntryModel>, selector: Seq<nat>, i: int)
    requires
        0 <= i < selected(entries, selector).len(),
    ensures
        keyset_matches_spec(selector, selected(entries, selector)[i].key),
        entries.contains(selected(entries, selector)[i]),
{
    let pred = |e: EntryModel| keyset_matches_spec(selector, e.key);
    let found = matching(entries, selector);
    let x = selected(entries, selector)[i];
    lemma_ordered_entries(found, i);
    let k = choose|k: int| 0 <= k < found.len() && found[k] == x;
    entries.lemma_filter_pred(pred, k);
    entries.lemma_filter_contains_rev(pred, x);
}

/// Of two entries that a lookup returns, the earlier has no lower
/// priority than the later. Where the first matching entry has a prefix
/// dimension `d`, both have a prefix there, of one length: the longest
/// among the matching entries.
pub proof fn lemma_selected_order(entries: Seq<EntryModel>, selector: Seq<nat>, i: int, j: int)
    requires
        0 <= i < j < selected(entries, selector).len(),
    ensures
        selected(entries, selector)[i].priority >= selected(entries, selector)[j].priority,
        forall|d: int|
            first_lpm(matching(entries, selector)[0].key, 0) == Some(d) ==> {
                &&& lpm_len(#[trigger] selected(entries, selector)[i].key, d) == Some(
                    longest_prefix(matching(entries, selector), d),
                )
                &&& lpm_len(selected(entries, selector)[j].key, d) == Some(
                    longest_prefix(matching(entries, selector), d),
                )
            },
        forall|d: int, k: int|
            0 <= k < matching(entries, selector).len() && lpm_len(
                #[trigger] matching(entries, selector)[k].key,
                d,
            ) is Some ==> lpm_len(matching(entries, selector)[k].key, d)->0 <= #[trigger] longest_prefix(
                matching(entries, selector),
                d,
            ),
{
    let found = matching(entries, selector);
    let sel = selected(entries, selector);
    assert(found.len() > 0);
    match first_lpm(found[0].key, 0) {
        Some(d) => {
            let kept = pruned(found, d);
            lemma_by_priority_descending(kept);
            lemma_by_priority_permutes(kept);
            assert(by_priority(kept).contains(sel[i]));
            assert(by_priority(kept).contains(sel[j]));
            lemma_same_members(by_priority(kept), kept, sel[i]);
            lemma_same_members(by_priority(kept), kept, sel[j]);
            let ki = choose|k: int| 0 <= k < kept.len() && kept[k] == sel[i];
            let kj = choose|k: int| 0 <= k < kept.len() && kept[k] == sel[j];
            lemma_pruned_entries(found, d, ki);
            lemma_pruned_entries(found, d, kj);
        },
        None => {
            lemma_by_priority_descending(found);
        },
    }
    assert forall|d: int, k: int|
        0 <= k < found.len() && lpm_len(#[trigger] found[k].key, d) is Some implies lpm_len(
        found[k].key,
        d,
    )->0 <= #[trigger] longest_prefix(found, d) by {
        lemma_longest_prefix_is_max(found, d, k);
    }
}

/// A lookup is a function of the table and the selector: two results
/// for one table and one selector are the same list.
pub proof fn lemma_match_selector_deterministic<const D: usize, A: Clone>(
    table: Table<D, A>,
    keyset: [BigUint; D],
    first: Vec<TableEntry<D, A>>,
    second: Vec<TableEntry<D, A>>,
)
    requires
        entry_views(first@) == selected(table@, selector_view(keyset@)),
        entry_views(second@) == selected(table@, selector_view(keyset@)),
    ensures
        entry_views(first@) == entry_views(second@),
        first@.len() == second@.len(),
{
    assert(entry_views(first@).len() == first@.len());
    assert(entry_views(second@).len() == second@.len());
}

} // verus!
