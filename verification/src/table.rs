//! The match-action table: keys of four match kinds, entries, and the
//! selection of the entries that a selector matches, in priority order.

use vstd::prelude::*;
use vstd::string::StringExecFns;
use num::bigint::BigUint;
use crate::big::{big_value, nat_and, big_eq, big_le, big_and, big_to_u128, big_to_u32, big_clone};

verus! {

/// An IPv4 or IPv6 address as the unsigned integer of its octets in
/// network order.
#[derive(Debug, Clone, Copy, PartialEq, Eq, Structural)]
pub enum IpAddr {
    V4(u32),
    V6(u128),
}

/// An address prefix: the high `len` bits of `addr`.
#[derive(Debug, Clone, Copy, PartialEq, Eq, Structural)]
pub struct Prefix {
    pub addr: IpAddr,
    pub len: u8,
}

/// A ternary key: anything, one value, or a value under a mask.
#[derive(Debug)]
pub enum Ternary {
    DontCare,
    Value(BigUint),
    Masked(BigUint, BigUint),
}

/// One dimension of a table key.
#[derive(Debug)]
pub enum Key {
    Exact(BigUint),
    Range(BigUint, BigUint),
    Ternary(Ternary),
    Lpm(Prefix),
}

/// A ternary key over the numbers it holds.
pub enum TernaryModel {
    DontCare,
    Value(nat),
    Masked(nat, nat),
}

/// A key over the numbers it holds.
pub enum KeyModel {
    Exact(nat),
    Range(nat, nat),
    Ternary(TernaryModel),
    Lpm(Prefix),
}

impl Prefix {
    /// The number of bits of the address family.
    pub open spec fn width(&self) -> nat {
        match self.addr {
            IpAddr::V4(_) => 32,
            IpAddr::V6(_) => 128,
        }
    }

    /// The address as a number.
    pub open spec fn addr_value(&self) -> nat {
        match self.addr {
            IpAddr::V4(a) => a as nat,
            IpAddr::V6(a) => a as nat,
        }
    }

    /// The prefix is no longer than an address.
    pub open spec fn wf(&self) -> bool {
        self.len <= self.width()
    }
}

impl View for Ternary {
    type V = TernaryModel;

    open spec fn view(&self) -> TernaryModel {
        match *self {
            Ternary::DontCare => TernaryModel::DontCare,
            Ternary::Value(v) => TernaryModel::Value(big_value(v)),
            Ternary::Masked(v, m) => TernaryModel::Masked(big_value(v), big_value(m)),
        }
    }
}

impl View for Key {
    type V = KeyModel;

    open spec fn view(&self) -> KeyModel {
        match *self {
            Key::Exact(v) => KeyModel::Exact(big_value(v)),
            Key::Range(lo, hi) => KeyModel::Range(big_value(lo), big_value(hi)),
            Key::Ternary(t) => KeyModel::Ternary(t@),
            Key::Lpm(p) => KeyModel::Lpm(p),
        }
    }
}

/// The high `len` bits of `x`, read as a number of `width` bits.
pub open spec fn high_bits(x: nat, width: nat, len: nat) -> nat {
    x / vstd::arithmetic::power2::pow2((width - len) as nat)
}

/// Whether a selector matches one key.
pub open spec fn key_matches_spec(selector: nat, key: KeyModel) -> bool {
    match key {
        KeyModel::Exact(v) => selector == v,
        KeyModel::Range(lo, hi) => lo <= selector && selector <= hi,
        KeyModel::Ternary(TernaryModel::DontCare) => true,
        KeyModel::Ternary(TernaryModel::Value(v)) => selector == v,
        KeyModel::Ternary(TernaryModel::Masked(v, m)) => nat_and(selector, m) == nat_and(v, m),
        KeyModel::Lpm(p) => high_bits(selector, p.width(), p.len as nat) == high_bits(
            p.addr_value(),
            p.width(),
            p.len as nat,
        ),
    }
}

/// What matching asks of a selector and a key: a prefix is no longer than
/// its address, and the selector fits the address's width.
pub open spec fn key_admits(selector: nat, key: KeyModel) -> bool {
    match key {
        KeyModel::Lpm(p) => p.wf() && selector < vstd::arithmetic::power2::pow2(p.width()),
        _ => true,
    }
}

/// Whether the selector matches the key. A prefix key asks that the
/// selector fits the width of its address.
pub fn key_matches(selector: &BigUint, key: &Key) -> (r: bool)
    requires
        key_admits(big_value(*selector), key@),
    ensures
        r == key_matches_spec(big_value(*selector), key@),
{
    match key {
        Key::Exact(x) => big_eq(selector, x),
        Key::Range(begin, end) => big_le(begin, selector) && big_le(selector, end),
        Key::Ternary(t) => match t {
            Ternary::DontCare => true,
            Ternary::Value(x) => big_eq(selector, x),
            Ternary::Masked(x, m) => {
                let a = big_and(selector, m);
                let b = big_and(x, m);
                big_eq(&a, &b)
            },
        },
        Key::Lpm(p) => {
            proof {
                vstd::arithmetic::power2::lemma2_to64();
                vstd::arithmetic::power2::lemma2_to64_rest();
            }
            match p.addr {
                IpAddr::V6(addr) => {
                    proof {
                        lemma_pow2_128();
                    }
                    let selector_v6 = big_to_u128(selector).unwrap();
                    if p.len == 0 {
                        proof {
                            lemma_div_small(selector_v6 as nat, vstd::arithmetic::power2::pow2(128));
                            lemma_div_small(addr as nat, vstd::arithmetic::power2::pow2(128));
                        }
                        true
                    } else {
                        let shift: u128 = (128 - p.len) as u128;
                        proof {
                            vstd::bits::lemma_u128_shr_is_div(selector_v6, shift);
                            vstd::bits::lemma_u128_shr_is_div(addr, shift);
                        }
                        (selector_v6 >> shift) == (addr >> shift)
                    }
                },
                IpAddr::V4(addr) => {
                    let selector_v4 = big_to_u32(selector).unwrap();
                    if p.len == 0 {
                        proof {
                            lemma_div_small(selector_v4 as nat, vstd::arithmetic::power2::pow2(32));
                            lemma_div_small(addr as nat, vstd::arithmetic::power2::pow2(32));
                        }
                        true
                    } else {
                        let shift: u32 = (32 - p.len) as u32;
                        proof {
                            vstd::bits::lemma_u32_shr_is_div(selector_v4, shift);
                            vstd::bits::lemma_u32_shr_is_div(addr, shift);
                        }
                        (selector_v4 >> shift) == (addr >> shift)
                    }
                },
            }
        },
    }
}

/// 2^128 as a literal.
pub proof fn lemma_pow2_128()
    ensures
        vstd::arithmetic::power2::pow2(128) == 0x1_0000_0000_0000_0000_0000_0000_0000_0000,
{
    vstd::arithmetic::power2::lemma2_to64();
    vstd::arithmetic::power2::lemma2_to64_rest();
    vstd::arithmetic::power2::lemma_pow2_adds(64, 64);
    assert(0x1_0000_0000_0000_0000int * 0x1_0000_0000_0000_0000int
        == 0x1_0000_0000_0000_0000_0000_0000_0000_0000int) by (nonlinear_arith);
}

/// A number divided by a larger one is 0.
proof fn lemma_div_small(x: nat, d: nat)
    requires
        x < d,
    ensures
        x / d == 0,
{
    vstd::arithmetic::div_mod::lemma_basic_div(x as int, d as int);
}


impl Clone for Ternary {
    fn clone(&self) -> (r: Self)
        ensures
            r@ == self@,
    {
        match self {
            Ternary::DontCare => Ternary::DontCare,
            Ternary::Value(v) => Ternary::Value(big_clone(v)),
            Ternary::Masked(v, m) => Ternary::Masked(big_clone(v), big_clone(m)),
        }
    }
}

impl Default for Ternary {
    fn default() -> (r: Self)
        ensures
            r@ == TernaryModel::DontCare,
    {
        Ternary::DontCare
    }
}

impl Clone for Key {
    fn clone(&self) -> (r: Self)
        ensures
            r@ == self@,
    {
        match self {
            Key::Exact(v) => Key::Exact(big_clone(v)),
            Key::Range(lo, hi) => Key::Range(big_clone(lo), big_clone(hi)),
            Key::Ternary(t) => Key::Ternary(t.clone()),
            Key::Lpm(p) => Key::Lpm(*p),
        }
    }
}

impl Default for Key {
    fn default() -> (r: Self)
        ensures
            r@ == KeyModel::Ternary(TernaryModel::DontCare),
    {
        Key::Ternary(Ternary::DontCare)
    }
}

/// A keyset as its models, dimension by dimension.
pub open spec fn key_view(key: Seq<Key>) -> Seq<KeyModel> {
    key.map_values(|k: Key| k@)
}

/// A selector as its numbers, dimension by dimension.
pub open spec fn selector_view(selector: Seq<BigUint>) -> Seq<nat> {
    selector.map_values(|b: BigUint| big_value(b))
}

/// Whether a selector matches every key of a keyset.
pub open spec fn keyset_matches_spec(selector: Seq<nat>, key: Seq<KeyModel>) -> bool {
    forall|i: int| 0 <= i < key.len() ==> key_matches_spec(selector[i], #[trigger] key[i])
}

/// What matching asks of a selector and a keyset, dimension by dimension.
pub open spec fn keyset_admits(selector: Seq<nat>, key: Seq<KeyModel>) -> bool {
    forall|i: int| 0 <= i < key.len() ==> key_admits(selector[i], #[trigger] key[i])
}

/// Whether the selector matches the keyset: every key, each in its
/// dimension.
pub fn keyset_matches<const D: usize>(selector: &[BigUint; D], key: &[Key; D]) -> (r: bool)
    requires
        keyset_admits(selector_view(selector@), key_view(key@)),
    ensures
        r == keyset_matches_spec(selector_view(selector@), key_view(key@)),
{
    let mut i: usize = 0;
    while i < D
        invariant
            i <= D,
            keyset_admits(selector_view(selector@), key_view(key@)),
            forall|j: int|
                0 <= j < i ==> key_matches_spec(
                    selector_view(selector@)[j],
                    #[trigger] key_view(key@)[j],
                ),
        decreases D - i,
    {
        assert(key_admits(selector_view(selector@)[i as int], key_view(key@)[i as int]));
        if !key_matches(&selector[i], &key[i]) {
            assert(!key_matches_spec(selector_view(selector@)[i as int], key_view(key@)[i as int]));
            return false;
        }
        i += 1;
    }
    true
}

/// An entry of a table. Two entries with the same keyset are the same
/// entry to the table, whatever their priority and action.
pub struct TableEntry<const D: usize, A: Clone> {
    pub key: [Key; D],
    pub action: A,
    pub priority: u32,
    pub name: String,
}

/// What matching and ordering read of an entry. The action is a handle
/// that the table only carries.
pub struct EntryModel {
    pub key: Seq<KeyModel>,
    pub priority: u32,
    pub name: Seq<char>,
}

impl<const D: usize, A: Clone> View for TableEntry<D, A> {
    type V = EntryModel;

    open spec fn view(&self) -> EntryModel {
        EntryModel { key: key_view(self.key@), priority: self.priority, name: self.name@ }
    }
}

impl<const D: usize, A: Clone> Clone for TableEntry<D, A> {
    fn clone(&self) -> (r: Self)
        ensures
            r@ == self@,
            vstd::pervasive::cloned(self.action, r.action),
    {
        let key = self.key.clone();
        proof {
            assert forall|i: int| 0 <= i < D implies (#[trigger] key@[i])@ == self.key@[i]@ by {
                assert(vstd::pervasive::cloned::<Key>(self.key@[i], key@[i]));
            }
            assert(key_view(key@) =~= key_view(self.key@));
        }
        TableEntry {
            key,
            action: self.action.clone(),
            priority: self.priority,
            name: self.name.clone(),
        }
    }
}

/// A list of entries as their models.
pub open spec fn entry_views<const D: usize, A: Clone>(entries: Seq<TableEntry<D, A>>) -> Seq<
    EntryModel,
> {
    entries.map_values(|e: TableEntry<D, A>| e@)
}

/// The entries that a selector matches, in the order in which they stand.
pub open spec fn matching(entries: Seq<EntryModel>, selector: Seq<nat>) -> Seq<EntryModel> {
    entries.filter(|e: EntryModel| keyset_matches_spec(selector, e.key))
}

/// The first dimension at or after `from` whose key is a prefix.
pub open spec fn first_lpm(key: Seq<KeyModel>, from: int) -> Option<int>
    decreases key.len() - from,
{
    if from < 0 || from >= key.len() {
        None
    } else if key[from] is Lpm {
        Some(from)
    } else {
        first_lpm(key, from + 1)
    }
}

/// The prefix length of a keyset in dimension `d`, where its key there is
/// a prefix.
pub open spec fn lpm_len(key: Seq<KeyModel>, d: int) -> Option<u8> {
    if 0 <= d < key.len() {
        match key[d] {
            KeyModel::Lpm(p) => Some(p.len),
            _ => None,
        }
    } else {
        None
    }
}

/// The longest prefix length in dimension `d` over the entries; 0 where
/// none has a prefix there.
pub open spec fn longest_prefix(entries: Seq<EntryModel>, d: int) -> u8
    decreases entries.len(),
{
    if entries.len() == 0 {
        0
    } else {
        let rest = longest_prefix(entries.drop_last(), d);
        match lpm_len(entries.last().key, d) {
            Some(l) => if l > rest { l } else { rest },
            None => rest,
        }
    }
}

/// The entries whose key in dimension `d` is a prefix of the longest
/// length found there, in the order in which they stand.
pub open spec fn pruned(entries: Seq<EntryModel>, d: int) -> Seq<EntryModel> {
    entries.filter(|e: EntryModel| lpm_len(e.key, d) == Some(longest_prefix(entries, d)))
}

/// `e` put into `s` behind the last entry whose priority is at least its
/// own.
pub open spec fn insert_by_priority(s: Seq<EntryModel>, e: EntryModel) -> Seq<EntryModel>
    decreases s.len(),
{
    if s.len() == 0 {
        seq![e]
    } else if s.last().priority >= e.priority {
        s.push(e)
    } else {
        insert_by_priority(s.drop_last(), e).push(s.last())
    }
}

/// The entries in descending priority; entries of one priority keep
/// their order.
pub open spec fn by_priority(s: Seq<EntryModel>) -> Seq<EntryModel>
    decreases s.len(),
{
    if s.len() == 0 {
        s
    } else {
        insert_by_priority(by_priority(s.drop_last()), s.last())
    }
}

/// The order in which matches are handed out: where the first entry has
/// a prefix dimension, only the longest prefixes there stay; what stays
/// is put in descending priority.
pub open spec fn ordered(entries: Seq<EntryModel>) -> Seq<EntryModel> {
    if entries.len() == 0 {
        entries
    } else {
        match first_lpm(entries[0].key, 0) {
            Some(d) => by_priority(pruned(entries, d)),
            None => by_priority(entries),
        }
    }
}

/// What a lookup returns: the matching entries, ordered.
pub open spec fn selected(entries: Seq<EntryModel>, selector: Seq<nat>) -> Seq<EntryModel> {
    ordered(matching(entries, selector))
}

/// Whether `r` is a copy of an entry of `source`: it has that entry's
/// keyset, priority and name, and its action is that entry's action or a
/// clone of it.
pub open spec fn from_entry<const D: usize, A: Clone>(
    source: Seq<TableEntry<D, A>>,
    r: TableEntry<D, A>,
) -> bool {
    exists|j: int|
        0 <= j < source.len() && (#[trigger] source[j])@ == r@ && vstd::pervasive::cloned(
            source[j].action,
            r.action,
        )
}

/// Whether every entry of `result` is a copy of an entry of `source`.
pub open spec fn all_from<const D: usize, A: Clone>(
    source: Seq<TableEntry<D, A>>,
    result: Seq<TableEntry<D, A>>,
) -> bool {
    forall|i: int| 0 <= i < result.len() ==> from_entry(source, #[trigger] result[i])
}

/// Whether `r` is a copy of a copy of an entry of `source`: it has that
/// entry's keyset, priority and name, and its action came from that
/// entry's action by cloning, at most twice.
pub open spec fn from_entry_twice<const D: usize, A: Clone>(
    source: Seq<TableEntry<D, A>>,
    r: TableEntry<D, A>,
) -> bool {
    exists|j: int, between: A|
        0 <= j < source.len() && (#[trigger] source[j])@ == r@ && vstd::pervasive::cloned(
            source[j].action,
            between,
        ) && #[trigger] vstd::pervasive::cloned(between, r.action)
}

/// An entry of a list with the same entries as `s`, each as often, is an
/// entry of `s`.
proof fn lemma_permuted_entry<const D: usize, A: Clone>(
    s: Seq<TableEntry<D, A>>,
    t: Seq<TableEntry<D, A>>,
    i: int,
) -> (j: int)
    requires
        s.to_multiset() == t.to_multiset(),
        0 <= i < t.len(),
    ensures
        0 <= j < s.len(),
        s[j] == t[i],
{
    assert(t.contains(t[i]));
    vstd::seq_lib::to_multiset_contains(t, t[i]);
    vstd::seq_lib::to_multiset_contains(s, t[i]);
    choose|j: int| 0 <= j < s.len() && s[j] == t[i]
}

/// Where `e` goes: position `p` of `s` is where `insert_by_priority` puts
/// it, if all from `p` on have a lower priority and the one before has not.
proof fn lemma_insert_position(s: Seq<EntryModel>, e: EntryModel, p: int)
    requires
        0 <= p <= s.len(),
        forall|k: int| p <= k < s.len() ==> s[k].priority < e.priority,
        p == 0 || s[p - 1].priority >= e.priority,
    ensures
        insert_by_priority(s, e) == s.insert(p, e),
    decreases s.len(),
{
    if s.len() == 0 {
        assert(seq![e] =~= s.insert(p, e));
    } else if s.last().priority >= e.priority {
        assert(p == s.len());
        assert(s.push(e) =~= s.insert(p, e));
    } else {
        assert(p < s.len());
        lemma_insert_position(s.drop_last(), e, p);
        assert(s.drop_last().insert(p, e).push(s.last()) =~= s.insert(p, e));
    }
}

/// Puts the entries in descending priority; entries of one priority
/// keep their order.
pub fn sort_entries_by_priority<const D: usize, A: Clone>(entries: &mut Vec<TableEntry<D, A>>)
    ensures
        entry_views(final(entries)@) == by_priority(entry_views(old(entries)@)),
        final(entries)@.to_multiset() == old(entries)@.to_multiset(),
{
    let ghost orig = entries@;
    let n = entries.len();
    let mut out: Vec<TableEntry<D, A>> = Vec::new();
    let mut i: usize = 0;
    proof {
        assert(orig.skip(0) =~= orig);
        assert(entry_views(orig.take(0)) =~= Seq::<EntryModel>::empty());
        assert(orig.take(0) =~= out@);
    }
    while i < n
        invariant
            i <= n,
            n == orig.len(),
            entries@ == orig.skip(i as int),
            entry_views(out@) == by_priority(entry_views(orig.take(i as int))),
            out@.to_multiset() == orig.take(i as int).to_multiset(),
        decreases n - i,
    {
        let e = entries.remove(0);
        let mut p = out.len();
        while p > 0 && out[p - 1].priority < e.priority
            invariant
                p <= out.len(),
                forall|k: int| p <= k < out.len() ==> out@[k].priority < e.priority,
            decreases p,
        {
            p -= 1;
        }
        proof {
            let done = entry_views(orig.take(i as int));
            let next = entry_views(orig.take(i + 1));
            assert(next.drop_last() =~= done);
            assert(next.last() == e@);
            lemma_insert_position(entry_views(out@), e@, p as int);
            assert(entry_views(out@.insert(p as int, e)) =~= entry_views(out@).insert(p as int, e@));
            assert(orig.skip(i as int).remove(0) =~= orig.skip(i + 1));
            assert(orig.take(i + 1) =~= orig.take(i as int).push(e));
            vstd::seq_lib::to_multiset_insert(out@, p as int, e);
            vstd::seq_lib::to_multiset_build(orig.take(i as int), e);
        }
        out.insert(p, e);
        i += 1;
    }
    proof {
        assert(orig.take(n as int) =~= orig);
    }
    *entries = out;
}

/// Copies of the entries whose key in dimension `d` is a prefix of the
/// longest length found there, in their order.
pub fn prune_entries_by_lpm<const D: usize, A: Clone>(
    d: usize,
    entries: &Vec<TableEntry<D, A>>,
) -> (result: Vec<TableEntry<D, A>>)
    requires
        d < D || entries.len() == 0,
    ensures
        entry_views(result@) == pruned(entry_views(entries@), d as int),
        all_from(entries@, result@),
{
    let ghost models = entry_views(entries@);
    let mut longest: u8 = 0;
    let mut i: usize = 0;
    proof {
        assert(models.take(0) =~= Seq::<EntryModel>::empty());
    }
    while i < entries.len()
        invariant
            i <= entries.len(),
            d < D || entries.len() == 0,
            models == entry_views(entries@),
            longest == longest_prefix(models.take(i as int), d as int),
        decreases entries.len() - i,
    {
        proof {
            assert(models.take(i + 1).drop_last() =~= models.take(i as int));
            assert(models.take(i + 1).last() == entries@[i as int]@);
        }
        match &entries[i].key[d] {
            Key::Lpm(x) => {
                if x.len > longest {
                    longest = x.len;
                }
            },
            _ => {},
        }
        i += 1;
    }
    proof {
        assert(models.take(entries.len() as int) =~= models);
        assert(models.take(0).filter(|e: EntryModel| lpm_len(e.key, d as int) == Some(longest))
            =~= Seq::<EntryModel>::empty()) by {
            reveal(Seq::filter);
        }
    }
    let mut result: Vec<TableEntry<D, A>> = Vec::new();
    let mut j: usize = 0;
    while j < entries.len()
        invariant
            j <= entries.len(),
            d < D || entries.len() == 0,
            models == entry_views(entries@),
            longest == longest_prefix(models, d as int),
            entry_views(result@) == models.take(j as int).filter(
                |e: EntryModel| lpm_len(e.key, d as int) == Some(longest),
            ),
            all_from(entries@, result@),
        decreases entries.len() - j,
    {
        let ghost pred = |e: EntryModel| lpm_len(e.key, d as int) == Some(longest);
        let ghost before = entry_views(result@);
        proof {
            assert(models.take(j + 1) =~= models.take(j as int).push(entries@[j as int]@));
            models.take(j as int).lemma_filter_push(entries@[j as int]@, pred);
        }
        match &entries[j].key[d] {
            Key::Lpm(x) => {
                if x.len == longest {
                    let ghost kept = result@;
                    let e = entries[j].clone();
                    result.push(e);
                    proof {
                        assert(entry_views(result@) =~= before.push(entries@[j as int]@));
                        assert(from_entry(entries@, e)) by {
                            assert(entries@[j as int]@ == e@);
                        }
                        assert forall|i: int| 0 <= i < result@.len() implies from_entry(
                            entries@,
                            #[trigger] result@[i],
                        ) by {
                            if i < kept.len() {
                                assert(result@[i] == kept[i]);
                            }
                        }
                    }
                }
            },
            _ => {},
        }
        j += 1;
    }
    proof {
        assert(models.take(entries.len() as int) =~= models);
    }
    result
}

/// Orders matches as they are handed out: by the longest prefix where the
/// first entry has a prefix dimension, then by priority.
pub fn sort_entries<const D: usize, A: Clone>(entries: Vec<TableEntry<D, A>>) -> (result: Vec<
    TableEntry<D, A>,
>)
    ensures
        entry_views(result@) == ordered(entry_views(entries@)),
        all_from(entries@, result@),
{
    if entries.len() == 0 {
        return entries;
    }
    let ghost key = entry_views(entries@)[0].key;
    let mut i: usize = 0;
    while i < D
        invariant
            i <= D,
            entries.len() > 0,
            key == entry_views(entries@)[0].key,
            key.len() == D,
            first_lpm(key, 0) == first_lpm(key, i as int),
        decreases D - i,
    {
        match &entries[0].key[i] {
            Key::Lpm(_) => {
                proof {
                    assert(key[i as int] == entries@[0].key@[i as int]@);
                }
                let mut kept = prune_entries_by_lpm(i, &entries);
                let ghost unsorted = kept@;
                sort_entries_by_priority(&mut kept);
                proof {
                    assert forall|k: int| 0 <= k < kept@.len() implies from_entry(
                        entries@,
                        #[trigger] kept@[k],
                    ) by {
                        let j = lemma_permuted_entry(unsorted, kept@, k);
                        assert(from_entry(entries@, unsorted[j]));
                    }
                }
                return kept;
            },
            _ => {
                proof {
                    assert(key[i as int] == entries@[0].key@[i as int]@);
                }
            },
        }
        i += 1;
    }
    let mut all = entries;
    sort_entries_by_priority(&mut all);
    proof {
        assert forall|k: int| 0 <= k < all@.len() implies from_entry(
            entries@,
            #[trigger] all@[k],
        ) by {
            let j = lemma_permuted_entry(entries@, all@, k);
            assert(entries@[j]@ == all@[k]@);
        }
    }
    all
}

/// A match-action table of `D` dimensions: its entries in the order in
/// which they were put in, searched one by one.
pub struct Table<const D: usize, A: Clone> {
    pub entries: Vec<TableEntry<D, A>>,
}

impl<const D: usize, A: Clone> Table<D, A> {
    /// The entries as their models, in the order in which they were put in.
    pub open spec fn view(&self) -> Seq<EntryModel> {
        entry_views(self.entries@)
    }

    /// No two entries have the same key.
    pub open spec fn wf(&self) -> bool {
        forall|i: int, j: int|
            0 <= i < j < self@.len() ==> (#[trigger] self@[i]).key != (#[trigger] self@[j]).key
    }

    /// Every keyset of the table admits the selector.
    pub open spec fn admits(&self, selector: Seq<nat>) -> bool {
        forall|i: int| 0 <= i < self@.len() ==> keyset_admits(selector, (#[trigger] self@[i]).key)
    }

    /// A table without entries.
    pub fn new() -> (r: Self)
        ensures
            r@ == Seq::<EntryModel>::empty(),
            r.wf(),
    {
        let r = Table { entries: Vec::new() };
        assert(r@ =~= Seq::<EntryModel>::empty());
        r
    }

    /// Copies of the entries that the selector matches, ordered as
    /// `sort_entries` orders them. The table stays as it is.
    pub fn match_selector(&self, keyset: &[BigUint; D]) -> (result: Vec<TableEntry<D, A>>)
        requires
            self.admits(selector_view(keyset@)),
        ensures
            entry_views(result@) == selected(self@, selector_view(keyset@)),
            forall|i: int|
                0 <= i < result@.len() ==> from_entry_twice(self.entries@, #[trigger] result@[i]),
    {
        let ghost selector = selector_view(keyset@);
        let ghost pred = |e: EntryModel| keyset_matches_spec(selector, e.key);
        let mut result: Vec<TableEntry<D, A>> = Vec::new();
        let mut i: usize = 0;
        proof {
            assert(self@.take(0).filter(pred) =~= Seq::<EntryModel>::empty()) by {
                reveal(Seq::filter);
            }
        }
        while i < self.entries.len()
            invariant
                i <= self.entries.len(),
                self.admits(selector),
                selector == selector_view(keyset@),
                pred == |e: EntryModel| keyset_matches_spec(selector, e.key),
                entry_views(result@) == self@.take(i as int).filter(pred),
                all_from(self.entries@, result@),
            decreases self.entries.len() - i,
        {
            let ghost before = entry_views(result@);
            let ghost found = result@;
            proof {
                assert(self@[i as int] == self.entries@[i as int]@);
                assert(self@.take(i + 1) =~= self@.take(i as int).push(self.entries@[i as int]@));
                self@.take(i as int).lemma_filter_push(self.entries@[i as int]@, pred);
            }
            if keyset_matches(keyset, &self.entries[i].key) {
                let e = self.entries[i].clone();
                result.push(e);
                proof {
                    assert(entry_views(result@) =~= before.push(self.entries@[i as int]@));
                    assert(from_entry(self.entries@, e)) by {
                        assert(self.entries@[i as int]@ == e@);
                    }
                    assert forall|k: int| 0 <= k < result@.len() implies from_entry(
                        self.entries@,
                        #[trigger] result@[k],
                    ) by {
                        if k < found.len() {
                            assert(result@[k] == found[k]);
                        }
                    }
                }
            }
            i += 1;
        }
        proof {
            assert(self@.take(self.entries.len() as int) =~= self@);
        }
        let sorted = sort_entries(result);
        proof {
            assert forall|i: int| 0 <= i < sorted@.len() implies from_entry_twice(
                self.entries@,
                #[trigger] sorted@[i],
            ) by {
                assert(from_entry(result@, sorted@[i]));
                let m = choose|m: int|
                    0 <= m < result@.len() && (#[trigger] result@[m])@ == sorted@[i]@
                        && vstd::pervasive::cloned(result@[m].action, sorted@[i].action);
                assert(from_entry(self.entries@, result@[m]));
                let j = choose|j: int|
                    0 <= j < self.entries@.len() && (#[trigger] self.entries@[j])@ == result@[m]@
                        && vstd::pervasive::cloned(self.entries@[j].action, result@[m].action);
                assert(self.entries@[j]@ == sorted@[i]@ && vstd::pervasive::cloned(
                    self.entries@[j].action,
                    result@[m].action,
                ) && vstd::pervasive::cloned(result@[m].action, sorted@[i].action));
            }
        }
        sorted
    }
}


impl PartialEq for Ternary {
    fn eq(&self, other: &Self) -> (r: bool) {
        match (self, other) {
            (Ternary::DontCare, Ternary::DontCare) => true,
            (Ternary::Value(a), Ternary::Value(b)) => big_eq(a, b),
            (Ternary::Masked(a, m), Ternary::Masked(b, n)) => big_eq(a, b) && big_eq(m, n),
            _ => false,
        }
    }
}

impl vstd::std_specs::cmp::PartialEqSpecImpl for Ternary {
    open spec fn obeys_eq_spec() -> bool {
        true
    }

    open spec fn eq_spec(&self, other: &Self) -> bool {
        self@ == other@
    }
}

impl Eq for Ternary {

}

impl PartialEq for Key {
    fn eq(&self, other: &Self) -> (r: bool) {
        match (self, other) {
            (Key::Exact(a), Key::Exact(b)) => big_eq(a, b),
            (Key::Range(a, c), Key::Range(b, d)) => big_eq(a, b) && big_eq(c, d),
            (Key::Ternary(a), Key::Ternary(b)) => a == b,
            (Key::Lpm(a), Key::Lpm(b)) => *a == *b,
            _ => false,
        }
    }
}

impl vstd::std_specs::cmp::PartialEqSpecImpl for Key {
    open spec fn obeys_eq_spec() -> bool {
        true
    }

    open spec fn eq_spec(&self, other: &Self) -> bool {
        self@ == other@
    }
}

impl Eq for Key {

}

/// Whether two keysets are the same, dimension by dimension.
pub fn keyset_eq<const D: usize>(a: &[Key; D], b: &[Key; D]) -> (r: bool)
    ensures
        r == (key_view(a@) == key_view(b@)),
{
    let mut i: usize = 0;
    while i < D
        invariant
            i <= D,
            forall|j: int| 0 <= j < i ==> key_view(a@)[j] == key_view(b@)[j],
        decreases D - i,
    {
        if !(a[i] == b[i]) {
            assert(key_view(a@)[i as int] != key_view(b@)[i as int]);
            return false;
        }
        i += 1;
    }
    assert(key_view(a@) =~= key_view(b@));
    true
}

impl<const D: usize, A: Clone> PartialEq for TableEntry<D, A> {
    fn eq(&self, other: &Self) -> (r: bool) {
        keyset_eq(&self.key, &other.key)
    }
}

impl<const D: usize, A: Clone> vstd::std_specs::cmp::PartialEqSpecImpl for TableEntry<D, A> {
    open spec fn obeys_eq_spec() -> bool {
        true
    }

    open spec fn eq_spec(&self, other: &Self) -> bool {
        self@.key == other@.key
    }
}

impl<const D: usize, A: Clone> Eq for TableEntry<D, A> {

}

/// Whether matching can be asked of this selector and key.
pub fn key_fits(selector: &BigUint, key: &Key) -> (r: bool)
    ensures
        r == key_admits(big_value(*selector), key@),
{
    match key {
        Key::Lpm(p) => {
            proof {
                lemma_pow2_128();
                vstd::arithmetic::power2::lemma2_to64();
            }
            match p.addr {
                IpAddr::V6(_) => p.len <= 128 && big_to_u128(selector).is_some(),
                IpAddr::V4(_) => p.len <= 32 && big_to_u32(selector).is_some(),
            }
        },
        _ => true,
    }
}

/// Whether matching can be asked of this selector and keyset.
pub fn keyset_fits<const D: usize>(selector: &[BigUint; D], key: &[Key; D]) -> (r: bool)
    ensures
        r == keyset_admits(selector_view(selector@), key_view(key@)),
{
    let mut i: usize = 0;
    while i < D
        invariant
            i <= D,
            forall|j: int|
                0 <= j < i ==> key_admits(
                    selector_view(selector@)[j],
                    #[trigger] key_view(key@)[j],
                ),
        decreases D - i,
    {
        if !key_fits(&selector[i], &key[i]) {
            assert(!key_admits(selector_view(selector@)[i as int], key_view(key@)[i as int]));
            return false;
        }
        i += 1;
    }
    true
}

impl<const D: usize, A: Clone> Table<D, A> {
    /// Whether a lookup can be asked with this selector.
    pub fn fits(&self, keyset: &[BigUint; D]) -> (r: bool)
        ensures
            r == self.admits(selector_view(keyset@)),
    {
        let mut i: usize = 0;
        while i < self.entries.len()
            invariant
                i <= self.entries.len(),
                forall|j: int|
                    0 <= j < i ==> keyset_admits(
                        selector_view(keyset@),
                        (#[trigger] self@[j]).key,
                    ),
            decreases self.entries.len() - i,
        {
            assert(self@[i as int] == self.entries@[i as int]@);
            if !keyset_fits(keyset, &self.entries[i].key) {
                return false;
            }
            i += 1;
        }
        true
    }

    /// A lookup that answers `None` where the selector does not fit the
    /// table's prefixes, and the matches otherwise.
    pub fn try_match_selector(&self, keyset: &[BigUint; D]) -> (result: Option<
        Vec<TableEntry<D, A>>,
    >)
        ensures
            result is Some == self.admits(selector_view(keyset@)),
            result is Some ==> entry_views(result->0@) == selected(self@, selector_view(keyset@)),
            result is Some ==> forall|i: int|
                0 <= i < result->0@.len() ==> from_entry_twice(
                    self.entries@,
                    #[trigger] result->0@[i],
                ),
    {
        if self.fits(keyset) {
            Some(self.match_selector(keyset))
        } else {
            None
        }
    }

    /// Whether an entry with this keyset is in the table.
    pub open spec fn has_key(&self, key: Seq<KeyModel>) -> bool {
        exists|i: int| 0 <= i < self@.len() && (#[trigger] self@[i]).key == key
    }

    /// Puts an entry in, unless one with the same keyset is there.
    pub fn insert(&mut self, entry: TableEntry<D, A>) -> (r: bool)
        ensures
            r == !old(self).has_key(entry@.key),
            r ==> final(self).entries@ == old(self).entries@.push(entry),
            !r ==> final(self).entries@ == old(self).entries@,
            old(self).wf() ==> final(self).wf(),
    {
        let mut i: usize = 0;
        while i < self.entries.len()
            invariant
                i <= self.entries.len(),
                self == old(self),
                forall|j: int| 0 <= j < i ==> (#[trigger] self@[j]).key != entry@.key,
            decreases self.entries.len() - i,
        {
            assert(self@[i as int] == self.entries@[i as int]@);
            if keyset_eq(&self.entries[i].key, &entry.key) {
                return false;
            }
            i += 1;
        }
        let ghost before = self@;
        self.entries.push(entry);
        proof {
            assert(self@ =~= before.push(entry@));
        }
        true
    }
}


/// The `Debug` text of a keyset.
pub uninterp spec fn key_debug(key: Seq<KeyModel>) -> Seq<char>;

/// `format!` with `{:?}` on a keyset: trusted to give a text that the
/// keys' kinds and numbers decide.
#[verifier::external_body]
fn key_text<const D: usize>(key: &[Key; D]) -> (r: String)
    ensures
        r@ == key_debug(key_view(key@)),
{
    format!("{:?}", key)
}

/// A line for each entry: the `Debug` text of its keyset.
pub open spec fn dump_text(entries: Seq<EntryModel>) -> Seq<char>
    decreases entries.len(),
{
    if entries.len() == 0 {
        Seq::empty()
    } else {
        dump_text(entries.drop_last()) + key_debug(entries.last().key) + "\n"@
    }
}

impl<const D: usize, A: Clone> Table<D, A> {
    /// The keysets of the table as text, one in a line.
    pub fn dump(&self) -> (r: String)
        ensures
            r@ == dump_text(self@),
    {
        let mut s = String::new();
        let mut i: usize = 0;
        proof {
            assert(self@.take(0) =~= Seq::<EntryModel>::empty());
            assert(s@ =~= dump_text(self@.take(0)));
        }
        while i < self.entries.len()
            invariant
                i <= self.entries@.len(),
                s@ == dump_text(self@.take(i as int)),
            decreases self.entries@.len() - i,
        {
            proof {
                assert(self@.take(i + 1).drop_last() =~= self@.take(i as int));
                assert(self@.take(i + 1).last() == self.entries@[i as int]@);
            }
            let line = key_text(&self.entries[i].key);
            s.append(line.as_str());
            s.append("\n");
            i += 1;
        }
        proof {
            assert(self@.take(i as int) =~= self@);
        }
        s
    }
}

} // verus!
