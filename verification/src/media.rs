//! The project's registry of media: a map by identifier, read in ascending
//! order of identifier.

use crate::model::{MediaId, MediaInfo, MediaModel};
use crate::seqs::{first_index, lemma_first_index, lemma_first_index_is, lemma_first_index_none};
use std::collections::BTreeMap;
use vstd::std_specs::btree::{increasing_seq, spec_btree_map_iter};
use vstd::std_specs::iter::IteratorSpec;
use vstd::prelude::*;

verus! {

broadcast use {vstd::std_specs::btree::group_btree_axioms, vstd::laws_cmp::group_laws_cmp};

pub open spec fn media_models(entries: Seq<MediaInfo>) -> Seq<MediaModel> {
    entries.map_values(|info: MediaInfo| info@)
}

/// Identifiers strictly increase along the sequence (so none repeats).
pub open spec fn ids_ascending(s: Seq<MediaModel>) -> bool {
    forall|i: int, j: int| 0 <= i < j < s.len() ==> s[i].id < s[j].id
}

pub open spec fn media_index(s: Seq<MediaModel>, id: MediaId) -> int {
    first_index(s, |m: MediaModel| m.id == id)
}

/// The entry registered under `id`.
pub open spec fn media_lookup(s: Seq<MediaModel>, id: MediaId) -> Option<MediaModel> {
    let i = media_index(s, id);
    if i < 0 { None } else { Some(s[i]) }
}

/// Where an entry with identifier `id` belongs: before the first entry whose
/// identifier is not smaller.
pub open spec fn insert_position(s: Seq<MediaModel>, id: MediaId) -> int {
    let i = first_index(s, |m: MediaModel| m.id >= id);
    if i < 0 { s.len() as int } else { i }
}

/// The registry after registering `m`: an entry with the same identifier is
/// replaced, otherwise `m` is inserted in identifier order.
pub open spec fn media_inserted(s: Seq<MediaModel>, m: MediaModel) -> Seq<MediaModel> {
    let p = insert_position(s, m.id);
    if p < s.len() && s[p].id == m.id { s.update(p, m) } else { s.insert(p, m) }
}

/// The registry keeping only the entries whose identifier is in `ids`.
pub open spec fn media_kept(s: Seq<MediaModel>, ids: Seq<MediaId>) -> Seq<MediaModel> {
    s.filter(|m: MediaModel| ids.contains(m.id))
}

/// The identifiers along a sequence of entries.
pub open spec fn media_ids(s: Seq<MediaModel>) -> Seq<MediaId> {
    s.map_values(|m: MediaModel| m.id)
}

/// Registered media by identifier. Besides the map it keeps, as a ghost, the
/// entries in ascending order of identifier, which is how they are read.
pub struct MediaTable {
    map: BTreeMap<MediaId, MediaInfo>,
    order: Ghost<Seq<MediaModel>>,
}

impl View for MediaTable {
    type V = Seq<MediaModel>;

    closed spec fn view(&self) -> Seq<MediaModel> {
        self.order@
    }
}

/// Two strictly ascending sequences of identifiers with the same members
/// are the same sequence.
proof fn lemma_ascending_same_members(a: Seq<MediaId>, b: Seq<MediaId>)
    requires
        forall|i: int, j: int| 0 <= i < j < a.len() ==> a[i] < a[j],
        forall|i: int, j: int| 0 <= i < j < b.len() ==> b[i] < b[j],
        forall|x: MediaId| a.contains(x) <==> b.contains(x),
    ensures
        a == b,
    decreases a.len() + b.len(),
{
    if a.len() == 0 {
        if b.len() > 0 {
            assert(b.contains(b[0]));
        }
        assert(a =~= b);
    } else if b.len() == 0 {
        assert(a.contains(a[0]));
    } else {
        assert(a.contains(a[0]));
        assert(b.contains(b[0]));
        let i = choose|i: int| 0 <= i < a.len() && a[i] == b[0];
        let j = choose|j: int| 0 <= j < b.len() && b[j] == a[0];
        if i > 0 {
            assert(a[0] < a[i]);
        }
        if j > 0 {
            assert(b[0] < b[j]);
        }
        assert(a[0] == b[0]);
        let ra = a.drop_first();
        let rb = b.drop_first();
        assert forall|x: MediaId| ra.contains(x) <==> rb.contains(x) by {
            if ra.contains(x) {
                let k = choose|k: int| 0 <= k < ra.len() && ra[k] == x;
                assert(a[k + 1] == x && a[0] < x);
                assert(b.contains(x));
                let l = choose|l: int| 0 <= l < b.len() && b[l] == x;
                assert(l > 0);
                assert(rb[l - 1] == x);
            }
            if rb.contains(x) {
                let k = choose|k: int| 0 <= k < rb.len() && rb[k] == x;
                assert(b[k + 1] == x && b[0] < x);
                assert(a.contains(x));
                let l = choose|l: int| 0 <= l < a.len() && a[l] == x;
                assert(l > 0);
                assert(ra[l - 1] == x);
            }
        }
        lemma_ascending_same_members(ra, rb);
        assert(a =~= b) by {
            assert forall|k: int| 0 <= k < a.len() implies a[k] == b[k] by {
                if k > 0 {
                    assert(a[k] == ra[k - 1]);
                    assert(b[k] == rb[k - 1]);
                }
            }
        }
    }
}

/// In an ascending sequence, the entry with identifier `id`, when there is
/// one, is the one `media_lookup` finds.
proof fn lemma_lookup_at(s: Seq<MediaModel>, i: int)
    requires
        ids_ascending(s),
        0 <= i < s.len(),
    ensures
        media_lookup(s, s[i].id) == Some(s[i]),
{
    let id = s[i].id;
    let pred = |m: MediaModel| m.id == id;
    assert forall|j: int| 0 <= j < i implies !pred(#[trigger] s[j]) by {
        assert(s[j].id < s[i].id);
    }
    lemma_first_index_is(s, pred, i);
}

/// Appending an entry whose identifier is above all others registers it at
/// the end.
proof fn lemma_inserted_at_end(s: Seq<MediaModel>, m: MediaModel)
    requires
        forall|j: int| 0 <= j < s.len() ==> s[j].id < m.id,
    ensures
        media_inserted(s, m) == s.push(m),
{
    let pred = |x: MediaModel| x.id >= m.id;
    assert forall|j: int| 0 <= j < s.len() implies !pred(#[trigger] s[j]) by {}
    lemma_first_index_none(s, pred);
    assert(s.insert(s.len() as int, m) =~= s.push(m));
}

/// A map's keys, as its iterator hands them out, strictly ascend.
proof fn lemma_increasing_keys(keys: Seq<MediaId>)
    requires
        increasing_seq(keys),
    ensures
        forall|i: int, j: int| 0 <= i < j < keys.len() ==> keys[i] < keys[j],
{
    assert forall|i: int, j: int| 0 <= i < j < keys.len() implies keys[i] < keys[j] by {
        assert(vstd::std_specs::cmp::OrdSpec::cmp_spec(&keys[i], &keys[j]) is Less);
    }
}

/// In an ascending registry, the entry with identifier `k` is found exactly
/// when some entry carries `k`.
proof fn lemma_lookup_absent(s: Seq<MediaModel>, k: MediaId)
    requires
        forall|i: int| 0 <= i < s.len() ==> (#[trigger] s[i]).id != k,
    ensures
        media_lookup(s, k) is None,
{
    let pred = |m: MediaModel| m.id == k;
    assert forall|j: int| 0 <= j < s.len() implies !pred(#[trigger] s[j]) by {}
    lemma_first_index_none(s, pred);
}

/// Registering a medium works like writing to a map keyed by identifier:
/// the registry stays in ascending order, reading the medium's identifier
/// gives the medium, and every other identifier reads as before.
pub proof fn lemma_registered_media_read_back(s: Seq<MediaModel>, m: MediaModel, k: MediaId)
    requires
        ids_ascending(s),
    ensures
        ids_ascending(media_inserted(s, m)),
        media_lookup(media_inserted(s, m), k) == (if k == m.id { Some(m) } else { media_lookup(s, k) }),
{
    let pred = |x: MediaModel| x.id >= m.id;
    let p = insert_position(s, m.id);
    let r = media_inserted(s, m);
    lemma_first_index(s, pred);
    assert forall|j: int| 0 <= j < p implies s[j].id < m.id by {
        assert(!pred(s[j]));
    }
    let replaced = p < s.len() && s[p].id == m.id;
    assert(ids_ascending(r)) by {
        if !replaced {
            assert forall|a: int, b: int| 0 <= a < b < r.len() implies r[a].id < r[b].id by {
                if a < p && b > p {
                    assert(s[a].id < m.id);
                }
            }
        }
    }
    if k == m.id {
        assert(r[p] == m);
        lemma_lookup_at(r, p);
    } else if exists|i: int| 0 <= i < s.len() && s[i].id == k {
        let i = choose|i: int| 0 <= i < s.len() && s[i].id == k;
        lemma_lookup_at(s, i);
        if replaced {
            assert(i != p);
            assert(r[i] == s[i]);
            lemma_lookup_at(r, i);
        } else if i < p {
            assert(r[i] == s[i]);
            lemma_lookup_at(r, i);
        } else {
            assert(r[i + 1] == s[i]);
            lemma_lookup_at(r, i + 1);
        }
    } else {
        lemma_lookup_absent(s, k);
        assert forall|i: int| 0 <= i < r.len() implies (#[trigger] r[i]).id != k by {
            if replaced {
                if i != p {
                    assert(r[i] == s[i]);
                }
            } else if i < p {
                assert(r[i] == s[i]);
            } else if i > p {
                assert(r[i] == s[i - 1]);
            }
        }
        lemma_lookup_absent(r, k);
    }
}

/// Keeping only the media whose identifiers are listed works like
/// removing the other keys of a map: the registry stays in ascending
/// order, a listed identifier reads as before and any other reads nothing.
pub proof fn lemma_kept_media_read_back(s: Seq<MediaModel>, ids: Seq<MediaId>, k: MediaId)
    requires
        ids_ascending(s),
    ensures
        ids_ascending(media_kept(s, ids)),
        media_lookup(media_kept(s, ids), k) == (if ids.contains(k) { media_lookup(s, k) } else { None }),
    decreases s.len(),
{
    reveal_with_fuel(Seq::<MediaModel>::filter, 1);
    let keep = |m: MediaModel| ids.contains(m.id);
    let r = s.filter(keep);
    if s.len() == 0 {
        lemma_lookup_absent(s, k);
        lemma_lookup_absent(r, k);
    } else {
        let rest = s.drop_last();
        let last = s.last();
        assert(ids_ascending(rest));
        lemma_kept_media_read_back(rest, ids, k);
        let rr = rest.filter(keep);
        assert forall|i: int| 0 <= i < rr.len() implies (#[trigger] rr[i]).id < last.id by {
            rest.lemma_filter_pred(keep, i);
            assert(rr.contains(rr[i]));
            rest.lemma_filter_contains_rev(keep, rr[i]);
            let j = choose|j: int| 0 <= j < rest.len() && rest[j] == rr[i];
            assert(s[j].id < s[s.len() - 1].id);
        }
        if keep(last) {
            assert(r == rr.push(last));
            assert(ids_ascending(r)) by {
                assert forall|a: int, b: int| 0 <= a < b < r.len() implies r[a].id < r[b].id by {
                    if b == r.len() - 1 {
                        assert(rr[a].id < last.id);
                    } else {
                        assert(r[a] == rr[a] && r[b] == rr[b]);
                    }
                }
            }
        } else {
            assert(r == rr);
        }
        let n = s.len() - 1;
        if k == last.id {
            lemma_lookup_at(s, n);
            assert forall|i: int| 0 <= i < rr.len() implies (#[trigger] rr[i]).id != k by {
                assert(rr[i].id < last.id);
            }
            lemma_lookup_absent(rr, k);
            if keep(last) {
                lemma_lookup_at(r, r.len() - 1);
            }
        } else {
            let pred = |m: MediaModel| m.id == k;
            lemma_first_index(s, pred);
            lemma_first_index(rest, pred);
            if media_lookup(s, k) is Some {
                let i = media_index(s, k);
                assert(i < n);
                assert(rest[i] == s[i]);
                lemma_lookup_at(rest, i);
                lemma_lookup_at(s, i);
            } else {
                assert forall|i: int| 0 <= i < rest.len() implies (#[trigger] rest[i]).id != k by {
                    assert(!pred(s[i]));
                }
                lemma_lookup_absent(rest, k);
            }
            if keep(last) {
                lemma_first_index(rr, pred);
                lemma_first_index(r, pred);
                if media_lookup(rr, k) is Some {
                    let i = media_index(rr, k);
                    assert(r[i] == rr[i]);
                    lemma_lookup_at(rr, i);
                    lemma_lookup_at(r, i);
                } else {
                    assert forall|i: int| 0 <= i < r.len() implies (#[trigger] r[i]).id != k by {
                        if i < rr.len() {
                            assert(!pred(rr[i]));
                        }
                    }
                    lemma_lookup_absent(r, k);
                }
            }
        }
    }
}

impl MediaTable {
    #[verifier::type_invariant]
    closed spec fn consistent(self) -> bool {
        &&& ids_ascending(self.order@)
        &&& forall|k: MediaId| #[trigger] self.map@.contains_key(k) <==> media_ids(self.order@).contains(k)
        &&& forall|i: int|
            0 <= i < self.order@.len() ==> #[trigger] self.map@[self.order@[i].id]@ == self.order@[i]
    }

    pub fn new() -> (table: Self)
        ensures
            table@ == Seq::<MediaModel>::empty(),
    {
        let table = MediaTable { map: BTreeMap::new(), order: Ghost(Seq::empty()) };
        proof {
            assert(media_ids(table.order@) =~= Seq::<MediaId>::empty());
        }
        table
    }

    pub fn len(&self) -> (count: usize)
        ensures
            count == self@.len(),
            ids_ascending(self@),
    {
        proof {
            use_type_invariant(self);
            let ids = media_ids(self.order@);
            assert(ids.no_duplicates()) by {
                assert forall|i: int, j: int| 0 <= i < ids.len() && 0 <= j < ids.len() && i != j implies ids[i] != ids[j] by {
                    if i < j {
                        assert(self.order@[i].id < self.order@[j].id);
                    } else {
                        assert(self.order@[j].id < self.order@[i].id);
                    }
                }
            }
            ids.unique_seq_to_set();
            assert(self.map@.dom() =~= ids.to_set());
        }
        self.map.len()
    }

    pub fn is_empty(&self) -> (empty: bool)
        ensures
            empty == (self@.len() == 0),
    {
        self.len() == 0
    }

    /// The entries in ascending order of identifier.
    pub fn entries(&self) -> (entries: Vec<MediaInfo>)
        ensures
            media_models(entries@) == self@,
            ids_ascending(self@),
    {
        proof {
            use_type_invariant(self);
        }
        let ghost order = self.order@;
        let ghost pairs = IteratorSpec::remaining(&spec_btree_map_iter(&self.map));
        let ghost keys = pairs.map_values(|kv: (&MediaId, &MediaInfo)| *kv.0);
        let mut out: Vec<MediaInfo> = Vec::new();
        for pair in it: self.map.iter()
            invariant
                it.seq() == pairs,
                out.len() == it.index(),
                forall|i: int| 0 <= i < out.len() ==> #[trigger] out@[i]@ == (*pairs[i].1)@,
        {
            out.push(pair.1.clone_info());
        }
        proof {
            let ids = media_ids(order);
            assert(out.len() == keys.len());
            assert forall|i: int| 0 <= i < out.len() implies #[trigger] out@[i]@ == self.map@[keys[i]]@ && out@[i].id == keys[i] by {
                assert(self.map@.contains_key(*pairs[i].0) && self.map@[*pairs[i].0] == *pairs[i].1);
                assert(media_ids(order).contains(keys[i]));
                let j = choose|j: int| 0 <= j < ids.len() && ids[j] == keys[i];
                assert(self.map@[order[j].id]@ == order[j]);
            }
            assert(increasing_seq(keys));
            lemma_increasing_keys(keys);
            assert forall|x: MediaId| keys.contains(x) <==> ids.contains(x) by {
                if keys.contains(x) {
                    let i = choose|i: int| 0 <= i < keys.len() && keys[i] == x;
                    assert(self.map@.contains_key(*pairs[i].0));
                }
                if ids.contains(x) {
                    assert(self.map@.contains_key(x));
                    assert(pairs.contains((&x, &self.map@[x])));
                    let i = choose|i: int| 0 <= i < pairs.len() && pairs[i] == (&x, &self.map@[x]);
                    assert(keys[i] == x);
                }
            }
            lemma_ascending_same_members(keys, ids);
            assert(media_models(out@) =~= order) by {
                assert forall|i: int| 0 <= i < out.len() implies media_models(out@)[i] == order[i] by {
                    assert(keys[i] == ids[i]);
                }
            }
        }
        out
    }

    /// The entry registered under `id`.
    pub fn get(&self, id: MediaId) -> (found: Option<&MediaInfo>)
        ensures
            ids_ascending(self@),
            match found {
                Some(info) => media_lookup(self@, id) == Some(info@),
                None => media_lookup(self@, id) is None,
            },
    {
        proof {
            use_type_invariant(self);
        }
        let ghost s = self@;
        let found = self.map.get(&id);
        proof {
            match found {
                Some(info) => {
                    assert(self.map@.contains_key(id));
                    let i = choose|i: int| 0 <= i < media_ids(s).len() && media_ids(s)[i] == id;
                    assert(s[i].id == id);
                    lemma_lookup_at(s, i);
                },
                None => {
                    let pred = |m: MediaModel| m.id == id;
                    assert forall|j: int| 0 <= j < s.len() implies !pred(#[trigger] s[j]) by {
                        if s[j].id == id {
                            assert(media_ids(s)[j] == id);
                        }
                    }
                    lemma_first_index_none(s, pred);
                },
            }
        }
        found
    }

    /// Registers `info` under its identifier, replacing an earlier entry with
    /// the same identifier.
    pub fn insert(&mut self, info: MediaInfo)
        ensures
            final(self)@ == media_inserted(old(self)@, info@),
    {
        proof {
            use_type_invariant(&*self);
        }
        let ghost s = self@;
        let ghost m = info@;
        let ghost old_map = self.map@;
        let ghost pred = |x: MediaModel| x.id >= m.id;
        let ghost p = insert_position(s, m.id);
        let ghost expected = media_inserted(s, m);
        proof {
            lemma_first_index(s, pred);
            assert(forall|j: int| 0 <= j < p ==> s[j].id < m.id) by {
                assert forall|j: int| 0 <= j < p implies s[j].id < m.id by {
                    assert(!pred(s[j]));
                }
            }
            assert(p < s.len() ==> s[p].id >= m.id);
            assert(ids_ascending(expected)) by {
                if p < s.len() && s[p].id == m.id {
                } else {
                    assert forall|a: int, b: int| 0 <= a < b < expected.len() implies expected[a].id
                        < expected[b].id by {
                        if a < p && b > p {
                            assert(s[a].id < m.id);
                        }
                    }
                }
            }
        }
        let key: MediaId = info.id;
        let mut table = MediaTable::new();
        std::mem::swap(&mut table, self);
        let MediaTable { mut map, order: _ } = table;
        map.insert(key, info);
        proof {
            let new_map = map@;
            assert(new_map == old_map.insert(m.id, new_map[m.id]));
            let before_ids = media_ids(s);
            let after_ids = media_ids(expected);
            assert forall|k: MediaId| #[trigger] new_map.contains_key(k) <==> after_ids.contains(k) by {
                assert(new_map.contains_key(k) <==> (old_map.contains_key(k) || k == m.id));
                assert(old_map.contains_key(k) <==> before_ids.contains(k));
                if p < s.len() && s[p].id == m.id {
                    assert(after_ids =~= before_ids);
                    assert(before_ids[p] == m.id);
                } else {
                    assert(after_ids =~= before_ids.insert(p, m.id));
                    if before_ids.contains(k) {
                        let i = choose|i: int| 0 <= i < before_ids.len() && before_ids[i] == k;
                        if i < p {
                            assert(after_ids[i] == k);
                        } else {
                            assert(after_ids[i + 1] == k);
                        }
                    }
                    if k == m.id {
                        assert(after_ids[p] == k);
                    }
                    if after_ids.contains(k) {
                        let i = choose|i: int| 0 <= i < after_ids.len() && after_ids[i] == k;
                        if i < p {
                            assert(before_ids[i] == k);
                        } else if i > p {
                            assert(before_ids[i - 1] == k);
                        }
                    }
                }
            }
            assert forall|i: int| 0 <= i < expected.len() implies #[trigger] new_map[expected[i].id]@ == expected[i] by {
                if expected[i].id != m.id {
                    if p < s.len() && s[p].id == m.id {
                        assert(expected[i] == s[i]);
                    } else if i < p {
                        assert(expected[i] == s[i]);
                    } else {
                        assert(expected[i] == s[i - 1]);
                    }
                } else {
                    if p < s.len() && s[p].id == m.id {
                        if i != p {
                            assert(s[i].id != s[p].id);
                        }
                    } else if i != p {
                        if i < p {
                            assert(s[i].id < m.id);
                        } else {
                            assert(s[i - 1].id >= s[p].id);
                        }
                    }
                }
            }
        }
        *self = MediaTable { map, order: Ghost(expected) };
    }

    /// Drops every entry whose identifier is not in `ids`; returns how many
    /// entries were dropped.
    pub fn retain_ids(&mut self, ids: &Vec<MediaId>) -> (removed: usize)
        ensures
            final(self)@ == media_kept(old(self)@, ids@),
            removed == old(self)@.len() - final(self)@.len(),
    {
        let ghost s = self@;
        let ghost keep = |m: MediaModel| ids@.contains(m.id);
        let old_entries = self.entries();
        let before = old_entries.len();
        let mut kept = MediaTable::new();
        let mut i: usize = 0;
        while i < old_entries.len()
            invariant
                s == media_models(old_entries@),
                ids_ascending(s),
                keep == (|m: MediaModel| ids@.contains(m.id)),
                i <= old_entries.len(),
                before == old_entries.len(),
                kept@ == s.take(i as int).filter(keep),
                forall|k: int| 0 <= k < kept@.len() ==> exists|j: int|
                    0 <= j < i && #[trigger] kept@[k].id == s[j].id,
                kept@.len() <= i,
            decreases old_entries.len() - i,
        {
            let ghost prev = kept@;
            proof {
                reveal_with_fuel(Seq::<MediaModel>::filter, 1);
                assert(s.take(i + 1).drop_last() =~= s.take(i as int));
            }
            let mut found = false;
            let mut k: usize = 0;
            while k < ids.len()
                invariant
                    k <= ids.len(),
                    i < old_entries.len(),
                    found == (exists|j: int| 0 <= j < k && ids@[j] == old_entries@[i as int].id),
                decreases ids.len() - k,
            {
                if ids[k] == old_entries[i].id {
                    found = true;
                }
                k = k + 1;
            }
            if found {
                proof {
                    assert(s[i as int] == old_entries@[i as int]@);
                    assert forall|j: int| 0 <= j < prev.len() implies prev[j].id < s[i as int].id by {
                        let q = choose|q: int| 0 <= q < i && #[trigger] prev[j].id == s[q].id;
                    }
                    lemma_inserted_at_end(prev, s[i as int]);
                }
                kept.insert(old_entries[i].clone_info());
                proof {
                    assert forall|q: int| 0 <= q < kept@.len() implies exists|j: int|
                        0 <= j < i + 1 && #[trigger] kept@[q].id == s[j].id by {
                        if q == kept@.len() - 1 {
                            assert(kept@[q].id == s[i as int].id);
                        } else {
                            let j = choose|j: int| 0 <= j < i && #[trigger] prev[q].id == s[j].id;
                            assert(kept@[q].id == s[j].id);
                        }
                    }
                }
            } else {
                proof {
                    assert(s[i as int] == old_entries@[i as int]@);
                    assert(!ids@.contains(s[i as int].id));
                    assert forall|q: int| 0 <= q < kept@.len() implies exists|j: int|
                        0 <= j < i + 1 && #[trigger] kept@[q].id == s[j].id by {
                        let j = choose|j: int| 0 <= j < i && #[trigger] prev[q].id == s[j].id;
                        assert(kept@[q].id == s[j].id);
                    }
                }
            }
            i = i + 1;
        }
        proof {
            assert(s.take(s.len() as int) =~= s);
        }
        let after = kept.len();
        *self = kept;
        before - after
    }
}

impl MediaTable {
    /// A copy of the registry.
    pub fn duplicate(&self) -> (copy: MediaTable)
        ensures
            copy@ == self@,
    {
        proof {
            use_type_invariant(self);
        }
        MediaTable { map: self.map.clone(), order: Ghost(self.order@) }
    }
}

impl MediaInfo {
    /// A copy of the entry.
    pub fn clone_info(&self) -> (copy: MediaInfo)
        ensures
            copy@ == self@,
    {
        let original_path = match &self.original_path {
            Some(path) => Some(path.clone()),
            None => None,
        };
        MediaInfo {
            id: self.id,
            name: self.name.clone(),
            sample_rate: self.sample_rate,
            channels: self.channels,
            frames: self.frames,
            original_path,
        }
    }
}

} // verus!
