//! Keeping a track's clips in timeline order.

use crate::model::{clip_models, Clip, ClipModel, Track};
use vstd::prelude::*;

verus! {

/// Whether `a` sorts strictly before `b`: earlier start, or the same start
/// and a smaller identifier.
pub open spec fn clip_before(a: ClipModel, b: ClipModel) -> bool {
    a.start_frame < b.start_frame || (a.start_frame == b.start_frame && a.id < b.id)
}

/// `c` inserted into `s` after every clip that does not sort after it.
pub open spec fn insert_in_order(s: Seq<ClipModel>, c: ClipModel) -> Seq<ClipModel>
    decreases s.len(),
{
    if s.len() == 0 {
        seq![c]
    } else if !clip_before(c, s.last()) {
        s.push(c)
    } else {
        insert_in_order(s.drop_last(), c).push(s.last())
    }
}

/// `s` stably sorted by (start frame, identifier), as
/// `sort_by_key(|clip| (clip.start_frame, clip.id))` orders it.
pub open spec fn sorted_clips(s: Seq<ClipModel>) -> Seq<ClipModel>
    decreases s.len(),
{
    if s.len() == 0 {
        s
    } else {
        insert_in_order(sorted_clips(s.drop_last()), s.last())
    }
}

/// No clip sorts before an earlier one.
pub open spec fn in_timeline_order(s: Seq<ClipModel>) -> bool {
    forall|i: int, j: int| 0 <= i < j < s.len() ==> !clip_before(#[trigger] s[j], #[trigger] s[i])
}

proof fn lemma_insert_in_order(s: Seq<ClipModel>, c: ClipModel)
    ensures
        insert_in_order(s, c).len() == s.len() + 1,
        forall|x: ClipModel| #[trigger] insert_in_order(s, c).contains(x) <==> (s.contains(x) || x == c),
        in_timeline_order(s) ==> in_timeline_order(insert_in_order(s, c)),
    decreases s.len(),
{
    let r = insert_in_order(s, c);
    if s.len() == 0 {
        assert forall|x: ClipModel| r.contains(x) <==> (s.contains(x) || x == c) by {
            if r.contains(x) {
                assert(r[0] == c);
            }
            if x == c {
                assert(r[0] == x);
            }
        }
    } else if !clip_before(c, s.last()) {
        assert forall|x: ClipModel| r.contains(x) <==> (s.contains(x) || x == c) by {
            if r.contains(x) {
                let k = choose|k: int| 0 <= k < r.len() && r[k] == x;
                if k < s.len() {
                    assert(s[k] == x);
                }
            }
            if s.contains(x) {
                let k = choose|k: int| 0 <= k < s.len() && s[k] == x;
                assert(r[k] == x);
            }
            if x == c {
                assert(r[s.len() as int] == x);
            }
        }
        if in_timeline_order(s) {
            assert forall|i: int, j: int| 0 <= i < j < r.len() implies !clip_before(
                #[trigger] r[j],
                #[trigger] r[i],
            ) by {
                if j == s.len() {
                    assert(!clip_before(s.last(), s[i]) || i == s.len() - 1);
                }
            }
        }
    } else {
        let rest = s.drop_last();
        lemma_insert_in_order(rest, c);
        let inner = insert_in_order(rest, c);
        assert forall|x: ClipModel| r.contains(x) <==> (s.contains(x) || x == c) by {
            if r.contains(x) {
                let k = choose|k: int| 0 <= k < r.len() && r[k] == x;
                if k < inner.len() {
                    assert(inner.contains(x));
                    if rest.contains(x) {
                        let q = choose|q: int| 0 <= q < rest.len() && rest[q] == x;
                        assert(s[q] == x);
                    }
                } else {
                    assert(s[s.len() - 1] == x);
                }
            }
            if s.contains(x) {
                let k = choose|k: int| 0 <= k < s.len() && s[k] == x;
                if k < s.len() - 1 {
                    assert(rest[k] == x);
                    assert(inner.contains(x));
                    let q = choose|q: int| 0 <= q < inner.len() && inner[q] == x;
                    assert(r[q] == x);
                } else {
                    assert(r[r.len() - 1] == x);
                }
            }
            if x == c {
                assert(inner.contains(x));
                let q = choose|q: int| 0 <= q < inner.len() && inner[q] == x;
                assert(r[q] == x);
            }
        }
        if in_timeline_order(s) {
            assert(in_timeline_order(rest)) by {
                assert forall|i: int, j: int| 0 <= i < j < rest.len() implies !clip_before(
                    #[trigger] rest[j],
                    #[trigger] rest[i],
                ) by {
                    assert(rest[i] == s[i] && rest[j] == s[j]);
                }
            }
            assert forall|i: int, j: int| 0 <= i < j < r.len() implies !clip_before(
                #[trigger] r[j],
                #[trigger] r[i],
            ) by {
                if j == r.len() - 1 {
                    let x = inner[i];
                    assert(inner.contains(x));
                    if x != c {
                        assert(rest.contains(x));
                        let q = choose|q: int| 0 <= q < rest.len() && rest[q] == x;
                        assert(s[q] == x);
                        assert(!clip_before(s[s.len() - 1], s[q]));
                    }
                } else {
                    assert(r[i] == inner[i] && r[j] == inner[j]);
                }
            }
        }
    }
}

proof fn lemma_insert_in_order_multiset(s: Seq<ClipModel>, c: ClipModel)
    ensures
        insert_in_order(s, c).to_multiset() =~= s.to_multiset().insert(c),
    decreases s.len(),
{
    broadcast use vstd::seq_lib::group_to_multiset_ensures;

    if s.len() == 0 {
        assert(seq![c] =~= s.push(c));
    } else if clip_before(c, s.last()) {
        let rest = s.drop_last();
        lemma_insert_in_order_multiset(rest, c);
        assert(rest.push(s.last()) =~= s);
    }
}

/// Sorting keeps every clip as often as it occurs.
pub proof fn lemma_sorted_clips_multiset(s: Seq<ClipModel>)
    ensures
        sorted_clips(s).to_multiset() =~= s.to_multiset(),
    decreases s.len(),
{
    broadcast use vstd::seq_lib::group_to_multiset_ensures;

    if s.len() > 0 {
        let rest = s.drop_last();
        lemma_sorted_clips_multiset(rest);
        lemma_insert_in_order_multiset(sorted_clips(rest), s.last());
        assert(rest.push(s.last()) =~= s);
    }
}

/// Sorting keeps the clips (as many, and the same ones) and puts them in
/// timeline order.
pub proof fn lemma_sorted_clips(s: Seq<ClipModel>)
    ensures
        sorted_clips(s).len() == s.len(),
        forall|x: ClipModel| #[trigger] sorted_clips(s).contains(x) <==> s.contains(x),
        in_timeline_order(sorted_clips(s)),
    decreases s.len(),
{
    if s.len() > 0 {
        let rest = s.drop_last();
        lemma_sorted_clips(rest);
        lemma_insert_in_order(sorted_clips(rest), s.last());
        assert forall|x: ClipModel| #[trigger] sorted_clips(s).contains(x) <==> s.contains(x) by {
            if s.contains(x) {
                let k = choose|k: int| 0 <= k < s.len() && s[k] == x;
                if k < s.len() - 1 {
                    assert(rest[k] == x);
                }
            }
            if rest.contains(x) {
                let k = choose|k: int| 0 <= k < rest.len() && rest[k] == x;
                assert(s[k] == x);
            }
        }
    }
}

proof fn lemma_insert_at(s: Seq<ClipModel>, c: ClipModel, j: int)
    requires
        0 <= j <= s.len(),
        forall|k: int| j <= k < s.len() ==> clip_before(c, #[trigger] s[k]),
        j == 0 || !clip_before(c, s[j - 1]),
    ensures
        insert_in_order(s, c) == s.take(j).push(c) + s.skip(j),
    decreases s.len(),
{
    if s.len() == 0 {
        assert(s.take(j).push(c) + s.skip(j) =~= seq![c]);
    } else if j == s.len() {
        assert(s.take(j).push(c) + s.skip(j) =~= s.push(c));
    } else {
        let rest = s.drop_last();
        assert(clip_before(c, s[s.len() - 1]));
        assert forall|k: int| j <= k < rest.len() implies clip_before(c, #[trigger] rest[k]) by {
            assert(rest[k] == s[k]);
        }
        if j > 0 {
            assert(rest[j - 1] == s[j - 1]);
        }
        lemma_insert_at(rest, c, j);
        assert((rest.take(j).push(c) + rest.skip(j)).push(s.last()) =~= s.take(j).push(c) + s.skip(
            j,
        ));
    }
}

fn sorts_before(a: &Clip, b: &Clip) -> (before: bool)
    ensures
        before == clip_before(a@, b@),
{
    a.start_frame < b.start_frame || (a.start_frame == b.start_frame && a.id < b.id)
}

/// The clips of `clips` in timeline order (a stable sort).
pub fn sort_clip_list(clips: Vec<Clip>) -> (sorted: Vec<Clip>)
    ensures
        clip_models(sorted@) == sorted_clips(clip_models(clips@)),
{
    let ghost s = clip_models(clips@);
    let mut sorted: Vec<Clip> = Vec::new();
    let mut rest = clips;
    let n = rest.len();
    // `rest` is emptied from the front into `sorted`.
    let mut i: usize = 0;
    proof {
        assert(s.take(0) =~= Seq::<ClipModel>::empty());
        assert(clip_models(rest@) =~= s.skip(0));
    }
    while i < n
        invariant
            n == s.len(),
            i <= n,
            clip_models(rest@) == s.skip(i as int),
            rest.len() == n - i,
            clip_models(sorted@) == sorted_clips(s.take(i as int)),
        decreases n - i,
    {
        let ghost rest_before = rest@;
        proof {
            assert(clip_models(rest_before)[0] == s.skip(i as int)[0]);
        }
        let c = rest.remove(0);
        proof {
            assert(c@ == s[i as int]);
            assert forall|k: int| 0 <= k < rest.len() implies clip_models(rest@)[k] == s.skip(
                i + 1,
            )[k] by {
                assert(rest@[k] == rest_before[k + 1]);
                assert(clip_models(rest_before)[k + 1] == s.skip(i as int)[k + 1]);
            }
            assert(clip_models(rest@) =~= s.skip(i + 1));
        }
        let ghost before = clip_models(sorted@);
        let mut j: usize = sorted.len();
        while j > 0 && sorts_before(&c, &sorted[j - 1])
            invariant
                j <= sorted.len(),
                before == clip_models(sorted@),
                forall|k: int| j <= k < sorted.len() ==> clip_before(c@, #[trigger] before[k]),
            decreases j,
        {
            j = j - 1;
        }
        proof {
            lemma_insert_at(before, c@, j as int);
            assert(s.take(i + 1).drop_last() =~= s.take(i as int));
            assert(s.take(i + 1).last() == c@);
        }
        sorted.insert(j, c);
        proof {
            assert(clip_models(sorted@) =~= before.take(j as int).push(s[i as int]) + before.skip(
                j as int,
            ));
        }
        i = i + 1;
    }
    proof {
        assert(s.take(n as int) =~= s);
    }
    sorted
}

/// Sorts the clips of `track` into timeline order.
pub fn sort_clips(track: &mut Track)
    ensures
        clip_models(final(track).clips@) == sorted_clips(clip_models(old(track).clips@)),
        final(track)@ == old(track)@.with_clips(sorted_clips(clip_models(old(track).clips@))),
{
    let mut clips: Vec<Clip> = Vec::new();
    std::mem::swap(&mut clips, &mut track.clips);
    track.clips = sort_clip_list(clips);
}

} // verus!
