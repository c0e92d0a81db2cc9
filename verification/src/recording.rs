//! Choosing where a recording goes, and the transport clock's text.

use crate::model::{TrackId, TrackModel};
use crate::project::{Project, ProjectModel};
use crate::seqs::first_index;
use crate::validate::{decimal, decimal_text_u64};
use vstd::prelude::*;

verus! {

/// The tracks with only track `id` armed, and that one only when `armed`.
pub open spec fn armed_tracks(tracks: Seq<TrackModel>, id: TrackId, armed: bool) -> Seq<TrackModel> {
    Seq::new(tracks.len(), |i: int| TrackModel { armed: tracks[i].id == id && armed, ..tracks[i] })
}

pub open spec fn is_armed() -> spec_fn(TrackModel) -> bool {
    |t: TrackModel| t.armed
}

/// Where a new recording goes: the first armed track, else the selected
/// track, else the first track.
pub open spec fn recording_target_of(p: ProjectModel, selected: Option<TrackId>) -> Option<TrackId> {
    let armed = first_index(p.tracks, is_armed());
    if armed >= 0 {
        Some(p.tracks[armed].id)
    } else if selected is Some {
        selected
    } else if p.tracks.len() > 0 {
        Some(p.tracks[0].id)
    } else {
        None
    }
}

/// After arming, no track but `id` is armed, and `id` is armed exactly
/// when asked.
pub proof fn lemma_armed_tracks_single(tracks: Seq<TrackModel>, id: TrackId, armed: bool)
    ensures
        forall|i: int|
            0 <= i < tracks.len() ==> (#[trigger] armed_tracks(tracks, id, armed)[i]).armed == (
            tracks[i].id == id && armed),
        forall|i: int, j: int|
            0 <= i < tracks.len() && 0 <= j < tracks.len() && (#[trigger] armed_tracks(
                tracks,
                id,
                armed,
            )[i]).armed && (#[trigger] armed_tracks(tracks, id, armed)[j]).armed ==> tracks[i].id
                == tracks[j].id,
{
}

impl Project {
    /// Arms track `id` (when `armed`) and disarms every other track: at most
    /// one track records.
    pub fn arm_only(&mut self, id: TrackId, armed: bool)
        ensures
            final(self)@ == old(self)@.with_tracks(armed_tracks(old(self)@.tracks, id, armed)),
    {
        let ghost start = self@;
        let mut i: usize = 0;
        while i < self.tracks.len()
            invariant
                i <= self.tracks@.len(),
                self.tracks@.len() == start.tracks.len(),
                self@ == start.with_tracks(self@.tracks),
                forall|j: int|
                    0 <= j < i ==> #[trigger] self@.tracks[j] == armed_tracks(start.tracks, id, armed)[j],
                forall|j: int| i <= j < self.tracks@.len() ==> #[trigger] self@.tracks[j] == start.tracks[j],
            decreases self.tracks.len() - i,
        {
            let value = self.tracks[i].id == id && armed;
            let ghost before = self.tracks@;
            let ghost old_model = self.tracks@[i as int]@;
            assert(self@.tracks[i as int] == old_model);
            self.tracks[i].armed = value;
            proof {
                assert(self.tracks@[i as int]@ == TrackModel { armed: value, ..old_model });
                assert(old_model == start.tracks[i as int]);
                assert(self@.tracks[i as int] == armed_tracks(start.tracks, id, armed)[i as int]);
                assert(self.tracks@ == before.update(i as int, self.tracks@[i as int]));
                assert forall|j: int| 0 <= j < self.tracks@.len() && j != i implies #[trigger] self@.tracks[j]
                    == crate::model::track_models(before)[j] by {
                    assert(self.tracks@[j] == before[j]);
                }
            }
            i = i + 1;
        }
        proof {
            assert(self@.tracks =~= armed_tracks(start.tracks, id, armed));
        }
    }

    /// The track a new recording goes to, given the selected track.
    pub fn recording_target(&self, selected: Option<TrackId>) -> (target: Option<TrackId>)
        ensures
            target == recording_target_of(self@, selected),
    {
        let ghost s = self@.tracks;
        let mut i: usize = 0;
        while i < self.tracks.len()
            invariant
                s == self@.tracks,
                i <= self.tracks@.len(),
                forall|j: int| 0 <= j < i ==> !(#[trigger] s[j]).armed,
            decreases self.tracks.len() - i,
        {
            assert(s[i as int] == self.tracks@[i as int]@);
            if self.tracks[i].armed {
                proof {
                    crate::seqs::lemma_first_index_is(s, is_armed(), i as int);
                }
                return Some(self.tracks[i].id);
            }
            i = i + 1;
        }
        proof {
            crate::seqs::lemma_first_index_none(s, is_armed());
        }
        match selected {
            Some(id) => Some(id),
            None => if self.tracks.len() > 0 {
                assert(s[0] == self.tracks@[0]@);
                Some(self.tracks[0].id)
            } else {
                None
            },
        }
    }
}

/// `n` in decimal with at least two digits, as `{:02}` writes it.
pub open spec fn padded2(n: nat) -> Seq<char> {
    if n < 10 {
        seq!['0'] + decimal(n)
    } else {
        decimal(n)
    }
}

/// `n` in decimal with at least three digits, as `{:03}` writes it.
pub open spec fn padded3(n: nat) -> Seq<char> {
    if n < 10 {
        seq!['0', '0'] + decimal(n)
    } else if n < 100 {
        seq!['0'] + decimal(n)
    } else {
        decimal(n)
    }
}

/// `HH:MM:SS.mmm` for a time of `milliseconds`, as
/// `format!("{hours:02}:{minutes:02}:{seconds:02}.{millis:03}")` writes it.
pub open spec fn clock_text_of(milliseconds: u64) -> Seq<char> {
    padded2((milliseconds / 3_600_000) as nat) + seq![':'] + padded2(
        (milliseconds / 60_000 % 60) as nat,
    ) + seq![':'] + padded2((milliseconds / 1_000 % 60) as nat) + seq!['.'] + padded3(
        (milliseconds % 1_000) as nat,
    )
}

fn pad2_text(n: u64) -> (text: String)
    ensures
        text@ == padded2(n as nat),
{
    let digits = decimal_text_u64(n);
    if n < 10 {
        let mut text = String::from_str("0");
        proof {
            reveal_strlit("0");
        }
        text.append(digits.as_str());
        text
    } else {
        digits
    }
}

fn pad3_text(n: u64) -> (text: String)
    ensures
        text@ == padded3(n as nat),
{
    let digits = decimal_text_u64(n);
    proof {
        reveal_strlit("00");
        reveal_strlit("0");
    }
    if n < 10 {
        let mut text = String::from_str("00");
        text.append(digits.as_str());
        text
    } else if n < 100 {
        let mut text = String::from_str("0");
        text.append(digits.as_str());
        text
    } else {
        digits
    }
}

/// The transport clock's text for a time of `milliseconds`.
pub fn clock_text(milliseconds: u64) -> (text: String)
    ensures
        text@ == clock_text_of(milliseconds),
{
    let hours = milliseconds / 3_600_000;
    let minutes = milliseconds / 60_000 % 60;
    let seconds = milliseconds / 1_000 % 60;
    let millis = milliseconds % 1_000;
    let mut text = pad2_text(hours);
    proof {
        reveal_strlit(":");
        reveal_strlit(".");
    }
    text.append(":");
    text.append(pad2_text(minutes).as_str());
    text.append(":");
    text.append(pad2_text(seconds).as_str());
    text.append(".");
    text.append(pad3_text(millis).as_str());
    text
}

} // verus!
