//! What the arrangement view asks of the project, and the state of a clip
//! being dragged.

use crate::edit::MIN_CLIP_TIMELINE_FRAMES;
use crate::model::{ClipId, TrackId};
use vstd::prelude::*;

verus! {

/// An edit or selection the arrangement view requests.
#[derive(Debug, Clone, Copy, PartialEq, Eq, Structural)]
pub enum TimelineAction {
    SelectTrack(TrackId),
    SelectClip(ClipId),
    Seek(u64),
    ToggleMute(TrackId),
    ToggleSolo(TrackId),
    ToggleArm(TrackId),
    MoveClip { clip: ClipId, track: TrackId, start: u64 },
    TrimStart { clip: ClipId, start: u64 },
    TrimEnd { clip: ClipId, end: u64 },
    Split(ClipId),
    Duplicate(ClipId),
    Delete(ClipId),
}

/// Which part of a clip is dragged.
#[derive(Debug, Clone, Copy, PartialEq, Eq, Structural)]
pub enum DragKind {
    Move,
    TrimStart,
    TrimEnd,
}

/// A drag in progress: the clip's span when it began, and where it would
/// land now.
#[derive(Debug, Clone, Copy, PartialEq, Eq, Structural)]
pub struct DragPreview {
    pub clip: ClipId,
    pub kind: DragKind,
    pub original_start: u64,
    pub original_end: u64,
    pub preview_track: TrackId,
    pub preview_start: u64,
    pub preview_end: u64,
}

pub open spec fn sat_add(a: u64, b: u64) -> u64 {
    if a + b > u64::MAX { u64::MAX } else { (a + b) as u64 }
}

pub open spec fn sat_sub(a: u64, b: u64) -> u64 {
    if a < b { 0 } else { (a - b) as u64 }
}

/// The preview after the dragged edge moved to `snapped` (the start for a
/// move or a start trim, the end for an end trim) with the pointer over
/// `hovered`: a move keeps the clip's length and follows the pointer's
/// track; a trim keeps at least the shortest clip length.
pub open spec fn dragged(d: DragPreview, snapped: u64, hovered: Option<TrackId>) -> DragPreview {
    match d.kind {
        DragKind::Move => DragPreview {
            preview_start: snapped,
            preview_end: sat_add(snapped, (d.original_end - d.original_start) as u64),
            preview_track: match hovered {
                Some(track) => track,
                None => d.preview_track,
            },
            ..d
        },
        DragKind::TrimStart => DragPreview {
            preview_start: if snapped < sat_sub(d.original_end, MIN_CLIP_TIMELINE_FRAMES) {
                snapped
            } else {
                sat_sub(d.original_end, MIN_CLIP_TIMELINE_FRAMES)
            },
            ..d
        },
        DragKind::TrimEnd => DragPreview {
            preview_end: if snapped > sat_add(d.original_start, MIN_CLIP_TIMELINE_FRAMES) {
                snapped
            } else {
                sat_add(d.original_start, MIN_CLIP_TIMELINE_FRAMES)
            },
            ..d
        },
    }
}

/// The edit a finished drag requests.
pub open spec fn drag_action(d: DragPreview) -> TimelineAction {
    match d.kind {
        DragKind::Move => TimelineAction::MoveClip {
            clip: d.clip,
            track: d.preview_track,
            start: d.preview_start,
        },
        DragKind::TrimStart => TimelineAction::TrimStart { clip: d.clip, start: d.preview_start },
        DragKind::TrimEnd => TimelineAction::TrimEnd { clip: d.clip, end: d.preview_end },
    }
}

impl DragPreview {
    /// A drag of `kind` starting on clip `clip` of track `track`, which
    /// spans `start..end`.
    pub fn begin(clip: ClipId, track: TrackId, kind: DragKind, start: u64, end: u64) -> (drag: Self)
        ensures
            drag == (DragPreview {
                clip,
                kind,
                original_start: start,
                original_end: end,
                preview_track: track,
                preview_start: start,
                preview_end: end,
            }),
    {
        DragPreview {
            clip,
            kind,
            original_start: start,
            original_end: end,
            preview_track: track,
            preview_start: start,
            preview_end: end,
        }
    }

    /// Follows the pointer: see [`dragged`].
    pub fn update(&mut self, snapped: u64, hovered: Option<TrackId>)
        requires
            old(self).original_start <= old(self).original_end,
        ensures
            *final(self) == dragged(*old(self), snapped, hovered),
    {
        match self.kind {
            DragKind::Move => {
                let length = self.original_end - self.original_start;
                self.preview_start = snapped;
                self.preview_end = snapped.saturating_add(length);
                match hovered {
                    Some(track) => self.preview_track = track,
                    None => {},
                }
            },
            DragKind::TrimStart => {
                let limit = self.original_end.saturating_sub(MIN_CLIP_TIMELINE_FRAMES);
                self.preview_start = if snapped < limit {
                    snapped
                } else {
                    limit
                };
            },
            DragKind::TrimEnd => {
                let limit = self.original_start.saturating_add(MIN_CLIP_TIMELINE_FRAMES);
                self.preview_end = if snapped > limit {
                    snapped
                } else {
                    limit
                };
            },
        }
    }

    /// The edit requested when the drag ends.
    pub fn finish(&self) -> (action: TimelineAction)
        ensures
            action == drag_action(*self),
    {
        match self.kind {
            DragKind::Move => TimelineAction::MoveClip {
                clip: self.clip,
                track: self.preview_track,
                start: self.preview_start,
            },
            DragKind::TrimStart => TimelineAction::TrimStart { clip: self.clip, start: self.preview_start },
            DragKind::TrimEnd => TimelineAction::TrimEnd { clip: self.clip, end: self.preview_end },
        }
    }
}

} // verus!
