use vstd::prelude::*;
use std::collections::VecDeque;
use vstd::std_specs::cmp::PartialEqSpec;

verus! {

/// The most versions of a sound the undo history keeps.
pub const MAX_UNDO_HISTORY: usize = 1000;

/// A sound being edited, with the versions of it that undo and redo step through.
pub struct UndoHistory<S> {
    sound: S,
    undo_history: VecDeque<S>,
    undo_position: usize,
}

/// An undo history as mathematical values: (current sound, versions, position among them).
pub type HistoryModel<S> = (S, Seq<S>, int);

impl<S> View for UndoHistory<S> {
    type V = HistoryModel<S>;

    closed spec fn view(&self) -> HistoryModel<S> {
        (self.sound, self.undo_history@, self.undo_position as int)
    }
}

/// What every undo history satisfies: between one and `MAX_UNDO_HISTORY` versions, and a
/// position at one of them.
pub open spec fn history_valid<S>(h: HistoryModel<S>) -> bool {
    &&& 1 <= h.1.len() <= MAX_UNDO_HISTORY
    &&& 0 <= h.2 < h.1.len()
}

/// `new` is `old` after a step to version `position`: the versions are kept, and the sound
/// becomes a clone of that version.
pub open spec fn stepped_to<S: Clone>(old: HistoryModel<S>, new: HistoryModel<S>, position: int) -> bool {
    &&& new.1 == old.1
    &&& new.2 == position
    &&& cloned::<S>(old.1[position], new.0)
}

/// `new` is what undo makes of `old`, returning `moved`: one version back where there is one,
/// and otherwise nothing changes.
pub open spec fn undone<S: Clone>(old: HistoryModel<S>, new: HistoryModel<S>, moved: bool) -> bool {
    &&& moved <==> old.2 > 0
    &&& moved ==> stepped_to(old, new, old.2 - 1)
    &&& !moved ==> new == old
}

/// `new` is what redo makes of `old`, returning `moved`: one version forward where there is
/// one, and otherwise nothing changes.
pub open spec fn redone<S: Clone>(old: HistoryModel<S>, new: HistoryModel<S>, moved: bool) -> bool {
    &&& moved <==> old.2 + 1 < old.1.len()
    &&& moved ==> stepped_to(old, new, old.2 + 1)
    &&& !moved ==> new == old
}

impl<S: Clone> UndoHistory<S> {
    /// A history holding one version: a clone of `sound`, which is also the current sound.
    pub fn new(sound: S) -> (r: UndoHistory<S>)
        ensures
            history_valid(r@),
            r@.0 == sound,
            r@.1.len() == 1,
            cloned::<S>(sound, r@.1[0]),
            r@.2 == 0,
    {
        let mut undo_history = VecDeque::new();
        undo_history.push_back(sound.clone());
        UndoHistory { sound, undo_history, undo_position: 0 }
    }
}

impl<S> UndoHistory<S> {
    /// The current sound.
    pub fn sound(&self) -> (r: &S)
        ensures
            *r == self@.0,
    {
        &self.sound
    }

    /// Replaces the current sound, leaving the versions and the position alone.
    pub fn set_sound(&mut self, sound: S)
        ensures
            final(self)@ == (sound, old(self)@.1, old(self)@.2),
    {
        self.sound = sound;
    }

    /// The position among the versions.
    pub fn undo_position(&self) -> (r: usize)
        ensures
            r == self@.2,
    {
        self.undo_position
    }

    /// The number of versions kept.
    pub fn len(&self) -> (r: usize)
        ensures
            r == self@.1.len(),
    {
        self.undo_history.len()
    }
}

/// Steps back one version, making the sound a clone of it; returns whether it moved (it does
/// not at the first version).
pub fn undo<S: Clone>(state: &mut UndoHistory<S>) -> (moved: bool)
    requires
        history_valid(old(state)@),
    ensures
        history_valid(final(state)@),
        undone(old(state)@, final(state)@, moved),
{
    if state.undo_position > 0 {
        let position = state.undo_position - 1;
        let sound = state.undo_history[position].clone();
        state.undo_position = position;
        state.sound = sound;
        true
    } else {
        false
    }
}

/// Steps forward one version, making the sound a clone of it; returns whether it moved (it does
/// not at the last version).
pub fn redo<S: Clone>(state: &mut UndoHistory<S>) -> (moved: bool)
    requires
        history_valid(old(state)@),
    ensures
        history_valid(final(state)@),
        redone(old(state)@, final(state)@, moved),
{
    if state.undo_position + 1 < state.undo_history.len() {
        let position = state.undo_position + 1;
        let sound = state.undo_history[position].clone();
        state.undo_position = position;
        state.sound = sound;
        true
    } else {
        false
    }
}

/// `new` is what recording makes of `old` when the sound differs from the current version: the
/// versions after the current one are dropped, a clone of the sound is appended and becomes the
/// current version, and the oldest version is dropped where that makes more than
/// `MAX_UNDO_HISTORY`.
pub open spec fn recorded<S: Clone>(old: HistoryModel<S>, new: HistoryModel<S>) -> bool {
    let kept = old.1.take(old.2 + 1);
    &&& new.0 == old.0
    &&& new.1.len() == if kept.len() + 1 <= MAX_UNDO_HISTORY {
        kept.len() + 1
    } else {
        kept.len()
    }
    &&& new.2 == new.1.len() - 1
    &&& cloned::<S>(old.0, new.1[new.2])
    &&& if kept.len() + 1 <= MAX_UNDO_HISTORY {
        new.1.take(new.2) == kept
    } else {
        new.1.take(new.2) == kept.skip(1)
    }
}

impl<S: Clone + PartialEq> UndoHistory<S> {
    /// Records the current sound as a new version where it differs from the current version;
    /// returns whether it did.
    pub fn record_change(&mut self) -> (changed: bool)
        requires
            history_valid(old(self)@),
        ensures
            history_valid(final(self)@),
            S::obeys_eq_spec() ==> (changed <==> !old(self)@.0.eq_spec(
                &old(self)@.1[old(self)@.2],
            )),
            changed ==> recorded(old(self)@, final(self)@),
            !changed ==> final(self)@ == old(self)@,
    {
        let ghost old_model = self@;
        let position = self.undo_position;
        if self.sound != self.undo_history[position] {
            let copy = self.sound.clone();
            let _dropped = self.undo_history.split_off(position + 1);
            if position + 1 < MAX_UNDO_HISTORY {
                self.undo_history.push_back(copy);
                self.undo_position = position + 1;
                proof {
                    assert(self.undo_history@.take(self.undo_position as int) =~= old_model.1.take(
                        old_model.2 + 1,
                    ));
                }
            } else {
                // The history is full: the oldest version goes, and the position stays.
                self.undo_history.push_back(copy);
                let _oldest = self.undo_history.pop_front();
                proof {
                    assert(self.undo_history@.take(self.undo_position as int) =~= old_model.1.take(
                        old_model.2 + 1,
                    ).skip(1));
                }
            }
            true
        } else {
            false
        }
    }
}

/// Undo then redo: where undo moved, redo moves too, back to the same position and versions,
/// and the sound becomes a clone of the version current before the undo.
pub proof fn law_redo_undoes_undo<S: Clone>(
    a: HistoryModel<S>,
    b: HistoryModel<S>,
    c: HistoryModel<S>,
    undo_moved: bool,
    redo_moved: bool,
)
    requires
        history_valid(a),
        undone(a, b, undo_moved),
        undo_moved,
        redone(b, c, redo_moved),
    ensures
        redo_moved,
        c.1 == a.1,
        c.2 == a.2,
        cloned::<S>(a.1[a.2], c.0),
{
}

/// Redo then undo: where redo moved, undo moves too, back to the same position and versions,
/// and the sound becomes a clone of the version current before the redo.
pub proof fn law_undo_undoes_redo<S: Clone>(
    a: HistoryModel<S>,
    b: HistoryModel<S>,
    c: HistoryModel<S>,
    redo_moved: bool,
    undo_moved: bool,
)
    requires
        history_valid(a),
        redone(a, b, redo_moved),
        redo_moved,
        undone(b, c, undo_moved),
    ensures
        undo_moved,
        c.1 == a.1,
        c.2 == a.2,
        cloned::<S>(a.1[a.2], c.0),
{
}

/// Undo right after a recorded change goes back to the version that was current before the
/// change, whether or not the history was full.
pub proof fn law_undo_reverts_recorded_change<S: Clone>(
    a: HistoryModel<S>,
    b: HistoryModel<S>,
    c: HistoryModel<S>,
    undo_moved: bool,
)
    requires
        history_valid(a),
        recorded(a, b),
        undone(b, c, undo_moved),
    ensures
        undo_moved,
        cloned::<S>(a.1[a.2], c.0),
{
    let kept = a.1.take(a.2 + 1);
    if kept.len() + 1 <= MAX_UNDO_HISTORY {
        assert(b.1.take(b.2)[b.2 - 1] == kept[a.2]);
    } else {
        assert(b.1.take(b.2)[b.2 - 1] == kept.skip(1)[b.2 - 1]);
    }
}

} // verus!
