//! The bookkeeping of the glow drawn above the keys: which keys were pushed
//! this frame, and whether a key's glow starts anew, keeps growing, or is released.
use vstd::prelude::*;

verus! {

/// What a key's glow does when the key is pushed in a frame.
#[derive(Clone, Copy, Debug, PartialEq, Eq, Structural)]
pub enum GlowStep {
    /// A new press or a re-strike: the glow's age and phase start from zero.
    Restart,
    /// The key stays down: the glow keeps ageing.
    Hold,
}

/// The frame flags of one key.
#[derive(Clone, Copy, Debug, PartialEq, Eq, Structural)]
pub struct GlowFlags {
    pub was_pressed_last_frame: bool,
    pub pushed_this_frame: bool,
}

/// The frame flags of every key of the keyboard.
pub struct GlowKeys {
    states: Vec<GlowFlags>,
}

impl View for GlowKeys {
    type V = Seq<GlowFlags>;

    closed spec fn view(&self) -> Seq<GlowFlags> {
        self.states@
    }
}

/// The step of a key pushed now, by whether it was down in the last frame and
/// whether its note was struck again.
pub open spec fn step_of(was_pressed: bool, retrigger: bool) -> GlowStep {
    if !was_pressed || retrigger {
        GlowStep::Restart
    } else {
        GlowStep::Hold
    }
}

/// The flags after pushing key `id`.
pub open spec fn after_push(keys: Seq<GlowFlags>, id: int) -> Seq<GlowFlags> {
    keys.update(id, GlowFlags { was_pressed_last_frame: true, pushed_this_frame: true })
}

/// The flags after the end of a frame: keys not pushed are released, and no key
/// counts as pushed any more.
pub open spec fn after_prepare(keys: Seq<GlowFlags>) -> Seq<GlowFlags> {
    keys.map_values(
        |f: GlowFlags|
            GlowFlags {
                was_pressed_last_frame: f.pushed_this_frame && f.was_pressed_last_frame,
                pushed_this_frame: false,
            },
    )
}

/// The flags of `key_count` keys, none pressed.
pub open spec fn released_keys(key_count: nat) -> Seq<GlowFlags> {
    Seq::new(key_count, |i: int| GlowFlags { was_pressed_last_frame: false, pushed_this_frame: false })
}

impl GlowKeys {
    /// Flags for `key_count` keys, none pressed.
    pub fn new(key_count: usize) -> (keys: GlowKeys)
        ensures
            keys@ == released_keys(key_count as nat),
    {
        let mut states: Vec<GlowFlags> = Vec::new();
        let mut i: usize = 0;
        while i < key_count
            invariant
                i <= key_count,
                states@ =~= Seq::new(
                    i as nat,
                    |k: int| GlowFlags { was_pressed_last_frame: false, pushed_this_frame: false },
                ),
            decreases key_count - i,
        {
            states.push(GlowFlags { was_pressed_last_frame: false, pushed_this_frame: false });
            i += 1;
        }
        let keys = GlowKeys { states };
        assert(keys@ =~= released_keys(key_count as nat));
        keys
    }

    /// The number of keys.
    pub fn len(&self) -> (n: usize)
        ensures
            n == self@.len(),
    {
        self.states.len()
    }

    /// Marks key `id` as pushed in this frame and says how its glow goes on;
    /// a key that is not on the keyboard changes nothing.
    pub fn push(&mut self, id: usize, retrigger: bool) -> (step: Option<GlowStep>)
        ensures
            id >= old(self)@.len() ==> step is None && final(self)@ == old(self)@,
            id < old(self)@.len() ==> step == Some(
                step_of(old(self)@[id as int].was_pressed_last_frame, retrigger),
            ) && final(self)@ == after_push(old(self)@, id as int),
    {
        if id >= self.states.len() {
            return None;
        }
        let flags = self.states[id];
        let step = if !flags.was_pressed_last_frame || retrigger {
            GlowStep::Restart
        } else {
            GlowStep::Hold
        };
        self.states.set(id, GlowFlags { was_pressed_last_frame: true, pushed_this_frame: true });
        Some(step)
    }

    /// Ends a frame: releases every key that was not pushed in it and clears the
    /// pushed marks. Returns, for each key, whether it was released.
    pub fn prepare(&mut self) -> (released: Vec<bool>)
        ensures
            final(self)@ == after_prepare(old(self)@),
            released@.len() == old(self)@.len(),
            forall|i: int|
                0 <= i < released@.len() ==> released@[i] == !(#[trigger] old(self)@[i]).pushed_this_frame,
    {
        let mut released: Vec<bool> = Vec::new();
        let n = self.states.len();
        let mut i: usize = 0;
        while i < n
            invariant
                n == self.states@.len(),
                n == old(self)@.len(),
                i <= n,
                released@.len() == i,
                forall|k: int| 0 <= k < i ==> released@[k] == !(#[trigger] old(self)@[k]).pushed_this_frame,
                forall|k: int| 0 <= k < i ==> #[trigger] self.states@[k] == after_prepare(old(self)@)[k],
                forall|k: int| i <= k < n ==> #[trigger] self.states@[k] == old(self)@[k],
            decreases n - i,
        {
            let flags = self.states[i];
            released.push(!flags.pushed_this_frame);
            self.states.set(
                i,
                GlowFlags {
                    was_pressed_last_frame: flags.pushed_this_frame && flags.was_pressed_last_frame,
                    pushed_this_frame: false,
                },
            );
            i += 1;
        }
        assert(self.states@ =~= after_prepare(old(self)@));
        released
    }
}

/// The glow of a playing scene: there is one only when the glow setting is on,
/// and then no key of the keyboard is pressed yet.
pub fn scene_glow(glow_enabled: bool, key_count: usize) -> (glow: Option<GlowKeys>)
    ensures
        glow is Some <==> glow_enabled,
        glow matches Some(keys) ==> keys@ == released_keys(key_count as nat),
{
    if glow_enabled {
        Some(GlowKeys::new(key_count))
    } else {
        None
    }
}

/// A struck-again note always starts its glow anew.
pub proof fn lemma_retrigger_restarts(was_pressed: bool)
    ensures
        step_of(was_pressed, true) == GlowStep::Restart,
{
}

/// A key held through a whole frame and pushed again without a new strike keeps
/// its glow: after a push, the end of the frame, and a push of the same key,
/// the glow holds.
pub proof fn lemma_held_key_keeps_glowing(keys: Seq<GlowFlags>, id: int)
    requires
        0 <= id < keys.len(),
    ensures
        step_of(after_prepare(after_push(keys, id))[id].was_pressed_last_frame, false) == GlowStep::Hold,
{
}

/// A key left alone for a frame starts its glow anew when it is pushed again.
pub proof fn lemma_released_key_restarts(keys: Seq<GlowFlags>, id: int, retrigger: bool)
    requires
        0 <= id < keys.len(),
        !keys[id].pushed_this_frame,
    ensures
        step_of(after_prepare(keys)[id].was_pressed_last_frame, retrigger) == GlowStep::Restart,
{
}

/// After the end of a frame no key counts as pushed.
pub proof fn lemma_prepare_clears_pushes(keys: Seq<GlowFlags>, i: int)
    requires
        0 <= i < keys.len(),
    ensures
        !after_prepare(keys)[i].pushed_this_frame,
        after_prepare(keys).len() == keys.len(),
{
}

} // verus!
