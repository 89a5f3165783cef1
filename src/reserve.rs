use vstd::prelude::*;

use crate::HORIZON;

verus! {

/// How much stored energy is lost at the start of a frame, as a pure function
/// of the frame and of what was stored at the end of the frame before it.
pub trait DecayRule {
    spec fn decay_spec(&self, frame: int, stored: int) -> int;

    /// A rule never adds energy.
    proof fn lemma_decay_nonnegative(&self, frame: int, stored: int)
        ensures
            0 <= self.decay_spec(frame, stored),
    ;

    fn decay(&self, frame: usize, stored: i64) -> (r: i64)
        ensures
            r as int == self.decay_spec(frame as int, stored as int),
    ;
}

/// Stored energy is kept without loss.
#[derive(Clone, Copy, Debug, PartialEq, Eq)]
pub struct NoDecay;

impl DecayRule for NoDecay {
    open spec fn decay_spec(&self, frame: int, stored: int) -> int {
        0
    }

    proof fn lemma_decay_nonnegative(&self, frame: int, stored: int) {
    }

    fn decay(&self, frame: usize, stored: i64) -> (r: i64) {
        0
    }
}

/// The same amount is lost in every frame.
#[derive(Clone, Copy, Debug, PartialEq, Eq)]
pub struct ConstantDecay {
    pub amount: u32,
}

impl DecayRule for ConstantDecay {
    open spec fn decay_spec(&self, frame: int, stored: int) -> int {
        self.amount as int
    }

    proof fn lemma_decay_nonnegative(&self, frame: int, stored: int) {
    }

    fn decay(&self, frame: usize, stored: i64) -> (r: i64) {
        self.amount as i64
    }
}

/// True when an entry of the store holds exactly `v`.
pub open spec fn cached_as(entry: Option<i64>, v: int) -> bool {
    match entry {
        Some(x) => x as int == v,
        None => false,
    }
}

/// A buffer of stored energy with a ceiling and a decay rule. Each frame's
/// amount is resolved lazily from the frame before it and then kept.
pub struct Reserve<D: DecayRule> {
    pub volume: i64,
    pub decay: D,
    /// The resolved amount of each frame; `None` where not yet resolved.
    pub store: Vec<Option<i64>>,
}

impl<D: DecayRule> Reserve<D> {
    /// The decay rule's amount, never more than what was stored.
    pub open spec fn clamped_decay(&self, frame: int, prev: int) -> int {
        let d = self.decay.decay_spec(frame, prev);
        if prev < d {
            prev
        } else {
            d
        }
    }

    /// What is stored at the end of `frame`: the resolved amount, or else the
    /// amount carried over from the frame before, less its decay.
    pub open spec fn stored(&self, frame: nat) -> int
        decreases frame,
    {
        match self.store@[frame as int] {
            Some(v) => v as int,
            None => if frame == 0 {
                0
            } else {
                let prev = self.stored((frame - 1) as nat);
                prev - self.clamped_decay(frame as int, prev)
            },
        }
    }

    /// Energy lost at the start of `frame`.
    pub open spec fn decay_at_spec(&self, frame: nat) -> int {
        if frame == 0 {
            0
        } else {
            self.clamped_decay(frame as int, self.stored((frame - 1) as nat))
        }
    }

    /// `self` is `earlier` with the same ceiling, rule and horizon, where every
    /// frame but `frame` is either untouched or newly resolved to the amount
    /// that `earlier` gave it.
    pub open spec fn caches_except(&self, earlier: &Reserve<D>, frame: int) -> bool {
        &&& self.volume == earlier.volume
        &&& self.decay == earlier.decay
        &&& self.store@.len() == earlier.store@.len()
        &&& forall|h: int|
            0 <= h < self.store@.len() && h != frame ==> (#[trigger] self.store@[h] == earlier.store@[h]
                || (earlier.store@[h] is None && cached_as(self.store@[h], earlier.stored(h as nat))))
    }

    /// The ceiling is non-negative and every resolved amount lies within it.
    pub open spec fn within_volume(&self) -> bool {
        &&& 0 <= self.volume
        &&& forall|h: int|
            0 <= h < self.store@.len() ==> match #[trigger] self.store@[h] {
                Some(v) => 0 <= v <= self.volume,
                None => true,
            }
    }

    /// What `add` applies: the amount asked for, cut so that the result
    /// neither exceeds the ceiling nor falls below zero.
    pub open spec fn applied(stored: int, amount: int, volume: int) -> int {
        if stored + amount > volume {
            volume - stored
        } else if stored + amount < 0 {
            -stored
        } else {
            amount
        }
    }

    /// What `take` removes: nothing for a negative request, else the request
    /// up to what is stored.
    pub open spec fn taken(stored: int, amount: int) -> int {
        if amount < 0 {
            0
        } else if stored > amount {
            amount
        } else {
            stored
        }
    }

    /// What resolving `frame` of `before` does: the frame's amount is kept,
    /// and so is that of every unresolved frame between it and the nearest
    /// resolved frame below it; nothing else changes, and a frame already
    /// resolved leaves the reserve as it was.
    pub open spec fn resolves(before: Reserve<D>, frame: nat, after: Reserve<D>) -> bool {
        &&& cached_as(after.store@[frame as int], before.stored(frame))
        &&& after.caches_except(&before, frame as int)
        &&& forall|h: int|
            0 <= h <= frame && (forall|g: int| h <= g <= frame ==> (#[trigger] before.store@[g]) is None)
                ==> cached_as(#[trigger] after.store@[h], before.stored(h as nat))
        &&& forall|h: int|
            frame < h < before.store@.len() ==> after.store@[h] == before.store@[h]
        &&& (before.store@[frame as int] is Some ==> after == before)
        &&& (before.within_volume() ==> after.within_volume())
    }

    /// Asking twice for the amount of a frame gives the same amount, and the
    /// second time leaves the reserve untouched: a frame's decay is applied
    /// when it is first resolved and never again.
    pub proof fn lemma_at_idempotent(
        r0: Reserve<D>,
        frame: nat,
        r1: Reserve<D>,
        v1: i64,
        r2: Reserve<D>,
        v2: i64,
    )
        requires
            v1 == r0.stored(frame),
            Self::resolves(r0, frame, r1),
            v2 == r1.stored(frame),
            Self::resolves(r1, frame, r2),
        ensures
            v1 == v2,
            r2 == r1,
    {
    }

    /// `take` removes the request, counted as zero when negative, up to what is
    /// stored; what is left is what was stored less what was removed.
    pub proof fn lemma_take_law(&self, frame: nat, amount: int)
        requires
            self.within_volume(),
            frame < self.store@.len(),
        ensures
            Self::taken(self.stored(frame), amount) == vstd::math::min(
                vstd::math::max(amount, 0),
                self.stored(frame),
            ),
            0 <= self.stored(frame) - Self::taken(self.stored(frame), amount),
    {
        self.lemma_stored_within_volume(frame);
    }

    /// Every amount of a reserve within its ceiling, resolved or not, lies
    /// between zero and the ceiling.
    pub proof fn lemma_stored_within_volume(&self, frame: nat)
        requires
            self.within_volume(),
            frame < self.store@.len(),
        ensures
            0 <= self.stored(frame) <= self.volume,
        decreases frame,
    {
        if self.store@[frame as int] is None && frame > 0 {
            self.lemma_stored_within_volume((frame - 1) as nat);
            let prev = self.stored((frame - 1) as nat);
            self.decay.lemma_decay_nonnegative(frame as int, prev);
        }
    }

    /// Creates an empty reserve with the given ceiling and decay rule over
    /// the default horizon.
    pub fn new(volume: i64, decay: D) -> (r: Reserve<D>)
        ensures
            r.volume == volume,
            r.decay == decay,
            r.store@.len() == HORIZON,
            r.store@[0] == Some(0i64),
            forall|h: int| 0 < h < HORIZON ==> r.store@[h] is None,
            0 <= volume ==> r.within_volume(),
    {
        Reserve::with_horizon(volume, decay, HORIZON)
    }

    /// Creates an empty reserve over `horizon` frames, of which there must
    /// be at least one.
    pub fn with_horizon(volume: i64, decay: D, horizon: usize) -> (r: Reserve<D>)
        requires
            0 < horizon,
        ensures
            r.volume == volume,
            r.decay == decay,
            r.store@.len() == horizon,
            r.store@[0] == Some(0i64),
            forall|h: int| 0 < h < horizon ==> r.store@[h] is None,
            0 <= volume ==> r.within_volume(),
    {
        let mut store: Vec<Option<i64>> = vec![None; horizon];
        store.set(0, Some(0));
        Reserve { volume, decay, store }
    }

    /// Overwrites the amount of a frame, with no regard to the ceiling.
    pub fn set(&mut self, frame: usize, amount: i64)
        requires
            frame < old(self).store@.len(),
        ensures
            final(self).volume == old(self).volume,
            final(self).decay == old(self).decay,
            final(self).store@ == old(self).store@.update(frame as int, Some(amount)),
            old(self).within_volume() && 0 <= amount <= old(self).volume
                ==> final(self).within_volume(),
    {
        self.store.set(frame, Some(amount));
    }

    fn clamp_decay(&self, frame: usize, prev: i64) -> (r: i64)
        ensures
            r as int == self.clamped_decay(frame as int, prev as int),
            0 <= prev ==> 0 <= r <= prev,
            prev < 0 ==> r == prev,
    {
        let d = self.decay.decay(frame, prev);
        proof {
            self.decay.lemma_decay_nonnegative(frame as int, prev as int);
        }
        if prev < d {
            prev
        } else {
            d
        }
    }

    /// The amount stored at the end of `frame`. Resolving it resolves and
    /// keeps every unresolved frame back to the nearest resolved one; a frame
    /// already resolved is returned as it is.
    pub fn at(&mut self, frame: usize) -> (r: i64)
        requires
            frame < old(self).store@.len(),
        ensures
            r as int == old(self).stored(frame as nat),
            Self::resolves(*old(self), frame as nat, *final(self)),
    {
        if let Some(v) = self.store[frame] {
            return v;
        }
        let ghost before: Reserve<D> = *self;
        let mut base: usize = frame;
        while base > 0 && self.store[base].is_none()
            invariant
                base <= frame < self.store@.len(),
                *self == before,
                forall|g: int| base < g <= frame ==> self.store@[g] is None,
            decreases base,
        {
            base = base - 1;
        }
        let mut value: i64 = match self.store[base] {
            Some(v) => v,
            None => 0,
        };
        proof {
            if before.within_volume() {
                before.lemma_stored_within_volume(base as nat);
            }
        }
        self.store.set(base, Some(value));
        let mut g: usize = base;
        while g < frame
            invariant
                base <= g <= frame < self.store@.len(),
                value as int == before.stored(g as nat),
                self.store@[g as int] == Some(value),
                self.caches_except(&before, g as int),
                forall|h: int| g < h < self.store@.len() ==> self.store@[h] == before.store@[h],
                forall|h: int| base < h <= frame ==> before.store@[h] is None,
                base > 0 ==> before.store@[base as int] is Some,
                forall|h: int|
                    base <= h <= g ==> cached_as(#[trigger] self.store@[h], before.stored(h as nat)),
                before.within_volume() ==> self.within_volume(),
            decreases frame - g,
        {
            let next: usize = g + 1;
            let d = self.clamp_decay(next, value);
            value = value - d;
            proof {
                if before.within_volume() {
                    before.lemma_stored_within_volume(next as nat);
                }
            }
            self.store.set(next, Some(value));
            g = next;
        }
        proof {
            assert forall|h: int|
                0 <= h <= frame && (forall|k: int| h <= k <= frame ==> (#[trigger] before.store@[k]) is None)
                    implies cached_as(#[trigger] self.store@[h], before.stored(h as nat)) by {
                if h < base {
                    assert(before.store@[base as int] is None);
                }
            }
        }
        value
    }

    /// Adds energy in `frame`, never beyond the ceiling. Returns the amount
    /// actually added.
    pub fn add(&mut self, frame: usize, amount: i64) -> (r: i64)
        requires
            frame < old(self).store@.len(),
            old(self).within_volume() || {
                &&& i64::MIN <= Self::applied(
                    old(self).stored(frame as nat),
                    amount as int,
                    old(self).volume as int,
                ) <= i64::MAX
                &&& i64::MIN <= old(self).stored(frame as nat) + Self::applied(
                    old(self).stored(frame as nat),
                    amount as int,
                    old(self).volume as int,
                )
            },
        ensures
            r as int == Self::applied(
                old(self).stored(frame as nat),
                amount as int,
                old(self).volume as int,
            ),
            cached_as(final(self).store@[frame as int], old(self).stored(frame as nat) + r),
            final(self).caches_except(old(self), frame as int),
            forall|h: int|
                frame < h < old(self).store@.len() ==> final(self).store@[h] == old(self).store@[h],
            old(self).within_volume() ==> final(self).within_volume(),
    {
        proof {
            if self.within_volume() {
                self.lemma_stored_within_volume(frame as nat);
            }
        }
        let stored = self.at(frame);
        let total = stored as i128 + amount as i128;
        let assign: i64 = if total > self.volume as i128 {
            (self.volume as i128 - stored as i128) as i64
        } else if total < 0 {
            (-(stored as i128)) as i64
        } else {
            amount
        };
        self.set(frame, stored + assign);
        assign
    }

    /// Removes up to `amount` of energy in `frame`; a negative request removes
    /// nothing. Returns the amount removed.
    pub fn take(&mut self, frame: usize, amount: i64) -> (r: i64)
        requires
            frame < old(self).store@.len(),
        ensures
            r as int == Self::taken(old(self).stored(frame as nat), amount as int),
            final(self).stored(frame as nat) == old(self).stored(frame as nat) - r,
            amount < 0 ==> *final(self) == *old(self),
            0 <= amount ==> cached_as(
                final(self).store@[frame as int],
                old(self).stored(frame as nat) - r,
            ),
            final(self).caches_except(old(self), frame as int),
            forall|h: int|
                frame < h < old(self).store@.len() ==> final(self).store@[h] == old(self).store@[h],
            old(self).within_volume() ==> final(self).within_volume(),
    {
        if amount < 0 {
            return 0;
        }
        let stored = self.at(frame);
        if stored > amount {
            self.set(frame, stored - amount);
            amount
        } else {
            self.set(frame, 0);
            stored
        }
    }

    /// Energy lost at the start of `frame`: the rule's amount, never more than
    /// what the frame before held. Resolves the frame before.
    pub fn decay_at(&mut self, frame: usize) -> (r: i64)
        requires
            frame < old(self).store@.len(),
        ensures
            r as int == old(self).decay_at_spec(frame as nat),
            frame == 0 ==> *final(self) == *old(self),
            0 < frame ==> Self::resolves(*old(self), (frame - 1) as nat, *final(self)),
            old(self).within_volume() ==> final(self).within_volume(),
    {
        if frame == 0 {
            return 0;
        }
        let prev = self.at(frame - 1);
        self.clamp_decay(frame, prev)
    }
}

impl Reserve<NoDecay> {
    /// Creates an empty reserve that loses nothing over time.
    pub fn new_without_decay(volume: i64) -> (r: Reserve<NoDecay>)
        ensures
            r.volume == volume,
            r.store@.len() == HORIZON,
            r.store@[0] == Some(0i64),
            forall|h: int| 0 < h < HORIZON ==> r.store@[h] is None,
            0 <= volume ==> r.within_volume(),
    {
        Reserve::new(volume, NoDecay)
    }
}

} // verus!
