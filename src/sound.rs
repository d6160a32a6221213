//! Requests for sound effects, played by whoever drives the audio.
use vstd::prelude::*;

verus! {

#[derive(Clone, Copy, PartialEq, Eq, Structural, Debug, Hash)]
pub enum SoundEffectType {
    Ready,
    GameOver,
    Explosion,
    Shot,
    Shield,
    PlanetHit,
}

pub struct SoundEffectQueue {
    pub requests: Vec<SoundEffectType>,
}

impl SoundEffectQueue {
    pub fn new() -> (q: SoundEffectQueue)
        ensures
            q.requests@ == Seq::<SoundEffectType>::empty(),
    {
        SoundEffectQueue { requests: Vec::new() }
    }

    /// Asks for `effect_type` to be played.
    pub fn play(&mut self, effect_type: SoundEffectType)
        ensures
            final(self).requests@ == old(self).requests@.push(effect_type),
    {
        self.requests.push(effect_type);
    }

    /// Hands out the requests in the order they were made and empties the queue.
    pub fn take(&mut self) -> (r: Vec<SoundEffectType>)
        ensures
            r@ == old(self).requests@,
            final(self).requests@ == Seq::<SoundEffectType>::empty(),
    {
        let mut r: Vec<SoundEffectType> = Vec::new();
        std::mem::swap(&mut r, &mut self.requests);
        r
    }
}

} // verus!
