use vstd::prelude::*;

verus! {

/// Bit pattern of the volume, in litres, that a default slot holds (2500.0 as an `f32`).
pub const DEFAULT_VOLUME_BITS: u32 = 0x451C_4000;

/// What a mixture record holds, as plain values: the bit pattern of its volume
/// and the amount of each gas it carries.
pub struct MixtureView {
    pub volume: u32,
    pub moles: Seq<u32>,
}

/// The payload of one slot. Its volume is kept as the bit pattern of the host's
/// number, never as a float: the arena only stores and compares it.
pub struct Mixture {
    volume: u32,
    moles: Vec<u32>,
}

/// The content of a freshly created or freshly reset slot of the given volume.
pub open spec fn fresh_mixture(volume: u32) -> MixtureView {
    MixtureView { volume, moles: Seq::empty() }
}

impl View for Mixture {
    type V = MixtureView;

    closed spec fn view(&self) -> MixtureView {
        MixtureView { volume: self.volume, moles: self.moles@ }
    }
}

impl Mixture {
    /// A mixture of the given volume with no gas in it.
    pub fn from_vol(volume: u32) -> (r: Mixture)
        ensures
            r@ == fresh_mixture(volume),
    {
        Mixture { volume, moles: Vec::new() }
    }

    /// Empties the mixture and gives it the given volume.
    pub fn clear_with_vol(&mut self, volume: u32)
        ensures
            final(self)@ == fresh_mixture(volume),
    {
        self.volume = volume;
        self.moles = Vec::new();
    }

    /// A copy with the same content.
    pub fn duplicate(&self) -> (r: Mixture)
        ensures
            r@ == self@,
    {
        Mixture { volume: self.volume, moles: self.moles.clone() }
    }

    pub fn volume(&self) -> (r: u32)
        ensures
            r == self@.volume,
    {
        self.volume
    }

    pub fn moles(&self) -> (r: &Vec<u32>)
        ensures
            r@ == self@.moles,
    {
        &self.moles
    }

    /// Adds one more gas amount to the mixture.
    pub fn push_moles(&mut self, amount: u32)
        ensures
            final(self)@ == (MixtureView {
                volume: old(self)@.volume,
                moles: old(self)@.moles.push(amount),
            }),
    {
        self.moles.push(amount);
    }
}

impl Default for Mixture {
    fn default() -> (r: Mixture)
        ensures
            r@ == fresh_mixture(DEFAULT_VOLUME_BITS),
    {
        Mixture::from_vol(DEFAULT_VOLUME_BITS)
    }
}

} // verus!
