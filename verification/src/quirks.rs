use vstd::prelude::*;

verus! {

/// The five compatibility toggles. Each selects between two historically
/// divergent behaviors of the same instruction; all are fixed when the
/// machine is constructed and never change afterwards.
#[derive(Clone, Copy, Debug)]
pub struct Quirks {
    /// FX55/FX65 advance I by X+1 after the block copy (legacy) when set.
    pub load_store: bool,
    /// 8XY6/8XYE shift VX (modern) when set, VY (legacy) when clear.
    pub shift: bool,
    /// BNNN jumps to XNN + VX (modern) when set, NNN + V0 (legacy) when clear.
    pub jump: bool,
    /// 8XY1/8XY2/8XY3 clear VF as a side effect (legacy) when set.
    pub vf_reset: bool,
    /// Sprite pixels falling outside the grid are skipped (clip) when set,
    /// wrapped around the grid edges when clear.
    pub clip: bool,
}

impl Quirks {
    pub fn new(ld: bool, shift: bool, jump: bool, vf_reset: bool, clip: bool) -> (r: Self)
        ensures
            r.load_store == ld,
            r.shift == shift,
            r.jump == jump,
            r.vf_reset == vf_reset,
            r.clip == clip,
    {
        Quirks { load_store: ld, shift, jump, vf_reset, clip }
    }
}

} // verus!
