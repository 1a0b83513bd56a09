//! Hotbar and block picker state.
use vstd::prelude::*;

verus! {

/// Hotbar: 9 slots holding block material IDs, one of them selected.
pub struct HotbarState {
    pub slots: [u16; 9],
    pub selected: usize,
}

impl HotbarState {
    /// Slots 1 through 8 in order then air, with the first slot selected.
    pub fn new() -> (h: Self)
        ensures
            h.slots@ == seq![1u16, 2, 3, 4, 5, 6, 7, 8, 0],
            h.selected == 0,
    {
        let h = HotbarState { slots: [1, 2, 3, 4, 5, 6, 7, 8, 0], selected: 0 };
        assert(h.slots@ =~= seq![1u16, 2, 3, 4, 5, 6, 7, 8, 0]);
        h
    }

    /// Block ID in the selected slot.
    pub fn selected_block_id(&self) -> (r: u16)
        requires
            self.selected < 9,
        ensures
            r == self.slots@[self.selected as int],
    {
        self.slots[self.selected]
    }
}

/// Block picker overlay state.
pub struct BlockPickerState {
    pub visible: bool,
}

impl BlockPickerState {
    /// A hidden picker.
    pub fn new() -> (p: Self)
        ensures
            !p.visible,
    {
        BlockPickerState { visible: false }
    }
}

} // verus!
