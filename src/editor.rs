use vstd::prelude::*;
use crate::menu::ButtonInteraction;

verus! {

/// Whether a palette button places a double (two by two) or a single tile.
#[derive(Clone, Copy, Debug, PartialEq, Eq, Hash, Structural)]
pub enum EditorAction {
    Double,
    Single,
}

/// The land a palette button places.
#[derive(Clone, Copy, Debug, PartialEq, Eq, Hash, Structural)]
pub enum LandAction {
    TreeSelect,
    IceSelect,
    IronSelect,
    BrickSelect,
    NoneSelect,
}

/// The border a palette button is drawn with.
#[derive(Clone, Copy, Debug, PartialEq, Eq, Hash, Structural)]
pub enum BorderKind {
    Selected,
    Plain,
}

/// The palette entry the editor places.
#[derive(Clone, Copy, Debug, PartialEq, Eq, Hash, Structural)]
pub struct LandSelected {
    pub land: LandAction,
    pub size: EditorAction,
}

impl LandSelected {
    /// The editor starts with double trees selected.
    pub fn new() -> (r: LandSelected)
        ensures
            r == (LandSelected { land: LandAction::TreeSelect, size: EditorAction::Double }),
    {
        LandSelected { land: LandAction::TreeSelect, size: EditorAction::Double }
    }

    /// A palette button's interaction changed: a press selects its entry.
    pub fn editor_left_land_action(&mut self, interaction: ButtonInteraction, land: LandAction, size: EditorAction)
        ensures
            *final(self) == if interaction == ButtonInteraction::Pressed {
                LandSelected { land, size }
            } else {
                *old(self)
            },
    {
        if interaction == ButtonInteraction::Pressed {
            self.land = land;
            self.size = size;
        }
    }

    /// The border of a palette button: marked exactly when its entry is the
    /// selected one.
    pub fn editor_border_selected_update(&self, land: LandAction, size: EditorAction) -> (r: BorderKind)
        ensures
            (r == BorderKind::Selected) <==> (self.land == land && self.size == size),
    {
        if self.land == land && self.size == size {
            BorderKind::Selected
        } else {
            BorderKind::Plain
        }
    }
}

} // verus!
