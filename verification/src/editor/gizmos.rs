use vstd::prelude::*;

use crate::editor::picking::{selection_indication, SelectionIndication};

verus! {

/// How a portal of the room being edited is drawn.
#[derive(Clone, Copy, Debug, PartialEq, Eq, Structural)]
pub struct PortalGizmo {
    /// The colour class of the portal's outline and arrows.
    pub indication: SelectionIndication,
    /// The up arrow and the arrow through the portal are drawn.
    pub arrows: bool,
    /// A second arrow through the portal, pointing back, is drawn.
    pub back_arrow: bool,
}

/// The portal outline is hidden during a play test. Otherwise it is coloured by selection
/// (`targeted` by the transform gizmo, `primary` selection); a portal still being placed
/// shows only its outline, and a bidirectional portal gets an arrow each way.
pub fn portal_gizmo(playing: bool, targeted: bool, primary: bool, placing: bool, bidirectional: bool) -> (r:
    Option<PortalGizmo>)
    ensures
        playing ==> r is None,
        !playing ==> r == Some(
            PortalGizmo {
                indication: if !targeted {
                    SelectionIndication::Unselected
                } else if primary {
                    SelectionIndication::Selected
                } else {
                    SelectionIndication::Multiselected
                },
                arrows: !placing,
                back_arrow: !placing && bidirectional,
            },
        ),
{
    if playing {
        return None;
    }
    let indication = selection_indication(targeted, primary);
    Some(PortalGizmo { indication, arrows: !placing, back_arrow: !placing && bidirectional })
}

} // verus!
