//! Toolbar item state: which icon is selected and which are shown.

use vstd::prelude::*;

verus! {

/// The state the engine keeps per toolbar icon.
#[derive(Clone, Copy, PartialEq, Eq, Structural, Debug)]
pub struct ToolbarIcon {
    pub selected: bool,
    pub visible: bool,
}

/// Unselect all toolbar items.
pub fn toggle_toolbar(toolbar_obj: &mut Vec<ToolbarIcon>)
    ensures
        final(toolbar_obj).view().len() == old(toolbar_obj).view().len(),
        forall|i: int| 0 <= i < old(toolbar_obj).view().len()
            ==> #[trigger] final(toolbar_obj).view()[i] == (ToolbarIcon {
                selected: false,
                ..old(toolbar_obj).view()[i]
            }),
{
    let n = toolbar_obj.len();
    let mut i: usize = 0;
    while i < n
        invariant
            i <= n,
            n == toolbar_obj.view().len(),
            toolbar_obj.view().len() == old(toolbar_obj).view().len(),
            forall|j: int| i <= j < n
                ==> #[trigger] toolbar_obj.view()[j] == old(toolbar_obj).view()[j],
            forall|j: int| 0 <= j < i
                ==> #[trigger] toolbar_obj.view()[j] == (ToolbarIcon {
                    selected: false,
                    ..old(toolbar_obj).view()[j]
                }),
        decreases n - i,
    {
        let item = toolbar_obj[i];
        toolbar_obj.set(i, ToolbarIcon { selected: false, ..item });
        i = i + 1;
    }
}

/// Set visibility for all toolbar items.
pub fn visible_toolbar(toolbar_obj: &mut Vec<ToolbarIcon>, v: bool)
    ensures
        final(toolbar_obj).view().len() == old(toolbar_obj).view().len(),
        forall|i: int| 0 <= i < old(toolbar_obj).view().len()
            ==> #[trigger] final(toolbar_obj).view()[i] == (ToolbarIcon {
                visible: v,
                ..old(toolbar_obj).view()[i]
            }),
{
    let n = toolbar_obj.len();
    let mut i: usize = 0;
    while i < n
        invariant
            i <= n,
            n == toolbar_obj.view().len(),
            toolbar_obj.view().len() == old(toolbar_obj).view().len(),
            forall|j: int| i <= j < n
                ==> #[trigger] toolbar_obj.view()[j] == old(toolbar_obj).view()[j],
            forall|j: int| 0 <= j < i
                ==> #[trigger] toolbar_obj.view()[j] == (ToolbarIcon {
                    visible: v,
                    ..old(toolbar_obj).view()[j]
                }),
        decreases n - i,
    {
        let item = toolbar_obj[i];
        toolbar_obj.set(i, ToolbarIcon { visible: v, ..item });
        i = i + 1;
    }
}

} // verus!
