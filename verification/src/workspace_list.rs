use vstd::prelude::*;
use crate::ids::Uid;

verus! {

/// The tabs of the workspace's main list.
#[derive(Clone, Copy, Debug, PartialEq, Eq, Structural)]
pub enum WorkspaceTab {
    Template,
    Operative,
    Instance,
    Trait,
}

/// What the "Create New" button of a tab adds to the schema: a template or a
/// trait, each named "new".
#[derive(Clone, Copy, Debug, PartialEq, Eq, Structural)]
pub enum NewListItem {
    Template,
    Trait,
}

/// What the tab's "Create New" button creates; the operative and instance
/// tabs have no such button.
pub fn create_new_item(tab: WorkspaceTab) -> (r: Option<NewListItem>)
    ensures
        r == match tab {
            WorkspaceTab::Template => Some(NewListItem::Template),
            WorkspaceTab::Trait => Some(NewListItem::Trait),
            WorkspaceTab::Operative | WorkspaceTab::Instance => None::<NewListItem>,
        },
{
    match tab {
        WorkspaceTab::Template => Some(NewListItem::Template),
        WorkspaceTab::Trait => Some(NewListItem::Trait),
        WorkspaceTab::Operative | WorkspaceTab::Instance => None,
    }
}

/// Whether a list item is shown as active: it is the one selected in its tab.
pub fn is_active_list_item(selected: Option<Uid>, item: Uid) -> (r: bool)
    ensures
        r == (selected == Some(item)),
{
    match selected {
        Some(s) => s == item,
        None => false,
    }
}

} // verus!
