//! Named groups of cells.

use crate::data::coord::CoordSet;
use vstd::prelude::*;

verus! {

/// A named set of cells.
#[derive(Debug)]
pub struct Group {
    pub id: u32,
    pub name: String,
    pub cells: CoordSet,
}

/// What a [`Group`] stands for.
#[verifier::ext_equal]
pub struct GroupModel {
    pub id: u32,
    pub name: Seq<char>,
    pub cells: Set<(i32, i32)>,
}

impl View for Group {
    type V = GroupModel;

    open spec fn view(&self) -> GroupModel {
        GroupModel { id: self.id, name: self.name@, cells: self.cells@ }
    }
}

/// What a list of groups stands for.
pub open spec fn group_models(groups: Seq<Group>) -> Seq<GroupModel> {
    groups.map_values(|g: Group| g@)
}

} // verus!
