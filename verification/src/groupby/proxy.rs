//! The result of a grouping.

use vstd::prelude::*;

verus! {

/// The type of a row index.
pub type IdxSize = usize;

/// Groups of contiguous rows: the first row and the length of each.
pub type GroupsSlice = Vec<[IdxSize; 2]>;

/// Groups of rows that may lie anywhere: the first row and all rows of each,
/// the first among them.
pub type GroupsIdx = Vec<(IdxSize, Vec<IdxSize>)>;

/// A group as the contracts speak of it: its first row and its rows in
/// increasing order.
pub type Group = (int, Seq<int>);

/// The rows `first..first + len`.
pub open spec fn row_range(first: int, len: int) -> Seq<int> {
    Seq::new(len as nat, |j: int| first + j)
}

/// The rows of an index vector.
pub open spec fn rows_view(rows: Seq<IdxSize>) -> Seq<int> {
    Seq::new(rows.len(), |j: int| rows[j] as int)
}

/// The groups that index groups stand for.
pub open spec fn idx_view(groups: Seq<(IdxSize, Vec<IdxSize>)>) -> Seq<Group> {
    Seq::new(groups.len(), |g: int| (groups[g].0 as int, rows_view(groups[g].1@)))
}

/// The groups that slice groups stand for.
pub open spec fn slice_view(groups: Seq<[IdxSize; 2]>) -> Seq<Group> {
    Seq::new(
        groups.len(),
        |g: int| (groups[g]@[0] as int, row_range(groups[g]@[0] as int, groups[g]@[1] as int)),
    )
}

/// Whether row `i` lies in one of the groups.
pub open spec fn row_appears(groups: Seq<Group>, i: int) -> bool {
    exists|g: int, j: int|
        0 <= g < groups.len() && 0 <= j < groups[g].1.len() && #[trigger] groups[g].1[j] == i
}

/// Every row below `len` lies in exactly one group, at exactly one place, and
/// the groups hold no other rows.
pub open spec fn covers_exactly_once(groups: Seq<Group>, len: int) -> bool {
    &&& forall|g: int, j: int|
        0 <= g < groups.len() && 0 <= j < groups[g].1.len() ==> 0 <= #[trigger] groups[g].1[j]
            < len
    &&& forall|i: int| 0 <= i < len ==> #[trigger] row_appears(groups, i)
    &&& forall|g1: int, j1: int, g2: int, j2: int|
        0 <= g1 < groups.len() && 0 <= j1 < groups[g1].1.len() && 0 <= g2 < groups.len() && 0
            <= j2 < groups[g2].1.len() && #[trigger] groups[g1].1[j1] == #[trigger] groups[g2].1[j2]
            ==> g1 == g2 && j1 == j2
}

/// The result of a grouping.
pub enum GroupsProxy {
    /// Groups whose rows may lie anywhere in the column.
    Idx(GroupsIdx),
    /// Groups of contiguous rows. `rolling` says that the groups may overlap,
    /// as the windows of a rolling grouping do.
    Slice { groups: GroupsSlice, rolling: bool },
}

impl GroupsProxy {
    /// The groups, each with its first row and its rows.
    pub open spec fn view(&self) -> Seq<Group> {
        match self {
            GroupsProxy::Idx(groups) => idx_view(groups@),
            GroupsProxy::Slice { groups, .. } => slice_view(groups@),
        }
    }

    /// Number of groups.
    pub fn len(&self) -> (n: usize)
        ensures
            n == self@.len(),
    {
        match self {
            GroupsProxy::Idx(groups) => groups.len(),
            GroupsProxy::Slice { groups, .. } => groups.len(),
        }
    }

    /// The first row of group `g`.
    pub fn first(&self, g: usize) -> (row: IdxSize)
        requires
            g < self@.len(),
        ensures
            row == self@[g as int].0,
    {
        match self {
            GroupsProxy::Idx(groups) => groups[g].0,
            GroupsProxy::Slice { groups, .. } => groups[g][0],
        }
    }

    /// The rows of group `g`, in increasing order.
    pub fn members(&self, g: usize) -> (rows: Vec<IdxSize>)
        requires
            g < self@.len(),
            self matches GroupsProxy::Slice { groups, .. } ==> groups@[g as int]@[0]
                + groups@[g as int]@[1] <= usize::MAX,
        ensures
            rows_view(rows@) == self@[g as int].1,
    {
        match self {
            GroupsProxy::Idx(groups) => {
                let source = &groups[g].1;
                let mut rows: Vec<IdxSize> = Vec::with_capacity(source.len());
                let mut j: usize = 0;
                while j < source.len()
                    invariant
                        0 <= j <= source@.len(),
                        rows@ == source@.subrange(0, j as int),
                    decreases source@.len() - j,
                {
                    rows.push(source[j]);
                    assert(rows@ =~= source@.subrange(0, j + 1));
                    j = j + 1;
                }
                assert(rows@ =~= source@);
                rows
            },
            GroupsProxy::Slice { groups, .. } => {
                let first: usize = groups[g][0];
                let len: usize = groups[g][1];
                let mut rows: Vec<IdxSize> = Vec::with_capacity(len);
                let mut j: usize = 0;
                while j < len
                    invariant
                        0 <= j <= len,
                        first + len <= usize::MAX,
                        rows@.len() == j,
                        forall|k: int| 0 <= k < j ==> rows@[k] == first + k,
                    decreases len - j,
                {
                    rows.push(first + j);
                    j = j + 1;
                }
                assert(rows_view(rows@) =~= row_range(first as int, len as int));
                rows
            },
        }
    }
}

} // verus!
