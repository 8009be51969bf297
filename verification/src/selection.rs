//! Which tile of the hand a player has selected, and how it is turned
//! before it is placed.
use crate::tile_base::{BaseGAct, BaseKind, BaseTile, ButtonAction};
use crate::wrap::Erased;
use vstd::prelude::*;

verus! {

/// The first position at which `flags` holds true, if there is one.
pub open spec fn first_set(flags: Seq<bool>) -> Option<int>
    decreases flags.len(),
{
    if flags.len() == 0 {
        None
    } else {
        match first_set(flags.drop_last()) {
            Some(i) => Some(i),
            None => if flags.last() {
                Some(flags.len() - 1)
            } else {
                None
            },
        }
    }
}

/// The first set flag is set, and no flag before it; where none is found,
/// none is set.
pub proof fn lemma_first_set(flags: Seq<bool>)
    ensures
        match first_set(flags) {
            Some(i) => 0 <= i < flags.len() && flags[i] && forall|j: int| 0 <= j < i ==> !flags[j],
            None => forall|j: int| 0 <= j < flags.len() ==> !flags[j],
        },
    decreases flags.len(),
{
    if flags.len() > 0 {
        lemma_first_set(flags.drop_last());
        match first_set(flags.drop_last()) {
            Some(i) => {
                assert(flags.drop_last()[i] == flags[i]);
                assert forall|j: int| 0 <= j < i implies !flags[j] by {
                    assert(flags.drop_last()[j] == flags[j]);
                }
            },
            None => {
                assert forall|j: int| 0 <= j < flags.len() - 1 implies !flags[j] by {
                    assert(flags.drop_last()[j] == flags[j]);
                }
            },
        }
    }
}

/// The first position at which `flags` holds true, if there is one.
pub fn first_clicked(flags: &Vec<bool>) -> (r: Option<usize>)
    ensures
        first_set(flags@) == (match r {
            Some(i) => Some(i as int),
            None => None,
        }),
        r.is_some() ==> r.unwrap() < flags.len(),
{
    proof {
        lemma_first_set(flags@);
    }
    let mut i: usize = 0;
    while i < flags.len()
        invariant
            i <= flags.len(),
            forall|j: int| 0 <= j < i ==> !flags[j],
            match first_set(flags@) {
                Some(i) => 0 <= i < flags.len() && flags[i] && forall|j: int|
                    0 <= j < i ==> !flags[j],
                None => forall|j: int| 0 <= j < flags.len() ==> !flags[j],
            },
        decreases flags.len() - i,
    {
        if flags[i] {
            proof {
                match first_set(flags@) {
                    Some(k) => {
                        if k < i {
                            assert(!flags@[k]);
                        } else if k > i {
                            assert(!flags@[i as int]);
                        }
                    },
                    None => {
                        assert(!flags@[i as int]);
                    },
                }
            }
            return Some(i);
        }
        i += 1;
    }
    None
}

/// The label of the first clicked slot, if any slot was clicked.
pub fn clicked_label<L: Copy>(clicked: &Vec<bool>, labels: &Vec<L>) -> (r: Option<L>)
    requires
        clicked.len() == labels.len(),
    ensures
        r == (match first_set(clicked@) {
            Some(i) => Some(labels[i]),
            None => None,
        }),
{
    match first_clicked(clicked) {
        Some(i) => Some(labels[i]),
        None => None,
    }
}

/// Where the piece that is being placed is shown: at the first slot that
/// the pointer hovers over, or with the pointer if it hovers over none.
pub fn shown_at<P: Copy>(hovered: &Vec<bool>, slots: &Vec<P>, pointer: P) -> (r: P)
    requires
        hovered.len() == slots.len(),
    ensures
        r == (match first_set(hovered@) {
            Some(i) => slots[i],
            None => pointer,
        }),
{
    match first_clicked(hovered) {
        Some(i) => slots[i],
        None => pointer,
    }
}

/// The action that the pressed buttons make of `action`: each button in
/// turn adds its own action for `tile`; a button whose action is of
/// another variant than `action` changes nothing.
pub open spec fn pressed_action(action: BaseGAct, tile: BaseTile, pressed: Seq<ButtonAction>) -> BaseGAct
    decreases pressed.len(),
{
    if pressed.len() == 0 {
        action
    } else {
        let before = pressed_action(action, tile, pressed.drop_last());
        let ButtonAction::Rotation { num_times } = pressed.last();
        match before.compose_spec(&tile.rotation_spec(num_times as int)) {
            Some(after) => after,
            None => before,
        }
    }
}

/// An entry of the hand as it is shown: a tile that can be selected.
#[derive(Clone, Copy, Debug, PartialEq, Eq, Hash)]
pub struct TileSelect {
    selected: bool,
    kind: BaseKind,
    index: u32,
    action: BaseGAct,
}

impl TileSelect {
    /// Whether this entry is the selected tile.
    pub closed spec fn is_selected(&self) -> bool {
        self.selected
    }

    /// The kind of the tile.
    pub closed spec fn spec_kind(&self) -> BaseKind {
        self.kind
    }

    /// The index of the tile among the tiles of its kind in the hand.
    pub closed spec fn spec_index(&self) -> u32 {
        self.index
    }

    /// The action that the tile is shown with.
    pub closed spec fn spec_action(&self) -> BaseGAct {
        self.action
    }

    /// An entry that is not selected.
    pub fn new(kind: BaseKind, index: u32, action: BaseGAct) -> (r: Self)
        ensures
            !r.is_selected(),
            r.spec_kind() == kind,
            r.spec_index() == index,
            r.spec_action() == action,
    {
        TileSelect { selected: false, kind, index, action }
    }

    /// Whether this entry is the selected tile.
    pub fn selected(&self) -> (r: bool)
        ensures
            r == self.is_selected(),
    {
        self.selected
    }

    /// The kind of the tile.
    pub fn kind(&self) -> (r: &BaseKind)
        ensures
            *r == self.spec_kind(),
    {
        &self.kind
    }

    /// The index of the tile among the tiles of its kind in the hand.
    pub fn index(&self) -> (r: u32)
        ensures
            r == self.spec_index(),
    {
        self.index
    }

    /// The action that the tile is shown with.
    pub fn action(&self) -> (r: &BaseGAct)
        ensures
            *r == self.spec_action(),
    {
        &self.action
    }

    /// This entry, selected or not as `selected` says.
    pub fn with_selected(&self, selected: bool) -> (r: Self)
        ensures
            r.is_selected() == selected,
            r.spec_kind() == self.spec_kind(),
            r.spec_index() == self.spec_index(),
            r.spec_action() == self.spec_action(),
    {
        TileSelect { selected, kind: self.kind, index: self.index, action: self.action }
    }
}

/// The tile that's currently selected, paired with its index and group action
/// into the list of tiles the player has of the same kind.
///
/// The group is *not* preapplied to the tile.
#[derive(Clone, Debug, PartialEq, Eq, Hash)]
pub struct SelectedTile(pub u32, pub Option<BaseGAct>, pub Option<BaseTile>);

impl SelectedTile {
    /// No tile is selected.
    pub fn none() -> (r: Self)
        ensures
            r.0 == 0,
            r.1.is_none(),
            r.2.is_none(),
    {
        SelectedTile(0, None, None)
    }

    /// Lets the pressed buttons act on the action of the selected tile; with
    /// no tile selected nothing changes.
    pub fn press(&mut self, pressed: &Vec<ButtonAction>)
        ensures
            final(self).0 == old(self).0,
            final(self).2 == old(self).2,
            final(self).1 == (match (old(self).1, old(self).2) {
                (Some(action), Some(tile)) => Some(pressed_action(action, tile, pressed@)),
                _ => old(self).1,
            }),
    {
        let mut action: BaseGAct = match self.1 {
            Some(a) => a,
            None => {
                return ;
            },
        };
        let ghost first = action;
        match &self.2 {
            None => {},
            Some(tile) => {
                let mut i: usize = 0;
                while i < pressed.len()
                    invariant
                        i <= pressed.len(),
                        action == pressed_action(first, *tile, pressed@.subrange(0, i as int)),
                    decreases pressed.len() - i,
                {
                    proof {
                        let next = pressed@.subrange(0, i + 1);
                        assert(next.drop_last() =~= pressed@.subrange(0, i as int));
                        assert(next.last() == pressed@[i as int]);
                    }
                    match action.compose(&pressed[i].group_action(tile)) {
                        Ok(after) => {
                            action = after;
                        },
                        Err(_) => {},
                    }
                    i += 1;
                }
                assert(pressed@.subrange(0, i as int) =~= pressed@);
                self.1 = Some(action);
            },
        }
    }

    /// Takes note of the clicks on the entries of the hand: with no click
    /// nothing changes; else the first clicked entry becomes the selected
    /// one, with its index, its action and its tile, and no other entry is
    /// selected.
    pub fn select(&mut self, entries: &mut Vec<TileSelect>, tiles: &Vec<BaseTile>, clicked: &Vec<bool>)
        requires
            old(entries).len() == tiles.len(),
            clicked.len() == tiles.len(),
        ensures
            final(entries).len() == old(entries).len(),
            match first_set(clicked@) {
                None => *final(self) == *old(self) && final(entries)@ == old(entries)@,
                Some(f) => {
                    &&& final(self).0 == old(entries)[f].spec_index()
                    &&& final(self).1 == Some(old(entries)[f].spec_action())
                    &&& final(self).2.is_some()
                    &&& final(self).2.unwrap().tag_spec() == tiles[f].tag_spec()
                    &&& final(self).2.unwrap().model() == tiles[f].model()
                    &&& forall|i: int|
                        0 <= i < final(entries).len() ==> {
                            &&& (#[trigger] final(entries)[i]).is_selected() == (i == f)
                            &&& final(entries)[i].spec_kind() == old(entries)[i].spec_kind()
                            &&& final(entries)[i].spec_index() == old(entries)[i].spec_index()
                            &&& final(entries)[i].spec_action() == old(entries)[i].spec_action()
                        }
                },
            },
    {
        let found: usize = match first_clicked(clicked) {
            None => {
                return ;
            },
            Some(f) => f,
        };
        let ghost before = entries@;
        let mut i: usize = 0;
        while i < entries.len()
            invariant
                i <= entries.len(),
                entries.len() == before.len(),
                forall|j: int| i <= j < entries.len() ==> entries[j] == before[j],
                forall|j: int|
                    0 <= j < i ==> {
                        &&& (#[trigger] entries[j]).is_selected() == (j == found as int)
                        &&& entries[j].spec_kind() == before[j].spec_kind()
                        &&& entries[j].spec_index() == before[j].spec_index()
                        &&& entries[j].spec_action() == before[j].spec_action()
                    },
            decreases entries.len() - i,
        {
            let entry = entries[i].with_selected(i == found);
            entries.set(i, entry);
            i += 1;
        }
        self.0 = entries[found].index();
        self.1 = Some(*entries[found].action());
        self.2 = Some(tiles[found].duplicate());
    }
}

} // verus!
