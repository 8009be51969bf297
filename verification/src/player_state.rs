//! The tiles that a player holds, grouped by kind.
use crate::board::Board;
use crate::error::ErrorKind;
use crate::game::Game;
use crate::table::{table_get, table_get_mut, table_insert, table_new};
use crate::tile::{Kind, Tile};
use fnv::FnvHashMap;
use vstd::prelude::*;

verus! {

/// Number of tiles that `hand` holds under the listed kinds.
pub open spec fn count_over<T>(kinds: Seq<u32>, hand: Map<u32, Seq<T>>) -> nat
    decreases kinds.len(),
{
    if kinds.len() == 0 {
        0
    } else {
        count_over(kinds.drop_last(), hand) + hand[kinds.last()].len()
    }
}

/// The tiles that `hand` holds under the listed kinds, kind after kind.
pub open spec fn gather<T>(kinds: Seq<u32>, hand: Map<u32, Seq<T>>) -> Seq<T>
    decreases kinds.len(),
{
    if kinds.len() == 0 {
        Seq::empty()
    } else {
        gather(kinds.drop_last(), hand) + hand[kinds.last()]
    }
}

/// The hand with no tile under any of the listed kinds.
pub open spec fn empty_hand<T>(kinds: Seq<u32>) -> Map<u32, Seq<T>> {
    Map::new(|k: u32| kinds.contains(k), |k: u32| Seq::empty())
}

/// Gathering yields as many tiles as are counted.
pub proof fn lemma_gather_len<T>(kinds: Seq<u32>, hand: Map<u32, Seq<T>>)
    ensures
        gather(kinds, hand).len() == count_over(kinds, hand),
    decreases kinds.len(),
{
    if kinds.len() > 0 {
        lemma_gather_len(kinds.drop_last(), hand);
    }
}

/// Two hands that agree on the listed kinds hold the same tiles there.
pub proof fn lemma_agree<T>(kinds: Seq<u32>, a: Map<u32, Seq<T>>, b: Map<u32, Seq<T>>)
    requires
        forall|i: int| 0 <= i < kinds.len() ==> a[#[trigger] kinds[i]] == b[kinds[i]],
    ensures
        count_over(kinds, a) == count_over(kinds, b),
        gather(kinds, a) == gather(kinds, b),
    decreases kinds.len(),
{
    if kinds.len() > 0 {
        let front = kinds.drop_last();
        assert forall|i: int| 0 <= i < front.len() implies a[#[trigger] front[i]] == b[front[i]] by {
            assert(front[i] == kinds[i]);
        }
        lemma_agree(front, a, b);
        assert(kinds.last() == kinds[kinds.len() - 1]);
    }
}

/// Replacing the tiles of one listed kind changes the count by the
/// difference in their number.
pub proof fn lemma_count_replace<T>(kinds: Seq<u32>, hand: Map<u32, Seq<T>>, k: u32, tiles: Seq<T>)
    requires
        kinds.no_duplicates(),
        kinds.contains(k),
    ensures
        count_over(kinds, hand.insert(k, tiles)) + hand[k].len() == count_over(kinds, hand)
            + tiles.len(),
    decreases kinds.len(),
{
    let front = kinds.drop_last();
    let after = hand.insert(k, tiles);
    if kinds.last() == k {
        assert forall|i: int| 0 <= i < front.len() implies after[#[trigger] front[i]]
            == hand[front[i]] by {
            assert(front[i] == kinds[i]);
        }
        lemma_agree(front, after, hand);
    } else {
        let i = choose|i: int| 0 <= i < kinds.len() && kinds[i] == k;
        assert(front[i] == k);
        lemma_count_replace(front, hand, k, tiles);
    }
}

/// A hand that is empty under every listed kind holds no tile.
pub proof fn lemma_count_empty<T>(kinds: Seq<u32>, hand: Map<u32, Seq<T>>)
    requires
        forall|i: int| 0 <= i < kinds.len() ==> hand[#[trigger] kinds[i]].len() == 0,
    ensures
        count_over(kinds, hand) == 0,
    decreases kinds.len(),
{
    if kinds.len() > 0 {
        let front = kinds.drop_last();
        assert forall|i: int| 0 <= i < front.len() implies hand[#[trigger] front[i]].len() == 0 by {
            assert(front[i] == kinds[i]);
        }
        lemma_count_empty(front, hand);
        assert(kinds.last() == kinds[kinds.len() - 1]);
    }
}

/// A hand that holds no tile is empty under every listed kind.
pub proof fn lemma_count_zero<T>(kinds: Seq<u32>, hand: Map<u32, Seq<T>>, i: int)
    requires
        count_over(kinds, hand) == 0,
        0 <= i < kinds.len(),
    ensures
        hand[kinds[i]].len() == 0,
    decreases kinds.len(),
{
    if i < kinds.len() - 1 {
        lemma_count_zero(kinds.drop_last(), hand, i);
    }
}

/// The hand with `tile` added behind the tiles of its kind.
pub open spec fn with_tile<T: Tile>(hand: Map<u32, Seq<T>>, tile: T) -> Map<u32, Seq<T>> {
    hand.insert(tile.model().kind, hand[tile.model().kind].push(tile))
}

/// The hand without the tile at `index` of kind `kind`.
pub open spec fn without_tile<T>(hand: Map<u32, Seq<T>>, kind: u32, index: int) -> Map<u32, Seq<T>> {
    hand.insert(kind, hand[kind].remove(index))
}

/// A change asked of a hand.
pub enum HandOp<T> {
    /// Add the tile.
    Add(T),
    /// Remove the tile of the kind with the given key at the given index.
    Remove(u32, nat),
}

impl<T: Tile> HandOp<T> {
    /// Whether the hand takes the change: it has the kind, and for a
    /// removal a tile at the index.
    pub open spec fn taken_by(self, hand: Map<u32, Seq<T>>) -> bool {
        match self {
            HandOp::Add(tile) => hand.contains_key(tile.model().kind),
            HandOp::Remove(kind, index) => hand.contains_key(kind) && index < hand[kind].len(),
        }
    }

    /// What the change makes of the hand; a change that the hand does not
    /// take leaves it as it is.
    pub open spec fn apply(self, hand: Map<u32, Seq<T>>) -> Map<u32, Seq<T>> {
        if !self.taken_by(hand) {
            hand
        } else {
            match self {
                HandOp::Add(tile) => with_tile(hand, tile),
                HandOp::Remove(kind, index) => without_tile(hand, kind, index as int),
            }
        }
    }
}

/// What a sequence of changes makes of a hand.
pub open spec fn after_ops<T: Tile>(hand: Map<u32, Seq<T>>, ops: Seq<HandOp<T>>) -> Map<u32, Seq<T>>
    decreases ops.len(),
{
    if ops.len() == 0 {
        hand
    } else {
        ops.last().apply(after_ops(hand, ops.drop_last()))
    }
}

/// Number of additions among the changes that the hand takes.
pub open spec fn adds_taken<T: Tile>(hand: Map<u32, Seq<T>>, ops: Seq<HandOp<T>>) -> nat
    decreases ops.len(),
{
    if ops.len() == 0 {
        0
    } else {
        adds_taken(hand, ops.drop_last()) + (if ops.last() is Add && ops.last().taken_by(
            after_ops(hand, ops.drop_last()),
        ) {
            1nat
        } else {
            0nat
        })
    }
}

/// Number of removals among the changes that the hand takes.
pub open spec fn removes_taken<T: Tile>(hand: Map<u32, Seq<T>>, ops: Seq<HandOp<T>>) -> nat
    decreases ops.len(),
{
    if ops.len() == 0 {
        0
    } else {
        removes_taken(hand, ops.drop_last()) + (if ops.last() is Remove && ops.last().taken_by(
            after_ops(hand, ops.drop_last()),
        ) {
            1nat
        } else {
            0nat
        })
    }
}

/// After any sequence of additions and removals a hand has the kinds it
/// had, and holds as many tiles as it held, and as were added, less those
/// that were removed.
pub proof fn lemma_hand_conservation<T: Tile>(
    kinds: Seq<u32>,
    hand: Map<u32, Seq<T>>,
    ops: Seq<HandOp<T>>,
)
    requires
        kinds.no_duplicates(),
        forall|k: u32| hand.contains_key(k) <==> kinds.contains(k),
    ensures
        forall|k: u32| after_ops(hand, ops).contains_key(k) <==> kinds.contains(k),
        count_over(kinds, after_ops(hand, ops)) + removes_taken(hand, ops) == count_over(kinds, hand)
            + adds_taken(hand, ops),
    decreases ops.len(),
{
    if ops.len() > 0 {
        let before = after_ops(hand, ops.drop_last());
        lemma_hand_conservation(kinds, hand, ops.drop_last());
        if ops.last().taken_by(before) {
            match ops.last() {
                HandOp::Add(tile) => {
                    let k = tile.model().kind;
                    lemma_count_replace(kinds, before, k, before[k].push(tile));
                },
                HandOp::Remove(k, index) => {
                    lemma_count_replace(kinds, before, k, before[k].remove(index as int));
                },
            }
        }
    }
}

/// The state of a player.
#[derive(Debug)]
pub struct PlayerState<T: Tile> {
    kinds: Vec<u32>,
    tiles: FnvHashMap<u32, Vec<T>>,
}

impl<T: Tile> PlayerState<T> {
    /// The keys of the kinds of the game, in the board's order.
    pub closed spec fn kinds(&self) -> Seq<u32> {
        self.kinds@
    }

    /// The tiles held under each kind, in the order in which they came.
    pub closed spec fn view(&self) -> Map<u32, Seq<T>> {
        Map::new(|k: u32| self.tiles@.contains_key(k), |k: u32| self.tiles@[k]@)
    }

    /// Validity: the hand has a list for each kind of the game and for no
    /// other, every tile lies under its own kind, and each list can be
    /// counted.
    pub open spec fn wf(&self) -> bool {
        &&& self.kinds().no_duplicates()
        &&& forall|k: u32| self@.contains_key(k) <==> self.kinds().contains(k)
        &&& forall|k: u32, i: int|
            self@.contains_key(k) && 0 <= i < self@[k].len() ==> (#[trigger] self@[k][i]).model().kind
                == k
        &&& forall|k: u32| self@.contains_key(k) ==> (#[trigger] self@[k]).len() <= u32::MAX
    }

    /// Number of tiles in the hand.
    pub open spec fn total(&self) -> nat {
        count_over(self.kinds(), self@)
    }

    /// Construct a player state with the player holding 0 tiles.
    pub fn new<G>(game: &G) -> (r: Self) where G: Game<Tile = T, Kind = T::Kind>
        ensures
            r.wf(),
            r.kinds() == game.board_spec().kinds_spec(),
            r@ == empty_hand::<T>(r.kinds()),
    {
        let all = game.board().all_kinds();
        let ghost listed = game.board_spec().kinds_spec();
        let mut kinds: Vec<u32> = Vec::new();
        let mut tiles: FnvHashMap<u32, Vec<T>> = table_new();
        let mut i: usize = 0;
        while i < all.len()
            invariant
                i <= all.len(),
                all.len() == listed.len(),
                forall|j: int| 0 <= j < all.len() ==> (#[trigger] all[j]).key() == listed[j],
                kinds@ == listed.subrange(0, i as int),
                forall|k: u32| tiles@.contains_key(k) <==> kinds@.contains(k),
                forall|k: u32| tiles@.contains_key(k) ==> (#[trigger] tiles@[k])@.len() == 0,
            decreases all.len() - i,
        {
            let key: u32 = all[i].kind_key();
            let ghost before = kinds@;
            kinds.push(key);
            table_insert(&mut tiles, key, Vec::new());
            proof {
                assert(kinds@ =~= listed.subrange(0, i + 1));
                assert forall|k: u32| tiles@.contains_key(k) <==> kinds@.contains(k) by {
                    if k == key {
                        assert(kinds@[i as int] == key);
                    } else if before.contains(k) {
                        let j = choose|j: int| 0 <= j < before.len() && before[j] == k;
                        assert(kinds@[j] == k);
                    } else if kinds@.contains(k) {
                        let j = choose|j: int| 0 <= j < kinds@.len() && kinds@[j] == k;
                        assert(before[j] == k);
                    }
                }
            }
            i += 1;
        }
        proof {
            assert(kinds@ =~= listed);
        }
        let r = PlayerState { kinds, tiles };
        assert(r@ =~~= empty_hand::<T>(r.kinds()));
        r
    }
    /// The tiles the player is holding, grouped by the key of their kind.
    pub fn tiles(&self) -> (r: &FnvHashMap<u32, Vec<T>>)
        ensures
            forall|k: u32| r@.contains_key(k) <==> self@.contains_key(k),
            forall|k: u32| r@.contains_key(k) ==> (#[trigger] r@[k])@ == self@[k],
    {
        &self.tiles
    }

    /// Whether `kind` is one of the kinds of the game.
    pub fn has_kind(&self, kind: &T::Kind) -> (r: bool)
        ensures
            r == self@.contains_key(kind.key()),
    {
        table_get(&self.tiles, kind.kind_key()).is_some()
    }

    /// Number of tiles of a specific kind that the player is holding.
    pub fn num_tiles_by_kind(&self, kind: &T::Kind) -> (n: u32)
        requires
            self.wf(),
            self@.contains_key(kind.key()),
        ensures
            n == self@[kind.key()].len(),
    {
        let key: u32 = kind.kind_key();
        let held = table_get(&self.tiles, key).unwrap();
        assert(held@ == self@[key]);
        held.len() as u32
    }

    /// Adds a tile to the player's hand, behind the tiles of its kind.
    pub fn add_tile(&mut self, tile: T)
        requires
            old(self).wf(),
            old(self)@.contains_key(tile.model().kind),
            old(self)@[tile.model().kind].len() < u32::MAX,
        ensures
            final(self).wf(),
            final(self).kinds() == old(self).kinds(),
            final(self)@ == with_tile(old(self)@, tile),
            final(self).total() == old(self).total() + 1,
    {
        let key: u32 = tile.kind().kind_key();
        let ghost before = self@;
        match table_get_mut(&mut self.tiles, key) {
            Some(slot) => {
                slot.push(tile);
            },
            None => {},
        }
        proof {
            assert(self@ =~~= before.insert(key, before[key].push(tile)));
            lemma_count_replace(self.kinds(), before, key, before[key].push(tile));
        }
    }

    /// Removes and returns a tile from the player's hand by kind and index,
    /// if a tile stands there.
    pub fn remove_tile(&mut self, kind: &T::Kind, index: u32) -> (r: Result<T, ErrorKind>)
        requires
            old(self).wf(),
            old(self)@.contains_key(kind.key()),
        ensures
            final(self).wf(),
            final(self).kinds() == old(self).kinds(),
            index < old(self)@[kind.key()].len() ==> {
                &&& r == Ok::<T, ErrorKind>(old(self)@[kind.key()][index as int])
                &&& final(self)@ == without_tile(old(self)@, kind.key(), index as int)
                &&& final(self).total() + 1 == old(self).total()
            },
            index >= old(self)@[kind.key()].len() ==> {
                &&& r == Err::<T, ErrorKind>(ErrorKind::IndexOutOfRange)
                &&& final(self)@ == old(self)@
                &&& final(self).total() == old(self).total()
            },
    {
        let key: u32 = kind.kind_key();
        let ghost before = self@;
        let mut taken: Option<T> = None;
        match table_get_mut(&mut self.tiles, key) {
            Some(slot) => {
                if (index as usize) < slot.len() {
                    taken = Some(slot.remove(index as usize));
                }
            },
            None => {},
        }
        match taken {
            Some(tile) => {
                proof {
                    assert(self@ =~~= before.insert(key, before[key].remove(index as int)));
                    lemma_count_replace(self.kinds(), before, key, before[key].remove(index as int));
                }
                Ok(tile)
            },
            None => {
                proof {
                    assert(self@ =~~= before);
                }
                Err(ErrorKind::IndexOutOfRange)
            },
        }
    }

    /// Removes and returns all tiles from the player's hand, kind after
    /// kind in the board's order.
    pub fn remove_all_tiles(&mut self) -> (r: Vec<T>)
        requires
            old(self).wf(),
        ensures
            final(self).wf(),
            final(self).kinds() == old(self).kinds(),
            final(self)@ == empty_hand::<T>(old(self).kinds()),
            final(self).total() == 0,
            r@ == gather(old(self).kinds(), old(self)@),
            r.len() == old(self).total(),
    {
        let ghost before = self@;
        let ghost kinds = self.kinds();
        let mut all: Vec<T> = Vec::new();
        let mut i: usize = 0;
        while i < self.kinds.len()
            invariant
                self.wf(),
                self.kinds() == kinds,
                old(self).kinds() == kinds,
                old(self)@ == before,
                kinds.no_duplicates(),
                i <= kinds.len(),
                kinds.len() == self.kinds.len(),
                forall|k: u32| self@.contains_key(k) <==> before.contains_key(k),
                forall|j: int| 0 <= j < i ==> self@[#[trigger] kinds[j]].len() == 0,
                forall|j: int| i <= j < kinds.len() ==> self@[#[trigger] kinds[j]] == before[kinds[j]],
                all@ == gather(kinds.subrange(0, i as int), before),
            decreases self.kinds.len() - i,
        {
            let key: u32 = self.kinds[i];
            let ghost now = self@;
            assert(kinds[i as int] == key);
            assert(kinds.contains(key));
            match table_get_mut(&mut self.tiles, key) {
                Some(slot) => {
                    all.append(slot);
                },
                None => {},
            }
            proof {
                assert(self@ =~~= now.insert(key, Seq::empty()));
                let next = kinds.subrange(0, i + 1);
                assert(next.drop_last() =~= kinds.subrange(0, i as int));
                assert(next.last() == key);
            }
            i += 1;
        }
        proof {
            assert(kinds.subrange(0, i as int) =~= kinds);
            assert forall|k: u32| self@.contains_key(k) implies (#[trigger] self@[k]).len() == 0 by {
                assert(self.kinds().contains(k));
                let j = choose|j: int| 0 <= j < kinds.len() && kinds[j] == k;
                assert(self@[kinds[j]].len() == 0);
            }
            assert(self@ =~~= empty_hand::<T>(kinds));
            lemma_count_empty(kinds, self@);
            lemma_gather_len(kinds, before);
        }
        all
    }

    /// The keys of the kinds of the game, in the board's order.
    pub fn kind_keys(&self) -> (r: &Vec<u32>)
        ensures
            r@ == self.kinds(),
    {
        &self.kinds
    }

    /// Whether the hand holds no tile.
    pub fn is_empty(&self) -> (r: bool)
        requires
            self.wf(),
        ensures
            r == (self.total() == 0),
    {
        let mut i: usize = 0;
        while i < self.kinds.len()
            invariant
                self.wf(),
                i <= self.kinds.len(),
                forall|j: int| 0 <= j < i ==> self@[#[trigger] self.kinds()[j]].len() == 0,
            decreases self.kinds.len() - i,
        {
            let key: u32 = self.kinds[i];
            assert(self.kinds()[i as int] == key);
            assert(self.kinds().contains(key));
            let held = table_get(&self.tiles, key).unwrap();
            assert(held@ == self@[key]);
            if held.len() > 0 {
                proof {
                    if self.total() == 0 {
                        lemma_count_zero(self.kinds(), self@, i as int);
                    }
                }
                return false;
            }
            i += 1;
        }
        proof {
            lemma_count_empty(self.kinds(), self@);
        }
        true
    }

    /// The tile at `index` among the tiles of `kind`, if there is one.
    pub fn tile(&self, kind: &T::Kind, index: u32) -> (r: Option<&T>)
        requires
            self.wf(),
        ensures
            r == (if self@.contains_key(kind.key()) && index < self@[kind.key()].len() {
                Some(&self@[kind.key()][index as int])
            } else {
                None
            }),
    {
        let key: u32 = kind.kind_key();
        match table_get(&self.tiles, key) {
            None => None,
            Some(held) => {
                assert(held@ == self@[key]);
                if (index as usize) < held.len() {
                    Some(&held[index as usize])
                } else {
                    None
                }
            },
        }
    }

    /// Whether `copy` holds the tiles of this hand, tile for tile: as they
    /// are, or face down if `face_down` says so.
    pub open spec fn copied_as(&self, copy: &Self, face_down: bool) -> bool {
        &&& copy.kinds() == self.kinds()
        &&& forall|k: u32| copy@.contains_key(k) <==> self@.contains_key(k)
        &&& forall|k: u32|
            self@.contains_key(k) ==> (#[trigger] copy@[k]).len() == self@[k].len()
        &&& forall|k: u32, i: int|
            self@.contains_key(k) && 0 <= i < self@[k].len() ==> (#[trigger] copy@[k][i]).model() == (
            if face_down {
                self@[k][i].model().face_down()
            } else {
                self@[k][i].model()
            })
    }

    /// A second hand with the tiles of this one, as they are or face down.
    fn copy_as(&self, face_down: bool) -> (r: Self)
        requires
            self.wf(),
        ensures
            r.wf(),
            self.copied_as(&r, face_down),
    {
        let mut kinds: Vec<u32> = Vec::new();
        let mut tiles: FnvHashMap<u32, Vec<T>> = table_new();
        let mut i: usize = 0;
        while i < self.kinds.len()
            invariant
                self.wf(),
                i <= self.kinds.len(),
                kinds@ == self.kinds().subrange(0, i as int),
                forall|k: u32| tiles@.contains_key(k) <==> kinds@.contains(k),
                forall|k: u32| tiles@.contains_key(k) ==> (#[trigger] tiles@[k])@.len() == self@[k].len(),
                forall|k: u32, j: int|
                    tiles@.contains_key(k) && 0 <= j < self@[k].len() ==> (#[trigger] tiles@[k]@[j]).model()
                        == (if face_down {
                        self@[k][j].model().face_down()
                    } else {
                        self@[k][j].model()
                    }),
            decreases self.kinds.len() - i,
        {
            let key: u32 = self.kinds[i];
            assert(self.kinds()[i as int] == key);
            assert(self.kinds().contains(key));
            let held = table_get(&self.tiles, key).unwrap();
            assert(held@ == self@[key]);
            let mut copies: Vec<T> = Vec::new();
            let mut j: usize = 0;
            while j < held.len()
                invariant
                    j <= held.len(),
                    copies.len() == j,
                    forall|t: int|
                        0 <= t < j ==> (#[trigger] copies[t]).model() == (if face_down {
                            held[t].model().face_down()
                        } else {
                            held[t].model()
                        }),
                decreases held.len() - j,
            {
                let copy = if face_down {
                    held[j].conceal()
                } else {
                    held[j].duplicate()
                };
                copies.push(copy);
                j += 1;
            }
            let ghost before = kinds@;
            let ghost table = tiles@;
            kinds.push(key);
            table_insert(&mut tiles, key, copies);
            proof {
                assert(kinds@ =~= self.kinds().subrange(0, i + 1));
                assert(!before.contains(key)) by {
                    if before.contains(key) {
                        let a = choose|a: int| 0 <= a < before.len() && before[a] == key;
                        assert(self.kinds()[a] == key);
                    }
                }
                assert forall|k: u32| tiles@.contains_key(k) <==> kinds@.contains(k) by {
                    if k == key {
                        assert(kinds@[i as int] == key);
                    } else if before.contains(k) {
                        let a = choose|a: int| 0 <= a < before.len() && before[a] == k;
                        assert(kinds@[a] == k);
                    } else if kinds@.contains(k) {
                        let a = choose|a: int| 0 <= a < kinds@.len() && kinds@[a] == k;
                        assert(before[a] == k);
                    }
                }
            }
            i += 1;
        }
        let r = PlayerState { kinds, tiles };
        proof {
            assert(r.kinds() =~= self.kinds());
            assert forall|k: u32| r@.contains_key(k) <==> self@.contains_key(k) by {
                assert(r.tiles@.contains_key(k) <==> r.kinds().contains(k));
                assert(self@.contains_key(k) <==> self.kinds().contains(k));
            }
            assert forall|k: u32| self@.contains_key(k) implies (#[trigger] r@[k]).len()
                == self@[k].len() by {
                assert(r@.contains_key(k));
                assert(r.tiles@.contains_key(k));
                assert(r.tiles@[k]@.len() == self@[k].len());
            }
            assert forall|k: u32, i: int|
                self@.contains_key(k) && 0 <= i < self@[k].len() implies (#[trigger] r@[k][i]).model()
                == (if face_down {
                self@[k][i].model().face_down()
            } else {
                self@[k][i].model()
            }) by {
                assert(r@.contains_key(k));
                assert(r.tiles@.contains_key(k));
                assert(r.tiles@[k]@[i].model() == (if face_down {
                    self@[k][i].model().face_down()
                } else {
                    self@[k][i].model()
                }));
            }
            assert forall|k: u32, i: int|
                r@.contains_key(k) && 0 <= i < r@[k].len() implies (#[trigger] r@[k][i]).model().kind
                == k by {
                assert(self@.contains_key(k));
                assert(r@[k].len() == self@[k].len());
                assert(self@[k][i].model().kind == k);
            }
            assert forall|k: u32| r@.contains_key(k) implies (#[trigger] r@[k]).len() <= u32::MAX by {
                assert(self@.contains_key(k));
                assert(r@[k].len() == self@[k].len());
                assert(self@[k].len() <= u32::MAX);
            }
        }
        r
    }

    /// A second hand like this one.
    pub fn duplicate(&self) -> (r: Self)
        requires
            self.wf(),
        ensures
            r.wf(),
            self.copied_as(&r, false),
    {
        self.copy_as(false)
    }

    /// This hand with every tile face down, as the other players see it.
    pub fn concealed(&self) -> (r: Self)
        requires
            self.wf(),
        ensures
            r.wf(),
            self.copied_as(&r, true),
    {
        self.copy_as(true)
    }
}

} // verus!
