//! The closed carriers of the tile side: kinds, actions and tiles of any
//! registered variant.
use crate::error::ErrorKind;
use crate::tile::{GAct, Kind, RegularKind, RegularTile, Rotation, Tile, TileModel};
use crate::wrap::{Erased, WrapBase};
use vstd::prelude::*;

verus! {

/// The variants of the kind family.
#[derive(Clone, Copy, Debug, PartialEq, Eq, Structural, Hash)]
pub enum KindTag {
    Regular,
}

/// A kind of any registered variant.
#[derive(Clone, Copy, Debug, PartialEq, Eq, Structural, PartialOrd, Ord, Hash)]
pub enum BaseKind {
    Regular(RegularKind),
}

impl Erased for BaseKind {
    type Tag = KindTag;

    open spec fn tag_spec(&self) -> KindTag {
        match self {
            BaseKind::Regular(_) => KindTag::Regular,
        }
    }

    fn tag(&self) -> (t: KindTag) {
        match self {
            BaseKind::Regular(_) => KindTag::Regular,
        }
    }
}

impl WrapBase for RegularKind {
    type Base = BaseKind;

    open spec fn variant() -> KindTag {
        KindTag::Regular
    }

    open spec fn wrap_spec(self) -> BaseKind {
        BaseKind::Regular(self)
    }

    open spec fn unwrap_spec(base: &BaseKind) -> Option<Self> {
        match base {
            BaseKind::Regular(k) => Some(*k),
        }
    }

    fn wrap_base(self) -> (b: BaseKind) {
        BaseKind::Regular(self)
    }

    fn unwrap_base(base: BaseKind) -> (r: Option<Self>) {
        match base {
            BaseKind::Regular(k) => Some(k),
        }
    }

    fn unwrap_base_ref(base: &BaseKind) -> (r: Option<&Self>) {
        match base {
            BaseKind::Regular(k) => Some(k),
        }
    }

    proof fn lemma_round_trip(v: Self) {
    }

    proof fn lemma_unwrap(base: BaseKind) {
    }
}

impl Kind for BaseKind {
    open spec fn key(&self) -> u32 {
        match self {
            BaseKind::Regular(k) => k.key(),
        }
    }

    fn kind_key(&self) -> (k: u32) {
        match self {
            BaseKind::Regular(kind) => kind.kind_key(),
        }
    }

    proof fn lemma_key_injective(a: Self, b: Self) {
    }
}

/// The variants of the action and tile families.
#[derive(Clone, Copy, Debug, PartialEq, Eq, Structural, Hash)]
pub enum TileTag {
    Square,
    Hexagon,
}

/// A group action of any registered variant.
#[derive(Clone, Copy, Debug, PartialEq, Eq, PartialOrd, Ord, Hash)]
pub enum BaseGAct {
    Square(Rotation<4>),
    Hexagon(Rotation<6>),
}

impl Erased for BaseGAct {
    type Tag = TileTag;

    open spec fn tag_spec(&self) -> TileTag {
        match self {
            BaseGAct::Square(_) => TileTag::Square,
            BaseGAct::Hexagon(_) => TileTag::Hexagon,
        }
    }

    fn tag(&self) -> (t: TileTag) {
        match self {
            BaseGAct::Square(_) => TileTag::Square,
            BaseGAct::Hexagon(_) => TileTag::Hexagon,
        }
    }
}

impl WrapBase for Rotation<4> {
    type Base = BaseGAct;

    open spec fn variant() -> TileTag {
        TileTag::Square
    }

    open spec fn wrap_spec(self) -> BaseGAct {
        BaseGAct::Square(self)
    }

    open spec fn unwrap_spec(base: &BaseGAct) -> Option<Self> {
        match base {
            BaseGAct::Square(a) => Some(*a),
            _ => None,
        }
    }

    fn wrap_base(self) -> (b: BaseGAct) {
        BaseGAct::Square(self)
    }

    fn unwrap_base(base: BaseGAct) -> (r: Option<Self>) {
        match base {
            BaseGAct::Square(a) => Some(a),
            _ => None,
        }
    }

    fn unwrap_base_ref(base: &BaseGAct) -> (r: Option<&Self>) {
        match base {
            BaseGAct::Square(a) => Some(a),
            _ => None,
        }
    }

    proof fn lemma_round_trip(v: Self) {
    }

    proof fn lemma_unwrap(base: BaseGAct) {
    }
}

impl WrapBase for Rotation<6> {
    type Base = BaseGAct;

    open spec fn variant() -> TileTag {
        TileTag::Hexagon
    }

    open spec fn wrap_spec(self) -> BaseGAct {
        BaseGAct::Hexagon(self)
    }

    open spec fn unwrap_spec(base: &BaseGAct) -> Option<Self> {
        match base {
            BaseGAct::Hexagon(a) => Some(*a),
            _ => None,
        }
    }

    fn wrap_base(self) -> (b: BaseGAct) {
        BaseGAct::Hexagon(self)
    }

    fn unwrap_base(base: BaseGAct) -> (r: Option<Self>) {
        match base {
            BaseGAct::Hexagon(a) => Some(a),
            _ => None,
        }
    }

    fn unwrap_base_ref(base: &BaseGAct) -> (r: Option<&Self>) {
        match base {
            BaseGAct::Hexagon(a) => Some(a),
            _ => None,
        }
    }

    proof fn lemma_round_trip(v: Self) {
    }

    proof fn lemma_unwrap(base: BaseGAct) {
    }
}

impl BaseGAct {
    /// Validity: the action inside is valid.
    pub open spec fn wf(&self) -> bool {
        match self {
            BaseGAct::Square(a) => a.wf(),
            BaseGAct::Hexagon(a) => a.wf(),
        }
    }

    /// The composition of two actions of one variant.
    pub open spec fn compose_spec(&self, other: &BaseGAct) -> Option<BaseGAct> {
        match (self, other) {
            (BaseGAct::Square(a), BaseGAct::Square(b)) => Some(BaseGAct::Square(a.compose_spec(b))),
            (BaseGAct::Hexagon(a), BaseGAct::Hexagon(b)) => Some(
                BaseGAct::Hexagon(a.compose_spec(b)),
            ),
            _ => None,
        }
    }

    /// The neutral action of the variant of `self`.
    pub fn identity_like(&self) -> (r: BaseGAct)
        ensures
            r.wf(),
            r.tag_spec() == self.tag_spec(),
            r == (match self {
                BaseGAct::Square(_) => BaseGAct::Square(Rotation::<4>::identity_spec()),
                BaseGAct::Hexagon(_) => BaseGAct::Hexagon(Rotation::<6>::identity_spec()),
            }),
    {
        match self {
            BaseGAct::Square(_) => BaseGAct::Square(Rotation::<4>::identity()),
            BaseGAct::Hexagon(_) => BaseGAct::Hexagon(Rotation::<6>::identity()),
        }
    }

    /// The action that undoes this one.
    pub fn inverse(&self) -> (r: BaseGAct)
        ensures
            r.wf(),
            r.tag_spec() == self.tag_spec(),
            r == (match self {
                BaseGAct::Square(a) => BaseGAct::Square(a.inverse_spec()),
                BaseGAct::Hexagon(a) => BaseGAct::Hexagon(a.inverse_spec()),
            }),
    {
        match self {
            BaseGAct::Square(a) => BaseGAct::Square(a.inverse()),
            BaseGAct::Hexagon(a) => BaseGAct::Hexagon(a.inverse()),
        }
    }

    /// The action that performs `self` and then `other`, if both are of one
    /// variant.
    pub fn compose(&self, other: &BaseGAct) -> (r: Result<BaseGAct, ErrorKind>)
        ensures
            self.tag_spec() == other.tag_spec() ==> r == Ok::<BaseGAct, ErrorKind>(
                self.compose_spec(other).unwrap(),
            ) && r.unwrap().wf() && r.unwrap().tag_spec() == self.tag_spec(),
            self.tag_spec() != other.tag_spec() ==> r == Err::<BaseGAct, ErrorKind>(
                ErrorKind::VariantMismatch,
            ),
    {
        match (self, other) {
            (BaseGAct::Square(a), BaseGAct::Square(b)) => Ok(BaseGAct::Square(a.compose(b))),
            (BaseGAct::Hexagon(a), BaseGAct::Hexagon(b)) => Ok(BaseGAct::Hexagon(a.compose(b))),
            _ => Err(ErrorKind::VariantMismatch),
        }
    }
}

/// A tile of any registered variant.
#[derive(Clone, Debug, PartialEq, Eq, Hash)]
pub enum BaseTile {
    Square(RegularTile<4>),
    Hexagon(RegularTile<6>),
}

impl Erased for BaseTile {
    type Tag = TileTag;

    open spec fn tag_spec(&self) -> TileTag {
        match self {
            BaseTile::Square(_) => TileTag::Square,
            BaseTile::Hexagon(_) => TileTag::Hexagon,
        }
    }

    fn tag(&self) -> (t: TileTag) {
        match self {
            BaseTile::Square(_) => TileTag::Square,
            BaseTile::Hexagon(_) => TileTag::Hexagon,
        }
    }
}

impl WrapBase for RegularTile<4> {
    type Base = BaseTile;

    open spec fn variant() -> TileTag {
        TileTag::Square
    }

    open spec fn wrap_spec(self) -> BaseTile {
        BaseTile::Square(self)
    }

    open spec fn unwrap_spec(base: &BaseTile) -> Option<Self> {
        match base {
            BaseTile::Square(t) => Some(*t),
            _ => None,
        }
    }

    fn wrap_base(self) -> (b: BaseTile) {
        BaseTile::Square(self)
    }

    fn unwrap_base(base: BaseTile) -> (r: Option<Self>) {
        match base {
            BaseTile::Square(t) => Some(t),
            _ => None,
        }
    }

    fn unwrap_base_ref(base: &BaseTile) -> (r: Option<&Self>) {
        match base {
            BaseTile::Square(t) => Some(t),
            _ => None,
        }
    }

    proof fn lemma_round_trip(v: Self) {
    }

    proof fn lemma_unwrap(base: BaseTile) {
    }
}

impl WrapBase for RegularTile<6> {
    type Base = BaseTile;

    open spec fn variant() -> TileTag {
        TileTag::Hexagon
    }

    open spec fn wrap_spec(self) -> BaseTile {
        BaseTile::Hexagon(self)
    }

    open spec fn unwrap_spec(base: &BaseTile) -> Option<Self> {
        match base {
            BaseTile::Hexagon(t) => Some(*t),
            _ => None,
        }
    }

    fn wrap_base(self) -> (b: BaseTile) {
        BaseTile::Hexagon(self)
    }

    fn unwrap_base(base: BaseTile) -> (r: Option<Self>) {
        match base {
            BaseTile::Hexagon(t) => Some(t),
            _ => None,
        }
    }

    fn unwrap_base_ref(base: &BaseTile) -> (r: Option<&Self>) {
        match base {
            BaseTile::Hexagon(t) => Some(t),
            _ => None,
        }
    }

    proof fn lemma_round_trip(v: Self) {
    }

    proof fn lemma_unwrap(base: BaseTile) {
    }
}

impl BaseTile {
    /// What the tile inside is.
    pub open spec fn model(&self) -> TileModel {
        match self {
            BaseTile::Square(t) => t.model(),
            BaseTile::Hexagon(t) => t.model(),
        }
    }

    /// What an action makes of the tile, if both are of one variant.
    pub open spec fn act_spec(&self, act: &BaseGAct) -> Option<TileModel> {
        match (self, act) {
            (BaseTile::Square(t), BaseGAct::Square(a)) => Some(
                RegularTile::<4>::act_spec(t.model(), a),
            ),
            (BaseTile::Hexagon(t), BaseGAct::Hexagon(a)) => Some(
                RegularTile::<6>::act_spec(t.model(), a),
            ),
            _ => None,
        }
    }

    /// The kind of the tile.
    pub fn kind(&self) -> (k: BaseKind)
        ensures
            k.key() == self.model().kind,
            self.model().wf(),
    {
        match self {
            BaseTile::Square(t) => BaseKind::Regular(t.kind()),
            BaseTile::Hexagon(t) => BaseKind::Regular(t.kind()),
        }
    }

    /// Number of ports of the tile.
    pub fn num_ports(&self) -> (n: u32)
        ensures
            n == self.model().num_ports(),
    {
        match self {
            BaseTile::Square(t) => t.num_ports(),
            BaseTile::Hexagon(t) => t.num_ports(),
        }
    }

    /// Number of ports on each edge of the tile.
    pub fn ports_per_edge(&self) -> (n: u32)
        ensures
            n == self.model().ports_per_edge,
    {
        match self {
            BaseTile::Square(t) => t.ports_per_edge(),
            BaseTile::Hexagon(t) => t.ports_per_edge(),
        }
    }

    /// Whether the tile shows its connections.
    pub fn visible(&self) -> (v: bool)
        ensures
            v == self.model().visible,
    {
        match self {
            BaseTile::Square(t) => t.visible(),
            BaseTile::Hexagon(t) => t.visible(),
        }
    }

    /// The port that `port` is connected to.
    pub fn output(&self, port: u32) -> (o: u32)
        requires
            self.model().visible,
            port < self.model().num_ports(),
        ensures
            o == self.model().connections[port as int],
            self.model().wf(),
    {
        match self {
            BaseTile::Square(t) => t.output(port),
            BaseTile::Hexagon(t) => t.output(port),
        }
    }

    /// The tile transformed by `act`, if both are of one variant.
    pub fn apply_action(&self, act: &BaseGAct) -> (r: Result<BaseTile, ErrorKind>)
        ensures
            self.tag_spec() == act.tag_spec() ==> r.is_ok() && r.unwrap().tag_spec()
                == self.tag_spec() && Some(r.unwrap().model()) == self.act_spec(act),
            self.tag_spec() != act.tag_spec() ==> r == Err::<BaseTile, ErrorKind>(
                ErrorKind::VariantMismatch,
            ),
    {
        match (self, act) {
            (BaseTile::Square(t), BaseGAct::Square(a)) => Ok(BaseTile::Square(t.apply_action(a))),
            (BaseTile::Hexagon(t), BaseGAct::Hexagon(a)) => Ok(
                BaseTile::Hexagon(t.apply_action(a)),
            ),
            _ => Err(ErrorKind::VariantMismatch),
        }
    }

    /// The rotation of a tile of this variant by `num_times` edges.
    pub open spec fn rotation_spec(&self, num_times: int) -> BaseGAct {
        match self {
            BaseTile::Square(_) => BaseGAct::Square(Rotation::<4>::of_steps((num_times % 4) as nat)),
            BaseTile::Hexagon(_) => BaseGAct::Hexagon(
                Rotation::<6>::of_steps((num_times % 6) as nat),
            ),
        }
    }

    /// The rotation of this tile by `num_times` edges.
    pub fn rotation_action(&self, num_times: i32) -> (r: BaseGAct)
        ensures
            r.wf(),
            r.tag_spec() == self.tag_spec(),
            r == self.rotation_spec(num_times as int),
    {
        match self {
            BaseTile::Square(t) => {
                let a = t.rotation_action(num_times);
                proof {
                    a.lemma_of_steps();
                }
                BaseGAct::Square(a)
            },
            BaseTile::Hexagon(t) => {
                let a = t.rotation_action(num_times);
                proof {
                    a.lemma_of_steps();
                }
                BaseGAct::Hexagon(a)
            },
        }
    }

    /// A second tile like this one.
    pub fn duplicate(&self) -> (r: BaseTile)
        ensures
            r.tag_spec() == self.tag_spec(),
            r.model() == self.model(),
    {
        match self {
            BaseTile::Square(t) => BaseTile::Square(t.duplicate()),
            BaseTile::Hexagon(t) => BaseTile::Hexagon(t.duplicate()),
        }
    }

    /// This tile with its connections taken away.
    pub fn conceal(&self) -> (r: BaseTile)
        ensures
            r.tag_spec() == self.tag_spec(),
            r.model() == self.model().face_down(),
    {
        match self {
            BaseTile::Square(t) => BaseTile::Square(t.conceal()),
            BaseTile::Hexagon(t) => BaseTile::Hexagon(t.conceal()),
        }
    }
}

/// Group action performed by a button press.
#[derive(Clone, Copy, Debug, PartialEq, Eq, Structural, Hash)]
pub enum ButtonAction {
    /// Turn the selected tile by `num_times` edges.
    Rotation { num_times: i32 },
}

impl ButtonAction {
    /// Generate the corresponding group action.
    pub fn group_action(&self, tile: &BaseTile) -> (r: BaseGAct)
        ensures
            r.wf(),
            r.tag_spec() == tile.tag_spec(),
            r == (match self {
                ButtonAction::Rotation { num_times } => tile.rotation_spec(*num_times as int),
            }),
    {
        match self {
            ButtonAction::Rotation { num_times } => tile.rotation_action(*num_times),
        }
    }
}

} // verus!
