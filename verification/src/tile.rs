//! Tiles, their kinds and the symmetry actions that transform them.
use crate::cyclic::{add_mod, add_mod_u32, lemma_add_mod, lemma_add_mod_twice, wide_mul};
use crate::pairing::{
    as_nats, check_pairing, count_matchings, is_pairing, lemma_matching_count_odd,
    lemma_nth_matching, lemma_nth_matching_complete, lemma_nth_matching_distinct,
    lemma_rotate_pairing, lemma_rotate_pairing_twice,
    lemma_rotate_pairing_zero, matching_count, nth_matching, nth_matching_ports, rotate_pairing,
    rotate_ports,
};
use vstd::prelude::*;

verus! {

/// A tile category: the key under which hands and allotments are grouped.
pub trait Kind: Sized + Copy {
    /// The integer that identifies this kind.
    spec fn key(&self) -> u32;

    /// The integer that identifies this kind.
    fn kind_key(&self) -> (k: u32)
        ensures
            k == self.key(),
    ;

    /// Two kinds with the same key are the same kind.
    proof fn lemma_key_injective(a: Self, b: Self)
        requires
            a.key() == b.key(),
        ensures
            a == b,
    ;
}

/// A symmetry transform of a tile: an element of a group.
pub trait GAct: Sized {
    /// Validity of a value of this type.
    spec fn wf(&self) -> bool;

    /// The neutral action.
    spec fn identity_spec() -> Self;

    /// The action that performs `self` and then `other`.
    spec fn compose_spec(&self, other: &Self) -> Self;

    /// The neutral action.
    fn identity() -> (r: Self)
        ensures
            r == Self::identity_spec(),
            r.wf(),
    ;

    /// The action that performs `self` and then `other`.
    fn compose(&self, other: &Self) -> (r: Self)
        ensures
            self.wf(),
            other.wf(),
            r == self.compose_spec(other),
            r.wf(),
    ;

    /// The identity is neutral on both sides.
    proof fn lemma_identity_neutral(a: Self)
        requires
            a.wf(),
        ensures
            Self::identity_spec().wf(),
            Self::identity_spec().compose_spec(&a) == a,
            a.compose_spec(&Self::identity_spec()) == a,
    ;

    /// Composition stays within the valid actions and is associative.
    proof fn lemma_compose_associative(a: Self, b: Self, c: Self)
        requires
            a.wf(),
            b.wf(),
            c.wf(),
        ensures
            a.compose_spec(&b).wf(),
            a.compose_spec(&b).compose_spec(&c) == a.compose_spec(&b.compose_spec(&c)),
    ;
}

/// What a tile is: its kind, its shape, and how its ports are paired.
pub struct TileModel {
    /// Key of the tile's kind.
    pub kind: u32,
    /// Number of edges of the polygon.
    pub edges: nat,
    /// Number of ports on each edge.
    pub ports_per_edge: nat,
    /// Whether the pairing is shown; a hidden tile carries none.
    pub visible: bool,
    /// For each port, the port it is connected to.
    pub connections: Seq<nat>,
}

impl TileModel {
    /// Number of ports of the tile.
    pub open spec fn num_ports(self) -> nat {
        self.edges * self.ports_per_edge
    }

    /// A visible tile pairs all its ports; a hidden one shows none.
    pub open spec fn wf(self) -> bool {
        if self.visible {
            self.connections.len() == self.num_ports() && is_pairing(self.connections)
        } else {
            self.connections.len() == 0
        }
    }

    /// The tile turned forward by `steps` edges.
    pub open spec fn rotate(self, steps: nat) -> TileModel {
        TileModel {
            connections: rotate_pairing(self.connections, steps * self.ports_per_edge),
            ..self
        }
    }

    /// The tile with its pairing taken away.
    pub open spec fn face_down(self) -> TileModel {
        TileModel { visible: false, connections: Seq::empty(), ..self }
    }
}

/// A placeable piece whose ports are connected in pairs.
pub trait Tile: Sized {
    /// The kinds of the tiles of this family.
    type Kind: Kind;

    /// The actions that transform the tiles of this family.
    type GAct: GAct;

    /// Parameters that a board hands to its tile family.
    type TileConfig;

    /// What this tile is.
    spec fn model(&self) -> TileModel;

    /// Whether a model describes a tile of this family.
    spec fn fits(m: TileModel) -> bool;

    /// What an action makes of a tile.
    spec fn act_spec(m: TileModel, act: &Self::GAct) -> TileModel;

    /// Whether the tiles of a configuration can be listed on this machine.
    spec fn config_ok(config: &Self::TileConfig) -> bool;

    /// The tiles of a configuration, in the order in which `all` lists them.
    spec fn all_spec(config: &Self::TileConfig) -> Seq<TileModel>;

    /// The kind of the tile.
    fn kind(&self) -> (k: Self::Kind)
        ensures
            k.key() == self.model().kind,
            Self::fits(self.model()),
    ;

    /// Number of ports of the tile.
    fn num_ports(&self) -> (n: u32)
        ensures
            n == self.model().num_ports(),
            Self::fits(self.model()),
    ;

    /// Number of ports on each edge of the tile.
    fn ports_per_edge(&self) -> (n: u32)
        ensures
            n == self.model().ports_per_edge,
    ;

    /// Whether the tile shows its connections.
    fn visible(&self) -> (v: bool)
        ensures
            v == self.model().visible,
            Self::fits(self.model()),
    ;

    /// The port that `port` is connected to.
    fn output(&self, port: u32) -> (o: u32)
        requires
            self.model().visible,
            port < self.model().num_ports(),
        ensures
            o == self.model().connections[port as int],
            Self::fits(self.model()),
    ;

    /// The tile transformed by `act`.
    fn apply_action(&self, act: &Self::GAct) -> (r: Self)
        ensures
            act.wf(),
            Self::fits(self.model()),
            r.model() == Self::act_spec(self.model(), act),
    ;

    /// A second tile like this one.
    fn duplicate(&self) -> (r: Self)
        ensures
            r.model() == self.model(),
    ;

    /// This tile with its connections taken away.
    fn conceal(&self) -> (r: Self)
        ensures
            r.model() == self.model().face_down(),
    ;

    /// Whether the tiles of a configuration can be listed on this machine.
    fn supports(config: &Self::TileConfig) -> (ok: bool)
        ensures
            ok == Self::config_ok(config),
    ;

    /// Every tile that the configuration produces.
    fn all(config: &Self::TileConfig) -> (r: Vec<Self>)
        requires
            Self::config_ok(config),
        ensures
            r.len() == Self::all_spec(config).len(),
            forall|i: int| 0 <= i < r.len() ==> (#[trigger] r[i]).model() == Self::all_spec(config)[i],
    ;

    /// A tile of this family has a valid model.
    proof fn lemma_fits_valid(m: TileModel)
        requires
            Self::fits(m),
        ensures
            m.wf(),
    ;

    /// An action keeps a tile in its family, of its kind and as visible as
    /// it was.
    proof fn lemma_act_fits(m: TileModel, act: Self::GAct)
        requires
            Self::fits(m),
            act.wf(),
        ensures
            Self::fits(Self::act_spec(m, &act)),
            Self::act_spec(m, &act).kind == m.kind,
            Self::act_spec(m, &act).visible == m.visible,
    ;

    /// The identity action leaves a tile as it is.
    proof fn lemma_act_identity(m: TileModel)
        requires
            Self::fits(m),
        ensures
            Self::act_spec(m, &Self::GAct::identity_spec()) == m,
    ;

    /// Acting twice is acting once with the composed action.
    proof fn lemma_act_compose(m: TileModel, a: Self::GAct, b: Self::GAct)
        requires
            Self::fits(m),
            a.wf(),
            b.wf(),
        ensures
            Self::act_spec(Self::act_spec(m, &a), &b) == Self::act_spec(m, &a.compose_spec(&b)),
    ;

    /// Every listed tile is visible and belongs to the family.
    proof fn lemma_all_fit(config: &Self::TileConfig, i: int)
        requires
            Self::config_ok(config),
            0 <= i < Self::all_spec(config).len(),
        ensures
            Self::fits(Self::all_spec(config)[i]),
            Self::all_spec(config)[i].visible,
    ;
}

/// The kind of a regular-polygon tile, identified by a number.
#[derive(Clone, Copy, Debug, PartialEq, Eq, Structural, PartialOrd, Ord, Hash)]
pub struct RegularKind(pub u32);

impl Kind for RegularKind {
    open spec fn key(&self) -> u32 {
        self.0
    }

    fn kind_key(&self) -> (k: u32) {
        self.0
    }

    proof fn lemma_key_injective(a: Self, b: Self) {
    }
}

/// A rotation of a regular polygon with `EDGES` edges, counted in edge steps.
#[derive(Clone, Copy, Debug, PartialEq, Eq, PartialOrd, Ord, Hash)]
pub struct Rotation<const EDGES: u32> {
    steps: u32,
}

impl<const EDGES: u32> Rotation<EDGES> {
    #[verifier::type_invariant]
    spec fn inv(self) -> bool {
        self.wf()
    }

    /// Number of edge steps, below `EDGES` for a valid rotation.
    pub closed spec fn steps(self) -> nat {
        self.steps as nat
    }

    /// The rotation of the given number of steps.
    pub closed spec fn of_steps(steps: nat) -> Self {
        Rotation { steps: steps as u32 }
    }

    /// A rotation is known by its steps.
    pub proof fn lemma_of_steps(self)
        ensures
            Self::of_steps(self.steps()) == self,
    {
    }

    /// `of_steps` keeps any count that fits.
    pub proof fn lemma_steps_of(steps: nat)
        requires
            steps <= u32::MAX,
        ensures
            Self::of_steps(steps).steps() == steps,
    {
    }

    /// The rotation that turns a tile `num_times` edges forward (backward
    /// when negative), reduced to the range below `EDGES`.
    pub fn new(num_times: i32) -> (r: Self)
        ensures
            r.wf(),
            EDGES > 0 ==> r.steps() == num_times as int % (EDGES as int),
            EDGES == 0 ==> r.steps() == 0,
    {
        if EDGES == 0 {
            Rotation { steps: 0 }
        } else if num_times >= 0 {
            Rotation { steps: (num_times as u32) % EDGES }
        } else {
            let back: u32 = ((0 - (num_times as i64)) as u32) % EDGES;
            proof {
                lemma_mod_of_negative(0 - (num_times as int), EDGES as int);
            }
            if back == 0 {
                Rotation { steps: 0 }
            } else {
                Rotation { steps: EDGES - back }
            }
        }
    }

    /// The rotation that turns back what this one turns.
    pub open spec fn inverse_spec(self) -> Self {
        if EDGES == 0 || self.steps() == 0 {
            Self::of_steps(0)
        } else {
            Self::of_steps((EDGES - self.steps()) as nat)
        }
    }

    /// The rotation that turns back what this one turns.
    pub fn inverse(&self) -> (r: Self)
        ensures
            r.wf(),
            r == self.inverse_spec(),
    {
        proof {
            use_type_invariant(self);
        }
        if EDGES == 0 || self.steps == 0 {
            Rotation { steps: 0 }
        } else {
            Rotation { steps: EDGES - self.steps }
        }
    }

    /// A rotation and its inverse make the identity, in either order.
    pub proof fn lemma_inverse(self)
        requires
            self.wf(),
        ensures
            self.inverse_spec().wf(),
            self.compose_spec(&self.inverse_spec()) == Self::identity_spec(),
            self.inverse_spec().compose_spec(&self) == Self::identity_spec(),
    {
        if EDGES > 0 {
            let n = EDGES as nat;
            let back = self.inverse_spec().steps();
            lemma_add_mod(self.steps(), back, n);
            lemma_add_mod(back, self.steps(), n);
        }
    }

    /// Number of edge steps of this rotation.
    pub fn num_steps(&self) -> (s: u32)
        ensures
            s == self.steps(),
            self.wf(),
    {
        proof {
            use_type_invariant(self);
        }
        self.steps
    }

    /// Whether two rotations are the same.
    pub fn same(&self, other: &Self) -> (r: bool)
        ensures
            r == (*self == *other),
    {
        self.steps == other.steps
    }
}

/// The remainder of `-y` is the complement of the remainder of `y`.
pub proof fn lemma_mod_of_negative(y: int, n: int)
    requires
        y >= 0,
        n > 0,
    ensures
        (-y) % n == (if y % n == 0 {
            0
        } else {
            n - y % n
        }),
{
    vstd::arithmetic::div_mod::lemma_fundamental_div_mod(y, n);
    vstd::arithmetic::div_mod::lemma_mod_pos_bound(y, n);
    let r = y % n;
    let q = y / n;
    if r == 0 {
        assert(-y == (-q) * n + 0) by (nonlinear_arith)
            requires
                y == n * q + r,
                r == 0,
        ;
        vstd::arithmetic::div_mod::lemma_fundamental_div_mod_converse(-y, n, -q, 0);
    } else {
        assert(-y == (-q - 1) * n + (n - r)) by (nonlinear_arith)
            requires
                y == n * q + r,
        ;
        vstd::arithmetic::div_mod::lemma_fundamental_div_mod_converse(-y, n, -q - 1, n - r);
    }
}

impl<const EDGES: u32> GAct for Rotation<EDGES> {
    open spec fn wf(&self) -> bool {
        if EDGES == 0 {
            self.steps() == 0
        } else {
            self.steps() < EDGES
        }
    }

    open spec fn identity_spec() -> Self {
        Self::of_steps(0)
    }

    open spec fn compose_spec(&self, other: &Self) -> Self {
        if EDGES == 0 {
            Self::of_steps(0)
        } else {
            Self::of_steps(add_mod(self.steps(), other.steps(), EDGES as nat))
        }
    }

    fn identity() -> (r: Self) {
        Rotation { steps: 0 }
    }

    fn compose(&self, other: &Self) -> (r: Self) {
        proof {
            use_type_invariant(self);
            use_type_invariant(other);
        }
        if EDGES == 0 {
            Rotation { steps: 0 }
        } else {
            Rotation { steps: add_mod_u32(self.steps, other.steps, EDGES) }
        }
    }

    proof fn lemma_identity_neutral(a: Self) {
        if EDGES > 0 {
            lemma_add_mod(0, a.steps(), EDGES as nat);
            lemma_add_mod(a.steps(), 0, EDGES as nat);
        }
    }

    proof fn lemma_compose_associative(a: Self, b: Self, c: Self) {
        if EDGES > 0 {
            let n = EDGES as nat;
            lemma_add_mod(a.steps(), b.steps(), n);
            lemma_add_mod(b.steps(), c.steps(), n);
            lemma_add_mod_twice(a.steps(), b.steps(), c.steps(), n);
        }
    }
}

/// What a board tells the regular tile family.
#[derive(Clone, Copy, Debug, PartialEq, Eq, Structural, Hash)]
pub struct RegularTileConfig {
    /// Number of ports on each edge of a tile.
    pub ports_per_edge: u32,
    /// Number of kinds; the kinds are numbered from zero.
    pub num_kinds: u32,
}

/// A tile in the shape of a regular polygon with `EDGES` edges.
#[derive(Debug, PartialEq, Eq, Hash)]
pub struct RegularTile<const EDGES: u32> {
    kind: RegularKind,
    ports_per_edge: u32,
    visible: bool,
    connections: Vec<u32>,
}

impl<const EDGES: u32> RegularTile<EDGES> {
    #[verifier::type_invariant]
    spec fn inv(self) -> bool {
        Self::fits(self.model())
    }

    /// The model of the visible tile of the given kind and pairing.
    pub open spec fn model_of(kind: u32, ports_per_edge: nat, connections: Seq<nat>) -> TileModel {
        TileModel { kind, edges: EDGES as nat, ports_per_edge, visible: true, connections }
    }

    /// Number of tiles of each kind under a configuration.
    pub open spec fn per_kind(config: &RegularTileConfig) -> nat {
        matching_count((EDGES as nat) * (config.ports_per_edge as nat))
    }

    /// A visible tile with the given pairing, if that pairs every port with
    /// exactly one other port.
    pub fn new(kind: RegularKind, ports_per_edge: u32, connections: Vec<u32>) -> (r: Option<Self>)
        ensures
            r.is_some() <==> Self::fits(Self::model_of(kind.0, ports_per_edge as nat, as_nats(connections@))),
            r.is_some() ==> r.unwrap().model() == Self::model_of(
                kind.0,
                ports_per_edge as nat,
                as_nats(connections@),
            ),
    {
        let wide: u64 = wide_mul(EDGES, ports_per_edge);
        if wide > u32::MAX as u64 || connections.len() as u64 != wide {
            return None;
        }
        if !check_pairing(&connections) {
            return None;
        }
        Some(RegularTile { kind, ports_per_edge, visible: true, connections })
    }

    /// A tile of the given kind and shape that shows no connections, if
    /// its ports can be numbered.
    pub fn hidden(kind: RegularKind, ports_per_edge: u32) -> (r: Option<Self>)
        ensures
            r.is_some() <==> (EDGES as nat) * (ports_per_edge as nat) <= u32::MAX,
            r.is_some() ==> r.unwrap().model() == Self::model_of(
                kind.0,
                ports_per_edge as nat,
                Seq::empty(),
            ).face_down(),
    {
        let wide: u64 = wide_mul(EDGES, ports_per_edge);
        if wide > u32::MAX as u64 {
            return None;
        }
        let tile = RegularTile { kind, ports_per_edge, visible: false, connections: Vec::new() };
        assert(tile.model().connections =~= Seq::<nat>::empty());
        Some(tile)
    }

    /// For each port the port that it is connected to; empty for a hidden
    /// tile.
    pub fn connections(&self) -> (r: &Vec<u32>)
        ensures
            as_nats(r@) == self.model().connections,
    {
        &self.connections
    }

    /// Where in the list a tile stands: its kind and the code of its
    /// pairing.
    pub proof fn lemma_all_position(config: &RegularTileConfig, i: int)
        requires
            0 <= i < Self::all_spec(config).len(),
        ensures
            Self::per_kind(config) > 0,
            0 <= i / (Self::per_kind(config) as int) < config.num_kinds,
            0 <= i % (Self::per_kind(config) as int) < Self::per_kind(config),
            i == (Self::per_kind(config) as int) * (i / (Self::per_kind(config) as int)) + i % (
            Self::per_kind(config) as int),
    {
        let per = Self::per_kind(config) as int;
        let kinds = config.num_kinds as int;
        assert(per > 0) by (nonlinear_arith)
            requires
                0 <= i < per * kinds,
                per >= 0,
                kinds >= 0,
        ;
        vstd::arithmetic::div_mod::lemma_fundamental_div_mod(i, per);
        vstd::arithmetic::div_mod::lemma_mod_pos_bound(i, per);
        vstd::arithmetic::div_mod::lemma_div_pos_is_pos(i, per);
        let q = i / per;
        assert(q < kinds) by (nonlinear_arith)
            requires
                i == per * q + i % per,
                0 <= i % per,
                i < per * kinds,
                per > 0,
        ;
    }

    /// No tile is listed twice.
    pub proof fn lemma_all_distinct(config: &RegularTileConfig, i: int, j: int)
        requires
            0 <= i < Self::all_spec(config).len(),
            0 <= j < Self::all_spec(config).len(),
            Self::all_spec(config)[i] == Self::all_spec(config)[j],
        ensures
            i == j,
    {
        let per = Self::per_kind(config) as int;
        Self::lemma_all_position(config, i);
        Self::lemma_all_position(config, j);
        lemma_nth_matching_distinct(
            (EDGES as nat) * (config.ports_per_edge as nat),
            (i % per) as nat,
            (j % per) as nat,
        );
    }

    /// Every pairing of the ports is listed under each kind.
    pub proof fn lemma_all_complete(config: &RegularTileConfig, kind: u32, pairing: Seq<nat>) -> (i:
        int)
        requires
            kind < config.num_kinds,
            is_pairing(pairing),
            pairing.len() == (EDGES as nat) * (config.ports_per_edge as nat),
        ensures
            0 <= i < Self::all_spec(config).len(),
            Self::all_spec(config)[i] == Self::model_of(
                kind,
                config.ports_per_edge as nat,
                pairing,
            ),
    {
        let per = Self::per_kind(config);
        let code = lemma_nth_matching_complete(pairing);
        lemma_slot(per, kind as nat, code, config.num_kinds as nat);
        (per * (kind as nat) + code) as int
    }

    /// The rotation of this tile by `num_times` edges.
    pub fn rotation_action(&self, num_times: i32) -> (r: Rotation<EDGES>)
        ensures
            r.wf(),
            EDGES > 0 ==> r.steps() == num_times as int % (EDGES as int),
            EDGES == 0 ==> r.steps() == 0,
    {
        Rotation::new(num_times)
    }
}

impl<const EDGES: u32> Clone for RegularTile<EDGES> {
    fn clone(&self) -> (r: Self)
        ensures
            r.model() == self.model(),
    {
        self.duplicate()
    }
}

impl<const EDGES: u32> Tile for RegularTile<EDGES> {
    type Kind = RegularKind;

    type GAct = Rotation<EDGES>;

    type TileConfig = RegularTileConfig;

    closed spec fn model(&self) -> TileModel {
        TileModel {
            kind: self.kind.0,
            edges: EDGES as nat,
            ports_per_edge: self.ports_per_edge as nat,
            visible: self.visible,
            connections: as_nats(self.connections@),
        }
    }

    open spec fn fits(m: TileModel) -> bool {
        m.wf() && m.edges == EDGES && m.edges * m.ports_per_edge <= u32::MAX
    }

    open spec fn act_spec(m: TileModel, act: &Self::GAct) -> TileModel {
        m.rotate(act.steps())
    }

    open spec fn config_ok(config: &RegularTileConfig) -> bool {
        &&& (EDGES as nat) * (config.ports_per_edge as nat) <= u32::MAX
        &&& Self::per_kind(config) * (config.num_kinds as nat) <= u32::MAX
    }

    open spec fn all_spec(config: &RegularTileConfig) -> Seq<TileModel> {
        Seq::new(
            Self::per_kind(config) * (config.num_kinds as nat),
            |i: int|
                Self::model_of(
                    (i / Self::per_kind(config) as int) as u32,
                    config.ports_per_edge as nat,
                    nth_matching(
                        (EDGES as nat) * (config.ports_per_edge as nat),
                        (i % Self::per_kind(config) as int) as nat,
                    ),
                ),
        )
    }

    fn kind(&self) -> (k: RegularKind) {
        proof {
            use_type_invariant(self);
        }
        self.kind
    }

    fn num_ports(&self) -> (n: u32) {
        proof {
            use_type_invariant(self);
            assert((EDGES as nat) * (self.ports_per_edge as nat) == (EDGES as int) * (
            self.ports_per_edge as int));
        }
        EDGES * self.ports_per_edge
    }

    fn ports_per_edge(&self) -> (n: u32) {
        self.ports_per_edge
    }

    fn visible(&self) -> (v: bool) {
        proof {
            use_type_invariant(self);
        }
        self.visible
    }

    fn output(&self, port: u32) -> (o: u32) {
        proof {
            use_type_invariant(self);
        }
        self.connections[port as usize]
    }

    fn apply_action(&self, act: &Rotation<EDGES>) -> (r: Self) {
        proof {
            use_type_invariant(self);
            use_type_invariant(act);
        }
        let steps: u32 = act.num_steps();
        if !self.visible {
            let r = RegularTile {
                kind: self.kind,
                ports_per_edge: self.ports_per_edge,
                visible: false,
                connections: Vec::new(),
            };
            assert(r.model().connections =~= self.model().rotate(steps as nat).connections);
            r
        } else {
            proof {
                lemma_steps_below(steps as nat, EDGES as nat, self.ports_per_edge as nat);
                lemma_rotate_pairing(
                    as_nats(self.connections@),
                    (steps as nat) * (self.ports_per_edge as nat),
                );
            }
            let shift: u32 = steps * self.ports_per_edge;
            let connections = rotate_ports(&self.connections, shift);
            RegularTile {
                kind: self.kind,
                ports_per_edge: self.ports_per_edge,
                visible: true,
                connections,
            }
        }
    }

    fn duplicate(&self) -> (r: Self) {
        proof {
            use_type_invariant(self);
        }
        let connections = self.connections.clone();
        assert(as_nats(connections@) =~= as_nats(self.connections@));
        RegularTile {
            kind: self.kind,
            ports_per_edge: self.ports_per_edge,
            visible: self.visible,
            connections,
        }
    }

    fn conceal(&self) -> (r: Self) {
        proof {
            use_type_invariant(self);
        }
        let r = RegularTile {
            kind: self.kind,
            ports_per_edge: self.ports_per_edge,
            visible: false,
            connections: Vec::new(),
        };
        assert(r.model().connections =~= Seq::<nat>::empty());
        r
    }

    fn supports(config: &RegularTileConfig) -> (ok: bool) {
        let ports: u64 = wide_mul(EDGES, config.ports_per_edge);
        if ports > u32::MAX as u64 {
            return false;
        }
        if config.num_kinds == 0 {
            assert(Self::per_kind(config) * 0 == 0);
            return true;
        }
        match count_matchings(ports as u32) {
            None => {
                assert(Self::per_kind(config) * (config.num_kinds as nat) > u32::MAX)
                    by (nonlinear_arith)
                    requires
                        Self::per_kind(config) > u32::MAX,
                        config.num_kinds >= 1,
                ;
                false
            },
            Some(count) => {
                let total: u64 = wide_mul(count, config.num_kinds);
                total <= u32::MAX as u64
            },
        }
    }

    fn all(config: &RegularTileConfig) -> (r: Vec<Self>) {
        let mut tiles: Vec<Self> = Vec::new();
        if config.num_kinds == 0 {
            assert(Self::per_kind(config) * 0 == 0);
            return tiles;
        }
        let ports: u32 = EDGES * config.ports_per_edge;
        let ghost per = Self::per_kind(config);
        assert(per <= u32::MAX) by (nonlinear_arith)
            requires
                per * (config.num_kinds as nat) <= u32::MAX,
                config.num_kinds >= 1,
        ;
        let count: u32 = count_matchings(ports).unwrap();
        let mut k: u32 = 0;
        while k < config.num_kinds
            invariant
                Self::config_ok(config),
                per == Self::per_kind(config),
                count == per,
                ports == (EDGES as nat) * (config.ports_per_edge as nat),
                k <= config.num_kinds,
                tiles.len() == per * (k as nat),
                forall|i: int|
                    0 <= i < tiles.len() ==> (#[trigger] tiles[i]).model() == Self::all_spec(
                        config,
                    )[i],
            decreases config.num_kinds - k,
        {
            let mut code: u32 = 0;
            while code < count
                invariant
                    Self::config_ok(config),
                    per == Self::per_kind(config),
                    count == per,
                    ports == (EDGES as nat) * (config.ports_per_edge as nat),
                    k < config.num_kinds,
                    code <= count,
                    tiles.len() == per * (k as nat) + code,
                    forall|i: int|
                        0 <= i < tiles.len() ==> (#[trigger] tiles[i]).model() == Self::all_spec(
                            config,
                        )[i],
                decreases count - code,
            {
                let connections = nth_matching_ports(ports, code);
                proof {
                    if ports % 2 == 1 {
                        lemma_matching_count_odd(ports as nat);
                    }
                    lemma_nth_matching(ports as nat, code as nat);
                    lemma_slot(per, k as nat, code as nat, config.num_kinds as nat);
                }
                tiles.push(
                    RegularTile {
                        kind: RegularKind(k),
                        ports_per_edge: config.ports_per_edge,
                        visible: true,
                        connections,
                    },
                );
                code += 1;
            }
            assert(per * (k as nat) + per == per * ((k + 1) as nat)) by (nonlinear_arith);
            k += 1;
        }
        tiles
    }

    proof fn lemma_fits_valid(m: TileModel) {
    }

    proof fn lemma_act_fits(m: TileModel, act: Self::GAct) {
        if m.visible {
            lemma_steps_below(act.steps(), m.edges, m.ports_per_edge);
            lemma_rotate_pairing(m.connections, act.steps() * m.ports_per_edge);
        }
    }

    proof fn lemma_act_identity(m: TileModel) {
        Rotation::<EDGES>::lemma_steps_of(0);
        assert(0 * m.ports_per_edge == 0);
        if m.visible {
            lemma_rotate_pairing_zero(m.connections);
        } else {
            assert(rotate_pairing(m.connections, 0) =~= m.connections);
        }
    }

    proof fn lemma_act_compose(m: TileModel, a: Self::GAct, b: Self::GAct) {
        let p = m.ports_per_edge;
        let n = m.connections.len();
        if m.visible && n > 0 {
            assert(p > 0) by (nonlinear_arith)
                requires
                    n > 0,
                    n == m.edges * p,
            ;
            lemma_steps_below(a.steps(), m.edges, p);
            lemma_steps_below(b.steps(), m.edges, p);
            lemma_rotate_pairing_twice(m.connections, a.steps() * p, b.steps() * p);
            lemma_add_mod(a.steps(), b.steps(), m.edges);
            Rotation::<EDGES>::lemma_steps_of(add_mod(a.steps(), b.steps(), m.edges));
            lemma_add_mod(a.steps() * p, b.steps() * p, n);
            assert(add_mod(a.steps() * p, b.steps() * p, n) == add_mod(
                a.steps(),
                b.steps(),
                m.edges,
            ) * p) by (nonlinear_arith)
                requires
                    n == m.edges * p,
                    add_mod(a.steps(), b.steps(), m.edges) == (if a.steps() + b.steps() < m.edges {
                        a.steps() + b.steps()
                    } else {
                        (a.steps() + b.steps() - m.edges) as nat
                    }),
                    add_mod(a.steps() * p, b.steps() * p, n) == (if a.steps() * p + b.steps() * p
                        < n {
                        a.steps() * p + b.steps() * p
                    } else {
                        (a.steps() * p + b.steps() * p - n) as nat
                    }),
                    p > 0,
            ;
        } else {
            assert(Self::act_spec(Self::act_spec(m, &a), &b).connections =~= Self::act_spec(
                m,
                &a.compose_spec(&b),
            ).connections);
        }
    }

    proof fn lemma_all_fit(config: &RegularTileConfig, i: int) {
        let n = (EDGES as nat) * (config.ports_per_edge as nat);
        let per = Self::per_kind(config);
        if n % 2 == 1 {
            lemma_matching_count_odd(n);
            assert(0 * (config.num_kinds as nat) == 0);
        }
        lemma_nth_matching(n, (i % per as int) as nat);
    }
}

/// The action that performs `a` `n` times.
pub open spec fn repeated<A: GAct>(a: A, n: nat) -> A
    decreases n,
{
    if n == 0 {
        A::identity_spec()
    } else {
        repeated(a, (n - 1) as nat).compose_spec(&a)
    }
}

/// Performing a rotation `n` times turns by `n` times its steps, counted
/// round the polygon.
pub proof fn lemma_repeated_rotation<const EDGES: u32>(a: Rotation<EDGES>, n: nat)
    requires
        a.wf(),
        EDGES > 0,
    ensures
        repeated(a, n).wf(),
        repeated(a, n).steps() == (n * a.steps()) % (EDGES as nat),
    decreases n,
{
    let e = EDGES as nat;
    if n == 0 {
        Rotation::<EDGES>::lemma_steps_of(0);
        assert(0 * a.steps() == 0);
        vstd::arithmetic::div_mod::lemma_small_mod(0, e);
    } else {
        let before = repeated(a, (n - 1) as nat);
        lemma_repeated_rotation(a, (n - 1) as nat);
        lemma_add_mod(before.steps(), a.steps(), e);
        Rotation::<EDGES>::lemma_steps_of(add_mod(before.steps(), a.steps(), e));
        vstd::arithmetic::div_mod::lemma_small_mod(a.steps(), e);
        vstd::arithmetic::div_mod::lemma_add_mod_noop(
            ((n - 1) * a.steps()) as int,
            a.steps() as int,
            e as int,
        );
        assert((n - 1) * a.steps() + a.steps() == n * a.steps()) by (nonlinear_arith);
    }
}

/// Performing a rotation as many times as the polygon has edges is the
/// identity: four quarter turns of a square bring it back.
pub proof fn lemma_full_turn<const EDGES: u32>(a: Rotation<EDGES>)
    requires
        a.wf(),
        EDGES > 0,
    ensures
        repeated(a, EDGES as nat) == Rotation::<EDGES>::identity_spec(),
{
    let e = EDGES as nat;
    lemma_repeated_rotation(a, e);
    vstd::arithmetic::div_mod::lemma_mod_multiples_basic(a.steps() as int, e as int);
    assert(e * a.steps() == a.steps() * e) by (nonlinear_arith);
    repeated(a, e).lemma_of_steps();
}

/// Turning a tile and then turning it back leaves it as it was.
pub proof fn lemma_turn_back<const EDGES: u32>(m: TileModel, a: Rotation<EDGES>)
    requires
        RegularTile::<EDGES>::fits(m),
        a.wf(),
    ensures
        RegularTile::<EDGES>::act_spec(
            RegularTile::<EDGES>::act_spec(m, &a),
            &a.inverse_spec(),
        ) == m,
{
    a.lemma_inverse();
    RegularTile::<EDGES>::lemma_act_compose(m, a, a.inverse_spec());
    RegularTile::<EDGES>::lemma_act_identity(m);
}

/// Fewer steps than edges move the ports by less than a full turn.
pub proof fn lemma_steps_below(steps: nat, edges: nat, ports_per_edge: nat)
    requires
        edges == 0 ==> steps == 0,
        edges > 0 ==> steps < edges,
    ensures
        steps * ports_per_edge < edges * ports_per_edge || edges * ports_per_edge == 0,
        steps * ports_per_edge <= edges * ports_per_edge,
{
    assert(steps * ports_per_edge < edges * ports_per_edge || edges * ports_per_edge == 0)
        by (nonlinear_arith)
        requires
            edges == 0 ==> steps == 0,
            edges > 0 ==> steps < edges,
    ;
    assert(steps * ports_per_edge <= edges * ports_per_edge) by (nonlinear_arith)
        requires
            steps <= edges,
    ;
}

/// The tile of kind `k` with code `code` stands at position
/// `per * k + code` of the list.
pub proof fn lemma_slot(per: nat, k: nat, code: nat, kinds: nat)
    requires
        code < per,
        k < kinds,
    ensures
        ((per * k + code) as int) / (per as int) == k,
        ((per * k + code) as int) % (per as int) == code,
        per * k + code < per * kinds,
{
    assert(per * k == k * per) by (nonlinear_arith);
    vstd::arithmetic::div_mod::lemma_fundamental_div_mod_converse(
        (per * k + code) as int,
        per as int,
        k as int,
        code as int,
    );
    assert(per * k + code < per * kinds) by (nonlinear_arith)
        requires
            code < per,
            k < kinds,
    ;
}

} // verus!
