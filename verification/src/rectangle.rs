//! The rectangular grid board.
use crate::board::{Board, GridLoc, GridPort};
use crate::tile::{RegularKind, RegularTileConfig};
use vstd::prelude::*;

verus! {

/// A grid of square cells, `width` columns by `height` rows, with the same
/// number of ports on every cell edge.
#[derive(Clone, Copy, Debug, PartialEq, Eq, Hash)]
pub struct RectangleBoard {
    width: u32,
    height: u32,
    ports_per_edge: u32,
    num_kinds: u32,
}

/// The ports of `count` consecutive cell edges that lie on one grid line:
/// edge after edge, and along each edge from its start.
pub open spec fn edge_run(count: nat, ports_per_edge: nat, line: nat, horizontal: bool) -> Seq<
    GridPort,
> {
    Seq::new(
        count * ports_per_edge,
        |i: int|
            if horizontal {
                GridPort {
                    x: (i / ports_per_edge as int) as u32,
                    y: line as u32,
                    dx: (i % ports_per_edge as int + 1) as u32,
                    dy: 0,
                }
            } else {
                GridPort {
                    x: line as u32,
                    y: (i / ports_per_edge as int) as u32,
                    dx: 0,
                    dy: (i % ports_per_edge as int + 1) as u32,
                }
            },
    )
}

/// Whether `port` lies on one of the `count` edges of the given grid line.
pub open spec fn on_run(
    port: GridPort,
    count: nat,
    ports_per_edge: nat,
    line: nat,
    horizontal: bool,
) -> bool {
    if horizontal {
        port.dy == 0 && port.y == line && port.x < count && 1 <= port.dx <= ports_per_edge
    } else {
        port.dx == 0 && port.x == line && port.y < count && 1 <= port.dy <= ports_per_edge
    }
}

/// Edge `c` and offset `k` stand at position `c * ports_per_edge + k` of a run.
pub proof fn lemma_run_index(count: nat, ports_per_edge: nat, c: nat, k: nat)
    requires
        c < count,
        k < ports_per_edge,
    ensures
        c * ports_per_edge + k < count * ports_per_edge,
        ((c * ports_per_edge + k) as int) / (ports_per_edge as int) == c,
        ((c * ports_per_edge + k) as int) % (ports_per_edge as int) == k,
{
    vstd::arithmetic::div_mod::lemma_fundamental_div_mod_converse(
        (c * ports_per_edge + k) as int,
        ports_per_edge as int,
        c as int,
        k as int,
    );
    assert(c * ports_per_edge + k < count * ports_per_edge) by (nonlinear_arith)
        requires
            c < count,
            k < ports_per_edge,
    ;
}

/// Position `i` of a run holds an edge below `count` and an offset below
/// `ports_per_edge`.
pub proof fn lemma_run_position(count: nat, ports_per_edge: nat, i: int)
    requires
        0 <= i < count * ports_per_edge,
    ensures
        ports_per_edge > 0,
        0 <= i / (ports_per_edge as int) < count,
        0 <= i % (ports_per_edge as int) < ports_per_edge,
        i == (i / (ports_per_edge as int)) * ports_per_edge + i % (ports_per_edge as int),
{
    assert(ports_per_edge > 0) by (nonlinear_arith)
        requires
            0 < count * ports_per_edge,
    ;
    let d = ports_per_edge as int;
    vstd::arithmetic::div_mod::lemma_fundamental_div_mod(i, d);
    vstd::arithmetic::div_mod::lemma_mod_pos_bound(i, d);
    vstd::arithmetic::div_mod::lemma_div_pos_is_pos(i, d);
    let q = i / d;
    assert(q < count) by (nonlinear_arith)
        requires
            i == d * q + i % d,
            0 <= i % d,
            i < count * d,
            d > 0,
    ;
    assert(d * q == q * d) by (nonlinear_arith);
}

/// A run lists exactly the ports on its edges, each once.
pub proof fn lemma_edge_run(
    port: GridPort,
    count: nat,
    ports_per_edge: nat,
    line: nat,
    horizontal: bool,
)
    requires
        count <= u32::MAX,
        ports_per_edge <= u32::MAX,
        line <= u32::MAX,
    ensures
        edge_run(count, ports_per_edge, line, horizontal).contains(port) <==> on_run(
            port,
            count,
            ports_per_edge,
            line,
            horizontal,
        ),
        edge_run(count, ports_per_edge, line, horizontal).no_duplicates(),
{
    let run = edge_run(count, ports_per_edge, line, horizontal);
    if run.contains(port) {
        let i = choose|i: int| 0 <= i < run.len() && run[i] == port;
        lemma_run_position(count, ports_per_edge, i);
    }
    if on_run(port, count, ports_per_edge, line, horizontal) {
        let c = if horizontal {
            port.x as nat
        } else {
            port.y as nat
        };
        let k = if horizontal {
            (port.dx - 1) as nat
        } else {
            (port.dy - 1) as nat
        };
        lemma_run_index(count, ports_per_edge, c, k);
        assert(run[(c * ports_per_edge + k) as int] == port);
    }
    assert forall|i: int, j: int| 0 <= i < run.len() && 0 <= j < run.len() && i != j implies run[i]
        != run[j] by {
        lemma_run_position(count, ports_per_edge, i);
        lemma_run_position(count, ports_per_edge, j);
    }
}

impl RectangleBoard {
    /// Number of columns.
    pub closed spec fn spec_width(self) -> nat {
        self.width as nat
    }

    /// Number of rows.
    pub closed spec fn spec_height(self) -> nat {
        self.height as nat
    }

    /// Number of ports on each edge of a cell.
    pub closed spec fn spec_ports_per_edge(self) -> nat {
        self.ports_per_edge as nat
    }

    /// Number of kinds of tile that the board takes.
    pub closed spec fn spec_num_kinds(self) -> nat {
        self.num_kinds as nat
    }

    #[verifier::type_invariant]
    spec fn inv(self) -> bool {
        self.wf()
    }

    /// The measures of a board are machine numbers.
    pub proof fn lemma_measures(self)
        ensures
            self.spec_width() <= u32::MAX,
            self.spec_height() <= u32::MAX,
            self.spec_ports_per_edge() <= u32::MAX,
            self.spec_num_kinds() <= u32::MAX,
    {
    }

    /// Validity: the ports around a cell can be numbered.
    pub open spec fn wf(self) -> bool {
        4 * self.spec_ports_per_edge() <= u32::MAX
    }

    /// A board of `width` columns and `height` rows, with `ports_per_edge`
    /// ports on every cell edge, that takes tiles of the kinds numbered
    /// below `num_kinds`; none if the ports around a cell are too many to
    /// number.
    pub fn new(width: u32, height: u32, ports_per_edge: u32, num_kinds: u32) -> (r: Option<Self>)
        ensures
            r.is_some() <==> 4 * ports_per_edge <= u32::MAX,
            r.is_some() ==> {
                &&& r.unwrap().wf()
                &&& r.unwrap().spec_width() == width
                &&& r.unwrap().spec_height() == height
                &&& r.unwrap().spec_ports_per_edge() == ports_per_edge
                &&& r.unwrap().spec_num_kinds() == num_kinds
            },
    {
        if ports_per_edge > u32::MAX / 4 {
            None
        } else {
            Some(RectangleBoard { width, height, ports_per_edge, num_kinds })
        }
    }

    /// Number of columns.
    pub fn width(&self) -> (r: u32)
        ensures
            r == self.spec_width(),
    {
        self.width
    }

    /// Number of rows.
    pub fn height(&self) -> (r: u32)
        ensures
            r == self.spec_height(),
    {
        self.height
    }

    /// Number of ports on each edge of a cell.
    pub fn ports_per_edge(&self) -> (r: u32)
        ensures
            r == self.spec_ports_per_edge(),
            self.wf(),
    {
        proof {
            use_type_invariant(self);
        }
        self.ports_per_edge
    }

    /// Number of kinds of tile that the board takes.
    pub fn num_kinds(&self) -> (r: u32)
        ensures
            r == self.spec_num_kinds(),
    {
        self.num_kinds
    }

    /// Whether the board has any cell.
    pub open spec fn has_cells(self) -> bool {
        self.spec_width() > 0 && self.spec_height() > 0
    }

    /// Appends the ports of one grid line of edges.
    fn push_run(ports: &mut Vec<GridPort>, count: u32, ports_per_edge: u32, line: u32, horizontal: bool)
        ensures
            final(ports)@ == old(ports)@ + edge_run(
                count as nat,
                ports_per_edge as nat,
                line as nat,
                horizontal,
            ),
    {
        let ghost before = ports@;
        let ghost run = edge_run(count as nat, ports_per_edge as nat, line as nat, horizontal);
        let mut c: u32 = 0;
        while c < count
            invariant
                c <= count,
                run == edge_run(count as nat, ports_per_edge as nat, line as nat, horizontal),
                (c as nat) * (ports_per_edge as nat) <= run.len(),
                ports@ == before + run.subrange(0, (c as nat) * (ports_per_edge as nat) as int),
            decreases count - c,
        {
            let mut k: u32 = 0;
            while k < ports_per_edge
                invariant
                    c < count,
                    k <= ports_per_edge,
                    run == edge_run(count as nat, ports_per_edge as nat, line as nat, horizontal),
                    (c as nat) * (ports_per_edge as nat) + (k as nat) <= run.len(),
                    ports@ == before + run.subrange(
                        0,
                        ((c as nat) * (ports_per_edge as nat) + (k as nat)) as int,
                    ),
                decreases ports_per_edge - k,
            {
                let port = if horizontal {
                    GridPort { x: c, y: line, dx: k + 1, dy: 0 }
                } else {
                    GridPort { x: line, y: c, dx: 0, dy: k + 1 }
                };
                proof {
                    lemma_run_index(count as nat, ports_per_edge as nat, c as nat, k as nat);
                    let i = ((c as nat) * (ports_per_edge as nat) + (k as nat)) as int;
                    assert(run[i] == port);
                    assert(run.subrange(0, i + 1) =~= run.subrange(0, i).push(port));
                    assert(before + run.subrange(0, i + 1) =~= (before + run.subrange(0, i)).push(
                        port,
                    ));
                }
                ports.push(port);
                k += 1;
            }
            proof {
                assert((c as nat) * (ports_per_edge as nat) + (ports_per_edge as nat) == ((c + 1) as nat)
                    * (ports_per_edge as nat)) by (nonlinear_arith);
            }
            c += 1;
        }
        proof {
            assert((c as nat) * (ports_per_edge as nat) == run.len());
            assert(run.subrange(0, run.len() as int) =~= run);
        }
    }
}

impl Board for RectangleBoard {
    type TLoc = GridLoc;

    type Port = GridPort;

    type Kind = RegularKind;

    type TileConfig = RegularTileConfig;

    open spec fn has_loc(&self, loc: GridLoc) -> bool {
        loc.x < self.spec_width() && loc.y < self.spec_height()
    }

    open spec fn has_port(&self, port: GridPort) -> bool {
        &&& self.has_cells()
        &&& {
            ||| port.dy == 0 && 1 <= port.dx <= self.spec_ports_per_edge() && port.x
                < self.spec_width() && port.y <= self.spec_height()
            ||| port.dx == 0 && 1 <= port.dy <= self.spec_ports_per_edge() && port.x
                <= self.spec_width() && port.y < self.spec_height()
        }
    }

    open spec fn on_boundary(&self, port: GridPort) -> bool {
        ||| port.dy == 0 && (port.y == 0 || port.y == self.spec_height())
        ||| port.dx == 0 && (port.x == 0 || port.x == self.spec_width())
    }

    open spec fn boundary_spec(&self) -> Seq<GridPort> {
        if self.has_cells() {
            edge_run(self.spec_width(), self.spec_ports_per_edge(), 0, true) + edge_run(
                self.spec_width(),
                self.spec_ports_per_edge(),
                self.spec_height(),
                true,
            ) + edge_run(self.spec_height(), self.spec_ports_per_edge(), 0, false) + edge_run(
                self.spec_height(),
                self.spec_ports_per_edge(),
                self.spec_width(),
                false,
            )
        } else {
            Seq::empty()
        }
    }

    open spec fn kinds_spec(&self) -> Seq<u32> {
        Seq::new(self.spec_num_kinds(), |i: int| i as u32)
    }

    open spec fn config_spec(&self) -> RegularTileConfig {
        RegularTileConfig {
            ports_per_edge: self.spec_ports_per_edge() as u32,
            num_kinds: self.spec_num_kinds() as u32,
        }
    }

    open spec fn ports_around(&self) -> nat {
        4 * self.spec_ports_per_edge()
    }

    /// The ports around a cell are numbered clockwise from the start of its
    /// upper edge.
    open spec fn port_at(&self, loc: GridLoc, index: nat) -> GridPort {
        let p = self.spec_ports_per_edge();
        if index < p {
            GridPort { x: loc.x, y: loc.y, dx: (index + 1) as u32, dy: 0 }
        } else if index < 2 * p {
            GridPort { x: (loc.x + 1) as u32, y: loc.y, dx: 0, dy: (index - p + 1) as u32 }
        } else if index < 3 * p {
            GridPort { x: loc.x, y: (loc.y + 1) as u32, dx: (3 * p - index) as u32, dy: 0 }
        } else {
            GridPort { x: loc.x, y: loc.y, dx: 0, dy: (4 * p - index) as u32 }
        }
    }

    open spec fn index_spec(&self, loc: GridLoc, port: GridPort) -> Option<nat> {
        let p = self.spec_ports_per_edge();
        if !self.has_loc(loc) {
            None
        } else if port.dy == 0 && 1 <= port.dx <= p && port.x == loc.x && port.y == loc.y {
            Some((port.dx - 1) as nat)
        } else if port.dx == 0 && 1 <= port.dy <= p && port.x == loc.x + 1 && port.y == loc.y {
            Some((p + port.dy - 1) as nat)
        } else if port.dy == 0 && 1 <= port.dx <= p && port.x == loc.x && port.y == loc.y + 1 {
            Some((3 * p - port.dx) as nat)
        } else if port.dx == 0 && 1 <= port.dy <= p && port.x == loc.x && port.y == loc.y {
            Some((4 * p - port.dy) as nat)
        } else {
            None
        }
    }

    open spec fn across_spec(&self, loc: GridLoc, port: GridPort) -> Option<GridLoc> {
        let p = self.spec_ports_per_edge();
        match self.index_spec(loc, port) {
            None => None,
            Some(index) => if index < p {
                if loc.y > 0 {
                    Some(GridLoc { x: loc.x, y: (loc.y - 1) as u32 })
                } else {
                    None
                }
            } else if index < 2 * p {
                if loc.x + 1 < self.spec_width() {
                    Some(GridLoc { x: (loc.x + 1) as u32, y: loc.y })
                } else {
                    None
                }
            } else if index < 3 * p {
                if loc.y + 1 < self.spec_height() {
                    Some(GridLoc { x: loc.x, y: (loc.y + 1) as u32 })
                } else {
                    None
                }
            } else {
                if loc.x > 0 {
                    Some(GridLoc { x: (loc.x - 1) as u32, y: loc.y })
                } else {
                    None
                }
            },
        }
    }

    open spec fn entry_spec(&self, port: GridPort) -> Option<GridLoc> {
        if !self.has_port(port) {
            None
        } else if port.dy == 0 && port.y == 0 {
            Some(GridLoc { x: port.x, y: 0 })
        } else if port.dy == 0 && port.y == self.spec_height() {
            Some(GridLoc { x: port.x, y: (port.y - 1) as u32 })
        } else if port.dx == 0 && port.x == 0 {
            Some(GridLoc { x: 0, y: port.y })
        } else if port.dx == 0 && port.x == self.spec_width() {
            Some(GridLoc { x: (port.x - 1) as u32, y: port.y })
        } else {
            None
        }
    }

    fn contains_loc(&self, loc: &GridLoc) -> (r: bool) {
        loc.x < self.width && loc.y < self.height
    }

    fn contains_port(&self, port: &GridPort) -> (r: bool) {
        if self.width == 0 || self.height == 0 {
            false
        } else if port.dy == 0 {
            1 <= port.dx && port.dx <= self.ports_per_edge && port.x < self.width && port.y
                <= self.height
        } else if port.dx == 0 {
            port.dy <= self.ports_per_edge && port.x <= self.width && port.y < self.height
        } else {
            false
        }
    }

    fn is_boundary_port(&self, port: &GridPort) -> (r: bool) {
        if !self.contains_port(port) {
            false
        } else if port.dy == 0 {
            port.y == 0 || port.y == self.height
        } else {
            port.x == 0 || port.x == self.width
        }
    }

    fn boundary_ports(&self) -> (r: Vec<GridPort>) {
        let mut ports: Vec<GridPort> = Vec::new();
        if self.width == 0 || self.height == 0 {
            return ports;
        }
        Self::push_run(&mut ports, self.width, self.ports_per_edge, 0, true);
        Self::push_run(&mut ports, self.width, self.ports_per_edge, self.height, true);
        Self::push_run(&mut ports, self.height, self.ports_per_edge, 0, false);
        Self::push_run(&mut ports, self.height, self.ports_per_edge, self.width, false);
        assert(ports@ =~= self.boundary_spec());
        ports
    }

    fn all_kinds(&self) -> (r: Vec<RegularKind>) {
        let mut kinds: Vec<RegularKind> = Vec::new();
        let mut k: u32 = 0;
        while k < self.num_kinds
            invariant
                k <= self.num_kinds,
                kinds.len() == k,
                forall|i: int| 0 <= i < k ==> (#[trigger] kinds[i]).0 == i,
            decreases self.num_kinds - k,
        {
            kinds.push(RegularKind(k));
            k += 1;
        }
        kinds
    }

    fn tile_config(&self) -> (r: RegularTileConfig) {
        RegularTileConfig { ports_per_edge: self.ports_per_edge, num_kinds: self.num_kinds }
    }

    fn num_ports_around(&self) -> (n: u32) {
        proof {
            use_type_invariant(self);
        }
        4 * self.ports_per_edge
    }

    fn duplicate(&self) -> (r: Self) {
        *self
    }

    fn tile_port(&self, loc: &GridLoc, index: u32) -> (r: Option<GridPort>) {
        proof {
            use_type_invariant(self);
        }
        let p: u32 = self.ports_per_edge;
        if !self.contains_loc(loc) || index >= 4 * p {
            None
        } else if index < p {
            Some(GridPort { x: loc.x, y: loc.y, dx: index + 1, dy: 0 })
        } else if index < 2 * p {
            Some(GridPort { x: loc.x + 1, y: loc.y, dx: 0, dy: index - p + 1 })
        } else if index < 3 * p {
            Some(GridPort { x: loc.x, y: loc.y + 1, dx: 3 * p - index, dy: 0 })
        } else {
            Some(GridPort { x: loc.x, y: loc.y, dx: 0, dy: 4 * p - index })
        }
    }

    fn port_index(&self, loc: &GridLoc, port: &GridPort) -> (r: Option<u32>) {
        proof {
            use_type_invariant(self);
        }
        let p: u32 = self.ports_per_edge;
        let on_row: bool = port.dy == 0 && 1 <= port.dx && port.dx <= p;
        let on_column: bool = port.dx == 0 && 1 <= port.dy && port.dy <= p;
        if !self.contains_loc(loc) {
            None
        } else if on_row && port.x == loc.x && port.y == loc.y {
            Some(port.dx - 1)
        } else if on_column && port.x >= 1 && port.x - 1 == loc.x && port.y == loc.y {
            Some(p + port.dy - 1)
        } else if on_row && port.x == loc.x && port.y >= 1 && port.y - 1 == loc.y {
            Some(3 * p - port.dx)
        } else if on_column && port.x == loc.x && port.y == loc.y {
            Some(4 * p - port.dy)
        } else {
            None
        }
    }

    fn across(&self, loc: &GridLoc, port: &GridPort) -> (r: Option<GridLoc>) {
        proof {
            use_type_invariant(self);
        }
        let p: u32 = self.ports_per_edge;
        match self.port_index(loc, port) {
            None => None,
            Some(index) => if index < p {
                if loc.y > 0 {
                    Some(GridLoc { x: loc.x, y: loc.y - 1 })
                } else {
                    None
                }
            } else if index < 2 * p {
                if loc.x + 1 < self.width {
                    Some(GridLoc { x: loc.x + 1, y: loc.y })
                } else {
                    None
                }
            } else if index < 3 * p {
                if loc.y + 1 < self.height {
                    Some(GridLoc { x: loc.x, y: loc.y + 1 })
                } else {
                    None
                }
            } else {
                if loc.x > 0 {
                    Some(GridLoc { x: loc.x - 1, y: loc.y })
                } else {
                    None
                }
            },
        }
    }

    fn entry(&self, port: &GridPort) -> (r: Option<GridLoc>) {
        if !self.contains_port(port) {
            None
        } else if port.dy == 0 && port.y == 0 {
            Some(GridLoc { x: port.x, y: 0 })
        } else if port.dy == 0 && port.y == self.height {
            Some(GridLoc { x: port.x, y: port.y - 1 })
        } else if port.dx == 0 && port.x == 0 {
            Some(GridLoc { x: 0, y: port.y })
        } else if port.dx == 0 && port.x == self.width {
            Some(GridLoc { x: port.x - 1, y: port.y })
        } else {
            None
        }
    }

    proof fn lemma_port_at(&self, loc: GridLoc, index: nat) {
    }

    proof fn lemma_index(&self, loc: GridLoc, port: GridPort) {
    }

    proof fn lemma_ports(&self, port: GridPort) {
        if self.has_port(port) {
            let loc = if port.dy == 0 {
                if port.y < self.spec_height() {
                    GridLoc { x: port.x, y: port.y }
                } else {
                    GridLoc { x: port.x, y: (port.y - 1) as u32 }
                }
            } else {
                if port.x < self.spec_width() {
                    GridLoc { x: port.x, y: port.y }
                } else {
                    GridLoc { x: (port.x - 1) as u32, y: port.y }
                }
            };
            assert(self.index_spec(loc, port).is_some());
        }
    }

    proof fn lemma_across(&self, loc: GridLoc, port: GridPort) {
    }

    proof fn lemma_entry(&self, port: GridPort) {
    }

    proof fn lemma_boundary(&self, port: GridPort) {
        let w = self.spec_width();
        let h = self.spec_height();
        let p = self.spec_ports_per_edge();
        if self.has_cells() {
            let top = edge_run(w, p, 0, true);
            let bottom = edge_run(w, p, h, true);
            let left = edge_run(h, p, 0, false);
            let right = edge_run(h, p, w, false);
            lemma_edge_run(port, w, p, 0, true);
            lemma_edge_run(port, w, p, h, true);
            lemma_edge_run(port, h, p, 0, false);
            lemma_edge_run(port, h, p, w, false);
            vstd::seq_lib::lemma_seq_concat_contains_all_elements(top, bottom, port);
            vstd::seq_lib::lemma_seq_concat_contains_all_elements(top + bottom, left, port);
            vstd::seq_lib::lemma_seq_concat_contains_all_elements(top + bottom + left, right, port);
            assert forall|i: int, j: int| 0 <= i < top.len() && 0 <= j < bottom.len() implies top[i]
                != bottom[j] by {}
            vstd::seq_lib::lemma_no_dup_in_concat(top, bottom);
            assert forall|i: int, j: int|
                0 <= i < (top + bottom).len() && 0 <= j < left.len() implies (top + bottom)[i]
                != left[j] by {
                lemma_run_position(h, p, j);
            }
            vstd::seq_lib::lemma_no_dup_in_concat(top + bottom, left);
            assert forall|i: int, j: int|
                0 <= i < (top + bottom + left).len() && 0 <= j < right.len() implies (top + bottom
                + left)[i] != right[j] by {
                lemma_run_position(h, p, j);
                if i >= (top + bottom).len() {
                    lemma_run_position(h, p, i - (top + bottom).len());
                }
            }
            vstd::seq_lib::lemma_no_dup_in_concat(top + bottom + left, right);
        }
    }
}

} // verus!
