use vstd::prelude::*;
use vstd::set_lib::{set_int_range, lemma_int_range, lemma_len_subset};
use vstd::bytes::{
    spec_u32_to_le_bytes, spec_u32_from_le_bytes, u32_to_le_bytes, u32_from_le_bytes,
    lemma_auto_spec_u32_to_from_le_bytes,
};
use vstd::arithmetic::div_mod::{lemma_fundamental_div_mod, lemma_fundamental_div_mod_converse};
use crate::cell::{
    Cell, CellParseError, is_point, spec_is_active, spec_set, spec_signals, spec_to_byte,
    spec_from_byte, strip, lemma_byte_round_trip,
};
use crate::direction::{Direction, spec_rev, spec_rotate_cw, spec_rotate_ccw};

verus! {

/// What a grid shows: its size and its cells in row-major order, without flood-fill stamps.
pub struct GridModel {
    pub width: nat,
    pub height: nat,
    pub cells: Seq<Cell>,
}

/// Whether cell `i` of a row-major grid `w` wide holding `n` cells has a neighbour on side `d`.
pub open spec fn has_nbr(w: int, n: int, i: int, d: Direction) -> bool {
    &&& 0 <= i < n
    &&& match d {
        Direction::Up => i >= w,
        Direction::Down => i + w < n,
        Direction::Left => i >= 1 && i % w != 0,
        Direction::Right => i + 1 < n && i % w != w - 1,
    }
}

/// The index of the neighbour on side `d` of cell `i`.
pub open spec fn nbr(w: int, i: int, d: Direction) -> int {
    match d {
        Direction::Up => i - w,
        Direction::Down => i + w,
        Direction::Left => i - 1,
        Direction::Right => i + 1,
    }
}

/// Whether the neighbour on side `d` of cell `i` asserts a signal towards `i`.
pub open spec fn fed_from(s: Seq<Cell>, w: int, i: int, d: Direction) -> bool {
    has_nbr(w, s.len() as int, i, d) && spec_signals(s[nbr(w, i, d)], spec_rev(d))
}

/// Whether some neighbour of cell `i` asserts a signal towards it.
pub open spec fn driven(s: Seq<Cell>, w: int, i: int) -> bool {
    fed_from(s, w, i, Direction::Up) || fed_from(s, w, i, Direction::Right)
        || fed_from(s, w, i, Direction::Down) || fed_from(s, w, i, Direction::Left)
}

/// Which cells are junction Points.
pub open spec fn point_mask(s: Seq<Cell>) -> Seq<bool> {
    Seq::new(s.len(), |k: int| is_point(s[k]))
}

/// A set of indices that takes in every Point next to a Point it holds.
pub open spec fn closed_set(w: int, mask: Seq<bool>, set: Set<int>) -> bool {
    forall|a: int, d: Direction|
        #![trigger set.contains(a), has_nbr(w, mask.len() as int, a, d)]
        set.contains(a) && mask[a] && has_nbr(w, mask.len() as int, a, d) && mask[nbr(w, a, d)]
            ==> set.contains(nbr(w, a, d))
}

/// Whether `j` lies in the Point component grown from `i` by orthogonal adjacency.
pub open spec fn connected(w: int, mask: Seq<bool>, i: int, j: int) -> bool {
    forall|set: Set<int>| #[trigger] closed_set(w, mask, set) && set.contains(i) ==> set.contains(j)
}

/// Every Point switched off, everything else as it was.
pub open spec fn reset(s: Seq<Cell>) -> Seq<Cell> {
    Seq::new(s.len(), |k: int| if is_point(s[k]) { spec_set(s[k], false) } else { s[k] })
}

/// Whether a Point among the first `upto` cells that is fed once all Points are off
/// reaches `k` through its component.
pub open spec fn driven_before(s: Seq<Cell>, w: int, k: int, upto: int) -> bool {
    exists|r: int|
        0 <= r < upto && is_point(s[r]) && #[trigger] driven(reset(s), w, r) && connected(
            w,
            point_mask(s),
            r,
            k,
        )
}

/// Whether some Point of the component of `k` is fed by a neighbour once all Points are off.
pub open spec fn component_driven(s: Seq<Cell>, w: int, k: int) -> bool {
    driven_before(s, w, k, s.len() as int)
}

/// The grid after the junction phases: each Point is on exactly when its component is driven.
pub open spec fn settle_points(s: Seq<Cell>, w: int) -> Seq<Cell> {
    Seq::new(
        s.len(),
        |k: int|
            if is_point(s[k]) {
                spec_set(s[k], component_driven(s, w, k))
            } else {
                s[k]
            },
    )
}

/// The next signal of a gate or wire at `i`, read from the grid `p`.
pub open spec fn gate_output(p: Seq<Cell>, w: int, i: int) -> bool {
    match p[i] {
        Cell::Cable { direction, .. } => fed_from(p, w, i, spec_rev(direction)),
        Cell::And { direction, .. } => fed_from(p, w, i, spec_rotate_cw(direction)) && fed_from(
            p,
            w,
            i,
            spec_rotate_ccw(direction),
        ),
        Cell::Not { direction, .. } => !fed_from(p, w, i, spec_rev(direction)),
        Cell::Tee { direction, .. } => fed_from(p, w, i, spec_rev(direction)),
        _ => false,
    }
}

/// One tick of the simulation on the cells of a grid `w` wide.
pub open spec fn tick(s: Seq<Cell>, w: int) -> Seq<Cell> {
    let p = settle_points(s, w);
    Seq::new(
        s.len(),
        |i: int|
            match p[i] {
                Cell::Empty => p[i],
                Cell::Point { .. } => p[i],
                _ => spec_set(p[i], gate_output(p, w, i)),
            },
    )
}

pub open spec fn strip_all(s: Seq<Cell>) -> Seq<Cell> {
    Seq::new(s.len(), |k: int| strip(s[k]))
}

/// A grid of cells in row-major order, with a scratch buffer for ticking and an epoch
/// counter that marks which Points a flood fill has visited.
#[derive(Debug, Clone)]
pub struct Grid {
    width: usize,
    height: usize,
    cells: Vec<Cell>,
    next: Vec<Cell>,
    marker: u32,
}

impl View for Grid {
    type V = GridModel;

    closed spec fn view(&self) -> GridModel {
        GridModel {
            width: self.width as nat,
            height: self.height as nat,
            cells: strip_all(self.cells@),
        }
    }
}

impl Grid {
    /// Both buffers hold `width * height` cells and every Point's stamp is below the epoch.
    pub closed spec fn wf(&self) -> bool {
        &&& self.cells@.len() == self.width * self.height
        &&& self.next@.len() == self.cells@.len()
        &&& self.marker >= 1
        &&& forall|k: int|
            0 <= k < self.cells@.len() && #[trigger] is_point(self.cells@[k])
                ==> self.cells@[k]->marked < self.marker
    }

    /// The epoch counter.
    pub closed spec fn epoch(&self) -> u32 {
        self.marker
    }

    /// An empty grid: every cell Empty, epoch 1.
    pub fn new(width: usize, height: usize) -> (r: Grid)
        requires
            width * height <= usize::MAX,
        ensures
            r.wf(),
            r@.width == width,
            r@.height == height,
            r@.cells == Seq::new((width * height) as nat, |k: int| Cell::Empty),
            r.epoch() == 1,
    {
        let n: usize = width * height;
        let mut cells: Vec<Cell> = Vec::new();
        let mut k: usize = 0;
        while k < n
            invariant
                k <= n,
                cells@ == Seq::new(k as nat, |j: int| Cell::Empty),
            decreases n - k,
        {
            cells.push(Cell::Empty);
            k = k + 1;
            assert(cells@ =~= Seq::new(k as nat, |j: int| Cell::Empty));
        }
        let next = cells.clone();
        let r = Grid { width, height, cells, next, marker: 1 };
        assert(r@.cells =~= Seq::new((width * height) as nat, |k: int| Cell::Empty));
        r
    }

    pub fn width(&self) -> (r: usize)
        ensures
            r == self@.width,
    {
        self.width
    }

    pub fn height(&self) -> (r: usize)
        ensures
            r == self@.height,
    {
        self.height
    }

    /// How many cells the grid holds.
    pub fn cell_count(&self) -> (r: usize)
        requires
            self.wf(),
        ensures
            r == self@.cells.len(),
    {
        self.cells.len()
    }

    /// The epoch counter: it never decreases and is above every Point's stamp.
    pub fn marker(&self) -> (r: u32)
        ensures
            r == self.epoch(),
    {
        self.marker
    }
}

/// The neighbour on side `d` of cell `i`, if it lies on the grid.
fn neighbor(w: usize, n: usize, i: usize, d: Direction) -> (r: Option<usize>)
    requires
        i < n,
        w > 0,
    ensures
        r == (if has_nbr(w as int, n as int, i as int, d) {
            Some(nbr(w as int, i as int, d) as usize)
        } else {
            None::<usize>
        }),
        r is Some ==> r->0 < n,
{
    match d {
        Direction::Up => if i >= w { Some(i - w) } else { None },
        Direction::Down => if w < n - i { Some(i + w) } else { None },
        Direction::Left => if i >= 1 && i % w != 0 { Some(i - 1) } else { None },
        Direction::Right => if i + 1 < n && i % w != w - 1 { Some(i + 1) } else { None },
    }
}

/// Whether the neighbour on side `d` of cell `i` asserts a signal towards `i`.
fn fed_from_exec(cells: &Vec<Cell>, w: usize, i: usize, d: Direction) -> (r: bool)
    requires
        i < cells@.len(),
        w > 0,
    ensures
        r == fed_from(cells@, w as int, i as int, d),
{
    match neighbor(w, cells.len(), i, d) {
        Some(j) => cells[j].signal_in_direction(d.rev()),
        None => false,
    }
}


/// Every Point's stamp lies below `m`.
pub open spec fn stamps_below(s: Seq<Cell>, m: u32) -> bool {
    forall|k: int| 0 <= k < s.len() && #[trigger] is_point(s[k]) ==> s[k]->marked < m
}

/// The Point neighbours of `a` all lie in `set`.
spec fn nbrs_in(w: int, mask: Seq<bool>, set: Set<int>, a: int) -> bool {
    forall|d: Direction|
        #![trigger has_nbr(w, mask.len() as int, a, d)]
        has_nbr(w, mask.len() as int, a, d) && mask[nbr(w, a, d)] ==> set.contains(nbr(w, a, d))
}

spec fn on_stack(st: Seq<usize>, a: int) -> bool {
    exists|j: int| 0 <= j < st.len() && st[j] as int == a
}

proof fn lemma_connected_step(w: int, mask: Seq<bool>, r: int, i: int, d: Direction)
    requires
        connected(w, mask, r, i),
        0 <= i < mask.len(),
        mask[i],
        has_nbr(w, mask.len() as int, i, d),
        mask[nbr(w, i, d)],
    ensures
        connected(w, mask, r, nbr(w, i, d)),
{
    assert forall|set: Set<int>| #[trigger]
        closed_set(w, mask, set) && set.contains(r) implies set.contains(nbr(w, i, d)) by {
        assert(set.contains(i));
        assert(set.contains(i) && has_nbr(w, mask.len() as int, i, d));
    }
}

proof fn lemma_connected_trans(w: int, mask: Seq<bool>, a: int, b: int, c: int)
    requires
        connected(w, mask, a, b),
        connected(w, mask, b, c),
    ensures
        connected(w, mask, a, c),
{
    assert forall|set: Set<int>| #[trigger]
        closed_set(w, mask, set) && set.contains(a) implies set.contains(c) by {
        assert(set.contains(b));
    }
}

/// Stamps every Point of the component of `root` with `marker` and gives it the signal `value`.
fn fill(cells: &mut Vec<Cell>, w: usize, root: usize, marker: u32, value: bool)
    requires
        root < old(cells)@.len(),
        w > 0,
        is_point(old(cells)@[root as int]),
        stamps_below(old(cells)@, marker),
    ensures
        final(cells)@.len() == old(cells)@.len(),
        forall|k: int|
            0 <= k < old(cells)@.len() ==> #[trigger] final(cells)@[k] == if is_point(
                old(cells)@[k],
            ) && connected(w as int, point_mask(old(cells)@), root as int, k) {
                Cell::Point { active: value, marked: marker }
            } else {
                old(cells)@[k]
            },
{
    let ghost s0 = cells@;
    let ghost mask = point_mask(s0);
    let ghost n = s0.len() as int;
    let ghost wi = w as int;
    let ghost mut vis: Set<int> = Set::empty().insert(root as int);
    proof {
        lemma_int_range(0, n);
        lemma_len_subset(vis, set_int_range(0, n));
    }
    cells.set(root, Cell::Point { active: value, marked: marker });
    let mut stack: Vec<usize> = Vec::new();
    stack.push(root);
    assert(stack@[0] == root);
    while stack.len() > 0
        invariant
            cells@.len() == n,
            s0.len() == n,
            mask == point_mask(s0),
            wi == w as int,
            w > 0,
            stamps_below(s0, marker),
            set_int_range(0, n).finite(),
            set_int_range(0, n).len() == n,
            vis.subset_of(set_int_range(0, n)),
            vis.finite(),
            vis.len() <= n,
            vis.contains(root as int),
            forall|k: int|
                0 <= k < n ==> #[trigger] cells@[k] == if vis.contains(k) {
                    Cell::Point { active: value, marked: marker }
                } else {
                    s0[k]
                },
            forall|k: int|
                #[trigger] vis.contains(k) ==> mask[k] && connected(wi, mask, root as int, k),
            forall|j: int| 0 <= j < stack@.len() ==> vis.contains(#[trigger] stack@[j] as int),
            forall|a: int| #[trigger]
                vis.contains(a) ==> on_stack(stack@, a) || nbrs_in(wi, mask, vis, a),
        decreases 5 * (n - vis.len()) + stack@.len(),
    {
        let ghost m0 = 5 * (n - vis.len()) + stack@.len();
        let ghost st0 = stack@;
        let i = stack.pop().unwrap();
        proof {
            assert forall|a: int| #[trigger]
                vis.contains(a) && a != i as int implies on_stack(stack@, a) || nbrs_in(
                wi,
                mask,
                vis,
                a,
            ) by {
                if on_stack(st0, a) {
                    let j = choose|j: int| 0 <= j < st0.len() && st0[j] as int == a;
                    assert(stack@[j] == st0[j]);
                }
            }
            assert(stack@ =~= st0.drop_last());
            assert(vis.contains(st0[st0.len() - 1] as int));
        }
        let dirs = Direction::all();
        let mut t: usize = 0;
        while t < 4
            invariant
                0 <= t <= 4,
                dirs@ == seq![Direction::Up, Direction::Right, Direction::Down, Direction::Left],
                i < n,
                vis.contains(i as int),
                cells@.len() == n,
                s0.len() == n,
                mask == point_mask(s0),
                wi == w as int,
                w > 0,
                stamps_below(s0, marker),
                set_int_range(0, n).finite(),
                set_int_range(0, n).len() == n,
                vis.subset_of(set_int_range(0, n)),
                vis.finite(),
                vis.len() <= n,
                vis.contains(root as int),
                5 * (n - vis.len()) + stack@.len() < m0,
                forall|k: int|
                    0 <= k < n ==> #[trigger] cells@[k] == if vis.contains(k) {
                        Cell::Point { active: value, marked: marker }
                    } else {
                        s0[k]
                    },
                forall|k: int|
                    #[trigger] vis.contains(k) ==> mask[k] && connected(wi, mask, root as int, k),
                forall|j: int| 0 <= j < stack@.len() ==> vis.contains(#[trigger] stack@[j] as int),
                forall|a: int| #[trigger]
                    vis.contains(a) && a != i as int ==> on_stack(stack@, a) || nbrs_in(
                        wi,
                        mask,
                        vis,
                        a,
                    ),
                forall|u: int|
                    0 <= u < t ==> #[trigger] has_nbr(wi, n, i as int, dirs@[u]) && mask[nbr(
                        wi,
                        i as int,
                        dirs@[u],
                    )] ==> vis.contains(nbr(wi, i as int, dirs@[u])),
            decreases 4 - t,
        {
            let d = dirs[t];
            match neighbor(w, cells.len(), i, d) {
                Some(j) => {
                    let fresh = match cells[j] {
                        Cell::Point { marked, .. } => marked != marker,
                        _ => false,
                    };
                    if fresh {
                        let ghost st1 = stack@;
                        proof {
                            assert(!vis.contains(j as int));
                            assert(mask[i as int]);
                            lemma_connected_step(wi, mask, root as int, i as int, d);
                        }
                        cells.set(j, Cell::Point { active: value, marked: marker });
                        stack.push(j);
                        proof {
                            vis = vis.insert(j as int);
                            lemma_len_subset(vis, set_int_range(0, n));
                            assert forall|a: int| #[trigger]
                                vis.contains(a) && a != i as int implies on_stack(stack@, a)
                                || nbrs_in(wi, mask, vis, a) by {
                                if a == j as int {
                                    assert(stack@[st1.len() as int] == j);
                                } else if on_stack(st1, a) {
                                    let q = choose|q: int| 0 <= q < st1.len() && st1[q] as int == a;
                                    assert(stack@[q] == st1[q]);
                                }
                            }
                            assert forall|j2: int| 0 <= j2 < stack@.len() implies vis.contains(
                                #[trigger] stack@[j2] as int,
                            ) by {
                                if j2 < st1.len() {
                                    assert(stack@[j2] == st1[j2]);
                                }
                            }
                        }
                    }
                },
                None => {},
            }
            t = t + 1;
        }
        proof {
            assert(nbrs_in(wi, mask, vis, i as int)) by {
                assert forall|d: Direction|
                    #[trigger] has_nbr(wi, n, i as int, d) && mask[nbr(wi, i as int, d)] implies vis.contains(
                    nbr(wi, i as int, d),
                ) by {
                    match d {
                        Direction::Up => assert(dirs@[0] == d),
                        Direction::Right => assert(dirs@[1] == d),
                        Direction::Down => assert(dirs@[2] == d),
                        Direction::Left => assert(dirs@[3] == d),
                    }
                }
            }
        }
    }
    proof {
        assert(closed_set(wi, mask, vis)) by {
            assert forall|a: int, d: Direction|
                #![trigger vis.contains(a), has_nbr(wi, mask.len() as int, a, d)]
                vis.contains(a) && mask[a] && has_nbr(wi, mask.len() as int, a, d) && mask[nbr(
                    wi,
                    a,
                    d,
                )] implies vis.contains(nbr(wi, a, d)) by {
                if on_stack(stack@, a) {
                    let j = choose|j: int| 0 <= j < stack@.len() && stack@[j] as int == a;
                }
            }
        }
        assert forall|k: int| 0 <= k < n && mask[k] && connected(wi, mask, root as int, k) implies vis.contains(k) by {
            assert(closed_set(wi, mask, vis) && vis.contains(root as int));
        }
    }
}


proof fn lemma_nonempty_width(w: int, h: int, n: int)
    requires
        n == w * h,
        n > 0,
        w >= 0,
        h >= 0,
    ensures
        w > 0,
{
    if w == 0 {
        assert(w * h == 0) by (nonlinear_arith)
            requires
                w == 0,
        ;
    }
}

/// Adjacency runs both ways.
proof fn lemma_nbr_symmetric(w: int, n: int, i: int, d: Direction)
    requires
        w > 0,
        has_nbr(w, n, i, d),
    ensures
        has_nbr(w, n, nbr(w, i, d), spec_rev(d)),
        nbr(w, nbr(w, i, d), spec_rev(d)) == i,
{
    lemma_fundamental_div_mod(i, w);
    assert(w * (i / w) == (i / w) * w) by (nonlinear_arith);
    match d {
        Direction::Left => {
            lemma_fundamental_div_mod_converse(i - 1, w, i / w, i % w - 1);
        },
        Direction::Right => {
            lemma_fundamental_div_mod_converse(i + 1, w, i / w, i % w + 1);
        },
        _ => {},
    }
}

/// A Point's flood-fill stamp plays no part in what its neighbours see.
proof fn lemma_fed_strip(s: Seq<Cell>, w: int, i: int, d: Direction)
    requires
        w > 0,
    ensures
        fed_from(strip_all(s), w, i, d) == fed_from(s, w, i, d),
{
    if has_nbr(w, s.len() as int, i, d) {
        assert(strip_all(s)[nbr(w, i, d)] == strip(s[nbr(w, i, d)]));
    }
}

impl Grid {
    /// Performs one tick: switches off every Point component, switches on each component
    /// that a neighbour feeds, then updates every wire and gate from the resulting grid.
    #[verifier::rlimit(50)]
    pub fn simulate(&mut self)
        requires
            old(self).wf(),
            old(self).epoch() + 2 * old(self)@.cells.len() <= u32::MAX,
        ensures
            final(self).wf(),
            final(self)@.width == old(self)@.width,
            final(self)@.height == old(self)@.height,
            final(self)@.cells == tick(old(self)@.cells, old(self)@.width as int),
            old(self).epoch() <= final(self).epoch() <= old(self).epoch() + 2 * old(self)@.cells.len(),
    {
        let ghost s0 = self.cells@;
        let ghost v = strip_all(s0);
        let ghost mask = point_mask(v);
        let ghost m_old = self.marker;
        let ghost h0 = self.height;
        let n = self.cells.len();
        let w = self.width;
        let ghost wi = w as int;
        assert(point_mask(s0) =~= mask);
        assert(v.len() == n);
        assert forall|k: int| 0 <= k < n implies #[trigger] is_point(v[k]) == is_point(s0[k])
            && (!is_point(s0[k]) ==> v[k] == s0[k]) by {
            assert(v[k] == strip(s0[k]));
        }
        // Phase A: switch off every Point component, stamping each with a fresh epoch.
        let a_start = self.marker;
        let mut idx: usize = 0;
        while idx < n
            invariant
                n == s0.len(),
                n == self.width * self.height,
                w == self.width,
                self.height == h0,
                wi == w as int,
                self.cells@.len() == n,
                self.next@.len() == n,
                v == strip_all(s0),
                mask == point_mask(v),
                idx <= n,
                a_start == m_old,
                a_start <= self.marker <= a_start + idx,
                m_old + 2 * n <= u32::MAX,
                stamps_below(self.cells@, self.marker),
                point_mask(self.cells@) == mask,
                forall|k: int|
                    0 <= k < n && !is_point(s0[k]) ==> #[trigger] self.cells@[k] == s0[k],
                forall|k: int|
                    0 <= k < n && is_point(s0[k]) ==> if #[trigger] self.cells@[k]->marked
                        >= a_start {
                        !spec_is_active(self.cells@[k])
                    } else {
                        self.cells@[k] == s0[k]
                    },
                forall|r: int| 0 <= r < idx && is_point(s0[r]) ==> #[trigger] self.cells@[r]->marked >= a_start,
            decreases n - idx,
        {
            let root_fresh = match self.cells[idx] {
                Cell::Point { marked, .. } => marked < a_start,
                _ => false,
            };
            if root_fresh {
                proof {
                    lemma_nonempty_width(w as int, self.height as int, n as int);
                    assert(is_point(self.cells@[idx as int]));
                }
                let ghost before = self.cells@;
                fill(&mut self.cells, w, idx, self.marker, false);
                proof {
                    assert(point_mask(self.cells@) =~= mask) by {
                        assert forall|k: int| 0 <= k < n implies is_point(self.cells@[k]) == is_point(before[k]) by {
                            assert(self.cells@[k] == before[k] || is_point(before[k]));
                        }
                    }
                }
                self.marker = self.marker + 1;
            }
            idx = idx + 1;
        }
        let ghost s_a = self.cells@;
        let ghost rs = reset(v);
        assert(strip_all(s_a) =~= rs) by {
            assert forall|k: int| 0 <= k < n implies strip_all(s_a)[k] == rs[k] by {
                assert(point_mask(s_a)[k] == mask[k]);
                if is_point(s0[k]) {
                    assert(s_a[k]->marked >= a_start);
                }
            }
        }
        // Phase B: switch on every Point component that a neighbour feeds.
        let mut idx: usize = 0;
        while idx < n
            invariant
                n == s0.len(),
                n == self.width * self.height,
                w == self.width,
                self.height == h0,
                wi == w as int,
                self.cells@.len() == n,
                self.next@.len() == n,
                v == strip_all(s0),
                v.len() == n,
                mask == point_mask(v),
                rs == reset(v),
                strip_all(s_a) == rs,
                forall|k: int| 0 <= k < n ==> #[trigger] is_point(v[k]) == is_point(s0[k])
                    && (!is_point(s0[k]) ==> v[k] == s0[k]),
                s_a.len() == n,
                idx <= n,
                m_old <= self.marker <= m_old + n + idx,
                m_old + 2 * n <= u32::MAX,
                stamps_below(self.cells@, self.marker),
                point_mask(self.cells@) == mask,
                forall|k: int|
                    0 <= k < n && !is_point(s0[k]) ==> #[trigger] self.cells@[k] == s0[k],
                forall|k: int|
                    0 <= k < n && is_point(s0[k]) ==> #[trigger] spec_is_active(self.cells@[k])
                        == driven_before(v, wi, k, idx as int),
            decreases n - idx,
        {
            let ghost cur = self.cells@;
            let idle = match self.cells[idx] {
                Cell::Point { active, .. } => !active,
                _ => false,
            };
            proof {
                lemma_fed_strip(s_a, wi, idx as int, Direction::Up);
            }
            if idle {
                proof {
                    lemma_nonempty_width(w as int, self.height as int, n as int);
                    assert(is_point(v[idx as int]));
                    assert forall|d: Direction| #[trigger] fed_from(cur, wi, idx as int, d) == fed_from(rs, wi, idx as int, d) by {
                        if has_nbr(wi, n as int, idx as int, d) {
                            let j = nbr(wi, idx as int, d);
                            if is_point(s0[j]) {
                                if spec_is_active(cur[j]) {
                                    let r = choose|r: int|
                                        0 <= r < idx && is_point(v[r]) && #[trigger] driven(reset(v), wi, r) && connected(wi, point_mask(v), r, j);
                                    lemma_nbr_symmetric(wi, n as int, idx as int, d);
                                    assert(mask[j]);
                                    lemma_connected_step(wi, mask, r, j, spec_rev(d));
                                    assert(driven_before(v, wi, idx as int, idx as int));
                                    assert(is_point(s0[idx as int]));
                                    assert(spec_is_active(cur[idx as int]) == driven_before(v, wi, idx as int, idx as int));
                                    assert(false);
                                }
                                assert(rs[j] == spec_set(v[j], false));
                            } else {
                                assert(strip(cur[j]) == rs[j]);
                            }
                        }
                    }
                }
                let lit = fed_from_exec(&self.cells, w, idx, Direction::Up)
                    || fed_from_exec(&self.cells, w, idx, Direction::Right)
                    || fed_from_exec(&self.cells, w, idx, Direction::Down)
                    || fed_from_exec(&self.cells, w, idx, Direction::Left);
                if lit {
                    fill(&mut self.cells, w, idx, self.marker, true);
                    self.marker = self.marker + 1;
                    proof {
                        assert(point_mask(self.cells@) =~= mask) by {
                            assert forall|k: int| 0 <= k < n implies is_point(self.cells@[k]) == is_point(cur[k]) by {
                                assert(self.cells@[k] == cur[k] || is_point(cur[k]));
                            }
                        }
                        assert forall|k: int| 0 <= k < n && is_point(s0[k]) implies #[trigger] spec_is_active(self.cells@[k])
                            == driven_before(v, wi, k, idx + 1) by {
                            assert(point_mask(cur)[k] == mask[k]);
                            assert(spec_is_active(cur[k]) == driven_before(v, wi, k, idx as int));
                            if connected(wi, mask, idx as int, k) {
                                assert(fed_from(cur, wi, idx as int, Direction::Up) == fed_from(rs, wi, idx as int, Direction::Up));
                                assert(fed_from(cur, wi, idx as int, Direction::Right) == fed_from(rs, wi, idx as int, Direction::Right));
                                assert(fed_from(cur, wi, idx as int, Direction::Down) == fed_from(rs, wi, idx as int, Direction::Down));
                                assert(fed_from(cur, wi, idx as int, Direction::Left) == fed_from(rs, wi, idx as int, Direction::Left));
                                assert(driven(reset(v), wi, idx as int));
                            } else {
                                if driven_before(v, wi, k, idx as int) {
                                    let r = choose|r: int|
                                        0 <= r < idx && is_point(v[r]) && #[trigger] driven(reset(v), wi, r) && connected(wi, point_mask(v), r, k);
                                }
                                if driven_before(v, wi, k, idx + 1) {
                                let r = choose|r: int|
                                    0 <= r < idx + 1 && is_point(v[r]) && #[trigger] driven(reset(v), wi, r) && connected(wi, point_mask(v), r, k);
                                assert(r < idx);
                                }
                            }
                        }
                    }
                } else {
                    proof {
                        assert forall|k: int| 0 <= k < n && is_point(s0[k]) implies #[trigger] spec_is_active(self.cells@[k])
                            == driven_before(v, wi, k, idx + 1) by {
                            if driven_before(v, wi, k, idx + 1) {
                                let r = choose|r: int|
                                    0 <= r < idx + 1 && is_point(v[r]) && #[trigger] driven(reset(v), wi, r) && connected(wi, point_mask(v), r, k);
                                assert(r < idx);
                            }
                        }
                    }
                }
            } else {
                proof {
                    assert forall|k: int| 0 <= k < n && is_point(s0[k]) implies #[trigger] spec_is_active(self.cells@[k])
                        == driven_before(v, wi, k, idx + 1) by {
                        if driven_before(v, wi, k, idx + 1) {
                            let r = choose|r: int|
                                0 <= r < idx + 1 && is_point(v[r]) && #[trigger] driven(reset(v), wi, r) && connected(wi, point_mask(v), r, k);
                            if r == idx as int {
                                assert(is_point(s0[idx as int]));
                                assert(point_mask(self.cells@)[idx as int] == mask[idx as int]);
                                assert(spec_is_active(self.cells@[idx as int]) == driven_before(v, wi, idx as int, idx as int));
                                assert(driven_before(v, wi, idx as int, idx as int));
                                let r0 = choose|r0: int|
                                    0 <= r0 < idx && is_point(v[r0]) && #[trigger] driven(reset(v), wi, r0) && connected(wi, point_mask(v), r0, idx as int);
                                lemma_connected_trans(wi, mask, r0, idx as int, k);
                            }
                        }
                    }
                }
            }
            idx = idx + 1;
        }
        let ghost s_b = self.cells@;
        let ghost p = settle_points(v, wi);
        assert(strip_all(s_b) =~= p) by {
            assert forall|k: int| 0 <= k < n implies strip_all(s_b)[k] == p[k] by {
                assert(point_mask(s_b)[k] == mask[k]);
                if is_point(s0[k]) {
                    assert(spec_is_active(s_b[k]) == driven_before(v, wi, k, n as int));
                }
            }
        }
        // Phase C: every wire and gate reads the settled grid; results go to the scratch buffer.
        let mut i: usize = 0;
        while i < n
            invariant
                n == s0.len(),
                n == self.width * self.height,
                w == self.width,
                self.height == h0,
                wi == w as int,
                self.cells@ == s_b,
                s_b.len() == n,
                self.next@.len() == n,
                v == strip_all(s0),
                p == settle_points(v, wi),
                strip_all(s_b) == p,
                i <= n,
                stamps_below(s_b, self.marker),
                m_old <= self.marker <= m_old + 2 * n,
                forall|k: int| 0 <= k < i ==> #[trigger] strip(self.next@[k]) == tick(v, wi)[k],
                forall|k: int|
                    0 <= k < i && #[trigger] is_point(self.next@[k]) ==> self.next@[k] == s_b[k],
            decreases n - i,
        {
            proof {
                lemma_nonempty_width(w as int, self.height as int, n as int);
            }
            let c = self.cells[i];
            let out = match c {
                Cell::Empty | Cell::Point { .. } => c,
                Cell::Cable { direction, .. } => {
                    let mut o = c;
                    o.set(fed_from_exec(&self.cells, w, i, direction.rev()));
                    o
                },
                Cell::And { direction, .. } => {
                    let mut o = c;
                    let a = fed_from_exec(&self.cells, w, i, direction.rotate_cw());
                    let b = fed_from_exec(&self.cells, w, i, direction.rotate_ccw());
                    o.set(a && b);
                    o
                },
                Cell::Not { direction, .. } => {
                    let mut o = c;
                    o.set(!fed_from_exec(&self.cells, w, i, direction.rev()));
                    o
                },
                Cell::Tee { direction, .. } => {
                    let mut o = c;
                    o.set(fed_from_exec(&self.cells, w, i, direction.rev()));
                    o
                },
            };
            proof {
                assert(p[i as int] == strip(s_b[i as int]));
                assert forall|d: Direction| #[trigger] fed_from(p, wi, i as int, d) == fed_from(s_b, wi, i as int, d) by {
                    lemma_fed_strip(s_b, wi, i as int, d);
                }
            }
            self.next.set(i, out);
            i = i + 1;
        }
        std::mem::swap(&mut self.cells, &mut self.next);
        assert(self@.cells =~= tick(v, wi));
    }
}


/// Why a byte stream does not decode to a grid.
#[derive(Debug, Clone, Copy, PartialEq, Eq, Structural)]
pub enum GridParseError {
    InputTooShort,
    CellParseError(CellParseError),
    MoreCellsExpected { expected: u32 },
}

/// The cells that a run of packed bytes decodes to, or the error of its first bad byte.
pub open spec fn decode_cells(b: Seq<u8>) -> Result<Seq<Cell>, CellParseError>
    decreases b.len(),
{
    if b.len() == 0 {
        Ok(Seq::empty())
    } else {
        match decode_cells(b.drop_last()) {
            Err(e) => Err(e),
            Ok(cs) => match spec_from_byte(b.last()) {
                Ok(c) => Ok(cs.push(c)),
                Err(e) => Err(e),
            },
        }
    }
}

/// The bytes of a grid: height and width as little-endian `u32`, then one byte per cell.
pub open spec fn spec_serialize(m: GridModel) -> Seq<u8> {
    spec_u32_to_le_bytes(m.height as u32) + spec_u32_to_le_bytes(m.width as u32) + Seq::new(
        m.cells.len(),
        |k: int| spec_to_byte(m.cells[k]),
    )
}

/// The grid a byte stream stands for. Cell bytes are decoded in order up to `width * height`
/// or the end of the stream, whichever comes first; the first bad one is the error, and a
/// stream that ends early without one is too short. Bytes after the last cell are ignored.
pub open spec fn spec_deserialize(b: Seq<u8>) -> Result<GridModel, GridParseError> {
    if b.len() < 8 {
        Err(GridParseError::InputTooShort)
    } else {
        let height = spec_u32_from_le_bytes(b.subrange(0, 4));
        let width = spec_u32_from_le_bytes(b.subrange(4, 8));
        let n = width * height;
        let body = b.subrange(8, b.len() as int);
        let lim = if n <= body.len() { n } else { body.len() as int };
        match decode_cells(body.subrange(0, lim)) {
            Err(e) => Err(GridParseError::CellParseError(e)),
            Ok(cs) => if lim < n {
                Err(GridParseError::InputTooShort)
            } else {
                Ok(GridModel { width: width as nat, height: height as nat, cells: cs })
            },
        }
    }
}

/// A cell as seen from outside carries no stamp.
pub open spec fn unstamped(s: Seq<Cell>) -> bool {
    forall|k: int| 0 <= k < s.len() ==> strip(#[trigger] s[k]) == s[k]
}

proof fn lemma_decode_encoded(cs: Seq<Cell>)
    requires
        unstamped(cs),
    ensures
        decode_cells(Seq::new(cs.len(), |k: int| spec_to_byte(cs[k]))) == Ok::<Seq<Cell>, CellParseError>(cs),
    decreases cs.len(),
{
    let b = Seq::new(cs.len(), |k: int| spec_to_byte(cs[k]));
    if cs.len() > 0 {
        let init = cs.drop_last();
        assert(unstamped(init)) by {
            assert forall|k: int| 0 <= k < init.len() implies strip(#[trigger] init[k]) == init[k] by {
                assert(init[k] == cs[k]);
            }
        }
        lemma_decode_encoded(init);
        assert(b.drop_last() =~= Seq::new(init.len(), |k: int| spec_to_byte(init[k])));
        lemma_byte_round_trip(cs.last());
        assert(strip(cs[cs.len() - 1]) == cs[cs.len() - 1]);
        assert(init.push(cs.last()) =~= cs);
    } else {
        assert(cs =~= Seq::<Cell>::empty());
    }
}

/// Decoding the bytes of a grid gives that grid back.
pub proof fn lemma_serialize_round_trip(m: GridModel)
    requires
        m.cells.len() == m.width * m.height,
        m.width <= u32::MAX,
        m.height <= u32::MAX,
        unstamped(m.cells),
    ensures
        spec_deserialize(spec_serialize(m)) == Ok::<GridModel, GridParseError>(m),
{
    lemma_auto_spec_u32_to_from_le_bytes();
    let b = spec_serialize(m);
    let cb = Seq::new(m.cells.len(), |k: int| spec_to_byte(m.cells[k]));
    assert(b.subrange(0, 4) =~= spec_u32_to_le_bytes(m.height as u32));
    assert(b.subrange(4, 8) =~= spec_u32_to_le_bytes(m.width as u32));
    assert(b.subrange(8, b.len() as int) =~= cb);
    assert(cb.subrange(0, cb.len() as int) =~= cb);
    lemma_decode_encoded(m.cells);
}

/// What a grid shows is all that a tick reads: equal grids tick to equal grids.
pub proof fn lemma_tick_deterministic(a: GridModel, b: GridModel)
    requires
        a == b,
    ensures
        tick(a.cells, a.width as int) == tick(b.cells, b.width as int),
{
}

impl Grid {
    /// The grid's bytes: height, width, then the cells in row-major order.
    pub fn serialize(&self) -> (r: Vec<u8>)
        requires
            self.wf(),
            self@.width <= u32::MAX,
            self@.height <= u32::MAX,
        ensures
            r@ == spec_serialize(self@),
    {
        let mut out = u32_to_le_bytes(self.height as u32);
        let wb = u32_to_le_bytes(self.width as u32);
        let ghost hb = out@;
        let mut k: usize = 0;
        while k < 4
            invariant
                0 <= k <= 4,
                wb@.len() == 4,
                hb.len() == 4,
                out@ == hb + wb@.subrange(0, k as int),
            decreases 4 - k,
        {
            out.push(wb[k]);
            k = k + 1;
            assert(out@ =~= hb + wb@.subrange(0, k as int));
        }
        let n = self.cells.len();
        let mut i: usize = 0;
        while i < n
            invariant
                n == self.cells@.len(),
                0 <= i <= n,
                out@ == hb + wb@ + Seq::new(i as nat, |j: int| spec_to_byte(strip(self.cells@[j]))),
            decreases n - i,
        {
            let byte = self.cells[i].to_byte();
            out.push(byte);
            i = i + 1;
            assert(out@ =~= hb + wb@ + Seq::new(i as nat, |j: int| spec_to_byte(strip(self.cells@[j]))));
        }
        assert(spec_serialize(self@) =~= out@) by {
            assert(hb + wb@.subrange(0, 4) == hb + wb@) by {
                assert(wb@.subrange(0, 4) =~= wb@);
            }
        }
        out
    }

    /// Rebuilds a grid from its bytes; the new grid's epoch is 1.
    pub fn deserialize(bytes: &[u8]) -> (r: Result<Grid, GridParseError>)
        ensures
            match r {
                Ok(g) => spec_deserialize(bytes@) == Ok::<GridModel, GridParseError>(g@) && g.wf()
                    && g.epoch() == 1,
                Err(e) => spec_deserialize(bytes@) == Err::<GridModel, GridParseError>(e),
            },
    {
        let len = bytes.len();
        if len < 8 {
            return Err(GridParseError::InputTooShort);
        }
        let hs = slice_range(bytes, 0, 4);
        let ws = slice_range(bytes, 4, 8);
        let height = u32_from_le_bytes(hs.as_slice());
        let width = u32_from_le_bytes(ws.as_slice());
        let ghost body = bytes@.subrange(8, len as int);
        assert(hs@ =~= bytes@.subrange(0, 4));
        assert(ws@ =~= bytes@.subrange(4, 8));
        assert((width as int) * (height as int) <= u64::MAX) by (nonlinear_arith)
            requires
                width <= u32::MAX,
                height <= u32::MAX,
        ;
        let n: u64 = (width as u64) * (height as u64);
        let avail: u64 = (len - 8) as u64;
        let lim: usize = if n <= avail { n as usize } else { (len - 8) };
        let mut cells: Vec<Cell> = Vec::new();
        let mut k: usize = 0;
        while k < lim
            invariant
                lim <= len - 8,
                len == bytes@.len(),
                body == bytes@.subrange(8, len as int),
                height == spec_u32_from_le_bytes(bytes@.subrange(0, 4)),
                width == spec_u32_from_le_bytes(bytes@.subrange(4, 8)),
                n as int == (width as int) * (height as int),
                lim as int == if n <= avail { n as int } else { len - 8 },
                avail == len - 8,
                0 <= k <= lim,
                decode_cells(body.subrange(0, k as int)) == Ok::<Seq<Cell>, CellParseError>(cells@),
            decreases lim - k,
        {
            let b = bytes[8 + k];
            proof {
                let sub = body.subrange(0, k + 1);
                assert(sub.drop_last() =~= body.subrange(0, k as int));
                assert(sub.last() == b);
            }
            match Cell::from_byte(b) {
                Ok(c) => {
                    cells.push(c);
                },
                Err(e) => {
                    proof {
                        assert(decode_cells(body.subrange(0, k + 1)) == Err::<Seq<Cell>, CellParseError>(e));
                        lemma_decode_err_extends(body, (k + 1) as int, lim as int);
                        assert(decode_cells(body.subrange(0, lim as int)) == Err::<Seq<Cell>, CellParseError>(e));
                    }
                    return Err(GridParseError::CellParseError(e));
                },
            }
            k = k + 1;
        }
        proof {
            assert(body.subrange(0, k as int) == body.subrange(0, lim as int));
            lemma_decoded_len(body.subrange(0, lim as int));
        }
        if (lim as u64) < n {
            return Err(GridParseError::InputTooShort);
        }
        let next = cells.clone();
        let g = Grid { width: width as usize, height: height as usize, cells, next, marker: 1 };
        proof {
            assert(g.cells@.len() == g.width * g.height) by (nonlinear_arith)
                requires
                    g.cells@.len() == lim,
                    lim as int == n as int,
                    n as int == (width as int) * (height as int),
                    g.width as int == width as int,
                    g.height as int == height as int,
            ;
            assert(g@.cells =~= g.cells@) by {
                assert forall|j: int| 0 <= j < g.cells@.len() implies strip(g.cells@[j]) == g.cells@[j] by {
                    lemma_decoded_unstamped(body.subrange(0, lim as int), j);
                }
            }
        }
        Ok(g)
    }
}

proof fn lemma_decoded_unstamped(b: Seq<u8>, j: int)
    requires
        decode_cells(b) is Ok,
        0 <= j < decode_cells(b)->Ok_0.len(),
    ensures
        decode_cells(b)->Ok_0.len() == b.len(),
        strip(decode_cells(b)->Ok_0[j]) == decode_cells(b)->Ok_0[j],
        is_point(decode_cells(b)->Ok_0[j]) ==> decode_cells(b)->Ok_0[j]->marked == 0,
    decreases b.len(),
{
    let cs = decode_cells(b)->Ok_0;
    if b.len() > 0 {
        let init = decode_cells(b.drop_last())->Ok_0;
        if j < init.len() {
            lemma_decoded_unstamped(b.drop_last(), j);
        } else {
            if j < b.len() - 1 {
                lemma_decoded_unstamped(b.drop_last(), 0);
            }
            lemma_decoded_len(b.drop_last());
        }
        lemma_decoded_len(b.drop_last());
    }
}

proof fn lemma_decode_err_extends(b: Seq<u8>, k: int, m: int)
    requires
        0 <= k <= m <= b.len(),
        decode_cells(b.subrange(0, k)) is Err,
    ensures
        decode_cells(b.subrange(0, m)) == decode_cells(b.subrange(0, k)),
    decreases m - k,
{
    if m > k {
        lemma_decode_err_extends(b, k, m - 1);
        assert(b.subrange(0, m).drop_last() =~= b.subrange(0, m - 1));
    }
}

proof fn lemma_decoded_len(b: Seq<u8>)
    requires
        decode_cells(b) is Ok,
    ensures
        decode_cells(b)->Ok_0.len() == b.len(),
    decreases b.len(),
{
    if b.len() > 0 {
        lemma_decoded_len(b.drop_last());
    }
}

/// A copy of `bytes[lo..hi]`.
fn slice_range(bytes: &[u8], lo: usize, hi: usize) -> (r: Vec<u8>)
    requires
        lo <= hi <= bytes@.len(),
    ensures
        r@ == bytes@.subrange(lo as int, hi as int),
{
    let mut r: Vec<u8> = Vec::new();
    let mut k: usize = lo;
    while k < hi
        invariant
            lo <= k <= hi,
            hi <= bytes@.len(),
            r@ == bytes@.subrange(lo as int, k as int),
        decreases hi - k,
    {
        r.push(bytes[k]);
        k = k + 1;
        assert(r@ =~= bytes@.subrange(lo as int, k as int));
    }
    r
}


proof fn lemma_index_in_range(x: int, y: int, w: int, h: int)
    requires
        0 <= x < w,
        0 <= y < h,
    ensures
        0 <= x + y * w < w * h,
        y * w <= w * h - w,
{
    assert(y * w <= (h - 1) * w) by (nonlinear_arith)
        requires
            0 <= y < h,
            w > 0,
    ;
    assert((h - 1) * w == w * h - w) by (nonlinear_arith);
    assert(0 <= y * w) by (nonlinear_arith)
        requires
            0 <= y,
            w > 0,
    ;
}

impl Grid {
    /// The cell at column `x`, row `y`, if it lies on the grid.
    pub fn get(&self, x: usize, y: usize) -> (r: Option<&Cell>)
        requires
            self.wf(),
        ensures
            r is Some <==> (x < self@.width && y < self@.height),
            r is Some ==> strip(*r->0) == self@.cells[x + y * self@.width],
    {
        if x < self.width && y < self.height {
            proof {
                lemma_index_in_range(x as int, y as int, self.width as int, self.height as int);
            }
            let n = self.cells.len();
            assert(x + y * self.width < n);
            Some(&self.cells[x + y * self.width])
        } else {
            None
        }
    }

    /// Writes `cell` at column `x`, row `y`, as placing, clearing or editing a cell does.
    pub fn set_cell(&mut self, x: usize, y: usize, cell: Cell)
        requires
            old(self).wf(),
            x < old(self)@.width,
            y < old(self)@.height,
        ensures
            final(self).wf(),
            final(self)@.width == old(self)@.width,
            final(self)@.height == old(self)@.height,
            final(self)@.cells == old(self)@.cells.update(x + y * old(self)@.width, strip(cell)),
            final(self).epoch() == old(self).epoch(),
    {
        proof {
            lemma_index_in_range(x as int, y as int, self.width as int, self.height as int);
        }
        let stored = match cell {
            Cell::Point { active, .. } => Cell::Point { active, marked: 0 },
            _ => cell,
        };
        let n = self.cells.len();
        assert(x + y * self.width < n);
        let i = x + y * self.width;
        self.cells.set(i, stored);
        assert(self@.cells =~= old(self)@.cells.update(i as int, strip(cell)));
    }
}

impl PartialEq for Grid {
    /// Two grids are equal when they show the same cells; stamps and scratch space do not count.
    fn eq(&self, other: &Grid) -> (r: bool) {
        if self.width != other.width || self.height != other.height {
            assert(self@.width != other@.width || self@.height != other@.height);
            return false;
        }
        if self.cells.len() != other.cells.len() {
            assert(self@.cells.len() != other@.cells.len());
            return false;
        }
        let n = self.cells.len();
        let mut i: usize = 0;
        while i < n
            invariant
                n == self.cells@.len(),
                n == other.cells@.len(),
                0 <= i <= n,
                forall|k: int| 0 <= k < i ==> strip(self.cells@[k]) == strip(other.cells@[k]),
            decreases n - i,
        {
            let a = self.cells[i].to_byte();
            let b = other.cells[i].to_byte();
            proof {
                lemma_byte_round_trip(self.cells@[i as int]);
                lemma_byte_round_trip(other.cells@[i as int]);
            }
            if a != b {
                assert(self@.cells[i as int] != other@.cells[i as int]);
                return false;
            }
            i = i + 1;
        }
        assert(self@.cells =~= other@.cells);
        true
    }
}

impl vstd::std_specs::cmp::PartialEqSpecImpl for Grid {
    open spec fn obeys_eq_spec() -> bool {
        true
    }

    open spec fn eq_spec(&self, other: &Grid) -> bool {
        self@ == other@
    }
}


/// A Point whose whole component has no fed member is off after a tick.
pub proof fn lemma_undriven_component_off(s: Seq<Cell>, w: int, k: int)
    requires
        0 <= k < s.len(),
        is_point(s[k]),
        forall|r: int|
            0 <= r < s.len() && is_point(s[r]) && connected(w, point_mask(s), r, k) ==> !driven(
                reset(s),
                w,
                r,
            ),
    ensures
        tick(s, w)[k] == (Cell::Point { active: false, marked: s[k]->marked }),
{
}

/// A Point fed by a neighbour switches on in one tick, and with it every Point of its component.
pub proof fn lemma_fed_component_on(s: Seq<Cell>, w: int, r: int, d: Direction, k: int)
    requires
        w > 0,
        0 <= r < s.len(),
        0 <= k < s.len(),
        is_point(s[r]),
        is_point(s[k]),
        fed_from(s, w, r, d),
        !is_point(s[nbr(w, r, d)]),
        connected(w, point_mask(s), r, k),
    ensures
        spec_is_active(tick(s, w)[k]),
{
    let rs = reset(s);
    assert(rs[nbr(w, r, d)] == s[nbr(w, r, d)]);
    assert(fed_from(rs, w, r, d));
    match d {
        Direction::Up => assert(driven(rs, w, r)),
        Direction::Right => assert(driven(rs, w, r)),
        Direction::Down => assert(driven(rs, w, r)),
        Direction::Left => assert(driven(rs, w, r)),
    }
    assert(driven_before(s, w, k, s.len() as int));
}

/// An inverter whose input side is off the grid or Empty is on after a tick.
pub proof fn lemma_unfed_not_on(s: Seq<Cell>, w: int, i: int, direction: Direction, active: bool)
    requires
        0 <= i < s.len(),
        w > 0,
        s[i] == (Cell::Not { active, direction }),
        has_nbr(w, s.len() as int, i, spec_rev(direction)) ==> s[nbr(w, i, spec_rev(direction))] is Empty,
    ensures
        tick(s, w)[i] == (Cell::Not { active: true, direction }),
{
    let p = settle_points(s, w);
    if has_nbr(w, s.len() as int, i, spec_rev(direction)) {
        assert(p[nbr(w, i, spec_rev(direction))] is Empty);
    }
    assert(!fed_from(p, w, i, spec_rev(direction)));
}

/// A gate is on after a tick exactly when both of its orthogonal sides feed it.
pub proof fn lemma_and_needs_both(s: Seq<Cell>, w: int, i: int, direction: Direction, active: bool)
    requires
        0 <= i < s.len(),
        s[i] == (Cell::And { active, direction }),
    ensures
        spec_is_active(tick(s, w)[i]) == (fed_from(settle_points(s, w), w, i, spec_rotate_cw(direction))
            && fed_from(settle_points(s, w), w, i, spec_rotate_ccw(direction))),
{
}

/// A stream shorter than its header, or with fewer cell bytes than the header announces and
/// no bad byte among them, is too short.
pub proof fn lemma_truncated_too_short(b: Seq<u8>)
    requires
        b.len() < 8 || (forall|k: int|
            8 <= k < b.len() ==> #[trigger] spec_from_byte(b[k]) is Ok) && b.len() - 8
            < spec_u32_from_le_bytes(b.subrange(4, 8)) * spec_u32_from_le_bytes(b.subrange(0, 4)),
    ensures
        spec_deserialize(b) == Err::<GridModel, GridParseError>(GridParseError::InputTooShort),
{
    if b.len() >= 8 {
        let body = b.subrange(8, b.len() as int);
        assert(body.subrange(0, body.len() as int) =~= body);
        lemma_decode_all_ok(body);
    }
}

proof fn lemma_decode_all_ok(b: Seq<u8>)
    requires
        forall|k: int| 0 <= k < b.len() ==> #[trigger] spec_from_byte(b[k]) is Ok,
    ensures
        decode_cells(b) is Ok,
    decreases b.len(),
{
    if b.len() > 0 {
        let init = b.drop_last();
        assert forall|k: int| 0 <= k < init.len() implies #[trigger] spec_from_byte(init[k]) is Ok by {
            assert(init[k] == b[k]);
        }
        lemma_decode_all_ok(init);
        assert(spec_from_byte(b[b.len() - 1]) is Ok);
    }
}


/// Walks a grid's cells in row-major order together with their `[x, y]` coordinates.
pub struct GridIterator<'a> {
    grid: &'a Grid,
    i: usize,
}

impl<'a> GridIterator<'a> {
    /// How many cells have been handed out.
    pub closed spec fn position(&self) -> nat {
        self.i as nat
    }

    pub closed spec fn source(&self) -> &'a Grid {
        self.grid
    }

    /// The next cell and its coordinates, or `None` once every cell has been handed out.
    pub fn next(&mut self) -> (r: Option<([usize; 2], Cell)>)
        requires
            old(self).source().wf(),
            old(self).source()@.width > 0,
        ensures
            final(self).source() == old(self).source(),
            ({
                let g = old(self).source()@;
                let i = old(self).position() as int;
                if i < g.cells.len() {
                    &&& r is Some
                    &&& (r->0).0@ == seq![(i % g.width as int) as usize, (i / g.width as int) as usize]
                    &&& strip((r->0).1) == g.cells[i]
                    &&& final(self).position() == i + 1
                } else {
                    r is None && final(self).position() == old(self).position()
                }
            }),
    {
        if self.i < self.grid.cells.len() {
            let i = self.i;
            let w = self.grid.width;
            let c = self.grid.cells[i];
            self.i = i + 1;
            let xy = [i % w, i / w];
            assert(xy@ =~= seq![(i % w) as usize, (i / w) as usize]);
            Some((xy, c))
        } else {
            None
        }
    }
}

impl Grid {
    /// A walk over all cells in row-major order, starting at the first.
    pub fn iter(&self) -> (r: GridIterator<'_>)
        ensures
            r.source() == self,
            r.position() == 0,
    {
        GridIterator { grid: self, i: 0 }
    }
}

} // verus!
