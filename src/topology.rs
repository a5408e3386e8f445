use crate::rng::{lcg_draw, lcg_state, Lcg};
use vstd::prelude::*;

verus! {

/// Out-degree of every node in a network large enough to have it.
pub const CONNECTIONS_PER_OSC: usize = 40;

/// Delay, in ticks, of every synapse whose network keeps enough history.
pub const DEFAULT_DELAY: usize = 2;

/// `2^53`: a 53-bit draw `b` stands for the fraction `b / 2^53`.
pub const DRAW_SCALE: u128 = 0x20_0000_0000_0000;

/// Out-degree of a network of `size` nodes: `CONNECTIONS_PER_OSC`, or fewer
/// where there are not that many other nodes.
pub open spec fn degree_for(size: nat) -> nat {
    if size == 0 {
        0
    } else if size - 1 < CONNECTIONS_PER_OSC {
        (size - 1) as nat
    } else {
        CONNECTIONS_PER_OSC as nat
    }
}

/// Delay of every synapse when history reaches back `max_delay` ticks.
pub open spec fn delay_for(max_delay: nat) -> nat {
    if max_delay < DEFAULT_DELAY {
        max_delay
    } else {
        DEFAULT_DELAY as nat
    }
}

/// The target that draw `bits` picks for a synapse of node `i`: the draw
/// scaled to `[0, size)`, moved on by one where it would point back at `i`.
pub open spec fn pick(i: nat, bits: u64, size: nat) -> nat {
    let t = (bits as nat * size) / DRAW_SCALE as nat;
    if t == i {
        (t + 1) % size
    } else {
        t
    }
}

/// Whether `t` is unavailable as a further target of node `i` whose earlier
/// targets are `row`.
pub open spec fn excluded(row: Seq<usize>, i: nat, t: nat) -> bool {
    t == i || row.contains(t as usize)
}

/// Linear probing: from `t`, the first node (cyclically, within `steps`
/// moves) that is not excluded.
pub open spec fn probe(row: Seq<usize>, i: nat, t: nat, size: nat, steps: nat) -> nat
    decreases steps,
{
    if steps == 0 || !excluded(row, i, t) {
        t
    } else {
        probe(row, i, (t + 1) % size, size, (steps - 1) as nat)
    }
}

/// The target of synapse `c` of node `i`, given the node's earlier targets
/// `row` and the synapse's draw: the draw's pick, moved on past nodes
/// already taken.
#[verifier::opaque]
pub open spec fn choose_target(row: Seq<usize>, i: nat, bits: u64, size: nat) -> nat {
    probe(row, i, pick(i, bits, size), size, size)
}

/// Entry `j * d + g` of a flat table.
pub open spec fn slot(s: Seq<usize>, d: int, j: int, g: int) -> usize {
    s[j * d + g]
}

/// The entries of row `j` of a flat table before column `g`.
pub open spec fn row_of(s: Seq<usize>, d: int, j: int, g: int) -> Seq<usize> {
    s.subrange(j * d, j * d + g)
}

/// Some node other than `i` is not among `row`, while `row` has fewer than
/// `size - 1` entries.
proof fn lemma_free_node(row: Seq<usize>, i: int, size: int) -> (x: int)
    requires
        0 <= i < size,
        size <= usize::MAX,
        row.len() + 1 < size,
    ensures
        0 <= x < size,
        !excluded(row, i as nat, x as nat),
{
    broadcast use vstd::seq_lib::seq_to_set_is_finite;
    let ints = row.map_values(|v: usize| v as int);
    let e = ints.to_set().insert(i);
    if forall|x: nat| x < size ==> #[trigger] excluded(row, i as nat, x) {
        assert(vstd::set_lib::set_int_range(0, size).subset_of(e)) by {
            assert forall|x: int| #[trigger] vstd::set_lib::set_int_range(0, size).contains(x) implies e.contains(x) by {
                assert(excluded(row, i as nat, x as nat));
                if x != i {
                    assert(row.contains(x as usize));
                    let k = choose|k: int| 0 <= k < row.len() && row[k] == x as usize;
                    assert(ints[k] == x);
                }
            }
        }
        vstd::set_lib::lemma_int_range(0, size);
        ints.lemma_cardinality_of_set();
        vstd::set_lib::lemma_len_subset(vstd::set_lib::set_int_range(0, size), e);
        assert(false);
    }
    let x = choose|x: nat| x < size && !#[trigger] excluded(row, i as nat, x);
    x as int
}

pub(crate) proof fn lemma_flat_index(i: int, c: int, n: int, d: int)
    requires
        0 <= i < n,
        0 <= c < d,
    ensures
        0 <= i * d + c < n * d,
        (i * d + c) / d == i,
{
    assert(0 <= i * d + c < n * d) by (nonlinear_arith)
        requires
            0 <= i < n,
            0 <= c < d,
    ;
    vstd::arithmetic::div_mod::lemma_fundamental_div_mod_converse(i * d + c, d, i, c);
}

/// The target that draw `bits` picks for a synapse of node `i`.
fn pick_target(i: usize, bits: u64, size: usize) -> (t: usize)
    requires
        i < size,
        size >= 2,
        bits < DRAW_SCALE,
    ensures
        t == pick(i as nat, bits, size as nat),
        t < size,
        t != i,
{
    assert(bits as u128 * size as u128 <= DRAW_SCALE * 0x1_0000_0000_0000_0000) by (nonlinear_arith)
        requires
            bits < DRAW_SCALE,
            size <= usize::MAX,
    ;
    let prod: u128 = bits as u128 * size as u128;
    assert(prod / DRAW_SCALE < size) by (nonlinear_arith)
        requires
            prod == bits * size,
            bits < DRAW_SCALE,
            size > 0,
    ;
    let t: usize = (prod / DRAW_SCALE) as usize;
    if t == i {
        if t + 1 < size {
            assert((t + 1) as int % size as int == t + 1) by {
                vstd::arithmetic::div_mod::lemma_small_mod((t + 1) as nat, size as nat);
            }
        } else {
            assert((t + 1) as int % size as int == 0) by {
                vstd::arithmetic::div_mod::lemma_mod_self_0(size as int);
            }
        }
        (t + 1) % size
    } else {
        t
    }
}

proof fn lemma_rows_agree(a: Topology, b: Topology, seed: u64, max_delay: nat, i: int, c: int)
    requires
        a.drawn_from(seed, max_delay),
        b.drawn_from(seed, max_delay),
        a.wf(),
        b.wf(),
        a.node_count() == b.node_count(),
        0 <= i < a.node_count(),
        0 <= c <= a.out_degree(),
    ensures
        a.row(i, c) == b.row(i, c),
        forall|g: int| 0 <= g < c ==> #[trigger] a.target_of(i, g) == b.target_of(i, g),
    decreases c,
{
    let d = a.degree as int;
    assert(a.degree == b.degree);
    if c > 0 {
        lemma_rows_agree(a, b, seed, max_delay, i, c - 1);
        lemma_flat_index(i, c - 1, a.size as int, d);
        assert(a.target_of(i, c - 1) == b.target_of(i, c - 1));
        assert forall|g: int| 0 <= g < c implies #[trigger] a.row(i, c)[g] == b.row(i, c)[g] by {
            if g < c - 1 {
                assert(a.row(i, c)[g] == a.row(i, c - 1)[g]);
                assert(b.row(i, c)[g] == b.row(i, c - 1)[g]);
            } else {
                assert(a.row(i, c)[g] == slot(a.targets@, d, i, g));
                assert(b.row(i, c)[g] == slot(b.targets@, d, i, g));
            }
        }
        assert(a.row(i, c) =~= b.row(i, c));
    } else {
        assert(i * d <= a.size * d) by (nonlinear_arith)
            requires
                0 <= i < a.size,
                d >= 0,
        ;
        assert(a.row(i, c) =~= b.row(i, c));
    }
}

/// Two networks of the same size built from the same seed and history
/// depth have the same edges and delays.
pub proof fn lemma_same_seed_same_topology(a: Topology, b: Topology, seed: u64, max_delay: nat)
    requires
        a.drawn_from(seed, max_delay),
        b.drawn_from(seed, max_delay),
        a.wf(),
        b.wf(),
        a.node_count() == b.node_count(),
    ensures
        a.out_degree() == b.out_degree(),
        forall|i: int, c: int|
            0 <= i < a.node_count() && 0 <= c < a.out_degree() ==> #[trigger] a.target_of(i, c)
                == b.target_of(i, c) && a.delay_of(i, c) == b.delay_of(i, c),
{
    assert forall|i: int, c: int|
        0 <= i < a.node_count() && 0 <= c < a.out_degree() implies #[trigger] a.target_of(i, c)
            == b.target_of(i, c) && a.delay_of(i, c) == b.delay_of(i, c) by {
        lemma_rows_agree(a, b, seed, max_delay, i, c + 1);
        assert(a.target_of(i, c) == b.target_of(i, c));
        assert(a.delay_of(i, c) == delay_for(max_delay));
        assert(b.delay_of(i, c) == delay_for(max_delay));
    }
}

/// Whether `t` is among entries `base .. base + c` of `targets`.
fn row_contains(targets: &Vec<usize>, base: usize, c: usize, t: usize) -> (r: bool)
    requires
        base + c <= targets@.len(),
        base + c <= usize::MAX,
    ensures
        r == targets@.subrange(base as int, base + c).contains(t),
{
    let ghost row = targets@.subrange(base as int, base + c);
    let mut g: usize = 0;
    while g < c
        invariant
            g <= c,
            base + c <= targets@.len(),
            base + c <= usize::MAX,
            row == targets@.subrange(base as int, base + c),
            forall|h: int| 0 <= h < g ==> row[h] != t,
        decreases c - g,
    {
        if targets[base + g] == t {
            assert(row[g as int] == t);
            return true;
        }
        g = g + 1;
    }
    false
}

/// Probes from `t` to the first node that is neither `i` nor among entries
/// `base .. base + c` of `targets`.
fn next_free(targets: &Vec<usize>, base: usize, c: usize, i: usize, t: usize, size: usize) -> (r: usize)
    requires
        base + c <= targets@.len(),
        base + c <= usize::MAX,
        i < size,
        t < size,
        c + 1 < size,
    ensures
        r == probe(targets@.subrange(base as int, base + c), i as nat, t as nat, size as nat, size as nat),
        r < size,
        !excluded(targets@.subrange(base as int, base + c), i as nat, r as nat),
{
    let ghost row = targets@.subrange(base as int, base + c);
    let ghost x = lemma_free_node(row, i as int, size as int);
    let mut cur = t;
    let ghost mut k: nat = 0;
    while cur == i || row_contains(targets, base, c, cur)
        invariant
            base + c <= targets@.len(),
            base + c <= usize::MAX,
            row == targets@.subrange(base as int, base + c),
            i < size,
            cur < size,
            0 <= x < size,
            !excluded(row, i as nat, x as nat),
            k + (if x >= cur { x - cur } else { x + size - cur }) < size,
            probe(row, i as nat, t as nat, size as nat, size as nat) == probe(
                row,
                i as nat,
                cur as nat,
                size as nat,
                (size - k) as nat,
            ),
        decreases (if x >= cur { x - cur } else { x + size - cur }),
    {
        assert(excluded(row, i as nat, cur as nat));
        assert(cur != x);
        let nxt = if cur + 1 == size { 0 } else { cur + 1 };
        assert(nxt as nat == (cur as nat + 1) % (size as nat)) by {
            if cur + 1 < size {
                vstd::arithmetic::div_mod::lemma_small_mod((cur + 1) as nat, size as nat);
            } else {
                vstd::arithmetic::div_mod::lemma_mod_self_0(size as int);
            }
        }
        proof {
            k = k + 1;
        }
        cur = nxt;
    }
    cur
}

/// Which node each synapse points at, and with what delay. Fixed once built:
/// synapse `c` of node `i` is entry `i * degree + c`.
pub struct Topology {
    size: usize,
    degree: usize,
    targets: Vec<usize>,
    delays: Vec<usize>,
}

impl Topology {
    pub closed spec fn node_count(&self) -> nat {
        self.size as nat
    }

    pub closed spec fn out_degree(&self) -> nat {
        self.degree as nat
    }

    /// Target of synapse `c` of node `i`.
    pub closed spec fn target_of(&self, i: int, c: int) -> nat {
        slot(self.targets@, self.degree as int, i, c) as nat
    }

    /// Targets of node `i`'s synapses before synapse `c`.
    pub closed spec fn row(&self, i: int, c: int) -> Seq<usize> {
        row_of(self.targets@, self.degree as int, i, c)
    }

    /// Delay of synapse `c` of node `i`.
    pub closed spec fn delay_of(&self, i: int, c: int) -> nat {
        self.delays@[i * self.degree + c] as nat
    }

    /// Every edge is the one that a generator seeded with `seed` picks, and
    /// every delay the one that `max_delay` allows.
    pub open spec fn drawn_from(&self, seed: u64, max_delay: nat) -> bool {
        forall|i: int, c: int|
            0 <= i < self.node_count() && 0 <= c < self.out_degree() ==> {
                &&& #[trigger] self.target_of(i, c) == choose_target(
                    self.row(i, c),
                    i as nat,
                    lcg_draw(seed, (i * self.out_degree() + c) as nat),
                    self.node_count(),
                )
                &&& self.delay_of(i, c) == delay_for(max_delay)
            }
    }

    /// Each node's targets are other nodes, all different.
    pub closed spec fn wf(&self) -> bool {
        &&& self.degree == degree_for(self.size as nat)
        &&& self.size * self.degree <= usize::MAX
        &&& self.targets@.len() == self.size * self.degree
        &&& self.delays@.len() == self.size * self.degree
        &&& forall|i: int, c: int|
            0 <= i < self.size && 0 <= c < self.degree ==> {
                &&& #[trigger] self.target_of(i, c) < self.size
                &&& self.target_of(i, c) != i
            }
        &&& forall|i: int, c: int, e: int|
            0 <= i < self.size && 0 <= c < self.degree && 0 <= e < self.degree && c != e
                ==> #[trigger] self.target_of(i, c) != #[trigger] self.target_of(i, e)
    }

    /// Every node's targets are other nodes of the network, all different.
    pub proof fn lemma_targets_valid(&self)
        requires
            self.wf(),
        ensures
            forall|i: int, c: int|
                0 <= i < self.node_count() && 0 <= c < self.out_degree() ==> {
                    &&& #[trigger] self.target_of(i, c) < self.node_count()
                    &&& self.target_of(i, c) != i
                },
            forall|i: int, c: int, e: int|
                0 <= i < self.node_count() && 0 <= c < self.out_degree() && 0 <= e
                    < self.out_degree() && c != e ==> #[trigger] self.target_of(i, c)
                    != #[trigger] self.target_of(i, e),
    {
    }

    /// Samples the edges of a network of `size` nodes whose history reaches
    /// back `max_delay` ticks, drawing once per synapse, node by node.
    pub fn new(size: usize, max_delay: usize, rng: &mut Lcg) -> (r: Topology)
        requires
            size * CONNECTIONS_PER_OSC <= usize::MAX,
        ensures
            r.wf(),
            r.node_count() == size,
            r.out_degree() == degree_for(size as nat),
            r.drawn_from(old(rng).state, max_delay as nat),
            forall|i: int, c: int|
                0 <= i < size && 0 <= c < r.out_degree() ==> {
                    &&& #[trigger] r.target_of(i, c) < size
                    &&& r.target_of(i, c) != i
                },
            forall|i: int, c: int, e: int|
                0 <= i < size && 0 <= c < r.out_degree() && 0 <= e < r.out_degree() && c != e
                    ==> #[trigger] r.target_of(i, c) != #[trigger] r.target_of(i, e),
            final(rng).state == lcg_state(old(rng).state, size as nat * r.out_degree()),
    {
        let ghost seed = rng.state;
        let degree: usize = if size == 0 {
            0
        } else if size - 1 < CONNECTIONS_PER_OSC {
            size - 1
        } else {
            CONNECTIONS_PER_OSC
        };
        let delay: usize = if max_delay < DEFAULT_DELAY {
            max_delay
        } else {
            DEFAULT_DELAY
        };
        assert(size * degree <= size * CONNECTIONS_PER_OSC) by (nonlinear_arith)
            requires
                degree <= CONNECTIONS_PER_OSC,
        ;
        let ghost d = degree as int;
        let mut targets: Vec<usize> = Vec::new();
        let mut delays: Vec<usize> = Vec::new();
        let mut i: usize = 0;
        while i < size
            invariant
                i <= size,
                degree == degree_for(size as nat),
                d == degree,
                delay == delay_for(max_delay as nat),
                size * degree <= usize::MAX,
                targets@.len() == i * degree,
                delays@.len() == i * degree,
                rng.state == lcg_state(seed, targets@.len() as nat),
                forall|j: int, g: int|
                    0 <= j && 0 <= g < d && j * d + g < targets@.len() ==> {
                        &&& #[trigger] slot(targets@, d, j, g) as nat == choose_target(
                            row_of(targets@, d, j, g),
                            j as nat,
                            lcg_draw(seed, (j * d + g) as nat),
                            size as nat,
                        )
                        &&& slot(targets@, d, j, g) < size
                        &&& slot(targets@, d, j, g) != j
                        &&& !row_of(targets@, d, j, g).contains(slot(targets@, d, j, g))
                        &&& delays@[j * d + g] == delay
                    },
            decreases size - i,
        {
            let ghost base_g = i * degree;
            proof {
                assert(i * degree + degree <= size * degree) by (nonlinear_arith)
                    requires
                        i < size,
                ;
            }
            let base: usize = i * degree;
            let mut c: usize = 0;
            while c < degree
                invariant
                    i < size,
                    c <= degree,
                    base == i * degree,
                    base + degree <= size * degree,
                    d == degree,
                    degree == degree_for(size as nat),
                    delay == delay_for(max_delay as nat),
                    size * degree <= usize::MAX,
                    targets@.len() == base + c,
                    delays@.len() == base + c,
                    rng.state == lcg_state(seed, targets@.len() as nat),
                    forall|j: int, g: int|
                        0 <= j && 0 <= g < d && j * d + g < targets@.len() ==> {
                            &&& #[trigger] slot(targets@, d, j, g) as nat == choose_target(
                                row_of(targets@, d, j, g),
                                j as nat,
                                lcg_draw(seed, (j * d + g) as nat),
                                size as nat,
                            )
                            &&& slot(targets@, d, j, g) < size
                            &&& slot(targets@, d, j, g) != j
                            &&& !row_of(targets@, d, j, g).contains(slot(targets@, d, j, g))
                            &&& delays@[j * d + g] == delay
                        },
                decreases degree - c,
            {
                let ghost k = targets@.len() as int;
                let bits = rng.next_bits();
                assert(bits == lcg_draw(seed, k as nat));
                let t0 = pick_target(i, bits, size);
                let t = next_free(&targets, base, c, i, t0, size);
                proof {
                    reveal(choose_target);
                }
                let ghost old_t = targets@;
                let ghost old_d = delays@;
                assert(row_of(old_t, d, i as int, c as int) == old_t.subrange(base as int, base + c));
                targets.push(t);
                delays.push(delay);
                assert forall|j: int, g: int|
                    0 <= j && 0 <= g < d && j * d + g < targets@.len() implies {
                        &&& #[trigger] slot(targets@, d, j, g) as nat == choose_target(
                            row_of(targets@, d, j, g),
                            j as nat,
                            lcg_draw(seed, (j * d + g) as nat),
                            size as nat,
                        )
                        &&& slot(targets@, d, j, g) < size
                        &&& slot(targets@, d, j, g) != j
                        &&& !row_of(targets@, d, j, g).contains(slot(targets@, d, j, g))
                        &&& delays@[j * d + g] == delay
                    } by {
                    if j * d + g == k {
                        assert(j == i && g == c) by {
                            if j != i || g != c {
                                lemma_flat_index(i as int, c as int, (i + 1) as int, d);
                                if j < i + 1 {
                                    crate::topology::lemma_flat_index(j, g, (i + 1) as int, d);
                                    assert(j == i) by (nonlinear_arith)
                                        requires
                                            j * d + g == i * d + c,
                                            0 <= g < d,
                                            0 <= c < d,
                                            0 <= j,
                                            0 <= i,
                                    ;
                                } else {
                                    assert(j * d >= (i + 1) * d) by (nonlinear_arith)
                                        requires
                                            j >= i + 1,
                                            d >= 0,
                                    ;
                                    assert(false) by (nonlinear_arith)
                                        requires
                                            j * d >= (i + 1) * d,
                                            j * d + g == i * d + c,
                                            0 <= g,
                                            c < d,
                                    ;
                                }
                            }
                        }
                        assert(row_of(targets@, d, j, g) =~= row_of(old_t, d, i as int, c as int));
                    } else {
                        assert(slot(targets@, d, j, g) == slot(old_t, d, j, g));
                        assert(row_of(targets@, d, j, g) =~= row_of(old_t, d, j, g));
                        assert(delays@[j * d + g] == old_d[j * d + g]);
                    }
                }
                c = c + 1;
            }
            assert(targets@.len() == (i + 1) * degree) by (nonlinear_arith)
                requires
                    targets@.len() == i * degree + degree,
            ;
            i = i + 1;
        }
        let r = Topology { size, degree, targets, delays };
        assert forall|i: int, c: int| 0 <= i < size && 0 <= c < degree implies {
            &&& #[trigger] r.target_of(i, c) == choose_target(
                r.row(i, c),
                i as nat,
                lcg_draw(seed, (i * degree + c) as nat),
                size as nat,
            )
            &&& r.target_of(i, c) < size
            &&& r.target_of(i, c) != i
            &&& r.delay_of(i, c) == delay_for(max_delay as nat)
        } by {
            lemma_flat_index(i, c, size as int, degree as int);
        }
        assert forall|i: int, c: int, e: int|
            0 <= i < size && 0 <= c < degree && 0 <= e < degree && c != e
                implies #[trigger] r.target_of(i, c) != #[trigger] r.target_of(i, e) by {
            let (lo, hi) = if c < e { (c, e) } else { (e, c) };
            lemma_flat_index(i, hi, size as int, degree as int);
            lemma_flat_index(i, lo, size as int, degree as int);
            let rw = row_of(r.targets@, d, i, hi);
            assert(rw[lo] == slot(r.targets@, d, i, lo));
            assert(!rw.contains(slot(r.targets@, d, i, hi)));
        }
        assert(r.drawn_from(seed, max_delay as nat));
        r
    }

    pub fn size(&self) -> (r: usize)
        ensures
            r == self.node_count(),
    {
        self.size
    }

    pub fn degree(&self) -> (r: usize)
        ensures
            r == self.out_degree(),
    {
        self.degree
    }

    /// Target of synapse `c` of node `i`.
    pub fn target(&self, i: usize, c: usize) -> (r: usize)
        requires
            self.wf(),
            i < self.node_count(),
            c < self.out_degree(),
        ensures
            r == self.target_of(i as int, c as int),
            r < self.node_count(),
            r != i,
    {
        proof {
            lemma_flat_index(i as int, c as int, self.size as int, self.degree as int);
        }
        assert(self.target_of(i as int, c as int) < self.size);
        self.targets[i * self.degree + c]
    }

    /// Delay of synapse `c` of node `i`.
    pub fn delay(&self, i: usize, c: usize) -> (r: usize)
        requires
            self.wf(),
            i < self.node_count(),
            c < self.out_degree(),
        ensures
            r == self.delay_of(i as int, c as int),
    {
        proof {
            lemma_flat_index(i as int, c as int, self.size as int, self.degree as int);
        }
        self.delays[i * self.degree + c]
    }
}

} // verus!
