use crate::topology::lemma_flat_index;
use vstd::prelude::*;

verus! {

proof fn lemma_slots_distinct(i: int, h: int, j: int, g: int, n: int, d: int)
    requires
        0 <= i < n,
        0 <= j < n,
        0 <= h < d,
        0 <= g < d,
        i != j || h != g,
    ensures
        i * d + h != j * d + g,
{
    lemma_flat_index(i, h, n, d);
    lemma_flat_index(j, g, n, d);
    if i == j {
    } else {
        assert(i * d + h != j * d + g);
    }
}

/// For each of `size` nodes, the values it committed over the last `depth`
/// ticks, newest first: slot `h` of a node holds its value from `h` ticks ago.
pub struct History<T> {
    size: usize,
    depth: usize,
    buf: Vec<T>,
}

impl<T: Copy> History<T> {
    pub closed spec fn node_count(&self) -> nat {
        self.size as nat
    }

    pub closed spec fn slot_count(&self) -> nat {
        self.depth as nat
    }

    /// The value of node `i` from `h` ticks ago.
    pub closed spec fn at(&self, i: int, h: int) -> T {
        self.buf@[i * self.depth + h]
    }

    pub closed spec fn wf(&self) -> bool {
        &&& self.depth >= 1
        &&& self.buf@.len() == self.size * self.depth
        &&& self.size * self.depth <= usize::MAX
    }

    /// A well-formed history keeps at least the newest value of each node.
    pub proof fn lemma_has_newest(&self)
        requires
            self.wf(),
        ensures
            self.slot_count() >= 1,
    {
    }

    /// A history in which every slot of node `i` holds `init[i]`.
    pub fn new(init: &Vec<T>, depth: usize) -> (r: History<T>)
        requires
            depth >= 1,
            init@.len() * depth <= usize::MAX,
        ensures
            r.wf(),
            r.node_count() == init@.len(),
            r.slot_count() == depth,
            forall|i: int, h: int|
                0 <= i < init@.len() && 0 <= h < depth ==> #[trigger] r.at(i, h) == init@[i],
    {
        let n = init.len();
        let mut buf: Vec<T> = Vec::new();
        let mut i: usize = 0;
        while i < n
            invariant
                i <= n,
                n == init@.len(),
                depth >= 1,
                n * depth <= usize::MAX,
                buf@.len() == i * depth,
                forall|j: int, h: int|
                    0 <= j < i && 0 <= h < depth ==> #[trigger] buf@[j * depth + h] == init@[j],
            decreases n - i,
        {
            let ghost base = i * depth;
            let v = init[i];
            let mut h: usize = 0;
            while h < depth
                invariant
                    i < n,
                    h <= depth,
                    base == i * depth,
                    v == init@[i as int],
                    buf@.len() == base + h,
                    forall|j: int, g: int|
                        0 <= j < i && 0 <= g < depth ==> #[trigger] buf@[j * depth + g] == init@[j],
                    forall|g: int| 0 <= g < h ==> #[trigger] buf@[base + g] == v,
                decreases depth - h,
            {
                let ghost pre = buf@;
                buf.push(v);
                assert forall|j: int, g: int|
                    0 <= j < i && 0 <= g < depth implies #[trigger] buf@[j * depth + g] == init@[j] by {
                    lemma_flat_index(j, g, i as int, depth as int);
                    assert(buf@[j * depth + g] == pre[j * depth + g]);
                }
                assert forall|g: int| 0 <= g < h + 1 implies #[trigger] buf@[base + g] == v by {
                    if g < h {
                        assert(buf@[base + g] == pre[base + g]);
                    }
                }
                h = h + 1;
            }
            assert forall|j: int, g: int|
                0 <= j < i + 1 && 0 <= g < depth implies #[trigger] buf@[j * depth + g] == init@[j] by {
                if j == i {
                    assert(buf@[base + g] == v);
                }
            }
            assert(buf@.len() == (i + 1) * depth) by (nonlinear_arith)
                requires
                    buf@.len() == i * depth + depth,
            ;
            i = i + 1;
        }
        History { size: n, depth, buf }
    }

    pub fn size(&self) -> (r: usize)
        ensures
            r == self.node_count(),
    {
        self.size
    }

    pub fn depth(&self) -> (r: usize)
        ensures
            r == self.slot_count(),
    {
        self.depth
    }

    /// The value of node `i` from `h` ticks ago.
    pub fn get(&self, i: usize, h: usize) -> (r: T)
        requires
            self.wf(),
            i < self.node_count(),
            h < self.slot_count(),
        ensures
            r == self.at(i as int, h as int),
    {
        proof {
            lemma_flat_index(i as int, h as int, self.size as int, self.depth as int);
        }
        self.buf[i * self.depth + h]
    }

    /// Overwrites every slot of node `i` with `v`; other nodes keep theirs.
    pub fn reset_node(&mut self, i: usize, v: T)
        requires
            old(self).wf(),
            i < old(self).node_count(),
        ensures
            final(self).wf(),
            final(self).node_count() == old(self).node_count(),
            final(self).slot_count() == old(self).slot_count(),
            forall|j: int, h: int|
                0 <= j < old(self).node_count() && 0 <= h < old(self).slot_count() ==> #[trigger] final(self).at(j, h) == if j == i {
                    v
                } else {
                    old(self).at(j, h)
                },
    {
        let ghost pre = *self;
        let n = self.size;
        let d = self.depth;
        let mut h: usize = 0;
        while h < d
            invariant
                h <= d,
                self.wf(),
                i < n,
                n == self.size,
                d == self.depth,
                self.size == pre.size,
                self.depth == pre.depth,
                forall|j: int, g: int|
                    0 <= j < n && 0 <= g < d ==> #[trigger] self.at(j, g) == if j == i && g < h {
                        v
                    } else {
                        pre.at(j, g)
                    },
            decreases d - h,
        {
            let ghost mid = *self;
            proof {
                lemma_flat_index(i as int, h as int, n as int, d as int);
            }
            self.buf.set(i * d + h, v);
            assert forall|j: int, g: int| 0 <= j < n && 0 <= g < d implies #[trigger] self.at(j, g)
                == if j == i && g < h + 1 {
                v
            } else {
                pre.at(j, g)
            } by {
                if j != i || g != h {
                    lemma_slots_distinct(j, g, i as int, h as int, n as int, d as int);
                    lemma_flat_index(j, g, n as int, d as int);
                    assert(self.at(j, g) == mid.at(j, g));
                }
            }
            h = h + 1;
        }
    }

    /// Ends a tick: every node's history moves back one slot, dropping the
    /// oldest value, and `next[i]` becomes node `i`'s newest value.
    pub fn commit(&mut self, next: &Vec<T>)
        requires
            old(self).wf(),
            next@.len() == old(self).node_count(),
        ensures
            final(self).wf(),
            final(self).node_count() == old(self).node_count(),
            final(self).slot_count() == old(self).slot_count(),
            forall|j: int, h: int|
                0 <= j < old(self).node_count() && 0 <= h < old(self).slot_count() ==> #[trigger] final(self).at(j, h) == if h == 0 {
                    next@[j]
                } else {
                    old(self).at(j, h - 1)
                },
    {
        let ghost pre = *self;
        let n = self.size;
        let d = self.depth;
        let mut i: usize = 0;
        while i < n
            invariant
                i <= n,
                self.wf(),
                n == self.size,
                d == self.depth,
                self.size == pre.size,
                self.depth == pre.depth,
                next@.len() == n,
                forall|j: int, g: int|
                    0 <= j < n && 0 <= g < d ==> #[trigger] self.at(j, g) == if j < i {
                        if g == 0 {
                            next@[j]
                        } else {
                            pre.at(j, g - 1)
                        }
                    } else {
                        pre.at(j, g)
                    },
            decreases n - i,
        {
            let mut h: usize = d - 1;
            while h > 0
                invariant
                    h < d,
                    i < n,
                    self.wf(),
                    n == self.size,
                    d == self.depth,
                    self.size == pre.size,
                    self.depth == pre.depth,
                    next@.len() == n,
                    forall|j: int, g: int|
                        0 <= j < n && 0 <= g < d ==> #[trigger] self.at(j, g) == if j < i {
                            if g == 0 {
                                next@[j]
                            } else {
                                pre.at(j, g - 1)
                            }
                        } else if j == i && g > h {
                            pre.at(j, g - 1)
                        } else {
                            pre.at(j, g)
                        },
                decreases h,
            {
                let ghost mid = *self;
                proof {
                    lemma_flat_index(i as int, h as int, n as int, d as int);
                    lemma_flat_index(i as int, (h - 1) as int, n as int, d as int);
                }
                let v = self.buf[i * d + h - 1];
                assert(v == mid.at(i as int, h - 1));
                self.buf.set(i * d + h, v);
                assert forall|j: int, g: int| 0 <= j < n && 0 <= g < d implies #[trigger] self.at(j, g)
                    == if j < i {
                    if g == 0 {
                        next@[j]
                    } else {
                        pre.at(j, g - 1)
                    }
                } else if j == i && g > h - 1 {
                    pre.at(j, g - 1)
                } else {
                    pre.at(j, g)
                } by {
                    if j != i || g != h {
                        lemma_slots_distinct(j, g, i as int, h as int, n as int, d as int);
                        lemma_flat_index(j, g, n as int, d as int);
                        assert(self.at(j, g) == mid.at(j, g));
                    }
                }
                h = h - 1;
            }
            let ghost mid = *self;
            proof {
                lemma_flat_index(i as int, 0, n as int, d as int);
            }
            self.buf.set(i * d, next[i]);
            assert forall|j: int, g: int| 0 <= j < n && 0 <= g < d implies #[trigger] self.at(j, g)
                == if j < i + 1 {
                if g == 0 {
                    next@[j]
                } else {
                    pre.at(j, g - 1)
                }
            } else {
                pre.at(j, g)
            } by {
                if j != i || g != 0 {
                    lemma_slots_distinct(j, g, i as int, 0, n as int, d as int);
                    lemma_flat_index(j, g, n as int, d as int);
                    assert(self.at(j, g) == mid.at(j, g));
                } else {
                    assert(i * d + 0 == i * d);
                }
            }
            i = i + 1;
        }
    }
}

} // verus!
