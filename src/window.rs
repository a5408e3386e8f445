use vstd::prelude::*;

verus! {

/// Largest window that the statistics below can hold without overflow.
pub const MAX_WINDOW: usize = 65536;

/// Sum of a sequence of samples.
pub open spec fn seq_sum(s: Seq<i32>) -> int
    decreases s.len(),
{
    if s.len() == 0 {
        0
    } else {
        seq_sum(s.drop_last()) + s.last() as int
    }
}

/// Sum of the squares of a sequence of samples.
pub open spec fn seq_sum_sq(s: Seq<i32>) -> int
    decreases s.len(),
{
    if s.len() == 0 {
        0
    } else {
        seq_sum_sq(s.drop_last()) + s.last() as int * s.last() as int
    }
}

/// The last `min(s.len(), w)` elements of `s`.
pub open spec fn trailing(s: Seq<i32>, w: nat) -> Seq<i32> {
    if s.len() <= w {
        s
    } else {
        s.subrange(s.len() - w, s.len() as int)
    }
}

/// Whether samples `s` count as settled: with `n` samples, mean `m` and
/// population variance `v` (in the samples' own units, squared),
/// `v < eps + (scale / 1000) * |m|`, where a sample unit is a thousandth and
/// `eps` is given in whole units squared. Multiplied out by `n^2` and the
/// unit factors, this is the integer comparison below.
pub open spec fn settled(s: Seq<i32>, eps: int, scale_milli: int) -> bool {
    let n = s.len() as int;
    let sum = seq_sum(s);
    let abs_sum = if sum < 0 { -sum } else { sum };
    n * seq_sum_sq(s) - sum * sum < eps * 1_000_000 * n * n + scale_milli * abs_sum * n
}

proof fn lemma_constant_sums(s: Seq<i32>, e: i32)
    requires
        forall|k: int| 0 <= k < s.len() ==> s[k] == e,
    ensures
        seq_sum(s) == s.len() * e,
        seq_sum_sq(s) == s.len() * (e * e),
    decreases s.len(),
{
    if s.len() > 0 {
        lemma_constant_sums(s.drop_last(), e);
        assert(seq_sum_sq(s) == (s.len() - 1) * (e * e) + e * e);
        assert((s.len() - 1) * (e * e) + e * e == s.len() * (e * e)) by (nonlinear_arith);
        assert((s.len() - 1) * e + e == s.len() * e) by (nonlinear_arith);
    }
}

/// Samples that are all equal have zero variance, so they always count as
/// settled when the variance floor is positive.
pub proof fn lemma_constant_samples_settle(s: Seq<i32>, e: i32, eps: int, scale_milli: int)
    requires
        s.len() > 0,
        forall|k: int| 0 <= k < s.len() ==> s[k] == e,
        eps > 0,
        scale_milli >= 0,
    ensures
        settled(s, eps, scale_milli),
{
    lemma_constant_sums(s, e);
    let n = s.len() as int;
    let sum = seq_sum(s);
    let abs_sum = if sum < 0 { -sum } else { sum };
    assert(n * (n * (e * e)) - (n * e) * (n * e) == 0) by (nonlinear_arith);
    assert(eps * 1_000_000 * n * n + scale_milli * abs_sum * n > 0) by (nonlinear_arith)
        requires
            n > 0,
            eps > 0,
            scale_milli >= 0,
            abs_sum >= 0,
    ;
}

proof fn lemma_sum_drop_first(s: Seq<i32>)
    requires
        s.len() > 0,
    ensures
        seq_sum(s) == s[0] as int + seq_sum(s.drop_first()),
        seq_sum_sq(s) == s[0] as int * s[0] as int + seq_sum_sq(s.drop_first()),
    decreases s.len(),
{
    if s.len() > 1 {
        lemma_sum_drop_first(s.drop_last());
        assert(s.drop_last().drop_first() =~= s.drop_first().drop_last());
    } else {
        assert(s.drop_last() =~= Seq::<i32>::empty());
        assert(s.drop_first() =~= Seq::<i32>::empty());
    }
}

proof fn lemma_sum_bounds(s: Seq<i32>)
    ensures
        -(s.len() as int) * 0x8000_0000 <= seq_sum(s) <= s.len() as int * 0x8000_0000,
        0 <= seq_sum_sq(s) <= s.len() as int * 0x4000_0000_0000_0000,
    decreases s.len(),
{
    if s.len() > 0 {
        lemma_sum_bounds(s.drop_last());
        let x = s.last() as int;
        assert(0 <= x * x <= 0x4000_0000_0000_0000) by (nonlinear_arith)
            requires
                -0x8000_0000 <= x < 0x8000_0000,
        ;
    }
}

proof fn lemma_mul_abs_bound(a: int, b: int, ba: int, bb: int)
    requires
        -ba <= a <= ba,
        -bb <= b <= bb,
    ensures
        -(ba * bb) <= a * b <= ba * bb,
{
    assert(-(ba * bb) <= a * b <= ba * bb) by (nonlinear_arith)
        requires
            -ba <= a <= ba,
            -bb <= b <= bb,
    ;
}

/// A fixed-capacity ring of the most recent energy samples, with a running
/// sum and sum of squares so that mean and variance cost O(1) per sample.
pub struct EnergyWindow {
    buf: Vec<i32>,
    len: usize,
    cursor: usize,
    sum: i128,
    sum_sq: i128,
    /// Every sample ever pushed, oldest first.
    fed: Ghost<Seq<i32>>,
}

impl EnergyWindow {
    pub closed spec fn capacity(&self) -> nat {
        self.buf@.len()
    }

    /// Every sample pushed so far, oldest first.
    pub closed spec fn history(&self) -> Seq<i32> {
        self.fed@
    }

    /// The running sum kept beside the samples.
    pub closed spec fn running_sum(&self) -> int {
        self.sum as int
    }

    /// The running sum of squares kept beside the samples.
    pub closed spec fn running_sum_sq(&self) -> int {
        self.sum_sq as int
    }

    /// The samples currently held, oldest first.
    pub closed spec fn live(&self) -> Seq<i32> {
        if self.len < self.buf@.len() {
            self.buf@.subrange(0, self.len as int)
        } else {
            self.buf@.subrange(self.cursor as int, self.buf@.len() as int) + self.buf@.subrange(
                0,
                self.cursor as int,
            )
        }
    }

    pub closed spec fn wf(&self) -> bool {
        &&& self.buf@.len() <= MAX_WINDOW
        &&& self.len <= self.buf@.len()
        &&& (self.len < self.buf@.len() ==> self.cursor == 0)
        &&& (self.buf@.len() > 0 ==> self.cursor < self.buf@.len())
        &&& self.live().len() == self.len
        &&& self.live() == trailing(self.fed@, self.buf@.len())
        &&& self.sum == seq_sum(self.live())
        &&& self.sum_sq == seq_sum_sq(self.live())
    }

    /// An empty window holding up to `capacity` samples.
    pub fn new(capacity: usize) -> (r: EnergyWindow)
        requires
            capacity <= MAX_WINDOW,
        ensures
            r.wf(),
            r.capacity() == capacity,
            r.history() == Seq::<i32>::empty(),
            r.live() == Seq::<i32>::empty(),
    {
        let buf: Vec<i32> = vec![0i32; capacity];
        let r = EnergyWindow { buf, len: 0, cursor: 0, sum: 0, sum_sq: 0, fed: Ghost(Seq::empty()) };
        assert(r.live() =~= Seq::<i32>::empty());
        r
    }

    /// The running statistics are exact: the window holds precisely the last
    /// `min(n, capacity)` of the `n` samples pushed, in order, and its running
    /// sum and sum of squares are those of exactly these samples.
    pub proof fn lemma_stats_match_trailing(&self)
        requires
            self.wf(),
        ensures
            self.live() == trailing(self.history(), self.capacity()),
            self.live().len() == if self.history().len() < self.capacity() {
                self.history().len()
            } else {
                self.capacity()
            },
            self.running_sum() == seq_sum(trailing(self.history(), self.capacity())),
            self.running_sum_sq() == seq_sum_sq(trailing(self.history(), self.capacity())),
    {
    }

    /// Number of samples held: `min(pushed, capacity)`.
    pub fn len(&self) -> (r: usize)
        requires
            self.wf(),
        ensures
            r == self.live().len(),
    {
        self.len
    }

    pub fn sum(&self) -> (r: i128)
        requires
            self.wf(),
        ensures
            r == self.running_sum(),
            r == seq_sum(self.live()),
    {
        self.sum
    }

    pub fn sum_sq(&self) -> (r: i128)
        requires
            self.wf(),
        ensures
            r == self.running_sum_sq(),
            r == seq_sum_sq(self.live()),
    {
        self.sum_sq
    }

    /// Records a sample; once full, the oldest sample is evicted. A window of
    /// capacity zero records nothing but the sample's arrival.
    pub fn push(&mut self, e: i32)
        requires
            old(self).wf(),
        ensures
            final(self).wf(),
            final(self).capacity() == old(self).capacity(),
            final(self).history() == old(self).history().push(e),
            final(self).live() == trailing(old(self).live().push(e), old(self).capacity()),
    {
        let ghost pre = self.live();
        let ghost fed0 = self.fed@;
        let cap = self.buf.len();
        proof {
            lemma_sum_bounds(pre);
        }
        proof {
            lemma_mul_abs_bound(e as int, e as int, 0x8000_0000, 0x8000_0000);
        }
        if cap == 0 {
            self.fed = Ghost(fed0.push(e));
            assert(self.live() =~= Seq::<i32>::empty());
            assert(self.live() =~= trailing(pre.push(e), 0));
            assert(trailing(self.fed@, 0) =~= Seq::<i32>::empty());
            return;
        }
        if self.len < cap {
            self.buf.set(self.len, e);
            self.sum = self.sum + e as i128;
            self.sum_sq = self.sum_sq + (e as i128) * (e as i128);
            self.len = self.len + 1;
            self.fed = Ghost(fed0.push(e));
            assert(self.live() =~= pre.push(e));
            assert(pre.push(e).drop_last() =~= pre);
        } else {
            let old_e = self.buf[self.cursor];
            assert(old_e == pre[0]);
            proof {
                lemma_mul_abs_bound(old_e as int, old_e as int, 0x8000_0000, 0x8000_0000);
                lemma_sum_drop_first(pre);
            }
            self.buf.set(self.cursor, e);
            self.sum = self.sum + e as i128 - old_e as i128;
            self.sum_sq = self.sum_sq + (e as i128) * (e as i128) - (old_e as i128) * (old_e as i128);
            self.cursor = if self.cursor + 1 == cap { 0 } else { self.cursor + 1 };
            self.fed = Ghost(fed0.push(e));
            let ghost post = pre.drop_first().push(e);
            assert(self.live() =~= post);
            assert(post.drop_last() =~= pre.drop_first());
            assert(trailing(pre.push(e), cap as nat) =~= post);
            assert(trailing(self.fed@, cap as nat) =~= post);
        }
    }

    /// Whether the samples held count as settled (see `settled`). An empty
    /// window is not consulted by callers, and counts as unsettled.
    pub fn is_settled(&self, eps: u32, scale_milli: u32) -> (r: bool)
        requires
            self.wf(),
        ensures
            self.live().len() > 0 ==> r == settled(self.live(), eps as int, scale_milli as int),
            self.live().len() == 0 ==> !r,
    {
        if self.len == 0 {
            return false;
        }
        let ghost s = self.live();
        proof {
            lemma_sum_bounds(s);
        }
        let n = self.len as i128;
        let sum = self.sum;
        let sq = self.sum_sq;
        let abs_sum: i128 = if sum < 0 { -sum } else { sum };
        let e6 = eps as i128 * 1_000_000;
        let sc = scale_milli as i128;
        proof {
            lemma_mul_abs_bound(n as int, sq as int, 0x1_0000, (0x1_0000 * 0x4000_0000_0000_0000) as int);
            lemma_mul_abs_bound(sum as int, sum as int, (0x1_0000 * 0x8000_0000) as int, (0x1_0000 * 0x8000_0000) as int);
            lemma_mul_abs_bound(e6 as int, n as int, (0x1_0000_0000 * 1_000_000) as int, 0x1_0000);
            lemma_mul_abs_bound((e6 * n) as int, n as int, (0x1_0000_0000 * 1_000_000 * 0x1_0000) as int, 0x1_0000);
            lemma_mul_abs_bound(sc as int, abs_sum as int, 0x1_0000_0000, (0x1_0000 * 0x8000_0000) as int);
            lemma_mul_abs_bound((sc * abs_sum) as int, n as int, (0x1_0000_0000 * (0x1_0000 * 0x8000_0000)) as int, 0x1_0000);
        }
        let lhs = n * sq - sum * sum;
        let rhs = e6 * n * n + sc * abs_sum * n;
        lhs < rhs
    }
}

} // verus!
