//! Bit lengths of Huffman codes as two families of encoders compute them.
//!
//! Both build an optimal code and bring it under a limit on the code
//! length, but they break ties and enforce the limit in different ways.
//! A predicted header is right only where every step is taken as the
//! encoder took it, so both calculations are kept in the form in which
//! these encoders make them.

use vstd::prelude::*;

verus! {

/// The encoder family whose calculation is to be followed.
#[derive(Clone, Copy, Debug, PartialEq, Eq, Structural)]
pub enum HufftreeBitCalc {
    Zlib,
    Miniz,
}

/// The working state of the zlib calculation for an alphabet of `n`
/// symbols, as a mathematical value. Nodes are numbered: the symbols come
/// first, the inner nodes follow from `n` on.
pub struct ZlibTreeModel {
    /// Weight of each node.
    pub freq: Seq<u32>,
    /// Parent of each node.
    pub dad: Seq<usize>,
    /// Height of the subtree under each node.
    pub depth: Seq<u32>,
    /// A binary heap of nodes in the places from 1 to `heap_len`; from
    /// `heap_max` on the nodes that left the heap, the lightest last.
    pub heap: Seq<usize>,
    pub heap_len: usize,
    pub heap_max: usize,
    /// One more than the largest symbol in use.
    pub code_count: usize,
    /// Bit length of each node.
    pub len: Seq<u32>,
    /// Number of symbols of each bit length.
    pub bl_count: Seq<u32>,
}

impl ZlibTreeModel {
    /// The arrays have the sizes for `n` symbols and a limit of `max_bits`,
    /// and hold nodes only.
    pub open spec fn wf(self, n: int, max_bits: int) -> bool {
        &&& 3 <= n <= 0xffff
        &&& 1 <= max_bits <= 15
        &&& self.freq.len() == 2 * n + 1
        &&& self.dad.len() == 2 * n + 1
        &&& self.depth.len() == 2 * n + 1
        &&& self.heap.len() == 2 * n + 1
        &&& self.len.len() == 2 * n + 1
        &&& self.bl_count.len() == max_bits + 1
        &&& self.heap_len <= n
        &&& self.heap_max <= 2 * n + 1
        &&& self.code_count <= n
        &&& forall|i: int| 0 <= i < self.heap.len() ==> #[trigger] self.heap[i] < 2 * n + 1
        &&& forall|i: int| 0 <= i < self.dad.len() ==> #[trigger] self.dad[i] < 2 * n + 1
    }

    /// The state before the first step.
    pub open spec fn empty(n: int, max_bits: int) -> ZlibTreeModel {
        ZlibTreeModel {
            freq: Seq::new((2 * n + 1) as nat, |i: int| 0u32),
            dad: Seq::new((2 * n + 1) as nat, |i: int| 0usize),
            depth: Seq::new((2 * n + 1) as nat, |i: int| 0u32),
            heap: Seq::new((2 * n + 1) as nat, |i: int| 0usize),
            heap_len: 0,
            heap_max: (2 * n + 1) as usize,
            code_count: 0,
            len: Seq::new((2 * n + 1) as nat, |i: int| 0u32),
            bl_count: Seq::new((max_bits + 1) as nat, |i: int| 0u32),
        }
    }

    /// Node `a` comes before node `b`: it is lighter, or as heavy and not higher.
    pub open spec fn smaller(self, a: usize, b: usize) -> bool {
        self.freq[a as int] < self.freq[b as int] || (self.freq[a as int] == self.freq[b as int]
            && self.depth[a as int] <= self.depth[b as int])
    }

    /// The state with node `node` added at the end of the heap with weight `freq`.
    pub open spec fn push_leaf(self, node: usize, freq: u32) -> ZlibTreeModel {
        ZlibTreeModel {
            heap: self.heap.update(self.heap_len + 1, node),
            heap_len: (self.heap_len + 1) as usize,
            freq: self.freq.update(node as int, freq),
            ..self
        }
    }

    /// The state after the symbols from `s` on that occur were added to the heap.
    pub open spec fn collect(self, counts: Seq<u16>, s: int) -> ZlibTreeModel
        decreases counts.len() - s,
    {
        if s < 0 || s >= counts.len() {
            self
        } else if counts[s] != 0 {
            (ZlibTreeModel { code_count: (s + 1) as usize, ..self.push_leaf(
                s as usize,
                counts[s] as u32,
            ) }).collect(counts, s + 1)
        } else {
            self.collect(counts, s + 1)
        }
    }

    /// The state after symbols of weight 1 were added until the heap holds two nodes.
    pub open spec fn force_two(self) -> ZlibTreeModel
        decreases 2 - self.heap_len,
    {
        if self.heap_len >= 2 {
            self
        } else if self.code_count < 3 {
            (ZlibTreeModel { code_count: (self.code_count + 1) as usize, ..self.push_leaf(
                self.code_count,
                1,
            ) }).force_two()
        } else {
            self.push_leaf(0, 1).force_two()
        }
    }

    /// The heap after node `v` sank from place `k` to the place where no
    /// node under it comes before it.
    pub open spec fn sift_down(self, v: usize, k: int) -> Seq<usize>
        decreases self.heap_len - k,
    {
        let j = 2 * k;
        if k < 1 || j > self.heap_len {
            self.heap.update(k, v)
        } else {
            let son = if j < self.heap_len && self.smaller(self.heap[j + 1], self.heap[j]) {
                j + 1
            } else {
                j
            };
            if self.smaller(v, self.heap[son]) {
                self.heap.update(k, v)
            } else {
                (ZlibTreeModel { heap: self.heap.update(k, self.heap[son]), ..self }).sift_down(
                    v,
                    son,
                )
            }
        }
    }

    /// The state after the node at place `k` of the heap sank to its place.
    pub open spec fn pqdownheap(self, k: int) -> ZlibTreeModel {
        ZlibTreeModel { heap: self.sift_down(self.heap[k], k), ..self }
    }

    /// The state after the places from `k` down to 1 were brought into heap order.
    pub open spec fn heapify(self, k: int) -> ZlibTreeModel
        decreases k,
    {
        if k < 1 {
            self
        } else {
            self.pqdownheap(k).heapify(k - 1)
        }
    }

    /// The state after the two lightest nodes left the heap and their
    /// parent `node` came in.
    pub open spec fn join_two(self, node: usize) -> ZlibTreeModel {
        let first = self.heap[1];
        let removed = (ZlibTreeModel {
            heap: self.heap.update(1, self.heap[self.heap_len as int]),
            heap_len: (self.heap_len - 1) as usize,
            ..self
        }).pqdownheap(1);
        let second = removed.heap[1];
        let higher = if self.depth[first as int] >= self.depth[second as int] {
            self.depth[first as int]
        } else {
            self.depth[second as int]
        };
        (ZlibTreeModel {
            heap: removed.heap.update(self.heap_max - 1, first).update(
                self.heap_max - 2,
                second,
            ).update(1, node),
            heap_max: (self.heap_max - 2) as usize,
            freq: self.freq.update(
                node as int,
                self.freq[first as int].wrapping_add(self.freq[second as int]),
            ),
            depth: self.depth.update(node as int, higher.wrapping_add(1)),
            dad: self.dad.update(first as int, node).update(second as int, node),
            ..removed
        }).pqdownheap(1)
    }

    /// The state after nodes were joined, from the parent `node` on, until
    /// one node is left in the heap.
    pub open spec fn build(self, node: usize) -> ZlibTreeModel
        decreases self.heap_len,
    {
        if self.heap_len < 2 || self.heap_max < 2 {
            self
        } else {
            let joined = self.join_two(node);
            if joined.heap_len < self.heap_len {
                joined.build((node + 1) as usize)
            } else {
                joined
            }
        }
    }

    /// The state after the root left the heap as the last node.
    pub open spec fn finish_heap(self) -> ZlibTreeModel {
        if self.heap_max < 1 {
            self
        } else {
            ZlibTreeModel {
                heap: self.heap.update(self.heap_max - 1, self.heap[1]),
                heap_max: (self.heap_max - 1) as usize,
                ..self
            }
        }
    }

    /// The state and the number of overflows after the nodes from place
    /// `h` on got the bit length of their parent and one, cut at `max_bits`.
    pub open spec fn assign_lengths(self, h: int, max_bits: u32, overflow: int) -> (
        ZlibTreeModel,
        int,
    )
        decreases self.heap.len() - h,
    {
        if h < 0 || h >= self.heap.len() {
            (self, overflow)
        } else {
            let node = self.heap[h];
            let above = self.len[self.dad[node as int] as int];
            let bits = if above >= max_bits {
                max_bits
            } else {
                (above + 1) as u32
            };
            let with_len = ZlibTreeModel { len: self.len.update(node as int, bits), ..self };
            let counted = if node < self.code_count {
                ZlibTreeModel {
                    bl_count: with_len.bl_count.update(
                        bits as int,
                        with_len.bl_count[bits as int].wrapping_add(1),
                    ),
                    ..with_len
                }
            } else {
                with_len
            };
            counted.assign_lengths(
                h + 1,
                max_bits,
                if above >= max_bits {
                    overflow + 1
                } else {
                    overflow
                },
            )
        }
    }

    /// The largest length from `bits` down that has a symbol, or 0.
    pub open spec fn used_length(self, bits: int) -> int
        decreases bits,
    {
        if bits <= 0 {
            0
        } else if self.bl_count[bits] != 0 {
            bits
        } else {
            self.used_length(bits - 1)
        }
    }

    /// The counts after `overflow` symbols too many at the limit were
    /// made room for: each time a symbol of the largest shorter length
    /// moves one level down and takes one of them as its sibling.
    pub open spec fn repair_counts(self, max_bits: u32, overflow: int) -> Seq<u32>
        decreases overflow + 1,
    {
        if overflow <= 0 {
            self.bl_count
        } else {
            let bits = self.used_length(max_bits - 1);
            let moved = self.bl_count.update(bits, self.bl_count[bits].wrapping_sub(1));
            let grown = moved.update(bits + 1, moved[bits + 1].wrapping_add(2));
            let cut = grown.update(max_bits as int, grown[max_bits as int].wrapping_sub(1));
            (ZlibTreeModel { bl_count: cut, ..self }).repair_counts(max_bits, overflow - 2)
        }
    }

    /// The lengths, and the place reached in the heap, after the `count`
    /// symbols that stand before place `h` got the length `bits`.
    pub open spec fn relabel(self, h: int, bits: u32, count: u32) -> (Seq<u32>, int)
        decreases h,
    {
        if count == 0 || h <= 0 {
            (self.len, h)
        } else {
            let node = self.heap[h - 1];
            if node < self.code_count {
                (ZlibTreeModel { len: self.len.update(node as int, bits), ..self }).relabel(
                    h - 1,
                    bits,
                    (count - 1) as u32,
                )
            } else {
                self.relabel(h - 1, bits, count)
            }
        }
    }

    /// The lengths after the symbols got the lengths from `bits` down to
    /// 1 in the numbers of the counts, the lightest the longest.
    pub open spec fn relabel_all(self, h: int, bits: int) -> Seq<u32>
        decreases bits,
    {
        if bits <= 0 {
            self.len
        } else {
            let (len, h2) = self.relabel(h, bits as u32, self.bl_count[bits]);
            (ZlibTreeModel { len, ..self }).relabel_all(h2, bits - 1)
        }
    }

    /// The state after the bit lengths were computed and brought under the limit.
    pub open spec fn gen_bitlen(self, max_bits: u32) -> ZlibTreeModel {
        let rooted = ZlibTreeModel {
            len: self.len.update(self.heap[self.heap_max as int] as int, 0),
            ..self
        };
        let (assigned, overflow) = rooted.assign_lengths(self.heap_max + 1, max_bits, 0);
        if overflow <= 0 {
            assigned
        } else {
            let repaired = ZlibTreeModel {
                bl_count: assigned.repair_counts(max_bits, overflow),
                ..assigned
            };
            ZlibTreeModel {
                len: repaired.relabel_all(repaired.heap.len() as int, max_bits as int),
                ..repaired
            }
        }
    }
}

/// The bit lengths that zlib gives to the symbols with the counts
/// `counts` under the limit `max_bits`, up to the last symbol in use.
#[verifier::opaque]
pub open spec fn zlib_bit_lengths(counts: Seq<u16>, max_bits: u32) -> Seq<u8> {
    let n = counts.len() as int;
    let leaves = ZlibTreeModel::empty(n, max_bits as int).collect(counts, 0).force_two();
    let tree = leaves.heapify((leaves.heap_len / 2) as int).build(n as usize).finish_heap().gen_bitlen(
        max_bits,
    );
    Seq::new(tree.code_count as nat, |i: int| tree.len[i] as u8)
}

/// The working state of the zlib calculation.
pub struct ZlibTree {
    pub freq: Vec<u32>,
    pub dad: Vec<usize>,
    pub depth: Vec<u32>,
    pub heap: Vec<usize>,
    pub heap_len: usize,
    pub heap_max: usize,
    pub code_count: usize,
    pub len: Vec<u32>,
    pub bl_count: Vec<u32>,
}

impl View for ZlibTree {
    type V = ZlibTreeModel;

    open spec fn view(&self) -> ZlibTreeModel {
        ZlibTreeModel {
            freq: self.freq@,
            dad: self.dad@,
            depth: self.depth@,
            heap: self.heap@,
            heap_len: self.heap_len,
            heap_max: self.heap_max,
            code_count: self.code_count,
            len: self.len@,
            bl_count: self.bl_count@,
        }
    }
}

impl ZlibTree {
    /// No bit length exceeds the limit.
    pub open spec fn lengths_bounded(&self, max_bits: u32) -> bool {
        forall|i: int| 0 <= i < self.len@.len() ==> #[trigger] self.len@[i] <= max_bits
    }

    fn new(n: usize, max_bits: u32) -> (r: Self)
        requires
            3 <= n <= 0xffff,
            1 <= max_bits <= 15,
        ensures
            r@ == ZlibTreeModel::empty(n as int, max_bits as int),
            r@.wf(n as int, max_bits as int),
            r.lengths_bounded(max_bits),
    {
        let size: usize = 2 * n + 1;
        let r = ZlibTree {
            freq: vec![0u32; size],
            dad: vec![0usize; size],
            depth: vec![0u32; size],
            heap: vec![0usize; size],
            heap_len: 0,
            heap_max: size,
            code_count: 0,
            len: vec![0u32; size],
            bl_count: vec![0u32; max_bits as usize + 1],
        };
        proof {
            let m = ZlibTreeModel::empty(n as int, max_bits as int);
            assert(r@.freq =~= m.freq);
            assert(r@.dad =~= m.dad);
            assert(r@.depth =~= m.depth);
            assert(r@.heap =~= m.heap);
            assert(r@.len =~= m.len);
            assert(r@.bl_count =~= m.bl_count);
        }
        r
    }

    fn smaller(&self, a: usize, b: usize) -> (r: bool)
        requires
            a < self.freq@.len(),
            b < self.freq@.len(),
            self.depth@.len() == self.freq@.len(),
        ensures
            r == self@.smaller(a, b),
    {
        self.freq[a] < self.freq[b] || (self.freq[a] == self.freq[b] && self.depth[a]
            <= self.depth[b])
    }

    fn push_leaf(&mut self, node: usize, freq: u32, Ghost(n): Ghost<int>, Ghost(max_bits): Ghost<int>)
        requires
            old(self)@.wf(n, max_bits),
            old(self).heap_len < n,
            node < n,
        ensures
            final(self)@ == old(self)@.push_leaf(node, freq),
            final(self)@.wf(n, max_bits),
    {
        self.heap_len = self.heap_len + 1;
        let k: usize = self.heap_len;
        self.heap[k] = node;
        self.freq[node] = freq;
    }

    fn collect(&mut self, counts: &[u16], Ghost(max_bits): Ghost<int>)
        requires
            old(self)@.wf(counts@.len() as int, max_bits),
            old(self).heap_len == 0,
            old(self).code_count == 0,
        ensures
            final(self)@ == old(self)@.collect(counts@, 0),
            final(self)@.wf(counts@.len() as int, max_bits),
            final(self)@.len == old(self)@.len,
            final(self).heap_max == old(self).heap_max,
            final(self).heap_len <= final(self).code_count,
            final(self).code_count == used_codes(counts@, 0, 0),
    {
        let n: usize = counts.len();
        let mut s: usize = 0;
        while s < n
            invariant
                s <= n,
                n == counts@.len(),
                self@.wf(n as int, max_bits),
                self.heap_len <= s,
                self.heap_len <= self.code_count,
                used_codes(counts@, 0, 0) == used_codes(counts@, s as int, self.code_count),
                self.heap_max == old(self).heap_max,
                self@.len == old(self)@.len,
                old(self)@.collect(counts@, 0) == self@.collect(counts@, s as int),
            decreases n - s,
        {
            if counts[s] != 0 {
                self.push_leaf(s, counts[s] as u32, Ghost(n as int), Ghost(max_bits));
                self.code_count = s + 1;
            }
            s += 1;
        }
    }

    fn force_two(&mut self, Ghost(n): Ghost<int>, Ghost(max_bits): Ghost<int>)
        requires
            old(self)@.wf(n, max_bits),
            old(self).heap_len <= old(self).code_count,
        ensures
            final(self)@ == old(self)@.force_two(),
            final(self)@.wf(n, max_bits),
            final(self).heap_len >= 2,
            final(self).code_count >= 2,
            final(self).code_count >= old(self).code_count,
            final(self).heap_max == old(self).heap_max,
            final(self)@.len == old(self)@.len,
    {
        while self.heap_len < 2
            invariant
                self@.wf(n, max_bits),
                self.code_count >= old(self).code_count,
                self.heap_len <= self.code_count || self.code_count >= 3,
                self.heap_max == old(self).heap_max,
                self@.len == old(self)@.len,
                old(self)@.force_two() == self@.force_two(),
            decreases 2 - self.heap_len,
        {
            if self.code_count < 3 {
                let node: usize = self.code_count;
                self.push_leaf(node, 1, Ghost(n), Ghost(max_bits));
                self.code_count = node + 1;
            } else {
                self.push_leaf(0, 1, Ghost(n), Ghost(max_bits));
            }
        }
    }

    fn pqdownheap(&mut self, start: usize, Ghost(n): Ghost<int>, Ghost(max_bits): Ghost<int>)
        requires
            old(self)@.wf(n, max_bits),
            1 <= start <= old(self).heap_len,
        ensures
            final(self)@ == old(self)@.pqdownheap(start as int),
            final(self)@.wf(n, max_bits),
    {
        let v: usize = self.heap[start];
        let mut k: usize = start;
        loop
            invariant
                self@.wf(n, max_bits),
                1 <= k <= self.heap_len,
                v < 2 * n + 1,
                self@ == (ZlibTreeModel { heap: self@.heap, ..old(self)@ }),
                old(self)@.sift_down(v, start as int) == self@.sift_down(v, k as int),
            ensures
                old(self)@.sift_down(v, start as int) == self@.heap.update(k as int, v),
            decreases self.heap_len - k,
        {
            let j: usize = 2 * k;
            if j > self.heap_len {
                break ;
            }
            let son: usize = if j < self.heap_len && self.smaller(self.heap[j + 1], self.heap[j]) {
                j + 1
            } else {
                j
            };
            if self.smaller(v, self.heap[son]) {
                break ;
            }
            let moved: usize = self.heap[son];
            self.heap[k] = moved;
            k = son;
        }
        self.heap[k] = v;
    }

    fn heapify(&mut self, Ghost(n): Ghost<int>, Ghost(max_bits): Ghost<int>)
        requires
            old(self)@.wf(n, max_bits),
        ensures
            final(self)@ == old(self)@.heapify((old(self).heap_len / 2) as int),
            final(self)@.wf(n, max_bits),
            final(self).code_count == old(self).code_count,
            final(self).heap_len == old(self).heap_len,
            final(self).heap_max == old(self).heap_max,
            final(self)@.len == old(self)@.len,
    {
        let mut k: usize = self.heap_len / 2;
        while k >= 1
            invariant
                self@.wf(n, max_bits),
                k <= self.heap_len,
                self.code_count == old(self).code_count,
                self.heap_len == old(self).heap_len,
                self.heap_max == old(self).heap_max,
                self@.len == old(self)@.len,
                old(self)@.heapify((old(self).heap_len / 2) as int) == self@.heapify(k as int),
            decreases k,
        {
            self.pqdownheap(k, Ghost(n), Ghost(max_bits));
            k -= 1;
        }
    }

    fn join_two(&mut self, node: usize, Ghost(n): Ghost<int>, Ghost(max_bits): Ghost<int>)
        requires
            old(self)@.wf(n, max_bits),
            old(self).heap_len >= 2,
            old(self).heap_max >= 2 * old(self).heap_len - 1,
            node < 2 * n + 1,
        ensures
            final(self)@ == old(self)@.join_two(node),
            final(self)@.wf(n, max_bits),
            final(self).heap_len == old(self).heap_len - 1,
            final(self).heap_max == old(self).heap_max - 2,
            final(self)@.len == old(self)@.len,
    {
        let first: usize = self.heap[1];
        let last: usize = self.heap[self.heap_len];
        self.heap[1] = last;
        self.heap_len = self.heap_len - 1;
        self.pqdownheap(1, Ghost(n), Ghost(max_bits));
        let second: usize = self.heap[1];
        self.heap_max = self.heap_max - 1;
        let k: usize = self.heap_max;
        self.heap[k] = first;
        self.heap_max = self.heap_max - 1;
        let k: usize = self.heap_max;
        self.heap[k] = second;
        self.freq[node] = self.freq[first].wrapping_add(self.freq[second]);
        let higher: u32 = if self.depth[first] >= self.depth[second] {
            self.depth[first]
        } else {
            self.depth[second]
        };
        self.depth[node] = higher.wrapping_add(1);
        self.dad[first] = node;
        self.dad[second] = node;
        self.heap[1] = node;
        self.pqdownheap(1, Ghost(n), Ghost(max_bits));
    }

    fn build(&mut self, Ghost(max_bits): Ghost<int>, n: usize)
        requires
            old(self)@.wf(n as int, max_bits),
            old(self).heap_len >= 2,
            old(self).heap_max == 2 * n + 1,
        ensures
            final(self)@ == old(self)@.build(n),
            final(self)@.wf(n as int, max_bits),
            final(self).code_count == old(self).code_count,
            final(self).heap_len == 1,
            1 <= final(self).heap_max,
            final(self)@.len == old(self)@.len,
    {
        let mut node: usize = n;
        while self.heap_len >= 2
            invariant
                self@.wf(n as int, max_bits),
                self.heap_len >= 1,
                node + self.heap_len <= 2 * n,
                self.heap_max >= 2 * self.heap_len - 1,
                self.code_count == old(self).code_count,
                self@.len == old(self)@.len,
                old(self)@.build(n) == self@.build(node),
            decreases self.heap_len,
        {
            self.join_two(node, Ghost(n as int), Ghost(max_bits));
            node += 1;
        }
    }

    fn finish_heap(&mut self, Ghost(n): Ghost<int>, Ghost(max_bits): Ghost<int>)
        requires
            old(self)@.wf(n, max_bits),
            old(self).heap_len == 1,
            1 <= old(self).heap_max,
        ensures
            final(self)@ == old(self)@.finish_heap(),
            final(self)@.wf(n, max_bits),
            final(self).heap_max < 2 * n + 1,
            final(self)@.len == old(self)@.len,
    {
        self.heap_max = self.heap_max - 1;
        let k: usize = self.heap_max;
        let root: usize = self.heap[1];
        self.heap[k] = root;
    }

    fn assign_lengths(&mut self, max_bits: u32, Ghost(n): Ghost<int>) -> (overflow: u32)
        requires
            old(self)@.wf(n, max_bits as int),
            old(self).heap_max < 2 * n + 1,
            old(self).lengths_bounded(max_bits),
        ensures
            (final(self)@, overflow as int) == old(self)@.assign_lengths(
                old(self).heap_max + 1,
                max_bits,
                0,
            ),
            final(self)@.wf(n, max_bits as int),
            final(self).code_count == old(self).code_count,
            final(self).lengths_bounded(max_bits),
    {
        let size: usize = self.heap.len();
        let mut h: usize = self.heap_max + 1;
        let mut overflow: u32 = 0;
        while h < size
            invariant
                self@.wf(n, max_bits as int),
                self.lengths_bounded(max_bits),
                size == 2 * n + 1,
                h <= size,
                overflow <= h,
                self.code_count == old(self).code_count,
                old(self)@.assign_lengths(old(self).heap_max + 1, max_bits, 0)
                    == self@.assign_lengths(h as int, max_bits, overflow as int),
            decreases size - h,
        {
            let node: usize = self.heap[h];
            let above: u32 = self.len[self.dad[node]];
            let bits: u32 = if above >= max_bits {
                overflow += 1;
                max_bits
            } else {
                above + 1
            };
            self.len[node] = bits;
            if node < self.code_count {
                self.bl_count[bits as usize] = self.bl_count[bits as usize].wrapping_add(1);
            }
            h += 1;
        }
        overflow
    }

    fn repair_counts(&mut self, max_bits: u32, overflow: u32, Ghost(n): Ghost<int>)
        requires
            old(self)@.wf(n, max_bits as int),
        ensures
            final(self)@ == (ZlibTreeModel {
                bl_count: old(self)@.repair_counts(max_bits, overflow as int),
                ..old(self)@
            }),
            final(self)@.wf(n, max_bits as int),
    {
        let mut left: i64 = overflow as i64;
        while left > 0
            invariant
                self@.wf(n, max_bits as int),
                left <= overflow,
                self@ == (ZlibTreeModel { bl_count: self@.bl_count, ..old(self)@ }),
                old(self)@.repair_counts(max_bits, overflow as int) == self@.repair_counts(
                    max_bits,
                    left as int,
                ),
            decreases left + 1,
        {
            let mut bits: usize = max_bits as usize - 1;
            while bits > 0 && self.bl_count[bits] == 0
                invariant
                    bits < max_bits,
                    self.bl_count@.len() == max_bits + 1,
                    self@.used_length(max_bits - 1) == self@.used_length(bits as int),
                decreases bits,
            {
                bits -= 1;
            }
            self.bl_count[bits] = self.bl_count[bits].wrapping_sub(1);
            self.bl_count[bits + 1] = self.bl_count[bits + 1].wrapping_add(2);
            self.bl_count[max_bits as usize] = self.bl_count[max_bits as usize].wrapping_sub(1);
            left -= 2;
        }
    }

    fn relabel(
        &mut self,
        start: usize,
        bits: u32,
        total: u32,
        Ghost(n): Ghost<int>,
        Ghost(max_bits): Ghost<u32>,
    ) -> (r: usize)
        requires
            old(self)@.wf(n, max_bits as int),
            old(self).lengths_bounded(max_bits),
            start <= 2 * n + 1,
            bits <= max_bits,
        ensures
            (final(self)@.len, r as int) == old(self)@.relabel(start as int, bits, total),
            final(self)@ == (ZlibTreeModel { len: final(self)@.len, ..old(self)@ }),
            final(self)@.wf(n, max_bits as int),
            final(self).lengths_bounded(max_bits),
            r <= start,
    {
        let mut h: usize = start;
        let mut count: u32 = total;
        while count != 0 && h > 0
            invariant
                self@.wf(n, max_bits as int),
                self.lengths_bounded(max_bits),
                h <= start <= 2 * n + 1,
                bits <= max_bits,
                self@ == (ZlibTreeModel { len: self@.len, ..old(self)@ }),
                old(self)@.relabel(start as int, bits, total) == self@.relabel(
                    h as int,
                    bits,
                    count,
                ),
            decreases h,
        {
            h -= 1;
            let node: usize = self.heap[h];
            if node < self.code_count {
                self.len[node] = bits;
                count -= 1;
            }
        }
        h
    }

    fn relabel_all(&mut self, max_bits: u32, Ghost(n): Ghost<int>)
        requires
            old(self)@.wf(n, max_bits as int),
            old(self).lengths_bounded(max_bits),
        ensures
            final(self)@ == (ZlibTreeModel {
                len: old(self)@.relabel_all(old(self)@.heap.len() as int, max_bits as int),
                ..old(self)@
            }),
            final(self)@.wf(n, max_bits as int),
            final(self).lengths_bounded(max_bits),
    {
        let mut h: usize = self.heap.len();
        let mut bits: u32 = max_bits;
        while bits > 0
            invariant
                self@.wf(n, max_bits as int),
                self.lengths_bounded(max_bits),
                h <= 2 * n + 1,
                bits <= max_bits,
                self@ == (ZlibTreeModel { len: self@.len, ..old(self)@ }),
                old(self)@.relabel_all(old(self)@.heap.len() as int, max_bits as int)
                    == self@.relabel_all(h as int, bits as int),
            decreases bits,
        {
            let count: u32 = self.bl_count[bits as usize];
            h = self.relabel(h, bits, count, Ghost(n), Ghost(max_bits));
            bits -= 1;
        }
    }

    fn gen_bitlen(&mut self, max_bits: u32, Ghost(n): Ghost<int>)
        requires
            old(self)@.wf(n, max_bits as int),
            old(self).heap_max < 2 * n + 1,
            old(self).lengths_bounded(max_bits),
        ensures
            final(self)@ == old(self)@.gen_bitlen(max_bits),
            final(self)@.wf(n, max_bits as int),
            final(self).code_count == old(self).code_count,
            final(self).lengths_bounded(max_bits),
    {
        let root: usize = self.heap[self.heap_max];
        self.len[root] = 0;
        let overflow: u32 = self.assign_lengths(max_bits, Ghost(n));
        if overflow > 0 {
            self.repair_counts(max_bits, overflow, Ghost(n));
            self.relabel_all(max_bits, Ghost(n));
        }
    }
}

/// The bit lengths that zlib gives to the symbols with the counts
/// `sym_count` under the limit `max_bits`, up to the last symbol in use.
pub fn calc_zlib_bit_lengths(sym_count: &[u16], max_bits: u32) -> (r: Vec<u8>)
    requires
        3 <= sym_count@.len() <= 0xffff,
        1 <= max_bits <= 15,
    ensures
        r@ == zlib_bit_lengths(sym_count@, max_bits),
        2 <= r@.len() <= sym_count@.len(),
        forall|i: int| 0 <= i < r@.len() ==> #[trigger] r@[i] <= max_bits,
        forall|i: int| r@.len() <= i < sym_count@.len() ==> #[trigger] sym_count@[i] == 0,
{
    reveal(zlib_bit_lengths);
    proof {
        lemma_used_codes(sym_count@, 0, 0);
    }
    let n: usize = sym_count.len();
    let mut tree = ZlibTree::new(n, max_bits);
    tree.collect(sym_count, Ghost(max_bits as int));
    tree.force_two(Ghost(n as int), Ghost(max_bits as int));
    tree.heapify(Ghost(n as int), Ghost(max_bits as int));
    tree.build(Ghost(max_bits as int), n);
    tree.finish_heap(Ghost(n as int), Ghost(max_bits as int));
    tree.gen_bitlen(max_bits, Ghost(n as int));
    let mut r: Vec<u8> = Vec::new();
    let mut i: usize = 0;
    while i < tree.code_count
        invariant
            i <= tree.code_count <= n,
            tree@.wf(n as int, max_bits as int),
            tree.lengths_bounded(max_bits),
            max_bits <= 15,
            r@ == Seq::new(i as nat, |j: int| tree@.len[j] as u8),
            forall|j: int| 0 <= j < r@.len() ==> #[trigger] r@[j] <= max_bits,
        decreases tree.code_count - i,
    {
        r.push(tree.len[i] as u8);
        assert(r@ =~= Seq::new((i + 1) as nat, |j: int| tree@.len[j] as u8));
        i += 1;
    }
    r
}

/// Largest code size that the miniz calculation keeps a count for.
pub const MAX_SUPPORTED_HUFF_CODESIZE: usize = 32;

/// The entry at place `i`, or 0 where there is none.
pub open spec fn key_at(keys: Seq<u16>, i: int) -> u16 {
    if 0 <= i < keys.len() {
        keys[i]
    } else {
        0
    }
}

/// `keys` with `v` at place `i`, where there is such a place.
pub open spec fn with_key(keys: Seq<u16>, i: int, v: u16) -> Seq<u16> {
    if 0 <= i < keys.len() {
        keys.update(i, v)
    } else {
        keys
    }
}

/// `counts` with `v` at place `i`, where there is such a place.
pub open spec fn with_count(counts: Seq<u32>, i: int, v: u32) -> Seq<u32> {
    if 0 <= i < counts.len() {
        counts.update(i, v)
    } else {
        counts
    }
}

/// The symbols in use, ordered by their counts.
pub struct SortedSymbols {
    pub keys: Seq<u16>,
    pub syms: Seq<usize>,
}

/// The place at or before `p` behind the last key that is not larger than `key`.
pub open spec fn insert_place(keys: Seq<u16>, key: u16, p: int) -> int
    decreases p,
{
    if 0 < p <= keys.len() && keys[p - 1] > key {
        insert_place(keys, key, p - 1)
    } else {
        p
    }
}

/// The symbols from `s` on that occur, added to `sorted` in the order of
/// their counts; of two symbols with the same count the smaller comes first.
pub open spec fn sort_symbols(counts: Seq<u16>, s: int, sorted: SortedSymbols) -> SortedSymbols
    decreases counts.len() - s,
{
    if s < 0 || s >= counts.len() {
        sorted
    } else if counts[s] != 0 && sorted.keys.len() == sorted.syms.len() {
        let p = insert_place(sorted.keys, counts[s], sorted.keys.len() as int);
        sort_symbols(
            counts,
            s + 1,
            SortedSymbols {
                keys: sorted.keys.insert(p, counts[s]),
                syms: sorted.syms.insert(p, s as usize),
            },
        )
    } else {
        sort_symbols(counts, s + 1, sorted)
    }
}

/// One more than the largest symbol from `s` on that occurs, or `so_far`.
pub open spec fn used_codes(counts: Seq<u16>, s: int, so_far: usize) -> usize
    decreases counts.len() - s,
{
    if s < 0 || s >= counts.len() {
        so_far
    } else if counts[s] != 0 {
        used_codes(counts, s + 1, (s + 1) as usize)
    } else {
        used_codes(counts, s + 1, so_far)
    }
}

/// No symbol from the number of codes in use on occurs, and the symbol
/// before that number does, where there is one after `s`.
pub proof fn lemma_used_codes(counts: Seq<u16>, s: int, so_far: usize)
    requires
        0 <= s,
        so_far <= s,
        counts.len() <= 0xffff,
    ensures
        so_far <= used_codes(counts, s, so_far),
        used_codes(counts, s, so_far) <= s || used_codes(counts, s, so_far) <= counts.len(),
        forall|i: int|
            s <= i < counts.len() && used_codes(counts, s, so_far) <= i ==> #[trigger] counts[i]
                == 0,
        used_codes(counts, s, so_far) > s ==> counts[used_codes(counts, s, so_far) - 1] != 0,
        used_codes(counts, s, so_far) <= s ==> used_codes(counts, s, so_far) == so_far,
    decreases counts.len() - s,
{
    if s >= counts.len() {
    } else if counts[s] != 0 {
        lemma_used_codes(counts, s + 1, (s + 1) as usize);
    } else {
        lemma_used_codes(counts, s + 1, so_far);
    }
}

/// The state of the merge that builds the inner nodes in place: the
/// weights not yet used, the next inner node without a parent and the
/// next leaf.
pub struct MergeState {
    pub keys: Seq<u16>,
    pub root: int,
    pub leaf: int,
}

impl MergeState {
    /// The state after the lighter of the next inner node and the next
    /// leaf went under the inner node `next`, as its first child or its second.
    pub open spec fn pick(self, next: int, first: bool) -> MergeState {
        let n = self.keys.len();
        let take_root = self.leaf >= n || ((first || self.root < next) && key_at(
            self.keys,
            self.root,
        ) < key_at(self.keys, self.leaf));
        let picked = if take_root {
            key_at(self.keys, self.root)
        } else {
            key_at(self.keys, self.leaf)
        };
        let weight = if first {
            picked
        } else {
            key_at(self.keys, next).wrapping_add(picked)
        };
        let keys = with_key(self.keys, next, weight);
        if take_root {
            MergeState { keys: with_key(keys, self.root, next as u16), root: self.root + 1, ..self }
        } else {
            MergeState { keys, leaf: self.leaf + 1, ..self }
        }
    }

    /// The state after the inner nodes from `next` on were built.
    pub open spec fn merge(self, next: int) -> MergeState
        decreases self.keys.len() - next,
    {
        if next < 1 || next + 1 >= self.keys.len() {
            self
        } else {
            self.pick(next, true).pick(next, false).merge(next + 1)
        }
    }
}

/// The keys after the parents of the inner nodes from `next` down were
/// replaced by their depths.
pub open spec fn node_depths(keys: Seq<u16>, next: int) -> Seq<u16>
    decreases next + 1,
{
    if next < 0 {
        keys
    } else {
        node_depths(
            with_key(keys, next, key_at(keys, key_at(keys, next) as int).wrapping_add(1)),
            next - 1,
        )
    }
}

/// Number of inner nodes from `root` down that have the depth `depth`.
pub open spec fn nodes_at_depth(keys: Seq<u16>, root: int, depth: u16) -> int
    decreases root + 1,
{
    if root < 0 || key_at(keys, root) != depth || root >= keys.len() {
        0
    } else {
        1 + nodes_at_depth(keys, root - 1, depth)
    }
}

/// The keys after `count` places from `next` down got the depth `depth`.
pub open spec fn fill_depth(keys: Seq<u16>, next: int, count: int, depth: u16) -> Seq<u16>
    decreases count,
{
    if count <= 0 || next < 0 {
        keys
    } else {
        fill_depth(with_key(keys, next, depth), next - 1, count - 1, depth)
    }
}

/// The keys after the leaves got their depths, level by level: on each
/// level the places that the inner nodes leave free are leaves.
pub open spec fn leaf_depths(keys: Seq<u16>, root: int, next: int, available: int, depth: u16) -> Seq<
    u16,
>
    decreases root + 2,
{
    if available <= 0 || root < -1 {
        keys
    } else {
        let used = nodes_at_depth(keys, root, depth);
        let leaves = if available > used {
            available - used
        } else {
            0
        };
        let filled = fill_depth(keys, next, leaves, depth);
        if used <= 0 || used > root + 1 {
            filled
        } else {
            leaf_depths(
                filled,
                root - used,
                if next - leaves < -1 {
                    -1
                } else {
                    next - leaves
                },
                2 * used,
                depth.wrapping_add(1),
            )
        }
    }
}

/// The code sizes of an optimal code for the sorted weights `keys`.
pub open spec fn minimum_redundancy(keys: Seq<u16>) -> Seq<u16> {
    let n = keys.len() as int;
    if n == 0 {
        keys
    } else if n == 1 {
        keys.update(0, 1)
    } else {
        let start = MergeState {
            keys: keys.update(0, keys[0].wrapping_add(keys[1])),
            root: 0,
            leaf: 2,
        };
        let merged = start.merge(1).keys;
        let depths = node_depths(with_key(merged, n - 2, 0), n - 3);
        leaf_depths(depths, n - 2, n - 1, 1, 0)
    }
}

/// The number of keys from place `i` on with each size, added to
/// `counts`. Sizes beyond the largest that is counted are counted with it.
pub open spec fn count_sizes(keys: Seq<u16>, i: int, counts: Seq<u32>) -> Seq<u32>
    decreases keys.len() - i,
{
    if i < 0 || i >= keys.len() {
        counts
    } else {
        let size = if keys[i] > 32 {
            32int
        } else {
            keys[i] as int
        };
        count_sizes(keys, i + 1, with_count(counts, size, key_at32(counts, size).wrapping_add(1)))
    }
}

/// The entry at place `i`, or 0 where there is none.
pub open spec fn key_at32(counts: Seq<u32>, i: int) -> u32 {
    if 0 <= i < counts.len() {
        counts[i]
    } else {
        0
    }
}

/// The sum of the counts from place `i` on.
pub open spec fn sum_counts(counts: Seq<u32>, i: int) -> u32
    decreases counts.len() - i,
{
    if i < 0 || i >= counts.len() {
        0
    } else {
        counts[i].wrapping_add(sum_counts(counts, i + 1))
    }
}

/// What the codes of the sizes from `i` up to `max_bits` take of the
/// code space, in units of the longest code, added to `total` doubled
/// for each size.
pub open spec fn code_space(counts: Seq<u32>, i: int, max_bits: int, total: u32) -> u32
    decreases max_bits + 1 - i,
{
    if i < 0 || i > max_bits {
        total
    } else {
        code_space(
            counts,
            i + 1,
            max_bits,
            total.wrapping_mul(2).wrapping_add(key_at32(counts, i)),
        )
    }
}

/// The largest size from `bits` down that has a code, or 0.
pub open spec fn last_used_size(counts: Seq<u32>, bits: int) -> int
    decreases bits,
{
    if bits <= 0 {
        0
    } else if key_at32(counts, bits) != 0 {
        bits
    } else {
        last_used_size(counts, bits - 1)
    }
}

/// The counts after the code space was brought down by `excess` units:
/// each time a code of the largest size goes, and a code of the nearest
/// shorter size in use becomes two of the next size.
pub open spec fn shrink_codes(counts: Seq<u32>, max_bits: int, excess: int) -> Seq<u32>
    decreases excess,
{
    if excess <= 0 {
        counts
    } else {
        let cut = with_count(counts, max_bits, key_at32(counts, max_bits).wrapping_sub(1));
        let i = last_used_size(cut, max_bits - 1);
        let next = if i >= 1 {
            let moved = with_count(cut, i, key_at32(cut, i).wrapping_sub(1));
            with_count(moved, i + 1, key_at32(moved, i + 1).wrapping_add(2))
        } else {
            cut
        };
        shrink_codes(next, max_bits, excess - 1)
    }
}

/// The counts of the code sizes brought under the limit `max_bits`.
pub open spec fn enforce_max_code_size(counts: Seq<u32>, code_list_len: int, max_bits: u32) -> Seq<
    u32,
> {
    if code_list_len <= 1 {
        counts
    } else {
        let merged = with_count(
            counts,
            max_bits as int,
            key_at32(counts, max_bits as int).wrapping_add(sum_counts(counts, max_bits + 1)),
        );
        let total = code_space(merged, 1, max_bits as int, 0);
        let limit = 1u32 << max_bits;
        if total > limit {
            shrink_codes(merged, max_bits as int, total - limit)
        } else {
            merged
        }
    }
}

/// `sizes` with the size `size` for the symbols at the places from `from` up to `to`.
pub open spec fn label_symbols(sizes: Seq<u8>, syms: Seq<usize>, from: int, to: int, size: u8) -> Seq<
    u8,
>
    decreases to - from,
{
    if from >= to || from < 0 || from >= syms.len() {
        sizes
    } else {
        let sym = syms[from] as int;
        label_symbols(
            if sym < sizes.len() {
                sizes.update(sym, size)
            } else {
                sizes
            },
            syms,
            from + 1,
            to,
            size,
        )
    }
}

/// `sizes` after the symbols before place `last` got the sizes from `size`
/// up to `max_bits` in the numbers of the counts, the heaviest the shortest.
pub open spec fn assign_sizes(
    sizes: Seq<u8>,
    syms: Seq<usize>,
    counts: Seq<u32>,
    size: int,
    max_bits: int,
    last: int,
) -> Seq<u8>
    decreases max_bits + 1 - size,
{
    if size < 1 || size > max_bits {
        sizes
    } else {
        let first = if key_at32(counts, size) <= last {
            last - key_at32(counts, size)
        } else {
            0
        };
        assign_sizes(
            label_symbols(sizes, syms, first, last, size as u8),
            syms,
            counts,
            size + 1,
            max_bits,
            first,
        )
    }
}

/// The bit lengths that miniz gives to the symbols with the counts
/// `counts` under the limit `max_bits`, up to the last symbol in use.
#[verifier::opaque]
pub open spec fn miniz_bit_lengths(counts: Seq<u16>, max_bits: u32) -> Seq<u8> {
    let sorted = sort_symbols(
        counts,
        0,
        SortedSymbols { keys: Seq::empty(), syms: Seq::empty() },
    );
    let depths = minimum_redundancy(sorted.keys);
    let sizes = count_sizes(depths, 0, Seq::new(33, |i: int| 0u32));
    let limited = enforce_max_code_size(sizes, sorted.keys.len() as int, max_bits);
    assign_sizes(
        Seq::new(used_codes(counts, 0, 0) as nat, |i: int| 0u8),
        sorted.syms,
        limited,
        1,
        max_bits as int,
        sorted.keys.len() as int,
    )
}

/// The bit lengths that an encoder of the family `bit_calc` gives to the
/// symbols with the counts `counts` under the limit `max_bits`.
pub open spec fn spec_calc_bit_lengths(bit_calc: HufftreeBitCalc, counts: Seq<u16>, max_bits: u32) -> Seq<
    u8,
> {
    match bit_calc {
        HufftreeBitCalc::Zlib => zlib_bit_lengths(counts, max_bits),
        HufftreeBitCalc::Miniz => miniz_bit_lengths(counts, max_bits),
    }
}

fn get_key(keys: &Vec<u16>, i: usize) -> (r: u16)
    ensures
        r == key_at(keys@, i as int),
{
    if i < keys.len() {
        keys[i]
    } else {
        0
    }
}

fn set_key(keys: &mut Vec<u16>, i: usize, v: u16)
    ensures
        final(keys)@ == with_key(old(keys)@, i as int, v),
{
    if i < keys.len() {
        keys[i] = v;
    }
}

fn get_count(counts: &Vec<u32>, i: usize) -> (r: u32)
    ensures
        r == key_at32(counts@, i as int),
{
    if i < counts.len() {
        counts[i]
    } else {
        0
    }
}

fn set_count(counts: &mut Vec<u32>, i: usize, v: u32)
    ensures
        final(counts)@ == with_count(old(counts)@, i as int, v),
{
    if i < counts.len() {
        counts[i] = v;
    }
}

/// The symbols in use with their counts, in executable form.
pub struct SymbolList {
    pub keys: Vec<u16>,
    pub syms: Vec<usize>,
    pub code_count: usize,
}

fn sort_symbols_by_count(counts: &[u16]) -> (r: SymbolList)
    requires
        counts@.len() <= 0xffff,
    ensures
        (SortedSymbols { keys: r.keys@, syms: r.syms@ }) == sort_symbols(
            counts@,
            0,
            SortedSymbols { keys: Seq::empty(), syms: Seq::empty() },
        ),
        r.code_count == used_codes(counts@, 0, 0),
        r.keys@.len() == r.syms@.len(),
        r.keys@.len() <= counts@.len(),
        r.code_count <= counts@.len(),
{
    let mut keys: Vec<u16> = Vec::new();
    let mut syms: Vec<usize> = Vec::new();
    let mut code_count: usize = 0;
    let n: usize = counts.len();
    let mut s: usize = 0;
    while s < n
        invariant
            s <= n,
            n == counts@.len(),
            keys@.len() == syms@.len(),
            keys@.len() <= s,
            code_count <= s,
            sort_symbols(counts@, 0, SortedSymbols { keys: Seq::empty(), syms: Seq::empty() })
                == sort_symbols(counts@, s as int, SortedSymbols { keys: keys@, syms: syms@ }),
            used_codes(counts@, 0, 0) == used_codes(counts@, s as int, code_count),
        decreases n - s,
    {
        let key: u16 = counts[s];
        if key != 0 {
            let mut p: usize = keys.len();
            while p > 0 && keys[p - 1] > key
                invariant
                    p <= keys@.len(),
                    insert_place(keys@, key, keys@.len() as int) == insert_place(
                        keys@,
                        key,
                        p as int,
                    ),
                decreases p,
            {
                p -= 1;
            }
            keys.insert(p, key);
            syms.insert(p, s);
            code_count = s + 1;
        }
        s += 1;
    }
    SymbolList { keys, syms, code_count }
}

fn merge_pick(keys: &mut Vec<u16>, root: usize, leaf: usize, next: usize, first: bool) -> (r: (
    usize,
    usize,
))
    requires
        next < old(keys)@.len() <= 0xffff,
        root <= 0x2_0000,
        leaf <= 0x2_0000,
    ensures
        (MergeState { keys: final(keys)@, root: r.0 as int, leaf: r.1 as int }) == (MergeState {
            keys: old(keys)@,
            root: root as int,
            leaf: leaf as int,
        }).pick(next as int, first),
        final(keys)@.len() == old(keys)@.len(),
        r.0 + r.1 == root + leaf + 1,
{
    let n: usize = keys.len();
    let take_root: bool = leaf >= n || ((first || root < next) && get_key(keys, root) < get_key(
        keys,
        leaf,
    ));
    let picked: u16 = if take_root {
        get_key(keys, root)
    } else {
        get_key(keys, leaf)
    };
    let weight: u16 = if first {
        picked
    } else {
        get_key(keys, next).wrapping_add(picked)
    };
    set_key(keys, next, weight);
    if take_root {
        set_key(keys, root, next as u16);
        (root + 1, leaf)
    } else {
        (root, leaf + 1)
    }
}

fn calculate_minimum_redundancy(keys: &mut Vec<u16>)
    requires
        old(keys)@.len() <= 0xffff,
    ensures
        final(keys)@ == minimum_redundancy(old(keys)@),
        final(keys)@.len() == old(keys)@.len(),
{
    let n: usize = keys.len();
    if n == 0 {
        return ;
    }
    if n == 1 {
        keys[0] = 1;
        return ;
    }
    keys[0] = keys[0].wrapping_add(keys[1]);
    let ghost start = MergeState { keys: keys@, root: 0, leaf: 2 };
    let mut root: usize = 0;
    let mut leaf: usize = 2;
    let mut next: usize = 1;
    while next + 1 < n
        invariant
            1 <= next <= n,
            n == keys@.len(),
            n <= 0xffff,
            root + leaf == 2 * next,
            start.merge(1) == (MergeState { keys: keys@, root: root as int, leaf: leaf as int }).merge(
                next as int,
            ),
        decreases n - next,
    {
        let (r1, l1) = merge_pick(keys, root, leaf, next, true);
        let (r2, l2) = merge_pick(keys, r1, l1, next, false);
        root = r2;
        leaf = l2;
        next += 1;
    }
    assert(start.merge(1).keys == keys@);
    set_key(keys, n - 2, 0);
    let ghost merged = keys@;
    // The parent of each inner node is replaced by its depth.
    let mut i: usize = n - 2;
    while i > 0
        invariant
            i <= n - 2,
            n == keys@.len(),
            node_depths(merged, n - 3) == node_depths(keys@, i - 1),
        decreases i,
    {
        i -= 1;
        let parent: usize = get_key(keys, i) as usize;
        let depth: u16 = get_key(keys, parent).wrapping_add(1);
        set_key(keys, i, depth);
    }
    let ghost depths = keys@;
    // On each level the places that the inner nodes leave free are leaves.
    let mut available: usize = 1;
    let mut depth: u16 = 0;
    let mut root: i64 = n as i64 - 2;
    let mut next: i64 = n as i64 - 1;
    loop
        invariant_except_break
            leaf_depths(depths, n - 2, n - 1, 1, 0) == leaf_depths(
                keys@,
                root as int,
                next as int,
                available as int,
                depth,
            ),
        invariant
            n == keys@.len(),
            n <= 0xffff,
            -1 <= root <= n - 2,
            -1 <= next <= n - 1,
            available <= 2 * n,
        ensures
            leaf_depths(depths, n - 2, n - 1, 1, 0) == keys@,
            n == keys@.len(),
        decreases root + 2,
    {
        if available == 0 {
            break ;
        }
        let ghost level = keys@;
        let ghost level_root = root as int;
        let ghost level_next = next as int;
        let mut used: usize = 0;
        while root >= 0 && get_key(keys, root as usize) == depth
            invariant
                n == keys@.len(),
                keys@ == level,
                -1 <= root <= level_root,
                level_root <= n - 2,
                used + root == level_root,
                nodes_at_depth(level, level_root, depth) == used + nodes_at_depth(
                    level,
                    root as int,
                    depth,
                ),
            decreases root + 1,
        {
            used += 1;
            root -= 1;
        }
        let leaves: usize = if available > used {
            available - used
        } else {
            0
        };
        let mut count: usize = leaves;
        while count > 0 && next >= 0
            invariant
                n == keys@.len(),
                -1 <= next <= level_next,
                level_next <= 0xffff,
                count <= leaves,
                next + (leaves - count) == level_next,
                fill_depth(level, level_next, leaves as int, depth) == fill_depth(
                    keys@,
                    next as int,
                    count as int,
                    depth,
                ),
            decreases count,
        {
            let place: usize = next as usize;
            set_key(keys, place, depth);
            next -= 1;
            count -= 1;
        }
        if used == 0 {
            break ;
        }
        available = 2 * used;
        depth = depth.wrapping_add(1);
    }
}

fn count_code_sizes(keys: &Vec<u16>) -> (r: Vec<u32>)
    ensures
        r@ == count_sizes(keys@, 0, Seq::new(33, |i: int| 0u32)),
        r@.len() == 33,
{
    let mut counts: Vec<u32> = vec![0u32; 33];
    assert(counts@ =~= Seq::new(33, |i: int| 0u32));
    let mut i: usize = 0;
    while i < keys.len()
        invariant
            i <= keys@.len(),
            counts@.len() == 33,
            count_sizes(keys@, 0, Seq::new(33, |i: int| 0u32)) == count_sizes(
                keys@,
                i as int,
                counts@,
            ),
        decreases keys@.len() - i,
    {
        let size: usize = if keys[i] > 32 {
            32
        } else {
            keys[i] as usize
        };
        let c: u32 = get_count(&counts, size).wrapping_add(1);
        set_count(&mut counts, size, c);
        i += 1;
    }
    counts
}

fn limit_code_sizes(counts: &mut Vec<u32>, code_list_len: usize, max_bits: u32)
    requires
        old(counts)@.len() == 33,
        1 <= max_bits <= 15,
    ensures
        final(counts)@ == enforce_max_code_size(old(counts)@, code_list_len as int, max_bits),
        final(counts)@.len() == 33,
{
    if code_list_len <= 1 {
        return ;
    }
    let max: usize = max_bits as usize;
    let mut sum: u32 = 0;
    let mut i: usize = 33;
    while i > max + 1
        invariant
            max + 1 <= i <= 33,
            counts@.len() == 33,
            counts@ == old(counts)@,
            sum == sum_counts(counts@, i as int),
        decreases i,
    {
        i -= 1;
        sum = counts[i].wrapping_add(sum);
    }
    let merged_count: u32 = get_count(counts, max).wrapping_add(sum);
    set_count(counts, max, merged_count);
    let ghost merged = counts@;
    let mut total: u32 = 0;
    let mut i: usize = 1;
    while i <= max
        invariant
            1 <= i <= max + 1,
            max == max_bits,
            max <= 15,
            counts@ == merged,
            code_space(merged, 1, max as int, 0) == code_space(merged, i as int, max as int, total),
        decreases max + 1 - i,
    {
        total = total.wrapping_mul(2).wrapping_add(get_count(counts, i));
        i += 1;
    }
    let limit: u32 = 1u32 << max_bits;
    if total > limit {
        let mut excess: u32 = total - limit;
        while excess > 0
            invariant
                counts@.len() == 33,
                max == max_bits,
                1 <= max <= 15,
                shrink_codes(merged, max as int, total - limit) == shrink_codes(
                    counts@,
                    max as int,
                    excess as int,
                ),
            decreases excess,
        {
            let c: u32 = get_count(counts, max).wrapping_sub(1);
            set_count(counts, max, c);
            let mut bits: usize = max - 1;
            while bits > 0 && get_count(counts, bits) == 0
                invariant
                    bits < max,
                    last_used_size(counts@, max - 1) == last_used_size(counts@, bits as int),
                decreases bits,
            {
                bits -= 1;
            }
            if bits >= 1 {
                let c: u32 = get_count(counts, bits).wrapping_sub(1);
                set_count(counts, bits, c);
                let c: u32 = get_count(counts, bits + 1).wrapping_add(2);
                set_count(counts, bits + 1, c);
            }
            excess -= 1;
        }
    }
}

fn assign_code_sizes(symbols: &SymbolList, counts: &Vec<u32>, max_bits: u32) -> (r: Vec<u8>)
    requires
        1 <= max_bits <= 15,
        symbols.keys@.len() == symbols.syms@.len(),
        symbols.keys@.len() <= 0xffff,
    ensures
        r@ == assign_sizes(
            Seq::new(symbols.code_count as nat, |i: int| 0u8),
            symbols.syms@,
            counts@,
            1,
            max_bits as int,
            symbols.keys@.len() as int,
        ),
        r@.len() == symbols.code_count,
        forall|i: int| 0 <= i < r@.len() ==> #[trigger] r@[i] <= max_bits,
{
    let mut sizes: Vec<u8> = vec![0u8; symbols.code_count];
    assert(sizes@ =~= Seq::new(symbols.code_count as nat, |i: int| 0u8));
    let ghost start = sizes@;
    let mut last: usize = symbols.syms.len();
    let mut size: u32 = 1;
    while size <= max_bits
        invariant
            1 <= size <= max_bits + 1,
            max_bits <= 15,
            last <= symbols.syms@.len(),
            sizes@.len() == symbols.code_count,
            forall|i: int| 0 <= i < sizes@.len() ==> #[trigger] sizes@[i] <= max_bits,
            assign_sizes(
                start,
                symbols.syms@,
                counts@,
                1,
                max_bits as int,
                symbols.keys@.len() as int,
            ) == assign_sizes(
                sizes@,
                symbols.syms@,
                counts@,
                size as int,
                max_bits as int,
                last as int,
            ),
        decreases max_bits + 1 - size,
    {
        let count: u32 = get_count(counts, size as usize);
        let first: usize = if count as usize <= last {
            last - count as usize
        } else {
            0
        };
        let ghost level = sizes@;
        let mut j: usize = first;
        while j < last
            invariant
                first <= j <= last,
                last <= symbols.syms@.len(),
                size <= max_bits <= 15,
                sizes@.len() == symbols.code_count,
                forall|i: int| 0 <= i < sizes@.len() ==> #[trigger] sizes@[i] <= max_bits,
                label_symbols(level, symbols.syms@, first as int, last as int, size as u8)
                    == label_symbols(sizes@, symbols.syms@, j as int, last as int, size as u8),
            decreases last - j,
        {
            let sym: usize = symbols.syms[j];
            if sym < sizes.len() {
                sizes[sym] = size as u8;
            }
            j += 1;
        }
        last = first;
        size += 1;
    }
    sizes
}

/// The bit lengths that miniz gives to the symbols with the counts
/// `sym_count` under the limit `max_bits`, up to the last symbol in use.
pub fn calc_miniz_bit_lengths(sym_count: &[u16], max_bits: u32) -> (r: Vec<u8>)
    requires
        sym_count@.len() <= 0xffff,
        1 <= max_bits <= 15,
    ensures
        r@ == miniz_bit_lengths(sym_count@, max_bits),
        r@.len() <= sym_count@.len(),
        forall|i: int| 0 <= i < r@.len() ==> #[trigger] r@[i] <= max_bits,
        forall|i: int| r@.len() <= i < sym_count@.len() ==> #[trigger] sym_count@[i] == 0,
        r@.len() > 0 ==> sym_count@[r@.len() - 1] != 0,
{
    reveal(miniz_bit_lengths);
    proof {
        lemma_used_codes(sym_count@, 0, 0);
    }
    let mut symbols = sort_symbols_by_count(sym_count);
    let ghost sorted_keys = symbols.keys@;
    calculate_minimum_redundancy(&mut symbols.keys);
    let mut counts = count_code_sizes(&symbols.keys);
    limit_code_sizes(&mut counts, symbols.keys.len(), max_bits);
    assign_code_sizes(&symbols, &counts, max_bits)
}

/// The bit lengths that an encoder of the family `bit_calc` gives to the
/// symbols with the counts `sym_count` under the limit `max_bits`: one
/// length for each symbol up to the last that occurs, 0 for a symbol
/// that does not occur.
pub fn calc_bit_lengths(bit_calc: HufftreeBitCalc, sym_count: &[u16], max_bits: u32) -> (r: Vec<u8>)
    requires
        3 <= sym_count@.len() <= 0xffff,
        1 <= max_bits <= 15,
    ensures
        r@ == spec_calc_bit_lengths(bit_calc, sym_count@, max_bits),
        r@.len() <= sym_count@.len(),
        forall|i: int| 0 <= i < r@.len() ==> #[trigger] r@[i] <= max_bits,
        forall|i: int| r@.len() <= i < sym_count@.len() ==> #[trigger] sym_count@[i] == 0,
{
    match bit_calc {
        HufftreeBitCalc::Zlib => calc_zlib_bit_lengths(sym_count, max_bits),
        HufftreeBitCalc::Miniz => calc_miniz_bit_lengths(sym_count, max_bits),
    }
}

} // verus!
