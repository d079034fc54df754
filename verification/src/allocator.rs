//! A bump allocator over a fixed heap with a first-fit free list for reuse.
//!
//! The heap, its bump pointer and the free list live in `SimpleAllocator`;
//! addresses are plain `usize` values and each block's header is kept in a
//! table beside the free list.
use vstd::arithmetic::div_mod::{lemma_fundamental_div_mod, lemma_fundamental_div_mod_converse, lemma_mod_bound, lemma_mod_multiples_basic};
use vstd::arithmetic::mul::lemma_mul_is_commutative;
use vstd::arithmetic::power2::{lemma2_to64, lemma_pow2_adds, lemma_pow2_pos, lemma_pow2_strictly_increases, pow2};
use vstd::bits::{lemma_usize_low_bits_mask_is_mod, low_bits_mask};
use vstd::prelude::*;

use crate::memops::{filled, memcpy, memset, moved};

verus! {

/// Size of the heap region, in bytes.
pub const HEAP_SIZE: usize = 1024 * 1024;

/// Bytes a `BlockHeader` occupies in front of each user allocation: a
/// `usize` and a `bool`, padded to two words.
pub open spec fn header_size_spec() -> usize {
    if usize::BITS == 64 { 16 } else { 8 }
}

/// Bytes a `BlockHeader` occupies in front of each user allocation.
#[verifier::when_used_as_spec(header_size_spec)]
pub fn header_size() -> (h: usize)
    ensures
        h == header_size_spec(),
{
    proof {
        broadcast use vstd::layout::layout_of_primitives;
    }
    2 * core::mem::size_of::<usize>()
}

/// Alignment of a `BlockHeader`: that of its `usize` field, one word.
pub open spec fn header_align_spec() -> usize {
    if usize::BITS == 64 { 8 } else { 4 }
}

/// Alignment of a `BlockHeader`.
#[verifier::when_used_as_spec(header_align_spec)]
pub fn header_align() -> (a: usize)
    ensures
        a == header_align_spec(),
{
    proof {
        broadcast use vstd::layout::layout_of_primitives;
    }
    core::mem::size_of::<usize>()
}

/// The header stored immediately before each user allocation.
#[derive(Clone, Copy, Debug, PartialEq, Eq, Structural)]
pub struct BlockHeader {
    pub size: usize,
    pub in_use: bool,
}

/// `a` is a power of two that a `usize` can hold.
pub open spec fn is_pow2(a: usize) -> bool {
    exists|n: nat| n < usize::BITS && #[trigger] pow2(n) == a
}

/// `r` is the least multiple of `align` that is not below `addr`.
pub open spec fn is_aligned_up(addr: int, align: int, r: int) -> bool {
    &&& r % align == 0
    &&& addr <= r < addr + align
}

/// A power of two is at least one.
proof fn lemma_pow2_at_least_one(align: usize)
    requires
        is_pow2(align),
    ensures
        align >= 1,
{
    let n: nat = choose|n: nat| n < usize::BITS && #[trigger] pow2(n) == align;
    lemma_pow2_pos(n);
}

/// Clearing the low bits of `addr + align - 1` rounds `addr` up to a multiple of `align`.
proof fn lemma_align_up_bits(addr: usize, align: usize, mask: usize, sum: usize)
    requires
        is_pow2(align),
        mask == align - 1,
        sum == addr + mask,
    ensures
        is_aligned_up(addr as int, align as int, (sum & !mask) as int),
{
    let n: nat = choose|n: nat| n < usize::BITS && #[trigger] pow2(n) == align;
    lemma_pow2_pos(n);
    assert(mask == low_bits_mask(n) as usize);
    lemma_usize_low_bits_mask_is_mod(sum, n);
    assert(sum & mask == sum % align);
    assert((sum & !mask) + (sum & mask) == sum) by (bit_vector);
    let r: int = (sum & !mask) as int;
    lemma_fundamental_div_mod(sum as int, align as int);
    assert(r == align * (sum as int / align as int));
    lemma_mod_multiples_basic(sum as int / align as int, align as int);
    assert(r % (align as int) == 0) by {
        lemma_mul_is_commutative(align as int, sum as int / align as int);
    }
    lemma_mod_bound(sum as int, align as int);
}

/// The least multiple of `align` that is not below `addr`.
pub open spec fn aligned_up(addr: int, align: int) -> int {
    ((addr + align - 1) / align) * align
}

/// `aligned_up` is the one value that `is_aligned_up` describes.
pub proof fn lemma_aligned_up_unique(addr: int, align: int, r: int)
    requires
        align > 0,
        is_aligned_up(addr, align, r),
    ensures
        r == aligned_up(addr, align),
{
    lemma_fundamental_div_mod(r, align);
    let q: int = r / align;
    assert(r == align * q);
    lemma_mul_is_commutative(align, q);
    let rem: int = addr + align - 1 - q * align;
    assert(0 <= rem < align);
    lemma_fundamental_div_mod_converse(addr + align - 1, align, q, rem);
}

/// Rounds `addr` up to the next multiple of `align`.
pub fn align_up(addr: usize, align: usize) -> (r: usize)
    requires
        is_pow2(align),
        addr + align - 1 <= usize::MAX,
    ensures
        is_aligned_up(addr as int, align as int, r as int),
        r == aligned_up(addr as int, align as int),
{
    proof { lemma_pow2_at_least_one(align); }
    let mask: usize = align - 1;
    let sum: usize = addr + mask;
    proof {
        lemma_align_up_bits(addr, align, mask, sum);
        lemma_aligned_up_unique(addr as int, align as int, (sum & !mask) as int);
    }
    sum & !mask
}

/// `aligned_up` gives a multiple of the alignment.
pub proof fn lemma_aligned_up_is_multiple(addr: int, align: int)
    requires
        align > 0,
    ensures
        aligned_up(addr, align) % align == 0,
{
    lemma_mod_multiples_basic((addr + align - 1) / align, align);
}

/// `aligned_up` is a multiple of `align` in `[addr, addr + align)`.
pub proof fn lemma_aligned_up_bounds(addr: int, align: int)
    requires
        align > 0,
    ensures
        is_aligned_up(addr, align, aligned_up(addr, align)),
{
    let q = (addr + align - 1) / align;
    lemma_fundamental_div_mod(addr + align - 1, align);
    lemma_mod_bound(addr + align - 1, align);
    lemma_mul_is_commutative(align, q);
    lemma_aligned_up_is_multiple(addr, align);
}

/// When rounding `addr` up to a power of two would overflow the computation
/// `addr + align - 1`, the rounded value itself lies past `usize::MAX`.
pub proof fn lemma_aligned_up_past_max(addr: usize, align: usize)
    requires
        is_pow2(align),
        addr + align - 1 > usize::MAX,
    ensures
        aligned_up(addr as int, align as int) > usize::MAX,
{
    let n: nat = choose|n: nat| n < usize::BITS && #[trigger] pow2(n) == align;
    lemma_pow2_pos(n);
    let k: nat = (usize::BITS - n) as nat;
    lemma_pow2_adds(n, k);
    lemma2_to64();
    let top: int = pow2(usize::BITS as nat) as int;
    assert(top == usize::MAX + 1);
    let m: int = pow2(k) as int;
    assert(top == align * m);
    lemma_aligned_up_bounds(addr as int, align as int);
    let u = aligned_up(addr as int, align as int);
    let q = (addr + align - 1) / (align as int);
    assert(u == q * align);
    assert(u > top - align);
    assert(q * align > (m - 1) * align) by (nonlinear_arith)
        requires u == q * align, u > top - align, top == align * m;
    assert(q > m - 1) by (nonlinear_arith)
        requires q * align > (m - 1) * align, align > 0;
    assert(u >= top) by (nonlinear_arith)
        requires q >= m, u == q * align, top == align * m, align > 0;
}

/// A multiple of `effective_align(align)` is a multiple of `align`.
pub proof fn lemma_effective_align_divides(r: int, align: usize)
    requires
        is_pow2(align),
        r % (effective_align(align) as int) == 0,
    ensures
        r % (align as int) == 0,
{
    if align < header_align() {
        let n: nat = choose|n: nat| n < usize::BITS && #[trigger] pow2(n) == align;
        lemma2_to64();
        if n > 3 {
            lemma_pow2_strictly_increases(3, n);
        }
        assert(n < 3);
        if n == 0 {
        } else if n == 1 {
        } else {
            assert(n == 2);
        }
        assert(align == 1 || align == 2 || align == 4);
        assert(r % (header_align() as int) == 0);
        assert(r % (align as int) == 0) by (nonlinear_arith)
            requires
                r % (header_align() as int) == 0,
                header_align() == 8 || header_align() == 4,
                align == 1 || align == 2 || align == 4,
                align < header_align();
    }
}

/// Size of a header followed by a value of type `T`.
pub fn size_of_with_header<T>() -> (r: usize)
    requires
        header_size() + vstd::layout::size_of::<T>() <= usize::MAX,
    ensures
        r == header_size() + vstd::layout::size_of::<T>(),
{
    header_size() + core::mem::size_of::<T>()
}

/// A node of the free list: a freed block, found again by the address of
/// its header, and the size recorded in that header.
#[derive(Clone, Copy, Debug, PartialEq, Eq, Structural)]
pub struct FreeBlockNode {
    pub addr: usize,
    pub size: usize,
}

/// The block of `node` can serve a request that needs `required` bytes,
/// header included, with user data aligned to `align`: it is large enough
/// and the address behind its header is a multiple of `align`.
pub open spec fn serves(node: FreeBlockNode, required: int, align: int) -> bool {
    &&& node.size >= required
    &&& node.addr + header_size() <= usize::MAX
    &&& (node.addr + header_size()) % align == 0
}

/// `i` is the first node, counted from the head, that can serve the request.
pub open spec fn is_first_fit(nodes: Seq<FreeBlockNode>, required: int, align: int, i: int) -> bool {
    &&& 0 <= i < nodes.len()
    &&& serves(nodes[i], required, align)
    &&& forall|j: int| 0 <= j < i ==> !serves(#[trigger] nodes[j], required, align)
}

/// Some node of the list can serve the request.
pub open spec fn has_fit(nodes: Seq<FreeBlockNode>, required: int, align: int) -> bool {
    exists|i: int| 0 <= i < nodes.len() && serves(#[trigger] nodes[i], required, align)
}

/// Index of the first node that can serve the request.
pub open spec fn first_fit(nodes: Seq<FreeBlockNode>, required: int, align: int) -> int {
    choose|i: int| is_first_fit(nodes, required, align, i)
}

/// The first fit is unique, so `first_fit` names it.
pub proof fn lemma_first_fit_is(nodes: Seq<FreeBlockNode>, required: int, align: int, i: int)
    requires
        is_first_fit(nodes, required, align, i),
    ensures
        has_fit(nodes, required, align),
        first_fit(nodes, required, align) == i,
{
    let k = first_fit(nodes, required, align);
    assert(is_first_fit(nodes, required, align, k));
    if k < i {
        assert(!serves(nodes[k], required, align));
    } else if i < k {
        assert(!serves(nodes[i], required, align));
    }
}

/// When some node can serve the request, `first_fit` is the first such node.
pub proof fn lemma_has_fit_first(nodes: Seq<FreeBlockNode>, required: int, align: int)
    requires
        has_fit(nodes, required, align),
    ensures
        is_first_fit(nodes, required, align, first_fit(nodes, required, align)),
{
    let w = choose|w: int| 0 <= w < nodes.len() && serves(#[trigger] nodes[w], required, align);
    lemma_first_fit_exists(nodes, required, align, w);
}

/// Below any node that serves the request there is a first one.
proof fn lemma_first_fit_exists(nodes: Seq<FreeBlockNode>, required: int, align: int, w: int)
    requires
        0 <= w < nodes.len(),
        serves(nodes[w], required, align),
    ensures
        is_first_fit(nodes, required, align, first_fit(nodes, required, align)),
    decreases w,
{
    if exists|j: int| 0 <= j < w && serves(#[trigger] nodes[j], required, align) {
        let j = choose|j: int| 0 <= j < w && serves(#[trigger] nodes[j], required, align);
        lemma_first_fit_exists(nodes, required, align, j);
    } else {
        assert(is_first_fit(nodes, required, align, w));
    }
}

/// The list of freed blocks, head first; a freed block is pushed at the head.
pub struct FreeList {
    nodes: Vec<FreeBlockNode>,
}

impl View for FreeList {
    type V = Seq<FreeBlockNode>;

    closed spec fn view(&self) -> Seq<FreeBlockNode> {
        self.nodes@
    }
}

impl FreeList {
    /// An empty list.
    pub fn new() -> (l: FreeList)
        ensures
            l@ == Seq::<FreeBlockNode>::empty(),
    {
        FreeList { nodes: Vec::new() }
    }

    /// Pushes the block at `block` with the given size at the head.
    pub fn push_block_node(&mut self, block: usize, size: usize)
        ensures
            final(self)@ == seq![FreeBlockNode { addr: block, size }] + old(self)@,
    {
        self.nodes.insert(0, FreeBlockNode { addr: block, size });
        assert(self@ =~= seq![FreeBlockNode { addr: block, size }] + old(self)@);
    }

    /// Pushes the block whose header stands at `block` at the head; the node
    /// records the size held in that header.
    pub fn push(&mut self, block: usize, header: &BlockHeader)
        ensures
            final(self)@ == seq![FreeBlockNode { addr: block, size: header.size }] + old(self)@,
    {
        self.push_block_node(block, header.size);
    }

    /// Unlinks the first node, from the head, that can serve a request of
    /// `required_size` bytes whose user data, behind the header, must be
    /// aligned to `align`, and returns its address and size; `None` when no
    /// node can, the list then being unchanged.
    pub fn find_and_remove(&mut self, required_size: usize, align: usize) -> (r: Option<(usize, usize)>)
        requires
            align > 0,
        ensures
            match r {
                Some((addr, size)) => {
                    let i = first_fit(old(self)@, required_size as int, align as int);
                    &&& has_fit(old(self)@, required_size as int, align as int)
                    &&& addr == old(self)@[i].addr
                    &&& size == old(self)@[i].size
                    &&& final(self)@ == old(self)@.remove(i)
                },
                None => {
                    &&& !has_fit(old(self)@, required_size as int, align as int)
                    &&& final(self)@ == old(self)@
                },
            },
    {
        let mut i: usize = 0;
        while i < self.nodes.len()
            invariant
                self@ == old(self)@,
                align > 0,
                i <= self.nodes.len(),
                forall|j: int| 0 <= j < i ==> !serves(#[trigger] self.nodes@[j], required_size as int, align as int),
            decreases self.nodes.len() - i,
        {
            let node: FreeBlockNode = self.nodes[i];
            if node.size >= required_size && node.addr <= usize::MAX - header_size()
                && (node.addr + header_size()) % align == 0 {
                proof {
                    lemma_first_fit_is(old(self)@, required_size as int, align as int, i as int);
                }
                self.nodes.remove(i);
                return Some((node.addr, node.size));
            }
            i = i + 1;
        }
        None
    }
}

/// A block carved out of the heap: the address of its header and the header.
#[derive(Clone, Copy, Debug, PartialEq, Eq, Structural)]
pub struct Block {
    pub addr: usize,
    pub header: BlockHeader,
}

impl BlockHeader {
    /// Address of the header in front of the user data at `ptr`.
    pub fn from_user_ptr(ptr: usize) -> (block: usize)
        requires
            ptr >= header_size(),
        ensures
            block == ptr - header_size(),
    {
        ptr - header_size()
    }
}

impl Block {
    /// Address of the user data behind the header.
    pub fn user_ptr(&self) -> (ptr: usize)
        requires
            self.addr + header_size() <= usize::MAX,
        ensures
            ptr == self.addr + header_size(),
    {
        self.addr + header_size()
    }

    /// The header's address advanced by the size it records.
    pub fn next_block(&self) -> (next: usize)
        requires
            self.addr + self.header.size <= usize::MAX,
        ensures
            next == self.addr + self.header.size,
    {
        self.addr + self.header.size
    }
}

/// First address past a block's user data.
pub open spec fn block_end(b: Block) -> int {
    b.addr + header_size() + b.header.size
}

/// The blocks lie inside `[start, ptr)`, in address order, without overlap.
pub open spec fn blocks_wf(bs: Seq<Block>, start: int, ptr: int) -> bool {
    &&& forall|i: int| 0 <= i < bs.len() ==> start <= #[trigger] bs[i].addr && block_end(bs[i]) <= ptr
    &&& forall|i: int, j: int| 0 <= i < j < bs.len() ==> block_end(#[trigger] bs[i]) <= #[trigger] bs[j].addr
}

/// Some block has its header at `addr`.
pub open spec fn has_block(bs: Seq<Block>, addr: int) -> bool {
    exists|i: int| 0 <= i < bs.len() && #[trigger] bs[i].addr == addr
}

/// The index of the block whose header is at `addr`.
pub open spec fn block_index(bs: Seq<Block>, addr: int) -> int {
    choose|i: int| 0 <= i < bs.len() && #[trigger] bs[i].addr == addr
}

/// The block whose header is at `addr`.
pub open spec fn block_at(bs: Seq<Block>, addr: int) -> Block {
    bs[block_index(bs, addr)]
}

/// Every free node names a block and carries that block's size, and no
/// block is on the list twice.
pub open spec fn free_wf(free: Seq<FreeBlockNode>, bs: Seq<Block>) -> bool {
    &&& forall|k: int| 0 <= k < free.len() ==> has_block(bs, #[trigger] free[k].addr as int)
    &&& forall|k: int| 0 <= k < free.len() ==> #[trigger] block_at(bs, free[k].addr as int).header.size == free[k].size
    &&& forall|k1: int, k2: int| 0 <= k1 < k2 < free.len() ==> #[trigger] free[k1].addr != #[trigger] free[k2].addr
}

/// The block table after the header at `addr` was marked in use with size `size`.
pub open spec fn mark_in_use(bs: Seq<Block>, addr: int, size: usize) -> Seq<Block> {
    Seq::new(bs.len(), |j: int|
        if bs[j].addr == addr { Block { addr: bs[j].addr, header: BlockHeader { size, in_use: true } } } else { bs[j] })
}

/// Alignment used for a block carved from the heap: the requested one, but
/// at least that of a header.
pub open spec fn effective_align(align: usize) -> usize {
    if align < header_align() { header_align() } else { align }
}

/// Distinct indices of well-formed blocks name distinct addresses.
pub proof fn lemma_block_index(bs: Seq<Block>, start: int, ptr: int, i: int)
    requires
        blocks_wf(bs, start, ptr),
        0 <= i < bs.len(),
    ensures
        has_block(bs, bs[i].addr as int),
        block_index(bs, bs[i].addr as int) == i,
        block_at(bs, bs[i].addr as int) == bs[i],
{
    let k = block_index(bs, bs[i].addr as int);
    assert(0 <= k < bs.len() && bs[k].addr == bs[i].addr);
    if k < i {
        assert(block_end(bs[k]) <= bs[i].addr);
    } else if i < k {
        assert(block_end(bs[i]) <= bs[k].addr);
    }
}

/// The allocator: the heap's place and bump pointer, the free list and the
/// table of block headers.
pub struct SimpleAllocator {
    heap_initialized: bool,
    heap_start: usize,
    heap_ptr: usize,
    free_list: FreeList,
    blocks: Vec<Block>,
}

impl SimpleAllocator {
    /// Whether the heap has been placed yet.
    pub closed spec fn initialized(&self) -> bool {
        self.heap_initialized
    }

    /// Address of the first byte of the heap (0 before it is placed).
    pub closed spec fn heap_start(&self) -> usize {
        self.heap_start
    }

    /// The bump pointer: the first heap address no block has taken yet.
    pub closed spec fn heap_ptr(&self) -> usize {
        self.heap_ptr
    }

    /// The free list, head first.
    pub closed spec fn free_nodes(&self) -> Seq<FreeBlockNode> {
        self.free_list@
    }

    /// Every block carved from the heap, in address order.
    pub closed spec fn blocks(&self) -> Seq<Block> {
        self.blocks@
    }

    /// The allocator's invariant.
    pub closed spec fn wf(&self) -> bool {
        &&& !self.heap_initialized ==> {
            &&& self.heap_start == 0
            &&& self.heap_ptr == 0
            &&& self.free_list@.len() == 0
            &&& self.blocks@.len() == 0
        }
        &&& self.heap_initialized ==> self.heap_start <= self.heap_ptr <= self.heap_start + HEAP_SIZE
            <= usize::MAX
        &&& blocks_wf(self.blocks@, self.heap_start as int, self.heap_ptr as int)
        &&& free_wf(self.free_list@, self.blocks@)
    }

    /// `ptr` was handed out by `alloc` and has not been freed since.
    pub open spec fn is_allocated(&self, ptr: usize) -> bool {
        &&& ptr >= header_size()
        &&& has_block(self.blocks(), ptr - header_size())
        &&& forall|k: int| 0 <= k < self.free_nodes().len()
            ==> #[trigger] self.free_nodes()[k].addr != ptr - header_size()
    }

    /// The header in front of the allocation at `ptr`.
    pub open spec fn header_of(&self, ptr: usize) -> BlockHeader {
        block_at(self.blocks(), ptr - header_size()).header
    }

    /// Where the heap starts once placed: its current start, or `heap_addr`
    /// when it is not placed yet.
    pub open spec fn start_with(&self, heap_addr: usize) -> usize {
        if self.initialized() { self.heap_start() } else { heap_addr }
    }

    /// The bump pointer once the heap is placed.
    pub open spec fn bump_with(&self, heap_addr: usize) -> usize {
        if self.initialized() { self.heap_ptr() } else { heap_addr }
    }

    /// The heap, once placed, lies in the address space, and a request's size
    /// with a header does not exceed `usize::MAX`.
    pub open spec fn alloc_in_range(&self, size: usize, align: usize, heap_addr: usize) -> bool {
        &&& self.start_with(heap_addr) + HEAP_SIZE <= usize::MAX
        &&& size + header_size() <= usize::MAX
    }

    /// What `alloc_from_heap(size, align, heap_addr)` does, taking `self` to
    /// `new` and returning `r`: the heap is placed, then a block whose user
    /// data starts at the first multiple of `effective_align(align)` past the
    /// bump pointer and a header is carved, when it ends inside the heap.
    pub open spec fn heap_alloc_spec(self, new: Self, size: usize, align: usize, heap_addr: usize, r: Option<usize>) -> bool {
        let user = aligned_up(self.bump_with(heap_addr) + header_size(), effective_align(align) as int);
        &&& new.initialized()
        &&& new.heap_start() == self.start_with(heap_addr)
        &&& new.free_nodes() == self.free_nodes()
        &&& if user + size > self.start_with(heap_addr) + HEAP_SIZE {
            &&& r == None::<usize>
            &&& new.heap_ptr() == self.bump_with(heap_addr)
            &&& new.blocks() == self.blocks()
        } else {
            &&& r == Some((user - header_size()) as usize)
            &&& new.heap_ptr() == user + size
            &&& new.blocks() == self.blocks().push(
                Block { addr: (user - header_size()) as usize, header: BlockHeader { size, in_use: true } },
            )
        }
    }

    /// What `allocate(size, align, heap_addr)` does, taking `self` to `new` and returning `r`.
    pub open spec fn alloc_spec(self, new: Self, size: usize, align: usize, heap_addr: usize, r: usize) -> bool {
        let required = size + header_size();
        if has_fit(self.free_nodes(), required, align as int) {
            let node = self.free_nodes()[first_fit(self.free_nodes(), required, align as int)];
            &&& r == node.addr + header_size()
            &&& new.free_nodes() == self.free_nodes().remove(first_fit(self.free_nodes(), required, align as int))
            &&& new.blocks() == mark_in_use(self.blocks(), node.addr as int, node.size)
            &&& new.initialized() == self.initialized()
            &&& new.heap_start() == self.heap_start()
            &&& new.heap_ptr() == self.heap_ptr()
        } else {
            let user = aligned_up(self.bump_with(heap_addr) + header_size(), effective_align(align) as int);
            &&& new.initialized()
            &&& new.heap_start() == self.start_with(heap_addr)
            &&& new.free_nodes() == self.free_nodes()
            &&& if user + size > self.start_with(heap_addr) + HEAP_SIZE {
                &&& r == 0
                &&& new.heap_ptr() == self.bump_with(heap_addr)
                &&& new.blocks() == self.blocks()
            } else {
                &&& r == user
                &&& new.heap_ptr() == user + size
                &&& new.blocks() == self.blocks().push(
                    Block { addr: (user - header_size()) as usize, header: BlockHeader { size, in_use: true } },
                )
            }
        }
    }

    /// What `dealloc(ptr)` does, taking `self` to `new`.
    pub open spec fn dealloc_spec(self, new: Self, ptr: usize) -> bool {
        &&& new.free_nodes() == seq![FreeBlockNode { addr: (ptr - header_size()) as usize, size: self.header_of(ptr).size }]
            + self.free_nodes()
        &&& new.blocks() == self.blocks()
        &&& new.initialized() == self.initialized()
        &&& new.heap_start() == self.heap_start()
        &&& new.heap_ptr() == self.heap_ptr()
    }

    /// An allocator whose heap is not placed yet and holds no block.
    pub fn new() -> (a: SimpleAllocator)
        ensures
            a.wf(),
            !a.initialized(),
            a.heap_start() == 0,
            a.heap_ptr() == 0,
            a.free_nodes() == Seq::<FreeBlockNode>::empty(),
            a.blocks() == Seq::<Block>::empty(),
    {
        SimpleAllocator {
            heap_initialized: false,
            heap_start: 0,
            heap_ptr: 0,
            free_list: FreeList::new(),
            blocks: Vec::new(),
        }
    }

    /// What `heap_init(heap_addr)` does, taking `self` to `new`.
    pub open spec fn heap_init_spec(self, new: Self, heap_addr: usize) -> bool {
        &&& new.initialized()
        &&& new.heap_start() == self.start_with(heap_addr)
        &&& new.heap_ptr() == self.bump_with(heap_addr)
        &&& new.free_nodes() == self.free_nodes()
        &&& new.blocks() == self.blocks()
    }

    /// Placing the heap twice is placing it once: the second call changes
    /// nothing, whatever address it is given.
    pub proof fn lemma_heap_init_idempotent(s0: SimpleAllocator, s1: SimpleAllocator, s2: SimpleAllocator, a: usize, b: usize)
        requires
            s0.heap_init_spec(s1, a),
            s1.heap_init_spec(s2, b),
        ensures
            s0.heap_init_spec(s2, a),
            s2.heap_start() == s1.heap_start(),
            s2.heap_ptr() == s1.heap_ptr(),
    {
    }

    /// Places the heap at `heap_addr` the first time it is called: its start
    /// and bump pointer become `heap_addr`. Later calls change nothing.
    pub fn heap_init(&mut self, heap_addr: usize)
        requires
            old(self).wf(),
            old(self).start_with(heap_addr) + HEAP_SIZE <= usize::MAX,
        ensures
            final(self).wf(),
            old(self).heap_init_spec(*final(self), heap_addr),
    {
        if !self.heap_initialized {
            self.heap_start = heap_addr;
            self.heap_ptr = heap_addr;
            self.heap_initialized = true;
        }
    }

    /// Places the heap at `heap_addr` if it was not placed yet, then carves a
    /// block for `size` bytes aligned to `align` from the top of the heap and
    /// returns the address of its header, or `None` when the block would not
    /// end inside the heap (however large `size` or `align` are). The free
    /// list is not consulted.
    pub fn alloc_from_heap(&mut self, size: usize, align: usize, heap_addr: usize) -> (r: Option<usize>)
        requires
            old(self).wf(),
            is_pow2(align),
            old(self).start_with(heap_addr) + HEAP_SIZE <= usize::MAX,
        ensures
            final(self).wf(),
            old(self).heap_alloc_spec(*final(self), size, align, heap_addr, r),
            r matches Some(b) ==> b + header_size() <= usize::MAX,
            final(self).heap_start() == old(self).start_with(heap_addr),
            old(self).bump_with(heap_addr) <= final(self).heap_ptr() <= final(self).heap_start() + HEAP_SIZE,
    {
        self.heap_init(heap_addr);
        let effective_align: usize = if align < header_align() { header_align() } else { align };
        proof {
            assert(is_pow2(header_align())) by {
                lemma2_to64();
                assert(pow2(3) == 8);
                assert(pow2(2) == 4);
            }
            lemma_pow2_at_least_one(effective_align);
        }
        let h: usize = header_size();
        let end: usize = self.heap_start + HEAP_SIZE;
        if self.heap_ptr > usize::MAX - h {
            proof { lemma_aligned_up_bounds(self.heap_ptr + h, effective_align as int); }
            return None;
        }
        let unaligned: usize = self.heap_ptr + h;
        if unaligned > usize::MAX - (effective_align - 1) {
            proof { lemma_aligned_up_past_max(unaligned, effective_align); }
            return None;
        }
        let user_ptr: usize = align_up(unaligned, effective_align);
        let block_ptr: usize = user_ptr - h;
        if user_ptr > end || size > end - user_ptr {
            return None;
        }
        let ghost old_blocks = self.blocks@;
        self.blocks.push(Block { addr: block_ptr, header: BlockHeader { size, in_use: true } });
        self.heap_ptr = user_ptr + size;
        proof {
            let bs = self.blocks@;
            assert forall|i: int| 0 <= i < bs.len() implies self.heap_start <= #[trigger] bs[i].addr
                && block_end(bs[i]) <= self.heap_ptr by {
                if i < old_blocks.len() {
                    assert(bs[i] == old_blocks[i]);
                }
            }
            assert forall|i: int, j: int| 0 <= i < j < bs.len() implies block_end(#[trigger] bs[i])
                <= #[trigger] bs[j].addr by {
                if j < old_blocks.len() {
                    assert(bs[i] == old_blocks[i] && bs[j] == old_blocks[j]);
                } else {
                    assert(bs[i] == old_blocks[i]);
                }
            }
            assert forall|k: int| 0 <= k < self.free_list@.len() implies has_block(bs, #[trigger] self.free_list@[k].addr as int)
                && block_at(bs, self.free_list@[k].addr as int).header.size == self.free_list@[k].size by {
                let a = self.free_list@[k].addr as int;
                let i = block_index(old_blocks, a);
                lemma_block_index(old_blocks, self.heap_start as int, old(self).bump_with(heap_addr) as int, i);
                assert(bs[i] == old_blocks[i]);
                lemma_block_index(bs, self.heap_start as int, self.heap_ptr as int, i);
            }
        }
        Some(block_ptr)
    }

    /// Index of the block whose header is at `addr`.
    fn find_block(&self, addr: usize) -> (i: usize)
        requires
            blocks_wf(self.blocks@, self.heap_start as int, self.heap_ptr as int),
            has_block(self.blocks@, addr as int),
        ensures
            i < self.blocks@.len(),
            self.blocks@[i as int].addr == addr,
            i == block_index(self.blocks@, addr as int),
    {
        let ghost target = block_index(self.blocks@, addr as int);
        let mut i: usize = 0;
        while i < self.blocks.len()
            invariant
                blocks_wf(self.blocks@, self.heap_start as int, self.heap_ptr as int),
                0 <= target < self.blocks@.len(),
                self.blocks@[target].addr == addr,
                i <= target,
            decreases self.blocks.len() - i,
        {
            if self.blocks[i].addr == addr {
                proof {
                    lemma_block_index(self.blocks@, self.heap_start as int, self.heap_ptr as int, i as int);
                }
                return i;
            }
            i = i + 1;
        }
        i
    }

    /// Allocates `size` bytes aligned to `align` and returns the address of
    /// the user data, or 0 when the heap is exhausted.
    ///
    /// The first free block, from the head of the free list, whose recorded
    /// size is at least `size` plus a header and whose user address is a
    /// multiple of `align` is reused; failing that, a block is carved from the
    /// top of the heap, which is first placed at `heap_addr` if it was not
    /// placed yet. Either way the address returned is a multiple of `align`.
    #[verifier::rlimit(40)]
    #[verifier::spinoff_prover]
    pub fn allocate(&mut self, size: usize, align: usize, heap_addr: usize) -> (r: usize)
        requires
            old(self).wf(),
            is_pow2(align),
            old(self).alloc_in_range(size, align, heap_addr),
        ensures
            final(self).wf(),
            old(self).alloc_spec(*final(self), size, align, heap_addr, r),
            r != 0 ==> final(self).is_allocated(r) && final(self).header_of(r).size >= size,
            r != 0 ==> !old(self).is_allocated(r),
            r != 0 ==> r % align == 0,
            r != 0 ==> final(self).header_of(r).in_use,
            r != 0 && has_fit(old(self).free_nodes(), size + header_size(), align as int) ==>
                final(self).header_of(r).size
                    == old(self).free_nodes()[first_fit(old(self).free_nodes(), size + header_size(), align as int)].size,
            r != 0 && !has_fit(old(self).free_nodes(), size + header_size(), align as int) ==>
                final(self).header_of(r) == (BlockHeader { size, in_use: true }),
            forall|p: usize| #[trigger] old(self).is_allocated(p) ==> final(self).is_allocated(p)
                && final(self).header_of(p) == old(self).header_of(p),
            forall|k: int| 0 <= k < old(self).free_nodes().len() && old(self).free_nodes()[k].addr + header_size() != r
                ==> final(self).free_nodes().contains(#[trigger] old(self).free_nodes()[k]),
            forall|j: int| 0 <= j < final(self).free_nodes().len()
                ==> old(self).free_nodes().contains(#[trigger] final(self).free_nodes()[j]),
            final(self).initialized(),
            final(self).heap_start() == old(self).start_with(heap_addr),
            old(self).bump_with(heap_addr) <= final(self).heap_ptr() <= final(self).heap_start() + HEAP_SIZE,
    {
        let required: usize = size + header_size();
        proof { lemma_pow2_at_least_one(align); }
        let found = self.free_list.find_and_remove(required, align);
        let r: usize = match found {
            Some((block, block_size)) => {
                let ghost i = first_fit(old(self).free_list@, required as int, align as int);
                proof {
                    lemma_has_fit_first(old(self).free_list@, required as int, align as int);
                    assert(old(self).free_list@[i].addr == block);
                    assert(has_block(self.blocks@, block as int));
                }
                let j: usize = self.find_block(block);
                let ghost old_blocks = self.blocks@;
                let ghost old_free = old(self).free_list@;
                let reused = Block { addr: block, header: BlockHeader { size: block_size, in_use: true } };
                self.blocks.set(j, reused);
                proof {
                    let bs = self.blocks@;
                    assert(bs =~= mark_in_use(old_blocks, block as int, block_size)) by {
                        assert forall|k: int| 0 <= k < bs.len() implies bs[k] == mark_in_use(old_blocks, block as int, block_size)[k] by {
                            if k != j {
                                lemma_block_index(old_blocks, self.heap_start as int, self.heap_ptr as int, k);
                            }
                        }
                    }
                    assert(block_at(old_blocks, block as int).header.size == block_size);
                    assert(forall|k: int| 0 <= k < bs.len() ==> #[trigger] bs[k].addr == old_blocks[k].addr
                        && bs[k].header.size == old_blocks[k].header.size);
                    assert forall|k: int| 0 <= k < self.free_list@.len() implies has_block(bs, #[trigger] self.free_list@[k].addr as int)
                        && block_at(bs, self.free_list@[k].addr as int).header.size == self.free_list@[k].size by {
                        let kk = if k < i { k } else { k + 1 };
                        assert(self.free_list@[k] == old_free[kk]);
                        let a = old_free[kk].addr as int;
                        let m = block_index(old_blocks, a);
                        lemma_block_index(old_blocks, self.heap_start as int, self.heap_ptr as int, m);
                        lemma_block_index(bs, self.heap_start as int, self.heap_ptr as int, m);
                    }
                    assert forall|k1: int, k2: int| 0 <= k1 < k2 < self.free_list@.len() implies
                        #[trigger] self.free_list@[k1].addr != #[trigger] self.free_list@[k2].addr by {
                        let kk1 = if k1 < i { k1 } else { k1 + 1 };
                        let kk2 = if k2 < i { k2 } else { k2 + 1 };
                        assert(self.free_list@[k1] == old_free[kk1]);
                        assert(self.free_list@[k2] == old_free[kk2]);
                    }
                    lemma_block_index(bs, self.heap_start as int, self.heap_ptr as int, j as int);
                    assert forall|k: int| 0 <= k < self.free_list@.len() implies
                        #[trigger] self.free_list@[k].addr != block by {
                        let kk = if k < i { k } else { k + 1 };
                        assert(self.free_list@[k] == old_free[kk]);
                    }
                    assert(block_end(old_blocks[j as int]) <= self.heap_ptr);
                    assert(old(self).free_nodes()[i].addr == block);
                }
                reused.user_ptr()
            },
            None => {
                let blk = self.alloc_from_heap(size, align, heap_addr);
                match blk {
                    Some(b) => {
                        let carved = self.blocks[self.blocks.len() - 1];
                        proof {
                            let bs = self.blocks@;
                            let n = (bs.len() - 1) as int;
                            lemma_block_index(bs, self.heap_start as int, self.heap_ptr as int, n);
                            assert forall|k: int| 0 <= k < self.free_list@.len() implies
                                #[trigger] self.free_list@[k].addr != b by {
                                let ob = old(self).blocks@;
                                assert(self.free_list@[k] == old(self).free_list@[k]);
                                assert(has_block(ob, old(self).free_list@[k].addr as int));
                                let m = block_index(ob, self.free_list@[k].addr as int);
                                assert(0 <= m < ob.len() && ob[m].addr == self.free_list@[k].addr);
                                assert(bs[m] == ob[m]);
                                assert(block_end(bs[m]) <= bs[n].addr);
                            }
                            if has_block(old(self).blocks@, b as int) {
                                let ob = old(self).blocks@;
                                let m = block_index(ob, b as int);
                                assert(bs[m] == ob[m]);
                                assert(block_end(bs[m]) <= bs[n].addr);
                            }
                        }
                        carved.user_ptr()
                    },
                    None => 0,
                }
            },
        };
        proof {
            if r != 0 {
                if has_fit(old(self).free_nodes(), required as int, align as int) {
                    lemma_has_fit_first(old(self).free_nodes(), required as int, align as int);
                } else {
                    lemma_aligned_up_is_multiple(
                        old(self).bump_with(heap_addr) + header_size(),
                        effective_align(align) as int,
                    );
                    lemma_effective_align_divides(r as int, align);
                }
            }
        }
        proof {
            assert forall|p: usize| #[trigger] old(self).is_allocated(p) implies self.is_allocated(p)
                && self.header_of(p) == old(self).header_of(p) by {
                self.lemma_still_allocated_after_alloc(*old(self), size, align, heap_addr, r, p);
            }
            SimpleAllocator::lemma_allocate_keeps_other_free_blocks(*old(self), *self, size, align, heap_addr, r);
        }
        r
    }


    /// Returns the allocation at `ptr` to the head of the free list.
    pub fn dealloc(&mut self, ptr: usize)
        requires
            old(self).wf(),
            old(self).is_allocated(ptr),
        ensures
            final(self).wf(),
            old(self).dealloc_spec(*final(self), ptr),
            !final(self).is_allocated(ptr),
            forall|p: usize| #[trigger] old(self).is_allocated(p) && p != ptr ==> final(self).is_allocated(p)
                && final(self).header_of(p) == old(self).header_of(p),
    {
        let block: usize = BlockHeader::from_user_ptr(ptr);
        let i: usize = self.find_block(block);
        let header: BlockHeader = self.blocks[i].header;
        let ghost old_free = self.free_list@;
        self.free_list.push(block, &header);
        proof {
            let f = self.free_list@;
            lemma_block_index(self.blocks@, self.heap_start as int, self.heap_ptr as int, i as int);
            assert(f[0].addr == block);
            assert forall|k: int| 0 <= k < f.len() implies has_block(self.blocks@, #[trigger] f[k].addr as int)
                && block_at(self.blocks@, f[k].addr as int).header.size == f[k].size by {
                if k > 0 {
                    assert(f[k] == old_free[k - 1]);
                }
            }
            assert forall|k1: int, k2: int| 0 <= k1 < k2 < f.len() implies
                #[trigger] f[k1].addr != #[trigger] f[k2].addr by {
                assert(f[k2] == old_free[k2 - 1]);
                assert(old(self).free_nodes()[k2 - 1].addr != ptr - header_size());
                if k1 > 0 {
                    assert(f[k1] == old_free[k1 - 1]);
                }
            }
            assert forall|p: usize| #[trigger] old(self).is_allocated(p) && p != ptr implies self.is_allocated(p) by {
                assert forall|k: int| 0 <= k < f.len() implies #[trigger] f[k].addr != p - header_size() by {
                    if k > 0 {
                        assert(f[k] == old_free[k - 1]);
                        assert(old(self).free_nodes()[k - 1].addr != p - header_size());
                    }
                }
            }
            assert(self.free_nodes()[0].addr == ptr - header_size());
        }
    }

    /// Allocates like `allocate` and sets the `size` bytes of the new
    /// allocation to zero in `mem`, the heap's bytes (`mem[k]` is the byte at
    /// address `heap_start + k`).
    pub fn alloc_zeroed(&mut self, mem: &mut Vec<u8>, size: usize, align: usize, heap_addr: usize) -> (r: usize)
        requires
            old(self).wf(),
            is_pow2(align),
            old(self).alloc_in_range(size, align, heap_addr),
            old(mem).len() == HEAP_SIZE,
        ensures
            final(self).wf(),
            old(self).alloc_spec(*final(self), size, align, heap_addr, r),
            r != 0 ==> final(self).is_allocated(r) && final(self).header_of(r).size >= size,
            r != 0 ==> r % align == 0 && final(self).header_of(r).in_use,
            r != 0 ==> final(mem)@ == filled(old(mem)@, r - final(self).heap_start(), size as int, 0u8),
            r == 0 ==> final(mem)@ == old(mem)@,
    {
        let user_ptr: usize = self.allocate(size, align, heap_addr);
        if user_ptr != 0 {
            proof { self.lemma_allocation_in_heap(user_ptr); }
            memset(mem, user_ptr - self.heap_start, 0, size);
        }
        user_ptr
    }

    /// Resizes the allocation at `ptr`, made aligned to `align`, to
    /// `new_size` bytes, as far as the allocator's records go. When `new_size`
    /// fits in the block's recorded size, `ptr` is returned and nothing
    /// changes. Otherwise a new allocation is made; if it succeeds `ptr` is
    /// freed and the new address is returned, else 0. The caller moves the
    /// data: the old and new allocations lie apart, inside the heap.
    pub fn realloc_block(&mut self, ptr: usize, align: usize, new_size: usize) -> (r: usize)
        requires
            old(self).wf(),
            old(self).is_allocated(ptr),
            is_pow2(align),
            new_size > old(self).header_of(ptr).size ==> new_size + align - 1 <= isize::MAX,
            new_size > old(self).header_of(ptr).size ==> old(self).alloc_in_range(new_size, align, 0),
        ensures
            final(self).wf(),
            final(self).heap_start() == old(self).heap_start(),
            new_size <= old(self).header_of(ptr).size ==> r == ptr && *final(self) == *old(self),
            new_size > old(self).header_of(ptr).size ==> exists|mid: SimpleAllocator| {
                &&& #[trigger] old(self).alloc_spec(mid, new_size, align, 0, r)
                &&& r != 0 ==> mid.dealloc_spec(*final(self), ptr)
                &&& r == 0 ==> *final(self) == mid
            },
            new_size > old(self).header_of(ptr).size && r != 0 ==> {
                &&& final(self).is_allocated(r)
                &&& final(self).header_of(r).size >= new_size
                &&& final(self).header_of(r).in_use
                &&& r % align == 0
                &&& r != ptr
                &&& !final(self).is_allocated(ptr)
                &&& old(self).heap_start() + header_size() <= ptr
                &&& ptr + old(self).header_of(ptr).size <= old(self).heap_start() + HEAP_SIZE
                &&& old(self).heap_start() + header_size() <= r
                &&& r + final(self).header_of(r).size <= old(self).heap_start() + HEAP_SIZE
                &&& (ptr + old(self).header_of(ptr).size + header_size() <= r
                    || r + final(self).header_of(r).size + header_size() <= ptr)
            },
            new_size > old(self).header_of(ptr).size && r == 0 ==> final(self).is_allocated(ptr),
            forall|p: usize| #[trigger] old(self).is_allocated(p) && p != ptr ==> final(self).is_allocated(p)
                && final(self).header_of(p) == old(self).header_of(p),
    {
        let block: usize = BlockHeader::from_user_ptr(ptr);
        let i: usize = self.find_block(block);
        proof { lemma_block_index(self.blocks@, self.heap_start as int, self.heap_ptr as int, i as int); }
        if new_size <= self.blocks[i].header.size {
            return ptr;
        }
        let new_ptr: usize = self.allocate(new_size, align, 0);
        let ghost mid = *self;
        if new_ptr != 0 {
            proof {
                assert(mid.is_allocated(ptr)) by {
                    self.lemma_still_allocated_after_alloc(*old(self), new_size, align, 0, new_ptr, ptr);
                }
                self.lemma_allocation_in_heap(ptr);
                self.lemma_allocation_in_heap(new_ptr);
                self.lemma_allocations_disjoint(ptr, new_ptr);
            }
            self.dealloc(ptr);
            proof {
                assert(self.is_allocated(new_ptr)) by {
                    assert(forall|k: int| 0 <= k < mid.free_nodes().len() ==> #[trigger] mid.free_nodes()[k].addr != new_ptr - header_size());
                    assert(self.free_nodes()[0].addr == ptr - header_size());
                    assert forall|k: int| 0 <= k < self.free_nodes().len() implies
                        #[trigger] self.free_nodes()[k].addr != new_ptr - header_size() by {
                        if k > 0 {
                            assert(self.free_nodes()[k] == mid.free_nodes()[k - 1]);
                        }
                    }
                }
            }
        } else {
            proof {
                self.lemma_still_allocated_after_alloc(*old(self), new_size, align, 0, new_ptr, ptr);
            }
        }
        new_ptr
    }

    /// Resizes the allocation at `ptr`, made with `old_size` bytes aligned to
    /// `align`, to `new_size` bytes. When `new_size` fits in the block's
    /// recorded size, `ptr` is returned and nothing changes. Otherwise a new
    /// allocation is made; if it succeeds the `old_size` bytes at `ptr` are
    /// copied to it in `mem` and `ptr` is freed; the new address (0 on failure)
    /// is returned.
    pub fn realloc(&mut self, mem: &mut Vec<u8>, ptr: usize, old_size: usize, align: usize, new_size: usize) -> (r: usize)
        requires
            old(self).wf(),
            old(self).is_allocated(ptr),
            old_size <= old(self).header_of(ptr).size,
            is_pow2(align),
            new_size > old(self).header_of(ptr).size ==> new_size + align - 1 <= isize::MAX,
            new_size > old(self).header_of(ptr).size ==> old(self).alloc_in_range(new_size, align, 0),
            old(mem).len() == HEAP_SIZE,
        ensures
            final(self).wf(),
            new_size <= old(self).header_of(ptr).size ==> r == ptr && *final(self) == *old(self)
                && final(mem)@ == old(mem)@,
            new_size > old(self).header_of(ptr).size ==> exists|mid: SimpleAllocator| {
                &&& #[trigger] old(self).alloc_spec(mid, new_size, align, 0, r)
                &&& r != 0 ==> mid.dealloc_spec(*final(self), ptr)
                &&& r == 0 ==> *final(self) == mid
            },
            new_size > old(self).header_of(ptr).size && r != 0 ==> {
                &&& final(self).is_allocated(r)
                &&& final(self).header_of(r).size >= new_size
                &&& final(self).header_of(r).in_use
                &&& r % align == 0
                &&& !final(self).is_allocated(ptr)
                &&& final(mem)@ == moved(old(mem)@, r - old(self).heap_start(), ptr - old(self).heap_start(), old_size as int)
            },
            new_size > old(self).header_of(ptr).size && r == 0 ==> final(mem)@ == old(mem)@
                && final(self).is_allocated(ptr),
            forall|p: usize| #[trigger] old(self).is_allocated(p) && p != ptr ==> final(self).is_allocated(p)
                && final(self).header_of(p) == old(self).header_of(p),
    {
        let new_ptr: usize = self.realloc_block(ptr, align, new_size);
        if new_ptr != 0 && new_ptr != ptr {
            memcpy(mem, new_ptr - self.heap_start, ptr - self.heap_start, old_size);
        }
        new_ptr
    }

    /// An allocation lies inside the heap, behind its header.
    pub proof fn lemma_allocation_in_heap(&self, ptr: usize)
        requires
            self.wf(),
            self.is_allocated(ptr),
        ensures
            self.heap_start() + header_size() <= ptr,
            ptr + self.header_of(ptr).size <= self.heap_ptr() <= self.heap_start() + HEAP_SIZE,
            self.initialized(),
    {
        let i = block_index(self.blocks@, ptr - header_size());
        lemma_block_index(self.blocks@, self.heap_start as int, self.heap_ptr as int, i);
    }

    /// Two distinct allocations do not overlap, headers included.
    pub proof fn lemma_allocations_disjoint(&self, p: usize, q: usize)
        requires
            self.wf(),
            self.is_allocated(p),
            self.is_allocated(q),
            p != q,
        ensures
            p + self.header_of(p).size + header_size() <= q || q + self.header_of(q).size + header_size() <= p,
    {
        let i = block_index(self.blocks@, p - header_size());
        let j = block_index(self.blocks@, q - header_size());
        lemma_block_index(self.blocks@, self.heap_start as int, self.heap_ptr as int, i);
        lemma_block_index(self.blocks@, self.heap_start as int, self.heap_ptr as int, j);
    }

    /// An allocation other than the one `allocate` returned stays allocated,
    /// with its header unchanged.
    proof fn lemma_still_allocated_after_alloc(&self, old_s: SimpleAllocator, size: usize, align: usize, heap_addr: usize, r: usize, p: usize)
        requires
            old_s.wf(),
            self.wf(),
            old_s.alloc_spec(*self, size, align, heap_addr, r),
            old_s.is_allocated(p),
            r != 0 ==> !old_s.is_allocated(r),
        ensures
            self.is_allocated(p),
            self.header_of(p) == old_s.header_of(p),
    {
        let a = p - header_size();
        let ob = old_s.blocks@;
        let i = block_index(ob, a);
        lemma_block_index(ob, old_s.heap_start as int, old_s.heap_ptr as int, i);
        let required = size + header_size();
        if has_fit(old_s.free_nodes(), required, align as int) {
            lemma_has_fit_first(old_s.free_nodes(), required, align as int);
            let f = first_fit(old_s.free_nodes(), required, align as int);
            let node = old_s.free_nodes()[f];
            assert(node.addr != a);
            assert(self.blocks@[i] == ob[i]);
            lemma_block_index(self.blocks@, self.heap_start as int, self.heap_ptr as int, i);
            assert forall|k: int| 0 <= k < self.free_nodes().len() implies #[trigger] self.free_nodes()[k].addr != a by {
                let kk = if k < f { k } else { k + 1 };
                assert(self.free_nodes()[k] == old_s.free_nodes()[kk]);
            }
        } else {
            assert(self.blocks@[i] == ob[i]);
            lemma_block_index(self.blocks@, self.heap_start as int, self.heap_ptr as int, i);
        }
    }

    /// A freed block is handed out again by the next allocation that fits in
    /// it: freeing `p` and then allocating `size` bytes aligned to `align`,
    /// with `size` plus a header no larger than `p`'s block and `p` a multiple
    /// of `align`, returns `p`.
    pub proof fn lemma_dealloc_then_alloc_reuses(
        s0: SimpleAllocator,
        s1: SimpleAllocator,
        s2: SimpleAllocator,
        p: usize,
        size: usize,
        align: usize,
        heap_addr: usize,
        r: usize,
    )
        requires
            s0.wf(),
            s0.is_allocated(p),
            s0.dealloc_spec(s1, p),
            s1.alloc_spec(s2, size, align, heap_addr, r),
            size + header_size() <= s0.header_of(p).size,
            align > 0,
            p % align == 0,
        ensures
            r == p,
            s2.free_nodes() == s0.free_nodes(),
    {
        s0.lemma_allocation_in_heap(p);
        assert(is_first_fit(s1.free_nodes(), size + header_size(), align as int, 0));
        lemma_first_fit_is(s1.free_nodes(), size + header_size(), align as int, 0);
        assert(s2.free_nodes() =~= s0.free_nodes());
    }

    /// Allocating takes at most one block off the free list, the one whose
    /// address it returns: every other freed block stays on the list, and
    /// no node is added.
    pub proof fn lemma_allocate_keeps_other_free_blocks(
        s0: SimpleAllocator,
        s1: SimpleAllocator,
        size: usize,
        align: usize,
        heap_addr: usize,
        r: usize,
    )
        requires
            s0.wf(),
            s0.alloc_spec(s1, size, align, heap_addr, r),
        ensures
            forall|k: int| 0 <= k < s0.free_nodes().len() && s0.free_nodes()[k].addr + header_size() != r
                ==> s1.free_nodes().contains(#[trigger] s0.free_nodes()[k]),
            forall|j: int| 0 <= j < s1.free_nodes().len() ==> s0.free_nodes().contains(#[trigger] s1.free_nodes()[j]),
            s1.free_nodes().len() + 1 >= s0.free_nodes().len(),
            s1.free_nodes().len() <= s0.free_nodes().len(),
    {
        let f0 = s0.free_nodes();
        let f1 = s1.free_nodes();
        let required = size + header_size();
        if has_fit(f0, required, align as int) {
            lemma_has_fit_first(f0, required, align as int);
            let i = first_fit(f0, required, align as int);
            assert(f1 == f0.remove(i));
            assert forall|k: int| 0 <= k < f0.len() && f0[k].addr + header_size() != r
                implies f1.contains(#[trigger] f0[k]) by {
                assert(k != i);
                if k < i {
                    assert(f1[k] == f0[k]);
                } else {
                    assert(f1[k - 1] == f0[k]);
                }
            }
            assert forall|j: int| 0 <= j < f1.len() implies f0.contains(#[trigger] f1[j]) by {
                if j < i {
                    assert(f1[j] == f0[j]);
                } else {
                    assert(f1[j] == f0[j + 1]);
                }
            }
        } else {
            assert forall|k: int| 0 <= k < f0.len() && f0[k].addr + header_size() != r
                implies f1.contains(#[trigger] f0[k]) by {
                assert(f1[k] == f0[k]);
            }
            assert forall|j: int| 0 <= j < f1.len() implies f0.contains(#[trigger] f1[j]) by {
                assert(f0[j] == f1[j]);
            }
        }
    }

} // impl SimpleAllocator

} // verus!
