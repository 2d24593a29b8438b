//! Three-level SV39 page table.
//!
//! A table is a 512-ary trie addressed by the three 9-bit index groups of a
//! virtual page number. Node frames are owned by the table and modelled as
//! data: each owned frame holds its 512 entries. An entry packs a 44-bit
//! physical page number above an 8-bit flag byte; the flag byte's lowest bit
//! marks the entry valid.
use vstd::prelude::*;
use vstd::assert_seqs_equal;

use crate::address::{vpn_index0, vpn_index1, vpn_index2, PhysicPageNum, VirtualPageNum};
use crate::config::{PPN_LIMIT, VPN_LIMIT};
use crate::frame_allocator::StackFrameAllocator;

verus! {

/// Flag bit marking an entry valid.
pub const PTE_V: u8 = 0x01;
/// Flag bit allowing reads through the mapping.
pub const PTE_R: u8 = 0x02;
/// Flag bit allowing writes through the mapping.
pub const PTE_W: u8 = 0x04;
/// Flag bit allowing instruction fetch through the mapping.
pub const PTE_X: u8 = 0x08;
/// Flag bit allowing user-mode access through the mapping.
pub const PTE_U: u8 = 0x10;
/// Flag bit marking a global mapping.
pub const PTE_G: u8 = 0x20;
/// Accessed flag bit.
pub const PTE_A: u8 = 0x40;
/// Dirty flag bit.
pub const PTE_D: u8 = 0x80;

/// The flag byte of a page-table entry. The eight hardware flag bits sit in
/// value order `{V, R, W, X, U, G, A, D}` from the lowest bit up; they are
/// combined and examined arithmetically, each bit being a distinct power of
/// two.
#[derive(Copy, Clone, PartialEq, Eq, Structural, Debug)]
pub struct PTEFlags {
    pub bits: u8,
}

impl PTEFlags {
    pub fn empty() -> (r: Self)
        ensures
            r.bits == 0,
    {
        PTEFlags { bits: 0 }
    }

    pub fn new(bits: u8) -> (r: Self)
        ensures
            r.bits == bits,
    {
        PTEFlags { bits }
    }

    /// Whether the valid bit is set.
    pub open spec fn spec_valid(self) -> bool {
        self.bits % 2 == 1
    }

    pub fn is_valid(&self) -> (r: bool)
        ensures
            r == self.spec_valid(),
    {
        self.bits % 2 == 1
    }

    /// The same flags with the valid bit set.
    pub open spec fn spec_with_valid(self) -> PTEFlags {
        if self.bits % 2 == 1 {
            self
        } else {
            PTEFlags { bits: (self.bits + 1) as u8 }
        }
    }

    pub fn with_valid(self) -> (r: Self)
        ensures
            r == self.spec_with_valid(),
    {
        if self.bits % 2 == 1 {
            self
        } else {
            PTEFlags { bits: self.bits + 1 }
        }
    }
}

/// Entry bits encoding `ppn` with flag byte `flags`: the page number is
/// shifted ten bits up (a factor of 1024), the flag byte sits below it.
pub open spec fn spec_pte_bits(ppn: u64, flags: u8) -> int {
    ppn * 1024 + flags
}

/// The page number packed in an entry: bits [10, 54).
pub open spec fn spec_pte_ppn(bits: u64) -> u64 {
    (bits / 1024) % PPN_LIMIT
}

/// The flag byte of an entry: its lowest eight bits.
pub open spec fn spec_pte_flags(bits: u64) -> u8 {
    (bits % 256) as u8
}

/// An entry translates while its valid bit — the lowest bit — is set.
pub open spec fn spec_pte_valid(bits: u64) -> bool {
    bits % 2 == 1
}

/// Encoding then decoding an entry restores the page number, the flag
/// byte, and the valid bit.
pub proof fn lemma_pte_encode(ppn: u64, flags: u8)
    requires
        ppn < PPN_LIMIT,
    ensures
        spec_pte_bits(ppn, flags) <= u64::MAX,
        spec_pte_ppn(spec_pte_bits(ppn, flags) as u64) == ppn,
        spec_pte_flags(spec_pte_bits(ppn, flags) as u64) == flags,
        spec_pte_valid(spec_pte_bits(ppn, flags) as u64) == (flags % 2 == 1),
        spec_pte_bits(ppn, flags) % 1024 == flags,
{
    let bits = ppn * 1024 + flags;
    assert(bits <= u64::MAX && bits / 1024 == ppn && bits % 256 == flags && bits % 2 == flags % 2
        && bits % 1024 == flags) by (nonlinear_arith)
        requires
            ppn < 0x1000_0000_0000,
            flags < 256,
            bits == ppn * 1024 + flags,
    ;
}

/// One slot of a table node.
#[derive(Copy, Clone, PartialEq, Eq, Structural, Debug)]
pub struct PageTableEntry {
    pub bits: u64,
}

impl PageTableEntry {
    pub fn new(ppn: PhysicPageNum, flags: PTEFlags) -> (r: Self)
        requires
            ppn.0 < PPN_LIMIT,
        ensures
            r.bits == spec_pte_bits(ppn.0, flags.bits),
    {
        proof {
            lemma_pte_encode(ppn.0, flags.bits);
        }
        PageTableEntry { bits: ppn.0 * 1024 + flags.bits as u64 }
    }

    pub fn empty() -> (r: Self)
        ensures
            r.bits == 0,
    {
        PageTableEntry { bits: 0 }
    }

    pub fn ppn(&self) -> (r: PhysicPageNum)
        ensures
            r.0 == spec_pte_ppn(self.bits),
            r.wf(),
    {
        PhysicPageNum((self.bits / 1024) % PPN_LIMIT)
    }

    pub fn flags(&self) -> (r: PTEFlags)
        ensures
            r.bits == spec_pte_flags(self.bits),
    {
        PTEFlags { bits: (self.bits % 256) as u8 }
    }

    pub fn is_valid(&self) -> (r: bool)
        ensures
            r == spec_pte_valid(self.bits),
    {
        self.bits % 2 == 1
    }
}

/// One owned table-node frame: its page number and its 512 entries. The
/// ghost path records the trie position of the node: the walk indices that
/// lead to it from the root (empty for the root itself).
struct PtNode {
    ppn: u64,
    entries: Vec<u64>,
    path: Ghost<Seq<u64>>,
}

/// Which of `map` / `unmap` went wrong; each is a fatal kernel bug at the
/// call site, except exhaustion, which is fatal by design policy.
#[derive(Copy, Clone, PartialEq, Eq, Structural, Debug)]
pub enum PagingError {
    /// `map` hit a leaf entry that is already valid.
    AlreadyMapped,
    /// `unmap` hit a leaf entry that is not currently valid.
    NotMapped,
    /// The frame allocator ran out of frames for table nodes.
    FrameExhausted,
}

pub struct PageTable {
    root_ppn: PhysicPageNum,
    nodes: Vec<PtNode>,
}

impl PageTable {
    /// The page number of the root node frame.
    pub closed spec fn spec_root(&self) -> u64 {
        self.root_ppn.0
    }

    /// Whether the table owns a node frame with page number `p`.
    pub closed spec fn has_node(&self, p: u64) -> bool {
        exists|k: int| 0 <= k < self.nodes@.len() && self.nodes@[k].ppn == p
    }

    /// Whether the table owns its root node; true for tables built by
    /// `new`, false for translation-only tables built from a token.
    pub open spec fn rooted(&self) -> bool {
        self.has_node(self.spec_root())
    }

    /// Every node frame of this table is live in allocator `a`.
    pub open spec fn frames_live(&self, a: &StackFrameAllocator) -> bool {
        forall|p: u64| self.has_node(p) ==> a.is_live(p)
    }

    spec fn idx_of(&self, p: u64) -> int {
        choose|k: int| 0 <= k < self.nodes@.len() && self.nodes@[k].ppn == p
    }

    spec fn entries_of(&self, p: u64) -> Seq<u64> {
        self.nodes@[self.idx_of(p)].entries@
    }

    spec fn path_of(&self, p: u64) -> Seq<u64> {
        self.nodes@[self.idx_of(p)].path@
    }

    spec fn ppns_distinct(&self) -> bool {
        forall|i: int, j: int|
            0 <= i < j < self.nodes@.len() ==> self.nodes@[i].ppn != self.nodes@[j].ppn
    }

    /// A valid entry of a non-leaf node is a pointer entry: flag byte V
    /// alone, and its target is an owned node one trie level further down.
    spec fn child_link_ok(&self, i: int, j: int) -> bool {
        let e = self.nodes@[i].entries@[j];
        &&& e % 1024 == 1
        &&& e / 1024 < PPN_LIMIT
        &&& self.has_node(e / 1024)
        &&& self.path_of(e / 1024) == self.nodes@[i].path@.push(j as u64)
    }

    pub closed spec fn wf(&self) -> bool {
        &&& self.root_ppn.0 < PPN_LIMIT
        &&& self.ppns_distinct()
        &&& forall|i: int| 0 <= i < self.nodes@.len() ==> (#[trigger] self.nodes@[i]).ppn
            < PPN_LIMIT
        &&& forall|i: int| 0 <= i < self.nodes@.len() ==> (#[trigger] self.nodes@[i]).entries@.len()
            == 512
        &&& forall|i: int| 0 <= i < self.nodes@.len() ==> (#[trigger] self.nodes@[i]).path@.len()
            <= 2
        &&& forall|i: int|
            0 <= i < self.nodes@.len() && (#[trigger] self.nodes@[i]).ppn == self.root_ppn.0
                ==> self.nodes@[i].path@.len() == 0
        &&& forall|i: int|
            0 <= i < self.nodes@.len() && (#[trigger] self.nodes@[i]).path@.len() == 0
                ==> self.nodes@[i].ppn == self.root_ppn.0
        &&& forall|i: int, j: int|
            0 <= i < self.nodes@.len() && 0 <= j < 512 && (#[trigger] self.nodes@[i]).path@.len()
                < 2 && spec_pte_valid(#[trigger] self.nodes@[i].entries@[j])
                ==> self.child_link_ok(i, j)
    }

    /// The raw walk: the leaf entry bits for `vpn`, or `None` where an
    /// absent node or an invalid pointer entry stops the walk.
    pub closed spec fn spec_walk(&self, vpn: u64) -> Option<u64> {
        if !self.has_node(self.spec_root()) {
            None
        } else {
            let e0 = self.entries_of(self.spec_root())[vpn_index0(vpn) as int];
            if !spec_pte_valid(e0) {
                None
            } else {
                let p1 = e0 / 1024;
                if !self.has_node(p1) {
                    None
                } else {
                    let e1 = self.entries_of(p1)[vpn_index1(vpn) as int];
                    if !spec_pte_valid(e1) {
                        None
                    } else {
                        let p2 = e1 / 1024;
                        if !self.has_node(p2) {
                            None
                        } else {
                            Some(self.entries_of(p2)[vpn_index2(vpn) as int])
                        }
                    }
                }
            }
        }
    }

    /// The translation this table defines for `vpn`: the leaf entry where
    /// the walk reaches one and it is valid.
    pub closed spec fn spec_mapped(&self, vpn: u64) -> Option<u64> {
        match self.spec_walk(vpn) {
            Some(b) => if spec_pte_valid(b) {
                Some(b)
            } else {
                None
            },
            None => None,
        }
    }

    /// Whether `vpn` currently translates.
    pub open spec fn is_mapped(&self, vpn: u64) -> bool {
        self.spec_mapped(vpn) is Some
    }

    /// The root's pointer slot on `vpn`'s walk is already valid: mapping
    /// any page of this 1 GiB region allocates no level-1 node.
    pub closed spec fn l1_ready_at(&self, vpn: u64) -> bool {
        &&& self.rooted()
        &&& spec_pte_valid(self.entries_of(self.spec_root())[vpn_index0(vpn) as int])
    }

    /// Both pointer slots on `vpn`'s walk are already valid: mapping any
    /// page of this 2 MiB region allocates no table node at all.
    pub closed spec fn l2_ready_at(&self, vpn: u64) -> bool {
        &&& self.l1_ready_at(vpn)
        &&& {
            let e0 = self.entries_of(self.spec_root())[vpn_index0(vpn) as int];
            spec_pte_valid(self.entries_of(e0 / 1024)[vpn_index1(vpn) as int])
        }
    }

    /// Table nodes `map` must allocate for `vpn`, by readiness.
    pub open spec fn spec_map_need(&self, vpn: u64) -> int {
        if self.l2_ready_at(vpn) {
            0
        } else if self.l1_ready_at(vpn) {
            1
        } else {
            2
        }
    }

    /// Readiness only depends on the walk's two pointer-slot indices.
    pub proof fn lemma_ready_same_indices(&self, v: u64, w: u64)
        requires
            vpn_index0(v) == vpn_index0(w),
        ensures
            self.l1_ready_at(v) == self.l1_ready_at(w),
            vpn_index1(v) == vpn_index1(w) ==> self.l2_ready_at(v) == self.l2_ready_at(w),
    {
    }

    /// A region whose walk is fully ready also has its root slot ready.
    pub proof fn lemma_l2_implies_l1(&self, v: u64)
        ensures
            self.l2_ready_at(v) ==> self.l1_ready_at(v),
    {
    }

    /// An index with ppn `p` is the unique witness `idx_of` picks.
    proof fn lemma_idx(&self, k: int)
        requires
            self.ppns_distinct(),
            0 <= k < self.nodes@.len(),
        ensures
            self.has_node(self.nodes@[k].ppn),
            self.idx_of(self.nodes@[k].ppn) == k,
    {
        let p = self.nodes@[k].ppn;
        assert(self.has_node(p));
        let i = self.idx_of(p);
        assert(0 <= i < self.nodes@.len() && self.nodes@[i].ppn == p);
        if i != k {
            if i < k {
                assert(self.nodes@[i].ppn != self.nodes@[k].ppn);
            } else {
                assert(self.nodes@[k].ppn != self.nodes@[i].ppn);
            }
        }
    }

    /// Linear scan for the node frame with page number `p`.
    fn find_node(&self, p: u64) -> (r: Option<usize>)
        ensures
            match r {
                Some(i) => i < self.nodes@.len() && self.nodes@[i as int].ppn == p,
                None => !self.has_node(p),
            },
    {
        let n = self.nodes.len();
        let mut i: usize = 0;
        while i < n
            invariant
                n == self.nodes@.len(),
                i <= n,
                forall|k: int| 0 <= k < i ==> self.nodes@[k].ppn != p,
            decreases n - i,
        {
            if self.nodes[i].ppn == p {
                return Some(i);
            }
            i = i + 1;
        }
        proof {
            assert(!self.has_node(p));
        }
        None
    }

    /// A fresh node frame: 512 empty entries.
    fn zero_node(ppn: u64, path: Ghost<Seq<u64>>) -> (r: PtNode)
        ensures
            r.ppn == ppn,
            r.entries@ == Seq::new(512, |i: int| 0u64),
            r.path == path,
    {
        let mut entries: Vec<u64> = Vec::new();
        let mut i: usize = 0;
        while i < 512
            invariant
                i <= 512,
                entries@.len() == i,
                forall|k: int| 0 <= k < i ==> entries@[k] == 0u64,
            decreases 512 - i,
        {
            entries.push(0u64);
            i = i + 1;
        }
        proof {
            assert_seqs_equal!(entries@ == Seq::new(512, |i: int| 0u64));
        }
        PtNode { ppn, entries, path }
    }

    /// Creates a table owning one fresh root node; `None` exactly when the
    /// allocator is exhausted.
    pub fn new(a: &mut StackFrameAllocator) -> (r: Option<PageTable>)
        requires
            old(a).wf(),
        ensures
            final(a).wf(),
            final(a).spec_end() == old(a).spec_end(),
            r is None <==> old(a).avail() == 0,
            r is None ==> final(a).eq_state(old(a)),
            r matches Some(pt) ==> {
                &&& pt.wf()
                &&& pt.rooted()
                &&& pt.frames_live(final(a))
                &&& (forall|vpn: u64| pt.spec_mapped(vpn) is None)
                &&& (forall|q: u64| old(a).is_live(q) ==> final(a).is_live(q))
                &&& (forall|q: u64|
                    q != pt.spec_root() ==> final(a).is_live(q) == old(a).is_live(q))
                &&& !old(a).is_live(pt.spec_root())
                &&& final(a).avail() == old(a).avail() - 1
            },
    {
        let f = match a.allocate() {
            None => {
                return None;
            },
            Some(f) => f,
        };
        let root = PageTable::zero_node(f.0, Ghost(Seq::empty()));
        let mut nodes: Vec<PtNode> = Vec::new();
        nodes.push(root);
        let pt = PageTable { root_ppn: f, nodes };
        proof {
            assert(pt.nodes@.len() == 1);
            assert(pt.nodes@[0].ppn == f.0);
            assert(pt.has_node(f.0));
            assert forall|p: u64| pt.has_node(p) implies p == f.0 by {
                let k = choose|k: int| 0 <= k < pt.nodes@.len() && pt.nodes@[k].ppn == p;
                assert(k == 0);
            }
            assert(pt.wf());
            assert forall|vpn: u64| pt.spec_mapped(vpn) is None by {
                pt.lemma_idx(0);
                assert(pt.entries_of(f.0)[vpn_index0(vpn) as int] == 0u64);
                assert(!spec_pte_valid(0u64));
            }
        }
        Some(pt)
    }

    /// Rebuilds a translation view from an exported token, for inspecting
    /// another address space's mappings. On hardware the token alone
    /// suffices because the kernel reads the node frames through its own
    /// mapping of all physical memory; here that read is the copy of the
    /// owning table's node contents. The view takes no ownership: its
    /// frames are never returned to an allocator. When the token is the
    /// given space's own, the view translates exactly as the space does;
    /// a token naming any other root translates nothing.
    pub fn from_token(satp: u64, space: &PageTable) -> (r: PageTable)
        requires
            space.wf(),
        ensures
            r.wf(),
            r.spec_root() == satp % (PPN_LIMIT as u64),
            satp % (PPN_LIMIT as u64) == space.spec_root() ==> forall|vpn: u64|
                #[trigger] r.spec_mapped(vpn) == space.spec_mapped(vpn),
            satp % (PPN_LIMIT as u64) != space.spec_root() ==> forall|vpn: u64|
                #[trigger] r.spec_mapped(vpn) is None,
    {
        let root = PhysicPageNum(satp % PPN_LIMIT);
        if root.0 != space.root_ppn.0 {
            let r = PageTable { root_ppn: root, nodes: Vec::new() };
            proof {
                assert(forall|p: u64| !r.has_node(p));
            }
            return r;
        }
        let n = space.nodes.len();
        let mut nodes: Vec<PtNode> = Vec::new();
        let mut k: usize = 0;
        while k < n
            invariant
                space.wf(),
                n == space.nodes@.len(),
                k <= n,
                nodes@.len() == k,
                forall|i: int|
                    0 <= i < k ==> (#[trigger] nodes@[i]).ppn == space.nodes@[i].ppn && nodes@[
                    i].entries@ == space.nodes@[i].entries@ && nodes@[i].path@ == space.nodes@[
                    i].path@,
            decreases n - k,
        {
            let m = space.nodes[k].entries.len();
            let mut entries: Vec<u64> = Vec::new();
            let mut j: usize = 0;
            while j < m
                invariant
                    k < space.nodes@.len(),
                    m == space.nodes@[k as int].entries@.len(),
                    j <= m,
                    entries@.len() == j,
                    forall|i: int|
                        0 <= i < j ==> #[trigger] entries@[i] == space.nodes@[k as int].entries@[
                        i],
                decreases m - j,
            {
                entries.push(space.nodes[k].entries[j]);
                j = j + 1;
            }
            proof {
                assert_seqs_equal!(entries@ == space.nodes@[k as int].entries@);
            }
            let ppn = space.nodes[k].ppn;
            nodes.push(PtNode { ppn, entries, path: Ghost(space.nodes@[k as int].path@) });
            k = k + 1;
        }
        let r = PageTable { root_ppn: root, nodes };
        proof {
            lemma_same_skeleton(*space, r);
            assert forall|p: u64| space.has_node(p) implies r.entries_of(p) == space.entries_of(p)
                && r.path_of(p) == space.path_of(p) by {
                let i = space.idx_of(p);
                assert(r.idx_of(p) == i);
            }
            assert(r.wf()) by {
                assert forall|i: int, j: int|
                    0 <= i < r.nodes@.len() && 0 <= j < 512
                        && (#[trigger] r.nodes@[i]).path@.len() < 2
                        && spec_pte_valid(#[trigger] r.nodes@[i].entries@[j])
                    implies r.child_link_ok(i, j) by {
                    assert(space.nodes@[i].path@ == r.nodes@[i].path@);
                    assert(space.nodes@[i].entries@[j] == r.nodes@[i].entries@[j]);
                    assert(space.child_link_ok(i, j));
                    let child = space.nodes@[i].entries@[j] / 1024;
                    assert(space.has_node(child));
                    assert(r.has_node(child));
                    assert(r.path_of(child) == space.path_of(child));
                }
            }
            assert forall|vpn: u64| r.spec_mapped(vpn) == space.spec_mapped(vpn) by {
                assert(r.spec_root() == space.spec_root());
                if space.has_node(space.spec_root()) {
                    let e0 = space.entries_of(space.spec_root())[vpn_index0(vpn) as int];
                    assert(r.entries_of(r.spec_root()) == space.entries_of(space.spec_root()));
                    if spec_pte_valid(e0) {
                        let p1 = e0 / 1024;
                        if space.has_node(p1) {
                            assert(r.entries_of(p1) == space.entries_of(p1));
                            let e1 = space.entries_of(p1)[vpn_index1(vpn) as int];
                            if spec_pte_valid(e1) {
                                let p2 = e1 / 1024;
                                if space.has_node(p2) {
                                    assert(r.entries_of(p2) == space.entries_of(p2));
                                }
                            }
                        }
                    }
                }
            }
        }
        r
    }

    /// The hardware token activating this table: the SV39 mode tag in the
    /// top bits, the root page number in the low 44.
    pub fn token(&self) -> (r: u64)
        requires
            self.wf(),
        ensures
            r == 0x8000_0000_0000_0000u64 + self.spec_root(),
            r % (PPN_LIMIT as u64) == self.spec_root(),
    {
        proof {
            assert((0x8000_0000_0000_0000u64 + self.spec_root()) % (PPN_LIMIT as int) == self.spec_root())
                by (nonlinear_arith)
                requires self.spec_root() < 0x1000_0000_0000u64
            ;
        }
        0x8000_0000_0000_0000u64 + self.root_ppn.0
    }

    /// One table step changes at most the one pointer slot `(pni, j)`,
    /// and only from invalid to valid: readiness is monotone across it.
    proof fn lemma_ready_after_step(pre: PageTable, post: PageTable, pni: int, j: int)
        requires
            pre.wf(),
            post.wf(),
            post.spec_root() == pre.spec_root(),
            post.nodes@.len() >= pre.nodes@.len(),
            post.nodes@.len() <= pre.nodes@.len() + 1,
            0 <= pni < pre.nodes@.len(),
            0 <= j < 512,
            forall|k: int|
                0 <= k < pre.nodes@.len() ==> (#[trigger] post.nodes@[k]).ppn == pre.nodes@[k].ppn
                    && post.nodes@[k].path@ == pre.nodes@[k].path@,
            forall|k: int|
                pre.nodes@.len() <= k < post.nodes@.len() ==> !pre.has_node(
                    (#[trigger] post.nodes@[k]).ppn,
                ),
            forall|k: int, j2: int|
                0 <= k < pre.nodes@.len() && 0 <= j2 < 512 && !(k == pni && j2 == j)
                    ==> (#[trigger] post.nodes@[k].entries@[j2]) == pre.nodes@[k].entries@[j2],
            spec_pte_valid(pre.nodes@[pni].entries@[j]) ==> post.nodes@[pni].entries@[j]
                == pre.nodes@[pni].entries@[j],
        ensures
            forall|w: u64| pre.l1_ready_at(w) ==> post.l1_ready_at(w),
            forall|w: u64| pre.l2_ready_at(w) ==> post.l2_ready_at(w),
    {
        assert forall|k: int, j2: int|
            0 <= k < pre.nodes@.len() && 0 <= j2 < 512 && (#[trigger] pre.nodes@[k]).path@.len()
                < 2 && spec_pte_valid(#[trigger] pre.nodes@[k].entries@[j2])
            implies post.nodes@[k].entries@[j2] == pre.nodes@[k].entries@[j2] by {
            if k == pni && j2 == j {
            }
        }
        PageTable::lemma_ready_monotone(pre, post);
    }

    /// Installs a mapping from `vpn` to `ppn` with `flags` plus the valid
    /// bit. Rejects a page that is already mapped; fails on frame
    /// exhaustion; otherwise exactly the one translation is added.
    #[verifier::rlimit(100)]
    pub fn map(&mut self, a: &mut StackFrameAllocator, vpn: VirtualPageNum, ppn: PhysicPageNum, flags: PTEFlags) -> (r: Result<(), PagingError>)
        requires
            old(self).wf(),
            old(self).rooted(),
            old(a).wf(),
            old(self).frames_live(old(a)),
            vpn.0 < VPN_LIMIT,
            ppn.0 < PPN_LIMIT,
        ensures
            final(self).wf(),
            final(self).rooted(),
            final(self).spec_root() == old(self).spec_root(),
            final(a).wf(),
            final(a).spec_end() == old(a).spec_end(),
            final(self).frames_live(final(a)),
            forall|q: u64| old(a).is_live(q) ==> final(a).is_live(q),
            final(a).avail() >= old(a).avail() - 2,
            forall|p: u64| old(self).has_node(p) ==> final(self).has_node(p),
            forall|p: u64|
                !old(self).has_node(p) && old(a).is_live(p) ==> !final(self).has_node(p),
            r == Err::<(), PagingError>(PagingError::AlreadyMapped) <==> old(self).is_mapped(
                vpn.0,
            ),
            r == Err::<(), PagingError>(PagingError::AlreadyMapped) ==> final(a).eq_state(old(a))
                && (forall|p: u64| final(self).has_node(p) == old(self).has_node(p)),
            r == Err::<(), PagingError>(PagingError::FrameExhausted) ==> old(a).avail() < 2
                && final(a).avail() == 0,
            r != Err::<(), PagingError>(PagingError::NotMapped),
            r is Err ==> forall|w: u64| final(self).spec_mapped(w) == old(self).spec_mapped(w),
            r is Ok ==> final(self).spec_mapped(vpn.0) == Some(
                spec_pte_bits(ppn.0, flags.spec_with_valid().bits) as u64,
            ),
            r is Ok ==> forall|w: u64|
                w < VPN_LIMIT && w != vpn.0 ==> final(self).spec_mapped(w) == old(self).spec_mapped(w),
            !old(self).is_mapped(vpn.0) && old(a).avail() >= 2 ==> r is Ok,
            forall|w: u64| old(self).l1_ready_at(w) ==> final(self).l1_ready_at(w),
            forall|w: u64| old(self).l2_ready_at(w) ==> final(self).l2_ready_at(w),
            r is Ok ==> final(self).l2_ready_at(vpn.0),
            r is Ok ==> final(a).avail() >= old(a).avail() - old(self).spec_map_need(vpn.0),
            !old(self).is_mapped(vpn.0) && old(a).avail() >= old(self).spec_map_need(vpn.0)
                ==> r is Ok,
    {
        let idx = vpn.indexes();
        let rni = match self.find_node(self.root_ppn.0) {
            Some(i) => i,
            None => {
                // Unreachable: a rooted, well-formed table owns this node.
                proof {
                    assert(false);
                }
                return Err(PagingError::NotMapped);
            },
        };
        proof {
            self.lemma_idx(rni as int);
            assert(self.nodes@[rni as int].path@.len() == 0);
            // The root slot's validity is exactly level-1 readiness.
            assert(old(self).l1_ready_at(vpn.0) == spec_pte_valid(
                old(self).nodes@[rni as int].entries@[idx[0] as int],
            ));
        }
        let ghost l1 = old(self).l1_ready_at(vpn.0);
        let ghost l2 = old(self).l2_ready_at(vpn.0);
        let n1 = match self.ensure_child(a, rni, idx[0]) {
            Ok(i) => i,
            Err(e) => {
                proof {
                    assert(old(self).spec_walk(vpn.0) is None);
                    assert(!l1);
                }
                return Err(e);
            },
        };
        let ghost s1 = *self;
        let ghost a1 = *a;
        proof {
            assert(self.nodes@[n1 as int].path@.len() == 1);
            if l1 {
                assert(a1.eq_state(old(a)));
                assert(s1.nodes@ == old(self).nodes@);
            } else {
                assert(a1.avail() == old(a).avail() - 1);
            }
            // Identify the level-1 slot's validity with level-2 readiness.
            s1.lemma_idx(rni as int);
            s1.lemma_idx(n1 as int);
            if l1 {
                old(self).lemma_idx(n1 as int);
                assert(s1.entries_of(s1.spec_root())[idx[0] as int] == old(self).nodes@[
                    rni as int].entries@[idx[0] as int]);
                assert(l2 == spec_pte_valid(s1.nodes@[n1 as int].entries@[idx[1] as int])) by {
                    let c = old(self).entries_of(old(self).spec_root())[idx[0] as int] / 1024;
                    assert(s1.nodes@[n1 as int].ppn == c);
                    assert(old(self).nodes@[n1 as int].ppn == c);
                    assert(old(self).idx_of(c) == n1 as int);
                    assert(old(self).entries_of(c) == old(self).nodes@[n1 as int].entries@);
                }
            } else {
                assert(s1.entries_of(s1.nodes@[n1 as int].ppn) == Seq::new(512, |i: int| 0u64));
                assert(s1.nodes@[n1 as int].entries@[idx[1] as int] == 0u64);
            }
        }
        let n2 = match self.ensure_child(a, n1, idx[1]) {
            Ok(i) => i,
            Err(e) => {
                proof {
                    s1.lemma_idx(n1 as int);
                    assert(s1.entries_of(s1.nodes@[n1 as int].ppn)[idx[1] as int] == s1.nodes@[
                        n1 as int].entries@[idx[1] as int]);
                    assert(s1.spec_walk(vpn.0) is None);
                    assert(old(self).spec_mapped(vpn.0) is None);
                    assert(!l2);
                }
                return Err(e);
            },
        };
        let ghost s2 = *self;
        let ghost a2 = *a;
        proof {
            if l2 {
                assert(a2.eq_state(&a1));
            } else {
                assert(a2.avail() == a1.avail() - 1);
            }
            self.lemma_idx(n2 as int);
            // The level-1 parent is not the root, so the root entry survived
            // the second walk step.
            let root = self.spec_root();
            let p1 = s1.nodes@[n1 as int].ppn;
            assert(self.nodes@[rni as int].ppn == root);
            assert(p1 != root) by {
                s1.lemma_idx(n1 as int);
                s1.lemma_idx(rni as int);
                if p1 == root {
                    assert(s1.idx_of(p1) == n1 as int && s1.idx_of(root) == rni as int);
                    assert(s1.nodes@[rni as int].path@.len() == 0);
                }
            }
            assert(self.entries_of(root)[idx[0] as int] == s1.entries_of(root)[idx[0] as int]);
            assert(self.nodes@[n1 as int].ppn == p1);
            self.lemma_exec_walk(vpn.0, rni as int, n1 as int, n2 as int);
        }
        let e2 = self.nodes[n2].entries[idx[2]];
        proof {
            assert(self.entries_of(self.nodes@[n2 as int].ppn)[idx[2] as int] == e2);
            assert(self.spec_walk(vpn.0) == Some(e2));
        }
        if e2 % 2 == 1 {
            proof {
                assert(s2.spec_mapped(vpn.0) == Some(e2));
                assert(old(self).is_mapped(vpn.0));
                assert(spec_pte_valid(s1.nodes@[n1 as int].entries@[idx[1] as int]));
                assert(spec_pte_valid(old(self).nodes@[rni as int].entries@[idx[0] as int]));
            }
            return Err(PagingError::AlreadyMapped);
        }
        proof {
            assert(old(self).spec_mapped(vpn.0) is None);
        }
        let fv = flags.with_valid();
        proof {
            lemma_pte_encode(ppn.0, fv.bits);
        }
        let ebits = ppn.0 * 1024 + fv.bits as u64;
        let ghost s3 = *self;
        self.nodes[n2].entries[idx[2]] = ebits;
        proof {
            PageTable::lemma_write_leaf(s3, *self, vpn.0, n2 as int, ebits);
            assert(spec_pte_valid(ebits));
            assert(self.spec_mapped(vpn.0) == Some(ebits));
            assert(s2.l2_ready_at(vpn.0));
            PageTable::lemma_ready_after_step(s3, *self, n2 as int, idx[2] as int);
            assert(self.l2_ready_at(vpn.0));
            assert(a.avail() >= old(a).avail() - old(self).spec_map_need(vpn.0));
        }
        Ok(())
    }

    /// Clears the mapping of `vpn` back to the empty entry. Rejects a page
    /// that is not currently mapped; otherwise exactly the one translation
    /// is removed.
    pub fn unmap(&mut self, vpn: VirtualPageNum) -> (r: Result<(), PagingError>)
        requires
            old(self).wf(),
            vpn.0 < VPN_LIMIT,
        ensures
            final(self).wf(),
            final(self).spec_root() == old(self).spec_root(),
            forall|p: u64| final(self).has_node(p) == old(self).has_node(p),
            r == Err::<(), PagingError>(PagingError::NotMapped) <==> !old(self).is_mapped(vpn.0),
            r is Err ==> r == Err::<(), PagingError>(PagingError::NotMapped),
            r is Err ==> forall|w: u64| final(self).spec_mapped(w) == old(self).spec_mapped(w),
            r is Ok ==> final(self).spec_mapped(vpn.0) is None && final(self).spec_walk(vpn.0)
                == Some(0u64),
            r is Ok ==> forall|w: u64|
                w < VPN_LIMIT && w != vpn.0 ==> final(self).spec_mapped(w) == old(self).spec_mapped(w),
    {
        let idx = vpn.indexes();
        let rni = match self.find_node(self.root_ppn.0) {
            Some(i) => i,
            None => {
                return Err(PagingError::NotMapped);
            },
        };
        proof {
            self.lemma_idx(rni as int);
        }
        let e0 = self.nodes[rni].entries[idx[0]];
        if e0 % 2 == 0 {
            return Err(PagingError::NotMapped);
        }
        proof {
            assert(self.child_link_ok(rni as int, idx[0] as int));
        }
        let p1 = e0 / 1024;
        let n1 = match self.find_node(p1) {
            Some(i) => i,
            None => {
                // Unreachable: a rooted, well-formed table owns this node.
                proof {
                    assert(false);
                }
                return Err(PagingError::NotMapped);
            },
        };
        proof {
            self.lemma_idx(n1 as int);
            assert(self.nodes@[n1 as int].path@.len() == 1);
        }
        let e1 = self.nodes[n1].entries[idx[1]];
        if e1 % 2 == 0 {
            return Err(PagingError::NotMapped);
        }
        proof {
            assert(self.child_link_ok(n1 as int, idx[1] as int));
        }
        let p2 = e1 / 1024;
        let n2 = match self.find_node(p2) {
            Some(i) => i,
            None => {
                // Unreachable: a rooted, well-formed table owns this node.
                proof {
                    assert(false);
                }
                return Err(PagingError::NotMapped);
            },
        };
        proof {
            self.lemma_idx(n2 as int);
        }
        let e2 = self.nodes[n2].entries[idx[2]];
        if e2 % 2 == 0 {
            return Err(PagingError::NotMapped);
        }
        let ghost s = *self;
        self.nodes[n2].entries[idx[2]] = 0u64;
        proof {
            PageTable::lemma_write_leaf(s, *self, vpn.0, n2 as int, 0u64);
        }
        Ok(())
    }
}

/// Skeleton stability: two tables with pointwise-equal node page numbers
/// own the same nodes at the same indices.
proof fn lemma_same_skeleton(pre: PageTable, post: PageTable)
    requires
        pre.ppns_distinct(),
        post.nodes@.len() == pre.nodes@.len(),
        forall|k: int|
            0 <= k < pre.nodes@.len() ==> (#[trigger] post.nodes@[k]).ppn == pre.nodes@[k].ppn,
    ensures
        post.ppns_distinct(),
        forall|p: u64| post.has_node(p) == pre.has_node(p),
        forall|p: u64| pre.has_node(p) ==> post.idx_of(p) == pre.idx_of(p),
{
    assert forall|p: u64| post.has_node(p) == pre.has_node(p) by {
        if pre.has_node(p) {
            let k = choose|k: int| 0 <= k < pre.nodes@.len() && pre.nodes@[k].ppn == p;
            assert(post.nodes@[k].ppn == p);
        }
        if post.has_node(p) {
            let k = choose|k: int| 0 <= k < post.nodes@.len() && post.nodes@[k].ppn == p;
            assert(pre.nodes@[k].ppn == p);
        }
    }
    assert forall|p: u64| pre.has_node(p) implies post.idx_of(p) == pre.idx_of(p) by {
        let i = pre.idx_of(p);
        assert(0 <= i < pre.nodes@.len() && pre.nodes@[i].ppn == p);
        let j = post.idx_of(p);
        assert(0 <= j < post.nodes@.len() && post.nodes@[j].ppn == p);
        assert(pre.nodes@[j].ppn == p);
        if i < j {
            assert(pre.nodes@[i].ppn != pre.nodes@[j].ppn);
        }
        if j < i {
            assert(pre.nodes@[j].ppn != pre.nodes@[i].ppn);
        }
    }
}

/// Skeleton growth: appending one node with a fresh page number keeps the
/// old nodes at their indices and adds exactly that page number.
proof fn lemma_grown_skeleton(pre: PageTable, post: PageTable, fresh: u64)
    requires
        pre.ppns_distinct(),
        !pre.has_node(fresh),
        post.nodes@.len() == pre.nodes@.len() + 1,
        forall|k: int|
            0 <= k < pre.nodes@.len() ==> (#[trigger] post.nodes@[k]).ppn == pre.nodes@[k].ppn,
        post.nodes@[pre.nodes@.len() as int].ppn == fresh,
    ensures
        post.ppns_distinct(),
        forall|p: u64| post.has_node(p) == (pre.has_node(p) || p == fresh),
        forall|p: u64| pre.has_node(p) ==> post.idx_of(p) == pre.idx_of(p),
        post.has_node(fresh),
        post.idx_of(fresh) == pre.nodes@.len(),
{
    let n = pre.nodes@.len() as int;
    assert forall|p: u64| post.has_node(p) == (pre.has_node(p) || p == fresh) by {
        if pre.has_node(p) {
            let k = choose|k: int| 0 <= k < pre.nodes@.len() && pre.nodes@[k].ppn == p;
            assert(post.nodes@[k].ppn == p);
        }
        if p == fresh {
            assert(post.nodes@[n].ppn == p);
        }
        if post.has_node(p) {
            let k = choose|k: int| 0 <= k < post.nodes@.len() && post.nodes@[k].ppn == p;
            if k < n {
                assert(pre.nodes@[k].ppn == p);
            }
        }
    }
    assert(post.ppns_distinct()) by {
        assert forall|i: int, j: int|
            0 <= i < j < post.nodes@.len() implies post.nodes@[i].ppn != post.nodes@[j].ppn by {
            if j < n {
                assert(pre.nodes@[i].ppn != pre.nodes@[j].ppn);
            } else {
                assert(post.nodes@[j].ppn == fresh);
                assert(pre.nodes@[i].ppn == post.nodes@[i].ppn);
                if post.nodes@[i].ppn == fresh {
                    assert(pre.has_node(fresh));
                }
            }
        }
    }
    assert forall|p: u64| pre.has_node(p) implies post.idx_of(p) == pre.idx_of(p) by {
        let i = pre.idx_of(p);
        assert(0 <= i < pre.nodes@.len() && pre.nodes@[i].ppn == p);
        assert(post.nodes@[i].ppn == p);
        assert(post.has_node(p));
        let j = post.idx_of(p);
        assert(0 <= j < post.nodes@.len() && post.nodes@[j].ppn == p);
        if i != j {
            if i < j {
                assert(post.nodes@[i].ppn != post.nodes@[j].ppn);
            } else {
                assert(post.nodes@[j].ppn != post.nodes@[i].ppn);
            }
        }
    }
    assert(post.has_node(fresh));
    let jf = post.idx_of(fresh);
    assert(0 <= jf < post.nodes@.len() && post.nodes@[jf].ppn == fresh);
    if jf < n {
        assert(pre.nodes@[jf].ppn == fresh);
        assert(pre.has_node(fresh));
    }
}

impl PageTable {
    /// Writing one leaf entry changes the translation of exactly the one
    /// page number whose walk ends in that slot.
    proof fn lemma_write_leaf(pre: PageTable, post: PageTable, vpn: u64, ni: int, bits: u64)
        requires
            pre.wf(),
            vpn < VPN_LIMIT,
            pre.rooted(),
            spec_pte_valid(pre.entries_of(pre.spec_root())[vpn_index0(vpn) as int]),
            ({
                let e0 = pre.entries_of(pre.spec_root())[vpn_index0(vpn) as int];
                spec_pte_valid(pre.entries_of(e0 / 1024)[vpn_index1(vpn) as int])
            }),
            ({
                let e0 = pre.entries_of(pre.spec_root())[vpn_index0(vpn) as int];
                let e1 = pre.entries_of(e0 / 1024)[vpn_index1(vpn) as int];
                0 <= ni < pre.nodes@.len() && e1 / 1024 == pre.nodes@[ni].ppn
            }),
            post.spec_root() == pre.spec_root(),
            post.nodes@.len() == pre.nodes@.len(),
            forall|k: int|
                0 <= k < pre.nodes@.len() && k != ni ==> post.nodes@[k] == pre.nodes@[k],
            post.nodes@[ni].ppn == pre.nodes@[ni].ppn,
            post.nodes@[ni].path@ == pre.nodes@[ni].path@,
            post.nodes@[ni].entries@ == pre.nodes@[ni].entries@.update(
                vpn_index2(vpn) as int,
                bits,
            ),
        ensures
            post.wf(),
            post.rooted(),
            forall|p: u64| post.has_node(p) == pre.has_node(p),
            post.spec_walk(vpn) == Some(bits),
            forall|w: u64|
                w < VPN_LIMIT && w != vpn ==> post.spec_walk(w) == pre.spec_walk(w),
            forall|w: u64|
                w < VPN_LIMIT && w != vpn ==> post.spec_mapped(w) == pre.spec_mapped(w),
    {
        let i0 = vpn_index0(vpn);
        let i1 = vpn_index1(vpn);
        let i2 = vpn_index2(vpn);
        let root = pre.spec_root();
        let lp = pre.nodes@[ni].ppn;
        lemma_same_skeleton(pre, post);
        // Identify the chain of vpn's walk in pre.
        let kr = pre.idx_of(root);
        assert(0 <= kr < pre.nodes@.len() && pre.nodes@[kr].ppn == root);
        assert(pre.nodes@[kr].path@.len() == 0);
        let e0 = pre.entries_of(root)[i0 as int];
        assert(pre.child_link_ok(kr, i0 as int));
        let p1 = e0 / 1024;
        assert(pre.has_node(p1));
        assert(pre.path_of(p1) == pre.nodes@[kr].path@.push(i0));
        let k1 = pre.idx_of(p1);
        assert(0 <= k1 < pre.nodes@.len() && pre.nodes@[k1].ppn == p1);
        assert(pre.nodes@[k1].path@.len() == 1);
        let e1 = pre.entries_of(p1)[i1 as int];
        assert(pre.child_link_ok(k1, i1 as int));
        let p2 = e1 / 1024;
        assert(p2 == lp);
        assert(pre.has_node(p2));
        assert(pre.path_of(p2) == pre.nodes@[k1].path@.push(i1));
        pre.lemma_idx(ni);
        assert(pre.idx_of(lp) == ni);
        assert(pre.nodes@[ni].path@ == seq![i0, i1]) by {
            assert(pre.path_of(lp) == pre.nodes@[kr].path@.push(i0).push(i1));
            assert_seqs_equal!(pre.nodes@[kr].path@.push(i0).push(i1) == seq![i0, i1]);
        }
        // All paths and non-leaf entries are unchanged.
        assert forall|p: u64| pre.has_node(p) implies post.path_of(p) == pre.path_of(p) by {
            let k = pre.idx_of(p);
            assert(post.idx_of(p) == k);
            if k != ni {
                assert(post.nodes@[k] == pre.nodes@[k]);
            }
        }
        assert forall|p: u64| pre.has_node(p) && p != lp implies post.entries_of(p)
            == pre.entries_of(p) by {
            let k = pre.idx_of(p);
            assert(post.idx_of(p) == k);
            assert(k != ni) by {
                if k == ni {
                    assert(pre.nodes@[k].ppn == p);
                }
            }
            assert(post.nodes@[k] == pre.nodes@[k]);
        }
        assert(post.idx_of(lp) == ni);
        assert(post.entries_of(lp) == pre.entries_of(lp).update(i2 as int, bits));
        assert(i2 < 512);
        assert(pre.entries_of(lp).len() == 512);
        // Well-formedness of post.
        assert(post.wf()) by {
            assert forall|i: int|
                0 <= i < post.nodes@.len() implies (#[trigger] post.nodes@[i]).ppn < PPN_LIMIT
                    && post.nodes@[i].entries@.len() == 512 && post.nodes@[i].path@.len() <= 2
                    && (post.nodes@[i].ppn == post.spec_root() ==> post.nodes@[i].path@.len()
                    == 0) && (post.nodes@[i].path@.len() == 0 ==> post.nodes@[i].ppn
                    == post.spec_root()) by {
                if i != ni {
                    assert(post.nodes@[i] == pre.nodes@[i]);
                } else {
                    assert(pre.nodes@[ni].entries@.len() == 512);
                }
            }
            assert forall|i: int, j: int|
                0 <= i < post.nodes@.len() && 0 <= j < 512 && (#[trigger] post.nodes@[i]).path@.len()
                    < 2 && spec_pte_valid(#[trigger] post.nodes@[i].entries@[j]) implies post
                .child_link_ok(i, j) by {
                assert(post.nodes@[i].path@ == pre.nodes@[i].path@);
                if i == ni {
                    assert(pre.nodes@[ni].path@.len() == 2);
                } else {
                    assert(post.nodes@[i] == pre.nodes@[i]);
                    assert(pre.child_link_ok(i, j));
                    let child = pre.nodes@[i].entries@[j] / 1024;
                    assert(pre.has_node(child));
                    assert(post.path_of(child) == pre.path_of(child));
                    assert(post.has_node(child));
                }
            }
        }
        // The walk of vpn now yields the new bits.
        assert(post.spec_walk(vpn) == Some(bits)) by {
            assert(post.has_node(root));
            assert(root != lp) by {
                if root == lp {
                    assert(pre.idx_of(root) == ni);
                }
            }
            assert(post.entries_of(root) == pre.entries_of(root));
            assert(p1 != lp) by {
                if p1 == lp {
                    assert(pre.nodes@[k1].path@.len() == 1);
                    assert(pre.nodes@[ni].path@.len() == 2);
                    assert(pre.idx_of(p1) == k1 && pre.idx_of(lp) == ni);
                }
            }
            assert(post.entries_of(p1) == pre.entries_of(p1));
            assert(post.entries_of(lp)[i2 as int] == bits);
        }
        // Other page numbers keep their walk.
        assert forall|w: u64| w < VPN_LIMIT && w != vpn implies post.spec_walk(w)
            == pre.spec_walk(w) by {
            let j0 = vpn_index0(w);
            let j1 = vpn_index1(w);
            let j2 = vpn_index2(w);
            assert(root != lp) by {
                if root == lp {
                    assert(pre.idx_of(root) == ni);
                }
            }
            assert(post.entries_of(root) == pre.entries_of(root));
            let f0 = pre.entries_of(root)[j0 as int];
            if spec_pte_valid(f0) {
                assert(pre.child_link_ok(kr, j0 as int));
                let q1 = f0 / 1024;
                assert(pre.has_node(q1));
                assert(q1 != lp) by {
                    if q1 == lp {
                        assert(pre.path_of(q1) == pre.nodes@[kr].path@.push(j0));
                        assert(pre.nodes@[ni].path@.len() == 2);
                        assert(pre.idx_of(lp) == ni);
                    }
                }
                assert(post.entries_of(q1) == pre.entries_of(q1));
                let f1 = pre.entries_of(q1)[j1 as int];
                if spec_pte_valid(f1) {
                    let kq1 = pre.idx_of(q1);
                    assert(pre.nodes@[kq1].path@ == pre.nodes@[kr].path@.push(j0));
                    assert(pre.nodes@[kq1].path@.len() == 1);
                    assert(pre.child_link_ok(kq1, j1 as int));
                    let q2 = f1 / 1024;
                    assert(pre.has_node(q2));
                    assert(pre.path_of(q2) == pre.nodes@[kq1].path@.push(j1));
                    if q2 == lp {
                        assert(pre.path_of(lp) == pre.nodes@[ni].path@);
                        assert(pre.nodes@[kq1].path@.push(j1) == seq![i0, i1]);
                        assert(j1 == i1) by {
                            assert(pre.nodes@[kq1].path@.push(j1)[1] == j1);
                        }
                        assert(j0 == i0) by {
                            assert(pre.nodes@[kq1].path@.push(j1)[0] == pre.nodes@[kq1].path@[0]);
                            assert(pre.nodes@[kq1].path@ == pre.nodes@[kr].path@.push(j0));
                            assert(pre.nodes@[kr].path@.push(j0)[0] == j0);
                        }
                        assert(j2 != i2) by {
                            if j2 == i2 {
                                crate::address::lemma_indices_injective(w, vpn);
                            }
                        }
                        assert(post.entries_of(lp)[j2 as int] == pre.entries_of(lp)[j2 as int]);
                    } else {
                        assert(post.entries_of(q2) == pre.entries_of(q2));
                    }
                }
            }
        }
        assert forall|w: u64| w < VPN_LIMIT && w != vpn implies post.spec_mapped(w)
            == pre.spec_mapped(w) by {
            assert(post.spec_walk(w) == pre.spec_walk(w));
        }
    }
}

impl PageTable {
    /// Installing a fresh, zero-filled node under an invalid pointer slot
    /// leaves every translation as it was.
    proof fn lemma_add_node(pre: PageTable, post: PageTable, pni: int, j: int, fresh: u64)
        requires
            pre.wf(),
            pre.rooted(),
            0 <= pni < pre.nodes@.len(),
            0 <= j < 512,
            pre.nodes@[pni].path@.len() < 2,
            !spec_pte_valid(pre.nodes@[pni].entries@[j]),
            !pre.has_node(fresh),
            fresh < PPN_LIMIT,
            post.spec_root() == pre.spec_root(),
            post.nodes@.len() == pre.nodes@.len() + 1,
            forall|k: int|
                0 <= k < pre.nodes@.len() && k != pni ==> post.nodes@[k] == pre.nodes@[k],
            post.nodes@[pni].ppn == pre.nodes@[pni].ppn,
            post.nodes@[pni].path@ == pre.nodes@[pni].path@,
            post.nodes@[pni].entries@ == pre.nodes@[pni].entries@.update(
                j,
                (fresh * 1024 + 1) as u64,
            ),
            post.nodes@[pre.nodes@.len() as int].ppn == fresh,
            post.nodes@[pre.nodes@.len() as int].entries@ == Seq::new(512, |i: int| 0u64),
            post.nodes@[pre.nodes@.len() as int].path@ == pre.nodes@[pni].path@.push(j as u64),
        ensures
            post.wf(),
            post.rooted(),
            forall|p: u64| post.has_node(p) == (pre.has_node(p) || p == fresh),
            forall|w: u64| post.spec_mapped(w) == pre.spec_mapped(w),
    {
        let n = pre.nodes@.len() as int;
        let pp = pre.nodes@[pni].ppn;
        let root = pre.spec_root();
        let enew = (fresh * 1024 + 1) as u64;
        lemma_pte_encode(fresh, 1u8);
        assert(enew == fresh * 1024 + 1);
        assert(enew / 1024 == fresh && enew % 1024 == 1 && spec_pte_valid(enew)) by {
            lemma_pte_encode(fresh, 1u8);
        }
        lemma_grown_skeleton(pre, post, fresh);
        pre.lemma_idx(pni);
        assert(pre.idx_of(pp) == pni);
        assert(fresh != root) by {
            if fresh == root {
                assert(pre.has_node(fresh));
            }
        }
        assert(post.rooted());
        // Paths are unchanged for old nodes; entries unchanged except parent.
        assert forall|p: u64| pre.has_node(p) implies post.path_of(p) == pre.path_of(p) by {
            let k = pre.idx_of(p);
            assert(post.idx_of(p) == k);
            if k != pni {
                assert(post.nodes@[k] == pre.nodes@[k]);
            }
        }
        assert forall|p: u64| pre.has_node(p) && p != pp implies post.entries_of(p)
            == pre.entries_of(p) by {
            let k = pre.idx_of(p);
            assert(post.idx_of(p) == k);
            assert(k != pni) by {
                if k == pni {
                    assert(pre.nodes@[k].ppn == p);
                }
            }
            assert(post.nodes@[k] == pre.nodes@[k]);
        }
        assert(post.idx_of(pp) == pni);
        assert(post.entries_of(pp) == pre.entries_of(pp).update(j, enew));
        assert(post.idx_of(fresh) == n);
        assert(post.entries_of(fresh) == Seq::new(512, |i: int| 0u64));
        assert(post.path_of(fresh) == pre.nodes@[pni].path@.push(j as u64));
        // Well-formedness of post.
        assert(post.wf()) by {
            assert forall|i: int|
                0 <= i < post.nodes@.len() implies (#[trigger] post.nodes@[i]).ppn < PPN_LIMIT
                    && post.nodes@[i].entries@.len() == 512 && post.nodes@[i].path@.len() <= 2
                    && (post.nodes@[i].ppn == post.spec_root() ==> post.nodes@[i].path@.len()
                    == 0) && (post.nodes@[i].path@.len() == 0 ==> post.nodes@[i].ppn
                    == post.spec_root()) by {
                if i < n && i != pni {
                    assert(post.nodes@[i] == pre.nodes@[i]);
                } else if i == pni {
                    assert(pre.nodes@[pni].entries@.len() == 512);
                } else {
                    assert(i == n);
                    assert(post.nodes@[i].ppn == fresh);
                    assert(fresh != root);
                }
            }
            assert forall|i: int, jj: int|
                0 <= i < post.nodes@.len() && 0 <= jj < 512
                    && (#[trigger] post.nodes@[i]).path@.len() < 2
                    && spec_pte_valid(#[trigger] post.nodes@[i].entries@[jj])
                implies post.child_link_ok(i, jj) by {
                if i == n {
                    assert(post.nodes@[i].entries@[jj] == 0u64);
                } else if i == pni && jj == j {
                    assert(post.nodes@[i].entries@[jj] == enew);
                    assert(post.has_node(fresh));
                    assert(post.path_of(fresh) == post.nodes@[pni].path@.push(j as u64));
                } else {
                    assert(post.nodes@[i].entries@[jj] == pre.nodes@[i].entries@[jj]);
                    assert(post.nodes@[i].path@ == pre.nodes@[i].path@);
                    assert(pre.child_link_ok(i, jj));
                    let child = pre.nodes@[i].entries@[jj] / 1024;
                    assert(pre.has_node(child));
                    assert(post.has_node(child));
                    assert(post.path_of(child) == pre.path_of(child));
                }
            }
        }
        // Translations are untouched.
        assert forall|w: u64| post.spec_mapped(w) == pre.spec_mapped(w) by {
            let j0 = vpn_index0(w);
            let j1 = vpn_index1(w);
            let j2 = vpn_index2(w);
            let kr = pre.idx_of(root);
            assert(0 <= kr < pre.nodes@.len() && pre.nodes@[kr].ppn == root);
            assert(pre.nodes@[kr].path@.len() == 0);
            assert(post.has_node(root) && pre.has_node(root));
            if root == pp {
                // The parent is the root: step 0 may read the new entry.
                assert(pni == kr);
                if j0 == j {
                    // pre walk stopped at the invalid slot; post walk enters
                    // the fresh all-zero node and stops there.
                    assert(pre.spec_walk(w) is None);
                    assert(post.entries_of(root)[j0 as int] == enew);
                    assert(post.entries_of(fresh)[j1 as int] == 0u64);
                    assert(post.spec_mapped(w) is None) by {
                        if post.has_node(enew / 1024) {
                            assert(enew / 1024 == fresh);
                            assert(!spec_pte_valid(post.entries_of(fresh)[j1 as int]));
                        }
                    }
                    assert(pre.spec_mapped(w) is None);
                } else {
                    assert(post.entries_of(root)[j0 as int] == pre.entries_of(root)[j0 as int]);
                    let f0 = pre.entries_of(root)[j0 as int];
                    if spec_pte_valid(f0) {
                        assert(pre.child_link_ok(kr, j0 as int));
                        let q1 = f0 / 1024;
                        assert(pre.has_node(q1));
                        assert(q1 != pp) by {
                            if q1 == pp {
                                assert(pre.path_of(q1) == pre.nodes@[kr].path@.push(j0));
                                assert(pre.idx_of(pp) == pni);
                                assert(pre.nodes@[pni].path@.len() == 0);
                            }
                        }
                        assert(q1 != fresh);
                        assert(post.entries_of(q1) == pre.entries_of(q1));
                        let f1 = pre.entries_of(q1)[j1 as int];
                        if spec_pte_valid(f1) {
                            let kq1 = pre.idx_of(q1);
                            assert(pre.nodes@[kq1].path@.len() == 1);
                            assert(pre.child_link_ok(kq1, j1 as int));
                            let q2 = f1 / 1024;
                            assert(pre.has_node(q2));
                            assert(q2 != pp) by {
                                if q2 == pp {
                                    assert(pre.path_of(q2) == pre.nodes@[kq1].path@.push(j1));
                                }
                            }
                            assert(q2 != fresh);
                            assert(post.entries_of(q2) == pre.entries_of(q2));
                        }
                    }
                }
            } else {
                // The parent is a level-1 node.
                assert(pre.nodes@[pni].path@.len() == 1) by {
                    if pre.nodes@[pni].path@.len() == 0 {
                        assert(pre.nodes@[pni].ppn == root);
                    }
                }
                assert(post.entries_of(root) == pre.entries_of(root));
                let f0 = pre.entries_of(root)[j0 as int];
                if spec_pte_valid(f0) {
                    assert(pre.child_link_ok(kr, j0 as int));
                    let q1 = f0 / 1024;
                    assert(pre.has_node(q1));
                    assert(q1 != fresh);
                    let kq1 = pre.idx_of(q1);
                    assert(pre.nodes@[kq1].path@ == pre.nodes@[kr].path@.push(j0));
                    assert(pre.nodes@[kq1].path@.len() == 1);
                    if q1 == pp {
                        assert(kq1 == pni);
                        if j1 == j {
                            assert(pre.spec_walk(w) is None);
                            assert(post.entries_of(pp)[j1 as int] == enew);
                            assert(post.spec_mapped(w) is None) by {
                                assert(post.has_node(fresh));
                                assert(!spec_pte_valid(post.entries_of(fresh)[j2 as int]));
                            }
                            assert(pre.spec_mapped(w) is None);
                        } else {
                            assert(post.entries_of(pp)[j1 as int] == pre.entries_of(pp)[
                                j1 as int]);
                            let f1 = pre.entries_of(pp)[j1 as int];
                            if spec_pte_valid(f1) {
                                assert(pre.child_link_ok(pni, j1 as int));
                                let q2 = f1 / 1024;
                                assert(pre.has_node(q2));
                                assert(q2 != fresh);
                                assert(q2 != pp) by {
                                    if q2 == pp {
                                        assert(pre.path_of(q2) == pre.nodes@[pni].path@.push(j1));
                                    }
                                }
                                assert(post.entries_of(q2) == pre.entries_of(q2));
                            }
                        }
                    } else {
                        assert(post.entries_of(q1) == pre.entries_of(q1));
                        let f1 = pre.entries_of(q1)[j1 as int];
                        if spec_pte_valid(f1) {
                            assert(pre.child_link_ok(kq1, j1 as int));
                            let q2 = f1 / 1024;
                            assert(pre.has_node(q2));
                            assert(q2 != fresh);
                            assert(q2 != pp) by {
                                if q2 == pp {
                                    assert(pre.path_of(q2) == pre.nodes@[kq1].path@.push(j1));
                                    assert(pre.nodes@[pni].path@.len() < 2);
                                    assert(pre.idx_of(pp) == pni);
                                }
                            }
                            assert(post.entries_of(q2) == pre.entries_of(q2));
                        }
                    }
                }
            }
        }
    }
}

impl PageTable {
    /// Readiness is monotone under steps that keep every valid pointer
    /// entry of the non-leaf nodes: adding nodes or writing leaf entries
    /// never un-readies a region.
    proof fn lemma_ready_monotone(pre: PageTable, post: PageTable)
        requires
            pre.wf(),
            post.wf(),
            post.spec_root() == pre.spec_root(),
            post.nodes@.len() >= pre.nodes@.len(),
            forall|k: int|
                0 <= k < pre.nodes@.len() ==> (#[trigger] post.nodes@[k]).ppn == pre.nodes@[k].ppn
                    && post.nodes@[k].path@ == pre.nodes@[k].path@,
            forall|k: int|
                pre.nodes@.len() <= k < post.nodes@.len() ==> !pre.has_node(
                    (#[trigger] post.nodes@[k]).ppn,
                ),
            forall|k: int, j: int|
                0 <= k < pre.nodes@.len() && 0 <= j < 512 && (#[trigger] pre.nodes@[k]).path@.len()
                    < 2 && spec_pte_valid(#[trigger] pre.nodes@[k].entries@[j])
                    ==> post.nodes@[k].entries@[j] == pre.nodes@[k].entries@[j],
        ensures
            forall|w: u64| pre.l1_ready_at(w) ==> post.l1_ready_at(w),
            forall|w: u64| pre.l2_ready_at(w) ==> post.l2_ready_at(w),
    {
        assert forall|p: u64| pre.has_node(p) implies post.has_node(p) && post.idx_of(p)
            == pre.idx_of(p) by {
            let k = pre.idx_of(p);
            assert(0 <= k < pre.nodes@.len() && pre.nodes@[k].ppn == p);
            assert(post.nodes@[k].ppn == p);
            assert(post.has_node(p));
            let k2 = post.idx_of(p);
            assert(0 <= k2 < post.nodes@.len() && post.nodes@[k2].ppn == p);
            if k2 != k {
                if k2 < pre.nodes@.len() {
                    assert(pre.nodes@[k2].ppn == p);
                } else {
                    assert(!pre.has_node(post.nodes@[k2].ppn));
                }
            }
        }
        assert forall|w: u64| pre.l1_ready_at(w) implies post.l1_ready_at(w) by {
            let root = pre.spec_root();
            let kr = pre.idx_of(root);
            assert(0 <= kr < pre.nodes@.len() && pre.nodes@[kr].ppn == root);
            assert(pre.nodes@[kr].path@.len() == 0);
            assert(post.idx_of(root) == kr);
            assert(post.nodes@[kr].entries@[vpn_index0(w) as int] == pre.nodes@[kr].entries@[
                vpn_index0(w) as int]);
        }
        assert forall|w: u64| pre.l2_ready_at(w) implies post.l2_ready_at(w) by {
            let root = pre.spec_root();
            let kr = pre.idx_of(root);
            assert(0 <= kr < pre.nodes@.len() && pre.nodes@[kr].ppn == root);
            assert(pre.nodes@[kr].path@.len() == 0);
            assert(post.idx_of(root) == kr);
            let e0 = pre.entries_of(root)[vpn_index0(w) as int];
            assert(post.entries_of(root)[vpn_index0(w) as int] == e0);
            assert(pre.child_link_ok(kr, vpn_index0(w) as int));
            let c = e0 / 1024;
            assert(pre.has_node(c));
            let kc = pre.idx_of(c);
            assert(pre.nodes@[kc].path@ == pre.nodes@[kr].path@.push(vpn_index0(w)));
            assert(pre.nodes@[kc].path@.len() == 1);
            assert(post.idx_of(c) == kc);
            assert(post.nodes@[kc].entries@[vpn_index1(w) as int] == pre.nodes@[kc].entries@[
                vpn_index1(w) as int]);
        }
    }

    /// Reading the chain of valid pointer entries for `vpn` is exactly the
    /// specification walk.
    proof fn lemma_exec_walk(self, vpn: u64, rni: int, n1: int, n2: int)
        requires
            self.wf(),
            self.rooted(),
            0 <= rni < self.nodes@.len(),
            self.nodes@[rni].ppn == self.spec_root(),
            0 <= n1 < self.nodes@.len(),
            0 <= n2 < self.nodes@.len(),
            spec_pte_valid(self.entries_of(self.spec_root())[vpn_index0(vpn) as int]),
            self.entries_of(self.spec_root())[vpn_index0(vpn) as int] / 1024 == self.nodes@[
                n1].ppn,
            spec_pte_valid(self.entries_of(self.nodes@[n1].ppn)[vpn_index1(vpn) as int]),
            self.entries_of(self.nodes@[n1].ppn)[vpn_index1(vpn) as int] / 1024 == self.nodes@[
                n2].ppn,
        ensures
            self.spec_walk(vpn) == Some(
                self.entries_of(self.nodes@[n2].ppn)[vpn_index2(vpn) as int],
            ),
    {
        self.lemma_idx(rni);
        self.lemma_idx(n1);
        self.lemma_idx(n2);
    }

    /// Makes sure the pointer slot `j` of node `pni` leads to a child node,
    /// allocating a fresh zeroed node when the slot is invalid; returns the
    /// child's index. No translation changes.
    fn ensure_child(&mut self, a: &mut StackFrameAllocator, pni: usize, j: usize) -> (r: Result<
        usize,
        PagingError,
    >)
        requires
            old(self).wf(),
            old(self).rooted(),
            old(a).wf(),
            old(self).frames_live(old(a)),
            pni < old(self).nodes@.len(),
            j < 512,
            old(self).nodes@[pni as int].path@.len() < 2,
        ensures
            final(self).wf(),
            final(self).rooted(),
            final(self).spec_root() == old(self).spec_root(),
            final(a).wf(),
            final(a).spec_end() == old(a).spec_end(),
            final(self).frames_live(final(a)),
            forall|q: u64| old(a).is_live(q) ==> final(a).is_live(q),
            final(a).avail() >= old(a).avail() - 1,
            forall|p: u64| old(self).has_node(p) ==> final(self).has_node(p),
            forall|p: u64|
                !old(self).has_node(p) && old(a).is_live(p) ==> !final(self).has_node(p),
            forall|w: u64| final(self).spec_mapped(w) == old(self).spec_mapped(w),
            forall|w: u64| old(self).l1_ready_at(w) ==> final(self).l1_ready_at(w),
            forall|w: u64| old(self).l2_ready_at(w) ==> final(self).l2_ready_at(w),
            r is Err ==> r == Err::<usize, PagingError>(PagingError::FrameExhausted) && old(a).avail() == 0 && final(a).eq_state(old(a)) && final(self).nodes@ == old(self).nodes@
                && !spec_pte_valid(old(self).nodes@[pni as int].entries@[j as int]),
            r matches Ok(ci) ==> {
                let pp = old(self).nodes@[pni as int].ppn;
                let e = final(self).entries_of(pp)[j as int];
                &&& ci < final(self).nodes@.len()
                &&& final(self).nodes@.len() >= old(self).nodes@.len()
                &&& final(self).nodes@.len() <= old(self).nodes@.len() + 1
                &&& (forall|k: int, j2: int|
                    0 <= k < old(self).nodes@.len() && 0 <= j2 < 512 && !(k == pni as int && j2
                        == j as int) ==> (#[trigger] final(self).nodes@[k].entries@[j2]) == old(self).nodes@[k].entries@[j2])
                &&& (forall|k: int|
                    old(self).nodes@.len() <= k < final(self).nodes@.len() ==> !old(self).has_node((#[trigger] final(self).nodes@[k]).ppn))
                &&& (forall|k: int|
                    0 <= k < old(self).nodes@.len() ==> (#[trigger] final(self).nodes@[k]).ppn
                        == old(self).nodes@[k].ppn && final(self).nodes@[k].path@ == old(self).nodes@[k].path@)
                &&& final(self).nodes@[ci as int].path@ == old(self).nodes@[pni as int].path@.push(
                    j as u64,
                )
                &&& spec_pte_valid(e)
                &&& e / 1024 == final(self).nodes@[ci as int].ppn
                &&& (forall|p: u64|
                    old(self).has_node(p) && p != pp ==> final(self).entries_of(p) == old(self).entries_of(p))
                &&& (spec_pte_valid(old(self).nodes@[pni as int].entries@[j as int]) ==> final(a).eq_state(old(a)) && final(self).nodes@ == old(self).nodes@)
                &&& (!spec_pte_valid(old(self).nodes@[pni as int].entries@[j as int]) ==> final(self).entries_of(final(self).nodes@[ci as int].ppn) == Seq::new(512, |i: int| 0u64)
                    && final(a).avail() == old(a).avail() - 1)
            },
    {
        proof {
            self.lemma_idx(pni as int);
        }
        let e = self.nodes[pni].entries[j];
        if e % 2 == 1 {
            let child = e / 1024;
            proof {
                assert(self.child_link_ok(pni as int, j as int));
                assert(self.has_node(child));
            }
            let ci = match self.find_node(child) {
                Some(i) => i,
                None => {
                    // Unreachable: a valid pointer entry targets an owned node.
                    proof {
                        assert(false);
                    }
                    return Err(PagingError::FrameExhausted);
                },
            };
            proof {
                self.lemma_idx(ci as int);
                assert(self.path_of(child) == self.nodes@[pni as int].path@.push(j as u64));
                assert(self.entries_of(self.nodes@[pni as int].ppn) == self.nodes@[
                    pni as int].entries@);
                PageTable::lemma_ready_after_step(*old(self), *self, pni as int, j as int);
            }
            Ok(ci)
        } else {
            let f = match a.allocate() {
                None => {
                    proof {
                        PageTable::lemma_ready_after_step(
                            *old(self),
                            *self,
                            pni as int,
                            j as int,
                        );
                    }
                    return Err(PagingError::FrameExhausted);
                },
                Some(f) => f,
            };
            proof {
                assert(!self.has_node(f.0)) by {
                    if self.has_node(f.0) {
                        assert(old(a).is_live(f.0));
                    }
                }
            }
            let ghost pre = *self;
            let child_node = PageTable::zero_node(
                f.0,
                Ghost(self.nodes@[pni as int].path@.push(j as u64)),
            );
            let enew = f.0 * 1024 + 1;
            self.nodes[pni].entries[j] = enew;
            self.nodes.push(child_node);
            let ci = self.nodes.len() - 1;
            proof {
                assert(forall|k: int|
                    0 <= k < pre.nodes@.len() && k != pni ==> self.nodes@[k] == pre.nodes@[k]);
                assert(self.nodes@[pni as int].entries@ == pre.nodes@[pni as int].entries@.update(
                    j as int,
                    enew,
                ));
                PageTable::lemma_add_node(pre, *self, pni as int, j as int, f.0);
                lemma_grown_skeleton(pre, *self, f.0);
                let pp = pre.nodes@[pni as int].ppn;
                pre.lemma_idx(pni as int);
                assert(self.idx_of(pp) == pni);
                assert(self.entries_of(pp) == self.nodes@[pni as int].entries@);
                assert(self.entries_of(pp)[j as int] == enew);
                lemma_pte_encode(f.0, 1u8);
                assert(spec_pte_valid(enew) && enew / 1024 == f.0);
                assert(self.idx_of(f.0) == ci);
                assert(self.entries_of(f.0) == Seq::new(512, |i: int| 0u64));
                assert forall|p: u64| pre.has_node(p) && p != pp implies self.entries_of(p)
                    == pre.entries_of(p) by {
                    let k = pre.idx_of(p);
                    assert(self.idx_of(p) == k);
                    assert(k != pni) by {
                        if k == pni {
                            assert(pre.nodes@[k].ppn == p);
                        }
                    }
                    assert(self.nodes@[k] == pre.nodes@[k]);
                }
                PageTable::lemma_ready_after_step(pre, *self, pni as int, j as int);
            }
            Ok(ci)
        }
    }

    /// Walks the table and returns a copy of the leaf entry, valid or not;
    /// `None` where the walk stops early.
    pub fn translate(&self, vpn: VirtualPageNum) -> (r: Option<PageTableEntry>)
        requires
            self.wf(),
        ensures
            match r {
                Some(pte) => self.spec_walk(vpn.0) == Some(pte.bits) && (if spec_pte_valid(
                    pte.bits,
                ) {
                    self.spec_mapped(vpn.0) == Some(pte.bits)
                } else {
                    self.spec_mapped(vpn.0) is None
                }),
                None => self.spec_walk(vpn.0) is None && self.spec_mapped(vpn.0) is None,
            },
    {
        let idx = vpn.indexes();
        let rni = match self.find_node(self.root_ppn.0) {
            None => {
                return None;
            },
            Some(i) => i,
        };
        proof {
            self.lemma_idx(rni as int);
        }
        let e0 = self.nodes[rni].entries[idx[0]];
        if e0 % 2 == 0 {
            return None;
        }
        let p1 = e0 / 1024;
        let n1 = match self.find_node(p1) {
            None => {
                return None;
            },
            Some(i) => i,
        };
        proof {
            self.lemma_idx(n1 as int);
        }
        let e1 = self.nodes[n1].entries[idx[1]];
        if e1 % 2 == 0 {
            return None;
        }
        let p2 = e1 / 1024;
        let n2 = match self.find_node(p2) {
            None => {
                return None;
            },
            Some(i) => i,
        };
        proof {
            self.lemma_idx(n2 as int);
        }
        let e2 = self.nodes[n2].entries[idx[2]];
        Some(PageTableEntry { bits: e2 })
    }
}

} // verus!
