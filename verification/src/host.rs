//! Model of the hosting environment around one target process.
//!
//! The operating system supplies process enumeration, module enumeration and
//! memory region metadata as primitives; this module represents what those
//! primitives report as plain data, so that the scanner, the resolver and the
//! typed memory accessors can be specified and verified against it.

use vstd::prelude::*;

verus! {

/// One span of committed memory in the target process's address space.
pub struct MemoryRegion {
    /// Absolute address of the first byte of the region.
    pub base: u64,
    /// The region's bytes.
    pub data: Vec<u8>,
    /// Whether cross-process reads of this region succeed.
    pub readable: bool,
    /// Whether cross-process writes to this region succeed.
    pub writable: bool,
}

/// One entry of the hosting environment's process table.
pub struct ProcessEntry {
    /// Executable name, e.g. `"client.exe"`.
    pub name: String,
    /// Process identifier; the environment reports 0 for none.
    pub id: u32,
    /// Handle the environment hands out when this process is opened with
    /// full access; 0 when opening is denied.
    pub handle: u64,
}

/// One loaded module of the target process.
pub struct ModuleEntry {
    /// Module name, e.g. `"client.dll"`.
    pub name: String,
    /// Absolute base address of the module; the environment reports 0 for none.
    pub base: u64,
}

/// The hosting environment's view of the machine around one target process:
/// the live process table, the target's loaded modules, its committed memory
/// regions, and whether the target is still running.
pub struct Host {
    pub processes: Vec<ProcessEntry>,
    pub modules: Vec<ModuleEntry>,
    pub regions: Vec<MemoryRegion>,
    pub running: bool,
}

impl MemoryRegion {
    /// Address one past the last byte of the region.
    pub open spec fn end(self) -> int {
        self.base + self.data@.len()
    }

    /// A region is well formed when it holds at least one byte and does not
    /// wrap around the top of the address space.
    pub open spec fn wf(self) -> bool {
        &&& self.data@.len() >= 1
        &&& self.base + self.data@.len() <= u64::MAX
    }

    /// Whether `addr` lies inside the region.
    pub open spec fn contains(self, addr: int) -> bool {
        self.base <= addr < self.end()
    }

    /// Whether the whole range `[addr, addr + n)` lies inside the region.
    pub open spec fn contains_range(self, addr: int, n: int) -> bool {
        self.base <= addr && addr + n <= self.end()
    }
}

/// Index of the first region at position `i` or beyond that contains `addr`,
/// or -1 when none does.
pub open spec fn region_index_from(regions: Seq<MemoryRegion>, addr: int, i: int) -> int
    decreases regions.len() - i when 0 <= i <= regions.len()
{
    if i >= regions.len() {
        -1
    } else if regions[i].contains(addr) {
        i
    } else {
        region_index_from(regions, addr, i + 1)
    }
}

impl Host {
    /// Regions are well formed, sorted by base address and pairwise disjoint.
    pub open spec fn wf(self) -> bool {
        &&& forall|i: int|
            0 <= i < self.regions@.len() ==> (#[trigger] self.regions@[i]).wf()
        &&& forall|i: int, j: int|
            0 <= i < j < self.regions@.len() ==> (#[trigger] self.regions@[i]).end()
                <= (#[trigger] self.regions@[j]).base
    }

    /// Index of the region containing `addr`, or -1 when none does.
    pub open spec fn region_index(self, addr: int) -> int {
        region_index_from(self.regions@, addr, 0)
    }

    /// The byte stored at `addr`, or 0 when no region holds that address.
    pub open spec fn byte_at(self, addr: int) -> u8 {
        let i = self.region_index(addr);
        if i >= 0 {
            self.regions@[i].data@[addr - self.regions@[i].base]
        } else {
            0
        }
    }

    /// The `n` bytes stored at `addr`.
    pub open spec fn mem_bytes(self, addr: int, n: int) -> Seq<u8> {
        Seq::new(n as nat, |k: int| self.byte_at(addr + k))
    }

    /// Whether a cross-process read of `n` bytes at `addr` succeeds: the whole
    /// range lies within a single readable region. A zero-length read always
    /// succeeds.
    pub open spec fn readable_at(self, addr: int, n: int) -> bool {
        n == 0 || exists|i: int|
            0 <= i < self.regions@.len() && (#[trigger] self.regions@[i]).readable
                && self.regions@[i].contains_range(addr, n)
    }

    /// Whether a cross-process write of `n` bytes at `addr` succeeds.
    pub open spec fn writable_at(self, addr: int, n: int) -> bool {
        n == 0 || exists|i: int|
            0 <= i < self.regions@.len() && (#[trigger] self.regions@[i]).writable
                && self.regions@[i].contains_range(addr, n)
    }

    /// Address one past the last region, i.e. the end of the examined address
    /// space; 0 when there are no regions.
    pub open spec fn space_end(self) -> int {
        if self.regions@.len() == 0 {
            0
        } else {
            self.regions@[self.regions@.len() - 1].end()
        }
    }

    /// What a region query at `addr` reports: the distance from `addr` to the
    /// end of the span with uniform state that starts at `addr` — the rest of
    /// the containing region, or the gap up to the next region — or `None`
    /// past the last region.
    pub open spec fn query_span(self, addr: int) -> Option<int> {
        query_span_from(self.regions@, addr, 0)
    }

    /// The region containing `addr` is unique in a well-formed host.
    pub proof fn lemma_region_index_unique(self, addr: int, i: int)
        requires
            self.wf(),
            0 <= i < self.regions@.len(),
            self.regions@[i].contains(addr),
        ensures
            self.region_index(addr) == i,
    {
        lemma_region_index_from_finds(self.regions@, addr, 0, i);
    }

    /// Bytes of a range lying inside region `i` are the region's own bytes.
    pub proof fn lemma_mem_bytes_in_region(self, i: int, addr: int, n: int)
        requires
            self.wf(),
            0 <= i < self.regions@.len(),
            self.regions@[i].contains_range(addr, n),
            n >= 0,
        ensures
            self.mem_bytes(addr, n) =~= self.regions@[i].data@.subrange(
                addr - self.regions@[i].base,
                addr - self.regions@[i].base + n,
            ),
    {
        let r = self.regions@[i];
        assert forall|k: int| 0 <= k < n implies #[trigger] self.byte_at(addr + k) == r.data@[addr
            - r.base + k] by {
            assert(r.contains(addr + k));
            self.lemma_region_index_unique(addr + k, i);
        }
    }
}

/// Helper for [`Host::lemma_region_index_unique`]: the search starting at any
/// position `j` at or before `i` finds `i`.
proof fn lemma_region_index_from_finds(regions: Seq<MemoryRegion>, addr: int, j: int, i: int)
    requires
        forall|a: int, b: int|
            0 <= a < b < regions.len() ==> (#[trigger] regions[a]).end()
                <= (#[trigger] regions[b]).base,
        0 <= j <= i < regions.len(),
        regions[i].contains(addr),
    ensures
        region_index_from(regions, addr, j) == i,
    decreases i - j,
{
    if j < i {
        assert(regions[j].end() <= regions[i].base);
        assert(!regions[j].contains(addr));
        lemma_region_index_from_finds(regions, addr, j + 1, i);
    }
}

/// The region search yields -1 or the index of a region containing `addr`.
pub proof fn lemma_region_index_in_range(regions: Seq<MemoryRegion>, addr: int, i: int)
    requires
        0 <= i <= regions.len(),
    ensures
        region_index_from(regions, addr, i) == -1 || (i <= region_index_from(regions, addr, i)
            < regions.len() && regions[region_index_from(regions, addr, i)].contains(addr)),
    decreases regions.len() - i,
{
    if i < regions.len() && !regions[i].contains(addr) {
        lemma_region_index_in_range(regions, addr, i + 1);
    }
}

/// Span reported by a region query, searching from region `i` upward.
pub open spec fn query_span_from(regions: Seq<MemoryRegion>, addr: int, i: int) -> Option<int>
    decreases regions.len() - i when 0 <= i <= regions.len()
{
    if i >= regions.len() {
        None
    } else if addr < regions[i].base {
        Some(regions[i].base - addr)
    } else if addr < regions[i].end() {
        Some(regions[i].end() - addr)
    } else {
        query_span_from(regions, addr, i + 1)
    }
}

/// Every region of a well-formed host ends at or before `space_end`.
pub proof fn lemma_region_end_bounded(host: Host, i: int)
    requires
        host.wf(),
        0 <= i < host.regions@.len(),
    ensures
        host.regions@[i].end() <= host.space_end(),
        host.regions@[i].end() <= u64::MAX,
{
    let last = host.regions@.len() - 1;
    if i < last {
        assert(host.regions@[i].end() <= host.regions@[last].base);
        assert(host.regions@[last].wf());
    }
}

/// What a successful region query guarantees: the span is positive and stays
/// within the examined address space.
pub proof fn lemma_query_span_some(host: Host, addr: int, n: int)
    requires
        host.wf(),
        0 <= addr,
        host.query_span(addr) == Some(n),
    ensures
        n >= 1,
        addr + n <= host.space_end(),
        host.space_end() <= u64::MAX,
    {
        lemma_query_span_from_some(host, addr, 0, n);
        if host.regions@.len() > 0 {
            lemma_region_end_bounded(host, host.regions@.len() - 1);
        }
    }

proof fn lemma_query_span_from_some(host: Host, addr: int, i: int, n: int)
    requires
        host.wf(),
        0 <= addr,
        0 <= i <= host.regions@.len(),
        query_span_from(host.regions@, addr, i) == Some(n),
    ensures
        n >= 1,
        addr + n <= host.space_end(),
    decreases host.regions@.len() - i,
{
    if i < host.regions@.len() {
        let r = host.regions@[i];
        if addr < r.base {
            assert(r.wf());
            lemma_region_end_bounded(host, i);
        } else if addr < r.end() {
            lemma_region_end_bounded(host, i);
        } else {
            lemma_query_span_from_some(host, addr, i + 1, n);
        }
    }
}

/// Performs the region query against the host model: reports the span of
/// uniform state beginning at `address`, or `None` past the last region.
pub fn query_region_span(host: &Host, address: u64) -> (r: Option<u64>)
    requires
        host.wf(),
    ensures
        match r {
            Some(n) => {
                &&& host.query_span(address as int) == Some(n as int)
                &&& n >= 1
                &&& address + n <= host.space_end()
            },
            None => host.query_span(address as int) is None,
        },
{
    let n = host.regions.len();
    let mut i: usize = 0;
    while i < n
        invariant
            host.wf(),
            0 <= i <= n,
            n == host.regions@.len(),
            query_span_from(host.regions@, address as int, i as int) == host.query_span(
                address as int,
            ),
        decreases n - i,
    {
        let base = host.regions[i].base;
        let len = host.regions[i].data.len();
        proof {
            assert(host.regions@[i as int].wf());
        }
        if address < base {
            proof {
                lemma_query_span_some(*host, address as int, (base - address) as int);
            }
            return Some(base - address);
        }
        let end = base + len as u64;
        if address < end {
            proof {
                lemma_query_span_some(*host, address as int, (end - address) as int);
            }
            return Some(end - address);
        }
        i = i + 1;
    }
    None
}

} // verus!
