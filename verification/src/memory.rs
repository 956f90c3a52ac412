//! Cross-process typed memory access against the host model: raw reads and
//! writes, fixed-size little-endian reads and writes, and pointer-chain
//! traversal.

use vstd::prelude::*;
use vstd::bytes::{
    lemma_auto_spec_u32_to_from_le_bytes, lemma_auto_spec_u64_to_from_le_bytes,
    spec_u32_from_le_bytes, spec_u64_from_le_bytes, spec_u64_to_le_bytes, u32_from_le_bytes,
    u64_from_le_bytes, u64_to_le_bytes,
};
use crate::host::Host;
use crate::process_manager::ProcessManager;

verus! {

/// Whether cross-process accesses through `process_manager` can succeed at
/// all: a handle is held and the target still runs.
pub open spec fn access_live(process_manager: ProcessManager, host: Host) -> bool {
    process_manager.h_process != 0 && host.running
}

/// Whether a read of `n` bytes at `addr` succeeds.
pub open spec fn read_ok(process_manager: ProcessManager, host: Host, addr: int, n: int) -> bool {
    access_live(process_manager, host) && host.readable_at(addr, n)
}

/// Whether a write of `n` bytes at `addr` succeeds.
pub open spec fn write_ok(process_manager: ProcessManager, host: Host, addr: int, n: int) -> bool {
    access_live(process_manager, host) && host.writable_at(addr, n)
}

/// Two hosts agree on everything but the bytes stored in their regions.
pub open spec fn same_layout(h1: Host, h2: Host) -> bool {
    &&& h2.processes == h1.processes
    &&& h2.modules == h1.modules
    &&& h2.running == h1.running
    &&& h2.regions@.len() == h1.regions@.len()
    &&& forall|j: int|
        0 <= j < h1.regions@.len() ==> {
            &&& (#[trigger] h2.regions@[j]).base == h1.regions@[j].base
            &&& h2.regions@[j].data@.len() == h1.regions@[j].data@.len()
            &&& h2.regions@[j].readable == h1.regions@[j].readable
            &&& h2.regions@[j].writable == h1.regions@[j].writable
        }
}

/// `h2` is `h1` with `bs` stored at `addr` and nothing else changed.
pub open spec fn wrote_bytes(h1: Host, h2: Host, addr: int, bs: Seq<u8>) -> bool {
    &&& same_layout(h1, h2)
    &&& forall|a: int|
        #[trigger] h2.byte_at(a) == if addr <= a < addr + bs.len() {
            bs[a - addr]
        } else {
            h1.byte_at(a)
        }
}

/// Hosts with the same layout agree on well-formedness, on which region
/// contains each address, and on which ranges are readable and writable.
pub proof fn lemma_same_layout_structure(h1: Host, h2: Host, addr: int, n: int)
    requires
        same_layout(h1, h2),
    ensures
        h1.wf() == h2.wf(),
        h1.region_index(addr) == h2.region_index(addr),
        h1.readable_at(addr, n) == h2.readable_at(addr, n),
        h1.writable_at(addr, n) == h2.writable_at(addr, n),
{
    assert forall|j: int| 0 <= j < h1.regions@.len() implies (h1.regions@[j].wf()
        == h2.regions@[j].wf() && h1.regions@[j].end() == h2.regions@[j].end()
        && h1.regions@[j].base == h2.regions@[j].base) by {
        assert(h2.regions@[j].base == h1.regions@[j].base);
    }
    lemma_same_layout_region_index(h1, h2, addr, 0);
    assert forall|j: int, n2: int|
        0 <= j < h1.regions@.len() implies (#[trigger] h1.regions@[j].contains_range(addr, n2))
        == h2.regions@[j].contains_range(addr, n2) by {
        assert(h2.regions@[j].base == h1.regions@[j].base);
    }
}

proof fn lemma_same_layout_region_index(h1: Host, h2: Host, addr: int, i: int)
    requires
        same_layout(h1, h2),
        0 <= i <= h1.regions@.len(),
    ensures
        crate::host::region_index_from(h1.regions@, addr, i) == crate::host::region_index_from(
            h2.regions@,
            addr,
            i,
        ),
    decreases h1.regions@.len() - i,
{
    if i < h1.regions@.len() {
        assert(h2.regions@[i].base == h1.regions@[i].base);
        assert(h1.regions@[i].contains(addr) == h2.regions@[i].contains(addr));
        lemma_same_layout_region_index(h1, h2, addr, i + 1);
    }
}

/// After a write, reading the written range back yields the written bytes.
pub proof fn lemma_write_read_round_trip(h1: Host, h2: Host, addr: int, bs: Seq<u8>)
    requires
        wrote_bytes(h1, h2, addr, bs),
    ensures
        h2.mem_bytes(addr, bs.len() as int) =~= bs,
{
}

/// Reads `size` bytes of the target process at `address` into `buffer`.
/// Succeeds only against a live attachment and a range lying in one readable
/// region; on failure the buffer is left unchanged. Relies on the hosting
/// environment only through the [`Host`] model.
pub fn read_memory(
    process_manager: &ProcessManager,
    host: &Host,
    address: u64,
    buffer: &mut Vec<u8>,
    size: usize,
) -> (ok: bool)
    requires
        host.wf(),
    ensures
        ok == read_ok(*process_manager, *host, address as int, size as int),
        ok ==> final(buffer)@ =~= host.mem_bytes(address as int, size as int),
        !ok ==> final(buffer)@ == old(buffer)@,
{
    if process_manager.h_process == 0 || !host.running {
        return false;
    }
    if size == 0 {
        buffer.clear();
        return true;
    }
    let n = host.regions.len();
    let mut i: usize = 0;
    while i < n
        invariant
            host.wf(),
            access_live(*process_manager, *host),
            0 <= i <= n,
            n == host.regions@.len(),
            size >= 1,
            buffer@ == old(buffer)@,
            forall|j: int|
                0 <= j < i ==> !((#[trigger] host.regions@[j]).readable
                    && host.regions@[j].contains_range(address as int, size as int)),
        decreases n - i,
    {
        let r_base = host.regions[i].base;
        let r_len = host.regions[i].data.len();
        proof {
            assert(host.regions@[i as int].wf());
        }
        if host.regions[i].readable && r_base <= address && size as u64 <= r_len as u64 && address
            - r_base <= r_len as u64 - size as u64 {
            let off = (address - r_base) as usize;
            buffer.clear();
            let mut k: usize = 0;
            while k < size
                invariant
                    host.wf(),
                    0 <= k <= size,
                    i < host.regions@.len(),
                    off + size <= host.regions@[i as int].data@.len(),
                    off + size <= usize::MAX,
                    off == address - host.regions@[i as int].base,
                    buffer@ =~= host.regions@[i as int].data@.subrange(
                        off as int,
                        off + k as int,
                    ),
                decreases size - k,
            {
                let b = host.regions[i].data[off + k];
                buffer.push(b);
                k = k + 1;
            }
            proof {
                assert(host.regions@[i as int].readable && host.regions@[
                    i as int
                ].contains_range(address as int, size as int));
                assert(host.readable_at(address as int, size as int));
                host.lemma_mem_bytes_in_region(i as int, address as int, size as int);
            }
            return true;
        }
        i = i + 1;
    }
    proof {
        assert(!host.readable_at(address as int, size as int));
    }
    false
}

/// Writes the first `size` bytes of `buffer` into the target process at
/// `address`. Succeeds only against a live attachment and a range lying in
/// one writable region; on failure the target is left unchanged.
pub fn write_memory(
    process_manager: &ProcessManager,
    host: &mut Host,
    address: u64,
    buffer: &Vec<u8>,
    size: usize,
) -> (ok: bool)
    requires
        old(host).wf(),
        size <= buffer@.len(),
    ensures
        ok == write_ok(*process_manager, *old(host), address as int, size as int),
        ok ==> wrote_bytes(*old(host), *final(host), address as int, buffer@.take(size as int)),
        !ok ==> *final(host) == *old(host),
        final(host).wf(),
{
    if process_manager.h_process == 0 || !host.running {
        return false;
    }
    if size == 0 {
        proof {
            assert(wrote_bytes(*old(host), *host, address as int, buffer@.take(0)));
        }
        return true;
    }
    let n = host.regions.len();
    let mut i: usize = 0;
    while i < n
        invariant
            host.wf(),
            access_live(*process_manager, *host),
            *host == *old(host),
            0 <= i <= n,
            n == host.regions@.len(),
            size >= 1,
            size <= buffer@.len(),
            forall|j: int|
                0 <= j < i ==> !((#[trigger] host.regions@[j]).writable
                    && host.regions@[j].contains_range(address as int, size as int)),
        decreases n - i,
    {
        let r_base = host.regions[i].base;
        let r_len = host.regions[i].data.len();
        proof {
            assert(host.regions@[i as int].wf());
        }
        if host.regions[i].writable && r_base <= address && size as u64 <= r_len as u64 && address
            - r_base <= r_len as u64 - size as u64 {
            let off = (address - r_base) as usize;
            let mut k: usize = 0;
            while k < size
                invariant
                    0 <= k <= size,
                    size <= buffer@.len(),
                    i < host.regions@.len(),
                    off + size <= host.regions@[i as int].data@.len(),
                    off + size <= usize::MAX,
                    off == address - host.regions@[i as int].base,
                    same_layout(*old(host), *host),
                    host.regions@ =~= old(host).regions@.update(
                        i as int,
                        host.regions@[i as int],
                    ),
                    host.regions@[i as int].data@ =~= old(host).regions@[i as int].data@.map(
                        |p: int, b: u8|
                            if off <= p < off + k {
                                buffer@[p - off]
                            } else {
                                b
                            },
                    ),
                decreases size - k,
            {
                let b = buffer[k];
                host.regions[i].data[off + k] = b;
                k = k + 1;
            }
            proof {
                assert(old(host).regions@[i as int].writable && old(host).regions@[
                    i as int
                ].contains_range(address as int, size as int));
                assert(old(host).writable_at(address as int, size as int));
                lemma_write_updates_bytes(
                    *old(host),
                    *host,
                    i as int,
                    address as int,
                    buffer@.take(size as int),
                );
                lemma_same_layout_structure(*old(host), *host, 0, 0);
            }
            return true;
        }
        i = i + 1;
    }
    proof {
        assert(!host.writable_at(address as int, size as int));
    }
    false
}

/// Pointwise effect of an in-region byte update on `byte_at`.
proof fn lemma_write_updates_bytes(h1: Host, h2: Host, i: int, addr: int, bs: Seq<u8>)
    requires
        h1.wf(),
        same_layout(h1, h2),
        0 <= i < h1.regions@.len(),
        h1.regions@[i].contains_range(addr, bs.len() as int),
        bs.len() >= 1,
        h2.regions@ =~= h1.regions@.update(i, h2.regions@[i]),
        h2.regions@[i].data@ =~= h1.regions@[i].data@.map(
            |p: int, b: u8|
                if addr - h1.regions@[i].base <= p < addr - h1.regions@[i].base + bs.len() {
                    bs[p - (addr - h1.regions@[i].base)]
                } else {
                    b
                },
        ),
    ensures
        wrote_bytes(h1, h2, addr, bs),
{
    let base = h1.regions@[i].base as int;
    assert forall|a: int|
        #[trigger] h2.byte_at(a) == if addr <= a < addr + bs.len() {
            bs[a - addr]
        } else {
            h1.byte_at(a)
        } by {
        lemma_same_layout_structure(h1, h2, a, 0);
        let ri = h1.region_index(a);
        if addr <= a < addr + bs.len() {
            assert(h1.regions@[i].contains(a));
            h1.lemma_region_index_unique(a, i);
            assert(h2.regions@[i].data@[a - base] == bs[a - addr]);
        } else {
            if ri >= 0 {
                crate::host::lemma_region_index_in_range(h1.regions@, a, 0);
                if ri == i {
                    assert(h2.regions@[i].data@[a - base] == h1.regions@[i].data@[a - base]);
                } else {
                    assert(h2.regions@[ri].data@ == h1.regions@[ri].data@);
                }
            }
        }
    }
}

/// Reads a 64-bit little-endian value — a remote pointer — at `address`.
/// On failure the output is left unchanged.
pub fn read_memory_auto(
    process_manager: &ProcessManager,
    host: &Host,
    address: u64,
    value: &mut u64,
) -> (ok: bool)
    requires
        host.wf(),
    ensures
        ok == read_ok(*process_manager, *host, address as int, 8),
        ok ==> *final(value) == spec_u64_from_le_bytes(host.mem_bytes(address as int, 8)),
        !ok ==> *final(value) == *old(value),
{
    let mut buffer: Vec<u8> = Vec::new();
    if !read_memory(process_manager, host, address, &mut buffer, 8) {
        return false;
    }
    *value = u64_from_le_bytes(buffer.as_slice());
    true
}

/// Reads a 32-bit little-endian value — an instruction displacement — at
/// `address`. On failure the output is left unchanged.
pub fn read_memory_auto_u32(
    process_manager: &ProcessManager,
    host: &Host,
    address: u64,
    value: &mut u32,
) -> (ok: bool)
    requires
        host.wf(),
    ensures
        ok == read_ok(*process_manager, *host, address as int, 4),
        ok ==> *final(value) == spec_u32_from_le_bytes(host.mem_bytes(address as int, 4)),
        !ok ==> *final(value) == *old(value),
{
    let mut buffer: Vec<u8> = Vec::new();
    if !read_memory(process_manager, host, address, &mut buffer, 4) {
        return false;
    }
    *value = u32_from_le_bytes(buffer.as_slice());
    true
}

/// Writes `value` at `address` as 8 little-endian bytes.
pub fn write_memory_auto(
    process_manager: &ProcessManager,
    host: &mut Host,
    address: u64,
    value: u64,
) -> (ok: bool)
    requires
        old(host).wf(),
    ensures
        ok == write_ok(*process_manager, *old(host), address as int, 8),
        ok ==> wrote_bytes(*old(host), *final(host), address as int, spec_u64_to_le_bytes(value)),
        !ok ==> *final(host) == *old(host),
        final(host).wf(),
{
    let buffer = u64_to_le_bytes(value);
    proof {
        lemma_auto_spec_u64_to_from_le_bytes();
        assert(buffer@.take(8) =~= buffer@);
    }
    write_memory(process_manager, host, address, &buffer, 8)
}

/// Round trip of the typed accessors: writing a 64-bit value and reading the
/// same address back yields the value written.
pub proof fn lemma_typed_round_trip(h1: Host, h2: Host, addr: int, value: u64)
    requires
        wrote_bytes(h1, h2, addr, spec_u64_to_le_bytes(value)),
    ensures
        spec_u64_from_le_bytes(h2.mem_bytes(addr, 8)) == value,
{
    lemma_auto_spec_u64_to_from_le_bytes();
    lemma_write_read_round_trip(h1, h2, addr, spec_u64_to_le_bytes(value));
}

/// Reads a 64-bit value at `address + offset`, guarding against a null
/// `address` first.
pub fn get_address_with_offset(
    process_manager: &ProcessManager,
    host: &Host,
    address: u64,
    offset: u32,
    value: &mut u64,
) -> (ok: bool)
    requires
        host.wf(),
        address != 0 ==> address + offset <= u64::MAX,
    ensures
        ok == (address != 0 && read_ok(
            *process_manager,
            *host,
            address + offset as int,
            8,
        )),
        ok ==> *final(value) == spec_u64_from_le_bytes(
            host.mem_bytes(address + offset as int, 8),
        ),
        !ok ==> *final(value) == *old(value),
{
    address != 0 && read_memory_auto(process_manager, host, address + offset as u64, value)
}

/// Value of a pointer-chain walk that has already read the root pointer
/// `addr` and still has the offsets from position `i` on to apply. Every
/// offset but the last is followed through a dereference; the last is added
/// without dereferencing. A null intermediate pointer, a failed read, or a
/// sum past the top of the address space yields 0.
pub open spec fn trace_from(
    process_manager: ProcessManager,
    host: Host,
    addr: u64,
    offsets: Seq<u32>,
    i: int,
) -> u64
    decreases offsets.len() - i when 0 <= i < offsets.len()
{
    if addr == 0 {
        0
    } else if i >= offsets.len() - 1 {
        if addr + offsets[i] <= u64::MAX {
            (addr + offsets[i]) as u64
        } else {
            0
        }
    } else {
        let next = addr + offsets[i];
        if next > u64::MAX {
            0
        } else if !read_ok(process_manager, host, next, 8) {
            0
        } else {
            trace_from(
                process_manager,
                host,
                spec_u64_from_le_bytes(host.mem_bytes(next, 8)),
                offsets,
                i + 1,
            )
        }
    }
}

/// Result of the whole pointer-chain walk from `base` through `offsets`.
pub open spec fn trace_address_spec(
    process_manager: ProcessManager,
    host: Host,
    base: u64,
    offsets: Seq<u32>,
) -> u64 {
    if offsets.len() == 0 {
        base
    } else if !read_ok(process_manager, host, base as int, 8) {
        0
    } else {
        trace_from(
            process_manager,
            host,
            spec_u64_from_le_bytes(host.mem_bytes(base as int, 8)),
            offsets,
            0,
        )
    }
}

/// Walks a pointer chain: reads a pointer at `base_address`, then for every
/// offset but the last reads the next pointer at the current address plus
/// that offset; the final offset is added without a dereference. Returns
/// `base_address` unchanged for an empty chain, and 0 as soon as a read
/// fails, an intermediate pointer is 0, or an address would leave the address
/// space.
pub fn trace_address(
    process_manager: &ProcessManager,
    host: &Host,
    base_address: u64,
    offsets: &Vec<u32>,
) -> (r: u64)
    requires
        host.wf(),
    ensures
        r == trace_address_spec(*process_manager, *host, base_address, offsets@),
{
    let mut address: u64 = 0;

    if offsets.len() == 0 {
        return base_address;
    }
    if !read_memory_auto(process_manager, host, base_address, &mut address) {
        return 0;
    }
    let n = offsets.len();
    let mut i: usize = 0;
    while i < n - 1
        invariant
            host.wf(),
            0 <= i < n,
            n == offsets@.len(),
            trace_from(*process_manager, *host, address, offsets@, i as int) == trace_address_spec(
                *process_manager,
                *host,
                base_address,
                offsets@,
            ),
        decreases n - i,
    {
        if address == 0 {
            return 0;
        }
        if address > u64::MAX - offsets[i] as u64 {
            return 0;
        }
        if !read_memory_auto(process_manager, host, address + offsets[i] as u64, &mut address) {
            return 0;
        }
        i = i + 1;
    }
    if address == 0 {
        return 0;
    }
    if address > u64::MAX - offsets[n - 1] as u64 {
        return 0;
    }
    address + offsets[n - 1] as u64
}

/// An empty offset chain leaves the base address untouched.
pub proof fn lemma_trace_empty(process_manager: ProcessManager, host: Host, base: u64)
    ensures
        trace_address_spec(process_manager, host, base, Seq::<u32>::empty()) == base,
{
}

/// With no live attachment, every chain of length at least one traces to 0.
pub proof fn lemma_trace_detached(
    process_manager: ProcessManager,
    host: Host,
    base: u64,
    offsets: Seq<u32>,
)
    requires
        !access_live(process_manager, host),
        offsets.len() >= 1,
    ensures
        trace_address_spec(process_manager, host, base, offsets) == 0,
{
}

/// A walk that reaches a null intermediate pointer yields 0, whatever
/// offsets remain.
pub proof fn lemma_trace_null_intermediate(
    process_manager: ProcessManager,
    host: Host,
    offsets: Seq<u32>,
    i: int,
)
    requires
        0 <= i < offsets.len(),
    ensures
        trace_from(process_manager, host, 0, offsets, i) == 0,
{
}

} // verus!
