use memscan::host::{Host, MemoryRegion};
use memscan::memory::{
    get_address_with_offset, read_memory, read_memory_auto, trace_address, write_memory,
    write_memory_auto,
};
use memscan::process_manager::ProcessManager;

fn live_manager() -> ProcessManager {
    ProcessManager { attached: true, h_process: 7, process_id: 42, module_address: 0x1000 }
}

fn detached_manager() -> ProcessManager {
    ProcessManager { attached: false, h_process: 0, process_id: 0, module_address: 0 }
}

fn rw_region_host(base: u64, size: usize) -> Host {
    Host {
        processes: Vec::new(),
        modules: Vec::new(),
        regions: vec![
            MemoryRegion { base, data: vec![0u8; size], readable: true, writable: true },
        ],
        running: true,
    }
}

fn put_u64(host: &mut Host, region: usize, offset: usize, value: u64) {
    let bytes = value.to_le_bytes();
    for (i, b) in bytes.iter().enumerate() {
        host.regions[region].data[offset + i] = *b;
    }
}

#[test]
fn write_then_read_round_trips() {
    // Round trip against a live attachment and a writable, readable address.
    let mut host = rw_region_host(0x5000, 64);
    let pm = live_manager();
    assert!(write_memory_auto(&pm, &mut host, 0x5010, 0xDEAD_BEEF_CAFE_F00D));
    let mut back: u64 = 0;
    assert!(read_memory_auto(&pm, &host, 0x5010, &mut back));
    assert_eq!(back, 0xDEAD_BEEF_CAFE_F00D);
}

#[test]
fn raw_write_then_read_round_trips() {
    let mut host = rw_region_host(0x5000, 16);
    let pm = live_manager();
    let payload = vec![1u8, 2, 3, 4, 5];
    assert!(write_memory(&pm, &mut host, 0x5004, &payload, 5));
    let mut buffer: Vec<u8> = Vec::new();
    assert!(read_memory(&pm, &host, 0x5004, &mut buffer, 5));
    assert_eq!(buffer, payload);
}

#[test]
fn reads_and_writes_fail_without_live_attachment() {
    let mut host = rw_region_host(0x5000, 16);
    let pm = detached_manager();
    let mut value: u64 = 99;
    assert!(!read_memory_auto(&pm, &host, 0x5000, &mut value));
    assert_eq!(value, 99);
    assert!(!write_memory_auto(&pm, &mut host, 0x5000, 1));
}

#[test]
fn reads_fail_outside_and_across_regions() {
    let host = rw_region_host(0x5000, 16);
    let pm = live_manager();
    let mut buffer: Vec<u8> = Vec::new();
    // Entirely outside any region.
    assert!(!read_memory(&pm, &host, 0x9000, &mut buffer, 4));
    // Straddling the region end.
    assert!(!read_memory(&pm, &host, 0x500C, &mut buffer, 8));
}

#[test]
fn writes_fail_on_read_only_regions() {
    let mut host = rw_region_host(0x5000, 16);
    host.regions[0].writable = false;
    let pm = live_manager();
    assert!(!write_memory_auto(&pm, &mut host, 0x5000, 5));
    // The bytes are untouched.
    let mut value: u64 = 1;
    assert!(read_memory_auto(&pm, &host, 0x5000, &mut value));
    assert_eq!(value, 0);
}

#[test]
fn get_address_with_offset_guards_null_base() {
    let host = rw_region_host(0x5000, 16);
    let pm = live_manager();
    let mut value: u64 = 0;
    assert!(!get_address_with_offset(&pm, &host, 0, 8, &mut value));
    assert!(get_address_with_offset(&pm, &host, 0x5000, 8, &mut value));
}

#[test]
fn trace_with_empty_chain_returns_base() {
    let host = rw_region_host(0x5000, 16);
    let pm = live_manager();
    assert_eq!(trace_address(&pm, &host, 0x5000, &Vec::new()), 0x5000);
    // Even a base outside every region: an empty chain reads nothing.
    assert_eq!(trace_address(&pm, &host, 0xFFFF_0000, &Vec::new()), 0xFFFF_0000);
}

#[test]
fn trace_follows_pointer_chain() {
    // [0x1000] = 0x2000; [0x2000 + 0x10] = 0x3000; final offset 0x20 is
    // added without a dereference.
    let mut host = Host {
        processes: Vec::new(),
        modules: Vec::new(),
        regions: vec![
            MemoryRegion { base: 0x1000, data: vec![0u8; 64], readable: true, writable: true },
            MemoryRegion { base: 0x2000, data: vec![0u8; 64], readable: true, writable: true },
        ],
        running: true,
    };
    put_u64(&mut host, 0, 0, 0x2000);
    put_u64(&mut host, 1, 0x10, 0x3000);
    let pm = live_manager();
    assert_eq!(trace_address(&pm, &host, 0x1000, &vec![0x10, 0x20]), 0x3020);
}

#[test]
fn trace_returns_zero_on_null_intermediate_pointer() {
    // The root pointer reads as 0: every chain of length >= 1 yields 0.
    let host = rw_region_host(0x1000, 64);
    let pm = live_manager();
    assert_eq!(trace_address(&pm, &host, 0x1000, &vec![0x10]), 0);
    assert_eq!(trace_address(&pm, &host, 0x1000, &vec![0x10, 0x20]), 0);
    assert_eq!(trace_address(&pm, &host, 0x1000, &vec![0, 0, 0, 0]), 0);
}

#[test]
fn trace_returns_zero_on_failed_read() {
    // The root read itself fails: no region holds the base address.
    let host = rw_region_host(0x1000, 64);
    let pm = live_manager();
    assert_eq!(trace_address(&pm, &host, 0x9000, &vec![0x10]), 0);

    // An intermediate read fails: the first pointer leads outside memory.
    let mut host2 = rw_region_host(0x1000, 64);
    put_u64(&mut host2, 0, 0, 0xAAAA_0000);
    assert_eq!(trace_address(&pm, &host2, 0x1000, &vec![0x10, 0x20]), 0);
}

#[test]
fn trace_returns_zero_when_detached() {
    let host = rw_region_host(0x1000, 64);
    let pm = detached_manager();
    assert_eq!(trace_address(&pm, &host, 0x1000, &vec![0x10]), 0);
}
