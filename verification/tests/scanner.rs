use memscan::host::{Host, MemoryRegion};
use memscan::process_manager::ProcessManager;
use memscan::scanner::search_memory;
use memscan::signature::get_signature_array;

fn live_manager() -> ProcessManager {
    ProcessManager { attached: true, h_process: 7, process_id: 42, module_address: 0x1000 }
}

fn one_region_host(base: u64, data: Vec<u8>, readable: bool) -> Host {
    Host {
        processes: Vec::new(),
        modules: Vec::new(),
        regions: vec![MemoryRegion { base, data, readable, writable: false }],
        running: true,
    }
}

#[test]
fn parse_signature_exact_and_wildcards() {
    let parsed = get_signature_array("48 8B 0D ?? ?? ?? ?? 48 89 7C 24").unwrap();
    assert_eq!(
        parsed,
        vec![0x48, 0x8B, 0x0D, 256, 256, 256, 256, 0x48, 0x89, 0x7C, 0x24]
    );
}

#[test]
fn parse_signature_odd_length_rejected() {
    assert!(get_signature_array("48 8").is_none());
    assert!(get_signature_array("ABC").is_none());
}

#[test]
fn parse_signature_invalid_characters_rejected() {
    assert!(get_signature_array("GG HH").is_none());
    assert!(get_signature_array("4? ?4").is_none());
}

#[test]
fn parse_signature_strips_spaces_anywhere() {
    let parsed = get_signature_array("  4 8 8B ").unwrap();
    assert_eq!(parsed, vec![0x48, 0x8B]);
}

#[test]
fn exact_signature_single_copy_single_match() {
    // One exact copy of an exact (wildcard-free) signature: exactly one
    // match, at the right absolute address.
    let mut data = vec![0u8; 64];
    data[5] = 0xAA;
    data[6] = 0xBB;
    data[7] = 0xCC;
    let host = one_region_host(0x1000, data, true);
    let pm = live_manager();
    let matches = search_memory(&pm, &host, "AA BB CC", 0x1000, 0, 10);
    assert_eq!(matches, vec![0x1005]);
}

#[test]
fn wildcard_positions_accept_any_byte() {
    // Fixed positions match exactly, wildcard position holds an arbitrary
    // byte: the match is still reported.
    let data = vec![0xAA, 0x77, 0xCC, 0x00, 0x00, 0x00];
    let host = one_region_host(0x2000, data, true);
    let pm = live_manager();
    let matches = search_memory(&pm, &host, "AA ?? CC", 0x2000, 0, 10);
    assert_eq!(matches, vec![0x2000]);

    // The same pattern with a different wildcard byte, embedded mid-buffer.
    let data2 = vec![0x00, 0x00, 0xAA, 0x13, 0xCC, 0x00];
    let host2 = one_region_host(0x2000, data2, true);
    let matches2 = search_memory(&pm, &host2, "AA ?? CC", 0x2000, 0, 10);
    assert_eq!(matches2, vec![0x2002]);
}

#[test]
fn scan_honors_max_matches_and_orders_ascending() {
    // Three copies, cap of two: two matches come back, strictly ascending.
    let mut data = vec![0u8; 48];
    for start in [4usize, 16, 30] {
        data[start] = 0xDE;
        data[start + 1] = 0xAD;
    }
    let host = one_region_host(0x4000, data, true);
    let pm = live_manager();
    let matches = search_memory(&pm, &host, "DE AD", 0x4000, 0, 2);
    assert_eq!(matches, vec![0x4004, 0x4010]);

    let all = search_memory(&pm, &host, "DE AD", 0x4000, 0, 100);
    assert_eq!(all, vec![0x4004, 0x4010, 0x401E]);
    assert!(all.windows(2).all(|w| w[0] < w[1]));
}

#[test]
fn scan_with_zero_cap_returns_nothing() {
    let data = vec![0xDE, 0xAD, 0x00];
    let host = one_region_host(0x4000, data, true);
    let pm = live_manager();
    assert!(search_memory(&pm, &host, "DE AD", 0x4000, 0, 0).is_empty());
}

#[test]
fn scan_over_unreadable_region_returns_no_matches() {
    // The region holds the pattern but every read of it fails: the scan
    // reports nothing, and no error.
    let mut data = vec![0u8; 32];
    data[0] = 0xAA;
    data[1] = 0xBB;
    let host = one_region_host(0x1000, data, false);
    let pm = live_manager();
    let matches = search_memory(&pm, &host, "AA BB", 0x1000, 0, 10);
    assert!(matches.is_empty());
}

#[test]
fn scan_without_live_attachment_returns_no_matches() {
    let data = vec![0xAA, 0xBB, 0x00];
    let host = one_region_host(0x1000, data, true);
    let detached = ProcessManager { attached: false, h_process: 0, process_id: 0, module_address: 0 };
    let matches = search_memory(&detached, &host, "AA BB", 0x1000, 0, 10);
    assert!(matches.is_empty());
}

#[test]
fn scan_malformed_signature_returns_no_matches() {
    let data = vec![0xAA, 0xBB, 0x00];
    let host = one_region_host(0x1000, data, true);
    let pm = live_manager();
    assert!(search_memory(&pm, &host, "AA B", 0x1000, 0, 10).is_empty());
    assert!(search_memory(&pm, &host, "ZZ", 0x1000, 0, 10).is_empty());
}

#[test]
fn scan_spans_chunks_of_large_region() {
    // A region larger than one 400 KB scan block: a match sitting in the
    // second chunk is still found.
    let mut data = vec![0u8; 500_000];
    let at = 420_000usize;
    data[at] = 0xFE;
    data[at + 1] = 0xED;
    data[at + 2] = 0xFA;
    let host = one_region_host(0x10000, data, true);
    let pm = live_manager();
    let matches = search_memory(&pm, &host, "FE ED FA", 0x10000, 0, 5);
    assert_eq!(matches, vec![0x10000 + at as u64]);
}

#[test]
fn scan_walks_several_regions_and_skips_gaps() {
    let mut d1 = vec![0u8; 32];
    d1[3] = 0xAB;
    d1[4] = 0xCD;
    let mut d2 = vec![0u8; 32];
    d2[10] = 0xAB;
    d2[11] = 0xCD;
    let host = Host {
        processes: Vec::new(),
        modules: Vec::new(),
        regions: vec![
            MemoryRegion { base: 0x1000, data: d1, readable: true, writable: false },
            MemoryRegion { base: 0x9000, data: d2, readable: true, writable: false },
        ],
        running: true,
    };
    let pm = live_manager();
    let matches = search_memory(&pm, &host, "AB CD", 0x1000, 0, 10);
    assert_eq!(matches, vec![0x1003, 0x900A]);
}

#[test]
fn scan_stops_past_end_address() {
    let mut d1 = vec![0u8; 16];
    d1[0] = 0xAB;
    d1[1] = 0xCD;
    let mut d2 = vec![0u8; 16];
    d2[0] = 0xAB;
    d2[1] = 0xCD;
    let host = Host {
        processes: Vec::new(),
        modules: Vec::new(),
        regions: vec![
            MemoryRegion { base: 0x1000, data: d1, readable: true, writable: false },
            MemoryRegion { base: 0x9000, data: d2, readable: true, writable: false },
        ],
        running: true,
    };
    let pm = live_manager();
    // The walk passes 0x2000 after the first region and stops there.
    let matches = search_memory(&pm, &host, "AB CD", 0x1000, 0x2000, 10);
    assert_eq!(matches, vec![0x1000]);
}
