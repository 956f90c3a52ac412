use memscan::host::{Host, MemoryRegion, ModuleEntry};
use memscan::offsets::{
    search_offsets, update_offsets, EntityOffsets, GlobalVarOffsets, PawnOffsets,
    ResolvedOffsets, Signatures,
};
use memscan::process_manager::ProcessManager;

fn live_manager() -> ProcessManager {
    ProcessManager { attached: true, h_process: 7, process_id: 42, module_address: 0x1000 }
}

fn put(data: &mut Vec<u8>, offset: usize, bytes: &[u8]) {
    for (i, b) in bytes.iter().enumerate() {
        data[offset + i] = *b;
    }
}

fn put_u64(data: &mut Vec<u8>, offset: usize, value: u64) {
    put(data, offset, &value.to_le_bytes());
}

/// A target whose module `client.dll` sits at 0x1000 and whose one region
/// carries an instance of every signature of the default table, each with a
/// distinct embedded displacement.
fn resolvable_host() -> Host {
    let mut data = vec![0u8; 0x10000];
    // entity_list at 0x1100: displacement 0x2000, resolved 0x3107.
    put(&mut data, 0x100, &[0x48, 0x8B, 0x0D, 0x00, 0x20, 0x00, 0x00, 0x48, 0x89, 0x7C, 0x24,
        0x00, 0x8B, 0xFA, 0xC1]);
    // local_player_controller at 0x1200: displacement 0x2100, resolved 0x3307.
    put(&mut data, 0x200, &[0x48, 0x8B, 0x05, 0x00, 0x21, 0x00, 0x00, 0x48, 0x85, 0xC0, 0x74,
        0x4F]);
    // view_matrix at 0x1300: displacement 0x2200, resolved 0x3507.
    put(&mut data, 0x300, &[0x48, 0x8D, 0x0D, 0x00, 0x22, 0x00, 0x00, 0x48, 0xC1, 0xE0, 0x06]);
    // global_vars at 0x1400: displacement 0x2300, resolved 0x3707.
    put(&mut data, 0x400, &[0x48, 0x89, 0x0D, 0x00, 0x23, 0x00, 0x00, 0x48, 0x89, 0x41]);
    // view_angles at 0x1500: displacement 0x2400, resolved 0x3907, which
    // holds the pointer 0x6000.
    put(&mut data, 0x500, &[0x48, 0x8B, 0x0D, 0x00, 0x24, 0x00, 0x00, 0x48, 0x8B, 0x01, 0x48,
        0xFF, 0x60, 0x30]);
    put_u64(&mut data, 0x2907, 0x6000);
    // local_player_pawn at 0x1600: displacement 0x2500, resolved 0x3B07.
    put(&mut data, 0x600, &[0x48, 0x8D, 0x05, 0x00, 0x25, 0x00, 0x00, 0xC3, 0xCC, 0xCC, 0xCC,
        0xCC, 0xCC, 0xCC, 0xCC, 0xCC, 0x48, 0x83, 0xEC, 0x00, 0x8B, 0x0D]);
    // force_jump at 0x1700: displacement 0x2600, resolved 0x3D07.
    put(&mut data, 0x700, &[0x48, 0x8B, 0x05, 0x00, 0x26, 0x00, 0x00, 0x48, 0x8D, 0x1D, 0x00,
        0x00, 0x00, 0x00, 0x48, 0x89, 0x45]);
    Host {
        processes: Vec::new(),
        modules: vec![ModuleEntry { name: "client.dll".to_string(), base: 0x1000 }],
        regions: vec![MemoryRegion { base: 0x1000, data, readable: true, writable: false }],
        running: true,
    }
}

#[test]
fn displacement_resolution_formula() {
    // A signature matched at absolute 0x1000 whose 32-bit displacement bytes
    // at 0x1003 read 0x2000 resolves to 0x1000 + 0x2000 + 7; subtracting the
    // module base gives the module-relative offset.
    let mut data = vec![0u8; 0x4000];
    put(&mut data, 0, &[0x48, 0x8B, 0x0D, 0x00, 0x20, 0x00, 0x00, 0x48, 0x89, 0x7C, 0x24]);
    let host = Host {
        processes: Vec::new(),
        modules: Vec::new(),
        regions: vec![MemoryRegion { base: 0x1000, data, readable: true, writable: false }],
        running: true,
    };
    let pm = live_manager();
    let resolved = search_offsets(
        &pm,
        &host,
        "48 8B 0D ?? ?? ?? ?? 48 89 7C 24".to_string(),
        0x1000,
    );
    assert_eq!(resolved, Some(0x1000 + 0x2000 + 7));
    assert_eq!(resolved.unwrap() - 0x1000, 0x2007);
}

#[test]
fn search_offsets_reports_no_match_as_none() {
    let host = resolvable_host();
    let pm = live_manager();
    assert_eq!(search_offsets(&pm, &host, "11 22 33 44".to_string(), 0x1000), None);
}

#[test]
fn update_offsets_resolves_every_target() {
    let host = resolvable_host();
    let pm = live_manager();
    let signatures = Signatures::default();
    let mut offsets = ResolvedOffsets::default();
    let failure = update_offsets(&pm, &host, &signatures, &mut offsets);
    assert_eq!(failure, None);
    assert_eq!(offsets.entity_list, 0x2107);
    assert_eq!(offsets.local_player_controller, 0x2307);
    assert_eq!(offsets.matrix, 0x2507);
    assert_eq!(offsets.global_vars, 0x2707);
    assert_eq!(offsets.view_angle, 0x6000 + 0x4518 - 0x1000);
    assert_eq!(offsets.local_player_pawn, 0x3B07 + 0x138 - 0x1000);
    assert_eq!(offsets.force_jump, 0x3D07 + 0x30 - 0x1000);
}

#[test]
fn update_offsets_twice_yields_identical_values() {
    // Idempotence: a second pass against the unchanged process recomputes
    // the same table, whatever the slots held before.
    let host = resolvable_host();
    let pm = live_manager();
    let signatures = Signatures::default();

    let mut first = ResolvedOffsets::default();
    assert_eq!(update_offsets(&pm, &host, &signatures, &mut first), None);

    let mut second = ResolvedOffsets {
        entity_list: 0xAAAA,
        local_player_controller: 0xBBBB,
        matrix: 0xCCCC,
        global_vars: 0xDDDD,
        view_angle: 0xEEEE,
        local_player_pawn: 0x1111,
        force_jump: 0x2222,
    };
    assert_eq!(update_offsets(&pm, &host, &signatures, &mut second), None);

    assert_eq!(first.entity_list, second.entity_list);
    assert_eq!(first.local_player_controller, second.local_player_controller);
    assert_eq!(first.matrix, second.matrix);
    assert_eq!(first.global_vars, second.global_vars);
    assert_eq!(first.view_angle, second.view_angle);
    assert_eq!(first.local_player_pawn, second.local_player_pawn);
    assert_eq!(first.force_jump, second.force_jump);
}

#[test]
fn update_offsets_names_missing_module() {
    let mut host = resolvable_host();
    host.modules.clear();
    let pm = live_manager();
    let signatures = Signatures::default();
    let mut offsets = ResolvedOffsets::default();
    let failure = update_offsets(&pm, &host, &signatures, &mut offsets);
    assert_eq!(failure.as_deref(), Some("ClientDLL"));
    assert_eq!(offsets.entity_list, 0);
}

#[test]
fn update_offsets_names_first_failing_target() {
    // A module with empty memory: the very first signature already fails.
    let host = Host {
        processes: Vec::new(),
        modules: vec![ModuleEntry { name: "client.dll".to_string(), base: 0x1000 }],
        regions: vec![
            MemoryRegion { base: 0x1000, data: vec![0u8; 64], readable: true, writable: false },
        ],
        running: true,
    };
    let pm = live_manager();
    let signatures = Signatures::default();
    let mut offsets = ResolvedOffsets::default();
    let failure = update_offsets(&pm, &host, &signatures, &mut offsets);
    assert_eq!(failure.as_deref(), Some("EntityList"));
}

#[test]
fn update_offsets_names_failed_pointer_read() {
    // Every signature is found, but the view-angles pointer lies outside
    // readable memory: the read step is named, and the earlier slots keep
    // their resolved values.
    let mut host = resolvable_host();
    // Repoint the view-angles displacement far outside the region.
    put(&mut host.regions[0].data, 0x503, &[0x00, 0x00, 0xF0, 0x00]);
    let pm = live_manager();
    let signatures = Signatures::default();
    let mut offsets = ResolvedOffsets::default();
    let failure = update_offsets(&pm, &host, &signatures, &mut offsets);
    assert_eq!(failure.as_deref(), Some("ViewAnglesMemory"));
    assert_eq!(offsets.entity_list, 0x2107);
    assert_eq!(offsets.global_vars, 0x2707);
    assert_eq!(offsets.view_angle, 0);
}

#[test]
fn offset_tables_hold_supported_binary_layout() {
    let entity = EntityOffsets::default();
    assert_eq!(entity.health, 0x32C);
    assert_eq!(entity.team_id, 0x3BF);
    assert_eq!(entity.is_alive, 0x7C4);
    assert_eq!(entity.player_pawn, 0x7BC);
    assert_eq!(entity.is_player_name, 0x610);

    let pawn = PawnOffsets::default();
    assert_eq!(pawn.pos, 0x1224);
    assert_eq!(pawn.bone_array, 0x1E0);
    assert_eq!(pawn.aim_punch_cache, 0x1738);
    assert_eq!(pawn.b_spotted_by_mask, 0x1630 + 0xC);

    let global_vars = GlobalVarOffsets::default();
    assert_eq!(global_vars.real_time, 0x00);
    assert_eq!(global_vars.tick_count, 0x40);
    assert_eq!(global_vars.current_map_name, 0x0188);

    let signatures = Signatures::default();
    assert_eq!(signatures.entity_list, "48 8B 0D ?? ?? ?? ?? 48 89 7C 24 ?? 8B FA C1");
    assert_eq!(signatures.force_jump, "48 8B 05 ?? ?? ?? ?? 48 8D 1D ?? ?? ?? ?? 48 89 45");
}
