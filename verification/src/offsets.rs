//! Offset resolution: from a signature match to a stable module-relative
//! offset.
//!
//! A located signature points at an instruction carrying a 32-bit
//! little-endian displacement 3 bytes into the match; the displacement plus a
//! fixed 7-byte instruction length lands past the instruction on the
//! addressed location. Subtracting the module base makes the result
//! module-relative, stable across process restarts while the module binary is
//! unchanged. A few targets take an extra step — one more dereference or a
//! fixed structure-field constant — before rebasing; those constants are
//! reverse-engineered configuration tied to one binary, not derived here.

use vstd::prelude::*;
use vstd::bytes::{spec_u32_from_le_bytes, spec_u64_from_le_bytes};
use crate::host::Host;
use crate::memory::{read_memory_auto, read_memory_auto_u32, read_ok};
use crate::process_manager::{get_process_module_handle, module_base_spec, ProcessManager};
use crate::scanner::{lemma_search_results_props, search_memory, search_memory_spec};
use crate::signature::{parse_signature, valid_signature_text};

verus! {

/// Width of the address window scanned past a module base.
pub const SCAN_WINDOW: u64 = 0x4000000;

/// Byte offsets of known fields inside an entity controller structure,
/// relative to its dereferenced base pointer. Configuration handed through
/// to callers that decode structured remote memory; nothing here resolves
/// them.
pub struct EntityOffsets {
    pub health: u32,
    pub team_id: u32,
    pub is_alive: u32,
    pub player_pawn: u32,
    pub is_player_name: u32,
}

impl Default for EntityOffsets {
    /// The controller field layout of the supported binary.
    fn default() -> (r: EntityOffsets)
        ensures
            r == (EntityOffsets {
                health: 0x32C,
                team_id: 0x3BF,
                is_alive: 0x7C4,
                player_pawn: 0x7BC,
                is_player_name: 0x610,
            }),
    {
        EntityOffsets {
            health: 0x32C,
            team_id: 0x3BF,
            is_alive: 0x7C4,
            player_pawn: 0x7BC,
            is_player_name: 0x610,
        }
    }
}

/// Byte offsets of known fields inside a pawn structure.
pub struct PawnOffsets {
    pub pos: u32,
    pub max_health: u32,
    pub current_health: u32,
    pub game_scene_node: u32,
    pub bone_array: u32,
    pub ang_eye_angles: u32,
    pub vec_last_clip_camera_pos: u32,
    pub p_clipping_weapon: u32,
    pub i_shots_fired: u32,
    pub fl_flash_duration: u32,
    pub aim_punch_angle: u32,
    pub aim_punch_cache: u32,
    pub i_id_ent_index: u32,
    pub i_team_num: u32,
    pub camera_services: u32,
    pub i_fov_start: u32,
    pub f_flags: u32,
    pub b_spotted_by_mask: u32,
}

impl Default for PawnOffsets {
    /// The pawn field layout of the supported binary.
    fn default() -> (r: PawnOffsets)
        ensures
            r == (PawnOffsets {
                pos: 0x1224,
                max_health: 0x328,
                current_health: 0x32C,
                game_scene_node: 0x310,
                bone_array: 0x1E0,
                ang_eye_angles: 0x1510,
                vec_last_clip_camera_pos: 0x128C,
                p_clipping_weapon: 0x12A8,
                i_shots_fired: 0x1418,
                fl_flash_duration: 0x1468,
                aim_punch_angle: 0x1714,
                aim_punch_cache: 0x1738,
                i_id_ent_index: 0x153C,
                i_team_num: 0x3BF,
                camera_services: 0x10E0,
                i_fov_start: 0x214,
                f_flags: 0x3C8,
                b_spotted_by_mask: 0x163C,
            }),
    {
        PawnOffsets {
            pos: 0x1224,
            max_health: 0x328,
            current_health: 0x32C,
            game_scene_node: 0x310,
            bone_array: 0x1E0,
            ang_eye_angles: 0x1510,
            vec_last_clip_camera_pos: 0x128C,
            p_clipping_weapon: 0x12A8,
            i_shots_fired: 0x1418,
            fl_flash_duration: 0x1468,
            aim_punch_angle: 0x1714,
            aim_punch_cache: 0x1738,
            i_id_ent_index: 0x153C,
            i_team_num: 0x3BF,
            camera_services: 0x10E0,
            i_fov_start: 0x214,
            f_flags: 0x3C8,
            b_spotted_by_mask: 0x163C,
        }
    }
}

/// Byte offsets of known fields inside the global variables structure.
pub struct GlobalVarOffsets {
    pub real_time: u32,
    pub frame_count: u32,
    pub max_clients: u32,
    pub interval_per_tick: u32,
    pub current_time: u32,
    pub current_time2: u32,
    pub tick_count: u32,
    pub interval_per_tick2: u32,
    pub current_netchan: u32,
    pub current_map: u32,
    pub current_map_name: u32,
}

impl Default for GlobalVarOffsets {
    /// The global-variables field layout of the supported binary.
    fn default() -> (r: GlobalVarOffsets)
        ensures
            r == (GlobalVarOffsets {
                real_time: 0x00,
                frame_count: 0x04,
                max_clients: 0x10,
                interval_per_tick: 0x14,
                current_time: 0x2C,
                current_time2: 0x30,
                tick_count: 0x40,
                interval_per_tick2: 0x44,
                current_netchan: 0x0048,
                current_map: 0x0180,
                current_map_name: 0x0188,
            }),
    {
        GlobalVarOffsets {
            real_time: 0x00,
            frame_count: 0x04,
            max_clients: 0x10,
            interval_per_tick: 0x14,
            current_time: 0x2C,
            current_time2: 0x30,
            tick_count: 0x40,
            interval_per_tick2: 0x44,
            current_netchan: 0x0048,
            current_map: 0x0180,
            current_map_name: 0x0188,
        }
    }
}

/// The signature table: one textual byte pattern per symbolic target.
/// Supplied once at startup; the resolver only consumes it.
pub struct Signatures {
    pub global_vars: String,
    pub view_matrix: String,
    pub view_angles: String,
    pub entity_list: String,
    pub local_player_controller: String,
    pub force_jump: String,
    pub local_player_pawn: String,
}

impl Default for Signatures {
    /// The signature table of the supported binary.
    fn default() -> (r: Signatures)
        ensures
            r.global_vars@ == "48 89 0D ?? ?? ?? ?? 48 89 41"@,
            r.view_matrix@ == "48 8D 0D ?? ?? ?? ?? 48 C1 E0 06"@,
            r.view_angles@ == "48 8B 0D ?? ?? ?? ?? 48 8B 01 48 FF 60 30"@,
            r.entity_list@ == "48 8B 0D ?? ?? ?? ?? 48 89 7C 24 ?? 8B FA C1"@,
            r.local_player_controller@ == "48 8B 05 ?? ?? ?? ?? 48 85 C0 74 4F"@,
            r.force_jump@ == "48 8B 05 ?? ?? ?? ?? 48 8D 1D ?? ?? ?? ?? 48 89 45"@,
            r.local_player_pawn@
                == "48 8D 05 ?? ?? ?? ?? C3 CC CC CC CC CC CC CC CC 48 83 EC ?? 8B 0D"@,
    {
        Signatures {
            global_vars: "48 89 0D ?? ?? ?? ?? 48 89 41".to_owned(),
            view_matrix: "48 8D 0D ?? ?? ?? ?? 48 C1 E0 06".to_owned(),
            view_angles: "48 8B 0D ?? ?? ?? ?? 48 8B 01 48 FF 60 30".to_owned(),
            entity_list: "48 8B 0D ?? ?? ?? ?? 48 89 7C 24 ?? 8B FA C1".to_owned(),
            local_player_controller: "48 8B 05 ?? ?? ?? ?? 48 85 C0 74 4F".to_owned(),
            force_jump: "48 8B 05 ?? ?? ?? ?? 48 8D 1D ?? ?? ?? ?? 48 89 45".to_owned(),
            local_player_pawn:
                "48 8D 05 ?? ?? ?? ?? C3 CC CC CC CC CC CC CC CC 48 83 EC ?? 8B 0D".to_owned(),
        }
    }
}

/// The resolved module-relative offsets, one slot per symbolic target. A
/// slot value of 0 is never a legitimate resolution result.
pub struct ResolvedOffsets {
    pub entity_list: u32,
    pub local_player_controller: u32,
    pub matrix: u32,
    pub global_vars: u32,
    pub view_angle: u32,
    pub local_player_pawn: u32,
    pub force_jump: u32,
}

impl Default for ResolvedOffsets {
    /// All slots empty.
    fn default() -> (r: ResolvedOffsets)
        ensures
            r == (ResolvedOffsets {
                entity_list: 0,
                local_player_controller: 0,
                matrix: 0,
                global_vars: 0,
                view_angle: 0,
                local_player_pawn: 0,
                force_jump: 0,
            }),
    {
        ResolvedOffsets {
            entity_list: 0,
            local_player_controller: 0,
            matrix: 0,
            global_vars: 0,
            view_angle: 0,
            local_player_pawn: 0,
            force_jump: 0,
        }
    }
}

/// What resolving one signature yields: the first match address of a scan
/// over the module's window, plus the 32-bit displacement read 3 bytes into
/// the match, plus the 7-byte instruction length. `None` when the scan finds
/// nothing, the displacement cannot be read, or the sum leaves the address
/// space.
pub open spec fn search_offsets_spec(
    process_manager: ProcessManager,
    host: Host,
    signature: Seq<char>,
    module_address: int,
) -> Option<u64> {
    let matches = search_memory_spec(
        process_manager,
        host,
        signature,
        module_address,
        module_address + SCAN_WINDOW,
        1,
    );
    if matches.len() == 0 {
        None
    } else {
        let m = matches[0] as int;
        if m + 3 > u64::MAX {
            None
        } else if !read_ok(process_manager, host, m + 3, 4) {
            None
        } else {
            let disp = spec_u32_from_le_bytes(host.mem_bytes(m + 3, 4)) as int;
            if m + disp + 7 > u64::MAX {
                None
            } else if m + disp + 7 == 0 {
                None
            } else {
                Some((m + disp + 7) as u64)
            }
        }
    }
}

/// A resolved absolute address always lies strictly past the module base.
pub proof fn lemma_search_offsets_lower(
    process_manager: ProcessManager,
    host: Host,
    signature: Seq<char>,
    module_address: int,
)
    requires
        host.wf(),
        0 <= module_address,
    ensures
        search_offsets_spec(process_manager, host, signature, module_address) matches Some(v)
            ==> module_address < v <= u64::MAX,
{
    if valid_signature_text(signature) && parse_signature(signature).len() <= 0x7FFF {
        lemma_search_results_props(
            host,
            crate::memory::access_live(process_manager, host),
            parse_signature(signature),
            module_address,
            module_address + SCAN_WINDOW,
            1,
        );
    }
}

/// Resolves one signature against the module loaded at `module_address`:
/// scans the module's window for the first match, reads the embedded
/// displacement, and returns the absolute address it designates.
pub fn search_offsets(
    process_manager: &ProcessManager,
    host: &Host,
    signature: String,
    module_address: u64,
) -> (r: Option<u64>)
    requires
        host.wf(),
        module_address + SCAN_WINDOW <= u64::MAX,
    ensures
        r == search_offsets_spec(
            *process_manager,
            *host,
            signature@,
            module_address as int,
        ),
{
    let address_list: Vec<u64> = search_memory(
        process_manager,
        host,
        signature.as_str(),
        module_address,
        module_address + SCAN_WINDOW,
        1,
    );
    if address_list.len() == 0 {
        return None;
    }
    let m = address_list[0];
    if m > u64::MAX - 3 {
        return None;
    }
    let mut offsets: u32 = 0;
    if !read_memory_auto_u32(process_manager, host, m + 3, &mut offsets) {
        return None;
    }
    if m > u64::MAX - offsets as u64 - 7 {
        return None;
    }
    let return_item = m + offsets as u64 + 7;
    if return_item != 0 {
        Some(return_item)
    } else {
        None
    }
}

/// A resolved absolute address rebased against the module: `v + extra -
/// base`, truncated to the 32-bit module-relative form, wrapping as the
/// machine addition and subtraction would.
pub open spec fn rebase32(v: u64, extra: u64, base: u64) -> u32 {
    #[verifier::truncate] (vstd::wrapping::u64_specs::wrapping_sub(
        vstd::wrapping::u64_specs::wrapping_add(v, extra),
        base,
    ) as u32)
}

/// Module-relative offset of one simple target: resolve, add the target's
/// fixed extra constant, rebase.
pub open spec fn simple_target_spec(
    process_manager: ProcessManager,
    host: Host,
    signature: Seq<char>,
    base: u64,
    extra: u64,
) -> Option<u32> {
    match search_offsets_spec(process_manager, host, signature, base as int) {
        Option::None => Option::None,
        Option::Some(a) => Option::Some(rebase32(a, extra, base)),
    }
}

/// The whole resolution pass: which target fails first (by name), and the
/// offset table it leaves behind. Each succeeding target overwrites its slot
/// before the next is tried; a failure leaves the remaining slots as they
/// were in `prior`.
pub open spec fn update_offsets_spec(
    process_manager: ProcessManager,
    host: Host,
    signatures: Signatures,
    prior: ResolvedOffsets,
) -> (Option<Seq<char>>, ResolvedOffsets) {
    let base = module_base_spec(host, "client.dll"@);
    if base == 0 {
        (Some("ClientDLL"@), prior)
    } else {
        match simple_target_spec(process_manager, host, signatures.entity_list@, base, 0) {
            Option::None => (Some("EntityList"@), prior),
            Option::Some(v_el) => {
                let o1 = ResolvedOffsets { entity_list: v_el, ..prior };
                match simple_target_spec(
                    process_manager,
                    host,
                    signatures.local_player_controller@,
                    base,
                    0,
                ) {
                    Option::None => (Some("LocalPlayerController"@), o1),
                    Option::Some(v_lpc) => {
                        let o2 = ResolvedOffsets { local_player_controller: v_lpc, ..o1 };
                        match simple_target_spec(
                            process_manager,
                            host,
                            signatures.view_matrix@,
                            base,
                            0,
                        ) {
                            Option::None => (Some("ViewMatrix"@), o2),
                            Option::Some(v_vm) => {
                                let o3 = ResolvedOffsets { matrix: v_vm, ..o2 };
                                match simple_target_spec(
                                    process_manager,
                                    host,
                                    signatures.global_vars@,
                                    base,
                                    0,
                                ) {
                                    Option::None => (Some("GlobalVars"@), o3),
                                    Option::Some(v_gv) => {
                                        let o4 = ResolvedOffsets { global_vars: v_gv, ..o3 };
                                        match search_offsets_spec(
                                            process_manager,
                                            host,
                                            signatures.view_angles@,
                                            base as int,
                                        ) {
                                            Option::None => (Some("ViewAngles"@), o4),
                                            Option::Some(a_va) => {
                                                if !read_ok(
                                                    process_manager,
                                                    host,
                                                    a_va as int,
                                                    8,
                                                ) {
                                                    (Some("ViewAnglesMemory"@), o4)
                                                } else {
                                                    let p = spec_u64_from_le_bytes(
                                                        host.mem_bytes(a_va as int, 8),
                                                    );
                                                    let o5 = ResolvedOffsets {
                                                        view_angle: rebase32(
                                                            p,
                                                            0x4518,
                                                            base,
                                                        ),
                                                        ..o4
                                                    };
                                                    match simple_target_spec(
                                                        process_manager,
                                                        host,
                                                        signatures.local_player_pawn@,
                                                        base,
                                                        0x138,
                                                    ) {
                                                        Option::None => (
                                                            Some("LocalPlayerPawn"@),
                                                            o5,
                                                        ),
                                                        Option::Some(v_lpp) => {
                                                            let o6 = ResolvedOffsets {
                                                                local_player_pawn: v_lpp,
                                                                ..o5
                                                            };
                                                            match simple_target_spec(
                                                                process_manager,
                                                                host,
                                                                signatures.force_jump@,
                                                                base,
                                                                0x30,
                                                            ) {
                                                                Option::None => (
                                                                    Some("ForceJump"@),
                                                                    o6,
                                                                ),
                                                                Option::Some(v_fj) => (
                                                                    None,
                                                                    ResolvedOffsets {
                                                                        force_jump: v_fj,
                                                                        ..o6
                                                                    },
                                                                ),
                                                            }
                                                        },
                                                    }
                                                }
                                            },
                                        }
                                    },
                                }
                            },
                        }
                    },
                }
            },
        }
    }
}

/// Rebases one resolved address to its 32-bit module-relative offset.
fn rebase_address(v: u64, extra: u64, base: u64) -> (r: u32)
    ensures
        r == rebase32(v, extra, base),
{
    let w = v.wrapping_add(extra).wrapping_sub(base);
    #[verifier::truncate] (w as u32)
}

/// Runs every signature resolution in a fixed order against the module
/// `client.dll`, filling `offsets` slot by slot, and names the first target
/// that fails — or `None` when all succeed. Safe to re-invoke: against an
/// unchanged process a second pass recomputes identical values.
pub fn update_offsets(
    process_manager: &ProcessManager,
    host: &Host,
    signatures: &Signatures,
    offsets: &mut ResolvedOffsets,
) -> (r: Option<String>)
    requires
        host.wf(),
        module_base_spec(*host, "client.dll"@) + SCAN_WINDOW <= u64::MAX,
    ensures
        ({
            let outcome = update_offsets_spec(*process_manager, *host, *signatures, *old(offsets));
            &&& *final(offsets) == outcome.1
            &&& (r is None <==> outcome.0 is None)
            &&& (r matches Some(s) ==> outcome.0 matches Some(f) && s@ == f)
        }),
{
    let client_dll = get_process_module_handle(host, "client.dll");
    if client_dll == 0 {
        return Some("ClientDLL".to_owned());
    }

    let entity_list = match search_offsets(
        process_manager,
        host,
        signatures.entity_list.clone(),
        client_dll,
    ) {
        Option::Some(address) => rebase_address(address, 0, client_dll),
        Option::None => {
            return Some("EntityList".to_owned());
        },
    };
    offsets.entity_list = entity_list;

    let local_player_controller = match search_offsets(
        process_manager,
        host,
        signatures.local_player_controller.clone(),
        client_dll,
    ) {
        Option::Some(address) => rebase_address(address, 0, client_dll),
        Option::None => {
            return Some("LocalPlayerController".to_owned());
        },
    };
    offsets.local_player_controller = local_player_controller;

    let matrix = match search_offsets(
        process_manager,
        host,
        signatures.view_matrix.clone(),
        client_dll,
    ) {
        Option::Some(address) => rebase_address(address, 0, client_dll),
        Option::None => {
            return Some("ViewMatrix".to_owned());
        },
    };
    offsets.matrix = matrix;

    let global_vars = match search_offsets(
        process_manager,
        host,
        signatures.global_vars.clone(),
        client_dll,
    ) {
        Option::Some(address) => rebase_address(address, 0, client_dll),
        Option::None => {
            return Some("GlobalVars".to_owned());
        },
    };
    offsets.global_vars = global_vars;

    let view_angle = match search_offsets(
        process_manager,
        host,
        signatures.view_angles.clone(),
        client_dll,
    ) {
        Option::Some(address) => {
            let mut pointer: u64 = 0;
            if !read_memory_auto(process_manager, host, address, &mut pointer) {
                return Some("ViewAnglesMemory".to_owned());
            }
            rebase_address(pointer, 0x4518, client_dll)
        },
        Option::None => {
            return Some("ViewAngles".to_owned());
        },
    };
    offsets.view_angle = view_angle;

    let local_player_pawn = match search_offsets(
        process_manager,
        host,
        signatures.local_player_pawn.clone(),
        client_dll,
    ) {
        Option::Some(address) => rebase_address(address, 0x138, client_dll),
        Option::None => {
            return Some("LocalPlayerPawn".to_owned());
        },
    };
    offsets.local_player_pawn = local_player_pawn;

    let force_jump = match search_offsets(
        process_manager,
        host,
        signatures.force_jump.clone(),
        client_dll,
    ) {
        Option::Some(address) => rebase_address(address, 0x30, client_dll),
        Option::None => {
            return Some("ForceJump".to_owned());
        },
    };
    offsets.force_jump = force_jump;

    None
}

/// Idempotence of the resolution pass: when it succeeds, re-invoking it
/// against the unchanged process and signature table yields the identical
/// offset table, whatever either pass found in the slots beforehand.
pub proof fn lemma_update_offsets_idempotent(
    process_manager: ProcessManager,
    host: Host,
    signatures: Signatures,
    prior1: ResolvedOffsets,
    prior2: ResolvedOffsets,
)
    requires
        update_offsets_spec(process_manager, host, signatures, prior1).0 is None,
    ensures
        update_offsets_spec(process_manager, host, signatures, prior2).0 is None,
        update_offsets_spec(process_manager, host, signatures, prior1).1 == update_offsets_spec(
            process_manager,
            host,
            signatures,
            prior2,
        ).1,
{
}

} // verus!
