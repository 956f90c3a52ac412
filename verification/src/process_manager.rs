//! Attachment to the target process: process lookup, handle acquisition,
//! module base resolution, liveness polling and teardown, all specified
//! against the [`Host`] model.

use vstd::prelude::*;
use vstd::string::StrSliceExecFns;
use crate::host::Host;

verus! {

/// Outcome of an attachment attempt. Anything but `Success` means "not
/// attached": the failed step names what to retry.
#[derive(Debug, PartialEq, Eq, Structural)]
pub enum AttachStatus {
    Success,
    FailedProcessId,
    FailedHProcess,
    FailedModule,
}

/// The live binding to one target process: a handle, the process id, and the
/// base address of its main module. Fields are committed step by step during
/// [`attach_process_manager`] and zeroed by [`detach_process_manager`].
pub struct ProcessManager {
    pub attached: bool,
    /// Handle to the opened process; 0 when no handle is held.
    pub h_process: u64,
    pub process_id: u32,
    pub module_address: u64,
}

impl Default for ProcessManager {
    /// The detached state: no handle, no process, no module.
    fn default() -> (r: ProcessManager)
        ensures
            !r.attached,
            r.h_process == 0,
            r.process_id == 0,
            r.module_address == 0,
    {
        ProcessManager { attached: false, h_process: 0, process_id: 0, module_address: 0 }
    }
}

/// Index of the first process entry named `name`, or -1 when none is.
pub open spec fn first_process_index(host: Host, name: Seq<char>, i: int) -> int
    decreases host.processes@.len() - i when 0 <= i <= host.processes@.len()
{
    if i >= host.processes@.len() {
        -1
    } else if host.processes@[i].name@ == name {
        i
    } else {
        first_process_index(host, name, i + 1)
    }
}

/// Process id reported for `name`: the id of the first entry with that exact
/// name, or 0 when no entry matches.
pub open spec fn process_id_spec(host: Host, name: Seq<char>) -> u32 {
    let i = first_process_index(host, name, 0);
    if i >= 0 {
        host.processes@[i].id
    } else {
        0
    }
}

/// Handle the environment hands out for the first process entry named
/// `name`; 0 when no entry matches or opening is denied.
pub open spec fn process_handle_spec(host: Host, name: Seq<char>) -> u64 {
    let i = first_process_index(host, name, 0);
    if i >= 0 {
        host.processes@[i].handle
    } else {
        0
    }
}

/// Index of the first module entry named `name`, or -1 when none is.
pub open spec fn first_module_index(host: Host, name: Seq<char>, i: int) -> int
    decreases host.modules@.len() - i when 0 <= i <= host.modules@.len()
{
    if i >= host.modules@.len() {
        -1
    } else if host.modules@[i].name@ == name {
        i
    } else {
        first_module_index(host, name, i + 1)
    }
}

/// Base address reported for the module named `name`: the base of the first
/// entry with that exact name, or 0 when no entry matches.
pub open spec fn module_base_spec(host: Host, name: Seq<char>) -> u64 {
    let i = first_module_index(host, name, 0);
    if i >= 0 {
        host.modules@[i].base
    } else {
        0
    }
}

/// Whether polling the attachment reports the target as alive.
pub open spec fn is_active_spec(process_manager: ProcessManager, host: Host) -> bool {
    process_manager.attached && host.running
}

/// Character-for-character string comparison.
fn str_equal(a: &str, b: &str) -> (r: bool)
    ensures
        r == (a@ == b@),
{
    let n = a.unicode_len();
    if n != b.unicode_len() {
        proof {
            assert(a@ != b@);
        }
        return false;
    }
    let mut i: usize = 0;
    while i < n
        invariant
            0 <= i <= n,
            n == a@.len(),
            n == b@.len(),
            forall|k: int| 0 <= k < i ==> a@[k] == b@[k],
        decreases n - i,
    {
        if a.get_char(i) != b.get_char(i) {
            proof {
                assert(a@[i as int] != b@[i as int]);
            }
            return false;
        }
        i = i + 1;
    }
    proof {
        assert(a@ =~= b@);
    }
    true
}

/// Looks the target process up by executable name in the environment's
/// process table: the first case-sensitive exact match wins. Returns its
/// process id, or 0 when no entry matches.
pub fn get_process_id(host: &Host, process_name: &str) -> (r: u32)
    ensures
        r == process_id_spec(*host, process_name@),
{
    let n = host.processes.len();
    let mut i: usize = 0;
    while i < n
        invariant
            0 <= i <= n,
            n == host.processes@.len(),
            first_process_index(*host, process_name@, i as int) == first_process_index(
                *host,
                process_name@,
                0,
            ),
        decreases n - i,
    {
        if str_equal(host.processes[i].name.as_str(), process_name) {
            return host.processes[i].id;
        }
        i = i + 1;
    }
    0
}

/// Handle for the first process entry named `process_name`, or 0.
fn get_process_handle(host: &Host, process_name: &str) -> (r: u64)
    ensures
        r == process_handle_spec(*host, process_name@),
{
    let n = host.processes.len();
    let mut i: usize = 0;
    while i < n
        invariant
            0 <= i <= n,
            n == host.processes@.len(),
            first_process_index(*host, process_name@, i as int) == first_process_index(
                *host,
                process_name@,
                0,
            ),
        decreases n - i,
    {
        if str_equal(host.processes[i].name.as_str(), process_name) {
            return host.processes[i].handle;
        }
        i = i + 1;
    }
    0
}

/// Looks a loaded module of the target up by name in the environment's
/// module table: the first exact match wins. Returns its base address, or 0
/// when no entry matches.
pub fn get_process_module_handle(host: &Host, module_name: &str) -> (r: u64)
    ensures
        r == module_base_spec(*host, module_name@),
{
    let n = host.modules.len();
    let mut i: usize = 0;
    while i < n
        invariant
            0 <= i <= n,
            n == host.modules@.len(),
            first_module_index(*host, module_name@, i as int) == first_module_index(
                *host,
                module_name@,
                0,
            ),
        decreases n - i,
    {
        if str_equal(host.modules[i].name.as_str(), module_name) {
            return host.modules[i].base;
        }
        i = i + 1;
    }
    0
}

/// Attaches to the process named `process_name`: looks its id up, opens a
/// handle, and resolves the base of the module of the same name. Each step
/// failing short-circuits with its own status, committing only the fields of
/// the steps that succeeded so far; in particular a `FailedProcessId` leaves
/// the manager untouched, with no handle opened.
pub fn attach_process_manager(
    process_manager: &mut ProcessManager,
    host: &Host,
    process_name: &str,
) -> (status: AttachStatus)
    ensures
        ({
            let pid = process_id_spec(*host, process_name@);
            let handle = process_handle_spec(*host, process_name@);
            let module = module_base_spec(*host, process_name@);
            if pid == 0 {
                status == AttachStatus::FailedProcessId && *final(process_manager) == *old(
                    process_manager,
                )
            } else if handle == 0 {
                status == AttachStatus::FailedHProcess && *final(process_manager)
                    == (ProcessManager { process_id: pid, ..*old(process_manager) })
            } else if module == 0 {
                status == AttachStatus::FailedModule && *final(process_manager)
                    == (ProcessManager { process_id: pid, h_process: handle, ..*old(
                    process_manager,
                ) })
            } else {
                status == AttachStatus::Success && *final(process_manager) == (ProcessManager {
                    attached: true,
                    h_process: handle,
                    process_id: pid,
                    module_address: module,
                })
            }
        }),
{
    let process_id = get_process_id(host, process_name);
    if process_id == 0 {
        return AttachStatus::FailedProcessId;
    }
    process_manager.process_id = process_id;

    let handle = get_process_handle(host, process_name);
    if handle == 0 {
        return AttachStatus::FailedHProcess;
    }
    process_manager.h_process = handle;

    let module_address = get_process_module_handle(host, process_name);
    if module_address == 0 {
        return AttachStatus::FailedModule;
    }
    process_manager.module_address = module_address;

    process_manager.attached = true;
    AttachStatus::Success
}

/// Tears the attachment down: releases the handle and zeroes every field.
/// Idempotent; the detached manager can never report the target as active.
pub fn detach_process_manager(process_manager: &mut ProcessManager)
    ensures
        !final(process_manager).attached,
        final(process_manager).h_process == 0,
        final(process_manager).process_id == 0,
        final(process_manager).module_address == 0,
{
    process_manager.h_process = 0;
    process_manager.process_id = 0;
    process_manager.module_address = 0;
    process_manager.attached = false;
}

/// Polls whether the attached target is still running. Reports false for any
/// manager that is not attached — so immediately after a detach, and at all
/// times before the first successful attach.
pub fn is_active(process_manager: &ProcessManager, host: &Host) -> (r: bool)
    ensures
        r == is_active_spec(*process_manager, *host),
{
    if !process_manager.attached {
        return false;
    }
    host.running
}

/// A manager that is not attached — fresh, detached, or after any failed
/// attach — is never active, whatever the host reports.
pub proof fn lemma_inactive_when_detached(process_manager: ProcessManager, host: Host)
    requires
        !process_manager.attached,
    ensures
        !is_active_spec(process_manager, host),
{
}

} // verus!
