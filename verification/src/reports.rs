//! What is reported on the serial console: system calls, and the way of processes into
//! ring 3 and back.

use crate::numbers::{
    decimal, decimal_text, hex, hex_text, law_decimal_reads_back, law_hexadecimal_reads_back,
    short_hex, short_hex_text,
};
use crate::process::{FDTEST_PROCESS_ID, HEAP_START, LOADED_PROCESS_ID, MAX_OPEN_FILES};
use crate::text::{lemma_same_middle, owned, utf8_text};
use crate::usertest::{
    hardware_cpl, SyscallRegs, MAX_FD_IO_LEN, MAX_PATH_LEN, MAX_WRITE_LEN, USER_CODE_ADDR,
};
use vstd::prelude::*;
use vstd::string::StringExecFns;
use vstd::utf8::{decode_utf8, valid_utf8};

verus! {

/// A number as reports show addresses.
pub open spec fn address_text(n: u64) -> Seq<char> {
    "0x"@ + short_hex_text(n as nat)
}

pub(crate) fn address(n: u64) -> (r: String)
    ensures
        r@ == address_text(n),
{
    let mut out = owned("0x");
    out.append(short_hex(n).as_str());
    out
}

/// The code segment that the processor recorded, and the privilege level in it.
pub open spec fn segment_text(cs: u64) -> Seq<char> {
    "hardware-recorded CS="@ + address_text(cs) + " (CPL="@ + decimal_text((cs % 4) as nat) + ")"@
}

fn segment(regs: &SyscallRegs) -> (r: String)
    ensures
        r@ == segment_text(regs.cs),
{
    let mut out = owned("hardware-recorded CS=");
    out.append(address(regs.cs).as_str());
    out.append(" (CPL=");
    out.append(decimal(hardware_cpl(regs)).as_str());
    out.append(")");
    out
}

/// The beginning of a line on a call of a process.
pub open spec fn call_text(milestone: Seq<char>, call: Seq<char>, active: u8) -> Seq<char> {
    "milestone "@ + milestone + ": syscall "@ + call + " (process "@ + decimal_text(active as nat)
        + ") -- "@
}

fn call_line(milestone: &str, call: &str, active: u8) -> (r: String)
    ensures
        r@ == call_text(milestone@, call@, active),
{
    let mut out = owned("milestone ");
    out.append(milestone);
    out.append(": syscall ");
    out.append(call);
    out.append(" (process ");
    out.append(decimal(active as u64).as_str());
    out.append(") -- ");
    out
}

/// The line on a length that is cut off: nothing where the length is within its limit.
pub open spec fn cut_text(call: Seq<char>, len: u64, limit: Seq<char>, most: u64) -> Seq<char> {
    if len > most {
        "milestone "@ + call + decimal_text(len as nat) + " exceeds "@ + limit + " "@
            + decimal_text(most as nat) + ", truncating\n"@
    } else {
        ""@
    }
}

fn cut_line(call: &str, len: u64, limit: &str, most: u64) -> (r: String)
    ensures
        r@ == cut_text(call@, len, limit@, most),
{
    if len > most {
        let mut out = owned("milestone ");
        out.append(call);
        out.append(decimal(len).as_str());
        out.append(" exceeds ");
        out.append(limit);
        out.append(" ");
        out.append(decimal(most).as_str());
        out.append(", truncating\n");
        out
    } else {
        owned("")
    }
}

/// The line on a call for open files that no process made.
pub open spec fn no_files_text(call: Seq<char>) -> Seq<char> {
    "milestone 35: syscall "@ + call
        + " called with no active process (plain usertest excursion has no fd table) -- ignoring, returning u64::MAX\n"@
}

fn no_files_line(call: &str) -> (r: String)
    ensures
        r@ == no_files_text(call@),
{
    let mut out = owned("milestone 35: syscall ");
    out.append(call);
    out.append(
        " called with no active process (plain usertest excursion has no fd table) -- ignoring, returning u64::MAX\n",
    );
    out
}

/// The line on a file that is not open.
pub open spec fn not_open_text(call: Seq<char>, active: u8, fd: u64) -> Seq<char> {
    call_text("35"@, call, active) + "FAILED, fd "@ + decimal_text(fd as nat)
        + " is not open -- returning u64::MAX\n"@
}

fn not_open_line(call: &str, active: u8, fd: u64) -> (r: String)
    ensures
        r@ == not_open_text(call@, active, fd),
{
    let mut out = call_line("35", call, active);
    out.append("FAILED, fd ");
    out.append(decimal(fd).as_str());
    out.append(" is not open -- returning u64::MAX\n");
    out
}

/// The length that a call works on.
pub open spec fn length_used(len: u64, most: u64) -> nat {
    if len > most {
        most as nat
    } else {
        len as nat
    }
}

fn used_length(len: u64, most: u64) -> (r: String)
    ensures
        r@ == decimal_text(length_used(len, most)),
{
    if len > most {
        decimal(most)
    } else {
        decimal(len)
    }
}

/// The report on a write to the console, up to the bytes that are written.
pub open spec fn write_text(regs: SyscallRegs, active: u8) -> Seq<char> {
    cut_text(
        "31: syscall WRITE -- requested len "@,
        regs.rsi,
        "MAX_WRITE_LEN"@,
        MAX_WRITE_LEN,
    ) + (if active != 0 {
        call_text("31"@, "WRITE"@, active)
    } else {
        "milestone 31: syscall WRITE (legacy usertest, no active process) -- "@
    }) + segment_text(regs.cs) + " -- ptr="@ + address_text(regs.rdi) + " len="@ + decimal_text(
        length_used(regs.rsi, MAX_WRITE_LEN),
    ) + " -- raw bytes >>>\n"@
}

fn write_report(regs: &SyscallRegs, active: u8) -> (r: String)
    ensures
        r@ == write_text(*regs, active),
{
    let mut out = cut_line(
        "31: syscall WRITE -- requested len ",
        regs.rsi,
        "MAX_WRITE_LEN",
        MAX_WRITE_LEN,
    );
    if active != 0 {
        out.append(call_line("31", "WRITE", active).as_str());
    } else {
        out.append("milestone 31: syscall WRITE (legacy usertest, no active process) -- ");
    }
    out.append(segment(regs).as_str());
    out.append(" -- ptr=");
    out.append(address(regs.rdi).as_str());
    out.append(" len=");
    out.append(used_length(regs.rsi, MAX_WRITE_LEN).as_str());
    out.append(" -- raw bytes >>>\n");
    out
}

/// The report that follows the bytes that were written. Where a process wrote them it
/// shows the first byte of the process's own heap.
pub open spec fn write_end_text(regs: SyscallRegs, active: u8, marker: u8) -> Seq<char> {
    let end = "\n<<< end of write ("@ + decimal_text(length_used(regs.rsi, MAX_WRITE_LEN))
        + " bytes)\n"@;
    if active != 0 {
        end + "milestone 33: syscall WRITE (process "@ + decimal_text(active as nat)
            + ") also reads its own private heap at "@ + address_text(HEAP_START)
            + " -- marker byte 0x"@ + hex_text(marker as nat, 2) + " ('"@ + seq![marker as char]
            + "')\n"@
    } else {
        end
    }
}

/// The report that follows the bytes that a write to the console has sent. `marker` is
/// the first byte of the active process's heap.
pub fn write_end_report(regs: &SyscallRegs, active: u8, marker: u8) -> (r: String)
    ensures
        r@ == write_end_text(*regs, active, marker),
{
    let mut out = owned("\n<<< end of write (");
    out.append(used_length(regs.rsi, MAX_WRITE_LEN).as_str());
    out.append(" bytes)\n");
    if active != 0 {
        out.append("milestone 33: syscall WRITE (process ");
        out.append(decimal(active as u64).as_str());
        out.append(") also reads its own private heap at ");
        out.append(address(HEAP_START).as_str());
        out.append(" -- marker byte 0x");
        out.append(hex(marker as u64, 2).as_str());
        out.append(" ('");
        let ghost before = out@;
        out.push(marker as char);
        assert(out@ == before + seq![marker as char]);
        out.append("')\n");
    }
    out
}

/// The report on an exit.
pub open spec fn exit_text(regs: SyscallRegs, active: u8) -> Seq<char> {
    (if active != 0 {
        "milestone 30: syscall EXIT -- "@
    } else {
        "milestone 27: syscall EXIT -- "@
    }) + segment_text(regs.cs) + " -- discarding ring-3 context, resuming kernel context\n"@
}

fn exit_report(regs: &SyscallRegs, active: u8) -> (r: String)
    ensures
        r@ == exit_text(*regs, active),
{
    let mut out = if active != 0 {
        owned("milestone 30: syscall EXIT -- ")
    } else {
        owned("milestone 27: syscall EXIT -- ")
    };
    out.append(segment(regs).as_str());
    out.append(" -- discarding ring-3 context, resuming kernel context\n");
    out
}

/// The report on a request for heap memory, which came to `result`.
pub open spec fn sbrk_text(regs: SyscallRegs, active: u8, result: u64) -> Seq<char> {
    if active == 0 {
        "milestone 33: syscall SBRK called with no active process (plain usertest excursion has no per-process heap mapped) -- ignoring, returning u64::MAX\n"@
    } else if result == u64::MAX {
        call_text("33"@, "SBRK"@, active) + "FAILED (requested "@ + decimal_text(regs.rdi as nat)
            + " bytes would exceed this process's fixed per-process heap) -- returning u64::MAX\n"@
    } else {
        call_text("33"@, "SBRK"@, active) + segment_text(regs.cs) + " -- requested "@
            + decimal_text(regs.rdi as nat) + " bytes, returning heap pointer "@ + address_text(
            result,
        ) + "\n"@
    }
}

fn sbrk_report(regs: &SyscallRegs, active: u8, result: u64) -> (r: String)
    ensures
        r@ == sbrk_text(*regs, active, result),
{
    if active == 0 {
        return owned(
            "milestone 33: syscall SBRK called with no active process (plain usertest excursion has no per-process heap mapped) -- ignoring, returning u64::MAX\n",
        );
    }
    let mut out = call_line("33", "SBRK", active);
    if result == u64::MAX {
        out.append("FAILED (requested ");
        out.append(decimal(regs.rdi).as_str());
        out.append(
            " bytes would exceed this process's fixed per-process heap) -- returning u64::MAX\n",
        );
    } else {
        out.append(segment(regs).as_str());
        out.append(" -- requested ");
        out.append(decimal(regs.rdi).as_str());
        out.append(" bytes, returning heap pointer ");
        out.append(address(result).as_str());
        out.append("\n");
    }
    out
}

/// The report on opening a file: `user` is the path, `result` what the call came to.
pub open spec fn open_text(regs: SyscallRegs, active: u8, user: Seq<u8>, result: u64) -> Seq<char> {
    cut_text(
        "35: syscall OPEN -- requested path_len "@,
        regs.rsi,
        "MAX_PATH_LEN"@,
        MAX_PATH_LEN,
    ) + (if active == 0 {
        no_files_text("OPEN"@)
    } else if !valid_utf8(user) {
        call_text("35"@, "OPEN"@, active) + "path is not valid UTF-8, returning u64::MAX\n"@
    } else if result == u64::MAX {
        call_text("35"@, "OPEN"@, active) + "FAILED for path='"@ + decode_utf8(user)
            + "' (fd table full -- max "@ + decimal_text(MAX_OPEN_FILES as nat)
            + " open files per process) -- returning u64::MAX\n"@
    } else {
        call_text("35"@, "OPEN"@, active) + segment_text(regs.cs) + " -- path='"@ + decode_utf8(
            user,
        ) + "' -> fd "@ + decimal_text(result as nat) + "\n"@
    })
}

fn open_report(regs: &SyscallRegs, active: u8, user: &[u8], result: u64) -> (r: String)
    ensures
        r@ == open_text(*regs, active, user@, result),
{
    let mut out = cut_line(
        "35: syscall OPEN -- requested path_len ",
        regs.rsi,
        "MAX_PATH_LEN",
        MAX_PATH_LEN,
    );
    let line = if active == 0 {
        no_files_line("OPEN")
    } else {
        let mut line = call_line("35", "OPEN", active);
        match utf8_text(user) {
            None => {
                line.append("path is not valid UTF-8, returning u64::MAX\n");
            },
            Some(path) => if result == u64::MAX {
                line.append("FAILED for path='");
                line.append(path);
                line.append("' (fd table full -- max ");
                line.append(decimal(MAX_OPEN_FILES as u64).as_str());
                line.append(" open files per process) -- returning u64::MAX\n");
            } else {
                line.append(segment(regs).as_str());
                line.append(" -- path='");
                line.append(path);
                line.append("' -> fd ");
                line.append(decimal(result).as_str());
                line.append("\n");
            },
        }
        line
    };
    out.append(line.as_str());
    out
}

/// The report on reading from an open file, or on writing to one: `count` names what
/// the call's result counts.
pub open spec fn transfer_text(
    regs: SyscallRegs,
    active: u8,
    result: u64,
    call: Seq<char>,
    count: Seq<char>,
) -> Seq<char> {
    cut_text(
        "35: syscall "@ + call + " -- requested len "@,
        regs.rdx,
        "MAX_FD_IO_LEN"@,
        MAX_FD_IO_LEN,
    ) + (if active == 0 {
        no_files_text(call)
    } else if result == u64::MAX {
        not_open_text(call, active, regs.rdi)
    } else {
        call_text("35"@, call, active) + segment_text(regs.cs) + " -- fd="@ + decimal_text(
            regs.rdi as nat,
        ) + " requested="@ + decimal_text(length_used(regs.rdx, MAX_FD_IO_LEN)) + count
            + decimal_text(result as nat) + " bytes"@
    })
}

fn transfer_report(regs: &SyscallRegs, active: u8, result: u64, call: &str, count: &str) -> (r:
    String)
    ensures
        r@ == transfer_text(*regs, active, result, call@, count@),
{
    let mut what = owned("35: syscall ");
    what.append(call);
    what.append(" -- requested len ");
    let mut out = cut_line(what.as_str(), regs.rdx, "MAX_FD_IO_LEN", MAX_FD_IO_LEN);
    let line = if active == 0 {
        no_files_line(call)
    } else if result == u64::MAX {
        not_open_line(call, active, regs.rdi)
    } else {
        let mut line = call_line("35", call, active);
        line.append(segment(regs).as_str());
        line.append(" -- fd=");
        line.append(decimal(regs.rdi).as_str());
        line.append(" requested=");
        line.append(used_length(regs.rdx, MAX_FD_IO_LEN).as_str());
        line.append(count);
        line.append(decimal(result).as_str());
        line.append(" bytes");
        line
    };
    out.append(line.as_str());
    out
}

/// The end of the report on reading from an open file, or on writing to one: a write
/// that took less than was asked of it is called truncated.
pub open spec fn transfer_end(regs: SyscallRegs, active: u8, result: u64) -> Seq<char> {
    if active == 0 || result == u64::MAX {
        ""@
    } else if regs.rax == 5 && result < length_used(regs.rdx, MAX_FD_IO_LEN) {
        " (TRUNCATED -- would have exceeded fs::MAX_FILE_BYTES)\n"@
    } else {
        "\n"@
    }
}

fn end_of_transfer(regs: &SyscallRegs, active: u8, result: u64) -> (r: &'static str)
    ensures
        r@ == transfer_end(*regs, active, result),
{
    let len: u64 = if regs.rdx > MAX_FD_IO_LEN {
        MAX_FD_IO_LEN
    } else {
        regs.rdx
    };
    if active == 0 || result == u64::MAX {
        ""
    } else if regs.rax == 5 && result < len {
        " (TRUNCATED -- would have exceeded fs::MAX_FILE_BYTES)\n"
    } else {
        "\n"
    }
}

/// The report on closing a file. A file that could not be stored was reported on
/// already.
pub open spec fn close_text(regs: SyscallRegs, active: u8, result: u64) -> Seq<char> {
    if active == 0 {
        no_files_text("CLOSE"@)
    } else if result == 0 {
        call_text("35"@, "CLOSE"@, active) + segment_text(regs.cs) + " -- fd="@ + decimal_text(
            regs.rdi as nat,
        ) + " closed successfully\n"@
    } else if result == 1 {
        call_text("35"@, "CLOSE"@, active) + "FAILED, fd "@ + decimal_text(regs.rdi as nat)
            + " was not open -- returning status 1\n"@
    } else {
        ""@
    }
}

fn close_report(regs: &SyscallRegs, active: u8, result: u64) -> (r: String)
    ensures
        r@ == close_text(*regs, active, result),
{
    if active == 0 {
        no_files_line("CLOSE")
    } else if result == 0 {
        let mut out = call_line("35", "CLOSE", active);
        out.append(segment(regs).as_str());
        out.append(" -- fd=");
        out.append(decimal(regs.rdi).as_str());
        out.append(" closed successfully\n");
        out
    } else if result == 1 {
        let mut out = call_line("35", "CLOSE", active);
        out.append("FAILED, fd ");
        out.append(decimal(regs.rdi).as_str());
        out.append(" was not open -- returning status 1\n");
        out
    } else {
        owned("")
    }
}

/// The report on storing a changed file when it is closed: its path, its length, and
/// why it could not be stored, if it could not.
pub open spec fn store_text(
    active: u8,
    fd: u64,
    path: Seq<char>,
    len: nat,
    failure: Option<Seq<char>>,
) -> Seq<char> {
    let head = call_text("35"@, "CLOSE"@, active) + "fd "@ + decimal_text(fd as nat);
    match failure {
        None => head + " was dirty, persisted "@ + decimal_text(len) + " bytes to '"@ + path
            + "' on the real on-disk filesystem\n"@,
        Some(e) => head + " was dirty, but fs::write_file('"@ + path + "') FAILED: "@ + e
            + " -- fd released anyway, data NOT persisted\n"@,
    }
}

/// Reports on storing a changed file when it is closed.
pub fn store_report(active: u8, fd: u64, path: &str, len: usize, failure: Option<&str>) -> (r:
    String)
    ensures
        r@ == store_text(
            active,
            fd,
            path@,
            len as nat,
            match failure {
                None => None,
                Some(e) => Some(e@),
            },
        ),
{
    let mut out = call_line("35", "CLOSE", active);
    out.append("fd ");
    out.append(decimal(fd).as_str());
    match failure {
        None => {
            out.append(" was dirty, persisted ");
            out.append(decimal(len as u64).as_str());
            out.append(" bytes to '");
            out.append(path);
            out.append("' on the real on-disk filesystem\n");
        },
        Some(e) => {
            out.append(" was dirty, but fs::write_file('");
            out.append(path);
            out.append("') FAILED: ");
            out.append(e);
            out.append(" -- fd released anyway, data NOT persisted\n");
        },
    }
    out
}

/// The report on a system call: its registers, the process that made it, the memory
/// that it read, and what it came to.
pub open spec fn syscall_text(regs: SyscallRegs, active: u8, user: Seq<u8>, result: u64) -> Seq<
    char,
> {
    if regs.rax == 0 {
        write_text(regs, active)
    } else if regs.rax == 1 {
        exit_text(regs, active)
    } else if regs.rax == 2 {
        sbrk_text(regs, active, result)
    } else if regs.rax == 3 {
        open_text(regs, active, user, result)
    } else if regs.rax == 4 {
        transfer_text(regs, active, result, "READ"@, " actual="@) + transfer_end(
            regs,
            active,
            result,
        )
    } else if regs.rax == 5 {
        transfer_text(regs, active, result, "FDWRITE"@, " accepted="@) + transfer_end(
            regs,
            active,
            result,
        )
    } else if regs.rax == 6 {
        close_text(regs, active, result)
    } else {
        "milestone 27: unknown syscall "@ + decimal_text(regs.rax as nat) + " from CPL="@
            + decimal_text((regs.cs % 4) as nat) + " -- ignoring\n"@
    }
}

/// Reports on a system call. `regs` are the registers that it was made with, `active`
/// is the process that made it, `user` the memory that it read and `result` its result.
pub fn syscall_report(regs: &SyscallRegs, active: u8, user: &[u8], result: u64) -> (r: String)
    ensures
        r@ == syscall_text(*regs, active, user@, result),
{
    match regs.rax {
        0 => write_report(regs, active),
        1 => exit_report(regs, active),
        2 => sbrk_report(regs, active, result),
        3 => open_report(regs, active, user, result),
        4 => {
            let mut out = transfer_report(regs, active, result, "READ", " actual=");
            out.append(end_of_transfer(regs, active, result));
            out
        },
        5 => {
            let mut out = transfer_report(regs, active, result, "FDWRITE", " accepted=");
            out.append(end_of_transfer(regs, active, result));
            out
        },
        6 => close_report(regs, active, result),
        _ => {
            let mut out = owned("milestone 27: unknown syscall ");
            out.append(decimal(regs.rax).as_str());
            out.append(" from CPL=");
            out.append(decimal(hardware_cpl(regs)).as_str());
            out.append(" -- ignoring\n");
            out
        },
    }
}

/// The report on the switch to a process's page table.
pub open spec fn switch_text(id: u8, label: Seq<char>, pml4: u64) -> Seq<char> {
    if id == LOADED_PROCESS_ID {
        "milestone 34: loaded process -- about to switch CR3 to pml4 "@ + address_text(pml4)
            + "\n"@
    } else {
        "milestone 30: runproc "@ + decimal_text(id as nat) + " (process "@ + label
            + ") -- about to switch CR3 to process pml4 "@ + address_text(pml4) + "\n"@
    }
}

/// Reports that a process's page table is about to be loaded.
pub fn switch_report(id: u8, label: &str, pml4: u64) -> (r: String)
    ensures
        r@ == switch_text(id, label@, pml4),
{
    let mut out = if id == LOADED_PROCESS_ID {
        owned("milestone 34: loaded process -- about to switch CR3 to pml4 ")
    } else {
        let mut line = owned("milestone 30: runproc ");
        line.append(decimal(id as u64).as_str());
        line.append(" (process ");
        line.append(label);
        line.append(") -- about to switch CR3 to process pml4 ");
        line
    };
    out.append(address(pml4).as_str());
    out.append("\n");
    out
}

/// The report on entering ring 3 for a process.
pub open spec fn entering_text(id: u8) -> Seq<char> {
    (if id == LOADED_PROCESS_ID {
        "milestone 34: CR3 switched -- entering ring 3 for the file-loaded process at "@
    } else {
        "milestone 30: CR3 switched -- entering ring 3 for process "@ + decimal_text(id as nat)
            + " at "@
    }) + address_text(USER_CODE_ADDR) + "\n"@
}

/// Reports that ring 3 is about to be entered for a process.
pub fn entering_report(id: u8) -> (r: String)
    ensures
        r@ == entering_text(id),
{
    let mut out = if id == LOADED_PROCESS_ID {
        owned("milestone 34: CR3 switched -- entering ring 3 for the file-loaded process at ")
    } else {
        let mut line = owned("milestone 30: CR3 switched -- entering ring 3 for process ");
        line.append(decimal(id as u64).as_str());
        line.append(" at ");
        line
    };
    out.append(address(USER_CODE_ADDR).as_str());
    out.append("\n");
    out
}

/// The report on the return from a process.
pub open spec fn resumed_text(id: u8) -> Seq<char> {
    (if id == LOADED_PROCESS_ID {
        "milestone 34: loaded process"@
    } else {
        "milestone 30: runproc "@ + decimal_text(id as nat)
    })
        + " -- resumed in kernel context (CR3 already restored by the exit syscall before this point)\n"@
}

/// Reports that a process has exited.
pub fn resumed_report(id: u8) -> (r: String)
    ensures
        r@ == resumed_text(id),
{
    let mut out = if id == LOADED_PROCESS_ID {
        owned("milestone 34: loaded process")
    } else {
        let mut line = owned("milestone 30: runproc ");
        line.append(decimal(id as u64).as_str());
        line
    };
    out.append(
        " -- resumed in kernel context (CR3 already restored by the exit syscall before this point)\n",
    );
    out
}

/// The report on the interrupts that came while a loaded process ran.
pub open spec fn excursion_text(timer: u64, keyboard: u64) -> Seq<char> {
    "diagnostic: interrupts during excursion -- timer="@ + decimal_text(timer as nat)
        + " keyboard="@ + decimal_text(keyboard as nat) + "\n"@
}

/// Reports on the interrupts that came while a loaded process ran.
pub fn excursion_report(timer: u64, keyboard: u64) -> (r: String)
    ensures
        r@ == excursion_text(timer, keyboard),
{
    let mut out = owned("diagnostic: interrupts during excursion -- timer=");
    out.append(decimal(timer).as_str());
    out.append(" keyboard=");
    out.append(decimal(keyboard).as_str());
    out.append("\n");
    out
}

/// The report on a run of the user program, before it and after it.
pub open spec fn usertest_text(run: u64, over: bool) -> Seq<char> {
    let head = "milestone 27: usertest run #"@ + decimal_text(run as nat);
    if over {
        head + " -- resumed in kernel context after ring-3 exit syscall\n"@
    } else {
        head + " -- entering ring 3 at "@ + address_text(USER_CODE_ADDR) + "\n"@
    }
}

/// Reports on a run of the user program, before it and after it. Runs are counted
/// from 1.
pub fn usertest_report(run: u64, over: bool) -> (r: String)
    ensures
        r@ == usertest_text(run, over),
{
    let mut out = owned("milestone 27: usertest run #");
    out.append(decimal(run).as_str());
    if over {
        out.append(" -- resumed in kernel context after ring-3 exit syscall\n");
    } else {
        out.append(" -- entering ring 3 at ");
        out.append(address(USER_CODE_ADDR).as_str());
        out.append("\n");
    }
    out
}

/// The report on the kernel's own page table.
pub open spec fn saved_table_text(frame: u64, flags: u64) -> Seq<char> {
    "milestone 30: saved kernel's own PML4 frame "@ + address_text(frame) + " (cr3 flags "@
        + address_text(flags) + ") for restore-on-exit\n"@
}

/// Reports that the kernel's own page table was remembered.
pub fn saved_table_report(frame: u64, flags: u64) -> (r: String)
    ensures
        r@ == saved_table_text(frame, flags),
{
    let mut out = owned("milestone 30: saved kernel's own PML4 frame ");
    out.append(address(frame).as_str());
    out.append(" (cr3 flags ");
    out.append(address(flags).as_str());
    out.append(") for restore-on-exit\n");
    out
}

/// A process that is there from the start, as reports call it.
pub open spec fn boot_process_text(id: u8) -> Seq<char> {
    if id == FDTEST_PROCESS_ID {
        "FDTEST_PROCESS"@
    } else if id == 1 {
        "process A"@
    } else {
        "process B"@
    }
}

fn boot_process_name(id: u8) -> (r: &'static str)
    ensures
        r@ == boot_process_text(id),
{
    if id == FDTEST_PROCESS_ID {
        "FDTEST_PROCESS"
    } else if id == 1 {
        "process A"
    } else {
        "process B"
    }
}

/// The report on a process that is there from the start, before it is built.
pub open spec fn creating_text(id: u8) -> Seq<char> {
    (if id == FDTEST_PROCESS_ID {
        "milestone 35: creating "@
    } else {
        "milestone 30: creating "@
    }) + boot_process_text(id) + "'s private address space...\n"@
}

/// Reports that a process that is there from the start is about to be built.
pub fn creating_report(id: u8) -> (r: String)
    requires
        id == 1 || id == 2 || id == FDTEST_PROCESS_ID,
    ensures
        r@ == creating_text(id),
{
    let mut out = if id == FDTEST_PROCESS_ID {
        owned("milestone 35: creating ")
    } else {
        owned("milestone 30: creating ")
    };
    out.append(boot_process_name(id));
    out.append("'s private address space...\n");
    out
}

/// The report on a process that is there from the start, once it was built.
pub open spec fn created_text(id: u8, pml4: u64, code: u64, stack: u64) -> Seq<char> {
    (if id == FDTEST_PROCESS_ID {
        "milestone 35: "@
    } else {
        "milestone 30: "@
    }) + boot_process_text(id) + " created -- pml4="@ + address_text(pml4) + " code="@
        + address_text(code) + " stack="@ + address_text(stack) + "\n"@
}

/// Reports that a process that is there from the start was built, of these frames.
pub fn created_report(id: u8, pml4: u64, code: u64, stack: u64) -> (r: String)
    requires
        id == 1 || id == 2 || id == FDTEST_PROCESS_ID,
    ensures
        r@ == created_text(id, pml4, code, stack),
{
    let mut out = if id == FDTEST_PROCESS_ID {
        owned("milestone 35: ")
    } else {
        owned("milestone 30: ")
    };
    out.append(boot_process_name(id));
    out.append(" created -- pml4=");
    out.append(address(pml4).as_str());
    out.append(" code=");
    out.append(address(code).as_str());
    out.append(" stack=");
    out.append(address(stack).as_str());
    out.append("\n");
    out
}

/// A report on a system call tells the privilege level that the processor recorded: the
/// last two bits of the code segment.
pub proof fn law_segment_report_tells_the_level(cs: u64)
    ensures
        ({
            let t = segment_text(cs);
            let level = t[t.len() - 2];
            &&& level == '0' <==> cs % 4 == 0
            &&& level == '1' <==> cs % 4 == 1
            &&& level == '2' <==> cs % 4 == 2
            &&& level == '3' <==> cs % 4 == 3
        }),
{
    reveal_strlit(")");
    let d = decimal_text((cs % 4) as nat);
    assert(d.len() == 1);
    let t = segment_text(cs);
    assert(t[t.len() - 2] == d[0]);
}

/// A report tells how many bytes a call was given: those it asked for, up to the most
/// that it may have.
pub proof fn law_reported_length_is_capped(len: u64, most: u64)
    ensures
        length_used(len, most) <= len,
        length_used(len, most) <= most,
        length_used(len, most) == len || length_used(len, most) == most,
{
}

proof fn lemma_address_tells(a: u64, b: u64)
    requires
        address_text(a) == address_text(b),
    ensures
        a == b,
{
    let none = Seq::<char>::empty();
    assert("0x"@ + short_hex_text(a as nat) + none == address_text(a));
    assert("0x"@ + short_hex_text(b as nat) + none == address_text(b));
    lemma_same_middle("0x"@, short_hex_text(a as nat), short_hex_text(b as nat), none);
    law_hexadecimal_reads_back(a as nat, 0);
    law_hexadecimal_reads_back(b as nat, 0);
}

proof fn lemma_decimal_tells(a: u64, b: u64)
    requires
        decimal_text(a as nat) == decimal_text(b as nat),
    ensures
        a == b,
{
    law_decimal_reads_back(a as nat, u64::MAX as nat);
    law_decimal_reads_back(b as nat, u64::MAX as nat);
}

/// Reports on page tables and frames tell them apart: where one of the numbers differs,
/// so does the report.
pub proof fn law_reports_tell_frames_apart(
    id: u8,
    label: Seq<char>,
    a: u64,
    b: u64,
    p: u64,
    q: u64,
)
    requires
        a != b,
    ensures
        created_text(id, a, p, q) != created_text(id, b, p, q),
        created_text(id, p, a, q) != created_text(id, p, b, q),
        created_text(id, p, q, a) != created_text(id, p, q, b),
        saved_table_text(a, p) != saved_table_text(b, p),
        saved_table_text(p, a) != saved_table_text(p, b),
        switch_text(id, label, a) != switch_text(id, label, b),
{
    let (x, y) = (address_text(a), address_text(b));
    let head = (if id == FDTEST_PROCESS_ID {
        "milestone 35: "@
    } else {
        "milestone 30: "@
    }) + boot_process_text(id) + " created -- pml4="@;
    if created_text(id, a, p, q) == created_text(id, b, p, q) {
        let rest = " code="@ + address_text(p) + " stack="@ + address_text(q) + "\n"@;
        assert(created_text(id, a, p, q) == head + x + rest);
        assert(created_text(id, b, p, q) == head + y + rest);
        lemma_same_middle(head, x, y, rest);
        lemma_address_tells(a, b);
    }
    if created_text(id, p, a, q) == created_text(id, p, b, q) {
        let front = head + address_text(p) + " code="@;
        let rest = " stack="@ + address_text(q) + "\n"@;
        assert(created_text(id, p, a, q) == front + x + rest);
        assert(created_text(id, p, b, q) == front + y + rest);
        lemma_same_middle(front, x, y, rest);
        lemma_address_tells(a, b);
    }
    if created_text(id, p, q, a) == created_text(id, p, q, b) {
        let front = head + address_text(p) + " code="@ + address_text(q) + " stack="@;
        lemma_same_middle(front, x, y, "\n"@);
        lemma_address_tells(a, b);
    }
    let saved = "milestone 30: saved kernel's own PML4 frame "@;
    if saved_table_text(a, p) == saved_table_text(b, p) {
        let rest = " (cr3 flags "@ + address_text(p) + ") for restore-on-exit\n"@;
        assert(saved_table_text(a, p) == saved + x + rest);
        assert(saved_table_text(b, p) == saved + y + rest);
        lemma_same_middle(saved, x, y, rest);
        lemma_address_tells(a, b);
    }
    if saved_table_text(p, a) == saved_table_text(p, b) {
        let front = saved + address_text(p) + " (cr3 flags "@;
        lemma_same_middle(front, x, y, ") for restore-on-exit\n"@);
        lemma_address_tells(a, b);
    }
    if switch_text(id, label, a) == switch_text(id, label, b) {
        let front = if id == LOADED_PROCESS_ID {
            "milestone 34: loaded process -- about to switch CR3 to pml4 "@
        } else {
            "milestone 30: runproc "@ + decimal_text(id as nat) + " (process "@ + label
                + ") -- about to switch CR3 to process pml4 "@
        };
        lemma_same_middle(front, x, y, "\n"@);
        lemma_address_tells(a, b);
    }
}

/// Reports that count tell the counts apart.
pub proof fn law_reports_tell_counts_apart(a: u64, b: u64, p: u64, over: bool)
    requires
        a != b,
    ensures
        excursion_text(a, p) != excursion_text(b, p),
        excursion_text(p, a) != excursion_text(p, b),
        usertest_text(a, over) != usertest_text(b, over),
{
    let (x, y) = (decimal_text(a as nat), decimal_text(b as nat));
    let head = "diagnostic: interrupts during excursion -- timer="@;
    if excursion_text(a, p) == excursion_text(b, p) {
        let rest = " keyboard="@ + decimal_text(p as nat) + "\n"@;
        assert(excursion_text(a, p) == head + x + rest);
        assert(excursion_text(b, p) == head + y + rest);
        lemma_same_middle(head, x, y, rest);
        lemma_decimal_tells(a, b);
    }
    if excursion_text(p, a) == excursion_text(p, b) {
        lemma_same_middle(head + decimal_text(p as nat) + " keyboard="@, x, y, "\n"@);
        lemma_decimal_tells(a, b);
    }
    if usertest_text(a, over) == usertest_text(b, over) {
        let run = "milestone 27: usertest run #"@;
        let rest = if over {
            " -- resumed in kernel context after ring-3 exit syscall\n"@
        } else {
            " -- entering ring 3 at "@ + address_text(USER_CODE_ADDR) + "\n"@
        };
        assert(usertest_text(a, over) == run + x + rest);
        assert(usertest_text(b, over) == run + y + rest);
        lemma_same_middle(run, x, y, rest);
        lemma_decimal_tells(a, b);
    }
}

} // verus!
