pub mod fs;
pub mod fs_calls;
pub mod misc;
pub mod process;

use vstd::prelude::*;

verus! {

pub const SYS_READ: u64 = 0;

pub const SYS_WRITE: u64 = 1;

pub const SYS_OPEN: u64 = 2;

pub const SYS_CLOSE: u64 = 3;

pub const SYS_STAT: u64 = 4;

pub const SYS_FSTAT: u64 = 5;

pub const SYS_POLL: u64 = 7;

pub const SYS_LSEEK: u64 = 8;

pub const SYS_PIPE: u64 = 22;

pub const SYS_NANOSLEEP: u64 = 35;

pub const SYS_GETPID: u64 = 39;

pub const SYS_EXECVE: u64 = 59;

pub const SYS_EXIT: u64 = 60;

pub const SYS_WAIT4: u64 = 61;

pub const SYS_KILL: u64 = 62;

pub const SYS_GETDENTS: u64 = 78;

pub const SYS_CHDIR: u64 = 80;

pub const SYS_RENAME: u64 = 82;

pub const SYS_MKDIR: u64 = 83;

pub const SYS_RMDIR: u64 = 84;

pub const SYS_CREATE: u64 = 85;

pub const SYS_UNLINK: u64 = 87;

pub const SYS_ADD_WINDOW: u64 = 100;

pub const SYS_REMOVE_WINDOW: u64 = 101;

pub const SYS_UPDATE_WINDOW: u64 = 102;

pub const SYS_UPDATE_WINDOW_AREA: u64 = 103;

pub const SYS_GET_EVENTS: u64 = 104;

pub const SYS_GET_MOUSE: u64 = 105;

pub const SYS_GET_SCREEN_WIDTH: u64 = 106;

pub const SYS_GET_SCREEN_HEIGHT: u64 = 107;

pub const SYS_GET_TIME: u64 = 108;

pub const SYS_GET_TICKS: u64 = 109;

pub const SYS_GET_PROCESS_LIST: u64 = 110;

pub const SYS_GET_PROCESS_MEM: u64 = 111;

pub const SYS_MALLOC: u64 = 112;

pub const SYS_FREE: u64 = 113;

pub const SYS_DEBUG_PRINT: u64 = 9;

pub const SYS_MOUNT: u64 = 165;

/// What a system call number asks the kernel to do.
#[derive(Debug, Clone, Copy, PartialEq, Eq, Structural)]
pub enum Syscall {
    ReadFile,
    WriteFile,
    Open,
    Close,
    FileSize,
    Poll,
    Seek,
    Pipe,
    Sleep,
    Spawn,
    Exit,
    WaitPid,
    Kill,
    ReadDir,
    Chdir,
    Rename,
    CreateDir,
    CreateFile,
    Remove,
    AddWindow,
    UpdateWindow,
    UpdateWindowArea,
    GetEvents,
    GetWidth,
    GetHeight,
    GetMouse,
    Time,
    Ticks,
    ProcessList,
    ProcessMem,
    Malloc,
    Free,
    DebugPrint,
    Mount,
    /// Numbers 10 to 12: accepted and answered with zero.
    Ignored,
    /// Any other number: answered with `u64::MAX`.
    Unknown,
}

/// The request system call number `num` makes.
pub open spec fn syscall_of(num: u64) -> Syscall {
    if num == SYS_READ {
        Syscall::ReadFile
    } else if num == SYS_WRITE {
        Syscall::WriteFile
    } else if num == SYS_OPEN {
        Syscall::Open
    } else if num == SYS_CLOSE {
        Syscall::Close
    } else if num == SYS_STAT {
        Syscall::FileSize
    } else if num == SYS_FSTAT {
        Syscall::FileSize
    } else if num == SYS_POLL {
        Syscall::Poll
    } else if num == SYS_LSEEK {
        Syscall::Seek
    } else if num == SYS_PIPE {
        Syscall::Pipe
    } else if num == SYS_NANOSLEEP {
        Syscall::Sleep
    } else if num == SYS_EXECVE {
        Syscall::Spawn
    } else if num == SYS_EXIT {
        Syscall::Exit
    } else if num == SYS_WAIT4 {
        Syscall::WaitPid
    } else if num == SYS_KILL {
        Syscall::Kill
    } else if num == SYS_GETDENTS {
        Syscall::ReadDir
    } else if num == SYS_CHDIR {
        Syscall::Chdir
    } else if num == SYS_RENAME {
        Syscall::Rename
    } else if num == SYS_MKDIR {
        Syscall::CreateDir
    } else if num == SYS_CREATE {
        Syscall::CreateFile
    } else if num == SYS_RMDIR {
        Syscall::Remove
    } else if num == SYS_UNLINK {
        Syscall::Remove
    } else if num == SYS_ADD_WINDOW {
        Syscall::AddWindow
    } else if num == SYS_UPDATE_WINDOW {
        Syscall::UpdateWindow
    } else if num == SYS_UPDATE_WINDOW_AREA {
        Syscall::UpdateWindowArea
    } else if num == SYS_GET_EVENTS {
        Syscall::GetEvents
    } else if num == SYS_GET_SCREEN_WIDTH {
        Syscall::GetWidth
    } else if num == SYS_GET_SCREEN_HEIGHT {
        Syscall::GetHeight
    } else if num == SYS_GET_MOUSE {
        Syscall::GetMouse
    } else if num == SYS_GET_TIME {
        Syscall::Time
    } else if num == SYS_GET_TICKS {
        Syscall::Ticks
    } else if num == SYS_GET_PROCESS_LIST {
        Syscall::ProcessList
    } else if num == SYS_GET_PROCESS_MEM {
        Syscall::ProcessMem
    } else if num == SYS_MALLOC {
        Syscall::Malloc
    } else if num == SYS_FREE {
        Syscall::Free
    } else if num == SYS_DEBUG_PRINT {
        Syscall::DebugPrint
    } else if num == SYS_MOUNT {
        Syscall::Mount
    } else if 10 <= num <= 12 {
        Syscall::Ignored
    } else {
        Syscall::Unknown
    }
}

/// Decodes system call number `num` into the request the dispatcher serves.
pub fn decode_syscall(num: u64) -> (r: Syscall)
    ensures
        r == syscall_of(num),
{
    if num == SYS_READ {
        Syscall::ReadFile
    } else if num == SYS_WRITE {
        Syscall::WriteFile
    } else if num == SYS_OPEN {
        Syscall::Open
    } else if num == SYS_CLOSE {
        Syscall::Close
    } else if num == SYS_STAT {
        Syscall::FileSize
    } else if num == SYS_FSTAT {
        Syscall::FileSize
    } else if num == SYS_POLL {
        Syscall::Poll
    } else if num == SYS_LSEEK {
        Syscall::Seek
    } else if num == SYS_PIPE {
        Syscall::Pipe
    } else if num == SYS_NANOSLEEP {
        Syscall::Sleep
    } else if num == SYS_EXECVE {
        Syscall::Spawn
    } else if num == SYS_EXIT {
        Syscall::Exit
    } else if num == SYS_WAIT4 {
        Syscall::WaitPid
    } else if num == SYS_KILL {
        Syscall::Kill
    } else if num == SYS_GETDENTS {
        Syscall::ReadDir
    } else if num == SYS_CHDIR {
        Syscall::Chdir
    } else if num == SYS_RENAME {
        Syscall::Rename
    } else if num == SYS_MKDIR {
        Syscall::CreateDir
    } else if num == SYS_CREATE {
        Syscall::CreateFile
    } else if num == SYS_RMDIR {
        Syscall::Remove
    } else if num == SYS_UNLINK {
        Syscall::Remove
    } else if num == SYS_ADD_WINDOW {
        Syscall::AddWindow
    } else if num == SYS_UPDATE_WINDOW {
        Syscall::UpdateWindow
    } else if num == SYS_UPDATE_WINDOW_AREA {
        Syscall::UpdateWindowArea
    } else if num == SYS_GET_EVENTS {
        Syscall::GetEvents
    } else if num == SYS_GET_SCREEN_WIDTH {
        Syscall::GetWidth
    } else if num == SYS_GET_SCREEN_HEIGHT {
        Syscall::GetHeight
    } else if num == SYS_GET_MOUSE {
        Syscall::GetMouse
    } else if num == SYS_GET_TIME {
        Syscall::Time
    } else if num == SYS_GET_TICKS {
        Syscall::Ticks
    } else if num == SYS_GET_PROCESS_LIST {
        Syscall::ProcessList
    } else if num == SYS_GET_PROCESS_MEM {
        Syscall::ProcessMem
    } else if num == SYS_MALLOC {
        Syscall::Malloc
    } else if num == SYS_FREE {
        Syscall::Free
    } else if num == SYS_DEBUG_PRINT {
        Syscall::DebugPrint
    } else if num == SYS_MOUNT {
        Syscall::Mount
    } else if 10 <= num && num <= 12 {
        Syscall::Ignored
    } else {
        Syscall::Unknown
    }
}


/// One entry of a `poll` request.
#[derive(Debug, Clone, Copy)]
pub struct PollFd {
    pub fd: i32,
    pub events: i16,
    pub revents: i16,
}

pub const POLLIN: i16 = 0x001;

pub const POLLOUT: i16 = 0x004;

pub const POLLERR: i16 = 0x008;

pub const POLLNVAL: i16 = 0x020;


/// What the dispatcher answers without a handler: 0 for mount and for numbers 10 to 12,
/// `u64::MAX` for a number it does not know; `None` where a handler gives the answer.
pub open spec fn fixed_answer(s: Syscall) -> Option<u64> {
    match s {
        Syscall::Mount => Some(0),
        Syscall::Ignored => Some(0),
        Syscall::Unknown => Some(0xFFFF_FFFF_FFFF_FFFF),
        _ => None,
    }
}

/// Decodes system call `num` and gives the answer the dispatcher returns by itself, if any.
pub fn dispatch_answer(num: u64) -> (r: (Syscall, Option<u64>))
    ensures
        r.0 == syscall_of(num),
        r.1 == fixed_answer(syscall_of(num)),
{
    let s = decode_syscall(num);
    let a = match s {
        Syscall::Mount => Some(0),
        Syscall::Ignored => Some(0),
        Syscall::Unknown => Some(0xFFFF_FFFF_FFFF_FFFF),
        _ => None,
    };
    (s, a)
}


/// Whether call number `n` is one the dispatcher serves: a named call or 10 to 12.
pub open spec fn served(n: u64) -> bool {
    n == SYS_READ
        || n == SYS_WRITE
        || n == SYS_OPEN
        || n == SYS_CLOSE
        || n == SYS_STAT
        || n == SYS_FSTAT
        || n == SYS_POLL
        || n == SYS_LSEEK
        || n == SYS_PIPE
        || n == SYS_NANOSLEEP
        || n == SYS_EXECVE
        || n == SYS_EXIT
        || n == SYS_WAIT4
        || n == SYS_KILL
        || n == SYS_GETDENTS
        || n == SYS_CHDIR
        || n == SYS_RENAME
        || n == SYS_MKDIR
        || n == SYS_CREATE
        || n == SYS_RMDIR
        || n == SYS_UNLINK
        || n == SYS_ADD_WINDOW
        || n == SYS_UPDATE_WINDOW
        || n == SYS_UPDATE_WINDOW_AREA
        || n == SYS_GET_EVENTS
        || n == SYS_GET_SCREEN_WIDTH
        || n == SYS_GET_SCREEN_HEIGHT
        || n == SYS_GET_MOUSE
        || n == SYS_GET_TIME
        || n == SYS_GET_TICKS
        || n == SYS_GET_PROCESS_LIST
        || n == SYS_GET_PROCESS_MEM
        || n == SYS_MALLOC
        || n == SYS_FREE
        || n == SYS_DEBUG_PRINT
        || n == SYS_MOUNT
        || (10 <= n <= 12)
}

/// The call numbers that reach each request, as the dispatcher's table lists them by
/// request: each named request is reached by its own number (two for the file size and
/// remove requests), `Ignored` by 10 to 12, and `Unknown` by every number not served.
pub open spec fn reaches(n: u64, r: Syscall) -> bool {
    match r {
        Syscall::ReadFile => n == SYS_READ,
        Syscall::WriteFile => n == SYS_WRITE,
        Syscall::Open => n == SYS_OPEN,
        Syscall::Close => n == SYS_CLOSE,
        Syscall::FileSize => n == SYS_STAT || n == SYS_FSTAT,
        Syscall::Poll => n == SYS_POLL,
        Syscall::Seek => n == SYS_LSEEK,
        Syscall::Pipe => n == SYS_PIPE,
        Syscall::Sleep => n == SYS_NANOSLEEP,
        Syscall::Spawn => n == SYS_EXECVE,
        Syscall::Exit => n == SYS_EXIT,
        Syscall::WaitPid => n == SYS_WAIT4,
        Syscall::Kill => n == SYS_KILL,
        Syscall::ReadDir => n == SYS_GETDENTS,
        Syscall::Chdir => n == SYS_CHDIR,
        Syscall::Rename => n == SYS_RENAME,
        Syscall::CreateDir => n == SYS_MKDIR,
        Syscall::CreateFile => n == SYS_CREATE,
        Syscall::Remove => n == SYS_RMDIR || n == SYS_UNLINK,
        Syscall::AddWindow => n == SYS_ADD_WINDOW,
        Syscall::UpdateWindow => n == SYS_UPDATE_WINDOW,
        Syscall::UpdateWindowArea => n == SYS_UPDATE_WINDOW_AREA,
        Syscall::GetEvents => n == SYS_GET_EVENTS,
        Syscall::GetWidth => n == SYS_GET_SCREEN_WIDTH,
        Syscall::GetHeight => n == SYS_GET_SCREEN_HEIGHT,
        Syscall::GetMouse => n == SYS_GET_MOUSE,
        Syscall::Time => n == SYS_GET_TIME,
        Syscall::Ticks => n == SYS_GET_TICKS,
        Syscall::ProcessList => n == SYS_GET_PROCESS_LIST,
        Syscall::ProcessMem => n == SYS_GET_PROCESS_MEM,
        Syscall::Malloc => n == SYS_MALLOC,
        Syscall::Free => n == SYS_FREE,
        Syscall::DebugPrint => n == SYS_DEBUG_PRINT,
        Syscall::Mount => n == SYS_MOUNT,
        Syscall::Ignored => 10 <= n <= 12,
        Syscall::Unknown => !served(n),
    }
}

/// Decoding sends every number to exactly the request whose numbers include it: a named
/// call number decodes to its own request (close to `Close`, and so on), and only numbers
/// outside the served set decode to `Unknown`, which the dispatcher answers with all ones.
pub proof fn lemma_decode_reaches(n: u64, r: Syscall)
    ensures
        syscall_of(n) == r <==> reaches(n, r),
        syscall_of(n) == Syscall::Unknown <==> !served(n),
        fixed_answer(syscall_of(n)) == Some(0xFFFF_FFFF_FFFF_FFFFu64) <==> !served(n),
        fixed_answer(syscall_of(n)) == Some(0u64) <==> (n == SYS_MOUNT || 10 <= n <= 12),
        fixed_answer(syscall_of(n)) is None <==> (served(n) && n != SYS_MOUNT && !(10 <= n <= 12)),
{
}

} // verus!
