use vstd::prelude::*;
use crate::fs::disk::BlockDevice;
use crate::fs::vfs::{Vfs, FileHandle, MAX_LOCAL_FDS, MAX_OPEN_FILES};
use crate::fs::ext2::listing::{lossy_name, lossy_text};
use crate::text::{chars_of, push_char};
use crate::fs::vfs::{VfsError, DirOp};
use crate::fs::ext2::node::{Ext2Node, kind_of_mode};
use crate::fs::vfs::FileType;
use crate::interrupts::syscalls::fs::{resolve_path, resolved_path, disk_and_path, first_slash, disk_id_of};

verus! {

/// What a call answers when it fails.
pub const FAILED: u64 = 0xFFFF_FFFF_FFFF_FFFF;

/// Descriptor `fd` of a process's table, when the table has one.
pub open spec fn local_entry(fds: Seq<i16>, fd: usize) -> Option<i16> {
    if fd < MAX_LOCAL_FDS {
        Some(fds[fd as int])
    } else {
        None
    }
}

/// Descriptor `fd` names global slot `g`.
pub open spec fn names_slot(fds: Seq<i16>, fd: usize, g: int) -> bool {
    local_entry(fds, fd) matches Some(v) && v >= 0 && v == g
}

/// Looks descriptor `fd` up: the global slot it names, or `None` when it names none.
fn global_of(fds: &Vec<i16>, fd: usize) -> (r: Option<usize>)
    requires
        fds@.len() == MAX_LOCAL_FDS,
    ensures
        match r {
            Some(g) => names_slot(fds@, fd, g as int),
            None => !(local_entry(fds@, fd) matches Some(v) && v >= 0),
        },
{
    if fd < MAX_LOCAL_FDS {
        let v = fds[fd];
        if v >= 0 {
            return Some(v as usize);
        }
    }
    None
}

/// Where a read of a file descriptor comes from: the keyboard (descriptor 0 when it names
/// no open file), or the file layer with the count read or `FAILED`.
pub enum FileRead {
    Keyboard,
    Done(u64),
}

/// The answer a transfer of `r` bytes gives.
pub open spec fn count_answer(r: Option<usize>) -> u64 {
    match r {
        Some(n) => n as u64,
        None => FAILED,
    }
}

/// Reads from descriptor `local_fd` into `buf`. A descriptor naming no open file reads the
/// keyboard when it is 0 and fails otherwise; an open file or pipe is read as `read_fd` says.
pub fn handle_read_file<D: BlockDevice>(vfs: &mut Vfs<D>, fds: &Vec<i16>, local_fd: usize, buf: &mut [u8]) -> (r: FileRead)
    requires
        old(vfs).wf(),
        fds@.len() == MAX_LOCAL_FDS,
    ensures
        final(vfs).wf(),
        final(buf)@.len() == old(buf)@.len(),
        match local_entry(fds@, local_fd) {
            Some(v) if v >= 0 => exists|n: Option<usize>|
                #[trigger] old(vfs).read_effect(final(vfs), v as int, old(buf)@, final(buf)@, n) && r == FileRead::Done(count_answer(n))
                    && final(vfs).others_kept(old(vfs), v as int),
            Some(v) if v == -1 && local_fd == 0 => r == FileRead::Keyboard && *final(vfs) == *old(vfs) && final(buf)@ == old(buf)@,
            _ => r == FileRead::Done(FAILED) && *final(vfs) == *old(vfs) && final(buf)@ == old(buf)@,
        },
{
    if local_fd < MAX_LOCAL_FDS && fds[local_fd] == -1 && local_fd == 0 {
        return FileRead::Keyboard;
    }
    match global_of(fds, local_fd) {
        Some(g) => {
            let n = vfs.read_fd(g, buf);
            let ans = match n {
                Some(k) => k as u64,
                None => FAILED,
            };
            proof {
                assert(old(vfs).read_effect(final(vfs), g as int, old(buf)@, final(buf)@, n));
            }
            FileRead::Done(ans)
        },
        None => FileRead::Done(FAILED),
    }
}

/// The answer a write that returned `r` gives.
pub open spec fn write_answer(r: Option<Result<usize, crate::fs::vfs::VfsError>>) -> u64 {
    match r {
        Some(Ok(n)) => n as u64,
        _ => FAILED,
    }
}

/// Writes `buf` to descriptor `local_fd`. Descriptors 1 and 2 naming no open file take it
/// all (the console); an open file or pipe is written as `write_fd` says.
pub fn handle_write_file<D: BlockDevice>(vfs: &mut Vfs<D>, fds: &Vec<i16>, local_fd: usize, buf: &[u8]) -> (r: u64)
    requires
        old(vfs).wf(),
        fds@.len() == MAX_LOCAL_FDS,
    ensures
        final(vfs).wf(),
        match local_entry(fds@, local_fd) {
            Some(v) if v >= 0 => exists|w: Option<Result<usize, crate::fs::vfs::VfsError>>|
                #[trigger] old(vfs).write_effect(final(vfs), v as int, buf@, w) && r == write_answer(w) && final(vfs).others_kept(old(vfs), v as int),
            Some(v) if v == -1 && (local_fd == 1 || local_fd == 2) => r == buf@.len() && *final(vfs) == *old(vfs),
            _ => r == FAILED && *final(vfs) == *old(vfs),
        },
{
    if local_fd < MAX_LOCAL_FDS && fds[local_fd] == -1 && (local_fd == 1 || local_fd == 2) {
        return buf.len() as u64;
    }
    match global_of(fds, local_fd) {
        Some(g) => {
            let w = vfs.write_fd(g, buf);
            proof {
                assert(old(vfs).write_effect(final(vfs), g as int, buf@, w));
            }
            match w {
                Some(Ok(n)) => n as u64,
                _ => FAILED,
            }
        },
        None => FAILED,
    }
}

/// The answer a listing that returned `r` gives: the bytes written.
pub open spec fn list_answer(r: Option<Result<(usize, usize), crate::fs::vfs::VfsError>>) -> u64 {
    match r {
        Some(Ok((bw, _))) => bw as u64,
        _ => FAILED,
    }
}

/// Lists the directory open as descriptor `local_fd` into `buf`, as `read_dir_fd` says;
/// answers the bytes written.
pub fn handle_read_dir<D: BlockDevice>(vfs: &mut Vfs<D>, fds: &Vec<i16>, local_fd: usize, buf: &mut [u8]) -> (r: u64)
    requires
        old(vfs).wf(),
        fds@.len() == MAX_LOCAL_FDS,
    ensures
        final(vfs).wf(),
        final(buf)@.len() == old(buf)@.len(),
        match local_entry(fds@, local_fd) {
            Some(v) if v >= 0 => exists|w: Option<Result<(usize, usize), crate::fs::vfs::VfsError>>|
                #[trigger] old(vfs).list_effect(final(vfs), v as int, old(buf)@, final(buf)@, w) && r == list_answer(w)
                    && final(vfs).others_kept(old(vfs), v as int),
            _ => r == FAILED && *final(vfs) == *old(vfs) && final(buf)@ == old(buf)@,
        },
{
    match global_of(fds, local_fd) {
        Some(g) => {
            let w = vfs.read_dir_fd(g, buf);
            proof {
                assert(old(vfs).list_effect(final(vfs), g as int, old(buf)@, final(buf)@, w));
            }
            match w {
                Some(Ok((bw, _))) => bw as u64,
                _ => FAILED,
            }
        },
        None => FAILED,
    }
}

/// Moves the offset of the file open as descriptor `local_fd`, as `seek_fd` says; answers
/// the new offset.
pub fn handle_seek<D: BlockDevice>(vfs: &mut Vfs<D>, fds: &Vec<i16>, local_fd: usize, offset: i64, whence: usize) -> (r: u64)
    requires
        old(vfs).wf(),
        fds@.len() == MAX_LOCAL_FDS,
    ensures
        final(vfs).wf(),
        match local_entry(fds@, local_fd) {
            Some(v) if v >= 0 => exists|t: Option<u64>|
                #[trigger] old(vfs).seek_effect(final(vfs), v as int, offset, whence, t) && r == match t {
                    Some(x) => x,
                    None => FAILED,
                } && final(vfs).others_kept(old(vfs), v as int),
            _ => r == FAILED && *final(vfs) == *old(vfs),
        },
{
    match global_of(fds, local_fd) {
        Some(g) => {
            let t = vfs.seek_fd(g, offset, whence);
            proof {
                assert(old(vfs).seek_effect(final(vfs), g as int, offset, whence, t));
            }
            match t {
                Some(x) => x,
                None => FAILED,
            }
        },
        None => FAILED,
    }
}

/// The size of what slot `g` holds: a file's size, 0 for a pipe, `FAILED` for nothing.
pub open spec fn size_answer<D: BlockDevice>(vfs: &Vfs<D>, g: int) -> u64 {
    match vfs.handle_at(g) {
        Some(FileHandle::File { node, .. }) => node.inode.size as u64,
        Some(FileHandle::Pipe { .. }) => 0,
        None => FAILED,
    }
}

/// The size of what descriptor `local_fd` has open.
pub fn stat_fd<D: BlockDevice>(vfs: &Vfs<D>, fds: &Vec<i16>, local_fd: usize) -> (r: u64)
    requires
        vfs.wf(),
        fds@.len() == MAX_LOCAL_FDS,
    ensures
        r == match local_entry(fds@, local_fd) {
            Some(v) if v >= 0 => size_answer(vfs, v as int),
            _ => FAILED,
        },
{
    match global_of(fds, local_fd) {
        Some(g) => match vfs.get_file(g) {
            Some(FileHandle::File { node, .. }) => node.size(),
            Some(FileHandle::Pipe { .. }) => 0,
            None => FAILED,
        },
        None => FAILED,
    }
}

/// Closes descriptor `local_fd`: it names no open file afterwards and the global slot it
/// named loses a reference (`close_file`). Fails when it named nothing.
pub fn handle_close<D: BlockDevice>(vfs: &mut Vfs<D>, fds: &mut Vec<i16>, local_fd: usize) -> (r: u64)
    requires
        old(vfs).wf(),
        old(fds)@.len() == MAX_LOCAL_FDS,
    ensures
        final(vfs).wf(),
        final(fds)@.len() == MAX_LOCAL_FDS,
        match local_entry(old(fds)@, local_fd) {
            Some(v) if v != -1 => {
                &&& r == 0
                &&& final(fds)@ == old(fds)@.update(local_fd as int, -1i16)
                &&& v >= 0 ==> old(vfs).close_effect(final(vfs), v as int)
                &&& v < 0 ==> *final(vfs) == *old(vfs)
            },
            _ => r == FAILED && *final(vfs) == *old(vfs) && final(fds)@ == old(fds)@,
        },
{
    if local_fd >= MAX_LOCAL_FDS {
        return FAILED;
    }
    let v = fds[local_fd];
    if v == -1 {
        return FAILED;
    }
    if v >= 0 {
        vfs.close_file(v as usize);
    }
    fds.set(local_fd, -1);
    0
}

/// The terminal size a process reports.
pub struct WinSize {
    pub ws_row: u16,
    pub ws_col: u16,
    pub ws_xpixel: u16,
    pub ws_ypixel: u16,
}

/// Asks for the terminal size.
pub const TIOCGWINSZ: u64 = 0x5413;

/// Sets the terminal size.
pub const TIOCSWINSZ: u64 = 0x5414;

/// The terminal requests: `TIOCGWINSZ` fills `arg` from the process's size (no pixel
/// sizes), `TIOCSWINSZ` sets the process's size from `arg`; any other request fails.
pub fn handle_ioctl(request: u64, rows: &mut u16, cols: &mut u16, arg: &mut WinSize) -> (r: u64)
    ensures
        request == TIOCGWINSZ ==> {
            &&& r == 0
            &&& final(arg).ws_row == *old(rows) && final(arg).ws_col == *old(cols)
            &&& final(arg).ws_xpixel == 0 && final(arg).ws_ypixel == 0
            &&& *final(rows) == *old(rows) && *final(cols) == *old(cols)
        },
        request == TIOCSWINSZ ==> {
            &&& r == 0
            &&& *final(rows) == old(arg).ws_row && *final(cols) == old(arg).ws_col
            &&& *final(arg) == *old(arg)
        },
        request != TIOCGWINSZ && request != TIOCSWINSZ ==> r == FAILED && *final(rows) == *old(rows) && *final(cols) == *old(cols)
            && *final(arg) == *old(arg),
{
    if request == TIOCGWINSZ {
        arg.ws_row = *rows;
        arg.ws_col = *cols;
        arg.ws_xpixel = 0;
        arg.ws_ypixel = 0;
        0
    } else if request == TIOCSWINSZ {
        *rows = arg.ws_row;
        *cols = arg.ws_col;
        0
    } else {
        FAILED
    }
}


/// Where the NUL-padded bytes `b` end: the first zero byte, or the length.
pub open spec fn nul_end(b: Seq<u8>) -> int {
    if exists|i: int| 0 <= i < b.len() && b[i] == 0 {
        choose|i: int| 0 <= i < b.len() && b[i] == 0 && forall|j: int| 0 <= j < i ==> #[trigger] b[j] != 0
    } else {
        b.len() as int
    }
}

/// The working directory that NUL-padded bytes name: the bytes before the first NUL, decoded
/// as `String::from_utf8_lossy` does.
pub open spec fn cwd_of(b: Seq<u8>) -> Seq<char> {
    lossy_text(b.take(nul_end(b)))
}

/// Finds where NUL-padded bytes end.
fn find_nul(b: &[u8]) -> (k: usize)
    ensures
        k == nul_end(b@),
        k <= b@.len(),
{
    let n = b.len();
    let mut k: usize = 0;
    while k < n && b[k] != 0
        invariant
            n == b@.len(),
            k <= n,
            forall|j: int| 0 <= j < k ==> #[trigger] b@[j] != 0,
        decreases n - k,
    {
        k += 1;
    }
    proof {
        if k < n {
            assert(exists|i: int| 0 <= i < b@.len() && b@[i] == 0);
            let c = nul_end(b@);
            if c < k {
                assert(b@[c] != 0);
            }
            if c > k {
                assert(b@[k as int] == 0);
            }
        }
    }
    k
}

/// The working directory a process keeps as NUL-padded bytes.
pub fn cwd_text(cwd: &[u8]) -> (s: String)
    ensures
        s@ == cwd_of(cwd@),
{
    let k = find_nul(cwd);
    let mut v: Vec<u8> = Vec::new();
    let mut i: usize = 0;
    while i < k
        invariant
            k == nul_end(cwd@),
            k <= cwd@.len(),
            i <= k,
            v@ == cwd@.take(i as int),
        decreases k - i,
    {
        v.push(cwd[i]);
        i += 1;
        proof {
            assert(v@ =~= cwd@.take(i as int));
        }
    }
    lossy_name(v.as_slice())
}

/// `cs` without its leading NUL characters.
pub open spec fn trim_front(cs: Seq<char>) -> Seq<char>
    decreases cs.len(),
{
    if cs.len() > 0 && cs[0] == '\0' {
        trim_front(cs.drop_first())
    } else {
        cs
    }
}

/// `cs` without its trailing NUL characters.
pub open spec fn trim_back(cs: Seq<char>) -> Seq<char>
    decreases cs.len(),
{
    if cs.len() > 0 && cs.last() == '\0' {
        trim_back(cs.drop_last())
    } else {
        cs
    }
}

proof fn lemma_trim_front(cs: Seq<char>, i: int)
    requires
        0 <= i <= cs.len(),
        forall|j: int| 0 <= j < i ==> #[trigger] cs[j] == '\0',
    ensures
        trim_front(cs) == trim_front(cs.subrange(i, cs.len() as int)),
    decreases i,
{
    if i > 0 {
        assert(cs.drop_first().subrange(i - 1, cs.drop_first().len() as int) =~= cs.subrange(i, cs.len() as int));
        lemma_trim_front(cs.drop_first(), i - 1);
    } else {
        assert(cs.subrange(0, cs.len() as int) =~= cs);
    }
}

proof fn lemma_trim_back(cs: Seq<char>, i: int, j: int)
    requires
        0 <= i <= j <= cs.len(),
        forall|k: int| j <= k < cs.len() ==> #[trigger] cs[k] == '\0',
    ensures
        trim_back(cs.subrange(i, cs.len() as int)) == trim_back(cs.subrange(i, j)),
    decreases cs.len() - j,
{
    if j < cs.len() {
        let t = cs.subrange(i, cs.len() as int);
        assert(t.drop_last() =~= cs.drop_last().subrange(i, cs.drop_last().len() as int));
        lemma_trim_back(cs.drop_last(), i, j);
        assert(cs.drop_last().subrange(i, j) =~= cs.subrange(i, j));
    }
}

/// Text from a process's buffer: the bytes decoded as `String::from_utf8_lossy` does, with
/// NUL characters trimmed from both ends.
pub fn copy_string_from_user(bytes: &[u8]) -> (s: String)
    ensures
        s@ == trim_back(trim_front(lossy_text(bytes@))),
{
    let raw = lossy_name(bytes);
    let cs = chars_of(raw.as_str());
    let n = cs.len();
    let mut i: usize = 0;
    while i < n && cs[i] == '\0'
        invariant
            n == cs@.len(),
            i <= n,
            forall|j: int| 0 <= j < i ==> #[trigger] cs@[j] == '\0',
        decreases n - i,
    {
        i += 1;
    }
    let mut j: usize = n;
    while j > i && cs[j - 1] == '\0'
        invariant
            n == cs@.len(),
            i <= j <= n,
            forall|k: int| j <= k < n ==> #[trigger] cs@[k] == '\0',
        decreases j,
    {
        j -= 1;
    }
    proof {
        lemma_trim_front(cs@, i as int);
        lemma_trim_back(cs@, i as int, j as int);
        let t = cs@.subrange(i as int, n as int);
        assert(trim_front(t) == t);
        let u = cs@.subrange(i as int, j as int);
        assert(trim_back(u) == u);
    }
    let mut out = String::new();
    let mut k: usize = i;
    while k < j
        invariant
            i <= k <= j <= n,
            n == cs@.len(),
            out@ == cs@.subrange(i as int, k as int),
        decreases j - k,
    {
        push_char(&mut out, cs[k]);
        k += 1;
        proof {
            assert(out@ =~= cs@.subrange(i as int, k as int));
        }
    }
    out
}


/// The disk a resolved path names.
pub open spec fn target_disk(s: Seq<char>) -> u8 {
    disk_id_of(s.subrange(1, first_slash(s)))
}

/// A resolved path after its first '/': the path on its disk.
pub open spec fn target_rest(s: Seq<char>) -> Seq<char> {
    let k = first_slash(s);
    if k < s.len() {
        s.subrange(k + 1, s.len() as int)
    } else {
        Seq::empty()
    }
}

/// A resolved path whose first character can be stepped over: there is one, it is ASCII
/// and it is not '/'.
pub open spec fn resolvable(s: Seq<char>) -> bool {
    &&& s.len() > 0
    &&& s[0] != '/'
    &&& (s[0] as int) < 128
}

/// A resolved path that names its disk with '@'.
pub open spec fn disk_marked(s: Seq<char>) -> bool {
    s.len() > 0 && s[0] == '@'
}

/// Index of the last '/' in `s`, or -1 when there is none.
pub open spec fn last_slash(s: Seq<char>) -> int {
    if exists|i: int| 0 <= i < s.len() && s[i] == '/' {
        choose|i: int| 0 <= i < s.len() && s[i] == '/' && forall|j: int| i < j < s.len() ==> #[trigger] s[j] != '/'
    } else {
        -1
    }
}

/// The directory part of a path: before its last '/', or empty.
pub open spec fn parent_part(s: Seq<char>) -> Seq<char> {
    if last_slash(s) >= 0 {
        s.subrange(0, last_slash(s))
    } else {
        Seq::empty()
    }
}

/// The last name of a path: after its last '/', or all of it.
pub open spec fn leaf_part(s: Seq<char>) -> Seq<char> {
    if last_slash(s) >= 0 {
        s.subrange(last_slash(s) + 1, s.len() as int)
    } else {
        s
    }
}

fn string_of(cs: &Vec<char>, from: usize, to: usize) -> (s: String)
    requires
        from <= to <= cs@.len(),
    ensures
        s@ == cs@.subrange(from as int, to as int),
{
    let mut out = String::new();
    let mut k: usize = from;
    while k < to
        invariant
            from <= k <= to <= cs@.len(),
            out@ == cs@.subrange(from as int, k as int),
        decreases to - k,
    {
        push_char(&mut out, cs[k]);
        k += 1;
        proof {
            assert(out@ =~= cs@.subrange(from as int, k as int));
        }
    }
    out
}

/// Splits a path at its last '/' into directory and name.
pub fn split_parent(path: &str) -> (r: (String, String))
    ensures
        r.0@ == parent_part(path@),
        r.1@ == leaf_part(path@),
{
    let cs = chars_of(path);
    let n = cs.len();
    let mut k: usize = n;
    while k > 0 && cs[k - 1] != '/'
        invariant
            n == cs@.len(),
            k <= n,
            forall|j: int| k <= j < n ==> #[trigger] cs@[j] != '/',
        decreases k,
    {
        k -= 1;
    }
    if k == 0 {
        proof {
            assert(!(exists|i: int| 0 <= i < cs@.len() && cs@[i] == '/'));
            assert(cs@.subrange(0, n as int) =~= cs@);
        }
        (String::new(), string_of(&cs, 0, n))
    } else {
        proof {
            let i = (k - 1) as int;
            assert(cs@[i] == '/');
            let c = last_slash(cs@);
            if c < i {
                assert(cs@[i] == '/');
            }
            if c > i {
                assert(cs@[c] != '/');
            }
        }
        (string_of(&cs, 0, k - 1), string_of(&cs, k, n))
    }
}

/// The path after its first '/', or nothing when it has none.
pub fn rest_after_slash(path: &str) -> (r: String)
    ensures
        r@ == target_rest(path@),
{
    let cs = chars_of(path);
    let n = cs.len();
    let mut k: usize = 0;
    while k < n && cs[k] != '/'
        invariant
            n == cs@.len(),
            k <= n,
            forall|j: int| 0 <= j < k ==> #[trigger] cs@[j] != '/',
        decreases n - k,
    {
        k += 1;
    }
    proof {
        if k < n {
            assert(exists|i: int| 0 <= i < cs@.len() && cs@[i] == '/');
            let c = first_slash(cs@);
            if c < k {
                assert(cs@[c] != '/');
            }
            if c > k {
                assert(cs@[k as int] != '/');
            }
        }
    }
    if k < n {
        string_of(&cs, k + 1, n)
    } else {
        String::new()
    }
}

/// Whether a resolved path starts with '@'.
fn starts_marked(s: &str) -> (b: bool)
    ensures
        b == disk_marked(s@),
{
    let cs = chars_of(s);
    cs.len() > 0 && cs[0] == '@'
}

/// Descriptor `l` is the first of a process's table that names no open file.
pub open spec fn first_free_local(fds: Seq<i16>, l: int) -> bool {
    &&& 0 <= l < MAX_LOCAL_FDS
    &&& fds[l] == -1
    &&& forall|j: int| 0 <= j < l ==> #[trigger] fds[j] != -1
}

/// The first descriptor that names no open file, if any.
fn free_local(fds: &Vec<i16>, from: usize) -> (r: Option<usize>)
    requires
        fds@.len() == MAX_LOCAL_FDS,
        from <= MAX_LOCAL_FDS,
    ensures
        match r {
            Some(l) => from <= l < MAX_LOCAL_FDS && fds@[l as int] == -1 && forall|j: int| from <= j < l ==> #[trigger] fds@[j] != -1,
            None => forall|j: int| from <= j < MAX_LOCAL_FDS ==> #[trigger] fds@[j] != -1,
        },
{
    let mut i = from;
    while i < MAX_LOCAL_FDS
        invariant
            fds@.len() == MAX_LOCAL_FDS,
            from <= i <= MAX_LOCAL_FDS,
            forall|j: int| from <= j < i ==> #[trigger] fds@[j] != -1,
        decreases MAX_LOCAL_FDS - i,
    {
        if fds[i] == -1 {
            return Some(i);
        }
        i += 1;
    }
    None
}

/// Opens `path` (resolved against `cwd`) into the global table and gives it the first free
/// descriptor of the process; answers that descriptor. Fails when the file cannot be opened
/// or no descriptor is free (the global slot then stays open).
#[verifier::rlimit(50)]
pub fn handle_open<D: BlockDevice>(vfs: &mut Vfs<D>, fds: &mut Vec<i16>, cwd: &str, path: &str) -> (r: u64)
    requires
        old(vfs).wf(),
        old(fds)@.len() == MAX_LOCAL_FDS,
        resolvable(resolved_path(cwd@, path@)),
    ensures
        final(vfs).wf(),
        final(fds)@.len() == MAX_LOCAL_FDS,
        ({
            let s = resolved_path(cwd@, path@);
            exists|g: Result<usize, VfsError>| #[trigger] old(vfs).open_effect(final(vfs), target_disk(s), target_rest(s), g) && match g {
                Ok(gi) => {
                    &&& r != FAILED ==> first_free_local(old(fds)@, r as int) && final(fds)@ == old(fds)@.update(r as int, gi as i16)
                    &&& r == FAILED ==> final(fds)@ == old(fds)@ && forall|j: int| 0 <= j < MAX_LOCAL_FDS ==> #[trigger] old(fds)@[j] != -1
                },
                Err(_) => r == FAILED && final(fds)@ == old(fds)@,
            }
        }),
{
    let resolved = resolve_path(cwd, path);
    let (disk, rest) = disk_and_path(resolved.as_str());
    let g = vfs.open_file(disk, rest.as_str());
    proof {
        let sr = resolved_path(cwd@, path@);
        assert(disk == target_disk(sr));
        assert(rest@ == target_rest(sr));
        assert(old(vfs).open_effect(final(vfs), target_disk(sr), target_rest(sr), g));
    }
    match g {
        Ok(gi) => match free_local(fds, 0) {
            Some(l) => {
                fds.set(l, gi as i16);
                l as u64
            },
            None => FAILED,
        },
        Err(_) => FAILED,
    }
}

/// The size of the file at `path` (resolved against `cwd`).
#[verifier::rlimit(50)]
pub fn stat_path<D: BlockDevice>(vfs: &mut Vfs<D>, cwd: &str, path: &str) -> (r: u64)
    requires
        old(vfs).wf(),
        resolvable(resolved_path(cwd@, path@)),
    ensures
        final(vfs).wf(),
        ({
            let s = resolved_path(cwd@, path@);
            exists|o: Result<Ext2Node, VfsError>| #[trigger] old(vfs).lookup_effect(final(vfs), target_disk(s), target_rest(s), o)
                && r == match o {
                Ok(n) => n.inode.size as u64,
                Err(_) => FAILED,
            }
        }),
{
    let resolved = resolve_path(cwd, path);
    let (disk, rest) = disk_and_path(resolved.as_str());
    let o = vfs.open(disk, rest.as_str());
    proof {
        let sr = resolved_path(cwd@, path@);
        assert(disk == target_disk(sr));
        assert(rest@ == target_rest(sr));
        assert(old(vfs).lookup_effect(final(vfs), target_disk(sr), target_rest(sr), o));
    }
    match o {
        Ok(n) => n.size(),
        Err(_) => FAILED,
    }
}

/// The stat calls: call 4 sizes the file at `path` (resolved against `cwd`), any other the
/// file open as descriptor `local_fd`.
pub fn handle_file_size<D: BlockDevice>(
    vfs: &mut Vfs<D>,
    fds: &Vec<i16>,
    cwd: &str,
    syscall_num: u64,
    path: &str,
    local_fd: usize,
) -> (r: u64)
    requires
        old(vfs).wf(),
        fds@.len() == MAX_LOCAL_FDS,
        syscall_num == 4 ==> resolvable(resolved_path(cwd@, path@)),
    ensures
        final(vfs).wf(),
        syscall_num == 4 ==> ({
            let s = resolved_path(cwd@, path@);
            exists|o: Result<Ext2Node, VfsError>| #[trigger] old(vfs).lookup_effect(final(vfs), target_disk(s), target_rest(s), o)
                && r == match o {
                Ok(n) => n.inode.size as u64,
                Err(_) => FAILED,
            }
        }),
        syscall_num != 4 ==> *final(vfs) == *old(vfs) && r == match local_entry(fds@, local_fd) {
            Some(v) if v >= 0 => size_answer(old(vfs), v as int),
            _ => FAILED,
        },
{
    if syscall_num == 4 {
        stat_path(vfs, cwd, path)
    } else {
        stat_fd(vfs, fds, local_fd)
    }
}


/// The working directory bytes a change to resolved path `b` leaves: the first (up to 127)
/// bytes of it, then a '/' when it does not end with one and there is room, then NULs.
pub open spec fn cwd_bytes(b: Seq<u8>, slash_end: bool) -> Seq<u8> {
    let len: int = if b.len() < 127 { b.len() as int } else { 127 };
    Seq::new(
        128,
        |i: int|
            if i < len {
                b[i]
            } else if i == len && !slash_end && len < 127 {
                47u8
            } else {
                0u8
            },
    )
}

/// Changes the working directory kept in `cwd` to `path` (resolved against it) when that
/// names a directory on a disk named with '@'.
#[verifier::rlimit(50)]
pub fn handle_chdir<D: BlockDevice>(vfs: &mut Vfs<D>, cwd: &mut Vec<u8>, path: &str) -> (r: u64)
    requires
        old(vfs).wf(),
        old(cwd)@.len() == 128,
    ensures
        final(vfs).wf(),
        final(cwd)@.len() == 128,
        ({
            let s = resolved_path(cwd_of(old(cwd)@), path@);
            &&& !disk_marked(s) ==> r == FAILED && *final(vfs) == *old(vfs) && final(cwd)@ == old(cwd)@
            &&& disk_marked(s) ==> exists|o: Result<Ext2Node, VfsError>|
                #[trigger] old(vfs).lookup_effect(final(vfs), target_disk(s), target_rest(s), o) && match o {
                    Ok(n) => if kind_of_mode(n.inode.mode) == FileType::Directory {
                        r == 0 && final(cwd)@ == cwd_bytes(vstd::utf8::encode_utf8(s), s.last() == '/')
                    } else {
                        r == FAILED && final(cwd)@ == old(cwd)@
                    },
                    Err(_) => r == FAILED && final(cwd)@ == old(cwd)@,
                }
        }),
{
    let here = cwd_text(cwd.as_slice());
    let resolved = resolve_path(here.as_str(), path);
    if !starts_marked(resolved.as_str()) {
        return FAILED;
    }
    let (disk, rest) = disk_and_path(resolved.as_str());
    let o = vfs.open(disk, rest.as_str());
    proof {
        let sr = resolved_path(cwd_of(old(cwd)@), path@);
        assert(disk == target_disk(sr));
        assert(rest@ == target_rest(sr));
        assert(old(vfs).lookup_effect(final(vfs), target_disk(sr), target_rest(sr), o));
    }
    let is_dir = match &o {
        Ok(n) => n.kind() == FileType::Directory,
        Err(_) => false,
    };
    if !is_dir {
        return FAILED;
    }
    let cs = chars_of(resolved.as_str());
    let slash_end = cs.len() > 0 && cs[cs.len() - 1] == '/';
    let bytes = resolved.as_str().as_bytes();
    let ghost b = bytes@;
    let len: usize = if bytes.len() < 127 { bytes.len() } else { 127 };
    let mut i: usize = 0;
    while i < 128
        invariant
            cwd@.len() == 128,
            i <= 128,
            len <= 127,
            len <= b.len(),
            b == bytes@,
            forall|j: int| 0 <= j < i ==> #[trigger] cwd@[j] == (if j < len {
                b[j]
            } else if j == len && !slash_end && len < 127 {
                47u8
            } else {
                0u8
            }),
        decreases 128 - i,
    {
        let v: u8 = if i < len {
            bytes[i]
        } else if i == len && !slash_end && len < 127 {
            47
        } else {
            0
        };
        cwd.set(i, v);
        i += 1;
    }
    proof {
        let sr = resolved_path(cwd_of(old(cwd)@), path@);
        assert(slash_end == (sr.last() == '/'));
        assert(cwd@ =~= cwd_bytes(vstd::utf8::encode_utf8(sr), sr.last() == '/'));
    }
    0
}

/// The answer a directory operation that returned `r` gives.
pub open spec fn dir_answer(r: Result<(), VfsError>) -> u64 {
    match r {
        Ok(_) => 0,
        Err(_) => FAILED,
    }
}

/// Creates `path` (resolved against `cwd`): a directory for call 83, a file otherwise, in
/// the directory its path names. Fails unless the path names its disk with '@' and that
/// disk id reads.
#[verifier::rlimit(50)]
pub fn handle_create<D: BlockDevice>(vfs: &mut Vfs<D>, cwd: &str, path: &str, syscall_num: u64) -> (r: u64)
    requires
        old(vfs).wf(),
    ensures
        final(vfs).wf(),
        ({
            let s = resolved_path(cwd@, path@);
            let rest = target_rest(s);
            &&& !disk_marked(s) || target_disk(s) == 0xFF ==> r == FAILED && *final(vfs) == *old(vfs)
            &&& disk_marked(s) && target_disk(s) != 0xFF ==> exists|o: Result<(), VfsError>|
                #[trigger] old(vfs).dir_effect(final(vfs), target_disk(s), parent_part(rest), o) && r == dir_answer(o)
        }),
{
    let resolved = resolve_path(cwd, path);
    if !starts_marked(resolved.as_str()) {
        return FAILED;
    }
    let (disk, rest) = disk_and_path(resolved.as_str());
    if disk == 0xFF {
        return FAILED;
    }
    let (parent, name) = split_parent(rest.as_str());
    let op = if syscall_num == 83 { DirOp::CreateDir } else { DirOp::CreateFile };
    let o = vfs.dir_op(disk, parent.as_str(), op, name.as_str(), "");
    proof {
        let sr = resolved_path(cwd@, path@);
        assert(disk == target_disk(sr));
        assert(rest@ == target_rest(sr));
        assert(old(vfs).dir_effect(final(vfs), target_disk(sr), parent_part(target_rest(sr)), o));
    }
    match o {
        Ok(_) => 0,
        Err(_) => FAILED,
    }
}

/// Removes `path` (resolved against `cwd`) from the directory its path names. Fails unless
/// the path names its disk with '@'.
#[verifier::rlimit(50)]
pub fn handle_remove<D: BlockDevice>(vfs: &mut Vfs<D>, cwd: &str, path: &str) -> (r: u64)
    requires
        old(vfs).wf(),
    ensures
        final(vfs).wf(),
        ({
            let s = resolved_path(cwd@, path@);
            let rest = target_rest(s);
            &&& !disk_marked(s) ==> r == FAILED && *final(vfs) == *old(vfs)
            &&& disk_marked(s) ==> exists|o: Result<(), VfsError>|
                #[trigger] old(vfs).dir_effect(final(vfs), target_disk(s), parent_part(rest), o) && r == dir_answer(o)
        }),
{
    let resolved = resolve_path(cwd, path);
    if !starts_marked(resolved.as_str()) {
        return FAILED;
    }
    let (disk, rest) = disk_and_path(resolved.as_str());
    let (parent, name) = split_parent(rest.as_str());
    let o = vfs.dir_op(disk, parent.as_str(), DirOp::Remove, name.as_str(), "");
    proof {
        let sr = resolved_path(cwd@, path@);
        assert(disk == target_disk(sr));
        assert(rest@ == target_rest(sr));
        assert(old(vfs).dir_effect(final(vfs), target_disk(sr), parent_part(target_rest(sr)), o));
    }
    match o {
        Ok(_) => 0,
        Err(_) => FAILED,
    }
}

/// Renames `old_path` to `new_path` (both resolved against `cwd`) within one directory, on
/// the disk the old path names. Fails unless the old path names its disk with '@' and both
/// paths lie in the same directory.
#[verifier::rlimit(50)]
pub fn handle_rename<D: BlockDevice>(vfs: &mut Vfs<D>, cwd: &str, old_path: &str, new_path: &str) -> (r: u64)
    requires
        old(vfs).wf(),
    ensures
        final(vfs).wf(),
        ({
            let so = resolved_path(cwd@, old_path@);
            let sn = resolved_path(cwd@, new_path@);
            let po = parent_part(target_rest(so));
            &&& !disk_marked(so) || po != parent_part(target_rest(sn)) ==> r == FAILED && *final(vfs) == *old(vfs)
            &&& disk_marked(so) && po == parent_part(target_rest(sn)) ==> exists|o: Result<(), VfsError>|
                #[trigger] old(vfs).dir_effect(final(vfs), target_disk(so), po, o) && r == dir_answer(o)
        }),
{
    let resolved_old = resolve_path(cwd, old_path);
    let resolved_new = resolve_path(cwd, new_path);
    if !starts_marked(resolved_old.as_str()) {
        return FAILED;
    }
    let (disk, actual_old) = disk_and_path(resolved_old.as_str());
    let actual_new = rest_after_slash(resolved_new.as_str());
    let (parent_old, name_old) = split_parent(actual_old.as_str());
    let (parent_new, name_new) = split_parent(actual_new.as_str());
    if parent_old != parent_new {
        return FAILED;
    }
    let o = vfs.dir_op(disk, parent_old.as_str(), DirOp::Rename, name_old.as_str(), name_new.as_str());
    proof {
        let so = resolved_path(cwd@, old_path@);
        assert(disk == target_disk(so));
        assert(actual_old@ == target_rest(so));
        assert(old(vfs).dir_effect(final(vfs), target_disk(so), parent_part(target_rest(so)), o));
    }
    match o {
        Ok(_) => 0,
        Err(_) => FAILED,
    }
}

} // verus!
