use vstd::prelude::*;
use crate::fs::disk::BlockDevice;
use crate::fs::ext2::fs::{Ext2, Ext2Error};
use crate::fs::ext2::node::{Ext2Node, lemma_inode_at, lemma_same_walk};
use crate::fs::pipe::{Pipe, pipe_yields, pipe_accepts};
use crate::fs::ext2::structs::Inode;
use crate::interrupts::syscalls::fs::{split_slash, seek_target, seek_offset};
use crate::fs::ext2::node::kind_of_mode;
use crate::text::push_char;
use vstd::string::StringSliceAdditionalSpecFns;

verus! {

/// What a file system node is.
#[derive(Debug, Clone, Copy, PartialEq, Eq, Structural)]
pub enum FileType {
    File,
    Directory,
    Device,
    Unknown,
}


/// Slots in the global table of open files.
pub const MAX_OPEN_FILES: usize = 256;

/// Slots in a process's table of descriptors.
pub const MAX_LOCAL_FDS: usize = 16;

/// Why the table of open files refused a request.
#[derive(Debug, Clone, Copy, PartialEq, Eq, Structural)]
pub enum VfsError {
    NoFreeDescriptors,
    NotMounted,
    Unusable,
    Fs(Ext2Error),
}

/// The global table of open files: each slot holds a handle or nothing, with the count of
/// descriptors that refer to it. Slots 0 to 2 are never handed out.
pub struct OpenFiles<H> {
    slots: Vec<Option<H>>,
    refcount: Vec<u16>,
}

impl<H> OpenFiles<H> {
    /// The handle in slot `i`.
    pub closed spec fn slot(&self, i: int) -> Option<H> {
        self.slots@[i]
    }

    /// How many descriptors refer to slot `i`.
    pub closed spec fn count(&self, i: int) -> u16 {
        self.refcount@[i]
    }

    /// The table has its 256 slots, and a slot holds a handle exactly when something refers
    /// to it.
    pub closed spec fn wf(&self) -> bool {
        &&& self.slots@.len() == MAX_OPEN_FILES
        &&& self.refcount@.len() == MAX_OPEN_FILES
        &&& forall|i: int| 0 <= i < MAX_OPEN_FILES ==> (#[trigger] self.slots@[i] is Some <==> self.refcount@[i] > 0)
    }

    /// Slot `i` is the first free one from 3 on.
    pub open spec fn first_free(&self, i: int) -> bool {
        &&& 3 <= i < MAX_OPEN_FILES
        &&& self.slot(i) is None
        &&& forall|j: int| 3 <= j < i ==> #[trigger] self.slot(j) is Some
    }

    /// An empty table.
    pub fn new() -> (t: Self)
        ensures
            t.wf(),
            forall|i: int| 0 <= i < MAX_OPEN_FILES ==> #[trigger] t.slot(i) is None && t.count(i) == 0,
    {
        let mut slots: Vec<Option<H>> = Vec::new();
        let mut refcount: Vec<u16> = Vec::new();
        let mut k: usize = 0;
        while k < MAX_OPEN_FILES
            invariant
                k <= MAX_OPEN_FILES,
                slots@.len() == k,
                refcount@.len() == k,
                forall|i: int| 0 <= i < k ==> #[trigger] slots@[i] is None && refcount@[i] == 0,
            decreases MAX_OPEN_FILES - k,
        {
            slots.push(None);
            refcount.push(0);
            k += 1;
        }
        OpenFiles { slots, refcount }
    }

    /// The first free slot from 3 on, if any.
    fn free_from(&self, start: usize) -> (r: Option<usize>)
        requires
            self.wf(),
            3 <= start,
        ensures
            match r {
                Some(i) => start <= i < MAX_OPEN_FILES && self.slot(i as int) is None && forall|j: int| start <= j < i ==> #[trigger] self.slot(j) is Some,
                None => forall|j: int| start <= j < MAX_OPEN_FILES ==> #[trigger] self.slot(j) is Some,
            },
    {
        let mut i = start;
        while i < MAX_OPEN_FILES
            invariant
                self.wf(),
                start <= i,
                forall|j: int| start <= j < i ==> #[trigger] self.slot(j) is Some,
            decreases MAX_OPEN_FILES - i,
        {
            if self.slots[i].is_none() {
                return Some(i);
            }
            i += 1;
        }
        None
    }

    /// Puts `handle` in the first free slot from 3 on, referred to once. Refuses when every
    /// slot is taken.
    pub fn open_file(&mut self, handle: H) -> (r: Result<usize, VfsError>)
        requires
            old(self).wf(),
        ensures
            final(self).wf(),
            match r {
                Ok(i) => {
                    &&& old(self).first_free(i as int)
                    &&& final(self).slot(i as int) == Some(handle)
                    &&& final(self).count(i as int) == 1
                    &&& forall|j: int| 0 <= j < MAX_OPEN_FILES && j != i ==> #[trigger] final(self).slot(j) == old(self).slot(j) && final(self).count(j) == old(self).count(j)
                },
                Err(e) => {
                    &&& e == VfsError::NoFreeDescriptors
                    &&& forall|j: int| 3 <= j < MAX_OPEN_FILES ==> #[trigger] old(self).slot(j) is Some
                    &&& *final(self) == *old(self)
                },
            },
    {
        match self.free_from(3) {
            Some(i) => {
                self.slots.set(i, Some(handle));
                self.refcount.set(i, 1);
                Ok(i)
            },
            None => Err(VfsError::NoFreeDescriptors),
        }
    }

    /// The first two free slots from 3 on, if there are two.
    pub fn free_pair(&self) -> (r: Option<(usize, usize)>)
        requires
            self.wf(),
        ensures
            match r {
                Some((a, b)) => {
                    &&& self.first_free(a as int)
                    &&& a < b < MAX_OPEN_FILES
                    &&& self.slot(b as int) is None
                    &&& forall|j: int| a < j < b ==> #[trigger] self.slot(j) is Some
                },
                None => forall|a: int, b: int| 3 <= a < b < MAX_OPEN_FILES ==> #[trigger] self.slot(a) is Some || #[trigger] self.slot(b) is Some,
            },
    {
        match self.free_from(3) {
            Some(a) => {
                if a + 1 < MAX_OPEN_FILES {
                    match self.free_from(a + 1) {
                        Some(b) => Some((a, b)),
                        None => None,
                    }
                } else {
                    None
                }
            },
            None => None,
        }
    }

    /// Puts `handle` in free slot `fd`, referred to once.
    pub fn install(&mut self, fd: usize, handle: H)
        requires
            old(self).wf(),
            fd < MAX_OPEN_FILES,
            old(self).slot(fd as int) is None,
        ensures
            final(self).wf(),
            final(self).slot(fd as int) == Some(handle),
            final(self).count(fd as int) == 1,
            forall|j: int| 0 <= j < MAX_OPEN_FILES && j != fd ==> #[trigger] final(self).slot(j) == old(self).slot(j) && final(self).count(j) == old(self).count(j),
    {
        self.slots.set(fd, Some(handle));
        self.refcount.set(fd, 1);
    }

    /// Puts `handle` in place of the one in slot `fd`, keeping its count, and hands the old
    /// one back.
    pub fn replace(&mut self, fd: usize, handle: H) -> (prev: H)
        requires
            old(self).wf(),
            fd < MAX_OPEN_FILES,
            old(self).slot(fd as int) is Some,
        ensures
            final(self).wf(),
            Some(prev) == old(self).slot(fd as int),
            final(self).slot(fd as int) == Some(handle),
            forall|j: int| 0 <= j < MAX_OPEN_FILES ==> #[trigger] final(self).count(j) == old(self).count(j),
            forall|j: int| 0 <= j < MAX_OPEN_FILES && j != fd ==> #[trigger] final(self).slot(j) == old(self).slot(j),
    {
        self.slots.push(Some(handle));
        let prev = self.slots.swap_remove(fd);
        proof {
            assert(self.slots@.len() == MAX_OPEN_FILES);
            assert(prev == old(self).slots@[fd as int]);
        }
        prev.unwrap()
    }

    /// The handle in slot `fd`, if any.
    pub fn get_file(&self, fd: usize) -> (r: Option<&H>)
        requires
            self.wf(),
        ensures
            r == if fd < MAX_OPEN_FILES {
                match self.slot(fd as int) {
                    Some(h) => Some(&h),
                    None => None,
                }
            } else {
                None
            },
    {
        if fd < MAX_OPEN_FILES {
            self.slots[fd].as_ref()
        } else {
            None
        }
    }

    /// Drops one reference to slot `fd`; the last one empties the slot and hands its handle
    /// back (a pipe is then closed by the caller).
    pub fn close_file(&mut self, fd: usize) -> (r: Option<H>)
        requires
            old(self).wf(),
        ensures
            final(self).wf(),
            fd >= MAX_OPEN_FILES || old(self).count(fd as int) == 0 ==> *final(self) == *old(self) && r is None,
            fd < MAX_OPEN_FILES && old(self).count(fd as int) > 1 ==> {
                &&& r is None
                &&& final(self).count(fd as int) == old(self).count(fd as int) - 1
                &&& final(self).slot(fd as int) == old(self).slot(fd as int)
            },
            fd < MAX_OPEN_FILES && old(self).count(fd as int) == 1 ==> {
                &&& r == old(self).slot(fd as int)
                &&& final(self).count(fd as int) == 0
                &&& final(self).slot(fd as int) is None
            },
            forall|j: int| 0 <= j < MAX_OPEN_FILES && j != fd ==> #[trigger] final(self).slot(j) == old(self).slot(j) && final(self).count(j) == old(self).count(j),
    {
        if fd < MAX_OPEN_FILES {
            let c = self.refcount[fd];
            if c > 0 {
                self.refcount.set(fd, c - 1);
                if c == 1 {
                    self.slots.push(None);
                    let h = self.slots.swap_remove(fd);
                    assert(self.slots@.len() == MAX_OPEN_FILES);
                    return h;
                }
            }
        }
        None
    }

    /// Adds a reference to slot `fd` when it holds a handle.
    pub fn increment_ref(&mut self, fd: usize)
        requires
            old(self).wf(),
            fd < MAX_OPEN_FILES ==> old(self).count(fd as int) < u16::MAX,
        ensures
            final(self).wf(),
            fd < MAX_OPEN_FILES && old(self).slot(fd as int) is Some ==> final(self).count(fd as int) == old(self).count(fd as int) + 1,
            fd < MAX_OPEN_FILES ==> final(self).slot(fd as int) == old(self).slot(fd as int),
            fd >= MAX_OPEN_FILES || old(self).slot(fd as int) is None ==> *final(self) == *old(self),
            forall|j: int| 0 <= j < MAX_OPEN_FILES && j != fd ==> #[trigger] final(self).slot(j) == old(self).slot(j) && final(self).count(j) == old(self).count(j),
    {
        if fd < MAX_OPEN_FILES && self.slots[fd].is_some() {
            let c = self.refcount[fd];
            self.refcount.set(fd, c + 1);
        }
    }
}

/// Two tables hold the same handles with the same counts.
pub open spec fn same_table<H>(a: OpenFiles<H>, b: OpenFiles<H>) -> bool {
    forall|j: int| 0 <= j < MAX_OPEN_FILES ==> #[trigger] a.slot(j) == b.slot(j) && a.count(j) == b.count(j)
}

/// Opening a file and then closing the descriptor it got gives the handle back and leaves
/// the table as it was before the open.
pub proof fn lemma_open_close<H>(before: OpenFiles<H>, opened: OpenFiles<H>, closed: OpenFiles<H>, fd: int, h: H, back: Option<H>)
    requires
        before.first_free(fd),
        before.count(fd) == 0,
        opened.slot(fd) == Some(h),
        opened.count(fd) == 1,
        forall|j: int| 0 <= j < MAX_OPEN_FILES && j != fd ==> #[trigger] opened.slot(j) == before.slot(j) && opened.count(j) == before.count(j),
        back == opened.slot(fd),
        closed.count(fd) == 0,
        closed.slot(fd) is None,
        forall|j: int| 0 <= j < MAX_OPEN_FILES && j != fd ==> #[trigger] closed.slot(j) == opened.slot(j) && closed.count(j) == opened.count(j),
    ensures
        back == Some(h),
        same_table(closed, before),
{
}


/// The pieces that hold at least one character, in order.
pub open spec fn named_pieces(parts: Seq<Seq<char>>) -> Seq<Seq<char>>
    decreases parts.len(),
{
    if parts.len() == 0 {
        Seq::empty()
    } else if parts.last().len() > 0 {
        named_pieces(parts.drop_last()).push(parts.last())
    } else {
        named_pieces(parts.drop_last())
    }
}

/// The names along a path: its pieces between slashes, empty ones left out.
pub open spec fn path_names(p: Seq<char>) -> Seq<Seq<char>> {
    named_pieces(split_slash(p))
}

/// The names as the bytes a directory stores.
pub open spec fn name_bytes(names: Seq<Seq<char>>) -> Seq<Seq<u8>> {
    names.map_values(|n: Seq<char>| vstd::utf8::encode_utf8(n))
}

proof fn lemma_split_nonempty(s: Seq<char>)
    ensures
        split_slash(s).len() >= 1,
    decreases s.len(),
{
    if s.len() > 0 {
        lemma_split_nonempty(s.drop_last());
    }
}

/// The names along `path`, in order.
pub fn path_components(path: &str) -> (v: Vec<String>)
    ensures
        v@.map_values(|n: String| n@) == path_names(path@),
{
    let p = crate::text::chars_of(path);
    let ghost fp = path@;
    let mut parts: Vec<String> = Vec::new();
    let mut current = String::new();
    let mut cur_n: usize = 0;
    let mut i: usize = 0;
    while i < p.len()
        invariant
            i <= p@.len(),
            cur_n == current@.len(),
            cur_n <= i,
            p@ == fp,
            split_slash(fp.take(i as int)).len() >= 1,
            current@ == split_slash(fp.take(i as int)).last(),
            parts@.map_values(|n: String| n@) == named_pieces(split_slash(fp.take(i as int)).drop_last()),
        decreases p@.len() - i,
    {
        let c = p[i];
        let ghost pre = split_slash(fp.take(i as int));
        let ghost kept = parts@.map_values(|n: String| n@);
        proof {
            assert(fp.take(i + 1).drop_last() =~= fp.take(i as int));
            assert(fp.take(i + 1).last() == c);
        }
        if c == '/' {
            let done = current;
            let done_n = cur_n;
            current = String::new();
            cur_n = 0;
            proof {
                let post = split_slash(fp.take(i + 1));
                assert(post == pre.push(Seq::<char>::empty()));
                assert(post.drop_last() =~= pre);
                assert(pre =~= pre.drop_last().push(pre.last()));
                assert(current@ =~= post.last());
            }
            if done_n > 0 {
                parts.push(done);
                proof {
                    assert(parts@.map_values(|n: String| n@) =~= kept.push(done@));
                }
            }
        } else {
            push_char(&mut current, c);
            cur_n += 1;
            proof {
                let post = split_slash(fp.take(i + 1));
                assert(post.drop_last() =~= pre.drop_last());
            }
        }
        i += 1;
        proof {
            lemma_split_nonempty(fp.take(i as int));
        }
    }
    let ghost all = split_slash(fp);
    proof {
        assert(fp.take(i as int) =~= fp);
        assert(all =~= all.drop_last().push(all.last()));
    }
    if cur_n > 0 {
        let ghost kept = parts@.map_values(|n: String| n@);
        parts.push(current);
        proof {
            assert(parts@.map_values(|n: String| n@) =~= kept.push(all.last()));
        }
    }
    parts
}


/// An open file: a node of the file system mounted as `disk`, with the offset the next
/// transfer starts at; or one end of a pipe (the index of a pipe the file layer keeps).
pub enum FileHandle {
    File { disk: u8, node: Ext2Node, offset: u64 },
    Pipe { pipe: usize },
}

/// The name a walk along `names` ends on: the last name, or "/" for the root.
pub open spec fn walk_name(names: Seq<Seq<char>>) -> Seq<char> {
    if names.len() == 0 {
        seq!['/']
    } else {
        names.last()
    }
}

/// Looks `names` up one after another from the root directory.
fn walk_path<D: BlockDevice>(fs: &mut Ext2<D>, names: &Vec<String>) -> (r: Result<Ext2Node, Ext2Error>)
    requires
        old(fs).wf(),
        old(fs).ipg() > 0,
    ensures
        final(fs).wf(),
        final(fs).same_layout(old(fs)),
        final(fs).dev() == old(fs).dev(),
        old(fs).coherent() ==> final(fs).coherent(),
        r matches Err(e) ==> e == Ext2Error::NotADirectory || e == Ext2Error::FileNotFound,
        old(fs).coherent() ==> ({
            let nb = name_bytes(names@.map_values(|n: String| n@));
            match r {
                Ok(n) => {
                    &&& old(fs).walk(2, nb) == Ok::<u32, Ext2Error>(n.inode_idx)
                    &&& n.inode == old(fs).inode_at(n.inode_idx)
                    &&& n.name@ == walk_name(names@.map_values(|n: String| n@))
                },
                Err(e) => old(fs).walk(2, nb) == Err::<u32, Ext2Error>(e),
            }
        }),
{
    let ghost s0 = *fs;
    let ghost nv = names@.map_values(|n: String| n@);
    let ghost nb = name_bytes(nv);
    let root = fs.root();
    let mut node = match root {
        Ok(n) => n,
        Err(e) => {
            return Err(e);
        },
    };
    proof {
        if s0.coherent() {
            lemma_inode_at(&s0, 2, node.inode);
            assert(nb.subrange(0, nb.len() as int) =~= nb);
        }
        reveal_strlit("/");
    }
    let mut k: usize = 0;
    while k < names.len()
        invariant
            s0 == *old(fs),
            fs.wf(),
            fs.same_layout(&s0),
            fs.dev() == s0.dev(),
            s0.coherent() ==> fs.coherent(),
            s0.ipg() > 0,
            k <= names@.len(),
            nv == names@.map_values(|n: String| n@),
            nb == name_bytes(nv),
            s0.coherent() ==> s0.walk(2, nb) == s0.walk(node.inode_idx, nb.subrange(k as int, nb.len() as int)),
            s0.coherent() ==> node.inode == s0.inode_at(node.inode_idx),
            s0.coherent() ==> node.name@ == (if k == 0 { seq!['/'] } else { nv[k - 1] }),
        decreases names@.len() - k,
    {
        let ghost sk = *fs;
        let name = names[k].as_str();
        proof {
            assert(name@ == nv[k as int]);
            assert(name.spec_bytes() == nb[k as int]);
            lemma_same_walk(&s0, &sk, node.inode_idx, nb.subrange(k as int, nb.len() as int));
            let rest = nb.subrange(k as int, nb.len() as int);
            assert(rest[0] == nb[k as int]);
            assert(rest.subrange(1, rest.len() as int) =~= nb.subrange(k + 1, nb.len() as int));
        }
        let found = node.find(fs, name);
        match found {
            Ok(child) => {
                proof {
                    if s0.coherent() {
                        crate::fs::ext2::node::lemma_same_lookup(&s0, &sk, node.inode, nb[k as int], 0);
                        assert(sk.disk_bytes(sk.inode_offset(child.inode_idx as int), 128) =~= s0.disk_bytes(
                            s0.inode_offset(child.inode_idx as int),
                            128,
                        ));
                        lemma_inode_at(&s0, child.inode_idx, child.inode);
                    }
                }
                node = child;
            },
            Err(e) => {
                proof {
                    if s0.coherent() {
                        crate::fs::ext2::node::lemma_same_lookup(&s0, &sk, node.inode, nb[k as int], 0);
                    }
                }
                return Err(e);
            },
        }
        k += 1;
    }
    proof {
        assert(nb.subrange(k as int, nb.len() as int) =~= Seq::<Seq<u8>>::empty());
    }
    Ok(node)
}

/// The mounted file systems (one slot per disk id), the global table of open files, and
/// the pipes its handles refer to.
pub struct Vfs<D: BlockDevice> {
    filesystems: Vec<Option<Ext2<D>>>,
    files: OpenFiles<FileHandle>,
    pipes: Vec<Pipe>,
}

impl<D: BlockDevice> Vfs<D> {
    /// The file system mounted as disk `d`.
    pub closed spec fn mounted(&self, d: int) -> Option<Ext2<D>> {
        self.filesystems@[d]
    }

    /// The global table of open files.
    pub closed spec fn table(&self) -> OpenFiles<FileHandle> {
        self.files
    }

    /// The pipes, by index.
    pub closed spec fn pipe_list(&self) -> Seq<Pipe> {
        self.pipes@
    }

    /// A slot per disk id, each mounted file system usable, the table well formed, and every
    /// pipe handle naming a pipe that exists.
    pub closed spec fn wf(&self) -> bool {
        &&& self.filesystems@.len() == 256
        &&& forall|d: int| 0 <= d < 256 ==> (#[trigger] self.filesystems@[d] matches Some(fs) ==> fs.wf())
        &&& self.files.wf()
        &&& forall|i: int| 0 <= i < MAX_OPEN_FILES ==> (#[trigger] self.files.slot(i) matches Some(FileHandle::Pipe { pipe }) ==> pipe < self.pipes@.len())
        &&& forall|i: int| 0 <= i < MAX_OPEN_FILES ==> (#[trigger] self.files.slot(i) matches Some(FileHandle::File { disk, .. }) ==> self.filesystems@[disk as int] is Some)
        &&& forall|k: int| 0 <= k < self.pipes@.len() ==> #[trigger] self.pipes@[k].wf()
    }

    /// Nothing mounted, nothing open.
    pub fn new() -> (v: Self)
        ensures
            v.wf(),
            forall|d: int| 0 <= d < 256 ==> #[trigger] v.mounted(d) is None,
            forall|i: int| 0 <= i < MAX_OPEN_FILES ==> #[trigger] v.table().slot(i) is None && v.table().count(i) == 0,
            v.pipe_list().len() == 0,
    {
        let mut filesystems: Vec<Option<Ext2<D>>> = Vec::new();
        let mut k: usize = 0;
        while k < 256
            invariant
                k <= 256,
                filesystems@.len() == k,
                forall|d: int| 0 <= d < k ==> #[trigger] filesystems@[d] is None,
            decreases 256 - k,
        {
            filesystems.push(None);
            k += 1;
        }
        Vfs { filesystems, files: OpenFiles::new(), pipes: Vec::new() }
    }

    /// The handle that descriptor `fd` of the global table names.
    pub open spec fn handle_at(&self, fd: int) -> Option<FileHandle> {
        if 0 <= fd < MAX_OPEN_FILES {
            self.table().slot(fd)
        } else {
            None
        }
    }

    /// Mounts `fs` as disk `disk_id`, in place of whatever was there.
    pub fn mount(&mut self, disk_id: u8, fs: Ext2<D>)
        requires
            old(self).wf(),
            fs.wf(),
        ensures
            final(self).wf(),
            final(self).mounted(disk_id as int) == Some(fs),
            forall|d: int| 0 <= d < 256 && d != disk_id ==> #[trigger] final(self).mounted(d) == old(self).mounted(d),
            final(self).table() == old(self).table(),
            final(self).pipe_list() == old(self).pipe_list(),
    {
        self.filesystems.set(disk_id as usize, Some(fs));
    }

    /// What finding `path` on disk `disk_id` does when the call returns `r`.
    pub open spec fn lookup_effect(&self, post: &Self, disk_id: u8, path: Seq<char>, r: Result<Ext2Node, VfsError>) -> bool {
        &&& post.mounts_kept(self, disk_id as int)
        &&& post.table() == self.table()
        &&& post.pipe_list() == self.pipe_list()
        &&& self.mounted(disk_id as int) is None ==> r == Err::<Ext2Node, VfsError>(VfsError::NotMounted)
            && post.mounted(disk_id as int) is None
        &&& self.mounted(disk_id as int) matches Some(fs) ==> post.mounted(disk_id as int) matches Some(fs2) && {
            let nb = name_bytes(path_names(path));
            &&& fs2.same_layout(&fs)
            &&& fs2.dev() == fs.dev()
            &&& fs.coherent() ==> fs2.coherent()
            &&& fs.ipg() == 0 ==> r == Err::<Ext2Node, VfsError>(VfsError::Unusable) && fs2 == fs
            &&& fs.ipg() > 0 ==> (r matches Err(e) ==> e == VfsError::Fs(Ext2Error::NotADirectory) || e == VfsError::Fs(Ext2Error::FileNotFound))
            &&& fs.ipg() > 0 && fs.coherent() ==> match r {
                Ok(n) => {
                    &&& fs.walk(2, nb) == Ok::<u32, Ext2Error>(n.inode_idx)
                    &&& n.inode == fs.inode_at(n.inode_idx)
                    &&& n.name@ == walk_name(path_names(path))
                },
                Err(e) => e == VfsError::Fs(fs.walk(2, nb)->Err_0) && fs.walk(2, nb) is Err,
            }
        }
    }

    /// Finds the node at `path` (names separated by slashes) on disk `disk_id`.
    pub fn open(&mut self, disk_id: u8, path: &str) -> (r: Result<Ext2Node, VfsError>)
        requires
            old(self).wf(),
        ensures
            final(self).wf(),
            old(self).lookup_effect(final(self), disk_id, path@, r),
    {
        let names = path_components(path);
        let d = disk_id as usize;
        let slot = self.filesystems[d].take();
        match slot {
            None => Err(VfsError::NotMounted),
            Some(mut fs) => {
                if fs.inodes_per_group() == 0 {
                    self.filesystems.set(d, Some(fs));
                    return Err(VfsError::Unusable);
                }
                let r = walk_path(&mut fs, &names);
                self.filesystems.set(d, Some(fs));
                match r {
                    Ok(n) => Ok(n),
                    Err(e) => Err(VfsError::Fs(e)),
                }
            },
        }
    }
}


impl<D: BlockDevice> Vfs<D> {
    /// What opening `path` on disk `disk_id` into the global table does when the call
    /// returns `r`.
    pub open spec fn open_effect(&self, post: &Self, disk_id: u8, path: Seq<char>, r: Result<usize, VfsError>) -> bool {
        &&& post.mounts_kept(self, disk_id as int)
        &&& post.pipe_list() == self.pipe_list()
        &&& self.mounted(disk_id as int) is None ==> r == Err::<usize, VfsError>(VfsError::NotMounted)
        &&& self.mounted(disk_id as int) matches Some(fs) ==> post.mounted(disk_id as int) matches Some(fs2) && {
            let nb = name_bytes(path_names(path));
            &&& fs2.same_layout(&fs)
            &&& fs2.dev() == fs.dev()
            &&& fs.coherent() ==> fs2.coherent()
            &&& fs.ipg() == 0 ==> r == Err::<usize, VfsError>(VfsError::Unusable)
            &&& fs.ipg() > 0 && fs.coherent() && fs.walk(2, nb) is Err ==> r == Err::<usize, VfsError>(VfsError::Fs(fs.walk(2, nb)->Err_0))
            &&& fs.ipg() > 0 && fs.coherent() && fs.walk(2, nb) is Ok ==> (r is Ok || r == Err::<usize, VfsError>(VfsError::NoFreeDescriptors))
            &&& r matches Ok(i) ==> (post.table().slot(i as int) matches Some(FileHandle::File { disk, node, offset }) && {
                &&& disk == disk_id
                &&& offset == 0
                &&& fs.coherent() ==> fs.walk(2, nb) == Ok::<u32, Ext2Error>(node.inode_idx) && node.inode == fs.inode_at(node.inode_idx)
                    && node.name@ == walk_name(path_names(path))
            })
        }
        &&& match r {
            Ok(i) => {
                &&& self.table().first_free(i as int)
                &&& post.table().count(i as int) == 1
                &&& forall|j: int| 0 <= j < MAX_OPEN_FILES && j != i ==> #[trigger] post.table().slot(j) == self.table().slot(j)
                    && post.table().count(j) == self.table().count(j)
            },
            Err(e) => {
                &&& post.table() == self.table()
                &&& e == VfsError::NoFreeDescriptors ==> forall|j: int| 3 <= j < MAX_OPEN_FILES ==> #[trigger] self.table().slot(j) is Some
            },
        }
    }

    /// Opens the node at `path` on disk `disk_id` in the first free slot of the global
    /// table, at offset 0, referred to once.
    pub fn open_file(&mut self, disk_id: u8, path: &str) -> (r: Result<usize, VfsError>)
        requires
            old(self).wf(),
        ensures
            final(self).wf(),
            old(self).open_effect(final(self), disk_id, path@, r),
    {
        let node = match self.open(disk_id, path) {
            Ok(n) => n,
            Err(e) => {
                return Err(e);
            },
        };
        let ghost s1 = *self;
        let r = self.files.open_file(FileHandle::File { disk: disk_id, node, offset: 0 });
        proof {
            assert forall|d: int| 0 <= d < 256 && d != disk_id implies #[trigger] self.mounted(d) == old(self).mounted(d) by {
                assert(s1.mounted(d) == old(self).mounted(d));
            }
            assert forall|i: int| 0 <= i < MAX_OPEN_FILES implies (#[trigger] self.files.slot(i) matches Some(FileHandle::File { disk, .. }) ==> self.filesystems@[disk as int] is Some) by {
                if r is Err || i != r->Ok_0 {
                    assert(self.files.slot(i) == s1.files.slot(i));
                }
            }
        }
        r
    }

    /// The handle in slot `fd`, if any.
    pub fn get_file(&self, fd: usize) -> (r: Option<&FileHandle>)
        requires
            self.wf(),
        ensures
            r == match self.handle_at(fd as int) {
                Some(h) => Some(&h),
                None => None,
            },
    {
        self.files.get_file(fd)
    }

    /// What dropping one reference to slot `fd` does: the count goes down; the last
    /// reference empties the slot and closes a pipe it held.
    pub open spec fn close_effect(&self, post: &Self, fd: int) -> bool {
        &&& post.mounts_kept(self, -1)
        &&& !(0 <= fd < MAX_OPEN_FILES) || self.table().count(fd) == 0 ==> post.table() == self.table() && post.pipe_list() == self.pipe_list()
        &&& 0 <= fd < MAX_OPEN_FILES && self.table().count(fd) > 1 ==> {
            &&& post.table().count(fd) == self.table().count(fd) - 1
            &&& post.table().slot(fd) == self.table().slot(fd)
            &&& post.pipe_list() == self.pipe_list()
        }
        &&& 0 <= fd < MAX_OPEN_FILES && self.table().count(fd) == 1 ==> {
            &&& post.table().count(fd) == 0
            &&& post.table().slot(fd) is None
            &&& post.pipe_list().len() == self.pipe_list().len()
            &&& forall|k: int| 0 <= k < self.pipe_list().len() ==> #[trigger] post.pipe_list()[k]@ == self.pipe_list()[k]@
            &&& forall|k: int| 0 <= k < self.pipe_list().len() ==> (#[trigger] post.pipe_list()[k].spec_closed() <==> (self.pipe_list()[k].spec_closed()
                || (self.table().slot(fd) matches Some(FileHandle::Pipe { pipe }) && pipe == k)))
        }
        &&& forall|j: int| 0 <= j < MAX_OPEN_FILES && j != fd ==> #[trigger] post.table().slot(j) == self.table().slot(j)
            && post.table().count(j) == self.table().count(j)
    }

    /// Drops one reference to slot `fd`; when the last one goes, the slot is emptied and a
    /// pipe it held is closed.
    pub fn close_file(&mut self, fd: usize)
        requires
            old(self).wf(),
        ensures
            final(self).wf(),
            old(self).close_effect(final(self), fd as int),
    {
        let gone = self.files.close_file(fd);
        match gone {
            Some(FileHandle::Pipe { pipe }) => {
                proof {
                    assert(old(self).files.slot(fd as int) == Some(FileHandle::Pipe { pipe }));
                }
                self.pipes[pipe].close();
                proof {
                    assert forall|k: int| 0 <= k < self.pipes@.len() implies #[trigger] self.pipes@[k].wf() by {
                        if k != pipe {
                            assert(self.pipes@[k] == old(self).pipes@[k]);
                        }
                    }
                    assert forall|k: int| 0 <= k < old(self).pipe_list().len() implies (#[trigger] self.pipe_list()[k].spec_closed() <==> (old(self).pipe_list()[k].spec_closed()
                        || (old(self).table().slot(fd as int) matches Some(FileHandle::Pipe { pipe }) && pipe == k))) by {
                        if k != pipe {
                            assert(self.pipes@[k] == old(self).pipes@[k]);
                        }
                    }
                    assert forall|k: int| 0 <= k < old(self).pipe_list().len() implies #[trigger] self.pipe_list()[k]@ == old(self).pipe_list()[k]@ by {
                        if k != pipe {
                            assert(self.pipes@[k] == old(self).pipes@[k]);
                        }
                    }
                }
            },
            _ => {},
        }
    }

    /// Adds a reference to slot `fd` when it holds a handle.
    pub fn increment_ref(&mut self, fd: usize)
        requires
            old(self).wf(),
            fd < MAX_OPEN_FILES ==> old(self).table().count(fd as int) < u16::MAX,
        ensures
            final(self).wf(),
            forall|d: int| 0 <= d < 256 ==> #[trigger] final(self).mounted(d) == old(self).mounted(d),
            final(self).pipe_list() == old(self).pipe_list(),
            fd < MAX_OPEN_FILES && old(self).table().slot(fd as int) is Some ==> final(self).table().count(fd as int) == old(self).table().count(fd as int) + 1,
            fd < MAX_OPEN_FILES ==> final(self).table().slot(fd as int) == old(self).table().slot(fd as int),
            fd >= MAX_OPEN_FILES || old(self).table().slot(fd as int) is None ==> final(self).table() == old(self).table(),
            forall|j: int| 0 <= j < MAX_OPEN_FILES && j != fd ==> #[trigger] final(self).table().slot(j) == old(self).table().slot(j)
                && final(self).table().count(j) == old(self).table().count(j),
    {
        self.files.increment_ref(fd);
    }

    /// What making a pipe and opening both its ends does when the call returns `r`.
    pub open spec fn pair_effect(&self, post: &Self, r: Option<(usize, usize)>) -> bool {
        &&& post.mounts_kept(self, -1)
        &&& match r {
            Some((a, b)) => {
                let p = self.pipe_list().len();
                &&& self.table().first_free(a as int)
                &&& a < b < MAX_OPEN_FILES
                &&& self.table().slot(b as int) is None
                &&& forall|j: int| a < j < b ==> #[trigger] self.table().slot(j) is Some
                &&& post.pipe_list().len() == p + 1
                &&& forall|k: int| 0 <= k < p ==> #[trigger] post.pipe_list()[k] == self.pipe_list()[k]
                &&& post.pipe_list()[p as int]@ == Seq::<u8>::empty()
                &&& !post.pipe_list()[p as int].spec_closed()
                &&& post.table().slot(a as int) == Some(FileHandle::Pipe { pipe: p as usize })
                &&& post.table().slot(b as int) == Some(FileHandle::Pipe { pipe: p as usize })
                &&& post.table().count(a as int) == 1
                &&& post.table().count(b as int) == 1
                &&& forall|j: int| 0 <= j < MAX_OPEN_FILES && j != a && j != b ==> #[trigger] post.table().slot(j) == self.table().slot(j)
                    && post.table().count(j) == self.table().count(j)
            },
            None => {
                &&& forall|a: int, b: int| 3 <= a < b < MAX_OPEN_FILES ==> #[trigger] self.table().slot(a) is Some || #[trigger] self.table().slot(b) is Some
                &&& post.table() == self.table()
                &&& post.pipe_list() == self.pipe_list()
            },
        }
    }

    /// Makes a new, empty pipe and opens both its ends in the first two free slots of the
    /// global table, each referred to once; nothing when two slots are not free.
    pub fn pipe_pair(&mut self) -> (r: Option<(usize, usize)>)
        requires
            old(self).wf(),
        ensures
            final(self).wf(),
            old(self).pair_effect(final(self), r),
    {
        match self.files.free_pair() {
            Some((a, b)) => {
                let p = self.pipes.len();
                self.pipes.push(Pipe::new());
                self.files.install(a, FileHandle::Pipe { pipe: p });
                self.files.install(b, FileHandle::Pipe { pipe: p });
                proof {
                    assert forall|k: int| 0 <= k < self.pipes@.len() implies #[trigger] self.pipes@[k].wf() by {
                        if k < p {
                            assert(self.pipes@[k] == old(self).pipes@[k]);
                        }
                    }
                }
                Some((a, b))
            },
            None => None,
        }
    }
}


impl<D: BlockDevice> Vfs<D> {
    /// Every slot but `fd` holds what it held, every count is kept.
    pub open spec fn others_kept(&self, old: &Self, fd: int) -> bool {
        &&& forall|j: int| 0 <= j < MAX_OPEN_FILES && j != fd ==> #[trigger] self.table().slot(j) == old.table().slot(j)
        &&& forall|j: int| 0 <= j < MAX_OPEN_FILES ==> #[trigger] self.table().count(j) == old.table().count(j)
    }

    /// Every disk but `disk` has what it had mounted.
    pub open spec fn mounts_kept(&self, old: &Self, disk: int) -> bool {
        forall|d: int| 0 <= d < 256 && d != disk ==> #[trigger] self.mounted(d) == old.mounted(d)
    }

    /// Every pipe but `pipe` is as it was.
    pub open spec fn pipes_kept(&self, old: &Self, pipe: int) -> bool {
        &&& self.pipe_list().len() == old.pipe_list().len()
        &&& forall|k: int| 0 <= k < old.pipe_list().len() && k != pipe ==> #[trigger] self.pipe_list()[k] == old.pipe_list()[k]
    }

    /// What reading slot `fd` into a buffer holding `before` does: the buffer then holds `after`, the call returns `r`.
    pub open spec fn read_effect(&self, post: &Self, fd: int, before: Seq<u8>, after: Seq<u8>, r: Option<usize>) -> bool {
        match self.handle_at(fd) {
            None => {
                &&& r is None
                &&& after == before
                &&& post.table() == self.table()
                &&& post.pipe_list() == self.pipe_list()
                &&& post.mounts_kept(self, -1)
            },
            Some(FileHandle::File { disk, node, offset }) => {
                let n = Ext2Node::read_len(node.inode.size as int, offset as int, before.len() as int);
                let fs = self.mounted(disk as int)->Some_0;
                &&& r == Some(n as usize)
                &&& post.handle_at(fd) == Some(FileHandle::File { disk, node, offset: (offset + n) as u64 })
                &&& post.pipe_list() == self.pipe_list()
                &&& post.mounts_kept(self, disk as int)
                &&& post.mounted(disk as int) matches Some(fs2) && fs2.same_layout(&fs) && fs2.dev() == fs.dev()
                    && (fs.coherent() ==> fs2.coherent())
                &&& forall|i: int| n <= i < before.len() ==> #[trigger] after[i] == before[i]
                &&& fs.coherent() ==> forall|i: int| 0 <= i < n ==> #[trigger] after[i] == fs.file_byte(node.inode, offset + i)
            },
            Some(FileHandle::Pipe { pipe }) => {
                let q = self.pipe_list()[pipe as int];
                let n = pipe_yields(q@.len(), before.len());
                &&& r == Some(n as usize)
                &&& post.table() == self.table()
                &&& post.mounts_kept(self, -1)
                &&& post.pipes_kept(self, pipe as int)
                &&& post.pipe_list()[pipe as int]@ == q@.skip(n as int)
                &&& post.pipe_list()[pipe as int].spec_closed() == q.spec_closed()
                &&& after.take(n as int) == q@.take(n as int)
                &&& after.skip(n as int) == before.skip(n as int)
            },
        }
    }

    /// Reads from the handle in slot `fd` into `buf`: a file from its offset, which then
    /// moves past what was read; a pipe as its `read` does. Nothing when the slot is empty.
    pub fn read_fd(&mut self, fd: usize, buf: &mut [u8]) -> (r: Option<usize>)
        requires
            old(self).wf(),
        ensures
            final(self).wf(),
            final(buf)@.len() == old(buf)@.len(),
            final(self).others_kept(old(self), fd as int),
            old(self).read_effect(final(self), fd as int, old(buf)@, final(buf)@, r),
    {
        let target = match self.files.get_file(fd) {
            None => {
                return None;
            },
            Some(FileHandle::Pipe { pipe }) => Some(*pipe),
            Some(FileHandle::File { .. }) => None,
        };
        match target {
            Some(p) => {
                let n = self.pipes[p].read(buf);
                proof {
                    assert forall|k: int| 0 <= k < self.pipes@.len() implies #[trigger] self.pipes@[k].wf() by {
                        if k != p {
                            assert(self.pipes@[k] == old(self).pipes@[k]);
                        }
                    }
                }
                Some(n)
            },
            None => {
                let h = self.files.replace(fd, FileHandle::Pipe { pipe: 0 });
                match h {
                    FileHandle::File { disk, node, offset } => {
                        let d = disk as usize;
                        let slot = self.filesystems[d].take();
                        match slot {
                            Some(mut fs) => {
                                let got = node.read(&mut fs, offset, buf);
                                self.filesystems.set(d, Some(fs));
                                let n = match got {
                                    Ok(n) => n,
                                    Err(_) => 0,
                                };
                                self.files.replace(fd, FileHandle::File { disk, node, offset: offset + n as u64 });
                                proof {
                                    assert forall|i: int| 0 <= i < MAX_OPEN_FILES implies (#[trigger] self.files.slot(i) matches Some(FileHandle::Pipe { pipe }) ==> pipe < self.pipes@.len()) by {
                                        if i != fd {
                                            assert(self.files.slot(i) == old(self).files.slot(i));
                                        }
                                    }
                                    assert forall|i: int| 0 <= i < MAX_OPEN_FILES implies (#[trigger] self.files.slot(i) matches Some(FileHandle::File { disk, .. }) ==> self.filesystems@[disk as int] is Some) by {
                                        if i != fd {
                                            assert(self.files.slot(i) == old(self).files.slot(i));
                                        }
                                    }
                                }
                                Some(n)
                            },
                            None => {
                                proof {
                                    assert(false);
                                }
                                None
                            },
                        }
                    },
                    FileHandle::Pipe { .. } => {
                        proof {
                            assert(false);
                        }
                        None
                    },
                }
            },
        }
    }
}


/// Writing `len` bytes at `offset` into the file of inode `idx` is within what `write` can
/// carry out on `fs`: the geometry names new blocks, the inode is a real one, the end fits in
/// 64 bits and the inode's block count has room for every block the write may allocate.
pub open spec fn write_fits<D: BlockDevice>(fs: Ext2<D>, idx: u32, inode: Inode, offset: int, len: int) -> bool {
    &&& fs.ipg() > 0
    &&& fs.block_geometry_ok()
    &&& idx >= 1
    &&& offset + len <= u64::MAX
    &&& inode.blocks + 4 * ((offset + len) / (fs.bsize() as int) - offset / (fs.bsize() as int) + 1) * (fs.bsize() / 512) <= u32::MAX
}

fn check_write_fits<D: BlockDevice>(fs: &Ext2<D>, node: &Ext2Node, offset: u64, len: usize) -> (b: bool)
    requires
        fs.wf(),
    ensures
        b == write_fits(*fs, node.inode_idx, node.inode, offset as int, len as int),
{
    if fs.inodes_per_group() == 0 || !fs.blocks_nameable() || node.inode_idx < 1 {
        return false;
    }
    if offset > u64::MAX - len as u64 {
        return false;
    }
    let bs = fs.block_size();
    proof {
        crate::fs::ext2::fs::lemma_wf_block_size(fs);
    }
    let span = (offset + len as u64) / bs - offset / bs + 1;
    let per = bs / 512;
    if span > 0x1_0000_0000 {
        proof {
            assert(4 * span * per >= 4 * 0x1_0000_0000 * 2) by (nonlinear_arith)
                requires
                    span > 0x1_0000_0000,
                    per >= 2,
            ;
        }
        return false;
    }
    proof {
        assert(4 * span * per <= 4 * 0x1_0000_0000 * 128) by (nonlinear_arith)
            requires
                span <= 0x1_0000_0000,
                per <= 128,
        ;
    }
    (node.inode.blocks as u64) + 4 * span * per <= 0xFFFF_FFFF
}

impl<D: BlockDevice> Vfs<D> {
    /// What writing `data` through slot `fd` does when the call returns `r`.
    pub open spec fn write_effect(&self, post: &Self, fd: int, data: Seq<u8>, r: Option<Result<usize, VfsError>>) -> bool {
        match self.handle_at(fd) {
            None => {
                &&& r is None
                &&& post.table() == self.table()
                &&& post.pipe_list() == self.pipe_list()
                &&& post.mounts_kept(self, -1)
            },
            Some(FileHandle::File { disk, node, offset }) => {
                let fs = self.mounted(disk as int)->Some_0;
                &&& post.pipe_list() == self.pipe_list()
                &&& post.mounts_kept(self, disk as int)
                &&& !write_fits(fs, node.inode_idx, node.inode, offset as int, data.len() as int) ==> {
                    &&& r == Some(Err::<usize, VfsError>(VfsError::Unusable))
                    &&& post.handle_at(fd) == self.handle_at(fd)
                    &&& post.mounted(disk as int) == Some(fs)
                }
                &&& write_fits(fs, node.inode_idx, node.inode, offset as int, data.len() as int) ==> {
                    &&& post.mounted(disk as int) matches Some(fs2) && fs2.bsize() == fs.bsize() && fs2.ipg() == fs.ipg()
                        && fs2.base() == fs.base() && fs2.dev().size() == fs.dev().size()
                    &&& post.handle_at(fd) matches Some(FileHandle::File { disk: disk2, node: node2, offset: offset2 }) && {
                        &&& disk2 == disk
                        &&& node2.inode_idx == node.inode_idx
                        &&& node2.name@ == node.name@
                        &&& match r {
                            Some(Ok(n)) => {
                                &&& n == data.len()
                                &&& offset2 == offset + n
                                &&& node2.inode.size == if offset + n > node.inode.size {
                                    #[verifier::truncate] ((offset + n) as u32)
                                } else {
                                    node.inode.size
                                }
                            },
                            Some(Err(e)) => offset2 == offset && e is Fs,
                            None => false,
                        }
                    }
                }
            },
            Some(FileHandle::Pipe { pipe }) => {
                let q = self.pipe_list()[pipe as int];
                &&& post.table() == self.table()
                &&& post.mounts_kept(self, -1)
                &&& post.pipes_kept(self, pipe as int)
                &&& post.pipe_list()[pipe as int].spec_closed() == q.spec_closed()
                &&& q.spec_closed() ==> r == Some(Ok::<usize, VfsError>(0)) && post.pipe_list()[pipe as int]@ == q@
                &&& !q.spec_closed() ==> {
                    let n = pipe_accepts(q@.len(), data.len());
                    &&& r == Some(Ok::<usize, VfsError>(n as usize))
                    &&& post.pipe_list()[pipe as int]@ == q@ + data.take(n as int)
                }
            },
        }
    }

    /// Writes `buf` through the handle in slot `fd`: into a file at its offset, which then
    /// moves past what was written; into a pipe as its `write` does. Nothing when the slot is
    /// empty; a file write that `write_fits` does not allow is refused as `Unusable`.
    pub fn write_fd(&mut self, fd: usize, buf: &[u8]) -> (r: Option<Result<usize, VfsError>>)
        requires
            old(self).wf(),
        ensures
            final(self).wf(),
            final(self).others_kept(old(self), fd as int),
            old(self).write_effect(final(self), fd as int, buf@, r),
    {
        let target = match self.files.get_file(fd) {
            None => {
                return None;
            },
            Some(FileHandle::Pipe { pipe }) => Some(*pipe),
            Some(FileHandle::File { .. }) => None,
        };
        match target {
            Some(p) => {
                let n = self.pipes[p].write(buf);
                proof {
                    assert forall|k: int| 0 <= k < self.pipes@.len() implies #[trigger] self.pipes@[k].wf() by {
                        if k != p {
                            assert(self.pipes@[k] == old(self).pipes@[k]);
                        }
                    }
                }
                Some(Ok(n))
            },
            None => {
                let h = self.files.replace(fd, FileHandle::Pipe { pipe: 0 });
                match h {
                    FileHandle::File { disk, mut node, offset } => {
                        let d = disk as usize;
                        let slot = self.filesystems[d].take();
                        match slot {
                            Some(mut fs) => {
                                if !check_write_fits(&fs, &node, offset, buf.len()) {
                                    self.filesystems.set(d, Some(fs));
                                    self.files.replace(fd, FileHandle::File { disk, node, offset });
                                    proof {
                                        assert(self.filesystems@ =~= old(self).filesystems@);
                                    }
                                    return Some(Err(VfsError::Unusable));
                                }
                                let got = node.write(&mut fs, offset, buf);
                                self.filesystems.set(d, Some(fs));
                                let (res, next) = match got {
                                    Ok(n) => (Ok(n), offset + n as u64),
                                    Err(e) => (Err(VfsError::Fs(e)), offset),
                                };
                                self.files.replace(fd, FileHandle::File { disk, node, offset: next });
                                proof {
                                    assert forall|i: int| 0 <= i < MAX_OPEN_FILES implies (#[trigger] self.files.slot(i) matches Some(FileHandle::Pipe { pipe }) ==> pipe < self.pipes@.len()) by {
                                        if i != fd {
                                            assert(self.files.slot(i) == old(self).files.slot(i));
                                        }
                                    }
                                    assert forall|i: int| 0 <= i < MAX_OPEN_FILES implies (#[trigger] self.files.slot(i) matches Some(FileHandle::File { disk, .. }) ==> self.filesystems@[disk as int] is Some) by {
                                        if i != fd {
                                            assert(self.files.slot(i) == old(self).files.slot(i));
                                        }
                                    }
                                }
                                Some(res)
                            },
                            None => {
                                proof {
                                    assert(false);
                                }
                                None
                            },
                        }
                    },
                    FileHandle::Pipe { .. } => {
                        proof {
                            assert(false);
                        }
                        None
                    },
                }
            },
        }
    }
}


impl<D: BlockDevice> Vfs<D> {
    /// How many bytes pipe `p` holds.
    pub fn pipe_available(&self, p: usize) -> (n: usize)
        requires
            self.wf(),
            p < self.pipe_list().len(),
        ensures
            n == self.pipe_list()[p as int]@.len(),
    {
        self.pipes[p].available()
    }

    /// What listing the directory in slot `fd` into a buffer holding `before` does: the buffer then holds `after`, the call returns `r`.
    pub open spec fn list_effect(&self, post: &Self, fd: int, before: Seq<u8>, after: Seq<u8>, r: Option<Result<(usize, usize), VfsError>>) -> bool {
        match self.handle_at(fd) {
            None => {
                &&& r is None
                &&& after == before
                &&& post.table() == self.table()
                &&& post.mounts_kept(self, -1)
            },
            Some(FileHandle::Pipe { .. }) => {
                &&& r == Some(Err::<(usize, usize), VfsError>(VfsError::Fs(Ext2Error::NotADirectory)))
                &&& after == before
                &&& post.table() == self.table()
                &&& post.mounts_kept(self, -1)
            },
            Some(FileHandle::File { disk, node, offset }) => {
                let fs = self.mounted(disk as int)->Some_0;
                &&& post.mounts_kept(self, disk as int)
                &&& kind_of_mode(node.inode.mode) != FileType::Directory ==> r == Some(Err::<(usize, usize), VfsError>(VfsError::Fs(Ext2Error::NotADirectory)))
                    && after == before && post.handle_at(fd) == self.handle_at(fd)
                    && post.mounted(disk as int) == Some(fs)
                &&& kind_of_mode(node.inode.mode) == FileType::Directory && fs.ipg() == 0 ==> r == Some(Err::<(usize, usize), VfsError>(VfsError::Unusable))
                    && after == before && post.handle_at(fd) == self.handle_at(fd)
                    && post.mounted(disk as int) == Some(fs)
                &&& kind_of_mode(node.inode.mode) == FileType::Directory && fs.ipg() > 0 ==> {
                    &&& post.mounted(disk as int) matches Some(fs2) && fs2.same_layout(&fs) && fs2.dev() == fs.dev()
                        && (fs.coherent() ==> fs2.coherent())
                    &&& r matches Some(Ok((bw, n))) && {
                        &&& bw <= before.len()
                        &&& forall|i: int| bw <= i < before.len() ==> #[trigger] after[i] == before[i]
                        &&& post.handle_at(fd) == Some(FileHandle::File {
                            disk,
                            node,
                            offset: if offset + n <= u64::MAX { (offset + n) as u64 } else { offset },
                        })
                        &&& fs.coherent() ==> ({
                            let all = fs.dir_entries_from(node.inode, 0);
                            let listed = fs.packed(
                                all.subrange(if offset < all.len() { offset as int } else { all.len() as int }, all.len() as int),
                                before.len() as int,
                            );
                            &&& bw == listed.0.len() as usize
                            &&& n == listed.1 as usize
                            &&& after.subrange(0, listed.0.len() as int) == listed.0
                        })
                    }
                }
            },
        }
    }

    /// Lists the directory open in slot `fd` into `buf` from the entry its offset counts,
    /// then moves the offset past the entries listed. Nothing when the slot is empty; a pipe
    /// or a file that is not a directory is refused.
    pub fn read_dir_fd(&mut self, fd: usize, buf: &mut [u8]) -> (r: Option<Result<(usize, usize), VfsError>>)
        requires
            old(self).wf(),
        ensures
            final(self).wf(),
            final(buf)@.len() == old(buf)@.len(),
            final(self).others_kept(old(self), fd as int),
            final(self).pipe_list() == old(self).pipe_list(),
            old(self).list_effect(final(self), fd as int, old(buf)@, final(buf)@, r),
    {
        let target = match self.files.get_file(fd) {
            None => {
                return None;
            },
            Some(FileHandle::Pipe { .. }) => {
                return Some(Err(VfsError::Fs(Ext2Error::NotADirectory)));
            },
            Some(FileHandle::File { node, .. }) => node.kind() == FileType::Directory,
        };
        if !target {
            return Some(Err(VfsError::Fs(Ext2Error::NotADirectory)));
        }
        let h = self.files.replace(fd, FileHandle::Pipe { pipe: 0 });
        match h {
            FileHandle::File { disk, node, offset } => {
                let d = disk as usize;
                let slot = self.filesystems[d].take();
                match slot {
                    Some(mut fs) => {
                        if fs.inodes_per_group() == 0 {
                            self.filesystems.set(d, Some(fs));
                            self.files.replace(fd, FileHandle::File { disk, node, offset });
                            proof {
                                assert(self.filesystems@ =~= old(self).filesystems@);
                            }
                            return Some(Err(VfsError::Unusable));
                        }
                        let got = node.read_dir(&mut fs, offset, buf);
                        self.filesystems.set(d, Some(fs));
                        let (bw, n) = match got {
                            Ok(x) => x,
                            Err(_) => (0, 0),
                        };
                        let next = if offset <= u64::MAX - n as u64 { offset + n as u64 } else { offset };
                        self.files.replace(fd, FileHandle::File { disk, node, offset: next });
                        proof {
                            assert forall|i: int| 0 <= i < MAX_OPEN_FILES implies (#[trigger] self.files.slot(i) matches Some(FileHandle::Pipe { pipe }) ==> pipe < self.pipes@.len()) by {
                                if i != fd {
                                    assert(self.files.slot(i) == old(self).files.slot(i));
                                }
                            }
                            assert forall|i: int| 0 <= i < MAX_OPEN_FILES implies (#[trigger] self.files.slot(i) matches Some(FileHandle::File { disk, .. }) ==> self.filesystems@[disk as int] is Some) by {
                                if i != fd {
                                    assert(self.files.slot(i) == old(self).files.slot(i));
                                }
                            }
                        }
                        Some(Ok((bw, n)))
                    },
                    None => {
                        proof {
                            assert(false);
                        }
                        None
                    },
                }
            },
            FileHandle::Pipe { .. } => {
                proof {
                    assert(false);
                }
                None
            },
        }
    }

    /// What seeking slot `fd` by `offset` from `whence` does when the call returns `r`.
    pub open spec fn seek_effect(&self, post: &Self, fd: int, offset: i64, whence: usize, r: Option<u64>) -> bool {
        match self.handle_at(fd) {
            Some(FileHandle::File { disk, node, offset: current }) => {
                let overflow = (whence == 1 && !(i64::MIN <= (current as i64) + offset <= i64::MAX))
                    || (whence == 2 && !(i64::MIN <= (node.inode.size as i64) + offset <= i64::MAX));
                &&& overflow ==> r is None && post.table() == self.table()
                &&& !overflow ==> r == seek_target(whence, offset, current, node.inode.size as u64)
                &&& !overflow && r is None ==> post.table() == self.table()
                &&& r matches Some(t) ==> post.handle_at(fd) == Some(FileHandle::File { disk, node, offset: t })
            },
            _ => r is None && post.table() == self.table(),
        }
    }

    /// Moves the offset of the file open in slot `fd` as `seek_target` says and returns it.
    /// Nothing when the slot is empty or holds a pipe, when the target is negative or
    /// `whence` unknown, or when the signed sum overflows.
    pub fn seek_fd(&mut self, fd: usize, offset: i64, whence: usize) -> (r: Option<u64>)
        requires
            old(self).wf(),
        ensures
            final(self).wf(),
            final(self).others_kept(old(self), fd as int),
            final(self).pipe_list() == old(self).pipe_list(),
            final(self).mounts_kept(old(self), -1),
            old(self).seek_effect(final(self), fd as int, offset, whence, r),
    {
        let (current, size) = match self.files.get_file(fd) {
            Some(FileHandle::File { node, offset: current, .. }) => (*current, node.size()),
            _ => {
                return None;
            },
        };
        if whence == 1 && (current as i64).checked_add(offset).is_none() {
            return None;
        }
        if whence == 2 && (size as i64).checked_add(offset).is_none() {
            return None;
        }
        let t = match seek_offset(whence, offset, current, size) {
            Some(t) => t,
            None => {
                return None;
            },
        };
        let h = self.files.replace(fd, FileHandle::Pipe { pipe: 0 });
        match h {
            FileHandle::File { disk, node, .. } => {
                self.files.replace(fd, FileHandle::File { disk, node, offset: t });
                proof {
                    assert forall|i: int| 0 <= i < MAX_OPEN_FILES implies (#[trigger] self.files.slot(i) matches Some(FileHandle::Pipe { pipe }) ==> pipe < self.pipes@.len()) by {
                        if i != fd {
                            assert(self.files.slot(i) == old(self).files.slot(i));
                        }
                    }
                    assert forall|i: int| 0 <= i < MAX_OPEN_FILES implies (#[trigger] self.files.slot(i) matches Some(FileHandle::File { disk, .. }) ==> self.filesystems@[disk as int] is Some) by {
                        if i != fd {
                            assert(self.files.slot(i) == old(self).files.slot(i));
                        }
                    }
                }
                Some(t)
            },
            FileHandle::Pipe { .. } => {
                proof {
                    assert(false);
                }
                None
            },
        }
    }
}


/// The directory operations that `Vfs` runs in a directory found by path.
pub enum DirOp {
    CreateFile,
    CreateDir,
    Remove,
    Rename,
}

impl<D: BlockDevice> Vfs<D> {
    /// What running a directory operation in `parent` on disk `disk_id` does when the call returns `r`.
    pub open spec fn dir_effect(&self, post: &Self, disk_id: u8, parent: Seq<char>, r: Result<(), VfsError>) -> bool {
        &&& post.mounts_kept(self, disk_id as int)
        &&& post.table() == self.table()
        &&& post.pipe_list() == self.pipe_list()
        &&& self.mounted(disk_id as int) is None ==> r == Err::<(), VfsError>(VfsError::NotMounted)
            && post.mounted(disk_id as int) is None
        &&& self.mounted(disk_id as int) matches Some(fs) ==> post.mounted(disk_id as int) matches Some(fs2) && {
            let pw = fs.walk(2, name_bytes(path_names(parent)));
            &&& fs2.base() == fs.base()
            &&& fs2.bsize() == fs.bsize()
            &&& fs2.ipg() == fs.ipg()
            &&& fs2.dev().size() == fs.dev().size()
            &&& fs.ipg() == 0 ==> r == Err::<(), VfsError>(VfsError::Unusable) && fs2 == fs
            &&& fs.ipg() > 0 && fs.coherent() && pw is Err ==> r == Err::<(), VfsError>(VfsError::Fs(pw->Err_0))
            &&& r is Ok && fs.coherent() ==> pw is Ok
            &&& r matches Err(e) ==> (e is Fs || e == VfsError::Unusable)
        }
    }

    /// Runs `op` in the directory at `parent` on disk `disk_id`: creates a file or a
    /// directory named `name`, removes the entry `name`, or renames entry `name` to
    /// `new_name`. Refused as `Unusable` where the file system's geometry or the directory's
    /// counts leave the operation no room.
    pub fn dir_op(&mut self, disk_id: u8, parent: &str, op: DirOp, name: &str, new_name: &str) -> (r: Result<(), VfsError>)
        requires
            old(self).wf(),
        ensures
            final(self).wf(),
            old(self).dir_effect(final(self), disk_id, parent@, r),
    {
        let names = path_components(parent);
        let d = disk_id as usize;
        let slot = self.filesystems[d].take();
        let mut fs = match slot {
            None => {
                return Err(VfsError::NotMounted);
            },
            Some(fs) => fs,
        };
        if fs.inodes_per_group() == 0 {
            self.filesystems.set(d, Some(fs));
            proof {
                assert(self.filesystems@ =~= old(self).filesystems@);
            }
            return Err(VfsError::Unusable);
        }
        let ghost s0 = fs;
        let found = walk_path(&mut fs, &names);
        let mut dir = match found {
            Ok(n) => n,
            Err(e) => {
                self.filesystems.set(d, Some(fs));
                return Err(VfsError::Fs(e));
            },
        };
        let bs = fs.block_size();
        proof {
            crate::fs::ext2::fs::lemma_wf_block_size(&fs);
        }
        let roomy = dir.inode_idx >= 1 && (dir.inode.blocks as u64) + bs / 512 <= 0xFFFF_FFFF && (dir.inode.size as u64) + bs
            <= 0xFFFF_FFFF;
        let r = match op {
            DirOp::CreateFile => {
                if roomy && fs.blocks_nameable() && fs.inodes_nameable() {
                    match dir.create_file(&mut fs, name) {
                        Ok(_) => Ok(()),
                        Err(e) => Err(VfsError::Fs(e)),
                    }
                } else {
                    Err(VfsError::Unusable)
                }
            },
            DirOp::CreateDir => {
                if roomy && fs.blocks_nameable() && fs.inodes_nameable() {
                    match dir.create_dir(&mut fs, name) {
                        Ok(_) => Ok(()),
                        Err(e) => Err(VfsError::Fs(e)),
                    }
                } else {
                    Err(VfsError::Unusable)
                }
            },
            DirOp::Remove => {
                match dir.remove(&mut fs, name) {
                    Ok(_) => Ok(()),
                    Err(e) => Err(VfsError::Fs(e)),
                }
            },
            DirOp::Rename => {
                if roomy && fs.blocks_nameable() {
                    match dir.rename(&mut fs, name, new_name) {
                        Ok(_) => Ok(()),
                        Err(e) => Err(VfsError::Fs(e)),
                    }
                } else {
                    Err(VfsError::Unusable)
                }
            },
        };
        self.filesystems.set(d, Some(fs));
        r
    }
}

} // verus!
