use vstd::prelude::*;
use crate::interrupts::syscalls::fs::{disk_and_path, disk_id_of, first_slash};
use crate::text::{chars_of, push_char};

verus! {

/// Descriptor slots of a process.
pub const PROCESS_FDS: usize = 16;

/// What starting a program comes to before its file is read: the disk and the path on it,
/// the process name (the last component of the path) and the descriptor table it starts
/// with.
#[derive(Debug)]
pub struct SpawnPlan {
    pub disk: u8,
    pub path: String,
    pub name: String,
    pub fds: [i16; PROCESS_FDS],
}

/// Why a program is not started.
#[derive(Debug, Clone, Copy, PartialEq, Eq, Structural)]
pub enum SpawnError {
    /// The resolved path does not start with a disk component ("@...").
    InvalidPath,
}

/// What follows the last '/' of `s` (all of `s` when there is none).
pub open spec fn last_component(s: Seq<char>) -> Seq<char>
    decreases s.len(),
{
    if s.len() == 0 {
        Seq::empty()
    } else if s.last() == '/' {
        Seq::empty()
    } else {
        last_component(s.drop_last()).push(s.last())
    }
}

/// The child's table after the first `n` entries of `map`, each `(child, parent)` pair
/// with both below `PROCESS_FDS` copying the parent's descriptor; untouched slots are -1.
pub open spec fn mapped_fds(parent: Seq<i16>, map: Seq<(u8, u8)>, n: int) -> Seq<i16>
    decreases n,
{
    if n <= 0 {
        Seq::new(PROCESS_FDS as nat, |i: int| -1i16)
    } else {
        let prev = mapped_fds(parent, map, n - 1);
        let (c, p) = map[n - 1];
        if (p as int) < PROCESS_FDS && (c as int) < PROCESS_FDS {
            prev.update(c as int, parent[p as int])
        } else {
            prev
        }
    }
}

/// The table a child starts with: all -1 without a parent; the parent's own table without
/// a map; else the table `map` builds from it.
pub open spec fn inherited_fds(parent: Option<Seq<i16>>, map: Option<Seq<(u8, u8)>>) -> Seq<i16> {
    match parent {
        None => Seq::new(PROCESS_FDS as nat, |i: int| -1i16),
        Some(p) => match map {
            None => p,
            Some(m) => mapped_fds(p, m, m.len() as int),
        },
    }
}

/// Builds a child's descriptor table as `inherited_fds` says.
pub fn inherit_fds(parent: Option<&[i16; PROCESS_FDS]>, map: Option<&[(u8, u8)]>) -> (r: [i16; PROCESS_FDS])
    ensures
        r@ == inherited_fds(
            match parent { Some(p) => Some(p@), None => None },
            match map { Some(m) => Some(m@), None => None },
        ),
{
    match parent {
        None => {
            let r = [-1i16; PROCESS_FDS];
            assert(r@ =~= Seq::new(PROCESS_FDS as nat, |i: int| -1i16));
            r
        },
        Some(p) => match map {
            None => *p,
            Some(m) => {
                let mut out = [-1i16; PROCESS_FDS];
                assert(out@ =~= mapped_fds(p@, m@, 0));
                let mut k: usize = 0;
                while k < m.len()
                    invariant
                        k <= m@.len(),
                        out@ == mapped_fds(p@, m@, k as int),
                    decreases m@.len() - k,
                {
                    let (c, q) = m[k];
                    if (q as usize) < PROCESS_FDS && (c as usize) < PROCESS_FDS {
                        out[c as usize] = p[q as usize];
                    }
                    k += 1;
                    proof {
                        assert(out@ =~= mapped_fds(p@, m@, k as int));
                    }
                }
                out
            },
        },
    }
}

/// The plan for starting the program at `resolved` (a path already resolved against the
/// working directory), given the parent's descriptor table when there is a parent and the
/// optional (child, parent) descriptor map: refused unless the path starts with '@'.
pub fn spawn_plan(resolved: &str, parent: Option<&[i16; PROCESS_FDS]>, map: Option<&[(u8, u8)]>) -> (r: Result<SpawnPlan, SpawnError>)
    ensures
        (resolved@.len() == 0 || resolved@[0] != '@') <==> r == Err::<SpawnPlan, SpawnError>(SpawnError::InvalidPath),
        r matches Ok(p) ==> {
            let s = resolved@;
            let k = first_slash(s);
            let rest = if k < s.len() { s.subrange(k + 1, s.len() as int) } else { Seq::<char>::empty() };
            &&& p.disk == disk_id_of(s.subrange(1, k))
            &&& p.path@ == rest
            &&& p.name@ == last_component(rest)
            &&& p.fds@ == inherited_fds(
                match parent { Some(q) => Some(q@), None => None },
                match map { Some(m) => Some(m@), None => None },
            )
        },
{
    let cs = chars_of(resolved);
    if cs.len() == 0 || cs[0] != '@' {
        return Err(SpawnError::InvalidPath);
    }
    let (disk, path) = disk_and_path(resolved);
    let pc = chars_of(path.as_str());
    let n = pc.len();
    let mut start: usize = 0;
    let mut i: usize = 0;
    while i < n
        invariant
            n == pc@.len(),
            start <= i <= n,
            last_component(pc@.take(i as int)) == pc@.subrange(start as int, i as int),
        decreases n - i,
    {
        proof {
            assert(pc@.take(i + 1).drop_last() =~= pc@.take(i as int));
        }
        if pc[i] == '/' {
            start = i + 1;
        }
        i += 1;
        proof {
            assert(pc@.subrange(start as int, i as int) =~= last_component(pc@.take(i as int)));
        }
    }
    assert(pc@.take(n as int) =~= pc@);
    let mut name = String::new();
    let mut j = start;
    while j < n
        invariant
            n == pc@.len(),
            start <= j <= n,
            name@ == pc@.subrange(start as int, j as int),
        decreases n - j,
    {
        push_char(&mut name, pc[j]);
        assert(name@ =~= pc@.subrange(start as int, j + 1));
        j += 1;
    }
    let fds = inherit_fds(parent, map);
    Ok(SpawnPlan { disk, path, name, fds })
}

} // verus!
