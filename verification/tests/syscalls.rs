use lib::interrupts::syscalls::process::{spawn_plan, SpawnError};
use lib::interrupts::syscalls::fs::{disk_and_path, resolve_path, seek_offset};
use lib::interrupts::syscalls::{decode_syscall, Syscall};
use lib::fs::vfs::{OpenFiles, VfsError};

#[test]
fn syscall_numbers_decode_to_requests() {
    assert_eq!(decode_syscall(0), Syscall::ReadFile);
    assert_eq!(decode_syscall(1), Syscall::WriteFile);
    assert_eq!(decode_syscall(4), Syscall::FileSize);
    assert_eq!(decode_syscall(5), Syscall::FileSize);
    assert_eq!(decode_syscall(83), Syscall::CreateDir);
    assert_eq!(decode_syscall(85), Syscall::CreateFile);
    assert_eq!(decode_syscall(84), Syscall::Remove);
    assert_eq!(decode_syscall(87), Syscall::Remove);
    assert_eq!(decode_syscall(104), Syscall::GetEvents);
    assert_eq!(decode_syscall(165), Syscall::Mount);
    assert_eq!(decode_syscall(11), Syscall::Ignored);
    assert_eq!(decode_syscall(39), Syscall::Unknown);
    assert_eq!(decode_syscall(101), Syscall::Unknown);
    assert_eq!(decode_syscall(u64::MAX), Syscall::Unknown);
}

#[test]
fn paths_resolve_against_the_working_directory() {
    assert_eq!(resolve_path("@0xE0/home/", "docs/a.txt"), "@0xE0/home/docs/a.txt");
    assert_eq!(resolve_path("@0xE0/home/", "/etc/x"), "@0xE0/etc/x");
    assert_eq!(resolve_path("@0xE0/home/", "@1/bin"), "@1/bin");
    assert_eq!(resolve_path("@0xE0/a/b/", "../../../c/./d//"), "@0xE0/c/d");
}

#[test]
fn resolved_paths_split_into_disk_and_path() {
    assert_eq!(disk_and_path("@0xE0/home/x"), (0xE0, String::from("home/x")));
    assert_eq!(disk_and_path("@0XE1"), (0xE1, String::new()));
    assert_eq!(disk_and_path("@12/a"), (12, String::from("a")));
    assert_eq!(disk_and_path("@+7/a"), (7, String::from("a")));
    assert_eq!(disk_and_path("@ff/a"), (0xFF, String::from("a")));
    assert_eq!(disk_and_path("@1a/"), (0x1A, String::new()));
    assert_eq!(disk_and_path("@300/a/b"), (0xFF, String::from("a/b")));
    assert_eq!(disk_and_path("@zz"), (0xFF, String::new()));
}

#[test]
fn seek_moves_from_start_current_or_end() {
    assert_eq!(seek_offset(0, 10, 99, 1000), Some(10));
    assert_eq!(seek_offset(1, -9, 100, 1000), Some(91));
    assert_eq!(seek_offset(2, -1000, 100, 1000), Some(0));
    assert_eq!(seek_offset(2, -1001, 100, 1000), None);
    assert_eq!(seek_offset(3, 0, 0, 0), None);
    assert_eq!(seek_offset(0, -1, 0, 0), None);
}

#[test]
fn open_files_take_the_first_free_slot_from_three() {
    let mut t: OpenFiles<&str> = OpenFiles::new();
    assert_eq!(t.open_file("a"), Ok(3));
    assert_eq!(t.open_file("b"), Ok(4));
    assert_eq!(t.get_file(3), Some(&"a"));
    assert_eq!(t.get_file(0), None);
    assert_eq!(t.get_file(999), None);
    assert_eq!(t.close_file(3), Some("a"));
    assert_eq!(t.get_file(3), None);
    assert_eq!(t.open_file("c"), Ok(3));
    assert_eq!(t.free_pair(), Some((5, 6)));
}

#[test]
fn shared_files_close_on_the_last_reference() {
    let mut t: OpenFiles<u32> = OpenFiles::new();
    let fd = t.open_file(7).unwrap();
    t.increment_ref(fd);
    assert_eq!(t.close_file(fd), None);
    assert_eq!(t.get_file(fd), Some(&7));
    assert_eq!(t.close_file(fd), Some(7));
    assert_eq!(t.close_file(fd), None);
    t.increment_ref(fd);
    assert_eq!(t.get_file(fd), None);
}

#[test]
fn a_full_table_refuses_to_open() {
    let mut t: OpenFiles<usize> = OpenFiles::new();
    for i in 3..256 {
        assert_eq!(t.open_file(i), Ok(i));
    }
    assert_eq!(t.open_file(0), Err(VfsError::NoFreeDescriptors));
    assert_eq!(t.free_pair(), None);
    t.install(200, 1);
    assert_eq!(t.get_file(200), Some(&1));
}

#[test]
fn unknown_calls_are_answered_with_all_ones() {
    use_dispatch();
}

fn use_dispatch() {
    let (s, a) = lib::interrupts::syscalls::dispatch_answer(9999);
    assert_eq!(s, lib::interrupts::syscalls::Syscall::Unknown);
    assert_eq!(a, Some(u64::MAX));
    assert_eq!(lib::interrupts::syscalls::dispatch_answer(11).1, Some(0));
    assert_eq!(lib::interrupts::syscalls::dispatch_answer(165).1, Some(0));
    assert_eq!(lib::interrupts::syscalls::dispatch_answer(0).1, None);
}

#[test]
fn spawning_reads_disk_path_and_name_from_the_resolved_path() {
    let p = spawn_plan("@0xE0/sys/bin/term.elf", None, None).unwrap();
    assert_eq!(p.disk, 0xE0);
    assert_eq!(p.path, "sys/bin/term.elf");
    assert_eq!(p.name, "term.elf");
    assert_eq!(p.fds, [-1i16; 16]);
    let q = spawn_plan("@1/init", None, None).unwrap();
    assert_eq!((q.disk, q.path.as_str(), q.name.as_str()), (1, "init", "init"));
    assert_eq!(spawn_plan("sys/bin/term.elf", None, None).unwrap_err(), SpawnError::InvalidPath);
    assert_eq!(spawn_plan("", None, None).unwrap_err(), SpawnError::InvalidPath);
}

#[test]
fn a_child_inherits_or_remaps_the_parent_descriptors() {
    let mut parent = [-1i16; 16];
    parent[0] = 5;
    parent[1] = 6;
    parent[2] = 7;
    let same = spawn_plan("@0xE0/a", Some(&parent), None).unwrap();
    assert_eq!(same.fds, parent);
    let remapped = spawn_plan("@0xE0/a", Some(&parent), Some(&[(0, 2), (1, 1), (3, 20), (20, 0)])).unwrap();
    let mut want = [-1i16; 16];
    want[0] = 7;
    want[1] = 6;
    assert_eq!(remapped.fds, want);
    let orphan = spawn_plan("@0xE0/a", None, Some(&[(0, 2)])).unwrap();
    assert_eq!(orphan.fds, [-1i16; 16]);
}
