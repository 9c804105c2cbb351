use lib::fs::disk::MemDisk;
use lib::fs::ext2::fs::{Ext2, Ext2Error};
use lib::fs::ext2::mkfs::format_disk;
use lib::fs::ext2::node::Ext2Node;
use lib::fs::vfs::FileType;

const DISK_BYTES: usize = 1024 * 1024;

fn fresh_fs() -> Ext2<MemDisk> {
    let mut disk = MemDisk { data: vec![0u8; DISK_BYTES] };
    assert!(format_disk(&mut disk, 0, DISK_BYTES as u64).is_ok());
    match Ext2::new(disk, 0) {
        Ok(fs) => fs,
        Err(e) => panic!("mount failed: {:?}", e),
    }
}

fn root_of(fs: &mut Ext2<MemDisk>) -> Ext2Node {
    fs.root().unwrap()
}

#[test]
fn mount_after_format_sees_root_directory() {
    let mut fs = fresh_fs();
    assert_eq!(fs.block_size(), 1024);
    let root = root_of(&mut fs);
    assert_eq!(root.inode_idx, 2);
    assert_eq!(root.name(), "/");
    assert_eq!(root.kind(), FileType::Directory);
    let dot = root.find(&mut fs, ".").unwrap();
    assert_eq!(dot.inode_idx, 2);
    let dotdot = root.find(&mut fs, "..").unwrap();
    assert_eq!(dotdot.inode_idx, 2);
}

#[test]
fn mount_refuses_a_disk_without_magic() {
    let disk = MemDisk { data: vec![0u8; DISK_BYTES] };
    match Ext2::new(disk, 0) {
        Err(e) => assert_eq!(e, Ext2Error::InvalidMagic(0)),
        Ok(_) => panic!("mounted a blank disk"),
    }
}

#[test]
fn mount_refuses_blocks_over_64k() {
    let mut disk = MemDisk { data: vec![0u8; DISK_BYTES] };
    assert!(format_disk(&mut disk, 0, DISK_BYTES as u64).is_ok());
    disk.data[1024 + 24] = 7;
    match Ext2::new(disk, 0) {
        Err(e) => assert_eq!(e, Ext2Error::UnsupportedBlockSize(7)),
        Ok(_) => panic!("mounted with 128 KiB blocks"),
    }
}

#[test]
fn lookup_of_missing_name_fails() {
    let mut fs = fresh_fs();
    let root = root_of(&mut fs);
    assert_eq!(root.find(&mut fs, "missing").err(), Some(Ext2Error::FileNotFound));
}

#[test]
fn written_bytes_read_back() {
    let mut fs = fresh_fs();
    let mut root = root_of(&mut fs);
    let mut file = root.create_file(&mut fs, "hello.txt").unwrap();
    assert_eq!(file.kind(), FileType::File);
    assert_eq!(file.size(), 0);
    let data = b"Hello, KrakeOS!";
    assert_eq!(file.write(&mut fs, 0, data), Ok(data.len()));
    assert_eq!(file.size(), data.len() as u64);
    let mut buf = [0u8; 32];
    assert_eq!(file.read(&mut fs, 0, &mut buf), Ok(data.len()));
    assert_eq!(&buf[..data.len()], &data[..]);
    let again = root.find(&mut fs, "hello.txt").unwrap();
    assert_eq!(again.inode_idx, file.inode_idx);
    assert_eq!(again.size(), data.len() as u64);
    let mut buf2 = [0u8; 32];
    assert_eq!(again.read(&mut fs, 0, &mut buf2), Ok(data.len()));
    assert_eq!(&buf2[..data.len()], &data[..]);
}

#[test]
fn overwrite_in_place_reads_back_new_bytes() {
    let mut fs = fresh_fs();
    let mut root = root_of(&mut fs);
    let mut file = root.create_file(&mut fs, "f").unwrap();
    let first = vec![b'a'; 2000];
    assert_eq!(file.write(&mut fs, 0, &first), Ok(2000));
    assert_eq!(file.write(&mut fs, 1000, b"XYZ"), Ok(3));
    assert_eq!(file.size(), 2000);
    let mut buf = vec![0u8; 2000];
    assert_eq!(file.read(&mut fs, 0, &mut buf), Ok(2000));
    assert_eq!(&buf[998..1005], b"aaXYZaa");
}

#[test]
fn write_across_blocks_reads_back() {
    let mut fs = fresh_fs();
    let mut root = root_of(&mut fs);
    let mut file = root.create_file(&mut fs, "big").unwrap();
    let data: Vec<u8> = (0..5000u32).map(|i| (i % 251) as u8).collect();
    assert_eq!(file.write(&mut fs, 100, &data), Ok(5000));
    assert_eq!(file.size(), 5100);
    let mut buf = vec![0u8; 5000];
    assert_eq!(file.read(&mut fs, 100, &mut buf), Ok(5000));
    assert_eq!(buf, data);
    let mut head = vec![9u8; 100];
    assert_eq!(file.read(&mut fs, 0, &mut head), Ok(100));
    assert!(head.iter().all(|b| *b == 0));
}

#[test]
fn read_stops_at_end_of_file() {
    let mut fs = fresh_fs();
    let mut root = root_of(&mut fs);
    let mut file = root.create_file(&mut fs, "short").unwrap();
    assert_eq!(file.write(&mut fs, 0, b"abc"), Ok(3));
    let mut buf = [7u8; 10];
    assert_eq!(file.read(&mut fs, 1, &mut buf), Ok(2));
    assert_eq!(&buf[..3], b"bc\x07");
    assert_eq!(file.read(&mut fs, 3, &mut buf), Ok(0));
    assert_eq!(file.read(&mut fs, 50, &mut buf), Ok(0));
}

#[test]
fn directory_listing_records_type_length_and_name() {
    let mut fs = fresh_fs();
    let mut root = root_of(&mut fs);
    root.create_file(&mut fs, "a.txt").unwrap();
    root.create_dir(&mut fs, "sub").unwrap();
    let mut buf = [0u8; 64];
    let (written, count) = root.read_dir(&mut fs, 0, &mut buf).unwrap();
    assert_eq!(count, 4);
    let expected: Vec<u8> = [&[2u8, 1, b'.'][..], &[2, 2, b'.', b'.'], &[1, 5, b'a', b'.', b't', b'x', b't'], &[2, 3, b's', b'u', b'b']].concat();
    assert_eq!(written, expected.len());
    assert_eq!(&buf[..written], &expected[..]);
    let mut from_two = [0u8; 64];
    let (w2, c2) = root.read_dir(&mut fs, 2, &mut from_two).unwrap();
    assert_eq!(c2, 2);
    assert_eq!(&from_two[..w2], &expected[7..]);
    let mut small = [0u8; 8];
    let (w3, c3) = root.read_dir(&mut fs, 0, &mut small).unwrap();
    assert_eq!((w3, c3), (7, 2));
}

#[test]
fn children_are_the_live_entries() {
    let mut fs = fresh_fs();
    let mut root = root_of(&mut fs);
    root.create_file(&mut fs, "one").unwrap();
    root.create_file(&mut fs, "two").unwrap();
    let kids = root.children(&mut fs).unwrap();
    let names: Vec<String> = kids.iter().map(|k| k.name()).collect();
    assert_eq!(names, vec![".", "..", "one", "two"]);
    assert_eq!(kids[2].kind(), FileType::File);
}

#[test]
fn lookups_in_a_file_are_refused() {
    let mut fs = fresh_fs();
    let mut root = root_of(&mut fs);
    let file = root.create_file(&mut fs, "plain").unwrap();
    assert_eq!(file.find(&mut fs, "x").err(), Some(Ext2Error::NotADirectory));
    assert_eq!(file.children(&mut fs).err(), Some(Ext2Error::NotADirectory));
}

#[test]
fn rename_moves_the_entry() {
    let mut fs = fresh_fs();
    let mut root = root_of(&mut fs);
    let mut file = root.create_file(&mut fs, "old").unwrap();
    assert_eq!(file.write(&mut fs, 0, b"kept"), Ok(4));
    assert_eq!(root.rename(&mut fs, "old", "new"), Ok(()));
    assert_eq!(root.find(&mut fs, "old").err(), Some(Ext2Error::FileNotFound));
    let moved = root.find(&mut fs, "new").unwrap();
    assert_eq!(moved.inode_idx, file.inode_idx);
    let mut buf = [0u8; 4];
    assert_eq!(moved.read(&mut fs, 0, &mut buf), Ok(4));
    assert_eq!(&buf, b"kept");
    assert_eq!(root.rename(&mut fs, "nothing", "else"), Err(Ext2Error::FileNotFound));
}

#[test]
fn remove_takes_the_entry_out() {
    let mut fs = fresh_fs();
    let mut root = root_of(&mut fs);
    root.create_file(&mut fs, "gone").unwrap();
    assert_eq!(root.remove(&mut fs, "gone"), Ok(()));
    assert_eq!(root.find(&mut fs, "gone").err(), Some(Ext2Error::FileNotFound));
    assert_eq!(root.remove(&mut fs, "never"), Err(Ext2Error::FileNotFound));
}

#[test]
fn removing_a_full_directory_is_refused() {
    let mut fs = fresh_fs();
    let mut root = root_of(&mut fs);
    let mut dir = root.create_dir(&mut fs, "d").unwrap();
    dir.create_file(&mut fs, "x").unwrap();
    dir.create_file(&mut fs, "y").unwrap();
    dir.create_file(&mut fs, "z").unwrap();
    assert_eq!(root.remove(&mut fs, "d"), Err(Ext2Error::DirectoryNotEmpty));
}

#[test]
fn names_over_255_bytes_are_refused() {
    let mut fs = fresh_fs();
    let mut root = root_of(&mut fs);
    let long = "n".repeat(256);
    assert_eq!(root.create_file(&mut fs, &long).err(), Some(Ext2Error::NameTooLong));
    assert_eq!(root.add_directory_entry(&mut fs, 11, &long, 1), Err(Ext2Error::NameTooLong));
}

#[test]
fn new_entries_go_into_a_fresh_directory_block() {
    let mut fs = fresh_fs();
    let mut root = root_of(&mut fs);
    let mut dir = root.create_dir(&mut fs, "empty").unwrap();
    assert_eq!(dir.size(), 0);
    dir.create_file(&mut fs, "inside").unwrap();
    assert_eq!(dir.size(), 1024);
    assert_eq!(dir.inode.blocks, 2);
    let found = dir.find(&mut fs, "inside").unwrap();
    assert_eq!(found.name(), "inside");
}

#[test]
fn single_indirect_mapping_allocates_its_pointer_block_and_reads_back() {
    let mut fs = fresh_fs();
    let root = root_of(&mut fs);
    let mut inode = root.inode;
    inode.block[12] = 0;
    let blocks_before = inode.blocks;
    assert_eq!(fs.set_block_address(&mut inode, 20, 77), Ok(()));
    assert_ne!(inode.block[12], 0);
    assert_eq!(inode.blocks, blocks_before + 2);
    assert_eq!(fs.get_block_address(&inode, 20), 77);
    assert_eq!(fs.get_block_address(&inode, 21), 0);
    assert_eq!(fs.set_block_address(&mut inode, 21, 78), Ok(()));
    assert_eq!(inode.blocks, blocks_before + 2);
    assert_eq!(fs.get_block_address(&inode, 21), 78);
    assert_eq!(fs.get_block_address(&inode, 20), 77);
}

#[test]
fn removing_a_hard_link_keeps_the_file() {
    let mut fs = fresh_fs();
    let mut root = root_of(&mut fs);
    let file = root.create_file(&mut fs, "one").unwrap();
    assert_eq!(root.add_directory_entry(&mut fs, file.inode_idx, "two", 1), Ok(()));
    let mut ino = fs.read_inode(file.inode_idx);
    ino.links_count = 2;
    fs.write_inode(file.inode_idx, &ino);
    let root = root_of(&mut fs);
    assert_eq!(root.remove(&mut fs, "one"), Ok(()));
    assert_eq!(fs.read_inode(file.inode_idx).links_count, 1);
    assert_eq!(root_of(&mut fs).find(&mut fs, "two").unwrap().inode_idx, file.inode_idx);
    assert_eq!(root_of(&mut fs).find(&mut fs, "one").err(), Some(Ext2Error::FileNotFound));
}

#[test]
fn double_and_triple_indirect_mappings_read_back() {
    let mut fs = fresh_fs();
    let root = root_of(&mut fs);
    let mut inode = root.inode;
    inode.block[13] = 0;
    inode.block[14] = 0;
    let before = inode.blocks;
    let l2 = 12 + 256 + 5;
    assert_eq!(fs.set_block_address(&mut inode, l2, 91), Ok(()));
    assert_eq!(inode.blocks, before + 4);
    assert_eq!(fs.get_block_address(&inode, l2), 91);
    let l3 = 12 + 256 + 256 * 256 + 300;
    assert_eq!(fs.set_block_address(&mut inode, l3, 92), Ok(()));
    assert_eq!(inode.blocks, before + 4 + 6);
    assert_eq!(fs.get_block_address(&inode, l3), 92);
    assert_eq!(fs.get_block_address(&inode, l3 + 1), 0);
    assert_eq!(fs.set_block_address(&mut inode, l3 + 1, 93), Ok(()));
    assert_eq!(inode.blocks, before + 4 + 6);
    assert_eq!(fs.get_block_address(&inode, l3 + 1), 93);
    assert_eq!(fs.get_block_address(&inode, l3), 92);
}

#[test]
fn a_full_directory_block_gets_a_new_block_for_the_next_entry() {
    let mut fs = fresh_fs();
    let mut root = root_of(&mut fs);
    let blocks_before = root.inode.blocks;
    for i in 0..40 {
        let name = format!("file_with_long_name_{:02}", i);
        assert!(root.create_file(&mut fs, &name).is_ok());
    }
    assert!(root.inode.blocks > blocks_before);
    let root = root_of(&mut fs);
    for i in 0..40 {
        let name = format!("file_with_long_name_{:02}", i);
        assert!(root.find(&mut fs, &name).is_ok());
    }
}
