use namei::error::FsError;
use namei::inode::{InodeType, RcInode, ROOTINO};
use namei::kernel::{Kernel, OpenMode};
use namei::path::{FileName, Path};
use namei::proc::{Proc, NOFILE};

fn path_of(bytes: &[u8]) -> Path {
    Path::from_bytes(bytes).expect("path bytes hold a NUL")
}

fn setup(file_cap: u32) -> (Kernel, Proc) {
    let mut k = Kernel::new(10, file_cap);
    let root = k.itable.root();
    let proc = Proc::new(root, 8);
    (k, proc)
}

fn rdonly() -> OpenMode {
    OpenMode { create: false, read_write: false, write_only: false, truncate: false }
}

fn resolve(k: &mut Kernel, proc: &Proc, bytes: &[u8]) -> Result<RcInode, FsError> {
    let tx = k.begin_transaction();
    path_of(bytes).namei(&tx, proc, &mut k.itable)
}

#[test]
fn resolver_finds_root() {
    let (mut k, proc) = setup(4);
    let h = resolve(&mut k, &proc, b"/").unwrap();
    assert_eq!(h.inum(), ROOTINO);
    let h2 = resolve(&mut k, &proc, b"").unwrap();
    assert_eq!(h2.inum(), ROOTINO);
}

#[test]
fn resolver_missing_name_is_not_found() {
    let (mut k, proc) = setup(4);
    assert_eq!(resolve(&mut k, &proc, b"/nope").unwrap_err(), FsError::NotFound);
}

#[test]
fn resolver_descent_through_file_is_not_a_directory() {
    let (mut k, proc) = setup(4);
    let tx = k.begin_transaction();
    k.create(&path_of(b"/f"), InodeType::File, &tx, &proc).unwrap();
    assert_eq!(resolve(&mut k, &proc, b"/f/x").unwrap_err(), FsError::NotADirectory);
}

#[test]
fn parent_resolution_does_not_need_the_leaf() {
    let (mut k, proc) = setup(4);
    k.mkdir(&path_of(b"/d"), &proc).unwrap();
    let tx = k.begin_transaction();
    let (dp, name) = path_of(b"/d/f").nameiparent(&tx, &proc, &mut k.itable).unwrap();
    assert_eq!(name.as_bytes(), b"f");
    let d = resolve(&mut k, &proc, b"/d").unwrap();
    assert_eq!(dp.inum(), d.inum());
}

#[test]
fn parent_resolution_of_root_fails() {
    let (mut k, proc) = setup(4);
    let tx = k.begin_transaction();
    assert!(path_of(b"/").nameiparent(&tx, &proc, &mut k.itable).is_err());
    assert!(path_of(b"////").nameiparent(&tx, &proc, &mut k.itable).is_err());
}

#[test]
fn create_twice_reuses_the_same_inode() {
    let (mut k, proc) = setup(4);
    let tx = k.begin_transaction();
    let (h1, ty1) = k.create(&path_of(b"/x"), InodeType::File, &tx, &proc).unwrap();
    assert_eq!(ty1, InodeType::File);
    let root = resolve(&mut k, &proc, b"/").unwrap();
    let count_after_first = k.itable.live_entry_count(&root);
    let (h2, ty2) = k.create(&path_of(b"/x"), InodeType::File, &tx, &proc).unwrap();
    assert_eq!(h1.inum(), h2.inum());
    assert_eq!(ty2, InodeType::File);
    assert_eq!(k.itable.live_entry_count(&root), count_after_first);
}

#[test]
fn create_over_directory_already_exists() {
    let (mut k, proc) = setup(4);
    k.mkdir(&path_of(b"/d"), &proc).unwrap();
    let tx = k.begin_transaction();
    let r = k.create(&path_of(b"/d"), InodeType::File, &tx, &proc);
    assert_eq!(r.unwrap_err(), FsError::AlreadyExists);
    assert_eq!(k.mkdir(&path_of(b"/d"), &proc).unwrap_err(), FsError::AlreadyExists);
}

#[test]
fn mknod_makes_a_device_node() {
    let (mut k, proc) = setup(4);
    k.mknod(&path_of(b"/dev0"), 3, 7, &proc).unwrap();
    let h = resolve(&mut k, &proc, b"/dev0").unwrap();
    assert_eq!(k.itable.typ_of(&h), InodeType::Device { major: 3, minor: 7 });
}

#[test]
fn mkdir_links_dot_and_dotdot_and_bumps_parent() {
    let (mut k, proc) = setup(4);
    let root = resolve(&mut k, &proc, b"/").unwrap();
    let before = k.itable.nlink_of(&root);
    k.mkdir(&path_of(b"/d"), &proc).unwrap();
    assert_eq!(k.itable.nlink_of(&root), before + 1);
    let d = resolve(&mut k, &proc, b"/d").unwrap();
    let dot = resolve(&mut k, &proc, b"/d/.").unwrap();
    let dotdot = resolve(&mut k, &proc, b"/d/..").unwrap();
    assert_eq!(dot.inum(), d.inum());
    assert_eq!(dotdot.inum(), root.inum());
    assert_eq!(k.itable.nlink_of(&d), 1);
}

#[test]
fn link_and_unlink_restore_the_link_count() {
    let (mut k, proc) = setup(4);
    let tx = k.begin_transaction();
    k.create(&path_of(b"/f"), InodeType::File, &tx, &proc).unwrap();
    let f = resolve(&mut k, &proc, b"/f").unwrap();
    assert_eq!(k.itable.nlink_of(&f), 1);
    k.link(&path_of(b"/f"), &path_of(b"/g"), &proc).unwrap();
    assert_eq!(k.itable.nlink_of(&f), 2);
    let g = resolve(&mut k, &proc, b"/g").unwrap();
    assert_eq!(g.inum(), f.inum());
    k.unlink(&path_of(b"/g"), &proc).unwrap();
    assert_eq!(k.itable.nlink_of(&f), 1);
    assert_eq!(resolve(&mut k, &proc, b"/g").unwrap_err(), FsError::NotFound);
}

#[test]
fn link_refuses_directories() {
    let (mut k, proc) = setup(4);
    k.mkdir(&path_of(b"/d"), &proc).unwrap();
    let r = k.link(&path_of(b"/d"), &path_of(b"/e"), &proc);
    assert_eq!(r.unwrap_err(), FsError::TypeMismatch);
}

#[test]
fn link_across_devices_fails_and_changes_nothing() {
    let (mut k, mut proc) = setup(4);
    let tx = k.begin_transaction();
    k.create(&path_of(b"/f"), InodeType::File, &tx, &proc).unwrap();
    let f = resolve(&mut k, &proc, b"/f").unwrap();
    // A handmade directory on a second device becomes the working
    // directory, so the new name's parent resolves on that device.
    let d2 = k.itable.alloc_inode(2, InodeType::Dir, &tx).unwrap();
    k.itable.set_nlink(&d2, 1, &tx);
    let dot = FileName::from_bytes(b".").unwrap();
    let dotdot = FileName::from_bytes(b"..").unwrap();
    let d2i = d2.inum();
    k.itable.dirlink(&d2, &dot, d2i, &tx).unwrap();
    k.itable.dirlink(&d2, &dotdot, d2i, &tx).unwrap();
    proc.cwd = d2;
    let r = k.link(&path_of(b"/f"), &path_of(b"g"), &proc);
    assert_eq!(r.unwrap_err(), FsError::CrossDevice);
    assert_eq!(k.itable.nlink_of(&f), 1);
}

#[test]
fn unlink_of_non_empty_directory_fails() {
    let (mut k, proc) = setup(4);
    k.mkdir(&path_of(b"/d"), &proc).unwrap();
    let tx = k.begin_transaction();
    k.create(&path_of(b"/d/x"), InodeType::File, &tx, &proc).unwrap();
    assert_eq!(k.unlink(&path_of(b"/d"), &proc).unwrap_err(), FsError::NotEmpty);
    k.unlink(&path_of(b"/d/x"), &proc).unwrap();
    k.unlink(&path_of(b"/d"), &proc).unwrap();
    assert_eq!(resolve(&mut k, &proc, b"/d").unwrap_err(), FsError::NotFound);
}

#[test]
fn unlink_of_dot_and_dotdot_is_refused() {
    let (mut k, proc) = setup(4);
    k.mkdir(&path_of(b"/d"), &proc).unwrap();
    assert_eq!(k.unlink(&path_of(b"/d/."), &proc).unwrap_err(), FsError::InvalidName);
    assert_eq!(k.unlink(&path_of(b"/d/.."), &proc).unwrap_err(), FsError::InvalidName);
    let tx = k.begin_transaction();
    k.create(&path_of(b"/d/x"), InodeType::File, &tx, &proc).unwrap();
    assert_eq!(k.unlink(&path_of(b"/d/."), &proc).unwrap_err(), FsError::InvalidName);
}

#[test]
fn unlink_bumps_parent_down_for_directories() {
    let (mut k, proc) = setup(4);
    let root = resolve(&mut k, &proc, b"/").unwrap();
    let before = k.itable.nlink_of(&root);
    k.mkdir(&path_of(b"/d"), &proc).unwrap();
    k.unlink(&path_of(b"/d"), &proc).unwrap();
    assert_eq!(k.itable.nlink_of(&root), before);
}

#[test]
fn open_creates_and_binds_a_descriptor() {
    let (mut k, mut proc) = setup(4);
    let m = OpenMode { create: true, read_write: true, write_only: false, truncate: false };
    let fd = k.open(&path_of(b"/f"), m, &mut proc).unwrap();
    assert_eq!(fd, 0);
    assert!(proc.open_files[0].is_some());
    let f = proc.open_files[0].as_ref().unwrap();
    assert!(f.readable);
    assert!(f.writable);
}

#[test]
fn open_refuses_writing_a_directory() {
    let (mut k, mut proc) = setup(4);
    k.mkdir(&path_of(b"/d"), &proc).unwrap();
    let m = OpenMode { create: false, read_write: false, write_only: true, truncate: false };
    assert_eq!(k.open(&path_of(b"/d"), m, &mut proc).unwrap_err(), FsError::NotADirectory);
    let fd = k.open(&path_of(b"/d"), rdonly(), &mut proc).unwrap();
    assert!(proc.open_files[fd].is_some());
}

#[test]
fn open_truncates_a_regular_file_on_request() {
    let (mut k, mut proc) = setup(4);
    let m = OpenMode { create: true, read_write: false, write_only: false, truncate: false };
    k.open(&path_of(b"/f"), m, &mut proc).unwrap();
    let mt = OpenMode { create: false, read_write: true, write_only: false, truncate: true };
    k.open(&path_of(b"/f"), mt, &mut proc).unwrap();
    let f = resolve(&mut k, &proc, b"/f").unwrap();
    assert_eq!(k.itable.size_of(&f), 0);
}

#[test]
fn open_device_needs_a_registered_major() {
    let (mut k, mut proc) = setup(4);
    k.mknod(&path_of(b"/dev0"), 3, 0, &proc).unwrap();
    assert_eq!(
        k.open(&path_of(b"/dev0"), rdonly(), &mut proc).unwrap_err(),
        FsError::ResourceExhausted
    );
    k.devsw[3] = true;
    let fd = k.open(&path_of(b"/dev0"), rdonly(), &mut proc).unwrap();
    assert!(proc.open_files[fd].is_some());
}

#[test]
fn open_fails_when_the_file_pool_is_empty() {
    let (mut k, mut proc) = setup(0);
    let m = OpenMode { create: true, read_write: false, write_only: false, truncate: false };
    assert_eq!(k.open(&path_of(b"/f"), m, &mut proc).unwrap_err(), FsError::ResourceExhausted);
}

#[test]
fn chdir_moves_into_a_directory_only() {
    let (mut k, mut proc) = setup(4);
    k.mkdir(&path_of(b"/d"), &proc).unwrap();
    let tx = k.begin_transaction();
    k.create(&path_of(b"/f"), InodeType::File, &tx, &proc).unwrap();
    assert_eq!(k.chdir(&path_of(b"/f"), &mut proc).unwrap_err(), FsError::NotADirectory);
    k.chdir(&path_of(b"/d"), &mut proc).unwrap();
    // A relative create now lands in /d.
    k.create(&path_of(b"x"), InodeType::File, &tx, &proc).unwrap();
    assert!(resolve(&mut k, &proc, b"/d/x").is_ok());
}

#[test]
fn pipe_binds_two_descriptors_and_reports_them() {
    let (mut k, mut proc) = setup(8);
    k.pipe(0, &mut proc).unwrap();
    assert_eq!(proc.mem.read_word(0), 0);
    assert_eq!(proc.mem.read_word(1), 1);
    let rd = proc.open_files[0].as_ref().unwrap();
    let wr = proc.open_files[1].as_ref().unwrap();
    assert!(rd.readable && !rd.writable);
    assert!(!wr.readable && wr.writable);
    assert_eq!(k.ftable.live, 2);
}

#[test]
fn pipe_failure_on_second_descriptor_unbinds_the_first() {
    let (mut k, mut proc) = setup(64);
    let m = OpenMode { create: true, read_write: false, write_only: false, truncate: false };
    for i in 0..NOFILE - 1 {
        let mut name = b"/f".to_vec();
        name.push(b'a' + (i as u8));
        let fd = k.open(&path_of(&name), m, &mut proc).unwrap();
        assert_eq!(fd, i);
    }
    let live_before = k.ftable.live;
    assert_eq!(k.pipe(0, &mut proc).unwrap_err(), FsError::ResourceExhausted);
    assert!(proc.open_files[NOFILE - 1].is_none());
    for i in 0..NOFILE - 1 {
        assert!(proc.open_files[i].is_some());
    }
    assert_eq!(k.ftable.live, live_before);
}

#[test]
fn pipe_copy_fault_unbinds_both_descriptors() {
    let (mut k, mut proc) = setup(8);
    let m = OpenMode { create: true, read_write: false, write_only: false, truncate: false };
    k.open(&path_of(b"/f"), m, &mut proc).unwrap();
    // The second descriptor's word falls outside the 8-word window.
    assert_eq!(k.pipe(7, &mut proc).unwrap_err(), FsError::Fault);
    assert!(proc.open_files[0].is_some());
    assert!(proc.open_files[1].is_none());
    assert!(proc.open_files[2].is_none());
    assert_eq!(k.ftable.live, 1);
    // The first word had already been copied out: the reader's
    // descriptor number.
    assert_eq!(proc.mem.read_word(7), 1);
    // A wholly unmapped pair faults without copying anything.
    assert_eq!(k.pipe(8, &mut proc).unwrap_err(), FsError::Fault);
}

#[test]
fn sys_dup_and_sys_close_round_trip() {
    let (mut k, mut proc) = setup(8);
    let m = OpenMode { create: true, read_write: false, write_only: false, truncate: false };
    let fd = k.open(&path_of(b"/f"), m, &mut proc).unwrap();
    assert_eq!(fd, 0);
    let fd2 = k.sys_dup(&mut proc, 0).unwrap();
    assert_eq!(fd2, 1);
    assert_eq!(k.ftable.live, 2);
    assert_eq!(k.sys_close(&mut proc, 0).unwrap(), 0);
    assert_eq!(k.sys_close(&mut proc, 1).unwrap(), 0);
    assert!(k.sys_close(&mut proc, 1).is_err());
    assert!(k.sys_dup(&mut proc, 0).is_err());
    assert!(k.sys_dup(&mut proc, -1).is_err());
    assert_eq!(k.ftable.live, 0);
}

#[test]
fn sys_wrappers_follow_the_return_convention() {
    let (mut k, mut proc) = setup(8);
    assert_eq!(k.sys_mkdir(&path_of(b"/d"), &proc), Ok(0));
    assert_eq!(k.sys_mkdir(&path_of(b"/d"), &proc), Err(()));
    assert_eq!(k.sys_mknod(&path_of(b"/dev0"), 1, 0, &proc), Ok(0));
    let m = OpenMode { create: true, read_write: false, write_only: false, truncate: false };
    assert_eq!(k.sys_open(&path_of(b"/d/f"), m, &mut proc), Ok(0));
    assert_eq!(k.sys_link(&path_of(b"/d/f"), &path_of(b"/d/g"), &proc), Ok(0));
    assert_eq!(k.sys_link(&path_of(b"/d/f"), &path_of(b"/d/g"), &proc), Err(()));
    assert_eq!(k.sys_unlink(&path_of(b"/d/g"), &proc), Ok(0));
    assert_eq!(k.sys_unlink(&path_of(b"/d/g"), &proc), Err(()));
    assert_eq!(k.sys_chdir(&path_of(b"/d"), &mut proc), Ok(0));
    assert_eq!(k.sys_chdir(&path_of(b"/d/f"), &mut proc), Err(()));
    assert_eq!(k.sys_pipe(0, &mut proc), Ok(0));
}

#[test]
fn alternate_backend_accepts_nothing() {
    let lfs = namei::lfs::Lfs::new();
    assert!(lfs.namei(&path_of(b"/")).is_err());
    assert!(lfs.create(&path_of(b"/f")).is_err());
    assert!(lfs.link(&path_of(b"/f"), &path_of(b"/g")).is_err());
    assert!(lfs.unlink(&path_of(b"/f")).is_err());
}
