use p9fuse::attrs::{
    kind_from_mode, kind_from_qid, negative_attr, qid_to_ino, time_or_now, to_fileattr, to_setattr,
    unixtime, Changes, FileType, TimeOrNow,
};
use p9fuse::calls::{CallOf, EBADF, EIO, ENOENT};
use p9fuse::frame::{encode_frame, take_frame, Frame};
use p9fuse::fuse9p::{O_ACCMODE, O_CLOEXEC, O_RDONLY, O_RDWR, O_WRONLY};
use p9fuse::ninep::{
    name_text, parse_getattr, parse_readdir, tmsg_name, Attr, DirEntry, Qid, R, TGETATTR, TWALK, W,
};
use p9fuse::tuning::Span;

fn attr() -> Attr {
    Attr {
        qid: Qid { typ: 0x80, version: 7, path: 99 },
        mode: 0o040755,
        uid: 1000,
        gid: 100,
        nlink: 0,
        rdev: 0x1_0000_0002,
        size: 4096,
        blksize: 256,
        blocks: 8,
        atime: (10, 20),
        mtime: (30, 4_000_000_000),
        ctime: (50, 60),
    }
}

fn put_qid(w: &mut W, q: &Qid) {
    w.u8(q.typ).u32(q.version).u64(q.path);
}

fn attr_body(a: &Attr) -> Vec<u8> {
    let mut w = W::new();
    w.u64(0x7ff);
    put_qid(&mut w, &a.qid);
    w.u32(a.mode).u32(a.uid).u32(a.gid);
    w.u64(a.nlink).u64(a.rdev).u64(a.size).u64(a.blksize).u64(a.blocks);
    w.u64(a.atime.0).u64(a.atime.1);
    w.u64(a.mtime.0).u64(a.mtime.1);
    w.u64(a.ctime.0).u64(a.ctime.1);
    w.buf
}

#[test]
fn numbers_are_little_endian() {
    let mut w = W::new();
    w.u8(1).u16(0x0203).u32(0x0405_0607).u64(0x0809_0a0b_0c0d_0e0f);
    assert_eq!(
        w.buf,
        vec![1, 3, 2, 7, 6, 5, 4, 0xf, 0xe, 0xd, 0xc, 0xb, 0xa, 9, 8]
    );
    let mut r = R::new(&w.buf);
    assert_eq!(r.remaining(), 15);
    assert_eq!(r.u8(), Some(1));
    assert_eq!(r.u16(), Some(0x0203));
    assert_eq!(r.u32(), Some(0x0405_0607));
    assert_eq!(r.u64(), Some(0x0809_0a0b_0c0d_0e0f));
    assert_eq!(r.remaining(), 0);
    assert_eq!(r.u8(), None);
}

#[test]
fn strings_round_trip() {
    let mut w = W::new();
    w.str("grün").bytes(&[9, 9]);
    assert_eq!(w.buf, vec![5, 0, b'g', b'r', 0xc3, 0xbc, b'n', 9, 9]);
    let mut r = R::new(&w.buf);
    assert_eq!(r.str(), Some("grün".to_string()));
    assert_eq!(r.remaining(), 2);
    // The length announces more than is there.
    assert_eq!(R::new(&[3, 0, b'a']).str(), None);
    assert_eq!(R::new(&[3]).str(), None);
}

#[test]
fn ill_formed_names_are_repaired() {
    assert_eq!(R::new(&[3, 0, b'a', 0xff, b'b']).str(), Some("a\u{fffd}b".to_string()));
    assert_eq!(name_text(&[0xff]), "\u{fffd}");
    assert_eq!(name_text("ok".as_bytes()), "ok");
}

#[test]
fn qids_round_trip() {
    let q = Qid { typ: 2, version: 3, path: 4 };
    let mut w = W::new();
    put_qid(&mut w, &q);
    assert_eq!(w.buf.len(), 13);
    assert_eq!(R::new(&w.buf).qid(), Some(q));
    assert_eq!(R::new(&w.buf[..12]).qid(), None);
}

#[test]
fn attributes_are_parsed() {
    let body = attr_body(&attr());
    assert_eq!(body.len(), 121);
    assert_eq!(parse_getattr(&body), Some(attr()));
    assert_eq!(parse_getattr(&body[..120]), None);
}

#[test]
fn directories_are_parsed_up_to_a_cut_entry() {
    let entries = vec![
        DirEntry { qid: Qid { typ: 0x80, version: 0, path: 5 }, offset: 1, typ: 4, name: ".".into() },
        DirEntry { qid: Qid { typ: 0, version: 1, path: 6 }, offset: 2, typ: 8, name: "file".into() },
    ];
    let mut w = W::new();
    for e in &entries {
        put_qid(&mut w, &e.qid);
        w.u64(e.offset).u8(e.typ).str(&e.name);
    }
    assert_eq!(parse_readdir(&w.buf), entries);
    assert_eq!(parse_readdir(&w.buf[..w.buf.len() - 1]), entries[..1].to_vec());
    assert_eq!(parse_readdir(&[]), Vec::<DirEntry>::new());
}

#[test]
fn frames_are_cut_out_of_the_stream() {
    let mut bytes = encode_frame(24, 0x0102, &[5, 6]);
    assert_eq!(bytes, vec![9, 0, 0, 0, 24, 2, 1, 5, 6]);
    bytes.extend(encode_frame(120, 7, &[]));
    bytes.push(8);
    let first = take_frame(&mut bytes);
    assert!(matches!(&first, Some(Frame { typ: 24, body }) if *body == vec![2, 1, 5, 6]));
    let second = take_frame(&mut bytes);
    assert!(matches!(&second, Some(Frame { typ: 120, body }) if *body == vec![7, 0]));
    assert!(take_frame(&mut bytes).is_none());
    assert_eq!(bytes, vec![8]);
}

#[test]
fn message_names() {
    assert_eq!(tmsg_name(TGETATTR), "Tgetattr");
    assert_eq!(tmsg_name(TWALK), "Twalk");
    assert_eq!(tmsg_name(30), "Txattrwalk");
    assert_eq!(tmsg_name(255), "unknown");
}

#[test]
fn numbers_agree_with_the_system() {
    assert_eq!(ENOENT, libc::ENOENT);
    assert_eq!(EIO, libc::EIO);
    assert_eq!(EBADF, libc::EBADF);
    assert_eq!(O_ACCMODE as i32, libc::O_ACCMODE);
    assert_eq!(O_RDONLY as i32, libc::O_RDONLY);
    assert_eq!(O_WRONLY as i32, libc::O_WRONLY);
    assert_eq!(O_RDWR as i32, libc::O_RDWR);
    assert_eq!(O_CLOEXEC as i32, libc::O_CLOEXEC);
    assert_eq!(p9fuse::transport::AF_UNIX, libc::AF_UNIX);
    assert_eq!(p9fuse::transport::AF_INET, libc::AF_INET);
    assert_eq!(p9fuse::transport::AF_INET6, libc::AF_INET6);
    assert_eq!(p9fuse::fuse9p::AT_REMOVEDIR as i32, libc::AT_REMOVEDIR);
}

#[test]
fn inode_numbers_are_qid_paths() {
    assert_eq!(qid_to_ino(77, 77), 1);
    assert_eq!(qid_to_ino(78, 77), 78);
}

#[test]
fn attributes_for_the_kernel() {
    let f = to_fileattr(5, &attr());
    assert_eq!(f.ino, 5);
    assert_eq!(f.size, 4096);
    assert_eq!(f.blocks, 8);
    assert_eq!(f.kind, FileType::Directory);
    assert_eq!(f.perm, 0o755);
    assert_eq!(f.nlink, 1);
    assert_eq!((f.uid, f.gid), (1000, 100));
    assert_eq!(f.rdev, 2);
    assert_eq!(f.blksize, 512);
    assert_eq!(f.atime, Span { secs: 10, nanos: 20 });
    assert_eq!(f.mtime, Span { secs: 30, nanos: 999_999_999 });
    assert_eq!(f.crtime, Span { secs: 0, nanos: 0 });
    assert_eq!(unixtime((1, 2)), Span { secs: 1, nanos: 2 });
    let none = negative_attr();
    assert_eq!((none.ino, none.blksize, none.nlink), (0, 512, 0));
}

#[test]
fn file_kinds() {
    assert_eq!(kind_from_mode(0o120777), FileType::Symlink);
    assert_eq!(kind_from_mode(0o100644), FileType::RegularFile);
    assert_eq!(kind_from_mode(0o060000), FileType::RegularFile);
    assert_eq!(kind_from_qid(0x80), FileType::Directory);
    assert_eq!(kind_from_qid(0x82), FileType::Directory);
    assert_eq!(kind_from_qid(0x02), FileType::Symlink);
    assert_eq!(kind_from_qid(0x40), FileType::RegularFile);
}

#[test]
fn setattr_sends_what_changes() {
    let none = Changes { mode: None, uid: None, gid: None, size: None, atime: None, mtime: None };
    let at = Span { secs: 8, nanos: 9 };
    assert_eq!(
        to_setattr(3, &none),
        CallOf::Setattr {
            fid: 3,
            valid: 0,
            mode: 0,
            uid: 0,
            gid: 0,
            size: 0,
            atime: (0, 0),
            mtime: (0, 0),
        }
    );
    let all = Changes {
        mode: Some(0o100640),
        uid: Some(1),
        gid: Some(2),
        size: Some(3),
        atime: Some(TimeOrNow::SpecificTime(Some(at))),
        mtime: Some(TimeOrNow::Now(Some(at))),
    };
    assert_eq!(
        to_setattr(3, &all),
        CallOf::Setattr {
            fid: 3,
            valid: 0x1 | 0x2 | 0x4 | 0x8 | 0x10 | 0x80 | 0x20,
            mode: 0o640,
            uid: 1,
            gid: 2,
            size: 3,
            atime: (8, 9),
            mtime: (8, 9),
        }
    );
    assert_eq!(time_or_now(TimeOrNow::SpecificTime(None)), (0, 0));
}

#[test]
fn chmod_shows_in_stat() {
    let c = Changes {
        mode: Some(0o100600),
        uid: None,
        gid: None,
        size: None,
        atime: None,
        mtime: None,
    };
    let sent = match to_setattr(1, &c) {
        CallOf::Setattr { mode, .. } => mode,
        other => panic!("{:?}", other),
    };
    let mut a = attr();
    a.mode = 0o100000 | sent;
    assert_eq!(to_fileattr(1, &a).perm, 0o600);
}
