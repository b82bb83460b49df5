use p9fuse::attrs::{negative_attr, to_fileattr, Changes, FileType};
use p9fuse::calls::{Answer, AnswerOf, Call, CallOf, StatFs, EBADF, EIO, ENOENT};
use p9fuse::client::{NineClient, ROOT_FID};
use p9fuse::frame::Frame;
use p9fuse::fuse9p::{Fuse9p, AT_REMOVEDIR};
use p9fuse::invalidate;
use p9fuse::invalidate::ChildDone;
use p9fuse::ninep::{Attr, DirEntry, Qid, RVERSION};
use p9fuse::readdirplus::{
    fetch, fetched, resume_fetch, Fetch, FetchOf, Fetched, PlusStep, PlusStepOf,
};
use p9fuse::step::{DirItemOf, DrainOp, Op, ReplyOf, Step, StepOf, Wanted};
use p9fuse::tuning::{
    kernel_wants, mount_flags, MountFlag, Span, Tuning, FUSE_DO_READDIRPLUS, FUSE_READDIRPLUS_AUTO,
    FUSE_WRITEBACK_CACHE,
};
use p9fuse::writeback::{JobOf, WriteBack, WriteJob};

const ROOT_PATH: u64 = 500;

fn mounted(tuning: Tuning) -> (Fuse9p, NineClient) {
    let (client, _) = NineClient::connect(8192);
    (Fuse9p::new(&client, ROOT_PATH, tuning), client)
}

fn qid(path: u64) -> Qid {
    Qid { typ: 0, version: 0, path }
}

fn attr(path: u64) -> Attr {
    Attr {
        qid: qid(path),
        mode: 0o100644,
        uid: 1,
        gid: 2,
        nlink: 1,
        rdev: 0,
        size: 10,
        blksize: 4096,
        blocks: 1,
        atime: (0, 0),
        mtime: (0, 0),
        ctime: (0, 0),
    }
}

fn walked(path: u64) -> Result<Answer, i32> {
    Ok(AnswerOf::Qids(vec![qid(path)]))
}

fn call(s: Step) -> (Call, Op) {
    match s {
        StepOf::Call { call, op } => (call, op),
        other => panic!("no call: {:?}", other),
    }
}

fn finish(s: Step) -> (Vec<u32>, p9fuse::step::Reply) {
    match s {
        StepOf::Finish { clunks, reply } => (clunks, reply),
        other => panic!("not finished: {:?}", other),
    }
}

/// Looks a name up in the root; the server says that it is the file `path`.
fn look_up(fs: &mut Fuse9p, c: &mut NineClient, name: &str, path: u64) -> Vec<u32> {
    let (_, op) = call(fs.lookup(c, 1, name.as_bytes()));
    let (_, op) = call(fs.resume(c, op, walked(path)));
    let (clunks, reply) = finish(fs.resume(c, op, Ok(AnswerOf::Attr(attr(path)))));
    assert_eq!(
        reply,
        ReplyOf::Entry { ttl: Span { secs: 60, nanos: 0 }, attr: to_fileattr(path, &attr(path)) }
    );
    clunks
}

/// Opens a file with the given flags.
fn open(fs: &mut Fuse9p, c: &mut NineClient, ino: u64, flags: i32) -> u64 {
    let (_, op) = call(fs.open(c, ino, flags));
    let (_, op) = call(fs.resume(c, op, Ok(AnswerOf::Qids(vec![]))));
    match finish(fs.resume(c, op, Ok(AnswerOf::Opened(qid(ino), 0)))) {
        (clunks, ReplyOf::Opened { fh }) => {
            assert_eq!(clunks, vec![]);
            fh
        }
        other => panic!("{:?}", other),
    }
}

#[test]
fn lookup_walks_then_gets_attributes() {
    let (mut fs, mut c) = mounted(Tuning::default());
    let (walk, op) = call(fs.lookup(&mut c, 1, b"a"));
    assert_eq!(walk, CallOf::Walk { fid: ROOT_FID, newfid: 2, names: vec!["a".to_string()] });
    let (get, op) = call(fs.resume(&mut c, op, walked(7)));
    assert_eq!(get, CallOf::Getattr { fid: 2 });
    let (clunks, reply) = finish(fs.resume(&mut c, op, Ok(AnswerOf::Attr(attr(7)))));
    assert_eq!(clunks, vec![]);
    assert!(matches!(reply, ReplyOf::Entry { attr: a, .. } if a.ino == 7 && a.size == 10));
    // The inode's fid is the one that was walked.
    assert_eq!(call(fs.getattr(7)).0, CallOf::Getattr { fid: 2 });
    // A parent that the kernel does not hold takes no fid.
    assert_eq!(finish(fs.lookup(&mut c, 99, b"a")), (vec![], ReplyOf::Error(ENOENT)));
    assert_eq!(c.alloc_fid(), 3);
}

#[test]
fn misses_are_cached_where_asked_for() {
    let (mut fs, mut c) = mounted(Tuning::default());
    let (_, op) = call(fs.lookup(&mut c, 1, b"no"));
    assert_eq!(
        finish(fs.resume(&mut c, op, Err(ENOENT))),
        (vec![2], ReplyOf::Entry { ttl: Span { secs: 5, nanos: 0 }, attr: negative_attr() })
    );
    let (_, op) = call(fs.lookup(&mut c, 1, b"no"));
    assert_eq!(finish(fs.resume(&mut c, op, Err(13))), (vec![3], ReplyOf::Error(13)));
    let (mut fs, mut c) = mounted(Tuning::from_seconds(60, 60, 0, false, true, 16));
    let (_, op) = call(fs.lookup(&mut c, 1, b"no"));
    assert_eq!(finish(fs.resume(&mut c, op, Err(ENOENT))), (vec![2], ReplyOf::Error(ENOENT)));
}

#[test]
fn forget_drops_an_inode_with_its_last_reference() {
    let (mut fs, mut c) = mounted(Tuning::default());
    assert_eq!(look_up(&mut fs, &mut c, "a", 7), vec![]);
    // The second lookup's fid is not needed.
    assert_eq!(look_up(&mut fs, &mut c, "a", 7), vec![3]);
    assert_eq!(fs.forget(7, 1), vec![]);
    assert_eq!(call(fs.getattr(7)).0, CallOf::Getattr { fid: 2 });
    assert_eq!(fs.forget(7, 1), vec![2]);
    assert_eq!(finish(fs.getattr(7)), (vec![], ReplyOf::Error(ENOENT)));
    assert_eq!(fs.forget(7, 1), vec![]);
    // The root stays.
    assert_eq!(fs.forget(1, 1000), vec![]);
    assert_eq!(call(fs.getattr(1)).0, CallOf::Getattr { fid: ROOT_FID });
}

#[test]
fn attributes_are_told_with_their_time() {
    let (mut fs, mut c) = mounted(Tuning::from_seconds(9, 60, 5, false, true, 16));
    let told = ReplyOf::Attr { ttl: Span { secs: 9, nanos: 0 }, attr: to_fileattr(1, &attr(ROOT_PATH)) };
    let (_, op) = call(fs.getattr(1));
    assert_eq!(finish(fs.resume(&mut c, op, Ok(AnswerOf::Attr(attr(ROOT_PATH))))), (vec![], told));
    let (_, op) = call(fs.getattr(1));
    assert_eq!(finish(fs.resume(&mut c, op, Err(5))), (vec![], ReplyOf::Error(5)));
}

#[test]
fn setattr_then_getattr() {
    let (mut fs, mut c) = mounted(Tuning::default());
    let changes =
        Changes { mode: Some(0o600), uid: None, gid: None, size: None, atime: None, mtime: None };
    let (set, op) = call(fs.setattr(1, &changes));
    assert!(matches!(set, CallOf::Setattr { fid: ROOT_FID, valid: 1, mode: 0o600, .. }));
    let (get, op) = call(fs.resume(&mut c, op, Ok(AnswerOf::Done)));
    assert_eq!(get, CallOf::Getattr { fid: ROOT_FID });
    let (_, reply) = finish(fs.resume(&mut c, op, Ok(AnswerOf::Attr(attr(ROOT_PATH)))));
    assert!(matches!(reply, ReplyOf::Attr { .. }));
    assert_eq!(finish(fs.setattr(9, &changes)), (vec![], ReplyOf::Error(ENOENT)));
}

#[test]
fn open_asks_for_reading_where_writes_are_cached() {
    let (mut fs, mut c) = mounted(Tuning::default());
    let flags = libc::O_WRONLY | libc::O_CLOEXEC | libc::O_APPEND;
    let (clone, op) = call(fs.open(&mut c, 1, flags));
    assert_eq!(clone, CallOf::Walk { fid: ROOT_FID, newfid: 2, names: vec![] });
    let (lopen, op) = call(fs.resume(&mut c, op, Ok(AnswerOf::Qids(vec![]))));
    assert_eq!(
        lopen,
        CallOf::Lopen { fid: 2, flags: (libc::O_RDWR | libc::O_APPEND) as u32 }
    );
    assert_eq!(
        finish(fs.resume(&mut c, op, Ok(AnswerOf::Opened(qid(1), 0)))),
        (vec![], ReplyOf::Opened { fh: 1 })
    );
    assert_eq!(fs.writeback_depth(1), Some(16));
    // Without the cache the flags are passed on, and no write is deferred.
    let (mut fs, mut c) = mounted(Tuning::from_seconds(60, 60, 5, false, false, 16));
    let (_, op) = call(fs.open(&mut c, 1, libc::O_WRONLY));
    let (lopen, _) = call(fs.resume(&mut c, op, Ok(AnswerOf::Qids(vec![]))));
    assert_eq!(lopen, CallOf::Lopen { fid: 2, flags: libc::O_WRONLY as u32 });
    let fh = open(&mut fs, &mut c, 1, libc::O_RDWR);
    assert_eq!(fs.writeback_depth(fh), None);
}

#[test]
fn failed_opens_drop_their_fid() {
    let (mut fs, mut c) = mounted(Tuning::default());
    let (_, op) = call(fs.open(&mut c, 1, 0));
    assert_eq!(finish(fs.resume(&mut c, op, Err(13))), (vec![2], ReplyOf::Error(13)));
    let (_, op) = call(fs.opendir(&mut c, 1));
    let (lopen, op) = call(fs.resume(&mut c, op, Ok(AnswerOf::Qids(vec![]))));
    assert_eq!(lopen, CallOf::Lopen { fid: 3, flags: 0 });
    assert_eq!(finish(fs.resume(&mut c, op, Err(20))), (vec![3], ReplyOf::Error(20)));
    assert_eq!(finish(fs.open(&mut c, 9, 0)), (vec![], ReplyOf::Error(ENOENT)));
}

#[test]
fn handles_are_numbered() {
    let (mut fs, mut c) = mounted(Tuning::from_seconds(60, 60, 5, false, true, 0));
    let a = open(&mut fs, &mut c, 1, libc::O_RDONLY);
    let b = open(&mut fs, &mut c, 1, libc::O_RDWR);
    assert_eq!((a, b), (1, 2));
    assert_eq!(fs.writeback_depth(a), None);
    // A depth of 0 lets one write be in flight.
    assert_eq!(fs.writeback_depth(b), Some(1));
    assert_eq!(fs.writeback_depth(3), None);
}

#[test]
fn reads_fit_a_message() {
    let (mut fs, mut c) = mounted(Tuning::default());
    let fh = open(&mut fs, &mut c, 1, 0);
    let (read, op) = call(fs.read(fh, 5, 1_000_000));
    assert_eq!(read, CallOf::Read { fid: 2, offset: 5, count: 8192 - 24 });
    assert_eq!(
        finish(fs.resume(&mut c, op, Ok(AnswerOf::Data(vec![1, 2])))),
        (vec![], ReplyOf::Data(vec![1, 2]))
    );
    assert_eq!(call(fs.read(fh, 0, 10)).0, CallOf::Read { fid: 2, offset: 0, count: 10 });
    assert_eq!(finish(fs.read(77, 0, 10)), (vec![], ReplyOf::Error(EBADF)));
}

#[test]
fn writes_are_deferred_on_writable_handles() {
    let (mut fs, mut c) = mounted(Tuning::default());
    let fh = open(&mut fs, &mut c, 1, libc::O_RDWR);
    match fs.write(fh, 100, vec![1, 2, 3]) {
        StepOf::Defer { fh: h, job, len } => {
            assert_eq!((h, len), (fh, 3));
            assert_eq!(
                job.next(),
                Some(CallOf::Write { fid: 2, offset: 100, data: vec![1, 2, 3] })
            );
        }
        other => panic!("{:?}", other),
    }
    assert_eq!(finish(fs.write(9, 0, vec![])), (vec![], ReplyOf::Error(EBADF)));
}

#[test]
fn synchronous_writes_are_cut_up() {
    let (mut fs, mut c) = mounted(Tuning::from_seconds(60, 60, 5, false, false, 16));
    let fh = open(&mut fs, &mut c, 1, libc::O_RDWR);
    let data: Vec<u8> = (0..20_000u32).map(|i| (i * 7) as u8).collect();
    let mut file = vec![0u8; 50];
    let mut s = fs.write(fh, 50, data.clone());
    // A server that takes at most 3000 bytes of each message.
    loop {
        let (w, op) = match s {
            StepOf::Call { call, op } => (call, op),
            other => {
                assert_eq!(finish(other), (vec![], ReplyOf::Written(20_000)));
                break;
            }
        };
        let n = match w {
            CallOf::Write { fid: 2, offset, data } => {
                assert_eq!(offset as usize, file.len());
                assert!(data.len() <= 8192 - 24);
                let n = data.len().min(3000);
                file.extend_from_slice(&data[..n]);
                n
            }
            other => panic!("{:?}", other),
        };
        s = fs.resume(&mut c, op, Ok(AnswerOf::Count(n as u32)));
    }
    assert_eq!(file[50..], data[..]);
    // Nothing to write is done at once.
    assert_eq!(finish(fs.write(fh, 0, vec![])), (vec![], ReplyOf::Written(0)));
}

#[test]
fn messages_fit_what_the_server_agreed_to() {
    let (mut c, _) = NineClient::connect(512_000);
    let mut body = 4096u32.to_le_bytes().to_vec();
    body.extend([8, 0]);
    body.extend(b"9P2000.L");
    c.connect_attach(Some(Frame { typ: RVERSION, body }), 0, "/").unwrap();
    let mut fs = Fuse9p::new(&c, ROOT_PATH, Tuning::from_seconds(60, 60, 5, false, false, 16));
    let fh = open(&mut fs, &mut c, 1, libc::O_RDWR);
    let (write, _) = call(fs.write(fh, 0, vec![7; 100_000]));
    assert!(matches!(&write, CallOf::Write { data, .. } if data.len() == 4096 - 24));
    assert!(c.request(&write).frame.len() <= 4096);
    let (read, _) = call(fs.read(fh, 0, 100_000));
    assert!(matches!(read, CallOf::Read { count, .. } if 7 + 4 + count <= 4096));
}

#[test]
fn a_server_that_takes_nothing_has_failed() {
    let job: WriteJob = JobOf::new(1, 0, vec![1], 0);
    assert_eq!(job.next(), Some(CallOf::Write { fid: 1, offset: 0, data: vec![1] }));
    assert_eq!(job.advance(Ok(AnswerOf::Count(0))), Err(EIO));
    let job: WriteJob = JobOf::new(1, 0, vec![1], 10);
    assert_eq!(job.advance(Err(28)), Err(28));
    let job: WriteJob = JobOf::new(1, 0, vec![1, 2], 1);
    let job = job.advance(Ok(AnswerOf::Count(1))).unwrap();
    assert_eq!(job.next(), Some(CallOf::Write { fid: 1, offset: 1, data: vec![2] }));
    assert_eq!(job.advance(Ok(AnswerOf::Count(9))).unwrap().next(), None);
}

#[test]
fn the_first_deferred_error_is_reported_once() {
    let mut wb = WriteBack::new(3);
    assert_eq!(wb.drain(), Some(None));
    assert!(wb.start() && wb.start() && wb.start());
    // The pipeline is full until a write ends.
    assert!(!wb.start());
    wb.finished(Ok(()));
    assert!(wb.start());
    wb.finished(Err(28));
    assert_eq!(wb.drain(), None);
    wb.finished(Err(5));
    wb.finished(Ok(()));
    assert_eq!(wb.drain(), Some(Some(28)));
    assert_eq!(wb.drain(), Some(None));
}

#[test]
fn closing_waits_for_deferred_writes() {
    let (mut fs, mut c) = mounted(Tuning::default());
    let fh = open(&mut fs, &mut c, 1, libc::O_RDWR);
    assert_eq!(fs.flush(fh), StepOf::Drain { fh, op: DrainOp::Flush });
    assert_eq!(finish(fs.drained(DrainOp::Flush, Some(28))), (vec![], ReplyOf::Error(28)));
    assert_eq!(finish(fs.drained(DrainOp::Flush, None)), (vec![], ReplyOf::Empty));
    assert_eq!(fs.fsync(fh), StepOf::Drain { fh, op: DrainOp::Fsync { fid: 2 } });
    let (sync, op) = call(fs.drained(DrainOp::Fsync { fid: 2 }, None));
    assert_eq!(sync, CallOf::Fsync { fid: 2 });
    assert_eq!(finish(fs.resume(&mut c, op, Ok(AnswerOf::Done))), (vec![], ReplyOf::Empty));
    assert_eq!(
        finish(fs.drained(DrainOp::Fsync { fid: 2 }, Some(5))),
        (vec![], ReplyOf::Error(5))
    );
    assert_eq!(fs.release(fh), StepOf::Drain { fh, op: DrainOp::Release { fid: 2 } });
    assert_eq!(
        finish(fs.drained(DrainOp::Release { fid: 2 }, Some(28))),
        (vec![2], ReplyOf::Error(28))
    );
    assert_eq!(
        finish(fs.drained(DrainOp::Release { fid: 2 }, None)),
        (vec![2], ReplyOf::Empty)
    );
    // Now it is gone.
    assert_eq!(finish(fs.release(fh)), (vec![], ReplyOf::Empty));
    assert_eq!(finish(fs.flush(fh)), (vec![], ReplyOf::Empty));
    assert_eq!(finish(fs.fsync(fh)), (vec![], ReplyOf::Empty));
    // A handle that defers nothing.
    let fh = open(&mut fs, &mut c, 1, libc::O_RDONLY);
    assert_eq!(finish(fs.flush(fh)), (vec![], ReplyOf::Empty));
    assert_eq!(call(fs.fsync(fh)).0, CallOf::Fsync { fid: 3 });
    assert_eq!(finish(fs.release(fh)), (vec![3], ReplyOf::Empty));
}

fn entry(path: u64, offset: u64, name: &str) -> DirEntry {
    DirEntry { qid: Qid { typ: 0x80, version: 0, path }, offset, typ: 4, name: name.to_string() }
}

#[test]
fn directories_are_listed() {
    let (mut fs, mut c) = mounted(Tuning::default());
    let fh = open(&mut fs, &mut c, 1, 0);
    let (read, op) = call(fs.readdir(fh, 3));
    assert_eq!(read, CallOf::Readdir { fid: 2, offset: 3, count: 8192 });
    let listed = vec![entry(ROOT_PATH, 4, "."), entry(8, 5, "d")];
    assert_eq!(
        finish(fs.resume(&mut c, op, Ok(AnswerOf::Entries(listed)))),
        (
            vec![],
            ReplyOf::List(vec![
                DirItemOf { ino: 1, offset: 4, kind: FileType::Directory, name: ".".to_string() },
                DirItemOf { ino: 8, offset: 5, kind: FileType::Directory, name: "d".to_string() },
            ])
        )
    );
    assert_eq!(finish(fs.readdir(9, 0)), (vec![], ReplyOf::Error(EBADF)));
    assert_eq!(finish(fs.releasedir(fh)), (vec![2], ReplyOf::Empty));
    assert_eq!(finish(fs.releasedir(fh)), (vec![], ReplyOf::Empty));
}

fn prefetch(fs: &mut Fuse9p, c: &mut NineClient, entries: Vec<DirEntry>) -> (u32, Vec<Wanted>) {
    let fh = open(fs, c, 1, 0);
    let (_, op) = call(fs.readdirplus(1, fh, 0));
    match fs.resume(c, op, Ok(AnswerOf::Entries(entries))) {
        StepOf::Prefetch { parent, wanted } => (parent, wanted),
        other => panic!("{:?}", other),
    }
}

fn fetch_call(f: Fetch) -> (Call, p9fuse::readdirplus::FetchOp) {
    match f {
        FetchOf::Call { call, op } => (call, op),
        other => panic!("{:?}", other),
    }
}

#[test]
fn attributes_are_fetched_per_entry() {
    let (mut fs, mut c) = mounted(Tuning::default());
    let (parent, wanted) =
        prefetch(&mut fs, &mut c, vec![entry(ROOT_PATH, 1, "."), entry(8, 2, "d")]);
    assert_eq!(parent, ROOT_FID);
    assert_eq!((wanted[0].fid, wanted[1].fid), (3, 4));
    let (walk, op) = fetch_call(fetch(parent, &wanted[0]));
    assert_eq!(walk, CallOf::Walk { fid: ROOT_FID, newfid: 3, names: vec![] });
    // A walk that failed has left nothing to drop.
    assert_eq!(resume_fetch(op, Err(2)), FetchOf::Done { clunks: vec![], attr: None });
    let (walk, op) = fetch_call(fetch(parent, &wanted[1]));
    assert_eq!(
        walk,
        CallOf::Walk { fid: ROOT_FID, newfid: 4, names: vec!["d".to_string()] }
    );
    let (get, op) = fetch_call(resume_fetch(op, walked(8)));
    assert_eq!(get, CallOf::Getattr { fid: 4 });
    assert_eq!(resume_fetch(op, Err(5)), FetchOf::Done { clunks: vec![4], attr: None });
    assert_eq!(
        resume_fetch(op, Ok(AnswerOf::Attr(attr(8)))),
        FetchOf::Done { clunks: vec![], attr: Some(attr(8)) }
    );
    assert_eq!(finish(fs.readdirplus(1, 99, 0)), (vec![], ReplyOf::Error(EBADF)));
    assert_eq!(finish(fs.readdirplus(99, 1, 0)), (vec![], ReplyOf::Error(ENOENT)));
}

/// Offers the entries to a kernel that takes `room` of them; the names taken, and what is dropped.
fn offer(fs: &mut Fuse9p, list: Vec<Fetched>, room: usize) -> (Vec<String>, Vec<u32>) {
    let mut taken = Vec::new();
    let mut s: PlusStep = fs.prefetched(list);
    loop {
        match s {
            PlusStepOf::Offer { item, plus } => {
                let fits = taken.len() < room;
                if fits {
                    assert_eq!(item.ino, item.attr.ino);
                    taken.push(item.name);
                }
                s = fs.offered(plus, fits);
            }
            PlusStepOf::Finish { clunks } => return (taken, clunks),
        }
    }
}

fn with_attrs(wanted: Vec<Wanted>, missing: &str) -> Vec<Fetched> {
    wanted
        .into_iter()
        .map(|w| {
            let a = if w.entry.name == missing { None } else { Some(attr(w.entry.qid.path)) };
            fetched(w, a)
        })
        .collect()
}

#[test]
fn entries_taken_are_references() {
    let (mut fs, mut c) = mounted(Tuning::default());
    let entries = vec![
        entry(ROOT_PATH, 1, "."),
        entry(8, 2, "a"),
        entry(9, 3, "gone"),
        entry(10, 4, "b"),
        entry(11, 5, "c"),
    ];
    let (_, wanted) = prefetch(&mut fs, &mut c, entries);
    // "." is the root, which has a fid: 3 is dropped. "c" does not fit, so 7 is dropped.
    assert_eq!(
        offer(&mut fs, with_attrs(wanted, "gone"), 3),
        (vec![".".to_string(), "a".to_string(), "b".to_string()], vec![3, 7])
    );
    assert_eq!(call(fs.getattr(8)).0, CallOf::Getattr { fid: 4 });
    assert_eq!(call(fs.getattr(10)).0, CallOf::Getattr { fid: 6 });
    assert_eq!(finish(fs.getattr(11)), (vec![], ReplyOf::Error(ENOENT)));
    assert_eq!(fs.forget(8, 1), vec![4]);
}

#[test]
fn entries_after_a_full_buffer_are_dropped() {
    let (mut fs, mut c) = mounted(Tuning::default());
    let entries = vec![entry(8, 1, "a"), entry(9, 2, "gone"), entry(10, 3, "b")];
    let (_, wanted) = prefetch(&mut fs, &mut c, entries);
    assert_eq!(offer(&mut fs, with_attrs(wanted, "gone"), 0), (vec![], vec![3, 5]));
    assert_eq!(offer(&mut fs, vec![], 9), (vec![], vec![]));
}

#[test]
fn create_opens_and_registers() {
    let (mut fs, mut c) = mounted(Tuning::default());
    let (clone, op) =
        call(fs.create(&mut c, 1, b"new", 0o100644, libc::O_WRONLY | libc::O_CLOEXEC, 100));
    assert_eq!(clone, CallOf::Walk { fid: ROOT_FID, newfid: 2, names: vec![] });
    let (make, op) = call(fs.resume(&mut c, op, Ok(AnswerOf::Qids(vec![]))));
    assert_eq!(
        make,
        CallOf::Lcreate {
            dfid: 2,
            name: "new".to_string(),
            flags: libc::O_WRONLY as u32,
            mode: 0o644,
            gid: 100,
        }
    );
    let (walk, op) = call(fs.resume(&mut c, op, Ok(AnswerOf::Opened(qid(7), 0))));
    assert_eq!(walk, CallOf::Walk { fid: ROOT_FID, newfid: 3, names: vec!["new".to_string()] });
    let (get, op) = call(fs.resume(&mut c, op, walked(7)));
    assert_eq!(get, CallOf::Getattr { fid: 3 });
    assert_eq!(
        finish(fs.resume(&mut c, op, Ok(AnswerOf::Attr(attr(7))))),
        (
            vec![],
            ReplyOf::Created {
                ttl: Span { secs: 60, nanos: 0 },
                attr: to_fileattr(7, &attr(7)),
                fh: 1,
            }
        )
    );
    assert_eq!(call(fs.getattr(7)).0, CallOf::Getattr { fid: 3 });
    assert_eq!(fs.writeback_depth(1), Some(16));
    assert_eq!(fs.forget(7, 1), vec![3]);
}

#[test]
fn failed_creates_drop_both_fids() {
    let (mut fs, mut c) = mounted(Tuning::default());
    for failing in 0..4u32 {
        let openfid = 2 + 2 * failing;
        let (_, mut op) = call(fs.create(&mut c, 1, b"new", 0o644, 0, 0));
        let answers =
            vec![AnswerOf::Qids(vec![]), AnswerOf::Opened(qid(7), 0), AnswerOf::Qids(vec![qid(7)])];
        for a in answers.into_iter().take(failing as usize) {
            (_, op) = call(fs.resume(&mut c, op, Ok(a)));
        }
        assert_eq!(
            finish(fs.resume(&mut c, op, Err(28))),
            (vec![openfid, openfid + 1], ReplyOf::Error(28))
        );
    }
    assert_eq!(
        finish(fs.create(&mut c, 9, b"new", 0o644, 0, 0)),
        (vec![], ReplyOf::Error(ENOENT))
    );
}

#[test]
fn directories_and_symlinks_are_made() {
    let (mut fs, mut c) = mounted(Tuning::default());
    let (make, op) = call(fs.mkdir(&mut c, 1, b"d", 0o040755, 100));
    assert_eq!(
        make,
        CallOf::Mkdir { dfid: ROOT_FID, name: "d".to_string(), mode: 0o755, gid: 100 }
    );
    let (walk, op) = call(fs.resume(&mut c, op, Ok(AnswerOf::Made(qid(7)))));
    assert_eq!(walk, CallOf::Walk { fid: ROOT_FID, newfid: 2, names: vec!["d".to_string()] });
    let (_, op) = call(fs.resume(&mut c, op, walked(7)));
    let (clunks, reply) = finish(fs.resume(&mut c, op, Ok(AnswerOf::Attr(attr(7)))));
    assert_eq!(clunks, vec![]);
    assert!(matches!(reply, ReplyOf::Entry { attr: a, .. } if a.ino == 7));
    assert_eq!(call(fs.getattr(7)).0, CallOf::Getattr { fid: 2 });

    let (make, op) = call(fs.symlink(&mut c, 7, b"l", b"\xff/t", 100));
    assert_eq!(
        make,
        CallOf::Symlink {
            dfid: 2,
            name: "l".to_string(),
            target: "\u{fffd}/t".to_string(),
            gid: 100
        }
    );
    assert_eq!(finish(fs.resume(&mut c, op, Err(17))), (vec![3], ReplyOf::Error(17)));
    assert_eq!(finish(fs.mkdir(&mut c, 9, b"d", 0, 0)), (vec![], ReplyOf::Error(ENOENT)));
    assert_eq!(finish(fs.symlink(&mut c, 9, b"d", b"", 0)), (vec![], ReplyOf::Error(ENOENT)));
}

#[test]
fn unlink_and_rmdir() {
    let (mut fs, mut c) = mounted(Tuning::default());
    let (gone, op) = call(fs.unlink(1, b"f"));
    assert_eq!(gone, CallOf::Unlinkat { dfid: ROOT_FID, name: "f".to_string(), flags: 0 });
    assert_eq!(finish(fs.resume(&mut c, op, Ok(AnswerOf::Done))), (vec![], ReplyOf::Empty));
    let (gone, op) = call(fs.rmdir(1, b"d"));
    assert_eq!(
        gone,
        CallOf::Unlinkat { dfid: ROOT_FID, name: "d".to_string(), flags: AT_REMOVEDIR }
    );
    assert_eq!(finish(fs.resume(&mut c, op, Err(39))), (vec![], ReplyOf::Error(39)));
    assert_eq!(finish(fs.unlink(9, b"f")), (vec![], ReplyOf::Error(ENOENT)));
}

#[test]
fn renamed_files_get_a_fresh_fid() {
    let (mut fs, mut c) = mounted(Tuning::default());
    look_up(&mut fs, &mut c, "a.txt", 7);
    let (mv, op) = call(fs.rename(1, b"a.txt", 1, b"b.txt"));
    assert_eq!(
        mv,
        CallOf::Renameat {
            olddfid: ROOT_FID,
            oldname: "a.txt".to_string(),
            newdfid: ROOT_FID,
            newname: "b.txt".to_string(),
        }
    );
    let (walk, op) = call(fs.resume(&mut c, op, Ok(AnswerOf::Done)));
    assert_eq!(walk, CallOf::Walk { fid: ROOT_FID, newfid: 3, names: vec!["b.txt".to_string()] });
    assert_eq!(finish(fs.resume(&mut c, op, walked(7))), (vec![2], ReplyOf::Empty));
    assert_eq!(call(fs.getattr(7)).0, CallOf::Getattr { fid: 3 });
    // A file that the kernel does not hold.
    let (_, op) = call(fs.rename(1, b"x", 1, b"y"));
    let (_, op) = call(fs.resume(&mut c, op, Ok(AnswerOf::Done)));
    assert_eq!(finish(fs.resume(&mut c, op, walked(8))), (vec![4], ReplyOf::Empty));
    // A walk that leads nowhere.
    let (_, op) = call(fs.rename(1, b"x", 1, b"y"));
    let (_, op) = call(fs.resume(&mut c, op, Ok(AnswerOf::Done)));
    assert_eq!(
        finish(fs.resume(&mut c, op, Ok(AnswerOf::Qids(vec![])))),
        (vec![5], ReplyOf::Empty)
    );
    // A rename that the server refuses.
    let (_, op) = call(fs.rename(1, b"x", 1, b"y"));
    assert_eq!(finish(fs.resume(&mut c, op, Err(13))), (vec![], ReplyOf::Error(13)));
    assert_eq!(finish(fs.rename(1, b"x", 9, b"y")), (vec![], ReplyOf::Error(ENOENT)));
}

#[test]
fn links_and_statistics() {
    let (mut fs, mut c) = mounted(Tuning::default());
    let (_, op) = call(fs.readlink(1));
    assert_eq!(
        finish(fs.resume(&mut c, op, Ok(AnswerOf::Link("ü".to_string())))),
        (vec![], ReplyOf::Data(vec![0xc3, 0xbc]))
    );
    assert_eq!(finish(fs.readlink(9)), (vec![], ReplyOf::Error(ENOENT)));
    let st =
        StatFs { bsize: 1, blocks: 2, bfree: 3, bavail: 4, files: 5, ffree: 6, namelen: 7 };
    // An inode that is not known stands for the whole file system.
    let (stat, op) = call(fs.statfs(9));
    assert_eq!(stat, CallOf::Statfs { fid: ROOT_FID });
    assert_eq!(
        finish(fs.resume(&mut c, op, Ok(AnswerOf::Stat(st)))),
        (vec![], ReplyOf::Stat(st))
    );
    let (_, op) = call(fs.statfs(1));
    assert_eq!(
        finish(fs.resume(&mut c, op, Ok(AnswerOf::Done))),
        (vec![], ReplyOf::Error(EIO))
    );
}

#[test]
fn tuning_and_what_follows() {
    let t = Tuning::default();
    assert_eq!((t.attr_ttl.secs, t.entry_ttl.secs), (60, 60));
    assert_eq!(t.negative_ttl, Some(Span { secs: 5, nanos: 0 }));
    assert_eq!((t.readdirplus, t.writeback, t.wb_depth), (false, true, 16));
    assert_eq!(Tuning::from_seconds(60, 60, 5, false, true, 16), t);
    let w = kernel_wants(512_000, &t);
    assert_eq!((w.max_io, w.capabilities), (511_936, vec![FUSE_WRITEBACK_CACHE]));
    let w = kernel_wants(10, &Tuning::from_seconds(0, 0, 0, true, false, 1));
    assert_eq!(
        (w.max_io, w.capabilities),
        (8192, vec![FUSE_DO_READDIRPLUS | FUSE_READDIRPLUS_AUTO])
    );
    assert_eq!(
        (FUSE_WRITEBACK_CACHE, FUSE_DO_READDIRPLUS, FUSE_READDIRPLUS_AUTO),
        (1 << 16, 1 << 13, 1 << 14)
    );
    assert_eq!(mount_flags(1000), vec![MountFlag::Named, MountFlag::DefaultPermissions]);
    assert_eq!(
        mount_flags(0),
        vec![MountFlag::Named, MountFlag::DefaultPermissions, MountFlag::AllowOther]
    );
}

#[test]
fn changed_paths_are_forgotten() {
    let (_, mut c) = mounted(Tuning::default());
    let p = invalidate::start(&mut c, ROOT_FID, "  /a//b/c.txt \n").unwrap();
    assert_eq!(
        p.call,
        CallOf::Walk {
            fid: ROOT_FID,
            newfid: 2,
            names: vec!["a".to_string(), "b".to_string()]
        }
    );
    let d = invalidate::parent_walked(&mut c, ROOT_FID, ROOT_PATH, p, walked(8));
    assert_eq!((d.clunk, d.entry, d.name.as_str(), d.fid), (2, Some(8), "c.txt", 3));
    assert_eq!(
        d.call,
        CallOf::Walk {
            fid: ROOT_FID,
            newfid: 3,
            names: vec!["a".to_string(), "b".to_string(), "c.txt".to_string()]
        }
    );
    let child = |o: Result<Answer, i32>| invalidate::child_walked(ROOT_PATH, d.fid, o);
    assert_eq!(child(walked(9)), ChildDone { clunk: 3, inode: Some(9) });
    assert_eq!(child(walked(ROOT_PATH)), ChildDone { clunk: 3, inode: Some(1) });
    assert_eq!(child(Err(2)), ChildDone { clunk: 3, inode: None });
    // A name in the root, whose parent walk has no names.
    let p = invalidate::start(&mut c, ROOT_FID, "top").unwrap();
    let d =
        invalidate::parent_walked(&mut c, ROOT_FID, ROOT_PATH, p, Ok(AnswerOf::Qids(vec![])));
    assert_eq!(d.entry, Some(1));
    let p = invalidate::start(&mut c, ROOT_FID, "x/y").unwrap();
    let d = invalidate::parent_walked(&mut c, ROOT_FID, ROOT_PATH, p, Err(2));
    assert_eq!(d.entry, None);
    assert!(invalidate::start(&mut c, ROOT_FID, " // \t").is_none());
    assert!(invalidate::start(&mut c, ROOT_FID, "").is_none());
}
