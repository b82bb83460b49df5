use p9fuse::calls::{response_type, Answer, AnswerOf, Call, CallOf, StatFs, EIO};
use p9fuse::client::{
    attach_reply, conclude, version_reply, ConnectErrorOf, NineClient, Request, NOTAG, ROOT_FID,
};
use p9fuse::frame::{encode_frame, Frame};
use p9fuse::ninep::{
    Qid, RATTACH, RGETATTR, RLERROR, RREAD, RVERSION, RWALK, TATTACH, TCLUNK, TFSYNC, TGETATTR, TLCREATE,
    TLOPEN, TMKDIR, TREAD, TREADDIR, TREADLINK, TRENAMEAT, TSETATTR, TSTATFS, TSYMLINK, TUNLINKAT,
    TVERSION, TWALK, TWRITE, W,
};
use p9fuse::{Fuse9p, Tuning};

fn frame(typ: u8, body: Vec<u8>) -> Option<Frame> {
    Some(Frame { typ, body })
}

fn version_body(msize: u32, version: &str) -> Vec<u8> {
    let mut w = W::new();
    w.u32(msize).str(version);
    w.buf
}

fn error_body(e: u32) -> Vec<u8> {
    let mut w = W::new();
    w.u32(e);
    w.buf
}

fn qid_body(path: u64) -> Vec<u8> {
    let mut w = W::new();
    w.u8(0x80).u32(1).u64(path);
    w.buf
}

/// A client that has been connected, and whose next tag is 1.
fn connected() -> NineClient {
    let (mut c, _) = NineClient::connect(8192);
    c.receive(&encode_frame(RVERSION, NOTAG, &version_body(8192, "9P2000.L")));
    c.connect_attach(frame(RVERSION, version_body(8192, "9P2000.L")), 1000, "/export").unwrap();
    c.receive(&encode_frame(RATTACH, 0, &qid_body(5)));
    c
}

#[test]
fn connects() {
    let (mut c, version) = NineClient::connect(512_000);
    let mut body = W::new();
    body.u32(512_000).str("9P2000.L");
    assert_eq!(version.tag, NOTAG);
    assert_eq!(version.frame, encode_frame(TVERSION, NOTAG, &body.buf));

    let got = c.receive(&encode_frame(RVERSION, NOTAG, &version_body(65536, "9P2000.L")));
    assert_eq!(got.len(), 1);
    assert_eq!(got[0].tag, NOTAG);
    let attach = c
        .connect_attach(frame(RVERSION, version_body(65536, "9P2000.L")), 1000, "/export")
        .unwrap();
    let mut body = W::new();
    body.u32(ROOT_FID).u32(0xffff_ffff).str("user").str("/export").u32(1000);
    assert_eq!(attach.tag, 0);
    assert_eq!(attach.frame, encode_frame(TATTACH, 0, &body.buf));
    assert_eq!(
        attach_reply(frame(RATTACH, qid_body(42))).unwrap(),
        Qid { typ: 0x80, version: 1, path: 42 }
    );
    assert_eq!(c.alloc_fid(), ROOT_FID + 1);
    assert_eq!(c.alloc_fid(), ROOT_FID + 2);
}

#[test]
fn refuses_unfit_servers() {
    let ok = version_body(8192, "9P2000.L");
    assert_eq!(version_reply(frame(RVERSION, ok.clone())), Ok(8192));
    assert_eq!(version_reply(None), Err(ConnectErrorOf::VersionFailed(EIO)));
    assert_eq!(
        version_reply(frame(RLERROR, error_body(13))),
        Err(ConnectErrorOf::VersionFailed(13))
    );
    assert_eq!(version_reply(frame(RATTACH, ok.clone())), Err(ConnectErrorOf::NoVersion));
    assert_eq!(version_reply(frame(RVERSION, vec![1])), Err(ConnectErrorOf::ShortVersion));
    assert_eq!(
        version_reply(frame(RVERSION, ok[..8].to_vec())),
        Err(ConnectErrorOf::ShortVersion)
    );
    assert_eq!(
        version_reply(frame(RVERSION, version_body(8192, "9P2000.u"))),
        Err(ConnectErrorOf::WrongVersion("9P2000.u".to_string()))
    );
    let (mut c, _) = NineClient::connect(8192);
    assert_eq!(
        c.connect_attach(frame(RVERSION, version_body(4095, "9P2000.L")), 0, "/"),
        Err(ConnectErrorOf::TinyMsize(4095))
    );
    assert!(c.connect_attach(frame(RVERSION, version_body(4096, "9P2000.L")), 0, "/").is_ok());
    assert_eq!(
        attach_reply(frame(RLERROR, error_body(1))),
        Err(ConnectErrorOf::AttachFailed(1))
    );
    assert_eq!(
        attach_reply(frame(RATTACH, vec![0; 12])),
        Err(ConnectErrorOf::ShortAttach)
    );
}

#[test]
fn connect_errors_are_told() {
    let text = |e: ConnectErrorOf<String>| e.message();
    assert_eq!(text(ConnectErrorOf::VersionFailed(-5)), "Tversion failed: errno -5");
    assert_eq!(text(ConnectErrorOf::NoVersion), "server did not answer Tversion");
    assert_eq!(text(ConnectErrorOf::ShortVersion), "short Rversion");
    assert_eq!(
        text(ConnectErrorOf::WrongVersion("9P".to_string())),
        "server speaks 9P, not 9P2000.L"
    );
    assert_eq!(text(ConnectErrorOf::TinyMsize(100)), "server negotiated tiny msize 100");
    assert_eq!(text(ConnectErrorOf::AttachFailed(13)), "Tattach failed: errno 13");
    assert_eq!(text(ConnectErrorOf::ShortAttach), "short Rattach");
}

#[test]
fn responses_reach_their_requests_at_every_chunking() {
    let mut stream = Vec::new();
    // Answers out of order, and one that nobody waits for.
    stream.extend(encode_frame(RGETATTR, 2, &[1, 2, 3]));
    stream.extend(encode_frame(RREAD, 77, &[]));
    stream.extend(encode_frame(RLERROR, 1, &error_body(2)));
    for chunk in 1..=stream.len() {
        let mut c = connected();
        let a = c.getattr(10);
        let b = c.getattr(11);
        assert_eq!((a.tag, b.tag), (1, 2));
        let mut got = Vec::new();
        for part in stream.chunks(chunk) {
            got.extend(c.receive(part));
        }
        assert_eq!(got.len(), 2);
        assert_eq!((got[0].tag, got[0].frame.typ), (2, RGETATTR));
        assert_eq!(got[0].frame.body, vec![1, 2, 3]);
        assert_eq!((got[1].tag, got[1].frame.typ), (1, RLERROR));
        // The same answers again find nobody waiting.
        assert_eq!(c.receive(&stream).len(), 0);
    }
}

#[test]
fn abandoned_requests_do_not_wait() {
    let mut c = connected();
    let a = c.clunk(4);
    c.abandon(a.tag);
    assert_eq!(c.receive(&encode_frame(121, a.tag, &[])).len(), 0);
    let b = c.clunk(4);
    c.close();
    assert_eq!(c.receive(&encode_frame(121, b.tag, &[])).len(), 0);
}

#[test]
fn tags_skip_the_one_for_versions() {
    let mut c = connected();
    let mut seen = vec![0u32; 65536];
    for _ in 0..65535u32 {
        let tag = c.alloc_tag();
        seen[tag as usize] += 1;
    }
    assert!(seen[..65535].iter().all(|n| *n == 1));
    assert_eq!(seen[NOTAG as usize], 0);
    assert_eq!(c.clunk(1).tag, 1);
}

fn body_of(r: &Request, typ: u8) -> Vec<u8> {
    let body = r.frame[7..].to_vec();
    assert_eq!(r.frame, encode_frame(typ, r.tag, &body));
    assert_eq!(r.expect, typ + 1);
    body
}

fn built(fill: impl Fn(&mut W)) -> Vec<u8> {
    let mut w = W::new();
    fill(&mut w);
    w.buf
}

#[test]
fn requests_on_the_wire() {
    let mut c = connected();
    let b = |w: &Request, t: u8| body_of(w, t);
    assert_eq!(
        b(&c.walk(1, 2, &["a", "bc"]), TWALK),
        built(|w| {
            w.u32(1).u32(2).u16(2).str("a").str("bc");
        })
    );
    assert_eq!(
        b(&c.walk(1, 2, &[]), TWALK),
        built(|w| {
            w.u32(1).u32(2).u16(0);
        })
    );
    assert_eq!(
        b(&c.getattr(3), TGETATTR),
        built(|w| {
            w.u32(3).u64(0x3fff);
        })
    );
    assert_eq!(
        b(&c.setattr(1, 2, 3, 4, 5, 6, (7, 8), (9, 10)), TSETATTR),
        built(|w| {
            w.u32(1).u32(2).u32(3).u32(4).u32(5).u64(6).u64(7).u64(8).u64(9).u64(10);
        })
    );
    assert_eq!(
        b(&c.lopen(1, 2), TLOPEN),
        built(|w| {
            w.u32(1).u32(2);
        })
    );
    assert_eq!(
        b(&c.lcreate(1, "n", 2, 3, 4), TLCREATE),
        built(|w| {
            w.u32(1).str("n").u32(2).u32(3).u32(4);
        })
    );
    assert_eq!(
        b(&c.mkdir(1, "n", 2, 3), TMKDIR),
        built(|w| {
            w.u32(1).str("n").u32(2).u32(3);
        })
    );
    assert_eq!(
        b(&c.readdir(1, 2, 3), TREADDIR),
        built(|w| {
            w.u32(1).u64(2).u32(3);
        })
    );
    assert_eq!(
        b(&c.read(1, 2, 3), TREAD),
        built(|w| {
            w.u32(1).u64(2).u32(3);
        })
    );
    assert_eq!(
        b(&c.write(1, 2, &[9, 8]), TWRITE),
        built(|w| {
            w.u32(1).u64(2).u32(2).bytes(&[9, 8]);
        })
    );
    assert_eq!(
        b(&c.clunk(1), TCLUNK),
        built(|w| {
            w.u32(1);
        })
    );
    assert_eq!(
        b(&c.unlinkat(1, "n", 0x200), TUNLINKAT),
        built(|w| {
            w.u32(1).str("n").u32(0x200);
        })
    );
    assert_eq!(
        b(&c.fsync(1), TFSYNC),
        built(|w| {
            w.u32(1).u32(0);
        })
    );
    assert_eq!(
        b(&c.renameat(1, "a", 2, "b"), TRENAMEAT),
        built(|w| {
            w.u32(1).str("a").u32(2).str("b");
        })
    );
    assert_eq!(
        b(&c.symlink(1, "n", "t", 2), TSYMLINK),
        built(|w| {
            w.u32(1).str("n").str("t").u32(2);
        })
    );
    assert_eq!(
        b(&c.readlink(1), TREADLINK),
        built(|w| {
            w.u32(1);
        })
    );
    assert_eq!(
        b(&c.statfs(1), TSTATFS),
        built(|w| {
            w.u32(1);
        })
    );
}

#[test]
fn calls_make_the_same_requests() {
    let mut a = connected();
    let mut b = connected();
    let calls: Vec<(Call, Request)> = vec![
        (
            CallOf::Walk { fid: 1, newfid: 2, names: vec!["x".to_string()] },
            a.walk(1, 2, &["x"]),
        ),
        (
            CallOf::Write { fid: 1, offset: 3, data: vec![1, 2] },
            a.write(1, 3, &[1, 2]),
        ),
        (
            CallOf::Renameat {
                olddfid: 1,
                oldname: "a".to_string(),
                newdfid: 2,
                newname: "b".to_string(),
            },
            a.renameat(1, "a", 2, "b"),
        ),
    ];
    for (call, request) in calls {
        assert_eq!(b.request(&call), request);
    }
}

/// What comes of a call of the given type when the server answers with `body`.
fn answer(typ: u8, body: Vec<u8>) -> Result<Answer, i32> {
    let n = "n".to_string();
    let call: Call = match typ {
        TWALK => CallOf::Walk { fid: 1, newfid: 2, names: vec![n] },
        TGETATTR => CallOf::Getattr { fid: 1 },
        TLOPEN => CallOf::Lopen { fid: 1, flags: 0 },
        TLCREATE => CallOf::Lcreate { dfid: 1, name: n, flags: 0, mode: 0, gid: 0 },
        TMKDIR => CallOf::Mkdir { dfid: 1, name: n, mode: 0, gid: 0 },
        TSYMLINK => CallOf::Symlink { dfid: 1, name: n.clone(), target: n, gid: 0 },
        TREAD => CallOf::Read { fid: 1, offset: 0, count: 9 },
        TREADDIR => CallOf::Readdir { fid: 1, offset: 0, count: 9 },
        TWRITE => CallOf::Write { fid: 1, offset: 0, data: vec![] },
        TREADLINK => CallOf::Readlink { fid: 1 },
        TSTATFS => CallOf::Statfs { fid: 1 },
        TCLUNK => CallOf::Clunk { fid: 1 },
        other => panic!("{}", other),
    };
    assert_eq!(response_type(&call), typ + 1);
    conclude(&call, frame(typ + 1, body))
}

#[test]
fn partial_walks_fail() {
    let call = |names: Vec<&str>| -> Call {
        let names = names.into_iter().map(|n| n.to_string()).collect();
        CallOf::Walk { fid: 1, newfid: 2, names }
    };
    let body = |paths: &[u64]| -> Vec<u8> {
        let mut b = (paths.len() as u16).to_le_bytes().to_vec();
        for p in paths {
            b.extend(qid_body(*p));
        }
        b
    };
    let q = |path: u64| Qid { typ: 0x80, version: 1, path };
    assert_eq!(
        conclude(&call(vec!["a", "b"]), frame(RWALK, body(&[6, 7]))),
        Ok(AnswerOf::Qids(vec![q(6), q(7)]))
    );
    // The server got only as far as the first name.
    assert_eq!(conclude(&call(vec!["a", "b"]), frame(RWALK, body(&[6]))), Err(EIO));
    assert_eq!(conclude(&call(vec!["a"]), frame(RWALK, body(&[]))), Err(EIO));
    assert_eq!(conclude(&call(vec!["a"]), frame(RWALK, body(&[6, 7]))), Err(EIO));
    // A clone has no names and no qids.
    assert_eq!(conclude(&call(vec![]), frame(RWALK, body(&[]))), Ok(AnswerOf::Qids(vec![])));
}

#[test]
fn the_negotiated_size_is_kept_to() {
    let (mut c, _) = NineClient::connect(512_000);
    assert_eq!(c.msize(), 512_000);
    c.connect_attach(frame(RVERSION, version_body(8192, "9P2000.L")), 0, "/").unwrap();
    assert_eq!((c.msize(), c.root_fid()), (8192, ROOT_FID));
    let fs = Fuse9p::new(&c, 5, Tuning::from_seconds(60, 60, 5, false, false, 16));
    assert_eq!(fs.kernel_wants().max_io, 8192);
    // A server that offers more than was asked for does not raise it.
    let (mut c, _) = NineClient::connect(65536);
    c.connect_attach(frame(RVERSION, version_body(512_000, "9P2000.L")), 0, "/").unwrap();
    assert_eq!(c.msize(), 65536);
    let fs = Fuse9p::new(&c, 5, Tuning::default());
    assert_eq!(fs.kernel_wants().max_io, 65536 - 64);
}

#[test]
fn answers_are_decoded() {
    let q = Qid { typ: 0x80, version: 1, path: 6 };
    let mut walk = vec![1, 0];
    walk.extend(qid_body(6));
    assert_eq!(answer(TWALK, walk.clone()), Ok(AnswerOf::Qids(vec![q])));
    walk.pop();
    assert_eq!(answer(TWALK, walk), Err(EIO));
    let mut open = qid_body(6);
    open.extend([0, 1, 0, 0]);
    assert_eq!(answer(TLOPEN, open.clone()), Ok(AnswerOf::Opened(q, 256)));
    assert_eq!(answer(TLCREATE, open[..16].to_vec()), Err(EIO));
    assert_eq!(answer(TMKDIR, qid_body(6)), Ok(AnswerOf::Made(q)));
    assert_eq!(answer(TSYMLINK, vec![]), Err(EIO));
    assert_eq!(answer(TREAD, vec![2, 0, 0, 0, 7, 8]), Ok(AnswerOf::Data(vec![7, 8])));
    // A count beyond what is there, and one short of it.
    assert_eq!(answer(TREAD, vec![9, 0, 0, 0, 7, 8]), Ok(AnswerOf::Data(vec![7, 8])));
    assert_eq!(answer(TREAD, vec![1, 0, 0, 0, 7, 8]), Ok(AnswerOf::Data(vec![7])));
    assert_eq!(answer(TREAD, vec![1, 0, 0]), Err(EIO));
    assert_eq!(answer(TREADDIR, vec![0, 0, 0, 0]), Ok(AnswerOf::Entries(vec![])));
    assert_eq!(answer(TWRITE, vec![5, 0, 0, 0]), Ok(AnswerOf::Count(5)));
    assert_eq!(answer(TREADLINK, vec![1, 0, b't']), Ok(AnswerOf::Link("t".to_string())));
    assert_eq!(answer(TCLUNK, vec![]), Ok(AnswerOf::Done));
    assert_eq!(answer(TGETATTR, vec![0; 120]), Err(EIO));
    let stat = built(|w| {
        w.u32(1).u32(2).u64(3).u64(4).u64(5).u64(6).u64(7).u64(8).u32(9);
    });
    assert_eq!(
        answer(TSTATFS, stat),
        Ok(AnswerOf::Stat(StatFs {
            bsize: 2,
            blocks: 3,
            bfree: 4,
            bavail: 5,
            files: 6,
            ffree: 7,
            namelen: 9
        }))
    );
}

#[test]
fn errors_are_error_numbers() {
    let clunk: Call = CallOf::Clunk { fid: 1 };
    assert_eq!(conclude(&clunk, frame(RLERROR, error_body(17))), Err(17));
    assert_eq!(conclude(&clunk, frame(RLERROR, vec![1])), Err(EIO));
    assert_eq!(conclude(&clunk, None), Err(EIO));
    // An answer of another type.
    assert_eq!(conclude(&clunk, frame(RREAD, vec![])), Err(EIO));
}
