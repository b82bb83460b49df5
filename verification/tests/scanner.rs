use p9fuse::mount9p::{FrameHead, FrameScanner};
use p9fuse::ninep::{RCLUNK, TFLUSH, TGETATTR, TWRITE};

/// Build a frame: size[4] type[1] tag[2] + body.
fn frame(typ: u8, tag: u16, body: &[u8]) -> Vec<u8> {
    let size = (7 + body.len()) as u32;
    let mut f = size.to_le_bytes().to_vec();
    f.push(typ);
    f.extend_from_slice(&tag.to_le_bytes());
    f.extend_from_slice(body);
    f
}

fn scan_all(scan: &mut FrameScanner, bytes: &[u8], chunk: usize) -> Vec<(u8, u16, u16)> {
    let mut seen = Vec::new();
    for c in bytes.chunks(chunk.max(1)) {
        let heads: Vec<FrameHead> = scan.feed(c);
        seen.extend(heads.iter().map(|h| (h.typ, h.tag, h.oldtag)));
    }
    seen
}

#[test]
fn parses_frames_at_every_chunking() {
    let mut bytes = frame(TGETATTR, 1, &[0u8; 20]);
    bytes.extend(frame(TFLUSH, 2, &1u16.to_le_bytes())); // Tflush oldtag=1
    bytes.extend(frame(RCLUNK, 3, &[])); // 7-byte frame, no body
    bytes.extend(frame(TWRITE, 4, &[0u8; 300]));
    for chunk in 1..=bytes.len() {
        let mut scan = FrameScanner::new();
        let seen = scan_all(&mut scan, &bytes, chunk);
        assert_eq!(
            seen,
            vec![
                (TGETATTR, 1, 0),
                (TFLUSH, 2, 1),
                (RCLUNK, 3, 0),
                (TWRITE, 4, 0),
            ],
            "chunk size {chunk}"
        );
    }
}

#[test]
fn oldtag_not_leaked_across_frames() {
    // A 9-byte frame leaves bytes in header[7..9]; the following short frame must not
    // report them as its oldtag.
    let mut bytes = frame(TFLUSH, 1, &7u16.to_le_bytes());
    bytes.extend(frame(RCLUNK, 2, &[]));
    let mut scan = FrameScanner::new();
    let seen = scan_all(&mut scan, &bytes, bytes.len());
    assert_eq!(seen, vec![(TFLUSH, 1, 7), (RCLUNK, 2, 0)]);
}

#[test]
fn undersized_frames_are_passed_over() {
    // A frame that announces six bytes: they are skipped, and the next frame is found.
    let mut bytes = vec![6, 0, 0, 0, 0xaa, 0xbb];
    bytes.extend(frame(RCLUNK, 5, &[]));
    // One that announces fewer bytes than its own size field takes.
    bytes.extend([2, 0, 0, 0]);
    bytes.extend(frame(TGETATTR, 6, &[1, 0, 0]));
    for chunk in 1..=bytes.len() {
        let mut scan = FrameScanner::new();
        assert_eq!(
            scan_all(&mut scan, &bytes, chunk),
            vec![(RCLUNK, 5, 0), (TGETATTR, 6, 1)]
        );
    }
}
