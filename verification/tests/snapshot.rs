use roons::codec::{decode, encode, SNAPSHOT_LEN};
use roons::grid::{Cell, Loom, Roon, SIDE};

fn assert_same_board(a: &Loom, b: &Loom) {
    assert_eq!(a.active, b.active);
    for r in 0..SIDE {
        for c in 0..SIDE {
            assert_eq!(a.rows[r].cells[c], b.rows[r].cells[c]);
        }
    }
}

#[test]
fn round_trip_identity() {
    let mut l = Loom::default();
    assert_eq!(l.toggle_ball(35, 25), Ok(()));
    assert_eq!(l.toggle_ball(50, 0), Ok(()));
    l.rows[0].cells[0].roon = Roon::Left;
    l.rows[4].cells[0].roon = Roon::Up;
    l.rows[4].cells[1].roon = Roon::Down;
    l.rows[31].cells[31].roon = Roon::Right;
    l.active = true;
    let bytes = encode(&l);
    let back = decode(&bytes).expect("a fresh snapshot must decode");
    assert_same_board(&back, &l);
}

#[test]
fn round_trip_empty_board() {
    let l = Loom::default();
    let bytes = encode(&l);
    let back = decode(&bytes).expect("a fresh snapshot must decode");
    assert_same_board(&back, &l);
}

#[test]
fn snapshot_layout() {
    let mut l = Loom::default();
    assert_eq!(l.toggle_ball(35, 25), Ok(()));
    let bytes = encode(&l);
    assert_eq!(bytes.len(), SNAPSHOT_LEN);
    assert_eq!(bytes[0], b'0');
    assert_eq!(bytes[1], b'\n');
    assert_eq!(bytes[1 + 65], b'\n');
    assert_eq!(bytes[2], b'.');
    assert_eq!(bytes[3], b'-');
    assert_eq!(bytes[2 + 65 + 2 * 3], b'.');
    assert_eq!(bytes[2 + 65 + 2 * 3 + 1], b'o');
    l.active = true;
    let bytes = encode(&l);
    assert_eq!(bytes[0], b'1');
}

#[test]
fn decode_rejects_wrong_length() {
    assert!(decode(&Vec::new()).is_none());
    assert!(decode(&vec![b'0']).is_none());
    let mut bytes = encode(&Loom::default());
    bytes.push(b'\n');
    assert!(decode(&bytes).is_none());
}

#[test]
fn decode_rejects_bad_flag_byte() {
    let mut bytes = encode(&Loom::default());
    bytes[0] = b'x';
    assert!(decode(&bytes).is_none());
}

#[test]
fn decode_rejects_corrupt_bytes() {
    let mut bytes = encode(&Loom::default());
    bytes[2] = b'z';
    assert!(decode(&bytes).is_none());

    let mut bytes = encode(&Loom::default());
    bytes[3] = b'z';
    assert!(decode(&bytes).is_none());

    let mut bytes = encode(&Loom::default());
    bytes[1] = b' ';
    assert!(decode(&bytes).is_none());
}

#[test]
fn decode_reads_a_handwritten_snapshot() {
    let mut bytes = Vec::new();
    bytes.push(b'1');
    for _ in 0..SIDE {
        bytes.push(b'\n');
        bytes.push(b'U');
        bytes.push(b'o');
        for _ in 1..SIDE {
            bytes.push(b'.');
            bytes.push(b'-');
        }
    }
    let l = decode(&bytes).expect("the handwritten snapshot must decode");
    assert!(l.active);
    for r in 0..SIDE {
        assert_eq!(l.rows[r].cells[0], Cell { roon: Roon::Up, ball: true });
        for c in 1..SIDE {
            assert_eq!(l.rows[r].cells[c], Cell { roon: Roon::Nop, ball: false });
        }
    }
}
