use kaitai::error::KaitaiError;
use kaitai::stream::{KaitaiStream, TerminatorFlags};

fn new_buf() -> KaitaiStream {
    KaitaiStream::new(vec![0, 1, 2, 3, 4, 5, 6, 7, 8, 9])
}

#[test]
fn is_eof() {
    let mut buf = new_buf();

    let size = buf.size();
    buf.seek_to(size);
    assert!(buf.is_eof());

    buf.seek_to(size - 3);
    assert!(!buf.is_eof());
}

#[test]
fn pos() {
    let mut buf = new_buf();

    assert_eq!(buf.pos(), 0);

    buf.seek_to(4);
    assert_eq!(buf.pos(), 4);

    let size = buf.size();
    buf.seek_to(size);
    assert_eq!(buf.pos(), 10);
}

#[test]
fn size() {
    let buf = new_buf();

    assert_eq!(buf.size(), 10)
}

#[test]
fn read_bytes() {
    let mut buf = new_buf();

    assert_eq!(vec![0, 1], buf.read_bytes(2).unwrap());
    assert_eq!(vec![2, 3, 4], buf.read_bytes(3).unwrap());
}

#[test]
fn read_bytes_full() {
    let mut buf = new_buf();

    assert_eq!(vec![0, 1, 2, 3, 4, 5, 6, 7, 8, 9], buf.read_bytes_full());
}

#[test]
fn read_bytes_term() {
    let mut buf = KaitaiStream::new(vec![0, 1, 2, 3, 4, 5, 6, 7, 8, 9]);

    assert_eq!(
        vec![0, 1, 2],
        buf.read_bytes_term('\u{3}', &[TerminatorFlags::Consume]).unwrap()
    );
    assert_eq!(vec![4, 5], buf.read_bytes_term('\u{6}', &[]).unwrap());
    assert_eq!(
        vec![6, 7],
        buf.read_bytes_term(
            '\u{7}',
            &[TerminatorFlags::Include, TerminatorFlags::Consume]
        )
        .unwrap()
    );
    assert_eq!(
        vec![8],
        buf.read_bytes_term('\u{8}', &[TerminatorFlags::Include]).unwrap()
    );
    assert!(buf.read_bytes_term('\u{15}', &[]).is_err());
}

#[test]
fn ensure_fixed_contents() {
    let mut buf = new_buf();

    assert!(buf.ensure_fixed_contents(vec![0, 1, 2]).is_ok());
    assert!(buf.ensure_fixed_contents(vec![3, 4]).is_ok());
    buf.seek_to(6);
    assert!(buf.ensure_fixed_contents(vec![6, 7, 8]).is_ok());
    assert!(buf.ensure_fixed_contents(vec![8, 9, 10]).is_err());
}

#[test]
fn ensure_fixed_contents_mismatch_reports_both() {
    let mut buf = KaitaiStream::new(vec![9, 8, 7]);

    match buf.ensure_fixed_contents(vec![9, 9, 7]) {
        Err(KaitaiError::UnexpectedContents { actual, expected }) => {
            assert_eq!(actual, vec![9, 8, 7]);
            assert_eq!(expected, vec![9, 9, 7]);
        }
        other => panic!("expected a contents mismatch, got {:?}", other),
    }
    assert_eq!(buf.pos(), 3);
}

#[test]
fn read_u1() {
    let mut buf = KaitaiStream::new(vec![1, 2, 3, 4, 5, 6, 7, 8]);
    assert_eq!(buf.read_u1().unwrap(), 1);
}

#[test]
fn read_s1() {
    let mut buf = KaitaiStream::new(vec![1, 2, 3, 4, 5, 6, 7, 8]);
    assert_eq!(buf.read_s1().unwrap(), 1);
}

#[test]
fn read_s2le() {
    let mut buf = KaitaiStream::new(vec![1, 2, 3, 4, 5, 6, 7, 8]);
    assert_eq!(buf.read_s2le().unwrap(), 513);
}

#[test]
fn read_s2be() {
    let mut buf = KaitaiStream::new(vec![1, 2, 3, 4, 5, 6, 7, 8]);
    assert_eq!(buf.read_s2be().unwrap(), 258);
}

#[test]
fn read_u2le() {
    let mut buf = KaitaiStream::new(vec![1, 2, 3, 4, 5, 6, 7, 8]);
    assert_eq!(buf.read_u2le().unwrap(), 513);
}

#[test]
fn read_u2be() {
    let mut buf = KaitaiStream::new(vec![1, 2, 3, 4, 5, 6, 7, 8]);
    assert_eq!(buf.read_u2be().unwrap(), 258);
}

#[test]
fn read_s4le() {
    let mut buf = KaitaiStream::new(vec![1, 2, 3, 4, 5, 6, 7, 8]);
    assert_eq!(buf.read_s4le().unwrap(), 67305985);
}

#[test]
fn read_s4be() {
    let mut buf = KaitaiStream::new(vec![1, 2, 3, 4, 5, 6, 7, 8]);
    assert_eq!(buf.read_s4be().unwrap(), 16909060);
}

#[test]
fn read_u4le() {
    let mut buf = KaitaiStream::new(vec![1, 2, 3, 4, 5, 6, 7, 8]);
    assert_eq!(buf.read_u4le().unwrap(), 67305985);
}

#[test]
fn read_u4be() {
    let mut buf = KaitaiStream::new(vec![1, 2, 3, 4, 5, 6, 7, 8]);
    assert_eq!(buf.read_u4be().unwrap(), 16909060);
}

#[test]
fn read_s8le() {
    let mut buf = KaitaiStream::new(vec![1, 2, 3, 4, 5, 6, 7, 8]);
    assert_eq!(buf.read_s8le().unwrap(), 578437695752307201);
}

#[test]
fn read_s8be() {
    let mut buf = KaitaiStream::new(vec![1, 2, 3, 4, 5, 6, 7, 8]);
    assert_eq!(buf.read_s8be().unwrap(), 72623859790382856);
}

#[test]
fn read_u8le() {
    let mut buf = KaitaiStream::new(vec![1, 2, 3, 4, 5, 6, 7, 8]);
    assert_eq!(buf.read_u8le().unwrap(), 578437695752307201);
}

#[test]
fn read_u8be() {
    let mut buf = KaitaiStream::new(vec![1, 2, 3, 4, 5, 6, 7, 8]);
    assert_eq!(buf.read_u8be().unwrap(), 72623859790382856);
}

#[test]
fn read_f4le() {
    let mut buf = KaitaiStream::new(vec![0, 0, 128, 62]);
    assert_eq!(f32::from_bits(buf.read_f4le().unwrap()), 0.25);
}

#[test]
fn read_f4be() {
    let mut buf = KaitaiStream::new(vec![62, 128, 0, 0]);
    assert_eq!(f32::from_bits(buf.read_f4be().unwrap()), 0.25);
}

#[test]
fn read_f8le() {
    let mut buf = KaitaiStream::new(vec![0, 0, 0, 0, 0, 0, 208, 63]);
    assert_eq!(f64::from_bits(buf.read_f8le().unwrap()), 0.25);
}

#[test]
fn read_f8be() {
    let mut buf = KaitaiStream::new(vec![63, 208, 0, 0, 0, 0, 0, 0]);
    assert_eq!(f64::from_bits(buf.read_f8be().unwrap()), 0.25);
}

#[test]
fn short_read_fails_without_moving() {
    let mut buf = KaitaiStream::new(vec![1, 2, 3]);
    assert!(matches!(buf.read_u4be(), Err(KaitaiError::Eof)));
    assert_eq!(buf.pos(), 0);
    assert_eq!(buf.read_u2be().unwrap(), 0x0102);
}
