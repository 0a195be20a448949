use rbus::marshal::cursor::Cursor;
use rbus::marshal::Marshaller;
use rbus::message::Endianness;

#[test]
fn cursor_counts_positions_and_padding() {
    let mut c = Cursor::new(Vec::new());
    assert_eq!(c.write_position(), 0);
    assert_eq!(c.write_padding(8), 0);
    assert_eq!(c.write(&[1, 2, 3]), 3);
    assert_eq!(c.write_position(), 3);
    assert_eq!(c.write_padding(4), 1);
    assert_eq!(c.write_padding(8), 5);
    assert_eq!(c.write_padding(1), 0);
    assert_eq!(c.read(2), vec![1, 2]);
    assert_eq!(c.read_position(), 2);
    assert_eq!(c.read_padding(4), 2);
    assert_eq!(c.read(5), vec![3]);
    assert_eq!(c.read_position(), 3);
    c.flush();
    c.reset_write();
    assert_eq!(c.write_position(), 0);
    assert_eq!(c.read_position(), 3);
    c.reset();
    assert_eq!(c.read_position(), 0);
    assert_eq!(c.get_ref(), &Vec::<u8>::new());
    assert_eq!(c.into_inner(), Vec::<u8>::new());
}

#[test]
fn marshaller_padding_and_reads() {
    let mut m = Marshaller::new(Vec::new(), Endianness::Big);
    m.write_u8(9);
    m.write_padding(4).unwrap();
    m.write_u16(0x0102);
    assert_eq!(m.write_position(), 6);
    assert_eq!(m.get_ref(), &vec![9, 0, 0, 0, 1, 2]);
    let bytes = m.into_vec();

    let mut r = Marshaller::new(bytes, Endianness::Big);
    assert_eq!(r.read_u8().unwrap(), 9);
    r.read_padding(4).unwrap();
    assert_eq!(r.read_position(), 4);
    assert_eq!(r.read_u16().unwrap(), 0x0102);
    assert!(r.is_empty());
    assert!(r.read_u8().is_err());
    let mut short = Marshaller::new(vec![1, 2], Endianness::Little);
    assert!(short.read_exact(3).is_err());
    assert_eq!(short.len(), 0);
}

#[test]
fn marshaller_values() {
    let mut m = Marshaller::new(Vec::new(), Endianness::Little);
    m.write_value(&0x0a0bu16).unwrap();
    m.write_value(&"x".to_string()).unwrap();
    let mut r = Marshaller::new(m.into_inner(), Endianness::Little);
    assert_eq!(r.read_value::<u16>().unwrap(), 0x0a0b);
    assert_eq!(r.read_value::<String>().unwrap(), "x");
}

#[test]
fn cursor_write_position_counts_since_reset() {
    let mut c = Cursor::new(vec![9u8]);
    c.write(&[1, 2]);
    c.write(&[3]);
    assert_eq!(c.write_position(), 3);
    assert_eq!(c.read(1), vec![9]);
    let _ = c.write_padding(4);
    let _ = c.read_position();
    c.flush();
    assert_eq!(c.write_position(), 3);
    c.reset_write();
    c.write(&[4, 5]);
    c.reset_read();
    assert_eq!(c.write_position(), 2);
    assert_eq!(c.into_inner(), vec![1, 2, 3, 4, 5]);
}

#[test]
fn cursor_into_inner_keeps_all_written() {
    let mut c = Cursor::new(vec![7u8, 8]);
    c.write(&[1]);
    c.write(&[2, 3]);
    c.reset();
    assert_eq!(c.get_ref(), &vec![7, 8, 1, 2, 3]);
    assert_eq!(c.into_inner(), vec![7, 8, 1, 2, 3]);
}
