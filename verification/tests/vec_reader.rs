use laser::vec_reader::VecReader;
use std::io::BufRead;
use std::io::BufReader;
use std::io::Read;

#[test]
fn should_work() {
    let v = vec![1, 2, 3, 4, 5, 6, 7];
    let mut r = VecReader(v);
    let mut buf = [0u8; 5];
    let size = r.read(&mut buf).unwrap();
    assert_eq!(size, 5);
    assert_eq!(Vec::from(buf), vec![1, 2, 3, 4, 5]);
    let size2 = r.read(&mut buf).unwrap();
    assert_eq!(size2, 2);
    assert_eq!(Vec::from(&buf[..size2]), vec![6, 7]);
}

#[test]
fn should_work2() {
    let data = Vec::from("ajskldjaslkd\n asdasdaw\n asd sa\n");
    let mut r = BufReader::new(VecReader(data)).lines();
    let mut count = 0;
    while let Some(Ok(line)) = r.next() {
        assert!(line.len() > 4);
        count += 1;
    }
    assert_eq!(count, 3);
}

#[test]
fn read_leaves_the_rest_of_the_buffer_alone() {
    let mut r = VecReader(vec![9, 8]);
    let mut buf = [1u8, 1, 1, 1];
    let size = r.read(&mut buf).unwrap();
    assert_eq!(size, 2);
    assert_eq!(buf, [9, 8, 1, 1]);
    assert!(r.0.is_empty());
}

#[test]
fn read_from_empty_reader_gives_zero() {
    let mut r = VecReader(Vec::new());
    let mut buf = [5u8; 3];
    assert_eq!(r.read(&mut buf).unwrap(), 0);
    assert_eq!(buf, [5, 5, 5]);
}

#[test]
fn read_into_empty_buffer_keeps_everything() {
    let mut r = VecReader(vec![1, 2, 3]);
    let mut buf: [u8; 0] = [];
    assert_eq!(r.read(&mut buf).unwrap(), 0);
    assert_eq!(r.0, vec![1, 2, 3]);
}

#[test]
fn reads_in_chunks_give_back_all_bytes_in_order() {
    let data: Vec<u8> = (0u8..23).collect();
    let mut r = VecReader(data.clone());
    let mut got = Vec::new();
    let mut buf = [0u8; 4];
    loop {
        let n = r.read(&mut buf).unwrap();
        if n == 0 {
            break;
        }
        got.extend_from_slice(&buf[..n]);
    }
    assert_eq!(got, data);
}

#[test]
fn every_read_but_the_last_gives_a_byte() {
    let data: Vec<u8> = (0u8..9).collect();
    let mut r = VecReader(data.clone());
    let mut buf = [0u8; 2];
    let mut calls = 0;
    let mut got = Vec::new();
    loop {
        calls += 1;
        let n = r.read(&mut buf).unwrap();
        if n == 0 {
            break;
        }
        got.extend_from_slice(&buf[..n]);
    }
    assert_eq!(got, data);
    assert!(calls <= data.len() + 1);
    assert_eq!(calls, 6);
    assert!(r.0.is_empty());
}
