use tinyrender::loader::{
    first_nonempty_words, get_tuple2, get_tuple3, parse_face, parse_img, parse_index_pair,
    parse_usize, read_obj, split_bytes,
};
use tinyrender::scene::Face;

fn lines(text: &str) -> Vec<Vec<u8>> {
    text.lines().map(|l| l.as_bytes().to_vec()).collect()
}

fn words(v: &[Vec<u8>]) -> Vec<String> {
    v.iter().map(|w| String::from_utf8(w.clone()).unwrap()).collect()
}

#[test]
fn split_keeps_empty_pieces() {
    assert_eq!(words(&split_bytes(b"a b", b' ')), vec!["a", "b"]);
    assert_eq!(words(&split_bytes(b"v  1 ", b' ')), vec!["v", "", "1", ""]);
    assert_eq!(words(&split_bytes(b"", b' ')), vec![""]);
    assert_eq!(words(&split_bytes(b"1//2", b'/')), vec!["1", "", "2"]);
}

#[test]
fn parse_usize_like_std() {
    for s in ["0", "42", "+7", "007", "18446744073709551615", "", "+", "-1", "1a", " 1", "++1", "99999999999999999999"] {
        assert_eq!(parse_usize(s.as_bytes()), s.parse::<usize>().ok(), "{:?}", s);
    }
}

#[test]
fn tuples_of_a_vec() {
    assert_eq!(get_tuple2(&vec![1, 2, 3]), Some((1, 2)));
    assert_eq!(get_tuple2(&vec![1]), None);
    assert_eq!(get_tuple3(&vec![1, 2, 3, 4]), Some((1, 2, 3)));
    assert_eq!(get_tuple3(&vec![1, 2]), None);
}

#[test]
fn index_pairs() {
    assert_eq!(parse_index_pair(b"3/7"), Some((3, 7)));
    assert_eq!(parse_index_pair(b"3/7/9"), Some((3, 7)));
    assert_eq!(parse_index_pair(b"3"), None);
    assert_eq!(parse_index_pair(b"3//9"), None);
    assert_eq!(parse_index_pair(b"x/1"), None);
}

#[test]
fn nonempty_words_after_first() {
    let ws = split_bytes(b"v  1.5 -2  3 4", b' ');
    assert_eq!(words(&first_nonempty_words(&ws, 3)), vec!["1.5", "-2", "3"]);
    let ws = split_bytes(b"v 1", b' ');
    assert_eq!(words(&first_nonempty_words(&ws, 3)), vec!["1"]);
}

#[test]
fn faces_need_three_pairs() {
    let f = parse_face(&split_bytes(b"f 1/2/3 4/5/6 7/8/9", b' '));
    assert_eq!(f, Some(Face { v_index: (1, 4, 7), vt_index: (2, 5, 8) }));
    assert_eq!(parse_face(&split_bytes(b"f 1/2 4/5", b' ')), None);
    assert_eq!(parse_face(&split_bytes(b"f 1/2  4/5 7/8", b' ')), None);
    assert_eq!(parse_face(&split_bytes(b"f 1/2 4/5 7/8 9/9", b' ')).unwrap().v_index, (1, 4, 7));
}

#[test]
fn read_obj_scenario() {
    let text = "# a comment\nv 1.0 2.0 3.0\nvt 0.5 0.25 0\nv  -1  0 \nf 1/1/1 2/1/1 1/1/1\nf 1 2 3\nvn 0 0 1\n";
    let m = read_obj(&lines(text));
    assert_eq!(m.vertexs.len(), 2);
    assert_eq!(m.vertexs[0].line, 2);
    assert_eq!(words(&m.vertexs[0].words), vec!["1.0", "2.0", "3.0"]);
    assert_eq!(m.vertexs[1].line, 4);
    assert_eq!(words(&m.vertexs[1].words), vec!["-1", "0"]);
    assert_eq!(m.texture_vertexs.len(), 1);
    assert_eq!(m.texture_vertexs[0].line, 3);
    assert_eq!(words(&m.texture_vertexs[0].words), vec!["0.5", "0.25", "0"]);
    assert_eq!(m.faces, vec![Face { v_index: (1, 2, 1), vt_index: (1, 1, 1) }]);
}

#[test]
fn read_obj_empty() {
    let m = read_obj(&Vec::new());
    assert!(m.vertexs.is_empty() && m.texture_vertexs.is_empty() && m.faces.is_empty());
}

#[test]
fn parse_img_packs_pixels() {
    let buf: Vec<u8> = vec![1, 2, 3, 4, 5, 6, 7, 8, 9, 10, 11, 12];
    let img = parse_img(2, 2, &buf);
    assert_eq!((img.w, img.h), (2, 2));
    assert_eq!(img.data.raw_data(), &[0xff010203u32, 0xff040506, 0xff070809, 0xff0a0b0c][..]);
    assert_eq!(img.data.get(1usize, 1usize), Some(&0xff0a0b0c));
}

#[test]
fn parse_img_empty() {
    let img = parse_img(0, 5, &[]);
    assert_eq!((img.w, img.h), (0, 5));
    assert!(img.data.raw_data().is_empty());
}

#[test]
fn read_obj_vertex_without_coordinates() {
    let m = read_obj(&lines("v\nvt 1\n f 1/1 1/1 1/1\nf 1/1 2/2 3/3 junk"));
    assert_eq!(m.vertexs.len(), 1);
    assert!(m.vertexs[0].words.is_empty());
    assert_eq!(words(&m.texture_vertexs[0].words), vec!["1"]);
    // A line starting with a space has an empty first word and is skipped.
    assert_eq!(m.faces, vec![Face { v_index: (1, 2, 3), vt_index: (1, 2, 3) }]);
}
