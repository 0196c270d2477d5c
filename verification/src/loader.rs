use vstd::prelude::*;
use crate::array2d::Array2d;
use crate::image::{lemma_rgb_value_channels, rgb_value, Color, Image};
use crate::scene::Face;

verus! {

/// The packed colour of pixel `i` of a buffer of 8-bit RGB triples.
pub open spec fn rgb_pixel(buf: Seq<u8>, i: int) -> u32 {
    rgb_value(buf[3 * i] as u32, buf[3 * i + 1] as u32, buf[3 * i + 2] as u32)
}

/// The colour `c` is opaque and its red, green and blue bytes are the bytes `3i`, `3i + 1`
/// and `3i + 2` of `buf`.
pub open spec fn pixel_holds_bytes(c: u32, buf: Seq<u8>, i: int) -> bool {
    &&& c >> 24u32 == 0xffu32
    &&& (c >> 16u32) & 0xffu32 == buf[3 * i] as u32
    &&& (c >> 8u32) & 0xffu32 == buf[3 * i + 1] as u32
    &&& c & 0xffu32 == buf[3 * i + 2] as u32
}

/// Every byte value 0 to 255 comes back unchanged from its channel of the packed pixel, and
/// the pixel is opaque.
pub proof fn lemma_rgb_pixel_holds_bytes(buf: Seq<u8>, i: int)
    requires
        0 <= 3 * i,
        3 * i + 2 < buf.len(),
    ensures
        pixel_holds_bytes(rgb_pixel(buf, i), buf, i),
{
    lemma_rgb_value_channels(buf[3 * i] as u32, buf[3 * i + 1] as u32, buf[3 * i + 2] as u32);
}

proof fn lemma_pixel_offsets(w: int, h: int, x: int, y: int)
    requires
        0 <= x < w,
        0 <= y < h,
    ensures
        0 <= y * w + x < w * h,
        (y + 1) * w == y * w + w,
        y * w + x + 1 <= w * h,
{
    assert(0 <= y * w + x < w * h) by (nonlinear_arith)
        requires 0 <= x < w, 0 <= y < h;
    assert((y + 1) * w == y * w + w) by (nonlinear_arith);
}

/// The picture of size `w × h` made of a buffer of 8-bit RGB triples, one per pixel, row
/// after row: pixel `i` is the opaque colour of bytes `3i`, `3i + 1` and `3i + 2`.
pub fn parse_img(w: usize, h: usize, buf: &[u8]) -> (r: Image)
    requires
        w * h <= usize::MAX,
        3 * (w * h) <= buf.len(),
    ensures
        r.w == w as u32,
        r.h == h as u32,
        r.data.width() == w,
        r.data.height() == h,
        r.data.cells() == Seq::new((w * h) as nat, |i: int| rgb_pixel(buf@, i)),
        forall|i: int| 0 <= i < w * h ==> pixel_holds_bytes(#[trigger] r.data.cells()[i], buf@, i),
{
    let mut buffer = Array2d::<u32>::new(0, w, h);
    let ghost expected = Seq::new((w * h) as nat, |i: int| rgb_pixel(buf@, i));
    let mut y: usize = 0;
    while y < h
        invariant
            y <= h,
            w * h <= usize::MAX,
            3 * (w * h) <= buf.len(),
            buffer.width() == w,
            buffer.height() == h,
            buffer.cells().len() == w * h,
            expected == Seq::new((w * h) as nat, |i: int| rgb_pixel(buf@, i)),
            y * w <= w * h,
            forall|k: int| 0 <= k < y * w ==> buffer.cells()[k] == expected[k],
            forall|k: int| y * w <= k < w * h ==> buffer.cells()[k] == 0,
        decreases h - y,
    {
        let mut x: usize = 0;
        while x < w
            invariant
                x <= w,
                y < h,
                w * h <= usize::MAX,
                3 * (w * h) <= buf.len(),
                buffer.width() == w,
                buffer.height() == h,
                buffer.cells().len() == w * h,
                expected == Seq::new((w * h) as nat, |i: int| rgb_pixel(buf@, i)),
                y * w + x <= w * h,
                forall|k: int| 0 <= k < y * w + x ==> buffer.cells()[k] == expected[k],
                forall|k: int| y * w + x <= k < w * h ==> buffer.cells()[k] == 0,
            decreases w - x,
        {
            proof {
                lemma_pixel_offsets(w as int, h as int, x as int, y as int);
            }
            let offset: usize = y * w + x;
            let color = Color::from_rgb(
                buf[3 * offset + 0] as u32,
                buf[3 * offset + 1] as u32,
                buf[3 * offset + 2] as u32,
            );
            if let Some(p) = buffer.get_mut(x, y) {
                *p = color.c;
            }
            x = x + 1;
        }
        proof {
            assert((y + 1) * w == y * w + w) by (nonlinear_arith);
            assert((y + 1) * w <= w * h) by (nonlinear_arith)
                requires y < h, w >= 0;
        }
        y = y + 1;
    }
    assert(y * w == w * h) by (nonlinear_arith)
        requires y == h;
    assert(buffer.cells() =~= expected);
    assert forall|i: int| 0 <= i < w * h implies pixel_holds_bytes(#[trigger] buffer.cells()[i], buf@, i) by {
        lemma_rgb_pixel_holds_bytes(buf@, i);
    }
    Image::from_buffer(w as u32, h as u32, buffer)
}

/// The pieces of `s` between the bytes `sep`, as `str::split` gives them: `n` separators
/// make `n + 1` pieces, empty ones included.
pub open spec fn split_at_byte(s: Seq<u8>, sep: u8) -> Seq<Seq<u8>>
    decreases s.len(),
{
    if s.len() == 0 {
        seq![Seq::empty()]
    } else {
        let prev = split_at_byte(s.drop_last(), sep);
        if s.last() == sep {
            prev.push(Seq::empty())
        } else {
            prev.update(prev.len() - 1, prev.last().push(s.last()))
        }
    }
}

/// Splitting gives at least one piece.
pub proof fn lemma_split_at_byte_nonempty(s: Seq<u8>, sep: u8)
    ensures
        split_at_byte(s, sep).len() >= 1,
    decreases s.len(),
{
    if s.len() > 0 {
        lemma_split_at_byte_nonempty(s.drop_last(), sep);
    }
}

/// The byte strings held by a sequence of byte vectors.
pub open spec fn byte_strings(v: Seq<Vec<u8>>) -> Seq<Seq<u8>> {
    v.map_values(|t: Vec<u8>| t@)
}

/// Splits `s` at each byte `sep`.
pub fn split_bytes(s: &[u8], sep: u8) -> (r: Vec<Vec<u8>>)
    ensures
        byte_strings(r@) == split_at_byte(s@, sep),
{
    let mut pieces: Vec<Vec<u8>> = Vec::new();
    let mut cur: Vec<u8> = Vec::new();
    let mut i: usize = 0;
    while i < s.len()
        invariant
            i <= s.len(),
            byte_strings(pieces@).push(cur@) == split_at_byte(s@.take(i as int), sep),
        decreases s.len() - i,
    {
        let ghost before = s@.take(i as int);
        assert(s@.take(i as int + 1).drop_last() == before);
        assert(s@.take(i as int + 1).last() == s@[i as int]);
        proof {
            lemma_split_at_byte_nonempty(before, sep);
        }
        if s[i] == sep {
            let done = cur;
            pieces.push(done);
            cur = Vec::new();
            assert(byte_strings(pieces@).push(cur@) =~= split_at_byte(s@.take(i as int + 1), sep));
        } else {
            cur.push(s[i]);
            assert(byte_strings(pieces@).push(cur@) =~= split_at_byte(s@.take(i as int + 1), sep));
        }
        i = i + 1;
    }
    assert(s@.take(s.len() as int) == s@);
    pieces.push(cur);
    assert(byte_strings(pieces@) =~= split_at_byte(s@, sep));
    pieces
}

/// `c` is an ASCII decimal digit.
pub open spec fn is_digit(c: u8) -> bool {
    48 <= c <= 57
}

/// The number written by the decimal digits `s`.
pub open spec fn digits_value(s: Seq<u8>) -> nat
    decreases s.len(),
{
    if s.len() == 0 {
        0
    } else {
        digits_value(s.drop_last()) * 10 + (s.last() - 48) as nat
    }
}

/// `s` without its leading `+`, if it has one.
pub open spec fn without_plus(s: Seq<u8>) -> Seq<u8> {
    if s.len() > 0 && s[0] == 43u8 { s.drop_first() } else { s }
}

/// Every byte of `d` is a decimal digit.
pub open spec fn all_digits(d: Seq<u8>) -> bool {
    forall|i: int| 0 <= i < d.len() ==> is_digit(#[trigger] d[i])
}

/// What `str::parse::<usize>` gives for `s`: an optional leading `+`, then one or more
/// decimal digits whose value fits in a `usize`; `None` for anything else.
pub open spec fn decimal_usize(s: Seq<u8>) -> Option<usize> {
    let d = without_plus(s);
    if d.len() > 0 && all_digits(d) && digits_value(d) <= usize::MAX {
        Some(digits_value(d) as usize)
    } else {
        None
    }
}

/// Reads `s` as a decimal `usize`, as `str::parse::<usize>` does.
pub fn parse_usize(s: &[u8]) -> (r: Option<usize>)
    ensures
        r == decimal_usize(s@),
{
    let mut start: usize = 0;
    if s.len() > 0 && s[0] == 43u8 {
        start = 1;
    }
    if start >= s.len() {
        return None;
    }
    let ghost d = s@.subrange(start as int, s.len() as int);
    assert(d == without_plus(s@));
    let mut v: usize = 0;
    let mut overflow = false;
    let mut i: usize = start;
    while i < s.len()
        invariant
            start <= i <= s.len(),
            d == s@.subrange(start as int, s.len() as int),
            d == without_plus(s@),
            d.len() > 0,
            forall|k: int| 0 <= k < i - start ==> is_digit(#[trigger] d[k]),
            !overflow ==> v == digits_value(d.take(i - start)),
            overflow ==> digits_value(d.take(i - start)) > usize::MAX,
        decreases s.len() - i,
    {
        let c = s[i];
        if c < 48u8 || c > 57u8 {
            assert(!is_digit(d[i - start]));
            assert(!all_digits(d));
            return None;
        }
        let ghost k = i - start;
        assert(d.take(k + 1).drop_last() == d.take(k));
        assert(d.take(k + 1).last() == c);
        if !overflow {
            match v.checked_mul(10) {
                Some(m) => {
                    match m.checked_add((c - 48u8) as usize) {
                        Some(n) => {
                            v = n;
                        },
                        None => {
                            overflow = true;
                        },
                    }
                },
                None => {
                    overflow = true;
                },
            }
        }
        i = i + 1;
    }
    assert(d.take(d.len() as int) == d);
    if overflow {
        None
    } else {
        Some(v)
    }
}

/// The first `n` non-empty members of `ws`, in order.
pub open spec fn nonempty_words(ws: Seq<Seq<u8>>, n: nat) -> Seq<Seq<u8>>
    decreases ws.len(),
{
    if n == 0 || ws.len() == 0 {
        seq![]
    } else if ws[0].len() > 0 {
        seq![ws[0]] + nonempty_words(ws.drop_first(), (n - 1) as nat)
    } else {
        nonempty_words(ws.drop_first(), n)
    }
}

/// The first two members of `v`, when it has two.
pub fn get_tuple2<T: Copy>(v: &Vec<T>) -> (r: Option<(T, T)>)
    ensures
        r == (if v@.len() >= 2 { Some((v@[0], v@[1])) } else { None::<(T, T)> }),
{
    if v.len() >= 2 {
        Some((v[0], v[1]))
    } else {
        None
    }
}

/// The first three members of `v`, when it has three.
pub fn get_tuple3<T: Copy>(v: &Vec<T>) -> (r: Option<(T, T, T)>)
    ensures
        r == (if v@.len() >= 3 { Some((v@[0], v@[1], v@[2])) } else { None::<(T, T, T)> }),
{
    if v.len() >= 3 {
        Some((v[0], v[1], v[2]))
    } else {
        None
    }
}

/// The vertex and texture-vertex indices of a face word `v/vt[/...]`: both of its first two
/// `/`-separated parts read as decimal `usize`.
pub open spec fn index_pair(w: Seq<u8>) -> Option<(usize, usize)> {
    let parts = split_at_byte(w, 47u8);
    if parts.len() >= 2 && decimal_usize(parts[0]) is Some && decimal_usize(parts[1]) is Some {
        Some((decimal_usize(parts[0]).unwrap(), decimal_usize(parts[1]).unwrap()))
    } else {
        None
    }
}

/// Reads a face word `v/vt[/...]`.
pub fn parse_index_pair(w: &[u8]) -> (r: Option<(usize, usize)>)
    ensures
        r == index_pair(w@),
{
    let parts = split_bytes(w, 47u8);
    proof {
        lemma_split_at_byte_nonempty(w@, 47u8);
    }
    let mut numbers: Vec<usize> = Vec::new();
    let n = if parts.len() < 2 { parts.len() } else { 2 };
    let mut i: usize = 0;
    while i < n
        invariant
            i <= n <= 2,
            n <= parts@.len(),
            n == (if parts@.len() < 2 { parts@.len() } else { 2 }),
            byte_strings(parts@) == split_at_byte(w@, 47u8),
            numbers@.len() <= i,
            numbers@.len() == i <==> forall|k: int| 0 <= k < i ==> decimal_usize(#[trigger] parts@[k]@) is Some,
            forall|k: int| 0 <= k < numbers@.len() ==> numbers@.len() == i ==>
                Some(#[trigger] numbers@[k]) == decimal_usize(parts@[k]@),
        decreases n - i,
    {
        assert(parts@[i as int]@ == split_at_byte(w@, 47u8)[i as int]);
        match parse_usize(parts[i].as_slice()) {
            Some(value) => {
                numbers.push(value);
            },
            None => {},
        }
        i = i + 1;
    }
    let r = get_tuple2(&numbers);
    proof {
        let sp = split_at_byte(w@, 47u8);
        if parts@.len() >= 2 {
            assert(parts@[0]@ == sp[0]);
            assert(parts@[1]@ == sp[1]);
        }
    }
    r
}

/// The first `n` non-empty words of `ws` after its first word.
pub fn first_nonempty_words(ws: &Vec<Vec<u8>>, n: usize) -> (r: Vec<Vec<u8>>)
    requires
        ws@.len() >= 1,
    ensures
        byte_strings(r@) == nonempty_words(byte_strings(ws@).drop_first(), n as nat),
{
    let ghost all = byte_strings(ws@);
    let mut out: Vec<Vec<u8>> = Vec::new();
    let mut i: usize = 1;
    assert(all.skip(1) == all.drop_first());
    while i < ws.len() && out.len() < n
        invariant
            1 <= i <= ws@.len(),
            all == byte_strings(ws@),
            out@.len() <= n,
            byte_strings(out@) + nonempty_words(all.skip(i as int), (n - out@.len()) as nat)
                == nonempty_words(all.drop_first(), n as nat),
        decreases ws@.len() - i,
    {
        let ghost rest = all.skip(i as int);
        assert(rest.drop_first() == all.skip(i as int + 1));
        assert(rest[0] == ws@[i as int]@);
        if ws[i].len() > 0 {
            let word = ws[i].clone();
            assert(word@ =~= ws@[i as int]@);
            out.push(word);
            assert(byte_strings(out@) =~= byte_strings(out@.drop_last()).push(word@));
        }
        i = i + 1;
    }
    proof {
        let m = (n - out@.len()) as nat;
        if i >= ws@.len() {
            assert(all.skip(i as int).len() == 0);
        }
        assert(nonempty_words(all.skip(i as int), m) == Seq::<Seq<u8>>::empty());
        assert(byte_strings(out@) + Seq::<Seq<u8>>::empty() == byte_strings(out@));
    }
    out
}

/// The face that the words `ws` of an OBJ line give, when they hold, after the first, three
/// words `v/vt[/...]`; the indices are 1-based as the file writes them.
pub open spec fn words_face(ws: Seq<Seq<u8>>) -> Option<Face> {
    if ws.len() >= 4 && index_pair(ws[1]) is Some && index_pair(ws[2]) is Some
        && index_pair(ws[3]) is Some {
        let p = index_pair(ws[1]).unwrap();
        let q = index_pair(ws[2]).unwrap();
        let t = index_pair(ws[3]).unwrap();
        Some(Face { v_index: (p.0, q.0, t.0), vt_index: (p.1, q.1, t.1) })
    } else {
        None
    }
}

/// Reads the face of an OBJ line from its words.
pub fn parse_face(ws: &Vec<Vec<u8>>) -> (r: Option<Face>)
    requires
        ws@.len() >= 1,
    ensures
        r == words_face(byte_strings(ws@)),
{
    let ghost all = byte_strings(ws@);
    let mut pairs: Vec<(usize, usize)> = Vec::new();
    let n: usize = if ws.len() < 4 { ws.len() } else { 4 };
    let mut i: usize = 1;
    while i < n
        invariant
            1 <= i <= n,
            n <= ws@.len(),
            n == (if ws@.len() < 4 { ws@.len() } else { 4 }),
            all == byte_strings(ws@),
            pairs@.len() <= i - 1,
            pairs@.len() == i - 1 <==> forall|k: int| 1 <= k < i ==> index_pair(#[trigger] all[k]) is Some,
            pairs@.len() == i - 1 ==> forall|j: int| 0 <= j < i - 1 ==>
                Some(#[trigger] pairs@[j]) == index_pair(all[j + 1]),
        decreases n - i,
    {
        assert(ws@[i as int]@ == all[i as int]);
        match parse_index_pair(ws[i].as_slice()) {
            Some(pair) => {
                pairs.push(pair);
            },
            None => {},
        }
        i = i + 1;
    }
    proof {
        if pairs@.len() >= 3 {
            assert(Some(pairs@[0]) == index_pair(all[1]));
            assert(Some(pairs@[1]) == index_pair(all[2]));
            assert(Some(pairs@[2]) == index_pair(all[3]));
        }
        if words_face(all) is Some {
            assert(index_pair(all[1]) is Some);
            assert(index_pair(all[2]) is Some);
            assert(index_pair(all[3]) is Some);
        }
    }
    match get_tuple3(&pairs) {
        Some(t) => {
            Some(Face { v_index: ((t.0).0, (t.1).0, (t.2).0), vt_index: ((t.0).1, (t.1).1, (t.2).1) })
        },
        None => None,
    }
}

/// The coordinate words of the lines `v` (or `vt`, as `tag` says) of an OBJ text: for each,
/// its 1-based line number and its first three non-empty words after the first.
pub open spec fn coord_lines(lines: Seq<Seq<u8>>, tag: Seq<u8>) -> Seq<(int, Seq<Seq<u8>>)>
    decreases lines.len(),
{
    if lines.len() == 0 {
        seq![]
    } else {
        let prev = coord_lines(lines.drop_last(), tag);
        let ws = split_at_byte(lines.last(), 32u8);
        if ws[0] == tag {
            prev.push((lines.len() as int, nonempty_words(ws.drop_first(), 3)))
        } else {
            prev
        }
    }
}

/// The faces of the lines `f` of an OBJ text that name three vertices.
pub open spec fn face_lines(lines: Seq<Seq<u8>>) -> Seq<Face>
    decreases lines.len(),
{
    if lines.len() == 0 {
        seq![]
    } else {
        let prev = face_lines(lines.drop_last());
        let ws = split_at_byte(lines.last(), 32u8);
        if ws[0] == seq![102u8] && words_face(ws) is Some {
            prev.push(words_face(ws).unwrap())
        } else {
            prev
        }
    }
}

/// Line `k` (counted from 1) of `lines` exists and its first space-separated word is `tag`.
pub open spec fn tagged_line(lines: Seq<Seq<u8>>, k: int, tag: Seq<u8>) -> bool {
    1 <= k <= lines.len() && split_at_byte(lines[k - 1], 32u8)[0] == tag
}

/// The first three non-empty words after the first word of line `k` (counted from 1).
pub open spec fn line_coord_words(lines: Seq<Seq<u8>>, k: int) -> Seq<Seq<u8>> {
    nonempty_words(split_at_byte(lines[k - 1], 32u8).drop_first(), 3)
}

/// The coordinate lines of an OBJ text are listed in file order, one entry per line tagged
/// `tag` and nothing else: every entry names a tagged line and holds that line's coordinate
/// words, the line numbers strictly increase, and every tagged line has an entry.
pub proof fn lemma_coord_lines_in_file_order(lines: Seq<Seq<u8>>, tag: Seq<u8>)
    ensures
        forall|j: int| 0 <= j < coord_lines(lines, tag).len() ==> {
            let e = #[trigger] coord_lines(lines, tag)[j];
            &&& tagged_line(lines, e.0, tag)
            &&& e.1 == line_coord_words(lines, e.0)
        },
        forall|j1: int, j2: int| 0 <= j1 < j2 < coord_lines(lines, tag).len() ==>
            (#[trigger] coord_lines(lines, tag)[j1]).0 < (#[trigger] coord_lines(lines, tag)[j2]).0,
        forall|k: int| #[trigger] tagged_line(lines, k, tag) ==>
            exists|j: int| 0 <= j < coord_lines(lines, tag).len() && (#[trigger] coord_lines(lines, tag)[j]).0 == k,
    decreases lines.len(),
{
    if lines.len() > 0 {
        let prev = lines.drop_last();
        lemma_coord_lines_in_file_order(prev, tag);
        let cp = coord_lines(prev, tag);
        let c = coord_lines(lines, tag);
        let n = lines.len() as int;
        assert forall|k: int| 1 <= k < n implies (#[trigger] tagged_line(lines, k, tag) == tagged_line(prev, k, tag)
            && line_coord_words(lines, k) == line_coord_words(prev, k)) by {
            assert(lines[k - 1] == prev[k - 1]);
        }
        assert forall|j: int| 0 <= j < cp.len() implies 1 <= (#[trigger] cp[j]).0 < n by {
            assert(tagged_line(prev, cp[j].0, tag));
        }
        assert forall|j: int| 0 <= j < cp.len() implies c[j] == #[trigger] cp[j] by {}
        assert forall|j: int| 0 <= j < c.len() implies {
            let e = #[trigger] c[j];
            &&& tagged_line(lines, e.0, tag)
            &&& e.1 == line_coord_words(lines, e.0)
        } by {
            if j < cp.len() {
                assert(c[j] == cp[j]);
                assert(tagged_line(prev, cp[j].0, tag));
            } else {
                assert(lines.last() == lines[n - 1]);
            }
        }
        assert forall|j1: int, j2: int| 0 <= j1 < j2 < c.len() implies (#[trigger] c[j1]).0 < (#[trigger] c[j2]).0 by {
            assert(c[j1] == cp[j1]);
            assert(1 <= cp[j1].0 < n);
            if j2 < cp.len() {
                assert(c[j2] == cp[j2]);
                assert(cp[j1].0 < cp[j2].0);
            }
        }
        assert forall|k: int| #[trigger] tagged_line(lines, k, tag) implies
            exists|j: int| 0 <= j < c.len() && (#[trigger] c[j]).0 == k by {
            if k < n {
                assert(tagged_line(prev, k, tag));
                let j = choose|j: int| 0 <= j < cp.len() && (#[trigger] cp[j]).0 == k;
                assert(c[j] == cp[j]);
            } else {
                assert(lines.last() == lines[n - 1]);
                assert(c[c.len() - 1].0 == n);
            }
        }
    }
}

/// Faces are kept in file order: the faces of a text made of two parts are the faces of the
/// first part followed by those of the second.
pub proof fn lemma_face_lines_concat(a: Seq<Seq<u8>>, b: Seq<Seq<u8>>)
    ensures
        face_lines(a + b) == face_lines(a) + face_lines(b),
    decreases b.len(),
{
    if b.len() == 0 {
        assert(a + b == a);
        assert(face_lines(a) + face_lines(b) == face_lines(a));
    } else {
        lemma_face_lines_concat(a, b.drop_last());
        assert((a + b).drop_last() == a + b.drop_last());
        assert((a + b).last() == b.last());
        let ws = split_at_byte(b.last(), 32u8);
        if ws[0] == seq![102u8] && words_face(ws) is Some {
            assert(face_lines(a) + face_lines(b.drop_last()).push(words_face(ws).unwrap())
                == (face_lines(a) + face_lines(b.drop_last())).push(words_face(ws).unwrap()));
        }
    }
}

/// A single line gives a face exactly when it is an `f` line naming three index pairs, and
/// then it gives that face.
pub proof fn lemma_face_lines_single(l: Seq<u8>)
    ensures
        face_lines(seq![l]) == (if split_at_byte(l, 32u8)[0] == seq![102u8]
            && words_face(split_at_byte(l, 32u8)) is Some {
            seq![words_face(split_at_byte(l, 32u8)).unwrap()]
        } else {
            Seq::<Face>::empty()
        }),
{
    assert(seq![l].drop_last() == Seq::<Seq<u8>>::empty());
    assert(seq![l].last() == l);
    assert(face_lines(Seq::<Seq<u8>>::empty()) == Seq::<Face>::empty());
    let ws = split_at_byte(l, 32u8);
    if ws[0] == seq![102u8] && words_face(ws) is Some {
        assert(Seq::<Face>::empty().push(words_face(ws).unwrap()) == seq![words_face(ws).unwrap()]);
    }
}

/// The coordinate words of one vertex line, with its 1-based line number.
pub struct CoordWords {
    pub line: usize,
    pub words: Vec<Vec<u8>>,
}

/// What a `CoordWords` holds.
pub open spec fn coord_view(c: CoordWords) -> (int, Seq<Seq<u8>>) {
    (c.line as int, byte_strings(c.words@))
}

/// The content of an OBJ text: its vertex and texture-vertex lines, whose coordinate words
/// are still to be read as numbers, and its faces.
pub struct ObjModel {
    pub vertexs: Vec<CoordWords>,
    pub texture_vertexs: Vec<CoordWords>,
    pub faces: Vec<Face>,
}

/// Reads an OBJ text given as its lines (without line ends): a line whose first
/// space-separated word is `v` or `vt` gives the first three non-empty words after it, a line
/// `f` whose next three words are `v/vt` index pairs gives a face, and other lines are skipped.
pub fn read_obj(lines: &Vec<Vec<u8>>) -> (m: ObjModel)
    ensures
        m.vertexs@.map_values(|c: CoordWords| coord_view(c)) == coord_lines(byte_strings(lines@), seq![118u8]),
        m.texture_vertexs@.map_values(|c: CoordWords| coord_view(c))
            == coord_lines(byte_strings(lines@), seq![118u8, 116u8]),
        m.faces@ == face_lines(byte_strings(lines@)),
{
    let ghost all = byte_strings(lines@);
    let mut model = ObjModel { vertexs: Vec::new(), texture_vertexs: Vec::new(), faces: Vec::new() };
    let mut i: usize = 0;
    while i < lines.len()
        invariant
            i <= lines@.len(),
            all == byte_strings(lines@),
            model.vertexs@.map_values(|c: CoordWords| coord_view(c)) == coord_lines(all.take(i as int), seq![118u8]),
            model.texture_vertexs@.map_values(|c: CoordWords| coord_view(c))
                == coord_lines(all.take(i as int), seq![118u8, 116u8]),
            model.faces@ == face_lines(all.take(i as int)),
        decreases lines@.len() - i,
    {
        let ghost upto = all.take(i as int + 1);
        assert(upto.drop_last() == all.take(i as int));
        assert(upto.last() == lines@[i as int]@);
        let words = split_bytes(lines[i].as_slice(), 32u8);
        proof {
            lemma_split_at_byte_nonempty(lines@[i as int]@, 32u8);
            assert(words@[0]@ == split_at_byte(upto.last(), 32u8)[0]);
        }
        let first_len = words[0].len();
        if first_len == 1 && words[0][0] == 118u8 {
            assert(words@[0]@ =~= seq![118u8]);
            let coords = first_nonempty_words(&words, 3);
            let ghost before = model.vertexs@;
            model.vertexs.push(CoordWords { line: i + 1, words: coords });
            assert(model.vertexs@.map_values(|c: CoordWords| coord_view(c))
                =~= before.map_values(|c: CoordWords| coord_view(c)).push(
                (i + 1, nonempty_words(byte_strings(words@).drop_first(), 3))));
        } else if first_len == 2 && words[0][0] == 118u8 && words[0][1] == 116u8 {
            assert(words@[0]@ =~= seq![118u8, 116u8]);
            let coords = first_nonempty_words(&words, 3);
            let ghost before = model.texture_vertexs@;
            model.texture_vertexs.push(CoordWords { line: i + 1, words: coords });
            assert(model.texture_vertexs@.map_values(|c: CoordWords| coord_view(c))
                =~= before.map_values(|c: CoordWords| coord_view(c)).push(
                (i + 1, nonempty_words(byte_strings(words@).drop_first(), 3))));
        } else if first_len == 1 && words[0][0] == 102u8 {
            assert(words@[0]@ =~= seq![102u8]);
            match parse_face(&words) {
                Some(face) => {
                    model.faces.push(face);
                },
                None => {},
            }
        }
        i = i + 1;
    }
    assert(all.take(lines@.len() as int) == all);
    model
}

} // verus!
