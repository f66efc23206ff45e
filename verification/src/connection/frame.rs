use vstd::prelude::*;
use vstd::string::StringSliceAdditionalSpecFns;

verus! {

/// A framing failure.
#[derive(Debug, Clone, Copy, PartialEq, Eq, Structural)]
pub enum Error {
    /// More bytes must arrive before a whole frame can be read.
    Incomplete,
    /// A byte that starts or continues no frame.
    Protocol(u8),
}

/// One message on the wire. Every frame ends with a carriage return
/// and line feed; the first byte tags its shape.
#[derive(Debug)]
pub enum Frame {
    /// `:` — raw SQL bytes.
    Cmd(Vec<u8>),
    /// `*` — rows of cells, rows separated by `^`, cells by `|`, the
    /// body closed by a second `*`.
    Table(Vec<Vec<Vec<u8>>>),
    /// `-` — a diagnostic message.
    Error(Vec<u8>),
    /// `-1` — the empty result.
    Null,
}

/// Specification-level form of a frame.
pub enum FrameV {
    Cmd(Seq<u8>),
    Table(Seq<Seq<Seq<u8>>>),
    Error(Seq<u8>),
    Null,
}

impl View for Frame {
    type V = FrameV;

    open spec fn view(&self) -> FrameV {
        match self {
            Frame::Cmd(b) => FrameV::Cmd(b@),
            Frame::Table(rows) => FrameV::Table(rows.deep_view()),
            Frame::Error(m) => FrameV::Error(m@),
            Frame::Null => FrameV::Null,
        }
    }
}

impl DeepView for Frame {
    type V = FrameV;

    open spec fn deep_view(&self) -> FrameV {
        self.view()
    }
}

/// The position of the first `\r\n` at or after `i`, if any.
pub open spec fn spec_find_crlf(s: Seq<u8>, i: int) -> Option<int>
    decreases s.len() - i when 0 <= i
{
    if i + 1 >= s.len() {
        None
    } else if s[i] == 13 && s[i + 1] == 10 {
        Some(i)
    } else {
        spec_find_crlf(s, i + 1)
    }
}

/// The position of the first byte `c` at or after `i`, if any.
pub open spec fn spec_find_byte(s: Seq<u8>, i: int, c: u8) -> Option<int>
    decreases s.len() - i when 0 <= i
{
    if i >= s.len() {
        None
    } else if s[i] == c {
        Some(i)
    } else {
        spec_find_byte(s, i + 1, c)
    }
}

/// `items` joined with the single-byte separator `sep`.
pub open spec fn spec_join(items: Seq<Seq<u8>>, sep: u8) -> Seq<u8>
    decreases items.len(),
{
    if items.len() == 0 {
        Seq::empty()
    } else if items.len() == 1 {
        items[0]
    } else {
        spec_join(items.drop_last(), sep) + seq![sep] + items.last()
    }
}

/// `s` split at every occurrence of `sep`; the inverse of `spec_join`
/// on separator-free items.
pub open spec fn spec_split(s: Seq<u8>, sep: u8) -> Seq<Seq<u8>>
    decreases s.len(),
{
    match spec_find_byte(s, 0, sep) {
        None => seq![s],
        Some(k) => {
            proof {
                lemma_find_byte_bounds(s, 0, sep);
            }
            seq![s.take(k)] + spec_split(s.skip(k + 1), sep)
        },
    }
}

pub proof fn lemma_find_byte_bounds(s: Seq<u8>, i: int, c: u8)
    requires
        0 <= i,
    ensures
        spec_find_byte(s, i, c) matches Some(k) ==> i <= k < s.len() && s[k] == c && forall|m: int|
            i <= m < k ==> s[m] != c,
    decreases s.len() - i,
{
    if i < s.len() && s[i] != c {
        lemma_find_byte_bounds(s, i + 1, c);
    }
}

pub proof fn lemma_find_crlf_bounds(s: Seq<u8>, i: int)
    requires
        0 <= i,
    ensures
        spec_find_crlf(s, i) matches Some(k) ==> i <= k && k + 1 < s.len() && s[k] == 13 && s[k + 1]
            == 10 && forall|m: int| i <= m < k ==> !((#[trigger] s[m]) == 13 && s[m + 1] == 10),
    decreases s.len() - i,
{
    if i + 1 < s.len() && !(s[i] == 13 && s[i + 1] == 10) {
        lemma_find_crlf_bounds(s, i + 1);
    }
}

/// The wire bytes of a frame: the tag byte, the body, and the closing
/// carriage return and line feed. The empty result is the error body
/// `1`.
pub open spec fn spec_encode(f: FrameV) -> Seq<u8> {
    match f {
        FrameV::Cmd(b) => seq![58u8] + b + seq![13u8, 10u8],
        FrameV::Table(rows) => seq![42u8] + spec_join(
            rows.map_values(|row: Seq<Seq<u8>>| spec_join(row, 124)),
            94,
        ) + seq![42u8, 13u8, 10u8],
        FrameV::Error(m) => seq![45u8] + m + seq![13u8, 10u8],
        FrameV::Null => seq![45u8, 49u8, 13u8, 10u8],
    }
}

/// How many bytes the frame at the head of `s` occupies, or why none
/// can be read yet: `Incomplete` while the frame's end has not
/// arrived, or the offending byte.
pub open spec fn spec_check(s: Seq<u8>) -> Result<int, Error> {
    if s.len() == 0 {
        Err(Error::Incomplete)
    } else if s[0] == 58 || s[0] == 45 {
        match spec_find_crlf(s, 1) {
            Some(j) => Ok(j + 2),
            None => Err(Error::Incomplete),
        }
    } else if s[0] == 42 {
        match spec_find_byte(s, 1, 42) {
            Some(j) => if j + 2 < s.len() {
                if s[j + 1] == 13 && s[j + 2] == 10 {
                    Ok(j + 3)
                } else {
                    Err(Error::Protocol(s[j + 1]))
                }
            } else {
                Err(Error::Incomplete)
            },
            None => Err(Error::Incomplete),
        }
    } else {
        Err(Error::Protocol(s[0]))
    }
}

/// The frame at the head of `s`, read over the same span `spec_check`
/// measures.
pub open spec fn spec_parse(s: Seq<u8>) -> Result<FrameV, Error> {
    match spec_check(s) {
        Err(e) => Err(e),
        Ok(end) => if s[0] == 58 {
            Ok(FrameV::Cmd(s.subrange(1, end - 2)))
        } else if s[0] == 45 {
            let body = s.subrange(1, end - 2);
            if body == seq![49u8] {
                Ok(FrameV::Null)
            } else {
                Ok(FrameV::Error(body))
            }
        } else {
            let body = s.subrange(1, end - 3);
            Ok(
                FrameV::Table(
                    spec_split(body, 94).map_values(|row: Seq<u8>| spec_split(row, 124)),
                ),
            )
        },
    }
}

/// The byte at `pos`, and the position after it.
pub fn get_u8(src: &[u8], pos: usize) -> (r: Option<(u8, usize)>)
    ensures
        match r {
            Some((b, next)) => pos < src@.len() && b == src@[pos as int] && next == pos + 1,
            None => pos >= src@.len(),
        },
{
    if pos < src.len() {
        Some((src[pos], pos + 1))
    } else {
        None
    }
}

/// The bytes from `pos` up to the next `\r\n`, and the position after
/// that line end; `None` while no line end has arrived.
pub fn get_line(src: &[u8], pos: usize) -> (r: Option<(Vec<u8>, usize)>)
    requires
        pos <= src@.len(),
    ensures
        match r {
            Some((line, next)) => spec_find_crlf(src@, pos as int) matches Some(j) && line@
                == src@.subrange(pos as int, j) && next == j + 2,
            None => spec_find_crlf(src@, pos as int) is None,
        },
{
    let n = src.len();
    let mut i: usize = pos;
    while n - i > 1 && !(src[i] == 13 && src[i + 1] == 10)
        invariant
            pos <= i,
            i <= n == src@.len(),
            spec_find_crlf(src@, pos as int) == spec_find_crlf(src@, i as int),
        decreases n - i,
    {
        i = i + 1;
    }
    if n - i > 1 {
        let line = crate::parse::scanner::sub_vec_slice(src, pos, i);
        Some((line, i + 2))
    } else {
        None
    }
}

/// The bytes from `pos` up to the next occurrence of `c`, and the
/// position of that occurrence; `None` while none has arrived.
pub fn get_until(src: &[u8], pos: usize, c: u8) -> (r: Option<(Vec<u8>, usize)>)
    requires
        pos <= src@.len(),
    ensures
        match r {
            Some((body, at)) => spec_find_byte(src@, pos as int, c) matches Some(j) && body@
                == src@.subrange(pos as int, j) && at == j,
            None => spec_find_byte(src@, pos as int, c) is None,
        },
{
    let n = src.len();
    let mut i: usize = pos;
    while i < n && src[i] != c
        invariant
            pos <= i,
            i <= n == src@.len(),
            spec_find_byte(src@, pos as int, c) == spec_find_byte(src@, i as int, c),
        decreases n - i,
    {
        i = i + 1;
    }
    if i < n {
        let body = crate::parse::scanner::sub_vec_slice(src, pos, i);
        Some((body, i))
    } else {
        None
    }
}

/// The bytes from `pos` up to the next space or line end, and the
/// position after the boundary; `None` while neither has arrived.
pub fn get_word(src: &[u8], pos: usize) -> (r: Option<(Vec<u8>, usize)>)
    requires
        pos <= src@.len(),
    ensures
        match r {
            Some((word, next)) => exists|j: int|
                pos <= j < src@.len() && word@ == src@.subrange(pos as int, j) && (#[trigger] src@[j]
                    == 32 && next == j + 1 || src@[j] == 13 && j + 1 < src@.len() && src@[j + 1]
                    == 10 && next == j + 2) && forall|m: int|
                    pos <= m < j ==> (#[trigger] src@[m]) != 32 && !(src@[m] == 13 && m + 1
                        < src@.len() && src@[m + 1] == 10),
            None => true,
        },
{
    let n = src.len();
    let mut i: usize = pos;
    while i < n && src[i] != 32 && !(src[i] == 13 && i + 1 < n && src[i + 1] == 10)
        invariant
            pos <= i,
            i <= n == src@.len(),
            forall|m: int|
                pos <= m < i ==> (#[trigger] src@[m]) != 32 && !(src@[m] == 13 && m + 1
                    < src@.len() && src@[m + 1] == 10),
        decreases n - i,
    {
        i = i + 1;
    }
    if i < n {
        let word = crate::parse::scanner::sub_vec_slice(src, pos, i);
        if src[i] == 32 {
            return Some((word, i + 1));
        }
        Some((word, i + 2))
    } else {
        None
    }
}

/// Turns an exhausted read into the `Incomplete` error.
pub fn throw_incomplete<T>(res: Option<T>) -> (r: Result<T, Error>)
    ensures
        match res {
            Some(v) => r == Ok::<T, Error>(v),
            None => r == Err::<T, Error>(Error::Incomplete),
        },
{
    match res {
        Some(v) => Ok(v),
        None => Err(Error::Incomplete),
    }
}

impl Frame {
    /// Measures the frame at the head of `src` without consuming it:
    /// the framed length, or `Incomplete`, or the unexpected byte.
    pub fn check(src: &[u8]) -> (r: Result<usize, Error>)
        ensures
            match r {
                Ok(len) => spec_check(src@) == Ok::<int, Error>(len as int),
                Err(e) => spec_check(src@) == Err::<int, Error>(e),
            },
    {
        let (first, pos) = match get_u8(src, 0) {
            Some(p) => p,
            None => {
                return Err(Error::Incomplete);
            },
        };
        if first == 58 || first == 45 {
            match get_line(src, pos) {
                Some((_, next)) => {
                    proof {
                        lemma_find_crlf_bounds(src@, 1);
                    }
                    Ok(next)
                },
                None => Err(Error::Incomplete),
            }
        } else if first == 42 {
            match get_until(src, pos, 42) {
                Some((_, at)) => {
                    proof {
                        lemma_find_byte_bounds(src@, 1, 42);
                    }
                    if src.len() - at > 2 {
                        if src[at + 1] == 13 && src[at + 2] == 10 {
                            Ok(at + 3)
                        } else {
                            Err(Error::Protocol(src[at + 1]))
                        }
                    } else {
                        Err(Error::Incomplete)
                    }
                },
                None => Err(Error::Incomplete),
            }
        } else {
            Err(Error::Protocol(first))
        }
    }

    /// Reads the frame at the head of `src`, over the same span that
    /// `check` measures.
    pub fn parse(src: &[u8]) -> (r: Result<Frame, Error>)
        ensures
            match r {
                Ok(f) => spec_parse(src@) == Ok::<FrameV, Error>(f@),
                Err(e) => spec_parse(src@) == Err::<FrameV, Error>(e),
            },
    {
        let (first, pos) = match get_u8(src, 0) {
            Some(p) => p,
            None => {
                return Err(Error::Incomplete);
            },
        };
        if first == 58 {
            match get_line(src, pos) {
                Some((line, _)) => {
                    proof {
                        lemma_find_crlf_bounds(src@, 1);
                    }
                    Ok(Frame::Cmd(line))
                },
                None => Err(Error::Incomplete),
            }
        } else if first == 45 {
            match get_line(src, pos) {
                Some((line, _)) => {
                    proof {
                        lemma_find_crlf_bounds(src@, 1);
                    }
                    if line.len() == 1 && line[0] == 49 {
                        proof {
                            assert(line@ =~= seq![49u8]);
                        }
                        Ok(Frame::Null)
                    } else {
                        proof {
                            assert(line@ != seq![49u8]);
                        }
                        Ok(Frame::Error(line))
                    }
                },
                None => Err(Error::Incomplete),
            }
        } else if first == 42 {
            match get_until(src, pos, 42) {
                Some((body, at)) => {
                    proof {
                        lemma_find_byte_bounds(src@, 1, 42);
                    }
                    if src.len() - at > 2 {
                        if src[at + 1] == 13 && src[at + 2] == 10 {
                            let rows = split_rows(&body);
                            Ok(Frame::Table(rows))
                        } else {
                            Err(Error::Protocol(src[at + 1]))
                        }
                    } else {
                        Err(Error::Incomplete)
                    }
                },
                None => Err(Error::Incomplete),
            }
        } else {
            Err(Error::Protocol(first))
        }
    }
}

/// Splits a table body into rows of cells.
fn split_rows(body: &Vec<u8>) -> (r: Vec<Vec<Vec<u8>>>)
    ensures
        r.deep_view() == spec_split(body@, 94).map_values(|row: Seq<u8>| spec_split(row, 124)),
{
    let raw_rows = split_bytes(body, 94);
    let n = raw_rows.len();
    let mut out: Vec<Vec<Vec<u8>>> = Vec::new();
    let mut i: usize = 0;
    let ghost target = spec_split(body@, 94).map_values(|row: Seq<u8>| spec_split(row, 124));
    while i < n
        invariant
            n == raw_rows@.len(),
            raw_rows.deep_view() == spec_split(body@, 94),
            target == spec_split(body@, 94).map_values(|row: Seq<u8>| spec_split(row, 124)),
            i <= n,
            out.deep_view().len() == i,
            forall|k: int| 0 <= k < i ==> #[trigger] out.deep_view()[k] == target[k],
        decreases n - i,
    {
        let cells = split_bytes(&raw_rows[i], 124);
        let ghost cells_snap = cells.deep_view();
        proof {
            assert(raw_rows.deep_view()[i as int] == raw_rows@[i as int]@);
            assert(target[i as int] == spec_split(spec_split(body@, 94)[i as int], 124));
            assert(cells_snap == target[i as int]);
        }
        let ghost before = out.deep_view();
        out.push(cells);
        proof {
            assert(out@.len() == i + 1);
            assert(out.deep_view().len() == out@.len());
            assert(forall|k: int|
                0 <= k <= i ==> #[trigger] out.deep_view()[k] == out@[k].deep_view());
            assert(forall|k: int| 0 <= k < i ==> #[trigger] before[k] == out@[k].deep_view());
            assert(out.deep_view()[i as int] == cells_snap);
            assert forall|k: int| 0 <= k <= i implies #[trigger] out.deep_view()[k] == target[k] by {
                if k < i {
                    assert(out.deep_view()[k] == out@[k].deep_view());
                    assert(before[k] == out@[k].deep_view());
                    assert(before[k] == target[k]);
                } else {
                    assert(out.deep_view()[i as int] == cells_snap);
                    assert(cells_snap == target[i as int]);
                }
            }
        }
        i = i + 1;
    }
    proof {
        assert(target.len() == raw_rows.deep_view().len());
        assert(out.deep_view() =~= target);
    }
    out
}

/// Splits `s` at every occurrence of `sep`.
fn split_bytes(s: &Vec<u8>, sep: u8) -> (r: Vec<Vec<u8>>)
    ensures
        r.deep_view() == spec_split(s@, sep),
    decreases s@.len(),
{
    let n = s.len();
    let mut i: usize = 0;
    while i < n && s[i] != sep
        invariant
            i <= n == s@.len(),
            spec_find_byte(s@, 0, sep) == spec_find_byte(s@, i as int, sep),
        decreases n - i,
    {
        i = i + 1;
    }
    if i < n {
        proof {
            lemma_find_byte_bounds(s@, 0, sep);
        }
        let head = crate::parse::scanner::sub_vec(s, 0, i);
        let ghost head_snap = head@;
        let tail = crate::parse::scanner::sub_vec(s, i + 1, n);
        let ghost tail_snap = tail@;
        let mut rest = split_bytes(&tail, sep);
        let ghost rest_snap = rest.deep_view();
        let mut out: Vec<Vec<u8>> = Vec::new();
        out.push(head);
        out.append(&mut rest);
        proof {
            assert(out@.len() == 1 + rest_snap.len());
            assert(forall|k: int|
                0 <= k < out@.len() ==> #[trigger] out.deep_view()[k] == out@[k]@);
            assert(forall|k: int|
                0 <= k < rest_snap.len() ==> #[trigger] rest_snap[k] == out@[k + 1]@);
            assert(tail_snap =~= s@.skip(i + 1));
            assert(head_snap =~= s@.take(i as int));
            assert(out@[0]@ == s@.take(i as int));
            assert(out.deep_view() =~= seq![s@.take(i as int)] + spec_split(
                s@.skip(i + 1),
                sep,
            ));
        }
        out
    } else {
        proof {
            lemma_find_byte_bounds(s@, 0, sep);
            assert(spec_find_byte(s@, 0, sep) is None);
        }
        let whole = crate::parse::scanner::sub_vec(s, 0, n);
        let ghost whole_snap = whole@;
        let mut out: Vec<Vec<u8>> = Vec::new();
        out.push(whole);
        proof {
            assert(whole_snap =~= s@);
            assert(out@.len() == 1);
            assert(out.deep_view()[0] == out@[0]@);
            assert(out.deep_view() =~= seq![s@]);
        }
        out
    }
}

/// `items` joined with the single-byte separator `sep`.
fn join_bytes(items: &Vec<Vec<u8>>, sep: u8) -> (r: Vec<u8>)
    ensures
        r@ == spec_join(items.deep_view(), sep),
{
    let mut out: Vec<u8> = Vec::new();
    let n = items.len();
    if n == 0 {
        proof {
            assert(out@ =~= spec_join(items.deep_view(), sep));
        }
        return out;
    }
    out.extend_from_slice(items[0].as_slice());
    proof {
        assert(items.deep_view()[0] == items@[0]@);
        assert(items.deep_view().take(1).len() == 1);
        assert(items.deep_view().take(1)[0] == items.deep_view()[0]);
        assert(out@ =~= spec_join(items.deep_view().take(1), sep));
    }
    let mut k: usize = 1;
    while k < n
        invariant
            n == items@.len(),
            items.deep_view().len() == n,
            forall|m: int| 0 <= m < n ==> #[trigger] items.deep_view()[m] == items@[m]@,
            1 <= k <= n,
            out@ == spec_join(items.deep_view().take(k as int), sep),
        decreases n - k,
    {
        proof {
            assert(items.deep_view().take((k + 1) as int).drop_last() =~= items.deep_view().take(
                k as int,
            ));
            assert(items.deep_view().take((k + 1) as int).last() == items.deep_view()[k as int]);
        }
        out.push(sep);
        out.extend_from_slice(items[k].as_slice());
        proof {
            assert(out@ =~= spec_join(items.deep_view().take((k + 1) as int), sep));
        }
        k = k + 1;
    }
    proof {
        assert(items.deep_view().take(n as int) =~= items.deep_view());
    }
    out
}

impl Frame {
    /// The wire bytes of this frame.
    pub fn encode(&self) -> (r: Vec<u8>)
        ensures
            r@ == spec_encode(self@),
    {
        let mut out: Vec<u8> = Vec::new();
        match self {
            Frame::Cmd(b) => {
                out.push(58);
                out.extend_from_slice(b.as_slice());
                out.push(13);
                out.push(10);
                proof {
                    assert(out@ =~= spec_encode(self@));
                }
            },
            Frame::Table(rows) => {
                out.push(42);
                let ghost target = rows.deep_view().map_values(
                    |row: Seq<Seq<u8>>| spec_join(row, 124),
                );
                let mut encoded: Vec<Vec<u8>> = Vec::new();
                let n = rows.len();
                let mut i: usize = 0;
                while i < n
                    invariant
                        n == rows@.len(),
                        rows.deep_view().len() == n,
                        forall|m: int|
                            0 <= m < n ==> #[trigger] rows.deep_view()[m] == rows@[m].deep_view(),
                        target == rows.deep_view().map_values(
                            |row: Seq<Seq<u8>>| spec_join(row, 124),
                        ),
                        i <= n,
                        encoded.deep_view().len() == i,
                        forall|m: int| 0 <= m < i ==> #[trigger] encoded.deep_view()[m] == target[m],
                    decreases n - i,
                {
                    let line = join_bytes(&rows[i], 124);
                    let ghost line_snap = line@;
                    let ghost before = encoded.deep_view();
                    encoded.push(line);
                    proof {
                        assert(encoded@.len() == i + 1);
                        assert(encoded.deep_view().len() == encoded@.len());
                        assert(forall|m: int|
                            0 <= m <= i ==> #[trigger] encoded.deep_view()[m] == encoded@[m]@);
                        assert(forall|m: int|
                            0 <= m < i ==> #[trigger] before[m] == encoded@[m]@);
                        assert(encoded.deep_view()[i as int] == line_snap);
                        assert(line_snap == spec_join(rows@[i as int].deep_view(), 124));
                        assert(target[i as int] == spec_join(rows.deep_view()[i as int], 124));
                        assert forall|m: int| 0 <= m <= i implies #[trigger] encoded.deep_view()[m]
                            == target[m] by {
                            if m < i {
                                assert(encoded.deep_view()[m] == encoded@[m]@);
                                assert(before[m] == encoded@[m]@);
                                assert(before[m] == target[m]);
                            }
                        }
                    }
                    i = i + 1;
                }
                proof {
                    assert(encoded.deep_view() =~= target);
                }
                let mut body = join_bytes(&encoded, 94);
                out.append(&mut body);
                out.push(42);
                out.push(13);
                out.push(10);
                proof {
                    assert(out@ =~= spec_encode(self@));
                }
            },
            Frame::Error(m) => {
                out.push(45);
                out.extend_from_slice(m.as_slice());
                out.push(13);
                out.push(10);
                proof {
                    assert(out@ =~= spec_encode(self@));
                }
            },
            Frame::Null => {
                out.push(45);
                out.push(49);
                out.push(13);
                out.push(10);
                proof {
                    assert(out@ =~= spec_encode(self@));
                }
            },
        }
        out
    }
}

/// Element-wise equality of byte-vector vectors, over views.
fn bytes_vec_eq(a: &Vec<Vec<u8>>, b: &Vec<Vec<u8>>) -> (r: bool)
    ensures
        r == (a.deep_view() == b.deep_view()),
{
    if a.len() != b.len() {
        proof {
            assert(a.deep_view().len() == a@.len());
            assert(b.deep_view().len() == b@.len());
        }
        return false;
    }
    let n = a.len();
    let mut i: usize = 0;
    while i < n
        invariant
            n == a@.len() == b@.len(),
            i <= n,
            forall|k: int| 0 <= k < i ==> #[trigger] a.deep_view()[k] == b.deep_view()[k],
        decreases n - i,
    {
        proof {
            assert(a.deep_view()[i as int] == a@[i as int]@);
            assert(b.deep_view()[i as int] == b@[i as int]@);
        }
        if !crate::parse::token::bytes_eq(a[i].as_slice(), b[i].as_slice()) {
            return false;
        }
        i = i + 1;
    }
    proof {
        assert(a.deep_view() =~= b.deep_view());
    }
    true
}

/// Equality of frames, over views.
pub fn frame_eq(a: &Frame, b: &Frame) -> (r: bool)
    ensures
        r == (a@ == b@),
{
    match (a, b) {
        (Frame::Cmd(x), Frame::Cmd(y)) => crate::parse::token::bytes_eq(x.as_slice(), y.as_slice()),
        (Frame::Error(x), Frame::Error(y)) => crate::parse::token::bytes_eq(
            x.as_slice(),
            y.as_slice(),
        ),
        (Frame::Null, Frame::Null) => true,
        (Frame::Table(xs), Frame::Table(ys)) => {
            if xs.len() != ys.len() {
                proof {
                    assert(xs.deep_view().len() == xs@.len());
                    assert(ys.deep_view().len() == ys@.len());
                }
                return false;
            }
            let n = xs.len();
            let mut i: usize = 0;
            while i < n
                invariant
                    n == xs@.len() == ys@.len(),
                    a@ == (FrameV::Table(xs.deep_view())),
                    b@ == (FrameV::Table(ys.deep_view())),
                    i <= n,
                    forall|k: int| 0 <= k < i ==> #[trigger] xs.deep_view()[k] == ys.deep_view()[k],
                decreases n - i,
            {
                proof {
                    assert(xs.deep_view()[i as int] == xs@[i as int].deep_view());
                    assert(ys.deep_view()[i as int] == ys@[i as int].deep_view());
                }
                if !bytes_vec_eq(&xs[i], &ys[i]) {
                    return false;
                }
                i = i + 1;
            }
            proof {
                assert(xs.deep_view() =~= ys.deep_view());
            }
            true
        },
        _ => false,
    }
}

impl PartialEq for Frame {
    fn eq(&self, other: &Frame) -> (r: bool) {
        frame_eq(self, other)
    }
}

impl vstd::std_specs::cmp::PartialEqSpecImpl for Frame {
    open spec fn obeys_eq_spec() -> bool {
        true
    }

    open spec fn eq_spec(&self, other: &Frame) -> bool {
        self@ == other@
    }
}

/// `n` spaces.
pub open spec fn spec_spaces(n: int) -> Seq<u8>
    decreases n,
{
    if n <= 0 {
        Seq::empty()
    } else {
        seq![32u8] + spec_spaces(n - 1)
    }
}

/// `n` dashes.
pub open spec fn spec_dashes(n: int) -> Seq<u8>
    decreases n,
{
    if n <= 0 {
        Seq::empty()
    } else {
        seq![45u8] + spec_dashes(n - 1)
    }
}

/// The width of column `c`: the longest cell in it, over the rows
/// from `i` on.
pub open spec fn spec_width(rows: Seq<Seq<Seq<u8>>>, c: int, i: int) -> int
    decreases rows.len() - i when 0 <= i <= rows.len()
{
    if i == rows.len() {
        0
    } else {
        let rest = spec_width(rows, c, i + 1);
        if rows[i][c].len() > rest {
            rows[i][c].len() as int
        } else {
            rest
        }
    }
}

/// The cells of one row from `c` on, each padded to its column's
/// width, separated by ` | `.
pub open spec fn spec_cells_from(rows: Seq<Seq<Seq<u8>>>, row: Seq<Seq<u8>>, c: int) -> Seq<u8>
    decreases row.len() - c when 0 <= c <= row.len()
{
    if c == row.len() {
        Seq::empty()
    } else {
        let padded = row[c] + spec_spaces(spec_width(rows, c, 0) - row[c].len());
        if c + 1 < row.len() {
            padded + seq![32u8, 124u8, 32u8] + spec_cells_from(rows, row, c + 1)
        } else {
            padded
        }
    }
}

/// One printed row: a leading space, then the padded cells.
pub open spec fn spec_row_text(rows: Seq<Seq<Seq<u8>>>, row: Seq<Seq<u8>>) -> Seq<u8> {
    seq![32u8] + spec_cells_from(rows, row, 0)
}

/// The dashed separator under the header: each column's width plus
/// two, joined by `+`.
pub open spec fn spec_sep_from(rows: Seq<Seq<Seq<u8>>>, c: int, ncols: int) -> Seq<u8>
    decreases ncols - c when 0 <= c <= ncols
{
    if c == ncols {
        Seq::empty()
    } else {
        let dashes = spec_dashes(spec_width(rows, c, 0) + 2);
        if c + 1 < ncols {
            dashes + seq![43u8] + spec_sep_from(rows, c + 1, ncols)
        } else {
            dashes
        }
    }
}

/// The printed body rows from `i` on, each with a trailing line feed.
pub open spec fn spec_body_from(rows: Seq<Seq<Seq<u8>>>, i: int) -> Seq<u8>
    decreases rows.len() - i when 0 <= i <= rows.len()
{
    if i == rows.len() {
        Seq::empty()
    } else {
        spec_row_text(rows, rows[i]) + seq![10u8] + spec_body_from(rows, i + 1)
    }
}

/// The client-side text of a frame: a command echoes its bytes, a
/// table prints a header row, a dashed separator and the body rows in
/// aligned columns, an error gets the `Error: ` prefix, and the empty
/// result prints `NULL`.
pub open spec fn spec_render_frame(f: FrameV) -> Seq<u8> {
    match f {
        FrameV::Cmd(b) => b,
        FrameV::Table(rows) => spec_row_text(rows, rows[0]) + seq![10u8] + spec_sep_from(
            rows,
            0,
            rows[0].len() as int,
        ) + seq![10u8] + spec_body_from(rows, 1),
        FrameV::Error(m) => ("Error: ").spec_bytes() + m,
        FrameV::Null => ("NULL").spec_bytes(),
    }
}

/// A table frame the pretty printer accepts: at least one row, all
/// rows of the header's width, and that width positive.
pub open spec fn spec_renderable(f: FrameV) -> bool {
    match f {
        FrameV::Table(rows) => {
            &&& rows.len() > 0
            &&& rows[0].len() > 0
            &&& forall|i: int| 0 <= i < rows.len() ==> (#[trigger] rows[i]).len() == rows[0].len()
            &&& forall|i: int, c: int|
                0 <= i < rows.len() && 0 <= c < rows[i].len() ==> (#[trigger] rows[i][c]).len() + 2
                    <= usize::MAX
        },
        _ => true,
    }
}

/// A bound on every cell of a column bounds its width.
proof fn lemma_width_le(rows: Seq<Seq<Seq<u8>>>, c: int, i: int, bound: int)
    requires
        0 <= i <= rows.len(),
        forall|k: int| 0 <= k < rows.len() ==> (#[trigger] rows[k])[c].len() <= bound,
        0 <= bound,
    ensures
        spec_width(rows, c, i) <= bound,
    decreases rows.len() - i,
{
    if i < rows.len() {
        lemma_width_le(rows, c, i + 1, bound);
    }
}

/// Every cell of column `c` fits its width.
proof fn lemma_width_ge(rows: Seq<Seq<Seq<u8>>>, c: int, i: int)
    requires
        0 <= i <= rows.len(),
    ensures
        forall|k: int| i <= k < rows.len() ==> (#[trigger] rows[k])[c].len() <= spec_width(
            rows,
            c,
            i,
        ),
        spec_width(rows, c, i) >= 0,
    decreases rows.len() - i,
{
    if i < rows.len() {
        lemma_width_ge(rows, c, i + 1);
    }
}

/// Widths do not depend on the starting row when it is the first.
proof fn lemma_width_from_zero(rows: Seq<Seq<Seq<u8>>>, c: int, i: int)
    requires
        0 <= i <= rows.len(),
    ensures
        spec_width(rows, c, i) <= spec_width(rows, c, 0),
    decreases i,
{
    if i > 0 {
        lemma_width_from_zero(rows, c, i - 1);
        lemma_width_ge(rows, c, i);
        assert(spec_width(rows, c, i - 1) >= spec_width(rows, c, i));
    }
}

/// `n` spaces, materialized.
fn spaces(n: usize) -> (r: Vec<u8>)
    ensures
        r@ == spec_spaces(n as int),
    decreases n,
{
    if n == 0 {
        let v: Vec<u8> = Vec::new();
        proof {
            assert(v@ =~= spec_spaces(0));
        }
        v
    } else {
        let rest = spaces(n - 1);
        let mut v: Vec<u8> = Vec::new();
        v.push(32);
        let ghost head = v@;
        let mut rest = rest;
        v.append(&mut rest);
        proof {
            assert(v@ =~= spec_spaces(n as int));
        }
        v
    }
}

/// `n` dashes, materialized.
fn dashes(n: usize) -> (r: Vec<u8>)
    ensures
        r@ == spec_dashes(n as int),
    decreases n,
{
    if n == 0 {
        let v: Vec<u8> = Vec::new();
        proof {
            assert(v@ =~= spec_dashes(0));
        }
        v
    } else {
        let rest = dashes(n - 1);
        let mut v: Vec<u8> = Vec::new();
        v.push(45);
        let mut rest = rest;
        v.append(&mut rest);
        proof {
            assert(v@ =~= spec_dashes(n as int));
        }
        v
    }
}

/// The width of column `c` over the rows from `i` on.
fn width_from(rows: &Vec<Vec<Vec<u8>>>, c: usize, i: usize) -> (r: usize)
    requires
        i <= rows@.len(),
        c < rows.deep_view()[0].len() || rows@.len() == 0,
        forall|k: int|
            0 <= k < rows.deep_view().len() ==> (#[trigger] rows.deep_view()[k]).len()
                == rows.deep_view()[0].len(),
    ensures
        r as int == spec_width(rows.deep_view(), c as int, i as int),
    decreases rows@.len() - i,
{
    proof {
        assert(rows.deep_view().len() == rows@.len());
    }
    if i == rows.len() {
        0
    } else {
        let rest = width_from(rows, c, i + 1);
        proof {
            assert(rows.deep_view()[i as int] == rows@[i as int].deep_view());
            assert(rows@[i as int].deep_view().len() == rows@[i as int]@.len());
            assert(rows@[i as int].deep_view()[c as int] == rows@[i as int]@[c as int]@);
        }
        let cur = rows[i][c].len();
        if cur > rest {
            cur
        } else {
            rest
        }
    }
}

impl Frame {
    /// The client-side text of this frame, as the interactive client
    /// prints it.
    pub fn render(&self) -> (r: Vec<u8>)
        requires
            spec_renderable(self@),
        ensures
            r@ == spec_render_frame(self@),
    {
        match self {
            Frame::Cmd(b) => b.clone(),
            Frame::Error(m) => {
                let mut out: Vec<u8> = Vec::new();
                out.extend_from_slice(("Error: ").as_bytes());
                out.extend_from_slice(m.as_slice());
                out
            },
            Frame::Null => {
                let mut out: Vec<u8> = Vec::new();
                out.extend_from_slice(("NULL").as_bytes());
                proof {
                    assert(out@ =~= ("NULL").spec_bytes());
                }
                out
            },
            Frame::Table(rows) => {
                let ghost rv = rows.deep_view();
                proof {
                    assert(rv.len() == rows@.len());
                    assert(forall|k: int|
                        0 <= k < rv.len() ==> #[trigger] rv[k] == rows@[k].deep_view());
                }
                let ncols = rows[0].len();
                proof {
                    assert(rv[0] == rows@[0].deep_view());
                    assert(rv[0].len() == rows@[0]@.len());
                }
                let mut out = row_text(rows, 0);
                out.push(10);
                let mut sep = sep_from(rows, 0);
                out.append(&mut sep);
                out.push(10);
                let n = rows.len();
                let mut i: usize = 1;
                proof {
                    assert(out@ =~= spec_row_text(rv, rv[0]) + seq![10u8] + spec_sep_from(
                        rv,
                        0,
                        rv[0].len() as int,
                    ) + seq![10u8]);
                }
                while i < n
                    invariant
                        spec_renderable(self@),
                        self@ == (FrameV::Table(rv)),
                        rv == rows.deep_view(),
                        n == rows@.len(),
                        rv.len() == n,
                        n > 0,
                        forall|k: int| 0 <= k < rv.len() ==> #[trigger] rv[k] == rows@[k].deep_view(),
                        1 <= i <= n,
                        out@ == spec_row_text(rv, rv[0]) + seq![10u8] + spec_sep_from(
                            rv,
                            0,
                            rv[0].len() as int,
                        ) + seq![10u8] + spec_body_from(rv, 1).subrange(
                            0,
                            spec_body_from(rv, 1).len() - spec_body_from(rv, i as int).len(),
                        ),
                        spec_body_from(rv, 1) == spec_body_from(rv, 1).subrange(
                            0,
                            spec_body_from(rv, 1).len() - spec_body_from(rv, i as int).len(),
                        ) + spec_body_from(rv, i as int),
                    decreases n - i,
                {
                    let mut line = row_text(rows, i);
                    out.append(&mut line);
                    out.push(10);
                    proof {
                        let full = spec_body_from(rv, 1);
                        assert(spec_body_from(rv, i as int) == spec_row_text(rv, rv[i as int])
                            + seq![10u8] + spec_body_from(rv, i + 1));
                        assert(full =~= full.subrange(
                            0,
                            full.len() - spec_body_from(rv, i + 1).len(),
                        ) + spec_body_from(rv, i + 1));
                        assert(out@ =~= spec_row_text(rv, rv[0]) + seq![10u8] + spec_sep_from(
                            rv,
                            0,
                            rv[0].len() as int,
                        ) + seq![10u8] + full.subrange(
                            0,
                            full.len() - spec_body_from(rv, i + 1).len(),
                        ));
                    }
                    i = i + 1;
                }
                proof {
                    assert(spec_body_from(rv, n as int) =~= Seq::<u8>::empty());
                    assert(out@ =~= spec_render_frame(self@));
                }
                out
            },
        }
    }
}

/// One printed row of the table.
fn row_text(rows: &Vec<Vec<Vec<u8>>>, r: usize) -> (out: Vec<u8>)
    requires
        r < rows@.len(),
        rows.deep_view()[0].len() > 0,
        forall|k: int|
            0 <= k < rows.deep_view().len() ==> (#[trigger] rows.deep_view()[k]).len()
                == rows.deep_view()[0].len(),
    ensures
        out@ == spec_row_text(rows.deep_view(), rows.deep_view()[r as int]),
{
    let mut out: Vec<u8> = Vec::new();
    out.push(32);
    let mut cells = cells_from(rows, r, 0);
    out.append(&mut cells);
    proof {
        assert(out@ =~= spec_row_text(rows.deep_view(), rows.deep_view()[r as int]));
    }
    out
}

/// The padded cells of row `r` from column `c` on.
fn cells_from(rows: &Vec<Vec<Vec<u8>>>, r: usize, c: usize) -> (out: Vec<u8>)
    requires
        r < rows@.len(),
        c <= rows.deep_view()[r as int].len(),
        rows.deep_view()[0].len() > 0,
        forall|k: int|
            0 <= k < rows.deep_view().len() ==> (#[trigger] rows.deep_view()[k]).len()
                == rows.deep_view()[0].len(),
    ensures
        out@ == spec_cells_from(rows.deep_view(), rows.deep_view()[r as int], c as int),
    decreases rows.deep_view()[r as int].len() - c,
{
    let ghost rv = rows.deep_view();
    let ghost row = rv[r as int];
    proof {
        assert(rv.len() == rows@.len());
        assert(rv[r as int] == rows@[r as int].deep_view());
        assert(row.len() == rows@[r as int]@.len());
    }
    let ncols = rows[r].len();
    if c == ncols {
        let out: Vec<u8> = Vec::new();
        proof {
            assert(out@ =~= spec_cells_from(rv, row, c as int));
        }
        return out;
    }
    proof {
        assert(row[c as int] == rows@[r as int]@[c as int]@);
        lemma_width_ge(rv, c as int, 0);
    }
    let w = width_from(rows, c, 0);
    let mut out = rows[r][c].clone();
    let cell_len = out.len();
    let mut pad = spaces(w - cell_len);
    out.append(&mut pad);
    if c + 1 < ncols {
        out.push(32);
        out.push(124);
        out.push(32);
        let mut rest = cells_from(rows, r, c + 1);
        out.append(&mut rest);
    }
    proof {
        assert(out@ =~= spec_cells_from(rv, row, c as int));
    }
    out
}

/// The dashed separator from column `c` on.
fn sep_from(rows: &Vec<Vec<Vec<u8>>>, c: usize) -> (out: Vec<u8>)
    requires
        rows@.len() > 0,
        c <= rows.deep_view()[0].len(),
        rows.deep_view()[0].len() > 0,
        forall|k: int|
            0 <= k < rows.deep_view().len() ==> (#[trigger] rows.deep_view()[k]).len()
                == rows.deep_view()[0].len(),
        forall|k: int, q: int|
            0 <= k < rows.deep_view().len() && 0 <= q < rows.deep_view()[k].len() ==> (
            #[trigger] rows.deep_view()[k][q]).len() + 2 <= usize::MAX,
    ensures
        out@ == spec_sep_from(rows.deep_view(), c as int, rows.deep_view()[0].len() as int),
    decreases rows.deep_view()[0].len() - c,
{
    let ghost rv = rows.deep_view();
    proof {
        assert(rv.len() == rows@.len());
        assert(rv[0] == rows@[0].deep_view());
        assert(rv[0].len() == rows@[0]@.len());
    }
    let ncols = rows[0].len();
    if c == ncols {
        let out: Vec<u8> = Vec::new();
        proof {
            assert(out@ =~= spec_sep_from(rv, c as int, ncols as int));
        }
        return out;
    }
    proof {
        lemma_width_ge(rv, c as int, 0);
        assert(forall|k: int| 0 <= k < rv.len() ==> (#[trigger] rv[k])[c as int].len()
            <= usize::MAX - 2);
        lemma_width_le(rv, c as int, 0, usize::MAX - 2);
    }
    let w = width_from(rows, c, 0);
    let mut out = dashes(w + 2);
    if c + 1 < ncols {
        out.push(43);
        let mut rest = sep_from(rows, c + 1);
        out.append(&mut rest);
    }
    proof {
        assert(out@ =~= spec_sep_from(rv, c as int, ncols as int));
    }
    out
}

/// No byte of the cell is a frame delimiter.
pub open spec fn cell_clean(cell: Seq<u8>) -> bool {
    forall|b: int| 0 <= b < cell.len() ==> cell[b] != 42 && cell[b] != 94 && cell[b] != 124
}

/// Every byte of `s` differs from `c`, so nothing is found.
proof fn lemma_find_byte_none(s: Seq<u8>, i: int, c: u8)
    requires
        0 <= i,
        forall|m: int| i <= m < s.len() ==> s[m] != c,
    ensures
        spec_find_byte(s, i, c) is None,
    decreases s.len() - i,
{
    if i < s.len() {
        lemma_find_byte_none(s, i + 1, c);
    }
}

/// The first occurrence is where the first occurrence is.
proof fn lemma_find_byte_at(s: Seq<u8>, i: int, c: u8, j: int)
    requires
        0 <= i <= j < s.len(),
        s[j] == c,
        forall|m: int| i <= m < j ==> s[m] != c,
    ensures
        spec_find_byte(s, i, c) == Some(j),
    decreases j - i,
{
    if i < j {
        lemma_find_byte_at(s, i + 1, c, j);
    }
}

/// The front unfolding of a join with at least two items.
proof fn lemma_join_front(items: Seq<Seq<u8>>, sep: u8)
    requires
        items.len() >= 2,
    ensures
        spec_join(items, sep) == items[0] + seq![sep] + spec_join(items.skip(1), sep),
    decreases items.len(),
{
    if items.len() == 2 {
        assert(items.drop_last() =~= seq![items[0]]);
        assert(items.skip(1) =~= seq![items[1]]);
        assert(spec_join(items, sep) =~= items[0] + seq![sep] + spec_join(items.skip(1), sep));
    } else {
        lemma_join_front(items.drop_last(), sep);
        assert(items.drop_last()[0] == items[0]);
        assert(items.drop_last().skip(1) =~= items.skip(1).drop_last());
        assert(items.skip(1).last() == items.last());
        assert(spec_join(items, sep) == spec_join(items.drop_last(), sep) + seq![sep]
            + items.last());
        assert(spec_join(items.skip(1), sep) == spec_join(items.skip(1).drop_last(), sep) + seq![
            sep,
        ] + items.skip(1).last());
        assert(spec_join(items, sep) =~= items[0] + seq![sep] + spec_join(items.skip(1), sep));
    }
}

/// A join of separator-free items contains the separator exactly at
/// the seams; in particular a join avoiding some other byte avoids it
/// throughout.
proof fn lemma_join_avoids(items: Seq<Seq<u8>>, sep: u8, other: u8)
    requires
        forall|k: int, b: int|
            0 <= k < items.len() && 0 <= b < items[k].len() ==> (#[trigger] items[k][b]) != other,
        sep != other,
    ensures
        forall|b: int|
            0 <= b < spec_join(items, sep).len() ==> (#[trigger] spec_join(items, sep)[b]) != other,
    decreases items.len(),
{
    if items.len() == 0 {
    } else if items.len() == 1 {
        assert(forall|b: int|
            0 <= b < items[0].len() ==> (#[trigger] spec_join(items, sep)[b]) == items[0][b]);
    } else {
        lemma_join_front(items, sep);
        assert(forall|k: int, b: int|
            0 <= k < items.skip(1).len() && 0 <= b < items.skip(1)[k].len() ==> (
            #[trigger] items.skip(1)[k][b]) != other) by {
            assert(forall|k: int|
                0 <= k < items.len() - 1 ==> #[trigger] items.skip(1)[k] == items[k + 1]);
        }
        lemma_join_avoids(items.skip(1), sep, other);
        let out = spec_join(items, sep);
        let head = items[0];
        let rest = spec_join(items.skip(1), sep);
        assert forall|b: int| 0 <= b < out.len() implies (#[trigger] out[b]) != other by {
            if b < head.len() {
                assert(out[b] == head[b]);
            } else if b == head.len() {
                assert(out[b] == sep);
            } else {
                assert(out[b] == rest[b - head.len() - 1]);
            }
        }
    }
}

/// Splitting undoes joining when no item holds the separator.
proof fn lemma_split_join(items: Seq<Seq<u8>>, sep: u8)
    requires
        items.len() >= 1,
        forall|k: int, b: int|
            0 <= k < items.len() && 0 <= b < items[k].len() ==> (#[trigger] items[k][b]) != sep,
    ensures
        spec_split(spec_join(items, sep), sep) == items,
    decreases items.len(),
{
    let joined = spec_join(items, sep);
    if items.len() == 1 {
        assert(joined == items[0]);
        lemma_find_byte_none(joined, 0, sep);
        assert(spec_split(joined, sep) =~= items);
    } else {
        lemma_join_front(items, sep);
        let head = items[0];
        let rest = spec_join(items.skip(1), sep);
        assert(joined[head.len() as int] == sep);
        assert(forall|m: int| 0 <= m < head.len() ==> #[trigger] joined[m] == head[m]);
        lemma_find_byte_at(joined, 0, sep, head.len() as int);
        lemma_find_byte_bounds(joined, 0, sep);
        assert(joined.take(head.len() as int) =~= head);
        assert(joined.skip(head.len() as int + 1) =~= rest);
        assert(forall|k: int, b: int|
            0 <= k < items.skip(1).len() && 0 <= b < items.skip(1)[k].len() ==> (
            #[trigger] items.skip(1)[k][b]) != sep) by {
            assert(forall|k: int|
                0 <= k < items.len() - 1 ==> #[trigger] items.skip(1)[k] == items[k + 1]);
        }
        lemma_split_join(items.skip(1), sep);
        assert(spec_split(joined, sep) == seq![head] + spec_split(rest, sep));
        assert(spec_split(joined, sep) =~= items);
    }
}

/// Reading back an encoded table frame yields the frame unchanged,
/// whenever the frame has at least one row, every row at least one
/// cell, and no cell holds a frame delimiter.
pub proof fn lemma_table_round_trip(rows: Seq<Seq<Seq<u8>>>)
    requires
        rows.len() >= 1,
        forall|i: int| 0 <= i < rows.len() ==> (#[trigger] rows[i]).len() >= 1,
        forall|i: int, j: int|
            0 <= i < rows.len() && 0 <= j < rows[i].len() ==> cell_clean(#[trigger] rows[i][j]),
    ensures
        spec_parse(spec_encode(FrameV::Table(rows))) == Ok::<FrameV, Error>(FrameV::Table(rows)),
{
    let enc_rows = rows.map_values(|row: Seq<Seq<u8>>| spec_join(row, 124));
    let body = spec_join(enc_rows, 94);
    let s = spec_encode(FrameV::Table(rows));
    // no encoded row holds a row separator or the table terminator
    assert forall|k: int, b: int|
        0 <= k < enc_rows.len() && 0 <= b < enc_rows[k].len() implies (#[trigger] enc_rows[k][b])
        != 94 && enc_rows[k][b] != 42 by {
        assert(enc_rows[k] == spec_join(rows[k], 124));
        assert(forall|q: int, c: int|
            0 <= q < rows[k].len() && 0 <= c < rows[k][q].len() ==> (#[trigger] rows[k][q][c]) != 94
                && rows[k][q][c] != 42);
        lemma_join_avoids(rows[k], 124, 94);
        lemma_join_avoids(rows[k], 124, 42);
    }
    lemma_join_avoids(enc_rows, 94, 42);
    // the frame scanner stops exactly at the closing terminator
    assert(s == seq![42u8] + body + seq![42u8, 13u8, 10u8]);
    assert(s[0] == 42);
    let j = 1 + body.len() as int;
    assert(s[j] == 42);
    assert(forall|m: int| 1 <= m < j ==> #[trigger] s[m] == body[m - 1]);
    lemma_find_byte_at(s, 1, 42, j);
    assert(s[j + 1] == 13 && s[j + 2] == 10);
    assert(spec_check(s) == Ok::<int, Error>(j + 3));
    // the body reads back as the rows
    assert(s.subrange(1, j) =~= body);
    lemma_split_join(enc_rows, 94);
    assert(spec_split(body, 94) == enc_rows);
    assert forall|k: int| 0 <= k < enc_rows.len() implies #[trigger] spec_split(enc_rows[k], 124)
        == rows[k] by {
        assert(enc_rows[k] == spec_join(rows[k], 124));
        lemma_split_join(rows[k], 124);
    }
    assert(spec_split(body, 94).map_values(|row: Seq<u8>| spec_split(row, 124)) =~= rows);
}

} // verus!
