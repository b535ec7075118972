//! Reading the bytes of a file as a sequence of text lines, the way
//! `BufRead::lines` hands them out: a line ends at a `\n` byte, which is
//! dropped together with a `\r` right before it; a last line without `\n`
//! is kept as it is; a line that is not valid UTF-8 is unreadable (`None`),
//! and reading goes on with the next line.

use vstd::prelude::*;
use vstd::utf8::*;

verus! {

/// Drops one `\r` (byte 13) at the end of a line that was ended by `\n`.
pub open spec fn strip_cr(seg: Seq<u8>) -> Seq<u8> {
    if seg.len() > 0 && seg.last() == 13 {
        seg.drop_last()
    } else {
        seg
    }
}

/// The lines of `b`, where `cur` holds the bytes of the current line read
/// before `b`.
pub open spec fn lines_from(b: Seq<u8>, cur: Seq<u8>) -> Seq<Seq<u8>>
    decreases b.len(),
{
    if b.len() == 0 {
        if cur.len() == 0 {
            seq![]
        } else {
            seq![cur]
        }
    } else if b[0] == 10 {
        seq![strip_cr(cur)] + lines_from(b.drop_first(), seq![])
    } else {
        lines_from(b.drop_first(), cur.push(b[0]))
    }
}

/// The raw lines of a file, without their line terminators.
pub open spec fn split_lines_spec(b: Seq<u8>) -> Seq<Seq<u8>> {
    lines_from(b, seq![])
}

/// The text of one raw line, or `None` when it is not valid UTF-8.
pub open spec fn decode_line(seg: Seq<u8>) -> Option<Seq<char>> {
    if valid_utf8(seg) {
        Some(decode_utf8(seg))
    } else {
        None
    }
}

/// The lines of a file as text; unreadable lines are `None`.
pub open spec fn read_lines_spec(b: Seq<u8>) -> Seq<Option<Seq<char>>> {
    split_lines_spec(b).map_values(|seg: Seq<u8>| decode_line(seg))
}

/// The byte sequences held by a vector of byte vectors.
pub open spec fn bytes_view(v: Seq<Vec<u8>>) -> Seq<Seq<u8>> {
    v.map_values(|x: Vec<u8>| x@)
}

/// The texts held by a vector of optional strings.
pub open spec fn opt_texts_view(v: Seq<Option<String>>) -> Seq<Option<Seq<char>>> {
    v.map_values(|o: Option<String>| opt_text_view(o))
}

/// The text of an optional string.
pub open spec fn opt_text_view(o: Option<String>) -> Option<Seq<char>> {
    match o {
        Some(s) => Some(s@),
        None => None,
    }
}

/// Splits the bytes of a file into raw lines; see [`split_lines_spec`].
pub fn split_lines(data: &[u8]) -> (r: Vec<Vec<u8>>)
    ensures
        bytes_view(r@) == split_lines_spec(data@),
{
    let mut out: Vec<Vec<u8>> = Vec::new();
    let mut cur: Vec<u8> = Vec::new();
    let mut i: usize = 0;
    let len = data.len();
    assert(data@.skip(0) =~= data@);
    while i < len
        invariant
            i <= len,
            len == data@.len(),
            bytes_view(out@) + lines_from(data@.skip(i as int), cur@) == split_lines_spec(data@),
        decreases len - i,
    {
        let b = data[i];
        let ghost rest = data@.skip(i as int);
        assert(rest.drop_first() =~= data@.skip(i + 1));
        let ghost before = bytes_view(out@);
        let ghost old_cur = cur@;
        if b == 10 {
            let mut line = cur;
            let n = line.len();
            if n > 0 && line[n - 1] == 13 {
                line.pop();
            }
            assert(line@ == strip_cr(cur@));
            out.push(line);
            cur = Vec::new();
            assert(bytes_view(out@) =~= before + seq![strip_cr(old_cur)]);
            assert(bytes_view(out@) + lines_from(data@.skip(i + 1), cur@) =~= before + (seq![
                strip_cr(old_cur),
            ] + lines_from(rest.drop_first(), seq![])));
        } else {
            cur.push(b);
        }
        i = i + 1;
    }
    if cur.len() > 0 {
        let ghost before = bytes_view(out@);
        let ghost last = cur@;
        out.push(cur);
        assert(bytes_view(out@) =~= before + seq![last]);
    } else {
        assert(bytes_view(out@) + seq![] =~= bytes_view(out@));
    }
    out
}

/// `std::str::Utf8Error`, the error of `std::str::from_utf8`.
#[verifier::external_type_specification]
#[verifier::external_body]
pub struct ExUtf8Error(std::str::Utf8Error);

/// Calls `std::str::from_utf8`. Trusted: it succeeds exactly when the
/// bytes are valid UTF-8, and then the text is the one the bytes encode.
#[verifier::external_body]
fn str_from_utf8(v: &[u8]) -> (r: Result<&str, std::str::Utf8Error>)
    ensures
        r is Ok <==> valid_utf8(v@),
        r matches Ok(s) ==> s@ == decode_utf8(v@),
{
    std::str::from_utf8(v)
}

/// The text of one raw line, or `None` when it is not valid UTF-8.
pub fn decode_raw_line(seg: &Vec<u8>) -> (r: Option<String>)
    ensures
        opt_text_view(r) == decode_line(seg@),
{
    match str_from_utf8(seg.as_slice()) {
        Ok(s) => Some(s.to_owned()),
        Err(_) => None,
    }
}

/// The lines of a file as text; see [`read_lines_spec`].
pub fn read_lines(data: &[u8]) -> (r: Vec<Option<String>>)
    ensures
        opt_texts_view(r@) == read_lines_spec(data@),
{
    let raw = split_lines(data);
    let mut out: Vec<Option<String>> = Vec::new();
    let mut i: usize = 0;
    while i < raw.len()
        invariant
            i <= raw.len(),
            bytes_view(raw@) == split_lines_spec(data@),
            opt_texts_view(out@) =~= bytes_view(raw@).take(i as int).map_values(
                |seg: Seq<u8>| decode_line(seg),
            ),
        decreases raw.len() - i,
    {
        let line = decode_raw_line(&raw[i]);
        let ghost before = opt_texts_view(out@);
        out.push(line);
        assert(opt_texts_view(out@) =~= before.push(decode_line(raw@[i as int]@)));
        assert(bytes_view(raw@).take(i + 1) =~= bytes_view(raw@).take(i as int).push(raw@[i as int]@));
        i = i + 1;
    }
    assert(bytes_view(raw@).take(raw.len() as int) =~= bytes_view(raw@));
    out
}

} // verus!
