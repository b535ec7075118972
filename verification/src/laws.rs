//! What holds of the file format as a whole: reading back the file that
//! saving an operation writes gives the same operation, for every
//! operation whose texts the format can carry.

use vstd::prelude::*;
use vstd::utf8::{
    encode_scalar, encode_utf8, encode_utf8_decode_utf8, encode_utf8_valid_utf8,
    has_width_1_encoding, leading_byte_width_1,
    leading_byte_width_2, leading_byte_width_3, leading_byte_width_4, last_continuation_byte,
    second_last_continuation_byte, third_last_continuation_byte,
};
use crate::lines::{decode_line, lines_from, read_lines_spec, split_lines_spec, strip_cr};
use crate::operation::{
    shown_name,
    action_line, action_of, actions_of, body_lines, file_lines, file_text,
    join_lines, name_line, name_of, parse_file_spec, parse_lines_spec, router_line, sep,
    OperationModel, OperationParseError,
};
use crate::text::{
    all_digits, first_piece, has_sep, lemma_next_sep_is, lemma_parse_u8_decimal,
    parse_u8_spec, second_piece, sep_at, u8_decimal,
};

verus! {

/// `s` holds no `\n`.
pub open spec fn no_newline(s: Seq<char>) -> bool {
    forall|i: int| 0 <= i < s.len() ==> s[i] != '\n'
}

/// `s` can stand as a whole line: no `\n` in it and no `\r` at its end
/// (reading drops a `\r` before a line's `\n`).
pub open spec fn line_safe(s: Seq<char>) -> bool {
    &&& no_newline(s)
    &&& !(s.len() > 0 && s.last() == '\r')
}

/// `s` ends with `" |"`, which would run into the separator after it.
pub open spec fn ends_with_bar(s: Seq<char>) -> bool {
    s.len() >= 2 && s[s.len() - 2] == ' ' && s[s.len() - 1] == '|'
}

/// An action survives a save and a load: its path is a line-safe text
/// without separator, and an empty path goes with code 0.
pub open spec fn action_saves_faithfully(a: (u8, Seq<char>)) -> bool {
    &&& line_safe(a.1)
    &&& !has_sep(a.1)
    &&& (a.1.len() > 0 || a.0 == 0)
}

/// The operation survives a save and a load: a name, when there is one, is
/// a non-empty line-safe text; the source folder holds no `\n`, no
/// separator and does not end with `" |"`; the output folder is line-safe
/// and holds no separator; and so does every action.
pub open spec fn saves_faithfully(op: OperationModel) -> bool {
    &&& match op.name {
        Some(n) => n.len() > 0 && line_safe(n),
        None => true,
    }
    &&& no_newline(op.source)
    &&& !has_sep(op.source)
    &&& !ends_with_bar(op.source)
    &&& line_safe(op.out)
    &&& !has_sep(op.out)
    &&& forall|i: int| 0 <= i < op.actions.len() ==> action_saves_faithfully(#[trigger] op.actions[i])
}

/// Every line, read as text.
pub open spec fn all_readable(ls: Seq<Seq<char>>) -> Seq<Option<Seq<char>>> {
    ls.map_values(|l: Seq<char>| Some(l))
}

// ---------------------------------------------------------------------------
// Text level
// ---------------------------------------------------------------------------

proof fn lemma_router_pieces(a: Seq<char>, b: Seq<char>)
    requires
        !has_sep(a),
        !ends_with_bar(a),
        !has_sep(b),
    ensures
        first_piece(a + sep() + b) == a,
        second_piece(a + sep() + b) == Some(b),
{
    let s = a + sep() + b;
    let k = a.len() as int;
    assert forall|i: int| 0 <= i < k implies !sep_at(s, i) by {
        if i + 3 <= k {
            assert(s.subrange(i, i + 3) =~= a.subrange(i, i + 3));
            if sep_at(s, i) {
                assert(sep_at(a, i));
            }
        }
    }
    assert(sep_at(s, k));
    lemma_next_sep_is(s, 0, k);
    assert(s.take(k) =~= a);
    assert forall|i: int| k + 3 <= i < s.len() implies !sep_at(s, i) by {
        if sep_at(s, i) {
            assert(sep_at(b, i - k - 3));
        }
    }
    lemma_next_sep_is(s, k + 3, s.len() as int);
    assert(s.subrange(k + 3, s.len() as int) =~= b);
}

proof fn lemma_action_line(a: (u8, Seq<char>))
    requires
        action_saves_faithfully(a),
    ensures
        action_of(action_line(a)) == a,
        line_safe(action_line(a)),
{
    let d = u8_decimal(a.0);
    lemma_parse_u8_decimal(a.0);
    let s = action_line(a);
    let k = d.len() as int;
    assert(s =~= d + sep() + a.1);
    assert forall|i: int| 0 <= i < k implies !sep_at(s, i) by {
        assert(s[i] == d[i]);
        assert(all_digits(d));
    }
    assert(sep_at(s, k));
    lemma_next_sep_is(s, 0, k);
    assert(s.take(k) =~= d);
    assert forall|i: int| k + 3 <= i < s.len() implies !sep_at(s, i) by {
        if sep_at(s, i) {
            assert(sep_at(a.1, i - k - 3));
        }
    }
    lemma_next_sep_is(s, k + 3, s.len() as int);
    assert(s.subrange(k + 3, s.len() as int) =~= a.1);
    assert(parse_u8_spec(first_piece(s)) == Some(a.0));
    assert forall|i: int| 0 <= i < s.len() implies s[i] != '\n' by {
        if i < k {
            assert(all_digits(d));
            assert(s[i] == d[i]);
        } else if i >= k + 3 {
            assert(s[i] == a.1[i - k - 3]);
        }
    }
    if a.1.len() > 0 {
        assert(s.last() == a.1.last());
    }
}

proof fn lemma_actions_of_lines(acts: Seq<(u8, Seq<char>)>)
    requires
        forall|i: int| 0 <= i < acts.len() ==> action_saves_faithfully(#[trigger] acts[i]),
    ensures
        actions_of(all_readable(acts.map_values(|a: (u8, Seq<char>)| action_line(a)))) == acts,
    decreases acts.len(),
{
    let ls = all_readable(acts.map_values(|a: (u8, Seq<char>)| action_line(a)));
    if acts.len() == 0 {
        assert(ls.len() == 0);
    } else {
        let init = acts.drop_last();
        assert forall|i: int| 0 <= i < init.len() implies action_saves_faithfully(
            #[trigger] init[i],
        ) by {
            assert(init[i] == acts[i]);
        }
        lemma_actions_of_lines(init);
        assert(ls.drop_last() =~= all_readable(
            init.map_values(|a: (u8, Seq<char>)| action_line(a)),
        ));
        lemma_action_line(acts.last());
        assert(acts =~= init.push(acts.last()));
    }
}

/// Reading the lines that saving an operation writes gives the same
/// operation, for every operation whose texts the format can carry.
pub proof fn law_parse_saved_lines(op: OperationModel)
    requires
        saves_faithfully(op),
    ensures
        parse_lines_spec(all_readable(file_lines(op))) == Ok::<OperationModel, OperationParseError>(op),
{
    let lines = all_readable(file_lines(op));
    let alines = op.actions.map_values(|a: (u8, Seq<char>)| action_line(a));
    assert(lines[2] == Some(router_line(op.source, op.out)));
    lemma_router_pieces(op.source, op.out);
    assert(name_of(lines[0]) == op.name);
    assert(body_lines(lines) =~= all_readable(alines)) by {
        if lines.len() > 5 {
            assert(lines.skip(5) =~= all_readable(alines));
        } else {
            assert(alines.len() == 0);
        }
    }
    lemma_actions_of_lines(op.actions);
}

/// Every line that saving writes can stand as a whole line.
proof fn lemma_file_lines_safe(op: OperationModel)
    requires
        saves_faithfully(op),
    ensures
        forall|i: int| 0 <= i < file_lines(op).len() ==> line_safe(#[trigger] file_lines(op)[i]),
{
    let ls = file_lines(op);
    let r = router_line(op.source, op.out);
    assert forall|i: int| 0 <= i < r.len() implies r[i] != '\n' by {
        if i < op.source.len() {
            assert(r[i] == op.source[i]);
        } else if i >= op.source.len() + 3 {
            assert(r[i] == op.out[i - op.source.len() - 3]);
        }
    }
    if op.out.len() > 0 {
        assert(r.last() == op.out.last());
    }
    assert(line_safe(r));
    assert(line_safe(name_line(op.name)));
    assert forall|i: int| 0 <= i < ls.len() implies line_safe(#[trigger] ls[i]) by {
        if i >= 5 {
            let a = op.actions[i - 5];
            assert(action_saves_faithfully(a));
            lemma_action_line(a);
        }
    }
}

// ---------------------------------------------------------------------------
// Byte level
// ---------------------------------------------------------------------------

proof fn lemma_encode_concat(a: Seq<char>, b: Seq<char>)
    ensures
        encode_utf8(a + b) == encode_utf8(a) + encode_utf8(b),
    decreases a.len(),
{
    if a.len() == 0 {
        assert(a + b =~= b);
        assert(encode_utf8(a) =~= Seq::<u8>::empty());
        assert(encode_utf8(a) + encode_utf8(b) =~= encode_utf8(b));
    } else {
        assert((a + b).drop_first() =~= a.drop_first() + b);
        lemma_encode_concat(a.drop_first(), b);
        assert(encode_utf8(a + b) =~= encode_utf8(a) + encode_utf8(b));
    }
}

proof fn lemma_scalar_bytes(c: char)
    ensures
        c != '\n' ==> forall|i: int|
            0 <= i < encode_scalar(c as u32).len() ==> #[trigger] encode_scalar(c as u32)[i] != 10,
        c != '\r' ==> encode_scalar(c as u32).last() != 13,
        encode_scalar(c as u32).len() > 0,
        c == '\n' ==> encode_scalar(c as u32) == seq![10u8],
{
    let v = c as u32;
    if has_width_1_encoding(v) {
        assert(v <= 0x7F ==> (v & 0x7F) == v) by (bit_vector);
        assert(leading_byte_width_1(v) == v);
    } else {
        let y = ((v >> 6) & 0x1F) as u8;
        let z = ((v >> 12) & 0x0F) as u8;
        let w = ((v >> 18) & 0x7) as u8;
        let p = (v & 0x3F) as u8;
        let q = ((v >> 6) & 0x3F) as u8;
        let r = ((v >> 12) & 0x3F) as u8;
        assert(0xC0u8 | y >= 0x80) by (bit_vector);
        assert(0xE0u8 | z >= 0x80) by (bit_vector);
        assert(0xF0u8 | w >= 0x80) by (bit_vector);
        assert(0x80u8 | p >= 0x80) by (bit_vector);
        assert(0x80u8 | q >= 0x80) by (bit_vector);
        assert(0x80u8 | r >= 0x80) by (bit_vector);
        assert(leading_byte_width_2(v) == 0xC0u8 | y);
        assert(leading_byte_width_3(v) == 0xE0u8 | z);
        assert(leading_byte_width_4(v) == 0xF0u8 | w);
        assert(last_continuation_byte(v) == 0x80u8 | p);
        assert(second_last_continuation_byte(v) == 0x80u8 | q);
        assert(third_last_continuation_byte(v) == 0x80u8 | r);
    }
}

proof fn lemma_encode_no_newline(l: Seq<char>)
    requires
        no_newline(l),
    ensures
        forall|i: int| 0 <= i < encode_utf8(l).len() ==> encode_utf8(l)[i] != 10,
    decreases l.len(),
{
    if l.len() > 0 {
        let rest = l.drop_first();
        assert(no_newline(rest)) by {
            assert forall|i: int| 0 <= i < rest.len() implies rest[i] != '\n' by {
                assert(rest[i] == l[i + 1]);
            }
        }
        lemma_encode_no_newline(rest);
        lemma_scalar_bytes(l[0]);
        let e = encode_utf8(l);
        let h = encode_scalar(l[0] as u32);
        assert forall|i: int| 0 <= i < e.len() implies e[i] != 10 by {
            if i < h.len() {
                assert(e[i] == h[i]);
            } else {
                assert(e[i] == encode_utf8(rest)[i - h.len()]);
            }
        }
    }
}

proof fn lemma_encode_keeps_cr(l: Seq<char>)
    requires
        line_safe(l),
    ensures
        strip_cr(encode_utf8(l)) == encode_utf8(l),
{
    if l.len() > 0 {
        let init = l.drop_last();
        assert(l =~= init + seq![l.last()]);
        lemma_encode_concat(init, seq![l.last()]);
        let one = seq![l.last()];
        assert(one.drop_first() =~= Seq::<char>::empty());
        assert(encode_utf8(one) =~= encode_scalar(l.last() as u32) + encode_utf8(
            Seq::<char>::empty(),
        ));
        assert(encode_utf8(Seq::<char>::empty()) =~= Seq::<u8>::empty());
        lemma_scalar_bytes(l.last());
        assert(encode_utf8(l).last() == encode_scalar(l.last() as u32).last());
    } else {
        assert(encode_utf8(l) =~= Seq::<u8>::empty());
    }
}

proof fn lemma_lines_from_segment(x: Seq<u8>, rest: Seq<u8>, cur: Seq<u8>)
    requires
        forall|i: int| 0 <= i < x.len() ==> x[i] != 10,
    ensures
        lines_from(x + seq![10u8] + rest, cur) == seq![strip_cr(cur + x)] + lines_from(
            rest,
            Seq::<u8>::empty(),
        ),
    decreases x.len(),
{
    let b = x + seq![10u8] + rest;
    if x.len() == 0 {
        assert(b.drop_first() =~= rest);
        assert(cur + x =~= cur);
    } else {
        let x2 = x.drop_first();
        assert(b.drop_first() =~= x2 + seq![10u8] + rest);
        assert(forall|i: int| 0 <= i < x2.len() ==> x2[i] == x[i + 1]);
        lemma_lines_from_segment(x2, rest, cur.push(x[0]));
        assert(cur.push(x[0]) + x2 =~= cur + x);
    }
}

proof fn lemma_split_join(ls: Seq<Seq<char>>)
    requires
        forall|i: int| 0 <= i < ls.len() ==> line_safe(#[trigger] ls[i]),
    ensures
        split_lines_spec(encode_utf8(join_lines(ls))) == ls.map_values(
            |l: Seq<char>| encode_utf8(l),
        ),
    decreases ls.len(),
{
    if ls.len() == 0 {
        assert(join_lines(ls) =~= Seq::<char>::empty());
        assert(encode_utf8(join_lines(ls)) =~= Seq::<u8>::empty());
        assert(ls.map_values(|l: Seq<char>| encode_utf8(l)) =~= Seq::<Seq<u8>>::empty());
    } else {
        let rest = ls.drop_first();
        assert forall|i: int| 0 <= i < rest.len() implies line_safe(#[trigger] rest[i]) by {
            assert(rest[i] == ls[i + 1]);
        }
        lemma_split_join(rest);
        let l = ls[0];
        assert(line_safe(l));
        let nl = seq!['\n'];
        lemma_encode_concat(l + nl, join_lines(rest));
        lemma_encode_concat(l, nl);
        assert(nl.drop_first() =~= Seq::<char>::empty());
        lemma_scalar_bytes('\n');
        assert(encode_utf8(Seq::<char>::empty()) =~= Seq::<u8>::empty());
        assert(encode_utf8(nl) =~= encode_scalar(nl[0] as u32) + encode_utf8(nl.drop_first()));
        assert(encode_utf8(nl) =~= seq![10u8]);
        lemma_encode_no_newline(l);
        lemma_lines_from_segment(encode_utf8(l), encode_utf8(join_lines(rest)), Seq::<u8>::empty());
        assert(Seq::<u8>::empty() + encode_utf8(l) =~= encode_utf8(l));
        lemma_encode_keeps_cr(l);
        assert(split_lines_spec(encode_utf8(join_lines(ls))) =~= seq![encode_utf8(l)]
            + rest.map_values(|l: Seq<char>| encode_utf8(l)));
        assert(ls.map_values(|l: Seq<char>| encode_utf8(l)) =~= seq![encode_utf8(l)]
            + rest.map_values(|l: Seq<char>| encode_utf8(l)));
    }
}

/// Reading the bytes of lines joined by `\n` gives those lines back, each
/// readable, when every line can stand as a whole line.
pub proof fn law_read_joined_lines(ls: Seq<Seq<char>>)
    requires
        forall|i: int| 0 <= i < ls.len() ==> line_safe(#[trigger] ls[i]),
    ensures
        read_lines_spec(encode_utf8(join_lines(ls))) == all_readable(ls),
{
    lemma_split_join(ls);
    let raw = split_lines_spec(encode_utf8(join_lines(ls)));
    assert forall|i: int| 0 <= i < ls.len() implies decode_line(raw[i]) == Some(ls[i]) by {
        encode_utf8_valid_utf8(ls[i]);
        encode_utf8_decode_utf8(ls[i]);
    }
    assert(read_lines_spec(encode_utf8(join_lines(ls))) =~= all_readable(ls));
}

/// Loading the file that saving an operation writes (its text encoded as
/// UTF-8) gives the same operation back, for every operation whose texts
/// the format can carry (see [`saves_faithfully`]).
pub proof fn law_load_after_save(op: OperationModel)
    requires
        saves_faithfully(op),
    ensures
        parse_file_spec(encode_utf8(file_text(op))) == Ok::<OperationModel, OperationParseError>(op),
{
    lemma_file_lines_safe(op);
    law_read_joined_lines(file_lines(op));
    law_parse_saved_lines(op);
}

// ---------------------------------------------------------------------------
// What each part of the format means
// ---------------------------------------------------------------------------

/// Lines 2, 4 and 5 are not read: replacing any of them, by any text or by
/// an unreadable line, leaves the result of loading unchanged.
pub proof fn law_skipped_lines_are_ignored(
    ls: Seq<Option<Seq<char>>>,
    i: int,
    l: Option<Seq<char>>,
)
    requires
        i == 1 || i == 3 || i == 4,
        i < ls.len(),
    ensures
        parse_lines_spec(ls.update(i, l)) == parse_lines_spec(ls),
{
    let ls2 = ls.update(i, l);
    assert(ls2[0] == ls[0]);
    if ls.len() > 2 {
        assert(ls2[2] == ls[2]);
    }
    assert(body_lines(ls2) =~= body_lines(ls));
}

/// The name of a loaded operation comes from line 1 alone: a non-empty
/// readable line 1 is the name, and an empty or unreadable line 1 gives no
/// name.
pub proof fn law_name_is_first_line(ls: Seq<Option<Seq<char>>>)
    ensures
        parse_lines_spec(ls) is Ok && ls[0] is Some && ls[0]->0.len() > 0
            ==> parse_lines_spec(ls)->Ok_0.name == ls[0],
        parse_lines_spec(ls) is Ok && ls[0] is Some && ls[0]->0.len() == 0
            ==> parse_lines_spec(ls)->Ok_0.name is None,
        parse_lines_spec(ls) is Ok && ls[0] is None ==> parse_lines_spec(ls)->Ok_0.name is None,
{
}

/// The text of an action in a saved file.
pub open spec fn saved_action(a: (u8, Seq<char>)) -> Seq<char> {
    u8_decimal(a.0) + seq![' ', '|', ' '] + a.1
}

proof fn lemma_join_lines_concat(a: Seq<Seq<char>>, b: Seq<Seq<char>>)
    ensures
        join_lines(a + b) == join_lines(a) + join_lines(b),
    decreases a.len(),
{
    if a.len() == 0 {
        assert(a + b =~= b);
        assert(join_lines(a) =~= Seq::<char>::empty());
        assert(join_lines(a) + join_lines(b) =~= join_lines(b));
    } else {
        assert((a + b).drop_first() =~= a.drop_first() + b);
        lemma_join_lines_concat(a.drop_first(), b);
        assert((a + b)[0] == a[0]);
        assert(join_lines(a + b) =~= join_lines(a) + join_lines(b));
    }
}

/// The saved text of every operation is its name (nothing for an unnamed
/// one), then an empty line 2, the router line `source | out`, empty lines
/// 4 and 5, and one line `code | path` per action, in order, with every
/// line ended by `\n`.
pub proof fn law_saved_text_layout(op: OperationModel)
    ensures
        file_text(op) == (match op.name {
            Some(n) => n,
            None => Seq::<char>::empty(),
        }) + seq!['\n', '\n'] + op.source + seq![' ', '|', ' '] + op.out + seq!['\n', '\n', '\n']
            + join_lines(op.actions.map_values(|a: (u8, Seq<char>)| saved_action(a))),
{
    let head = seq![
        name_line(op.name),
        Seq::<char>::empty(),
        router_line(op.source, op.out),
        Seq::<char>::empty(),
        Seq::<char>::empty(),
    ];
    let acts = op.actions.map_values(|a: (u8, Seq<char>)| action_line(a));
    assert(file_lines(op) =~= head + acts);
    lemma_join_lines_concat(head, acts);
    assert(acts =~= op.actions.map_values(|a: (u8, Seq<char>)| saved_action(a)));
    let e = Seq::<char>::empty();
    assert(join_lines(Seq::<Seq<char>>::empty()) =~= e);
    assert(head.drop_first().drop_first().drop_first().drop_first().drop_first() =~= Seq::<
        Seq<char>,
    >::empty());
    assert(join_lines(head.drop_first().drop_first().drop_first().drop_first()) =~= seq!['\n']);
    assert(join_lines(head.drop_first().drop_first().drop_first()) =~= seq!['\n', '\n']);
    assert(join_lines(head.drop_first().drop_first()) =~= router_line(op.source, op.out) + seq![
        '\n',
        '\n',
        '\n',
    ]);
    assert(join_lines(head.drop_first()) =~= seq!['\n'] + router_line(op.source, op.out) + seq![
        '\n',
        '\n',
        '\n',
    ]);
    assert(join_lines(head) =~= (match op.name {
        Some(n) => n,
        None => Seq::<char>::empty(),
    }) + seq!['\n', '\n'] + op.source + seq![' ', '|', ' '] + op.out + seq!['\n', '\n', '\n']);
}

/// A line ended by `\r\n` reads as its text without the `\r`, the empty
/// line too; the rest of the file is read on from there.
pub proof fn law_crlf_line_end(x: Seq<u8>, rest: Seq<u8>)
    requires
        forall|i: int| 0 <= i < x.len() ==> x[i] != 10,
    ensures
        split_lines_spec(x + seq![13u8, 10u8] + rest) == seq![x] + split_lines_spec(rest),
{
    let x13 = x.push(13u8);
    assert forall|i: int| 0 <= i < x13.len() implies x13[i] != 10 by {
        if i < x.len() {
            assert(x13[i] == x[i]);
        }
    }
    lemma_lines_from_segment(x13, rest, Seq::<u8>::empty());
    assert(x13 + seq![10u8] + rest =~= x + seq![13u8, 10u8] + rest);
    assert(Seq::<u8>::empty() + x13 =~= x13);
    assert(strip_cr(x13) =~= x);
}

/// A line ended by `\n` alone reads as its whole text, when that text does
/// not end with `\r`.
pub proof fn law_lf_line_end(x: Seq<u8>, rest: Seq<u8>)
    requires
        forall|i: int| 0 <= i < x.len() ==> x[i] != 10,
        !(x.len() > 0 && x.last() == 13),
    ensures
        split_lines_spec(x + seq![10u8] + rest) == seq![x] + split_lines_spec(rest),
{
    lemma_lines_from_segment(x, rest, Seq::<u8>::empty());
    assert(Seq::<u8>::empty() + x =~= x);
}

/// The window shows the name of a named operation in full, and
/// "Unnamed Operation" for an unnamed one.
pub proof fn law_shown_name(n: Seq<char>)
    ensures
        shown_name(Some(n)) == n,
        shown_name(None) == "Unnamed Operation"@,
{
}

} // verus!
