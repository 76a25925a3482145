//! The field decoder: turns chunks of a fragmented telemetry byte stream into fields,
//! threading the unterminated tail from one call to the next.

use vstd::prelude::*;
use vstd::utf8::{
    decode_first_scalar, decode_utf8, length_of_first_scalar, pop_first_scalar, valid_first_scalar,
    valid_utf8,
};

use crate::codec::{parse_field_chars, parse_field_spec, SensorField, ValueModel};
use crate::text::{chars_of, string_of};

verus! {

/// `b` with every NUL byte taken out.
pub open spec fn strip_nul_bytes(b: Seq<u8>) -> Seq<u8>
    decreases b.len(),
{
    if b.len() == 0 {
        b
    } else if b.last() == 0 {
        strip_nul_bytes(b.drop_last())
    } else {
        strip_nul_bytes(b.drop_last()).push(b.last())
    }
}

/// The text that a chunk of bytes carries: its bytes without NULs, decoded as UTF-8. A chunk
/// that is not valid UTF-8 carries no text at all: it is dropped, and the stream goes on.
pub open spec fn chunk_text(chunk: Seq<u8>) -> Seq<char> {
    let b = strip_nul_bytes(chunk);
    if valid_utf8(b) {
        decode_utf8(b)
    } else {
        Seq::empty()
    }
}

/// Splits `t` at each newline: the newline-terminated lines in order (without their newline),
/// and the unterminated tail that follows the last newline.
pub open spec fn split_lines(t: Seq<char>) -> (Seq<Seq<char>>, Seq<char>)
    decreases t.len(),
{
    if t.len() == 0 {
        (Seq::empty(), Seq::empty())
    } else {
        let (lines, tail) = split_lines(t.drop_last());
        if t.last() == '\n' {
            (lines.push(tail), Seq::empty())
        } else {
            (lines, tail.push(t.last()))
        }
    }
}

/// The fields of the lines that parse, in order; the others are skipped.
pub open spec fn parsed_fields(lines: Seq<Seq<char>>) -> Seq<(Seq<char>, ValueModel)>
    decreases lines.len(),
{
    if lines.len() == 0 {
        Seq::empty()
    } else {
        let before = parsed_fields(lines.drop_last());
        match parse_field_spec(lines.last()) {
            Ok(f) => before.push(f),
            Err(_) => before,
        }
    }
}

/// What one decoder call gives for a chunk and the remainder carried over from the call
/// before: the new remainder and the fields read, in order.
pub open spec fn decode_spec(chunk: Seq<u8>, remainder: Seq<char>) -> (
    Seq<char>,
    Seq<(Seq<char>, ValueModel)>,
) {
    let (lines, tail) = split_lines(remainder + chunk_text(chunk));
    (tail, parsed_fields(lines))
}

pub open spec fn fields_view(fields: Seq<SensorField>) -> Seq<(Seq<char>, ValueModel)> {
    fields.map_values(|f: SensorField| f@)
}

/// Relies on `String::from_utf8`: the string that the bytes encode when they are valid UTF-8,
/// an error otherwise.
#[verifier::external_body]
fn utf8_string(bytes: Vec<u8>) -> (r: Option<String>)
    ensures
        match r {
            Some(s) => valid_utf8(bytes@) && s@ == decode_utf8(bytes@),
            None => !valid_utf8(bytes@),
        },
{
    String::from_utf8(bytes).ok()
}

/// Decodes one chunk of telemetry bytes, given the remainder that the previous call returned
/// (empty on the first call). NUL bytes are dropped; a chunk that is not valid UTF-8 adds no
/// text. The remainder is put in front of the chunk's text, every complete line is parsed as
/// a field, lines that do not parse are skipped, and the unterminated tail is returned as the
/// next remainder.
pub fn decode_fields(chunk: &[u8], remainder: &str) -> (r: (String, Vec<SensorField>))
    ensures
        r.0@ == decode_spec(chunk@, remainder@).0,
        fields_view(r.1@) == decode_spec(chunk@, remainder@).1,
{
    let mut bytes: Vec<u8> = Vec::new();
    let mut i: usize = 0;
    while i < chunk.len()
        invariant
            i <= chunk@.len(),
            bytes@ == strip_nul_bytes(chunk@.subrange(0, i as int)),
        decreases chunk@.len() - i,
    {
        assert(chunk@.subrange(0, i + 1).drop_last() =~= chunk@.subrange(0, i as int));
        if chunk[i] != 0 {
            bytes.push(chunk[i]);
        }
        i = i + 1;
    }
    assert(chunk@.subrange(0, chunk@.len() as int) =~= chunk@);
    let mut text = chars_of(remainder);
    match utf8_string(bytes) {
        Some(s) => {
            let mut more = chars_of(s.as_str());
            text.append(&mut more);
        },
        None => {},
    }
    assert(text@ =~= remainder@ + chunk_text(chunk@));
    let mut fields: Vec<SensorField> = Vec::new();
    let mut start: usize = 0;
    let mut j: usize = 0;
    while j < text.len()
        invariant
            start <= j <= text@.len(),
            split_lines(text@.subrange(0, j as int)).1 == text@.subrange(start as int, j as int),
            fields_view(fields@) == parsed_fields(split_lines(text@.subrange(0, j as int)).0),
        decreases text@.len() - j,
    {
        let ghost prefix = text@.subrange(0, j + 1);
        assert(prefix.drop_last() =~= text@.subrange(0, j as int));
        if text[j] == '\n' {
            let line = &text[start..j];
            let parsed = parse_field_chars(line);
            proof {
                let ls = split_lines(text@.subrange(0, j as int)).0;
                assert(split_lines(prefix).0 == ls.push(line@));
                assert(split_lines(prefix).0.drop_last() =~= ls);
            }
            match parsed {
                Ok(f) => {
                    let ghost before = fields@;
                    fields.push(f);
                    assert(fields_view(fields@) =~= fields_view(before).push(f@));
                },
                Err(_) => {},
            }
            start = j + 1;
            assert(text@.subrange(start as int, j + 1) =~= Seq::<char>::empty());
        } else {
            assert(text@.subrange(start as int, j + 1) =~= text@.subrange(
                start as int,
                j as int,
            ).push(text@[j as int]));
        }
        j = j + 1;
    }
    assert(text@.subrange(0, text@.len() as int) =~= text@);
    let rest = string_of(&text[start..text.len()]);
    (rest, fields)
}

// ---------------------------------------------------------------------------------------------
// Feeding a stream in pieces

proof fn lemma_strip_nul_bytes_concat(a: Seq<u8>, b: Seq<u8>)
    ensures
        strip_nul_bytes(a + b) == strip_nul_bytes(a) + strip_nul_bytes(b),
    decreases b.len(),
{
    if b.len() == 0 {
        assert(a + b =~= a);
        assert(strip_nul_bytes(a) + strip_nul_bytes(b) =~= strip_nul_bytes(a));
    } else {
        lemma_strip_nul_bytes_concat(a, b.drop_last());
        assert((a + b).drop_last() =~= a + b.drop_last());
        assert((a + b).last() == b.last());
        assert(strip_nul_bytes(a) + strip_nul_bytes(b.drop_last()).push(b.last()) =~= (
        strip_nul_bytes(a) + strip_nul_bytes(b.drop_last())).push(b.last()));
    }
}

/// Two valid UTF-8 byte strings put together are valid, and decode to the two texts put
/// together.
proof fn lemma_utf8_concat(x: Seq<u8>, y: Seq<u8>)
    requires
        valid_utf8(x),
        valid_utf8(y),
    ensures
        valid_utf8(x + y),
        decode_utf8(x + y) == decode_utf8(x) + decode_utf8(y),
    decreases x.len(),
{
    if x.len() == 0 {
        assert(x + y =~= y);
        assert(decode_utf8(x) + decode_utf8(y) =~= decode_utf8(y));
    } else {
        let xy = x + y;
        assert(xy[0] == x[0]);
        if x.len() >= 2 {
            assert(xy[1] == x[1]);
        }
        if x.len() >= 3 {
            assert(xy[2] == x[2]);
        }
        if x.len() >= 4 {
            assert(xy[3] == x[3]);
        }
        assert(valid_first_scalar(xy));
        assert(length_of_first_scalar(xy) == length_of_first_scalar(x));
        assert(decode_first_scalar(xy) == decode_first_scalar(x));
        let n = length_of_first_scalar(x);
        assert(0 < n <= x.len());
        assert(pop_first_scalar(xy) =~= pop_first_scalar(x) + y);
        lemma_utf8_concat(pop_first_scalar(x), y);
        assert(decode_utf8(xy) =~= seq![decode_first_scalar(x) as char] + decode_utf8(
            pop_first_scalar(x),
        ) + decode_utf8(y));
    }
}

proof fn lemma_chunk_text_concat(a: Seq<u8>, b: Seq<u8>)
    requires
        valid_utf8(strip_nul_bytes(a)),
        valid_utf8(strip_nul_bytes(b)),
    ensures
        chunk_text(a + b) == chunk_text(a) + chunk_text(b),
{
    lemma_strip_nul_bytes_concat(a, b);
    lemma_utf8_concat(strip_nul_bytes(a), strip_nul_bytes(b));
}

proof fn lemma_split_lines_tail(t: Seq<char>)
    ensures
        !split_lines(t).1.contains('\n'),
    decreases t.len(),
{
    if t.len() > 0 {
        lemma_split_lines_tail(t.drop_last());
        let tail = split_lines(t.drop_last()).1;
        if t.last() != '\n' {
            assert forall|i: int| 0 <= i < tail.push(t.last()).len() implies tail.push(
                t.last(),
            )[i] != '\n' by {
                if i < tail.len() {
                    assert(tail.push(t.last())[i] == tail[i]);
                }
            }
        }
    }
}

proof fn lemma_split_lines_plain(s: Seq<char>)
    requires
        !s.contains('\n'),
    ensures
        split_lines(s) == (Seq::<Seq<char>>::empty(), s),
    decreases s.len(),
{
    if s.len() > 0 {
        assert(s.drop_last().len() < s.len());
        assert(!s.drop_last().contains('\n')) by {
            if s.drop_last().contains('\n') {
                let i = choose|i: int| 0 <= i < s.drop_last().len() && s.drop_last()[i] == '\n';
                assert(s[i] == '\n');
            }
        }
        lemma_split_lines_plain(s.drop_last());
        assert(s[s.len() - 1] != '\n');
        assert(s.drop_last().push(s.last()) =~= s);
    }
}

/// Splitting `x + y` splits `x`, then what is left of `x` put before `y`.
proof fn lemma_split_lines_concat(x: Seq<char>, y: Seq<char>)
    ensures
        split_lines(x + y).0 == split_lines(x).0 + split_lines(split_lines(x).1 + y).0,
        split_lines(x + y).1 == split_lines(split_lines(x).1 + y).1,
    decreases y.len(),
{
    let tx = split_lines(x).1;
    if y.len() == 0 {
        assert(x + y =~= x);
        assert(tx + y =~= tx);
        lemma_split_lines_tail(x);
        lemma_split_lines_plain(tx);
        assert(split_lines(x).0 + Seq::<Seq<char>>::empty() =~= split_lines(x).0);
    } else {
        lemma_split_lines_concat(x, y.drop_last());
        assert((x + y).drop_last() =~= x + y.drop_last());
        assert((tx + y).drop_last() =~= tx + y.drop_last());
        assert((x + y).last() == y.last());
        assert((tx + y).last() == y.last());
        let lx = split_lines(x).0;
        let lr = split_lines(tx + y.drop_last()).0;
        let tr = split_lines(tx + y.drop_last()).1;
        assert((lx + lr).push(tr) =~= lx + lr.push(tr));
    }
}

proof fn lemma_parsed_fields_concat(a: Seq<Seq<char>>, b: Seq<Seq<char>>)
    ensures
        parsed_fields(a + b) == parsed_fields(a) + parsed_fields(b),
    decreases b.len(),
{
    if b.len() == 0 {
        assert(a + b =~= a);
        assert(parsed_fields(a) + parsed_fields(b) =~= parsed_fields(a));
    } else {
        lemma_parsed_fields_concat(a, b.drop_last());
        assert((a + b).drop_last() =~= a + b.drop_last());
        assert((a + b).last() == b.last());
        match parse_field_spec(b.last()) {
            Ok(f) => {
                assert(parsed_fields(a) + parsed_fields(b.drop_last()).push(f) =~= (parsed_fields(
                    a,
                ) + parsed_fields(b.drop_last())).push(f));
            },
            Err(_) => {},
        }
    }
}

/// Feeding a byte stream to the decoder in two chunks, threading the remainder from the first
/// call into the second, reads the same fields in the same order and leaves the same remainder
/// as feeding it in one chunk. Each chunk must decode as UTF-8 on its own: a chunk that does
/// not is dropped whole.
pub proof fn lemma_decode_in_two_chunks(a: Seq<u8>, b: Seq<u8>, remainder: Seq<char>)
    requires
        valid_utf8(strip_nul_bytes(a)),
        valid_utf8(strip_nul_bytes(b)),
    ensures
        decode_spec(b, decode_spec(a, remainder).0).0 == decode_spec(a + b, remainder).0,
        decode_spec(a, remainder).1 + decode_spec(b, decode_spec(a, remainder).0).1
            == decode_spec(a + b, remainder).1,
{
    lemma_chunk_text_concat(a, b);
    let x = remainder + chunk_text(a);
    let y = chunk_text(b);
    assert(remainder + chunk_text(a + b) =~= x + y);
    lemma_split_lines_concat(x, y);
    lemma_parsed_fields_concat(split_lines(x).0, split_lines(split_lines(x).1 + y).0);
}

} // verus!
