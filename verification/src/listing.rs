//! Whole programs: the listing of a byte buffer.

use vstd::prelude::*;
use vstd::seq_lib::lemma_flatten_concat;
use vstd::string::*;
use crate::error::DecodeError;
use crate::instruction::{
    dis_instruction,
    instruction_at,
    lemma_instruction_fits,
    lemma_instruction_is_local,
    lemma_instruction_is_one_line,
    lemma_instruction_reads_own_bytes,
};
use crate::reader::BytesReader;
use crate::text::{lemma_line_breaks_concat, lemma_one_line_has_no_breaks, line_breaks};

verus! {

/// The two lines that open every listing.
pub open spec fn header() -> Seq<char> {
    "bits 16\n\n"@
}

/// The lines of the instructions that `bytes` holds, each with its line
/// break, or the first failure met on the way.
pub open spec fn lines_of(bytes: Seq<u8>) -> Result<Seq<char>, DecodeError>
    decreases bytes.len(),
    via lines_of_decreases
{
    if bytes.len() == 0 {
        Ok(Seq::empty())
    } else {
        match instruction_at(bytes) {
            Ok(decoded) => match lines_of(bytes.skip(decoded.len as int)) {
                Ok(rest) => Ok(decoded.text + "\n"@ + rest),
                Err(error) => Err(error),
            },
            Err(error) => Err(error),
        }
    }
}

#[via_fn]
proof fn lines_of_decreases(bytes: Seq<u8>) {
    if bytes.len() != 0 {
        lemma_instruction_fits(bytes);
    }
}

/// The listing of `bytes`: the header, then one line for each instruction.
pub open spec fn listing(bytes: Seq<u8>) -> Result<Seq<char>, DecodeError> {
    match lines_of(bytes) {
        Ok(lines) => Ok(header() + lines),
        Err(error) => Err(error),
    }
}

/// Whether `bytes` is one whole instruction: it decodes, and its last byte
/// is the last byte of the instruction.
pub open spec fn is_encoding(bytes: Seq<u8>) -> bool {
    instruction_at(bytes) matches Ok(decoded) && decoded.len == bytes.len()
}

/// The lines of a sequence of whole instructions, each with its line break.
pub open spec fn lines_of_encodings(encodings: Seq<Seq<u8>>) -> Seq<char>
    recommends
        forall|i: int| 0 <= i < encodings.len() ==> is_encoding(#[trigger] encodings[i]),
    decreases encodings.len(),
{
    if encodings.len() == 0 {
        Seq::empty()
    } else {
        instruction_at(encodings.first())->Ok_0.text + "\n"@ + lines_of_encodings(
            encodings.drop_first(),
        )
    }
}

/// A buffer made of whole instructions, one after the other, decodes to
/// the lines of these instructions in their order: each instruction is read
/// from exactly its own bytes, so that the next one starts where it ends
/// and the last one ends with the buffer.
pub proof fn lemma_encodings_decode_in_turn(encodings: Seq<Seq<u8>>)
    requires
        forall|i: int| 0 <= i < encodings.len() ==> is_encoding(#[trigger] encodings[i]),
    ensures
        lines_of(encodings.flatten()) == Ok::<Seq<char>, DecodeError>(
            lines_of_encodings(encodings),
        ),
        listing(encodings.flatten()) == Ok::<Seq<char>, DecodeError>(
            header() + lines_of_encodings(encodings),
        ),
    decreases encodings.len(),
{
    if encodings.len() > 0 {
        let first = encodings.first();
        let others = encodings.drop_first();
        assert forall|i: int| 0 <= i < others.len() implies is_encoding(#[trigger] others[i]) by {
            assert(others[i] == encodings[i + 1]);
        }
        lemma_encodings_decode_in_turn(others);
        lemma_instruction_is_local(first, others.flatten());
        assert(encodings.flatten().skip(first.len() as int) =~= others.flatten());
    }
}

/// The instructions that a buffer holds, each as the bytes it was decoded
/// from, up to the end of the buffer or the first failure.
pub open spec fn encodings_of(bytes: Seq<u8>) -> Seq<Seq<u8>>
    decreases bytes.len(),
    via encodings_of_decreases
{
    if bytes.len() == 0 {
        Seq::empty()
    } else {
        match instruction_at(bytes) {
            Ok(decoded) => seq![bytes.take(decoded.len as int)] + encodings_of(
                bytes.skip(decoded.len as int),
            ),
            Err(_) => Seq::empty(),
        }
    }
}

#[via_fn]
proof fn encodings_of_decreases(bytes: Seq<u8>) {
    if bytes.len() != 0 {
        lemma_instruction_fits(bytes);
    }
}

/// A buffer that decodes is made of whole instructions and of nothing
/// else: cut at the decoder's steps, every piece is one whole instruction,
/// and the pieces put together are the buffer.
pub proof fn lemma_decodable_is_made_of_encodings(bytes: Seq<u8>)
    requires
        lines_of(bytes) is Ok,
    ensures
        forall|i: int|
            0 <= i < encodings_of(bytes).len() ==> is_encoding(#[trigger] encodings_of(bytes)[i]),
        encodings_of(bytes).flatten() == bytes,
    decreases bytes.len(),
{
    if bytes.len() > 0 {
        let decoded = instruction_at(bytes)->Ok_0;
        let own = bytes.take(decoded.len as int);
        let behind = bytes.skip(decoded.len as int);
        lemma_instruction_fits(bytes);
        lemma_instruction_reads_own_bytes(bytes);
        lemma_decodable_is_made_of_encodings(behind);
        let pieces = encodings_of(bytes);
        assert(pieces =~= seq![own] + encodings_of(behind));
        assert forall|i: int| 0 <= i < pieces.len() implies is_encoding(#[trigger] pieces[i]) by {
            if i > 0 {
                assert(pieces[i] == encodings_of(behind)[i - 1]);
            }
        }
        lemma_flatten_concat(seq![own], encodings_of(behind));
        seq![own].lemma_flatten_singleton();
        assert(own + behind =~= bytes);
    }
}

/// A listing has one line for each instruction after the two lines of its
/// header, and each line ends with a single line break.
pub proof fn lemma_one_line_per_instruction(encodings: Seq<Seq<u8>>)
    requires
        forall|i: int| 0 <= i < encodings.len() ==> is_encoding(#[trigger] encodings[i]),
    ensures
        line_breaks(lines_of_encodings(encodings)) == encodings.len(),
        line_breaks(header() + lines_of_encodings(encodings)) == 2 + encodings.len(),
    decreases encodings.len(),
{
    let lines = lines_of_encodings(encodings);
    if encodings.len() > 0 {
        let text = instruction_at(encodings.first())->Ok_0.text;
        let others = encodings.drop_first();
        assert forall|i: int| 0 <= i < others.len() implies is_encoding(#[trigger] others[i]) by {
            assert(others[i] == encodings[i + 1]);
        }
        lemma_one_line_per_instruction(others);
        lemma_instruction_is_one_line(encodings.first());
        lemma_one_line_has_no_breaks(text);
        assert(line_breaks("\n"@) == 1) by {
            reveal_strlit("\n");
            reveal_with_fuel(line_breaks, 2);
        }
        lemma_line_breaks_concat(text, "\n"@);
        lemma_line_breaks_concat(text + "\n"@, lines_of_encodings(others));
    }
    assert(line_breaks(header()) == 2) by {
        reveal_strlit("bits 16\n\n");
        let bits = "bits 16"@;
        reveal_strlit("bits 16");
        reveal_strlit("\n");
        assert(header() =~= bits + "\n"@ + "\n"@);
        lemma_one_line_has_no_breaks(bits);
        reveal_with_fuel(line_breaks, 2);
        lemma_line_breaks_concat(bits, "\n"@);
        lemma_line_breaks_concat(bits + "\n"@, "\n"@);
    }
    lemma_line_breaks_concat(header(), lines);
}

/// Where the `k`-th of a sequence of whole instructions begins in the
/// buffer that holds them one after the other.
pub open spec fn start_of(encodings: Seq<Seq<u8>>, k: int) -> nat {
    encodings.take(k).flatten().len()
}

/// A buffer of sequences, cut before the `k`-th: what lies before the cut
/// and what lies behind it.
proof fn lemma_flatten_split(parts: Seq<Seq<u8>>, k: int)
    requires
        0 <= k <= parts.len(),
    ensures
        parts.flatten() == parts.take(k).flatten() + parts.skip(k).flatten(),
        k < parts.len() ==> parts.skip(k).flatten() == parts[k] + parts.skip(k + 1).flatten(),
        k < parts.len() ==> parts.take(k + 1).flatten() == parts.take(k).flatten() + parts[k],
{
    lemma_flatten_concat(parts.take(k), parts.skip(k));
    assert(parts.take(k) + parts.skip(k) =~= parts);
    if k < parts.len() {
        assert(parts.skip(k).drop_first() =~= parts.skip(k + 1));
        assert(parts.take(k + 1) =~= parts.take(k).push(parts[k]));
        parts.take(k).lemma_flatten_push(parts[k]);
    }
}

/// In a buffer made of whole instructions, decoding proceeds from one
/// instruction's first byte to the next one's: at the start of the `k`-th
/// the decoder reads that instruction and nothing else, steps over exactly
/// its bytes, and after the last one it stands at the end of the buffer.
pub proof fn lemma_cursor_follows_encodings(encodings: Seq<Seq<u8>>, k: int)
    requires
        forall|i: int| 0 <= i < encodings.len() ==> is_encoding(#[trigger] encodings[i]),
        0 <= k <= encodings.len(),
    ensures
        start_of(encodings, k) <= encodings.flatten().len(),
        encodings.flatten().skip(start_of(encodings, k) as int) == encodings.skip(k).flatten(),
        k < encodings.len() ==> instruction_at(
            encodings.flatten().skip(start_of(encodings, k) as int),
        ) == instruction_at(encodings[k]),
        k < encodings.len() ==> start_of(encodings, k + 1) == start_of(encodings, k)
            + encodings[k].len(),
        k == encodings.len() ==> start_of(encodings, k) == encodings.flatten().len(),
{
    let before = encodings.take(k).flatten();
    let behind = encodings.skip(k).flatten();
    lemma_flatten_split(encodings, k);
    assert((before + behind).skip(before.len() as int) =~= behind);
    if k < encodings.len() {
        assert(is_encoding(encodings[k]));
        lemma_instruction_is_local(encodings[k], encodings.skip(k + 1).flatten());
    } else {
        assert(encodings.skip(k) =~= Seq::<Seq<u8>>::empty());
    }
}

/// Decodes every instruction from the cursor to the end of the buffer and
/// returns their lines. On success the cursor stands at the end of the
/// buffer.
pub fn dis_instructions(bytes_reader: &mut BytesReader) -> (result: Result<String, DecodeError>)
    ensures
        final(bytes_reader).bytes() == old(bytes_reader).bytes(),
        match lines_of(old(bytes_reader).remaining()) {
            Ok(lines) => {
                &&& result is Ok
                &&& result->Ok_0@ == lines
                &&& final(bytes_reader).position() == old(bytes_reader).bytes().len()
            },
            Err(error) => result is Err && result->Err_0 == error,
        },
{
    let mut lines = String::new();
    while !bytes_reader.has_reached_end()
        invariant
            bytes_reader.bytes() == old(bytes_reader).bytes(),
            lines_of(old(bytes_reader).remaining()) == match lines_of(bytes_reader.remaining()) {
                Ok(rest) => Ok::<Seq<char>, DecodeError>(lines@ + rest),
                Err(error) => Err(error),
            },
        decreases bytes_reader.bytes().len() - bytes_reader.position(),
    {
        proof {
            use_type_invariant(&*bytes_reader);
            lemma_instruction_fits(bytes_reader.remaining());
        }
        let ghost before = bytes_reader.remaining();
        let ghost so_far = lines@;
        dis_instruction(bytes_reader, &mut lines)?;
        proof {
            let decoded = instruction_at(before)->Ok_0;
            assert(bytes_reader.remaining() =~= before.skip(decoded.len as int));
            if let Ok(rest) = lines_of(bytes_reader.remaining()) {
                assert(so_far + (decoded.text + "\n"@ + rest) =~= lines@ + rest);
            }
        }
    }
    proof {
        use_type_invariant(&*bytes_reader);
        assert(lines@ + Seq::<char>::empty() =~= lines@);
    }
    Ok(lines)
}

/// Disassembles `input`: the header, then one line for each instruction.
/// A buffer that is not a sequence of complete MOV instructions yields the
/// first failure and no text.
pub fn disassembly(input: &[u8]) -> (result: Result<String, DecodeError>)
    ensures
        match listing(input@) {
            Ok(text) => result is Ok && result->Ok_0@ == text,
            Err(error) => result is Err && result->Err_0 == error,
        },
        result is Ok ==> header().is_prefix_of(result->Ok_0@),
        input@.len() == 0 ==> result is Ok && result->Ok_0@ == header(),
{
    let mut bytes_reader = BytesReader::new(input);
    let mut res = String::new();

    res.append("bits 16\n\n");

    assert(bytes_reader.remaining() =~= input@);
    let lines = dis_instructions(&mut bytes_reader)?;
    res.append(lines.as_str());

    assert(header() =~= res@.subrange(0, header().len() as int));
    Ok(res)
}

} // verus!
