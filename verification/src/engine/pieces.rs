//! Token bytes to text.
//!
//! A token is a byte sequence, not a character, so a multi-byte character can
//! straddle two tokens. The decoder holds the partial bytes until they form
//! one.

use vstd::prelude::*;

verus! {

/// `encoding_rs::Decoder`, the streaming UTF-8 decoder of one generation.
#[verifier::external_type_specification]
#[verifier::external_body]
pub struct ExDecoder(encoding_rs::Decoder);

/// The bytes a decoder has been fed since it was made.
pub uninterp spec fn decoder_input(decoder: encoding_rs::Decoder) -> Seq<u8>;

/// What the streaming decoder has written once it has been fed `input`, in
/// whatever portions: complete characters only, malformed sequences replaced.
pub uninterp spec fn decoded_text(input: Seq<u8>) -> Seq<char>;

/// Whether `input` opens with a UTF-8 byte order mark.
pub open spec fn has_bom(input: Seq<u8>) -> bool {
    input.len() >= 3 && input[0] == 0xEF && input[1] == 0xBB && input[2] == 0xBF
}

/// What the bytes of one more token add to the text of those before.
pub open spec fn piece_text(before: Seq<u8>, bytes: Seq<u8>) -> Seq<char> {
    decoded_text(before + bytes).skip(decoded_text(before).len() as int)
}

/// The text of the bytes so far goes on where the text of `before` ended, and
/// where the bytes are valid UTF-8 without a byte order mark it is theirs.
pub open spec fn decodes(before: Seq<u8>, bytes: Seq<u8>) -> bool {
    &&& decoded_text(before + bytes) == decoded_text(before) + piece_text(before, bytes)
    &&& vstd::utf8::valid_utf8(before + bytes) && !has_bom(before + bytes) ==> decoded_text(
        before + bytes,
    ) == vstd::utf8::decode_utf8(before + bytes)
}

/// The text of the first bytes starts from nothing.
pub open spec fn begins(bytes: Seq<u8>) -> bool {
    &&& decoded_text(Seq::empty()) == Seq::<char>::empty()
    &&& decodes(Seq::empty(), bytes)
}

/// `encoding_rs::Encoding::new_decoder` on UTF-8. Taken on trust: a new
/// decoder has been fed nothing and has written nothing.
#[verifier::external_body]
fn new_decoder() -> (decoder: encoding_rs::Decoder)
    ensures
        decoder_input(decoder) == Seq::<u8>::empty(),
        decoded_text(decoder_input(decoder)) == Seq::<char>::empty(),
{
    encoding_rs::UTF_8.new_decoder()
}

/// `encoding_rs::Decoder::decode_to_string`, not at the end of the stream and
/// with as much room as `max_utf8_buffer_length` asks for. Taken on trust: all
/// of `bytes` is consumed; the text of each call continues the text of the
/// calls before it; and where the bytes so far are valid UTF-8 without a byte
/// order mark, all of their characters have been written. What is written for
/// malformed input is named and not spelled out. The length bound keeps the
/// size computation from overflowing.
#[verifier::external_body]
fn decode(decoder: &mut encoding_rs::Decoder, bytes: &[u8]) -> (piece: String)
    requires
        bytes@.len() <= usize::MAX / 8,
    ensures
        decoder_input(*final(decoder)) == decoder_input(*old(decoder)) + bytes@,
        decoded_text(decoder_input(*final(decoder))) == decoded_text(decoder_input(*old(decoder)))
            + piece@,
        vstd::utf8::valid_utf8(decoder_input(*final(decoder))) && !has_bom(
            decoder_input(*final(decoder)),
        ) ==> decoded_text(decoder_input(*final(decoder))) == vstd::utf8::decode_utf8(
            decoder_input(*final(decoder)),
        ),
{
    let room = decoder.max_utf8_buffer_length(bytes.len()).expect("a piece fits in memory");
    let mut piece = String::with_capacity(room);
    let _ = decoder.decode_to_string(bytes, &mut piece, false);
    piece
}

/// The decoder of one slot.
pub struct PieceDecoder {
    decoder: encoding_rs::Decoder,
}

impl View for PieceDecoder {
    type V = Seq<u8>;

    /// The bytes of every token so far.
    closed spec fn view(&self) -> Seq<u8> {
        decoder_input(self.decoder)
    }
}

impl PieceDecoder {
    pub fn new() -> (decoder: PieceDecoder)
        ensures
            decoder@ == Seq::<u8>::empty(),
            decoded_text(decoder@) == Seq::<char>::empty(),
    {
        PieceDecoder { decoder: new_decoder() }
    }

    /// The text that the bytes of one more token complete. Empty while they
    /// only begin a character.
    pub fn push(&mut self, bytes: &[u8]) -> (piece: String)
        requires
            bytes@.len() <= usize::MAX / 8,
        ensures
            final(self)@ == old(self)@ + bytes@,
            decoded_text(final(self)@) == decoded_text(old(self)@) + piece@,
            piece@ == piece_text(old(self)@, bytes@),
            decodes(old(self)@, bytes@),
    {
        let piece = decode(&mut self.decoder, bytes);
        assert(piece@ =~= piece_text(old(self)@, bytes@));
        piece
    }
}

/// Everything in `parts`, one after the other.
pub open spec fn joined<T>(parts: Seq<Seq<T>>) -> Seq<T>
    decreases parts.len(),
{
    if parts.len() == 0 {
        Seq::empty()
    } else {
        joined(parts.drop_last()) + parts.last()
    }
}

/// Joining can start from the front as well.
pub proof fn lemma_joined_front<T>(parts: Seq<Seq<T>>)
    requires
        parts.len() > 0,
    ensures
        joined(parts) == parts[0] + joined(parts.drop_first()),
    decreases parts.len(),
{
    let rest = parts.drop_first();
    if parts.len() == 1 {
        assert(joined(parts.drop_last()) =~= Seq::<T>::empty());
        assert(joined(rest) =~= Seq::<T>::empty());
        assert(joined(parts) =~= parts[0] + joined(rest));
    } else {
        lemma_joined_front(parts.drop_last());
        assert(parts.drop_last().drop_first() =~= rest.drop_last());
        assert(joined(parts) =~= parts[0] + joined(rest));
    }
}

/// Whether `pieces` are what a fresh decoder answered to `tokens`, one piece
/// for the bytes of one token.
pub open spec fn pieces_of(tokens: Seq<Seq<u8>>, pieces: Seq<Seq<char>>) -> bool {
    &&& tokens.len() == pieces.len()
    &&& decoded_text(Seq::empty()) == Seq::<char>::empty()
    &&& forall|i: int|
        0 <= i < tokens.len() ==> decoded_text(joined(tokens.take(i + 1))) == decoded_text(
            joined(tokens.take(i)),
        ) + #[trigger] pieces[i]
}

/// No text is lost or repeated at a token boundary: the pieces of a generation
/// joined together are the text of its bytes joined together.
pub proof fn pieces_join_to_the_whole_text(tokens: Seq<Seq<u8>>, pieces: Seq<Seq<char>>)
    requires
        pieces_of(tokens, pieces),
    ensures
        joined(pieces) == decoded_text(joined(tokens)),
    decreases tokens.len(),
{
    if tokens.len() == 0 {
        assert(joined(tokens) =~= Seq::<u8>::empty());
        assert(joined(pieces) =~= Seq::<char>::empty());
    } else {
        let n = tokens.len() - 1;
        let earlier = tokens.drop_last();
        let heard = pieces.drop_last();
        assert forall|i: int| 0 <= i < earlier.len() implies decoded_text(
            joined(earlier.take(i + 1)),
        ) == decoded_text(joined(earlier.take(i))) + #[trigger] heard[i] by {
            assert(earlier.take(i + 1) =~= tokens.take(i + 1));
            assert(earlier.take(i) =~= tokens.take(i));
            assert(heard[i] == pieces[i]);
        }
        pieces_join_to_the_whole_text(earlier, heard);
        assert(tokens.take(n + 1) =~= tokens);
        assert(tokens.take(n) =~= earlier);
        assert(pieces[n] == pieces.last());
    }
}

} // verus!
