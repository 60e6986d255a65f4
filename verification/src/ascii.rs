use vstd::prelude::*;

verus! {

/// The character sequence spelled by a sequence of ASCII codes.
pub open spec fn ascii_chars_of(s: Seq<u8>) -> Seq<char> {
    Seq::new(s.len(), |i: int| s[i] as char)
}

/// UTF-8 leaves ASCII codes unchanged: the bytes of the string spelled by a
/// sequence of ASCII codes are those codes themselves.
pub proof fn lemma_encode_utf8_of_ascii_chars(e: Seq<u8>)
    requires
        forall|i: int| 0 <= i < e.len() ==> e[i] < 128,
    ensures
        vstd::utf8::encode_utf8(ascii_chars_of(e)) == e,
{
    let cs = ascii_chars_of(e);
    assert(vstd::utf8::is_ascii_chars(cs)) by {
        assert forall|i: int| 0 <= i < cs.len() implies '\0' <= #[trigger] cs[i] <= '\u{7f}' by {
            assert(cs[i] == e[i] as char);
        }
    }
    vstd::utf8::is_ascii_chars_encode_utf8(cs);
    assert(vstd::utf8::encode_utf8(cs) =~= e);
}

/// Relies on `String::from_utf8`: bytes below 128 are valid UTF-8 and decode
/// to exactly those characters.
#[verifier::external_body]
pub(crate) fn ascii_string(bytes: Vec<u8>) -> (out: String)
    requires
        forall|i: int| 0 <= i < bytes@.len() ==> bytes@[i] < 128,
    ensures
        out@ == ascii_chars_of(bytes@),
{
    match String::from_utf8(bytes) {
        Ok(s) => s,
        Err(_) => String::new(),
    }
}

} // verus!
