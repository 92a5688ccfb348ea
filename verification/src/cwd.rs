//! Working directories as shells report them: `file://HOST/PATH` with percent escapes.
use crate::text::{chars_of, find_char, found_at, string_of};
use vstd::prelude::*;
use vstd::string::*;
use vstd::utf8::*;

verus! {

/// The text that std's lossy UTF-8 decoding makes of bytes.
pub uninterp spec fn utf8_lossy(bytes: Seq<u8>) -> Seq<char>;

/// `String::from_utf8_lossy` of std: the text depends on the bytes alone, and bytes that are
/// UTF-8 decode to the text they encode.
#[verifier::external_body]
pub(crate) fn lossy_text(bytes: &[u8]) -> (text: String)
    ensures
        text@ == utf8_lossy(bytes@),
        valid_utf8(bytes@) ==> text@ == decode_utf8(bytes@),
{
    String::from_utf8_lossy(bytes).into_owned()
}

/// The value of a hexadecimal digit.
pub open spec fn hex_digit(byte: u8) -> Option<u8> {
    if 0x30 <= byte <= 0x39 {
        Some((byte - 0x30) as u8)
    } else if 0x41 <= byte <= 0x46 {
        Some((byte - 0x41 + 10) as u8)
    } else if 0x61 <= byte <= 0x66 {
        Some((byte - 0x61 + 10) as u8)
    } else {
        None
    }
}

/// The value of a hexadecimal digit.
fn hex_value(byte: u8) -> (value: Option<u8>)
    ensures
        value == hex_digit(byte),
        value matches Some(v) ==> v < 16,
{
    if 0x30 <= byte && byte <= 0x39 {
        Some(byte - 0x30)
    } else if 0x41 <= byte && byte <= 0x46 {
        Some(byte - 0x41 + 10)
    } else if 0x61 <= byte && byte <= 0x66 {
        Some(byte - 0x61 + 10)
    } else {
        None
    }
}

/// Whether `%XX` with two hexadecimal digits stands at the front.
pub open spec fn escape_ahead(bytes: Seq<u8>) -> bool {
    bytes.len() > 2 && bytes[0] == 0x25 && hex_digit(bytes[1]) is Some && hex_digit(
        bytes[2],
    ) is Some
}

/// The bytes with every `%XX` replaced by the byte it names; anything else stands for itself.
pub open spec fn percent_decoded(bytes: Seq<u8>) -> Seq<u8>
    decreases bytes.len(),
{
    if bytes.len() == 0 {
        Seq::empty()
    } else if escape_ahead(bytes) {
        seq![(hex_digit(bytes[1])->0 * 16 + hex_digit(bytes[2])->0) as u8] + percent_decoded(
            bytes.skip(3),
        )
    } else {
        seq![bytes[0]] + percent_decoded(bytes.skip(1))
    }
}

/// Decode percent escapes. Bytes that are not UTF-8 afterwards come out as std's lossy
/// decoding has them.
pub fn percent_decode(s: &str) -> (text: String)
    ensures
        text@ == utf8_lossy(percent_decoded(encode_utf8(s@))),
        valid_utf8(percent_decoded(encode_utf8(s@))) ==> text@ == decode_utf8(
            percent_decoded(encode_utf8(s@)),
        ),
{
    let bytes = s.as_bytes();
    let mut out: Vec<u8> = Vec::new();
    let mut i: usize = 0;
    assert(bytes@.skip(0) =~= bytes@);
    assert(out@ + percent_decoded(bytes@) =~= percent_decoded(bytes@));
    while i < bytes.len()
        invariant
            i <= bytes@.len(),
            out@ + percent_decoded(bytes@.skip(i as int)) == percent_decoded(bytes@),
        decreases bytes@.len() - i,
    {
        let ghost rest = bytes@.skip(i as int);
        let ghost before = out@;
        assert(rest[0] == bytes@[i as int]);
        if bytes[i] == 0x25 && bytes.len() - i > 2 {
            assert(rest[1] == bytes@[i + 1] && rest[2] == bytes@[i + 2]);
            let high = hex_value(bytes[i + 1]);
            let low = hex_value(bytes[i + 2]);
            if let (Some(h), Some(l)) = (high, low) {
                out.push(h * 16 + l);
                assert(rest.skip(3) =~= bytes@.skip(i + 3));
                assert(out@ + percent_decoded(rest.skip(3)) =~= before + percent_decoded(rest));
                i += 3;
                continue ;
            }
        }
        out.push(bytes[i]);
        assert(rest.skip(1) =~= bytes@.skip(i + 1));
        assert(out@ + percent_decoded(rest.skip(1)) =~= before + percent_decoded(rest));
        i += 1;
    }
    assert(out@ =~= percent_decoded(bytes@)) by {
        assert(bytes@.skip(i as int) =~= Seq::<u8>::empty());
    }
    lossy_text(out.as_slice())
}

/// Text without a percent sign decodes to itself.
pub proof fn law_plain_text_decodes_to_itself(bytes: Seq<u8>)
    requires
        forall|i: int| 0 <= i < bytes.len() ==> #[trigger] bytes[i] != 0x25,
    ensures
        percent_decoded(bytes) == bytes,
    decreases bytes.len(),
{
    if bytes.len() > 0 {
        assert(bytes[0] != 0x25);
        let rest = bytes.skip(1);
        assert forall|i: int| 0 <= i < rest.len() implies #[trigger] rest[i] != 0x25 by {
            assert(rest[i] == bytes[i + 1]);
        }
        law_plain_text_decodes_to_itself(rest);
        assert(seq![bytes[0]] + rest =~= bytes);
    }
}

/// The prefix of a file URI.
pub open spec fn file_scheme() -> Seq<char> {
    seq!['f', 'i', 'l', 'e', ':', '/', '/']
}

/// The path in a reported directory: a file URI loses its scheme and host, anything else is the
/// path itself. A host without a path stands for itself.
pub open spec fn reported_path(uri: Seq<char>) -> Seq<char> {
    if crate::text::stands_at(uri, file_scheme(), 0) {
        let rest = uri.skip(7);
        if crate::text::first_pos(rest, '/') < rest.len() {
            rest.skip(crate::text::first_pos(rest, '/'))
        } else {
            rest
        }
    } else {
        uri
    }
}

/// The path in a reported directory.
pub fn directory_of(uri: &str) -> (path: String)
    ensures
        path@ == reported_path(uri@),
{
    let chars = chars_of(uri);
    let scheme: Vec<char> = vec!['f', 'i', 'l', 'e', ':', '/', '/'];
    assert(scheme@ =~= file_scheme());
    if found_at(chars.as_slice(), scheme.as_slice(), 0) {
        let rest = vstd::slice::slice_subrange(chars.as_slice(), 7, chars.len());
        assert(rest@ =~= uri@.skip(7));
        match find_char(rest, '/') {
            Some(slash) => {
                let path = string_of(rest, slash, rest.len());
                assert(path@ =~= rest@.skip(slash as int));
                path
            },
            None => {
                let path = string_of(rest, 0, rest.len());
                assert(path@ =~= rest@);
                path
            },
        }
    } else {
        let path = string_of(chars.as_slice(), 0, chars.len());
        assert(path@ =~= uri@);
        path
    }
}

/// The hexadecimal digit of a value, in upper or lower case.
pub open spec fn digit_for(value: u8, upper: bool) -> u8 {
    if value < 10 {
        (0x30 + value) as u8
    } else if upper {
        (0x41 + value - 10) as u8
    } else {
        (0x61 + value - 10) as u8
    }
}

/// A percent sign and two hexadecimal digits stand for the byte that they write, in either case,
/// and what follows is decoded by itself.
pub proof fn law_escape_stands_for_its_byte(byte: u8, upper: bool, rest: Seq<u8>)
    ensures
        percent_decoded(
            seq![0x25, digit_for(byte / 16, upper), digit_for(byte % 16, upper)] + rest,
        ) == seq![byte] + percent_decoded(rest),
{
    let whole = seq![0x25, digit_for(byte / 16, upper), digit_for(byte % 16, upper)] + rest;
    assert(whole.skip(3) =~= rest);
    assert(hex_digit(whole[1]) == Some((byte / 16) as u8));
    assert(hex_digit(whole[2]) == Some((byte % 16) as u8));
}

/// A byte that does not begin an escape stands for itself: any but a percent sign, and a percent
/// sign that two hexadecimal digits do not follow.
pub proof fn law_other_bytes_stand_for_themselves(byte: u8, rest: Seq<u8>)
    requires
        byte != 0x25 || rest.len() < 2 || !(0x30 <= rest[0] <= 0x39 || 0x41 <= rest[0] <= 0x46
            || 0x61 <= rest[0] <= 0x66) || !(0x30 <= rest[1] <= 0x39 || 0x41 <= rest[1] <= 0x46
            || 0x61 <= rest[1] <= 0x66),
    ensures
        percent_decoded(seq![byte] + rest) == seq![byte] + percent_decoded(rest),
        percent_decoded(Seq::empty()) == Seq::<u8>::empty(),
{
    let whole = seq![byte] + rest;
    assert(whole.skip(1) =~= rest);
    if rest.len() >= 2 {
        assert(whole[1] == rest[0] && whole[2] == rest[1]);
    }
}

/// A `file` URI reports the path behind its host, from the first slash on; what is no such URI is
/// the path itself.
pub proof fn law_path_stands_behind_the_host(host: Seq<char>, path: Seq<char>, uri: Seq<char>)
    requires
        forall|i: int| 0 <= i < host.len() ==> #[trigger] host[i] != '/',
        path.len() > 0,
        path[0] == '/',
    ensures
        reported_path(seq!['f', 'i', 'l', 'e', ':', '/', '/'] + host + path) == path,
        reported_path(seq!['f', 'i', 'l', 'e', ':', '/', '/'] + host) == host,
        uri.len() < 7 || uri.take(7) != seq!['f', 'i', 'l', 'e', ':', '/', '/'] ==> reported_path(uri)
            == uri,
{
    let scheme = seq!['f', 'i', 'l', 'e', ':', '/', '/'];
    let whole = scheme + host + path;
    assert(whole.subrange(0, 7) =~= scheme);
    let rest = whole.skip(7);
    assert(rest =~= host + path);
    crate::text::lemma_first_pos(rest, '/');
    let at = crate::text::first_pos(rest, '/');
    assert(rest[host.len() as int] == '/');
    assert(at <= host.len());
    if at < host.len() {
        assert(rest[at] == host[at]);
    }
    assert(rest.skip(at) =~= path);
    let bare = scheme + host;
    assert(bare.subrange(0, 7) =~= scheme);
    assert(bare.skip(7) =~= host);
    crate::text::lemma_first_pos(host, '/');
    if uri.len() >= 7 {
        assert(uri.take(7) =~= uri.subrange(0, 7));
    }
}

} // verus!
