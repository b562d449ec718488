//! Bytes and text as other programs write them.
//!
//! What other crates and the standard library compute here is trusted: each
//! function says what is claimed of the one that it calls.

use base64::Engine;
use crate::text::rank_of_digit;
use vstd::prelude::*;
use vstd::utf8::{decode_utf8, encode_utf8, valid_utf8};

verus! {

/// What `String::from_utf8_lossy` makes of bytes that are not UTF-8.
pub uninterp spec fn replaced_text(bytes: Seq<u8>) -> Seq<char>;

/// The text that bytes spell. Where they are not UTF-8, what is not is replaced.
pub open spec fn text_from(bytes: Seq<u8>) -> Seq<char> {
    if valid_utf8(bytes) {
        decode_utf8(bytes)
    } else {
        replaced_text(bytes)
    }
}

/// `String::from_utf8_lossy`: valid UTF-8 becomes the text that it encodes; of
/// anything else, all that is claimed is that the same bytes give the same text.
#[verifier::external_body]
pub(crate) fn lossy(bytes: &[u8]) -> (text: String)
    ensures
        text@ == if valid_utf8(bytes@) {
            decode_utf8(bytes@)
        } else {
            replaced_text(bytes@)
        },
{
    String::from_utf8_lossy(bytes).into_owned()
}

/// What the standard alphabet of the `base64` crate makes of bytes.
pub uninterp spec fn base64_text(bytes: Seq<u8>) -> Seq<char>;

/// What the `base64` crate reads out of a text in the standard alphabet, or how
/// it describes what is wrong with it.
pub uninterp spec fn base64_bytes(text: Seq<char>) -> Result<Seq<u8>, Seq<char>>;

/// `Engine::encode` of the `base64` crate, with its standard engine: the same
/// bytes give the same text. The crate panics where the length of the text does
/// not fit a machine word.
#[verifier::external_body]
pub(crate) fn base64_encode(bytes: &[u8]) -> (text: String)
    requires
        bytes@.len() <= usize::MAX / 4,
    ensures
        text@ == base64_text(bytes@),
{
    base64::engine::general_purpose::STANDARD.encode(bytes)
}

/// `Engine::decode` of the `base64` crate, with its standard engine: the same
/// text gives the same bytes, or the same description of what is wrong with it,
/// and what was encoded is given back.
#[verifier::external_body]
pub(crate) fn base64_decode(text: &str) -> (outcome: Result<Vec<u8>, String>)
    ensures
        match outcome {
            Ok(bytes) => base64_bytes(text@) == Ok::<Seq<u8>, Seq<char>>(bytes@),
            Err(detail) => base64_bytes(text@) == Err::<Seq<u8>, Seq<char>>(detail@),
        },
        forall|bytes: Seq<u8>|
            text@ == #[trigger] base64_text(bytes) ==> outcome is Ok && outcome->Ok_0@ == bytes,
{
    base64::engine::general_purpose::STANDARD.decode(text).map_err(|error| error.to_string())
}

/// A character inside a JSON string: a quotation mark, a backslash and the
/// control characters are escaped.
pub open spec fn json_char(c: char) -> Seq<char> {
    if c == '"' {
        seq!['\\', '"']
    } else if c == '\\' {
        seq!['\\', '\\']
    } else if c == '\u{8}' {
        seq!['\\', 'b']
    } else if c == '\t' {
        seq!['\\', 't']
    } else if c == '\n' {
        seq!['\\', 'n']
    } else if c == '\u{c}' {
        seq!['\\', 'f']
    } else if c == '\r' {
        seq!['\\', 'r']
    } else if (c as int) < 32 {
        seq!['\\', 'u', '0', '0', low_digit(c as int / 16), low_digit(c as int % 16)]
    } else {
        seq![c]
    }
}

/// A digit of sixteen, in lower case.
pub open spec fn low_digit(value: int) -> char {
    if value < 10 {
        ('0' as int + value) as char
    } else {
        ('a' as int + value - 10) as char
    }
}

/// The inside of a JSON string.
pub open spec fn json_inside(text: Seq<char>) -> Seq<char>
    decreases text.len(),
{
    if text.len() == 0 {
        Seq::empty()
    } else {
        json_inside(text.drop_last()) + json_char(text.last())
    }
}

/// A text as a JSON string.
pub open spec fn json_text(text: Seq<char>) -> Seq<char> {
    seq!['"'] + json_inside(text) + seq!['"']
}

/// `serde_json::to_string` of a text: it is always written, between quotation
/// marks and with only what JSON cannot hold escaped.
#[verifier::external_body]
pub(crate) fn json_string(text: &str) -> (json: Option<String>)
    ensures
        json matches Some(json) && json@ == json_text(text@),
{
    serde_json::to_string(text).ok()
}

proof fn lemma_json_char(c: char)
    ensures
        forall|i: int| 0 <= i < json_char(c).len() ==> ' ' <= #[trigger] json_char(c)[i],
        json_char(c).len() > 1 ==> json_char(c)[0] == '\\',
{
}

/// A JSON string holds no line break and no other control character, whatever
/// it is made from: it stays on its line.
pub proof fn law_a_string_stays_on_its_line(text: Seq<char>, at: int)
    requires
        0 <= at < json_text(text).len(),
    ensures
        ' ' <= json_text(text)[at],
{
    if 1 <= at < json_text(text).len() - 1 {
        lemma_inside(text, at - 1);
    }
}

proof fn lemma_inside(text: Seq<char>, at: int)
    requires
        0 <= at < json_inside(text).len(),
    ensures
        ' ' <= json_inside(text)[at],
    decreases text.len(),
{
    let before = json_inside(text.drop_last());
    lemma_json_char(text.last());
    if at < before.len() {
        lemma_inside(text.drop_last(), at);
    } else {
        assert(json_inside(text)[at] == json_char(text.last())[at - before.len()]);
    }
}

/// What `str::to_lowercase` makes of a text.
pub uninterp spec fn lowercase_text(text: Seq<char>) -> Seq<char>;

/// `str::to_lowercase`: the same text gives the same text.
#[verifier::external_body]
pub(crate) fn lowercase(text: &str) -> (small: String)
    ensures
        small@ == lowercase_text(text@),
{
    text.to_lowercase()
}

/// How a text is written between quotes by its `Debug` form.
pub uninterp spec fn quoted_text(text: Seq<char>) -> Seq<char>;

/// The `Debug` form of a text: the same text is written the same way.
#[verifier::external_body]
pub(crate) fn quoted(text: &str) -> (shown: String)
    ensures
        shown@ == quoted_text(text@),
{
    format!("{:?}", text)
}

/// A text as a JavaScript string, which is a JSON string too.
pub open spec fn script_string(text: Seq<char>) -> Seq<char> {
    json_text(text)
}

/// Write a text as a JavaScript string.
pub fn js_string(raw: &str) -> (text: String)
    ensures
        text@ == script_string(raw@),
{
    match json_string(raw) {
        Some(json) => json,
        None => "\"\"".to_owned(),
    }
}

/// The body of a served document, as the protocol carries it.
pub fn encode_body(bytes: &Vec<u8>) -> (text: String)
    requires
        bytes@.len() <= usize::MAX / 4,
    ensures
        text@ == base64_text(bytes@),
{
    base64_encode(bytes)
}

/// A byte of a URL that is written as itself.
pub open spec fn is_unreserved(byte: u8) -> bool {
    (65 <= byte <= 90) || (97 <= byte <= 122) || (48 <= byte <= 57) || byte == 45 || byte == 46
        || byte == 95 || byte == 126
}

/// A digit of base sixteen, with capital letters.
pub open spec fn hex_digit(value: int) -> char {
    if value < 10 {
        (48 + value) as char
    } else {
        (55 + value) as char
    }
}

/// A byte as it is written in a URL. A slash is kept where `slash` says so.
pub open spec fn url_byte(byte: u8, slash: bool) -> Seq<char> {
    if is_unreserved(byte) || (slash && byte == 47) {
        seq![byte as char]
    } else {
        seq!['%', hex_digit(byte as int / 16), hex_digit(byte as int % 16)]
    }
}

/// Bytes as they are written in a URL.
pub open spec fn url_text(bytes: Seq<u8>, slash: bool) -> Seq<char>
    decreases bytes.len(),
{
    if bytes.len() == 0 {
        Seq::empty()
    } else {
        url_byte(bytes[0], slash) + url_text(bytes.skip(1), slash)
    }
}

fn hex_of(value: u8) -> (c: char)
    requires
        value < 16,
    ensures
        c == hex_digit(value as int),
{
    if value < 10 {
        (48 + value) as char
    } else {
        (55 + value) as char
    }
}

/// Write a text at the end of a URL.
pub fn push_url_text(out: &mut String, raw: &str, slash: bool)
    ensures
        final(out)@ == old(out)@ + url_text(encode_utf8(raw@), slash),
{
    let bytes = raw.as_bytes();
    let ghost all = encode_utf8(raw@);
    let ghost start = out@;
    let size: usize = bytes.len();
    let mut at: usize = 0;
    assert(all.skip(0) =~= all);
    assert(start + url_text(all, slash) =~= out@ + url_text(all.skip(0), slash));
    while at < size
        invariant
            at <= size == bytes@.len(),
            bytes@ == all,
            start + url_text(all, slash) == out@ + url_text(all.skip(at as int), slash),
        decreases size - at,
    {
        let byte: u8 = bytes[at];
        let ghost before = out@;
        assert(all.skip(at as int)[0] == byte);
        assert(all.skip(at as int).skip(1) =~= all.skip(at + 1));
        let plain = (65 <= byte && byte <= 90) || (97 <= byte && byte <= 122) || (48 <= byte && byte
            <= 57) || byte == 45 || byte == 46 || byte == 95 || byte == 126 || (slash && byte == 47);
        if plain {
            out.push(byte as char);
        } else {
            out.push('%');
            out.push(hex_of(byte / 16));
            out.push(hex_of(byte % 16));
        }
        assert(out@ =~= before + url_byte(byte, slash));
        assert(before + (url_byte(byte, slash) + url_text(all.skip(at + 1), slash)) =~= out@
            + url_text(all.skip(at + 1), slash));
        at = at + 1;
    }
    assert(out@ + url_text(all.skip(size as int), slash) =~= out@);
}

/// What a digit of base sixteen is worth.
pub open spec fn hex_value(byte: u8) -> Option<int> {
    if 48 <= byte <= 57 {
        Some(byte - 48)
    } else if 65 <= byte <= 70 {
        Some(byte - 55)
    } else if 97 <= byte <= 102 {
        Some(byte - 87)
    } else {
        None
    }
}

/// The byte that two characters spell. A plus sign may stand in place of the
/// first digit.
pub open spec fn hex_pair(high: u8, low: u8) -> Option<u8> {
    match (hex_value(high), hex_value(low)) {
        (Some(high), Some(low)) => Some((16 * high + low) as u8),
        (None, Some(low)) => if high == 43 {
            Some(low as u8)
        } else {
            None
        },
        _ => None,
    }
}

/// Bytes with every `%` and two digits behind it made into the byte they spell.
/// What does not spell one is kept.
pub open spec fn percent_decoded(bytes: Seq<u8>) -> Seq<u8>
    decreases bytes.len(),
{
    if bytes.len() == 0 {
        Seq::empty()
    } else if bytes[0] == 37 && bytes.len() > 2 && hex_pair(bytes[1], bytes[2]) is Some {
        seq![hex_pair(bytes[1], bytes[2])->0] + percent_decoded(bytes.skip(3))
    } else {
        seq![bytes[0]] + percent_decoded(bytes.skip(1))
    }
}

fn hex_of_byte(byte: u8) -> (value: Option<u8>)
    ensures
        match value {
            Some(value) => hex_value(byte) == Some(value as int) && value < 16,
            None => hex_value(byte) is None,
        },
{
    if 48 <= byte && byte <= 57 {
        Some(byte - 48)
    } else if 65 <= byte && byte <= 70 {
        Some(byte - 55)
    } else if 97 <= byte && byte <= 102 {
        Some(byte - 87)
    } else {
        None
    }
}

fn pair_of(high: u8, low: u8) -> (byte: Option<u8>)
    ensures
        byte == hex_pair(high, low),
{
    match (hex_of_byte(high), hex_of_byte(low)) {
        (Some(high), Some(low)) => Some(16 * high + low),
        (None, Some(low)) => if high == 43 {
            Some(low)
        } else {
            None
        },
        _ => None,
    }
}

/// Undo the percent encoding of a text.
pub fn percent_decode(raw: &str) -> (text: String)
    ensures
        text@ == text_from(percent_decoded(encode_utf8(raw@))),
{
    let bytes = raw.as_bytes();
    let ghost all = encode_utf8(raw@);
    let size: usize = bytes.len();
    let mut out: Vec<u8> = Vec::new();
    let mut at: usize = 0;
    assert(all.skip(0) =~= all);
    assert(percent_decoded(all) =~= out@ + percent_decoded(all.skip(0)));
    while at < size
        invariant
            at <= size == bytes@.len(),
            bytes@ == all,
            percent_decoded(all) == out@ + percent_decoded(all.skip(at as int)),
        decreases size - at,
    {
        let ghost before = out@;
        let ghost left = all.skip(at as int);
        assert(left[0] == bytes@[at as int]);
        if bytes[at] == 37 && size - at > 2 {
            assert(left[1] == bytes@[at + 1]);
            assert(left[2] == bytes@[at + 2]);
            assert(left.skip(3) =~= all.skip(at + 3));
            if let Some(byte) = pair_of(bytes[at + 1], bytes[at + 2]) {
                out.push(byte);
                assert(before + (seq![byte] + percent_decoded(all.skip(at + 3))) =~= out@
                    + percent_decoded(all.skip(at + 3)));
                at = at + 3;
                continue;
            }
        }
        assert(left.skip(1) =~= all.skip(at + 1));
        out.push(bytes[at]);
        assert(before + (seq![left[0]] + percent_decoded(all.skip(at + 1))) =~= out@
            + percent_decoded(all.skip(at + 1)));
        at = at + 1;
    }
    assert(all.skip(size as int) =~= Seq::empty());
    assert(out@ + percent_decoded(all.skip(size as int)) =~= out@);
    lossy(&out)
}

/// Whether a character stands for itself in a URL.
pub open spec fn is_plain_in_url(c: char) -> bool {
    ('A' <= c && c <= 'Z') || ('a' <= c && c <= 'z') || ('0' <= c && c <= '9') || c == '-'
        || c == '.' || c == '_' || c == '~'
}

/// A digit of base sixteen, written with a capital letter.
pub open spec fn is_capital_hex(c: char) -> bool {
    ('A' <= c && c <= 'F') || ('0' <= c && c <= '9')
}

proof fn lemma_hex_digit(value: int)
    requires
        0 <= value < 16,
    ensures
        hex_digit(value) as int == if value < 10 {
            48 + value
        } else {
            55 + value
        },
        is_capital_hex(hex_digit(value)),
        hex_value(hex_digit(value) as u8) == Some(value),
{
}

/// Whatever is written in a URL is made of characters that stand for themselves
/// there, and of percent signs with two digits behind each; and of slashes, where
/// they are kept.
pub proof fn law_url_text_is_plain(bytes: Seq<u8>, slash: bool, at: int)
    requires
        0 <= at < url_text(bytes, slash).len(),
    ensures
        ({
            let text = url_text(bytes, slash);
            if text[at] == '%' {
                at + 2 < text.len() && is_capital_hex(text[at + 1]) && is_capital_hex(text[at + 2])
            } else {
                is_plain_in_url(text[at]) || (slash && text[at] == '/')
            }
        }),
    decreases bytes.len(),
{
    let byte = bytes[0];
    let first = url_byte(byte, slash);
    let text = url_text(bytes, slash);
    if at < first.len() {
        lemma_hex_digit(byte as int / 16);
        lemma_hex_digit(byte as int % 16);
        assert(forall|i: int| 0 <= i < first.len() ==> text[i] == first[i]);
    } else {
        let rest = url_text(bytes.skip(1), slash);
        law_url_text_is_plain(bytes.skip(1), slash, at - first.len());
        assert(forall|i: int| 0 <= i < rest.len() ==> #[trigger] text[i + first.len()] == rest[i]);
        assert(text[at] == rest[at - first.len()]);
        if text[at] == '%' {
            assert(text[at + 1] == rest[at + 1 - first.len()]);
            assert(text[at + 2] == rest[at + 2 - first.len()]);
        }
    }
}

/// The bytes of text in ASCII.
spec fn ascii(text: Seq<char>) -> Seq<u8> {
    text.map_values(|c: char| c as u8)
}

proof fn lemma_ascii_decodes(bytes: Seq<u8>, slash: bool)
    ensures
        percent_decoded(ascii(url_text(bytes, slash))) == bytes,
    decreases bytes.len(),
{
    let text = url_text(bytes, slash);
    let all = ascii(text);
    if bytes.len() > 0 {
        let byte = bytes[0];
        let first = url_byte(byte, slash);
        let rest = url_text(bytes.skip(1), slash);
        lemma_ascii_decodes(bytes.skip(1), slash);
        assert(text == first + rest);
        if is_unreserved(byte) || (slash && byte == 47) {
            assert(first == seq![byte as char]);
            assert(all[0] == byte);
            assert(all.skip(1) =~= ascii(rest));
            assert(percent_decoded(all) =~= bytes);
        } else {
            let (high, low) = (byte as int / 16, byte as int % 16);
            lemma_hex_digit(high);
            lemma_hex_digit(low);
            assert(all[0] == 37);
            assert(all[1] == hex_digit(high) as u8);
            assert(all[2] == hex_digit(low) as u8);
            assert(hex_pair(all[1], all[2]) == Some(byte));
            assert(all.skip(3) =~= ascii(rest));
            assert(percent_decoded(all) =~= bytes);
        }
    } else {
        assert(all =~= Seq::empty());
    }
}

/// Bytes that are written in a URL are spelled there.
pub proof fn lemma_url_text_decodes(bytes: Seq<u8>, slash: bool)
    ensures
        percent_decoded(encode_utf8(url_text(bytes, slash))) == bytes,
{
    let text = url_text(bytes, slash);
    assert forall|i: int| 0 <= i < text.len() implies '\0' <= #[trigger] text[i] <= '\u{7f}' by {
        law_url_text_is_plain(bytes, slash, i);
        lemma_char(text[i]);
    }
    assert(vstd::utf8::is_ascii_chars(text));
    vstd::utf8::is_ascii_chars_encode_utf8(text);
    assert(encode_utf8(text) =~= ascii(text));
    lemma_ascii_decodes(bytes, slash);
}

proof fn lemma_char(c: char)
    ensures
        '\0' <= c,
{
}

/// Decoding undoes encoding: a text that is written in a URL, whatever it holds,
/// is read back as it was.
pub proof fn law_decoding_undoes_encoding(text: Seq<char>, slash: bool)
    ensures
        text_from(percent_decoded(encode_utf8(url_text(encode_utf8(text), slash)))) == text,
{
    lemma_url_text_decodes(encode_utf8(text), slash);
    vstd::utf8::encode_utf8_valid_utf8(text);
    vstd::utf8::encode_utf8_decode_utf8(text);
}

/// A string is written character by character between quotation marks: what could end it or
/// break its line is escaped, and every other character stands for itself.
pub proof fn law_strings_go_character_by_character(first: Seq<char>, second: Seq<char>, c: char)
    ensures
        script_string(first + second) == script_string(first).drop_last() + script_string(
            second,
        ).skip(1),
        script_string(Seq::empty()) == seq!['"', '"'],
        c == '"' ==> script_string(seq![c]) == seq!['"', '\\', '"', '"'],
        c == '\\' ==> script_string(seq![c]) == seq!['"', '\\', '\\', '"'],
        c == '\n' ==> script_string(seq![c]) == seq!['"', '\\', 'n', '"'],
        c == '\r' ==> script_string(seq![c]) == seq!['"', '\\', 'r', '"'],
        c == '\t' ==> script_string(seq![c]) == seq!['"', '\\', 't', '"'],
        32 <= c as u32 && c != '"' && c != '\\' ==> script_string(seq![c]) == seq!['"', c, '"'],
    decreases second.len(),
{
    lemma_insides_join(first, second);
    reveal_with_fuel(json_inside, 2);
    assert(seq![c].drop_last() =~= Seq::empty());
    assert(json_inside(seq![c]) =~= json_char(c));
    let one = json_inside(first);
    let two = json_inside(second);
    assert(script_string(first).drop_last() =~= seq!['"'] + one);
    assert(script_string(second).skip(1) =~= two + seq!['"']);
    assert(script_string(first + second) =~= (seq!['"'] + one) + (two + seq!['"']));
    assert(script_string(Seq::empty()) =~= seq!['"', '"']);
    assert(script_string(seq![c]) =~= seq!['"'] + json_char(c) + seq!['"']);
    if c == '"' {
        assert(script_string(seq![c]) =~= seq!['"', '\\', '"', '"']);
    }
    if c == '\\' {
        assert(script_string(seq![c]) =~= seq!['"', '\\', '\\', '"']);
    }
    if c == '\n' {
        assert(script_string(seq![c]) =~= seq!['"', '\\', 'n', '"']);
    }
    if c == '\r' {
        assert(script_string(seq![c]) =~= seq!['"', '\\', 'r', '"']);
    }
    if c == '\t' {
        assert(script_string(seq![c]) =~= seq!['"', '\\', 't', '"']);
    }
    if 32 <= c as u32 && c != '"' && c != '\\' {
        assert(script_string(seq![c]) =~= seq!['"', c, '"']);
    }
}

proof fn lemma_insides_join(first: Seq<char>, second: Seq<char>)
    ensures
        json_inside(first + second) == json_inside(first) + json_inside(second),
    decreases second.len(),
{
    if second.len() == 0 {
        assert(first + second =~= first);
        assert(json_inside(first) + json_inside(second) =~= json_inside(first));
    } else {
        assert((first + second).drop_last() =~= first + second.drop_last());
        assert((first + second).last() == second.last());
        lemma_insides_join(first, second.drop_last());
        assert(json_inside(first + second) =~= json_inside(first) + json_inside(second));
    }
}

/// Bytes are encoded one by one: letters, digits and four marks stand for themselves, and
/// every other byte is a percent sign with its two digits.
pub proof fn law_bytes_are_encoded_one_by_one(
    first: Seq<u8>,
    second: Seq<u8>,
    byte: u8,
    slash: bool,
)
    ensures
        url_text(first + second, slash) == url_text(first, slash) + url_text(second, slash),
        (65 <= byte <= 90) || (97 <= byte <= 122) || (48 <= byte <= 57) || byte == '-' as u8 || byte
            == '.' as u8 || byte == '_' as u8 || byte == '~' as u8 ==> url_text(seq![byte], slash)
            == seq![byte as char],
        byte == '/' as u8 ==> url_text(seq![byte], true) == seq!['/'] && url_text(
            seq![byte],
            false,
        ) == seq!['%', '2', 'F'],
        byte == ' ' as u8 ==> url_text(seq![byte], slash) == seq!['%', '2', '0'],
        byte == '%' as u8 ==> url_text(seq![byte], slash) == seq!['%', '2', '5'],
        byte >= 128 ==> url_text(seq![byte], slash).len() == 3,
    decreases first.len(),
{
    reveal_with_fuel(url_text, 2);
    assert(seq![byte].skip(1) =~= Seq::empty());
    assert(url_text(seq![byte], slash) =~= url_byte(byte, slash));
    assert(url_text(seq![byte], true) =~= url_byte(byte, true));
    assert(url_text(seq![byte], false) =~= url_byte(byte, false));
    if first.len() == 0 {
        assert(first + second =~= second);
        assert(url_text(first, slash) + url_text(second, slash) =~= url_text(second, slash));
    } else {
        assert((first + second).skip(1) =~= first.skip(1) + second);
        assert((first + second)[0] == first[0]);
        law_bytes_are_encoded_one_by_one(first.skip(1), second, byte, slash);
        assert(url_text(first + second, slash) =~= url_text(first, slash) + url_text(
            second,
            slash,
        ));
    }
}

/// A percent sign with two digits behind it is the byte that they spell, and every other
/// byte is itself.
pub proof fn law_what_bytes_are_decoded_to(byte: u8, high: u8, low: u8, rest: Seq<u8>)
    ensures
        byte != '%' as u8 ==> percent_decoded(seq![byte] + rest) == seq![byte] + percent_decoded(
            rest,
        ),
        48 <= high <= 57 && 48 <= low <= 57 ==> percent_decoded(seq!['%' as u8, high, low] + rest)
            == seq![(16 * (high - 48) + (low - 48)) as u8] + percent_decoded(rest),
        65 <= high <= 70 && 48 <= low <= 57 ==> percent_decoded(seq!['%' as u8, high, low] + rest)
            == seq![(16 * (high - 55) + (low - 48)) as u8] + percent_decoded(rest),
        48 <= high <= 57 && 65 <= low <= 70 ==> percent_decoded(seq!['%' as u8, high, low] + rest)
            == seq![(16 * (high - 48) + (low - 55)) as u8] + percent_decoded(rest),
        97 <= high <= 102 && 97 <= low <= 102 ==> percent_decoded(
            seq!['%' as u8, high, low] + rest,
        ) == seq![(16 * (high - 87) + (low - 87)) as u8] + percent_decoded(rest),
        low > 102 ==> percent_decoded(seq!['%' as u8, high, low] + rest) == seq!['%' as u8]
            + percent_decoded(seq![high, low] + rest),
        percent_decoded(Seq::empty()).len() == 0,
{
    let one = seq![byte] + rest;
    assert(one.skip(1) =~= rest);
    let three = seq!['%' as u8, high, low] + rest;
    assert(three.skip(3) =~= rest);
    assert(three.skip(1) =~= seq![high, low] + rest);
    assert(three[0] == 37 && three[1] == high && three[2] == low);
}

/// A control character is escaped by its letter where it has one, and by its number in four
/// digits where it has none.
pub proof fn law_control_characters_are_escaped(c: char)
    requires
        32 > c as u32,
    ensures
        c == '\u{8}' ==> script_string(seq![c]) == seq!['"', '\\', 'b', '"'],
        c == '\u{c}' ==> script_string(seq![c]) == seq!['"', '\\', 'f', '"'],
        c != '\u{8}' && c != '\u{c}' && c != '\t' && c != '\n' && c != '\r' ==> ({
            let text = script_string(seq![c]);
            &&& text.len() == 8
            &&& text[1] == '\\' && text[2] == 'u' && text[3] == '0' && text[4] == '0'
            &&& text[5] == '0' || text[5] == '1'
            &&& 16 * (text[5] as int - '0' as int) + rank_of_digit(text[6]) == c as int
        }),
{
    reveal_with_fuel(json_inside, 2);
    assert(seq![c].drop_last() =~= Seq::empty());
    assert(json_inside(seq![c]) =~= json_char(c));
    assert(script_string(seq![c]) =~= seq!['"'] + json_char(c) + seq!['"']);
    if c == '\u{8}' {
        assert(script_string(seq![c]) =~= seq!['"', '\\', 'b', '"']);
    } else if c == '\u{c}' {
        assert(script_string(seq![c]) =~= seq!['"', '\\', 'f', '"']);
    } else if c != '\t' && c != '\n' && c != '\r' {
        let text = script_string(seq![c]);
        let last = text[6];
        assert(last == low_digit(c as int % 16));
    }
}

/// What a capital digit of base sixteen is worth.
pub open spec fn capital_worth(c: char) -> int {
    if '0' <= c && c <= '9' {
        c as int - '0' as int
    } else {
        c as int - 'A' as int + 10
    }
}

/// A byte that does not stand for itself is written with the two digits that it comes to.
pub proof fn law_an_encoded_byte_comes_to_itself(byte: u8, slash: bool)
    requires
        !((65 <= byte <= 90) || (97 <= byte <= 122) || (48 <= byte <= 57) || byte == 45 || byte == 46
            || byte == 95 || byte == 126),
        !(slash && byte == 47),
    ensures
        url_text(seq![byte], slash).len() == 3,
        url_text(seq![byte], slash)[0] == '%',
        16 * capital_worth(url_text(seq![byte], slash)[1]) + capital_worth(
            url_text(seq![byte], slash)[2],
        ) == byte,
{
    reveal_with_fuel(url_text, 2);
    assert(seq![byte].skip(1) =~= Seq::empty());
    assert(url_text(seq![byte], slash) =~= url_byte(byte, slash));
}

} // verus!
