//! Reading a printed document out of the browser.

use crate::encoding::{base64_bytes, base64_decode, base64_text, js_string, script_string};
use crate::error::Error;
use crate::json::{flag_at, json_flag_at, json_string_at, text_at};
use vstd::prelude::*;
use vstd::utf8::encode_utf8;

verus! {

/// How much of a stream is asked for at a time.
pub const STREAM_CHUNK: u64 = 524288;

/// One answer of a stream.
#[derive(Debug, PartialEq, Eq)]
pub struct Chunk {
    pub data: String,
    /// Whether the data is binary, written as text.
    pub encoded: bool,
    /// Whether the stream has ended.
    pub eof: bool,
}

/// The bytes that an answer carries, or what is wrong with them.
pub open spec fn carried(chunk: Chunk) -> Result<Seq<u8>, Seq<char>> {
    if chunk.encoded {
        base64_bytes(chunk.data@)
    } else {
        Ok(encode_utf8(chunk.data@))
    }
}

/// How every PDF begins: `%PDF-`.
pub open spec fn is_pdf(bytes: Seq<u8>) -> bool {
    seq![37u8, 80u8, 68u8, 70u8, 45u8].is_prefix_of(bytes)
}

/// Whether bytes are those of a PDF.
pub fn starts_as_pdf(bytes: &Vec<u8>) -> (yes: bool)
    ensures
        yes == is_pdf(bytes@),
{
    let ghost mark = seq![37u8, 80u8, 68u8, 70u8, 45u8];
    let yes = bytes.len() >= 5 && bytes[0] == 37 && bytes[1] == 80 && bytes[2] == 68 && bytes[3]
        == 70 && bytes[4] == 45;
    proof {
        if bytes@.len() >= 5 {
            let head = bytes@.subrange(0, 5);
            assert(head[0] == bytes@[0] && head[1] == bytes@[1] && head[2] == bytes@[2] && head[3]
                == bytes@[3] && head[4] == bytes@[4]);
            if yes {
                assert(mark =~= head);
            } else if mark == head {
                assert(mark[0] == 37u8 && mark[1] == 80u8 && mark[2] == 68u8 && mark[3] == 70u8
                    && mark[4] == 45u8);
                assert(false);
            }
        }
    }
    yes
}

/// What is known after one more answer of a stream.
pub enum Progressed {
    /// There is more to read.
    More,
    /// The document is whole.
    Whole,
    /// The stream is no good, and why.
    Broken(Seq<char>),
}

/// What one more answer makes of a stream, with all that was collected.
pub open spec fn progressed(collected: Seq<u8>, chunk: Chunk) -> (Seq<u8>, Progressed) {
    match carried(chunk) {
        Err(detail) => (
            collected,
            Progressed::Broken("the PDF stream was not valid base64: "@ + detail),
        ),
        Ok(bytes) => {
            let all = collected + bytes;
            if chunk.eof {
                if is_pdf(all) {
                    (all, Progressed::Whole)
                } else {
                    (
                        all,
                        Progressed::Broken("the browser returned something that is not a PDF"@),
                    )
                }
            } else if chunk.data@.len() == 0 {
                (all, Progressed::Broken("the PDF stream stopped without ending"@))
            } else {
                (all, Progressed::More)
            }
        },
    }
}

/// Take one more answer of a stream. The outcome says whether the document is
/// whole. What was encoded comes out as the bytes that went in.
pub fn take_chunk(collected: &mut Vec<u8>, chunk: &Chunk) -> (outcome: Result<bool, Error>)
    ensures
        final(collected)@ == progressed(old(collected)@, *chunk).0,
        match progressed(old(collected)@, *chunk).1 {
            Progressed::More => outcome matches Ok(whole) && !whole,
            Progressed::Whole => outcome matches Ok(whole) && whole,
            Progressed::Broken(why) => outcome matches Err(Error::Malformed { detail }) && detail@
                == why,
        },
        forall|bytes: Seq<u8>|
            chunk.encoded && chunk.data@ == #[trigger] base64_text(bytes) ==> final(collected)@
                == old(collected)@ + bytes,
{
    let empty = crate::text::chars_of(&chunk.data).len() == 0;
    if chunk.encoded {
        match base64_decode(&chunk.data) {
            Ok(bytes) => {
                let mut bytes = bytes;
                collected.append(&mut bytes);
            },
            Err(words) => {
                let mut detail = "the PDF stream was not valid base64: ".to_owned();
                detail.push_str(&words);
                return Err(Error::Malformed { detail });
            },
        }
    } else {
        let bytes = chunk.data.as_str().as_bytes();
        let size: usize = bytes.len();
        let ghost before = collected@;
        let mut at: usize = 0;
        assert(collected@ =~= before + bytes@.take(0));
        while at < size
            invariant
                at <= size == bytes@.len(),
                collected@ == before + bytes@.take(at as int),
            decreases size - at,
        {
            collected.push(bytes[at]);
            at = at + 1;
            assert(collected@ =~= before + bytes@.take(at as int));
        }
        assert(bytes@.take(at as int) =~= encode_utf8(chunk.data@));
    }
    if chunk.eof {
        if starts_as_pdf(collected) {
            return Ok(true);
        }
        return Err(
            Error::Malformed {
                detail: "the browser returned something that is not a PDF".to_owned(),
            },
        );
    }
    if empty {
        return Err(
            Error::Malformed { detail: "the PDF stream stopped without ending".to_owned() },
        );
    }
    Ok(false)
}

/// What the answers of a stream come to, one after the other.
pub open spec fn streamed(collected: Seq<u8>, chunks: Seq<Chunk>) -> (Seq<u8>, Progressed)
    decreases chunks.len(),
{
    if chunks.len() == 0 {
        (collected, Progressed::More)
    } else {
        match progressed(collected, chunks[0]).1 {
            Progressed::More => streamed(progressed(collected, chunks[0]).0, chunks.skip(1)),
            _ => progressed(collected, chunks[0]),
        }
    }
}

/// What answers carry, joined.
pub open spec fn joined_chunks(chunks: Seq<Chunk>) -> Seq<u8>
    decreases chunks.len(),
{
    if chunks.len() == 0 {
        Seq::empty()
    } else {
        carried(chunks[0])->Ok_0 + joined_chunks(chunks.skip(1))
    }
}

/// Whether answers are those of a stream that ends: each can be read, only the
/// last says that it is the last, and none before it is empty.
pub open spec fn ends_well(chunks: Seq<Chunk>) -> bool {
    &&& chunks.len() > 0
    &&& forall|i: int|
        0 <= i < chunks.len() ==> {
            &&& carried(#[trigger] chunks[i]) is Ok
            &&& chunks[i].eof == (i == chunks.len() - 1)
            &&& i < chunks.len() - 1 ==> chunks[i].data@.len() > 0
        }
}

/// A document that arrives in several answers is put together whole, in their
/// order.
pub proof fn law_a_document_is_put_together(collected: Seq<u8>, chunks: Seq<Chunk>)
    requires
        ends_well(chunks),
        is_pdf(collected + joined_chunks(chunks)),
    ensures
        streamed(collected, chunks) == (collected + joined_chunks(chunks), Progressed::Whole),
    decreases chunks.len(),
{
    let first = carried(chunks[0])->Ok_0;
    if chunks.len() == 1 {
        assert(joined_chunks(chunks.skip(1)) =~= Seq::empty());
        assert(joined_chunks(chunks) =~= first);
    } else {
        let rest = chunks.skip(1);
        assert forall|i: int| 0 <= i < rest.len() implies {
            &&& carried(#[trigger] rest[i]) is Ok
            &&& rest[i].eof == (i == rest.len() - 1)
            &&& i < rest.len() - 1 ==> rest[i].data@.len() > 0
        } by {
            assert(rest[i] == chunks[i + 1]);
        }
        assert(collected + joined_chunks(chunks) =~= (collected + first) + joined_chunks(rest));
        law_a_document_is_put_together(collected + first, rest);
    }
}

/// One answer of a stream, as the browser writes it.
pub open spec fn chunk_of(answer: Seq<char>) -> (Seq<char>, bool, bool) {
    (
        match json_string_at(answer, "/data"@) {
            Some(data) => data,
            None => Seq::empty(),
        },
        json_flag_at(answer, "/base64Encoded"@) == Some(true),
        json_flag_at(answer, "/eof"@) == Some(true),
    )
}

/// Read one answer of a stream.
pub fn read_chunk(answer: &str) -> (chunk: Chunk)
    ensures
        (chunk.data@, chunk.encoded, chunk.eof) == chunk_of(answer@),
{
    let data = match text_at(answer, "/data") {
        Some(data) => data,
        None => String::new(),
    };
    let encoded = match flag_at(answer, "/base64Encoded") {
        Some(encoded) => encoded,
        None => false,
    };
    let eof = match flag_at(answer, "/eof") {
        Some(eof) => eof,
        None => false,
    };
    Chunk { data, encoded, eof }
}

/// The handle of a printed document, where the browser gave one.
pub fn stream_handle(answer: &str) -> (outcome: Result<String, Error>)
    ensures
        match json_string_at(answer@, "/stream"@) {
            Some(handle) => outcome matches Ok(given) && given@ == handle,
            None => outcome matches Err(Error::Malformed { detail }) && detail@
                == "Page.printToPDF returned no stream handle"@,
        },
{
    match text_at(answer, "/stream") {
        Some(handle) => Ok(handle),
        None => Err(
            Error::Malformed { detail: "Page.printToPDF returned no stream handle".to_owned() },
        ),
    }
}

/// The script that puts a stylesheet behind everything else in the document.
pub open spec fn sheet_script(css: Seq<char>) -> Seq<char> {
    "(() => { const sheet = document.createElement('style'); sheet.textContent = "@
        + script_string(css) + "; document.documentElement.appendChild(sheet); })()"@
}

/// The script that holds the margins of the print call: a rule at the very end
/// of the document, which a page rule of the document's own cannot outdo.
pub fn margin_script(css: &str) -> (script: String)
    ensures
        script@ == sheet_script(css@),
{
    let mut script =
        "(() => { const sheet = document.createElement('style'); sheet.textContent = ".to_owned();
    script.push_str(&js_string(css));
    script.push_str("; document.documentElement.appendChild(sheet); })()");
    script
}

/// A stream that is no PDF, that stops without ending, or that cannot be decoded is no
/// good, and says why; until then there is more to read, and what was read stays.
pub proof fn law_when_a_stream_is_no_good(collected: Seq<u8>, chunk: Chunk)
    ensures
        ({
            let bytes = if chunk.encoded {
                base64_bytes(chunk.data@)
            } else {
                Ok(encode_utf8(chunk.data@))
            };
            let after = progressed(collected, chunk);
            &&& bytes is Err ==> after == (
                collected,
                Progressed::Broken(
                    "the PDF stream was not valid base64: "@ + bytes->Err_0,
                ),
            )
            &&& bytes is Ok ==> after.0 == collected + bytes->Ok_0
            &&& bytes is Ok && chunk.eof && is_pdf(collected + bytes->Ok_0) ==> after.1 is Whole
            &&& bytes is Ok && chunk.eof && !is_pdf(collected + bytes->Ok_0) ==> after.1
                == Progressed::Broken("the browser returned something that is not a PDF"@)
            &&& bytes is Ok && !chunk.eof && chunk.data@.len() == 0 ==> after.1
                == Progressed::Broken("the PDF stream stopped without ending"@)
            &&& bytes is Ok && !chunk.eof && chunk.data@.len() > 0 ==> after.1 is More
        }),
{
}

/// A PDF begins with a percent sign, its name and a dash.
pub proof fn law_how_a_pdf_begins(bytes: Seq<u8>)
    ensures
        is_pdf(bytes) <==> bytes.len() >= 5 && bytes[0] == '%' as u8 && bytes[1] == 'P' as u8
            && bytes[2] == 'D' as u8 && bytes[3] == 'F' as u8 && bytes[4] == '-' as u8,
{
    let head = seq![37u8, 80u8, 68u8, 70u8, 45u8];
    if bytes.len() >= 5 && bytes[0] == '%' as u8 && bytes[1] == 'P' as u8 && bytes[2] == 'D' as u8
        && bytes[3] == 'F' as u8 && bytes[4] == '-' as u8 {
        assert(head =~= bytes.subrange(0, 5));
    }
    if is_pdf(bytes) {
        assert(bytes.subrange(0, 5)[0] == head[0]);
        assert(bytes.subrange(0, 5)[1] == head[1]);
        assert(bytes.subrange(0, 5)[2] == head[2]);
        assert(bytes.subrange(0, 5)[3] == head[3]);
        assert(bytes.subrange(0, 5)[4] == head[4]);
    }
}

/// An answer of a stream carries data, says whether it is encoded, and says whether it is
/// the last; what it does not say is not so.
pub proof fn law_what_an_answer_of_a_stream_says(answer: Seq<char>, css: Seq<char>)
    ensures
        json_string_at(answer, "/data"@) matches Some(data) ==> chunk_of(answer).0 == data,
        json_string_at(answer, "/data"@) is None ==> chunk_of(answer).0.len() == 0,
        chunk_of(answer).1 <==> json_flag_at(answer, "/base64Encoded"@) == Some(true),
        chunk_of(answer).2 <==> json_flag_at(answer, "/eof"@) == Some(true),
        sheet_script(css)
            == "(() => { const sheet = document.createElement('style'); sheet.textContent = "@
            + script_string(css) + "; document.documentElement.appendChild(sheet); })()"@,
{
}

} // verus!
