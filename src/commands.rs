use vstd::prelude::*;
use vstd::slice::slice_to_vec;
use vstd::utf8::*;
use crate::args::{DecodeArgs, EncodeArgs, RemoveArgs};
use crate::chunk::{chunk_crc, Chunk, ChunkView};
use crate::chunk_type::{parse_type_text, ChunkType};
use crate::error::PngError;
use crate::png::{index_of_kind, parse_png, png_bytes, Png};

verus! {

/// The chunk that hides `message` under type `kind`.
pub open spec fn message_chunk(kind: Seq<u8>, message: Seq<u8>) -> ChunkView {
    ChunkView { kind, data: message, crc: chunk_crc(kind, message) }
}

/// The file `file` with a chunk of type `args.chunk_type` holding the UTF-8
/// bytes of `args.message` appended.
pub fn encode(args: &EncodeArgs, file: &[u8]) -> (r: Result<Vec<u8>, PngError>)
    requires
        encode_utf8(args.message@).len() <= u32::MAX,
    ensures
        parse_png(file@) is Err ==> r == Err::<Vec<u8>, PngError>(parse_png(file@)->Err_0),
        parse_png(file@) is Ok && parse_type_text(args.chunk_type@) is None ==> r == Err::<
            Vec<u8>,
            PngError,
        >(PngError::InvalidChunkType),
        parse_png(file@) is Ok && parse_type_text(args.chunk_type@) is Some ==> r is Ok
            && r->Ok_0@ == png_bytes(
            parse_png(file@)->Ok_0.push(
                message_chunk(
                    parse_type_text(args.chunk_type@)->Some_0,
                    encode_utf8(args.message@),
                ),
            ),
        ),
{
    let mut png = match Png::try_from(file) {
        Ok(p) => p,
        Err(e) => return Err(e),
    };
    let kind = match ChunkType::from_str(args.chunk_type.as_str()) {
        Ok(k) => k,
        Err(e) => return Err(e),
    };
    let data = slice_to_vec(args.message.as_str().as_bytes());
    let chunk = Chunk::new(kind, data);
    png.append_chunk(chunk);
    Ok(png.as_bytes())
}

/// The payload, as text, of the first chunk of type `args.chunk_type` in
/// `file`; `None` when no chunk has that type.
pub fn decode(args: &DecodeArgs, file: &[u8]) -> (r: Result<Option<String>, PngError>)
    ensures
        parse_png(file@) is Err ==> r == Err::<Option<String>, PngError>(parse_png(file@)->Err_0),
        parse_png(file@) is Ok && parse_type_text(args.chunk_type@) is None ==> r == Err::<
            Option<String>,
            PngError,
        >(PngError::InvalidChunkType),
        parse_png(file@) is Ok && parse_type_text(args.chunk_type@) is Some ==> ({
            let cs = parse_png(file@)->Ok_0;
            let found = index_of_kind(cs, parse_type_text(args.chunk_type@)->Some_0);
            &&& found is None ==> r is Ok && r->Ok_0 is None
            &&& found is Some && valid_utf8(cs[found->Some_0].data) ==> r is Ok && r->Ok_0 is Some
                && r->Ok_0->Some_0@ == decode_utf8(cs[found->Some_0].data)
            &&& found is Some && !valid_utf8(cs[found->Some_0].data) ==> r == Err::<
                Option<String>,
                PngError,
            >(PngError::InvalidUtf8)
        }),
{
    let png = match Png::try_from(file) {
        Ok(p) => p,
        Err(e) => return Err(e),
    };
    if ChunkType::from_str(args.chunk_type.as_str()).is_err() {
        return Err(PngError::InvalidChunkType);
    }
    match png.chunk_by_type(args.chunk_type.as_str()) {
        Some(chunk) => match chunk.data_as_string() {
            Ok(s) => Ok(Some(s)),
            Err(e) => Err(e),
        },
        None => Ok(None),
    }
}

/// The file `file` without its first chunk of type `args.chunk_type`.
pub fn remove(args: &RemoveArgs, file: &[u8]) -> (r: Result<Vec<u8>, PngError>)
    ensures
        parse_png(file@) is Err ==> r == Err::<Vec<u8>, PngError>(parse_png(file@)->Err_0),
        parse_png(file@) is Ok && parse_type_text(args.chunk_type@) is None ==> r == Err::<
            Vec<u8>,
            PngError,
        >(PngError::InvalidChunkType),
        parse_png(file@) is Ok && parse_type_text(args.chunk_type@) is Some ==> ({
            let cs = parse_png(file@)->Ok_0;
            let found = index_of_kind(cs, parse_type_text(args.chunk_type@)->Some_0);
            &&& found is None ==> r == Err::<Vec<u8>, PngError>(PngError::ChunkNotFound)
            &&& found is Some ==> r is Ok && r->Ok_0@ == png_bytes(cs.remove(found->Some_0))
        }),
{
    let mut png = match Png::try_from(file) {
        Ok(p) => p,
        Err(e) => return Err(e),
    };
    match png.remove_first_chunk(args.chunk_type.as_str()) {
        Ok(_) => Ok(png.as_bytes()),
        Err(e) => Err(e),
    }
}

/// Whether every chunk's payload is valid UTF-8.
pub open spec fn all_utf8(cs: Seq<ChunkView>) -> bool {
    forall|i: int| 0 <= i < cs.len() ==> valid_utf8(#[trigger] cs[i].data)
}

/// The payload of every chunk of `file` as text, in order.
pub fn print(file: &[u8]) -> (r: Result<Vec<String>, PngError>)
    ensures
        parse_png(file@) is Err ==> r == Err::<Vec<String>, PngError>(parse_png(file@)->Err_0),
        parse_png(file@) is Ok ==> ({
            let cs = parse_png(file@)->Ok_0;
            &&& r is Ok <==> all_utf8(cs)
            &&& r is Ok ==> r->Ok_0@.len() == cs.len() && forall|i: int|
                0 <= i < cs.len() ==> (#[trigger] r->Ok_0@[i])@ == decode_utf8(cs[i].data)
            &&& r is Err ==> r->Err_0 == PngError::InvalidUtf8
        }),
{
    let png = match Png::try_from(file) {
        Ok(p) => p,
        Err(e) => return Err(e),
    };
    let chunks = png.chunks();
    let ghost cs = png@;
    let mut out: Vec<String> = Vec::new();
    let mut i: usize = 0;
    while i < chunks.len()
        invariant
            0 <= i <= chunks@.len(),
            chunks@.map_values(|c: Chunk| c@) == cs,
            parse_png(file@) == Ok::<Seq<ChunkView>, PngError>(cs),
            out@.len() == i,
            forall|j: int| 0 <= j < i ==> valid_utf8(#[trigger] cs[j].data),
            forall|j: int| 0 <= j < i ==> (#[trigger] out@[j])@ == decode_utf8(cs[j].data),
        decreases chunks@.len() - i,
    {
        assert(cs[i as int] == chunks@[i as int]@);
        match chunks[i].data_as_string() {
            Ok(s) => out.push(s),
            Err(e) => {
                assert(cs.len() == chunks@.len());
                assert(!valid_utf8(cs[i as int].data));
                return Err(e);
            },
        }
        i = i + 1;
    }
    Ok(out)
}

} // verus!
