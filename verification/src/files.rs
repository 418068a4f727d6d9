//! A model of files: what each holds, by its path.

use vstd::prelude::*;
use vstd::utf8::*;

use crate::bytes;

verus! {

/// The files once some texts were written to paths, one after the other.
pub open spec fn written(files: Map<Seq<char>, Seq<u8>>, writes: Seq<(Seq<char>, Seq<char>)>) -> Map<
    Seq<char>,
    Seq<u8>,
>
    decreases writes.len(),
{
    if writes.len() == 0 {
        files
    } else {
        written(files, writes.drop_last()).insert(writes.last().0, encode_utf8(writes.last().1))
    }
}

/// The file at the path holds text, if there is one.
pub open spec fn readable(files: Map<Seq<char>, Seq<u8>>, path: Seq<char>) -> bool {
    files.dom().contains(path) ==> valid_utf8(files[path])
}

/// The text in the file at the path, if there is one.
pub open spec fn text_at(files: Map<Seq<char>, Seq<u8>>, path: Seq<char>) -> Option<Seq<char>> {
    if files.dom().contains(path) {
        Some(decode_utf8(files[path]))
    } else {
        None
    }
}

/// What was written is read back.
pub proof fn lemma_written_text(files: Map<Seq<char>, Seq<u8>>, path: Seq<char>, body: Seq<char>)
    ensures
        readable(files.insert(path, encode_utf8(body)), path),
        text_at(files.insert(path, encode_utf8(body)), path) == Some(body),
{
    encode_utf8_valid_utf8(body);
    bytes::lemma_text_of_encoded(body);
}

} // verus!
