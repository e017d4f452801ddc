//! The mathematical model of the document encoding.
//!
//! A document is a 4-byte little-endian length header, zero or more elements,
//! and a terminating zero byte. An element is a one-byte type tag, a
//! null-terminated name, and a value whose byte length is either fixed by the
//! tag or self-declared by a length prefix. The functions here define, over a
//! byte sequence, exactly which size table and total size a traversal yields,
//! or which fault it stops on.

use vstd::prelude::*;
use vstd::utf8::valid_utf8;
use vstd::utf8::decode_utf8;

verus! {

/// A structural field path: the sequence of field names from the synthetic
/// root identifier down to a field.
pub type PathModel = Seq<Seq<char>>;

/// The entries of a size table, in the order the traversal records them:
/// each is a field path together with the byte count of that field's whole
/// representation.
pub type EntriesModel = Seq<(PathModel, int)>;

/// A condition on which the traversal stops without producing a size table.
pub enum Fault {
    /// The buffer is shorter than a decode rule requires.
    TruncatedInput,
    /// A name or string value is not valid UTF-8.
    Encoding,
    /// A type tag outside the recognized set.
    UnknownType,
    /// A recognized type tag whose encoding is not computed.
    Unsupported,
    /// A document's declared length header disagrees with the sum of its
    /// decoded contents.
    SizeMismatch { path: PathModel, declared: int, computed: int },
}

/// The value of the four little-endian bytes at `off`.
pub open spec fn le32(b: Seq<u8>, off: int) -> int {
    b[off] + 0x100 * b[off + 1] + 0x10000 * b[off + 2] + 0x1000000 * b[off + 3]
}

/// How many bytes lie at or after `i` before the first zero byte; when no
/// zero byte follows, the count runs to the end of the buffer.
pub open spec fn dist_to_zero(b: Seq<u8>, i: int) -> nat
    decreases b.len() - i,
{
    if i < 0 || i >= b.len() {
        0
    } else if b[i] == 0 {
        0
    } else {
        1 + dist_to_zero(b, i + 1)
    }
}

/// Reading a null-terminated name whose first byte sits one past `off` (the
/// byte at `off` itself is the already-consumed type tag): the decoded name
/// and its byte length, exclusive of tag and terminator.
pub open spec fn cstr_model(b: Seq<u8>, off: int) -> Result<(Seq<char>, nat), Fault> {
    let d = dist_to_zero(b, off + 1);
    if off + 1 + d >= b.len() {
        Err(Fault::TruncatedInput)
    } else if !valid_utf8(b.subrange(off + 1, off + 1 + d)) {
        Err(Fault::Encoding)
    } else {
        Ok((decode_utf8(b.subrange(off + 1, off + 1 + d)), d))
    }
}

/// Reading a length-prefixed string at `off`: a 4-byte little-endian signed
/// count `l` (which includes the mandatory trailing zero byte), then `l - 1`
/// bytes of UTF-8 text, then one zero byte. Yields the decoded text and the
/// total bytes consumed, `4 + l`.
pub open spec fn lpstr_model(b: Seq<u8>, off: int) -> Result<(Seq<char>, nat), Fault> {
    if off + 4 > b.len() {
        Err(Fault::TruncatedInput)
    } else {
        let l = le32(b, off);
        if l < 1 || l > 0x7fffffff {
            Err(Fault::TruncatedInput)
        } else if off + 4 + l > b.len() {
            Err(Fault::TruncatedInput)
        } else if !valid_utf8(b.subrange(off + 4, off + 4 + l - 1)) {
            Err(Fault::Encoding)
        } else {
            Ok((decode_utf8(b.subrange(off + 4, off + 4 + l - 1)), (4 + l) as nat))
        }
    }
}

/// The byte length a value must lie within the buffer to claim.
pub open spec fn fixed_len(b: Seq<u8>, off: int, n: nat) -> Result<nat, Fault> {
    if off + n > b.len() {
        Err(Fault::TruncatedInput)
    } else {
        Ok(n)
    }
}

/// The encoded byte length of the value of an element whose tag is not an
/// embedded document or array, for a value starting at `off`.
pub open spec fn value_len_model(b: Seq<u8>, off: int, tag: u8) -> Result<nat, Fault> {
    if tag == 0x01 || tag == 0x11 || tag == 0x12 {
        // double, timestamp, 64-bit int
        fixed_len(b, off, 8)
    } else if tag == 0x10 {
        // 32-bit int
        fixed_len(b, off, 4)
    } else if tag == 0x09 {
        // UTC datetime, sized as the dispatch table has it
        fixed_len(b, off, 4)
    } else if tag == 0x08 {
        // boolean
        fixed_len(b, off, 1)
    } else if tag == 0x06 || tag == 0x0a {
        // undefined, null
        fixed_len(b, off, 0)
    } else if tag == 0x07 {
        // object id
        fixed_len(b, off, 12)
    } else if tag == 0x13 {
        // 128-bit decimal
        fixed_len(b, off, 16)
    } else if tag == 0x02 || tag == 0x0d || tag == 0x0e {
        // string, code, symbol
        match lpstr_model(b, off) {
            Err(f) => Err(f),
            Ok((text, consumed)) => Ok(consumed),
        }
    } else if tag == 0x0c {
        // reference: a length-prefixed string, then a 12-byte object id
        match lpstr_model(b, off) {
            Err(f) => Err(f),
            Ok((text, consumed)) => {
                if off + consumed + 12 > b.len() {
                    Err(Fault::TruncatedInput)
                } else {
                    Ok(consumed + 12)
                }
            },
        }
    } else if tag == 0x05 {
        // binary: a 4-byte length header, a subtype byte, then the declared
        // number of bytes
        if off + 4 > b.len() {
            Err(Fault::TruncatedInput)
        } else {
            let l = le32(b, off);
            if off + 4 + l + 1 > b.len() {
                Err(Fault::TruncatedInput)
            } else {
                Ok((5 + l) as nat)
            }
        }
    } else if tag == 0x0b {
        // regex: two consecutive null-terminated strings
        let d1 = dist_to_zero(b, off);
        if off + d1 >= b.len() {
            Err(Fault::TruncatedInput)
        } else if !valid_utf8(b.subrange(off, off + d1)) {
            Err(Fault::Encoding)
        } else {
            let o2 = off + d1 + 1;
            let d2 = dist_to_zero(b, o2);
            if o2 + d2 >= b.len() {
                Err(Fault::TruncatedInput)
            } else if !valid_utf8(b.subrange(o2, o2 + d2)) {
                Err(Fault::Encoding)
            } else {
                Ok(d1 + d2 + 2)
            }
        }
    } else if tag == 0x0f {
        // code with scope: recognized but not computed
        Err(Fault::Unsupported)
    } else {
        Err(Fault::UnknownType)
    }
}

/// One element at `off` under `path`: a one-byte type tag, a null-terminated
/// name, and a value. Yields the size table entries of the element and of
/// everything nested inside it, the element's total encoded size, and the
/// number of fields it contributes at every nesting depth. The element's own
/// entry is recorded last, under the path extended with its name.
pub open spec fn elem_model(b: Seq<u8>, off: int, path: PathModel) -> Result<
    (EntriesModel, nat, nat),
    Fault,
>
    decreases b.len() - off, 1int,
{
    if off < 0 || off >= b.len() {
        Err(Fault::TruncatedInput)
    } else {
        match cstr_model(b, off) {
            Err(f) => Err(f),
            Ok((name, name_len)) => {
                let tag = b[off];
                let epath = path.push(name);
                let voff = off + 2 + name_len;
                if tag == 0x03 || tag == 0x04 {
                    // embedded document, array
                    match doc_model(b, voff, epath) {
                        Err(f) => Err(f),
                        Ok((sub, dsz, dcnt)) => Ok(
                            (
                                sub.push((epath, (2 + name_len + dsz) as int)),
                                2 + name_len + dsz,
                                1 + dcnt,
                            ),
                        ),
                    }
                } else {
                    match value_len_model(b, voff, tag) {
                        Err(f) => Err(f),
                        Ok(vlen) => Ok(
                            (
                                seq![(epath, (2 + name_len + vlen) as int)],
                                2 + name_len + vlen,
                                1nat,
                            ),
                        ),
                    }
                }
            },
        }
    }
}

/// The run of elements starting at `off`, up to but not including the
/// document's terminating zero byte: their combined entries, the sum of their
/// sizes, and the total count of fields at every nesting depth.
pub open spec fn elems_model(b: Seq<u8>, off: int, path: PathModel) -> Result<
    (EntriesModel, nat, nat),
    Fault,
>
    decreases b.len() - off, 3int,
{
    if off < 0 || off >= b.len() {
        Err(Fault::TruncatedInput)
    } else if b[off] == 0 {
        Ok((Seq::empty(), 0nat, 0nat))
    } else {
        match elem_model(b, off, path) {
            Err(f) => Err(f),
            Ok((es, sz, cnt)) => {
                if sz == 0 || off + sz > b.len() {
                    // vacuous: a parsed element spans at least two bytes and
                    // lies within the buffer
                    Err(Fault::TruncatedInput)
                } else {
                    match elems_model(b, off + sz, path) {
                        Err(f) => Err(f),
                        Ok((es2, sz2, cnt2)) => Ok((es + es2, sz + sz2, cnt + cnt2)),
                    }
                }
            },
        }
    }
}

/// One document node at `off` under `path`: a 4-byte little-endian length
/// header, the elements, and the terminator. The computed total,
/// 4 + the sum of the element sizes + 1, must equal the declared header;
/// otherwise the traversal stops with a size mismatch naming the path.
pub open spec fn doc_model(b: Seq<u8>, off: int, path: PathModel) -> Result<
    (EntriesModel, nat, nat),
    Fault,
>
    decreases b.len() - off, 2int,
{
    if off < 0 || off + 4 > b.len() {
        Err(Fault::TruncatedInput)
    } else {
        let declared = le32(b, off);
        match elems_model(b, off + 4, path) {
            Err(f) => Err(f),
            Ok((es, esz, cnt)) => {
                let total = 5 + esz;
                if declared == total {
                    Ok((es, total, cnt))
                } else {
                    Err(Fault::SizeMismatch { path, declared, computed: total as int })
                }
            },
        }
    }
}

/// A parsed element lies within the buffer, spans at least its tag byte and
/// its name terminator, and contributes exactly one size table entry for
/// each field it holds at every nesting depth.
pub proof fn lemma_elem_fit(b: Seq<u8>, off: int, path: PathModel)
    ensures
        elem_model(b, off, path) matches Ok((es, sz, cnt)) ==> {
            &&& 2 <= sz
            &&& off + sz <= b.len()
            &&& es.len() == cnt
            &&& 1 <= cnt
        },
    decreases b.len() - off, 1int,
{
    if 0 <= off < b.len() {
        match cstr_model(b, off) {
            Err(f) => {},
            Ok((name, name_len)) => {
                let tag = b[off];
                let epath = path.push(name);
                let voff = off + 2 + name_len;
                if tag == 0x03 || tag == 0x04 {
                    lemma_doc_fit(b, voff, epath);
                }
            },
        }
    }
}

/// A parsed run of elements ends exactly at the document's terminating zero
/// byte, and its entries are one per field at every nesting depth.
pub proof fn lemma_elems_fit(b: Seq<u8>, off: int, path: PathModel)
    ensures
        elems_model(b, off, path) matches Ok((es, sz, cnt)) ==> {
            &&& off + sz < b.len()
            &&& b[off + sz] == 0
            &&& es.len() == cnt
        },
    decreases b.len() - off, 3int,
{
    if 0 <= off < b.len() && b[off] != 0 {
        match elem_model(b, off, path) {
            Err(f) => {},
            Ok((es, sz, cnt)) => {
                lemma_elem_fit(b, off, path);
                if sz != 0 && off + sz <= b.len() {
                    lemma_elems_fit(b, off + sz, path);
                }
            },
        }
    }
}

/// A parsed document node lies within the buffer, spans at least the five
/// bytes of header and terminator, reports exactly its declared length
/// header as its size, and holds one entry per field at every nesting depth.
pub proof fn lemma_doc_fit(b: Seq<u8>, off: int, path: PathModel)
    ensures
        doc_model(b, off, path) matches Ok((es, sz, cnt)) ==> {
            &&& 5 <= sz
            &&& off + sz <= b.len()
            &&& es.len() == cnt
            &&& sz as int == le32(b, off)
        },
    decreases b.len() - off, 2int,
{
    if 0 <= off && off + 4 <= b.len() {
        lemma_elems_fit(b, off + 4, path);
    }
}

/// The synthetic single-element root path.
pub open spec fn root_path() -> PathModel {
    seq!["root"@]
}

/// The whole traversal: the document at offset 0 under the root path, with
/// the root's own entry recorded last.
pub open spec fn bson_model(b: Seq<u8>) -> Result<(EntriesModel, nat, nat), Fault> {
    match doc_model(b, 0, root_path()) {
        Err(f) => Err(f),
        Ok((es, sz, cnt)) => Ok((es.push((root_path(), sz as int)), sz, cnt)),
    }
}

} // verus!
