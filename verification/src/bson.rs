//! The traversal itself: resolvers that walk one encoded document and build
//! its size table, verified against the model of the encoding.

use vstd::prelude::*;
use vstd::slice::slice_subrange;
use vstd::utf8::valid_utf8;
use vstd::utf8::decode_utf8;
use crate::model::EntriesModel;
use crate::model::Fault;
use crate::model::PathModel;
use crate::model::bson_model;
use crate::model::cstr_model;
use crate::model::dist_to_zero;
use crate::model::doc_model;
use crate::model::elem_model;
use crate::model::elems_model;
use crate::model::le32;
use crate::model::lpstr_model;
use crate::model::root_path;
use crate::model::lemma_elem_fit;
use crate::model::lemma_doc_fit;
use crate::table::SizeTable;

verus! {

/// A condition on which the traversal stops; the whole traversal aborts and
/// no partial size table is returned beside it.
pub enum SizeError {
    /// The buffer is shorter than a decode rule requires.
    TruncatedInput,
    /// A name or string value is not valid UTF-8.
    Encoding,
    /// A type tag outside the recognized set.
    UnknownType,
    /// A recognized type tag whose encoding is not computed.
    Unsupported,
    /// A document's declared length header disagrees with the sum of its
    /// decoded contents.
    SizeMismatch { path: Vec<String>, declared: usize, computed: usize },
}

impl View for SizeError {
    type V = Fault;

    open spec fn view(&self) -> Fault {
        match self {
            SizeError::TruncatedInput => Fault::TruncatedInput,
            SizeError::Encoding => Fault::Encoding,
            SizeError::UnknownType => Fault::UnknownType,
            SizeError::Unsupported => Fault::Unsupported,
            SizeError::SizeMismatch { path, declared, computed } => Fault::SizeMismatch {
                path: path.deep_view(),
                declared: *declared as int,
                computed: *computed as int,
            },
        }
    }
}

/// Relies on str::from_utf8: it succeeds exactly when the bytes are valid
/// UTF-8, and then returns the text those bytes encode.
#[verifier::external_body]
fn bytes_to_text(bytes: &[u8]) -> (r: Option<&str>)
    ensures
        r is Some <==> valid_utf8(bytes@),
        r matches Some(s) ==> s@ == decode_utf8(bytes@),
{
    match core::str::from_utf8(bytes) {
        Ok(s) => Some(s),
        Err(_) => None,
    }
}

/// The position of the first zero byte at or after `start`, or the buffer
/// length when none follows.
fn find_zero(bytes: &[u8], start: usize) -> (z: usize)
    requires
        start <= bytes@.len(),
    ensures
        z as int == start + dist_to_zero(bytes@, start as int),
        start <= z <= bytes@.len(),
        z < bytes@.len() ==> bytes@[z as int] == 0,
{
    let mut j: usize = start;
    while j < bytes.len() && bytes[j] != 0
        invariant
            start <= j <= bytes@.len(),
            dist_to_zero(bytes@, start as int) == (j - start) + dist_to_zero(bytes@, j as int),
        decreases bytes@.len() - j,
    {
        j = j + 1;
    }
    j
}

/// The value of the four little-endian bytes at `off`.
fn read_u32_le(bytes: &[u8], off: usize) -> (r: u32)
    requires
        off + 4 <= bytes@.len(),
    ensures
        r as int == le32(bytes@, off as int),
{
    let b0 = bytes[off] as u32;
    let b1 = bytes[off + 1] as u32;
    let b2 = bytes[off + 2] as u32;
    let b3 = bytes[off + 3] as u32;
    b0 + 0x100 * b1 + 0x10000 * b2 + 0x1000000 * b3
}

/// The Name Reader: `off` is the byte position immediately preceding a
/// null-terminated name (the byte at `off` is the type tag the caller has
/// already consumed). Returns the decoded name and its byte length,
/// exclusive of tag and terminator.
pub fn get_cstring(bytes: &[u8], off: usize) -> (r: Result<(String, usize), SizeError>)
    requires
        off < bytes@.len(),
    ensures
        match cstr_model(bytes@, off as int) {
            Ok(p) => r matches Ok(q) && q.0@ == p.0 && q.1 as nat == p.1,
            Err(f) => r matches Err(e) && e@ == f,
        },
{
    let n_bytes: usize = bytes.len();
    let z = find_zero(bytes, off + 1);
    if z >= n_bytes {
        return Err(SizeError::TruncatedInput);
    }
    let name_bytes = slice_subrange(bytes, off + 1, z);
    match bytes_to_text(name_bytes) {
        None => Err(SizeError::Encoding),
        Some(s) => Ok((s.to_owned(), z - (off + 1))),
    }
}

/// The Length-Prefixed String Reader: at `off` sit a 4-byte little-endian
/// signed count (which includes the mandatory trailing zero byte), the text,
/// and the zero byte. Returns the decoded text and the total bytes consumed.
fn get_string(bytes: &[u8], off: usize) -> (r: Result<(String, usize), SizeError>)
    requires
        off <= bytes@.len(),
    ensures
        match lpstr_model(bytes@, off as int) {
            Ok(p) => r matches Ok(q) && q.0@ == p.0 && q.1 as nat == p.1,
            Err(f) => r matches Err(e) && e@ == f,
        },
{
    if bytes.len() - off < 4 {
        return Err(SizeError::TruncatedInput);
    }
    let l32 = read_u32_le(bytes, off);
    if l32 < 1 || l32 > 0x7fffffff {
        return Err(SizeError::TruncatedInput);
    }
    let l: usize = l32 as usize;
    if bytes.len() - (off + 4) < l {
        return Err(SizeError::TruncatedInput);
    }
    let text_bytes = slice_subrange(bytes, off + 4, off + 4 + l - 1);
    match bytes_to_text(text_bytes) {
        None => Err(SizeError::Encoding),
        Some(s) => Ok((s.to_owned(), 4 + l)),
    }
}

/// A copy of a path, name for name.
fn clone_path(path: &Vec<String>) -> (r: Vec<String>)
    ensures
        r@ == path@,
        r.deep_view() == path.deep_view(),
{
    let mut r: Vec<String> = Vec::new();
    let mut i: usize = 0;
    while i < path.len()
        invariant
            i <= path@.len(),
            r@ == path@.take(i as int),
        decreases path@.len() - i,
    {
        let s = path[i].clone();
        r.push(s);
        proof {
            assert(path@.take(i + 1) =~= path@.take(i as int).push(path@[i as int]));
        }
        i = i + 1;
    }
    proof {
        assert(path@.take(path@.len() as int) =~= path@);
        assert(r.deep_view() =~= path.deep_view());
    }
    r
}

/// The Element Size Resolver: one element sits at `off` under `path` — a
/// one-byte type tag, a null-terminated name, and a value. Appends to the
/// table one entry for the element and one for every field nested inside
/// it, and returns the element's total encoded size.
fn element_size(bytes: &[u8], off: usize, path: &Vec<String>, table: &mut SizeTable) -> (r: Result<
    usize,
    SizeError,
>)
    requires
        off < bytes@.len(),
    ensures
        match elem_model(bytes@, off as int, path.deep_view()) {
            Ok(p) => r matches Ok(n) && (n as nat == p.1 && final(table)@ == old(table)@ + p.0),
            Err(f) => r matches Err(e) && e@ == f,
        },
    decreases bytes@.len() - off, 1int,
{
    let ghost pv = path.deep_view();
    let n_bytes: usize = bytes.len();
    let tag = bytes[off];
    let (name, name_len) = match get_cstring(bytes, off) {
        Ok(q) => q,
        Err(e) => {
            return Err(e);
        },
    };
    let ghost nm = name@;
    proof {
        assert(off + 1 + name_len < bytes@.len());
    }
    let voff: usize = off + 2 + name_len;
    let mut epath = clone_path(path);
    epath.push(name);
    proof {
        assert forall|k: int| 0 <= k < pv.len() implies epath.deep_view()[k] == pv[k] by {
            assert(epath@[k] == path@[k]);
        }
        assert(epath.deep_view() =~= pv.push(nm));
    }
    let vlen: usize = match tag {
        0x01 | 0x11 | 0x12 => {
            if n_bytes - voff < 8 {
                return Err(SizeError::TruncatedInput);
            }
            8
        },
        0x10 | 0x09 => {
            if n_bytes - voff < 4 {
                return Err(SizeError::TruncatedInput);
            }
            4
        },
        0x08 => {
            if n_bytes - voff < 1 {
                return Err(SizeError::TruncatedInput);
            }
            1
        },
        0x06 | 0x0a => { 0 },
        0x07 => {
            if n_bytes - voff < 12 {
                return Err(SizeError::TruncatedInput);
            }
            12
        },
        0x13 => {
            if n_bytes - voff < 16 {
                return Err(SizeError::TruncatedInput);
            }
            16
        },
        0x02 | 0x0d | 0x0e => {
            match get_string(bytes, voff) {
                Ok(q) => q.1,
                Err(e) => {
                    return Err(e);
                },
            }
        },
        0x0c => {
            let consumed: usize = match get_string(bytes, voff) {
                Ok(q) => q.1,
                Err(e) => {
                    return Err(e);
                },
            };
            proof {
                assert(voff + consumed <= bytes@.len());
            }
            if n_bytes - (voff + consumed) < 12 {
                return Err(SizeError::TruncatedInput);
            }
            consumed + 12
        },
        0x05 => {
            if n_bytes - voff < 5 {
                return Err(SizeError::TruncatedInput);
            }
            let l = read_u32_le(bytes, voff);
            if (l as usize) > n_bytes - voff - 5 {
                return Err(SizeError::TruncatedInput);
            }
            5 + (l as usize)
        },
        0x0b => {
            let z1 = find_zero(bytes, voff);
            if z1 >= n_bytes {
                return Err(SizeError::TruncatedInput);
            }
            let pat = slice_subrange(bytes, voff, z1);
            if bytes_to_text(pat).is_none() {
                return Err(SizeError::Encoding);
            }
            let o2: usize = z1 + 1;
            let z2 = find_zero(bytes, o2);
            if z2 >= n_bytes {
                return Err(SizeError::TruncatedInput);
            }
            let opts = slice_subrange(bytes, o2, z2);
            if bytes_to_text(opts).is_none() {
                return Err(SizeError::Encoding);
            }
            (z1 - voff) + (z2 - o2) + 2
        },
        0x0f => {
            return Err(SizeError::Unsupported);
        },
        0x03 | 0x04 => {
            match document_size(bytes, voff, &epath, table) {
                Ok(n) => {
                    proof {
                        lemma_doc_fit(bytes@, voff as int, epath.deep_view());
                    }
                    n
                },
                Err(e) => {
                    return Err(e);
                },
            }
        },
        _ => {
            return Err(SizeError::UnknownType);
        },
    };
    proof {
        assert(voff + vlen <= bytes@.len());
    }
    let total: usize = 2 + name_len + vlen;
    table.push_entry(epath, total);
    proof {
        match elem_model(bytes@, off as int, pv) {
            Ok(p) => {
                assert(table@ =~= old(table)@ + p.0);
            },
            Err(f) => {},
        }
    }
    Ok(total)
}

/// The Document Size Resolver: a document node sits at `off` under `path` —
/// a 4-byte little-endian length header, elements, and a terminating zero
/// byte. Appends to the table one entry per field at every depth, verifies
/// the computed total against the declared header, and returns the total.
fn document_size(bytes: &[u8], off: usize, path: &Vec<String>, table: &mut SizeTable) -> (r: Result<
    usize,
    SizeError,
>)
    requires
        off <= bytes@.len(),
    ensures
        match doc_model(bytes@, off as int, path.deep_view()) {
            Ok(p) => r matches Ok(n) && (n as nat == p.1 && final(table)@ == old(table)@ + p.0),
            Err(f) => r matches Err(e) && e@ == f,
        },
    decreases bytes@.len() - off, 2int,
{
    let ghost pv = path.deep_view();
    if bytes.len() - off < 4 {
        return Err(SizeError::TruncatedInput);
    }
    let declared = read_u32_le(bytes, off);
    let mut i: usize = off + 4;
    let ghost table0 = table@;
    let ghost mut acc: EntriesModel = Seq::empty();
    while i < bytes.len() && bytes[i] != 0
        invariant
            off + 4 <= i <= bytes@.len(),
            pv == path.deep_view(),
            table@ == table0 + acc,
            elems_model(bytes@, off as int + 4, pv) == (match elems_model(
                bytes@,
                i as int,
                pv,
            ) {
                Ok(q) => Ok::<(EntriesModel, nat, nat), Fault>(
                    (acc + q.0, ((i - off - 4) + q.1) as nat, (acc.len() + q.2) as nat),
                ),
                Err(f) => Err::<(EntriesModel, nat, nat), Fault>(f),
            }),
        decreases bytes@.len() - i,
    {
        match element_size(bytes, i, path, table) {
            Ok(n) => {
                proof {
                    lemma_elem_fit(bytes@, i as int, pv);
                    let p = elem_model(bytes@, i as int, pv)->Ok_0;
                    match elems_model(bytes@, i as int + p.1, pv) {
                        Ok(q) => {
                            assert((acc + p.0) + q.0 =~= acc + (p.0 + q.0));
                        },
                        Err(f) => {},
                    }
                    assert((table0 + acc) + p.0 =~= table0 + (acc + p.0));
                    acc = acc + p.0;
                }
                i = i + n;
            },
            Err(e) => {
                return Err(e);
            },
        }
    }
    if i >= bytes.len() {
        return Err(SizeError::TruncatedInput);
    }
    proof {
        assert(acc + Seq::<(PathModel, int)>::empty() =~= acc);
    }
    let total: usize = i + 1 - off;
    if declared as usize != total {
        let mismatch_path = clone_path(path);
        return Err(
            SizeError::SizeMismatch {
                path: mismatch_path,
                declared: declared as usize,
                computed: total,
            },
        );
    }
    Ok(total)
}

/// What the entry point's result denotes: the recorded entries, or the fault.
pub open spec fn result_model(r: &Result<SizeTable, SizeError>) -> Result<EntriesModel, Fault> {
    match r {
        Ok(t) => Ok(t@),
        Err(e) => Err(e@),
    }
}

/// What the entry point promises of its result for a given buffer: exactly
/// the entries of a well-formed document's traversal, or exactly the fault
/// the traversal of a malformed one stops on.
pub open spec fn bson_size_post(b: Seq<u8>, rm: Result<EntriesModel, Fault>) -> bool {
    match bson_model(b) {
        Ok(p) => rm == Ok::<EntriesModel, Fault>(p.0),
        Err(f) => rm == Err::<EntriesModel, Fault>(f),
    }
}

/// The Entry Point: walks the document at offset 0 under the synthetic root
/// path and returns the completed size table, whose last entry binds the
/// root path to the document's total size.
pub fn bson_size(bytes: &[u8]) -> (r: Result<SizeTable, SizeError>)
    ensures
        bson_size_post(bytes@, result_model(&r)),
{
    let mut table = SizeTable::new();
    let mut root: Vec<String> = Vec::new();
    root.push("root".to_owned());
    proof {
        assert(root.deep_view() =~= root_path());
    }
    match document_size(bytes, 0, &root, &mut table) {
        Ok(n) => {
            let ghost des = doc_model(bytes@, 0, root_path())->Ok_0.0;
            table.push_entry(root, n);
            proof {
                assert(Seq::<(PathModel, int)>::empty() + des =~= des);
            }
            Ok(table)
        },
        Err(e) => Err(e),
    }
}

/// Law: the entry point is a pure function of the buffer — two invocations
/// on the same buffer yield identical size tables, or identical faults.
pub proof fn lemma_entry_point_deterministic(
    b: Seq<u8>,
    r1: Result<EntriesModel, Fault>,
    r2: Result<EntriesModel, Fault>,
)
    requires
        bson_size_post(b, r1),
        bson_size_post(b, r2),
    ensures
        r1 == r2,
{
}

} // verus!
