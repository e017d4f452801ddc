//! Laws of the size table that a traversal of a well-formed buffer builds.

use vstd::prelude::*;
use crate::model::EntriesModel;
use crate::model::PathModel;
use crate::model::bson_model;
use crate::model::cstr_model;
use crate::model::doc_model;
use crate::model::elem_model;
use crate::model::elems_model;
use crate::model::le32;
use crate::model::root_path;
use crate::model::lemma_doc_fit;
use crate::model::lemma_elem_fit;
use crate::table::table_model;

verus! {

/// Law: a well-formed document node's computed size equals its declared
/// length header, and equals 4 (the length header) plus the sum of its
/// direct elements' sizes plus 1 (the terminator byte).
pub proof fn lemma_document_size_consistent(b: Seq<u8>, off: int, path: PathModel)
    ensures
        doc_model(b, off, path) matches Ok(p) ==> p.1 as int == le32(b, off),
        doc_model(b, off, path) matches Ok(p) ==> (elems_model(b, off + 4, path) matches Ok(q)
            && p.1 == 5 + q.1),
{
    lemma_doc_fit(b, off, path);
}

/// Law: the element resolver records the element's own total size under the
/// path extended with the element's name: the last entry it yields binds
/// that extended path, and the table its entries denote maps the extended
/// path to exactly that size.
pub proof fn lemma_element_entry(b: Seq<u8>, off: int, path: PathModel)
    ensures
        elem_model(b, off, path) matches Ok(p) ==> {
            &&& p.0.len() >= 1
            &&& p.0.last().1 == p.1 as int
            &&& p.0.last().0.len() == path.len() + 1
            &&& p.0.last().0.drop_last() == path
            &&& table_model(p.0).contains_key(p.0.last().0)
            &&& table_model(p.0)[p.0.last().0] == p.1 as int
        },
{
    lemma_elem_fit(b, off, path);
    if 0 <= off < b.len() {
        match cstr_model(b, off) {
            Err(f) => {},
            Ok((name, name_len)) => {
                let epath = path.push(name);
                assert(epath.drop_last() =~= path);
                match elem_model(b, off, path) {
                    Err(f) => {},
                    Ok(p) => {
                        assert(table_model(p.0) == table_model(p.0.drop_last()).insert(
                            p.0.last().0,
                            p.0.last().1,
                        ));
                    },
                }
            },
        }
    }
}

/// Law: the completed size table holds exactly one entry for the synthetic
/// root and one for every field at every nesting depth.
pub proof fn lemma_entry_count(b: Seq<u8>)
    ensures
        bson_model(b) matches Ok(p) ==> p.0.len() == 1 + p.2,
{
    lemma_doc_fit(b, 0, root_path());
}

/// Law: the completed size table binds the root path to the whole
/// document's size, which is the document's declared length header.
pub proof fn lemma_root_entry(b: Seq<u8>)
    ensures
        bson_model(b) matches Ok(p) ==> {
            &&& table_model(p.0).contains_key(root_path())
            &&& table_model(p.0)[root_path()] == p.1 as int
            &&& p.1 as int == le32(b, 0)
        },
{
    lemma_doc_fit(b, 0, root_path());
    match bson_model(b) {
        Err(f) => {},
        Ok(p) => {
            assert(table_model(p.0) == table_model(p.0.drop_last()).insert(
                p.0.last().0,
                p.0.last().1,
            ));
            assert(p.0.last() == (root_path(), p.1 as int));
        },
    }
}

} // verus!
