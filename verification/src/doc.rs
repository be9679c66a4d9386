//! A plain structured document tree.
//!
//! Descriptor files and the orchestration manifest are both structured
//! documents (objects, lists, strings, numbers).  The library works on this
//! tree of plain values so that every rule about a document's shape is
//! verified; how the bytes of a file become a `Doc` is the caller's concern.

use vstd::prelude::*;

verus! {

/// One node of a structured document.
///
/// `Other` stands for a scalar the library never reads (a float, a negative
/// number): it is kept so that a field holding one is recognised as having
/// the wrong type rather than being silently dropped.
pub enum Doc {
    Null,
    Bool(bool),
    Int(u64),
    Text(String),
    List(Vec<Doc>),
    Mapping(Vec<DocField>),
    Other,
}

/// One key/value entry of a document mapping.  Keys are full documents:
/// a mapping key that is not text is kept as it is and skipped by lookups.
pub struct DocField {
    pub key: Doc,
    pub value: Doc,
}

/// The value under the first text key equal to `key`, if any.
pub open spec fn field_lookup(fields: Seq<DocField>, key: Seq<char>) -> Option<Doc>
    decreases fields.len(),
{
    if fields.len() == 0 {
        None
    } else if field_key_is(fields[0], key) {
        Some(fields[0].value)
    } else {
        field_lookup(fields.drop_first(), key)
    }
}

pub open spec fn field_key_is(f: DocField, key: Seq<char>) -> bool {
    match f.key {
        Doc::Text(s) => s@ == key,
        _ => false,
    }
}

/// Lookup of `key` in a document: `None` unless the document is a mapping
/// with a matching text key.
pub open spec fn doc_lookup(d: Doc, key: Seq<char>) -> Option<Doc> {
    match d {
        Doc::Mapping(fields) => field_lookup(fields@, key),
        _ => None,
    }
}

/// Character-for-character string equality.
pub fn str_eq(a: &str, b: &str) -> (r: bool)
    ensures
        r == (a@ == b@),
{
    let la = a.unicode_len();
    let lb = b.unicode_len();
    if la != lb {
        assert(a@ != b@) by {
            assert(a@.len() != b@.len());
        }
        return false;
    }
    let mut i: usize = 0;
    while i < la
        invariant
            la == a@.len(),
            la == b@.len(),
            i <= la,
            forall|j: int| 0 <= j < i ==> a@[j] == b@[j],
        decreases la - i,
    {
        if a.get_char(i) != b.get_char(i) {
            return false;
        }
        i += 1;
    }
    proof {
        assert(a@ =~= b@);
    }
    true
}

/// The value under `key`, when the document is a mapping that has it.
pub fn doc_get<'a>(d: &'a Doc, key: &str) -> (r: Option<&'a Doc>)
    ensures
        match r {
            Some(v) => doc_lookup(*d, key@) == Some(*v),
            None => doc_lookup(*d, key@) is None,
        },
{
    match d {
        Doc::Mapping(fields) => {
            let n = fields.len();
            let mut i: usize = 0;
            proof {
                assert(fields@.skip(0) =~= fields@);
            }
            while i < n
                invariant
                    *d == Doc::Mapping(*fields),
                    n == fields@.len(),
                    i <= n,
                    field_lookup(fields@, key@) == field_lookup(fields@.skip(i as int), key@),
                    forall|j: int| 0 <= j < i ==> !field_key_is(fields@[j], key@),
                decreases n - i,
            {
                let hit = match &fields[i].key {
                    Doc::Text(s) => str_eq(s.as_str(), key),
                    _ => false,
                };
                proof {
                    assert(fields@.skip(i as int)[0] == fields@[i as int]);
                    assert(fields@.skip(i as int).drop_first() =~= fields@.skip(i + 1));
                }
                if hit {
                    proof {
                        assert(field_lookup(fields@.skip(i as int), key@)
                            == Some(fields@[i as int].value));
                        assert(*d == Doc::Mapping(*fields));
                        assert(doc_lookup(*d, key@) == field_lookup(fields@, key@));
                    }
                    return Some(&fields[i].value);
                }
                i += 1;
            }
            proof {
                assert(fields@.skip(n as int).len() == 0);
            }
            None
        },
        _ => None,
    }
}

} // verus!
