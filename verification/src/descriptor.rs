//! Service descriptors.
//!
//! One descriptor per service directory declares the host identity and the
//! resources the service needs.  Every field is optional; a field that is
//! present with the wrong shape makes the whole descriptor invalid, exactly
//! as a typed decoder would reject it.

use vstd::prelude::*;
use crate::doc::{Doc, doc_lookup, doc_get};

verus! {

/// The parsed per-service descriptor.  Absence of the identity fields means
/// the provisioner skips host-account and directory work for the service.
pub struct ServiceConfig {
    pub username: Option<String>,
    pub uid: Option<u32>,
    pub groupname: Option<String>,
    pub gid: Option<u32>,
    pub description: Option<String>,
    pub data_dir: Option<String>,
    pub dockerfile: Option<String>,
    pub config_files: Option<Vec<String>>,
    pub binaries: Option<Vec<String>>,
    pub ports: Option<Vec<String>>,
    pub special_dirs: Option<Vec<String>>,
}

/// The mathematical value of a descriptor.
#[verifier::ext_equal]
pub ghost struct ConfigModel {
    pub username: Option<Seq<char>>,
    pub uid: Option<u32>,
    pub groupname: Option<Seq<char>>,
    pub gid: Option<u32>,
    pub description: Option<Seq<char>>,
    pub data_dir: Option<Seq<char>>,
    pub dockerfile: Option<Seq<char>>,
    pub config_files: Option<Seq<Seq<char>>>,
    pub binaries: Option<Seq<Seq<char>>>,
    pub ports: Option<Seq<Seq<char>>>,
    pub special_dirs: Option<Seq<Seq<char>>>,
}

pub open spec fn opt_text_view(o: Option<String>) -> Option<Seq<char>> {
    match o {
        Some(s) => Some(s@),
        None => None,
    }
}

pub open spec fn texts_view(v: Seq<String>) -> Seq<Seq<char>> {
    v.map_values(|s: String| s@)
}

pub open spec fn opt_texts_view(o: Option<Vec<String>>) -> Option<Seq<Seq<char>>> {
    match o {
        Some(v) => Some(texts_view(v@)),
        None => None,
    }
}

impl View for ServiceConfig {
    type V = ConfigModel;

    open spec fn view(&self) -> ConfigModel {
        ConfigModel {
            username: opt_text_view(self.username),
            uid: self.uid,
            groupname: opt_text_view(self.groupname),
            gid: self.gid,
            description: opt_text_view(self.description),
            data_dir: opt_text_view(self.data_dir),
            dockerfile: opt_text_view(self.dockerfile),
            config_files: opt_texts_view(self.config_files),
            binaries: opt_texts_view(self.binaries),
            ports: opt_texts_view(self.ports),
            special_dirs: opt_texts_view(self.special_dirs),
        }
    }
}

/// A text field: outer `None` when the field is present with a non-text,
/// non-null value; inner `None` when it is absent or null.
pub open spec fn text_field(d: Doc, key: Seq<char>) -> Option<Option<Seq<char>>> {
    match doc_lookup(d, key) {
        None => Some(None),
        Some(v) => match v {
            Doc::Null => Some(None),
            Doc::Text(s) => Some(Some(s@)),
            _ => None,
        },
    }
}

/// A numeric identity field: must fit an OS id.
pub open spec fn u32_field(d: Doc, key: Seq<char>) -> Option<Option<u32>> {
    match doc_lookup(d, key) {
        None => Some(None),
        Some(v) => match v {
            Doc::Null => Some(None),
            Doc::Int(n) => if n <= u32::MAX { Some(Some(n as u32)) } else { None },
            _ => None,
        },
    }
}

/// All elements of a list as text; `None` when one is not text.
pub open spec fn texts_exact(items: Seq<Doc>) -> Option<Seq<Seq<char>>>
    decreases items.len(),
{
    if items.len() == 0 {
        Some(Seq::empty())
    } else {
        match items[0] {
            Doc::Text(s) => match texts_exact(items.drop_first()) {
                Some(rest) => Some(seq![s@] + rest),
                None => None,
            },
            _ => None,
        }
    }
}

/// A list-of-text field.
pub open spec fn list_field(d: Doc, key: Seq<char>) -> Option<Option<Seq<Seq<char>>>> {
    match doc_lookup(d, key) {
        None => Some(None),
        Some(v) => match v {
            Doc::Null => Some(None),
            Doc::List(items) => match texts_exact(items@) {
                Some(ts) => Some(Some(ts)),
                None => None,
            },
            _ => None,
        },
    }
}

/// A document is a well-formed descriptor when it is a mapping and each known
/// field, where present, has the right shape.  Unknown fields are ignored.
pub open spec fn descriptor_ok(d: Doc) -> bool {
    &&& d is Mapping
    &&& text_field(d, "username"@) is Some
    &&& u32_field(d, "uid"@) is Some
    &&& text_field(d, "groupname"@) is Some
    &&& u32_field(d, "gid"@) is Some
    &&& text_field(d, "description"@) is Some
    &&& text_field(d, "data_dir"@) is Some
    &&& text_field(d, "dockerfile"@) is Some
    &&& list_field(d, "config_files"@) is Some
    &&& list_field(d, "binaries"@) is Some
    &&& list_field(d, "ports"@) is Some
    &&& list_field(d, "special_dirs"@) is Some
}

/// The descriptor a well-formed document denotes.
pub open spec fn descriptor_model(d: Doc) -> ConfigModel {
    ConfigModel {
        username: text_field(d, "username"@)->0,
        uid: u32_field(d, "uid"@)->0,
        groupname: text_field(d, "groupname"@)->0,
        gid: u32_field(d, "gid"@)->0,
        description: text_field(d, "description"@)->0,
        data_dir: text_field(d, "data_dir"@)->0,
        dockerfile: text_field(d, "dockerfile"@)->0,
        config_files: list_field(d, "config_files"@)->0,
        binaries: list_field(d, "binaries"@)->0,
        ports: list_field(d, "ports"@)->0,
        special_dirs: list_field(d, "special_dirs"@)->0,
    }
}

fn get_text_field(d: &Doc, key: &str) -> (r: Option<Option<String>>)
    ensures
        match r {
            None => text_field(*d, key@) is None,
            Some(o) => text_field(*d, key@) == Some(opt_text_view(o)),
        },
{
    match doc_get(d, key) {
        None => Some(None),
        Some(v) => match v {
            Doc::Null => Some(None),
            Doc::Text(s) => Some(Some(s.clone())),
            _ => None,
        },
    }
}

fn get_u32_field(d: &Doc, key: &str) -> (r: Option<Option<u32>>)
    ensures
        match r {
            None => u32_field(*d, key@) is None,
            Some(o) => u32_field(*d, key@) == Some(o),
        },
{
    match doc_get(d, key) {
        None => Some(None),
        Some(v) => match v {
            Doc::Null => Some(None),
            Doc::Int(n) => {
                let n = *n;
                if n <= u32::MAX as u64 {
                    Some(Some(n as u32))
                } else {
                    None
                }
            },
            _ => None,
        },
    }
}

fn get_list_field(d: &Doc, key: &str) -> (r: Option<Option<Vec<String>>>)
    ensures
        match r {
            None => list_field(*d, key@) is None,
            Some(o) => list_field(*d, key@) == Some(opt_texts_view(o)),
        },
{
    match doc_get(d, key) {
        None => Some(None),
        Some(v) => match v {
            Doc::Null => Some(None),
            Doc::List(items) => {
                let n = items.len();
                let mut out: Vec<String> = Vec::new();
                let mut i: usize = 0;
                proof {
                    assert(items@.skip(0) =~= items@);
                }
                while i < n
                    invariant
                        doc_lookup(*d, key@) == Some(Doc::List(*items)),
                        n == items@.len(),
                        i <= n,
                        texts_view(out@).len() == i,
                        (texts_exact(items@) is Some) == (texts_exact(items@.skip(i as int)) is Some),
                        texts_exact(items@) matches Some(ts) ==> (
                            texts_exact(items@.skip(i as int)) matches Some(rest)
                                && ts =~= texts_view(out@) + rest),
                    decreases n - i,
                {
                    proof {
                        assert(items@.skip(i as int)[0] == items@[i as int]);
                        assert(items@.skip(i as int).drop_first() =~= items@.skip(i + 1));
                    }
                    match &items[i] {
                        Doc::Text(s) => {
                            out.push(s.clone());
                        },
                        _ => {
                            proof {
                                assert(texts_exact(items@.skip(i as int)) is None);
                                assert(list_field(*d, key@) is None);
                            }
                            return None;
                        },
                    }
                    i += 1;
                }
                proof {
                    assert(items@.skip(n as int) =~= Seq::<Doc>::empty());
                    assert(texts_exact(items@.skip(n as int)) == Some(Seq::<Seq<char>>::empty()));
                    assert(texts_exact(items@) matches Some(ts) && ts =~= texts_view(out@));
                }
                Some(Some(out))
            },
            _ => None,
        },
    }
}

/// Reads a descriptor out of a parsed document.  `None` exactly when the
/// document is not a well-formed descriptor.
pub fn descriptor_of_doc(d: &Doc) -> (r: Option<ServiceConfig>)
    ensures
        r is Some <==> descriptor_ok(*d),
        r matches Some(c) ==> c@ == descriptor_model(*d),
{
    match d {
        Doc::Mapping(_) => {},
        _ => {
            return None;
        },
    }
    let username = match get_text_field(d, "username") {
        Some(o) => o,
        None => {
            return None;
        },
    };
    let uid = match get_u32_field(d, "uid") {
        Some(o) => o,
        None => {
            return None;
        },
    };
    let groupname = match get_text_field(d, "groupname") {
        Some(o) => o,
        None => {
            return None;
        },
    };
    let gid = match get_u32_field(d, "gid") {
        Some(o) => o,
        None => {
            return None;
        },
    };
    let description = match get_text_field(d, "description") {
        Some(o) => o,
        None => {
            return None;
        },
    };
    let data_dir = match get_text_field(d, "data_dir") {
        Some(o) => o,
        None => {
            return None;
        },
    };
    let dockerfile = match get_text_field(d, "dockerfile") {
        Some(o) => o,
        None => {
            return None;
        },
    };
    let config_files = match get_list_field(d, "config_files") {
        Some(o) => o,
        None => {
            return None;
        },
    };
    let binaries = match get_list_field(d, "binaries") {
        Some(o) => o,
        None => {
            return None;
        },
    };
    let ports = match get_list_field(d, "ports") {
        Some(o) => o,
        None => {
            return None;
        },
    };
    let special_dirs = match get_list_field(d, "special_dirs") {
        Some(o) => o,
        None => {
            return None;
        },
    };
    let c = ServiceConfig {
        username,
        uid,
        groupname,
        gid,
        description,
        data_dir,
        dockerfile,
        config_files,
        binaries,
        ports,
        special_dirs,
    };
    proof {
        assert(c@ =~= descriptor_model(*d));
    }
    Some(c)
}

/// Parses descriptor text and reads the descriptor out of it; `None` when
/// the text is not valid JSON or not a well-formed descriptor.
pub fn load_service_config(text: &str) -> (r: Option<ServiceConfig>)
    ensures
        match crate::parse::json_doc(text@) {
            None => r is None,
            Some(d) => {
                &&& r is Some <==> descriptor_ok(d)
                &&& r matches Some(c) ==> c@ == descriptor_model(d)
            },
        },
{
    match crate::parse::parse_json_doc(text) {
        None => None,
        Some(d) => descriptor_of_doc(&d),
    }
}

} // verus!
