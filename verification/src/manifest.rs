//! The orchestration manifest.
//!
//! The manifest declares, per service, its dependency edges, exposed ports,
//! volume mounts and environment bindings.  A dependency list may be written
//! either as a sequence of names or as a mapping whose keys are the names;
//! both normalize to the same sequence of names.

use vstd::prelude::*;
use crate::doc::{Doc, DocField, doc_lookup, doc_get};
use crate::descriptor::texts_view;

verus! {

/// One environment binding.
pub struct EnvPair {
    pub key: String,
    pub value: String,
}

/// One service entry of the manifest.
pub struct ComposeService {
    pub name: String,
    pub depends_on: Vec<String>,
    pub ports: Vec<String>,
    pub volumes: Vec<String>,
    pub environment: Vec<EnvPair>,
}

/// The mathematical value of a manifest entry.
#[verifier::ext_equal]
pub ghost struct ComposeModel {
    pub name: Seq<char>,
    pub depends_on: Seq<Seq<char>>,
    pub ports: Seq<Seq<char>>,
    pub volumes: Seq<Seq<char>>,
    pub environment: Seq<(Seq<char>, Seq<char>)>,
}

impl View for EnvPair {
    type V = (Seq<char>, Seq<char>);

    open spec fn view(&self) -> (Seq<char>, Seq<char>) {
        (self.key@, self.value@)
    }
}

impl View for ComposeService {
    type V = ComposeModel;

    open spec fn view(&self) -> ComposeModel {
        ComposeModel {
            name: self.name@,
            depends_on: texts_view(self.depends_on@),
            ports: texts_view(self.ports@),
            volumes: texts_view(self.volumes@),
            environment: self.environment@.map_values(|p: EnvPair| p@),
        }
    }
}

/// The text elements of a list, in order; anything else is skipped.
pub open spec fn texts_loose(items: Seq<Doc>) -> Seq<Seq<char>>
    decreases items.len(),
{
    if items.len() == 0 {
        Seq::empty()
    } else {
        let rest = texts_loose(items.drop_first());
        match items[0] {
            Doc::Text(s) => seq![s@] + rest,
            _ => rest,
        }
    }
}

/// The text keys of a mapping, in order; entries under another key shape are
/// skipped.
pub open spec fn key_texts(fields: Seq<DocField>) -> Seq<Seq<char>>
    decreases fields.len(),
{
    if fields.len() == 0 {
        Seq::empty()
    } else {
        let rest = key_texts(fields.drop_first());
        match fields[0].key {
            Doc::Text(s) => seq![s@] + rest,
            _ => rest,
        }
    }
}

/// Normalized dependency names: a sequence gives its text elements in order,
/// a mapping gives its text keys in order, anything else gives none.
pub open spec fn dep_names(v: Option<Doc>) -> Seq<Seq<char>> {
    match v {
        Some(Doc::List(items)) => texts_loose(items@),
        Some(Doc::Mapping(fields)) => key_texts(fields@),
        _ => Seq::empty(),
    }
}

/// Port or volume declarations: a sequence of strings, else none.
pub open spec fn string_list(v: Option<Doc>) -> Seq<Seq<char>> {
    match v {
        Some(Doc::List(items)) => texts_loose(items@),
        _ => Seq::empty(),
    }
}

/// A value rendered as text; anything that is not text renders empty.
pub open spec fn text_or_empty(d: Doc) -> Seq<char> {
    match d {
        Doc::Text(s) => s@,
        _ => Seq::empty(),
    }
}

/// Environment bindings: entries with a text key, the value rendered as
/// text; entries under another key shape are skipped.
pub open spec fn env_pairs(fields: Seq<DocField>) -> Seq<(Seq<char>, Seq<char>)>
    decreases fields.len(),
{
    if fields.len() == 0 {
        Seq::empty()
    } else {
        let rest = env_pairs(fields.drop_first());
        match fields[0].key {
            Doc::Text(s) => seq![(s@, text_or_empty(fields[0].value))] + rest,
            _ => rest,
        }
    }
}

pub open spec fn env_of(v: Option<Doc>) -> Seq<(Seq<char>, Seq<char>)> {
    match v {
        Some(Doc::Mapping(fields)) => env_pairs(fields@),
        _ => Seq::empty(),
    }
}

/// The manifest entry denoted by one field of the `services` mapping.
pub open spec fn compose_entry(f: DocField) -> ComposeModel {
    ComposeModel {
        name: text_or_empty(f.key),
        depends_on: dep_names(doc_lookup(f.value, "depends_on"@)),
        ports: string_list(doc_lookup(f.value, "ports"@)),
        volumes: string_list(doc_lookup(f.value, "volumes"@)),
        environment: env_of(doc_lookup(f.value, "environment"@)),
    }
}

/// Every entry of the manifest, in manifest order; a manifest without a
/// `services` mapping declares no services.
pub open spec fn manifest_models(d: Doc) -> Seq<ComposeModel> {
    match doc_lookup(d, "services"@) {
        Some(Doc::Mapping(fields)) => fields@.map_values(|f: DocField| compose_entry(f)),
        _ => Seq::empty(),
    }
}

fn texts_loose_exec(items: &Vec<Doc>) -> (r: Vec<String>)
    ensures
        texts_view(r@) =~= texts_loose(items@),
{
    let n = items.len();
    let mut out: Vec<String> = Vec::new();
    let mut i: usize = 0;
    proof {
        assert(items@.skip(0) =~= items@);
    }
    while i < n
        invariant
            n == items@.len(),
            i <= n,
            texts_loose(items@) =~= texts_view(out@) + texts_loose(items@.skip(i as int)),
        decreases n - i,
    {
        proof {
            assert(items@.skip(i as int)[0] == items@[i as int]);
            assert(items@.skip(i as int).drop_first() =~= items@.skip(i + 1));
        }
        match &items[i] {
            Doc::Text(s) => {
                out.push(s.clone());
                proof {
                    assert(texts_view(out@) =~= texts_view(out@.drop_last()) + seq![out@.last()@]);
                }
            },
            _ => {},
        }
        i += 1;
    }
    proof {
        assert(items@.skip(n as int) =~= Seq::<Doc>::empty());
    }
    out
}

fn key_texts_exec(fields: &Vec<DocField>) -> (r: Vec<String>)
    ensures
        texts_view(r@) =~= key_texts(fields@),
{
    let n = fields.len();
    let mut out: Vec<String> = Vec::new();
    let mut i: usize = 0;
    proof {
        assert(fields@.skip(0) =~= fields@);
    }
    while i < n
        invariant
            n == fields@.len(),
            i <= n,
            key_texts(fields@) =~= texts_view(out@) + key_texts(fields@.skip(i as int)),
        decreases n - i,
    {
        proof {
            assert(fields@.skip(i as int)[0] == fields@[i as int]);
            assert(fields@.skip(i as int).drop_first() =~= fields@.skip(i + 1));
        }
        match &fields[i].key {
            Doc::Text(s) => {
                out.push(s.clone());
                proof {
                    assert(texts_view(out@) =~= texts_view(out@.drop_last()) + seq![out@.last()@]);
                }
            },
            _ => {},
        }
        i += 1;
    }
    proof {
        assert(fields@.skip(n as int) =~= Seq::<DocField>::empty());
    }
    out
}

fn env_pairs_exec(fields: &Vec<DocField>) -> (r: Vec<EnvPair>)
    ensures
        r@.map_values(|p: EnvPair| p@) =~= env_pairs(fields@),
{
    let n = fields.len();
    let mut out: Vec<EnvPair> = Vec::new();
    let mut i: usize = 0;
    proof {
        assert(fields@.skip(0) =~= fields@);
    }
    while i < n
        invariant
            n == fields@.len(),
            i <= n,
            env_pairs(fields@) =~= out@.map_values(|p: EnvPair| p@)
                + env_pairs(fields@.skip(i as int)),
        decreases n - i,
    {
        proof {
            assert(fields@.skip(i as int)[0] == fields@[i as int]);
            assert(fields@.skip(i as int).drop_first() =~= fields@.skip(i + 1));
        }
        match &fields[i].key {
            Doc::Text(s) => {
                let value = match &fields[i].value {
                    Doc::Text(v) => v.clone(),
                    _ => String::new(),
                };
                out.push(EnvPair { key: s.clone(), value });
                proof {
                    let m = |p: EnvPair| p@;
                    assert(out@.map_values(m) =~= out@.drop_last().map_values(m)
                        + seq![out@.last()@]);
                }
            },
            _ => {},
        }
        i += 1;
    }
    proof {
        assert(fields@.skip(n as int) =~= Seq::<DocField>::empty());
    }
    out
}

fn string_list_exec(v: Option<&Doc>) -> (r: Vec<String>)
    ensures
        texts_view(r@) =~= string_list(match v {
            Some(d) => Some(*d),
            None => None,
        }),
{
    match v {
        Some(Doc::List(items)) => texts_loose_exec(items),
        _ => Vec::new(),
    }
}

/// One manifest entry read out of one field of the `services` mapping.
fn compose_entry_exec(f_key: &Doc, f_value: &Doc) -> (r: ComposeService)
    ensures
        r@ == compose_entry(DocField { key: *f_key, value: *f_value }),
{
    let name = match f_key {
        Doc::Text(s) => s.clone(),
        _ => String::new(),
    };
    let depends_on = match doc_get(f_value, "depends_on") {
        Some(Doc::List(items)) => texts_loose_exec(items),
        Some(Doc::Mapping(fields)) => key_texts_exec(fields),
        _ => Vec::new(),
    };
    let ports = string_list_exec(doc_get(f_value, "ports"));
    let volumes = string_list_exec(doc_get(f_value, "volumes"));
    let environment = match doc_get(f_value, "environment") {
        Some(Doc::Mapping(fields)) => env_pairs_exec(fields),
        _ => Vec::new(),
    };
    let r = ComposeService { name, depends_on, ports, volumes, environment };
    proof {
        assert(r@ =~= compose_entry(DocField { key: *f_key, value: *f_value }));
    }
    r
}

/// Reads every service entry out of a parsed manifest, in manifest order.
pub fn manifest_of_doc(d: &Doc) -> (r: Vec<ComposeService>)
    ensures
        r@.map_values(|c: ComposeService| c@) =~= manifest_models(*d),
{
    let mut out: Vec<ComposeService> = Vec::new();
    match doc_get(d, "services") {
        Some(Doc::Mapping(fields)) => {
            let n = fields.len();
            let mut i: usize = 0;
            while i < n
                invariant
                    doc_lookup(*d, "services"@) == Some(Doc::Mapping(*fields)),
                    n == fields@.len(),
                    i <= n,
                    out@.map_values(|c: ComposeService| c@)
                        =~= fields@.take(i as int).map_values(|f: DocField| compose_entry(f)),
                decreases n - i,
            {
                let entry = compose_entry_exec(&fields[i].key, &fields[i].value);
                out.push(entry);
                proof {
                    let mc = |c: ComposeService| c@;
                    let mf = |f: DocField| compose_entry(f);
                    assert(fields@[i as int] == DocField {
                        key: fields@[i as int].key,
                        value: fields@[i as int].value,
                    });
                    assert(fields@.take(i + 1).map_values(mf)
                        =~= fields@.take(i as int).map_values(mf) + seq![mf(fields@[i as int])]);
                    assert(out@.map_values(mc) =~= out@.drop_last().map_values(mc)
                        + seq![out@.last()@]);
                }
                i += 1;
            }
            proof {
                assert(fields@.take(n as int) =~= fields@);
            }
        },
        _ => {},
    }
    out
}

/// Parses manifest text and reads its service entries; `None` exactly when
/// the text is not a well-formed structured document.
pub fn load_manifest(text: &str) -> (r: Option<Vec<ComposeService>>)
    ensures
        match crate::parse::yaml_doc(text@) {
            None => r is None,
            Some(d) => r matches Some(v)
                && v@.map_values(|c: ComposeService| c@) =~= manifest_models(d),
        },
{
    match crate::parse::parse_yaml_doc(text) {
        None => None,
        Some(d) => Some(manifest_of_doc(&d)),
    }
}

/// A dependency list written as a sequence normalizes to its names in the
/// declared order: position for position.
pub proof fn lemma_dep_sequence_order(items: Seq<Doc>)
    requires
        forall|i: int| 0 <= i < items.len() ==> items[i] is Text,
    ensures
        texts_loose(items).len() == items.len(),
        forall|i: int| 0 <= i < items.len() ==> texts_loose(items)[i] == text_or_empty(items[i]),
    decreases items.len(),
{
    if items.len() > 0 {
        lemma_dep_sequence_order(items.drop_first());
    }
}

/// A dependency list written as a sequence of names and one written as a
/// mapping whose keys are the same names normalize to the same sequence.
pub proof fn lemma_dep_forms_agree(items: Seq<Doc>, fields: Seq<DocField>)
    requires
        items.len() == fields.len(),
        forall|i: int| 0 <= i < items.len() ==> (items[i] is Text
            && fields[i].key is Text
            && text_or_empty(items[i]) == text_or_empty(fields[i].key)),
    ensures
        texts_loose(items) =~= key_texts(fields),
    decreases items.len(),
{
    if items.len() > 0 {
        assert(forall|i: int| 0 <= i < items.drop_first().len()
            ==> items.drop_first()[i] == items[i + 1]);
        assert(forall|i: int| 0 <= i < fields.drop_first().len()
            ==> fields.drop_first()[i] == fields[i + 1]);
        lemma_dep_forms_agree(items.drop_first(), fields.drop_first());
    }
}

} // verus!
