//! Descriptor discovery.
//!
//! Discovery receives the files found under the root directory, keeps only
//! descriptor files at most two levels deep, names each service after its
//! parent directory, and parses its content.  A file with invalid content is
//! skipped with no effect on the others; a later descriptor under an already
//! seen name replaces the earlier one in place, keeping discovery order.

use vstd::prelude::*;
use crate::descriptor::{ServiceConfig, ConfigModel, descriptor_ok, descriptor_model, descriptor_of_doc};
use crate::graph::ServiceEntry;
use crate::parse::json_doc;

verus! {

/// One file found while walking the root directory: its path components
/// relative to the root (last one the file name) and its content.
pub struct FoundFile {
    pub path: Vec<String>,
    pub content: String,
}

/// The name a descriptor file gives its service: the base name of its parent
/// directory; for a descriptor directly under the root, the root's own name.
pub open spec fn service_name_of(root: Seq<char>, f: FoundFile) -> Seq<char> {
    if f.path@.len() == 1 {
        root
    } else {
        f.path@[0]@
    }
}

/// A file yields a descriptor only when it is the descriptor file, lies at
/// most two levels below the root, and its parent name can be determined.
pub open spec fn qualifies(root: Seq<char>, f: FoundFile) -> bool {
    &&& 1 <= f.path@.len() <= 2
    &&& f.path@.last()@ == "service.json"@
    &&& service_name_of(root, f).len() > 0
}

/// Insert-or-replace keyed by name: a later descriptor under a known name
/// replaces the earlier one in place, keeping discovery order.
pub open spec fn upsert_model(
    s: Seq<(Seq<char>, ConfigModel)>,
    n: Seq<char>,
    c: ConfigModel,
) -> Seq<(Seq<char>, ConfigModel)>
    decreases s.len(),
{
    if s.len() == 0 {
        seq![(n, c)]
    } else if s[0].0 == n {
        seq![(n, c)] + s.drop_first()
    } else {
        seq![s[0]] + upsert_model(s.drop_first(), n, c)
    }
}

/// The effect of one found file on the discovered mapping.
pub open spec fn discover_step(
    root: Seq<char>,
    acc: Seq<(Seq<char>, ConfigModel)>,
    f: FoundFile,
) -> Seq<(Seq<char>, ConfigModel)> {
    if qualifies(root, f) {
        match json_doc(f.content@) {
            Some(d) => if descriptor_ok(d) {
                upsert_model(acc, service_name_of(root, f), descriptor_model(d))
            } else {
                acc
            },
            None => acc,
        }
    } else {
        acc
    }
}

/// The discovered mapping after processing `files` in traversal order.
pub open spec fn discover_acc(
    root: Seq<char>,
    files: Seq<FoundFile>,
    acc: Seq<(Seq<char>, ConfigModel)>,
) -> Seq<(Seq<char>, ConfigModel)>
    decreases files.len(),
{
    if files.len() == 0 {
        acc
    } else {
        discover_acc(root, files.drop_first(), discover_step(root, acc, files[0]))
    }
}

pub open spec fn entries_model(v: Seq<ServiceEntry>) -> Seq<(Seq<char>, ConfigModel)> {
    v.map_values(|e: ServiceEntry| (e.name@, e.config@))
}

fn upsert_entry(out: &mut Vec<ServiceEntry>, name: String, config: ServiceConfig)
    ensures
        entries_model(final(out)@) == upsert_model(entries_model(old(out)@), name@, config@),
{
    let n = out.len();
    let mut i: usize = 0;
    while i < n
        invariant
            n == out@.len(),
            out@ == old(out)@,
            i <= n,
            forall|j: int| 0 <= j < i ==> entries_model(out@)[j].0 != name@,
        decreases n - i,
    {
        if crate::doc::str_eq(out[i].name.as_str(), name.as_str()) {
            proof {
                assert(entries_model(out@)[i as int].0 == name@);
            }
            let ghost before = entries_model(out@);
            out.remove(i);
            out.insert(i, ServiceEntry { name, config });
            proof {
                lemma_upsert_at(before, name@, config@, i as int);
                assert(entries_model(out@) =~= before.update(i as int, (name@, config@)));
            }
            return;
        }
        i += 1;
    }
    let ghost before = entries_model(out@);
    out.push(ServiceEntry { name, config });
    proof {
        lemma_upsert_missing(before, name@, config@);
        assert(entries_model(out@) =~= before.push((name@, config@)));
    }
}

proof fn lemma_upsert_at(s: Seq<(Seq<char>, ConfigModel)>, n: Seq<char>, c: ConfigModel, j: int)
    requires
        0 <= j < s.len(),
        s[j].0 == n,
        forall|k: int| 0 <= k < j ==> s[k].0 != n,
    ensures
        upsert_model(s, n, c) == s.update(j, (n, c)),
    decreases s.len(),
{
    if j == 0 {
        assert(upsert_model(s, n, c) =~= s.update(0, (n, c)));
    } else {
        assert(forall|k: int| 0 <= k < j - 1 ==> s.drop_first()[k] == s[k + 1]);
        lemma_upsert_at(s.drop_first(), n, c, j - 1);
        assert(upsert_model(s, n, c) =~= s.update(j, (n, c)));
    }
}

proof fn lemma_upsert_missing(s: Seq<(Seq<char>, ConfigModel)>, n: Seq<char>, c: ConfigModel)
    requires
        forall|k: int| 0 <= k < s.len() ==> s[k].0 != n,
    ensures
        upsert_model(s, n, c) == s.push((n, c)),
    decreases s.len(),
{
    if s.len() > 0 {
        assert(forall|k: int| 0 <= k < s.len() - 1 ==> s.drop_first()[k] == s[k + 1]);
        lemma_upsert_missing(s.drop_first(), n, c);
        assert(upsert_model(s, n, c) =~= s.push((n, c)));
    } else {
        assert(upsert_model(s, n, c) =~= s.push((n, c)));
    }
}

/// Walks the found files in order and builds the service mapping.  The
/// caller decides what to do when nothing is discovered (a fatal condition
/// for a provisioning run).
pub fn discover_services(root_name: &String, files: &Vec<FoundFile>) -> (r: Vec<ServiceEntry>)
    ensures
        entries_model(r@) == discover_acc(root_name@, files@, Seq::empty()),
{
    let mut out: Vec<ServiceEntry> = Vec::new();
    let n = files.len();
    let mut i: usize = 0;
    proof {
        assert(entries_model(out@) =~= Seq::<(Seq<char>, ConfigModel)>::empty());
        assert(files@.skip(0) =~= files@);
    }
    while i < n
        invariant
            n == files@.len(),
            i <= n,
            discover_acc(root_name@, files@, Seq::empty())
                == discover_acc(root_name@, files@.skip(i as int), entries_model(out@)),
        decreases n - i,
    {
        proof {
            assert(files@.skip(i as int)[0] == files@[i as int]);
            assert(files@.skip(i as int).drop_first() =~= files@.skip(i + 1));
        }
        let f = &files[i];
        let plen = f.path.len();
        if 1 <= plen && plen <= 2 {
            if crate::doc::str_eq(f.path[plen - 1].as_str(), "service.json") {
                let name: String = if plen == 1 {
                    root_name.clone()
                } else {
                    f.path[0].clone()
                };
                if !name.as_str().is_empty() {
                    assert(qualifies(root_name@, files@[i as int]));
                    match crate::parse::parse_json_doc(f.content.as_str()) {
                        Some(d) => {
                            match descriptor_of_doc(&d) {
                                Some(config) => {
                                    upsert_entry(&mut out, name, config);
                                },
                                None => {},
                            }
                        },
                        None => {},
                    }
                }
            }
        }
        i += 1;
    }
    proof {
        assert(files@.skip(n as int).len() == 0);
    }
    out
}

/// A file that can never yield a descriptor — whatever the reason — has no
/// effect on discovery, wherever it occurs in the traversal.
pub proof fn lemma_inert_file_ignored(
    root: Seq<char>,
    files: Seq<FoundFile>,
    acc: Seq<(Seq<char>, ConfigModel)>,
    i: int,
)
    requires
        0 <= i < files.len(),
        forall|a: Seq<(Seq<char>, ConfigModel)>| #[trigger] discover_step(root, a, files[i]) == a,
    ensures
        discover_acc(root, files, acc) == discover_acc(root, files.remove(i), acc),
    decreases files.len(),
{
    if i == 0 {
        assert(files.remove(0) =~= files.drop_first());
    } else {
        assert(files.remove(i).drop_first() =~= files.drop_first().remove(i - 1));
        assert(files.remove(i)[0] == files[0]);
        lemma_inert_file_ignored(
            root,
            files.drop_first(),
            discover_step(root, acc, files[0]),
            i - 1,
        );
    }
}

/// A descriptor file more than two levels below the root is never found:
/// removing it from the traversal changes nothing.
pub proof fn lemma_deep_file_ignored(
    root: Seq<char>,
    files: Seq<FoundFile>,
    acc: Seq<(Seq<char>, ConfigModel)>,
    i: int,
)
    requires
        0 <= i < files.len(),
        files[i].path@.len() > 2,
    ensures
        discover_acc(root, files, acc) == discover_acc(root, files.remove(i), acc),
{
    assert(!qualifies(root, files[i]));
    lemma_inert_file_ignored(root, files, acc, i);
}

/// A descriptor file with invalid content is excluded and has no effect on
/// the rest of discovery: removing it from the traversal changes nothing.
pub proof fn lemma_invalid_descriptor_ignored(
    root: Seq<char>,
    files: Seq<FoundFile>,
    acc: Seq<(Seq<char>, ConfigModel)>,
    i: int,
)
    requires
        0 <= i < files.len(),
        match json_doc(files[i].content@) {
            None => true,
            Some(d) => !descriptor_ok(d),
        },
    ensures
        discover_acc(root, files, acc) == discover_acc(root, files.remove(i), acc),
{
    lemma_inert_file_ignored(root, files, acc, i);
}

} // verus!
