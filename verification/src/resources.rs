//! The resource verifier.
//!
//! For every descriptor it lists the declared build-recipe file and required
//! binaries, resolved under the service's source directory, and reports how
//! many are present and which are missing.  The report never fails a run; it
//! is advisory output.

use vstd::prelude::*;
use vstd::string::StringExecFns;
use crate::descriptor::{ServiceConfig, texts_view};
use crate::provision::source_path;

verus! {

/// Builds the path of a declared file under the service's source directory.
pub fn resource_path(base: &str, name: &str, file: &str) -> (r: String)
    ensures
        r@ == source_path(base@, name@, file@),
{
    let mut p: String = base.to_owned();
    p.append("/");
    p.append(name);
    p.append("/");
    p.append(file);
    p
}

/// The path of the declared build recipe, when one is declared.
pub fn recipe_path(base: &str, name: &str, c: &ServiceConfig) -> (r: Option<String>)
    ensures
        match c.dockerfile {
            Some(_) => r matches Some(p)
                && p@ == source_path(base@, name@, c@.dockerfile->0),
            None => r is None,
        },
{
    match &c.dockerfile {
        Some(f) => Some(resource_path(base, name, f.as_str())),
        None => None,
    }
}

/// The paths of every declared required binary, in declared order.
pub open spec fn binary_paths_model(base: Seq<char>, name: Seq<char>, m: crate::descriptor::ConfigModel)
    -> Seq<Seq<char>> {
    match m.binaries {
        Some(bs) => bs.map_values(|b: Seq<char>| source_path(base, name, b)),
        None => Seq::empty(),
    }
}

pub fn binary_paths(base: &str, name: &str, c: &ServiceConfig) -> (r: Vec<String>)
    ensures
        texts_view(r@) == binary_paths_model(base@, name@, c@),
{
    let mut out: Vec<String> = Vec::new();
    match &c.binaries {
        Some(bs) => {
            let n = bs.len();
            let mut i: usize = 0;
            while i < n
                invariant
                    n == bs@.len(),
                    c.binaries matches Some(bv) && bv@ == bs@,
                    i <= n,
                    texts_view(out@) =~= texts_view(bs@).take(i as int).map_values(
                        |b: Seq<char>| source_path(base@, name@, b)),
                decreases n - i,
            {
                out.push(resource_path(base, name, bs[i].as_str()));
                proof {
                    let sp = |b: Seq<char>| source_path(base@, name@, b);
                    assert(texts_view(bs@).take(i + 1).map_values(sp)
                        =~= texts_view(bs@).take(i as int).map_values(sp)
                            + seq![sp(texts_view(bs@)[i as int])]);
                    assert(texts_view(out@)
                        =~= texts_view(out@.drop_last()) + seq![out@.last()@]);
                }
                i += 1;
            }
            proof {
                assert(texts_view(bs@).take(n as int) =~= texts_view(bs@));
                assert(texts_view(out@) =~= binary_paths_model(base@, name@, c@));
            }
        },
        None => {
            proof {
                assert(texts_view(out@) =~= binary_paths_model(base@, name@, c@));
            }
        },
    }
    out
}

/// Which of `paths` are missing: those whose presence flag is false, in
/// order.
pub open spec fn missing_model(ps: Seq<Seq<char>>, present: Seq<bool>) -> Seq<Seq<char>>
    decreases ps.len(),
{
    if ps.len() == 0 || present.len() == 0 {
        Seq::empty()
    } else {
        let rest = missing_model(ps.drop_last(), present.drop_last());
        if present.last() {
            rest
        } else {
            rest.push(ps.last())
        }
    }
}

/// A found/total tally with the missing paths listed.
pub struct MissingReport {
    pub total: usize,
    pub missing: Vec<String>,
}

proof fn lemma_missing_len(ps: Seq<Seq<char>>, present: Seq<bool>)
    ensures
        missing_model(ps, present).len() <= ps.len(),
    decreases ps.len(),
{
    if ps.len() > 0 && present.len() > 0 {
        lemma_missing_len(ps.drop_last(), present.drop_last());
    }
}

/// Tallies the declared paths against their presence flags.  The caller
/// reports `total - missing` as found and lists the missing paths.
pub fn missing_report(paths: &Vec<String>, present: &Vec<bool>) -> (r: MissingReport)
    requires
        present@.len() == paths@.len(),
    ensures
        r.total == paths@.len(),
        texts_view(r.missing@) == missing_model(texts_view(paths@), present@),
        r.missing@.len() <= r.total,
{
    let n = paths.len();
    let mut missing: Vec<String> = Vec::new();
    let mut i: usize = 0;
    while i < n
        invariant
            n == paths@.len(),
            present@.len() == n,
            i <= n,
            missing@.len() <= i,
            texts_view(missing@) =~= missing_model(
                texts_view(paths@).take(i as int),
                present@.take(i as int),
            ),
        decreases n - i,
    {
        proof {
            assert(texts_view(paths@).take(i + 1).drop_last()
                =~= texts_view(paths@).take(i as int));
            assert(present@.take(i + 1).drop_last() =~= present@.take(i as int));
        }
        if !present[i] {
            missing.push(paths[i].clone());
            proof {
                assert(texts_view(missing@)
                    =~= texts_view(missing@.drop_last()) + seq![missing@.last()@]);
            }
        }
        i += 1;
    }
    proof {
        assert(texts_view(paths@).take(n as int) =~= texts_view(paths@));
        assert(present@.take(n as int) =~= present@);
        lemma_missing_len(texts_view(paths@), present@);
    }
    MissingReport { total: n, missing }
}

} // verus!
