//! Selection of the services to operate on.
//!
//! Three mutually exclusive modes: an explicit list from the caller, the
//! auto-detected buildable set, or an interactive pick.  The interactive
//! menu shows every service in discovery order plus three meta-options; the
//! decisions behind the menu live here, the rendering and prompting with the
//! caller.

use vstd::prelude::*;
use vstd::string::StrSliceExecFns;
use crate::descriptor::texts_view;
use crate::graph::{acyclic_from, deps_of, reaches, ServiceEntry, ServiceGraph};

verus! {

/// ASCII whitespace, as stripped from explicit list entries.
pub open spec fn is_space(c: char) -> bool {
    c == ' ' || c == '\t' || c == '\n' || c == '\r'
}

/// A piece of text with leading and trailing whitespace removed.
pub open spec fn trim_model(s: Seq<char>) -> Seq<char>
    decreases s.len(),
{
    if s.len() == 0 {
        s
    } else if is_space(s[0]) {
        trim_model(s.drop_first())
    } else if is_space(s.last()) {
        trim_model(s.drop_last())
    } else {
        s
    }
}

/// The comma-separated pieces of `s`, each trimmed; `done` holds the pieces
/// already cut, `cur` the one being read.
pub open spec fn split_acc(s: Seq<char>, cur: Seq<char>, done: Seq<Seq<char>>) -> Seq<Seq<char>>
    decreases s.len(),
{
    if s.len() == 0 {
        done.push(trim_model(cur))
    } else if s[0] == ',' {
        split_acc(s.drop_first(), Seq::empty(), done.push(trim_model(cur)))
    } else {
        split_acc(s.drop_first(), cur.push(s[0]), done)
    }
}

/// An explicit service list: the comma-separated names, each trimmed, empty
/// pieces kept.
pub open spec fn split_trim_model(s: Seq<char>) -> Seq<Seq<char>> {
    split_acc(s, Seq::empty(), Seq::empty())
}

proof fn lemma_trim_range(s: Seq<char>, lo: int, hi: int)
    requires
        0 <= lo <= hi <= s.len(),
        forall|j: int| 0 <= j < lo ==> is_space(s[j]),
        forall|j: int| hi <= j < s.len() ==> is_space(s[j]),
        lo < hi ==> !is_space(s[lo]) && !is_space(s[hi - 1]),
        lo == hi ==> forall|j: int| 0 <= j < s.len() ==> is_space(s[j]),
    ensures
        trim_model(s) == s.subrange(lo, hi),
    decreases s.len(),
{
    if s.len() == 0 {
        assert(trim_model(s) =~= s.subrange(lo, hi));
    } else if is_space(s[0]) {
        let t = s.drop_first();
        if lo == hi {
            lemma_trim_range(t, 0, 0);
            assert(t.subrange(0, 0) =~= s.subrange(lo, hi));
        } else {
            assert(lo >= 1);
            assert(forall|j: int| 0 <= j < t.len() ==> t[j] == s[j + 1]);
            lemma_trim_range(t, lo - 1, hi - 1);
            assert(t.subrange(lo - 1, hi - 1) =~= s.subrange(lo, hi));
        }
    } else if is_space(s.last()) {
        let t = s.drop_last();
        assert(lo == 0);
        assert(hi < s.len());
        assert(forall|j: int| 0 <= j < t.len() ==> t[j] == s[j]);
        lemma_trim_range(t, lo, hi);
        assert(t.subrange(lo, hi) =~= s.subrange(lo, hi));
    } else {
        assert(lo == 0);
        assert(hi == s.len());
        assert(trim_model(s) =~= s.subrange(lo, hi));
    }
}

fn is_space_char(c: char) -> (r: bool)
    ensures
        r == is_space(c),
{
    c == ' ' || c == '\t' || c == '\n' || c == '\r'
}

/// Strips leading and trailing whitespace.
pub fn trim_str(s: &str) -> (r: String)
    ensures
        r@ == trim_model(s@),
{
    let n = s.unicode_len();
    let mut lo: usize = 0;
    while lo < n && is_space_char(s.get_char(lo))
        invariant
            n == s@.len(),
            lo <= n,
            forall|j: int| 0 <= j < lo ==> is_space(s@[j]),
        decreases n - lo,
    {
        lo += 1;
    }
    let mut hi: usize = n;
    while hi > lo && is_space_char(s.get_char(hi - 1))
        invariant
            n == s@.len(),
            lo <= hi <= n,
            forall|j: int| hi <= j < n ==> is_space(s@[j]),
        decreases hi,
    {
        hi -= 1;
    }
    proof {
        lemma_trim_range(s@, lo as int, hi as int);
    }
    s.substring_char(lo, hi).to_owned()
}

/// Splits an explicit comma-separated service list into its trimmed names;
/// no dependency expansion is performed.
pub fn split_service_list(arg: &str) -> (r: Vec<String>)
    ensures
        texts_view(r@) == split_trim_model(arg@),
{
    let n = arg.unicode_len();
    let mut out: Vec<String> = Vec::new();
    let mut start: usize = 0;
    let mut i: usize = 0;
    proof {
        assert(arg@.skip(0) =~= arg@);
        assert(arg@.subrange(0, 0) =~= Seq::<char>::empty());
        assert(texts_view(out@) =~= Seq::<Seq<char>>::empty());
    }
    while i < n
        invariant
            n == arg@.len(),
            start <= i <= n,
            split_trim_model(arg@) == split_acc(
                arg@.skip(i as int),
                arg@.subrange(start as int, i as int),
                texts_view(out@),
            ),
        decreases n - i,
    {
        proof {
            assert(arg@.skip(i as int)[0] == arg@[i as int]);
            assert(arg@.skip(i as int).drop_first() =~= arg@.skip(i + 1));
        }
        if arg.get_char(i) == ',' {
            let ghost done0 = texts_view(out@);
            let ghost cur0 = arg@.subrange(start as int, i as int);
            let piece = trim_str(arg.substring_char(start, i));
            out.push(piece);
            proof {
                assert(texts_view(out@) =~= done0.push(trim_model(cur0)));
                assert(arg@.subrange(i + 1, i + 1) =~= Seq::<char>::empty());
                assert(split_acc(arg@.skip(i as int), cur0, done0)
                    == split_acc(arg@.skip(i + 1), Seq::empty(), done0.push(trim_model(cur0))));
            }
            start = i + 1;
        } else {
            proof {
                assert(arg@.subrange(start as int, i + 1)
                    =~= arg@.subrange(start as int, i as int).push(arg@[i as int]));
            }
        }
        i += 1;
    }
    let ghost done0 = texts_view(out@);
    let ghost cur0 = arg@.subrange(start as int, n as int);
    let piece = trim_str(arg.substring_char(start, n));
    out.push(piece);
    proof {
        assert(arg@.skip(n as int).len() == 0);
        assert(split_acc(arg@.skip(n as int), cur0, done0) == done0.push(trim_model(cur0)));
        assert(texts_view(out@) =~= done0.push(trim_model(cur0)));
    }
    out
}

/// What a menu selection means: a concrete service by its position, every
/// service, the auto-detected set, or the isolated-test flow.
#[derive(PartialEq, Eq, Structural, Debug)]
pub enum MenuChoice {
    Service(usize),
    All,
    AutoDetect,
    IsolatedTest,
}

/// Maps the selected menu row to its meaning: the first `service_count`
/// rows are the services themselves, then come the three meta-options in
/// the order shown.
pub fn interpret_menu_selection(selection: usize, service_count: usize) -> (r: MenuChoice)
    ensures
        selection < service_count ==> r == MenuChoice::Service(selection),
        selection == service_count ==> r == MenuChoice::All,
        selection == service_count + 1 ==> r == MenuChoice::AutoDetect,
        selection > service_count + 1 ==> r == MenuChoice::IsolatedTest,
{
    if selection < service_count {
        MenuChoice::Service(selection)
    } else if selection == service_count {
        MenuChoice::All
    } else if selection - service_count == 1 {
        MenuChoice::AutoDetect
    } else {
        MenuChoice::IsolatedTest
    }
}

/// Expands a single interactive pick: with dependency expansion the full
/// resolved chain (dependencies first, the pick last), without it the single
/// name alone.
pub fn expand_selection(g: &ServiceGraph, name: &String, include_deps: bool)
    -> (r: Vec<String>)
    ensures
        texts_view(r@).no_duplicates(),
        r@.len() >= 1 && r@.last()@ == name@,
        include_deps ==> (forall|v: Seq<char>| #[trigger] texts_view(r@).contains(v)
            <==> reaches(*g, name@, v)),
        include_deps && acyclic_from(*g, name@) ==> forall|i: int, d: Seq<char>|
            0 <= i < r@.len() && #[trigger] deps_of(*g, texts_view(r@)[i]).contains(d)
                ==> texts_view(r@).take(i).contains(d),
        !include_deps ==> r@.len() == 1,
{
    if include_deps {
        g.resolve_dependencies(name)
    } else {
        let mut out: Vec<String> = Vec::new();
        out.push(name.clone());
        proof {
            assert(texts_view(out@) =~= seq![name@]);
        }
        out
    }
}

pub open spec fn names_model(entries: Seq<ServiceEntry>) -> Seq<Seq<char>> {
    entries.map_values(|e: ServiceEntry| e.name@)
}

/// Every discovered name, in discovery order.
pub fn all_service_names(services: &Vec<ServiceEntry>) -> (r: Vec<String>)
    ensures
        texts_view(r@) == names_model(services@),
{
    let mut out: Vec<String> = Vec::new();
    let n = services.len();
    let mut i: usize = 0;
    while i < n
        invariant
            n == services@.len(),
            i <= n,
            texts_view(out@) =~= names_model(services@.take(i as int)),
        decreases n - i,
    {
        out.push(services[i].name.clone());
        proof {
            assert(services@.take(i + 1).drop_last() =~= services@.take(i as int));
            assert(names_model(services@.take(i + 1))
                =~= names_model(services@.take(i as int)) + seq![services@[i as int].name@]);
            assert(texts_view(out@) =~= texts_view(out@.drop_last()) + seq![out@.last()@]);
        }
        i += 1;
    }
    proof {
        assert(services@.take(n as int) =~= services@);
    }
    out
}

/// The auto-detected set: the services that declare a build recipe whose
/// file is present, in discovery order.
pub open spec fn auto_detect_model(entries: Seq<ServiceEntry>, present: Seq<bool>) -> Seq<Seq<char>>
    decreases entries.len(),
{
    if entries.len() == 0 || present.len() == 0 {
        Seq::empty()
    } else {
        let rest = auto_detect_model(entries.drop_last(), present.drop_last());
        if entries.last().config.dockerfile is Some && present.last() {
            rest.push(entries.last().name@)
        } else {
            rest
        }
    }
}

/// Selects every service whose descriptor declares a build recipe and whose
/// recipe file is present; `recipe_present` says, service by service,
/// whether it is.
pub fn auto_detect_services(services: &Vec<ServiceEntry>, recipe_present: &Vec<bool>)
    -> (r: Vec<String>)
    requires
        recipe_present@.len() == services@.len(),
    ensures
        texts_view(r@) == auto_detect_model(services@, recipe_present@),
{
    let mut out: Vec<String> = Vec::new();
    let n = services.len();
    let mut i: usize = 0;
    while i < n
        invariant
            n == services@.len(),
            recipe_present@.len() == n,
            i <= n,
            texts_view(out@) =~= auto_detect_model(
                services@.take(i as int),
                recipe_present@.take(i as int),
            ),
        decreases n - i,
    {
        proof {
            assert(services@.take(i + 1).drop_last() =~= services@.take(i as int));
            assert(recipe_present@.take(i + 1).drop_last() =~= recipe_present@.take(i as int));
        }
        let has_recipe = match &services[i].config.dockerfile {
            Some(_) => true,
            None => false,
        };
        if has_recipe && recipe_present[i] {
            out.push(services[i].name.clone());
            proof {
                assert(texts_view(out@) =~= texts_view(out@.drop_last()) + seq![out@.last()@]);
            }
        }
        i += 1;
    }
    proof {
        assert(services@.take(n as int) =~= services@);
        assert(recipe_present@.take(n as int) =~= recipe_present@);
    }
    out
}

} // verus!
