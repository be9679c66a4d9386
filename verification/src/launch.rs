//! The orchestration launch plan.
//!
//! Given the selected service names, the launcher plans the backend calls:
//! best-effort stop of any running stack, build of the selected images,
//! detached start of the selected services, and a status listing.  The
//! caller runs each command in order and aborts on a failed fatal one.

use vstd::prelude::*;
use vstd::string::StringExecFns;
use crate::descriptor::{ServiceConfig, texts_view};

verus! {

/// One backend invocation; a failure of a non-fatal one is ignored.
pub struct CommandSpec {
    pub program: String,
    pub args: Vec<String>,
    pub fatal: bool,
}

/// The mathematical value of a planned invocation.
#[verifier::ext_equal]
pub ghost struct CommandModel {
    pub program: Seq<char>,
    pub args: Seq<Seq<char>>,
    pub fatal: bool,
}

impl View for CommandSpec {
    type V = CommandModel;

    open spec fn view(&self) -> CommandModel {
        CommandModel { program: self.program@, args: texts_view(self.args@), fatal: self.fatal }
    }
}

pub open spec fn backend() -> Seq<char> {
    "docker-compose"@
}

/// The launch plan for a selection: stop (best effort), build the selected
/// services, start them detached, then show status.  Only a failed build or
/// start aborts the run; the stop and the status listing are best-effort.
pub open spec fn launch_model(names: Seq<Seq<char>>) -> Seq<CommandModel> {
    seq![
        CommandModel { program: backend(), args: seq!["down"@, "-v"@], fatal: false },
        CommandModel { program: backend(), args: seq!["build"@] + names, fatal: true },
        CommandModel { program: backend(), args: seq!["up"@, "-d"@] + names, fatal: true },
        CommandModel { program: backend(), args: seq!["ps"@], fatal: false },
    ]
}

fn push_all(args: &mut Vec<String>, services: &Vec<String>)
    ensures
        texts_view(final(args)@) == texts_view(old(args)@) + texts_view(services@),
{
    let n = services.len();
    let mut i: usize = 0;
    while i < n
        invariant
            n == services@.len(),
            i <= n,
            texts_view(args@) =~= texts_view(old(args)@) + texts_view(services@.take(i as int)),
        decreases n - i,
    {
        args.push(services[i].clone());
        proof {
            assert(texts_view(services@.take(i + 1))
                =~= texts_view(services@.take(i as int)) + seq![services@[i as int]@]);
            assert(texts_view(args@) =~= texts_view(args@.drop_last()) + seq![args@.last()@]);
            assert(texts_view(old(args)@) + texts_view(services@.take(i + 1))
                =~= (texts_view(old(args)@) + texts_view(services@.take(i as int)))
                    + seq![services@[i as int]@]);
        }
        i += 1;
    }
    proof {
        assert(services@.take(n as int) =~= services@);
        assert(texts_view(final(args)@) =~= texts_view(old(args)@) + texts_view(services@));
    }
}

/// Plans the backend calls for the selected services, in run order.
pub fn launch_commands(services: &Vec<String>) -> (r: Vec<CommandSpec>)
    ensures
        r@.map_values(|c: CommandSpec| c@) == launch_model(texts_view(services@)),
{
    let mut out: Vec<CommandSpec> = Vec::new();

    let mut down_args: Vec<String> = Vec::new();
    down_args.push(String::from_str("down"));
    down_args.push(String::from_str("-v"));
    out.push(CommandSpec {
        program: String::from_str("docker-compose"),
        args: down_args,
        fatal: false,
    });

    let mut build_args: Vec<String> = Vec::new();
    build_args.push(String::from_str("build"));
    push_all(&mut build_args, services);
    proof {
        assert(texts_view(build_args@) =~= seq!["build"@] + texts_view(services@));
    }
    out.push(CommandSpec {
        program: String::from_str("docker-compose"),
        args: build_args,
        fatal: true,
    });

    let mut up_args: Vec<String> = Vec::new();
    up_args.push(String::from_str("up"));
    up_args.push(String::from_str("-d"));
    push_all(&mut up_args, services);
    proof {
        assert(texts_view(up_args@) =~= seq!["up"@, "-d"@] + texts_view(services@));
    }
    out.push(CommandSpec {
        program: String::from_str("docker-compose"),
        args: up_args,
        fatal: true,
    });

    let mut ps_args: Vec<String> = Vec::new();
    ps_args.push(String::from_str("ps"));
    out.push(CommandSpec {
        program: String::from_str("docker-compose"),
        args: ps_args,
        fatal: false,
    });

    proof {
        assert(texts_view(out@[0].args@) =~= seq!["down"@, "-v"@]);
        assert(texts_view(out@[3].args@) =~= seq!["ps"@]);
        assert(out@.map_values(|c: CommandSpec| c@) =~= launch_model(texts_view(services@)));
    }
    out
}

/// The description shown for a service, falling back to a fixed label when
/// the descriptor gives none.
pub fn display_description(c: &ServiceConfig) -> (r: String)
    ensures
        match c.description {
            Some(_) => r@ == c@.description->0,
            None => r@ == "no description"@,
        },
{
    match &c.description {
        Some(d) => d.clone(),
        None => String::from_str("no description"),
    }
}

} // verus!
