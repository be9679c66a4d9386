//! Host-resource provisioning plans.
//!
//! For each service with a complete host identity the provisioner plans, in
//! order: ensure the group, ensure the user, create and own the data
//! directory, create the special subdirectories and re-apply ownership, and
//! stage each config file under a destination name and mode.  The plans are
//! pure values; the caller performs them through its privileged runner and
//! aborts on the first failure.

use vstd::prelude::*;
use vstd::string::StringExecFns;
use crate::descriptor::{ServiceConfig, ConfigModel};

verus! {

/// One host-level operation.  `EnsureGroup` and `EnsureUser` are planned
/// only when the account is absent, so performing a plan twice creates
/// nothing twice.
pub enum HostAction {
    EnsureGroup { group: String, gid: u32 },
    EnsureUser { user: String, uid: u32, group: String, comment: String },
    MakeDir { path: String },
    Chown { path: String, uid: u32, gid: u32, recursive: bool },
    Chmod { path: String, mode: String, recursive: bool },
    CopyFile { source: String, dest: String },
}

/// The mathematical value of a host action.
#[verifier::ext_equal]
pub ghost enum ActionModel {
    EnsureGroup { group: Seq<char>, gid: u32 },
    EnsureUser { user: Seq<char>, uid: u32, group: Seq<char>, comment: Seq<char> },
    MakeDir { path: Seq<char> },
    Chown { path: Seq<char>, uid: u32, gid: u32, recursive: bool },
    Chmod { path: Seq<char>, mode: Seq<char>, recursive: bool },
    CopyFile { source: Seq<char>, dest: Seq<char> },
}

impl View for HostAction {
    type V = ActionModel;

    open spec fn view(&self) -> ActionModel {
        match self {
            HostAction::EnsureGroup { group, gid } => ActionModel::EnsureGroup {
                group: group@,
                gid: *gid,
            },
            HostAction::EnsureUser { user, uid, group, comment } => ActionModel::EnsureUser {
                user: user@,
                uid: *uid,
                group: group@,
                comment: comment@,
            },
            HostAction::MakeDir { path } => ActionModel::MakeDir { path: path@ },
            HostAction::Chown { path, uid, gid, recursive } => ActionModel::Chown {
                path: path@,
                uid: *uid,
                gid: *gid,
                recursive: *recursive,
            },
            HostAction::Chmod { path, mode, recursive } => ActionModel::Chmod {
                path: path@,
                mode: mode@,
                recursive: *recursive,
            },
            HostAction::CopyFile { source, dest } => ActionModel::CopyFile {
                source: source@,
                dest: dest@,
            },
        }
    }
}

pub open spec fn actions_view(v: Seq<HostAction>) -> Seq<ActionModel> {
    v.map_values(|a: HostAction| a@)
}

/// The description a created user gets when the descriptor supplies none.
pub open spec fn generic_description() -> Seq<char> {
    "service account"@
}

/// A service has account and directory work only with the full identity
/// tuple.
pub open spec fn has_identity(m: ConfigModel) -> bool {
    &&& m.username is Some
    &&& m.uid is Some
    &&& m.groupname is Some
    &&& m.gid is Some
}

/// The account actions for one service: create the group only when absent,
/// then the user only when absent.
pub open spec fn account_actions_model(
    m: ConfigModel,
    group_exists: bool,
    user_exists: bool,
) -> Seq<ActionModel> {
    if has_identity(m) {
        let group_part: Seq<ActionModel> = if group_exists {
            Seq::empty()
        } else {
            seq![ActionModel::EnsureGroup { group: m.groupname->0, gid: m.gid->0 }]
        };
        let user_part: Seq<ActionModel> = if user_exists {
            Seq::empty()
        } else {
            seq![ActionModel::EnsureUser {
                user: m.username->0,
                uid: m.uid->0,
                group: m.groupname->0,
                comment: match m.description {
                    Some(d) => d,
                    None => generic_description(),
                },
            }]
        };
        group_part + user_part
    } else {
        Seq::empty()
    }
}

/// Plans the account work for one service, given whether the group and the
/// user already exist on the host.
pub fn account_actions(c: &ServiceConfig, group_exists: bool, user_exists: bool)
    -> (r: Vec<HostAction>)
    ensures
        actions_view(r@) == account_actions_model(c@, group_exists, user_exists),
{
    let mut out: Vec<HostAction> = Vec::new();
    proof {
        assert(actions_view(out@) =~= Seq::<ActionModel>::empty());
    }
    match (&c.username, &c.uid, &c.groupname, &c.gid) {
        (Some(username), Some(uid), Some(groupname), Some(gid)) => {
            if !group_exists {
                out.push(HostAction::EnsureGroup { group: groupname.clone(), gid: *gid });
            }
            if !user_exists {
                let comment: String = match &c.description {
                    Some(d) => d.clone(),
                    None => String::from_str("service account"),
                };
                out.push(HostAction::EnsureUser {
                    user: username.clone(),
                    uid: *uid,
                    group: groupname.clone(),
                    comment,
                });
            }
            proof {
                assert(actions_view(out@)
                    =~= account_actions_model(c@, group_exists, user_exists));
            }
        },
        _ => {
            proof {
                assert(!has_identity(c@));
                assert(actions_view(out@)
                    =~= account_actions_model(c@, group_exists, user_exists));
            }
        },
    }
    out
}

/// Against a host already in the target state — group and user both exist —
/// the account plan is empty: nothing is created twice.
pub proof fn lemma_account_plan_idempotent(m: ConfigModel)
    ensures
        account_actions_model(m, true, true) == Seq::<ActionModel>::empty(),
{
    assert(account_actions_model(m, true, true) =~= Seq::<ActionModel>::empty());
}

/// An existence check short-circuits creation: an existing group is never
/// re-created, an existing user is never re-created.
pub proof fn lemma_existing_account_not_recreated(m: ConfigModel, ge: bool, ue: bool)
    ensures
        ge ==> forall|i: int| 0 <= i < account_actions_model(m, ge, ue).len()
            ==> !(account_actions_model(m, ge, ue)[i] is EnsureGroup),
        ue ==> forall|i: int| 0 <= i < account_actions_model(m, ge, ue).len()
            ==> !(account_actions_model(m, ge, ue)[i] is EnsureUser),
{
}

/// The directory mode every data directory gets.
pub open spec fn dir_mode() -> Seq<char> {
    "755"@
}

/// The directory actions for one service: create the data directory, own
/// it, set its mode; then, when special subdirectories are declared, create
/// each and re-apply ownership and mode to the whole tree, since creating
/// them may reset inherited attributes.
pub open spec fn directory_actions_model(m: ConfigModel) -> Seq<ActionModel> {
    if has_identity(m) && m.data_dir is Some {
        let dd = m.data_dir->0;
        let base = seq![
            ActionModel::MakeDir { path: dd },
            ActionModel::Chown { path: dd, uid: m.uid->0, gid: m.gid->0, recursive: true },
            ActionModel::Chmod { path: dd, mode: dir_mode(), recursive: true },
        ];
        match m.special_dirs {
            Some(sds) => base + sds.map_values(|s: Seq<char>| ActionModel::MakeDir {
                path: dd + "/"@ + s,
            }) + seq![
                ActionModel::Chown { path: dd, uid: m.uid->0, gid: m.gid->0, recursive: true },
                ActionModel::Chmod { path: dd, mode: dir_mode(), recursive: true },
            ],
            None => base,
        }
    } else {
        Seq::empty()
    }
}

/// Plans the data-directory work for one service.
#[verifier::loop_isolation(false)]
pub fn directory_actions(c: &ServiceConfig) -> (r: Vec<HostAction>)
    ensures
        actions_view(r@) == directory_actions_model(c@),
{
    let mut out: Vec<HostAction> = Vec::new();
    match (&c.username, &c.uid, &c.groupname, &c.gid, &c.data_dir) {
        (Some(_username), Some(uid), Some(_groupname), Some(gid), Some(data_dir)) => {
            out.push(HostAction::MakeDir { path: data_dir.clone() });
            out.push(HostAction::Chown {
                path: data_dir.clone(),
                uid: *uid,
                gid: *gid,
                recursive: true,
            });
            out.push(HostAction::Chmod {
                path: data_dir.clone(),
                mode: String::from_str("755"),
                recursive: true,
            });
            match &c.special_dirs {
                Some(sds) => {
                    let ghost base = actions_view(out@);
                    let n = sds.len();
                    let mut i: usize = 0;
                    while i < n
                        invariant
                            i <= n,
                            actions_view(out@) =~= base
                                + sds@.take(i as int).map_values(|s: String|
                                    ActionModel::MakeDir { path: data_dir@ + "/"@ + s@ }),
                        decreases n - i,
                    {
                        let mut p = data_dir.clone();
                        p.append("/");
                        p.append(sds[i].as_str());
                        let ghost out_pre = out@;
                        out.push(HostAction::MakeDir { path: p });
                        proof {
                            let mk = |s: String| ActionModel::MakeDir {
                                path: data_dir@ + "/"@ + s@,
                            };
                            assert(sds@.take(i + 1).map_values(mk)
                                =~= sds@.take(i as int).map_values(mk) + seq![mk(sds@[i as int])]);
                            assert(out@.last()@ == mk(sds@[i as int]));
                            assert(actions_view(out@)
                                =~= actions_view(out_pre) + seq![mk(sds@[i as int])]);
                            assert(base + sds@.take(i + 1).map_values(mk)
                                =~= (base + sds@.take(i as int).map_values(mk))
                                    + seq![mk(sds@[i as int])]);
                            assert(actions_view(out@) =~= base + sds@.take(i + 1).map_values(mk));
                        }
                        i += 1;
                    }
                    let ghost mid = out@;
                    out.push(HostAction::Chown {
                        path: data_dir.clone(),
                        uid: *uid,
                        gid: *gid,
                        recursive: true,
                    });
                    out.push(HostAction::Chmod {
                        path: data_dir.clone(),
                        mode: String::from_str("755"),
                        recursive: true,
                    });
                    proof {
                        assert(sds@.take(n as int) =~= sds@);
                        assert(sds@.map_values(|s: String| ActionModel::MakeDir {
                            path: data_dir@ + "/"@ + s@,
                        }) =~= crate::descriptor::texts_view(sds@).map_values(
                            |s: Seq<char>| ActionModel::MakeDir { path: data_dir@ + "/"@ + s },
                        ));
                        assert(actions_view(out@) =~= actions_view(mid) + seq![
                            ActionModel::Chown {
                                path: data_dir@,
                                uid: c@.uid->0,
                                gid: c@.gid->0,
                                recursive: true,
                            },
                            ActionModel::Chmod {
                                path: data_dir@,
                                mode: dir_mode(),
                                recursive: true,
                            },
                        ]);
                        assert(actions_view(out@) =~= directory_actions_model(c@));
                    }
                },
                None => {
                    proof {
                        assert(actions_view(out@) =~= directory_actions_model(c@));
                    }
                },
            }
        },
        _ => {
            proof {
                assert(actions_view(out@) =~= directory_actions_model(c@));
            }
        },
    }
    out
}

/// Whether `s` ends in `suffix`.
pub open spec fn ends_with(s: Seq<char>, suffix: Seq<char>) -> bool {
    s.len() >= suffix.len() && s.skip((s.len() - suffix.len()) as int) == suffix
}

pub fn ends_with_str(s: &str, suffix: &str) -> (r: bool)
    ensures
        r == ends_with(s@, suffix@),
{
    let ls = s.unicode_len();
    let lf = suffix.unicode_len();
    if ls < lf {
        return false;
    }
    let off = ls - lf;
    let mut i: usize = 0;
    while i < lf
        invariant
            ls == s@.len(),
            lf == suffix@.len(),
            off == ls - lf,
            i <= lf,
            forall|j: int| 0 <= j < i ==> s@[off + j] == suffix@[j],
        decreases lf - i,
    {
        if s.get_char(off + i) != suffix.get_char(i) {
            assert(!ends_with(s@, suffix@)) by {
                if s@.skip(off as int) == suffix@ {
                    assert(s@.skip(off as int)[i as int] == suffix@[i as int]);
                }
            }
            return false;
        }
        i += 1;
    }
    proof {
        assert(s@.skip(off as int) =~= suffix@);
    }
    true
}

/// The marker a config file may carry to say it is only a template.
pub open spec fn template_suffix() -> Seq<char> {
    ".example"@
}

/// The destination name of a config file: every trailing template marker is
/// stripped.
pub open spec fn strip_template_suffix(s: Seq<char>) -> Seq<char>
    decreases s.len(),
{
    if template_suffix().len() > 0 && ends_with(s, template_suffix()) {
        strip_template_suffix(s.take((s.len() - template_suffix().len()) as int))
    } else {
        s
    }
}

/// Computes a config file's destination name by stripping the trailing
/// template marker.
pub fn dest_file_name(file: &str) -> (r: String)
    ensures
        r@ == strip_template_suffix(file@),
{
    let mut cur: String = file.to_owned();
    while ends_with_str(cur.as_str(), ".example")
        invariant
            strip_template_suffix(file@) == strip_template_suffix(cur@),
        decreases cur@.len(),
    {
        proof {
            reveal_strlit(".example");
            assert(template_suffix().len() == 8);
        }
        let l = cur.unicode_len();
        let sl = ".example".unicode_len();
        let next = cur.as_str().substring_char(0, l - sl).to_owned();
        proof {
            assert(next@ == cur@.take((cur@.len() - template_suffix().len()) as int));
        }
        cur = next;
    }
    cur
}

/// The mode a staged config file gets: a secret-like name gets the most
/// restrictive mode, a script name an executable mode, anything else the
/// standard mode.
pub open spec fn mode_for(name: Seq<char>) -> Seq<char> {
    if name == "password.txt"@ {
        "600"@
    } else if ends_with(name, ".sh"@) {
        "755"@
    } else {
        "644"@
    }
}

pub fn mode_for_config_file(name: &str) -> (r: String)
    ensures
        r@ == mode_for(name@),
{
    if crate::doc::str_eq(name, "password.txt") {
        String::from_str("600")
    } else if ends_with_str(name, ".sh") {
        String::from_str("755")
    } else {
        String::from_str("644")
    }
}

/// Where a config file is staged from: under the service's source directory.
pub open spec fn source_path(base: Seq<char>, name: Seq<char>, file: Seq<char>) -> Seq<char> {
    base + "/"@ + name + "/"@ + file
}

/// The staging actions for one config file: nothing when the source is
/// missing (the caller warns); otherwise copy to the destination name, then
/// own and mode the destination.
pub open spec fn file_stage_actions(
    base: Seq<char>,
    name: Seq<char>,
    dd: Seq<char>,
    uid: u32,
    gid: u32,
    file: Seq<char>,
    present: bool,
) -> Seq<ActionModel> {
    if present {
        let dest = dd + "/"@ + strip_template_suffix(file);
        seq![
            ActionModel::CopyFile { source: source_path(base, name, file), dest: dest },
            ActionModel::Chown { path: dest, uid: uid, gid: gid, recursive: false },
            ActionModel::Chmod {
                path: dest,
                mode: mode_for(strip_template_suffix(file)),
                recursive: false,
            },
        ]
    } else {
        Seq::empty()
    }
}

pub open spec fn files_stage_actions(
    base: Seq<char>,
    name: Seq<char>,
    dd: Seq<char>,
    uid: u32,
    gid: u32,
    files: Seq<Seq<char>>,
    present: Seq<bool>,
) -> Seq<ActionModel>
    decreases files.len(),
{
    if files.len() == 0 {
        Seq::empty()
    } else {
        file_stage_actions(base, name, dd, uid, gid, files[0], present[0])
            + files_stage_actions(
            base,
            name,
            dd,
            uid,
            gid,
            files.drop_first(),
            present.drop_first(),
        )
    }
}

/// How many config files a descriptor declares.
pub open spec fn config_file_count(m: ConfigModel) -> nat {
    match m.config_files {
        Some(fs) => fs.len(),
        None => 0,
    }
}

/// The config-file staging plan for one service: nothing without the
/// complete host identity, a data directory and declared files.
pub open spec fn config_actions_model(
    base: Seq<char>,
    name: Seq<char>,
    m: ConfigModel,
    present: Seq<bool>,
) -> Seq<ActionModel> {
    if has_identity(m) && m.data_dir is Some && m.config_files is Some {
        files_stage_actions(base, name, m.data_dir->0, m.uid->0, m.gid->0, m.config_files->0, present)
    } else {
        Seq::empty()
    }
}

/// Plans the config-file staging for one service; `present` says, file by
/// file, whether the source exists.
#[verifier::loop_isolation(false)]
pub fn config_file_actions(base: &str, name: &str, c: &ServiceConfig, present: &Vec<bool>)
    -> (r: Vec<HostAction>)
    requires
        present@.len() == config_file_count(c@),
    ensures
        actions_view(r@) == config_actions_model(base@, name@, c@, present@),
{
    let mut out: Vec<HostAction> = Vec::new();
    match (&c.username, &c.uid, &c.groupname, &c.gid, &c.data_dir, &c.config_files) {
        (Some(_username), Some(uid), Some(_groupname), Some(gid), Some(data_dir), Some(files)) => {
            let ghost fseq = crate::descriptor::texts_view(files@);
            let n = files.len();
            let mut i: usize = 0;
            proof {
                assert(fseq.skip(0) =~= fseq);
                assert(present@.skip(0) =~= present@);
            }
            while i < n
                invariant
                    i <= n,
                    config_actions_model(base@, name@, c@, present@) =~= actions_view(out@)
                        + files_stage_actions(
                        base@,
                        name@,
                        data_dir@,
                        *uid,
                        *gid,
                        fseq.skip(i as int),
                        present@.skip(i as int),
                    ),
                decreases n - i,
            {
                proof {
                    assert(fseq.skip(i as int)[0] == fseq[i as int]);
                    assert(fseq.skip(i as int).drop_first() =~= fseq.skip(i + 1));
                    assert(present@.skip(i as int).drop_first() =~= present@.skip(i + 1));
                }
                if present[i] {
                    let file = &files[i];
                    let mut source: String = base.to_owned();
                    source.append("/");
                    source.append(name);
                    source.append("/");
                    source.append(file.as_str());
                    let dest_name = dest_file_name(file.as_str());
                    let mut dest: String = data_dir.clone();
                    dest.append("/");
                    dest.append(dest_name.as_str());
                    let mode = mode_for_config_file(dest_name.as_str());
                    let ghost out0 = out@;
                    out.push(HostAction::CopyFile { source, dest: dest.clone() });
                    out.push(HostAction::Chown {
                        path: dest.clone(),
                        uid: *uid,
                        gid: *gid,
                        recursive: false,
                    });
                    out.push(HostAction::Chmod { path: dest, mode, recursive: false });
                    proof {
                        assert(actions_view(out@) =~= actions_view(out0)
                            + file_stage_actions(
                            base@,
                            name@,
                            data_dir@,
                            *uid,
                            *gid,
                            fseq[i as int],
                            present@[i as int],
                        ));
                        assert(config_actions_model(base@, name@, c@, present@)
                            =~= actions_view(out@) + files_stage_actions(
                            base@,
                            name@,
                            data_dir@,
                            *uid,
                            *gid,
                            fseq.skip(i + 1),
                            present@.skip(i + 1),
                        ));
                    }
                } else {
                    proof {
                        assert(file_stage_actions(
                            base@,
                            name@,
                            data_dir@,
                            *uid,
                            *gid,
                            fseq[i as int],
                            present@[i as int],
                        ) =~= Seq::<ActionModel>::empty());
                        assert(config_actions_model(base@, name@, c@, present@)
                            =~= actions_view(out@) + files_stage_actions(
                            base@,
                            name@,
                            data_dir@,
                            *uid,
                            *gid,
                            fseq.skip(i + 1),
                            present@.skip(i + 1),
                        ));
                    }
                }
                i += 1;
            }
            proof {
                assert(fseq.skip(n as int).len() == 0);
                assert(files_stage_actions(
                    base@,
                    name@,
                    data_dir@,
                    *uid,
                    *gid,
                    fseq.skip(n as int),
                    present@.skip(n as int),
                ) =~= Seq::<ActionModel>::empty());
                assert(actions_view(out@) =~= config_actions_model(base@, name@, c@, present@));
            }
        },
        _ => {
            proof {
                assert(actions_view(out@) =~= config_actions_model(base@, name@, c@, present@));
            }
        },
    }
    out
}

} // verus!
