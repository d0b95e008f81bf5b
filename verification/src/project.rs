//! A project's `ops` repo config (`project.yaml`) and the member changes the
//! dashboard commits to it.

use vstd::prelude::*;
use vstd::string::*;

use crate::text::{chars_of, str_eq};

verus! {

/// A member's role in one project.
#[derive(Debug, Clone, Copy, PartialEq, Eq, Structural)]
pub enum Role {
    /// Production actions, member management, secrets recipient.
    Admin,
    /// Stable/ephemeral actions only.
    Developer,
}

#[derive(Debug, Clone)]
pub struct Member {
    /// GitHub username — the identity everywhere.
    pub user: String,
    pub role: Role,
}

/// An app declared in `project.yaml`.
#[derive(Debug, Clone)]
pub struct AppDecl {
    pub name: String,
    pub template: String,
}

#[derive(Debug, Clone)]
pub struct ProjectConfig {
    pub name: String,
    pub members: Vec<Member>,
    pub apps: Vec<AppDecl>,
}

/// One requested membership change: `role` is `admin`, `developer` or `remove`.
#[derive(Debug, Clone)]
pub struct MemberChange {
    pub user: String,
    pub role: String,
}

/// Why a member change was refused.
#[derive(Debug, Clone, PartialEq, Eq)]
pub enum MemberChangeError {
    InvalidUsername,
    NotAMember(String),
    BadRole(String),
}

impl MemberChangeError {
    /// The refusal, as the API words it.
    pub fn message(&self) -> (m: String)
        ensures
            m@ == change_error_message(*self),
    {
        match self {
            MemberChangeError::InvalidUsername => String::from_str("invalid GitHub username"),
            MemberChangeError::NotAMember(user) => {
                let mut m = user.clone();
                m.append(" is not a member");
                m
            },
            MemberChangeError::BadRole(role) => {
                let mut m = String::from_str("role must be admin|developer|remove, got ");
                m.append(role.as_str());
                m
            },
        }
    }
}

pub open spec fn change_error_message(e: MemberChangeError) -> Seq<char> {
    match e {
        MemberChangeError::InvalidUsername => "invalid GitHub username"@,
        MemberChangeError::NotAMember(user) => user@ + " is not a member"@,
        MemberChangeError::BadRole(role) => "role must be admin|developer|remove, got "@ + role@,
    }
}

/// What a committed member change leaves behind: the commit message, the
/// event-log line, and the reply.
pub fn member_change_record(action: &str, actor: &str) -> (r: (String, String, String))
    ensures
        r.0@ == "members: "@ + action@ + " via dashboard by "@ + actor@,
        r.1@ == action@ + " by "@ + actor@,
        r.2@ == action@ + " committed; org sync will propagate"@,
{
    let mut commit = String::from_str("members: ");
    commit.append(action);
    commit.append(" via dashboard by ");
    commit.append(actor);
    let mut event = String::from_str(action);
    event.append(" by ");
    event.append(actor);
    let mut reply = String::from_str(action);
    reply.append(" committed; org sync will propagate");
    (commit, event, reply)
}

/// A GitHub username as the API accepts it: non-empty ASCII letters, digits
/// and `-`.
pub open spec fn valid_username(u: Seq<char>) -> bool {
    &&& u.len() > 0
    &&& forall|i: int| 0 <= i < u.len() ==> ({
        let c = #[trigger] u[i];
        ('a' <= c <= 'z') || ('A' <= c <= 'Z') || ('0' <= c <= '9') || c == '-'
    })
}

/// An app name as the API accepts it: non-empty lower-case ASCII letters,
/// digits and `-`.
pub open spec fn valid_app_name(a: Seq<char>) -> bool {
    &&& a.len() > 0
    &&& forall|i: int| 0 <= i < a.len() ==> ({
        let c = #[trigger] a[i];
        ('a' <= c <= 'z') || ('0' <= c <= '9') || c == '-'
    })
}

pub fn is_valid_username(u: &str) -> (ok: bool)
    ensures
        ok == valid_username(u@),
{
    let v = chars_of(u);
    if v.len() == 0 {
        return false;
    }
    let mut i: usize = 0;
    while i < v.len()
        invariant
            v@ == u@,
            i <= v.len(),
            forall|k: int| 0 <= k < i ==> ({
                let c = #[trigger] v@[k];
                ('a' <= c <= 'z') || ('A' <= c <= 'Z') || ('0' <= c <= '9') || c == '-'
            }),
        decreases v.len() - i,
    {
        let c = v[i];
        if !(('a' <= c && c <= 'z') || ('A' <= c && c <= 'Z') || ('0' <= c && c <= '9') || c == '-') {
            return false;
        }
        i = i + 1;
    }
    true
}

/// Whether `app` is an acceptable app name.
pub fn check_name(app: &str) -> (ok: bool)
    ensures
        ok == valid_app_name(app@),
{
    let v = chars_of(app);
    if v.len() == 0 {
        return false;
    }
    let mut i: usize = 0;
    while i < v.len()
        invariant
            v@ == app@,
            i <= v.len(),
            forall|k: int| 0 <= k < i ==> ({
                let c = #[trigger] v@[k];
                ('a' <= c <= 'z') || ('0' <= c <= '9') || c == '-'
            }),
        decreases v.len() - i,
    {
        let c = v[i];
        if !(('a' <= c && c <= 'z') || ('0' <= c && c <= '9') || c == '-') {
            return false;
        }
        i = i + 1;
    }
    true
}

/// The role a dashboard edit of one manifest file needs: the production
/// overlay is a production action; the other overlays and the base are not.
/// `None` for a file that is not part of an app's manifest.
pub open spec fn manifest_file_role_spec(file: Seq<char>) -> Option<Role> {
    if file == "production.yaml"@ {
        Some(Role::Admin)
    } else if file == "base.yaml"@ || file == "stable.yaml"@ || file == "ephemeral.yaml"@ {
        Some(Role::Developer)
    } else {
        None
    }
}

/// Which role may edit `file` of an app's manifest, or `None` when `file` is
/// not one of its four files.
pub fn manifest_file_role(file: &str) -> (r: Option<Role>)
    ensures
        r == manifest_file_role_spec(file@),
{
    if str_eq(file, "production.yaml") {
        Some(Role::Admin)
    } else if str_eq(file, "base.yaml") || str_eq(file, "stable.yaml") || str_eq(file, "ephemeral.yaml") {
        Some(Role::Developer)
    } else {
        None
    }
}

/// The refusal for a file outside the manifest.
pub fn manifest_file_refusal() -> (m: String)
    ensures
        m@ == "file must be one of [\"base.yaml\", \"stable.yaml\", \"production.yaml\", \"ephemeral.yaml\"]"@,
{
    String::from_str("file must be one of [\"base.yaml\", \"stable.yaml\", \"production.yaml\", \"ephemeral.yaml\"]")
}

/// What a committed manifest edit leaves behind: the path it wrote, the commit
/// message, the event-log line and the reply.
pub fn manifest_edit_record(app: &str, file: &str, actor: &str) -> (r: (String, String, String, String))
    ensures
        r.0@ == "apps/"@ + app@ + "/"@ + file@,
        r.1@ == "manifest("@ + app@ + "): edit "@ + file@ + " via dashboard by "@ + actor@,
        r.2@ == r.0@ + " by "@ + actor@,
        r.3@ == r.0@ + " committed; render PRs will propagate the change"@,
{
    let mut path = String::from_str("apps/");
    path.append(app);
    path.append("/");
    path.append(file);
    let mut message = String::from_str("manifest(");
    message.append(app);
    message.append("): edit ");
    message.append(file);
    message.append(" via dashboard by ");
    message.append(actor);
    let mut event = path.clone();
    event.append(" by ");
    event.append(actor);
    let mut reply = path.clone();
    reply.append(" committed; render PRs will propagate the change");
    (path, message, event, reply)
}

/// The members whose user is not `user`, in order.
pub open spec fn without_user(members: Seq<Member>, user: Seq<char>) -> Seq<Member> {
    members.filter(|m: Member| m.user@ != user)
}

/// `user` is a member.
pub open spec fn has_user(members: Seq<Member>, user: Seq<char>) -> bool {
    exists|k: int| 0 <= k < members.len() && #[trigger] members[k].user@ == user
}

/// The position of the first member named `user`.
pub open spec fn first_with_user(members: Seq<Member>, user: Seq<char>) -> int
    recommends
        has_user(members, user),
{
    choose|k: int| 0 <= k < members.len() && members[k].user@ == user
        && forall|j: int| 0 <= j < k ==> #[trigger] members[j].user@ != user
}

/// The members after setting `user`'s role: the first member of that name
/// gets `role`, or a new member is appended.
pub open spec fn upserted(members: Seq<Member>, user: String, role: Role) -> Seq<Member> {
    if has_user(members, user@) {
        let k = first_with_user(members, user@);
        members.update(k, Member { user: members[k].user, role })
    } else {
        members.push(Member { user, role })
    }
}

/// The role named `r`, if it is `admin` or `developer`.
pub open spec fn role_named(r: Seq<char>) -> Option<Role> {
    if r == "admin"@ {
        Some(Role::Admin)
    } else if r == "developer"@ {
        Some(Role::Developer)
    } else {
        None
    }
}

fn find_user(members: &Vec<Member>, user: &String) -> (k: Option<usize>)
    ensures
        match k {
            Some(k) => k < members.len() && members@[k as int].user@ == user@
                && forall|j: int| 0 <= j < k ==> #[trigger] members@[j].user@ != user@,
            None => !has_user(members@, user@),
        },
{
    let mut k: usize = 0;
    while k < members.len()
        invariant
            k <= members.len(),
            forall|j: int| 0 <= j < k ==> #[trigger] members@[j].user@ != user@,
        decreases members.len() - k,
    {
        if members[k].user == *user {
            return Some(k);
        }
        k = k + 1;
    }
    None
}

proof fn lemma_first_with_user(members: Seq<Member>, user: Seq<char>, k: int)
    requires
        0 <= k < members.len(),
        members[k].user@ == user,
        forall|j: int| 0 <= j < k ==> #[trigger] members[j].user@ != user,
    ensures
        has_user(members, user),
        first_with_user(members, user) == k,
{
    let f = first_with_user(members, user);
    assert(0 <= f < members.len() && members[f].user@ == user && forall|j: int| 0 <= j < f ==> #[trigger] members[j].user@ != user);
    if f < k {
        assert(members[f].user@ != user);
    }
    if k < f {
        assert(members[k].user@ != user);
    }
}

/// Drop every member named `user`; whether there was one.
fn remove_member(members: &mut Vec<Member>, user: &String) -> (removed: bool)
    ensures
        removed == has_user(old(members)@, user@),
        removed ==> final(members)@ == without_user(old(members)@, user@),
        !removed ==> final(members)@ == old(members)@,
{
    let ghost pred = |m: Member| m.user@ != user@;
    let ghost before = members@;
    let mut kept: Vec<Member> = Vec::new();
    let mut i: usize = 0;
    let mut removed = false;
    assert(before.take(0).filter(pred) =~= Seq::<Member>::empty()) by {
        reveal(Seq::filter);
    }
    while i < members.len()
        invariant
            members@ == before,
            pred == (|m: Member| m.user@ != user@),
            i <= members.len(),
            kept@ == before.take(i as int).filter(pred),
            removed == exists|k: int| 0 <= k < i && #[trigger] before[k].user@ == user@,
        decreases members.len() - i,
    {
        let m = &members[i];
        proof {
            before.take(i as int).lemma_filter_push(before[i as int], pred);
            assert(before.take(i as int).push(before[i as int]) =~= before.take(i + 1));
        }
        if m.user == *user {
            removed = true;
        } else {
            let copy = Member { user: m.user.clone(), role: m.role };
            kept.push(copy);
        }
        i = i + 1;
    }
    assert(before.take(before.len() as int) =~= before);
    if removed {
        *members = kept;
    }
    removed
}

/// Apply one membership change to `members` and return the action it
/// performed (`remove <user>` or `<user> → <role>`).
///
/// The user must be a valid GitHub username. `remove` drops every member of
/// that name and fails when there is none; `admin`/`developer` sets the role
/// of the first member of that name, or appends a new member. Any other role
/// is refused. A refused change leaves `members` as it was.
pub fn apply_member_change(members: &mut Vec<Member>, change: &MemberChange) -> (r: Result<String, MemberChangeError>)
    ensures
        !valid_username(change.user@) ==> r == Err::<String, MemberChangeError>(MemberChangeError::InvalidUsername),
        valid_username(change.user@) && change.role@ == "remove"@ ==> {
            if has_user(old(members)@, change.user@) {
                &&& final(members)@ == without_user(old(members)@, change.user@)
                &&& r matches Ok(action) && action@ == "remove "@ + change.user@
            } else {
                r == Err::<String, MemberChangeError>(MemberChangeError::NotAMember(change.user))
            }
        },
        valid_username(change.user@) && role_named(change.role@) is Some ==> {
            &&& final(members)@ == upserted(old(members)@, change.user, role_named(change.role@)->0)
            &&& r matches Ok(action) && action@ == change.user@ + " → "@ + change.role@
        },
        valid_username(change.user@) && change.role@ != "remove"@ && role_named(change.role@) is None
            ==> r == Err::<String, MemberChangeError>(MemberChangeError::BadRole(change.role)),
        r is Err ==> final(members)@ == old(members)@,
{
    proof {
        reveal_strlit("remove");
        reveal_strlit("admin");
        reveal_strlit("developer");
    }
    if !is_valid_username(change.user.as_str()) {
        return Err(MemberChangeError::InvalidUsername);
    }
    if str_eq(change.role.as_str(), "remove") {
        assert("remove"@.len() == 6 && "admin"@.len() == 5 && "developer"@.len() == 9);
        assert(role_named(change.role@) is None);
        if !remove_member(members, &change.user) {
            return Err(MemberChangeError::NotAMember(change.user.clone()));
        }
        let mut action = String::from_str("remove ");
        action.append(change.user.as_str());
        return Ok(action);
    }
    let role = if str_eq(change.role.as_str(), "admin") {
        Role::Admin
    } else if str_eq(change.role.as_str(), "developer") {
        Role::Developer
    } else {
        return Err(MemberChangeError::BadRole(change.role.clone()));
    };
    match find_user(members, &change.user) {
        Some(k) => {
            proof {
                lemma_first_with_user(members@, change.user@, k as int);
            }
            let user = members[k].user.clone();
            members.set(k, Member { user, role });
        },
        None => {
            members.push(Member { user: change.user.clone(), role });
        },
    }
    let mut action = change.user.clone();
    action.append(" → ");
    action.append(change.role.as_str());
    Ok(action)
}

proof fn lemma_first_exists_from(members: Seq<Member>, user: Seq<char>, k: int)
    requires
        0 <= k < members.len(),
        members[k].user@ == user,
    ensures
        exists|f: int| 0 <= f < members.len() && members[f].user@ == user
            && forall|j: int| 0 <= j < f ==> #[trigger] members[j].user@ != user,
    decreases k,
{
    if exists|j: int| 0 <= j < k && #[trigger] members[j].user@ == user {
        let j = choose|j: int| 0 <= j < k && #[trigger] members[j].user@ == user;
        lemma_first_exists_from(members, user, j);
    } else {
        assert(forall|j: int| 0 <= j < k ==> #[trigger] members[j].user@ != user);
    }
}

/// The first member named `user` is one, and no earlier member is.
proof fn lemma_first_with_user_props(members: Seq<Member>, user: Seq<char>)
    requires
        has_user(members, user),
    ensures
        0 <= first_with_user(members, user) < members.len(),
        members[first_with_user(members, user)].user@ == user,
        forall|j: int| 0 <= j < first_with_user(members, user) ==> #[trigger] members[j].user@ != user,
{
    let k = choose|k: int| 0 <= k < members.len() && #[trigger] members[k].user@ == user;
    lemma_first_exists_from(members, user, k);
}

/// After a role is set, looking the user up finds that role.
pub proof fn law_role_set_is_role_read(members: Seq<Member>, user: String, role: Role)
    ensures
        has_user(upserted(members, user, role), user@),
        upserted(members, user, role)[first_with_user(upserted(members, user, role), user@)].role == role,
{
    let u = upserted(members, user, role);
    if has_user(members, user@) {
        lemma_first_with_user_props(members, user@);
        let k = first_with_user(members, user@);
        assert(u[k].user@ == user@);
        assert forall|j: int| 0 <= j < k implies #[trigger] u[j].user@ != user@ by {
            assert(u[j] == members[j]);
        }
        lemma_first_with_user(u, user@, k);
    } else {
        let k = members.len() as int;
        assert(u[k].user@ == user@);
        assert forall|j: int| 0 <= j < k implies #[trigger] u[j].user@ != user@ by {
            assert(u[j] == members[j]);
        }
        lemma_first_with_user(u, user@, k);
    }
}

/// Setting the same role twice is the same as setting it once.
pub proof fn law_role_set_is_idempotent(members: Seq<Member>, user: String, role: Role)
    ensures
        upserted(upserted(members, user, role), user, role) == upserted(members, user, role),
{
    let u = upserted(members, user, role);
    law_role_set_is_role_read(members, user, role);
    lemma_first_with_user_props(u, user@);
    let k = first_with_user(u, user@);
    assert(u.update(k, Member { user: u[k].user, role }) =~= u);
}

/// After a user is removed, no member of that name is left, and every other
/// member is kept.
pub proof fn law_removed_user_is_gone(members: Seq<Member>, user: Seq<char>)
    ensures
        !has_user(without_user(members, user), user),
        forall|k: int| 0 <= k < members.len() && #[trigger] members[k].user@ != user ==>
            without_user(members, user).contains(members[k]),
{
    let pred = |m: Member| m.user@ != user;
    let w = members.filter(pred);
    assert forall|k: int| 0 <= k < w.len() implies #[trigger] w[k].user@ != user by {
        members.lemma_filter_pred(pred, k);
    }
    assert forall|k: int| 0 <= k < members.len() && #[trigger] members[k].user@ != user implies w.contains(members[k]) by {
        members.lemma_filter_contains(pred, k);
    }
}

} // verus!
