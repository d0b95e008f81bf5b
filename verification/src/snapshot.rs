//! Repo snapshots from the bot's internal proxy, and the reconciler's audit
//! events.

use vstd::prelude::*;
use vstd::string::*;

use crate::text::{chars_of, chars_replace, replace_all, str_eq, string_of};

verus! {

broadcast use vstd::string::group_string_axioms;

/// A repo at one commit: its files by path, in ascending path order.
#[derive(Debug, Clone)]
pub struct Snapshot {
    pub commit: String,
    pub files: Vec<(String, Vec<u8>)>,
}

/// The content of the first file at `path`.
pub open spec fn file_at(files: Seq<(String, Vec<u8>)>, path: Seq<char>) -> Option<Seq<u8>>
    decreases files.len(),
{
    if files.len() == 0 {
        None
    } else if files[0].0@ == path {
        Some(files[0].1@)
    } else {
        file_at(files.drop_first(), path)
    }
}

impl Snapshot {
    /// The file at `path`.
    pub fn file(&self, path: &str) -> (r: Option<&Vec<u8>>)
        ensures
            match r {
                Some(b) => file_at(self.files@, path@) == Some(b@),
                None => file_at(self.files@, path@) is None,
            },
    {
        let mut i: usize = 0;
        assert(self.files@.skip(0) =~= self.files@);
        while i < self.files.len()
            invariant
                i <= self.files.len(),
                file_at(self.files@, path@) == file_at(self.files@.skip(i as int), path@),
            decreases self.files.len() - i,
        {
            if str_eq(self.files[i].0.as_str(), path) {
                return Some(&self.files[i].1);
            }
            assert(self.files@.skip(i as int).drop_first() =~= self.files@.skip(i + 1));
            i = i + 1;
        }
        None
    }
}

/// A branch name as one path segment: its `/`s encoded.
pub open spec fn urlencode_spec(s: Seq<char>) -> Seq<char> {
    replace_all(s, seq!['/'], seq!['%', '2', 'F'])
}

pub fn urlencode(s: &str) -> (r: String)
    ensures
        r@ == urlencode_spec(s@),
{
    let from: Vec<char> = vec!['/'];
    let to: Vec<char> = vec!['%', '2', 'F'];
    assert(from@ =~= seq!['/'] && to@ =~= seq!['%', '2', 'F']);
    string_of(&chars_replace(&chars_of(s), &from, &to))
}

/// Where the bot serves `<org>/<repo>@<branch>`.
pub fn snapshot_url(bot_url: &str, org: &str, repo: &str, branch: &str) -> (r: String)
    ensures
        r@ == bot_url@ + "/api/snapshot/"@ + org@ + "/"@ + repo@ + "/"@ + urlencode_spec(branch@),
{
    let mut r = bot_url.to_string();
    r.append("/api/snapshot/");
    r.append(org);
    r.append("/");
    r.append(repo);
    r.append("/");
    r.append(urlencode(branch).as_str());
    r
}

/// How a snapshot answer is read.
#[derive(Debug, Clone, PartialEq, Eq)]
pub enum SnapshotAnswer {
    /// The tarball follows.
    Found,
    /// The branch or repo does not exist (the bot passes GitHub's errors on
    /// as 502).
    Missing,
    /// Anything else is an error.
    Failed(String),
}

/// A 2xx is a snapshot; a 502 or 404 is a branch that does not exist yet;
/// anything else fails naming what was asked and what came back.
pub fn snapshot_answer(status_code: u16, status: &str, org: &str, repo: &str, branch: &str) -> (r: SnapshotAnswer)
    ensures
        200 <= status_code < 300 ==> r == SnapshotAnswer::Found,
        (status_code == 502 || status_code == 404) ==> r == SnapshotAnswer::Missing,
        !(200 <= status_code < 300) && status_code != 502 && status_code != 404 ==> (r matches SnapshotAnswer::Failed(m)
            && m@ == "snapshot "@ + org@ + "/"@ + repo@ + "@"@ + branch@ + ": bot returned "@ + status@),
{
    if 200 <= status_code && status_code < 300 {
        return SnapshotAnswer::Found;
    }
    if status_code == 502 || status_code == 404 {
        return SnapshotAnswer::Missing;
    }
    let mut m = "snapshot ".to_string();
    m.append(org);
    m.append("/");
    m.append(repo);
    m.append("@");
    m.append(branch);
    m.append(": bot returned ");
    m.append(status);
    SnapshotAnswer::Failed(m)
}

/// One audit event, as the reconciler's event log keeps it.
#[derive(Debug, Clone)]
pub struct Event {
    pub at: String,
    pub commit: String,
    pub project: String,
    pub node: String,
    pub action: String,
    pub result: String,
}

} // verus!
