//! The root platform repo's files: nodes, the control-plane pin, people and
//! the project registry.

use vstd::prelude::*;
use vstd::string::*;

use crate::text::{chars_of, chars_replace, replace_all, str_eq, string_of};

verus! {

broadcast use vstd::string::group_string_axioms;

/// `nodes.yaml`: the static nodes.
#[derive(Debug, Clone)]
pub struct NodesFile {
    pub wireguard_subnet: String,
    pub docker_api_port: u16,
    pub nodes: Vec<Node>,
}

#[derive(Debug, Clone)]
pub struct Node {
    pub name: String,
    /// `main` | `prod` | `private` (the trust zone).
    pub role: String,
    pub wireguard_ip: String,
    pub public_endpoint: String,
    pub wireguard_pubkey: String,
}

impl NodesFile {
    /// The first node with `role`.
    pub fn by_role(&self, role: &str) -> (r: Option<&Node>)
        ensures
            match r {
                Some(n) => exists|i: int| 0 <= i < self.nodes@.len() && self.nodes@[i] == *n
                    && n.role@ == role@
                    && forall|j: int| 0 <= j < i ==> #[trigger] self.nodes@[j].role@ != role@,
                None => forall|i: int| 0 <= i < self.nodes@.len() ==> #[trigger] self.nodes@[i].role@ != role@,
            },
    {
        let mut i: usize = 0;
        while i < self.nodes.len()
            invariant
                i <= self.nodes.len(),
                forall|j: int| 0 <= j < i ==> #[trigger] self.nodes@[j].role@ != role@,
            decreases self.nodes.len() - i,
        {
            if str_eq(self.nodes[i].role.as_str(), role) {
                return Some(&self.nodes[i]);
            }
            i = i + 1;
        }
        None
    }
}

/// What the installer already knows of one node when it seeds the platform
/// repo: its public endpoint and WireGuard key, once enrolled.
#[derive(Debug, Clone)]
pub struct EnrolledNode {
    pub name: String,
    pub public_endpoint: String,
    pub wireguard_pubkey: String,
}

/// The first enrolled entry named `name`.
pub open spec fn enrolled(known: Seq<EnrolledNode>, name: Seq<char>) -> Option<EnrolledNode>
    decreases known.len(),
{
    if known.len() == 0 {
        None
    } else if known[0].name@ == name {
        Some(known[0])
    } else {
        enrolled(known.drop_first(), name)
    }
}

/// `n` as seeded: an enrolled node takes its endpoint and key from
/// enrollment; everything else stays as the seed has it.
pub open spec fn seeded(n: Node, known: Seq<EnrolledNode>, out: Node) -> bool {
    &&& out.name@ == n.name@
    &&& out.role@ == n.role@
    &&& out.wireguard_ip@ == n.wireguard_ip@
    &&& match enrolled(known, n.name@) {
        Some(e) => out.public_endpoint@ == e.public_endpoint@ && out.wireguard_pubkey@ == e.wireguard_pubkey@,
        None => out.public_endpoint@ == n.public_endpoint@ && out.wireguard_pubkey@ == n.wireguard_pubkey@,
    }
}

fn find_enrolled<'a>(known: &'a [EnrolledNode], name: &str) -> (r: Option<&'a EnrolledNode>)
    ensures
        match r {
            Some(e) => enrolled(known@, name@) == Some(*e),
            None => enrolled(known@, name@) is None,
        },
{
    let mut i: usize = 0;
    assert(known@.skip(0) =~= known@);
    while i < known.len()
        invariant
            i <= known.len(),
            enrolled(known@, name@) == enrolled(known@.skip(i as int), name@),
        decreases known.len() - i,
    {
        assert(known@.skip(i as int)[0] == known@[i as int]);
        if str_eq(known[i].name.as_str(), name) {
            return Some(&known[i]);
        }
        assert(known@.skip(i as int).drop_first() =~= known@.skip(i + 1));
        i = i + 1;
    }
    None
}

/// The seed's `nodes.yaml` with every node the installer has already
/// enrolled filled in (at seed time, the main node).
pub fn with_enrolled(seed: &NodesFile, known: &[EnrolledNode]) -> (r: NodesFile)
    ensures
        r.wireguard_subnet@ == seed.wireguard_subnet@,
        r.docker_api_port == seed.docker_api_port,
        r.nodes@.len() == seed.nodes@.len(),
        forall|i: int| 0 <= i < r.nodes@.len() ==> #[trigger] seeded(seed.nodes@[i], known@, r.nodes@[i]),
{
    let mut nodes: Vec<Node> = Vec::new();
    let mut i: usize = 0;
    while i < seed.nodes.len()
        invariant
            i <= seed.nodes.len(),
            nodes@.len() == i,
            forall|k: int| 0 <= k < i ==> #[trigger] seeded(seed.nodes@[k], known@, nodes@[k]),
        decreases seed.nodes.len() - i,
    {
        let n = &seed.nodes[i];
        let (endpoint, key) = match find_enrolled(known, n.name.as_str()) {
            Some(e) => (e.public_endpoint.clone(), e.wireguard_pubkey.clone()),
            None => (n.public_endpoint.clone(), n.wireguard_pubkey.clone()),
        };
        nodes.push(Node {
            name: n.name.clone(),
            role: n.role.clone(),
            wireguard_ip: n.wireguard_ip.clone(),
            public_endpoint: endpoint,
            wireguard_pubkey: key,
        });
        i = i + 1;
    }
    NodesFile { wireguard_subnet: seed.wireguard_subnet.clone(), docker_api_port: seed.docker_api_port, nodes }
}

/// A seed file's key in the platform repo: its path relative to the seed
/// directory, with every `\` turned into `/`.
pub fn seed_key(relative: &str) -> (r: String)
    ensures
        r@ == replace_all(relative@, seq!['\\'], seq!['/']),
{
    let from: Vec<char> = vec!['\\'];
    let to: Vec<char> = vec!['/'];
    assert(from@ =~= seq!['\\'] && to@ =~= seq!['/']);
    string_of(&chars_replace(&chars_of(relative), &from, &to))
}

/// The seed tree carries `name`; the error names the seed directory.
pub fn require_seed_file(files: &[(String, String)], name: &str, seed_dir: &str) -> (r: Result<(), String>)
    ensures
        r is Ok <==> exists|k: int| 0 <= k < files@.len() && #[trigger] files@[k].0@ == name@,
        r matches Err(m) ==> m@ == "platform-seed has no "@ + name@ + " at "@ + seed_dir@,
{
    let mut i: usize = 0;
    while i < files.len()
        invariant
            i <= files.len(),
            forall|k: int| 0 <= k < i ==> #[trigger] files@[k].0@ != name@,
        decreases files.len() - i,
    {
        if str_eq(files[i].0.as_str(), name) {
            return Ok(());
        }
        i = i + 1;
    }
    let mut m = "platform-seed has no ".to_string();
    m.append(name);
    m.append(" at ");
    m.append(seed_dir);
    Err(m)
}

/// `version.yaml`: the control-plane version pin.
#[derive(Debug, Clone)]
pub struct VersionFile {
    pub control_plane: ControlPlanePin,
}

#[derive(Debug, Clone)]
pub struct ControlPlanePin {
    /// Branch, tag, or full commit SHA of the source repo.
    pub git_ref: String,
    /// The control-plane image, digest-pinned; absent on the ref-only schema.
    pub image: Option<String>,
    /// The dashboard image, digest-pinned.
    pub dashboard: Option<String>,
}

/// `people.yaml`: GitHub username to Tailscale identity.
#[derive(Debug, Clone)]
pub struct PeopleFile {
    pub people: Vec<Person>,
}

#[derive(Debug, Clone)]
pub struct Person {
    pub github: String,
    pub tailscale: String,
    pub admin: bool,
}

/// `projects.yaml`: the registry that gates project discovery.
#[derive(Debug, Clone)]
pub struct ProjectsFile {
    pub projects: Vec<ProjectRegistryEntry>,
}

#[derive(Debug, Clone)]
pub struct ProjectRegistryEntry {
    pub name: String,
    pub org: String,
}

/// The name of the first registered project with `org`, or the org itself.
pub open spec fn project_name_spec(entries: Seq<ProjectRegistryEntry>, org: Seq<char>) -> Seq<char>
    decreases entries.len(),
{
    if entries.len() == 0 {
        org
    } else if entries[0].org@ == org {
        entries[0].name@
    } else {
        project_name_spec(entries.drop_first(), org)
    }
}

impl ProjectsFile {
    /// The project name for `org` (container labels and database names use
    /// it), or the org when the registry does not list it.
    pub fn name_of(&self, org: &str) -> (r: String)
        ensures
            r@ == project_name_spec(self.projects@, org@),
    {
        let mut i: usize = 0;
        assert(self.projects@.skip(0) =~= self.projects@);
        while i < self.projects.len()
            invariant
                i <= self.projects.len(),
                project_name_spec(self.projects@, org@) == project_name_spec(self.projects@.skip(i as int), org@),
            decreases self.projects.len() - i,
        {
            if str_eq(self.projects[i].org.as_str(), org) {
                return self.projects[i].name.clone();
            }
            assert(self.projects@.skip(i as int).drop_first() =~= self.projects@.skip(i + 1));
            i = i + 1;
        }
        org.to_string()
    }
}

} // verus!
