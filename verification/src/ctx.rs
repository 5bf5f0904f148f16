//! One worktree's stack: what is selected, which ports and variables it gets, and how it is
//! described.

use crate::compose::ComposeGroup;
use crate::compose::ComposeGroupView;
use crate::compose::ComposeRunner;
use crate::compose::ComposeRunnerView;
use crate::compose::GroupService;
use crate::compose::GroupServiceView;
use crate::compose::PortMapping;
use crate::compose::PortMappingView;
use crate::config::Config;
use crate::dict;
use crate::dict::Dict;
use crate::env;
use crate::env::Alias;
use crate::env::EnvPlan;
use crate::lists;
use crate::manifest;
use crate::manifest::App;
use crate::manifest::AppView;
use crate::manifest::Bootstrap;
use crate::manifest::BootstrapView;
use crate::manifest::Expose;
use crate::manifest::Loaded;
use crate::manifest::LoadedView;
use crate::manifest::Node;
use crate::manifest::NodeView;
use crate::manifest::PortSpecView;
use crate::manifest::Runtime;
use crate::manifest::Service;
use crate::manifest::ServiceView;
use crate::manifest::When;
use crate::paths;
use crate::paths::Paths;
use crate::ports;
use crate::ports::Assignment;
use crate::ports::AssignmentView;
use crate::ports::PortMode;
use crate::ports::PortRequest;
use crate::ports::PortRequestView;
use crate::repo::Repo;
use crate::repo::RepoView;
use crate::slug;
use crate::text;
use vstd::prelude::*;

verus! {

/// Sentinel used by dry runs: port 0 is never a valid allocated port, so it renders as a
/// placeholder instead of a number.
pub const PLACEHOLDER_PORT: u16 = 0;

pub const PLACEHOLDER: &'static str = "<allocated>";

/// Where runtime state lived before it moved into magictree's own state dir. Kept only so a stack
/// started before the upgrade stays stoppable.
pub fn legacy_runtime_dir(repo: &Repo) -> (r: String)
    ensures
        r@ == paths::join_of(repo.worktree_root@, ".magictree"@),
{
    paths::join(&repo.worktree_root, ".magictree")
}

/// The state dir of one worktree.
pub open spec fn state_dir_of(p: Paths, repo: RepoView) -> Seq<char> {
    paths::join_of(
        paths::join_of(paths::join_of(p.state_dir@, "worktrees"@), repo.key_of()),
        repo.worktree_id_of(),
    )
}

/// Runtime state for one worktree, wherever it currently lives: the state dir once adopted,
/// otherwise a `<checkout>/.magictree` from before the move, otherwise the state dir.
///
/// Reads resolve through here so `down`, `status` and `logs` still find a stack that was started
/// by an older build; `up` then adopts the directory.
pub fn runtime_dir_for(
    paths: &Paths,
    repo: &Repo,
    current_exists: bool,
    legacy_exists: bool,
) -> (r: String)
    ensures
        r@ == (if !current_exists && legacy_exists {
            paths::join_of(repo.worktree_root@, ".magictree"@)
        } else {
            state_dir_of(*paths, repo@)
        }),
{
    let current = paths.worktree_dir(&repo.key(), &repo.worktree_id());
    if current_exists {
        return current;
    }
    if legacy_exists {
        return legacy_runtime_dir(repo);
    }
    current
}

/// One worktree's stack.
#[derive(Debug)]
pub struct Ctx {
    pub paths: Paths,
    pub config: Config,
    pub repo: Repo,
    pub runtime_dir: String,
    pub loaded: Loaded,
    pub nodes: Vec<Node>,
    pub edges: Vec<Vec<usize>>,
    pub slug: String,
}

impl Ctx {
    /// What holds of every loaded stack: its manifests are valid, its nodes and edges are those
    /// of its manifests, and its slug is that of its worktree.
    pub open spec fn well_formed(self) -> bool {
        &&& self.config.valid()
        &&& manifest::loaded_error(self.loaded@) is None
        &&& text::views(self.nodes@) == manifest::nodes_of(self.loaded@)
        &&& manifest::dependency_error(text::views(self.nodes@), 0) is None
        &&& manifest::resolved(text::views(self.nodes@), text::views(self.edges@))
        &&& self.slug@ == slug::slug_of(self.repo@.worktree_id_of())
    }

    /// The nodes of the stack.
    pub open spec fn node_views(self) -> Seq<NodeView> {
        text::views(self.nodes@)
    }

    /// The stack of a checkout, given its manifests.
    pub fn load(paths: Paths, config: Config, repo: Repo, runtime_dir: String, loaded: Loaded) -> (r:
        Result<Self, String>)
        requires
            config.valid(),
        ensures
            match r {
                Ok(c) => {
                    &&& c.well_formed()
                    &&& c.paths == paths
                    &&& c.config == config
                    &&& c.repo == repo
                    &&& c.runtime_dir == runtime_dir
                    &&& c.loaded == loaded
                },
                Err(e) => match manifest::loaded_error(loaded@) {
                    Some(m) => e@ == m,
                    None => manifest::dependency_error(manifest::nodes_of(loaded@), 0) == Some(e@),
                },
            },
    {
        if let Err(e) = loaded.validate() {
            return Err(e);
        }
        let nodes = manifest::nodes(&loaded);
        let edges = match manifest::dependencies(&nodes) {
            Ok(edges) => edges,
            Err(e) => {
                return Err(e);
            },
        };
        let slug = slug::slugify(&repo.worktree_id());
        Ok(Ctx { paths, config, repo, runtime_dir, loaded, nodes, edges, slug })
    }

    /// Where runtime state has to be moved to, when it still lives in its old home. From here on
    /// it has exactly one home.
    pub fn adopt_legacy_runtime(&mut self) -> (r: Option<(String, String)>)
        ensures
            final(self).paths == old(self).paths,
            final(self).config == old(self).config,
            final(self).repo == old(self).repo,
            final(self).loaded == old(self).loaded,
            final(self).nodes == old(self).nodes,
            final(self).edges == old(self).edges,
            final(self).slug == old(self).slug,
            match r {
                Some((from, to)) => {
                    &&& from@ == old(self).runtime_dir@
                    &&& to@ == state_dir_of(old(self).paths, old(self).repo@)
                    &&& final(self).runtime_dir@ == to@
                    &&& !paths::same_path(from@, to@)
                },
                None => {
                    &&& final(self).runtime_dir@ == old(self).runtime_dir@
                    &&& paths::same_path(
                        old(self).runtime_dir@,
                        state_dir_of(old(self).paths, old(self).repo@),
                    )
                },
            },
    {
        let current = self.paths.worktree_dir(&self.repo.key(), &self.repo.worktree_id());
        if paths::is_same_path(&self.runtime_dir, &current) {
            return None;
        }
        let from = self.runtime_dir.clone();
        self.runtime_dir = current.clone();
        Some((from, current))
    }
}

/// The edges of a loaded stack stay inside it.
pub proof fn edges_form_a_graph(nodes: Seq<NodeView>, edges: Seq<Seq<usize>>)
    requires
        manifest::resolved(nodes, edges),
    ensures
        manifest::graph(edges),
        edges.len() == nodes.len(),
{
    assert forall|i: int, j: int| 0 <= i < edges.len() && 0 <= j < edges[i].len() implies
        #[trigger] edges[i][j] < edges.len() by {
        assert(manifest::needs_resolved(nodes, nodes[i], edges[i]));
    }
}

// ---------------------------------------------------------------------------
// Selection
// ---------------------------------------------------------------------------

/// What a command line selects.
#[verifier::ext_equal]
pub struct Selectors {
    pub services: Seq<Seq<char>>,
    pub apps: Seq<Seq<char>>,
    pub all: bool,
}

impl Selectors {
    /// Whether something was named.
    pub open spec fn explicit(self) -> bool {
        self.services.len() > 0 || self.apps.len() > 0
    }
}

/// Whether a node is a service of the repository as a whole: the database, cache and object store
/// every app in the repository was written against.
pub open spec fn is_shared(node: NodeView) -> bool {
    node.app is None && node.service_of() is Some
}

/// Whether the selection is narrowed to the app of the current directory.
pub open spec fn narrowed(l: LoadedView, s: Selectors) -> bool {
    !s.all && !s.explicit() && !l.root_is_app && l.current_app is Some
}

/// Whether a node is a job that never runs unattended.
pub open spec fn is_manual(node: NodeView) -> bool {
    node.job_of() matches Some(job) && job.when == When::Manual
}

/// Whether the selectors name a node itself.
pub open spec fn called(s: Selectors, node: NodeView) -> bool {
    s.services.contains(node.id) || s.services.contains(node.qual_of())
}

/// Whether the selectors choose a node by themselves: everything that runs, what belongs to the
/// current app, or what they name. Naming an app does not choose its manual jobs.
pub open spec fn named(l: LoadedView, s: Selectors, node: NodeView) -> bool {
    if narrowed(l, s) {
        node.app == l.current_app && node.service_of() is Some
    } else if s.all || !s.explicit() {
        node.service_of() is Some
    } else {
        called(s, node) || (node.app matches Some(app) && s.apps.contains(app) && !is_manual(node))
    }
}

/// Whether an app has a node that the selectors choose.
pub open spec fn touches(l: LoadedView, s: Selectors, nodes: Seq<NodeView>, app: Seq<char>) -> bool {
    exists|i: int| 0 <= i < nodes.len() && named(l, s, #[trigger] nodes[i]) && nodes[i].app == Some(app)
}

/// Whether any node of any app is chosen.
pub open spec fn touches_an_app(l: LoadedView, s: Selectors, nodes: Seq<NodeView>) -> bool {
    exists|i: int| 0 <= i < nodes.len() && named(l, s, #[trigger] nodes[i]) && nodes[i].app is Some
}

/// Whether the shared services come with the selection: with the current app, and with anything
/// that belongs to an app, so a running app is never left without the database or cache it was
/// written against.
pub open spec fn brings_shared(l: LoadedView, s: Selectors, nodes: Seq<NodeView>) -> bool {
    narrowed(l, s) || (s.explicit() && !s.all && touches_an_app(l, s, nodes))
}

/// Whether a node is selected other than as a job of what is selected.
pub open spec fn selected(l: LoadedView, s: Selectors, nodes: Seq<NodeView>, node: NodeView) -> bool {
    named(l, s, node) || (brings_shared(l, s, nodes) && is_shared(node))
}

/// Whether a workspace-level node is selected.
pub open spec fn touches_workspace(l: LoadedView, s: Selectors, nodes: Seq<NodeView>) -> bool {
    exists|i: int|
        0 <= i < nodes.len() && selected(l, s, nodes, #[trigger] nodes[i]) && nodes[i].app is None
}

/// Whether a node is an `up` job of what is selected.
pub open spec fn comes_along(l: LoadedView, s: Selectors, nodes: Seq<NodeView>, node: NodeView) -> bool {
    node.job_of() matches Some(job) && job.when == When::Up && (match node.app {
        Some(app) => touches(l, s, nodes, app),
        None => touches_workspace(l, s, nodes) || !s.explicit(),
    })
}

/// The nodes that a command line selects, before their dependencies.
pub open spec fn chosen(l: LoadedView, s: Selectors, nodes: Seq<NodeView>) -> spec_fn(int) -> bool {
    |i: int| selected(l, s, nodes, nodes[i]) || comes_along(l, s, nodes, nodes[i])
}

pub open spec fn scope_of(l: LoadedView, s: Selectors, nodes: Seq<NodeView>, edges: Seq<Seq<usize>>) -> Result<
    Seq<usize>,
    Seq<char>,
> {
    if s.explicit() && !s.all && !exists|i: int| 0 <= i < nodes.len() && named(l, s, #[trigger] nodes[i]) {
        Err("no services matched the given selectors"@)
    } else {
        manifest::order_of(nodes, edges, lists::indices(nodes.len() as int, chosen(l, s, nodes)))
    }
}

/// The nodes that are services.
pub open spec fn service_indices(nodes: Seq<NodeView>) -> Seq<usize> {
    lists::indices(nodes.len() as int, |i: int| nodes[i].service_of() is Some)
}

impl Ctx {
    fn is_named(&self, node: &Node, services: &Vec<String>, apps: &Vec<String>, all: bool) -> (r: bool)
        ensures
            r == named(
                self.loaded@,
                Selectors { services: text::views(services@), apps: text::views(apps@), all },
                node@,
            ),
    {
        let explicit = services.len() > 0 || apps.len() > 0;
        if !all && !explicit && !self.loaded.root_is_app {
            if let Some(current) = &self.loaded.current_app {
                let own = match &node.app {
                    Some(app) => text::same(app, current),
                    None => false,
                };
                return own && node.is_running_service();
            }
        }
        if all || !explicit {
            return node.is_running_service();
        }
        if text::among(services, &node.id) || text::among(services, &node.qual()) {
            return true;
        }
        let manual = match node.job() {
            Some(job) => job.when == When::Manual,
            None => false,
        };
        match &node.app {
            Some(app) => text::among(apps, app) && !manual,
            None => false,
        }
    }

    /// Resolve a selector set into a dependency-closed, topologically ordered list of node
    /// indices.
    pub fn scope(&self, services: &Vec<String>, apps: &Vec<String>, all: bool) -> (r: Result<
        Vec<usize>,
        String,
    >)
        requires
            self.well_formed(),
        ensures
            match r {
                Ok(v) => scope_of(
                    self.loaded@,
                    Selectors { services: text::views(services@), apps: text::views(apps@), all },
                    self.node_views(),
                    text::views(self.edges@),
                ) == Ok::<Seq<usize>, Seq<char>>(v@),
                Err(e) => scope_of(
                    self.loaded@,
                    Selectors { services: text::views(services@), apps: text::views(apps@), all },
                    self.node_views(),
                    text::views(self.edges@),
                ) == Err::<Seq<usize>, Seq<char>>(e@),
            },
    {
        let ghost s = Selectors {
            services: text::views(services@),
            apps: text::views(apps@),
            all,
        };
        let ghost l = self.loaded@;
        let ghost nodes = self.node_views();
        let explicit = services.len() > 0 || apps.len() > 0;
        let narrow = !all && !explicit && !self.loaded.root_is_app
            && self.loaded.current_app.is_some();
        // The nodes that the selectors choose by themselves, and the apps they touch.
        let mut picked: Vec<bool> = Vec::new();
        let mut touched: Vec<String> = Vec::new();
        let mut any = false;
        let mut i: usize = 0;
        while i < self.nodes.len()
            invariant
                s == (Selectors {
                    services: text::views(services@),
                    apps: text::views(apps@),
                    all,
                }),
                l == self.loaded@,
                nodes == self.node_views(),
                i <= self.nodes@.len(),
                picked@.len() == i,
                forall|k: int| 0 <= k < i ==> picked@[k] == named(l, s, #[trigger] nodes[k]),
                any == exists|k: int| 0 <= k < i && named(l, s, #[trigger] nodes[k]),
                forall|app: Seq<char>| #[trigger]
                    text::views(touched@).contains(app) <==> exists|k: int|
                        0 <= k < i && named(l, s, #[trigger] nodes[k]) && nodes[k].app == Some(app),
                touched@.len() > 0 <==> exists|k: int|
                    0 <= k < i && named(l, s, #[trigger] nodes[k]) && nodes[k].app is Some,
            decreases self.nodes@.len() - i,
        {
            let node = &self.nodes[i];
            let yes = self.is_named(node, services, apps, all);
            assert(nodes[i as int] == node@);
            picked.push(yes);
            let ghost before = text::views(touched@);
            if yes {
                any = true;
                if let Some(app) = &node.app {
                    text::add(&mut touched, app);
                    assert(text::views(touched@).len() == touched@.len());
                    assert(text::views(touched@)[touched@.len() - 1] == app@);
                }
            }
            i += 1;
            assert forall|app: Seq<char>| #[trigger]
                text::views(touched@).contains(app) <==> exists|k: int|
                    0 <= k < i && named(l, s, #[trigger] nodes[k]) && nodes[k].app == Some(app) by {
                if text::views(touched@).contains(app) {
                    let m = choose|m: int|
                        0 <= m < text::views(touched@).len() && text::views(touched@)[m] == app;
                    if m < before.len() {
                        assert(before[m] == app);
                        assert(before.contains(app));
                        let k = choose|k: int|
                            0 <= k < i - 1 && named(l, s, #[trigger] nodes[k]) && nodes[k].app
                                == Some(app);
                        assert(named(l, s, nodes[k]));
                    } else {
                        assert(named(l, s, nodes[i - 1]) && nodes[i - 1].app == Some(app));
                    }
                }
                if exists|k: int|
                    0 <= k < i && named(l, s, #[trigger] nodes[k]) && nodes[k].app == Some(app) {
                    let k = choose|k: int|
                        0 <= k < i && named(l, s, #[trigger] nodes[k]) && nodes[k].app == Some(app);
                    if k < i - 1 {
                        assert(before.contains(app));
                        let m = choose|m: int| 0 <= m < before.len() && before[m] == app;
                        assert(text::views(touched@)[m] == app);
                    }
                }
            }
        }
        if explicit && !all && !any {
            return Err(text::own("no services matched the given selectors"));
        }
        // Standing in an app narrows the selection to that app, not to a stack without the
        // repository's shared infrastructure; selecting anything of an app brings it along too.
        let bring = narrow || (explicit && !all && touched.len() > 0);
        assert(bring == brings_shared(l, s, nodes));
        let mut workspace = false;
        let mut i: usize = 0;
        while i < self.nodes.len()
            invariant
                l == self.loaded@,
                nodes == self.node_views(),
                bring == brings_shared(l, s, nodes),
                i <= self.nodes@.len(),
                picked@.len() == self.nodes@.len(),
                forall|k: int|
                    0 <= k < i ==> picked@[k] == selected(l, s, nodes, #[trigger] nodes[k]),
                forall|k: int|
                    i <= k < picked@.len() ==> picked@[k] == named(l, s, #[trigger] nodes[k]),
                workspace == exists|k: int|
                    0 <= k < i && selected(l, s, nodes, #[trigger] nodes[k]) && nodes[k].app is None,
            decreases self.nodes@.len() - i,
        {
            let node = &self.nodes[i];
            assert(nodes[i as int] == node@);
            if bring && node.app.is_none() && node.is_running_service() {
                picked.set(i, true);
            }
            assert(picked@[i as int] == selected(l, s, nodes, nodes[i as int]));
            if picked[i] && node.app.is_none() {
                workspace = true;
            }
            i += 1;
        }
        assert(workspace == touches_workspace(l, s, nodes));
        let ghost wanted = chosen(l, s, nodes);
        let mut selection: Vec<usize> = Vec::new();
        let mut i: usize = 0;
        while i < self.nodes.len()
            invariant
                l == self.loaded@,
                nodes == self.node_views(),
                s == (Selectors {
                    services: text::views(services@),
                    apps: text::views(apps@),
                    all,
                }),
                explicit == s.explicit(),
                workspace == touches_workspace(l, s, nodes),
                wanted == chosen(l, s, nodes),
                i <= self.nodes@.len(),
                picked@.len() == self.nodes@.len(),
                forall|k: int|
                    0 <= k < picked@.len() ==> picked@[k] == selected(l, s, nodes, #[trigger] nodes[k]),
                forall|app: Seq<char>| #[trigger]
                    text::views(touched@).contains(app) <==> touches(l, s, nodes, app),
                selection@ == lists::indices(i as int, wanted),
                forall|k: int| 0 <= k < selection@.len() ==> #[trigger] selection@[k] < i,
            decreases self.nodes@.len() - i,
        {
            let node = &self.nodes[i];
            assert(nodes[i as int] == node@);
            let along = match node.job() {
                Some(job) => job.when == When::Up && (match &node.app {
                    Some(app) => text::among(&touched, app),
                    None => workspace || !explicit,
                }),
                None => false,
            };
            assert(along == comes_along(l, s, nodes, nodes[i as int]));
            if picked[i] || along {
                selection.push(i);
            }
            i += 1;
        }
        proof {
            edges_form_a_graph(nodes, text::views(self.edges@));
        }
        manifest::order(&self.nodes, &self.edges, &selection)
    }

    /// The nodes that are services.
    pub fn all_service_indices(&self) -> (r: Vec<usize>)
        ensures
            r@ == service_indices(self.node_views()),
            manifest::inside(r@, self.nodes@.len()),
    {
        let ghost nodes = self.node_views();
        let ghost p = |i: int| nodes[i].service_of() is Some;
        let mut r: Vec<usize> = Vec::new();
        let mut i: usize = 0;
        while i < self.nodes.len()
            invariant
                nodes == self.node_views(),
                p == (|i: int| nodes[i].service_of() is Some),
                i <= self.nodes@.len(),
                r@ == lists::indices(i as int, p),
                forall|k: int| 0 <= k < r@.len() ==> #[trigger] r@[k] < i,
            decreases self.nodes@.len() - i,
        {
            if self.nodes[i].is_running_service() {
                r.push(i);
            }
            i += 1;
        }
        r
    }
}

// ---------------------------------------------------------------------------
// Ports
// ---------------------------------------------------------------------------

/// The name that tells one port of a node from its others; none for the only port, and for the
/// one named like the node.
pub open spec fn own_name(node: NodeView, declared: Seq<PortSpecView>, port: PortSpecView) -> Option<
    Seq<char>,
> {
    if declared.len() > 1 && port.name.unwrap() != node.id {
        port.name
    } else {
        None
    }
}

/// The name of a node's port in an assignment.
pub open spec fn key_of(node: NodeView, name: Option<Seq<char>>) -> Seq<char> {
    match name {
        None => node.qual_of(),
        Some(name) => if name == node.id {
            node.qual_of()
        } else {
            node.qual_of() + ":"@ + name
        },
    }
}

/// The variable that holds a node's port.
pub open spec fn var_name_of(node: NodeView, name: Option<Seq<char>>) -> Seq<char> {
    let base = match node.app {
        Some(app) => app + "_"@ + node.id,
        None => node.id,
    };
    let stem = match name {
        Some(name) => base + "_"@ + name,
        None => base,
    };
    "MAGICTREE_PORT_"@ + text::replace_of(text::replace_of(stem, ':', "_"@), '-', "_"@)
}

/// The assigned port of one declaration, with its label.
pub open spec fn labelled(node: NodeView, assigned: Seq<(Seq<char>, u16)>) -> spec_fn(PortSpecView) -> Seq<
    (Seq<char>, u16),
> {
    |port: PortSpecView|
        {
            let name = own_name(node, node.service_of().unwrap().ports_of(), port);
            match dict::lookup(assigned, key_of(node, name)) {
                Some(value) => seq![(key_of(node, name), value)],
                None => Seq::empty(),
            }
        }
}

/// Every port assigned to a node, labelled for display.
pub open spec fn assigned_of(node: NodeView, assigned: Seq<(Seq<char>, u16)>) -> Seq<
    (Seq<char>, u16),
> {
    match node.service_of() {
        None => Seq::empty(),
        Some(service) => {
            let found = lists::gathered(service.ports_of(), labelled(node, assigned));
            if found.len() > 0 {
                found
            } else {
                match dict::lookup(assigned, node.qual_of()) {
                    Some(value) => seq![(node.qual_of(), value)],
                    None => Seq::empty(),
                }
            }
        },
    }
}

/// The port a node asks for by one declaration.
pub open spec fn request_for(node: NodeView) -> spec_fn(PortSpecView) -> Seq<PortRequestView> {
    |port: PortSpecView|
        seq![
            PortRequestView {
                name: key_of(node, own_name(node, node.service_of().unwrap().ports_of(), port)),
                prefer: port.prefer,
                require: port.require,
            },
        ]
}

/// The ports a node asks for.
pub open spec fn requests_of(node: NodeView) -> Seq<PortRequestView> {
    match node.service_of() {
        Some(service) => if service.expose == Expose::Port {
            lists::gathered(service.ports_of(), request_for(node))
        } else {
            Seq::empty()
        },
        None => Seq::empty(),
    }
}

pub open spec fn requests_at(nodes: Seq<NodeView>) -> spec_fn(usize) -> Seq<PortRequestView> {
    |i: usize| requests_of(nodes[i as int])
}

fn port_name(node: &Node, count: usize, port: &manifest::PortSpec) -> (r: Option<String>)
    requires
        port.name is Some,
    ensures
        text::opt_view(r) == (if count > 1 && port@.name.unwrap() != node@.id {
            port@.name
        } else {
            None
        }),
{
    match &port.name {
        Some(name) => if count > 1 && !text::same(name, &node.id) {
            Some(name.clone())
        } else {
            None
        },
        None => None,
    }
}

fn port_key_for(node: &Node, name: &Option<String>) -> (r: String)
    ensures
        r@ == key_of(node@, text::opt_view(*name)),
{
    let qual = node.qual();
    match name {
        None => qual,
        Some(name) => if text::same(name, &node.id) {
            qual
        } else {
            let mut r = qual;
            r.append(":");
            r.append(name);
            r
        },
    }
}

impl Ctx {
    /// Registry key for one of a service's ports. The service id alone is used when the service
    /// has a single port, so existing manifests keep their key.
    pub fn port_key(&self, node: &Node, port_name: &Option<String>) -> (r: String)
        ensures
            r@ == key_of(node@, text::opt_view(*port_name)),
    {
        port_key_for(node, port_name)
    }

    /// The variable that holds one of a service's ports.
    pub fn port_var_name(&self, node: &Node, port_name: &Option<String>) -> (r: String)
        ensures
            r@ == var_name_of(node@, text::opt_view(*port_name)),
    {
        let base = match &node.app {
            Some(app) => {
                let mut r = app.clone();
                r.append("_");
                r.append(&node.id);
                r
            },
            None => node.id.clone(),
        };
        let stem = match port_name {
            Some(name) => {
                let mut r = base;
                r.append("_");
                r.append(name);
                r
            },
            None => base,
        };
        let stem = text::replace(&stem, ':', "_");
        let stem = text::replace(&stem, '-', "_");
        text::concat("MAGICTREE_PORT_", &stem)
    }

    /// Every port assigned to this service, labelled for display. A single-port service uses its
    /// plain name; multi-port services append the port name.
    pub fn assigned_ports(&self, node: &Node, assignment: &Assignment) -> (r: Vec<(String, u16)>)
        ensures
            dict::entry_views(r@) == assigned_of(node@, assignment@.ports),
    {
        let mut out: Vec<(String, u16)> = Vec::new();
        assert(dict::entry_views(out@) =~= Seq::<(Seq<char>, u16)>::empty());
        let service = match node.service() {
            Some(service) => service,
            None => {
                return out;
            },
        };
        let declared = service.ports();
        let ghost all = service@.ports_of();
        let ghost f = labelled(node@, assignment@.ports);
        let mut k: usize = 0;
        while k < declared.len()
            invariant
                node@.service_of() == Some(service@),
                all == service@.ports_of(),
                text::views(declared@) == all,
                f == labelled(node@, assignment@.ports),
                k <= declared@.len(),
                dict::entry_views(out@) == lists::gather(all, f, k as int),
            decreases declared@.len() - k,
        {
            let ghost before = dict::entry_views(out@);
            assert(all[k as int] == declared@[k as int]@);
            let name = port_name(node, declared.len(), &declared[k]);
            assert(text::opt_view(name) == own_name(node@, all, all[k as int]));
            let key = port_key_for(node, &name);
            let ghost label = key@;
            match assignment.ports.get(&key) {
                Some(value) => {
                    out.push((key, *value));
                    assert(dict::entry_views(out@) =~= before + seq![(label, *value)]);
                },
                None => {
                    assert(before + Seq::<(Seq<char>, u16)>::empty() =~= before);
                },
            }
            k += 1;
        }
        if out.len() == 0 {
            let qual = node.qual();
            let ghost label = qual@;
            if let Some(value) = assignment.ports.get(&qual) {
                out.push((qual, *value));
                assert(dict::entry_views(out@) =~= seq![(label, *value)]);
            } else {
                assert(dict::entry_views(out@) =~= Seq::<(Seq<char>, u16)>::empty());
            }
        }
        out
    }

    fn node_requests(&self, out: &mut Vec<PortRequest>, node: &Node)
        ensures
            text::views(final(out)@) == text::views(old(out)@) + requests_of(node@),
    {
        let ghost start = text::views(out@);
        assert(start + Seq::<PortRequestView>::empty() =~= start);
        let service = match node.service() {
            Some(service) => service,
            None => {
                return;
            },
        };
        if service.expose != Expose::Port {
            return;
        }
        let declared = service.ports();
        let ghost all = service@.ports_of();
        let ghost f = request_for(node@);
        let mut k: usize = 0;
        while k < declared.len()
            invariant
                node@.service_of() == Some(service@),
                all == service@.ports_of(),
                text::views(declared@) == all,
                f == request_for(node@),
                k <= declared@.len(),
                text::views(out@) == start + lists::gather(all, f, k as int),
            decreases declared@.len() - k,
        {
            broadcast use text::views_push;

            let port = &declared[k];
            assert(all[k as int] == port@);
            let name = port_name(node, declared.len(), port);
            assert(text::opt_view(name) == own_name(node@, all, all[k as int]));
            let request = PortRequest {
                name: port_key_for(node, &name),
                prefer: port.prefer,
                require: port.require,
            };
            let ghost before = lists::gather(all, f, k as int);
            assert(seq![request@] =~= f(all[k as int]));
            out.push(request);
            k += 1;
            assert((start + before).push(request@) =~= start + (before + seq![request@]));
        }
    }

    /// Every port this selection must be assigned.
    pub fn port_requests(&self, selection: &Vec<usize>) -> (r: Vec<PortRequest>)
        requires
            manifest::inside(selection@, self.nodes@.len()),
        ensures
            text::views(r@) == lists::gathered(selection@, requests_at(self.node_views())),
    {
        let ghost f = requests_at(self.node_views());
        let mut out: Vec<PortRequest> = Vec::new();
        let mut k: usize = 0;
        assert(text::views(out@) =~= Seq::<PortRequestView>::empty());
        while k < selection.len()
            invariant
                manifest::inside(selection@, self.nodes@.len()),
                f == requests_at(self.node_views()),
                k <= selection@.len(),
                text::views(out@) == lists::gather(selection@, f, k as int),
            decreases selection@.len() - k,
        {
            let i: usize = selection[k];
            assert(self.node_views()[i as int] == self.nodes@[i as int]@);
            self.node_requests(&mut out, &self.nodes[i]);
            k += 1;
        }
        out
    }
}

// ---------------------------------------------------------------------------
// Environment
// ---------------------------------------------------------------------------

/// The variable of one declaration, with its assigned port.
pub open spec fn port_variable(node: NodeView, assigned: Seq<(Seq<char>, u16)>) -> spec_fn(PortSpecView) -> Seq<
    (Seq<char>, Seq<char>),
> {
    |port: PortSpecView|
        {
            let name = own_name(node, node.service_of().unwrap().ports_of(), port);
            match dict::lookup(assigned, key_of(node, name)) {
                Some(value) => seq![(var_name_of(node, name), text::decimal_of(value as nat))],
                None => Seq::empty(),
            }
        }
}

/// The variables that hold a node's ports.
pub open spec fn port_variables(assigned: Seq<(Seq<char>, u16)>) -> spec_fn(NodeView) -> Seq<
    (Seq<char>, Seq<char>),
> {
    |node: NodeView|
        match node.service_of() {
            Some(service) => lists::gathered(service.ports_of(), port_variable(node, assigned)),
            None => Seq::empty(),
        }
}

/// The variable that one declaration names, with its assigned port.
pub open spec fn declared_variable(node: NodeView, assigned: Seq<(Seq<char>, u16)>) -> spec_fn(
    PortSpecView,
) -> Seq<(Seq<char>, u16)> {
    |port: PortSpecView|
        match port.env {
            Some(variable) => match dict::lookup(
                assigned,
                key_of(node, own_name(node, node.service_of().unwrap().ports_of(), port)),
            ) {
                Some(value) => seq![(variable, value)],
                None => Seq::empty(),
            },
            None => Seq::empty(),
        }
}

/// Every `port.env` that a node declares, with its assigned port.
pub open spec fn declared_of(node: NodeView, assigned: Seq<(Seq<char>, u16)>) -> Seq<
    (Seq<char>, u16),
> {
    match node.service_of() {
        Some(service) => if service.expose == Expose::Port {
            lists::gathered(service.ports_of(), declared_variable(node, assigned))
        } else {
            Seq::empty()
        },
        None => Seq::empty(),
    }
}

/// Numbers as text.
pub open spec fn in_decimal(s: Seq<(Seq<char>, u16)>) -> Seq<(Seq<char>, Seq<char>)> {
    Seq::new(s.len(), |i: int| (s[i].0, text::decimal_of(s[i].1 as nat)))
}

pub open spec fn declared_variables(assigned: Seq<(Seq<char>, u16)>) -> spec_fn(NodeView) -> Seq<
    (Seq<char>, Seq<char>),
> {
    |node: NodeView| in_decimal(declared_of(node, assigned))
}

/// The variables that every process of the stack gets: who and where the worktree is.
pub open spec fn identity_variables(
    slug: Seq<char>,
    worktree: Seq<char>,
    workspace: Seq<char>,
) -> Seq<(Seq<char>, Seq<char>)> {
    dict::put_all(
        Seq::empty(),
        seq![
            ("MAGICTREE_SLUG"@, slug),
            ("MAGICTREE_WORKTREE"@, worktree),
            ("MAGICTREE_WORKSPACE"@, workspace),
            ("COMPOSE_PROJECT_NAME"@, slug),
        ],
    )
}

/// The computed variables of a stack: its identity, every port under magictree's own name, and
/// every port under the name its declaration gives.
pub open spec fn computed_of(
    identity: Seq<(Seq<char>, Seq<char>)>,
    nodes: Seq<NodeView>,
    assigned: Seq<(Seq<char>, u16)>,
) -> Seq<(Seq<char>, Seq<char>)> {
    dict::put_all(
        dict::put_all(identity, lists::gathered(nodes, port_variables(assigned))),
        lists::gathered(nodes, declared_variables(assigned)),
    )
}

/// The alias of one declaration that asks for it.
pub open spec fn alias_for(node: NodeView, assigned: Seq<(Seq<char>, u16)>, host: Seq<char>) -> spec_fn(
    PortSpecView,
) -> Seq<(u16, Seq<char>)> {
    |port: PortSpecView|
        if port.browser_alias {
            match dict::lookup(
                assigned,
                key_of(node, own_name(node, node.service_of().unwrap().ports_of(), port)),
            ) {
                Some(value) => seq![(value, host)],
                None => Seq::empty(),
            }
        } else {
            Seq::empty()
        }
}

/// The aliases of a node's ports.
pub open spec fn aliases_in(assigned: Seq<(Seq<char>, u16)>, host: Seq<char>) -> spec_fn(NodeView) -> Seq<
    (u16, Seq<char>),
> {
    |node: NodeView|
        match node.service_of() {
            Some(service) => if service.expose == Expose::Port {
                lists::gathered(service.ports_of(), alias_for(node, assigned, host))
            } else {
                Seq::empty()
            },
            None => Seq::empty(),
        }
}

/// The aliases of a stack: every port that asks for one goes by the worktree's own name.
pub open spec fn aliases_of(
    nodes: Seq<NodeView>,
    assigned: Seq<(Seq<char>, u16)>,
    slug: Seq<char>,
) -> Seq<(u16, Seq<char>)> {
    lists::gathered(nodes, aliases_in(assigned, slug + ".localhost"@))
}

/// Whether a node publishes `variable` in `port.env`.
pub open spec fn publishes(node: NodeView, variable: Seq<char>) -> bool {
    node.service_of() matches Some(service) && service.expose == Expose::Port && exists|k: int|
        0 <= k < service.ports_of().len() && (#[trigger] service.ports_of()[k]).env == Some(variable)
}

/// The first node, from `k` on, that publishes `variable`.
pub open spec fn owner_of(nodes: Seq<NodeView>, variable: Seq<char>, k: int) -> Option<Seq<char>>
    decreases nodes.len() - k,
{
    if k < 0 || k >= nodes.len() {
        None
    } else if publishes(nodes[k], variable) {
        Some(nodes[k].qual_of())
    } else {
        owner_of(nodes, variable, k + 1)
    }
}

/// The complaint about the first key of a layer, from `k` on, that a service publishes.
pub open spec fn published_key(
    nodes: Seq<NodeView>,
    source: Seq<char>,
    layer: Seq<(Seq<char>, Seq<char>)>,
    k: int,
) -> Option<Seq<char>>
    decreases layer.len() - k,
{
    if k < 0 || k >= layer.len() {
        None
    } else {
        match owner_of(nodes, layer[k].0, 0) {
            Some(owner) => Some(
                source + " [env] sets '"@ + layer[k].0 + "', which service '"@ + owner
                    + "' publishes in port.env; magictree already sets it for the whole stack, so remove the line"@,
            ),
            None => published_key(nodes, source, layer, k + 1),
        }
    }
}

/// Values of a preview: a placeholder in place of the number that stands for no port.
pub open spec fn placeholders(vars: Seq<(Seq<char>, Seq<char>)>) -> Seq<(Seq<char>, Seq<char>)> {
    Seq::new(
        vars.len(),
        |i: int|
            if vars[i].1 == text::decimal_of(PLACEHOLDER_PORT as nat) {
                (vars[i].0, PLACEHOLDER@)
            } else {
                vars[i]
            },
    )
}

/// The `[env]` of the workspace manifest; a repository with one app has none of its own.
pub open spec fn workspace_env_of(l: LoadedView) -> Seq<(Seq<char>, Seq<char>)> {
    if l.root_is_app {
        Seq::empty()
    } else {
        l.workspace.env
    }
}

/// The `[env]` of an app's manifest.
pub open spec fn app_env_of(l: LoadedView, app: Option<Seq<char>>) -> Seq<(Seq<char>, Seq<char>)> {
    match app {
        Some(id) => match manifest::app_at(l.apps, id, 0) {
            Some(app) => app.manifest.env,
            None => Seq::empty(),
        },
        None => Seq::empty(),
    }
}

impl Ctx {
    /// The computed variables.
    pub open spec fn computed(self, assigned: Seq<(Seq<char>, u16)>) -> Seq<
        (Seq<char>, Seq<char>),
    > {
        computed_of(
            identity_variables(
                self.slug@,
                self.repo@.worktree_root,
                self.loaded@.workspace_dir,
            ),
            self.node_views(),
            assigned,
        )
    }

    /// The layered environment of an app, or of the workspace.
    pub open spec fn layered(
        self,
        app: Option<Seq<char>>,
        assigned: Seq<(Seq<char>, u16)>,
        preview: bool,
    ) -> Result<env::Layers, Seq<char>> {
        let workspace = workspace_env_of(self.loaded@);
        let own = app_env_of(self.loaded@, app);
        match published_key(self.node_views(), "workspace"@, workspace, 0) {
            Some(e) => Err(e),
            None => match published_key(self.node_views(), "app"@, own, 0) {
                Some(e) => Err(e),
                None => {
                    let computed = self.computed(assigned);
                    env::build_of(
                        if preview {
                            dict::put_all(Seq::empty(), placeholders(computed))
                        } else {
                            computed
                        },
                        workspace,
                        own,
                        aliases_of(self.node_views(), assigned, self.slug@),
                    )
                },
            },
        }
    }

    fn push_port_variables(&self, out: &mut Vec<(String, String)>, node: &Node, assignment: &Assignment)
        ensures
            text::pair_views(final(out)@) == text::pair_views(old(out)@) + port_variables(
                assignment@.ports,
            )(node@),
    {
        let ghost start = text::pair_views(out@);
        assert(start + Seq::<(Seq<char>, Seq<char>)>::empty() =~= start);
        let service = match node.service() {
            Some(service) => service,
            None => {
                return;
            },
        };
        let declared = service.ports();
        let ghost all = service@.ports_of();
        let ghost f = port_variable(node@, assignment@.ports);
        let mut k: usize = 0;
        while k < declared.len()
            invariant
                node@.service_of() == Some(service@),
                all == service@.ports_of(),
                text::views(declared@) == all,
                f == port_variable(node@, assignment@.ports),
                k <= declared@.len(),
                text::pair_views(out@) == start + lists::gather(all, f, k as int),
            decreases declared@.len() - k,
        {
            broadcast use text::pair_views_push;

            assert(all[k as int] == declared@[k as int]@);
            let name = port_name(node, declared.len(), &declared[k]);
            assert(text::opt_view(name) == own_name(node@, all, all[k as int]));
            let ghost before = lists::gather(all, f, k as int);
            match assignment.ports.get(&port_key_for(node, &name)) {
                Some(value) => {
                    let pair = (self.port_var_name(node, &name), text::decimal(*value as u64));
                    let ghost added = (pair.0@, pair.1@);
                    out.push(pair);
                    assert((start + before).push(added) =~= start + (before + seq![added]));
                },
                None => {
                    assert(start + (before + Seq::<(Seq<char>, Seq<char>)>::empty()) =~= start
                        + before);
                },
            }
            k += 1;
        }
    }

    /// Every `port.env` a service declares, paired with its allocated port.
    pub fn declared_port_variables(&self, node: &Node, assignment: &Assignment) -> (r: Vec<
        (String, u16),
    >)
        ensures
            dict::entry_views(r@) == declared_of(node@, assignment@.ports),
    {
        let mut out: Vec<(String, u16)> = Vec::new();
        assert(dict::entry_views(out@) =~= Seq::<(Seq<char>, u16)>::empty());
        let service = match node.service() {
            Some(service) => service,
            None => {
                return out;
            },
        };
        if service.expose != Expose::Port {
            return out;
        }
        let declared = service.ports();
        let ghost all = service@.ports_of();
        let ghost f = declared_variable(node@, assignment@.ports);
        let mut k: usize = 0;
        while k < declared.len()
            invariant
                node@.service_of() == Some(service@),
                all == service@.ports_of(),
                text::views(declared@) == all,
                f == declared_variable(node@, assignment@.ports),
                k <= declared@.len(),
                dict::entry_views(out@) == lists::gather(all, f, k as int),
            decreases declared@.len() - k,
        {
            let ghost before = dict::entry_views(out@);
            assert(all[k as int] == declared@[k as int]@);
            assert(before + Seq::<(Seq<char>, u16)>::empty() =~= before);
            if let Some(variable) = &declared[k].env {
                let name = port_name(node, declared.len(), &declared[k]);
                assert(text::opt_view(name) == own_name(node@, all, all[k as int]));
                if let Some(value) = assignment.ports.get(&port_key_for(node, &name)) {
                    out.push((variable.clone(), *value));
                    assert(dict::entry_views(out@) =~= before + seq![(variable@, *value)]);
                }
            }
            k += 1;
        }
        out
    }

    /// The variables that magictree sets for the whole stack.
    pub fn computed_env(&self, assignment: &Assignment) -> (r: Dict<String>)
        ensures
            r@ == self.computed(assignment@.ports),
    {
        broadcast use text::pair_views_push;

        let ghost nodes = self.node_views();
        let ghost f = port_variables(assignment@.ports);
        let ghost g = declared_variables(assignment@.ports);
        let mut identity: Vec<(String, String)> = Vec::new();
        identity.push((text::own("MAGICTREE_SLUG"), self.slug.clone()));
        identity.push((text::own("MAGICTREE_WORKTREE"), self.repo.worktree_root.clone()));
        identity.push((text::own("MAGICTREE_WORKSPACE"), self.loaded.workspace_dir.clone()));
        identity.push((text::own("COMPOSE_PROJECT_NAME"), self.slug.clone()));
        assert(text::pair_views(identity@) =~= seq![
            ("MAGICTREE_SLUG"@, self.slug@),
            ("MAGICTREE_WORKTREE"@, self.repo@.worktree_root),
            ("MAGICTREE_WORKSPACE"@, self.loaded@.workspace_dir),
            ("COMPOSE_PROJECT_NAME"@, self.slug@),
        ]);
        let mut vars: Dict<String> = Dict::new();
        dict::insert_all(&mut vars, &identity);
        let mut pairs: Vec<(String, String)> = Vec::new();
        let mut i: usize = 0;
        assert(text::pair_views(pairs@) =~= Seq::<(Seq<char>, Seq<char>)>::empty());
        while i < self.nodes.len()
            invariant
                nodes == self.node_views(),
                f == port_variables(assignment@.ports),
                i <= self.nodes@.len(),
                text::pair_views(pairs@) == lists::gather(nodes, f, i as int),
            decreases self.nodes@.len() - i,
        {
            self.push_port_variables(&mut pairs, &self.nodes[i], assignment);
            i += 1;
        }
        dict::insert_all(&mut vars, &pairs);
        // A declared `port.env` names a variable the stack publishes: compose interpolates it
        // wherever it is declared and host tooling reads it. So the whole stack's set belongs in
        // the computed layer.
        let mut pairs: Vec<(String, String)> = Vec::new();
        let mut i: usize = 0;
        assert(text::pair_views(pairs@) =~= Seq::<(Seq<char>, Seq<char>)>::empty());
        while i < self.nodes.len()
            invariant
                nodes == self.node_views(),
                g == declared_variables(assignment@.ports),
                i <= self.nodes@.len(),
                text::pair_views(pairs@) == lists::gather(nodes, g, i as int),
            decreases self.nodes@.len() - i,
        {
            let found = self.declared_port_variables(&self.nodes[i], assignment);
            let ghost list = in_decimal(declared_of(nodes[i as int], assignment@.ports));
            let ghost start = text::pair_views(pairs@);
            let mut j: usize = 0;
            assert(start + list.take(0) =~= start);
            while j < found.len()
                invariant
                    j <= found@.len(),
                    dict::entry_views(found@) == declared_of(nodes[i as int], assignment@.ports),
                    list == in_decimal(declared_of(nodes[i as int], assignment@.ports)),
                    text::pair_views(pairs@) == start + list.take(j as int),
                decreases found@.len() - j,
            {
                broadcast use text::pair_views_push;

                assert(dict::entry_views(found@)[j as int] == (found@[j as int].0@, found@[j as int].1));
                pairs.push((found[j].0.clone(), text::decimal(found[j].1 as u64)));
                j += 1;
                assert((start + list.take(j - 1)).push(list[j - 1]) =~= start + list.take(j as int));
            }
            assert(found@.len() == list.len()) by {
                assert(dict::entry_views(found@).len() == found@.len());
            }
            assert(list.take(j as int) =~= list);
            i += 1;
        }
        dict::insert_all(&mut vars, &pairs);
        vars
    }

    /// The aliases of the ports that ask for one.
    pub fn aliases(&self, assignment: &Assignment) -> (r: Vec<Alias>)
        ensures
            env::alias_views(r@) == aliases_of(self.node_views(), assignment@.ports, self.slug@),
    {
        let host = text::concat(&self.slug, ".localhost");
        let ghost nodes = self.node_views();
        let ghost f = aliases_in(assignment@.ports, host@);
        let mut out: Vec<Alias> = Vec::new();
        let mut i: usize = 0;
        assert(env::alias_views(out@) =~= Seq::<(u16, Seq<char>)>::empty());
        while i < self.nodes.len()
            invariant
                nodes == self.node_views(),
                host@ == self.slug@ + ".localhost"@,
                f == aliases_in(assignment@.ports, host@),
                i <= self.nodes@.len(),
                env::alias_views(out@) == lists::gather(nodes, f, i as int),
            decreases self.nodes@.len() - i,
        {
            let node = &self.nodes[i];
            let ghost start = env::alias_views(out@);
            assert(start + Seq::<(u16, Seq<char>)>::empty() =~= start);
            if let Some(service) = node.service() {
                if service.expose == Expose::Port {
                    let declared = service.ports();
                    let ghost all = service@.ports_of();
                    let ghost g = alias_for(node@, assignment@.ports, host@);
                    let mut k: usize = 0;
                    while k < declared.len()
                        invariant
                            node@.service_of() == Some(service@),
                            all == service@.ports_of(),
                            text::views(declared@) == all,
                            g == alias_for(node@, assignment@.ports, host@),
                            k <= declared@.len(),
                            env::alias_views(out@) == start + lists::gather(all, g, k as int),
                        decreases declared@.len() - k,
                    {
                        assert(all[k as int] == declared@[k as int]@);
                        let ghost before = lists::gather(all, g, k as int);
                        let ghost now = env::alias_views(out@);
                        assert(start + (before + Seq::<(u16, Seq<char>)>::empty()) =~= start + before);
                        if declared[k].browser_alias {
                            let name = port_name(node, declared.len(), &declared[k]);
                            assert(text::opt_view(name) == own_name(node@, all, all[k as int]));
                            if let Some(value) = assignment.ports.get(&port_key_for(node, &name)) {
                                out.push(Alias { port: *value, host: host.clone() });
                                assert(env::alias_views(out@) =~= now.push((*value, host@)));
                                assert((start + before).push((*value, host@)) =~= start + (before
                                    + seq![(*value, host@)]));
                            }
                        }
                        k += 1;
                    }
                }
            }
            i += 1;
        }
        out
    }

    /// The service that publishes `variable` in `port.env`, when one does.
    fn port_variable_owner(&self, variable: &str) -> (r: Option<String>)
        ensures
            text::opt_view(r) == owner_of(self.node_views(), variable@, 0),
    {
        let ghost nodes = self.node_views();
        let mut i: usize = 0;
        while i < self.nodes.len()
            invariant
                nodes == self.node_views(),
                i <= self.nodes@.len(),
                owner_of(nodes, variable@, 0) == owner_of(nodes, variable@, i as int),
            decreases self.nodes@.len() - i,
        {
            let node = &self.nodes[i];
            assert(nodes[i as int] == node@);
            if let Some(service) = node.service() {
                if service.expose == Expose::Port {
                    let declared = service.ports();
                    let ghost all = service@.ports_of();
                    let mut k: usize = 0;
                    while k < declared.len()
                        invariant
                            nodes == self.node_views(),
                            i < self.nodes@.len(),
                            nodes[i as int] == node@,
                            node@.service_of() == Some(service@),
                            service@.expose == Expose::Port,
                            all == service@.ports_of(),
                            text::views(declared@) == all,
                            k <= declared@.len(),
                            owner_of(nodes, variable@, 0) == owner_of(nodes, variable@, i as int),
                            forall|j: int| 0 <= j < k ==> (#[trigger] all[j]).env != Some(variable@),
                        decreases declared@.len() - k,
                    {
                        assert(all[k as int] == declared@[k as int]@);
                        if let Some(env) = &declared[k].env {
                            if text::same(env, variable) {
                                assert(publishes(node@, variable@));
                                return Some(node.qual());
                            }
                        }
                        k += 1;
                    }
                    assert(!publishes(node@, variable@));
                }
            }
            i += 1;
        }
        None
    }

    fn check_layer(&self, source: &str, layer: &Dict<String>) -> (r: Option<String>)
        ensures
            text::opt_view(r) == published_key(self.node_views(), source@, layer@, 0),
    {
        let ghost nodes = self.node_views();
        let mut k: usize = 0;
        while k < layer.len()
            invariant
                nodes == self.node_views(),
                k <= layer@.len(),
                published_key(nodes, source@, layer@, 0) == published_key(
                    nodes,
                    source@,
                    layer@,
                    k as int,
                ),
            decreases layer@.len() - k,
        {
            let key = layer.key_at(k);
            if let Some(owner) = self.port_variable_owner(key) {
                let mut e = text::own(source);
                e.append(" [env] sets '");
                e.append(key);
                e.append("', which service '");
                e.append(&owner);
                e.append(
                    "' publishes in port.env; magictree already sets it for the whole stack, so remove the line",
                );
                return Some(e);
            }
            k += 1;
        }
        None
    }

    fn build_env_layers(&self, app: &Option<String>, assignment: &Assignment, preview: bool) -> (r:
        Result<EnvPlan, String>)
        ensures
            match r {
                Ok(p) => self.layered(text::opt_view(*app), assignment@.ports, preview) == Ok::<
                    env::Layers,
                    Seq<char>,
                >(env::Layers { vars: p.vars@, sources: p.sources@ }),
                Err(e) => self.layered(text::opt_view(*app), assignment@.ports, preview) == Err::<
                    env::Layers,
                    Seq<char>,
                >(e@),
            },
    {
        let empty: Dict<String> = Dict::new();
        let workspace_env = if self.loaded.root_is_app {
            &empty
        } else {
            &self.loaded.workspace.env
        };
        let app_env = match app {
            Some(id) => match self.loaded.app(id) {
                Some(app) => &app.manifest.env,
                None => &empty,
            },
            None => &empty,
        };
        // Every computed key is reserved, so a declared layer can only collide with a variable a
        // service publishes in `port.env`. Name the service that owns it.
        if let Some(e) = self.check_layer("workspace", workspace_env) {
            return Err(e);
        }
        if let Some(e) = self.check_layer("app", app_env) {
            return Err(e);
        }
        let computed = self.computed_env(assignment);
        let aliases = self.aliases(assignment);
        if !preview {
            return env::build(&computed, workspace_env, app_env, &aliases);
        }
        let zero = text::decimal(PLACEHOLDER_PORT as u64);
        let ghost shown = placeholders(computed@);
        let mut vars: Dict<String> = Dict::new();
        let mut k: usize = 0;
        assert(shown.take(0) =~= Seq::<(Seq<char>, Seq<char>)>::empty());
        while k < computed.len()
            invariant
                shown == placeholders(computed@),
                zero@ == text::decimal_of(PLACEHOLDER_PORT as nat),
                k <= computed@.len(),
                vars@ == dict::put_all(Seq::empty(), shown.take(k as int)),
            decreases computed@.len() - k,
        {
            assert(shown.take(k + 1).drop_last() =~= shown.take(k as int));
            let value = if text::same(computed.value_at(k), &zero) {
                text::own(PLACEHOLDER)
            } else {
                computed.value_at(k).clone()
            };
            vars.insert(computed.key_at(k).clone(), value);
            k += 1;
        }
        assert(shown.take(k as int) =~= shown);
        env::build(&vars, workspace_env, app_env, &aliases)
    }

    /// The layered environment of an app, or of the workspace.
    pub fn build_env(&self, app: &Option<String>, assignment: &Assignment) -> (r: Result<
        EnvPlan,
        String,
    >)
        ensures
            match r {
                Ok(p) => self.layered(text::opt_view(*app), assignment@.ports, false) == Ok::<
                    env::Layers,
                    Seq<char>,
                >(env::Layers { vars: p.vars@, sources: p.sources@ }),
                Err(e) => self.layered(text::opt_view(*app), assignment@.ports, false) == Err::<
                    env::Layers,
                    Seq<char>,
                >(e@),
            },
    {
        self.build_env_layers(app, assignment, false)
    }

    /// The layered environment for a dry run: the same shape as a real run, with every port shown
    /// as a placeholder in the computed layer, so a value that interpolates one reads as a
    /// placeholder too instead of as the sentinel number a preview assignment carries.
    pub fn preview_plan(&self, app: &Option<String>, mode: Option<PortMode>) -> (r: Result<
        EnvPlan,
        String,
    >)
        ensures
            match r {
                Ok(p) => self.layered(
                    text::opt_view(*app),
                    preview_ports(
                        self.node_views(),
                        preview_mode(self.repo@, mode),
                    ),
                    true,
                ) == Ok::<env::Layers, Seq<char>>(
                    env::Layers { vars: p.vars@, sources: p.sources@ },
                ),
                Err(e) => self.layered(
                    text::opt_view(*app),
                    preview_ports(
                        self.node_views(),
                        preview_mode(self.repo@, mode),
                    ),
                    true,
                ) == Err::<env::Layers, Seq<char>>(e@),
            },
    {
        let assignment = self.preview_assignment(mode);
        self.build_env_layers(app, &assignment, true)
    }

    /// The variables one node runs with.
    pub fn node_env(&self, node: &Node, assignment: &Assignment) -> (r: Result<
        Dict<String>,
        String,
    >)
        ensures
            match r {
                Ok(vars) => self.layered(node@.app, assignment@.ports, false) matches Ok(l) && l.vars
                    == vars@,
                Err(e) => self.layered(node@.app, assignment@.ports, false) == Err::<
                    env::Layers,
                    Seq<char>,
                >(e@),
            },
    {
        // `computed_env` already carries every declared `port.env` in the stack, so a node's
        // environment is exactly the layered plan.
        match self.build_env(&node.app, assignment) {
            Ok(plan) => Ok(plan.vars),
            Err(e) => Err(e),
        }
    }

    /// Environment for a dry run in the current app.
    pub fn preview_env(&self, mode: Option<PortMode>) -> (r: Result<EnvPlan, String>)
        ensures
            match r {
                Ok(p) => self.layered(
                    self.loaded@.current_app,
                    preview_ports(
                        self.node_views(),
                        preview_mode(self.repo@, mode),
                    ),
                    true,
                ) == Ok::<env::Layers, Seq<char>>(
                    env::Layers { vars: p.vars@, sources: p.sources@ },
                ),
                Err(e) => self.layered(
                    self.loaded@.current_app,
                    preview_ports(
                        self.node_views(),
                        preview_mode(self.repo@, mode),
                    ),
                    true,
                ) == Err::<env::Layers, Seq<char>>(e@),
            },
    {
        self.preview_plan(&self.loaded.current_app, mode)
    }
}

/// The mode a preview shows: in the primary checkout the one asked for, or declared ports. A linked
/// worktree never takes declared ports.
pub open spec fn preview_mode(repo: RepoView, mode: Option<PortMode>) -> PortMode {
    if !repo.is_main() {
        PortMode::Block
    } else {
        match mode {
            Some(mode) => mode,
            None => PortMode::Declared,
        }
    }
}

/// The port that a preview shows for one declaration: the required one, in declared mode the
/// declared one, or the placeholder.
pub open spec fn preview_port(node: NodeView, mode: PortMode) -> spec_fn(PortSpecView) -> Seq<
    (Seq<char>, u16),
> {
    |port: PortSpecView|
        seq![
            (
                key_of(node, own_name(node, node.service_of().unwrap().ports_of(), port)),
                match (port.require, port.prefer, mode) {
                    (Some(port), _, _) => port,
                    (None, Some(port), PortMode::Declared) => port,
                    _ => PLACEHOLDER_PORT,
                },
            ),
        ]
}

/// The ports that a preview shows for a node.
pub open spec fn preview_of(mode: PortMode) -> spec_fn(NodeView) -> Seq<(Seq<char>, u16)> {
    |node: NodeView|
        match node.service_of() {
            Some(service) => if service.expose == Expose::Port {
                lists::gathered(service.ports_of(), preview_port(node, mode))
            } else {
                Seq::empty()
            },
            None => Seq::empty(),
        }
}

/// The ports that a preview shows.
pub open spec fn preview_ports(nodes: Seq<NodeView>, mode: PortMode) -> Seq<(Seq<char>, u16)> {
    dict::put_all(Seq::empty(), lists::gathered(nodes, preview_of(mode)))
}

impl Ctx {
    /// The mode a preview shows.
    pub fn preview_ports_mode(&self, mode: Option<PortMode>) -> (r: PortMode)
        ensures
            r == preview_mode(self.repo@, mode),
    {
        if !self.repo.is_main_worktree() {
            PortMode::Block
        } else {
            match mode {
                Some(mode) => mode,
                None => PortMode::Declared,
            }
        }
    }

    /// Placeholder port assignment used by dry runs; never written anywhere.
    ///
    /// A preview shows the ports the next real `up` would use, so a declared port is previewed as
    /// itself only where it would be taken: a `prefer` is the primary checkout's port, and a
    /// linked worktree ignores it. `mode` is what the run would ask for, `None` being this
    /// worktree's default.
    pub fn preview_assignment(&self, mode: Option<PortMode>) -> (r: Assignment)
        ensures
            r@ == (AssignmentView {
                version: ports::ASSIGNMENT_VERSION,
                repo_key: self.repo@.key_of(),
                worktree_id: self.repo@.worktree_id_of(),
                worktree_path: Some(self.repo@.worktree_root),
                base: 0,
                mode: preview_mode(self.repo@, mode),
                ports: preview_ports(self.node_views(), preview_mode(self.repo@, mode)),
            }),
    {
        let mode = self.preview_ports_mode(mode);
        let ghost nodes = self.node_views();
        let ghost f = preview_of(mode);
        let mut ports: Dict<u16> = Dict::new();
        let mut i: usize = 0;
        while i < self.nodes.len()
            invariant
                nodes == self.node_views(),
                f == preview_of(mode),
                i <= self.nodes@.len(),
                ports@ == dict::put_all(Seq::empty(), lists::gather(nodes, f, i as int)),
            decreases self.nodes@.len() - i,
        {
            let node = &self.nodes[i];
            let ghost start = lists::gather(nodes, f, i as int);
            assert(start + Seq::<(Seq<char>, u16)>::empty() =~= start);
            if let Some(service) = node.service() {
                if service.expose == Expose::Port {
                    let declared = service.ports();
                    let ghost all = service@.ports_of();
                    let ghost g = preview_port(node@, mode);
                    let mut k: usize = 0;
                    while k < declared.len()
                        invariant
                            node@.service_of() == Some(service@),
                            all == service@.ports_of(),
                            text::views(declared@) == all,
                            g == preview_port(node@, mode),
                            k <= declared@.len(),
                            ports@ == dict::put_all(
                                Seq::empty(),
                                start + lists::gather(all, g, k as int),
                            ),
                        decreases declared@.len() - k,
                    {
                        let port = &declared[k];
                        assert(all[k as int] == port@);
                        let name = port_name(node, declared.len(), port);
                        assert(text::opt_view(name) == own_name(node@, all, all[k as int]));
                        let fixed: u16 = match port.require {
                            Some(required) => required,
                            None => match (port.prefer, mode) {
                                (Some(preferred), PortMode::Declared) => preferred,
                                _ => PLACEHOLDER_PORT,
                            },
                        };
                        let key = port_key_for(node, &name);
                        let ghost before = start + lists::gather(all, g, k as int);
                        let ghost after = start + lists::gather(all, g, k + 1);
                        assert(g(all[k as int]) =~= seq![(key@, fixed)]);
                        assert(after =~= before.push((key@, fixed)));
                        assert(after.drop_last() =~= before);
                        ports.insert(key, fixed);
                        k += 1;
                    }
                }
            }
            i += 1;
        }
        Assignment {
            version: ports::ASSIGNMENT_VERSION,
            repo_key: self.repo.key(),
            worktree_id: self.repo.worktree_id(),
            worktree_path: Some(self.repo.worktree_root.clone()),
            base: 0,
            mode,
            ports,
        }
    }
}

// ---------------------------------------------------------------------------
// Compose
// ---------------------------------------------------------------------------

/// The compose project of a node: one per app, and one for the workspace.
pub open spec fn project_of(slug: Seq<char>, node: NodeView) -> Seq<char> {
    match node.app {
        Some(app) => slug + "-"@ + app,
        None => slug,
    }
}

/// The compose file and project of a node that runs in a container.
pub open spec fn runner_key_of(slug: Seq<char>, node: NodeView) -> Option<(Seq<char>, Seq<char>)> {
    match node.service_of() {
        Some(service) => match (service.runtime_of(), service.compose) {
            (Runtime::Compose, Some(reference)) => Some(
                (paths::join_of(node.manifest_dir, reference.file), project_of(slug, node)),
            ),
            _ => None,
        },
        None => None,
    }
}

/// Whether two keys are of the same file and project: a path may be written in more than one way.
pub open spec fn same_key(a: (Seq<char>, Seq<char>), b: (Seq<char>, Seq<char>)) -> bool {
    paths::same_path(a.0, b.0) && a.1 == b.1
}

/// Whether one of some keys is of the file and project of `key`.
pub open spec fn holds_key(keys: Seq<(Seq<char>, Seq<char>)>, key: (Seq<char>, Seq<char>)) -> bool {
    exists|i: int| 0 <= i < keys.len() && same_key(#[trigger] keys[i], key)
}

/// Whether a node belongs to the file and project of `key`.
pub open spec fn has_runner(slug: Seq<char>, node: NodeView, key: (Seq<char>, Seq<char>)) -> bool {
    runner_key_of(slug, node) matches Some(own) && same_key(own, key)
}

/// The distinct keys among those of the first `k` nodes that are wanted, in order.
pub open spec fn keys_among(
    slug: Seq<char>,
    nodes: Seq<NodeView>,
    wanted: spec_fn((Seq<char>, Seq<char>)) -> bool,
    k: int,
) -> Seq<(Seq<char>, Seq<char>)>
    decreases k,
{
    if k <= 0 {
        Seq::empty()
    } else {
        let before = keys_among(slug, nodes, wanted, k - 1);
        match runner_key_of(slug, nodes[k - 1]) {
            Some(key) => if wanted(key) && !holds_key(before, key) {
                before.push(key)
            } else {
                before
            },
            None => before,
        }
    }
}

/// The keys of the selected nodes.
pub open spec fn touched_keys(slug: Seq<char>, nodes: Seq<NodeView>, selection: Seq<usize>) -> spec_fn(
    (Seq<char>, Seq<char>),
) -> bool {
    |key: (Seq<char>, Seq<char>)|
        exists|j: int|
            0 <= j < selection.len() && has_runner(slug, nodes[#[trigger] selection[j] as int], key)
}

/// Whether a key comes before another: by file, then by project.
pub open spec fn key_before(a: (Seq<char>, Seq<char>), b: (Seq<char>, Seq<char>)) -> bool {
    paths::path_before(a.0, b.0) || (paths::same_path(a.0, b.0) && text::before(a.1, b.1))
}

/// Keys in order, with `x` at its place among them.
pub open spec fn with_key(keys: Seq<(Seq<char>, Seq<char>)>, x: (Seq<char>, Seq<char>)) -> Seq<
    (Seq<char>, Seq<char>),
>
    decreases keys.len(),
{
    if keys.len() == 0 || !key_before(x, keys.last()) {
        keys.push(x)
    } else {
        with_key(keys.drop_last(), x).push(keys.last())
    }
}

/// The first `k` keys in order.
pub open spec fn ordered_keys(keys: Seq<(Seq<char>, Seq<char>)>, k: int) -> Seq<
    (Seq<char>, Seq<char>),
>
    decreases k,
{
    if k <= 0 {
        Seq::empty()
    } else {
        with_key(ordered_keys(keys, k - 1), keys[k - 1])
    }
}

/// The app whose environment a compose file is resolved in: that of the first selected node, from
/// `k` on, that belongs to the file and project; the workspace's where none does.
pub open spec fn group_app(
    slug: Seq<char>,
    nodes: Seq<NodeView>,
    selection: Seq<usize>,
    key: (Seq<char>, Seq<char>),
    k: int,
) -> Option<Seq<char>>
    decreases selection.len() - k,
{
    if k < 0 || k >= selection.len() {
        None
    } else if has_runner(slug, nodes[selection[k] as int], key) {
        nodes[selection[k] as int].app
    } else {
        group_app(slug, nodes, selection, key, k + 1)
    }
}

/// The published port of one declaration.
pub open spec fn mapping_for(node: NodeView, assigned: Seq<(Seq<char>, u16)>) -> spec_fn(PortSpecView) -> Seq<
    PortMappingView,
> {
    |port: PortSpecView|
        seq![
            PortMappingView {
                host: dict::lookup(
                    assigned,
                    key_of(node, own_name(node, node.service_of().unwrap().ports_of(), port)),
                ),
                target: port.target,
            },
        ]
}

/// What the override says about a node, where it belongs to the file and project of `key`.
pub open spec fn group_member(
    slug: Seq<char>,
    assigned: Seq<(Seq<char>, u16)>,
    key: (Seq<char>, Seq<char>),
) -> spec_fn(NodeView) -> Seq<GroupServiceView> {
    |node: NodeView|
        if has_runner(slug, node, key) {
            let service = node.service_of().unwrap();
            seq![
                GroupServiceView {
                    name: service.compose.unwrap().service,
                    expose: service.expose,
                    mappings: if service.expose == Expose::Port {
                        lists::gathered(service.ports_of(), mapping_for(node, assigned))
                    } else {
                        Seq::empty()
                    },
                    environment: Seq::empty(),
                },
            ]
        } else {
            Seq::empty()
        }
}

impl Ctx {
    /// The compose group of one file and project.
    pub open spec fn group(self, assigned: Seq<(Seq<char>, u16)>, key: (Seq<char>, Seq<char>)) -> ComposeGroupView {
        ComposeGroupView {
            file: key.0,
            project: key.1,
            worktree_path: self.repo@.worktree_root,
            repo_key: self.repo@.key_of(),
            services: lists::gathered(
                self.node_views(),
                group_member(self.slug@, assigned, key),
            ),
        }
    }

    /// The compose groups that a selection touches. Compose starts a service's dependencies too,
    /// so a group describes every service of its file and project, selected or not. The groups
    /// come in the order of their files, then of their projects.
    pub open spec fn groups(self, selection: Seq<usize>, assigned: Seq<(Seq<char>, u16)>) -> Seq<
        ComposeGroupView,
    > {
        let found = keys_among(
            self.slug@,
            self.node_views(),
            touched_keys(self.slug@, self.node_views(), selection),
            self.node_views().len() as int,
        );
        let keys = ordered_keys(found, found.len() as int);
        Seq::new(keys.len(), |i: int| self.group(assigned, keys[i]))
    }

    pub fn project_for(&self, node: &Node) -> (r: String)
        ensures
            r@ == project_of(self.slug@, node@),
    {
        match &node.app {
            Some(app) => {
                let mut r = self.slug.clone();
                r.append("-");
                r.append(app);
                r
            },
            None => self.slug.clone(),
        }
    }

    pub fn runner_key(&self, node: &Node) -> (r: Option<(String, String)>)
        ensures
            match r {
                Some((file, project)) => runner_key_of(self.slug@, node@) == Some(
                    (file@, project@),
                ),
                None => runner_key_of(self.slug@, node@) is None,
            },
    {
        match node.service() {
            Some(service) => if service.launched_by() == Runtime::Compose {
                match &service.compose {
                    Some(reference) => Some(
                        (
                            paths::join(&node.manifest_dir, &reference.file),
                            self.project_for(node),
                        ),
                    ),
                    None => None,
                }
            } else {
                None
            },
            None => None,
        }
    }

    fn mappings(&self, node: &Node, service: &Service, assignment: &Assignment) -> (r: Vec<PortMapping>)
        requires
            node@.service_of() == Some(service@),
        ensures
            text::views(r@) == lists::gathered(
                service@.ports_of(),
                mapping_for(node@, assignment@.ports),
            ),
    {
        let declared = service.ports();
        let ghost all = service@.ports_of();
        let ghost f = mapping_for(node@, assignment@.ports);
        let mut out: Vec<PortMapping> = Vec::new();
        let mut k: usize = 0;
        assert(text::views(out@) =~= Seq::<PortMappingView>::empty());
        while k < declared.len()
            invariant
                node@.service_of() == Some(service@),
                all == service@.ports_of(),
                text::views(declared@) == all,
                f == mapping_for(node@, assignment@.ports),
                k <= declared@.len(),
                text::views(out@) == lists::gather(all, f, k as int),
            decreases declared@.len() - k,
        {
            broadcast use text::views_push;

            assert(all[k as int] == declared@[k as int]@);
            let name = port_name(node, declared.len(), &declared[k]);
            assert(text::opt_view(name) == own_name(node@, all, all[k as int]));
            let host = match assignment.ports.get(&port_key_for(node, &name)) {
                Some(value) => Some(*value),
                None => None,
            };
            let mapping = PortMapping { host, target: declared[k].target };
            let ghost before = text::views(out@);
            assert(f(all[k as int]) =~= seq![mapping@]);
            assert(before.push(mapping@) =~= before + seq![mapping@]);
            out.push(mapping);
            k += 1;
        }
        out
    }

    fn compose_group(&self, assignment: &Assignment, key: &(String, String)) -> (r: ComposeGroup)
        ensures
            r@ == self.group(assignment@.ports, (key.0@, key.1@)),
    {
        let ghost nodes = self.node_views();
        let ghost wanted = (key.0@, key.1@);
        let ghost f = group_member(self.slug@, assignment@.ports, wanted);
        let mut services: Vec<GroupService> = Vec::new();
        let mut i: usize = 0;
        assert(text::views(services@) =~= Seq::<GroupServiceView>::empty());
        while i < self.nodes.len()
            invariant
                nodes == self.node_views(),
                wanted == (key.0@, key.1@),
                f == group_member(self.slug@, assignment@.ports, wanted),
                i <= self.nodes@.len(),
                text::views(services@) == lists::gather(nodes, f, i as int),
            decreases self.nodes@.len() - i,
        {
            broadcast use text::views_push;

            let node = &self.nodes[i];
            assert(nodes[i as int] == node@);
            let ghost before = text::views(services@);
            assert(before + Seq::<GroupServiceView>::empty() =~= before);
            let own = match self.runner_key(node) {
                Some((file, project)) => paths::is_same_path(&file, &key.0) && text::same(
                    &project,
                    &key.1,
                ),
                None => false,
            };
            assert(own == has_runner(self.slug@, node@, wanted));
            if own {
                if let Some(service) = node.service() {
                    if let Some(reference) = &service.compose {
                        let mappings = if service.expose == Expose::Port {
                            self.mappings(node, service, assignment)
                        } else {
                            Vec::new()
                        };
                        let member = GroupService {
                            name: reference.service.clone(),
                            expose: service.expose,
                            mappings,
                            environment: Vec::new(),
                        };
                        assert(text::pair_views(member.environment@) =~= Seq::<
                            (Seq<char>, Seq<char>),
                        >::empty());
                        if service.expose != Expose::Port {
                            assert(text::views(mappings@) =~= Seq::<PortMappingView>::empty());
                        }
                        assert(f(node@) =~= seq![member@]);
                        assert(before.push(member@) =~= before + seq![member@]);
                        services.push(member);
                    }
                }
            }
            i += 1;
        }
        ComposeGroup {
            file: key.0.clone(),
            project: key.1.clone(),
            worktree_path: self.repo.worktree_root.clone(),
            repo_key: self.repo.key(),
            services,
        }
    }

    /// Whether one of some keys is of the file and project of `key`.
    fn has_key(keys: &Vec<(String, String)>, key: &(String, String)) -> (r: bool)
        ensures
            r == holds_key(text::pair_views(keys@), (key.0@, key.1@)),
    {
        let ghost all = text::pair_views(keys@);
        let mut i: usize = 0;
        while i < keys.len()
            invariant
                all == text::pair_views(keys@),
                i <= keys@.len(),
                forall|k: int| 0 <= k < i ==> !same_key(#[trigger] all[k], (key.0@, key.1@)),
            decreases keys@.len() - i,
        {
            assert(all[i as int] == (keys@[i as int].0@, keys@[i as int].1@));
            if paths::is_same_path(&keys[i].0, &key.0) && text::same(&keys[i].1, &key.1) {
                return true;
            }
            i += 1;
        }
        false
    }

    /// Whether the selection holds a node of the file and project of `key`.
    fn is_touched(&self, selection: &Vec<usize>, key: &(String, String)) -> (r: bool)
        requires
            manifest::inside(selection@, self.nodes@.len()),
        ensures
            r == touched_keys(self.slug@, self.node_views(), selection@)((key.0@, key.1@)),
    {
        let ghost nodes = self.node_views();
        let ghost wanted = (key.0@, key.1@);
        let mut j: usize = 0;
        while j < selection.len()
            invariant
                nodes == self.node_views(),
                wanted == (key.0@, key.1@),
                manifest::inside(selection@, self.nodes@.len()),
                j <= selection@.len(),
                forall|m: int|
                    0 <= m < j ==> !has_runner(
                        self.slug@,
                        nodes[#[trigger] selection@[m] as int],
                        wanted,
                    ),
            decreases selection@.len() - j,
        {
            let i: usize = selection[j];
            assert(nodes[i as int] == self.nodes@[i as int]@);
            if let Some((file, project)) = self.runner_key(&self.nodes[i]) {
                if paths::is_same_path(&file, &key.0) && text::same(&project, &key.1) {
                    assert(has_runner(self.slug@, nodes[selection@[j as int] as int], wanted));
                    return true;
                }
            }
            j += 1;
        }
        false
    }

    /// Adds a key to keys in order.
    fn place_key(keys: &mut Vec<(String, String)>, x: (String, String))
        ensures
            text::pair_views(final(keys)@) == with_key(
                text::pair_views(old(keys)@),
                (x.0@, x.1@),
            ),
    {
        let ghost all = text::pair_views(keys@);
        let ghost view = (x.0@, x.1@);
        let mut i: usize = keys.len();
        assert(all.take(all.len() as int) =~= all);
        assert(with_key(all, view) + all.skip(all.len() as int) =~= with_key(all, view));
        while i > 0 && (paths::is_path_before(&x.0, &keys[i - 1].0) || (paths::is_same_path(
            &x.0,
            &keys[i - 1].0,
        ) && text::is_before(&x.1, &keys[i - 1].1)))
            invariant
                all == text::pair_views(keys@),
                view == (x.0@, x.1@),
                i <= keys@.len(),
                with_key(all, view) == with_key(all.take(i as int), view) + all.skip(i as int),
            decreases i,
        {
            assert(all.take(i as int).drop_last() =~= all.take(i - 1));
            assert(all.take(i as int).last() == all[i - 1]);
            assert(with_key(all.take(i - 1), view).push(all[i - 1]) + all.skip(i as int)
                =~= with_key(all.take(i - 1), view) + all.skip(i - 1));
            i -= 1;
        }
        assert(i > 0 ==> all.take(i as int).last() == all[i - 1]);
        keys.insert(i, x);
        assert(text::pair_views(keys@) =~= all.take(i as int).push(view) + all.skip(i as int));
    }

    /// Keys in order.
    fn order_keys(found: Vec<(String, String)>) -> (r: Vec<(String, String)>)
        ensures
            text::pair_views(r@) == ordered_keys(text::pair_views(found@), found@.len() as int),
    {
        let ghost all = text::pair_views(found@);
        let mut keys: Vec<(String, String)> = Vec::new();
        let mut k: usize = 0;
        assert(text::pair_views(keys@) =~= Seq::<(Seq<char>, Seq<char>)>::empty());
        while k < found.len()
            invariant
                all == text::pair_views(found@),
                k <= found@.len(),
                text::pair_views(keys@) == ordered_keys(all, k as int),
            decreases found@.len() - k,
        {
            assert(all[k as int] == (found@[k as int].0@, found@[k as int].1@));
            Ctx::place_key(&mut keys, (found[k].0.clone(), found[k].1.clone()));
            k += 1;
        }
        keys
    }

    /// The compose groups that a selection touches.
    pub fn compose_groups(&self, selection: &Vec<usize>, assignment: &Assignment) -> (r: Vec<
        ComposeGroup,
    >)
        requires
            manifest::inside(selection@, self.nodes@.len()),
        ensures
            text::views(r@) == self.groups(selection@, assignment@.ports),
    {
        let ghost nodes = self.node_views();
        let ghost wanted = touched_keys(self.slug@, nodes, selection@);
        let mut found: Vec<(String, String)> = Vec::new();
        let mut i: usize = 0;
        assert(text::pair_views(found@) =~= Seq::<(Seq<char>, Seq<char>)>::empty());
        while i < self.nodes.len()
            invariant
                nodes == self.node_views(),
                wanted == touched_keys(self.slug@, nodes, selection@),
                manifest::inside(selection@, self.nodes@.len()),
                i <= self.nodes@.len(),
                text::pair_views(found@) == keys_among(self.slug@, nodes, wanted, i as int),
            decreases self.nodes@.len() - i,
        {
            broadcast use text::pair_views_push;

            assert(nodes[i as int] == self.nodes@[i as int]@);
            if let Some(key) = self.runner_key(&self.nodes[i]) {
                if self.is_touched(selection, &key) && !Ctx::has_key(&found, &key) {
                    found.push(key);
                }
            }
            i += 1;
        }
        let ghost all = self.groups(selection@, assignment@.ports);
        let ghost ordered = ordered_keys(text::pair_views(found@), found@.len() as int);
        let keys = Ctx::order_keys(found);
        let mut out: Vec<ComposeGroup> = Vec::new();
        let mut k: usize = 0;
        assert(text::views(out@) =~= all.take(0));
        while k < keys.len()
            invariant
                text::pair_views(keys@) == ordered,
                all =~= Seq::new(
                    ordered.len(),
                    |i: int| self.group(assignment@.ports, ordered[i]),
                ),
                all.len() == keys@.len(),
                k <= keys@.len(),
                text::views(out@) == all.take(k as int),
            decreases keys@.len() - k,
        {
            broadcast use text::views_push;

            let group = self.compose_group(assignment, &keys[k]);
            assert(text::pair_views(keys@)[k as int] == (keys@[k as int].0@, keys@[k as int].1@));
            assert(all[k as int] == group@);
            out.push(group);
            k += 1;
            assert(all.take(k as int) =~= all.take(k - 1).push(all[k - 1]));
        }
        assert(all.take(k as int) =~= all);
        out
    }

    /// The variables that a group's compose file is resolved with.
    pub fn group_env(
        &self,
        group: &ComposeGroup,
        selection: &Vec<usize>,
        assignment: &Assignment,
    ) -> (r: Result<Dict<String>, String>)
        requires
            manifest::inside(selection@, self.nodes@.len()),
        ensures
            ({
                let layers = self.layered(
                    group_app(
                        self.slug@,
                        self.node_views(),
                        selection@,
                        (group@.file, group@.project),
                        0,
                    ),
                    assignment@.ports,
                    false,
                );
                match r {
                    Ok(vars) => layers matches Ok(l) && l.vars == vars@,
                    Err(e) => layers == Err::<env::Layers, Seq<char>>(e@),
                }
            }),
    {
        let ghost nodes = self.node_views();
        let ghost key = (group@.file, group@.project);
        let mut k: usize = 0;
        while k < selection.len()
            invariant
                nodes == self.node_views(),
                key == (group@.file, group@.project),
                manifest::inside(selection@, self.nodes@.len()),
                k <= selection@.len(),
                group_app(self.slug@, nodes, selection@, key, 0) == group_app(
                    self.slug@,
                    nodes,
                    selection@,
                    key,
                    k as int,
                ),
            decreases selection@.len() - k,
        {
            let node = &self.nodes[selection[k]];
            assert(nodes[selection@[k as int] as int] == node@);
            if let Some((file, project)) = self.runner_key(node) {
                if paths::is_same_path(&file, &group.file) && text::same(&project, &group.project) {
                    return self.node_env(node, assignment);
                }
            }
            k += 1;
        }
        match self.build_env(&None, assignment) {
            Ok(plan) => Ok(plan.vars),
            Err(e) => Err(e),
        }
    }

    /// Distinct compose projects in this repository, used for `down` and `status`.
    pub fn compose_identities(&self) -> (r: Vec<(String, String)>)
        ensures
            text::pair_views(r@) == keys_among(
                self.slug@,
                self.node_views(),
                any_key(),
                self.node_views().len() as int,
            ),
    {
        let ghost nodes = self.node_views();
        let mut keys: Vec<(String, String)> = Vec::new();
        let mut i: usize = 0;
        assert(text::pair_views(keys@) =~= Seq::<(Seq<char>, Seq<char>)>::empty());
        while i < self.nodes.len()
            invariant
                nodes == self.node_views(),
                i <= self.nodes@.len(),
                text::pair_views(keys@) == keys_among(self.slug@, nodes, any_key(), i as int),
            decreases self.nodes@.len() - i,
        {
            broadcast use text::pair_views_push;

            assert(nodes[i as int] == self.nodes@[i as int]@);
            if let Some(key) = self.runner_key(&self.nodes[i]) {
                if !Ctx::has_key(&keys, &key) {
                    keys.push(key);
                }
            }
            i += 1;
        }
        keys
    }
}

/// Every key.
pub open spec fn any_key() -> spec_fn((Seq<char>, Seq<char>)) -> bool {
    |key: (Seq<char>, Seq<char>)| true
}

/// The bootstrap steps of one manifest, and the directory they run in.
#[derive(Debug)]
pub struct BootstrapTarget {
    pub dir: String,
    pub app: Option<String>,
    pub steps: Bootstrap,
}

/// The contents of a [`BootstrapTarget`].
#[verifier::ext_equal]
pub struct BootstrapTargetView {
    pub dir: Seq<char>,
    pub app: Option<Seq<char>>,
    pub steps: BootstrapView,
}

impl View for BootstrapTarget {
    type V = BootstrapTargetView;

    open spec fn view(&self) -> BootstrapTargetView {
        BootstrapTargetView {
            dir: self.dir@,
            app: text::opt_view(self.app),
            steps: self.steps@,
        }
    }
}

impl Clone for BootstrapTarget {
    fn clone(&self) -> (r: Self)
        ensures
            r@ == self@,
    {
        BootstrapTarget {
            dir: self.dir.clone(),
            app: text::clone_opt(&self.app),
            steps: self.steps.clone(),
        }
    }
}

/// A compose project that is about to be called, and its generated override.
#[derive(Debug)]
pub struct PreparedRunner {
    pub runner: ComposeRunner,
    pub contents: String,
}

/// The contents of a [`PreparedRunner`].
#[verifier::ext_equal]
pub struct PreparedRunnerView {
    pub runner: ComposeRunnerView,
    pub contents: Seq<char>,
}

impl View for PreparedRunner {
    type V = PreparedRunnerView;

    open spec fn view(&self) -> PreparedRunnerView {
        PreparedRunnerView {
            runner: self.runner@,
            contents: self.contents@,
        }
    }
}

impl Clone for PreparedRunner {
    fn clone(&self) -> (r: Self)
        ensures
            r@ == self@,
    {
        PreparedRunner {
            runner: self.runner.clone(),
            contents: self.contents.clone(),
        }
    }
}

/// What is known of a host process that failed.
#[derive(Debug)]
pub struct ProcessReport {
    /// The process that was started, where one was recorded.
    pub pid: Option<i32>,
    pub alive: bool,
    /// The end of its log.
    pub tail: Vec<String>,
}

/// The contents of a [`ProcessReport`].
#[verifier::ext_equal]
pub struct ProcessReportView {
    pub pid: Option<i32>,
    pub alive: bool,
    pub tail: Seq<Seq<char>>,
}

impl View for ProcessReport {
    type V = ProcessReportView;

    open spec fn view(&self) -> ProcessReportView {
        ProcessReportView {
            pid: self.pid,
            alive: self.alive,
            tail: text::views(self.tail@),
        }
    }
}

impl Clone for ProcessReport {
    fn clone(&self) -> (r: Self)
        ensures
            r@ == self@,
    {
        ProcessReport {
            pid: self.pid,
            alive: self.alive,
            tail: text::clone_texts(&self.tail),
        }
    }
}

/// A group's runner, with its override in the runtime directory.
pub open spec fn prepared(runtime_dir: Seq<char>, g: ComposeGroupView) -> Result<
    PreparedRunnerView,
    Seq<char>,
> {
    match crate::compose::override_of(g) {
        Err(e) => Err(e),
        Ok(contents) => Ok(
            PreparedRunnerView {
                runner: ComposeRunnerView {
                    file: g.file,
                    override_file: Some(
                        paths::join_of(runtime_dir, crate::compose::override_name(g.file)),
                    ),
                    project: g.project,
                },
                contents,
            },
        ),
    }
}

/// The runners of the groups from `k` on.
pub open spec fn prepare_from(runtime_dir: Seq<char>, groups: Seq<ComposeGroupView>, k: int) -> Result<
    Seq<PreparedRunnerView>,
    Seq<char>,
>
    decreases groups.len() - k,
{
    if k < 0 || k >= groups.len() {
        Ok(Seq::empty())
    } else {
        match prepared(runtime_dir, groups[k]) {
            Err(e) => Err(e),
            Ok(one) => match prepare_from(runtime_dir, groups, k + 1) {
                Err(e) => Err(e),
                Ok(rest) => Ok(seq![one] + rest),
            },
        }
    }
}

proof fn prepare_step(runtime_dir: Seq<char>, groups: Seq<ComposeGroupView>, k: int, done: Seq<PreparedRunnerView>, one: PreparedRunnerView)
    requires
        0 <= k < groups.len(),
        prepared(runtime_dir, groups[k]) == Ok::<PreparedRunnerView, Seq<char>>(one),
    ensures
        (match prepare_from(runtime_dir, groups, k) {
            Ok(rest) => Ok::<Seq<PreparedRunnerView>, Seq<char>>(done + rest),
            Err(e) => Err(e),
        }) == (match prepare_from(runtime_dir, groups, k + 1) {
            Ok(rest) => Ok::<Seq<PreparedRunnerView>, Seq<char>>(done.push(one) + rest),
            Err(e) => Err(e),
        }),
{
    if let Ok(rest) = prepare_from(runtime_dir, groups, k + 1) {
        assert(done + (seq![one] + rest) =~= done.push(one) + rest);
    }
}

impl Ctx {
    /// The runner of a compose group, with the override that has to be on disk before it is called.
    pub fn prepare(&self, group: &ComposeGroup) -> (r: Result<PreparedRunner, String>)
        ensures
            match r {
                Ok(one) => prepared(self.runtime_dir@, group@) == Ok::<
                    PreparedRunnerView,
                    Seq<char>,
                >(one@),
                Err(e) => prepared(self.runtime_dir@, group@) == Err::<
                    PreparedRunnerView,
                    Seq<char>,
                >(e@),
            },
    {
        let contents = match crate::compose::write_override(group) {
            Ok(contents) => contents,
            Err(e) => {
                return Err(e);
            },
        };
        let file = crate::compose::override_path(&self.runtime_dir, &group.file);
        Ok(
            PreparedRunner {
                runner: ComposeRunner::new(group.file.clone(), Some(file), group.project.clone()),
                contents,
            },
        )
    }

    /// The runners of the compose groups that a selection touches, with the overrides that have
    /// to be on disk before they are called.
    pub fn compose_runners(&self, selection: &Vec<usize>, assignment: &Assignment) -> (r: Result<
        Vec<PreparedRunner>,
        String,
    >)
        requires
            manifest::inside(selection@, self.nodes@.len()),
        ensures
            match r {
                Ok(v) => prepare_from(
                    self.runtime_dir@,
                    self.groups(selection@, assignment@.ports),
                    0,
                ) == Ok::<Seq<PreparedRunnerView>, Seq<char>>(text::views(v@)),
                Err(e) => prepare_from(
                    self.runtime_dir@,
                    self.groups(selection@, assignment@.ports),
                    0,
                ) == Err::<Seq<PreparedRunnerView>, Seq<char>>(e@),
            },
    {
        let groups = self.compose_groups(selection, assignment);
        let ghost all = self.groups(selection@, assignment@.ports);
        let ghost dir = self.runtime_dir@;
        let mut out: Vec<PreparedRunner> = Vec::new();
        let mut k: usize = 0;
        assert(text::views(out@) =~= Seq::<PreparedRunnerView>::empty());
        assert(forall|rest: Seq<PreparedRunnerView>| #[trigger] (text::views(out@) + rest) =~= rest);
        while k < groups.len()
            invariant
                dir == self.runtime_dir@,
                all == self.groups(selection@, assignment@.ports),
                text::views(groups@) == all,
                k <= groups@.len(),
                prepare_from(dir, all, 0) == (match prepare_from(dir, all, k as int) {
                    Ok(rest) => Ok::<Seq<PreparedRunnerView>, Seq<char>>(text::views(out@) + rest),
                    Err(e) => Err(e),
                }),
            decreases groups@.len() - k,
        {
            broadcast use text::views_push;

            let group = &groups[k];
            assert(all[k as int] == group@);
            let one = match self.prepare(group) {
                Ok(one) => one,
                Err(e) => {
                    return Err(e);
                },
            };
            proof {
                prepare_step(dir, all, k as int, text::views(out@), one@);
            }
            out.push(one);
            k += 1;
        }
        assert(text::views(out@) + Seq::<PreparedRunnerView>::empty() =~= text::views(out@));
        Ok(out)
    }
}

// ---------------------------------------------------------------------------
// Bootstrap
// ---------------------------------------------------------------------------

/// Whether a manifest has steps.
pub open spec fn has_steps(b: BootstrapView) -> bool {
    b.sync.len() > 0 || b.run.len() > 0 || b.after.len() > 0
}

/// Whether a selection holds a node of an app.
pub open spec fn in_selection(nodes: Seq<NodeView>, selection: Seq<usize>, app: Seq<char>) -> bool {
    exists|j: int|
        0 <= j < selection.len() && nodes[#[trigger] selection[j] as int].app == Some(app)
}

/// The directories of targets.
pub open spec fn target_dirs(targets: Seq<BootstrapTargetView>) -> Seq<Seq<char>> {
    Seq::new(targets.len(), |i: int| targets[i].dir)
}

/// The targets of the workspace and of the first `k` apps.
pub open spec fn targets_of(l: LoadedView, nodes: Seq<NodeView>, selection: Seq<usize>, k: int) -> Seq<
    BootstrapTargetView,
>
    decreases k,
{
    if k <= 0 {
        if !l.root_is_app && has_steps(l.workspace.bootstrap) {
            seq![
                BootstrapTargetView {
                    dir: l.workspace_dir,
                    app: None,
                    steps: l.workspace.bootstrap,
                },
            ]
        } else {
            Seq::empty()
        }
    } else {
        let before = targets_of(l, nodes, selection, k - 1);
        let app = l.apps[k - 1];
        if (l.root_is_app || in_selection(nodes, selection, app.id)) && has_steps(
            app.manifest.bootstrap,
        ) && !paths::holds(target_dirs(before), app.dir) {
            before.push(
                BootstrapTargetView {
                    dir: app.dir,
                    app: Some(app.id),
                    steps: app.manifest.bootstrap,
                },
            )
        } else {
            before
        }
    }
}

impl Ctx {
    fn selects_app(&self, selection: &Vec<usize>, app: &str) -> (r: bool)
        requires
            manifest::inside(selection@, self.nodes@.len()),
        ensures
            r == in_selection(self.node_views(), selection@, app@),
    {
        let ghost nodes = self.node_views();
        let mut j: usize = 0;
        while j < selection.len()
            invariant
                nodes == self.node_views(),
                manifest::inside(selection@, self.nodes@.len()),
                j <= selection@.len(),
                forall|m: int|
                    0 <= m < j ==> nodes[#[trigger] selection@[m] as int].app != Some(app@),
            decreases selection@.len() - j,
        {
            let i: usize = selection[j];
            assert(nodes[i as int] == self.nodes@[i as int]@);
            if let Some(own) = &self.nodes[i].app {
                if text::same(own, app) {
                    assert(nodes[selection@[j as int] as int].app == Some(app@));
                    return true;
                }
            }
            j += 1;
        }
        false
    }

    /// The bootstrap steps of every manifest the selection touches, workspace first. `sync` and
    /// `run` belong to the start, `after` to once the stack is healthy; both phases run in this
    /// order.
    pub fn bootstrap_targets(&self, selection: &Vec<usize>) -> (r: Vec<BootstrapTarget>)
        requires
            manifest::inside(selection@, self.nodes@.len()),
        ensures
            text::views(r@) == targets_of(
                self.loaded@,
                self.node_views(),
                selection@,
                self.loaded@.apps.len() as int,
            ),
    {
        broadcast use text::views_push;

        let ghost l = self.loaded@;
        let ghost nodes = self.node_views();
        let mut out: Vec<BootstrapTarget> = Vec::new();
        let mut dirs: Vec<String> = Vec::new();
        assert(text::views(out@) =~= Seq::<BootstrapTargetView>::empty());
        if !self.loaded.root_is_app && !self.loaded.workspace.bootstrap.is_empty() {
            text::add(&mut dirs, &self.loaded.workspace_dir);
            out.push(
                BootstrapTarget {
                    dir: self.loaded.workspace_dir.clone(),
                    app: None,
                    steps: self.loaded.workspace.bootstrap.clone(),
                },
            );
            assert(text::views(out@) =~= targets_of(l, nodes, selection@, 0));
        }
        assert(text::views(dirs@) =~= target_dirs(text::views(out@)));
        let mut k: usize = 0;
        while k < self.loaded.apps.len()
            invariant
                l == self.loaded@,
                nodes == self.node_views(),
                manifest::inside(selection@, self.nodes@.len()),
                k <= self.loaded.apps@.len(),
                text::views(out@) == targets_of(l, nodes, selection@, k as int),
                text::views(dirs@) == target_dirs(text::views(out@)),
            decreases self.loaded.apps@.len() - k,
        {
            broadcast use text::views_push;

            let app = &self.loaded.apps[k];
            assert(l.apps[k as int] == app@);
            let ghost before = text::views(out@);
            if (self.loaded.root_is_app || self.selects_app(selection, &app.id))
                && !app.manifest.bootstrap.is_empty() && !paths::is_held(&dirs, &app.dir) {
                text::add(&mut dirs, &app.dir);
                out.push(
                    BootstrapTarget {
                        dir: app.dir.clone(),
                        app: Some(app.id.clone()),
                        steps: app.manifest.bootstrap.clone(),
                    },
                );
                assert(text::views(dirs@) =~= target_dirs(text::views(out@)));
            }
            k += 1;
        }
        out
    }
}

// ---------------------------------------------------------------------------
// Failures
// ---------------------------------------------------------------------------

/// The first variable, from port `k` on, that a service's ports name.
pub open spec fn first_variable(ports: Seq<PortSpecView>, k: int) -> Option<Seq<char>>
    decreases ports.len() - k,
{
    if k < 0 || k >= ports.len() {
        None
    } else {
        match ports[k].env {
            Some(variable) => Some(variable),
            None => first_variable(ports, k + 1),
        }
    }
}

/// The line of a failure report that names the port.
pub open spec fn port_line(node: NodeView, assigned: Seq<(Seq<char>, u16)>) -> Seq<char> {
    if assigned.len() == 0 {
        Seq::empty()
    } else {
        let (label, port) = assigned[0];
        let shown = if label == node.qual_of() {
            text::decimal_of(port as nat)
        } else {
            label + " -> "@ + text::decimal_of(port as nat)
        };
        let variable = match node.service_of() {
            Some(service) => first_variable(service.ports_of(), 0),
            None => None,
        };
        "\n  port     "@ + shown + (match variable {
            Some(variable) => " (injected as "@ + variable + ")"@,
            None => Seq::empty(),
        })
    }
}

/// The line of a failure report that names the probe.
pub open spec fn probe_line(node: NodeView, assigned: Seq<(Seq<char>, u16)>) -> Seq<char> {
    match node.service_of() {
        Some(service) => match service.health {
            Some(health) => if health.http is Some && assigned.len() > 0 {
                "\n  probe    http://127.0.0.1:"@ + text::decimal_of(assigned[0].1 as nat)
                    + health.http.unwrap()
            } else if health.tcp == Some(true) {
                if assigned.len() > 0 {
                    "\n  probe    tcp 127.0.0.1:"@ + text::decimal_of(assigned[0].1 as nat)
                } else {
                    Seq::empty()
                }
            } else {
                match health.command {
                    Some(command) => "\n  probe    `"@ + command + "`"@,
                    None => Seq::empty(),
                }
            },
            None => Seq::empty(),
        },
        None => Seq::empty(),
    }
}

/// The lines of a failure report that name the container and its logs.
pub open spec fn container_lines(node: NodeView, runner: ComposeRunnerView) -> Seq<char> {
    let container = match node.service_of() {
        Some(service) => match service.compose {
            Some(reference) => reference.service,
            None => Seq::empty(),
        },
        None => Seq::empty(),
    };
    "\n  container "@ + container + " (project "@ + runner.project
        + ")\n  logs     docker compose -f "@ + runner.file + " -p "@ + runner.project + " logs "@
        + container
}

/// The last lines of a log, as a failure report shows them.
pub open spec fn tail_lines(tail: Seq<Seq<char>>) -> Seq<char>
    decreases tail.len(),
{
    if tail.len() == 0 {
        Seq::empty()
    } else {
        tail_lines(tail.drop_last()) + "\n  | "@ + tail.last()
    }
}

/// The lines of a failure report that say what became of a host process and where its output
/// went.
pub open spec fn process_lines(log: Seq<char>, report: ProcessReportView) -> Seq<char> {
    (match report.pid {
        Some(pid) => if report.alive {
            "\n  process  running (pid "@ + text::signed_decimal_of(pid as int) + ") but not answering"@
        } else {
            "\n  process  exited"@
        },
        None => Seq::empty(),
    }) + "\n  log      "@ + log + (if report.tail.len() > 0 {
        "\n\n  last output:"@ + tail_lines(report.tail)
    } else {
        Seq::empty()
    })
}

/// A failure report: which service failed, on which port, in what state, and where its output
/// went.
pub open spec fn failure_report(
    node: NodeView,
    assigned: Seq<(Seq<char>, u16)>,
    runner: Option<ComposeRunnerView>,
    log: Seq<char>,
    process: ProcessReportView,
    reason: Seq<char>,
) -> Seq<char> {
    node.qual_of() + ": "@ + reason + port_line(node, assigned) + probe_line(node, assigned) + (
    match runner {
        Some(runner) => container_lines(node, runner),
        None => process_lines(log, process),
    }) + "\n\n  other services were left running:"@
        + "\n    magictree status --probe   (what is up, and which probes fail)"@ + (
    if runner is None {
        "\n    magictree logs "@ + node.qual_of() + "   (full output)"@
    } else {
        Seq::empty()
    }) + "\n    magictree down             (stop this worktree's stack)"@
}

fn write_port_line(node: &Node, assigned: &Vec<(String, u16)>) -> (r: String)
    ensures
        r@ == port_line(node@, dict::entry_views(assigned@)),
{
    let mut r = String::new();
    assert(r@ =~= Seq::<char>::empty());
    if assigned.len() == 0 {
        return r;
    }
    let ghost list = dict::entry_views(assigned@);
    assert(list[0] == (assigned@[0].0@, assigned@[0].1));
    let number = text::decimal(assigned[0].1 as u64);
    let shown = if text::same(&assigned[0].0, &node.qual()) {
        number
    } else {
        let mut shown = assigned[0].0.clone();
        shown.append(" -> ");
        shown.append(&number);
        shown
    };
    let mut r = text::own("\n  port     ");
    r.append(&shown);
    let ghost head = r@;
    assert(head + Seq::<char>::empty() =~= head);
    if let Some(service) = node.service() {
        let declared = service.ports();
        let ghost all = service@.ports_of();
        let mut k: usize = 0;
        while k < declared.len()
            invariant
                list == dict::entry_views(assigned@),
                list.len() > 0,
                text::views(declared@) == all,
                all == service@.ports_of(),
                node@.service_of() == Some(service@),
                r@ == head,
                head == "\n  port     "@ + (if list[0].0 == node@.qual_of() {
                    text::decimal_of(list[0].1 as nat)
                } else {
                    list[0].0 + " -> "@ + text::decimal_of(list[0].1 as nat)
                }),
                k <= declared@.len(),
                first_variable(all, 0) == first_variable(all, k as int),
            decreases declared@.len() - k,
        {
            assert(all[k as int] == declared@[k as int]@);
            if let Some(variable) = &declared[k].env {
                let mut suffix = text::own(" (injected as ");
                suffix.append(variable);
                suffix.append(")");
                r.append(&suffix);
                return r;
            }
            k += 1;
        }
    }
    r
}

fn write_probe_line(node: &Node, assigned: &Vec<(String, u16)>) -> (r: String)
    ensures
        r@ == probe_line(node@, dict::entry_views(assigned@)),
{
    let empty = String::new();
    assert(empty@ =~= Seq::<char>::empty());
    let ghost list = dict::entry_views(assigned@);
    assert(list.len() == assigned@.len());
    assert(list.len() > 0 ==> list[0] == (assigned@[0].0@, assigned@[0].1));
    let health = match node.service() {
        Some(service) => match &service.health {
            Some(health) => health,
            None => {
                return empty;
            },
        },
        None => {
            return empty;
        },
    };
    if let Some(path) = &health.http {
        if assigned.len() > 0 {
            let mut r = text::own("\n  probe    http://127.0.0.1:");
            r.append(&text::decimal(assigned[0].1 as u64));
            r.append(path);
            return r;
        }
    }
    let tcp = match health.tcp {
        Some(tcp) => tcp,
        None => false,
    };
    if tcp {
        if assigned.len() > 0 {
            return text::concat(
                "\n  probe    tcp 127.0.0.1:",
                &text::decimal(assigned[0].1 as u64),
            );
        }
        return empty;
    }
    match &health.command {
        Some(command) => {
            let mut r = text::own("\n  probe    `");
            r.append(command);
            r.append("`");
            r
        },
        None => empty,
    }
}

fn write_container_lines(node: &Node, runner: &ComposeRunner) -> (r: String)
    ensures
        r@ == container_lines(node@, runner@),
{
    let container = match node.service() {
        Some(service) => match &service.compose {
            Some(reference) => reference.service.clone(),
            None => String::new(),
        },
        None => String::new(),
    };
    assert(container@ =~= match node@.service_of() {
        Some(service) => match service.compose {
            Some(reference) => reference.service,
            None => Seq::empty(),
        },
        None => Seq::empty(),
    });
    let mut r = text::own("\n  container ");
    r.append(&container);
    r.append(" (project ");
    r.append(&runner.project);
    r.append(")\n  logs     docker compose -f ");
    r.append(&runner.file);
    r.append(" -p ");
    r.append(&runner.project);
    r.append(" logs ");
    r.append(&container);
    r
}

fn write_process_lines(log: &str, report: &ProcessReport) -> (r: String)
    ensures
        r@ == process_lines(log@, report@),
{
    let mut r = match report.pid {
        Some(pid) => if report.alive {
            let mut r = text::own("\n  process  running (pid ");
            r.append(&text::signed_decimal(pid as i64));
            r.append(") but not answering");
            r
        } else {
            text::own("\n  process  exited")
        },
        None => {
            let r = String::new();
            assert(r@ =~= Seq::<char>::empty());
            r
        },
    };
    r.append("\n  log      ");
    r.append(log);
    let ghost head = r@;
    let ghost tail = text::views(report.tail@);
    if report.tail.len() > 0 {
        let mut lines = String::new();
        let mut i: usize = 0;
        assert(lines@ =~= Seq::<char>::empty());
        assert(tail.take(0) =~= Seq::<Seq<char>>::empty());
        while i < report.tail.len()
            invariant
                tail == text::views(report.tail@),
                i <= report.tail@.len(),
                lines@ == tail_lines(tail.take(i as int)),
            decreases report.tail@.len() - i,
        {
            assert(tail.take(i + 1).drop_last() =~= tail.take(i as int));
            lines.append("\n  | ");
            lines.append(&report.tail[i]);
            i += 1;
        }
        assert(tail.take(i as int) =~= tail);
        let block = text::concat("\n\n  last output:", &lines);
        r.append(&block);
    } else {
        assert(head + Seq::<char>::empty() =~= head);
    }
    r
}

/// The first node, from `k` on, that goes by a name.
pub open spec fn node_named(nodes: Seq<NodeView>, name: Seq<char>, k: int) -> Option<NodeView>
    decreases nodes.len() - k,
{
    if k < 0 || k >= nodes.len() {
        None
    } else if nodes[k].qual_of() == name || nodes[k].id == name {
        Some(nodes[k])
    } else {
        node_named(nodes, name, k + 1)
    }
}

impl Ctx {
    /// A failure report that says which service failed, on which port, in what state, and where
    /// its output went. The port number alone is not useful.
    pub fn describe_failure(
        &self,
        node: &Node,
        assignment: &Assignment,
        runner: Option<&ComposeRunner>,
        process: &ProcessReport,
        reason: &str,
    ) -> (r: String)
        ensures
            r@ == failure_report(
                node@,
                assigned_of(node@, assignment@.ports),
                match runner {
                    Some(runner) => Some(runner@),
                    None => None,
                },
                crate::run::log_file_of(self.runtime_dir@, node@.qual_of()),
                process@,
                reason@,
            ),
    {
        let assigned = self.assigned_ports(node, assignment);
        let mut r = node.qual();
        r.append(": ");
        r.append(reason);
        r.append(&write_port_line(node, &assigned));
        r.append(&write_probe_line(node, &assigned));
        match runner {
            Some(runner) => {
                r.append(&write_container_lines(node, runner));
            },
            None => {
                let log = crate::run::log_file(&self.runtime_dir, &node.qual());
                r.append(&write_process_lines(&log, process));
            },
        }
        r.append("\n\n  other services were left running:");
        r.append("\n    magictree status --probe   (what is up, and which probes fail)");
        match runner {
            Some(_) => {
                let ghost head = r@;
                assert(head + Seq::<char>::empty() =~= head);
            },
            None => {
                let mut hint = text::own("\n    magictree logs ");
                hint.append(&node.qual());
                hint.append("   (full output)");
                r.append(&hint);
            },
        }
        r.append("\n    magictree down             (stop this worktree's stack)");
        r
    }

    /// The node that goes by a name.
    pub fn find_node(&self, name: &str) -> (r: Option<&Node>)
        ensures
            match r {
                Some(node) => node_named(self.node_views(), name@, 0) == Some(node@),
                None => node_named(self.node_views(), name@, 0) is None,
            },
    {
        let ghost nodes = self.node_views();
        let mut k: usize = 0;
        while k < self.nodes.len()
            invariant
                nodes == self.node_views(),
                k <= self.nodes@.len(),
                node_named(nodes, name@, 0) == node_named(nodes, name@, k as int),
            decreases self.nodes@.len() - k,
        {
            let node = &self.nodes[k];
            assert(nodes[k as int] == node@);
            if text::same(&node.qual(), name) || text::same(&node.id, name) {
                return Some(node);
            }
            k += 1;
        }
        None
    }
}

} // verus!
