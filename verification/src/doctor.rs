//! `doctor`: compare what the repository now says against what the manifests claim. Reuses
//! discovery, so drift detection cannot silently diverge from it.

use crate::dict;
use crate::dict::Dict;
use crate::discover::ports;
use crate::discover::report::{
    Fact, FactData, FactDataView, FactKind, FactView, PortLiteralFact, PortLiteralFactView, Report,
    ReportView, ScriptFact, ScriptFactView,
};
use crate::manifest;
use crate::manifest::{
    App, AppView, Expose, Found, Loaded, LoadedView, Manifest, ManifestView, PortSpec,
    PortSpecView, RunStep, RunStepView, Service, ServiceView, Target, TargetView,
};
use crate::paths;
use crate::text;
use vstd::prelude::*;

verus! {

/// How much a finding matters. Only `Drift` findings fail the command; `Info` findings are worth
/// knowing but describe a valid choice.
#[derive(Debug, Clone, Copy, PartialEq, Eq, Structural)]
pub enum Severity {
    Drift,
    Info,
}

/// A finding.
#[derive(Debug)]
pub struct Drift {
    pub severity: Severity,
    pub summary: String,
    pub suggestion: Option<String>,
}

/// The contents of a [`Drift`].
#[verifier::ext_equal]
pub struct DriftView {
    pub severity: Severity,
    pub summary: Seq<char>,
    pub suggestion: Option<Seq<char>>,
}

impl View for Drift {
    type V = DriftView;

    open spec fn view(&self) -> DriftView {
        DriftView {
            severity: self.severity,
            summary: self.summary@,
            suggestion: text::opt_view(self.suggestion),
        }
    }
}

impl Clone for Drift {
    fn clone(&self) -> (r: Self)
        ensures
            r@ == self@,
    {
        Drift {
            severity: self.severity,
            summary: self.summary.clone(),
            suggestion: text::clone_opt(&self.suggestion),
        }
    }
}

/// A step of a file.
#[derive(Debug)]
pub struct StepRef {
    pub fact: String,
    pub step: String,
}

/// The contents of a [`StepRef`].
#[verifier::ext_equal]
pub struct StepRefView {
    pub fact: Seq<char>,
    pub step: Seq<char>,
}

impl View for StepRef {
    type V = StepRefView;

    open spec fn view(&self) -> StepRefView {
        StepRefView {
            fact: self.fact@,
            step: self.step@,
        }
    }
}

impl Clone for StepRef {
    fn clone(&self) -> (r: Self)
        ensures
            r@ == self@,
    {
        StepRef {
            fact: self.fact.clone(),
            step: self.step.clone(),
        }
    }
}

/// A port the service's own command pins, with where it came from.
#[derive(Debug)]
pub struct PinnedPort {
    /// How the source reads in a finding: `script 'dev' in package.json`.
    pub origin: String,
    /// The text that has to change.
    pub command: String,
    /// The ports that it pins.
    pub ports: Vec<u16>,
    /// Recorded step this covers, so the informational pass does not repeat it.
    pub step: Option<StepRef>,
}

/// The contents of a [`PinnedPort`].
#[verifier::ext_equal]
pub struct PinnedPortView {
    pub origin: Seq<char>,
    pub command: Seq<char>,
    pub ports: Seq<u16>,
    pub step: Option<StepRefView>,
}

impl View for PinnedPort {
    type V = PinnedPortView;

    open spec fn view(&self) -> PinnedPortView {
        PinnedPortView {
            origin: self.origin@,
            command: self.command@,
            ports: self.ports@,
            step: text::opt_view(self.step),
        }
    }
}

impl Clone for PinnedPort {
    fn clone(&self) -> (r: Self)
        ensures
            r@ == self@,
    {
        PinnedPort {
            origin: self.origin.clone(),
            command: self.command.clone(),
            ports: text::clone_plain(&self.ports),
            step: match &self.step { Some(x) => Some(x.clone()), None => None },
        }
    }
}

/// Where a service's port should come from, and whether the manifest says so.
#[derive(Debug)]
pub struct PortAdvice {
    pub variable: String,
    pub declared: bool,
    /// Set when the declared variable had to be replaced, and why.
    pub clash: Option<String>,
}

/// The contents of a [`PortAdvice`].
#[verifier::ext_equal]
pub struct PortAdviceView {
    pub variable: Seq<char>,
    pub declared: bool,
    pub clash: Option<Seq<char>>,
}

impl View for PortAdvice {
    type V = PortAdviceView;

    open spec fn view(&self) -> PortAdviceView {
        PortAdviceView {
            variable: self.variable@,
            declared: self.declared,
            clash: text::opt_view(self.clash),
        }
    }
}

impl Clone for PortAdvice {
    fn clone(&self) -> (r: Self)
        ensures
            r@ == self@,
    {
        PortAdvice {
            variable: self.variable.clone(),
            declared: self.declared,
            clash: text::clone_opt(&self.clash),
        }
    }
}

/// A finding that fails the command.
pub open spec fn drift(summary: Seq<char>, suggestion: Seq<char>) -> DriftView {
    DriftView { severity: Severity::Drift, summary, suggestion: Some(suggestion) }
}

/// A finding that is worth knowing.
pub open spec fn info(summary: Seq<char>, suggestion: Seq<char>) -> DriftView {
    DriftView { severity: Severity::Info, summary, suggestion: Some(suggestion) }
}

impl Drift {
    fn new(summary: String, suggestion: String) -> (r: Self)
        ensures
            r@ == drift(summary@, suggestion@),
    {
        Drift { severity: Severity::Drift, summary, suggestion: Some(suggestion) }
    }

    fn info(summary: String, suggestion: String) -> (r: Self)
        ensures
            r@ == info(summary@, suggestion@),
    {
        Drift { severity: Severity::Info, summary, suggestion: Some(suggestion) }
    }

    pub fn is_drift(&self) -> (r: bool)
        ensures
            r == (self@.severity == Severity::Drift),
    {
        match self.severity {
            Severity::Drift => true,
            Severity::Info => false,
        }
    }
}

fn say(before: &str, middle: &str, after: &str) -> (r: String)
    ensures
        r@ == before@ + middle@ + after@,
{
    let mut out = text::own(before);
    out.append(middle);
    out.append(after);
    out
}

// ---------------------------------------------------------------------------
// Sets
// ---------------------------------------------------------------------------

/// Those of the first `k` texts of `a` that are not in `b`.
pub open spec fn difference(a: Seq<Seq<char>>, b: Seq<Seq<char>>, k: int) -> Seq<Seq<char>>
    decreases k,
{
    if k <= 0 {
        Seq::empty()
    } else if b.contains(a[k - 1]) {
        difference(a, b, k - 1)
    } else {
        difference(a, b, k - 1).push(a[k - 1])
    }
}

/// What is in `a` and not in `b`.
pub open spec fn only_in(a: Seq<Seq<char>>, b: Seq<Seq<char>>) -> Seq<Seq<char>> {
    difference(a, b, a.len() as int)
}

fn subtract(a: &Vec<String>, b: &Vec<String>) -> (r: Vec<String>)
    ensures
        text::views(r@) == only_in(text::views(a@), text::views(b@)),
{
    let ghost all = text::views(a@);
    let ghost known = text::views(b@);
    let mut out: Vec<String> = Vec::new();
    let mut k: usize = 0;
    assert(text::views(out@) =~= Seq::<Seq<char>>::empty());
    while k < a.len()
        invariant
            all == text::views(a@),
            known == text::views(b@),
            k <= a@.len(),
            text::views(out@) == difference(all, known, k as int),
        decreases a@.len() - k,
    {
        assert(all[k as int] == a@[k as int]@);
        if !text::among(b, &a[k]) {
            text::add(&mut out, &a[k]);
        }
        k += 1;
    }
    out
}

/// A path as it reads beside the workspace: `.` for the workspace itself.
pub open spec fn rel_of(root: Seq<char>, path: Seq<char>) -> Seq<char> {
    match paths::relative_of(path, root) {
        Some(rest) => if rest.len() == 0 {
            "."@
        } else {
            rest
        },
        None => path,
    }
}

fn relative(root: &str, path: &str) -> (r: String)
    ensures
        r@ == rel_of(root@, path@),
{
    match paths::relative(path, root) {
        Some(rest) => if text::length(&rest) == 0 {
            text::own(".")
        } else {
            rest
        },
        None => text::own(path),
    }
}

/// A finding for each of the first `k` names.
pub open spec fn each(
    names: Seq<Seq<char>>,
    severity: Severity,
    before: Seq<char>,
    after: Seq<char>,
    suggestion: spec_fn(Seq<char>) -> Seq<char>,
    k: int,
) -> Seq<DriftView>
    decreases k,
{
    if k <= 0 {
        Seq::empty()
    } else {
        each(names, severity, before, after, suggestion, k - 1).push(
            DriftView {
                severity,
                summary: before + names[k - 1] + after,
                suggestion: Some(suggestion(names[k - 1])),
            },
        )
    }
}

/// The same suggestion for every name.
pub open spec fn always(suggestion: Seq<char>) -> spec_fn(Seq<char>) -> Seq<char> {
    |name: Seq<char>| suggestion
}

fn add_each(
    out: &mut Vec<Drift>,
    names: &Vec<String>,
    severity: Severity,
    before: &str,
    after: &str,
    suggestion: &str,
)
    ensures
        text::views(final(out)@) == text::views(old(out)@) + each(
            text::views(names@),
            severity,
            before@,
            after@,
            always(suggestion@),
            names@.len() as int,
        ),
{
    let ghost start = text::views(out@);
    let ghost all = text::views(names@);
    let ghost f = always(suggestion@);
    let mut k: usize = 0;
    assert(start + Seq::<DriftView>::empty() =~= start);
    while k < names.len()
        invariant
            all == text::views(names@),
            f == always(suggestion@),
            k <= names@.len(),
            text::views(out@) == start + each(all, severity, before@, after@, f, k as int),
        decreases names@.len() - k,
    {
        broadcast use text::views_push;

        assert(all[k as int] == names@[k as int]@);
        out.push(
            Drift {
                severity,
                summary: say(before, &names[k], after),
                suggestion: Some(text::own(suggestion)),
            },
        );
        k += 1;
        assert(text::views(out@) =~= start + each(all, severity, before@, after@, f, k as int));
    }
}

// ---------------------------------------------------------------------------
// Apps
// ---------------------------------------------------------------------------

/// The directories of the first `k` apps of the manifests, as a set.
pub open spec fn declared_dirs(l: LoadedView, k: int) -> Seq<Seq<char>>
    decreases k,
{
    if k <= 0 {
        Seq::empty()
    } else {
        dict::with_member(declared_dirs(l, k - 1), rel_of(l.workspace_dir, l.apps[k - 1].dir))
    }
}

/// The directories of the first `k` discovered apps, as a set.
pub open spec fn discovered_dirs(report: ReportView, k: int) -> Seq<Seq<char>>
    decreases k,
{
    if k <= 0 {
        Seq::empty()
    } else {
        dict::with_member(discovered_dirs(report, k - 1), report.apps[k - 1].dir)
    }
}

/// How to list an app.
pub open spec fn listing_advice() -> spec_fn(Seq<char>) -> Seq<char> {
    |dir: Seq<char>|
        "add \""@ + dir
            + "\" to [workspace].apps in magictree.toml, or run `magictree init` to regenerate"@
}

/// Apps: discovery versus `[workspace].apps`.
pub open spec fn app_drift(report: ReportView, l: LoadedView) -> Seq<DriftView> {
    let declared = declared_dirs(l, l.apps.len() as int);
    let discovered = discovered_dirs(report, report.apps.len() as int);
    if !l.root_is_app {
        let extra = only_in(discovered, declared);
        let gone = only_in(declared, discovered);
        each(
            extra,
            Severity::Drift,
            "app '"@,
            "' exists but is not listed in [workspace].apps"@,
            listing_advice(),
            extra.len() as int,
        ) + each(
            gone,
            Severity::Drift,
            "[workspace].apps lists '"@,
            "', which discovery no longer finds"@,
            always("remove it from [workspace].apps"@),
            gone.len() as int,
        )
    } else if report.apps.len() > 1 {
        seq![
            drift(
                "the repository now has several apps but magictree.toml has no [workspace] section"@,
                "run `magictree init` to add a workspace manifest"@,
            ),
        ]
    } else {
        Seq::empty()
    }
}

fn add_unlisted(out: &mut Vec<Drift>, names: &Vec<String>)
    ensures
        text::views(final(out)@) == text::views(old(out)@) + each(
            text::views(names@),
            Severity::Drift,
            "app '"@,
            "' exists but is not listed in [workspace].apps"@,
            listing_advice(),
            names@.len() as int,
        ),
{
    let ghost start = text::views(out@);
    let ghost all = text::views(names@);
    let ghost f = listing_advice();
    let ghost b = "app '"@;
    let ghost a = "' exists but is not listed in [workspace].apps"@;
    let mut k: usize = 0;
    assert(start + Seq::<DriftView>::empty() =~= start);
    while k < names.len()
        invariant
            all == text::views(names@),
            f == listing_advice(),
            b == "app '"@,
            a == "' exists but is not listed in [workspace].apps"@,
            k <= names@.len(),
            text::views(out@) == start + each(all, Severity::Drift, b, a, f, k as int),
        decreases names@.len() - k,
    {
        broadcast use text::views_push;

        assert(all[k as int] == names@[k as int]@);
        out.push(
            Drift::new(
                say("app '", &names[k], "' exists but is not listed in [workspace].apps"),
                say(
                    "add \"",
                    &names[k],
                    "\" to [workspace].apps in magictree.toml, or run `magictree init` to regenerate",
                ),
            ),
        );
        k += 1;
        assert(text::views(out@) =~= start + each(all, Severity::Drift, b, a, f, k as int));
    }
}

fn compare_apps(report: &Report, loaded: &Loaded) -> (r: Vec<Drift>)
    ensures
        text::views(r@) == app_drift(report@, loaded@),
{
    let ghost l = loaded@;
    let ghost rep = report@;
    let mut out: Vec<Drift> = Vec::new();
    assert(text::views(out@) =~= Seq::<DriftView>::empty());
    if !loaded.root_is_app {
        let mut declared: Vec<String> = Vec::new();
        let mut k: usize = 0;
        assert(text::views(declared@) =~= Seq::<Seq<char>>::empty());
        while k < loaded.apps.len()
            invariant
                l == loaded@,
                k <= loaded.apps@.len(),
                text::views(declared@) == declared_dirs(l, k as int),
            decreases loaded.apps@.len() - k,
        {
            assert(l.apps[k as int] == loaded.apps@[k as int]@);
            dict::add_member(
                &mut declared,
                relative(&loaded.workspace_dir, &loaded.apps[k].dir),
            );
            k += 1;
        }
        let mut discovered: Vec<String> = Vec::new();
        let mut i: usize = 0;
        assert(text::views(discovered@) =~= Seq::<Seq<char>>::empty());
        while i < report.apps.len()
            invariant
                rep == report@,
                i <= report.apps@.len(),
                text::views(discovered@) == discovered_dirs(rep, i as int),
            decreases report.apps@.len() - i,
        {
            assert(rep.apps[i as int] == report.apps@[i as int]@);
            dict::add_member(&mut discovered, report.apps[i].dir.clone());
            i += 1;
        }
        add_unlisted(&mut out, &subtract(&discovered, &declared));
        add_each(
            &mut out,
            &subtract(&declared, &discovered),
            Severity::Drift,
            "[workspace].apps lists '",
            "', which discovery no longer finds",
            "remove it from [workspace].apps",
        );
        assert(text::views(out@) =~= app_drift(report@, loaded@));
    } else if report.apps.len() > 1 {
        out.push(
            Drift::new(
                text::own(
                    "the repository now has several apps but magictree.toml has no [workspace] section",
                ),
                text::own("run `magictree init` to add a workspace manifest"),
            ),
        );
        assert(text::views(out@) =~= app_drift(report@, loaded@));
    }
    out
}

// ---------------------------------------------------------------------------
// Services
// ---------------------------------------------------------------------------

/// The services of the first `k` apps.
pub open spec fn app_services(l: LoadedView, k: int) -> Seq<ServiceView>
    decreases k,
{
    if k <= 0 {
        Seq::empty()
    } else {
        app_services(l, k - 1) + l.apps[k - 1].manifest.services
    }
}

/// Every service, those of the apps first.
pub open spec fn all_services(l: LoadedView) -> Seq<ServiceView> {
    app_services(l, l.apps.len() as int) + l.workspace.services
}

fn append_services<'a>(out: &mut Vec<&'a Service>, more: &'a Vec<Service>)
    ensures
        text::views(final(out)@) == text::views(old(out)@) + text::views(more@),
{
    let ghost start = text::views(out@);
    let ghost list = text::views(more@);
    let mut i: usize = 0;
    assert(start + list.take(0) =~= start);
    while i < more.len()
        invariant
            list == text::views(more@),
            i <= more@.len(),
            text::views(out@) == start + list.take(i as int),
        decreases more@.len() - i,
    {
        broadcast use text::views_push;

        out.push(&more[i]);
        i += 1;
        assert(text::views(out@) =~= start + list.take(i as int));
    }
    assert(list.take(i as int) =~= list);
}

fn services_of<'a>(loaded: &'a Loaded) -> (r: Vec<&'a Service>)
    ensures
        text::views(r@) == all_services(loaded@),
{
    let ghost l = loaded@;
    let mut out: Vec<&'a Service> = Vec::new();
    let mut k: usize = 0;
    assert(text::views(out@) =~= Seq::<ServiceView>::empty());
    while k < loaded.apps.len()
        invariant
            l == loaded@,
            k <= loaded.apps@.len(),
            text::views(out@) == app_services(l, k as int),
        decreases loaded.apps@.len() - k,
    {
        assert(l.apps[k as int] == loaded.apps@[k as int]@);
        append_services(&mut out, &loaded.apps[k].manifest.services);
        k += 1;
    }
    append_services(&mut out, &loaded.workspace.services);
    out
}

/// The names of the first `k` compose services of a fact, on top of `names`.
pub open spec fn with_names(
    names: Seq<Seq<char>>,
    services: Seq<crate::discover::report::ComposeServiceFactView>,
    k: int,
) -> Seq<Seq<char>>
    decreases k,
{
    if k <= 0 {
        names
    } else {
        dict::with_member(with_names(names, services, k - 1), services[k - 1].name)
    }
}

/// The compose services that the first `k` facts name, as a set.
pub open spec fn discovered_compose(facts: Seq<FactView>, k: int) -> Seq<Seq<char>>
    decreases k,
{
    if k <= 0 {
        Seq::empty()
    } else {
        let before = discovered_compose(facts, k - 1);
        match facts[k - 1].data {
            FactDataView::Compose { services, .. } => if facts[k - 1].kind == FactKind::Compose {
                with_names(before, services, services.len() as int)
            } else {
                before
            },
            _ => before,
        }
    }
}

/// The compose services that the first `k` services reference, as a set.
pub open spec fn referenced_compose(services: Seq<ServiceView>, k: int) -> Seq<Seq<char>>
    decreases k,
{
    if k <= 0 {
        Seq::empty()
    } else {
        match services[k - 1].compose {
            Some(reference) => dict::with_member(
                referenced_compose(services, k - 1),
                reference.service,
            ),
            None => referenced_compose(services, k - 1),
        }
    }
}

/// Compose services: referenced, discovered, and available.
pub open spec fn compose_drift(report: ReportView, l: LoadedView) -> Seq<DriftView> {
    let discovered = discovered_compose(report.facts, report.facts.len() as int);
    let services = all_services(l);
    let referenced = referenced_compose(services, services.len() as int);
    let gone = only_in(referenced, discovered);
    let extra = only_in(discovered, referenced);
    each(
        gone,
        Severity::Drift,
        "manifest references compose service '"@,
        "', which no longer exists"@,
        always("remove that service from magictree.toml, or restore it in the compose file"@),
        gone.len() as int,
    ) + each(
        extra,
        Severity::Info,
        "compose service '"@,
        "' is not managed by any manifest"@,
        always("leave it if it is optional tooling, or add it to a manifest"@),
        extra.len() as int,
    )
}

fn compare_compose(report: &Report, loaded: &Loaded) -> (r: Vec<Drift>)
    ensures
        text::views(r@) == compose_drift(report@, loaded@),
{
    let ghost facts = report@.facts;
    let mut discovered: Vec<String> = Vec::new();
    let mut k: usize = 0;
    assert(text::views(discovered@) =~= Seq::<Seq<char>>::empty());
    while k < report.facts.len()
        invariant
            facts == report@.facts,
            k <= report.facts@.len(),
            text::views(discovered@) == discovered_compose(facts, k as int),
        decreases report.facts@.len() - k,
    {
        assert(facts[k as int] == report.facts@[k as int]@);
        if let FactData::Compose { services, .. } = &report.facts[k].data {
            if report.facts[k].kind == FactKind::Compose {
                let ghost before = text::views(discovered@);
                let ghost all = text::views(services@);
                let mut i: usize = 0;
                while i < services.len()
                    invariant
                        all == text::views(services@),
                        i <= services@.len(),
                        text::views(discovered@) == with_names(before, all, i as int),
                    decreases services@.len() - i,
                {
                    assert(all[i as int] == services@[i as int]@);
                    dict::add_member(&mut discovered, services[i].name.clone());
                    i += 1;
                }
            }
        }
        k += 1;
    }
    let services = services_of(loaded);
    let ghost all = text::views(services@);
    let mut referenced: Vec<String> = Vec::new();
    let mut i: usize = 0;
    assert(text::views(referenced@) =~= Seq::<Seq<char>>::empty());
    while i < services.len()
        invariant
            all == text::views(services@),
            i <= services@.len(),
            text::views(referenced@) == referenced_compose(all, i as int),
        decreases services@.len() - i,
    {
        assert(all[i as int] == services@[i as int]@);
        if let Some(reference) = &services[i].compose {
            dict::add_member(&mut referenced, reference.service.clone());
        }
        i += 1;
    }
    let mut out: Vec<Drift> = Vec::new();
    assert(text::views(out@) =~= Seq::<DriftView>::empty());
    add_each(
        &mut out,
        &subtract(&referenced, &discovered),
        Severity::Drift,
        "manifest references compose service '",
        "', which no longer exists",
        "remove that service from magictree.toml, or restore it in the compose file",
    );
    add_each(
        &mut out,
        &subtract(&discovered, &referenced),
        Severity::Info,
        "compose service '",
        "' is not managed by any manifest",
        "leave it if it is optional tooling, or add it to a manifest",
    );
    assert(text::views(out@) =~= compose_drift(report@, loaded@));
    out
}

// ---------------------------------------------------------------------------
// Targets
// ---------------------------------------------------------------------------

/// Facts among the first `k` that belong to one app, plus the repository-level facts it inherits.
pub open spec fn app_facts_upto(facts: Seq<FactView>, app: Seq<char>, rel: Seq<char>, k: int) -> Seq<
    FactView,
>
    decreases k,
{
    if k <= 0 {
        Seq::empty()
    } else if facts[k - 1].app == Some(app) || rel == "."@ {
        app_facts_upto(facts, app, rel, k - 1).push(facts[k - 1])
    } else {
        app_facts_upto(facts, app, rel, k - 1)
    }
}

/// Facts belonging to one app, plus the repository-level facts it inherits.
pub open spec fn facts_of(report: ReportView, l: LoadedView, app: AppView) -> Seq<FactView> {
    app_facts_upto(
        report.facts,
        app.id,
        rel_of(l.workspace_dir, app.dir),
        report.facts.len() as int,
    )
}

fn app_facts<'a>(report: &'a Report, loaded: &Loaded, app: &App) -> (r: Vec<&'a Fact>)
    ensures
        text::views(r@) == facts_of(report@, loaded@, app@),
{
    let rel = relative(&loaded.workspace_dir, &app.dir);
    let ghost all = report@.facts;
    let mut out: Vec<&'a Fact> = Vec::new();
    let mut k: usize = 0;
    assert(text::views(out@) =~= Seq::<FactView>::empty());
    while k < report.facts.len()
        invariant
            all == report@.facts,
            k <= report.facts@.len(),
            text::views(out@) == app_facts_upto(all, app@.id, rel@, k as int),
        decreases report.facts@.len() - k,
    {
        broadcast use text::views_push;

        let fact = &report.facts[k];
        assert(all[k as int] == fact@);
        if fact.belongs_to(&app.id) || text::same(&rel, ".") {
            out.push(fact);
        }
        k += 1;
    }
    out
}

/// Whether a list of scripts has one of this name.
pub open spec fn has_named(scripts: Seq<ScriptFactView>, name: Seq<char>) -> bool {
    exists|i: int| 0 <= i < scripts.len() && (#[trigger] scripts[i]).name == name
}

/// Whether a fact declares a script.
pub open spec fn declares_script(fact: FactView, name: Seq<char>) -> bool {
    match fact.data {
        FactDataView::Node { scripts, .. } => has_named(scripts, name),
        FactDataView::Python { scripts, .. } => scripts.contains(name),
        _ => false,
    }
}

/// The module of a recipe that a module declares.
pub open spec fn module_of(name: Seq<char>) -> Option<Seq<char>> {
    match text::find_of(name, "::"@) {
        Some(i) => Some(name.take(i)),
        None => None,
    }
}

/// Whether a fact declares a recipe, itself or through one of its modules.
pub open spec fn declares_recipe(fact: FactView, name: Seq<char>) -> bool {
    match fact.data {
        FactDataView::Just { recipes, modules, .. } => recipes.contains(name) || match module_of(name) {
            Some(module) => modules.contains(module),
            None => false,
        },
        _ => false,
    }
}

/// Whether a fact declares a task.
pub open spec fn declares_task(fact: FactView, name: Seq<char>) -> bool {
    match fact.data {
        FactDataView::Mise { tasks, .. } => tasks.contains(name),
        _ => false,
    }
}

/// What a target runs that no fact declares.
pub open spec fn missing_of(target: TargetView, facts: Seq<FactView>) -> Option<Seq<char>> {
    match target {
        TargetView::Npm { script, .. } => undeclared_script(facts, script),
        TargetView::Pnpm { script, .. } => undeclared_script(facts, script),
        TargetView::Uv { script, .. } => match script {
            Some(name) => undeclared_script(facts, name),
            None => None,
        },
        TargetView::Just { recipe, .. } => if exists|i: int|
            0 <= i < facts.len() && declares_recipe(#[trigger] facts[i], recipe) {
            None
        } else {
            Some("recipe '"@ + recipe + "'"@)
        },
        TargetView::Mise { task, .. } => if exists|i: int|
            0 <= i < facts.len() && declares_task(#[trigger] facts[i], task) {
            None
        } else {
            Some("task '"@ + task + "'"@)
        },
        _ => None,
    }
}

/// A script that no fact declares.
pub open spec fn undeclared_script(facts: Seq<FactView>, script: Seq<char>) -> Option<Seq<char>> {
    if exists|i: int| 0 <= i < facts.len() && declares_script(#[trigger] facts[i], script) {
        None
    } else {
        Some("script '"@ + script + "'"@)
    }
}

fn is_script(fact: &Fact, name: &str) -> (r: bool)
    ensures
        r == declares_script(fact@, name@),
{
    match &fact.data {
        FactData::Node { scripts, .. } => {
            let ghost all = text::views(scripts@);
            let mut i: usize = 0;
            while i < scripts.len()
                invariant
                    all == text::views(scripts@),
                    (fact@.data matches FactDataView::Node { scripts: s, .. } && s == all),
                    i <= scripts@.len(),
                    forall|k: int| 0 <= k < i ==> (#[trigger] all[k]).name != name@,
                decreases scripts@.len() - i,
            {
                if text::same(&scripts[i].name, name) {
                    assert(all[i as int].name == name@);
                    return true;
                }
                i += 1;
            }
            false
        },
        FactData::Python { scripts, .. } => text::among(scripts, name),
        _ => false,
    }
}

fn is_recipe(fact: &Fact, name: &str) -> (r: bool)
    ensures
        r == declares_recipe(fact@, name@),
{
    match &fact.data {
        FactData::Just { recipes, modules, .. } => text::among(recipes, name) || match text::find(
            name,
            "::",
        ) {
            Some(i) => text::among(modules, &text::take(name, i)),
            None => false,
        },
        _ => false,
    }
}

fn is_task(fact: &Fact, name: &str) -> (r: bool)
    ensures
        r == declares_task(fact@, name@),
{
    match &fact.data {
        FactData::Mise { tasks, .. } => text::among(tasks, name),
        _ => false,
    }
}

fn find_script(facts: &Vec<&Fact>, script: &str) -> (r: Option<String>)
    ensures
        text::opt_view(r) == undeclared_script(text::views(facts@), script@),
{
    let ghost all = text::views(facts@);
    let mut i: usize = 0;
    while i < facts.len()
        invariant
            all == text::views(facts@),
            i <= facts@.len(),
            forall|k: int| 0 <= k < i ==> !declares_script(#[trigger] all[k], script@),
        decreases facts@.len() - i,
    {
        assert(all[i as int] == facts@[i as int]@);
        if is_script(facts[i], script) {
            assert(declares_script(all[i as int], script@));
            return None;
        }
        i += 1;
    }
    Some(say("script '", script, "'"))
}

fn missing_target(target: &Target, facts: &Vec<&Fact>) -> (r: Option<String>)
    ensures
        text::opt_view(r) == missing_of(target@, text::views(facts@)),
{
    let ghost all = text::views(facts@);
    match target {
        Target::Npm { script, .. } => find_script(facts, script),
        Target::Pnpm { script, .. } => find_script(facts, script),
        Target::Uv { script, .. } => match script {
            Some(name) => find_script(facts, name),
            None => None,
        },
        Target::Just { recipe, .. } => {
            let mut i: usize = 0;
            while i < facts.len()
                invariant
                    all == text::views(facts@),
                    (target@ matches TargetView::Just { recipe: r, .. } && r == recipe@),
                    i <= facts@.len(),
                    forall|k: int| 0 <= k < i ==> !declares_recipe(#[trigger] all[k], recipe@),
                decreases facts@.len() - i,
            {
                assert(all[i as int] == facts@[i as int]@);
                if is_recipe(facts[i], recipe) {
                    assert(declares_recipe(all[i as int], recipe@));
                    return None;
                }
                i += 1;
            }
            Some(say("recipe '", recipe, "'"))
        },
        Target::Mise { task, .. } => {
            let mut i: usize = 0;
            while i < facts.len()
                invariant
                    all == text::views(facts@),
                    (target@ matches TargetView::Mise { task: t, .. } && t == task@),
                    i <= facts@.len(),
                    forall|k: int| 0 <= k < i ==> !declares_task(#[trigger] all[k], task@),
                decreases facts@.len() - i,
            {
                assert(all[i as int] == facts@[i as int]@);
                if is_task(facts[i], task) {
                    assert(declares_task(all[i as int], task@));
                    return None;
                }
                i += 1;
            }
            Some(say("task '", task, "'"))
        },
        _ => None,
    }
}

/// What is said of the target of a service.
pub open spec fn target_finding(service: ServiceView, facts: Seq<FactView>, rel: Seq<char>) -> Seq<
    DriftView,
> {
    match service.target {
        Some(target) => match missing_of(target, facts) {
            Some(missing) => seq![
                drift(
                    "service '"@ + service.id + "' runs "@ + missing
                        + ", which discovery no longer finds"@,
                    "update the service in "@ + rel + "/magictree.toml"@,
                ),
            ],
            None => Seq::empty(),
        },
        None => Seq::empty(),
    }
}

/// What is said of the targets of the first `k` services of an app: the script, recipe, or task must
/// still exist.
pub open spec fn targets_upto(
    services: Seq<ServiceView>,
    facts: Seq<FactView>,
    rel: Seq<char>,
    k: int,
) -> Seq<DriftView>
    decreases k,
{
    if k <= 0 {
        Seq::empty()
    } else {
        targets_upto(services, facts, rel, k - 1) + target_finding(services[k - 1], facts, rel)
    }
}

/// What is said of the targets of the first `k` apps.
pub open spec fn target_drift(report: ReportView, l: LoadedView, k: int) -> Seq<DriftView>
    decreases k,
{
    if k <= 0 {
        Seq::empty()
    } else {
        let app = l.apps[k - 1];
        target_drift(report, l, k - 1) + targets_upto(
            app.manifest.services,
            facts_of(report, l, app),
            rel_of(l.workspace_dir, app.dir),
            app.manifest.services.len() as int,
        )
    }
}

fn add_targets(out: &mut Vec<Drift>, services: &Vec<Service>, facts: &Vec<&Fact>, rel: &str)
    ensures
        text::views(final(out)@) == text::views(old(out)@) + targets_upto(
            text::views(services@),
            text::views(facts@),
            rel@,
            services@.len() as int,
        ),
{
    let ghost start = text::views(out@);
    let ghost all = text::views(services@);
    let ghost known = text::views(facts@);
    let mut k: usize = 0;
    assert(start + Seq::<DriftView>::empty() =~= start);
    while k < services.len()
        invariant
            all == text::views(services@),
            known == text::views(facts@),
            k <= services@.len(),
            text::views(out@) == start + targets_upto(all, known, rel@, k as int),
        decreases services@.len() - k,
    {
        broadcast use text::views_push;

        assert(all[k as int] == services@[k as int]@);
        if let Some(target) = &services[k].target {
            if let Some(missing) = missing_target(target, facts) {
                let mut summary = text::own("service '");
                summary.append(&services[k].id);
                summary.append("' runs ");
                summary.append(&missing);
                summary.append(", which discovery no longer finds");
                out.push(
                    Drift::new(summary, say("update the service in ", rel, "/magictree.toml")),
                );
            }
        }
        k += 1;
        assert(text::views(out@) =~= start + targets_upto(all, known, rel@, k as int));
    }
}

fn compare_targets(report: &Report, loaded: &Loaded) -> (r: Vec<Drift>)
    ensures
        text::views(r@) == target_drift(report@, loaded@, loaded@.apps.len() as int),
{
    let ghost l = loaded@;
    let mut out: Vec<Drift> = Vec::new();
    let mut k: usize = 0;
    assert(text::views(out@) =~= Seq::<DriftView>::empty());
    while k < loaded.apps.len()
        invariant
            l == loaded@,
            k <= loaded.apps@.len(),
            text::views(out@) == target_drift(report@, l, k as int),
        decreases loaded.apps@.len() - k,
    {
        let app = &loaded.apps[k];
        assert(l.apps[k as int] == app@);
        let rel = relative(&loaded.workspace_dir, &app.dir);
        add_targets(&mut out, &app.manifest.services, &app_facts(report, loaded, app), &rel);
        k += 1;
    }
    out
}

// ---------------------------------------------------------------------------
// Port variables
// ---------------------------------------------------------------------------

/// The first port variable among declarations, from `k` on.
pub open spec fn first_env(ports: Seq<PortSpecView>, k: int) -> Option<Seq<char>>
    decreases ports.len() - k,
{
    if k < 0 || k >= ports.len() {
        None
    } else if ports[k].env is Some {
        ports[k].env
    } else {
        first_env(ports, k + 1)
    }
}

fn find_env(ports: &Vec<PortSpec>) -> (r: Option<String>)
    ensures
        text::opt_view(r) == first_env(text::views(ports@), 0),
{
    let ghost all = text::views(ports@);
    let mut k: usize = 0;
    while k < ports.len()
        invariant
            all == text::views(ports@),
            k <= ports@.len(),
            first_env(all, 0) == first_env(all, k as int),
        decreases ports@.len() - k,
    {
        assert(all[k as int] == ports@[k as int]@);
        if let Some(name) = &ports[k].env {
            return Some(name.clone());
        }
        k += 1;
    }
    None
}

/// Whether any justfile reads a variable from the environment.
pub open spec fn reads(facts: Seq<FactView>, variable: Seq<char>) -> bool {
    exists|i: int| 0 <= i < facts.len() && reads_in(#[trigger] facts[i], variable)
}

pub open spec fn reads_in(fact: FactView, variable: Seq<char>) -> bool {
    fact.data matches FactDataView::Just { env_variables, .. } && env_variables.contains(variable)
}

/// Whether any justfile sets a variable for a recipe.
pub open spec fn sets(facts: Seq<FactView>, variable: Seq<char>) -> bool {
    exists|i: int| 0 <= i < facts.len() && sets_in(#[trigger] facts[i], variable)
}

pub open spec fn sets_in(fact: FactView, variable: Seq<char>) -> bool {
    fact.data matches FactDataView::Just { exported_parameters, .. }
        && exported_parameters.contains(variable)
}

/// A port variable the app cannot read means the service listens on its own default while the health
/// probe watches the allocated port.
pub open spec fn variable_finding(service: ServiceView, facts: Seq<FactView>, rel: Seq<char>) -> Seq<
    DriftView,
> {
    match first_env(service.ports_of(), 0) {
        Some(variable) => if service.expose != Expose::Nothing && sets(facts, variable) && !reads(
            facts,
            variable,
        ) {
            seq![
                drift(
                    "service '"@ + service.id + "' takes its port from '"@ + variable
                        + "', but the justfile only sets that variable for a recipe; it never reads it from the environment"@,
                    "point port.env at a variable the justfile reads, e.g. one assigned from env(\"NAME\") in "@
                        + (if rel == "."@ {
                        "the justfile"@
                    } else {
                        rel + "/justfile"@
                    }),
                ),
            ]
        } else {
            Seq::empty()
        },
        None => Seq::empty(),
    }
}

/// What is said of the port variables of the first `k` services of an app.
pub open spec fn variables_upto(
    services: Seq<ServiceView>,
    facts: Seq<FactView>,
    rel: Seq<char>,
    k: int,
) -> Seq<DriftView>
    decreases k,
{
    if k <= 0 {
        Seq::empty()
    } else {
        variables_upto(services, facts, rel, k - 1) + variable_finding(services[k - 1], facts, rel)
    }
}

/// What is said of the port variables of the first `k` apps.
pub open spec fn variable_drift(report: ReportView, l: LoadedView, k: int) -> Seq<DriftView>
    decreases k,
{
    if k <= 0 {
        Seq::empty()
    } else {
        let app = l.apps[k - 1];
        variable_drift(report, l, k - 1) + variables_upto(
            app.manifest.services,
            facts_of(report, l, app),
            rel_of(l.workspace_dir, app.dir),
            app.manifest.services.len() as int,
        )
    }
}

fn any_reads(facts: &Vec<&Fact>, variable: &str) -> (r: bool)
    ensures
        r == reads(text::views(facts@), variable@),
{
    let ghost all = text::views(facts@);
    let mut i: usize = 0;
    while i < facts.len()
        invariant
            all == text::views(facts@),
            i <= facts@.len(),
            forall|k: int| 0 <= k < i ==> !reads_in(#[trigger] all[k], variable@),
        decreases facts@.len() - i,
    {
        assert(all[i as int] == facts@[i as int]@);
        if let FactData::Just { env_variables, .. } = &facts[i].data {
            if text::among(env_variables, variable) {
                assert(reads_in(all[i as int], variable@));
                return true;
            }
        }
        i += 1;
    }
    false
}

fn any_sets(facts: &Vec<&Fact>, variable: &str) -> (r: bool)
    ensures
        r == sets(text::views(facts@), variable@),
{
    let ghost all = text::views(facts@);
    let mut i: usize = 0;
    while i < facts.len()
        invariant
            all == text::views(facts@),
            i <= facts@.len(),
            forall|k: int| 0 <= k < i ==> !sets_in(#[trigger] all[k], variable@),
        decreases facts@.len() - i,
    {
        assert(all[i as int] == facts@[i as int]@);
        if let FactData::Just { exported_parameters, .. } = &facts[i].data {
            if text::among(exported_parameters, variable) {
                assert(sets_in(all[i as int], variable@));
                return true;
            }
        }
        i += 1;
    }
    false
}

fn add_variables(out: &mut Vec<Drift>, services: &Vec<Service>, facts: &Vec<&Fact>, rel: &str)
    ensures
        text::views(final(out)@) == text::views(old(out)@) + variables_upto(
            text::views(services@),
            text::views(facts@),
            rel@,
            services@.len() as int,
        ),
{
    let ghost start = text::views(out@);
    let ghost all = text::views(services@);
    let ghost known = text::views(facts@);
    let mut k: usize = 0;
    assert(start + Seq::<DriftView>::empty() =~= start);
    while k < services.len()
        invariant
            all == text::views(services@),
            known == text::views(facts@),
            k <= services@.len(),
            text::views(out@) == start + variables_upto(all, known, rel@, k as int),
        decreases services@.len() - k,
    {
        broadcast use text::views_push;

        let service = &services[k];
        assert(all[k as int] == service@);
        if let Some(variable) = find_env(&service.ports()) {
            let shown = match service.expose {
                Expose::Nothing => false,
                Expose::Port => true,
            };
            if shown && any_sets(facts, &variable) && !any_reads(facts, &variable) {
                let mut summary = text::own("service '");
                summary.append(&service.id);
                summary.append("' takes its port from '");
                summary.append(&variable);
                summary.append(
                    "', but the justfile only sets that variable for a recipe; it never reads it from the environment",
                );
                let place = if text::same(rel, ".") {
                    text::own("the justfile")
                } else {
                    text::concat(rel, "/justfile")
                };
                out.push(
                    Drift::new(
                        summary,
                        text::concat(
                            "point port.env at a variable the justfile reads, e.g. one assigned from env(\"NAME\") in ",
                            &place,
                        ),
                    ),
                );
            }
        }
        k += 1;
        assert(text::views(out@) =~= start + variables_upto(all, known, rel@, k as int));
    }
}

fn compare_variables(report: &Report, loaded: &Loaded) -> (r: Vec<Drift>)
    ensures
        text::views(r@) == variable_drift(report@, loaded@, loaded@.apps.len() as int),
{
    let ghost l = loaded@;
    let mut out: Vec<Drift> = Vec::new();
    let mut k: usize = 0;
    assert(text::views(out@) =~= Seq::<DriftView>::empty());
    while k < loaded.apps.len()
        invariant
            l == loaded@,
            k <= loaded.apps@.len(),
            text::views(out@) == variable_drift(report@, l, k as int),
        decreases loaded.apps@.len() - k,
    {
        let app = &loaded.apps[k];
        assert(l.apps[k as int] == app@);
        let rel = relative(&loaded.workspace_dir, &app.dir);
        add_variables(&mut out, &app.manifest.services, &app_facts(report, loaded, app), &rel);
        k += 1;
    }
    out
}

// ---------------------------------------------------------------------------
// Pinned ports
// ---------------------------------------------------------------------------

/// The step that a target runs: the kind of file that declares it, what it is called there, and its
/// name.
pub open spec fn step_of(target: Option<TargetView>) -> Option<(FactKind, Seq<char>, Seq<char>)> {
    match target {
        Some(TargetView::Npm { script, .. }) => Some((FactKind::Node, "script"@, script)),
        Some(TargetView::Pnpm { script, .. }) => Some((FactKind::Node, "script"@, script)),
        Some(TargetView::Just { recipe, .. }) => Some((FactKind::Just, "recipe"@, recipe)),
        Some(TargetView::Mise { task, .. }) => Some((FactKind::Mise, "task"@, task)),
        Some(TargetView::Uv { script, .. }) => match script {
            Some(name) => Some((FactKind::Python, "script"@, name)),
            None => None,
        },
        _ => None,
    }
}

/// The script that a command line runs through `runner`.
pub open spec fn script_run(command: Seq<char>, runner: Seq<char>) -> Option<Seq<char>> {
    match text::strip_prefix_of(command, runner + " run "@) {
        Some(rest) => if text::words_of(rest).len() > 0 {
            Some(text::words_of(rest)[0])
        } else {
            None
        },
        None => None,
    }
}

/// The step that a service runs. yarn and bun have no target, so their scripts are run by a command.
pub open spec fn service_step(service: ServiceView) -> Option<(FactKind, Seq<char>, Seq<char>)> {
    match step_of(service.target) {
        Some(step) => Some(step),
        None => match own_command(service) {
            Some(command) => match script_run(command, "yarn"@) {
                Some(name) => Some((FactKind::Node, "script"@, name)),
                None => match script_run(command, "bun"@) {
                    Some(name) => Some((FactKind::Node, "script"@, name)),
                    None => None,
                },
            },
            None => None,
        },
    }
}

/// What the first `k` places that pin a port in a step come to, by the fact they are in.
pub open spec fn pinned_files(
    sites: Seq<(FactView, PortLiteralFactView)>,
    word: Seq<char>,
    name: Seq<char>,
    k: int,
) -> Seq<(Seq<char>, PinnedPortView)>
    decreases k,
{
    if k <= 0 {
        Seq::empty()
    } else {
        let before = pinned_files(sites, word, name, k - 1);
        let fact = sites[k - 1].0;
        let literal = sites[k - 1].1;
        let entry = match dict::lookup(before, fact.id) {
            Some(entry) => entry,
            None => PinnedPortView {
                origin: word + " '"@ + name + "' in "@ + fact.source,
                command: literal.text,
                ports: Seq::empty(),
                step: Some(StepRefView { fact: fact.id, step: name }),
            },
        };
        dict::put(
            before,
            fact.id,
            PinnedPortView { ports: entry.ports.push(literal.port), ..entry },
        )
    }
}

/// The values of entries.
pub open spec fn entry_values(entries: Seq<(Seq<char>, PinnedPortView)>) -> Seq<PinnedPortView> {
    Seq::new(entries.len(), |i: int| entries[i].1)
}

/// The command line of a service.
pub open spec fn own_command(service: ServiceView) -> Option<Seq<char>> {
    match service.target {
        Some(target) => Some(target.command_of()),
        None => service.command,
    }
}

/// The ports of literals.
pub open spec fn literal_ports(literals: Seq<crate::discover::ports::PortLiteralView>) -> Seq<u16> {
    Seq::new(literals.len(), |i: int| literals[i].port)
}

/// What the command line of a service pins; a `--port` in the target's `args` lives there.
pub open spec fn pinned_by_command(service: ServiceView) -> Seq<PinnedPortView> {
    match own_command(service) {
        Some(command) => if ports::scan_of(command).len() > 0 {
            seq![
                PinnedPortView {
                    origin: "the command in magictree.toml"@,
                    command,
                    ports: literal_ports(ports::scan_of(command)),
                    step: None,
                },
            ]
        } else {
            Seq::empty()
        },
        None => Seq::empty(),
    }
}

/// What the step that a service runs pins.
pub open spec fn pinned_by_step(service: ServiceView, facts: Seq<FactView>) -> Seq<PinnedPortView> {
    match service_step(service) {
        Some((kind, word, name)) => {
            let sites = ports::sites_of(facts, kind, name);
            entry_values(pinned_files(sites, word, name, sites.len() as int))
        },
        None => Seq::empty(),
    }
}

/// Every place the command magictree starts for this service pins a port.
pub open spec fn pinned_of(service: ServiceView, facts: Seq<FactView>) -> Seq<PinnedPortView> {
    pinned_by_step(service, facts) + pinned_by_command(service)
}

fn step_name(target: &Option<Target>) -> (r: Option<(FactKind, String, String)>)
    ensures
        match r {
            Some((kind, word, name)) => step_of(text::opt_view(*target)) == Some(
                (kind, word@, name@),
            ),
            None => step_of(text::opt_view(*target)) is None,
        },
{
    match target {
        Some(Target::Npm { script, .. }) => Some(
            (FactKind::Node, text::own("script"), script.clone()),
        ),
        Some(Target::Pnpm { script, .. }) => Some(
            (FactKind::Node, text::own("script"), script.clone()),
        ),
        Some(Target::Just { recipe, .. }) => Some(
            (FactKind::Just, text::own("recipe"), recipe.clone()),
        ),
        Some(Target::Mise { task, .. }) => Some((FactKind::Mise, text::own("task"), task.clone())),
        Some(Target::Uv { script, .. }) => match script {
            Some(name) => Some((FactKind::Python, text::own("script"), name.clone())),
            None => None,
        },
        _ => None,
    }
}

fn pinned_in_step(facts: &Vec<&Fact>, kind: FactKind, word: &str, name: &str) -> (r: Vec<PinnedPort>)
    ensures
        ({
            let sites = ports::sites_of(text::views(facts@), kind, name@);
            text::views(r@) == entry_values(
                pinned_files(sites, word@, name@, sites.len() as int),
            )
        }),
{
    let sites = ports::sites(facts, kind, name);
    let ghost all = text::views(sites@);
    let mut files: Dict<PinnedPort> = Dict::new();
    let mut k: usize = 0;
    while k < sites.len()
        invariant
            all == text::views(sites@),
            k <= sites@.len(),
            files@ == pinned_files(all, word@, name@, k as int),
        decreases sites@.len() - k,
    {
        assert(all[k as int] == (sites@[k as int].0@, sites@[k as int].1@));
        let fact = sites[k].0;
        let literal = sites[k].1;
        let mut entry = match files.get(&fact.id) {
            Some(entry) => entry.clone(),
            None => {
                let mut origin = text::own(word);
                origin.append(" '");
                origin.append(name);
                origin.append("' in ");
                origin.append(&fact.source);
                PinnedPort {
                    origin,
                    command: literal.text.clone(),
                    ports: Vec::new(),
                    step: Some(StepRef { fact: fact.id.clone(), step: text::own(name) }),
                }
            },
        };
        entry.ports.push(literal.port);
        files.insert(fact.id.clone(), entry);
        k += 1;
    }
    let ghost goal = entry_values(files@);
    let n: usize = files.len();
    let mut out: Vec<PinnedPort> = Vec::new();
    let mut i: usize = 0;
    assert(text::views(out@) =~= goal.take(0));
    while i < n
        invariant
            n == files@.len(),
            goal == entry_values(files@),
            i <= n,
            text::views(out@) == goal.take(i as int),
        decreases n - i,
    {
        broadcast use text::views_push;

        out.push(files.value_at(i).clone());
        i += 1;
        assert(text::views(out@) =~= goal.take(i as int));
    }
    assert(goal.take(i as int) =~= goal);
    out
}

fn command_of(service: &Service) -> (r: Option<String>)
    ensures
        text::opt_view(r) == own_command(service@),
{
    match &service.target {
        Some(target) => Some(target.command()),
        None => text::clone_opt(&service.command),
    }
}

fn script_name(command: &str, runner: &str) -> (r: Option<String>)
    ensures
        text::opt_view(r) == script_run(command@, runner@),
{
    match text::strip_prefix(command, &text::concat(runner, " run ")) {
        Some(rest) => {
            let words = text::words(&rest);
            if words.len() > 0 {
                assert(text::views(words@)[0] == words@[0]@);
                Some(words[0].clone())
            } else {
                None
            }
        },
        None => None,
    }
}

fn service_step_name(service: &Service) -> (r: Option<(FactKind, String, String)>)
    ensures
        match r {
            Some((kind, word, name)) => service_step(service@) == Some((kind, word@, name@)),
            None => service_step(service@) is None,
        },
{
    if let Some(step) = step_name(&service.target) {
        return Some(step);
    }
    match command_of(service) {
        Some(command) => match script_name(&command, "yarn") {
            Some(name) => Some((FactKind::Node, text::own("script"), name)),
            None => match script_name(&command, "bun") {
                Some(name) => Some((FactKind::Node, text::own("script"), name)),
                None => None,
            },
        },
        None => None,
    }
}

fn pinned_ports(service: &Service, facts: &Vec<&Fact>) -> (r: Vec<PinnedPort>)
    ensures
        text::views(r@) == pinned_of(service@, text::views(facts@)),
{
    let mut out: Vec<PinnedPort> = match service_step_name(service) {
        Some((kind, word, name)) => pinned_in_step(facts, kind, &word, &name),
        None => Vec::new(),
    };
    assert(text::views(out@) =~= pinned_by_step(service@, text::views(facts@)));
    let ghost before = text::views(out@);
    assert(before + Seq::<PinnedPortView>::empty() =~= before);
    // The target's own command line, which is where a `--port` in `args` lives.
    if let Some(command) = command_of(service) {
        let literals = ports::scan(&command);
        let ghost goal = literal_ports(ports::scan_of(command@));
        let mut list: Vec<u16> = Vec::new();
        let mut i: usize = 0;
        assert(list@ =~= goal.take(0));
        while i < literals.len()
            invariant
                text::views(literals@) == ports::scan_of(command@),
                goal == literal_ports(ports::scan_of(command@)),
                i <= literals@.len(),
                list@ == goal.take(i as int),
            decreases literals@.len() - i,
        {
            assert(ports::scan_of(command@)[i as int] == literals@[i as int]@);
            list.push(literals[i].port);
            i += 1;
            assert(list@ =~= goal.take(i as int));
        }
        assert(goal.take(i as int) =~= goal);
        if literals.len() > 0 {
            let pinned = PinnedPort {
                origin: text::own("the command in magictree.toml"),
                command,
                ports: list,
                step: None,
            };
            let ghost view = pinned@;
            let ghost earlier = out@;
            out.push(pinned);
            assert(text::views(out@) =~= text::views(earlier) + seq![view]);
        }
    }
    out
}

/// True when the service's own command line passes `variable` on to the step it runs, as
/// `args = ["-p", "${APP_PORT}"]` does for one that pins `-p`.
///
/// The appended arguments land after the step's own, so the last flag wins and the literal it pins
/// never binds. `npm run` stops parsing at `--`, so an npm command only counts with the separator;
/// pnpm, yarn and bun forward everything after the script name themselves.
pub open spec fn hands_over(service: ServiceView, variable: Seq<char>) -> bool {
    match own_command(service) {
        Some(command) => match text::find_of(command, "${"@ + variable) {
            Some(at) => !text::starts_with_of(command, "npm "@) || text::contains_of(
                command.take(at),
                " -- "@,
            ),
            None => false,
        },
        None => false,
    }
}

fn command_hands_over(service: &Service, variable: &str) -> (r: bool)
    ensures
        r == hands_over(service@, variable@),
{
    match command_of(service) {
        Some(command) => match text::find(&command, &text::concat("${", variable)) {
            Some(at) => !text::starts_with(&command, "npm ") || text::contains(
                &text::take(&command, at),
                " -- ",
            ),
            None => false,
        },
        None => false,
    }
}

/// Whether any declaration uses this variable.
pub open spec fn uses_env(ports: Seq<PortSpecView>, variable: Seq<char>) -> bool {
    exists|i: int| 0 <= i < ports.len() && (#[trigger] ports[i]).env == Some(variable)
}

/// Another service, from `k` on, that takes its port from this variable.
pub open spec fn other_user(
    services: Seq<ServiceView>,
    id: Seq<char>,
    variable: Seq<char>,
    k: int,
) -> Option<Seq<char>>
    decreases services.len() - k,
{
    if k < 0 || k >= services.len() {
        None
    } else if services[k].id != id && uses_env(services[k].ports_of(), variable) {
        Some(services[k].id)
    } else {
        other_user(services, id, variable, k + 1)
    }
}

/// The variable that an app's port would be called.
pub open spec fn fallback_variable(app: Seq<char>) -> Seq<char> {
    text::replace_of(text::upper_of(app), '-', "_"@) + "_PORT"@
}

/// Where a service's port should come from. magictree injects each service's own port under the name
/// it declares, so a variable two services claim cannot be right for both of them.
pub open spec fn advice_of(l: LoadedView, app: Seq<char>, service: ServiceView) -> PortAdviceView {
    match first_env(service.ports_of(), 0) {
        None => PortAdviceView {
            variable: fallback_variable(app),
            declared: false,
            clash: None,
        },
        Some(declared) => match other_user(all_services(l), service.id, declared, 0) {
            Some(owner) => PortAdviceView {
                variable: fallback_variable(app),
                declared: false,
                clash: Some(
                    "'"@ + declared + "' is also service '"@ + owner + "'s port variable"@,
                ),
            },
            None => PortAdviceView { variable: declared, declared: true, clash: None },
        },
    }
}

fn is_env_used(ports: &Vec<PortSpec>, variable: &str) -> (r: bool)
    ensures
        r == uses_env(text::views(ports@), variable@),
{
    let ghost all = text::views(ports@);
    let mut i: usize = 0;
    while i < ports.len()
        invariant
            all == text::views(ports@),
            i <= ports@.len(),
            forall|k: int| 0 <= k < i ==> (#[trigger] all[k]).env != Some(variable@),
        decreases ports@.len() - i,
    {
        assert(all[i as int] == ports@[i as int]@);
        if let Some(name) = &ports[i].env {
            if text::same(name, variable) {
                assert(all[i as int].env == Some(variable@));
                return true;
            }
        }
        i += 1;
    }
    false
}

fn other_service_using(loaded: &Loaded, id: &str, variable: &str) -> (r: Option<String>)
    ensures
        text::opt_view(r) == other_user(all_services(loaded@), id@, variable@, 0),
{
    let services = services_of(loaded);
    let ghost all = text::views(services@);
    let mut k: usize = 0;
    while k < services.len()
        invariant
            all == text::views(services@),
            all == all_services(loaded@),
            k <= services@.len(),
            other_user(all, id@, variable@, 0) == other_user(all, id@, variable@, k as int),
        decreases services@.len() - k,
    {
        assert(all[k as int] == services@[k as int]@);
        if !text::same(&services[k].id, id) && is_env_used(&services[k].ports(), variable) {
            return Some(services[k].id.clone());
        }
        k += 1;
    }
    None
}

fn port_advice(loaded: &Loaded, app: &str, service: &Service) -> (r: PortAdvice)
    ensures
        r@ == advice_of(loaded@, app@, service@),
{
    let fallback = text::concat(&text::replace(&text::to_upper(app), '-', "_"), "_PORT");
    match find_env(&service.ports()) {
        None => PortAdvice { variable: fallback, declared: false, clash: None },
        Some(declared) => match other_service_using(loaded, &service.id, &declared) {
            Some(owner) => {
                let mut clash = text::own("'");
                clash.append(&declared);
                clash.append("' is also service '");
                clash.append(&owner);
                clash.append("'s port variable");
                PortAdvice { variable: fallback, declared: false, clash: Some(clash) }
            },
            None => PortAdvice { variable: declared, declared: true, clash: None },
        },
    }
}

/// A set of ports with one more, in ascending order.
pub open spec fn with_port(list: Seq<u16>, port: u16) -> Seq<u16>
    decreases list.len(),
{
    if list.len() == 0 {
        seq![port]
    } else if list.last() == port {
        list
    } else if list.last() < port {
        list.push(port)
    } else {
        with_port(list.drop_last(), port).push(list.last())
    }
}

/// The first `k` ports as a set, in ascending order.
pub open spec fn port_set(ports: Seq<u16>, k: int) -> Seq<u16>
    decreases k,
{
    if k <= 0 {
        Seq::empty()
    } else {
        with_port(port_set(ports, k - 1), ports[k - 1])
    }
}

/// Ports as text.
pub open spec fn in_text(ports: Seq<u16>) -> Seq<Seq<char>> {
    Seq::new(ports.len(), |i: int| text::decimal_of(ports[i] as nat))
}

fn add_port(list: &mut Vec<u16>, port: u16)
    ensures
        final(list)@ == with_port(old(list)@, port),
{
    let ghost all = list@;
    let mut i: usize = list.len();
    assert(all.take(i as int) =~= all);
    assert(with_port(all, port) + all.skip(i as int) =~= with_port(all, port));
    while i > 0 && list[i - 1] > port
        invariant
            all == list@,
            i <= list@.len(),
            with_port(all, port) == with_port(all.take(i as int), port) + all.skip(i as int),
        decreases i,
    {
        assert(all.take(i as int).drop_last() =~= all.take(i - 1));
        assert(all.take(i as int).last() == all[i - 1]);
        assert(with_port(all.take(i - 1), port).push(all[i - 1]) + all.skip(i as int) =~= with_port(
            all.take(i - 1),
            port,
        ) + all.skip(i - 1));
        i -= 1;
    }
    if i > 0 && list[i - 1] == port {
        assert(all.take(i as int).last() == all[i - 1]);
        assert(all.take(i as int) + all.skip(i as int) =~= all);
    } else {
        assert(i > 0 ==> all.take(i as int).last() == all[i - 1]);
        list.insert(i, port);
        assert(list@ =~= all.take(i as int).push(port) + all.skip(i as int));
        assert(i == 0 ==> all.take(0).push(port) =~= seq![port]);
    }
}

fn shown_ports(ports: &Vec<u16>) -> (r: Vec<String>)
    ensures
        text::views(r@) == in_text(port_set(ports@, ports@.len() as int)),
{
    let mut set: Vec<u16> = Vec::new();
    let mut k: usize = 0;
    while k < ports.len()
        invariant
            k <= ports@.len(),
            set@ == port_set(ports@, k as int),
        decreases ports@.len() - k,
    {
        add_port(&mut set, ports[k]);
        k += 1;
    }
    let ghost goal = in_text(set@);
    let mut out: Vec<String> = Vec::new();
    let mut i: usize = 0;
    assert(text::views(out@) =~= goal.take(0));
    while i < set.len()
        invariant
            goal == in_text(set@),
            i <= set@.len(),
            text::views(out@) == goal.take(i as int),
        decreases set@.len() - i,
    {
        text::add(&mut out, &text::decimal(set[i] as u64));
        i += 1;
        assert(text::views(out@) =~= goal.take(i as int));
    }
    assert(goal.take(i as int) =~= goal);
    out
}

/// What the command should read instead.
pub open spec fn rewritten(command: Seq<char>, variable: Seq<char>) -> Seq<char> {
    match ports::rewrite_of(command, variable) {
        Some(text) => text,
        None => command,
    }
}

/// How a pinned port is unpinned.
pub open spec fn unpin(service: Seq<char>, command: Seq<char>, advice: PortAdviceView) -> Seq<char> {
    "change it to `"@ + rewritten(command, advice.variable) + "`"@ + (if advice.declared {
        "; the manifest already names "@ + advice.variable + " as this service's port variable"@
    } else {
        " and set port = { env = \""@ + advice.variable + "\" } on service '"@ + service + "'"@
    }) + (match advice.clash {
        Some(clash) => " ("@ + clash + ")"@,
        None => ""@,
    })
}

/// A port pinned in the command a service runs overrides the variable magictree injects, so that
/// service can never follow a per-worktree port: the second worktree to start would try to bind the
/// same number. Nothing is said where the service's own command line hands the allocated port to the
/// step: the value appended after the literal is the one that takes effect.
pub open spec fn pinned_finding(
    service: ServiceView,
    pinned: PinnedPortView,
    advice: PortAdviceView,
) -> Seq<DriftView> {
    if pinned.step is Some && hands_over(service, advice.variable) {
        Seq::empty()
    } else {
        seq![
            drift(
                "service '"@ + service.id + "' runs "@ + pinned.origin + " (`"@ + pinned.command
                    + "`), which pins port "@ + text::join_of(
                    in_text(port_set(pinned.ports, pinned.ports.len() as int)),
                    " and "@,
                ) + "; every worktree would try to bind the same port"@,
                unpin(service.id, pinned.command, advice),
            ),
        ]
    }
}

/// What is said of the first `k` places where a service pins a port.
pub open spec fn pinned_upto(
    service: ServiceView,
    pinned: Seq<PinnedPortView>,
    advice: PortAdviceView,
    k: int,
) -> Seq<DriftView>
    decreases k,
{
    if k <= 0 {
        Seq::empty()
    } else {
        pinned_upto(service, pinned, advice, k - 1) + pinned_finding(service, pinned[k - 1], advice)
    }
}

/// The steps that the first `k` places are in.
pub open spec fn steps_upto(pinned: Seq<PinnedPortView>, k: int) -> Seq<StepRefView>
    decreases k,
{
    if k <= 0 {
        Seq::empty()
    } else {
        match pinned[k - 1].step {
            Some(step) => steps_upto(pinned, k - 1).push(step),
            None => steps_upto(pinned, k - 1),
        }
    }
}

/// What is said of the ports that the first `k` services of an app pin.
pub open spec fn pins_upto(l: LoadedView, app: AppView, facts: Seq<FactView>, k: int) -> Seq<DriftView>
    decreases k,
{
    if k <= 0 {
        Seq::empty()
    } else {
        let service = app.manifest.services[k - 1];
        let pinned = pinned_of(service, facts);
        pins_upto(l, app, facts, k - 1) + pinned_upto(
            service,
            pinned,
            advice_of(l, app.id, service),
            pinned.len() as int,
        )
    }
}

/// The steps in which the first `k` services of an app pin a port.
pub open spec fn pinned_steps(app: AppView, facts: Seq<FactView>, k: int) -> Seq<StepRefView>
    decreases k,
{
    if k <= 0 {
        Seq::empty()
    } else {
        let pinned = pinned_of(app.manifest.services[k - 1], facts);
        pinned_steps(app, facts, k - 1) + steps_upto(pinned, pinned.len() as int)
    }
}

/// What is said of the ports that the services of the first `k` apps pin.
pub open spec fn pin_drift(report: ReportView, l: LoadedView, k: int) -> Seq<DriftView>
    decreases k,
{
    if k <= 0 {
        Seq::empty()
    } else {
        let app = l.apps[k - 1];
        pin_drift(report, l, k - 1) + pins_upto(
            l,
            app,
            facts_of(report, l, app),
            app.manifest.services.len() as int,
        )
    }
}

/// The steps in which the services of the first `k` apps pin a port.
pub open spec fn reported_steps(report: ReportView, l: LoadedView, k: int) -> Seq<StepRefView>
    decreases k,
{
    if k <= 0 {
        Seq::empty()
    } else {
        let app = l.apps[k - 1];
        reported_steps(report, l, k - 1) + pinned_steps(
            app,
            facts_of(report, l, app),
            app.manifest.services.len() as int,
        )
    }
}

fn advise(service: &str, command: &str, advice: &PortAdvice) -> (r: String)
    ensures
        r@ == unpin(service@, command@, advice@),
{
    let rewrite = match ports::rewrite(command, &advice.variable) {
        Some(text) => text,
        None => text::own(command),
    };
    let mut out = text::own("change it to `");
    out.append(&rewrite);
    out.append("`");
    let source = if advice.declared {
        say(
            "; the manifest already names ",
            &advice.variable,
            " as this service's port variable",
        )
    } else {
        let mut set = text::own(" and set port = { env = \"");
        set.append(&advice.variable);
        set.append("\" } on service '");
        set.append(service);
        set.append("'");
        set
    };
    out.append(&source);
    let clash = match &advice.clash {
        Some(clash) => say(" (", clash, ")"),
        None => text::own(""),
    };
    out.append(&clash);
    out
}

fn add_pinned(
    out: &mut Vec<Drift>,
    steps: &mut Vec<StepRef>,
    service: &Service,
    pinned: &Vec<PinnedPort>,
    advice: &PortAdvice,
)
    ensures
        text::views(final(out)@) == text::views(old(out)@) + pinned_upto(
            service@,
            text::views(pinned@),
            advice@,
            pinned@.len() as int,
        ),
        text::views(final(steps)@) == text::views(old(steps)@) + steps_upto(
            text::views(pinned@),
            pinned@.len() as int,
        ),
{
    let ghost start = text::views(out@);
    let ghost known = text::views(steps@);
    let ghost all = text::views(pinned@);
    let mut k: usize = 0;
    assert(start + Seq::<DriftView>::empty() =~= start);
    assert(known + Seq::<StepRefView>::empty() =~= known);
    while k < pinned.len()
        invariant
            all == text::views(pinned@),
            k <= pinned@.len(),
            text::views(out@) == start + pinned_upto(service@, all, advice@, k as int),
            text::views(steps@) == known + steps_upto(all, k as int),
        decreases pinned@.len() - k,
    {
        broadcast use text::views_push;

        let one = &pinned[k];
        assert(all[k as int] == one@);
        let mut covered = false;
        if let Some(step) = &one.step {
            covered = command_hands_over(service, &advice.variable);
            steps.push(step.clone());
        }
        if !covered {
            let mut summary = text::own("service '");
            summary.append(&service.id);
            summary.append("' runs ");
            summary.append(&one.origin);
            summary.append(" (`");
            summary.append(&one.command);
            summary.append("`), which pins port ");
            summary.append(&text::join(&shown_ports(&one.ports), " and "));
            summary.append("; every worktree would try to bind the same port");
            out.push(Drift::new(summary, advise(&service.id, &one.command, advice)));
        }
        k += 1;
        assert(text::views(out@) =~= start + pinned_upto(service@, all, advice@, k as int));
        assert(text::views(steps@) =~= known + steps_upto(all, k as int));
    }
}

fn add_app_pins(
    out: &mut Vec<Drift>,
    steps: &mut Vec<StepRef>,
    loaded: &Loaded,
    app: &App,
    facts: &Vec<&Fact>,
)
    ensures
        text::views(final(out)@) == text::views(old(out)@) + pins_upto(
            loaded@,
            app@,
            text::views(facts@),
            app@.manifest.services.len() as int,
        ),
        text::views(final(steps)@) == text::views(old(steps)@) + pinned_steps(
            app@,
            text::views(facts@),
            app@.manifest.services.len() as int,
        ),
{
    let ghost start = text::views(out@);
    let ghost before = text::views(steps@);
    let ghost all = app@.manifest.services;
    let ghost known = text::views(facts@);
    let mut k: usize = 0;
    assert(start + Seq::<DriftView>::empty() =~= start);
    assert(before + Seq::<StepRefView>::empty() =~= before);
    while k < app.manifest.services.len()
        invariant
            all == app@.manifest.services,
            known == text::views(facts@),
            k <= app.manifest.services@.len(),
            text::views(out@) == start + pins_upto(loaded@, app@, known, k as int),
            text::views(steps@) == before + pinned_steps(app@, known, k as int),
        decreases app.manifest.services@.len() - k,
    {
        let service = &app.manifest.services[k];
        assert(all[k as int] == service@);
        let advice = port_advice(loaded, &app.id, service);
        let pinned = pinned_ports(service, facts);
        add_pinned(out, steps, service, &pinned, &advice);
        k += 1;
        assert(text::views(out@) =~= start + pins_upto(loaded@, app@, known, k as int));
        assert(text::views(steps@) =~= before + pinned_steps(app@, known, k as int));
    }
}

fn compare_pins(report: &Report, loaded: &Loaded) -> (r: (Vec<Drift>, Vec<StepRef>))
    ensures
        text::views(r.0@) == pin_drift(report@, loaded@, loaded@.apps.len() as int),
        text::views(r.1@) == reported_steps(report@, loaded@, loaded@.apps.len() as int),
{
    let ghost l = loaded@;
    let mut out: Vec<Drift> = Vec::new();
    let mut steps: Vec<StepRef> = Vec::new();
    let mut k: usize = 0;
    assert(text::views(out@) =~= Seq::<DriftView>::empty());
    assert(text::views(steps@) =~= Seq::<StepRefView>::empty());
    while k < loaded.apps.len()
        invariant
            l == loaded@,
            k <= loaded.apps@.len(),
            text::views(out@) == pin_drift(report@, l, k as int),
            text::views(steps@) == reported_steps(report@, l, k as int),
        decreases loaded.apps@.len() - k,
    {
        let app = &loaded.apps[k];
        assert(l.apps[k as int] == app@);
        add_app_pins(&mut out, &mut steps, loaded, app, &app_facts(report, loaded, app));
        k += 1;
    }
    (out, steps)
}

// ---------------------------------------------------------------------------
// Ports pinned elsewhere
// ---------------------------------------------------------------------------

/// Whether a declaration names a port and the variable that carries it.
pub open spec fn carries(spec: PortSpecView, port: u16) -> bool {
    (spec.prefer == Some(port) || spec.require == Some(port)) && spec.env is Some
}

/// The variable of the first declaration, from `k` on, that names a port.
pub open spec fn carrier_in(ports: Seq<PortSpecView>, port: u16, k: int) -> Option<Seq<char>>
    decreases ports.len() - k,
{
    if k < 0 || k >= ports.len() {
        None
    } else if carries(ports[k], port) {
        ports[k].env
    } else {
        carrier_in(ports, port, k + 1)
    }
}

/// The variable that carries an already-declared port, from service `k` on, so an unrelated literal
/// can point at the same number instead of repeating it.
pub open spec fn carrier_of(services: Seq<ServiceView>, port: u16, k: int) -> Option<Seq<char>>
    decreases services.len() - k,
{
    if k < 0 || k >= services.len() {
        None
    } else {
        match carrier_in(services[k].ports_of(), port, 0) {
            Some(name) => Some(name),
            None => carrier_of(services, port, k + 1),
        }
    }
}

fn find_carrier(ports: &Vec<PortSpec>, port: u16) -> (r: Option<String>)
    ensures
        text::opt_view(r) == carrier_in(text::views(ports@), port, 0),
{
    let ghost all = text::views(ports@);
    let mut k: usize = 0;
    while k < ports.len()
        invariant
            all == text::views(ports@),
            k <= ports@.len(),
            carrier_in(all, port, 0) == carrier_in(all, port, k as int),
        decreases ports@.len() - k,
    {
        let spec = &ports[k];
        assert(all[k as int] == spec@);
        let named = match (spec.prefer, spec.require) {
            (Some(prefer), Some(require)) => prefer == port || require == port,
            (Some(prefer), None) => prefer == port,
            (None, Some(require)) => require == port,
            (None, None) => false,
        };
        if named {
            if let Some(name) = &spec.env {
                return Some(name.clone());
            }
        }
        k += 1;
    }
    None
}

fn variable_for_port(loaded: &Loaded, port: u16) -> (r: Option<String>)
    ensures
        text::opt_view(r) == carrier_of(all_services(loaded@), port, 0),
{
    let services = services_of(loaded);
    let ghost all = text::views(services@);
    let mut k: usize = 0;
    while k < services.len()
        invariant
            all == text::views(services@),
            all == all_services(loaded@),
            k <= services@.len(),
            carrier_of(all, port, 0) == carrier_of(all, port, k as int),
        decreases services@.len() - k,
    {
        assert(all[k as int] == services@[k as int]@);
        if let Some(name) = find_carrier(&services[k].ports(), port) {
            return Some(name);
        }
        k += 1;
    }
    None
}

/// The step a literal is in; the empty name where it is in none.
pub open spec fn container_of(literal: PortLiteralFactView) -> Seq<char> {
    match literal.container {
        Some(name) => name,
        None => ""@,
    }
}

/// The step of a pair.
pub open spec fn step_at(pair: (FactView, PortLiteralFactView)) -> StepRefView {
    StepRefView { fact: pair.0.id, step: container_of(pair.1) }
}

/// Whether a step was reported, or is among the first `k` pairs.
pub open spec fn already(
    reported: Seq<StepRefView>,
    pairs: Seq<(FactView, PortLiteralFactView)>,
    step: StepRefView,
    k: int,
) -> bool {
    reported.contains(step) || exists|i: int| 0 <= i < k && step_at(#[trigger] pairs[i]) == step
}

/// What is said of a port pinned elsewhere. Only a port some service actually allocates can be
/// pointed at; for anything else the honest answer is that the manifest owes it a port.
pub open spec fn elsewhere_finding(l: LoadedView, pair: (FactView, PortLiteralFactView)) -> DriftView {
    info(
        pair.0.source + " pins port "@ + text::decimal_of(pair.1.port as nat) + " in "@
            + ports::step_label_of(pair.0.kind, container_of(pair.1)) + " (`"@ + pair.1.text + "`)"@,
        ports::suggestion_of(pair.1, carrier_of(all_services(l), pair.1.port, 0)),
    )
}

/// Ports pinned anywhere else (a seed script, a test helper, a committed env template), among the
/// first `k` literals. Worth naming, but only the service's own command is guaranteed to be started
/// by magictree. A step is named once.
pub open spec fn elsewhere_upto(
    l: LoadedView,
    reported: Seq<StepRefView>,
    pairs: Seq<(FactView, PortLiteralFactView)>,
    k: int,
) -> Seq<DriftView>
    decreases k,
{
    if k <= 0 {
        Seq::empty()
    } else {
        let before = elsewhere_upto(l, reported, pairs, k - 1);
        if already(reported, pairs, step_at(pairs[k - 1]), k - 1) {
            before
        } else {
            before.push(elsewhere_finding(l, pairs[k - 1]))
        }
    }
}

fn is_known(steps: &Vec<StepRef>, fact: &str, step: &str) -> (r: bool)
    ensures
        r == text::views(steps@).contains(StepRefView { fact: fact@, step: step@ }),
{
    let ghost all = text::views(steps@);
    let ghost x = StepRefView { fact: fact@, step: step@ };
    let mut i: usize = 0;
    while i < steps.len()
        invariant
            all == text::views(steps@),
            x == (StepRefView { fact: fact@, step: step@ }),
            i <= steps@.len(),
            forall|k: int| 0 <= k < i ==> #[trigger] all[k] != x,
        decreases steps@.len() - i,
    {
        assert(all[i as int] == steps@[i as int]@);
        if text::same(&steps[i].fact, fact) && text::same(&steps[i].step, step) {
            assert(all[i as int] == x);
            return true;
        }
        i += 1;
    }
    false
}

/// The references to every fact of a report.
fn every_fact<'a>(report: &'a Report) -> (r: Vec<&'a Fact>)
    ensures
        text::views(r@) == report@.facts,
{
    let ghost all = report@.facts;
    let mut out: Vec<&'a Fact> = Vec::new();
    let mut i: usize = 0;
    assert(text::views(out@) =~= all.take(0));
    while i < report.facts.len()
        invariant
            all == report@.facts,
            i <= report.facts@.len(),
            text::views(out@) == all.take(i as int),
        decreases report.facts@.len() - i,
    {
        broadcast use text::views_push;

        out.push(&report.facts[i]);
        i += 1;
        assert(text::views(out@) =~= all.take(i as int));
    }
    assert(all.take(i as int) =~= all);
    out
}

fn compare_elsewhere(report: &Report, loaded: &Loaded, reported: &Vec<StepRef>) -> (r: Vec<Drift>)
    ensures
        ({
            let pairs = ports::all_of(report@.facts);
            text::views(r@) == elsewhere_upto(
                loaded@,
                text::views(reported@),
                pairs,
                pairs.len() as int,
            )
        }),
{
    let facts = every_fact(report);
    let pairs = ports::all(&facts);
    let ghost all = text::views(pairs@);
    let ghost given = text::views(reported@);
    let mut known = text::clone_all(reported);
    let mut out: Vec<Drift> = Vec::new();
    let mut k: usize = 0;
    assert(text::views(out@) =~= Seq::<DriftView>::empty());
    while k < pairs.len()
        invariant
            all == text::views(pairs@),
            given == text::views(reported@),
            k <= pairs@.len(),
            forall|x: StepRefView|
                #![trigger text::views(known@).contains(x)]
                #![trigger already(given, all, x, k as int)]
                text::views(known@).contains(x) <==> already(given, all, x, k as int),
            text::views(out@) == elsewhere_upto(loaded@, given, all, k as int),
        decreases pairs@.len() - k,
    {
        broadcast use text::views_push;

        assert(all[k as int] == (pairs@[k as int].0@, pairs@[k as int].1@));
        let fact = pairs[k].0;
        let literal = pairs[k].1;
        let container = match &literal.container {
            Some(name) => name.clone(),
            None => text::own(""),
        };
        let ghost x = step_at(all[k as int]);
        let ghost before = text::views(known@);
        if !is_known(&known, &fact.id, &container) {
            let mut summary = fact.source.clone();
            summary.append(" pins port ");
            summary.append(&text::decimal(literal.port as u64));
            summary.append(" in ");
            summary.append(&ports::step_label(fact.kind, &container));
            summary.append(" (`");
            summary.append(&literal.text);
            summary.append("`)");
            let variable = variable_for_port(loaded, literal.port);
            let suggestion = match &variable {
                Some(name) => ports::suggestion(literal, Some(name.as_str())),
                None => ports::suggestion(literal, None),
            };
            out.push(Drift::info(summary, suggestion));
            known.push(StepRef { fact: fact.id.clone(), step: container });
        }
        let ghost now = text::views(known@);
        assert forall|y: StepRefView| now.contains(y) <==> already(given, all, y, k + 1) by {
            if now.contains(y) {
                let m = choose|m: int| 0 <= m < now.len() && now[m] == y;
                if m < before.len() {
                    assert(before[m] == y);
                    assert(before.contains(y));
                    assert(already(given, all, y, k as int));
                    if !given.contains(y) {
                        let i = choose|i: int| 0 <= i < k && step_at(#[trigger] all[i]) == y;
                        assert(step_at(all[i]) == y);
                    }
                } else {
                    assert(step_at(all[k as int]) == y);
                }
            }
            if already(given, all, y, k + 1) {
                if already(given, all, y, k as int) {
                    assert(before.contains(y));
                    let m = choose|m: int| 0 <= m < before.len() && before[m] == y;
                    assert(now[m] == y);
                } else {
                    let i = choose|i: int| 0 <= i < k + 1 && step_at(#[trigger] all[i]) == y;
                    assert(i == k);
                    assert(!before.contains(y));
                    assert(now[before.len() as int] == y);
                }
            }
        }
        k += 1;
    }
    out
}

// ---------------------------------------------------------------------------
// Files
// ---------------------------------------------------------------------------

/// The directory at position `i`: that of the workspace, then those of the apps.
pub open spec fn manifest_dir(l: LoadedView, i: int) -> Seq<char> {
    if i == 0 {
        l.workspace_dir
    } else {
        l.apps[i - 1].dir
    }
}

/// The manifest files of the first `k` directories, each once.
pub open spec fn manifest_files(l: LoadedView, k: int) -> Seq<Seq<char>>
    decreases k,
{
    if k <= 0 {
        Seq::empty()
    } else {
        let before = manifest_files(l, k - 1);
        let file = paths::join_of(manifest_dir(l, k - 1), "magictree.toml"@);
        if paths::holds(before, file) {
            before
        } else {
            before.push(file)
        }
    }
}

/// A manifest that git does not track is invisible to every new worktree, so `magictree new` there
/// would have nothing to start. What is said of the first `k` manifest files.
pub open spec fn untracked_upto(l: LoadedView, files: Seq<Seq<char>>, untracked: Seq<Seq<char>>, k: int) -> Seq<
    DriftView,
>
    decreases k,
{
    if k <= 0 {
        Seq::empty()
    } else {
        let before = untracked_upto(l, files, untracked, k - 1);
        let name = paths::display_relative_of(files[k - 1], l.workspace_dir);
        if untracked.contains(files[k - 1]) {
            before.push(
                drift(
                    name + " is not committed, so new worktrees will not inherit it"@,
                    "git add "@ + name + " && git commit -m \"add "@ + name + "\""@,
                ),
            )
        } else {
            before
        }
    }
}

/// The manifest files of a set of manifests: those that should be tracked.
pub fn manifest_paths(loaded: &Loaded) -> (r: Vec<String>)
    ensures
        text::views(r@) == manifest_files(loaded@, loaded@.apps.len() as int + 1),
{
    let ghost l = loaded@;
    let mut out: Vec<String> = Vec::new();
    assert(text::views(out@) =~= Seq::<Seq<char>>::empty());
    assert(manifest_files(l, 0) =~= Seq::<Seq<char>>::empty());
    text::add(&mut out, &paths::join(&loaded.workspace_dir, "magictree.toml"));
    assert(!paths::holds(manifest_files(l, 0), out@[0]@));
    let mut k: usize = 0;
    while k < loaded.apps.len()
        invariant
            l == loaded@,
            k <= loaded.apps@.len(),
            text::views(out@) == manifest_files(l, k + 1),
        decreases loaded.apps@.len() - k,
    {
        assert(l.apps[k as int] == loaded.apps@[k as int]@);
        let file = paths::join(&loaded.apps[k].dir, "magictree.toml");
        assert(manifest_dir(l, k + 1) == loaded.apps@[k as int].dir@);
        if !paths::is_held(&out, &file) {
            text::add(&mut out, &file);
        }
        k += 1;
    }
    out
}

fn compare_tracking(loaded: &Loaded, untracked: &Vec<String>) -> (r: Vec<Drift>)
    ensures
        ({
            let files = manifest_files(loaded@, loaded@.apps.len() as int + 1);
            text::views(r@) == untracked_upto(
                loaded@,
                files,
                text::views(untracked@),
                files.len() as int,
            )
        }),
{
    let files = manifest_paths(loaded);
    let ghost all = text::views(files@);
    let ghost missed = text::views(untracked@);
    let mut out: Vec<Drift> = Vec::new();
    let mut k: usize = 0;
    assert(text::views(out@) =~= Seq::<DriftView>::empty());
    while k < files.len()
        invariant
            all == text::views(files@),
            missed == text::views(untracked@),
            k <= files@.len(),
            text::views(out@) == untracked_upto(loaded@, all, missed, k as int),
        decreases files@.len() - k,
    {
        broadcast use text::views_push;

        assert(all[k as int] == files@[k as int]@);
        if text::among(untracked, &files[k]) {
            let name = paths::display_relative(&files[k], &loaded.workspace_dir);
            let mut fix = text::own("git add ");
            fix.append(&name);
            fix.append(" && git commit -m \"add ");
            fix.append(&name);
            fix.append("\"");
            out.push(
                Drift::new(
                    text::concat(&name, " is not committed, so new worktrees will not inherit it"),
                    fix,
                ),
            );
        }
        k += 1;
    }
    out
}

/// A bootstrap input: where it should be, how it is written, and the command that reads it.
#[verifier::ext_equal]
pub struct InputView {
    pub path: Seq<char>,
    pub input: Seq<char>,
    pub command: Seq<char>,
}

/// The first `k` inputs of a step.
pub open spec fn step_inputs(dir: Seq<char>, step: RunStepView, k: int) -> Seq<InputView>
    decreases k,
{
    if k <= 0 {
        Seq::empty()
    } else {
        step_inputs(dir, step, k - 1).push(
            InputView {
                path: paths::join_of(dir, step.inputs_of()[k - 1]),
                input: step.inputs_of()[k - 1],
                command: step.command_of(),
            },
        )
    }
}

/// The inputs of the first `k` steps of a manifest.
pub open spec fn manifest_inputs(dir: Seq<char>, steps: Seq<RunStepView>, k: int) -> Seq<InputView>
    decreases k,
{
    if k <= 0 {
        Seq::empty()
    } else {
        manifest_inputs(dir, steps, k - 1) + step_inputs(
            dir,
            steps[k - 1],
            steps[k - 1].inputs_of().len() as int,
        )
    }
}

/// The inputs of the first `k` apps.
pub open spec fn app_inputs(l: LoadedView, k: int) -> Seq<InputView>
    decreases k,
{
    if k <= 0 {
        Seq::empty()
    } else {
        let app = l.apps[k - 1];
        app_inputs(l, k - 1) + manifest_inputs(
            app.dir,
            app.manifest.bootstrap.run,
            app.manifest.bootstrap.run.len() as int,
        )
    }
}

/// Every bootstrap input, those of the apps first.
pub open spec fn inputs_of(l: LoadedView) -> Seq<InputView> {
    app_inputs(l, l.apps.len() as int) + manifest_inputs(
        l.workspace_dir,
        l.workspace.bootstrap.run,
        l.workspace.bootstrap.run.len() as int,
    )
}

/// Bootstrap inputs must still exist, or caching will never hit. What is said of the first `k`.
pub open spec fn inputs_upto(inputs: Seq<InputView>, missing: Seq<Seq<char>>, k: int) -> Seq<DriftView>
    decreases k,
{
    if k <= 0 {
        Seq::empty()
    } else if missing.contains(inputs[k - 1].path) {
        inputs_upto(inputs, missing, k - 1).push(
            drift(
                "bootstrap input '"@ + inputs[k - 1].input + "' for `"@ + inputs[k - 1].command
                    + "` does not exist"@,
                "fix the path, or drop the step's inputs so it always runs"@,
            ),
        )
    } else {
        inputs_upto(inputs, missing, k - 1)
    }
}

/// A bootstrap input: where it should be, how it is written, and the command that reads it.
#[derive(Debug)]
pub struct BootstrapInput {
    pub path: String,
    pub input: String,
    pub command: String,
}

impl View for BootstrapInput {
    type V = InputView;

    open spec fn view(&self) -> InputView {
        InputView { path: self.path@, input: self.input@, command: self.command@ }
    }
}

fn add_inputs(out: &mut Vec<BootstrapInput>, dir: &str, steps: &Vec<RunStep>)
    ensures
        text::views(final(out)@) == text::views(old(out)@) + manifest_inputs(
            dir@,
            text::views(steps@),
            steps@.len() as int,
        ),
{
    let ghost start = text::views(out@);
    let ghost all = text::views(steps@);
    let mut k: usize = 0;
    assert(start + Seq::<InputView>::empty() =~= start);
    while k < steps.len()
        invariant
            all == text::views(steps@),
            k <= steps@.len(),
            text::views(out@) == start + manifest_inputs(dir@, all, k as int),
        decreases steps@.len() - k,
    {
        let step = &steps[k];
        assert(all[k as int] == step@);
        let inputs = step.inputs();
        let ghost before = text::views(out@);
        let ghost list = text::views(inputs@);
        let mut i: usize = 0;
        assert(before + step_inputs(dir@, step@, 0) =~= before);
        while i < inputs.len()
            invariant
                list == text::views(inputs@),
                list == step@.inputs_of(),
                i <= inputs@.len(),
                text::views(out@) == before + step_inputs(dir@, step@, i as int),
            decreases inputs@.len() - i,
        {
            broadcast use text::views_push;

            assert(list[i as int] == inputs@[i as int]@);
            out.push(
                BootstrapInput {
                    path: paths::join(dir, &inputs[i]),
                    input: inputs[i].clone(),
                    command: text::own(step.command()),
                },
            );
            i += 1;
            assert(text::views(out@) =~= before + step_inputs(dir@, step@, i as int));
        }
        k += 1;
        assert(text::views(out@) =~= start + manifest_inputs(dir@, all, k as int));
    }
}

/// Every bootstrap input of a set of manifests: those that should exist.
pub fn input_paths(loaded: &Loaded) -> (r: Vec<BootstrapInput>)
    ensures
        text::views(r@) == inputs_of(loaded@),
{
    let ghost l = loaded@;
    let mut out: Vec<BootstrapInput> = Vec::new();
    let mut k: usize = 0;
    assert(text::views(out@) =~= Seq::<InputView>::empty());
    while k < loaded.apps.len()
        invariant
            l == loaded@,
            k <= loaded.apps@.len(),
            text::views(out@) == app_inputs(l, k as int),
        decreases loaded.apps@.len() - k,
    {
        let app = &loaded.apps[k];
        assert(l.apps[k as int] == app@);
        add_inputs(&mut out, &app.dir, &app.manifest.bootstrap.run);
        k += 1;
    }
    add_inputs(&mut out, &loaded.workspace_dir, &loaded.workspace.bootstrap.run);
    out
}

fn compare_inputs(loaded: &Loaded, missing: &Vec<String>) -> (r: Vec<Drift>)
    ensures
        text::views(r@) == inputs_upto(
            inputs_of(loaded@),
            text::views(missing@),
            inputs_of(loaded@).len() as int,
        ),
{
    let inputs = input_paths(loaded);
    let ghost all = text::views(inputs@);
    let ghost gone = text::views(missing@);
    let mut out: Vec<Drift> = Vec::new();
    let mut k: usize = 0;
    assert(text::views(out@) =~= Seq::<DriftView>::empty());
    while k < inputs.len()
        invariant
            all == text::views(inputs@),
            gone == text::views(missing@),
            k <= inputs@.len(),
            text::views(out@) == inputs_upto(all, gone, k as int),
        decreases inputs@.len() - k,
    {
        broadcast use text::views_push;

        assert(all[k as int] == inputs@[k as int]@);
        if text::among(missing, &inputs[k].path) {
            let mut summary = text::own("bootstrap input '");
            summary.append(&inputs[k].input);
            summary.append("' for `");
            summary.append(&inputs[k].command);
            summary.append("` does not exist");
            out.push(
                Drift::new(
                    summary,
                    text::own("fix the path, or drop the step's inputs so it always runs"),
                ),
            );
        }
        k += 1;
    }
    out
}

/// Whether no declaration names a container-side port.
pub open spec fn untargeted(ports: Seq<PortSpecView>) -> bool {
    forall|i: int| 0 <= i < ports.len() ==> (#[trigger] ports[i]).target is None
}

/// Exposed compose services need a container-side port. What is said of the first `k` services.
pub open spec fn exposed_upto(services: Seq<ServiceView>, k: int) -> Seq<DriftView>
    decreases k,
{
    if k <= 0 {
        Seq::empty()
    } else {
        let service = services[k - 1];
        if service.expose == Expose::Port && service.compose is Some && untargeted(
            service.ports_of(),
        ) {
            exposed_upto(services, k - 1).push(
                drift(
                    "compose service '"@ + service.id + "' exposes a port but has no port.target"@,
                    "add port = { target = <container port> }"@,
                ),
            )
        } else {
            exposed_upto(services, k - 1)
        }
    }
}

fn is_untargeted(ports: &Vec<PortSpec>) -> (r: bool)
    ensures
        r == untargeted(text::views(ports@)),
{
    let ghost all = text::views(ports@);
    let mut i: usize = 0;
    while i < ports.len()
        invariant
            all == text::views(ports@),
            i <= ports@.len(),
            forall|k: int| 0 <= k < i ==> (#[trigger] all[k]).target is None,
        decreases ports@.len() - i,
    {
        assert(all[i as int] == ports@[i as int]@);
        if ports[i].target.is_some() {
            assert(!untargeted(all));
            return false;
        }
        i += 1;
    }
    true
}

fn compare_exposed(loaded: &Loaded) -> (r: Vec<Drift>)
    ensures
        text::views(r@) == exposed_upto(all_services(loaded@), all_services(loaded@).len() as int),
{
    let services = services_of(loaded);
    let ghost all = text::views(services@);
    let mut out: Vec<Drift> = Vec::new();
    let mut k: usize = 0;
    assert(text::views(out@) =~= Seq::<DriftView>::empty());
    while k < services.len()
        invariant
            all == text::views(services@),
            k <= services@.len(),
            text::views(out@) == exposed_upto(all, k as int),
        decreases services@.len() - k,
    {
        broadcast use text::views_push;

        let service = services[k];
        assert(all[k as int] == service@);
        let shown = match service.expose {
            Expose::Port => true,
            Expose::Nothing => false,
        };
        if shown && service.compose.is_some() && is_untargeted(&service.ports()) {
            out.push(
                Drift::new(
                    say(
                        "compose service '",
                        &service.id,
                        "' exposes a port but has no port.target",
                    ),
                    text::own("add port = { target = <container port> }"),
                ),
            );
        }
        k += 1;
    }
    out
}

// ---------------------------------------------------------------------------
// Everything
// ---------------------------------------------------------------------------

/// Everything on which the repository and the manifests disagree.
pub open spec fn compare_of(
    report: ReportView,
    l: LoadedView,
    untracked: Seq<Seq<char>>,
    missing: Seq<Seq<char>>,
) -> Seq<DriftView> {
    let apps = l.apps.len() as int;
    let pairs = ports::all_of(report.facts);
    let files = manifest_files(l, apps + 1);
    app_drift(report, l) + compose_drift(report, l) + target_drift(report, l, apps)
        + variable_drift(report, l, apps) + pin_drift(report, l, apps) + elsewhere_upto(
        l,
        reported_steps(report, l, apps),
        pairs,
        pairs.len() as int,
    ) + untracked_upto(l, files, untracked, files.len() as int) + inputs_upto(
        inputs_of(l),
        missing,
        inputs_of(l).len() as int,
    ) + exposed_upto(all_services(l), all_services(l).len() as int)
}

fn append(out: &mut Vec<Drift>, more: Vec<Drift>)
    ensures
        text::views(final(out)@) == text::views(old(out)@) + text::views(more@),
{
    let ghost start = out@;
    let ghost list = more@;
    let mut more = more;
    out.append(&mut more);
    assert(text::views(out@) =~= text::views(start) + text::views(list));
}

/// Compare a set of manifests against a fresh discovery report. `untracked` are the manifest files
/// that exist and that git does not track, `missing` the bootstrap inputs that do not exist.
pub fn compare(
    report: &Report,
    loaded: &Loaded,
    untracked: &Vec<String>,
    missing: &Vec<String>,
) -> (r: Vec<Drift>)
    ensures
        text::views(r@) == compare_of(
            report@,
            loaded@,
            text::views(untracked@),
            text::views(missing@),
        ),
{
    let mut out = compare_apps(report, loaded);
    append(&mut out, compare_compose(report, loaded));
    append(&mut out, compare_targets(report, loaded));
    append(&mut out, compare_variables(report, loaded));
    let (pins, steps) = compare_pins(report, loaded);
    append(&mut out, pins);
    append(&mut out, compare_elsewhere(report, loaded, &steps));
    append(&mut out, compare_tracking(loaded, untracked));
    append(&mut out, compare_inputs(loaded, missing));
    append(&mut out, compare_exposed(loaded));
    out
}

/// Compare the manifest set that applies in `root` against a fresh discovery report.
pub fn check(
    report: &Report,
    root: &str,
    found: &Vec<Found>,
    untracked: &Vec<String>,
    missing: &Vec<String>,
) -> (r: Result<Vec<Drift>, String>)
    ensures
        match r {
            Ok(drift) => manifest::load_of(root@, text::views(found@)) matches Ok(loaded)
                && text::views(drift@) == compare_of(
                report@,
                loaded,
                text::views(untracked@),
                text::views(missing@),
            ),
            Err(e) => manifest::load_of(root@, text::views(found@)) == Err::<
                LoadedView,
                Seq<char>,
            >(e@),
        },
{
    match Loaded::load(root, found) {
        Ok(loaded) => Ok(compare(report, &loaded, untracked, missing)),
        Err(e) => Err(e),
    }
}

/// What is printed of the first `k` findings.
pub open spec fn finding_lines(drift: Seq<DriftView>, k: int) -> Seq<Seq<char>>
    decreases k,
{
    if k <= 0 {
        Seq::empty()
    } else {
        let said = finding_lines(drift, k - 1).push(
            (if drift[k - 1].severity == Severity::Drift {
                "drift "@
            } else {
                "info  "@
            }) + drift[k - 1].summary,
        );
        match drift[k - 1].suggestion {
            Some(suggestion) => said.push("      "@ + suggestion),
            None => said,
        }
    }
}

/// How many of the first `k` findings are drift.
pub open spec fn drift_count(drift: Seq<DriftView>, k: int) -> nat
    decreases k,
{
    if k <= 0 {
        0
    } else if drift[k - 1].severity == Severity::Drift {
        drift_count(drift, k - 1) + 1
    } else {
        drift_count(drift, k - 1)
    }
}

/// What `doctor` prints, and whether it fails.
#[derive(Debug)]
pub struct Findings {
    pub lines: Vec<String>,
    /// Findings that describe a valid choice do not fail the command.
    pub result: Result<(), String>,
}

/// What `doctor` prints for a set of findings.
pub open spec fn report_lines(drift: Seq<DriftView>) -> Seq<Seq<char>> {
    let n = drift.len() as int;
    if n == 0 {
        seq!["no drift: manifests match the repository"@]
    } else if drift_count(drift, n) == 0 {
        finding_lines(drift, n).push("\nno drift: manifests match the repository"@)
    } else {
        finding_lines(drift, n)
    }
}

/// What `doctor` prints for a set of findings: it fails when one of them is drift.
pub fn describe(drift: &Vec<Drift>) -> (r: Findings)
    ensures
        text::views(r.lines@) == report_lines(text::views(drift@)),
        match r.result {
            Ok(_) => drift_count(text::views(drift@), drift@.len() as int) == 0,
            Err(e) => drift_count(text::views(drift@), drift@.len() as int) > 0 && e@
                == text::decimal_of(drift_count(text::views(drift@), drift@.len() as int))
                + " drift finding(s)"@,
        },
{
    let ghost all = text::views(drift@);
    let mut lines: Vec<String> = Vec::new();
    assert(text::views(lines@) =~= Seq::<Seq<char>>::empty());
    if drift.len() == 0 {
        text::add(&mut lines, "no drift: manifests match the repository");
        assert(text::views(lines@) =~= seq!["no drift: manifests match the repository"@]);
        return Findings { lines, result: Ok(()) };
    }
    let mut count: usize = 0;
    let mut k: usize = 0;
    while k < drift.len()
        invariant
            all == text::views(drift@),
            count <= k <= drift.len(),
            count == drift_count(all, k as int),
            text::views(lines@) == finding_lines(all, k as int),
        decreases drift@.len() - k,
    {
        let entry = &drift[k];
        assert(all[k as int] == entry@);
        let marker = if entry.is_drift() {
            "drift "
        } else {
            "info  "
        };
        text::add(&mut lines, &text::concat(marker, &entry.summary));
        if let Some(suggestion) = &entry.suggestion {
            text::add(&mut lines, &text::concat("      ", suggestion));
        }
        if entry.is_drift() {
            count += 1;
        }
        k += 1;
    }
    if count == 0 {
        text::add(&mut lines, "\nno drift: manifests match the repository");
        return Findings { lines, result: Ok(()) };
    }
    let e = text::concat(&text::decimal(count as u64), " drift finding(s)");
    Findings { lines, result: Err(e) }
}

// ---------------------------------------------------------------------------
// Laws
// ---------------------------------------------------------------------------

/// Whether a finding of this weight says this.
pub open spec fn reported(out: Seq<DriftView>, severity: Severity, summary: Seq<char>) -> bool {
    exists|k: int|
        0 <= k < out.len() && (#[trigger] out[k]).severity == severity && out[k].summary == summary
}

/// Whether a finding is of this weight and says this.
pub open spec fn says(f: DriftView, severity: Severity, summary: Seq<char>) -> bool {
    f.severity == severity && f.summary == summary
}

/// Whether discovery finds an app in a directory.
pub open spec fn is_discovered(report: ReportView, dir: Seq<char>) -> bool {
    exists|a: int| 0 <= a < report.apps.len() && (#[trigger] report.apps[a]).dir == dir
}

/// Whether the workspace lists an app in a directory.
pub open spec fn is_listed(l: LoadedView, dir: Seq<char>) -> bool {
    exists|a: int| 0 <= a < l.apps.len() && rel_of(l.workspace_dir, (#[trigger] l.apps[a]).dir) == dir
}

/// Whether a compose file declares a service.
pub open spec fn compose_has(report: ReportView, name: Seq<char>) -> bool {
    exists|k: int|
        0 <= k < report.facts.len() && fact_has(#[trigger] report.facts[k], name)
}

pub open spec fn fact_has(fact: FactView, name: Seq<char>) -> bool {
    fact.kind == FactKind::Compose && (fact.data matches FactDataView::Compose { services, .. }
        && exists|i: int| 0 <= i < services.len() && (#[trigger] services[i]).name == name)
}

/// Whether a service of a manifest references a compose service.
pub open spec fn references(service: ServiceView, name: Seq<char>) -> bool {
    service.compose matches Some(reference) && reference.service == name
}

/// Whether any manifest references a compose service.
pub open spec fn is_referenced(l: LoadedView, name: Seq<char>) -> bool {
    (exists|a: int, i: int|
        0 <= a < l.apps.len() && 0 <= i < l.apps[a].manifest.services.len() && references(
            #[trigger] l.apps[a].manifest.services[i],
            name,
        )) || exists|i: int|
        0 <= i < l.workspace.services.len() && references(#[trigger] l.workspace.services[i], name)
}

/// Whether a fact concerns an app: it is the app's own, or the app is the repository itself.
pub open spec fn concerns(l: LoadedView, app: AppView, fact: FactView) -> bool {
    fact.app == Some(app.id) || rel_of(l.workspace_dir, app.dir) == "."@
}

/// Whether a fact declares the script, recipe or task that a target runs.
pub open spec fn offers(fact: FactView, target: TargetView) -> bool {
    match (target, fact.data) {
        (TargetView::Npm { script, .. }, FactDataView::Node { scripts, .. }) => exists|i: int|
            0 <= i < scripts.len() && (#[trigger] scripts[i]).name == script,
        (TargetView::Pnpm { script, .. }, FactDataView::Node { scripts, .. }) => exists|i: int|
            0 <= i < scripts.len() && (#[trigger] scripts[i]).name == script,
        (TargetView::Uv { script: Some(script), .. }, FactDataView::Node { scripts, .. }) => exists|
            i: int,
        | 0 <= i < scripts.len() && (#[trigger] scripts[i]).name == script,
        (TargetView::Npm { script, .. }, FactDataView::Python { scripts, .. }) => scripts.contains(
            script,
        ),
        (TargetView::Pnpm { script, .. }, FactDataView::Python { scripts, .. }) => scripts.contains(
            script,
        ),
        (TargetView::Uv { script: Some(script), .. }, FactDataView::Python { scripts, .. }) =>
        scripts.contains(script),
        (TargetView::Just { recipe, .. }, FactDataView::Just { recipes, modules, .. }) =>
        recipes.contains(recipe) || (text::find_of(recipe, "::"@) matches Some(at)
            && modules.contains(recipe.take(at))),
        (TargetView::Mise { task, .. }, FactDataView::Mise { tasks, .. }) => tasks.contains(task),
        _ => false,
    }
}

/// What a target runs, as a finding names it; none where it runs no script, recipe or task.
pub open spec fn run_by(target: TargetView) -> Option<Seq<char>> {
    match target {
        TargetView::Npm { script, .. } => Some("script '"@ + script + "'"@),
        TargetView::Pnpm { script, .. } => Some("script '"@ + script + "'"@),
        TargetView::Uv { script: Some(script), .. } => Some("script '"@ + script + "'"@),
        TargetView::Just { recipe, .. } => Some("recipe '"@ + recipe + "'"@),
        TargetView::Mise { task, .. } => Some("task '"@ + task + "'"@),
        _ => None,
    }
}

/// Whether any fact of an app declares what a target runs.
pub open spec fn is_offered(report: ReportView, l: LoadedView, app: AppView, target: TargetView) -> bool {
    exists|k: int|
        0 <= k < report.facts.len() && concerns(l, app, #[trigger] report.facts[k]) && offers(
            report.facts[k],
            target,
        )
}

/// Whether a service runs a script, recipe or task that no fact of its app declares.
pub open spec fn lost_its_target(report: ReportView, l: LoadedView, app: AppView, service: ServiceView) -> bool {
    service.target matches Some(target) && run_by(target) is Some && !is_offered(
        report,
        l,
        app,
        target,
    )
}

/// What is said of a service that lost its target.
pub open spec fn lost_target(service: ServiceView) -> Seq<char> {
    "service '"@ + service.id + "' runs "@ + run_by(service.target.unwrap()).unwrap()
        + ", which discovery no longer finds"@
}

/// Whether a finding is about apps that came or went.
pub open spec fn about_apps(report: ReportView, l: LoadedView, f: DriftView) -> bool {
    ||| !l.root_is_app && exists|dir: Seq<char>| #[trigger]
        is_discovered(report, dir) && !is_listed(l, dir) && says(
            f,
            Severity::Drift,
            "app '"@ + dir + "' exists but is not listed in [workspace].apps"@,
        )
    ||| !l.root_is_app && exists|dir: Seq<char>| #[trigger]
        is_listed(l, dir) && !is_discovered(report, dir) && says(
            f,
            Severity::Drift,
            "[workspace].apps lists '"@ + dir + "', which discovery no longer finds"@,
        )
    ||| l.root_is_app && report.apps.len() > 1 && f.severity == Severity::Drift
}

/// Whether a finding is about compose services that came or went.
pub open spec fn about_compose(report: ReportView, l: LoadedView, f: DriftView) -> bool {
    ||| exists|name: Seq<char>| #[trigger]
        is_referenced(l, name) && !compose_has(report, name) && says(
            f,
            Severity::Drift,
            "manifest references compose service '"@ + name + "', which no longer exists"@,
        )
    ||| exists|name: Seq<char>| #[trigger]
        compose_has(report, name) && !is_referenced(l, name) && says(
            f,
            Severity::Info,
            "compose service '"@ + name + "' is not managed by any manifest"@,
        )
}

/// Whether a finding is about a service that lost its target.
pub open spec fn about_targets(report: ReportView, l: LoadedView, f: DriftView) -> bool {
    exists|a: int, i: int|
        0 <= a < l.apps.len() && 0 <= i < l.apps[a].manifest.services.len() && lost_its_target(
            report,
            l,
            l.apps[a],
            #[trigger] l.apps[a].manifest.services[i],
        ) && says(f, Severity::Drift, lost_target(l.apps[a].manifest.services[i]))
}

proof fn together<T>(a: Seq<T>, b: Seq<T>, x: T)
    ensures
        (a + b).contains(x) <==> a.contains(x) || b.contains(x),
{
    let all = a + b;
    if a.contains(x) {
        let i = choose|i: int| 0 <= i < a.len() && a[i] == x;
        assert(all[i] == x);
    }
    if b.contains(x) {
        let i = choose|i: int| 0 <= i < b.len() && b[i] == x;
        assert(all[a.len() + i] == x);
    }
    if all.contains(x) {
        let i = choose|i: int| 0 <= i < all.len() && all[i] == x;
        if i < a.len() {
            assert(a[i] == x);
        } else {
            assert(b[i - a.len()] == x);
        }
    }
}

proof fn pushed<T>(a: Seq<T>, y: T, x: T)
    ensures
        a.push(y).contains(x) <==> a.contains(x) || x == y,
{
    together(a, seq![y], x);
    assert(a.push(y) =~= a + seq![y]);
    assert(seq![y][0] == y);
}

proof fn declared_dirs_are_listed(l: LoadedView, k: int, dir: Seq<char>)
    requires
        0 <= k <= l.apps.len(),
    ensures
        declared_dirs(l, k).contains(dir) <==> exists|a: int|
            0 <= a < k && rel_of(l.workspace_dir, (#[trigger] l.apps[a]).dir) == dir,
    decreases k,
{
    if k > 0 {
        declared_dirs_are_listed(l, k - 1, dir);
        let own = rel_of(l.workspace_dir, l.apps[k - 1].dir);
        dict::members_are_added(declared_dirs(l, k - 1), own, dir);
    }
}

proof fn discovered_dirs_are_found(report: ReportView, k: int, dir: Seq<char>)
    requires
        0 <= k <= report.apps.len(),
    ensures
        discovered_dirs(report, k).contains(dir) <==> exists|a: int|
            0 <= a < k && (#[trigger] report.apps[a]).dir == dir,
    decreases k,
{
    if k > 0 {
        discovered_dirs_are_found(report, k - 1, dir);
        dict::members_are_added(discovered_dirs(report, k - 1), report.apps[k - 1].dir, dir);
    }
}

proof fn differences(a: Seq<Seq<char>>, b: Seq<Seq<char>>, k: int, x: Seq<char>)
    requires
        0 <= k <= a.len(),
    ensures
        difference(a, b, k).contains(x) <==> a.take(k).contains(x) && !b.contains(x),
    decreases k,
{
    if k == 0 {
        assert(a.take(0).len() == 0);
    } else {
        differences(a, b, k - 1, x);
        pushed(difference(a, b, k - 1), a[k - 1], x);
        assert(a.take(k) =~= a.take(k - 1).push(a[k - 1]));
        pushed(a.take(k - 1), a[k - 1], x);
    }
}

proof fn only_in_is_the_rest(a: Seq<Seq<char>>, b: Seq<Seq<char>>, x: Seq<char>)
    ensures
        only_in(a, b).contains(x) <==> a.contains(x) && !b.contains(x),
{
    differences(a, b, a.len() as int, x);
    assert(a.take(a.len() as int) =~= a);
}

proof fn each_is_said(
    names: Seq<Seq<char>>,
    severity: Severity,
    before: Seq<char>,
    after: Seq<char>,
    suggestion: spec_fn(Seq<char>) -> Seq<char>,
    k: int,
)
    requires
        0 <= k <= names.len(),
    ensures
        ({
            let out = each(names, severity, before, after, suggestion, k);
            &&& out.len() == k
            &&& forall|i: int|
                0 <= i < k ==> says(#[trigger] out[i], severity, before + names[i] + after)
        }),
    decreases k,
{
    if k > 0 {
        each_is_said(names, severity, before, after, suggestion, k - 1);
    }
}

proof fn apps_are_compared(report: ReportView, l: LoadedView)
    ensures
        forall|k: int|
            0 <= k < app_drift(report, l).len() ==> about_apps(
                report,
                l,
                #[trigger] app_drift(report, l)[k],
            ),
        !l.root_is_app ==> forall|dir: Seq<char>| #[trigger]
            is_discovered(report, dir) && !is_listed(l, dir) ==> reported(
                app_drift(report, l),
                Severity::Drift,
                "app '"@ + dir + "' exists but is not listed in [workspace].apps"@,
            ),
        !l.root_is_app ==> forall|dir: Seq<char>| #[trigger]
            is_listed(l, dir) && !is_discovered(report, dir) ==> reported(
                app_drift(report, l),
                Severity::Drift,
                "[workspace].apps lists '"@ + dir + "', which discovery no longer finds"@,
            ),
        l.root_is_app && report.apps.len() > 1 ==> app_drift(report, l).len() > 0
            && app_drift(report, l)[0].severity == Severity::Drift,
{
    let out = app_drift(report, l);
    let declared = declared_dirs(l, l.apps.len() as int);
    let discovered = discovered_dirs(report, report.apps.len() as int);
    assert forall|dir: Seq<char>| #[trigger] declared.contains(dir) <==> is_listed(l, dir) by {
        declared_dirs_are_listed(l, l.apps.len() as int, dir);
    }
    assert forall|dir: Seq<char>| #[trigger] discovered.contains(dir) <==> is_discovered(
        report,
        dir,
    ) by {
        discovered_dirs_are_found(report, report.apps.len() as int, dir);
    }
    if !l.root_is_app {
        let extra = only_in(discovered, declared);
        let gone = only_in(declared, discovered);
        let a = each(
            extra,
            Severity::Drift,
            "app '"@,
            "' exists but is not listed in [workspace].apps"@,
            listing_advice(),
            extra.len() as int,
        );
        let b = each(
            gone,
            Severity::Drift,
            "[workspace].apps lists '"@,
            "', which discovery no longer finds"@,
            always("remove it from [workspace].apps"@),
            gone.len() as int,
        );
        each_is_said(
            extra,
            Severity::Drift,
            "app '"@,
            "' exists but is not listed in [workspace].apps"@,
            listing_advice(),
            extra.len() as int,
        );
        each_is_said(
            gone,
            Severity::Drift,
            "[workspace].apps lists '"@,
            "', which discovery no longer finds"@,
            always("remove it from [workspace].apps"@),
            gone.len() as int,
        );
        assert(out == a + b);
        assert forall|k: int| 0 <= k < out.len() implies about_apps(report, l, #[trigger] out[k]) by {
            if k < a.len() {
                assert(out[k] == a[k]);
                only_in_is_the_rest(discovered, declared, extra[k]);
                assert(extra.contains(extra[k]));
                assert(declared.contains(extra[k]) <==> is_listed(l, extra[k]));
                assert(is_discovered(report, extra[k]));
            } else {
                let m = k - a.len();
                assert(out[k] == b[m]);
                only_in_is_the_rest(declared, discovered, gone[m]);
                assert(gone.contains(gone[m]));
                assert(discovered.contains(gone[m]) <==> is_discovered(report, gone[m]));
                assert(is_listed(l, gone[m]));
            }
        }
        assert forall|dir: Seq<char>| #[trigger]
            is_discovered(report, dir) && !is_listed(l, dir) implies reported(
            out,
            Severity::Drift,
            "app '"@ + dir + "' exists but is not listed in [workspace].apps"@,
        ) by {
            assert(discovered.contains(dir) && !declared.contains(dir));
            only_in_is_the_rest(discovered, declared, dir);
            let m = choose|m: int| 0 <= m < extra.len() && extra[m] == dir;
            assert(out[m] == a[m]);
        }
        assert forall|dir: Seq<char>| #[trigger]
            is_listed(l, dir) && !is_discovered(report, dir) implies reported(
            out,
            Severity::Drift,
            "[workspace].apps lists '"@ + dir + "', which discovery no longer finds"@,
        ) by {
            assert(declared.contains(dir) && !discovered.contains(dir));
            only_in_is_the_rest(declared, discovered, dir);
            let m = choose|m: int| 0 <= m < gone.len() && gone[m] == dir;
            assert(out[a.len() + m] == b[m]);
        }
    }
}

proof fn names_are_added(
    names: Seq<Seq<char>>,
    services: Seq<crate::discover::report::ComposeServiceFactView>,
    k: int,
    x: Seq<char>,
)
    requires
        0 <= k <= services.len(),
    ensures
        with_names(names, services, k).contains(x) <==> names.contains(x) || exists|i: int|
            0 <= i < k && (#[trigger] services[i]).name == x,
    decreases k,
{
    if k > 0 {
        names_are_added(names, services, k - 1, x);
        dict::members_are_added(with_names(names, services, k - 1), services[k - 1].name, x);
    }
}

proof fn discovered_compose_is_declared(facts: Seq<FactView>, k: int, x: Seq<char>)
    requires
        0 <= k <= facts.len(),
    ensures
        discovered_compose(facts, k).contains(x) <==> exists|i: int|
            0 <= i < k && fact_has(#[trigger] facts[i], x),
    decreases k,
{
    if k > 0 {
        discovered_compose_is_declared(facts, k - 1, x);
        if let FactDataView::Compose { services, .. } = facts[k - 1].data {
            names_are_added(
                discovered_compose(facts, k - 1),
                services,
                services.len() as int,
                x,
            );
        }
        assert(discovered_compose(facts, k).contains(x) <==> discovered_compose(
            facts,
            k - 1,
        ).contains(x) || fact_has(facts[k - 1], x));
    }
}

proof fn referenced_compose_is_referenced(services: Seq<ServiceView>, k: int, x: Seq<char>)
    requires
        0 <= k <= services.len(),
    ensures
        referenced_compose(services, k).contains(x) <==> exists|i: int|
            0 <= i < k && references(#[trigger] services[i], x),
    decreases k,
{
    if k > 0 {
        referenced_compose_is_referenced(services, k - 1, x);
        if let Some(reference) = services[k - 1].compose {
            dict::members_are_added(referenced_compose(services, k - 1), reference.service, x);
        }
        assert(referenced_compose(services, k).contains(x) <==> referenced_compose(
            services,
            k - 1,
        ).contains(x) || references(services[k - 1], x));
    }
}

proof fn apps_services_are_there(l: LoadedView, k: int, x: ServiceView)
    requires
        0 <= k <= l.apps.len(),
    ensures
        app_services(l, k).contains(x) <==> exists|a: int|
            0 <= a < k && (#[trigger] l.apps[a]).manifest.services.contains(x),
    decreases k,
{
    if k > 0 {
        apps_services_are_there(l, k - 1, x);
        together(app_services(l, k - 1), l.apps[k - 1].manifest.services, x);
    }
}

/// The services of a set of manifests are those of its apps and those of the workspace.
proof fn services_are_there(l: LoadedView, x: ServiceView)
    ensures
        all_services(l).contains(x) <==> (exists|a: int|
            0 <= a < l.apps.len() && (#[trigger] l.apps[a]).manifest.services.contains(x))
            || l.workspace.services.contains(x),
{
    apps_services_are_there(l, l.apps.len() as int, x);
    together(app_services(l, l.apps.len() as int), l.workspace.services, x);
}

proof fn references_are_there(l: LoadedView, name: Seq<char>)
    ensures
        is_referenced(l, name) <==> exists|i: int|
            0 <= i < all_services(l).len() && references(#[trigger] all_services(l)[i], name),
{
    let all = all_services(l);
    if is_referenced(l, name) {
        if exists|a: int, i: int|
            0 <= a < l.apps.len() && 0 <= i < l.apps[a].manifest.services.len() && references(
                #[trigger] l.apps[a].manifest.services[i],
                name,
            ) {
            let (a, i) = choose|a: int, i: int|
                0 <= a < l.apps.len() && 0 <= i < l.apps[a].manifest.services.len() && references(
                    #[trigger] l.apps[a].manifest.services[i],
                    name,
                );
            let x = l.apps[a].manifest.services[i];
            assert(l.apps[a].manifest.services.contains(x));
            services_are_there(l, x);
            let m = choose|m: int| 0 <= m < all.len() && all[m] == x;
            assert(references(all[m], name));
        } else {
            let i = choose|i: int|
                0 <= i < l.workspace.services.len() && references(
                    #[trigger] l.workspace.services[i],
                    name,
                );
            let x = l.workspace.services[i];
            services_are_there(l, x);
            let m = choose|m: int| 0 <= m < all.len() && all[m] == x;
            assert(references(all[m], name));
        }
    }
    if exists|i: int| 0 <= i < all.len() && references(#[trigger] all[i], name) {
        let i = choose|i: int| 0 <= i < all.len() && references(#[trigger] all[i], name);
        let x = all[i];
        assert(all.contains(x));
        services_are_there(l, x);
        if l.workspace.services.contains(x) {
            let m = choose|m: int| 0 <= m < l.workspace.services.len() && l.workspace.services[m] == x;
            assert(references(l.workspace.services[m], name));
        } else {
            let a = choose|a: int|
                0 <= a < l.apps.len() && (#[trigger] l.apps[a]).manifest.services.contains(x);
            let list = l.apps[a].manifest.services;
            let m = choose|m: int| 0 <= m < list.len() && list[m] == x;
            assert(references(l.apps[a].manifest.services[m], name));
        }
    }
}

proof fn compose_is_compared(report: ReportView, l: LoadedView)
    ensures
        forall|k: int|
            0 <= k < compose_drift(report, l).len() ==> about_compose(
                report,
                l,
                #[trigger] compose_drift(report, l)[k],
            ),
        forall|name: Seq<char>| #[trigger]
            is_referenced(l, name) && !compose_has(report, name) ==> reported(
                compose_drift(report, l),
                Severity::Drift,
                "manifest references compose service '"@ + name + "', which no longer exists"@,
            ),
        forall|name: Seq<char>| #[trigger]
            compose_has(report, name) && !is_referenced(l, name) ==> reported(
                compose_drift(report, l),
                Severity::Info,
                "compose service '"@ + name + "' is not managed by any manifest"@,
            ),
{
    let out = compose_drift(report, l);
    let discovered = discovered_compose(report.facts, report.facts.len() as int);
    let services = all_services(l);
    let referenced = referenced_compose(services, services.len() as int);
    let gone = only_in(referenced, discovered);
    let extra = only_in(discovered, referenced);
    assert forall|x: Seq<char>| #[trigger] discovered.contains(x) <==> compose_has(report, x) by {
        discovered_compose_is_declared(report.facts, report.facts.len() as int, x);
    }
    assert forall|x: Seq<char>| #[trigger] referenced.contains(x) <==> is_referenced(l, x) by {
        referenced_compose_is_referenced(services, services.len() as int, x);
        references_are_there(l, x);
    }
    let a = each(
        gone,
        Severity::Drift,
        "manifest references compose service '"@,
        "', which no longer exists"@,
        always("remove that service from magictree.toml, or restore it in the compose file"@),
        gone.len() as int,
    );
    let b = each(
        extra,
        Severity::Info,
        "compose service '"@,
        "' is not managed by any manifest"@,
        always("leave it if it is optional tooling, or add it to a manifest"@),
        extra.len() as int,
    );
    each_is_said(
        gone,
        Severity::Drift,
        "manifest references compose service '"@,
        "', which no longer exists"@,
        always("remove that service from magictree.toml, or restore it in the compose file"@),
        gone.len() as int,
    );
    each_is_said(
        extra,
        Severity::Info,
        "compose service '"@,
        "' is not managed by any manifest"@,
        always("leave it if it is optional tooling, or add it to a manifest"@),
        extra.len() as int,
    );
    assert(out == a + b);
    assert forall|k: int| 0 <= k < out.len() implies about_compose(report, l, #[trigger] out[k]) by {
        if k < a.len() {
            assert(out[k] == a[k]);
            only_in_is_the_rest(referenced, discovered, gone[k]);
            assert(gone.contains(gone[k]));
            assert(discovered.contains(gone[k]) <==> compose_has(report, gone[k]));
            assert(is_referenced(l, gone[k]));
        } else {
            let m = k - a.len();
            assert(out[k] == b[m]);
            only_in_is_the_rest(discovered, referenced, extra[m]);
            assert(extra.contains(extra[m]));
            assert(referenced.contains(extra[m]) <==> is_referenced(l, extra[m]));
            assert(compose_has(report, extra[m]));
        }
    }
    assert forall|name: Seq<char>| #[trigger]
        is_referenced(l, name) && !compose_has(report, name) implies reported(
        out,
        Severity::Drift,
        "manifest references compose service '"@ + name + "', which no longer exists"@,
    ) by {
        assert(referenced.contains(name) && !discovered.contains(name));
        only_in_is_the_rest(referenced, discovered, name);
        let m = choose|m: int| 0 <= m < gone.len() && gone[m] == name;
        assert(out[m] == a[m]);
    }
    assert forall|name: Seq<char>| #[trigger]
        compose_has(report, name) && !is_referenced(l, name) implies reported(
        out,
        Severity::Info,
        "compose service '"@ + name + "' is not managed by any manifest"@,
    ) by {
        assert(discovered.contains(name) && !referenced.contains(name));
        only_in_is_the_rest(discovered, referenced, name);
        let m = choose|m: int| 0 <= m < extra.len() && extra[m] == name;
        assert(out[a.len() + m] == b[m]);
    }
}

proof fn own_facts(facts: Seq<FactView>, app: Seq<char>, rel: Seq<char>, k: int, x: FactView)
    requires
        0 <= k <= facts.len(),
    ensures
        app_facts_upto(facts, app, rel, k).contains(x) <==> (x.app == Some(app) || rel == "."@)
            && exists|i: int| 0 <= i < k && #[trigger] facts[i] == x,
    decreases k,
{
    if k > 0 {
        own_facts(facts, app, rel, k - 1, x);
        pushed(app_facts_upto(facts, app, rel, k - 1), facts[k - 1], x);
        if exists|i: int| 0 <= i < k && #[trigger] facts[i] == x {
            let i = choose|i: int| 0 <= i < k && #[trigger] facts[i] == x;
            if i < k - 1 {
                assert(facts[i] == x);
            }
        }
    }
}

proof fn missing_is_not_offered(report: ReportView, l: LoadedView, app: AppView, target: TargetView)
    ensures
        missing_of(target, facts_of(report, l, app)) == (if run_by(target) is Some && !is_offered(
            report,
            l,
            app,
            target,
        ) {
            run_by(target)
        } else {
            None
        }),
{
    let facts = facts_of(report, l, app);
    let rel = rel_of(l.workspace_dir, app.dir);
    let n = report.facts.len() as int;
    let found = exists|i: int| 0 <= i < facts.len() && offers(#[trigger] facts[i], target);
    if found {
        let i = choose|i: int| 0 <= i < facts.len() && offers(#[trigger] facts[i], target);
        assert(facts.contains(facts[i]));
        own_facts(report.facts, app.id, rel, n, facts[i]);
        let k = choose|k: int| 0 <= k < n && #[trigger] report.facts[k] == facts[i];
        assert(concerns(l, app, report.facts[k]) && offers(report.facts[k], target));
    }
    if is_offered(report, l, app, target) {
        let k = choose|k: int|
            0 <= k < n && concerns(l, app, #[trigger] report.facts[k]) && offers(
                report.facts[k],
                target,
            );
        own_facts(report.facts, app.id, rel, n, report.facts[k]);
        let i = choose|i: int| 0 <= i < facts.len() && facts[i] == report.facts[k];
        assert(offers(facts[i], target));
    }
    assert(found <==> is_offered(report, l, app, target));
    match target {
        TargetView::Npm { script, .. } => {
            assert forall|i: int| 0 <= i < facts.len() implies (offers(#[trigger] facts[i], target)
                <==> declares_script(facts[i], script)) by {}
        },
        TargetView::Pnpm { script, .. } => {
            assert forall|i: int| 0 <= i < facts.len() implies (offers(#[trigger] facts[i], target)
                <==> declares_script(facts[i], script)) by {}
        },
        TargetView::Uv { script: Some(script), .. } => {
            assert forall|i: int| 0 <= i < facts.len() implies (offers(#[trigger] facts[i], target)
                <==> declares_script(facts[i], script)) by {}
        },
        TargetView::Just { recipe, .. } => {
            assert forall|i: int| 0 <= i < facts.len() implies (offers(#[trigger] facts[i], target)
                <==> declares_recipe(facts[i], recipe)) by {}
        },
        TargetView::Mise { task, .. } => {
            assert forall|i: int| 0 <= i < facts.len() implies (offers(#[trigger] facts[i], target)
                <==> declares_task(facts[i], task)) by {}
        },
        _ => {},
    }
}

proof fn target_findings(report: ReportView, l: LoadedView, app: AppView, service: ServiceView)
    ensures
        ({
            let own = target_finding(
                service,
                facts_of(report, l, app),
                rel_of(l.workspace_dir, app.dir),
            );
            &&& own.len() == (if lost_its_target(report, l, app, service) {
                1nat
            } else {
                0nat
            })
            &&& own.len() > 0 ==> says(own[0], Severity::Drift, lost_target(service))
        }),
{
    if let Some(target) = service.target {
        missing_is_not_offered(report, l, app, target);
    }
}

proof fn one_apps_targets(report: ReportView, l: LoadedView, a: int, k: int)
    requires
        0 <= a < l.apps.len(),
        0 <= k <= l.apps[a].manifest.services.len(),
    ensures
        ({
            let app = l.apps[a];
            let out = targets_upto(
                app.manifest.services,
                facts_of(report, l, app),
                rel_of(l.workspace_dir, app.dir),
                k,
            );
            &&& forall|m: int|
                0 <= m < out.len() ==> about_targets(report, l, #[trigger] out[m])
            &&& forall|i: int|
                0 <= i < k && lost_its_target(
                    report,
                    l,
                    app,
                    #[trigger] l.apps[a].manifest.services[i],
                ) ==> reported(out, Severity::Drift, lost_target(app.manifest.services[i]))
        }),
    decreases k,
{
    if k > 0 {
        one_apps_targets(report, l, a, k - 1);
        let app = l.apps[a];
        let facts = facts_of(report, l, app);
        let rel = rel_of(l.workspace_dir, app.dir);
        let before = targets_upto(app.manifest.services, facts, rel, k - 1);
        let service = l.apps[a].manifest.services[k - 1];
        let own = target_finding(service, facts, rel);
        let out = targets_upto(app.manifest.services, facts, rel, k);
        target_findings(report, l, app, service);
        assert forall|m: int| 0 <= m < out.len() implies about_targets(report, l, #[trigger] out[m]) by {
            if m < before.len() {
                assert(out[m] == before[m]);
            } else {
                assert(out[m] == own[0]);
                assert(lost_its_target(report, l, l.apps[a], l.apps[a].manifest.services[k - 1]));
            }
        }
        assert forall|i: int|
            0 <= i < k && lost_its_target(
                report,
                l,
                app,
                #[trigger] l.apps[a].manifest.services[i],
            ) implies reported(out, Severity::Drift, lost_target(app.manifest.services[i])) by {
            if i < k - 1 {
                let m = choose|m: int|
                    0 <= m < before.len() && (#[trigger] before[m]).severity == Severity::Drift
                        && before[m].summary == lost_target(app.manifest.services[i]);
                assert(out[m] == before[m]);
            } else {
                assert(out[before.len() as int] == own[0]);
            }
        }
    }
}

proof fn targets_are_compared(report: ReportView, l: LoadedView, k: int)
    requires
        0 <= k <= l.apps.len(),
    ensures
        forall|m: int|
            0 <= m < target_drift(report, l, k).len() ==> about_targets(
                report,
                l,
                #[trigger] target_drift(report, l, k)[m],
            ),
        forall|a: int, i: int|
            0 <= a < k && 0 <= i < l.apps[a].manifest.services.len() && lost_its_target(
                report,
                l,
                l.apps[a],
                #[trigger] l.apps[a].manifest.services[i],
            ) ==> reported(
                target_drift(report, l, k),
                Severity::Drift,
                lost_target(l.apps[a].manifest.services[i]),
            ),
    decreases k,
{
    if k > 0 {
        targets_are_compared(report, l, k - 1);
        let app = l.apps[k - 1];
        let n = app.manifest.services.len() as int;
        one_apps_targets(report, l, k - 1, n);
        let before = target_drift(report, l, k - 1);
        let own = targets_upto(
            app.manifest.services,
            facts_of(report, l, app),
            rel_of(l.workspace_dir, app.dir),
            n,
        );
        let out = target_drift(report, l, k);
        assert(out == before + own);
        assert forall|m: int| 0 <= m < out.len() implies about_targets(report, l, #[trigger] out[m]) by {
            if m < before.len() {
                assert(out[m] == before[m]);
            } else {
                assert(out[m] == own[m - before.len()]);
            }
        }
        assert forall|a: int, i: int|
            0 <= a < k && 0 <= i < l.apps[a].manifest.services.len() && lost_its_target(
                report,
                l,
                l.apps[a],
                #[trigger] l.apps[a].manifest.services[i],
            ) implies reported(
            out,
            Severity::Drift,
            lost_target(l.apps[a].manifest.services[i]),
        ) by {
            let summary = lost_target(l.apps[a].manifest.services[i]);
            if a < k - 1 {
                assert(reported(before, Severity::Drift, summary));
                reported_stays(before, own, Severity::Drift, summary);
            } else {
                assert(reported(own, Severity::Drift, summary));
                reported_stays(before, own, Severity::Drift, summary);
            }
        }
    }
}

proof fn reported_stays(a: Seq<DriftView>, b: Seq<DriftView>, severity: Severity, summary: Seq<char>)
    ensures
        reported(a + b, severity, summary) <==> reported(a, severity, summary) || reported(
            b,
            severity,
            summary,
        ),
{
    let all = a + b;
    if reported(a, severity, summary) {
        let k = choose|k: int|
            0 <= k < a.len() && (#[trigger] a[k]).severity == severity && a[k].summary == summary;
        assert(all[k] == a[k]);
    }
    if reported(b, severity, summary) {
        let k = choose|k: int|
            0 <= k < b.len() && (#[trigger] b[k]).severity == severity && b[k].summary == summary;
        assert(all[a.len() + k] == b[k]);
    }
    if reported(all, severity, summary) {
        let k = choose|k: int|
            0 <= k < all.len() && (#[trigger] all[k]).severity == severity && all[k].summary
                == summary;
        if k < a.len() {
            assert(a[k] == all[k]);
        } else {
            assert(b[k - a.len()] == all[k]);
        }
    }
}

/// Whether a justfile of an app reads a variable from the environment.
pub open spec fn is_read(report: ReportView, l: LoadedView, app: AppView, variable: Seq<char>) -> bool {
    exists|k: int|
        0 <= k < report.facts.len() && concerns(l, app, #[trigger] report.facts[k]) && (
        report.facts[k].data matches FactDataView::Just { env_variables, .. }
            && env_variables.contains(variable))
}

/// Whether a justfile of an app sets a variable for a recipe.
pub open spec fn is_set(report: ReportView, l: LoadedView, app: AppView, variable: Seq<char>) -> bool {
    exists|k: int|
        0 <= k < report.facts.len() && concerns(l, app, #[trigger] report.facts[k]) && (
        report.facts[k].data matches FactDataView::Just { exported_parameters, .. }
            && exported_parameters.contains(variable))
}

/// Whether a variable is the one that carries the port of a service: that of its first port
/// declaration that names one.
pub open spec fn carries_port(service: ServiceView, variable: Seq<char>) -> bool {
    if service.port matches Some(port) && port.env is Some {
        service.port.unwrap().env == Some(variable)
    } else {
        exists|i: int|
            0 <= i < service.ports.len() && (#[trigger] service.ports[i]).env == Some(variable)
                && forall|j: int| 0 <= j < i ==> (#[trigger] service.ports[j]).env is None
    }
}

/// Whether a service takes its port from a variable that its justfiles set and never read.
pub open spec fn cannot_read_its_port(
    report: ReportView,
    l: LoadedView,
    app: AppView,
    service: ServiceView,
    variable: Seq<char>,
) -> bool {
    service.expose != Expose::Nothing && carries_port(service, variable) && is_set(
        report,
        l,
        app,
        variable,
    ) && !is_read(report, l, app, variable)
}

/// What is said of such a service.
pub open spec fn unread_port(service: ServiceView, variable: Seq<char>) -> Seq<char> {
    "service '"@ + service.id + "' takes its port from '"@ + variable
        + "', but the justfile only sets that variable for a recipe; it never reads it from the environment"@
}

/// Whether a finding is about a service that cannot read its port.
pub open spec fn about_variables(report: ReportView, l: LoadedView, f: DriftView) -> bool {
    exists|a: int, i: int, v: Seq<char>|
        0 <= a < l.apps.len() && 0 <= i < l.apps[a].manifest.services.len()
            && #[trigger] cannot_read_its_port(
            report,
            l,
            l.apps[a],
            l.apps[a].manifest.services[i],
            v,
        ) && says(f, Severity::Drift, unread_port(l.apps[a].manifest.services[i], v))
}

/// Whether a command line that magictree itself starts for a service pins a port.
pub open spec fn command_pins(service: ServiceView) -> bool {
    own_command(service) matches Some(command) && ports::scan_of(command).len() > 0
}

/// Whether a file of an app pins a port in the step that a service runs.
pub open spec fn step_pins(report: ReportView, l: LoadedView, app: AppView, service: ServiceView) -> bool {
    service_step(service) matches Some((kind, word, name)) && exists|k: int, i: int|
        0 <= k < report.facts.len() && concerns(l, app, report.facts[k]) && report.facts[k].kind
            == kind && 0 <= i < ports::literals_in(report.facts[k]).len() && (
        #[trigger] ports::literals_in(report.facts[k])[i]).container == Some(name)
}

/// Whether a finding is about a service that pins a port.
pub open spec fn about_pins(report: ReportView, l: LoadedView, f: DriftView) -> bool {
    f.severity == Severity::Drift && exists|a: int, i: int|
        0 <= a < l.apps.len() && 0 <= i < l.apps[a].manifest.services.len() && text::starts_with_of(
            f.summary,
            "service '"@ + (#[trigger] l.apps[a].manifest.services[i]).id + "' runs "@,
        ) && (command_pins(l.apps[a].manifest.services[i]) || step_pins(
            report,
            l,
            l.apps[a],
            l.apps[a].manifest.services[i],
        ))
}

/// Whether a finding is about a port that some file pins.
pub open spec fn about_literals(report: ReportView, f: DriftView) -> bool {
    f.severity == Severity::Info && exists|k: int, i: int|
        0 <= k < report.facts.len() && 0 <= i < ports::literals_in(report.facts[k]).len()
            && text::starts_with_of(
            f.summary,
            report.facts[k].source + " pins port "@ + text::decimal_of(
                (#[trigger] ports::literals_in(report.facts[k])[i]).port as nat,
            ),
        )
}

/// Whether a path is that of a manifest.
pub open spec fn is_manifest_file(l: LoadedView, path: Seq<char>) -> bool {
    path == paths::join_of(l.workspace_dir, "magictree.toml"@) || exists|a: int|
        0 <= a < l.apps.len() && path == paths::join_of(
            (#[trigger] l.apps[a]).dir,
            "magictree.toml"@,
        )
}

/// Whether a finding is about a manifest that git does not track.
pub open spec fn about_tracking(l: LoadedView, untracked: Seq<Seq<char>>, f: DriftView) -> bool {
    exists|path: Seq<char>| #[trigger]
        is_manifest_file(l, path) && untracked.contains(path) && says(
            f,
            Severity::Drift,
            paths::display_relative_of(path, l.workspace_dir)
                + " is not committed, so new worktrees will not inherit it"@,
        )
}

/// Whether a manifest in `dir` declares a bootstrap step that reads an input.
pub open spec fn reads_input(m: ManifestView, step: RunStepView, input: Seq<char>) -> bool {
    m.bootstrap.run.contains(step) && (step matches RunStepView::Detailed { inputs, .. }
        && inputs.contains(input))
}

/// What is said of an input that does not exist.
pub open spec fn lost_input(step: RunStepView, input: Seq<char>) -> Seq<char> {
    "bootstrap input '"@ + input + "' for `"@ + step.command_of() + "` does not exist"@
}

/// Whether a finding is about a bootstrap input that does not exist.
pub open spec fn about_inputs(l: LoadedView, missing: Seq<Seq<char>>, f: DriftView) -> bool {
    exists|dir: Seq<char>, m: ManifestView, step: RunStepView, input: Seq<char>|
        is_loaded(l, dir, m) && #[trigger] reads_input(m, step, input) && missing.contains(
            #[trigger] paths::join_of(dir, input),
        ) && says(f, Severity::Drift, lost_input(step, input))
}

/// Whether a manifest was loaded from a directory.
pub open spec fn is_loaded(l: LoadedView, dir: Seq<char>, m: ManifestView) -> bool {
    (dir == l.workspace_dir && m == l.workspace) || exists|a: int|
        0 <= a < l.apps.len() && (#[trigger] l.apps[a]).dir == dir && l.apps[a].manifest == m
}

/// Whether a compose service publishes a port without naming the container's.
pub open spec fn lacks_target(service: ServiceView) -> bool {
    service.expose == Expose::Port && service.compose is Some && (service.port matches Some(
        port,
    ) ==> port.target is None) && forall|i: int|
        0 <= i < service.ports.len() ==> (#[trigger] service.ports[i]).target is None
}

/// Whether a service is declared anywhere.
pub open spec fn is_service_of(l: LoadedView, service: ServiceView) -> bool {
    l.workspace.services.contains(service) || exists|a: int|
        0 <= a < l.apps.len() && (#[trigger] l.apps[a]).manifest.services.contains(service)
}

/// Whether a finding is about a compose service that publishes no container port.
pub open spec fn about_exposed(l: LoadedView, f: DriftView) -> bool {
    exists|service: ServiceView| #[trigger]
        is_service_of(l, service) && lacks_target(service) && says(
            f,
            Severity::Drift,
            "compose service '"@ + service.id + "' exposes a port but has no port.target"@,
        )
}

proof fn first_env_carries(service: ServiceView, variable: Seq<char>)
    ensures
        first_env(service.ports_of(), 0) == Some(variable) <==> carries_port(service, variable),
{
    let all = service.ports_of();
    let shift: int = if service.port is Some {
        1
    } else {
        0
    };
    assert forall|i: int| 0 <= i < service.ports.len() implies #[trigger] all[i + shift].env
        == service.ports[i].env by {}
    first_env_from(all, 0, variable);
    if service.port matches Some(port) && port.env is Some {
        assert(all[0].env == service.port.unwrap().env);
    } else {
        if carries_port(service, variable) {
            let i = choose|i: int|
                0 <= i < service.ports.len() && (#[trigger] service.ports[i]).env == Some(variable)
                    && forall|j: int| 0 <= j < i ==> (#[trigger] service.ports[j]).env is None;
            assert(all[i + shift].env == Some(variable));
            assert forall|j: int| 0 <= j < i + shift implies (#[trigger] all[j]).env is None by {
                if j >= shift {
                    assert(all[j - shift + shift].env == service.ports[j - shift].env);
                }
            }
        }
        if first_env(all, 0) == Some(variable) {
            let i = choose|i: int|
                0 <= i < all.len() && (#[trigger] all[i]).env == Some(variable) && forall|j: int|
                    0 <= j < i ==> (#[trigger] all[j]).env is None;
            let m = i - shift;
            assert(all[m + shift].env == service.ports[m].env);
            assert forall|j: int| 0 <= j < m implies (#[trigger] service.ports[j]).env is None by {
                assert(all[j + shift].env is None);
            }
        }
    }
}

proof fn first_env_from(ports: Seq<PortSpecView>, k: int, variable: Seq<char>)
    requires
        0 <= k <= ports.len(),
    ensures
        first_env(ports, k) == Some(variable) <==> exists|i: int|
            k <= i < ports.len() && (#[trigger] ports[i]).env == Some(variable) && forall|j: int|
                k <= j < i ==> (#[trigger] ports[j]).env is None,
    decreases ports.len() - k,
{
    if k < ports.len() {
        first_env_from(ports, k + 1, variable);
        if ports[k].env is None {
            if exists|i: int|
                k <= i < ports.len() && (#[trigger] ports[i]).env == Some(variable) && forall|j: int|
                    k <= j < i ==> (#[trigger] ports[j]).env is None {
                let i = choose|i: int|
                    k <= i < ports.len() && (#[trigger] ports[i]).env == Some(variable)
                        && forall|j: int| k <= j < i ==> (#[trigger] ports[j]).env is None;
                assert(k + 1 <= i);
            }
            if exists|i: int|
                k + 1 <= i < ports.len() && (#[trigger] ports[i]).env == Some(variable)
                    && forall|j: int| k + 1 <= j < i ==> (#[trigger] ports[j]).env is None {
                let i = choose|i: int|
                    k + 1 <= i < ports.len() && (#[trigger] ports[i]).env == Some(variable)
                        && forall|j: int| k + 1 <= j < i ==> (#[trigger] ports[j]).env is None;
                assert(ports[i].env == Some(variable));
            }
        } else if ports[k].env == Some(variable) {
            assert(ports[k].env == Some(variable));
        } else if exists|i: int|
            k <= i < ports.len() && (#[trigger] ports[i]).env == Some(variable) && forall|j: int|
                k <= j < i ==> (#[trigger] ports[j]).env is None {
            let i = choose|i: int|
                k <= i < ports.len() && (#[trigger] ports[i]).env == Some(variable) && forall|j: int|
                    k <= j < i ==> (#[trigger] ports[j]).env is None;
            assert(ports[k].env is None);
        }
    }
}

proof fn reading_and_setting(report: ReportView, l: LoadedView, app: AppView, variable: Seq<char>)
    ensures
        reads(facts_of(report, l, app), variable) <==> is_read(report, l, app, variable),
        sets(facts_of(report, l, app), variable) <==> is_set(report, l, app, variable),
{
    let facts = facts_of(report, l, app);
    let rel = rel_of(l.workspace_dir, app.dir);
    let n = report.facts.len() as int;
    if reads(facts, variable) {
        let i = choose|i: int| 0 <= i < facts.len() && reads_in(#[trigger] facts[i], variable);
        assert(facts.contains(facts[i]));
        own_facts(report.facts, app.id, rel, n, facts[i]);
        let k = choose|k: int| 0 <= k < n && #[trigger] report.facts[k] == facts[i];
        assert(concerns(l, app, report.facts[k]));
    }
    if sets(facts, variable) {
        let i = choose|i: int| 0 <= i < facts.len() && sets_in(#[trigger] facts[i], variable);
        assert(facts.contains(facts[i]));
        own_facts(report.facts, app.id, rel, n, facts[i]);
        let k = choose|k: int| 0 <= k < n && #[trigger] report.facts[k] == facts[i];
        assert(concerns(l, app, report.facts[k]));
    }
    if is_read(report, l, app, variable) {
        let k = choose|k: int|
            0 <= k < report.facts.len() && concerns(l, app, #[trigger] report.facts[k]) && (
            report.facts[k].data matches FactDataView::Just { env_variables, .. }
                && env_variables.contains(variable));
        own_facts(report.facts, app.id, rel, n, report.facts[k]);
        let i = choose|i: int| 0 <= i < facts.len() && facts[i] == report.facts[k];
        assert(reads_in(facts[i], variable));
    }
    if is_set(report, l, app, variable) {
        let k = choose|k: int|
            0 <= k < report.facts.len() && concerns(l, app, #[trigger] report.facts[k]) && (
            report.facts[k].data matches FactDataView::Just { exported_parameters, .. }
                && exported_parameters.contains(variable));
        own_facts(report.facts, app.id, rel, n, report.facts[k]);
        let i = choose|i: int| 0 <= i < facts.len() && facts[i] == report.facts[k];
        assert(sets_in(facts[i], variable));
    }
}

proof fn variable_findings(
    report: ReportView,
    l: LoadedView,
    app: AppView,
    service: ServiceView,
    variable: Seq<char>,
)
    ensures
        ({
            let own = variable_finding(
                service,
                facts_of(report, l, app),
                rel_of(l.workspace_dir, app.dir),
            );
            &&& own.len() <= 1
            &&& cannot_read_its_port(report, l, app, service, variable) ==> own.len() == 1 && says(
                own[0],
                Severity::Drift,
                unread_port(service, variable),
            )
            &&& own.len() == 1 ==> exists|v: Seq<char>| #[trigger]
                cannot_read_its_port(report, l, app, service, v) && says(
                    own[0],
                    Severity::Drift,
                    unread_port(service, v),
                )
        }),
{
    first_env_carries(service, variable);
    reading_and_setting(report, l, app, variable);
    if let Some(v) = first_env(service.ports_of(), 0) {
        first_env_carries(service, v);
        reading_and_setting(report, l, app, v);
        let own = variable_finding(
            service,
            facts_of(report, l, app),
            rel_of(l.workspace_dir, app.dir),
        );
        if own.len() == 1 {
            assert(cannot_read_its_port(report, l, app, service, v));
        }
    }
}

proof fn variables_gather(
    services: Seq<ServiceView>,
    facts: Seq<FactView>,
    rel: Seq<char>,
    k: int,
    f: DriftView,
)
    requires
        0 <= k <= services.len(),
    ensures
        variables_upto(services, facts, rel, k).contains(f) <==> exists|i: int|
            0 <= i < k && variable_finding(#[trigger] services[i], facts, rel).contains(f),
    decreases k,
{
    if k > 0 {
        variables_gather(services, facts, rel, k - 1, f);
        together(
            variables_upto(services, facts, rel, k - 1),
            variable_finding(services[k - 1], facts, rel),
            f,
        );
    }
}

proof fn variable_drift_gathers(report: ReportView, l: LoadedView, k: int, f: DriftView)
    requires
        0 <= k <= l.apps.len(),
    ensures
        variable_drift(report, l, k).contains(f) <==> exists|a: int, i: int|
            0 <= a < k && 0 <= i < l.apps[a].manifest.services.len() && variable_finding(
                #[trigger] l.apps[a].manifest.services[i],
                facts_of(report, l, l.apps[a]),
                rel_of(l.workspace_dir, l.apps[a].dir),
            ).contains(f),
    decreases k,
{
    if k > 0 {
        let app = l.apps[k - 1];
        let facts = facts_of(report, l, app);
        let rel = rel_of(l.workspace_dir, app.dir);
        let n = app.manifest.services.len() as int;
        variable_drift_gathers(report, l, k - 1, f);
        variables_gather(app.manifest.services, facts, rel, n, f);
        together(
            variable_drift(report, l, k - 1),
            variables_upto(app.manifest.services, facts, rel, n),
            f,
        );
        if variables_upto(app.manifest.services, facts, rel, n).contains(f) {
            let i = choose|i: int|
                0 <= i < n && variable_finding(
                    #[trigger] app.manifest.services[i],
                    facts,
                    rel,
                ).contains(f);
            assert(variable_finding(l.apps[k - 1].manifest.services[i], facts, rel).contains(f));
        }
    }
}

proof fn untracked_gathers(
    l: LoadedView,
    files: Seq<Seq<char>>,
    untracked: Seq<Seq<char>>,
    k: int,
)
    requires
        0 <= k <= files.len(),
    ensures
        ({
            let out = untracked_upto(l, files, untracked, k);
            let said = |path: Seq<char>|
                paths::display_relative_of(path, l.workspace_dir)
                    + " is not committed, so new worktrees will not inherit it"@;
            &&& forall|m: int|
                0 <= m < out.len() ==> exists|i: int|
                    0 <= i < k && untracked.contains(#[trigger] files[i]) && says(
                        #[trigger] out[m],
                        Severity::Drift,
                        said(files[i]),
                    )
            &&& forall|i: int|
                0 <= i < k && untracked.contains(#[trigger] files[i]) ==> reported(
                    out,
                    Severity::Drift,
                    said(files[i]),
                )
        }),
    decreases k,
{
    if k > 0 {
        untracked_gathers(l, files, untracked, k - 1);
        let said = |path: Seq<char>|
            paths::display_relative_of(path, l.workspace_dir)
                + " is not committed, so new worktrees will not inherit it"@;
        let before = untracked_upto(l, files, untracked, k - 1);
        let out = untracked_upto(l, files, untracked, k);
        if untracked.contains(files[k - 1]) {
            let last = out.last();
            assert(out =~= before + seq![last]);
            assert forall|i: int| 0 <= i < k && untracked.contains(#[trigger] files[i]) implies
                reported(out, Severity::Drift, said(files[i])) by {
                reported_stays(before, seq![last], Severity::Drift, said(files[i]));
                if i == k - 1 {
                    assert(seq![last][0].summary == said(files[i]));
                }
            }
        }
        assert forall|m: int| 0 <= m < out.len() implies exists|i: int|
            0 <= i < k && untracked.contains(#[trigger] files[i]) && says(
                #[trigger] out[m],
                Severity::Drift,
                said(files[i]),
            ) by {
            if m < before.len() {
                assert(out[m] == before[m]);
                let i = choose|i: int|
                    0 <= i < k - 1 && untracked.contains(#[trigger] files[i]) && says(
                        before[m],
                        Severity::Drift,
                        said(files[i]),
                    );
                assert(untracked.contains(files[i]));
            } else {
                assert(untracked.contains(files[k - 1]));
            }
        }
    }
}

proof fn manifest_files_are_listed(l: LoadedView, k: int)
    requires
        0 <= k <= l.apps.len() + 1,
    ensures
        forall|i: int|
            0 <= i < manifest_files(l, k).len() ==> is_manifest_file(
                l,
                #[trigger] manifest_files(l, k)[i],
            ),
        k > 0 ==> manifest_files(l, k).len() > 0 && manifest_files(l, k)[0] == paths::join_of(
            l.workspace_dir,
            "magictree.toml"@,
        ),
    decreases k,
{
    if k > 0 {
        manifest_files_are_listed(l, k - 1);
        let file = paths::join_of(manifest_dir(l, k - 1), "magictree.toml"@);
        if k >= 2 {
            assert(l.apps[k - 2].dir == manifest_dir(l, k - 1));
        }
        assert(is_manifest_file(l, file));
        if k == 1 {
            assert(manifest_files(l, 0).len() == 0);
            assert(!paths::holds(manifest_files(l, 0), file));
        }
    }
}

proof fn step_inputs_gather(dir: Seq<char>, step: RunStepView, k: int, x: InputView)
    requires
        0 <= k <= step.inputs_of().len(),
    ensures
        step_inputs(dir, step, k).contains(x) <==> exists|i: int|
            0 <= i < k && x.input == #[trigger] step.inputs_of()[i] && x.path == paths::join_of(
                dir,
                x.input,
            ) && x.command == step.command_of(),
    decreases k,
{
    if k > 0 {
        step_inputs_gather(dir, step, k - 1, x);
        pushed(step_inputs(dir, step, k - 1), step_inputs(dir, step, k).last(), x);
    }
}

proof fn manifest_inputs_gather(dir: Seq<char>, steps: Seq<RunStepView>, k: int, x: InputView)
    requires
        0 <= k <= steps.len(),
    ensures
        manifest_inputs(dir, steps, k).contains(x) <==> exists|s: int|
            0 <= s < k && (#[trigger] steps[s]).inputs_of().contains(x.input) && x.path
                == paths::join_of(dir, x.input) && x.command == steps[s].command_of(),
    decreases k,
{
    if k > 0 {
        manifest_inputs_gather(dir, steps, k - 1, x);
        let step = steps[k - 1];
        let n = step.inputs_of().len() as int;
        step_inputs_gather(dir, step, n, x);
        together(manifest_inputs(dir, steps, k - 1), step_inputs(dir, step, n), x);
        if step.inputs_of().contains(x.input) {
            let i = choose|i: int| 0 <= i < n && step.inputs_of()[i] == x.input;
            assert(x.input == step.inputs_of()[i]);
        }
    }
}

proof fn app_inputs_gather(l: LoadedView, k: int, x: InputView)
    requires
        0 <= k <= l.apps.len(),
    ensures
        app_inputs(l, k).contains(x) <==> exists|a: int|
            0 <= a < k && manifest_inputs(
                (#[trigger] l.apps[a]).dir,
                l.apps[a].manifest.bootstrap.run,
                l.apps[a].manifest.bootstrap.run.len() as int,
            ).contains(x),
    decreases k,
{
    if k > 0 {
        app_inputs_gather(l, k - 1, x);
        let app = l.apps[k - 1];
        together(
            app_inputs(l, k - 1),
            manifest_inputs(
                app.dir,
                app.manifest.bootstrap.run,
                app.manifest.bootstrap.run.len() as int,
            ),
            x,
        );
    }
}

/// Every bootstrap input of every manifest is looked at, at its place below the manifest.
proof fn inputs_are_listed(l: LoadedView, x: InputView)
    ensures
        inputs_of(l).contains(x) <==> exists|dir: Seq<char>, m: ManifestView, step: RunStepView|
            is_loaded(l, dir, m) && #[trigger] reads_input(m, step, x.input) && x.path
                == #[trigger] paths::join_of(dir, x.input) && x.command == step.command_of(),
{
    let n = l.apps.len() as int;
    app_inputs_gather(l, n, x);
    let run = l.workspace.bootstrap.run;
    together(
        app_inputs(l, n),
        manifest_inputs(l.workspace_dir, run, run.len() as int),
        x,
    );
    manifest_inputs_gather(l.workspace_dir, run, run.len() as int, x);
    if inputs_of(l).contains(x) {
        if app_inputs(l, n).contains(x) {
            let a = choose|a: int|
                0 <= a < n && manifest_inputs(
                    (#[trigger] l.apps[a]).dir,
                    l.apps[a].manifest.bootstrap.run,
                    l.apps[a].manifest.bootstrap.run.len() as int,
                ).contains(x);
            let app = l.apps[a];
            let steps = app.manifest.bootstrap.run;
            manifest_inputs_gather(app.dir, steps, steps.len() as int, x);
            let s = choose|s: int|
                0 <= s < steps.len() && (#[trigger] steps[s]).inputs_of().contains(x.input)
                    && x.path == paths::join_of(app.dir, x.input) && x.command
                    == steps[s].command_of();
            assert(is_loaded(l, app.dir, app.manifest));
            assert(reads_input(app.manifest, steps[s], x.input));
        } else {
            let s = choose|s: int|
                0 <= s < run.len() && (#[trigger] run[s]).inputs_of().contains(x.input) && x.path
                    == paths::join_of(l.workspace_dir, x.input) && x.command
                    == run[s].command_of();
            assert(is_loaded(l, l.workspace_dir, l.workspace));
            assert(reads_input(l.workspace, run[s], x.input));
        }
    }
    if exists|dir: Seq<char>, m: ManifestView, step: RunStepView|
        is_loaded(l, dir, m) && #[trigger] reads_input(m, step, x.input) && x.path
            == #[trigger] paths::join_of(dir, x.input) && x.command == step.command_of() {
        let (dir, m, step) = choose|dir: Seq<char>, m: ManifestView, step: RunStepView|
            is_loaded(l, dir, m) && #[trigger] reads_input(m, step, x.input) && x.path
                == #[trigger] paths::join_of(dir, x.input) && x.command == step.command_of();
        let s = choose|s: int| 0 <= s < m.bootstrap.run.len() && m.bootstrap.run[s] == step;
        assert(m.bootstrap.run[s].inputs_of().contains(x.input));
        if !(dir == l.workspace_dir && m == l.workspace) {
            let a = choose|a: int|
                0 <= a < l.apps.len() && (#[trigger] l.apps[a]).dir == dir && l.apps[a].manifest
                    == m;
            manifest_inputs_gather(dir, m.bootstrap.run, m.bootstrap.run.len() as int, x);
            assert(manifest_inputs(
                l.apps[a].dir,
                l.apps[a].manifest.bootstrap.run,
                l.apps[a].manifest.bootstrap.run.len() as int,
            ).contains(x));
        }
    }
}

proof fn missing_inputs_gather(inputs: Seq<InputView>, missing: Seq<Seq<char>>, k: int)
    requires
        0 <= k <= inputs.len(),
    ensures
        ({
            let out = inputs_upto(inputs, missing, k);
            let said = |x: InputView|
                "bootstrap input '"@ + x.input + "' for `"@ + x.command + "` does not exist"@;
            &&& forall|m: int|
                0 <= m < out.len() ==> exists|i: int|
                    0 <= i < k && missing.contains((#[trigger] inputs[i]).path) && says(
                        #[trigger] out[m],
                        Severity::Drift,
                        said(inputs[i]),
                    )
            &&& forall|i: int|
                0 <= i < k && missing.contains((#[trigger] inputs[i]).path) ==> reported(
                    out,
                    Severity::Drift,
                    said(inputs[i]),
                )
        }),
    decreases k,
{
    if k > 0 {
        missing_inputs_gather(inputs, missing, k - 1);
        let said = |x: InputView|
            "bootstrap input '"@ + x.input + "' for `"@ + x.command + "` does not exist"@;
        let before = inputs_upto(inputs, missing, k - 1);
        let out = inputs_upto(inputs, missing, k);
        if missing.contains(inputs[k - 1].path) {
            let last = out.last();
            assert(out =~= before + seq![last]);
            assert forall|i: int| 0 <= i < k && missing.contains((#[trigger] inputs[i]).path) implies
                reported(out, Severity::Drift, said(inputs[i])) by {
                reported_stays(before, seq![last], Severity::Drift, said(inputs[i]));
                if i == k - 1 {
                    assert(seq![last][0].summary == said(inputs[i]));
                }
            }
        }
        assert forall|m: int| 0 <= m < out.len() implies exists|i: int|
            0 <= i < k && missing.contains((#[trigger] inputs[i]).path) && says(
                #[trigger] out[m],
                Severity::Drift,
                said(inputs[i]),
            ) by {
            if m < before.len() {
                assert(out[m] == before[m]);
                let i = choose|i: int|
                    0 <= i < k - 1 && missing.contains((#[trigger] inputs[i]).path) && says(
                        before[m],
                        Severity::Drift,
                        said(inputs[i]),
                    );
                assert(missing.contains(inputs[i].path));
            } else {
                assert(missing.contains(inputs[k - 1].path));
            }
        }
    }
}

proof fn targets_of_ports(service: ServiceView)
    ensures
        lacks_target(service) <==> service.expose == Expose::Port && service.compose is Some
            && untargeted(service.ports_of()),
{
    let all = service.ports_of();
    let shift: int = if service.port is Some {
        1
    } else {
        0
    };
    assert forall|i: int| 0 <= i < service.ports.len() implies #[trigger] all[i + shift].target
        == service.ports[i].target by {}
    if service.port is Some {
        assert(all[0].target == service.port.unwrap().target);
    }
    if untargeted(all) {
        assert forall|i: int| 0 <= i < service.ports.len() implies (
        #[trigger] service.ports[i]).target is None by {
            assert(all[i + shift].target is None);
        }
    }
    if lacks_target(service) {
        assert forall|i: int| 0 <= i < all.len() implies (#[trigger] all[i]).target is None by {
            if i >= shift {
                assert(all[i - shift + shift].target == service.ports[i - shift].target);
            }
        }
    }
}

proof fn exposed_gathers(services: Seq<ServiceView>, k: int)
    requires
        0 <= k <= services.len(),
    ensures
        ({
            let out = exposed_upto(services, k);
            let said = |x: ServiceView|
                "compose service '"@ + x.id + "' exposes a port but has no port.target"@;
            &&& forall|m: int|
                0 <= m < out.len() ==> exists|i: int|
                    0 <= i < k && lacks_target(#[trigger] services[i]) && says(
                        #[trigger] out[m],
                        Severity::Drift,
                        said(services[i]),
                    )
            &&& forall|i: int|
                0 <= i < k && lacks_target(#[trigger] services[i]) ==> reported(
                    out,
                    Severity::Drift,
                    said(services[i]),
                )
        }),
    decreases k,
{
    if k > 0 {
        exposed_gathers(services, k - 1);
        targets_of_ports(services[k - 1]);
        let said = |x: ServiceView|
            "compose service '"@ + x.id + "' exposes a port but has no port.target"@;
        let before = exposed_upto(services, k - 1);
        let out = exposed_upto(services, k);
        if lacks_target(services[k - 1]) {
            let last = out.last();
            assert(out =~= before + seq![last]);
            assert forall|i: int| 0 <= i < k && lacks_target(#[trigger] services[i]) implies
                reported(out, Severity::Drift, said(services[i])) by {
                reported_stays(before, seq![last], Severity::Drift, said(services[i]));
                if i == k - 1 {
                    assert(seq![last][0].summary == said(services[i]));
                }
            }
        }
        assert forall|m: int| 0 <= m < out.len() implies exists|i: int|
            0 <= i < k && lacks_target(#[trigger] services[i]) && says(
                #[trigger] out[m],
                Severity::Drift,
                said(services[i]),
            ) by {
            if m < before.len() {
                assert(out[m] == before[m]);
                let i = choose|i: int|
                    0 <= i < k - 1 && lacks_target(#[trigger] services[i]) && says(
                        before[m],
                        Severity::Drift,
                        said(services[i]),
                    );
                assert(lacks_target(services[i]));
            } else {
                assert(lacks_target(services[k - 1]));
            }
        }
    }
}

proof fn manifest_files_are_all(l: LoadedView, k: int, i: int)
    requires
        0 <= i < k <= l.apps.len() + 1,
    ensures
        paths::holds(
            manifest_files(l, k),
            paths::join_of(manifest_dir(l, i), "magictree.toml"@),
        ),
    decreases k,
{
    let before = manifest_files(l, k - 1);
    let file = paths::join_of(manifest_dir(l, k - 1), "magictree.toml"@);
    let wanted = paths::join_of(manifest_dir(l, i), "magictree.toml"@);
    let all = manifest_files(l, k);
    if i < k - 1 {
        manifest_files_are_all(l, k - 1, i);
        let m = choose|m: int|
            0 <= m < before.len() && paths::same_path(#[trigger] before[m], wanted);
        assert(paths::same_path(all[m], wanted));
    } else if !paths::holds(before, file) {
        assert(paths::same_path(all[before.len() as int], wanted));
    }
}

proof fn literals_are_paired(facts: Seq<FactView>, k: int, x: (FactView, PortLiteralFactView))
    requires
        0 <= k <= facts.len(),
    ensures
        ports::all_upto(facts, k).contains(x) <==> exists|a: int, i: int|
            0 <= a < k && 0 <= i < ports::literals_in(facts[a]).len() && x.0 == facts[a] && x.1
                == #[trigger] ports::literals_in(facts[a])[i],
    decreases k,
{
    if k > 0 {
        literals_are_paired(facts, k - 1, x);
        let own = ports::paired(facts[k - 1], ports::literals_in(facts[k - 1]).len() as int);
        together(ports::all_upto(facts, k - 1), own, x);
        if own.contains(x) {
            let i = choose|i: int| 0 <= i < own.len() && own[i] == x;
            assert(x.1 == ports::literals_in(facts[k - 1])[i]);
        }
        assert forall|i: int|
            0 <= i < ports::literals_in(facts[k - 1]).len() && x.0 == facts[k - 1] && x.1
                == #[trigger] ports::literals_in(facts[k - 1])[i] implies own.contains(x) by {
            assert(own[i] == x);
        }
    }
}

proof fn sites_are_there(
    pairs: Seq<(FactView, PortLiteralFactView)>,
    kind: FactKind,
    step: Seq<char>,
    k: int,
    x: (FactView, PortLiteralFactView),
)
    requires
        0 <= k <= pairs.len(),
    ensures
        ports::sites_upto(pairs, kind, step, k).contains(x) <==> x.0.kind == kind && x.1.container
            == Some(step) && exists|i: int| 0 <= i < k && #[trigger] pairs[i] == x,
    decreases k,
{
    if k > 0 {
        sites_are_there(pairs, kind, step, k - 1, x);
        pushed(ports::sites_upto(pairs, kind, step, k - 1), pairs[k - 1], x);
        if exists|i: int| 0 <= i < k && #[trigger] pairs[i] == x {
            let i = choose|i: int| 0 <= i < k && #[trigger] pairs[i] == x;
            if i < k - 1 {
                assert(pairs[i] == x);
            }
        }
    }
}

proof fn stepped_literals(report: ReportView, l: LoadedView, app: AppView, service: ServiceView)
    ensures
        service_step(service) matches Some((kind, word, name)) ==> (step_pins(report, l, app, service)
            <==> ports::sites_of(facts_of(report, l, app), kind, name).len() > 0),
{
    if let Some((kind, word, name)) = service_step(service) {
        let facts = facts_of(report, l, app);
        let rel = rel_of(l.workspace_dir, app.dir);
        let n = report.facts.len() as int;
        let pairs = ports::all_of(facts);
        let sites = ports::sites_of(facts, kind, name);
        if sites.len() > 0 {
            let x = sites[0];
            assert(sites.contains(x));
            sites_are_there(pairs, kind, name, pairs.len() as int, x);
            assert(pairs.contains(x));
            literals_are_paired(facts, facts.len() as int, x);
            let (a, i) = choose|a: int, i: int|
                0 <= a < facts.len() && 0 <= i < ports::literals_in(facts[a]).len() && x.0
                    == facts[a] && x.1 == #[trigger] ports::literals_in(facts[a])[i];
            assert(facts.contains(facts[a]));
            own_facts(report.facts, app.id, rel, n, facts[a]);
            let k = choose|k: int| 0 <= k < n && #[trigger] report.facts[k] == facts[a];
            assert(ports::literals_in(report.facts[k])[i].container == Some(name));
        }
        if step_pins(report, l, app, service) {
            let (k, i) = choose|k: int, i: int|
                0 <= k < report.facts.len() && concerns(l, app, report.facts[k])
                    && report.facts[k].kind == kind && 0 <= i < ports::literals_in(
                    report.facts[k],
                ).len() && (#[trigger] ports::literals_in(report.facts[k])[i]).container == Some(
                    name,
                );
            own_facts(report.facts, app.id, rel, n, report.facts[k]);
            let a = choose|a: int| 0 <= a < facts.len() && facts[a] == report.facts[k];
            let x = (facts[a], ports::literals_in(facts[a])[i]);
            assert(x.1 == ports::literals_in(facts[a])[i]);
            literals_are_paired(facts, facts.len() as int, x);
            let m = choose|m: int| 0 <= m < pairs.len() && pairs[m] == x;
            assert(pairs[m] == x);
            sites_are_there(pairs, kind, name, pairs.len() as int, x);
        }
    }
}

proof fn pinned_files_grow(
    sites: Seq<(FactView, PortLiteralFactView)>,
    word: Seq<char>,
    name: Seq<char>,
    k: int,
)
    requires
        0 <= k <= sites.len(),
    ensures
        ({
            let files = pinned_files(sites, word, name, k);
            &&& k > 0 ==> files.len() > 0
            &&& forall|i: int|
                0 <= i < files.len() ==> (#[trigger] files[i]).1.step is Some
                    && text::starts_with_of(files[i].1.origin, word + " '"@ + name + "' in "@)
        }),
    decreases k,
{
    if k > 0 {
        pinned_files_grow(sites, word, name, k - 1);
        let before = pinned_files(sites, word, name, k - 1);
        let fact = sites[k - 1].0;
        let entry = match dict::lookup(before, fact.id) {
            Some(entry) => entry,
            None => PinnedPortView {
                origin: word + " '"@ + name + "' in "@ + fact.source,
                command: sites[k - 1].1.text,
                ports: Seq::empty(),
                step: Some(StepRefView { fact: fact.id, step: name }),
            },
        };
        let now = PinnedPortView { ports: entry.ports.push(sites[k - 1].1.port), ..entry };
        let head = word + " '"@ + name + "' in "@;
        found_files(before, fact.id, head);
        assert(text::starts_with_of(head + fact.source, head)) by {
            assert((head + fact.source).take(head.len() as int) =~= head);
        }
        put_files(before, fact.id, now, head);
    }
}

proof fn found_files(files: Seq<(Seq<char>, PinnedPortView)>, id: Seq<char>, head: Seq<char>)
    requires
        forall|i: int|
            0 <= i < files.len() ==> (#[trigger] files[i]).1.step is Some && text::starts_with_of(
                files[i].1.origin,
                head,
            ),
    ensures
        dict::lookup(files, id) matches Some(entry) ==> entry.step is Some && text::starts_with_of(
            entry.origin,
            head,
        ),
    decreases files.len(),
{
    if files.len() > 0 {
        assert(files[0].1.step is Some);
        let rest = files.skip(1);
        assert forall|i: int| 0 <= i < rest.len() implies (#[trigger] rest[i]).1.step is Some
            && text::starts_with_of(rest[i].1.origin, head) by {
            assert(rest[i] == files[i + 1]);
        }
        found_files(rest, id, head);
    }
}

proof fn put_files(
    files: Seq<(Seq<char>, PinnedPortView)>,
    id: Seq<char>,
    entry: PinnedPortView,
    head: Seq<char>,
)
    requires
        entry.step is Some,
        text::starts_with_of(entry.origin, head),
        forall|i: int|
            0 <= i < files.len() ==> (#[trigger] files[i]).1.step is Some && text::starts_with_of(
                files[i].1.origin,
                head,
            ),
    ensures
        ({
            let all = dict::put(files, id, entry);
            &&& all.len() > 0
            &&& forall|i: int|
                0 <= i < all.len() ==> (#[trigger] all[i]).1.step is Some && text::starts_with_of(
                    all[i].1.origin,
                    head,
                )
        }),
    decreases files.len(),
{
    if files.len() > 0 {
        let rest = files.skip(1);
        assert forall|i: int| 0 <= i < rest.len() implies (#[trigger] rest[i]).1.step is Some
            && text::starts_with_of(rest[i].1.origin, head) by {
            assert(rest[i] == files[i + 1]);
        }
        assert(files[0].1.step is Some);
        put_files(rest, id, entry, head);
        let all = dict::put(files, id, entry);
        assert forall|i: int| 0 <= i < all.len() implies (#[trigger] all[i]).1.step is Some
            && text::starts_with_of(all[i].1.origin, head) by {
            if files[0].0 == id {
                if i > 0 {
                    assert(all[i] == rest[i - 1]);
                }
            } else if text::before(id, files[0].0) {
                if i > 0 {
                    assert(all[i] == files[i - 1]);
                }
            } else if i > 0 {
                assert(all[i] == dict::put(rest, id, entry)[i - 1]);
            }
        }
    }
}

proof fn pinned_gathers(
    service: ServiceView,
    pinned: Seq<PinnedPortView>,
    advice: PortAdviceView,
    k: int,
    f: DriftView,
)
    requires
        0 <= k <= pinned.len(),
    ensures
        pinned_upto(service, pinned, advice, k).contains(f) <==> exists|i: int|
            0 <= i < k && pinned_finding(service, #[trigger] pinned[i], advice).contains(f),
    decreases k,
{
    if k > 0 {
        pinned_gathers(service, pinned, advice, k - 1, f);
        together(
            pinned_upto(service, pinned, advice, k - 1),
            pinned_finding(service, pinned[k - 1], advice),
            f,
        );
    }
}

proof fn pins_gather(l: LoadedView, app: AppView, facts: Seq<FactView>, k: int, f: DriftView)
    requires
        0 <= k <= app.manifest.services.len(),
    ensures
        pins_upto(l, app, facts, k).contains(f) <==> exists|i: int|
            0 <= i < k && pinned_upto(
                #[trigger] app.manifest.services[i],
                pinned_of(app.manifest.services[i], facts),
                advice_of(l, app.id, app.manifest.services[i]),
                pinned_of(app.manifest.services[i], facts).len() as int,
            ).contains(f),
    decreases k,
{
    if k > 0 {
        pins_gather(l, app, facts, k - 1, f);
        let service = app.manifest.services[k - 1];
        let pinned = pinned_of(service, facts);
        together(
            pins_upto(l, app, facts, k - 1),
            pinned_upto(service, pinned, advice_of(l, app.id, service), pinned.len() as int),
            f,
        );
    }
}

proof fn pin_drift_gathers(report: ReportView, l: LoadedView, k: int, f: DriftView)
    requires
        0 <= k <= l.apps.len(),
    ensures
        pin_drift(report, l, k).contains(f) <==> exists|a: int|
            0 <= a < k && pins_upto(
                l,
                #[trigger] l.apps[a],
                facts_of(report, l, l.apps[a]),
                l.apps[a].manifest.services.len() as int,
            ).contains(f),
    decreases k,
{
    if k > 0 {
        pin_drift_gathers(report, l, k - 1, f);
        let app = l.apps[k - 1];
        together(
            pin_drift(report, l, k - 1),
            pins_upto(l, app, facts_of(report, l, app), app.manifest.services.len() as int),
            f,
        );
    }
}

proof fn summaries_name_the_service(service: ServiceView, pinned: PinnedPortView, advice: PortAdviceView)
    ensures
        forall|i: int|
            0 <= i < pinned_finding(service, pinned, advice).len() ==> text::starts_with_of(
                (#[trigger] pinned_finding(service, pinned, advice)[i]).summary,
                "service '"@ + service.id + "' runs "@ + pinned.origin,
            ) && text::starts_with_of(
                pinned_finding(service, pinned, advice)[i].summary,
                "service '"@ + service.id + "' runs "@,
            ) && pinned_finding(service, pinned, advice)[i].severity == Severity::Drift,
{
    let own = pinned_finding(service, pinned, advice);
    if own.len() > 0 {
        let head = "service '"@ + service.id + "' runs "@ + pinned.origin;
        let short = "service '"@ + service.id + "' runs "@;
        assert(own[0].summary.take(head.len() as int) =~= head);
        assert(own[0].summary.take(short.len() as int) =~= short);
    }
}

/// Whether a finding of this weight begins so.
pub open spec fn reported_as(out: Seq<DriftView>, severity: Severity, start: Seq<char>) -> bool {
    exists|k: int|
        0 <= k < out.len() && (#[trigger] out[k]).severity == severity && text::starts_with_of(
            out[k].summary,
            start,
        )
}

proof fn pins_are_found(report: ReportView, l: LoadedView, a: int, i: int, m: int)
    requires
        0 <= a < l.apps.len(),
        0 <= i < l.apps[a].manifest.services.len(),
        ({
            let pinned = pinned_of(l.apps[a].manifest.services[i], facts_of(report, l, l.apps[a]));
            0 <= m < pinned.len() && (pinned[m].step is None || !hands_over(
                l.apps[a].manifest.services[i],
                advice_of(l, l.apps[a].id, l.apps[a].manifest.services[i]).variable,
            ))
        }),
    ensures
        reported_as(
            pin_drift(report, l, l.apps.len() as int),
            Severity::Drift,
            "service '"@ + l.apps[a].manifest.services[i].id + "' runs "@ + pinned_of(
                l.apps[a].manifest.services[i],
                facts_of(report, l, l.apps[a]),
            )[m].origin,
        ),
{
    let app = l.apps[a];
    let service = app.manifest.services[i];
    let facts = facts_of(report, l, app);
    let pinned = pinned_of(service, facts);
    let advice = advice_of(l, app.id, service);
    let n = l.apps.len() as int;
    let out = pin_drift(report, l, n);
    let own = pinned_finding(service, pinned[m], advice);
    let f = own[0];
    assert(own.len() == 1);
    assert(own.contains(f));
    pinned_gathers(service, pinned, advice, pinned.len() as int, f);
    pins_gather(l, app, facts, app.manifest.services.len() as int, f);
    pin_drift_gathers(report, l, n, f);
    assert(pins_upto(l, l.apps[a], facts, app.manifest.services.len() as int).contains(f));
    summaries_name_the_service(service, pinned[m], advice);
    let k = choose|k: int| 0 <= k < out.len() && out[k] == f;
    assert(out[k].severity == Severity::Drift);
}

proof fn shorter_starts(out: Seq<DriftView>, severity: Severity, long: Seq<char>, short: Seq<char>)
    requires
        reported_as(out, severity, long),
        text::starts_with_of(long, short),
    ensures
        reported_as(out, severity, short),
{
    let k = choose|k: int|
        0 <= k < out.len() && (#[trigger] out[k]).severity == severity && text::starts_with_of(
            out[k].summary,
            long,
        );
    let s = out[k].summary;
    assert(s.take(short.len() as int) =~= short) by {
        assert(s.take(long.len() as int) == long);
        assert(long.take(short.len() as int) == short);
        assert(s.take(long.len() as int).take(short.len() as int) =~= s.take(short.len() as int));
    }
    assert(text::starts_with_of(out[k].summary, short));
}

proof fn commands_are_compared(report: ReportView, l: LoadedView, a: int, i: int)
    requires
        0 <= a < l.apps.len(),
        0 <= i < l.apps[a].manifest.services.len(),
        command_pins(l.apps[a].manifest.services[i]),
    ensures
        reported_as(
            pin_drift(report, l, l.apps.len() as int),
            Severity::Drift,
            "service '"@ + l.apps[a].manifest.services[i].id
                + "' runs the command in magictree.toml"@,
        ),
{
    let service = l.apps[a].manifest.services[i];
    let facts = facts_of(report, l, l.apps[a]);
    let pinned = pinned_of(service, facts);
    let m = pinned_by_step(service, facts).len() as int;
    assert(pinned[m] == pinned_by_command(service)[0]);
    pins_are_found(report, l, a, i, m);
    reveal_strlit("' runs ");
    reveal_strlit("the command in magictree.toml");
    reveal_strlit("' runs the command in magictree.toml");
    assert("' runs the command in magictree.toml"@ =~= "' runs "@
        + "the command in magictree.toml"@);
    assert("service '"@ + service.id + "' runs the command in magictree.toml"@ =~= "service '"@
        + service.id + "' runs "@ + pinned[m].origin);
}

proof fn steps_are_compared(report: ReportView, l: LoadedView, a: int, i: int)
    requires
        0 <= a < l.apps.len(),
        0 <= i < l.apps[a].manifest.services.len(),
        step_pins(report, l, l.apps[a], l.apps[a].manifest.services[i]),
        !hands_over(
            l.apps[a].manifest.services[i],
            advice_of(l, l.apps[a].id, l.apps[a].manifest.services[i]).variable,
        ),
    ensures
        reported_as(
            pin_drift(report, l, l.apps.len() as int),
            Severity::Drift,
            "service '"@ + l.apps[a].manifest.services[i].id + "' runs "@ + service_step(
                l.apps[a].manifest.services[i],
            ).unwrap().1 + " '"@ + service_step(l.apps[a].manifest.services[i]).unwrap().2
                + "' in "@,
        ),
{
    let app = l.apps[a];
    let service = app.manifest.services[i];
    let facts = facts_of(report, l, app);
    let pinned = pinned_of(service, facts);
    let (kind, word, name) = service_step(service).unwrap();
    stepped_literals(report, l, app, service);
    let sites = ports::sites_of(facts, kind, name);
    let files = pinned_files(sites, word, name, sites.len() as int);
    pinned_files_grow(sites, word, name, sites.len() as int);
    assert(files[0].1.step is Some);
    assert(pinned[0] == files[0].1);
    pins_are_found(report, l, a, i, 0);
    let head = word + " '"@ + name + "' in "@;
    let short = "service '"@ + service.id + "' runs "@;
    let long = short + pinned[0].origin;
    let start = short + word + " '"@ + name + "' in "@;
    assert(start =~= short + head);
    assert(pinned[0].origin.take(head.len() as int) == head);
    assert(long.take(start.len() as int) =~= short + pinned[0].origin.take(head.len() as int));
    shorter_starts(pin_drift(report, l, l.apps.len() as int), Severity::Drift, long, start);
}

proof fn pins_are_justified(report: ReportView, l: LoadedView, k: int)
    requires
        0 <= k < pin_drift(report, l, l.apps.len() as int).len(),
    ensures
        about_pins(report, l, pin_drift(report, l, l.apps.len() as int)[k]),
{
    let n = l.apps.len() as int;
    let out = pin_drift(report, l, n);
    let f = out[k];
    assert(out.contains(f));
    pin_drift_gathers(report, l, n, f);
    let a = choose|a: int|
        0 <= a < n && pins_upto(
            l,
            #[trigger] l.apps[a],
            facts_of(report, l, l.apps[a]),
            l.apps[a].manifest.services.len() as int,
        ).contains(f);
    let app = l.apps[a];
    let facts = facts_of(report, l, app);
    pins_gather(l, app, facts, app.manifest.services.len() as int, f);
    let i = choose|i: int|
        0 <= i < app.manifest.services.len() && pinned_upto(
            #[trigger] app.manifest.services[i],
            pinned_of(app.manifest.services[i], facts),
            advice_of(l, app.id, app.manifest.services[i]),
            pinned_of(app.manifest.services[i], facts).len() as int,
        ).contains(f);
    let service = l.apps[a].manifest.services[i];
    let pinned = pinned_of(service, facts);
    let advice = advice_of(l, app.id, service);
    pinned_gathers(service, pinned, advice, pinned.len() as int, f);
    let m = choose|m: int|
        0 <= m < pinned.len() && pinned_finding(service, #[trigger] pinned[m], advice).contains(f);
    summaries_name_the_service(service, pinned[m], advice);
    let own = pinned_finding(service, pinned[m], advice);
    let q = choose|q: int| 0 <= q < own.len() && own[q] == f;
    assert(text::starts_with_of(own[q].summary, "service '"@ + service.id + "' runs "@));
    let by_step = pinned_by_step(service, facts);
    if m < by_step.len() {
        stepped_literals(report, l, app, service);
        if let Some((kind, word, name)) = service_step(service) {
            let sites = ports::sites_of(facts, kind, name);
            if sites.len() == 0 {
                assert(pinned_files(sites, word, name, 0).len() == 0);
            }
        }
    }
}

proof fn elsewhere_is_justified(
    report: ReportView,
    l: LoadedView,
    reported: Seq<StepRefView>,
    k: int,
    m: int,
)
    requires
        0 <= k <= ports::all_of(report.facts).len(),
        0 <= m < elsewhere_upto(l, reported, ports::all_of(report.facts), k).len(),
    ensures
        about_literals(
            report,
            elsewhere_upto(l, reported, ports::all_of(report.facts), k)[m],
        ),
    decreases k,
{
    let pairs = ports::all_of(report.facts);
    if k > 0 {
        let before = elsewhere_upto(l, reported, pairs, k - 1);
        let out = elsewhere_upto(l, reported, pairs, k);
        if m < before.len() {
            elsewhere_is_justified(report, l, reported, k - 1, m);
            assert(out[m] == before[m]);
        } else {
            let x = pairs[k - 1];
            assert(pairs.contains(x));
            literals_are_paired(report.facts, report.facts.len() as int, x);
            let (a, i) = choose|a: int, i: int|
                0 <= a < report.facts.len() && 0 <= i < ports::literals_in(report.facts[a]).len()
                    && x.0 == report.facts[a] && x.1 == #[trigger] ports::literals_in(
                    report.facts[a],
                )[i];
            let head = report.facts[a].source + " pins port "@ + text::decimal_of(
                ports::literals_in(report.facts[a])[i].port as nat,
            );
            assert(out[m].summary.take(head.len() as int) =~= head);
        }
    }
}

/// `doctor` says what drifted. A discovered app that the workspace does not list, a listed one that
/// is gone; a compose service that a manifest references and no file declares, or the reverse; a
/// service whose script, recipe or task no fact of its app declares any more; a port variable that is
/// only ever set; a command line or a step that pins a port; a manifest that git does not track; a
/// bootstrap input that is gone; and a published compose service without a container port.
pub proof fn doctor_reports_what_drifted(
    report: ReportView,
    l: LoadedView,
    untracked: Seq<Seq<char>>,
    missing: Seq<Seq<char>>,
)
    ensures
        ({
            let out = compare_of(report, l, untracked, missing);
            &&& !l.root_is_app ==> forall|dir: Seq<char>| #[trigger]
                is_discovered(report, dir) && !is_listed(l, dir) ==> reported(
                    out,
                    Severity::Drift,
                    "app '"@ + dir + "' exists but is not listed in [workspace].apps"@,
                )
            &&& !l.root_is_app ==> forall|dir: Seq<char>| #[trigger]
                is_listed(l, dir) && !is_discovered(report, dir) ==> reported(
                    out,
                    Severity::Drift,
                    "[workspace].apps lists '"@ + dir + "', which discovery no longer finds"@,
                )
            &&& l.root_is_app && report.apps.len() > 1 ==> out.len() > 0 && out[0].severity
                == Severity::Drift
            &&& forall|name: Seq<char>| #[trigger]
                is_referenced(l, name) && !compose_has(report, name) ==> reported(
                    out,
                    Severity::Drift,
                    "manifest references compose service '"@ + name + "', which no longer exists"@,
                )
            &&& forall|name: Seq<char>| #[trigger]
                compose_has(report, name) && !is_referenced(l, name) ==> reported(
                    out,
                    Severity::Info,
                    "compose service '"@ + name + "' is not managed by any manifest"@,
                )
            &&& forall|a: int, i: int|
                0 <= a < l.apps.len() && 0 <= i < l.apps[a].manifest.services.len()
                    && lost_its_target(
                    report,
                    l,
                    l.apps[a],
                    #[trigger] l.apps[a].manifest.services[i],
                ) ==> reported(out, Severity::Drift, lost_target(l.apps[a].manifest.services[i]))
            &&& forall|a: int, i: int, v: Seq<char>|
                0 <= a < l.apps.len() && 0 <= i < l.apps[a].manifest.services.len()
                    && #[trigger] cannot_read_its_port(
                    report,
                    l,
                    l.apps[a],
                    l.apps[a].manifest.services[i],
                    v,
                ) ==> reported(
                    out,
                    Severity::Drift,
                    unread_port(l.apps[a].manifest.services[i], v),
                )
            &&& forall|a: int, i: int|
                0 <= a < l.apps.len() && 0 <= i < l.apps[a].manifest.services.len() && command_pins(
                    #[trigger] l.apps[a].manifest.services[i],
                ) ==> reported_as(
                    out,
                    Severity::Drift,
                    "service '"@ + l.apps[a].manifest.services[i].id
                        + "' runs the command in magictree.toml"@,
                )
            &&& forall|a: int, i: int|
                0 <= a < l.apps.len() && 0 <= i < l.apps[a].manifest.services.len() && step_pins(
                    report,
                    l,
                    l.apps[a],
                    #[trigger] l.apps[a].manifest.services[i],
                ) && !hands_over(
                    l.apps[a].manifest.services[i],
                    advice_of(l, l.apps[a].id, l.apps[a].manifest.services[i]).variable,
                ) ==> reported_as(
                    out,
                    Severity::Drift,
                    "service '"@ + l.apps[a].manifest.services[i].id + "' runs "@ + service_step(
                        l.apps[a].manifest.services[i],
                    ).unwrap().1 + " '"@ + service_step(
                        l.apps[a].manifest.services[i],
                    ).unwrap().2 + "' in "@,
                )
            &&& untracked.contains(paths::join_of(l.workspace_dir, "magictree.toml"@)) ==> reported(
                out,
                Severity::Drift,
                paths::display_relative_of(
                    paths::join_of(l.workspace_dir, "magictree.toml"@),
                    l.workspace_dir,
                ) + " is not committed, so new worktrees will not inherit it"@,
            )
            &&& forall|dir: Seq<char>, m: ManifestView, step: RunStepView, input: Seq<char>|
                is_loaded(l, dir, m) && #[trigger] reads_input(m, step, input) && missing.contains(
                    #[trigger] paths::join_of(dir, input),
                ) ==> reported(out, Severity::Drift, lost_input(step, input))
            &&& forall|service: ServiceView| #[trigger]
                is_service_of(l, service) && lacks_target(service) ==> reported(
                    out,
                    Severity::Drift,
                    "compose service '"@ + service.id
                        + "' exposes a port but has no port.target"@,
                )
        }),
{
    let n = l.apps.len() as int;
    let out = compare_of(report, l, untracked, missing);
    let pairs = ports::all_of(report.facts);
    let files = manifest_files(l, n + 1);
    let inputs = inputs_of(l);
    let services = all_services(l);
    let s1 = app_drift(report, l);
    let s2 = compose_drift(report, l);
    let s3 = target_drift(report, l, n);
    let s4 = variable_drift(report, l, n);
    let s5 = pin_drift(report, l, n);
    let s6 = elsewhere_upto(l, reported_steps(report, l, n), pairs, pairs.len() as int);
    let s7 = untracked_upto(l, files, untracked, files.len() as int);
    let s8 = inputs_upto(inputs, missing, inputs.len() as int);
    let s9 = exposed_upto(services, services.len() as int);
    assert(out == s1 + s2 + s3 + s4 + s5 + s6 + s7 + s8 + s9);
    assert forall|severity: Severity, summary: Seq<char>|
        reported(s1, severity, summary) || reported(s2, severity, summary) || reported(
            s3,
            severity,
            summary,
        ) || reported(s4, severity, summary) || reported(s7, severity, summary) || reported(
            s8,
            severity,
            summary,
        ) || reported(s9, severity, summary) implies #[trigger] reported(out, severity, summary) by {
        reported_stays(s1, s2, severity, summary);
        reported_stays(s1 + s2, s3, severity, summary);
        reported_stays(s1 + s2 + s3, s4, severity, summary);
        reported_stays(s1 + s2 + s3 + s4, s5, severity, summary);
        reported_stays(s1 + s2 + s3 + s4 + s5, s6, severity, summary);
        reported_stays(s1 + s2 + s3 + s4 + s5 + s6, s7, severity, summary);
        reported_stays(s1 + s2 + s3 + s4 + s5 + s6 + s7, s8, severity, summary);
        reported_stays(s1 + s2 + s3 + s4 + s5 + s6 + s7 + s8, s9, severity, summary);
    }
    apps_are_compared(report, l);
    compose_is_compared(report, l);
    targets_are_compared(report, l, n);
    if l.root_is_app && report.apps.len() > 1 {
        assert(out[0] == s1[0]);
    }
    assert forall|a: int, i: int, v: Seq<char>|
        0 <= a < l.apps.len() && 0 <= i < l.apps[a].manifest.services.len()
            && #[trigger] cannot_read_its_port(
            report,
            l,
            l.apps[a],
            l.apps[a].manifest.services[i],
            v,
        ) implies reported(
        out,
        Severity::Drift,
        unread_port(l.apps[a].manifest.services[i], v),
    ) by {
        let service = l.apps[a].manifest.services[i];
        variable_findings(report, l, l.apps[a], service, v);
        let own = variable_finding(
            service,
            facts_of(report, l, l.apps[a]),
            rel_of(l.workspace_dir, l.apps[a].dir),
        );
        assert(own.contains(own[0]));
        variable_drift_gathers(report, l, n, own[0]);
        let k = choose|k: int| 0 <= k < s4.len() && s4[k] == own[0];
        assert(s4[k].severity == Severity::Drift);
        assert(reported(s4, Severity::Drift, unread_port(service, v)));
    }
    assert forall|start: Seq<char>| #[trigger] reported_as(s5, Severity::Drift, start) implies
        reported_as(out, Severity::Drift, start) by {
        let k = choose|k: int|
            0 <= k < s5.len() && (#[trigger] s5[k]).severity == Severity::Drift
                && text::starts_with_of(s5[k].summary, start);
        let at = (s1 + s2 + s3 + s4).len() + k;
        assert(out[at] == s5[k]);
    }
    assert forall|a: int, i: int|
        0 <= a < l.apps.len() && 0 <= i < l.apps[a].manifest.services.len() && command_pins(
            #[trigger] l.apps[a].manifest.services[i],
        ) implies reported_as(
        out,
        Severity::Drift,
        "service '"@ + l.apps[a].manifest.services[i].id + "' runs the command in magictree.toml"@,
    ) by {
        commands_are_compared(report, l, a, i);
    }
    assert forall|a: int, i: int|
        0 <= a < l.apps.len() && 0 <= i < l.apps[a].manifest.services.len() && step_pins(
            report,
            l,
            l.apps[a],
            #[trigger] l.apps[a].manifest.services[i],
        ) && !hands_over(
            l.apps[a].manifest.services[i],
            advice_of(l, l.apps[a].id, l.apps[a].manifest.services[i]).variable,
        ) implies reported_as(
        out,
        Severity::Drift,
        "service '"@ + l.apps[a].manifest.services[i].id + "' runs "@ + service_step(
            l.apps[a].manifest.services[i],
        ).unwrap().1 + " '"@ + service_step(l.apps[a].manifest.services[i]).unwrap().2 + "' in "@,
    ) by {
        steps_are_compared(report, l, a, i);
    }
    manifest_files_are_listed(l, n + 1);
    untracked_gathers(l, files, untracked, files.len() as int);
    if untracked.contains(paths::join_of(l.workspace_dir, "magictree.toml"@)) {
        assert(untracked.contains(files[0]));
    }
    missing_inputs_gather(inputs, missing, inputs.len() as int);
    assert forall|dir: Seq<char>, m: ManifestView, step: RunStepView, input: Seq<char>|
        is_loaded(l, dir, m) && #[trigger] reads_input(m, step, input) && missing.contains(
            #[trigger] paths::join_of(dir, input),
        ) implies reported(out, Severity::Drift, lost_input(step, input)) by {
        let x = InputView { path: paths::join_of(dir, input), input, command: step.command_of() };
        inputs_are_listed(l, x);
        assert(is_loaded(l, dir, m) && reads_input(m, step, x.input) && x.path == paths::join_of(
            dir,
            x.input,
        ));
        let i = choose|i: int| 0 <= i < inputs.len() && inputs[i] == x;
        assert(missing.contains(inputs[i].path));
        assert(reported(s8, Severity::Drift, lost_input(step, input)));
    }
    exposed_gathers(services, services.len() as int);
    assert forall|service: ServiceView| #[trigger]
        is_service_of(l, service) && lacks_target(service) implies reported(
        out,
        Severity::Drift,
        "compose service '"@ + service.id + "' exposes a port but has no port.target"@,
    ) by {
        services_are_there(l, service);
        let i = choose|i: int| 0 <= i < services.len() && services[i] == service;
        assert(lacks_target(services[i]));
    }
}

/// `doctor` says nothing without a reason: every finding is about one of the things that can drift,
/// and that thing did. In particular a service whose script, recipe or task a fact of its app still
/// declares is not said to have lost it.
pub proof fn doctor_has_a_reason(
    report: ReportView,
    l: LoadedView,
    untracked: Seq<Seq<char>>,
    missing: Seq<Seq<char>>,
    k: int,
)
    requires
        0 <= k < compare_of(report, l, untracked, missing).len(),
    ensures
        ({
            let f = compare_of(report, l, untracked, missing)[k];
            ||| about_apps(report, l, f)
            ||| about_compose(report, l, f)
            ||| about_targets(report, l, f)
            ||| about_variables(report, l, f)
            ||| about_pins(report, l, f)
            ||| about_literals(report, f)
            ||| about_tracking(l, untracked, f)
            ||| about_inputs(l, missing, f)
            ||| about_exposed(l, f)
        }),
{
    let n = l.apps.len() as int;
    let out = compare_of(report, l, untracked, missing);
    let f = out[k];
    let pairs = ports::all_of(report.facts);
    let files = manifest_files(l, n + 1);
    let inputs = inputs_of(l);
    let services = all_services(l);
    let s1 = app_drift(report, l);
    let s2 = compose_drift(report, l);
    let s3 = target_drift(report, l, n);
    let s4 = variable_drift(report, l, n);
    let s5 = pin_drift(report, l, n);
    let steps = reported_steps(report, l, n);
    let s6 = elsewhere_upto(l, steps, pairs, pairs.len() as int);
    let s7 = untracked_upto(l, files, untracked, files.len() as int);
    let s8 = inputs_upto(inputs, missing, inputs.len() as int);
    let s9 = exposed_upto(services, services.len() as int);
    assert(out == s1 + s2 + s3 + s4 + s5 + s6 + s7 + s8 + s9);
    let l1 = s1.len() as int;
    let l2 = l1 + s2.len();
    let l3 = l2 + s3.len();
    let l4 = l3 + s4.len();
    let l5 = l4 + s5.len();
    let l6 = l5 + s6.len();
    let l7 = l6 + s7.len();
    let l8 = l7 + s8.len();
    if k < l1 {
        assert(f == s1[k]);
        apps_are_compared(report, l);
    } else if k < l2 {
        assert(f == s2[k - l1]);
        compose_is_compared(report, l);
    } else if k < l3 {
        assert(f == s3[k - l2]);
        targets_are_compared(report, l, n);
    } else if k < l4 {
        assert(f == s4[k - l3]);
        assert(s4.contains(f));
        variable_drift_gathers(report, l, n, f);
        let (a, i) = choose|a: int, i: int|
            0 <= a < n && 0 <= i < l.apps[a].manifest.services.len() && variable_finding(
                #[trigger] l.apps[a].manifest.services[i],
                facts_of(report, l, l.apps[a]),
                rel_of(l.workspace_dir, l.apps[a].dir),
            ).contains(f);
        let service = l.apps[a].manifest.services[i];
        variable_findings(report, l, l.apps[a], service, Seq::empty());
        let v = choose|v: Seq<char>| #[trigger]
            cannot_read_its_port(report, l, l.apps[a], service, v) && says(
                f,
                Severity::Drift,
                unread_port(service, v),
            );
        assert(cannot_read_its_port(report, l, l.apps[a], l.apps[a].manifest.services[i], v));
    } else if k < l5 {
        assert(f == s5[k - l4]);
        pins_are_justified(report, l, k - l4);
    } else if k < l6 {
        assert(f == s6[k - l5]);
        elsewhere_is_justified(report, l, steps, pairs.len() as int, k - l5);
    } else if k < l7 {
        assert(f == s7[k - l6]);
        manifest_files_are_listed(l, n + 1);
        untracked_gathers(l, files, untracked, files.len() as int);
        let i = choose|i: int|
            0 <= i < files.len() && untracked.contains(#[trigger] files[i]) && says(
                s7[k - l6],
                Severity::Drift,
                paths::display_relative_of(files[i], l.workspace_dir)
                    + " is not committed, so new worktrees will not inherit it"@,
            );
        assert(is_manifest_file(l, files[i]));
    } else if k < l8 {
        assert(f == s8[k - l7]);
        missing_inputs_gather(inputs, missing, inputs.len() as int);
        let i = choose|i: int|
            0 <= i < inputs.len() && missing.contains((#[trigger] inputs[i]).path) && says(
                s8[k - l7],
                Severity::Drift,
                "bootstrap input '"@ + inputs[i].input + "' for `"@ + inputs[i].command
                    + "` does not exist"@,
            );
        let x = inputs[i];
        assert(inputs.contains(x));
        inputs_are_listed(l, x);
        let (dir, m, step) = choose|dir: Seq<char>, m: ManifestView, step: RunStepView|
            is_loaded(l, dir, m) && #[trigger] reads_input(m, step, x.input) && x.path
                == #[trigger] paths::join_of(dir, x.input) && x.command == step.command_of();
        assert(missing.contains(paths::join_of(dir, x.input)));
        assert(says(f, Severity::Drift, lost_input(step, x.input)));
    } else {
        assert(f == s9[k - l8]);
        exposed_gathers(services, services.len() as int);
        let i = choose|i: int|
            0 <= i < services.len() && lacks_target(#[trigger] services[i]) && says(
                s9[k - l8],
                Severity::Drift,
                "compose service '"@ + services[i].id
                    + "' exposes a port but has no port.target"@,
            );
        assert(services.contains(services[i]));
        services_are_there(l, services[i]);
        assert(is_service_of(l, services[i]));
    }
}

proof fn drift_is_counted(out: Seq<DriftView>, k: int)
    requires
        0 <= k <= out.len(),
    ensures
        drift_count(out, k) > 0 <==> exists|i: int|
            0 <= i < k && (#[trigger] out[i]).severity == Severity::Drift,
        drift_count(out, k) <= k,
    decreases k,
{
    if k > 0 {
        drift_is_counted(out, k - 1);
    }
}

/// `doctor` fails exactly where one of its findings is drift; information alone does not fail it.
pub proof fn doctor_fails_on_drift_only(out: Seq<DriftView>)
    ensures
        drift_count(out, out.len() as int) > 0 <==> exists|i: int|
            0 <= i < out.len() && (#[trigger] out[i]).severity == Severity::Drift,
{
    drift_is_counted(out, out.len() as int);
}

/// Every manifest is among the files that should be tracked.
pub proof fn every_manifest_should_be_tracked(l: LoadedView, a: int)
    requires
        0 <= a < l.apps.len(),
    ensures
        ({
            let files = manifest_files(l, l.apps.len() as int + 1);
            &&& files.contains(paths::join_of(l.workspace_dir, "magictree.toml"@))
            &&& exists|i: int|
                0 <= i < files.len() && paths::same_path(
                    #[trigger] files[i],
                    paths::join_of(l.apps[a].dir, "magictree.toml"@),
                )
        }),
{
    manifest_files_are_all(l, l.apps.len() as int + 1, a + 1);
    manifest_files_are_listed(l, l.apps.len() as int + 1);
    assert(manifest_dir(l, a + 1) == l.apps[a].dir);
}

} // verus!
