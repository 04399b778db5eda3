//! Which binaries a batch inspects: for each requested target, the
//! required binaries of every artifact built for it.

use vstd::prelude::*;
use crate::text::str_eq;

verus! {

/// Options of the linkage command.
#[derive(Debug)]
pub struct LinkageArgs {
    /// Print the human-readable report.
    pub print_output: bool,
    /// Print the reports as JSON.
    pub print_json: bool,
    /// Read the reports from this JSON file instead of inspecting binaries.
    pub from_json: Option<String>,
}

/// A built artifact, as far as the batch needs it.
#[derive(Debug, Clone)]
pub struct ArtifactInfo {
    /// The artifact's identifier.
    pub id: String,
    /// The target triples it was built for.
    pub target_triples: Vec<String>,
    /// The file names of the binaries it must contain.
    pub required_binaries: Vec<String>,
}

/// Identifier, targets and binaries.
pub type ArtifactView = (Seq<char>, Seq<Seq<char>>, Seq<Seq<char>>);

impl View for ArtifactInfo {
    type V = ArtifactView;

    open spec fn view(&self) -> ArtifactView {
        (
            self.id@,
            self.target_triples@.map_values(|s: String| s@),
            self.required_binaries@.map_values(|s: String| s@),
        )
    }
}

/// One thing the batch does.
#[derive(Debug, Clone)]
pub enum CheckStep {
    /// No artifact was built for this target: say so and go on.
    NoArtifact { target: String },
    /// Inspect `binary` in the directory `dir` of the distribution directory,
    /// built for `target`.
    Inspect { target: String, dir: String, binary: String },
}

/// The target; then, for an inspection, the directory and the binary.
pub type StepView = (Seq<char>, Option<(Seq<char>, Seq<char>)>);

impl View for CheckStep {
    type V = StepView;

    open spec fn view(&self) -> StepView {
        match self {
            CheckStep::NoArtifact { target } => (target@, None),
            CheckStep::Inspect { target, dir, binary } => (target@, Some((dir@, binary@))),
        }
    }
}

pub open spec fn steps_view(v: Seq<CheckStep>) -> Seq<StepView> {
    v.map_values(|s: CheckStep| s@)
}

/// The directory holding an artifact's files for one target.
pub open spec fn artifact_dir(id: Seq<char>, target: Seq<char>) -> Seq<char> {
    id + "-"@ + target
}

/// The inspections of the artifacts built for `t`, in order.
pub open spec fn inspections(arts: Seq<ArtifactView>, t: Seq<char>) -> Seq<StepView>
    decreases arts.len(),
{
    if arts.len() == 0 {
        Seq::empty()
    } else {
        let a = arts.last();
        let prev = inspections(arts.drop_last(), t);
        if a.1.contains(t) {
            prev + a.2.map_values(|b: Seq<char>| (t, Some((artifact_dir(a.0, t), b))))
        } else {
            prev
        }
    }
}

/// What the batch does for one target.
pub open spec fn target_steps(arts: Seq<ArtifactView>, t: Seq<char>) -> Seq<StepView> {
    if exists|i: int| 0 <= i < arts.len() && (#[trigger] arts[i]).1.contains(t) {
        inspections(arts, t)
    } else {
        seq![(t, None)]
    }
}

/// What the batch does, target after target.
pub open spec fn plan_of(targets: Seq<Seq<char>>, arts: Seq<ArtifactView>) -> Seq<StepView>
    decreases targets.len(),
{
    if targets.len() == 0 {
        Seq::empty()
    } else {
        plan_of(targets.drop_last(), arts) + target_steps(arts, targets.last())
    }
}

/// A target that no artifact was built for yields no inspection, only a
/// notice, and adds nothing else to the batch.
pub proof fn lemma_unmatched_target_is_only_noticed(targets: Seq<Seq<char>>, arts: Seq<ArtifactView>, t: Seq<char>)
    requires
        forall|i: int| 0 <= i < arts.len() ==> !(#[trigger] arts[i]).1.contains(t),
    ensures
        target_steps(arts, t) == seq![(t, None::<(Seq<char>, Seq<char>)>)],
        plan_of(targets.push(t), arts) == plan_of(targets, arts).push((t, None::<(Seq<char>, Seq<char>)>)),
{
    assert(targets.push(t).drop_last() =~= targets);
    assert(plan_of(targets, arts) + seq![(t, None::<(Seq<char>, Seq<char>)>)] =~= plan_of(targets, arts).push(
        (t, None::<(Seq<char>, Seq<char>)>),
    ));
}

fn contains_str(v: &Vec<String>, s: &str) -> (r: bool)
    ensures
        r == v@.map_values(|x: String| x@).contains(s@),
{
    let ghost vs = v@.map_values(|x: String| x@);
    let n = v.len();
    let mut i: usize = 0;
    while i < n
        invariant
            n == v@.len(),
            vs == v@.map_values(|x: String| x@),
            i <= n,
            forall|j: int| 0 <= j < i ==> vs[j] != s@,
        decreases n - i,
    {
        if str_eq(v[i].as_str(), s) {
            assert(vs[i as int] == s@);
            return true;
        }
        i += 1;
    }
    false
}

/// What the batch does for `target`: inspect each required binary of each
/// artifact built for it, or, where there is none, report that.
pub fn steps_for_target(target: &str, artifacts: &Vec<ArtifactInfo>) -> (r: Vec<CheckStep>)
    ensures
        steps_view(r@) == target_steps(artifacts@.map_values(|a: ArtifactInfo| a@), target@),
{
    let ghost arts = artifacts@.map_values(|a: ArtifactInfo| a@);
    let mut out: Vec<CheckStep> = Vec::new();
    let mut matched = false;
    let n = artifacts.len();
    let mut i: usize = 0;
    while i < n
        invariant
            n == artifacts@.len(),
            arts == artifacts@.map_values(|a: ArtifactInfo| a@),
            i <= n,
            steps_view(out@) == inspections(arts.subrange(0, i as int), target@),
            matched <==> exists|j: int| 0 <= j < i && (#[trigger] arts[j]).1.contains(target@),
            !matched ==> out@.len() == 0,
        decreases n - i,
    {
        let a = &artifacts[i];
        assert(arts.subrange(0, i + 1).drop_last() =~= arts.subrange(0, i as int));
        assert(arts.subrange(0, i + 1).last() == a@);
        if contains_str(&a.target_triples, target) {
            matched = true;
            let mut dir = a.id.clone();
            dir.append("-");
            dir.append(target);
            let ghost before = steps_view(out@);
            let ghost bins = a@.2;
            let m = a.required_binaries.len();
            let mut k: usize = 0;
            while k < m
                invariant
                    m == a.required_binaries@.len(),
                    bins == a.required_binaries@.map_values(|s: String| s@),
                    dir@ == artifact_dir(a.id@, target@),
                    k <= m,
                    steps_view(out@) == before + bins.subrange(0, k as int).map_values(
                        |b: Seq<char>| (target@, Some((dir@, b))),
                    ),
                decreases m - k,
            {
                let ghost pre = steps_view(out@);
                out.push(CheckStep::Inspect {
                    target: String::from_str(target),
                    dir: dir.clone(),
                    binary: a.required_binaries[k].clone(),
                });
                assert(steps_view(out@) =~= pre.push((target@, Some((dir@, bins[k as int])))));
                assert(bins.subrange(0, k + 1).map_values(|b: Seq<char>| (target@, Some((dir@, b))))
                    =~= bins.subrange(0, k as int).map_values(|b: Seq<char>| (target@, Some((dir@, b)))).push(
                    (target@, Some((dir@, bins[k as int]))),
                ));
                k += 1;
            }
            assert(bins.subrange(0, m as int) =~= bins);
        }
        i += 1;
    }
    assert(arts.subrange(0, n as int) =~= arts);
    if !matched {
        out.push(CheckStep::NoArtifact { target: String::from_str(target) });
        assert(steps_view(out@) =~= seq![(target@, None::<(Seq<char>, Seq<char>)>)]);
    }
    out
}

/// What the batch does for every requested target, in order.
pub fn plan_linkage_checks(targets: &Vec<String>, artifacts: &Vec<ArtifactInfo>) -> (r: Vec<CheckStep>)
    ensures
        steps_view(r@) == plan_of(targets@.map_values(|s: String| s@), artifacts@.map_values(|a: ArtifactInfo| a@)),
{
    let ghost ts = targets@.map_values(|s: String| s@);
    let ghost arts = artifacts@.map_values(|a: ArtifactInfo| a@);
    let mut out: Vec<CheckStep> = Vec::new();
    let n = targets.len();
    let mut i: usize = 0;
    while i < n
        invariant
            n == targets@.len(),
            ts == targets@.map_values(|s: String| s@),
            arts == artifacts@.map_values(|a: ArtifactInfo| a@),
            i <= n,
            steps_view(out@) == plan_of(ts.subrange(0, i as int), arts),
        decreases n - i,
    {
        assert(ts.subrange(0, i + 1).drop_last() =~= ts.subrange(0, i as int));
        let mut more = steps_for_target(targets[i].as_str(), artifacts);
        let ghost before = steps_view(out@);
        let ghost added = steps_view(more@);
        out.append(&mut more);
        assert(steps_view(out@) =~= before + added);
        i += 1;
    }
    assert(ts.subrange(0, n as int) =~= ts);
    out
}

} // verus!
