//! Provenance: the source-trace chain attached to facts and outputs, so every
//! confirmed memory can be traced back to where it came from and who touched it.

use vstd::prelude::*;

verus! {

/// Where a piece of memory originated.
#[derive(Debug, Clone, PartialEq, Eq)]
pub enum Source {
    Chat { plan: String, node: String },
    File { path: String, line: Option<u32> },
    User { input: String },
    Mcp { client: String },
    External { uri: String },
}

/// One hop of the audit chain: what was done, by whom, and when
/// (`at` counts nanoseconds since the Unix epoch, UTC).
#[derive(Debug, Clone, PartialEq, Eq)]
pub struct Step {
    pub at: i128,
    pub action: String,
    pub by: String,
}

#[derive(Debug, Clone, PartialEq, Eq)]
pub struct Provenance {
    pub sources: Vec<Source>,
    pub chain: Vec<Step>,
}

/// The value of a [`Source`].
pub enum SourceView {
    Chat { plan: Seq<char>, node: Seq<char> },
    File { path: Seq<char>, line: Option<u32> },
    User { input: Seq<char> },
    Mcp { client: Seq<char> },
    External { uri: Seq<char> },
}

/// The value of a [`Step`].
pub struct StepView {
    pub at: i128,
    pub action: Seq<char>,
    pub by: Seq<char>,
}

/// The value of a [`Provenance`].
pub struct ProvenanceView {
    pub sources: Seq<SourceView>,
    pub chain: Seq<StepView>,
}

impl View for Source {
    type V = SourceView;

    open spec fn view(&self) -> SourceView {
        match self {
            Source::Chat { plan, node } => SourceView::Chat { plan: plan@, node: node@ },
            Source::File { path, line } => SourceView::File { path: path@, line: *line },
            Source::User { input } => SourceView::User { input: input@ },
            Source::Mcp { client } => SourceView::Mcp { client: client@ },
            Source::External { uri } => SourceView::External { uri: uri@ },
        }
    }
}

impl View for Step {
    type V = StepView;

    open spec fn view(&self) -> StepView {
        StepView { at: self.at, action: self.action@, by: self.by@ }
    }
}

pub open spec fn source_views(s: Seq<Source>) -> Seq<SourceView> {
    s.map_values(|x: Source| x@)
}

pub open spec fn step_views(s: Seq<Step>) -> Seq<StepView> {
    s.map_values(|x: Step| x@)
}

impl View for Provenance {
    type V = ProvenanceView;

    open spec fn view(&self) -> ProvenanceView {
        ProvenanceView { sources: source_views(self.sources@), chain: step_views(self.chain@) }
    }
}

impl Source {
    /// A copy with the same value.
    pub fn duplicate(&self) -> (r: Source)
        ensures
            r@ == self@,
    {
        match self {
            Source::Chat { plan, node } => Source::Chat { plan: plan.clone(), node: node.clone() },
            Source::File { path, line } => Source::File { path: path.clone(), line: *line },
            Source::User { input } => Source::User { input: input.clone() },
            Source::Mcp { client } => Source::Mcp { client: client.clone() },
            Source::External { uri } => Source::External { uri: uri.clone() },
        }
    }
}

impl Step {
    /// A copy with the same value.
    pub fn duplicate(&self) -> (r: Step)
        ensures
            r@ == self@,
    {
        Step { at: self.at, action: self.action.clone(), by: self.by.clone() }
    }
}

impl Provenance {
    /// A copy with the same value.
    pub fn duplicate(&self) -> (r: Provenance)
        ensures
            r@ == self@,
    {
        let mut sources: Vec<Source> = Vec::new();
        let mut i: usize = 0;
        while i < self.sources.len()
            invariant
                i <= self.sources.len(),
                source_views(sources@) =~= source_views(self.sources@.take(i as int)),
            decreases self.sources.len() - i,
        {
            let ghost prev = sources@;
            let x = self.sources[i].duplicate();
            sources.push(x);
            assert(self.sources@.take(i + 1) =~= self.sources@.take(i as int).push(self.sources@[i as int]));
            assert(source_views(sources@) =~= source_views(prev).push(x@));
            assert(source_views(self.sources@.take(i + 1)) =~= source_views(self.sources@.take(i as int)).push(self.sources@[i as int]@));
            i = i + 1;
        }
        assert(self.sources@.take(i as int) =~= self.sources@);
        let mut chain: Vec<Step> = Vec::new();
        let mut j: usize = 0;
        while j < self.chain.len()
            invariant
                j <= self.chain.len(),
                step_views(chain@) =~= step_views(self.chain@.take(j as int)),
            decreases self.chain.len() - j,
        {
            let ghost prev = chain@;
            let x = self.chain[j].duplicate();
            chain.push(x);
            assert(self.chain@.take(j + 1) =~= self.chain@.take(j as int).push(self.chain@[j as int]));
            assert(step_views(chain@) =~= step_views(prev).push(x@));
            assert(step_views(self.chain@.take(j + 1)) =~= step_views(self.chain@.take(j as int)).push(self.chain@[j as int]@));
            j = j + 1;
        }
        assert(self.chain@.take(j as int) =~= self.chain@);
        Provenance { sources, chain }
    }
}

} // verus!
