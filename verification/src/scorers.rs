use vstd::prelude::*;

verus! {

/// Estimated expense of fetching from a host: latency, prior errors,
/// per-host limits.
#[derive(Debug, Clone)]
pub struct CostScorer;

impl CostScorer {
    pub fn new() -> (r: CostScorer) {
        CostScorer
    }
}

/// Penalty for sites whose URL count is already large.
#[derive(Debug, Clone)]
pub struct CoverageScorer;

impl CoverageScorer {
    pub fn new() -> (r: CoverageScorer) {
        CoverageScorer
    }
}

/// Preference between first fetches and recrawls.
#[derive(Debug, Clone)]
pub struct FreshnessScorer;

impl FreshnessScorer {
    pub fn new() -> (r: FreshnessScorer) {
        FreshnessScorer
    }
}

/// Importance by seed distance and unique inlinks.
#[derive(Debug, Clone)]
pub struct ImportanceScorer;

impl ImportanceScorer {
    pub fn new() -> (r: ImportanceScorer) {
        ImportanceScorer
    }
}

/// Expected yield: reward for novelty.
#[derive(Debug, Clone)]
pub struct NoveltyScorer;

impl NoveltyScorer {
    pub fn new() -> (r: NoveltyScorer) {
        NoveltyScorer
    }
}

/// Spam likelihood: adversarial proximity and templated content.
#[derive(Debug, Clone)]
pub struct SpamScorer;

impl SpamScorer {
    pub fn new() -> (r: SpamScorer) {
        SpamScorer
    }
}

} // verus!
