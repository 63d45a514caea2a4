//! A registry whose tools stand in the configuration.

use vstd::prelude::*;

use crate::tool_catalog::candidate::{candidate_views, CandidateView, ToolCandidate};
use crate::tool_catalog::registry::{CatalogIo, RegistryAdapter};

verus! {

/// The tools of one `static` registry.
pub struct StaticAdapter {
    name: String,
    candidates: Vec<ToolCandidate>,
}

/// Tools with the name of the registry that offers them.
pub open spec fn stamped(s: Seq<CandidateView>, name: Seq<char>) -> Seq<CandidateView> {
    s.map_values(|c: CandidateView| CandidateView { provenance: name, ..c })
}

impl StaticAdapter {
    pub closed spec fn held(&self) -> Seq<CandidateView> {
        candidate_views(self.candidates@)
    }

    pub fn new(name: &str, candidates: Vec<ToolCandidate>) -> (r: StaticAdapter)
        ensures
            r.label() == name@,
            r.held() == candidate_views(candidates@),
    {
        StaticAdapter { name: name.to_owned(), candidates }
    }

    /// The tools, with the registry's name.
    pub fn offered(&self) -> (r: Vec<ToolCandidate>)
        ensures
            candidate_views(r@) == stamped(self.held(), self.label()),
    {
        let mut out: Vec<ToolCandidate> = Vec::new();
        let mut i: usize = 0;
        while i < self.candidates.len()
            invariant
                i <= self.candidates@.len(),
                i == out@.len(),
                forall|j: int|
                    0 <= j < i ==> (#[trigger] out@[j])@ == (CandidateView {
                        provenance: self.name@,
                        ..self.candidates@[j]@
                    }),
            decreases self.candidates@.len() - i,
        {
            let mut c = self.candidates[i].clone();
            c.provenance = self.name.clone();
            out.push(c);
            i = i + 1;
        }
        assert(candidate_views(out@) =~= stamped(self.held(), self.label()));
        out
    }
}

impl RegistryAdapter for StaticAdapter {
    closed spec fn label(&self) -> Seq<char> {
        self.name@
    }

    fn name(&self) -> (r: &str) {
        self.name.as_str()
    }

    fn candidates<I: CatalogIo>(&self, io: &I, vocabulary: &Vec<String>) -> (r: Result<
        Vec<ToolCandidate>,
        String,
    >)
        ensures
            r matches Ok(list) && candidate_views(list@) == stamped(self.held(), self.label()),
    {
        let list = self.offered();
        proof {
            assert forall|i: int| 0 <= i < list@.len() implies (#[trigger] list@[i]).provenance@
                == self.label() by {
                assert(candidate_views(list@)[i] == list@[i]@);
                assert(candidate_views(list@).len() == list@.len());
                assert(stamped(self.held(), self.label()).len() == self.held().len());
                assert(candidate_views(list@)[i].provenance == self.label());
            }
        }
        Ok(list)
    }
}

} // verus!
