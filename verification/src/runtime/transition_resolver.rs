//! What an executor that chooses transitions itself is offered.

use vstd::prelude::*;

use crate::json::{views, Json, JsonMap};
use crate::model::{Principal, WorkflowInstance};
use crate::runtime::links::{link_filter_byguards, links};
use crate::runtime::response::{filter_links_by_guards, offered_links};
use crate::runtime::script::{reply_views, sound, Reply, Step};

verus! {

/// Offers the same links that a response of the runtime would show.
pub struct RuntimeTransitionResolver<R> {
    pub runtime: R,
}

impl<R> RuntimeTransitionResolver<R> {
    /// A resolver on a runtime.
    pub fn new(runtime: R) -> (r: Self)
        ensures
            r.runtime == runtime,
    {
        RuntimeTransitionResolver { runtime }
    }

    /// The transitions that the principal can take from where an instance stands, as links.
    /// `resolved` has what the `prefill` declarations were resolved to.
    pub fn available_transitions(
        &self,
        instance: &WorkflowInstance,
        principal: &Principal,
        resolved: &JsonMap,
        replies: &Vec<Reply>,
    ) -> (r: Step<Vec<Json>>)
        requires
            sound(replies@),
        ensures
            r.seen(|v: Vec<Json>| views(v@)) == offered_links(
                instance.definition@,
                instance@,
                principal@,
                resolved@,
                reply_views(replies@),
            ),
    {
        let all = links(&instance.definition, instance, resolved);
        if link_filter_byguards(&instance.definition, instance.state.as_str()) {
            filter_links_by_guards(&all, &instance.definition, instance, principal, replies)
        } else {
            Step::Done(all)
        }
    }
}

} // verus!
