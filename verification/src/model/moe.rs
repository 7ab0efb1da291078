//! Routing shapes: how many experts there are, and how many of them a token goes to.
use vstd::prelude::*;

verus! {

/// Why a router cannot be built, if it cannot.
pub open spec fn router_problem_text(num_experts: usize, top_k: usize) -> Option<Seq<char>> {
    if num_experts == 0 {
        Some("num_experts must be greater than zero"@)
    } else if top_k == 0 {
        Some("top_k must be greater than zero"@)
    } else if top_k > num_experts {
        Some("top_k must not exceed num_experts"@)
    } else {
        None
    }
}

/// Why a router cannot be built, if it cannot.
pub fn router_problem(num_experts: usize, top_k: usize) -> (problem: Option<&'static str>)
    ensures
        match problem {
            Some(message) => router_problem_text(num_experts, top_k) == Some(message@),
            None => router_problem_text(num_experts, top_k) is None,
        },
{
    if num_experts == 0 {
        return Some("num_experts must be greater than zero");
    }
    if top_k == 0 {
        return Some("top_k must be greater than zero");
    }
    if top_k > num_experts {
        return Some("top_k must not exceed num_experts");
    }
    None
}

/// A router can be built exactly where it is to choose at least one of its experts, and no more
/// than it has.
pub proof fn law_routers_choose_among_their_experts(num_experts: usize, top_k: usize)
    ensures
        router_problem_text(num_experts, top_k) is None <==> 0 < top_k <= num_experts,
{
}

} // verus!
