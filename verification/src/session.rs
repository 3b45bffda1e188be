//! Recorded sessions: the actions an agent took, step by step, and the state
//! of a session replayed up to a step.
use vstd::prelude::*;

verus! {

#[derive(Debug, Clone)]
pub struct SessionAction {
    pub id: i64,
    pub session_id: String,
    pub step_number: u32,
    pub timestamp: String,
    pub action_type: String,
    pub agent_pid: u32,
    pub payload: String,
}

#[derive(Debug, Clone)]
pub struct SessionState {
    pub session_id: String,
    pub actions_up_to_step: Vec<SessionAction>,
    pub step: u32,
}

/// The actions of a session up to and including `step`, in step order, as
/// replay shows them.
pub open spec fn actions_up_to(actions: Seq<SessionAction>, step: u32) -> Seq<SessionAction>
    decreases actions.len(),
{
    if actions.len() == 0 {
        Seq::empty()
    } else if actions.last().step_number <= step {
        actions_up_to(actions.drop_last(), step).push(actions.last())
    } else {
        actions_up_to(actions.drop_last(), step)
    }
}

impl SessionState {
    /// The state of session `session_id` at `step`, given its actions in
    /// step order.
    pub fn at_step(session_id: String, actions: Vec<SessionAction>, step: u32) -> (st: Self)
        ensures
            st.session_id == session_id,
            st.step == step,
            st.actions_up_to_step@ == actions_up_to(actions@, step),
    {
        let ghost all = actions@;
        let n0 = actions.len();
        assert(all.len() == n0);
        let mut rest = actions;
        let mut kept: Vec<SessionAction> = Vec::new();
        let mut k: usize = 0;
        while rest.len() > 0
            invariant
                k <= all.len(),
                all.len() <= usize::MAX,
                k + rest@.len() == all.len(),
                rest@ == all.skip(k as int),
                kept@ == actions_up_to(all.take(k as int), step),
            decreases rest.len(),
        {
            let a = rest.remove(0);
            proof {
                assert(all.take(k + 1).drop_last() =~= all.take(k as int));
                assert(all.take(k + 1).last() == a);
                assert(rest@ =~= all.skip(k + 1));
            }
            if a.step_number <= step {
                kept.push(a);
            }
            k = k + 1;
        }
        proof {
            assert(all.take(k as int) =~= all);
        }
        SessionState { session_id, actions_up_to_step: kept, step }
    }
}

} // verus!
