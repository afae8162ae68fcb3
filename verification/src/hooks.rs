//! Event hooks: which hooks answer an event, and what each of them asks to
//! run (a webhook call, a shell command).

use vstd::prelude::*;
use crate::text::{opt_str, same_text};

verus! {

/// A hook: the event it answers, whether it is on, and what it runs.
#[derive(Debug, Clone)]
pub struct HookDefinition {
    /// The name of the event, as the event prints itself.
    pub event: String,
    pub enabled: bool,
    /// A URL that receives the event's payload by HTTP POST.
    pub webhook_url: Option<String>,
    /// A shell command to run.
    pub command: Option<String>,
}

/// What answering an event runs.
#[derive(Debug, Clone, PartialEq, Eq)]
pub enum HookAction {
    /// POST the payload to this URL.
    Webhook(String),
    /// Run this shell command.
    Command(String),
}

/// The plain value of an action.
pub ghost enum ActionView {
    Webhook(Seq<char>),
    Command(Seq<char>),
}

/// The plain value of an action.
pub open spec fn action_view(a: HookAction) -> ActionView {
    match a {
        HookAction::Webhook(u) => ActionView::Webhook(u@),
        HookAction::Command(c) => ActionView::Command(c@),
    }
}

/// The plain values of actions.
pub open spec fn action_views(v: Seq<HookAction>) -> Seq<ActionView> {
    Seq::new(v.len(), |i: int| action_view(v[i]))
}

/// The hook answers the event `event`: it is on and names that event.
pub open spec fn answers(h: HookDefinition, event: Seq<char>) -> bool {
    h.enabled && h.event@ == event
}

/// The hooks of `hs` that answer `event`, in order.
pub open spec fn matching(hs: Seq<HookDefinition>, event: Seq<char>) -> Seq<HookDefinition>
    decreases hs.len(),
{
    if hs.len() == 0 {
        seq![]
    } else {
        let r = matching(hs.drop_last(), event);
        if answers(hs.last(), event) {
            r.push(hs.last())
        } else {
            r
        }
    }
}

/// What one hook runs: its webhook call, then its command.
pub open spec fn hook_actions(h: HookDefinition) -> Seq<ActionView> {
    let w: Seq<ActionView> = match opt_str(h.webhook_url) {
        Some(u) => seq![ActionView::Webhook(u)],
        None => seq![],
    };
    let c: Seq<ActionView> = match opt_str(h.command) {
        Some(x) => seq![ActionView::Command(x)],
        None => seq![],
    };
    w + c
}

/// What the hooks `hs` run, in order.
pub open spec fn all_actions(hs: Seq<HookDefinition>) -> Seq<ActionView>
    decreases hs.len(),
{
    if hs.len() == 0 {
        seq![]
    } else {
        all_actions(hs.drop_last()) + hook_actions(hs.last())
    }
}

/// The hooks of the pipeline.
pub struct HookRegistry {
    hooks: Vec<HookDefinition>,
}

impl View for HookRegistry {
    type V = Seq<HookDefinition>;

    closed spec fn view(&self) -> Seq<HookDefinition> {
        self.hooks@
    }
}

impl HookRegistry {
    /// A registry of `hooks`.
    pub fn new(hooks: Vec<HookDefinition>) -> (r: Self)
        ensures
            r@ == hooks@,
    {
        HookRegistry { hooks }
    }

    /// A registry without hooks.
    pub fn empty() -> (r: Self)
        ensures
            r@.len() == 0,
    {
        HookRegistry { hooks: Vec::new() }
    }

    /// The hooks that answer the event named `event`: those that are on and
    /// name it, in order.
    pub fn get_hooks(&self, event: &str) -> (r: Vec<&HookDefinition>)
        ensures
            r@.len() == matching(self@, event@).len(),
            forall|i: int| 0 <= i < r@.len() ==> *(#[trigger] r@[i]) == matching(self@, event@)[i],
    {
        let mut r: Vec<&HookDefinition> = Vec::new();
        let mut i: usize = 0;
        while i < self.hooks.len()
            invariant
                i <= self.hooks@.len(),
                r@.len() == matching(self.hooks@.take(i as int), event@).len(),
                forall|k: int|
                    0 <= k < r@.len() ==> *(#[trigger] r@[k]) == matching(self.hooks@.take(i as int), event@)[k],
            decreases self.hooks@.len() - i,
        {
            proof {
                assert(self.hooks@.take(i + 1).drop_last() =~= self.hooks@.take(i as int));
                assert(self.hooks@.take(i + 1).last() == self.hooks@[i as int]);
            }
            let h = &self.hooks[i];
            if h.enabled && same_text(h.event.as_str(), event) {
                r.push(h);
            }
            i = i + 1;
        }
        proof {
            assert(self.hooks@.take(i as int) =~= self.hooks@);
        }
        r
    }

    /// What answering the event named `event` runs: for each answering hook
    /// in order, its webhook call and then its command.
    pub fn actions_for(&self, event: &str) -> (r: Vec<HookAction>)
        ensures
            action_views(r@) == all_actions(matching(self@, event@)),
    {
        let hs = self.get_hooks(event);
        let ghost m = matching(self@, event@);
        let mut r: Vec<HookAction> = Vec::new();
        let mut i: usize = 0;
        proof {
            assert(action_views(r@) =~= all_actions(m.take(0)));
        }
        while i < hs.len()
            invariant
                i <= hs@.len() == m.len(),
                forall|k: int| 0 <= k < hs@.len() ==> *(#[trigger] hs@[k]) == m[k],
                action_views(r@) == all_actions(m.take(i as int)),
            decreases hs@.len() - i,
        {
            proof {
                assert(m.take(i + 1).drop_last() =~= m.take(i as int));
                assert(m.take(i + 1).last() == m[i as int]);
            }
            let h = hs[i];
            let ghost before = action_views(r@);
            if let Some(u) = &h.webhook_url {
                r.push(HookAction::Webhook(u.clone()));
            }
            let ghost mid = action_views(r@);
            if let Some(c) = &h.command {
                r.push(HookAction::Command(c.clone()));
            }
            proof {
                assert(action_views(r@) =~= before + hook_actions(m[i as int]));
            }
            i = i + 1;
        }
        proof {
            assert(m.take(i as int) =~= m);
        }
        r
    }
}

} // verus!
