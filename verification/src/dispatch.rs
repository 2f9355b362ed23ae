use vstd::prelude::*;
use crate::entity::Entity;
use crate::attributes::{AttributeGraph, AttributeView, ValueView, enabled_flag, lookup};
use crate::engine::{Sequence, SequenceView};

verus! {

/// What the runtime editor does with a configuration block dispatched to it.
#[derive(Debug, Clone)]
pub enum DispatchPlan {
    /// Load the project at this source and create an engine for the block,
    LoadProject(String),
    /// Create an event from the block with the installed plugin: give it a
    /// connection and a sequence when `connect`, and fire it at once when `auto`,
    Create { connect: bool, auto: bool },
    /// Nothing can be made of the block,
    Ignore,
}

pub enum DispatchPlanView {
    LoadProject(Seq<char>),
    Create { connect: bool, auto: bool },
    Ignore,
}

impl View for DispatchPlan {
    type V = DispatchPlanView;

    open spec fn view(&self) -> DispatchPlanView {
        match self {
            DispatchPlan::LoadProject(s) => DispatchPlanView::LoadProject(s@),
            DispatchPlan::Create { connect, auto } => DispatchPlanView::Create { connect: *connect, auto: *auto },
            DispatchPlan::Ignore => DispatchPlanView::Ignore,
        }
    }
}

/// The text of the attribute named `name`, when it holds text.
pub open spec fn text_attr(attrs: Seq<AttributeView>, name: Seq<char>) -> Option<Seq<char>> {
    match lookup(attrs, name) {
        Some(a) => match a.value {
            ValueView::TextBuffer(t) => Some(t),
            _ => None,
        },
        None => None,
    }
}

/// A flag that is off unless set: `unwrap_or_default` of a flag.
pub open spec fn flag_or_off(attrs: Seq<AttributeView>, name: Seq<char>) -> bool {
    match enabled_flag(attrs, name) {
        Some(b) => b,
        None => false,
    }
}

/// The plan for a dispatched block: a block naming a project source loads it;
/// otherwise a block whose plugin is installed is created, connected when it
/// enables connections, and fired at once in auto mode.
pub open spec fn dispatch_plan_spec(config: Seq<AttributeView>, plugin_installed: bool) -> DispatchPlanView {
    match text_attr(config, "project_src"@) {
        Some(src) => DispatchPlanView::LoadProject(src),
        None => if plugin_installed {
            DispatchPlanView::Create {
                connect: enabled_flag(config, "enable_connection"@) == Some(true),
                auto: flag_or_off(config, "auto"@),
            }
        } else {
            DispatchPlanView::Ignore
        },
    }
}

/// Plans what to do with a dispatched configuration block.
pub fn plan_dispatch(config: &AttributeGraph, plugin_installed: bool) -> (p: DispatchPlan)
    ensures
        p@ == dispatch_plan_spec(config@.attributes, plugin_installed),
{
    match config.find_text("project_src") {
        Some(src) => DispatchPlan::LoadProject(src),
        None => {
            if plugin_installed {
                let connect = config.is_enabled("enable_connection") == Some(true);
                let auto = match config.is_enabled("auto") {
                    Some(b) => b,
                    None => false,
                };
                DispatchPlan::Create { connect, auto }
            } else {
                DispatchPlan::Ignore
            }
        },
    }
}

/// The configuration of a fix for a failed event: the fix block's
/// configuration, with the attributes of the previous attempt, where there was
/// one, merged in: each is copied into it, replacing the one of the same name.
pub fn fix_config(config: &AttributeGraph, previous_attempt: Option<&AttributeGraph>) -> (r: AttributeGraph)
    ensures
        r@ == (match previous_attempt {
            Some(p) => crate::section::copy_all(config@, p@.attributes),
            None => config@,
        }),
{
    let mut merged = config.duplicate();
    match previous_attempt {
        None => {},
        Some(p) => {
            let attrs = p.attributes();
            let ghost av = p@.attributes;
            let mut i: usize = 0;
            while i < attrs.len()
                invariant
                    i <= attrs@.len(),
                    crate::attributes::attributes_view(attrs@) == av,
                    merged@ == crate::section::copy_all(config@, av.subrange(0, i as int)),
                decreases attrs@.len() - i,
            {
                merged.copy_attribute(&attrs[i]);
                assert(av.subrange(0, i + 1 as int).drop_last() =~= av.subrange(0, i as int));
                assert(av.subrange(0, i + 1 as int).last() == attrs@[i as int]@);
                i = i + 1;
            }
            assert(av.subrange(0, i as int) =~= av);
        },
    }
    merged
}

/// Whether a fix for a failed event starts at once: its configuration's `auto` flag.
pub fn fix_is_auto(fix_config: &AttributeGraph) -> (auto: bool)
    ensures
        auto == flag_or_off(fix_config@.attributes, "auto"@),
{
    match fix_config.is_enabled("auto") {
        Some(b) => b,
        None => false,
    }
}

/// The sequence of a fix: no events of its own, continuing to the event that stopped.
pub fn fix_sequence(stopped: Entity) -> (s: Sequence)
    ensures
        s@.events == Seq::<Entity>::empty(),
        s@.cursor == seq![stopped],
{
    let mut s = Sequence::new();
    s.set_cursor(stopped);
    assert(s@.cursor =~= seq![stopped]);
    s
}

} // verus!
