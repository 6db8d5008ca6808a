//! Editing Codex's hook configuration: installing the tool's handlers beside the user's,
//! and removing them again.
//!
//! The configuration is read as a shape: its events, each event's groups (with where each
//! group came from), and each group's handlers (with their position in the group). The
//! edits decide which groups and handlers stay; the caller rebuilds the file from the
//! positions that remain.

use vstd::prelude::*;

use crate::error::JevxError;
use crate::hook_config::{is_tool_handler, spec_is_tool_handler, HookCommands};
use crate::hooks::opt_string;
use crate::text::{chars_eq, chars_of, concat3};

verus! {

/// A handler of a group, by what decides whether it is the tool's own: its `type` and
/// `command` (when they are strings), and its position in the group's `hooks` array.
#[derive(Debug, Clone)]
pub struct HandlerFacts {
    pub index: usize,
    pub handler_type: Option<String>,
    pub command: Option<String>,
}

/// Where a group comes from: a position in the existing event's array, or in the
/// generated one.
#[derive(Debug, Clone, Copy, PartialEq, Eq, Structural)]
pub enum GroupSource {
    Existing(usize),
    Generated(usize),
}

/// A group of an event. `handlers` is its `hooks` array when the group is an object that
/// has one; a group of any other shape is left as it is.
#[derive(Debug, Clone)]
pub struct GroupFacts {
    pub source: GroupSource,
    pub handlers: Option<Vec<HandlerFacts>>,
}

/// An event of the `hooks` object. `groups` is its array; an event whose value is not an
/// array has none and is left as it is.
#[derive(Debug, Clone)]
pub struct EventFacts {
    pub name: String,
    pub groups: Option<Vec<GroupFacts>>,
}

/// The shape of a whole configuration.
#[derive(Debug, Clone)]
pub enum ConfigShape {
    /// The root is not an object.
    NotObject,
    /// The root is an object without `hooks`.
    NoHooks,
    /// `hooks` is not an object.
    HooksNotObject,
    /// The events of the `hooks` object, in order.
    Hooks(Vec<EventFacts>),
}

// ---------------------------------------------------------------------------------------
// The model: a handler is its position and whether it is the tool's own
// ---------------------------------------------------------------------------------------

pub open spec fn handler_view(h: HandlerFacts) -> (usize, bool) {
    (h.index, spec_is_tool_handler(opt_string(h.handler_type), opt_string(h.command)))
}

pub open spec fn handlers_view(hs: Seq<HandlerFacts>) -> Seq<(usize, bool)> {
    hs.map_values(|h: HandlerFacts| handler_view(h))
}

pub open spec fn group_view(g: GroupFacts) -> (GroupSource, Option<Seq<(usize, bool)>>) {
    (g.source, match g.handlers {
        Some(v) => Some(handlers_view(v@)),
        None => None,
    })
}

pub open spec fn groups_view(gs: Seq<GroupFacts>) -> Seq<(GroupSource, Option<Seq<(usize, bool)>>)> {
    gs.map_values(|g: GroupFacts| group_view(g))
}

pub open spec fn event_view(e: EventFacts) -> (Seq<char>, Option<Seq<(GroupSource, Option<Seq<(usize, bool)>>)>>) {
    (e.name@, match e.groups {
        Some(v) => Some(groups_view(v@)),
        None => None,
    })
}

pub open spec fn events_view(es: Seq<EventFacts>) -> Seq<(Seq<char>, Option<Seq<(GroupSource, Option<Seq<(usize, bool)>>)>>)> {
    es.map_values(|e: EventFacts| event_view(e))
}

/// The handlers that are not the tool's own, in order.
pub open spec fn unmanaged(hs: Seq<(usize, bool)>) -> Seq<(usize, bool)>
    decreases hs.len(),
{
    if hs.len() == 0 {
        seq![]
    } else if hs.last().1 {
        unmanaged(hs.drop_last())
    } else {
        unmanaged(hs.drop_last()).push(hs.last())
    }
}

/// How many of a group's handlers are the tool's own.
pub open spec fn group_removed(g: (GroupSource, Option<Seq<(usize, bool)>>)) -> nat {
    match g.1 {
        Some(hs) => (hs.len() - unmanaged(hs).len()) as nat,
        None => 0,
    }
}

/// Removing the tool's handlers from an event's groups: a group that had some and has
/// nothing left is dropped; every other group keeps its other handlers.
pub open spec fn strip_groups(gs: Seq<(GroupSource, Option<Seq<(usize, bool)>>)>) -> Seq<(GroupSource, Option<Seq<(usize, bool)>>)>
    decreases gs.len(),
{
    if gs.len() == 0 {
        seq![]
    } else {
        let rest = strip_groups(gs.drop_last());
        let g = gs.last();
        match g.1 {
            Some(hs) => {
                let kept = unmanaged(hs);
                if kept.len() < hs.len() && kept.len() == 0 {
                    rest
                } else {
                    rest.push((g.0, Some(kept)))
                }
            },
            None => rest.push(g),
        }
    }
}

pub open spec fn removed_in(gs: Seq<(GroupSource, Option<Seq<(usize, bool)>>)>) -> nat
    decreases gs.len(),
{
    if gs.len() == 0 {
        0
    } else {
        removed_in(gs.drop_last()) + group_removed(gs.last())
    }
}

/// Removing the tool's handlers from every event: an event that lost handlers and has no
/// group left is dropped; an event that is not an array is kept as it is.
pub open spec fn strip_events(es: Seq<(Seq<char>, Option<Seq<(GroupSource, Option<Seq<(usize, bool)>>)>>)>) -> Seq<(Seq<char>, Option<Seq<(GroupSource, Option<Seq<(usize, bool)>>)>>)>
    decreases es.len(),
{
    if es.len() == 0 {
        seq![]
    } else {
        let rest = strip_events(es.drop_last());
        let e = es.last();
        match e.1 {
            Some(gs) => {
                let kept = strip_groups(gs);
                if removed_in(gs) > 0 && kept.len() == 0 {
                    rest
                } else {
                    rest.push((e.0, Some(kept)))
                }
            },
            None => rest.push(e),
        }
    }
}

/// How many handlers removing the tool's handlers takes out.
pub open spec fn removed_total(es: Seq<(Seq<char>, Option<Seq<(GroupSource, Option<Seq<(usize, bool)>>)>>)>) -> nat
    decreases es.len(),
{
    if es.len() == 0 {
        0
    } else {
        removed_total(es.drop_last()) + match es.last().1 {
            Some(gs) => removed_in(gs),
            None => 0,
        }
    }
}

/// A count as `usize`, saturated.
pub open spec fn clamp(n: nat) -> usize {
    if n <= usize::MAX { n as usize } else { usize::MAX }
}

pub open spec fn root_error() -> Seq<char> {
    "hooks.json root must be an object"@
}

pub open spec fn hooks_error() -> Seq<char> {
    "hooks must be an object"@
}

pub open spec fn generated_config_error() -> Seq<char> {
    "generated hook config is invalid"@
}

pub open spec fn generated_groups_error() -> Seq<char> {
    "generated hook groups are invalid"@
}

// ---------------------------------------------------------------------------------------
// Removing the tool's handlers
// ---------------------------------------------------------------------------------------

fn copy_string(s: &Option<String>) -> (res: Option<String>)
    ensures
        opt_string(res) == opt_string(*s),
{
    match s {
        Some(v) => Some(v.clone()),
        None => None,
    }
}

fn copy_handler(h: &HandlerFacts) -> (res: HandlerFacts)
    ensures
        res.index == h.index,
        opt_string(res.handler_type) == opt_string(h.handler_type),
        opt_string(res.command) == opt_string(h.command),
        handler_view(res) == handler_view(*h),
{
    HandlerFacts { index: h.index, handler_type: copy_string(&h.handler_type), command: copy_string(&h.command) }
}

fn is_managed(h: &HandlerFacts) -> (res: bool)
    ensures
        res == handler_view(*h).1,
{
    let t = match &h.handler_type {
        Some(v) => Some(v.as_str()),
        None => None,
    };
    let c = match &h.command {
        Some(v) => Some(v.as_str()),
        None => None,
    };
    proof {
        assert(crate::hook_config::opt_str(t) == opt_string(h.handler_type));
        assert(crate::hook_config::opt_str(c) == opt_string(h.command));
    }
    is_tool_handler(t, c)
}

fn unmanaged_exec(hs: &Vec<HandlerFacts>) -> (res: Vec<HandlerFacts>)
    ensures
        handlers_view(res@) == unmanaged(handlers_view(hs@)),
        res@.len() <= hs@.len(),
{
    let mut out: Vec<HandlerFacts> = Vec::new();
    let mut i: usize = 0;
    while i < hs.len()
        invariant
            i <= hs.len(),
            out@.len() <= i,
            handlers_view(out@) == unmanaged(handlers_view(hs@.take(i as int))),
        decreases hs.len() - i,
    {
        proof {
            assert(handlers_view(hs@.take(i + 1)).drop_last() =~= handlers_view(hs@.take(i as int)));
            assert(handlers_view(hs@.take(i + 1)).last() == handler_view(hs@[i as int]));
        }
        if !is_managed(&hs[i]) {
            let ghost before = out@;
            out.push(copy_handler(&hs[i]));
            proof {
                assert(handlers_view(out@) =~= handlers_view(before).push(handler_view(hs@[i as int])));
            }
        }
        i = i + 1;
    }
    proof {
        assert(hs@.take(i as int) =~= hs@);
    }
    out
}

fn copy_group_as(g: &GroupFacts, handlers: Option<Vec<HandlerFacts>>) -> (res: GroupFacts)
    ensures
        res.source == g.source,
        res.handlers == handlers,
{
    GroupFacts { source: g.source, handlers }
}

fn strip_groups_exec(gs: &Vec<GroupFacts>) -> (res: (Vec<GroupFacts>, usize))
    ensures
        groups_view(res.0@) == strip_groups(groups_view(gs@)),
        res.1 == clamp(removed_in(groups_view(gs@))),
{
    let mut out: Vec<GroupFacts> = Vec::new();
    let mut removed: usize = 0;
    let mut i: usize = 0;
    while i < gs.len()
        invariant
            i <= gs.len(),
            groups_view(out@) == strip_groups(groups_view(gs@.take(i as int))),
            removed == clamp(removed_in(groups_view(gs@.take(i as int)))),
        decreases gs.len() - i,
    {
        let ghost prefix = groups_view(gs@.take(i as int));
        proof {
            assert(groups_view(gs@.take(i + 1)).drop_last() =~= prefix);
            assert(groups_view(gs@.take(i + 1)).last() == group_view(gs@[i as int]));
        }
        let g = &gs[i];
        match &g.handlers {
            Some(hs) => {
                let kept = unmanaged_exec(hs);
                let count = hs.len() - kept.len();
                proof {
                    assert(group_view(*g).1 == Some(handlers_view(hs@)));
                    assert(handlers_view(hs@).len() == hs@.len());
                    assert(handlers_view(kept@).len() == kept@.len());
                }
                removed = if removed <= usize::MAX - count { removed + count } else { usize::MAX };
                if !(kept.len() < hs.len() && kept.len() == 0) {
                    let ghost before = out@;
                    out.push(copy_group_as(g, Some(kept)));
                    proof {
                        assert(groups_view(out@) =~= groups_view(before).push((g.source, Some(unmanaged(handlers_view(hs@))))));
                    }
                }
            },
            None => {
                let ghost before = out@;
                out.push(copy_group_as(g, None));
                proof {
                    assert(groups_view(out@) =~= groups_view(before).push(group_view(*g)));
                }
            },
        }
        i = i + 1;
    }
    proof {
        assert(gs@.take(i as int) =~= gs@);
    }
    (out, removed)
}

fn strip_events_exec(es: &Vec<EventFacts>) -> (res: (Vec<EventFacts>, usize))
    ensures
        events_view(res.0@) == strip_events(events_view(es@)),
        res.1 == clamp(removed_total(events_view(es@))),
{
    let mut out: Vec<EventFacts> = Vec::new();
    let mut removed: usize = 0;
    let mut i: usize = 0;
    while i < es.len()
        invariant
            i <= es.len(),
            events_view(out@) == strip_events(events_view(es@.take(i as int))),
            removed == clamp(removed_total(events_view(es@.take(i as int)))),
        decreases es.len() - i,
    {
        let ghost prefix = events_view(es@.take(i as int));
        proof {
            assert(events_view(es@.take(i + 1)).drop_last() =~= prefix);
            assert(events_view(es@.take(i + 1)).last() == event_view(es@[i as int]));
        }
        let e = &es[i];
        match &e.groups {
            Some(gs) => {
                let (kept, count) = strip_groups_exec(gs);
                removed = if removed <= usize::MAX - count { removed + count } else { usize::MAX };
                if !(count > 0 && kept.len() == 0) {
                    let ghost before = out@;
                    out.push(EventFacts { name: e.name.clone(), groups: Some(kept) });
                    proof {
                        assert(events_view(out@) =~= events_view(before).push((e.name@, Some(strip_groups(groups_view(gs@))))));
                    }
                }
            },
            None => {
                let ghost before = out@;
                out.push(EventFacts { name: e.name.clone(), groups: None });
                proof {
                    assert(events_view(out@) =~= events_view(before).push(event_view(*e)));
                }
            },
        }
        i = i + 1;
    }
    proof {
        assert(es@.take(i as int) =~= es@);
    }
    (out, removed)
}


/// Removing the tool's handlers from a configuration: the events left (none when there is
/// no `hooks` object, which leaves the configuration as it is) and how many handlers went.
pub fn strip_config(shape: &ConfigShape) -> (res: Result<(Option<Vec<EventFacts>>, usize), JevxError>)
    ensures
        *shape is NotObject ==> (res matches Err(e) && e matches JevxError::InvalidInput(m) && m@ == root_error()),
        *shape is HooksNotObject ==> (res matches Err(e) && e matches JevxError::InvalidInput(m) && m@ == hooks_error()),
        *shape is NoHooks ==> (res matches Ok((r, n)) && r is None && n == 0),
        shape matches ConfigShape::Hooks(es) ==> (res matches Ok((Some(r), n))
            && events_view(r@) == strip_events(events_view(es@)) && n == clamp(removed_total(events_view(es@)))),
{
    match shape {
        ConfigShape::NotObject => Err(JevxError::invalid_input("hooks.json root must be an object")),
        ConfigShape::HooksNotObject => Err(JevxError::invalid_input("hooks must be an object")),
        ConfigShape::NoHooks => Ok((None, 0)),
        ConfigShape::Hooks(es) => {
            let (r, n) = strip_events_exec(es);
            Ok((Some(r), n))
        },
    }
}

// ---------------------------------------------------------------------------------------
// Installing the tool's handlers
// ---------------------------------------------------------------------------------------

/// `i` is the first event named `name`.
pub open spec fn first_named(es: Seq<(Seq<char>, Option<Seq<(GroupSource, Option<Seq<(usize, bool)>>)>>)>, name: Seq<char>, i: int) -> bool {
    &&& 0 <= i < es.len()
    &&& es[i].0 == name
    &&& forall|j: int| 0 <= j < i ==> (#[trigger] es[j]).0 != name
}

pub open spec fn find_event(es: Seq<(Seq<char>, Option<Seq<(GroupSource, Option<Seq<(usize, bool)>>)>>)>, name: Seq<char>) -> Option<int> {
    if exists|i: int| first_named(es, name, i) {
        Some(choose|i: int| first_named(es, name, i))
    } else {
        None
    }
}

/// An existing event's groups before the generated ones are added: the tool's handlers
/// are removed, and a group left without handlers is dropped.
pub open spec fn merge_groups(gs: Seq<(GroupSource, Option<Seq<(usize, bool)>>)>) -> Seq<(GroupSource, Option<Seq<(usize, bool)>>)>
    decreases gs.len(),
{
    if gs.len() == 0 {
        seq![]
    } else {
        let rest = merge_groups(gs.drop_last());
        let g = gs.last();
        match g.1 {
            Some(hs) => {
                let kept = unmanaged(hs);
                if kept.len() == 0 {
                    rest
                } else {
                    rest.push((g.0, Some(kept)))
                }
            },
            None => rest.push(g),
        }
    }
}

pub open spec fn event_array_error(name: Seq<char>) -> Seq<char> {
    "hooks."@ + name + " must be an array"@
}

/// Adding one generated event: its groups follow the existing event's remaining groups,
/// or make a new event.
pub open spec fn merge_step(
    es: Seq<(Seq<char>, Option<Seq<(GroupSource, Option<Seq<(usize, bool)>>)>>)>,
    name: Seq<char>,
    generated: Option<Seq<(GroupSource, Option<Seq<(usize, bool)>>)>>,
) -> Result<Seq<(Seq<char>, Option<Seq<(GroupSource, Option<Seq<(usize, bool)>>)>>)>, Seq<char>> {
    match find_event(es, name) {
        Some(i) => match es[i].1 {
            None => Err(event_array_error(name)),
            Some(gs) => match generated {
                Some(g) => Ok(es.update(i, (name, Some(merge_groups(gs) + g)))),
                None => Err(generated_groups_error()),
            },
        },
        None => match generated {
            Some(g) => Ok(es.push((name, Some(g)))),
            None => Err(generated_groups_error()),
        },
    }
}

/// Adding the generated events in order.
pub open spec fn spec_merge(
    es: Seq<(Seq<char>, Option<Seq<(GroupSource, Option<Seq<(usize, bool)>>)>>)>,
    generated: Seq<(Seq<char>, Option<Seq<(GroupSource, Option<Seq<(usize, bool)>>)>>)>,
) -> Result<Seq<(Seq<char>, Option<Seq<(GroupSource, Option<Seq<(usize, bool)>>)>>)>, Seq<char>>
    decreases generated.len(),
{
    if generated.len() == 0 {
        Ok(es)
    } else {
        match spec_merge(es, generated.drop_last()) {
            Ok(es2) => merge_step(es2, generated.last().0, generated.last().1),
            Err(m) => Err(m),
        }
    }
}

/// Installing into an existing configuration (a missing file reads as one without `hooks`).
pub open spec fn spec_merge_config(existing: ConfigShape, generated: ConfigShape)
    -> Result<Seq<(Seq<char>, Option<Seq<(GroupSource, Option<Seq<(usize, bool)>>)>>)>, Seq<char>>
{
    match existing {
        ConfigShape::NotObject => Err(root_error()),
        _ => match generated {
            ConfigShape::Hooks(g) => match existing {
                ConfigShape::HooksNotObject => Err(hooks_error()),
                ConfigShape::Hooks(es) => spec_merge(events_view(es@), events_view(g@)),
                _ => spec_merge(seq![], events_view(g@)),
            },
            _ => Err(generated_config_error()),
        },
    }
}

fn copy_groups(gs: &Vec<GroupFacts>) -> (res: Vec<GroupFacts>)
    ensures
        groups_view(res@) == groups_view(gs@),
{
    let mut out: Vec<GroupFacts> = Vec::new();
    let mut i: usize = 0;
    while i < gs.len()
        invariant
            i <= gs.len(),
            out@.len() == i,
            groups_view(out@) == groups_view(gs@.take(i as int)),
        decreases gs.len() - i,
    {
        let g = &gs[i];
        let handlers = match &g.handlers {
            Some(hs) => {
                let mut c: Vec<HandlerFacts> = Vec::new();
                let mut k: usize = 0;
                while k < hs.len()
                    invariant
                        k <= hs.len(),
                        handlers_view(c@) == handlers_view(hs@.take(k as int)),
                    decreases hs.len() - k,
                {
                    let ghost before = c@;
                    c.push(copy_handler(&hs[k]));
                    proof {
                        assert(handlers_view(c@) =~= handlers_view(before).push(handler_view(hs@[k as int])));
                        assert(hs@.take(k + 1) =~= hs@.take(k as int).push(hs@[k as int]));
                        assert(handlers_view(hs@.take(k + 1)) =~= handlers_view(hs@.take(k as int)).push(handler_view(hs@[k as int])));
                    }
                    k = k + 1;
                }
                proof {
                    assert(hs@.take(k as int) =~= hs@);
                }
                Some(c)
            },
            None => None,
        };
        let ghost before = out@;
        out.push(copy_group_as(g, handlers));
        proof {
            assert(group_view(out@[i as int]) == group_view(gs@[i as int]));
            assert(groups_view(out@) =~= groups_view(before).push(group_view(gs@[i as int])));
            assert(gs@.take(i + 1) =~= gs@.take(i as int).push(gs@[i as int]));
            assert(groups_view(gs@.take(i + 1)) =~= groups_view(gs@.take(i as int)).push(group_view(gs@[i as int])));
        }
        i = i + 1;
    }
    proof {
        assert(gs@.take(i as int) =~= gs@);
    }
    out
}

fn copy_events(es: &Vec<EventFacts>) -> (res: Vec<EventFacts>)
    ensures
        events_view(res@) == events_view(es@),
{
    let mut out: Vec<EventFacts> = Vec::new();
    let mut i: usize = 0;
    while i < es.len()
        invariant
            i <= es.len(),
            out@.len() == i,
            events_view(out@) == events_view(es@.take(i as int)),
        decreases es.len() - i,
    {
        let e = &es[i];
        let groups = match &e.groups {
            Some(gs) => Some(copy_groups(gs)),
            None => None,
        };
        let ghost before = out@;
        out.push(EventFacts { name: e.name.clone(), groups });
        proof {
            assert(event_view(out@[i as int]) == event_view(es@[i as int]));
            assert(events_view(out@) =~= events_view(before).push(event_view(es@[i as int])));
            assert(es@.take(i + 1) =~= es@.take(i as int).push(es@[i as int]));
            assert(events_view(es@.take(i + 1)) =~= events_view(es@.take(i as int)).push(event_view(es@[i as int])));
        }
        i = i + 1;
    }
    proof {
        assert(es@.take(i as int) =~= es@);
    }
    out
}

fn merge_groups_exec(gs: &Vec<GroupFacts>) -> (res: Vec<GroupFacts>)
    ensures
        groups_view(res@) == merge_groups(groups_view(gs@)),
{
    let mut out: Vec<GroupFacts> = Vec::new();
    let mut i: usize = 0;
    while i < gs.len()
        invariant
            i <= gs.len(),
            groups_view(out@) == merge_groups(groups_view(gs@.take(i as int))),
        decreases gs.len() - i,
    {
        let ghost prefix = groups_view(gs@.take(i as int));
        proof {
            assert(groups_view(gs@.take(i + 1)).drop_last() =~= prefix);
            assert(groups_view(gs@.take(i + 1)).last() == group_view(gs@[i as int]));
        }
        let g = &gs[i];
        match &g.handlers {
            Some(hs) => {
                let kept = unmanaged_exec(hs);
                proof {
                    assert(handlers_view(kept@).len() == kept@.len());
                }
                if kept.len() != 0 {
                    let ghost before = out@;
                    out.push(copy_group_as(g, Some(kept)));
                    proof {
                        assert(groups_view(out@) =~= groups_view(before).push((g.source, Some(unmanaged(handlers_view(hs@))))));
                    }
                }
            },
            None => {
                let ghost before = out@;
                out.push(copy_group_as(g, None));
                proof {
                    assert(groups_view(out@) =~= groups_view(before).push(group_view(*g)));
                }
            },
        }
        i = i + 1;
    }
    proof {
        assert(gs@.take(i as int) =~= gs@);
    }
    out
}

fn find_event_exec(es: &Vec<EventFacts>, name: &String) -> (res: Option<usize>)
    ensures
        match res {
            Some(i) => i < es@.len() && find_event(events_view(es@), name@) == Some(i as int),
            None => find_event(events_view(es@), name@) is None,
        },
{
    let ghost v = events_view(es@);
    let nc = chars_of(name.as_str());
    let mut i: usize = 0;
    while i < es.len()
        invariant
            i <= es.len(),
            v == events_view(es@),
            nc@ == name@,
            forall|j: int| 0 <= j < i ==> (#[trigger] v[j]).0 != name@,
        decreases es.len() - i,
    {
        let ec = chars_of(es[i].name.as_str());
        if chars_eq(&ec, &nc) {
            proof {
                assert(v[i as int].0 == name@);
                assert(first_named(v, name@, i as int));
                let c = choose|k: int| first_named(v, name@, k);
                assert(first_named(v, name@, c));
                if c < i {
                    assert(v[c].0 != name@);
                } else if c > i {
                    assert(v[i as int].0 != name@);
                }
            }
            return Some(i);
        }
        i = i + 1;
    }
    proof {
        assert forall|k: int| !first_named(v, name@, k) by {
            if 0 <= k < v.len() {
                assert(v[k].0 != name@);
            }
        }
    }
    None
}

proof fn lemma_merge_error_stays(es: Seq<(Seq<char>, Option<Seq<(GroupSource, Option<Seq<(usize, bool)>>)>>)>, g: Seq<(Seq<char>, Option<Seq<(GroupSource, Option<Seq<(usize, bool)>>)>>)>, k: int, n: int, m: Seq<char>)
    requires
        0 <= k <= n <= g.len(),
        spec_merge(es, g.take(k)) == Err::<Seq<(Seq<char>, Option<Seq<(GroupSource, Option<Seq<(usize, bool)>>)>>)>, Seq<char>>(m),
    ensures
        spec_merge(es, g.take(n)) == Err::<Seq<(Seq<char>, Option<Seq<(GroupSource, Option<Seq<(usize, bool)>>)>>)>, Seq<char>>(m),
    decreases n - k,
{
    if n > k {
        lemma_merge_error_stays(es, g, k, n - 1, m);
        assert(g.take(n).drop_last() =~= g.take(n - 1));
    }
}

fn array_error(name: &str) -> (res: JevxError)
    ensures
        res matches JevxError::InvalidInput(m) && m@ == event_array_error(name@),
{
    let m = concat3("hooks.", name, " must be an array");
    JevxError::InvalidInput(m)
}

/// Installing the generated events into an existing configuration.
pub fn merge_config(existing: &ConfigShape, generated: &ConfigShape) -> (res: Result<Vec<EventFacts>, JevxError>)
    ensures
        match spec_merge_config(*existing, *generated) {
            Ok(r) => res matches Ok(v) && events_view(v@) == r,
            Err(m) => res matches Err(e) && e matches JevxError::InvalidInput(mm) && mm@ == m,
        },
{
    let gen = match existing {
        ConfigShape::NotObject => return Err(JevxError::invalid_input("hooks.json root must be an object")),
        _ => match generated {
            ConfigShape::Hooks(g) => g,
            _ => return Err(JevxError::invalid_input("generated hook config is invalid")),
        },
    };
    let mut cur: Vec<EventFacts> = match existing {
        ConfigShape::HooksNotObject => return Err(JevxError::invalid_input("hooks must be an object")),
        ConfigShape::Hooks(es) => copy_events(es),
        _ => Vec::new(),
    };
    let ghost start = events_view(cur@);
    let ghost gv = events_view(gen@);
    proof {
        if existing is Hooks {
            assert(spec_merge_config(*existing, *generated) == spec_merge(start, gv));
        } else {
            assert(start =~= seq![]);
            assert(spec_merge_config(*existing, *generated) == spec_merge(start, gv));
        }
        assert(gv.take(0) =~= seq![]);
    }
    let mut k: usize = 0;
    while k < gen.len()
        invariant
            k <= gen.len(),
            gv == events_view(gen@),
            spec_merge_config(*existing, *generated) == spec_merge(start, gv),
            spec_merge(start, gv.take(k as int)) == Ok::<Seq<(Seq<char>, Option<Seq<(GroupSource, Option<Seq<(usize, bool)>>)>>)>, Seq<char>>(events_view(cur@)),
        decreases gen.len() - k,
    {
        let ghost cv = events_view(cur@);
        proof {
            assert(gv.take(k + 1).drop_last() =~= gv.take(k as int));
            assert(gv.take(k + 1).last() == gv[k as int]);
            assert(spec_merge(start, gv.take(k + 1)) == merge_step(cv, gv[k as int].0, gv[k as int].1));
        }
        let ge = &gen[k];
        proof {
            assert(gv[k as int] == event_view(*ge));
        }
        let found = find_event_exec(&cur, &ge.name);
        let step: Result<(Option<usize>, Vec<GroupFacts>), JevxError> = match found {
            Some(i) => match &cur[i].groups {
                None => {
                    let err = array_error(ge.name.as_str());
                    proof {
                        assert(cv[i as int].1 is None);
                        assert(merge_step(cv, gv[k as int].0, gv[k as int].1) == Err::<Seq<(Seq<char>, Option<Seq<(GroupSource, Option<Seq<(usize, bool)>>)>>)>, Seq<char>>(event_array_error(ge.name@)));
                    }
                    Err(err)
                },
                Some(gs) => match &ge.groups {
                    Some(g2) => {
                        let mut ng = merge_groups_exec(gs);
                        let mut more = copy_groups(g2);
                        let ghost a = groups_view(ng@);
                        let ghost b = groups_view(more@);
                        ng.append(&mut more);
                        proof {
                            assert(groups_view(ng@) =~= a + b);
                            assert(cv[i as int].1 == Some(groups_view(gs@)));
                        }
                        Ok((Some(i), ng))
                    },
                    None => {
                        proof {
                            assert(cv[i as int].1 == Some(groups_view(gs@)));
                            assert(merge_step(cv, gv[k as int].0, gv[k as int].1) == Err::<Seq<(Seq<char>, Option<Seq<(GroupSource, Option<Seq<(usize, bool)>>)>>)>, Seq<char>>(generated_groups_error()));
                        }
                        Err(JevxError::invalid_input("generated hook groups are invalid"))
                    },
                },
            },
            None => match &ge.groups {
                Some(g2) => Ok((None, copy_groups(g2))),
                None => {
                    proof {
                        assert(merge_step(cv, gv[k as int].0, gv[k as int].1) == Err::<Seq<(Seq<char>, Option<Seq<(GroupSource, Option<Seq<(usize, bool)>>)>>)>, Seq<char>>(generated_groups_error()));
                    }
                    Err(JevxError::invalid_input("generated hook groups are invalid"))
                },
            },
        };
        match step {
            Err(e) => {
                proof {
                    let m = spec_merge(start, gv.take(k + 1))->Err_0;
                    assert(e matches JevxError::InvalidInput(mm) && mm@ == m);
                    lemma_merge_error_stays(start, gv, k + 1, gv.len() as int, m);
                    assert(gv.take(gv.len() as int) =~= gv);
                }
                return Err(e);
            },
            Ok((Some(i), ng)) => {
                let ghost before = cur@;
                let ghost ngv = groups_view(ng@);
                cur.set(i, EventFacts { name: ge.name.clone(), groups: Some(ng) });
                proof {
                    assert(events_view(cur@) =~= events_view(before).update(i as int, (ge.name@, Some(ngv))));
                }
            },
            Ok((None, ng)) => {
                let ghost before = cur@;
                let ghost ngv = groups_view(ng@);
                cur.push(EventFacts { name: ge.name.clone(), groups: Some(ng) });
                proof {
                    assert(events_view(cur@) =~= events_view(before).push((ge.name@, Some(ngv))));
                }
            },
        }
        k = k + 1;
    }
    proof {
        assert(gv.take(k as int) =~= gv);
    }
    Ok(cur)
}


// ---------------------------------------------------------------------------------------
// What the edits keep
// ---------------------------------------------------------------------------------------

/// A group of `gs` from `s` holds the handler `h`.
pub open spec fn group_has(gs: Seq<(GroupSource, Option<Seq<(usize, bool)>>)>, s: GroupSource, h: (usize, bool)) -> bool {
    exists|j: int| 0 <= j < gs.len() && (#[trigger] gs[j]).0 == s && gs[j].1 is Some && gs[j].1->0.contains(h)
}

/// An event named `n` of `es` has a group from `s` that holds the handler `h`.
pub open spec fn event_has(es: Seq<(Seq<char>, Option<Seq<(GroupSource, Option<Seq<(usize, bool)>>)>>)>, n: Seq<char>, s: GroupSource, h: (usize, bool)) -> bool {
    exists|i: int| 0 <= i < es.len() && (#[trigger] es[i]).0 == n && es[i].1 is Some && group_has(es[i].1->0, s, h)
}

proof fn lemma_push_contains<A>(s: Seq<A>, x: A, y: A)
    ensures
        s.push(x).contains(y) <==> (s.contains(y) || x == y),
{
    let t = s.push(x);
    if s.contains(y) {
        let i = choose|i: int| 0 <= i < s.len() && s[i] == y;
        assert(t[i] == s[i]);
    }
    if x == y {
        assert(t[s.len() as int] == x);
    }
    if t.contains(y) {
        let i = choose|i: int| 0 <= i < t.len() && t[i] == y;
        if i < s.len() {
            assert(t[i] == s[i]);
        }
    }
}

proof fn lemma_unmanaged_contains(hs: Seq<(usize, bool)>, h: (usize, bool))
    ensures
        unmanaged(hs).contains(h) <==> (hs.contains(h) && !h.1),
    decreases hs.len(),
{
    if hs.len() > 0 {
        let p = hs.drop_last();
        lemma_unmanaged_contains(p, h);
        assert(hs =~= p.push(hs.last()));
        lemma_push_contains(p, hs.last(), h);
        if !hs.last().1 {
            lemma_push_contains(unmanaged(p), hs.last(), h);
        }
    }
}

proof fn lemma_unmanaged_of_unmanaged(hs: Seq<(usize, bool)>)
    ensures
        unmanaged(unmanaged(hs)) == unmanaged(hs),
    decreases hs.len(),
{
    if hs.len() > 0 {
        let p = hs.drop_last();
        lemma_unmanaged_of_unmanaged(p);
        if !hs.last().1 {
            let u = unmanaged(p).push(hs.last());
            assert(u.drop_last() =~= unmanaged(p));
        }
    }
}

proof fn lemma_group_has_push(gs: Seq<(GroupSource, Option<Seq<(usize, bool)>>)>, g: (GroupSource, Option<Seq<(usize, bool)>>), s: GroupSource, h: (usize, bool))
    ensures
        group_has(gs.push(g), s, h) <==> (group_has(gs, s, h) || (g.0 == s && g.1 is Some && g.1->0.contains(h))),
{
    let t = gs.push(g);
    if group_has(gs, s, h) {
        let j = choose|j: int| 0 <= j < gs.len() && (#[trigger] gs[j]).0 == s && gs[j].1 is Some && gs[j].1->0.contains(h);
        assert(t[j] == gs[j]);
    }
    if g.0 == s && g.1 is Some && g.1->0.contains(h) {
        assert(t[gs.len() as int] == g);
    }
    if group_has(t, s, h) {
        let j = choose|j: int| 0 <= j < t.len() && (#[trigger] t[j]).0 == s && t[j].1 is Some && t[j].1->0.contains(h);
        if j < gs.len() {
            assert(t[j] == gs[j]);
        }
    }
}

proof fn lemma_group_has_concat(a: Seq<(GroupSource, Option<Seq<(usize, bool)>>)>, b: Seq<(GroupSource, Option<Seq<(usize, bool)>>)>, s: GroupSource, h: (usize, bool))
    ensures
        group_has(a + b, s, h) <==> (group_has(a, s, h) || group_has(b, s, h)),
{
    let t = a + b;
    if group_has(a, s, h) {
        let j = choose|j: int| 0 <= j < a.len() && (#[trigger] a[j]).0 == s && a[j].1 is Some && a[j].1->0.contains(h);
        assert(t[j] == a[j]);
    }
    if group_has(b, s, h) {
        let j = choose|j: int| 0 <= j < b.len() && (#[trigger] b[j]).0 == s && b[j].1 is Some && b[j].1->0.contains(h);
        assert(t[a.len() + j] == b[j]);
    }
    if group_has(t, s, h) {
        let j = choose|j: int| 0 <= j < t.len() && (#[trigger] t[j]).0 == s && t[j].1 is Some && t[j].1->0.contains(h);
        if j < a.len() {
            assert(t[j] == a[j]);
        } else {
            assert(t[j] == b[j - a.len()]);
        }
    }
}

proof fn lemma_strip_groups_has(gs: Seq<(GroupSource, Option<Seq<(usize, bool)>>)>, s: GroupSource, h: (usize, bool))
    ensures
        group_has(strip_groups(gs), s, h) <==> (group_has(gs, s, h) && !h.1),
    decreases gs.len(),
{
    if gs.len() > 0 {
        let p = gs.drop_last();
        let g = gs.last();
        lemma_strip_groups_has(p, s, h);
        assert(gs =~= p.push(g));
        lemma_group_has_push(p, g, s, h);
        match g.1 {
            Some(hs) => {
                lemma_unmanaged_contains(hs, h);
                let kept = unmanaged(hs);
                if !(kept.len() < hs.len() && kept.len() == 0) {
                    lemma_group_has_push(strip_groups(p), (g.0, Some(kept)), s, h);
                }
            },
            None => {
                lemma_group_has_push(strip_groups(p), g, s, h);
            },
        }
    }
}

proof fn lemma_merge_groups_has(gs: Seq<(GroupSource, Option<Seq<(usize, bool)>>)>, s: GroupSource, h: (usize, bool))
    ensures
        group_has(merge_groups(gs), s, h) <==> (group_has(gs, s, h) && !h.1),
    decreases gs.len(),
{
    if gs.len() > 0 {
        let p = gs.drop_last();
        let g = gs.last();
        lemma_merge_groups_has(p, s, h);
        assert(gs =~= p.push(g));
        lemma_group_has_push(p, g, s, h);
        match g.1 {
            Some(hs) => {
                lemma_unmanaged_contains(hs, h);
                let kept = unmanaged(hs);
                if kept.len() != 0 {
                    lemma_group_has_push(merge_groups(p), (g.0, Some(kept)), s, h);
                }
            },
            None => {
                lemma_group_has_push(merge_groups(p), g, s, h);
            },
        }
    }
}

proof fn lemma_event_has_push(es: Seq<(Seq<char>, Option<Seq<(GroupSource, Option<Seq<(usize, bool)>>)>>)>, e: (Seq<char>, Option<Seq<(GroupSource, Option<Seq<(usize, bool)>>)>>), n: Seq<char>, s: GroupSource, h: (usize, bool))
    ensures
        event_has(es.push(e), n, s, h) <==> (event_has(es, n, s, h) || (e.0 == n && e.1 is Some && group_has(e.1->0, s, h))),
{
    let t = es.push(e);
    if event_has(es, n, s, h) {
        let i = choose|i: int| 0 <= i < es.len() && (#[trigger] es[i]).0 == n && es[i].1 is Some && group_has(es[i].1->0, s, h);
        assert(t[i] == es[i]);
    }
    if e.0 == n && e.1 is Some && group_has(e.1->0, s, h) {
        assert(t[es.len() as int] == e);
    }
    if event_has(t, n, s, h) {
        let i = choose|i: int| 0 <= i < t.len() && (#[trigger] t[i]).0 == n && t[i].1 is Some && group_has(t[i].1->0, s, h);
        if i < es.len() {
            assert(t[i] == es[i]);
        }
    }
}

proof fn lemma_strip_events_has(es: Seq<(Seq<char>, Option<Seq<(GroupSource, Option<Seq<(usize, bool)>>)>>)>, n: Seq<char>, s: GroupSource, h: (usize, bool))
    ensures
        event_has(strip_events(es), n, s, h) <==> (event_has(es, n, s, h) && !h.1),
    decreases es.len(),
{
    if es.len() > 0 {
        let p = es.drop_last();
        let e = es.last();
        lemma_strip_events_has(p, n, s, h);
        assert(es =~= p.push(e));
        lemma_event_has_push(p, e, n, s, h);
        match e.1 {
            Some(gs) => {
                lemma_strip_groups_has(gs, s, h);
                let kept = strip_groups(gs);
                if removed_in(gs) > 0 && kept.len() == 0 {
                    assert(!group_has(kept, s, h));
                } else {
                    lemma_event_has_push(strip_events(p), (e.0, Some(kept)), n, s, h);
                }
            },
            None => {
                lemma_event_has_push(strip_events(p), e, n, s, h);
            },
        }
    }
}

proof fn lemma_strip_groups_twice(gs: Seq<(GroupSource, Option<Seq<(usize, bool)>>)>)
    ensures
        strip_groups(strip_groups(gs)) == strip_groups(gs),
        removed_in(strip_groups(gs)) == 0,
    decreases gs.len(),
{
    if gs.len() > 0 {
        let p = gs.drop_last();
        let g = gs.last();
        lemma_strip_groups_twice(p);
        let r = strip_groups(p);
        let pushed = match g.1 {
            Some(hs) => (g.0, Some(unmanaged(hs))),
            None => g,
        };
        match g.1 {
            Some(hs) => {
                lemma_unmanaged_of_unmanaged(hs);
            },
            None => {},
        }
        if strip_groups(gs) != r {
            assert(strip_groups(gs) == r.push(pushed));
            let t = r.push(pushed);
            assert(t.drop_last() =~= r);
            assert(t.last() == pushed);
        }
    }
}

proof fn lemma_strip_events_twice(es: Seq<(Seq<char>, Option<Seq<(GroupSource, Option<Seq<(usize, bool)>>)>>)>)
    ensures
        strip_events(strip_events(es)) == strip_events(es),
        removed_total(strip_events(es)) == 0,
    decreases es.len(),
{
    if es.len() > 0 {
        let p = es.drop_last();
        let e = es.last();
        lemma_strip_events_twice(p);
        let r = strip_events(p);
        match e.1 {
            Some(gs) => {
                lemma_strip_groups_twice(gs);
                let kept = strip_groups(gs);
                if !(removed_in(gs) > 0 && kept.len() == 0) {
                    let t = r.push((e.0, Some(kept)));
                    assert(t.drop_last() =~= r);
                    assert(t.last() == (e.0, Some(kept)));
                }
            },
            None => {
                let t = r.push(e);
                assert(t.drop_last() =~= r);
                assert(t.last() == e);
            },
        }
    }
}

proof fn lemma_merge_step_has(
    es: Seq<(Seq<char>, Option<Seq<(GroupSource, Option<Seq<(usize, bool)>>)>>)>,
    name: Seq<char>,
    g2: Seq<(GroupSource, Option<Seq<(usize, bool)>>)>,
    r: Seq<(Seq<char>, Option<Seq<(GroupSource, Option<Seq<(usize, bool)>>)>>)>,
    n: Seq<char>,
    s: GroupSource,
    h: (usize, bool),
)
    requires
        merge_step(es, name, Some(g2)) == Ok::<Seq<(Seq<char>, Option<Seq<(GroupSource, Option<Seq<(usize, bool)>>)>>)>, Seq<char>>(r),
        !h.1,
    ensures
        event_has(r, n, s, h) <==> (event_has(es, n, s, h) || (n == name && group_has(g2, s, h))),
{
    match find_event(es, name) {
        Some(i) => {
            assert(first_named(es, name, i));
            let gs = es[i].1->0;
            let merged = merge_groups(gs) + g2;
            assert(r == es.update(i, (name, Some(merged))));
            lemma_merge_groups_has(gs, s, h);
            lemma_group_has_concat(merge_groups(gs), g2, s, h);
            if event_has(r, n, s, h) {
                let j = choose|j: int| 0 <= j < r.len() && (#[trigger] r[j]).0 == n && r[j].1 is Some && group_has(r[j].1->0, s, h);
                if j != i {
                    assert(r[j] == es[j]);
                } else if group_has(gs, s, h) {
                    assert(es[i].0 == n);
                }
            }
            if event_has(es, n, s, h) {
                let j = choose|j: int| 0 <= j < es.len() && (#[trigger] es[j]).0 == n && es[j].1 is Some && group_has(es[j].1->0, s, h);
                if j != i {
                    assert(r[j] == es[j]);
                } else {
                    assert(r[i] == (name, Some(merged)));
                }
            }
            if n == name && group_has(g2, s, h) {
                assert(r[i] == (name, Some(merged)));
            }
        },
        None => {
            assert(r == es.push((name, Some(g2))));
            lemma_event_has_push(es, (name, Some(g2)), n, s, h);
        },
    }
}

proof fn lemma_merge_has(
    es: Seq<(Seq<char>, Option<Seq<(GroupSource, Option<Seq<(usize, bool)>>)>>)>,
    gen: Seq<(Seq<char>, Option<Seq<(GroupSource, Option<Seq<(usize, bool)>>)>>)>,
    r: Seq<(Seq<char>, Option<Seq<(GroupSource, Option<Seq<(usize, bool)>>)>>)>,
    n: Seq<char>,
    s: GroupSource,
    h: (usize, bool),
)
    requires
        spec_merge(es, gen) == Ok::<Seq<(Seq<char>, Option<Seq<(GroupSource, Option<Seq<(usize, bool)>>)>>)>, Seq<char>>(r),
        !h.1,
    ensures
        event_has(r, n, s, h) <==> (event_has(es, n, s, h) || event_has(gen, n, s, h)),
    decreases gen.len(),
{
    if gen.len() > 0 {
        let p = gen.drop_last();
        let last = gen.last();
        let r2 = spec_merge(es, p)->Ok_0;
        lemma_merge_has(es, p, r2, n, s, h);
        let g2 = last.1->0;
        assert(last.1 is Some);
        lemma_merge_step_has(r2, last.0, g2, r, n, s, h);
        assert(gen =~= p.push(last));
        lemma_event_has_push(p, last, n, s, h);
    }
}

/// Uninstalling keeps exactly the user's handlers: after the tool's handlers are removed,
/// an event has a group holding a handler exactly when the configuration had it there and
/// the handler is not the tool's own.
pub proof fn lemma_uninstall_keeps_only_custom_handlers(es: Seq<(Seq<char>, Option<Seq<(GroupSource, Option<Seq<(usize, bool)>>)>>)>)
    ensures
        forall|n: Seq<char>, s: GroupSource, h: (usize, bool)|
            event_has(strip_events(es), n, s, h) <==> (event_has(es, n, s, h) && !h.1),
{
    assert forall|n: Seq<char>, s: GroupSource, h: (usize, bool)|
        event_has(strip_events(es), n, s, h) <==> (event_has(es, n, s, h) && !h.1) by {
        lemma_strip_events_has(es, n, s, h);
    }
}

/// Uninstalling twice is uninstalling once: the second time finds nothing to remove and
/// changes nothing.
pub proof fn lemma_uninstall_twice(es: Seq<(Seq<char>, Option<Seq<(GroupSource, Option<Seq<(usize, bool)>>)>>)>)
    ensures
        strip_events(strip_events(es)) == strip_events(es),
        removed_total(strip_events(es)) == 0,
{
    lemma_strip_events_twice(es);
}

/// Installing keeps every handler of the user's: the handlers that are not the tool's own
/// after installing are those of the configuration and those of the generated events.
pub proof fn lemma_install_keeps_custom_handlers(
    es: Seq<(Seq<char>, Option<Seq<(GroupSource, Option<Seq<(usize, bool)>>)>>)>,
    gen: Seq<(Seq<char>, Option<Seq<(GroupSource, Option<Seq<(usize, bool)>>)>>)>,
    r: Seq<(Seq<char>, Option<Seq<(GroupSource, Option<Seq<(usize, bool)>>)>>)>,
)
    requires
        spec_merge(es, gen) == Ok::<Seq<(Seq<char>, Option<Seq<(GroupSource, Option<Seq<(usize, bool)>>)>>)>, Seq<char>>(r),
    ensures
        forall|n: Seq<char>, s: GroupSource, h: (usize, bool)| !h.1 ==>
            (event_has(r, n, s, h) <==> (event_has(es, n, s, h) || event_has(gen, n, s, h))),
{
    assert forall|n: Seq<char>, s: GroupSource, h: (usize, bool)| !h.1 implies
        (event_has(r, n, s, h) <==> (event_has(es, n, s, h) || event_has(gen, n, s, h))) by {
        lemma_merge_has(es, gen, r, n, s, h);
    }
}

/// Uninstalling after installing gives back the user's handlers: when every generated
/// handler is the tool's own, removing the tool's handlers from an installed configuration
/// leaves exactly the handlers of the configuration it was installed into that are not the
/// tool's own; and when that configuration held only the user's handlers (see
/// `lemma_uninstall_restores_configuration`, and `lemma_install_then_uninstall` for whole
/// configurations), it comes back equal, groups and order included.
pub proof fn lemma_uninstall_after_install(
    es: Seq<(Seq<char>, Option<Seq<(GroupSource, Option<Seq<(usize, bool)>>)>>)>,
    gen: Seq<(Seq<char>, Option<Seq<(GroupSource, Option<Seq<(usize, bool)>>)>>)>,
    r: Seq<(Seq<char>, Option<Seq<(GroupSource, Option<Seq<(usize, bool)>>)>>)>,
)
    requires
        spec_merge(es, gen) == Ok::<Seq<(Seq<char>, Option<Seq<(GroupSource, Option<Seq<(usize, bool)>>)>>)>, Seq<char>>(r),
        forall|n: Seq<char>, s: GroupSource, h: (usize, bool)| !h.1 ==> !event_has(gen, n, s, h),
    ensures
        forall|n: Seq<char>, s: GroupSource, h: (usize, bool)|
            event_has(strip_events(r), n, s, h) <==> (event_has(es, n, s, h) && !h.1),
        user_config(es) && tool_config(gen) ==> strip_events(r) == es,
{
    assert forall|n: Seq<char>, s: GroupSource, h: (usize, bool)|
        event_has(strip_events(r), n, s, h) <==> (event_has(es, n, s, h) && !h.1) by {
        lemma_strip_events_has(r, n, s, h);
        if !h.1 {
            lemma_merge_has(es, gen, r, n, s, h);
        }
    }
    if user_config(es) && tool_config(gen) {
        lemma_uninstall_restores_configuration(es, gen, r);
    }
}


/// Each event name occurs once (as in a JSON object).
pub open spec fn names_unique(es: Seq<(Seq<char>, Option<Seq<(GroupSource, Option<Seq<(usize, bool)>>)>>)>) -> bool {
    forall|i: int, j: int| 0 <= i < j < es.len() ==> (#[trigger] es[i]).0 != (#[trigger] es[j]).0
}

/// Some event of `es` is named `n`.
pub open spec fn named(es: Seq<(Seq<char>, Option<Seq<(GroupSource, Option<Seq<(usize, bool)>>)>>)>, n: Seq<char>) -> bool {
    exists|i: int| 0 <= i < es.len() && (#[trigger] es[i]).0 == n
}

proof fn lemma_first_named_exists(es: Seq<(Seq<char>, Option<Seq<(GroupSource, Option<Seq<(usize, bool)>>)>>)>, name: Seq<char>, j: int)
    requires
        0 <= j < es.len(),
        es[j].0 == name,
    ensures
        exists|k: int| first_named(es, name, k),
    decreases j,
{
    if forall|i: int| 0 <= i < j ==> (#[trigger] es[i]).0 != name {
        assert(first_named(es, name, j));
    } else {
        let i = choose|i: int| 0 <= i < j && (#[trigger] es[i]).0 == name;
        lemma_first_named_exists(es, name, i);
    }
}

proof fn lemma_merge_groups_unmanaged_only(gs: Seq<(GroupSource, Option<Seq<(usize, bool)>>)>, s: GroupSource, h: (usize, bool))
    requires
        h.1,
    ensures
        !group_has(merge_groups(gs), s, h),
{
    lemma_merge_groups_has(gs, s, h);
}

proof fn lemma_merge_replaces(
    es: Seq<(Seq<char>, Option<Seq<(GroupSource, Option<Seq<(usize, bool)>>)>>)>,
    gen: Seq<(Seq<char>, Option<Seq<(GroupSource, Option<Seq<(usize, bool)>>)>>)>,
    r: Seq<(Seq<char>, Option<Seq<(GroupSource, Option<Seq<(usize, bool)>>)>>)>,
)
    requires
        spec_merge(es, gen) == Ok::<Seq<(Seq<char>, Option<Seq<(GroupSource, Option<Seq<(usize, bool)>>)>>)>, Seq<char>>(r),
        names_unique(es),
        names_unique(gen),
    ensures
        names_unique(r),
        forall|n: Seq<char>, s: GroupSource, h: (usize, bool)| h.1 && named(gen, n) && event_has(r, n, s, h)
            ==> event_has(gen, n, s, h),
    decreases gen.len(),
{
    if gen.len() > 0 {
        let p = gen.drop_last();
        let last = gen.last();
        let m = last.0;
        assert(gen =~= p.push(last));
        assert(names_unique(p)) by {
            assert forall|i: int, j: int| 0 <= i < j < p.len() implies (#[trigger] p[i]).0 != (#[trigger] p[j]).0 by {
                assert(p[i] == gen[i] && p[j] == gen[j]);
            }
        }
        let r2 = spec_merge(es, p)->Ok_0;
        lemma_merge_replaces(es, p, r2);
        assert(last.1 is Some);
        let g2 = last.1->0;
        assert forall|n: Seq<char>| named(gen, n) && n != m implies named(p, n) by {
            let i = choose|i: int| 0 <= i < gen.len() && (#[trigger] gen[i]).0 == n;
            assert(i != gen.len() - 1);
            assert(p[i] == gen[i]);
        }
        assert forall|n: Seq<char>, s: GroupSource, h: (usize, bool)| event_has(p, n, s, h) implies event_has(gen, n, s, h) by {
            lemma_event_has_push(p, last, n, s, h);
        }
        assert forall|s: GroupSource, h: (usize, bool)| group_has(g2, s, h) implies event_has(gen, m, s, h) by {
            lemma_event_has_push(p, last, m, s, h);
        }
        match find_event(r2, m) {
            Some(i) => {
                assert(first_named(r2, m, i));
                let gs = r2[i].1->0;
                let merged = merge_groups(gs) + g2;
                assert(r == r2.update(i, (m, Some(merged))));
                assert forall|a: int, b: int| 0 <= a < b < r.len() implies (#[trigger] r[a]).0 != (#[trigger] r[b]).0 by {
                    assert(r[a].0 == r2[a].0 && r[b].0 == r2[b].0);
                }
                assert forall|n: Seq<char>, s: GroupSource, h: (usize, bool)| h.1 && named(gen, n) && event_has(r, n, s, h)
                    implies event_has(gen, n, s, h) by {
                    let j = choose|j: int| 0 <= j < r.len() && (#[trigger] r[j]).0 == n && r[j].1 is Some && group_has(r[j].1->0, s, h);
                    if j != i {
                        assert(r[j] == r2[j]);
                        if n == m {
                            assert(r2[i].0 == m && r2[j].0 == m);
                            if i < j {
                                assert(r2[i].0 != r2[j].0);
                            } else {
                                assert(r2[j].0 != r2[i].0);
                            }
                        }
                        assert(event_has(r2, n, s, h));
                        assert(named(p, n));
                    } else {
                        lemma_group_has_concat(merge_groups(gs), g2, s, h);
                        lemma_merge_groups_unmanaged_only(gs, s, h);
                    }
                }
            },
            None => {
                assert(r == r2.push((m, Some(g2))));
                assert forall|j: int| 0 <= j < r2.len() implies (#[trigger] r2[j]).0 != m by {
                    if r2[j].0 == m {
                        lemma_first_named_exists(r2, m, j);
                    }
                }
                assert forall|a: int, b: int| 0 <= a < b < r.len() implies (#[trigger] r[a]).0 != (#[trigger] r[b]).0 by {
                    if b == r2.len() {
                        assert(r[a] == r2[a]);
                        assert(r2[a].0 != m);
                    } else {
                        assert(r[a] == r2[a] && r[b] == r2[b]);
                    }
                }
                assert forall|n: Seq<char>, s: GroupSource, h: (usize, bool)| h.1 && named(gen, n) && event_has(r, n, s, h)
                    implies event_has(gen, n, s, h) by {
                    lemma_event_has_push(r2, (m, Some(g2)), n, s, h);
                    if event_has(r2, n, s, h) {
                        let j = choose|j: int| 0 <= j < r2.len() && (#[trigger] r2[j]).0 == n && r2[j].1 is Some && group_has(r2[j].1->0, s, h);
                        assert(r2[j].0 != m);
                        assert(named(p, n));
                    }
                }
            },
        }
    }
}

/// Installing replaces the tool's handlers: under each generated event, a handler of the
/// tool's own after installing is one of the generated handlers (event names being unique,
/// as in a JSON object).
pub proof fn lemma_install_replaces_tool_handlers(
    es: Seq<(Seq<char>, Option<Seq<(GroupSource, Option<Seq<(usize, bool)>>)>>)>,
    gen: Seq<(Seq<char>, Option<Seq<(GroupSource, Option<Seq<(usize, bool)>>)>>)>,
    r: Seq<(Seq<char>, Option<Seq<(GroupSource, Option<Seq<(usize, bool)>>)>>)>,
)
    requires
        spec_merge(es, gen) == Ok::<Seq<(Seq<char>, Option<Seq<(GroupSource, Option<Seq<(usize, bool)>>)>>)>, Seq<char>>(r),
        names_unique(es),
        names_unique(gen),
    ensures
        names_unique(r),
        forall|n: Seq<char>, s: GroupSource, h: (usize, bool)| h.1 && named(gen, n) && event_has(r, n, s, h)
            ==> event_has(gen, n, s, h),
{
    lemma_merge_replaces(es, gen, r);
}

proof fn lemma_strip_keeps_event(es: Seq<(Seq<char>, Option<Seq<(GroupSource, Option<Seq<(usize, bool)>>)>>)>, e: (Seq<char>, Option<Seq<(GroupSource, Option<Seq<(usize, bool)>>)>>))
    requires
        es.contains(e),
        e.1 is None,
    ensures
        strip_events(es).contains(e),
    decreases es.len(),
{
    let p = es.drop_last();
    let last = es.last();
    assert(es =~= p.push(last));
    lemma_push_contains(p, last, e);
    if e == last {
        lemma_push_contains(strip_events(p), e, e);
    } else {
        lemma_strip_keeps_event(p, e);
        match last.1 {
            Some(gs) => {
                if !(removed_in(gs) > 0 && strip_groups(gs).len() == 0) {
                    lemma_push_contains(strip_events(p), (last.0, Some(strip_groups(gs))), e);
                }
            },
            None => {
                lemma_push_contains(strip_events(p), last, e);
            },
        }
    }
}

/// Uninstalling leaves an event whose value is not an array as it is.
pub proof fn lemma_uninstall_keeps_foreign_events(es: Seq<(Seq<char>, Option<Seq<(GroupSource, Option<Seq<(usize, bool)>>)>>)>)
    ensures
        forall|i: int| 0 <= i < es.len() && (#[trigger] es[i]).1 is None ==> strip_events(es).contains(es[i]),
{
    assert forall|i: int| 0 <= i < es.len() && (#[trigger] es[i]).1 is None implies strip_events(es).contains(es[i]) by {
        assert(es.contains(es[i]));
        lemma_strip_keeps_event(es, es[i]);
    }
}


// ---------------------------------------------------------------------------------------
// Installing, then uninstalling, gives back the configuration
// ---------------------------------------------------------------------------------------

/// Every handler is the user's own.
pub open spec fn user_handlers(hs: Seq<(usize, bool)>) -> bool {
    forall|k: int| 0 <= k < hs.len() ==> !(#[trigger] hs[k]).1
}

/// Every group holds handlers, all of them the user's own (a group without a handler list
/// is kept as it is).
pub open spec fn user_groups(gs: Seq<(GroupSource, Option<Seq<(usize, bool)>>)>) -> bool {
    forall|k: int| 0 <= k < gs.len() ==> ((#[trigger] gs[k]).1 matches Some(hs) ==> hs.len() > 0 && user_handlers(hs))
}

/// A configuration of the user's alone: every event that is an array has groups, and they
/// are the user's.
pub open spec fn user_config(es: Seq<(Seq<char>, Option<Seq<(GroupSource, Option<Seq<(usize, bool)>>)>>)>) -> bool {
    forall|i: int| 0 <= i < es.len() ==> ((#[trigger] es[i]).1 matches Some(gs) ==> gs.len() > 0 && user_groups(gs))
}

/// Every group holds handlers, all of them the tool's own.
pub open spec fn tool_groups(gs: Seq<(GroupSource, Option<Seq<(usize, bool)>>)>) -> bool {
    forall|k: int| 0 <= k < gs.len() ==> ((#[trigger] gs[k]).1 matches Some(hs) && hs.len() > 0
        && forall|j: int| 0 <= j < hs.len() ==> (#[trigger] hs[j]).1)
}

/// Generated events: each an array of at least one group of the tool's handlers.
pub open spec fn tool_config(gen: Seq<(Seq<char>, Option<Seq<(GroupSource, Option<Seq<(usize, bool)>>)>>)>) -> bool {
    forall|i: int| 0 <= i < gen.len() ==> ((#[trigger] gen[i]).1 matches Some(gs) && gs.len() > 0 && tool_groups(gs))
}

/// `r` is `es` with tool groups appended to its events and tool events appended after them.
pub open spec fn installed_over(es: Seq<(Seq<char>, Option<Seq<(GroupSource, Option<Seq<(usize, bool)>>)>>)>, r: Seq<(Seq<char>, Option<Seq<(GroupSource, Option<Seq<(usize, bool)>>)>>)>) -> bool {
    &&& r.len() >= es.len()
    &&& forall|i: int| 0 <= i < es.len() ==> {
        &&& (#[trigger] r[i]).0 == es[i].0
        &&& (es[i].1 is None ==> r[i].1 is None)
        &&& (es[i].1 matches Some(gs) ==> (r[i].1 matches Some(rg) && rg.len() >= gs.len()
            && rg.take(gs.len() as int) == gs && tool_groups(rg.skip(gs.len() as int))))
    }
    &&& forall|i: int| es.len() <= i < r.len() ==> ((#[trigger] r[i]).1 matches Some(rg) && rg.len() > 0 && tool_groups(rg))
}

proof fn lemma_unmanaged_user(hs: Seq<(usize, bool)>)
    requires
        user_handlers(hs),
    ensures
        unmanaged(hs) == hs,
    decreases hs.len(),
{
    if hs.len() > 0 {
        lemma_unmanaged_user(hs.drop_last());
        assert(hs.drop_last().push(hs.last()) =~= hs);
    }
}

proof fn lemma_unmanaged_tool(hs: Seq<(usize, bool)>)
    requires
        forall|j: int| 0 <= j < hs.len() ==> (#[trigger] hs[j]).1,
    ensures
        unmanaged(hs).len() == 0,
    decreases hs.len(),
{
    if hs.len() > 0 {
        lemma_unmanaged_tool(hs.drop_last());
    }
}

proof fn lemma_groups_concat(a: Seq<(GroupSource, Option<Seq<(usize, bool)>>)>, b: Seq<(GroupSource, Option<Seq<(usize, bool)>>)>)
    ensures
        merge_groups(a + b) == merge_groups(a) + merge_groups(b),
        strip_groups(a + b) == strip_groups(a) + strip_groups(b),
        removed_in(a + b) == removed_in(a) + removed_in(b),
    decreases b.len(),
{
    if b.len() == 0 {
        assert(a + b =~= a);
        assert(merge_groups(a) + merge_groups(b) =~= merge_groups(a));
        assert(strip_groups(a) + strip_groups(b) =~= strip_groups(a));
    } else {
        let bp = b.drop_last();
        lemma_groups_concat(a, bp);
        assert((a + b).drop_last() =~= a + bp);
        assert((a + b).last() == b.last());
        let g = b.last();
        match g.1 {
            Some(hs) => {
                let kept = unmanaged(hs);
                if kept.len() != 0 {
                    assert(merge_groups(a) + merge_groups(bp).push((g.0, Some(kept))) =~= (merge_groups(a) + merge_groups(bp)).push((g.0, Some(kept))));
                }
                if !(kept.len() < hs.len() && kept.len() == 0) {
                    assert(strip_groups(a) + strip_groups(bp).push((g.0, Some(kept))) =~= (strip_groups(a) + strip_groups(bp)).push((g.0, Some(kept))));
                }
            },
            None => {
                assert(merge_groups(a) + merge_groups(bp).push(g) =~= (merge_groups(a) + merge_groups(bp)).push(g));
                assert(strip_groups(a) + strip_groups(bp).push(g) =~= (strip_groups(a) + strip_groups(bp)).push(g));
            },
        }
    }
}

proof fn lemma_user_groups_kept(gs: Seq<(GroupSource, Option<Seq<(usize, bool)>>)>)
    requires
        user_groups(gs),
    ensures
        merge_groups(gs) == gs,
        strip_groups(gs) == gs,
        removed_in(gs) == 0,
    decreases gs.len(),
{
    if gs.len() > 0 {
        let p = gs.drop_last();
        assert(user_groups(p)) by {
            assert forall|k: int| 0 <= k < p.len() implies ((#[trigger] p[k]).1 matches Some(hs) ==> hs.len() > 0 && user_handlers(hs)) by {
                assert(p[k] == gs[k]);
            }
        }
        lemma_user_groups_kept(p);
        let g = gs.last();
        assert(g == gs[gs.len() - 1]);
        match g.1 {
            Some(hs) => {
                lemma_unmanaged_user(hs);
            },
            None => {},
        }
        assert(p.push(g) =~= gs);
    }
}

proof fn lemma_tool_groups_dropped(gs: Seq<(GroupSource, Option<Seq<(usize, bool)>>)>)
    requires
        tool_groups(gs),
    ensures
        merge_groups(gs).len() == 0,
        strip_groups(gs).len() == 0,
        removed_in(gs) >= gs.len(),
    decreases gs.len(),
{
    if gs.len() > 0 {
        let p = gs.drop_last();
        assert(tool_groups(p)) by {
            assert forall|k: int| 0 <= k < p.len() implies ((#[trigger] p[k]).1 matches Some(hs) && hs.len() > 0
                && forall|j: int| 0 <= j < hs.len() ==> (#[trigger] hs[j]).1) by {
                assert(p[k] == gs[k]);
            }
        }
        lemma_tool_groups_dropped(p);
        let g = gs.last();
        assert(g == gs[gs.len() - 1]);
        let hs = g.1->0;
        lemma_unmanaged_tool(hs);
    }
}

proof fn lemma_tool_groups_concat(a: Seq<(GroupSource, Option<Seq<(usize, bool)>>)>, b: Seq<(GroupSource, Option<Seq<(usize, bool)>>)>)
    requires
        tool_groups(a),
        tool_groups(b),
    ensures
        tool_groups(a + b),
{
    assert forall|k: int| 0 <= k < (a + b).len() implies ((#[trigger] (a + b)[k]).1 matches Some(hs) && hs.len() > 0
        && forall|j: int| 0 <= j < hs.len() ==> (#[trigger] hs[j]).1) by {
        if k < a.len() {
            assert((a + b)[k] == a[k]);
        } else {
            assert((a + b)[k] == b[k - a.len()]);
        }
    }
}

proof fn lemma_merge_step_installs(es: Seq<(Seq<char>, Option<Seq<(GroupSource, Option<Seq<(usize, bool)>>)>>)>, r: Seq<(Seq<char>, Option<Seq<(GroupSource, Option<Seq<(usize, bool)>>)>>)>, name: Seq<char>, g: Seq<(GroupSource, Option<Seq<(usize, bool)>>)>, r2: Seq<(Seq<char>, Option<Seq<(GroupSource, Option<Seq<(usize, bool)>>)>>)>)
    requires
        user_config(es),
        installed_over(es, r),
        g.len() > 0,
        tool_groups(g),
        merge_step(r, name, Some(g)) == Ok::<Seq<(Seq<char>, Option<Seq<(GroupSource, Option<Seq<(usize, bool)>>)>>)>, Seq<char>>(r2),
    ensures
        installed_over(es, r2),
{
    match find_event(r, name) {
        Some(i) => {
            assert(first_named(r, name, i));
            let rg = r[i].1->0;
            assert(r2 == r.update(i, (name, Some(merge_groups(rg) + g))));
            if i < es.len() {
                let gs = es[i].1->0;
                assert(es[i].1 is Some);
                assert(user_groups(gs));
                assert(rg =~= rg.take(gs.len() as int) + rg.skip(gs.len() as int));
                lemma_groups_concat(rg.take(gs.len() as int), rg.skip(gs.len() as int));
                lemma_user_groups_kept(gs);
                lemma_tool_groups_dropped(rg.skip(gs.len() as int));
                assert(merge_groups(rg) =~= gs);
                let ng = gs + g;
                assert(ng.take(gs.len() as int) =~= gs);
                assert(ng.skip(gs.len() as int) =~= g);
                assert forall|j: int| 0 <= j < es.len() implies {
                    &&& (#[trigger] r2[j]).0 == es[j].0
                    &&& (es[j].1 is None ==> r2[j].1 is None)
                    &&& (es[j].1 matches Some(gs2) ==> (r2[j].1 matches Some(rg2) && rg2.len() >= gs2.len()
                        && rg2.take(gs2.len() as int) == gs2 && tool_groups(rg2.skip(gs2.len() as int))))
                } by {
                    if j != i {
                        assert(r2[j] == r[j]);
                    }
                }
                assert forall|j: int| es.len() <= j < r2.len() implies ((#[trigger] r2[j]).1 matches Some(rg2) && rg2.len() > 0 && tool_groups(rg2)) by {
                    assert(r2[j] == r[j]);
                }
            } else {
                lemma_tool_groups_dropped(rg);
                assert(merge_groups(rg) + g =~= g);
                assert forall|j: int| 0 <= j < es.len() implies {
                    &&& (#[trigger] r2[j]).0 == es[j].0
                    &&& (es[j].1 is None ==> r2[j].1 is None)
                    &&& (es[j].1 matches Some(gs2) ==> (r2[j].1 matches Some(rg2) && rg2.len() >= gs2.len()
                        && rg2.take(gs2.len() as int) == gs2 && tool_groups(rg2.skip(gs2.len() as int))))
                } by {
                    assert(r2[j] == r[j]);
                }
                assert forall|j: int| es.len() <= j < r2.len() implies ((#[trigger] r2[j]).1 matches Some(rg2) && rg2.len() > 0 && tool_groups(rg2)) by {
                    if j != i {
                        assert(r2[j] == r[j]);
                    }
                }
            }
        },
        None => {
            assert(r2 == r.push((name, Some(g))));
            assert forall|j: int| 0 <= j < es.len() implies {
                &&& (#[trigger] r2[j]).0 == es[j].0
                &&& (es[j].1 is None ==> r2[j].1 is None)
                &&& (es[j].1 matches Some(gs2) ==> (r2[j].1 matches Some(rg2) && rg2.len() >= gs2.len()
                    && rg2.take(gs2.len() as int) == gs2 && tool_groups(rg2.skip(gs2.len() as int))))
            } by {
                assert(r2[j] == r[j]);
            }
            assert forall|j: int| es.len() <= j < r2.len() implies ((#[trigger] r2[j]).1 matches Some(rg2) && rg2.len() > 0 && tool_groups(rg2)) by {
                if j < r.len() {
                    assert(r2[j] == r[j]);
                }
            }
        },
    }
}

proof fn lemma_merge_installs(es: Seq<(Seq<char>, Option<Seq<(GroupSource, Option<Seq<(usize, bool)>>)>>)>, gen: Seq<(Seq<char>, Option<Seq<(GroupSource, Option<Seq<(usize, bool)>>)>>)>, r: Seq<(Seq<char>, Option<Seq<(GroupSource, Option<Seq<(usize, bool)>>)>>)>)
    requires
        user_config(es),
        tool_config(gen),
        spec_merge(es, gen) == Ok::<Seq<(Seq<char>, Option<Seq<(GroupSource, Option<Seq<(usize, bool)>>)>>)>, Seq<char>>(r),
    ensures
        installed_over(es, r),
    decreases gen.len(),
{
    if gen.len() == 0 {
        assert forall|i: int| 0 <= i < es.len() implies {
            &&& (#[trigger] r[i]).0 == es[i].0
            &&& (es[i].1 is None ==> r[i].1 is None)
            &&& (es[i].1 matches Some(gs) ==> (r[i].1 matches Some(rg) && rg.len() >= gs.len()
                && rg.take(gs.len() as int) == gs && tool_groups(rg.skip(gs.len() as int))))
        } by {
            if es[i].1 is Some {
                let gs = es[i].1->0;
                assert(gs.take(gs.len() as int) =~= gs);
                assert(gs.skip(gs.len() as int).len() == 0);
            }
        }
    } else {
        let p = gen.drop_last();
        assert(tool_config(p)) by {
            assert forall|i: int| 0 <= i < p.len() implies ((#[trigger] p[i]).1 matches Some(gs) && gs.len() > 0 && tool_groups(gs)) by {
                assert(p[i] == gen[i]);
            }
        }
        match spec_merge(es, p) {
            Ok(r1) => {
                lemma_merge_installs(es, p, r1);
                let last = gen.last();
                assert(last == gen[gen.len() - 1]);
                lemma_merge_step_installs(es, r1, last.0, last.1->0, r);
            },
            Err(_) => {},
        }
    }
}

proof fn lemma_strip_installed(es: Seq<(Seq<char>, Option<Seq<(GroupSource, Option<Seq<(usize, bool)>>)>>)>, r: Seq<(Seq<char>, Option<Seq<(GroupSource, Option<Seq<(usize, bool)>>)>>)>, n: nat)
    requires
        user_config(es),
        installed_over(es, r),
        n <= r.len(),
    ensures
        strip_events(r.take(n as int)) == es.take(if n <= es.len() { n as int } else { es.len() as int }),
    decreases n,
{
    if n > 0 {
        lemma_strip_installed(es, r, (n - 1) as nat);
        let t = r.take(n as int);
        assert(t.drop_last() =~= r.take(n - 1));
        let e = t.last();
        assert(e == r[n - 1]);
        let k = if n - 1 <= es.len() { (n - 1) as int } else { es.len() as int };
        if n - 1 < es.len() {
            let i = n - 1;
            assert(es.take(i + 1) =~= es.take(i).push(es[i]));
            match es[i].1 {
                Some(gs) => {
                    let rg = e.1->0;
                    let tl = rg.skip(gs.len() as int);
                    assert(rg =~= gs + tl);
                    lemma_groups_concat(gs, tl);
                    lemma_user_groups_kept(gs);
                    lemma_tool_groups_dropped(tl);
                    assert(strip_groups(rg) =~= gs);
                    assert(gs.len() > 0);
                },
                None => {},
            }
        } else {
            let rg = e.1->0;
            lemma_tool_groups_dropped(rg);
        }
    } else {
        assert(r.take(0) =~= Seq::<(Seq<char>, Option<Seq<(GroupSource, Option<Seq<(usize, bool)>>)>>)>::empty());
        assert(es.take(0) =~= Seq::<(Seq<char>, Option<Seq<(GroupSource, Option<Seq<(usize, bool)>>)>>)>::empty());
    }
}

/// Installing into a configuration of the user's own, then uninstalling, gives the
/// configuration back exactly: the same events in the same order, each with the same groups
/// and handlers. When the generated events have distinct names, uninstalling removes as many
/// handlers as they hold (all of them the tool's). (The configuration's arrays of groups are
/// not empty, its groups hold handlers, and none of them is the tool's; the generated events
/// are arrays of groups that hold only the tool's handlers.)
pub proof fn lemma_uninstall_restores_configuration(es: Seq<(Seq<char>, Option<Seq<(GroupSource, Option<Seq<(usize, bool)>>)>>)>, gen: Seq<(Seq<char>, Option<Seq<(GroupSource, Option<Seq<(usize, bool)>>)>>)>, r: Seq<(Seq<char>, Option<Seq<(GroupSource, Option<Seq<(usize, bool)>>)>>)>)
    requires
        user_config(es),
        tool_config(gen),
        spec_merge(es, gen) == Ok::<Seq<(Seq<char>, Option<Seq<(GroupSource, Option<Seq<(usize, bool)>>)>>)>, Seq<char>>(r),
    ensures
        strip_events(r) == es,
        names_unique(gen) ==> removed_total(r) == removed_total(gen),
{
    if names_unique(gen) {
        lemma_merge_counts(es, gen, r);
    }
    lemma_merge_installs(es, gen, r);
    lemma_strip_installed(es, r, r.len());
    assert(r.take(r.len() as int) =~= r);
    assert(es.take(es.len() as int) =~= es);
}

/// Uninstalling from a configuration of the user's own returns it exactly and removes
/// nothing.
pub proof fn lemma_uninstall_keeps_user_configuration(es: Seq<(Seq<char>, Option<Seq<(GroupSource, Option<Seq<(usize, bool)>>)>>)>)
    requires
        user_config(es),
    ensures
        strip_events(es) == es,
        removed_total(es) == 0,
    decreases es.len(),
{
    if es.len() > 0 {
        let p = es.drop_last();
        assert(user_config(p)) by {
            assert forall|i: int| 0 <= i < p.len() implies ((#[trigger] p[i]).1 matches Some(gs) ==> gs.len() > 0 && user_groups(gs)) by {
                assert(p[i] == es[i]);
            }
        }
        lemma_uninstall_keeps_user_configuration(p);
        let e = es.last();
        assert(e == es[es.len() - 1]);
        match e.1 {
            Some(gs) => lemma_user_groups_kept(gs),
            None => {},
        }
        assert(p.push(e) =~= es);
    }
}

/// How many of an event's handlers are the tool's own.
pub open spec fn event_removed(e: (Seq<char>, Option<Seq<(GroupSource, Option<Seq<(usize, bool)>>)>>)) -> nat {
    match e.1 {
        Some(gs) => removed_in(gs),
        None => 0,
    }
}

proof fn lemma_removed_total_update(r: Seq<(Seq<char>, Option<Seq<(GroupSource, Option<Seq<(usize, bool)>>)>>)>, i: int, e: (Seq<char>, Option<Seq<(GroupSource, Option<Seq<(usize, bool)>>)>>))
    requires
        0 <= i < r.len(),
    ensures
        removed_total(r.update(i, e)) + event_removed(r[i]) == removed_total(r) + event_removed(e),
    decreases r.len(),
{
    let d = r.drop_last();
    if i == r.len() - 1 {
        assert(r.update(i, e).drop_last() =~= d);
    } else {
        lemma_removed_total_update(d, i, e);
        assert(r.update(i, e).drop_last() =~= d.update(i, e));
        assert(r.update(i, e).last() == r.last());
        assert(d[i] == r[i]);
    }
}

/// Merging generated events with distinct names: an existing event gained tool groups only
/// from a generated event of its name, every appended event is named by a generated one,
/// and the tool handlers present are those of the generated events.
pub open spec fn merge_counted(es: Seq<(Seq<char>, Option<Seq<(GroupSource, Option<Seq<(usize, bool)>>)>>)>, gen: Seq<(Seq<char>, Option<Seq<(GroupSource, Option<Seq<(usize, bool)>>)>>)>, r: Seq<(Seq<char>, Option<Seq<(GroupSource, Option<Seq<(usize, bool)>>)>>)>) -> bool {
    &&& installed_over(es, r)
    &&& forall|i: int| 0 <= i < es.len() ==> ((#[trigger] r[i]).1->0.len() > es[i].1->0.len() ==> es[i].1 is Some ==> named(gen, es[i].0))
    &&& forall|i: int| es.len() <= i < r.len() ==> named(gen, (#[trigger] r[i]).0)
    &&& removed_total(r) == removed_total(gen)
}

proof fn lemma_merge_counts(es: Seq<(Seq<char>, Option<Seq<(GroupSource, Option<Seq<(usize, bool)>>)>>)>, gen: Seq<(Seq<char>, Option<Seq<(GroupSource, Option<Seq<(usize, bool)>>)>>)>, r: Seq<(Seq<char>, Option<Seq<(GroupSource, Option<Seq<(usize, bool)>>)>>)>)
    requires
        user_config(es),
        tool_config(gen),
        names_unique(gen),
        spec_merge(es, gen) == Ok::<Seq<(Seq<char>, Option<Seq<(GroupSource, Option<Seq<(usize, bool)>>)>>)>, Seq<char>>(r),
    ensures
        merge_counted(es, gen, r),
    decreases gen.len(),
{
    lemma_merge_installs(es, gen, r);
    if gen.len() == 0 {
        lemma_uninstall_keeps_user_configuration(es);
        assert forall|i: int| 0 <= i < es.len() implies ((#[trigger] r[i]).1->0.len() > es[i].1->0.len() ==> es[i].1 is Some ==> named(gen, es[i].0)) by {}
    } else {
        let p = gen.drop_last();
        let last = gen.last();
        assert(last == gen[gen.len() - 1]);
        assert(tool_config(p)) by {
            assert forall|i: int| 0 <= i < p.len() implies ((#[trigger] p[i]).1 matches Some(gs) && gs.len() > 0 && tool_groups(gs)) by {
                assert(p[i] == gen[i]);
            }
        }
        assert(names_unique(p)) by {
            assert forall|i: int, j: int| 0 <= i < j < p.len() implies (#[trigger] p[i]).0 != (#[trigger] p[j]).0 by {
                assert(p[i] == gen[i] && p[j] == gen[j]);
            }
        }
        let r1 = spec_merge(es, p)->Ok_0;
        lemma_merge_counts(es, p, r1);
        let name = last.0;
        let g = last.1->0;
        assert(!named(p, name)) by {
            if named(p, name) {
                let j = choose|j: int| 0 <= j < p.len() && (#[trigger] p[j]).0 == name;
                assert(p[j] == gen[j]);
            }
        }
        assert forall|n: Seq<char>| named(p, n) implies named(gen, n) by {
            let j = choose|j: int| 0 <= j < p.len() && (#[trigger] p[j]).0 == n;
            assert(gen[j] == p[j]);
        }
        assert(named(gen, name)) by {
            assert(gen[gen.len() - 1].0 == name);
        }
        assert(gen =~= p.push(last));
        assert(removed_total(gen) == removed_total(p) + event_removed(last));
        match find_event(r1, name) {
            Some(i) => {
                assert(first_named(r1, name, i));
                let rg = r1[i].1->0;
                assert(r == r1.update(i, (name, Some(merge_groups(rg) + g))));
                if i < es.len() {
                    let gs = es[i].1->0;
                    assert(es[i].1 is Some);
                    assert(rg.len() == gs.len());
                    assert(rg =~= gs);
                    lemma_user_groups_kept(gs);
                    lemma_groups_concat(gs, g);
                    lemma_removed_total_update(r1, i, (name, Some(merge_groups(rg) + g)));
                    assert forall|j: int| 0 <= j < es.len() implies ((#[trigger] r[j]).1->0.len() > es[j].1->0.len() ==> es[j].1 is Some ==> named(gen, es[j].0)) by {
                        if j != i {
                            assert(r[j] == r1[j]);
                        }
                    }
                    assert forall|j: int| es.len() <= j < r.len() implies named(gen, (#[trigger] r[j]).0) by {
                        assert(r[j] == r1[j]);
                    }
                } else {
                    assert(named(p, r1[i].0));
                }
            },
            None => {
                assert(r == r1.push((name, Some(g))));
                assert(r.drop_last() =~= r1);
                assert forall|j: int| 0 <= j < es.len() implies ((#[trigger] r[j]).1->0.len() > es[j].1->0.len() ==> es[j].1 is Some ==> named(gen, es[j].0)) by {
                    assert(r[j] == r1[j]);
                }
                assert forall|j: int| es.len() <= j < r.len() implies named(gen, (#[trigger] r[j]).0) by {
                    if j < r1.len() {
                        assert(r[j] == r1[j]);
                    }
                }
            },
        }
    }
}

/// No event of `es` that is not an array shares its name with a generated event.
pub open spec fn arrays_where_generated(es: Seq<(Seq<char>, Option<Seq<(GroupSource, Option<Seq<(usize, bool)>>)>>)>, gen: Seq<(Seq<char>, Option<Seq<(GroupSource, Option<Seq<(usize, bool)>>)>>)>) -> bool {
    forall|i: int| 0 <= i < es.len() ==> ((#[trigger] es[i]).1 is None ==> !named(gen, es[i].0))
}

proof fn lemma_merge_succeeds(es: Seq<(Seq<char>, Option<Seq<(GroupSource, Option<Seq<(usize, bool)>>)>>)>, gen: Seq<(Seq<char>, Option<Seq<(GroupSource, Option<Seq<(usize, bool)>>)>>)>)
    requires
        user_config(es),
        tool_config(gen),
        arrays_where_generated(es, gen),
    ensures
        spec_merge(es, gen) is Ok,
    decreases gen.len(),
{
    if gen.len() > 0 {
        let p = gen.drop_last();
        let last = gen.last();
        assert(last == gen[gen.len() - 1]);
        assert(tool_config(p)) by {
            assert forall|i: int| 0 <= i < p.len() implies ((#[trigger] p[i]).1 matches Some(gs) && gs.len() > 0 && tool_groups(gs)) by {
                assert(p[i] == gen[i]);
            }
        }
        assert(arrays_where_generated(es, p)) by {
            assert forall|i: int| 0 <= i < es.len() implies ((#[trigger] es[i]).1 is None ==> !named(p, es[i].0)) by {
                if es[i].1 is None && named(p, es[i].0) {
                    let j = choose|j: int| 0 <= j < p.len() && (#[trigger] p[j]).0 == es[i].0;
                    assert(gen[j] == p[j]);
                    assert(named(gen, es[i].0));
                }
            }
        }
        lemma_merge_succeeds(es, p);
        let r1 = spec_merge(es, p)->Ok_0;
        lemma_merge_installs(es, p, r1);
        let name = last.0;
        assert(named(gen, name)) by {
            assert(gen[gen.len() - 1].0 == name);
        }
        assert(last.1 is Some);
        match find_event(r1, name) {
            Some(i) => {
                assert(first_named(r1, name, i));
                if r1[i].1 is None {
                    assert(i < es.len());
                    assert(es[i].1 is None);
                    assert(es[i].0 == name);
                    assert(false);
                }
            },
            None => {},
        }
    }
}

/// The events of a configuration before installing: those of its `hooks` object, or none
/// when it has no such object (as for a missing file).
pub open spec fn events_before(existing: ConfigShape) -> Seq<(Seq<char>, Option<Seq<(GroupSource, Option<Seq<(usize, bool)>>)>>)> {
    match existing {
        ConfigShape::Hooks(es) => events_view(es@),
        _ => seq![],
    }
}

/// Installing, then uninstalling, gives the configuration back: installing the generated
/// events into a configuration of the user's own (or into one without `hooks`, as a missing
/// file reads) succeeds whenever no event that is not an array is named by a generated one,
/// and removing the tool's handlers from the result gives back exactly the events that were
/// there before, in order, with their groups and handlers (none when there were none). When
/// the generated events have distinct names, that removal counts every generated handler.
pub proof fn lemma_install_then_uninstall(existing: ConfigShape, generated: ConfigShape)
    requires
        existing is NoHooks || existing is Hooks,
        user_config(events_before(existing)),
        generated matches ConfigShape::Hooks(g) && tool_config(events_view(g@))
            && arrays_where_generated(events_before(existing), events_view(g@)),
    ensures
        spec_merge_config(existing, generated) is Ok,
        strip_events(spec_merge_config(existing, generated)->Ok_0) == events_before(existing),
        generated matches ConfigShape::Hooks(g) && (names_unique(events_view(g@)) ==>
            removed_total(spec_merge_config(existing, generated)->Ok_0) == removed_total(events_view(g@))),
{
    let gv = match generated {
        ConfigShape::Hooks(g) => events_view(g@),
        _ => seq![],
    };
    let es = events_before(existing);
    assert(spec_merge_config(existing, generated) == spec_merge(es, gv));
    lemma_merge_succeeds(es, gv);
    let r = spec_merge(es, gv)->Ok_0;
    lemma_uninstall_restores_configuration(es, gv, r);
}

// ---------------------------------------------------------------------------------------
// The generated hooks
// ---------------------------------------------------------------------------------------

/// One generated group: its matcher, when it has one, the command its one handler runs,
/// and the status message shown while it runs.
#[derive(Debug, Clone)]
pub struct GeneratedGroup {
    pub matcher: Option<&'static str>,
    pub command: String,
    pub status_message: &'static str,
}

/// The generated groups of one event.
#[derive(Debug, Clone)]
pub struct GeneratedEvent {
    pub name: &'static str,
    pub groups: Vec<GeneratedGroup>,
}

pub open spec fn opt_static(v: Option<&'static str>) -> Option<Seq<char>> {
    match v {
        Some(s) => Some(s@),
        None => None,
    }
}

pub open spec fn generated_group_view(g: GeneratedGroup) -> (Option<Seq<char>>, Seq<char>, Seq<char>) {
    (opt_static(g.matcher), g.command@, g.status_message@)
}

pub open spec fn generated_view(es: Seq<GeneratedEvent>) -> Seq<(Seq<char>, Seq<(Option<Seq<char>>, Seq<char>, Seq<char>)>)> {
    es.map_values(|e: GeneratedEvent| (e.name@, e.groups@.map_values(|g: GeneratedGroup| generated_group_view(g))))
}

/// The hooks the tool installs: the compaction helper on session start, before and after
/// compaction; the suggestion measurement and the prompt review on prompt submission; the
/// changed-code review after tool use; the final-answer review on stop.
pub open spec fn spec_generated(c: HookCommands) -> Seq<(Seq<char>, Seq<(Option<Seq<char>>, Seq<char>, Seq<char>)>)> {
    seq![
        ("SessionStart"@, seq![(Some("startup|resume|clear|compact"@), c.compact_assist@, "jevx: restoring compact checkpoint"@)]),
        ("PreCompact"@, seq![(Some("manual|auto"@), c.pre_compact@, "jevx: recording compact checkpoint"@)]),
        ("PostCompact"@, seq![(Some("manual|auto"@), c.compact_assist@, "jevx: recording compact completion"@)]),
        ("UserPromptSubmit"@, seq![(None, c.shadow@, "jevx: measuring Skill suggestion"@),
            (None, c.review_prompt@, "jevx: reviewing prompt semantics"@)]),
        ("PostToolUse"@, seq![(None, c.review_diff@, "jevx: reviewing changed-code semantics"@)]),
        ("Stop"@, seq![(None, c.review_final@, "jevx: reviewing final answer semantics"@)]),
    ]
}

/// The commands of an event's generated groups, in order.
pub open spec fn event_commands(e: (Seq<char>, Seq<(Option<Seq<char>>, Seq<char>, Seq<char>)>)) -> Seq<Seq<char>> {
    e.1.map_values(|g: (Option<Seq<char>>, Seq<char>, Seq<char>)| g.1)
}

/// Each generated event runs the command of its own purpose, and each event is generated
/// once: session start and post-compaction run the compaction helper, pre-compaction its
/// pre-compaction command, prompt submission the suggestion measurement and then the prompt
/// review, tool use the changed-code (diff) review, and stop the final-answer review. The
/// compaction events match manual and automatic compaction; the others match every event.
pub proof fn lemma_generated_commands(c: HookCommands, i: int)
    requires
        0 <= i < spec_generated(c).len(),
    ensures
        spec_generated(c).len() == 6,
        forall|j: int| 0 <= j < spec_generated(c).len() && j != i ==> spec_generated(c)[j].0 != spec_generated(c)[i].0,
        spec_generated(c)[i].0 == "SessionStart"@ ==> event_commands(spec_generated(c)[i]) == seq![c.compact_assist@],
        spec_generated(c)[i].0 == "PreCompact"@ ==> event_commands(spec_generated(c)[i]) == seq![c.pre_compact@],
        spec_generated(c)[i].0 == "PostCompact"@ ==> event_commands(spec_generated(c)[i]) == seq![c.compact_assist@],
        spec_generated(c)[i].0 == "UserPromptSubmit"@ ==> event_commands(spec_generated(c)[i]) == seq![c.shadow@, c.review_prompt@],
        spec_generated(c)[i].0 == "PostToolUse"@ ==> event_commands(spec_generated(c)[i]) == seq![c.review_diff@],
        spec_generated(c)[i].0 == "Stop"@ ==> event_commands(spec_generated(c)[i]) == seq![c.review_final@],
        spec_generated(c)[i].0 == "PreCompact"@ || spec_generated(c)[i].0 == "PostCompact"@ ==> forall|k: int|
            0 <= k < spec_generated(c)[i].1.len() ==> (#[trigger] spec_generated(c)[i].1[k]).0 == Some("manual|auto"@),
        spec_generated(c)[i].0 == "UserPromptSubmit"@ || spec_generated(c)[i].0 == "PostToolUse"@
            || spec_generated(c)[i].0 == "Stop"@ ==> forall|k: int|
            0 <= k < spec_generated(c)[i].1.len() ==> (#[trigger] spec_generated(c)[i].1[k]).0 is None,
{
    reveal_strlit("SessionStart");
    reveal_strlit("PreCompact");
    reveal_strlit("PostCompact");
    reveal_strlit("UserPromptSubmit");
    reveal_strlit("PostToolUse");
    reveal_strlit("Stop");
    let g = spec_generated(c);
    assert(event_commands(g[0]) =~= seq![c.compact_assist@]);
    assert(event_commands(g[1]) =~= seq![c.pre_compact@]);
    assert(event_commands(g[2]) =~= seq![c.compact_assist@]);
    assert(event_commands(g[3]) =~= seq![c.shadow@, c.review_prompt@]);
    assert(event_commands(g[4]) =~= seq![c.review_diff@]);
    assert(event_commands(g[5]) =~= seq![c.review_final@]);
    assert(g[0].0.len() == 12 && g[1].0.len() == 10 && g[2].0.len() == 11 && g[3].0.len() == 16 && g[4].0.len() == 11 && g[5].0.len() == 4);
    assert(g[1].0[1] == 'r' && g[2].0[1] == 'o' && g[4].0[1] == 'o');
    assert(g[2].0[4] == 'C' && g[4].0[4] == 'T');
}

fn group(matcher: Option<&'static str>, command: &String, status_message: &'static str) -> (res: GeneratedGroup)
    ensures
        res.matcher == matcher,
        res.command@ == command@,
        res.status_message == status_message,
{
    GeneratedGroup { matcher, command: command.clone(), status_message }
}

pub fn generated_hooks(c: &HookCommands) -> (res: Vec<GeneratedEvent>)
    ensures
        generated_view(res@) == spec_generated(*c),
{
    let res = vec![
        GeneratedEvent { name: "SessionStart", groups: vec![group(Some("startup|resume|clear|compact"), &c.compact_assist,
            "jevx: restoring compact checkpoint")] },
        GeneratedEvent { name: "PreCompact", groups: vec![group(Some("manual|auto"), &c.pre_compact,
            "jevx: recording compact checkpoint")] },
        GeneratedEvent { name: "PostCompact", groups: vec![group(Some("manual|auto"), &c.compact_assist,
            "jevx: recording compact completion")] },
        GeneratedEvent { name: "UserPromptSubmit", groups: vec![group(None, &c.shadow, "jevx: measuring Skill suggestion"),
            group(None, &c.review_prompt, "jevx: reviewing prompt semantics")] },
        GeneratedEvent { name: "PostToolUse", groups: vec![group(None, &c.review_diff,
            "jevx: reviewing changed-code semantics")] },
        GeneratedEvent { name: "Stop", groups: vec![group(None, &c.review_final, "jevx: reviewing final answer semantics")] },
    ];
    proof {
        let v = generated_view(res@);
        let w = spec_generated(*c);
        assert forall|i: int| 0 <= i < 6 implies #[trigger] v[i] == w[i] by {
            assert(v[i].1 =~= w[i].1);
        }
        assert(v =~= w);
    }
    res
}

/// The shape of a generated event: each group comes from its position among the event's
/// generated groups and has one handler, a command.
pub open spec fn generated_event_shape(ev: (Seq<char>, Option<Seq<(GroupSource, Option<Seq<(usize, bool)>>)>>), gv: (Seq<char>, Seq<(Option<Seq<char>>, Seq<char>, Seq<char>)>)) -> bool {
    &&& ev.0 == gv.0
    &&& ev.1 is Some
    &&& ev.1->0.len() == gv.1.len()
    &&& forall|j: int| 0 <= j < gv.1.len() ==> (#[trigger] ev.1->0[j]) == (GroupSource::Generated(j as usize),
        Some(seq![(0usize, spec_is_tool_handler(Some("command"@), Some(gv.1[j].1)))]))
}

pub open spec fn is_generated_shape(es: Seq<(Seq<char>, Option<Seq<(GroupSource, Option<Seq<(usize, bool)>>)>>)>, gen: Seq<(Seq<char>, Seq<(Option<Seq<char>>, Seq<char>, Seq<char>)>)>) -> bool {
    &&& es.len() == gen.len()
    &&& forall|i: int| 0 <= i < es.len() ==> generated_event_shape(#[trigger] es[i], gen[i])
}

pub fn generated_shape(gen: &Vec<GeneratedEvent>) -> (res: ConfigShape)
    ensures
        res matches ConfigShape::Hooks(es) && is_generated_shape(events_view(es@), generated_view(gen@)),
{
    let mut out: Vec<EventFacts> = Vec::new();
    let mut i: usize = 0;
    while i < gen.len()
        invariant
            i <= gen.len(),
            out@.len() == i,
            forall|k: int| 0 <= k < i ==> generated_event_shape(#[trigger] events_view(out@)[k], generated_view(gen@)[k]),
        decreases gen.len() - i,
    {
        let e = &gen[i];
        let mut groups: Vec<GroupFacts> = Vec::new();
        let mut j: usize = 0;
        while j < e.groups.len()
            invariant
                j <= e.groups.len(),
                groups@.len() == j,
                forall|k: int| 0 <= k < j ==> (#[trigger] groups_view(groups@)[k]) == (GroupSource::Generated(k as usize),
                    Some(seq![(0usize, spec_is_tool_handler(Some("command"@), Some(e.groups@[k].command@)))])),
            decreases e.groups.len() - j,
        {
            let h = HandlerFacts { index: 0, handler_type: Some("command".to_owned()), command: Some(e.groups[j].command.clone()) };
            let hs = vec![h];
            proof {
                assert(handlers_view(hs@) =~= seq![(0usize, spec_is_tool_handler(Some("command"@), Some(e.groups@[j as int].command@)))]);
            }
            let ghost before = groups@;
            let ghost hv = handlers_view(hs@);
            groups.push(GroupFacts { source: GroupSource::Generated(j), handlers: Some(hs) });
            proof {
                assert(group_view(groups@[j as int]) == (GroupSource::Generated(j), Some(hv)));
                assert forall|k: int| 0 <= k < j + 1 implies (#[trigger] groups_view(groups@)[k]) == (GroupSource::Generated(k as usize),
                    Some(seq![(0usize, spec_is_tool_handler(Some("command"@), Some(e.groups@[k].command@)))])) by {
                    if k < j {
                        assert(groups@[k] == before[k]);
                        assert(groups_view(before)[k] == groups_view(groups@)[k]);
                    }
                }
            }
            j = j + 1;
        }
        let ghost before = out@;
        out.push(EventFacts { name: e.name.to_owned(), groups: Some(groups) });
        proof {
            assert forall|k: int| 0 <= k < i + 1 implies generated_event_shape(#[trigger] events_view(out@)[k], generated_view(gen@)[k]) by {
                if k < i {
                    assert(out@[k] == before[k]);
                    assert(events_view(out@)[k] == events_view(before)[k]);
                } else {
                    assert(out@[k].name@ == e.name@);
                    assert(events_view(out@)[k] == event_view(out@[k]));
                    assert(generated_view(gen@)[k] == (gen@[k].name@, gen@[k].groups@.map_values(|g: GeneratedGroup| generated_group_view(g))));
                    let ev = events_view(out@)[k];
                    let gv = generated_view(gen@)[k];
                    assert(ev.1->0 == groups_view(groups@));
                    assert(gv.1 == e.groups@.map_values(|g: GeneratedGroup| generated_group_view(g)));
                    assert forall|j: int| 0 <= j < gv.1.len() implies (#[trigger] ev.1->0[j]) == (GroupSource::Generated(j as usize),
                        Some(seq![(0usize, spec_is_tool_handler(Some("command"@), Some(gv.1[j].1)))])) by {
                        assert(gv.1[j] == generated_group_view(e.groups@[j]));
                        assert(groups_view(groups@)[j] == (GroupSource::Generated(j as usize),
                            Some(seq![(0usize, spec_is_tool_handler(Some("command"@), Some(e.groups@[j].command@)))])));
                    }
                }
            }
        }
        i = i + 1;
    }
    ConfigShape::Hooks(out)
}

} // verus!
