//! The component-collapse algorithm: a single left-to-right pass over a
//! decomposed path that reduces it to its minimal equivalent form.

use vstd::prelude::*;

use crate::component::{dot_dot, is_dot_dot, ComponentModel, PathComponent};

verus! {

/// What one `Parent` marker does when the stack top cannot be popped:
/// above the anchor of an absolute path it is discarded, while for a
/// relative path it is retained as a pending parent marker.
pub open spec fn parent_overflow(stack: Seq<ComponentModel>, is_absolute: bool) -> Seq<
    ComponentModel,
> {
    if is_absolute {
        stack
    } else {
        stack.push(ComponentModel::Parent)
    }
}

/// One step of the collapse: the effect of a single input component on
/// the output stack.
///
/// `Current` is skipped; `Prefix`, `Root` and `Segment` are pushed
/// unconditionally; `Parent` pops a preceding real segment, but never an
/// anchor, a pending parent marker, or a segment spelled `..`.
pub open spec fn collapse_step(
    stack: Seq<ComponentModel>,
    c: ComponentModel,
    is_absolute: bool,
) -> Seq<ComponentModel> {
    match c {
        ComponentModel::Current => stack,
        ComponentModel::Parent => {
            if stack.len() == 0 {
                parent_overflow(stack, is_absolute)
            } else {
                match stack.last() {
                    ComponentModel::Segment(name) => {
                        if name != dot_dot() {
                            stack.drop_last()
                        } else {
                            parent_overflow(stack, is_absolute)
                        }
                    },
                    _ => parent_overflow(stack, is_absolute),
                }
            }
        },
        _ => stack.push(c),
    }
}

/// The collapse of a whole component sequence, defined as the left fold
/// of `collapse_step` starting from the empty stack.
pub open spec fn collapse_model(components: Seq<ComponentModel>, is_absolute: bool) -> Seq<
    ComponentModel,
>
    decreases components.len(),
{
    if components.len() == 0 {
        Seq::empty()
    } else {
        collapse_step(
            collapse_model(components.drop_last(), is_absolute),
            components.last(),
            is_absolute,
        )
    }
}

/// Collapse a decomposed path to its minimal equivalent form.
///
/// This is the core normalization pass: it walks the components once,
/// skipping `Current` markers, pushing anchors and segments, and letting
/// each `Parent` cancel the preceding real segment where one exists.
pub fn collapse(components: &Vec<PathComponent>, is_absolute: bool) -> (out: Vec<PathComponent>)
    ensures
        out.deep_view() == collapse_model(components.deep_view(), is_absolute),
{
    let mut out: Vec<PathComponent> = Vec::new();
    let n = components.len();
    let mut i: usize = 0;
    proof {
        assert(components.deep_view().take(0) =~= Seq::<ComponentModel>::empty());
    }
    while i < n
        invariant
            n == components.len(),
            i <= n,
            out.deep_view() == collapse_model(components.deep_view().take(i as int), is_absolute),
        decreases n - i,
    {
        proof {
            let full = components.deep_view();
            assert(full.take(i + 1).drop_last() =~= full.take(i as int));
            assert(full.take(i + 1).last() == full[i as int]);
        }
        let ghost stack = out.deep_view();
        match &components[i] {
            PathComponent::Current => {},
            PathComponent::Parent => {
                let len = out.len();
                if len == 0 {
                    if !is_absolute {
                        out.push(PathComponent::Parent);
                        proof {
                            assert(out.deep_view() =~= stack.push(ComponentModel::Parent));
                        }
                    }
                } else {
                    let pop_top = match &out[len - 1] {
                        PathComponent::Segment(name) => !is_dot_dot(name),
                        _ => false,
                    };
                    proof {
                        assert(stack.last() == out[len - 1 as int]@);
                    }
                    if pop_top {
                        out.pop();
                        proof {
                            assert(out.deep_view() =~= stack.drop_last());
                        }
                    } else if !is_absolute {
                        out.push(PathComponent::Parent);
                        proof {
                            assert(out.deep_view() =~= stack.push(ComponentModel::Parent));
                        }
                    }
                }
            },
            other => {
                let c = other.duplicate();
                proof {
                    assert(c@ == components.deep_view()[i as int]);
                }
                out.push(c);
                proof {
                    assert(out.deep_view() =~= stack.push(c@));
                }
            },
        }
        i = i + 1;
    }
    proof {
        assert(components.deep_view().take(n as int) =~= components.deep_view());
    }
    out
}

/// A component that a later `Parent` marker would pop: a real segment,
/// one not spelled `..`.
pub open spec fn cancellable(c: ComponentModel) -> bool {
    c matches ComponentModel::Segment(name) && name != dot_dot()
}

/// A sequence in collapsed form: no `Current` marker survives, an
/// absolute path retains no `Parent` marker at all, and every retained
/// `Parent` marker stands at the front or behind a component that a
/// parent cannot cancel.
pub open spec fn is_collapsed(s: Seq<ComponentModel>, is_absolute: bool) -> bool {
    &&& forall|i: int| 0 <= i < s.len() ==> !(#[trigger] s[i] is Current)
    &&& is_absolute ==> forall|i: int| 0 <= i < s.len() ==> !(#[trigger] s[i] is Parent)
    &&& forall|i: int| 0 < i < s.len() && #[trigger] s[i] is Parent ==> !cancellable(s[i - 1])
}

proof fn lemma_step_preserves_collapsed(
    stack: Seq<ComponentModel>,
    c: ComponentModel,
    is_absolute: bool,
)
    requires
        is_collapsed(stack, is_absolute),
    ensures
        is_collapsed(collapse_step(stack, c, is_absolute), is_absolute),
{
    let t = collapse_step(stack, c, is_absolute);
    match c {
        ComponentModel::Current => {},
        ComponentModel::Parent => {
            if stack.len() > 0 && cancellable(stack.last()) {
                assert(t =~= stack.drop_last());
            } else if !is_absolute {
                assert(t =~= stack.push(ComponentModel::Parent));
                assert forall|i: int| 0 < i < t.len() && #[trigger] t[i] is Parent implies
                    !cancellable(t[i - 1]) by {
                    if i == t.len() - 1 {
                        assert(t[i - 1] == stack.last());
                    }
                }
            }
        },
        _ => {
            assert(t =~= stack.push(c));
        },
    }
}

/// The collapse of any input sequence is in collapsed form: no `Current`
/// marker survives, an absolute result contains no `Parent` marker, and
/// every retained `Parent` marker of a relative result stands behind a
/// component that a parent cannot cancel.
pub proof fn lemma_collapse_collapsed(components: Seq<ComponentModel>, is_absolute: bool)
    ensures
        is_collapsed(collapse_model(components, is_absolute), is_absolute),
    decreases components.len(),
{
    if components.len() == 0 {
    } else {
        lemma_collapse_collapsed(components.drop_last(), is_absolute);
        lemma_step_preserves_collapsed(
            collapse_model(components.drop_last(), is_absolute),
            components.last(),
            is_absolute,
        );
    }
}

proof fn lemma_collapsed_prefix(s: Seq<ComponentModel>, is_absolute: bool)
    requires
        s.len() > 0,
        is_collapsed(s, is_absolute),
    ensures
        is_collapsed(s.drop_last(), is_absolute),
{
    let p = s.drop_last();
    assert forall|i: int| 0 <= i < p.len() implies !(#[trigger] p[i] is Current) by {
        assert(p[i] == s[i]);
    }
    if is_absolute {
        assert forall|i: int| 0 <= i < p.len() implies !(#[trigger] p[i] is Parent) by {
            assert(p[i] == s[i]);
        }
    }
    assert forall|i: int| 0 < i < p.len() && #[trigger] p[i] is Parent implies !cancellable(
        p[i - 1],
    ) by {
        assert(p[i] == s[i]);
        assert(p[i - 1] == s[i - 1]);
    }
}

proof fn lemma_collapse_of_collapsed(s: Seq<ComponentModel>, is_absolute: bool)
    requires
        is_collapsed(s, is_absolute),
    ensures
        collapse_model(s, is_absolute) == s,
    decreases s.len(),
{
    if s.len() == 0 {
        assert(collapse_model(s, is_absolute) =~= s);
    } else {
        lemma_collapsed_prefix(s, is_absolute);
        lemma_collapse_of_collapsed(s.drop_last(), is_absolute);
        let stack = s.drop_last();
        match s.last() {
            ComponentModel::Current => {
                assert(s[s.len() - 1] is Current);
            },
            ComponentModel::Parent => {
                assert(s[s.len() - 1] is Parent);
                assert(!is_absolute);
                if s.len() > 1 {
                    assert(!cancellable(s[s.len() - 2]));
                    assert(stack.last() == s[s.len() - 2]);
                }
                assert(collapse_step(stack, s.last(), is_absolute) =~= s);
            },
            _ => {
                assert(collapse_step(stack, s.last(), is_absolute) =~= s);
            },
        }
    }
}

/// Idempotence: collapsing is a no-op on an already collapsed sequence,
/// so normalizing twice gives the same result as normalizing once.
pub proof fn lemma_collapse_idempotent(components: Seq<ComponentModel>, is_absolute: bool)
    ensures
        collapse_model(collapse_model(components, is_absolute), is_absolute) == collapse_model(
            components,
            is_absolute,
        ),
{
    lemma_collapse_collapsed(components, is_absolute);
    lemma_collapse_of_collapsed(collapse_model(components, is_absolute), is_absolute);
}

/// An absolute result never contains a `Parent` component: a parent
/// reference above the root is discarded, not retained.
pub proof fn lemma_absolute_no_parent(components: Seq<ComponentModel>)
    ensures
        forall|i: int|
            0 <= i < collapse_model(components, true).len() ==> !(#[trigger] collapse_model(
                components,
                true,
            )[i] is Parent),
{
    lemma_collapse_collapsed(components, true);
}

/// No `Current` component ever survives into the result.
pub proof fn lemma_no_current_in_output(components: Seq<ComponentModel>, is_absolute: bool)
    ensures
        forall|i: int|
            0 <= i < collapse_model(components, is_absolute).len() ==> !(#[trigger] collapse_model(
                components,
                is_absolute,
            )[i] is Current),
{
    lemma_collapse_collapsed(components, is_absolute);
}

/// A sequence free of `Parent` and `Current` markers collapses to
/// itself, in order: in particular collapse is the identity on any
/// sequence of plain segments.
pub proof fn lemma_markerless_identity(components: Seq<ComponentModel>, is_absolute: bool)
    requires
        forall|i: int|
            0 <= i < components.len() ==> !(#[trigger] components[i] is Parent) && !(
            components[i] is Current),
    ensures
        collapse_model(components, is_absolute) == components,
    decreases components.len(),
{
    if components.len() == 0 {
        assert(collapse_model(components, is_absolute) =~= components);
    } else {
        lemma_markerless_identity(components.drop_last(), is_absolute);
        assert(components[components.len() - 1] == components.last());
        assert(collapse_step(components.drop_last(), components.last(), is_absolute)
            =~= components);
    }
}

/// An anchor: a `Prefix` or `Root` component.
pub open spec fn is_anchor(c: ComponentModel) -> bool {
    c is Prefix || c is Root
}

proof fn lemma_step_keeps_anchors(stack: Seq<ComponentModel>, c: ComponentModel, is_absolute: bool)
    ensures
        forall|i: int|
            0 <= i < stack.len() && is_anchor(#[trigger] stack[i]) ==> i < collapse_step(
                stack,
                c,
                is_absolute,
            ).len() && collapse_step(stack, c, is_absolute)[i] == stack[i],
{
    let t = collapse_step(stack, c, is_absolute);
    assert forall|i: int| 0 <= i < stack.len() && is_anchor(#[trigger] stack[i]) implies i < t.len()
        && t[i] == stack[i] by {
        match c {
            ComponentModel::Current => {},
            ComponentModel::Parent => {
                if stack.len() > 0 && cancellable(stack.last()) {
                    assert(stack[stack.len() - 1] == stack.last());
                    assert(i != stack.len() - 1);
                } else if !is_absolute {
                    assert(t[i] == stack[i]);
                }
            },
            _ => {
                assert(t[i] == stack[i]);
            },
        }
    }
}

/// An anchor, once pushed, is never removed: whatever components follow
/// the prefix that put it there, it keeps its place in the result.
pub proof fn lemma_anchors_persist(components: Seq<ComponentModel>, k: int, is_absolute: bool)
    requires
        0 <= k <= components.len(),
    ensures
        forall|i: int|
            0 <= i < collapse_model(components.take(k), is_absolute).len() && is_anchor(
                #[trigger] collapse_model(components.take(k), is_absolute)[i],
            ) ==> i < collapse_model(components, is_absolute).len() && collapse_model(
                components,
                is_absolute,
            )[i] == collapse_model(components.take(k), is_absolute)[i],
    decreases components.len() - k,
{
    if k == components.len() {
        assert(components.take(k) =~= components);
    } else {
        let cur = collapse_model(components.take(k), is_absolute);
        let next = collapse_model(components.take(k + 1), is_absolute);
        let full = collapse_model(components, is_absolute);
        assert(components.take(k + 1).drop_last() =~= components.take(k));
        assert(components.take(k + 1).last() == components[k]);
        assert(next == collapse_step(cur, components[k], is_absolute));
        lemma_step_keeps_anchors(cur, components[k], is_absolute);
        lemma_anchors_persist(components, k + 1, is_absolute);
        assert forall|i: int| 0 <= i < cur.len() && is_anchor(#[trigger] cur[i]) implies i
            < full.len() && full[i] == cur[i] by {
            assert(i < next.len() && next[i] == cur[i]);
            assert(is_anchor(next[i]));
        }
    }
}

/// A decomposed relative path as the platform decomposer delivers it:
/// only markers and plain segments, no anchor, and no segment spelled
/// `.` or `..` (those are delivered as `Current` and `Parent` markers).
pub open spec fn plain_relative(s: Seq<ComponentModel>) -> bool {
    forall|i: int|
        0 <= i < s.len() ==> (#[trigger] s[i] is Current || s[i] is Parent || cancellable(s[i]))
}

/// Every `Parent` component stands in a contiguous run at the front of
/// the sequence.
pub open spec fn parents_lead(s: Seq<ComponentModel>) -> bool {
    forall|i: int, k: int| 0 <= k < i < s.len() && #[trigger] s[i] is Parent ==> #[trigger] s[k] is Parent
}

spec fn relative_stack_inv(s: Seq<ComponentModel>) -> bool {
    &&& parents_lead(s)
    &&& forall|i: int| 0 <= i < s.len() ==> (#[trigger] s[i] is Parent || cancellable(s[i]))
}

proof fn lemma_step_preserves_relative_inv(stack: Seq<ComponentModel>, c: ComponentModel)
    requires
        relative_stack_inv(stack),
        c is Current || c is Parent || cancellable(c),
    ensures
        relative_stack_inv(collapse_step(stack, c, false)),
{
    let t = collapse_step(stack, c, false);
    match c {
        ComponentModel::Current => {},
        ComponentModel::Parent => {
            if stack.len() > 0 && cancellable(stack.last()) {
                assert(t =~= stack.drop_last());
                assert forall|i: int, k: int|
                    0 <= k < i < t.len() && #[trigger] t[i] is Parent implies #[trigger] t[k] is Parent by {
                    assert(t[i] == stack[i]);
                    assert(t[k] == stack[k]);
                }
            } else {
                assert(t =~= stack.push(ComponentModel::Parent));
                if stack.len() > 0 {
                    // the top is not cancellable, hence a pending parent,
                    // hence by `parents_lead` the whole stack is parents
                    assert(stack.last() is Parent);
                    assert forall|k: int| 0 <= k < stack.len() implies #[trigger] stack[k] is Parent by {
                        if k < stack.len() - 1 {
                            assert(stack[stack.len() - 1] is Parent);
                        }
                    }
                }
            }
        },
        _ => {
            assert(t =~= stack.push(c));
            assert forall|i: int, k: int|
                0 <= k < i < t.len() && #[trigger] t[i] is Parent implies #[trigger] t[k] is Parent by {
                assert(t[i] == stack[i]);
                assert(t[k] == stack[k]);
            }
        },
    }
}

proof fn lemma_collapse_relative_inv(components: Seq<ComponentModel>)
    requires
        plain_relative(components),
    ensures
        relative_stack_inv(collapse_model(components, false)),
    decreases components.len(),
{
    if components.len() == 0 {
    } else {
        assert forall|i: int| 0 <= i < components.len() - 1 implies (
        #[trigger] components.drop_last()[i] is Current || components.drop_last()[i] is Parent
            || cancellable(components.drop_last()[i])) by {
            assert(components.drop_last()[i] == components[i]);
        }
        lemma_collapse_relative_inv(components.drop_last());
        assert(components[components.len() - 1] == components.last());
        lemma_step_preserves_relative_inv(
            collapse_model(components.drop_last(), false),
            components.last(),
        );
    }
}

/// The relative result retains `Parent` components only as a contiguous
/// prefix — never behind a segment — provided the input is a decomposed
/// relative path: markers and plain segments only.
pub proof fn lemma_relative_parents_lead(components: Seq<ComponentModel>)
    requires
        plain_relative(components),
    ensures
        parents_lead(collapse_model(components, false)),
{
    lemma_collapse_relative_inv(components);
}

} // verus!
