//! What writing a model and reading it back gives.

use vstd::prelude::*;
use crate::kdl::{ArgV, NodeV};
use crate::model::{
    ActionNodeV, ActionValueV, ModelV, Slot, action_node, action_of, slot_index, slot_id, slot_value, with_slot,
    slot_action_of, parent, wrapped, wrapped_all, read_directional, directional_child, slot_named, edge_slots,
    corner_slots, hold_child, read_hold, hold_slots, swipe_child, read_swipe, swipe_slots, any_bound, group_nodes,
    Options, with_options, ShowTouchPoints, HorizontalSwipe, default_model, default_options, gestures_child,
    read_gestures_from, read_gestures, gestures_node, gestures_children, swipe_node, show_touch_points_nodes,
    debug_log_nodes, off_nodes, fingers_nodes, horizontal_swipe_nodes, kept_all, leaf, leaf_arg, first_arg_text,
    parse_u8_spec, digits_value, all_digits, read_fingers, read_horizontal_swipe, read_show_touch_points,
    file_text, file_header, parse_file, kept_nodes, keep, keep_in, KeptIn, block_nodes, directional_block,
};
use crate::kdl_laws::{valid_node, valid_word, valid_arg, all_valid, comment_line};

verus! {

/// A slot value the writer can describe exactly: unbound, or one action whose
/// name, property keys and bare arguments are plain words.
pub open spec fn plain_value(v: ActionValueV) -> bool {
    match v {
        ActionValueV::Unbound => true,
        ActionValueV::Node(a) => crate::kdl_laws::valid_node(action_node(a)),
        ActionValueV::Raw(_) => false,
    }
}

/// A name the reader of a `gestures` block interprets itself.
pub open spec fn modeled_name(name: Seq<char>) -> bool {
    ||| name == "show-touch-points"@
    ||| name == "debug-log"@
    ||| name == "touchscreen-swipe"@
    ||| name == "touchscreen-edge-swipe"@
    ||| name == "touchscreen-corner-swipe"@
}

/// A name the reader of a `touchscreen-swipe` block interprets itself.
pub open spec fn swipe_name(name: Seq<char>) -> bool {
    ||| name == "off"@
    ||| name == "fingers"@
    ||| name == "horizontal-swipe"@
    ||| name == "tap"@
    ||| name == "tap-more"@
    ||| name == "swipe-more-up"@
    ||| name == "swipe-more-down"@
    ||| name == "tap-4"@
    ||| name == "swipe-4-up"@
    ||| name == "swipe-4-down"@
    ||| name == "hold"@
}

/// A name the reader of a `hold` block interprets itself.
pub open spec fn hold_name(name: Seq<char>) -> bool {
    name == "left"@ || name == "right"@ || name == "up"@ || name == "down"@
}

/// Names the `gestures` reader leaves alone.
pub open spec fn top_free() -> spec_fn(Seq<char>) -> bool {
    |s: Seq<char>| !modeled_name(s)
}

/// Names the `touchscreen-swipe` reader leaves alone.
pub open spec fn swipe_free() -> spec_fn(Seq<char>) -> bool {
    |s: Seq<char>| !swipe_name(s)
}

/// Names the `hold` reader leaves alone.
pub open spec fn hold_free() -> spec_fn(Seq<char>) -> bool {
    |s: Seq<char>| !hold_name(s)
}

/// Names an edge or corner reader with slots `ss` leaves alone.
pub open spec fn slots_free(ss: Seq<Slot>) -> spec_fn(Seq<char>) -> bool {
    |s: Seq<char>| slot_named(ss, s) is None
}

/// A kept unmodeled node as reading keeps it: one well-formed node whose
/// name the reader of its block leaves alone (`allowed`), rendered at the
/// indent reading uses for that block (`k`).
pub open spec fn kept_as(t: Seq<char>, k: nat, allowed: spec_fn(Seq<char>) -> bool) -> bool {
    exists|n: NodeV| #[trigger] valid_node(n) && allowed(n.name) && t == crate::kdl::render(n, k)
}

/// The node a kept text stands for.
pub open spec fn kept_node_as(t: Seq<char>, k: nat, allowed: spec_fn(Seq<char>) -> bool) -> NodeV {
    choose|n: NodeV| #[trigger] valid_node(n) && allowed(n.name) && t == crate::kdl::render(n, k)
}

/// Every text of `ps` is kept as reading keeps it.
pub open spec fn all_kept_as(ps: Seq<Seq<char>>, k: nat, allowed: spec_fn(Seq<char>) -> bool) -> bool {
    forall|i: int| 0 <= i < ps.len() ==> kept_as(#[trigger] ps[i], k, allowed)
}

/// `m` with the texts `ps` kept, after the ones there, for the block `b`.
pub open spec fn keep_all_in(m: ModelV, b: KeptIn, ps: Seq<Seq<char>>) -> ModelV {
    match b {
        KeptIn::Swipe => ModelV { swipe_kept: m.swipe_kept + ps, ..m },
        KeptIn::Hold => ModelV { hold_kept: m.hold_kept + ps, ..m },
        KeptIn::Edge => ModelV { edge_kept: m.edge_kept + ps, ..m },
        KeptIn::Corner => ModelV { corner_kept: m.corner_kept + ps, ..m },
    }
}

/// A model that survives a save and a reload unchanged: every slot is plain,
/// the finger count is unset or a valid one (3 or 4), every kept unmodeled
/// node (at the top of `gestures` or inside one of its blocks) is one
/// well-formed node as reading keeps it, and there are no notes.
pub open spec fn plain_model(m: ModelV) -> bool {
    &&& m.slots.len() == 16
    &&& forall|i: int| 0 <= i < 16 ==> plain_value(#[trigger] m.slots[i])
    &&& match m.options.fingers {
        Some(f) => f == 3 || f == 4,
        None => true,
    }
    &&& all_kept_as(m.passthrough, 1, top_free())
    &&& all_kept_as(m.swipe_kept, 2, swipe_free())
    &&& all_kept_as(m.hold_kept, 2, hold_free())
    &&& all_kept_as(m.edge_kept, 2, slots_free(edge_slots()))
    &&& all_kept_as(m.corner_kept, 2, slots_free(corner_slots()))
    &&& m.warnings.len() == 0
}

/// `x` with the values of `ss` taken from `m`.
pub open spec fn copy_slots(x: ModelV, m: ModelV, ss: Seq<Slot>) -> ModelV
    decreases ss.len(),
{
    if ss.len() == 0 {
        x
    } else {
        with_slot(copy_slots(x, m, ss.drop_last()), ss.last(), slot_value(m, ss.last()))
    }
}

proof fn lemma_slot_index_injective(a: Slot, b: Slot)
    ensures
        slot_index(a) == slot_index(b) ==> a == b,
        0 <= slot_index(a) < 16,
{
}

proof fn lemma_copy_frame(x: ModelV, m: ModelV, ss: Seq<Slot>, i: int)
    requires
        x.slots.len() == 16,
        0 <= i < 16,
        forall|j: int| 0 <= j < ss.len() ==> slot_index(#[trigger] ss[j]) != i,
    ensures
        copy_slots(x, m, ss).slots.len() == x.slots.len(),
        copy_slots(x, m, ss).slots[i] == x.slots[i],
        copy_slots(x, m, ss).options == x.options,
        copy_slots(x, m, ss).passthrough == x.passthrough,
        copy_slots(x, m, ss).warnings == x.warnings,
        copy_slots(x, m, ss).swipe_kept == x.swipe_kept,
        copy_slots(x, m, ss).hold_kept == x.hold_kept,
        copy_slots(x, m, ss).edge_kept == x.edge_kept,
        copy_slots(x, m, ss).corner_kept == x.corner_kept,
    decreases ss.len(),
{
    if ss.len() > 0 {
        assert forall|j: int| 0 <= j < ss.drop_last().len() implies slot_index(#[trigger] ss.drop_last()[j]) != i by {
            assert(ss.drop_last()[j] == ss[j]);
        }
        lemma_copy_frame(x, m, ss.drop_last(), i);
        assert(slot_index(ss[ss.len() - 1]) != i);
        lemma_slot_index_injective(ss.last(), ss.last());
    }
}

proof fn lemma_copy_keeps(x: ModelV, m: ModelV, ss: Seq<Slot>)
    requires
        x.slots.len() == 16,
    ensures
        copy_slots(x, m, ss).slots.len() == 16,
        copy_slots(x, m, ss).options == x.options,
        copy_slots(x, m, ss).passthrough == x.passthrough,
        copy_slots(x, m, ss).warnings == x.warnings,
        copy_slots(x, m, ss).swipe_kept == x.swipe_kept,
        copy_slots(x, m, ss).hold_kept == x.hold_kept,
        copy_slots(x, m, ss).edge_kept == x.edge_kept,
        copy_slots(x, m, ss).corner_kept == x.corner_kept,
    decreases ss.len(),
{
    if ss.len() > 0 {
        lemma_copy_keeps(x, m, ss.drop_last());
        lemma_slot_index_injective(ss.last(), ss.last());
    }
}

/// The slots a copy gives depend only on the slots it starts from.
proof fn lemma_copy_same_slots(x: ModelV, y: ModelV, m: ModelV, ss: Seq<Slot>)
    requires
        x.slots == y.slots,
    ensures
        copy_slots(x, m, ss).slots == copy_slots(y, m, ss).slots,
    decreases ss.len(),
{
    if ss.len() > 0 {
        lemma_copy_same_slots(x, y, m, ss.drop_last());
    }
}

/// A wrapper holding one action reads back as that action.
proof fn lemma_slot_action_wrapped(name: Seq<char>, a: ActionNodeV)
    ensures
        slot_action_of(parent(name, seq![action_node(a)])) == ActionValueV::Node(a),
{
    let w = parent(name, seq![action_node(a)]);
    assert(w.children[0] == action_node(a));
    assert(action_of(action_node(a)) == a);
}

/// Facts about a slot list read by one reader.
pub open spec fn distinct_slots(ss: Seq<Slot>) -> bool {
    forall|i: int, j: int| 0 <= i < j < ss.len() ==> slot_index(#[trigger] ss[i]) != slot_index(#[trigger] ss[j])
}

pub open spec fn unbound_at(x: ModelV, ss: Seq<Slot>) -> bool {
    forall|j: int| 0 <= j < ss.len() ==> (#[trigger] x.slots[slot_index(ss[j])]) is Unbound
}

pub open spec fn plain_at(m: ModelV, ss: Seq<Slot>) -> bool {
    forall|j: int| 0 <= j < ss.len() ==> plain_value(#[trigger] m.slots[slot_index(ss[j])])
}

/// Taking a bound-or-not value into a model whose slot is still unbound: the
/// value is either written or already there.
proof fn lemma_wrapped_shape(m: ModelV, s: Slot)
    requires
        plain_value(slot_value(m, s)),
    ensures
        slot_value(m, s) is Unbound ==> wrapped(m, s) == Seq::<NodeV>::empty(),
        slot_value(m, s) is Node ==> wrapped(m, s) == seq![parent(slot_id(s), seq![action_node(slot_value(m, s)->Node_0)])],
{
}

proof fn lemma_with_same(y: ModelV, s: Slot)
    requires
        0 <= slot_index(s) < y.slots.len(),
        slot_value(y, s) is Unbound,
    ensures
        with_slot(y, s, ActionValueV::Unbound) == y,
{
    assert(y.slots.update(slot_index(s), ActionValueV::Unbound) =~= y.slots);
}

// --- the edge and corner readers ---------------------------------------

proof fn lemma_read_directional_concat(x: ModelV, a: Seq<NodeV>, b: Seq<NodeV>, ss: Seq<Slot>)
    ensures
        read_directional(x, a + b, ss) == read_directional(read_directional(x, a, ss), b, ss),
    decreases a.len(),
{
    if a.len() == 0 {
        assert(a + b =~= b);
    } else {
        assert((a + b)[0] == a[0]);
        assert((a + b).drop_first() =~= a.drop_first() + b);
        lemma_read_directional_concat(directional_child(x, a[0], ss), a.drop_first(), b, ss);
    }
}

proof fn lemma_read_directional_wrapped(x: ModelV, m: ModelV, ss: Seq<Slot>, k: int)
    requires
        0 <= k <= ss.len(),
        x.slots.len() == 16,
        distinct_slots(ss),
        forall|j: int| 0 <= j < ss.len() ==> slot_named(ss, slot_id(#[trigger] ss[j])) == Some(ss[j]),
        unbound_at(x, ss),
        plain_at(m, ss),
    ensures
        read_directional(x, wrapped_all(m, ss.take(k)), ss) == copy_slots(x, m, ss.take(k)),
    decreases k,
{
    if k == 0 {
        assert(ss.take(0) =~= seq![]);
    } else {
        let pre = ss.take(k - 1);
        assert(ss.take(k).drop_last() =~= pre);
        let s = ss[k - 1];
        assert(ss.take(k).last() == s);
        lemma_read_directional_wrapped(x, m, ss, k - 1);
        lemma_read_directional_concat(x, wrapped_all(m, pre), wrapped(m, s), ss);
        let y = copy_slots(x, m, pre);
        assert forall|j: int| 0 <= j < pre.len() implies slot_index(#[trigger] pre[j]) != slot_index(s) by {
            assert(pre[j] == ss[j]);
        }
        lemma_copy_frame(x, m, pre, slot_index(s));
        lemma_slot_index_injective(s, s);
        assert(plain_value(m.slots[slot_index(ss[k - 1])])) by {
            lemma_slot_index_injective(ss[k - 1], ss[k - 1]);
        }
        lemma_wrapped_shape(m, s);
        if slot_value(m, s) is Unbound {
            assert(x.slots[slot_index(ss[k - 1])] is Unbound);
            lemma_with_same(y, s);
        } else {
            let a = slot_value(m, s)->Node_0;
            let w = parent(slot_id(s), seq![action_node(a)]);
            assert(slot_named(ss, slot_id(ss[k - 1])) == Some(ss[k - 1]));
            lemma_slot_action_wrapped(slot_id(s), a);
            assert(seq![w].drop_first() =~= Seq::<NodeV>::empty());
            assert(seq![w][0] == w);
            assert(read_directional(directional_child(y, w, ss), Seq::<NodeV>::empty(), ss) == directional_child(y, w, ss));
            assert(read_directional(y, seq![w], ss) == directional_child(y, w, ss));
        }
    }
}

proof fn lemma_edge_names()
    ensures
        distinct_slots(edge_slots()),
        distinct_slots(corner_slots()),
        forall|j: int| 0 <= j < 4 ==> slot_named(edge_slots(), slot_id(#[trigger] edge_slots()[j])) == Some(edge_slots()[j]),
        forall|j: int| 0 <= j < 4 ==> slot_named(corner_slots(), slot_id(#[trigger] corner_slots()[j])) == Some(corner_slots()[j]),
{
    reveal_strlit("bottom");
    reveal_strlit("top");
    reveal_strlit("left");
    reveal_strlit("right");
    reveal_strlit("top-left");
    reveal_strlit("top-right");
    reveal_strlit("bottom-left");
    reveal_strlit("bottom-right");
    let e = edge_slots();
    let c = corner_slots();
    assert(e.drop_first() =~= seq![Slot::EdgeTop, Slot::EdgeLeft, Slot::EdgeRight]);
    assert(e.drop_first().drop_first() =~= seq![Slot::EdgeLeft, Slot::EdgeRight]);
    assert(e.drop_first().drop_first().drop_first() =~= seq![Slot::EdgeRight]);
    assert(c.drop_first() =~= seq![Slot::CornerTopRight, Slot::CornerBottomLeft, Slot::CornerBottomRight]);
    assert(c.drop_first().drop_first() =~= seq![Slot::CornerBottomLeft, Slot::CornerBottomRight]);
    assert(c.drop_first().drop_first().drop_first() =~= seq![Slot::CornerBottomRight]);
    assert("bottom"@.len() == 6 && "top"@.len() == 3 && "left"@.len() == 4 && "right"@.len() == 5);
    assert("left"@[0] == 'l' && "right"@[0] == 'r');
    assert("top-left"@.len() == 8 && "top-right"@.len() == 9 && "bottom-left"@.len() == 11 && "bottom-right"@.len() == 12);
    assert("bottom"@ != "top"@);
    assert("bottom"@ != "left"@);
    assert("bottom"@ != "right"@);
    assert("top"@ != "left"@);
    assert("top"@ != "right"@);
    assert("left"@ != "right"@);
    assert("top-left"@ != "top-right"@);
    assert("top-left"@ != "bottom-left"@);
    assert("top-left"@ != "bottom-right"@);
    assert("top-right"@ != "bottom-left"@);
    assert("top-right"@ != "bottom-right"@);
    assert("bottom-left"@ != "bottom-right"@);
    reveal_with_fuel(slot_named, 5);
    assert(slot_named(e, "bottom"@) == Some(Slot::EdgeBottom));
    assert(slot_named(e, "top"@) == Some(Slot::EdgeTop));
    assert(slot_named(e, "left"@) == Some(Slot::EdgeLeft));
    assert(slot_named(e, "right"@) == Some(Slot::EdgeRight));
    assert(slot_named(c, "top-left"@) == Some(Slot::CornerTopLeft));
    assert(slot_named(c, "top-right"@) == Some(Slot::CornerTopRight));
    assert(slot_named(c, "bottom-left"@) == Some(Slot::CornerBottomLeft));
    assert(slot_named(c, "bottom-right"@) == Some(Slot::CornerBottomRight));
}

// --- the hold reader ----------------------------------------------------

proof fn lemma_read_hold_concat(x: ModelV, a: Seq<NodeV>, b: Seq<NodeV>)
    ensures
        read_hold(x, a + b) == read_hold(read_hold(x, a), b),
    decreases a.len(),
{
    if a.len() == 0 {
        assert(a + b =~= b);
    } else {
        assert((a + b)[0] == a[0]);
        assert((a + b).drop_first() =~= a.drop_first() + b);
        lemma_read_hold_concat(hold_child(x, a[0]), a.drop_first(), b);
    }
}

proof fn lemma_hold_names(y: ModelV, j: int, a: ActionNodeV)
    requires
        0 <= j < 4,
    ensures
        hold_child(y, parent(slot_id(hold_slots()[j]), seq![action_node(a)]))
            == with_slot(y, hold_slots()[j], slot_action_of(parent(slot_id(hold_slots()[j]), seq![action_node(a)]))),
{
    reveal_strlit("left");
    reveal_strlit("right");
    reveal_strlit("up");
    reveal_strlit("down");
    assert("left"@.len() == 4 && "right"@.len() == 5 && "up"@.len() == 2 && "down"@.len() == 4);
    assert("left"@[0] == 'l' && "down"@[0] == 'd');
    assert("left"@ != "right"@ && "left"@ != "up"@ && "left"@ != "down"@);
    assert("right"@ != "up"@ && "right"@ != "down"@ && "up"@ != "down"@);
}

proof fn lemma_read_hold_wrapped(x: ModelV, m: ModelV, k: int)
    requires
        0 <= k <= 4,
        x.slots.len() == 16,
        unbound_at(x, hold_slots()),
        plain_at(m, hold_slots()),
    ensures
        read_hold(x, wrapped_all(m, hold_slots().take(k))) == copy_slots(x, m, hold_slots().take(k)),
    decreases k,
{
    let ss = hold_slots();
    if k == 0 {
        assert(ss.take(0) =~= seq![]);
    } else {
        let pre = ss.take(k - 1);
        assert(ss.take(k).drop_last() =~= pre);
        let s = ss[k - 1];
        assert(ss.take(k).last() == s);
        lemma_read_hold_wrapped(x, m, k - 1);
        lemma_read_hold_concat(x, wrapped_all(m, pre), wrapped(m, s));
        let y = copy_slots(x, m, pre);
        assert forall|j: int| 0 <= j < pre.len() implies slot_index(#[trigger] pre[j]) != slot_index(s) by {
            assert(pre[j] == ss[j]);
        }
        lemma_copy_frame(x, m, pre, slot_index(s));
        assert(plain_value(m.slots[slot_index(ss[k - 1])]));
        lemma_wrapped_shape(m, s);
        if slot_value(m, s) is Unbound {
            assert(x.slots[slot_index(ss[k - 1])] is Unbound);
            lemma_with_same(y, s);
        } else {
            let a = slot_value(m, s)->Node_0;
            let w = parent(slot_id(s), seq![action_node(a)]);
            lemma_hold_names(y, k - 1, a);
            lemma_slot_action_wrapped(slot_id(s), a);
            assert(seq![w][0] == w);
            assert(seq![w].drop_first() =~= Seq::<NodeV>::empty());
            assert(read_hold(hold_child(y, w), Seq::<NodeV>::empty()) == hold_child(y, w));
        }
    }
}

// --- the touchscreen-swipe reader --------------------------------------

proof fn lemma_read_swipe_concat(x: ModelV, a: Seq<NodeV>, b: Seq<NodeV>)
    ensures
        read_swipe(x, a + b) == match read_swipe(x, a) {
            Ok(y) => read_swipe(y, b),
            Err(e) => Err(e),
        },
    decreases a.len(),
{
    if a.len() == 0 {
        assert(a + b =~= b);
    } else {
        assert((a + b)[0] == a[0]);
        assert((a + b).drop_first() =~= a.drop_first() + b);
        match swipe_child(x, a[0]) {
            Ok(y) => lemma_read_swipe_concat(y, a.drop_first(), b),
            Err(_) => {},
        }
    }
}

proof fn lemma_read_swipe_one(x: ModelV, c: NodeV)
    ensures
        read_swipe(x, seq![c]) == swipe_child(x, c),
{
    assert(seq![c][0] == c);
    assert(seq![c].drop_first() =~= Seq::<NodeV>::empty());
    match swipe_child(x, c) {
        Ok(y) => {
            assert(read_swipe(y, Seq::<NodeV>::empty()) == Ok::<ModelV, Seq<char>>(y));
        },
        Err(_) => {},
    }
}

/// The names the swipe reader tells apart, as far as the writer uses them.
proof fn lemma_swipe_names()
    ensures
        "off"@ != "fingers"@,
        "off"@ != "horizontal-swipe"@,
        "fingers"@ != "horizontal-swipe"@,
        "tap"@ != "off"@ && "tap"@ != "fingers"@ && "tap"@ != "horizontal-swipe"@,
        "tap-more"@ != "off"@ && "tap-more"@ != "fingers"@ && "tap-more"@ != "horizontal-swipe"@ && "tap-more"@ != "tap"@,
        "swipe-more-up"@ != "off"@ && "swipe-more-up"@ != "fingers"@ && "swipe-more-up"@ != "horizontal-swipe"@
            && "swipe-more-up"@ != "tap"@ && "swipe-more-up"@ != "tap-more"@,
        "swipe-more-down"@ != "off"@ && "swipe-more-down"@ != "fingers"@ && "swipe-more-down"@ != "horizontal-swipe"@
            && "swipe-more-down"@ != "tap"@ && "swipe-more-down"@ != "tap-more"@ && "swipe-more-down"@ != "swipe-more-up"@,
        "hold"@ != "off"@ && "hold"@ != "fingers"@ && "hold"@ != "horizontal-swipe"@ && "hold"@ != "tap"@
            && "hold"@ != "tap-more"@ && "hold"@ != "swipe-more-up"@ && "hold"@ != "swipe-more-down"@
            && "hold"@ != "tap-4"@ && "hold"@ != "swipe-4-up"@ && "hold"@ != "swipe-4-down"@,
{
    reveal_strlit("off");
    reveal_strlit("fingers");
    reveal_strlit("horizontal-swipe");
    reveal_strlit("tap");
    reveal_strlit("tap-more");
    reveal_strlit("swipe-more-up");
    reveal_strlit("swipe-more-down");
    reveal_strlit("hold");
    reveal_strlit("tap-4");
    reveal_strlit("swipe-4-up");
    reveal_strlit("swipe-4-down");
    assert("off"@.len() == 3 && "fingers"@.len() == 7 && "horizontal-swipe"@.len() == 16 && "tap"@.len() == 3);
    assert("tap-more"@.len() == 8 && "swipe-more-up"@.len() == 13 && "swipe-more-down"@.len() == 15);
    assert("hold"@.len() == 4 && "tap-4"@.len() == 5 && "swipe-4-up"@.len() == 10 && "swipe-4-down"@.len() == 12);
    assert("off"@[0] == 'o' && "tap"@[0] == 't');
}

proof fn lemma_swipe_wrapped_child(y: ModelV, j: int, a: ActionNodeV)
    requires
        0 <= j < 4,
    ensures
        swipe_child(y, parent(slot_id(swipe_slots()[j]), seq![action_node(a)]))
            == Ok::<ModelV, Seq<char>>(with_slot(y, swipe_slots()[j], ActionValueV::Node(a))),
{
    lemma_swipe_names();
    lemma_slot_action_wrapped(slot_id(swipe_slots()[j]), a);
}

proof fn lemma_read_swipe_wrapped(x: ModelV, m: ModelV, k: int)
    requires
        0 <= k <= 4,
        x.slots.len() == 16,
        unbound_at(x, swipe_slots()),
        plain_at(m, swipe_slots()),
    ensures
        read_swipe(x, wrapped_all(m, swipe_slots().take(k))) == Ok::<ModelV, Seq<char>>(
            copy_slots(x, m, swipe_slots().take(k)),
        ),
    decreases k,
{
    let ss = swipe_slots();
    if k == 0 {
        assert(ss.take(0) =~= seq![]);
    } else {
        let pre = ss.take(k - 1);
        assert(ss.take(k).drop_last() =~= pre);
        let s = ss[k - 1];
        assert(ss.take(k).last() == s);
        lemma_read_swipe_wrapped(x, m, k - 1);
        lemma_read_swipe_concat(x, wrapped_all(m, pre), wrapped(m, s));
        let y = copy_slots(x, m, pre);
        assert forall|j: int| 0 <= j < pre.len() implies slot_index(#[trigger] pre[j]) != slot_index(s) by {
            assert(pre[j] == ss[j]);
        }
        lemma_copy_frame(x, m, pre, slot_index(s));
        assert(plain_value(m.slots[slot_index(ss[k - 1])]));
        lemma_wrapped_shape(m, s);
        if slot_value(m, s) is Unbound {
            assert(x.slots[slot_index(ss[k - 1])] is Unbound);
            lemma_with_same(y, s);
            assert(read_swipe(y, Seq::<NodeV>::empty()) == Ok::<ModelV, Seq<char>>(y));
        } else {
            let a = slot_value(m, s)->Node_0;
            let w = parent(slot_id(s), seq![action_node(a)]);
            lemma_swipe_wrapped_child(y, k - 1, a);
            lemma_read_swipe_one(y, w);
        }
    }
}

// --- the gestures reader -----------------------------------------------

proof fn lemma_read_gestures_concat(x: ModelV, a: Seq<NodeV>, b: Seq<NodeV>)
    ensures
        read_gestures_from(x, a + b) == match read_gestures_from(x, a) {
            Ok(y) => read_gestures_from(y, b),
            Err(e) => Err(e),
        },
    decreases a.len(),
{
    if a.len() == 0 {
        assert(a + b =~= b);
    } else {
        assert((a + b)[0] == a[0]);
        assert((a + b).drop_first() =~= a.drop_first() + b);
        match gestures_child(x, a[0]) {
            Ok(y) => lemma_read_gestures_concat(y, a.drop_first(), b),
            Err(_) => {},
        }
    }
}

proof fn lemma_read_gestures_one(x: ModelV, c: NodeV)
    ensures
        read_gestures_from(x, seq![c]) == gestures_child(x, c),
{
    assert(seq![c][0] == c);
    assert(seq![c].drop_first() =~= Seq::<NodeV>::empty());
    match gestures_child(x, c) {
        Ok(y) => {
            assert(read_gestures_from(y, Seq::<NodeV>::empty()) == Ok::<ModelV, Seq<char>>(y));
        },
        Err(_) => {},
    }
}

proof fn lemma_gestures_names()
    ensures
        "debug-log"@ != "show-touch-points"@,
        "touchscreen-swipe"@ != "show-touch-points"@ && "touchscreen-swipe"@ != "debug-log"@,
        "touchscreen-edge-swipe"@ != "show-touch-points"@ && "touchscreen-edge-swipe"@ != "debug-log"@
            && "touchscreen-edge-swipe"@ != "touchscreen-swipe"@,
        "touchscreen-corner-swipe"@ != "show-touch-points"@ && "touchscreen-corner-swipe"@ != "debug-log"@
            && "touchscreen-corner-swipe"@ != "touchscreen-swipe"@
            && "touchscreen-corner-swipe"@ != "touchscreen-edge-swipe"@,
        "gestures"@ != "all"@,
        "resize-column"@ != "move-view"@,
{
    reveal_strlit("show-touch-points");
    reveal_strlit("debug-log");
    reveal_strlit("touchscreen-swipe");
    reveal_strlit("touchscreen-edge-swipe");
    reveal_strlit("touchscreen-corner-swipe");
    reveal_strlit("gestures");
    reveal_strlit("all");
    reveal_strlit("resize-column");
    reveal_strlit("move-view");
    assert("show-touch-points"@.len() == 17 && "debug-log"@.len() == 9 && "touchscreen-swipe"@.len() == 17);
    assert("touchscreen-edge-swipe"@.len() == 22 && "touchscreen-corner-swipe"@.len() == 24);
    assert("show-touch-points"@[0] == 's' && "touchscreen-swipe"@[0] == 't');
    assert("gestures"@.len() == 8 && "all"@.len() == 3 && "resize-column"@.len() == 13 && "move-view"@.len() == 9);
}

/// `show-touch-points` and `debug-log` read back as written.
proof fn lemma_head(x: ModelV, o: Options)
    requires
        x.options.show_touch_points == ShowTouchPoints::Off,
        !x.options.debug_log,
    ensures
        read_gestures_from(x, show_touch_points_nodes(o) + debug_log_nodes(o)) == Ok::<ModelV, Seq<char>>(
            with_options(x, Options { show_touch_points: o.show_touch_points, debug_log: o.debug_log, ..x.options }),
        ),
{
    lemma_gestures_names();
    lemma_read_gestures_concat(x, show_touch_points_nodes(o), debug_log_nodes(o));
    let x1 = with_options(x, Options { show_touch_points: o.show_touch_points, ..x.options });
    match o.show_touch_points {
        ShowTouchPoints::Off => {
            assert(x1 == x);
        },
        ShowTouchPoints::Gestures => {
            let c = leaf_arg("show-touch-points"@, ArgV::Str("gestures"@));
            lemma_read_gestures_one(x, c);
            assert(first_arg_text(c) == Some("gestures"@));
        },
        ShowTouchPoints::All => {
            let c = leaf_arg("show-touch-points"@, ArgV::Str("all"@));
            lemma_read_gestures_one(x, c);
            assert(first_arg_text(c) == Some("all"@));
        },
    }
    if o.debug_log {
        lemma_read_gestures_one(x1, leaf("debug-log"@));
    } else {
        assert(read_gestures_from(x1, Seq::<NodeV>::empty()) == Ok::<ModelV, Seq<char>>(x1));
    }
}

proof fn lemma_parse_small(f: u8)
    requires
        f == 3 || f == 4,
    ensures
        parse_u8_spec(crate::text::decimal(f as nat)) == Some(f),
{
    let d = crate::text::decimal(f as nat);
    assert(d == seq![crate::text::digit_char(f as nat)]);
    assert(d.drop_last() =~= Seq::<char>::empty());
    assert(digits_value(d.drop_last()) == 0);
    if f == 3 {
        assert(crate::text::digit_char(3) == '3');
    } else {
        assert(crate::text::digit_char(4) == '4');
    }
    assert(all_digits(d));
}

/// `off`, `fingers` and `horizontal-swipe` read back as written.
proof fn lemma_swipe_head(x: ModelV, o: Options)
    requires
        !x.options.off,
        x.options.fingers is None,
        x.options.horizontal_swipe == HorizontalSwipe::MoveView,
        match o.fingers {
            Some(f) => f == 3 || f == 4,
            None => true,
        },
    ensures
        read_swipe(x, off_nodes(o) + fingers_nodes(o) + horizontal_swipe_nodes(o)) == Ok::<ModelV, Seq<char>>(
            with_options(
                x,
                Options { off: o.off, fingers: o.fingers, horizontal_swipe: o.horizontal_swipe, ..x.options },
            ),
        ),
{
    lemma_swipe_names();
    lemma_gestures_names();
    lemma_read_swipe_concat(x, off_nodes(o) + fingers_nodes(o), horizontal_swipe_nodes(o));
    lemma_read_swipe_concat(x, off_nodes(o), fingers_nodes(o));
    let x1 = with_options(x, Options { off: o.off, ..x.options });
    let x2 = with_options(x1, Options { fingers: o.fingers, ..x1.options });
    let x3 = with_options(x2, Options { horizontal_swipe: o.horizontal_swipe, ..x2.options });
    if o.off {
        lemma_read_swipe_one(x, leaf("off"@));
    } else {
        assert(x1 == x);
        assert(read_swipe(x, Seq::<NodeV>::empty()) == Ok::<ModelV, Seq<char>>(x));
    }
    match o.fingers {
        Some(f) => {
            let c = leaf_arg("fingers"@, ArgV::Word(crate::text::decimal(f as nat)));
            lemma_read_swipe_one(x1, c);
            lemma_parse_small(f);
            assert(first_arg_text(c) == Some(crate::text::decimal(f as nat)));
            assert(read_fingers(x1, c) == Ok::<ModelV, Seq<char>>(x2));
        },
        None => {
            assert(x2 == x1);
            assert(read_swipe(x1, Seq::<NodeV>::empty()) == Ok::<ModelV, Seq<char>>(x1));
        },
    }
    if o.horizontal_swipe == HorizontalSwipe::ResizeColumn {
        let c = leaf_arg("horizontal-swipe"@, ArgV::Str("resize-column"@));
        lemma_read_swipe_one(x2, c);
        assert(first_arg_text(c) == Some("resize-column"@));
        assert(read_horizontal_swipe(x2, c) == Ok::<ModelV, Seq<char>>(x3));
    } else {
        assert(x3 == x2);
        assert(read_swipe(x2, Seq::<NodeV>::empty()) == Ok::<ModelV, Seq<char>>(x2));
    }
}

/// No wrapper is written for a group with nothing bound.
proof fn lemma_wrapped_none(m: ModelV, ss: Seq<Slot>, k: int)
    requires
        0 <= k <= ss.len(),
        !any_bound(m, ss),
    ensures
        wrapped_all(m, ss.take(k)) == Seq::<NodeV>::empty(),
    decreases k,
{
    if k == 0 {
        assert(ss.take(0) =~= seq![]);
    } else {
        assert(ss.take(k).drop_last() =~= ss.take(k - 1));
        assert(ss.take(k).last() == ss[k - 1]);
        lemma_wrapped_none(m, ss, k - 1);
        assert(slot_value(m, ss[k - 1]) is Unbound);
        assert(Seq::<NodeV>::empty() + Seq::<NodeV>::empty() =~= Seq::<NodeV>::empty());
    }
}

proof fn lemma_copy_four(x: ModelV, m: ModelV, ss: Seq<Slot>)
    requires
        ss.len() == 4,
    ensures
        copy_slots(x, m, ss) == with_slot(
            with_slot(
                with_slot(with_slot(x, ss[0], slot_value(m, ss[0])), ss[1], slot_value(m, ss[1])),
                ss[2],
                slot_value(m, ss[2]),
            ),
            ss[3],
            slot_value(m, ss[3]),
        ),
{
    let s3 = ss.drop_last();
    let s2 = s3.drop_last();
    let s1 = s2.drop_last();
    let s0 = s1.drop_last();
    assert(s0.len() == 0);
    assert(copy_slots(x, m, s0) == x);
    assert(copy_slots(x, m, s1) == with_slot(x, ss[0], slot_value(m, ss[0])));
    assert(copy_slots(x, m, s2) == with_slot(copy_slots(x, m, s1), ss[1], slot_value(m, ss[1])));
    assert(copy_slots(x, m, s3) == with_slot(copy_slots(x, m, s2), ss[2], slot_value(m, ss[2])));
}

/// The `touchscreen-swipe` block reads back as written.
#[verifier::rlimit(60)]
#[verifier::spinoff_prover]
proof fn lemma_swipe_node(x: ModelV, m: ModelV)
    requires
        plain_model(m),
        x.slots.len() == 16,
        forall|i: int| 0 <= i < 8 ==> (#[trigger] x.slots[i]) is Unbound,
        !x.options.off,
        x.options.fingers is None,
        x.options.horizontal_swipe == HorizontalSwipe::MoveView,
    ensures
        gestures_child(x, swipe_node(m)) == Ok::<ModelV, Seq<char>>(
            keep_all_in(
                keep_all_in(
                    copy_slots(
                        copy_slots(
                            with_options(
                                x,
                                Options {
                                    off: m.options.off,
                                    fingers: m.options.fingers,
                                    horizontal_swipe: m.options.horizontal_swipe,
                                    ..x.options
                                },
                            ),
                            m,
                            swipe_slots(),
                        ),
                        m,
                        hold_slots(),
                    ),
                    KeptIn::Hold,
                    m.hold_kept,
                ),
                KeptIn::Swipe,
                m.swipe_kept,
            ),
        ),
{
    let o = m.options;
    lemma_gestures_names();
    lemma_swipe_names();
    let head = off_nodes(o) + fingers_nodes(o) + horizontal_swipe_nodes(o);
    let w = wrapped_all(m, swipe_slots());
    let hb = block_nodes(m, "hold"@, hold_slots(), m.hold_kept);
    let ks = kept_all(m.swipe_kept);
    assert(swipe_node(m).children == head + w + hb + ks);
    lemma_read_swipe_concat(x, head + w + hb, ks);
    lemma_read_swipe_concat(x, head + w, hb);
    lemma_read_swipe_concat(x, head, w);
    lemma_swipe_head(x, o);
    let z3 = with_options(x, Options { off: o.off, fingers: o.fingers, horizontal_swipe: o.horizontal_swipe, ..x.options });
    assert(swipe_slots().take(4) =~= swipe_slots());
    assert(unbound_at(z3, swipe_slots())) by {
        assert forall|j: int| 0 <= j < 4 implies (#[trigger] z3.slots[slot_index(swipe_slots()[j])]) is Unbound by {
            assert(0 <= slot_index(swipe_slots()[j]) < 8);
        }
    }
    assert(plain_at(m, swipe_slots())) by {
        assert forall|j: int| 0 <= j < 4 implies plain_value(#[trigger] m.slots[slot_index(swipe_slots()[j])]) by {
            assert(0 <= slot_index(swipe_slots()[j]) < 16);
        }
    }
    lemma_read_swipe_wrapped(z3, m, 4);
    let z4 = copy_slots(z3, m, swipe_slots());
    assert(unbound_at(z4, hold_slots())) by {
        assert forall|j: int| 0 <= j < 4 implies (#[trigger] z4.slots[slot_index(hold_slots()[j])]) is Unbound by {
            let i = slot_index(hold_slots()[j]);
            assert(4 <= i < 8);
            assert forall|q: int| 0 <= q < 4 implies slot_index(#[trigger] swipe_slots()[q]) != i by {}
            lemma_copy_frame(z3, m, swipe_slots(), i);
        }
    }
    assert(plain_at(m, hold_slots())) by {
        assert forall|j: int| 0 <= j < 4 implies plain_value(#[trigger] m.slots[slot_index(hold_slots()[j])]) by {
            assert(0 <= slot_index(hold_slots()[j]) < 16);
        }
    }
    lemma_copy_keeps(z3, m, swipe_slots());
    assert(hold_slots().take(4) =~= hold_slots());
    lemma_read_hold_wrapped(z4, m, 4);
    let z5 = copy_slots(z4, m, hold_slots());
    let z6 = keep_all_in(z5, KeptIn::Hold, m.hold_kept);
    lemma_read_hold_kept(z5, m.hold_kept);
    if any_bound(m, hold_slots()) || m.hold_kept.len() > 0 {
        let hn = parent("hold"@, wrapped_all(m, hold_slots()) + kept_all(m.hold_kept));
        assert(hb == seq![hn]);
        lemma_read_swipe_one(z4, hn);
        lemma_read_hold_concat(z4, wrapped_all(m, hold_slots()), kept_all(m.hold_kept));
        assert(swipe_child(z4, hn) == Ok::<ModelV, Seq<char>>(z6));
    } else {
        lemma_wrapped_none(m, hold_slots(), 4);
        assert(m.hold_kept =~= Seq::<Seq<char>>::empty());
        lemma_keep_all_none(z5, KeptIn::Hold);
        assert(read_hold(z4, Seq::<NodeV>::empty()) == z4);
        assert(z6 == z4);
        assert(hb == Seq::<NodeV>::empty());
        assert(read_swipe(z4, Seq::<NodeV>::empty()) == Ok::<ModelV, Seq<char>>(z4));
    }
    lemma_read_swipe_kept(z6, m.swipe_kept);
}

/// An edge or corner block reads back as written, its kept nodes with it.
proof fn lemma_directional_group(x: ModelV, m: ModelV, name: Seq<char>, ss: Seq<Slot>, lo: int, kept: Seq<Seq<char>>)
    requires
        plain_model(m),
        x.slots.len() == 16,
        ss == edge_slots() && name == "touchscreen-edge-swipe"@ && lo == 8
            || ss == corner_slots() && name == "touchscreen-corner-swipe"@ && lo == 12,
        forall|i: int| lo <= i < lo + 4 ==> (#[trigger] x.slots[i]) is Unbound,
        all_kept_as(kept, 2, slots_free(ss)),
    ensures
        read_gestures_from(x, block_nodes(m, name, ss, kept)) == Ok::<ModelV, Seq<char>>(
            keep_all_in(copy_slots(x, m, ss), directional_block(ss), kept),
        ),
{
    lemma_gestures_names();
    lemma_edge_names();
    assert(ss.take(4) =~= ss);
    assert(unbound_at(x, ss)) by {
        assert forall|j: int| 0 <= j < 4 implies (#[trigger] x.slots[slot_index(ss[j])]) is Unbound by {
            assert(lo <= slot_index(ss[j]) < lo + 4);
        }
    }
    assert(plain_at(m, ss)) by {
        assert forall|j: int| 0 <= j < 4 implies plain_value(#[trigger] m.slots[slot_index(ss[j])]) by {
            assert(0 <= slot_index(ss[j]) < 16);
        }
    }
    lemma_read_directional_wrapped(x, m, ss, 4);
    let y = copy_slots(x, m, ss);
    lemma_read_directional_kept(y, kept, ss);
    if any_bound(m, ss) || kept.len() > 0 {
        let gn = parent(name, wrapped_all(m, ss) + kept_all(kept));
        lemma_read_gestures_one(x, gn);
        lemma_read_directional_concat(x, wrapped_all(m, ss), kept_all(kept), ss);
    } else {
        lemma_wrapped_none(m, ss, 4);
        assert(kept =~= Seq::<Seq<char>>::empty());
        lemma_keep_all_none(y, directional_block(ss));
        assert(read_directional(x, Seq::<NodeV>::empty(), ss) == x);
        assert(read_gestures_from(x, Seq::<NodeV>::empty()) == Ok::<ModelV, Seq<char>>(x));
    }
}

/// Copying every group of slots into an all-unbound model gives the model's slots.
proof fn lemma_all_copies(x: ModelV, m: ModelV)
    requires
        x.slots == default_model().slots,
        m.slots.len() == 16,
    ensures
        copy_slots(copy_slots(copy_slots(copy_slots(x, m, swipe_slots()), m, hold_slots()), m, edge_slots()), m, corner_slots()).slots
            == m.slots,
{
    let a = copy_slots(x, m, swipe_slots());
    let b = copy_slots(a, m, hold_slots());
    let c = copy_slots(b, m, edge_slots());
    let d = copy_slots(c, m, corner_slots());
    lemma_copy_four(x, m, swipe_slots());
    lemma_copy_four(a, m, hold_slots());
    lemma_copy_four(b, m, edge_slots());
    lemma_copy_four(c, m, corner_slots());
    assert(a.slots =~= x.slots.update(0, m.slots[0]).update(1, m.slots[1]).update(3, m.slots[3]).update(2, m.slots[2]));
    assert(b.slots =~= a.slots.update(4, m.slots[4]).update(5, m.slots[5]).update(6, m.slots[6]).update(7, m.slots[7]));
    assert(c.slots =~= b.slots.update(8, m.slots[8]).update(9, m.slots[9]).update(10, m.slots[10]).update(11, m.slots[11]));
    assert(d.slots =~= c.slots.update(12, m.slots[12]).update(13, m.slots[13]).update(14, m.slots[14]).update(15, m.slots[15]));
    assert(d.slots =~= m.slots);
}

/// A kept node's text, re-parsed inside a `gestures` block, gives the node,
/// whatever indent it was rendered at.
proof fn lemma_kept_nodes_one(n: NodeV, k: nat)
    requires
        valid_node(n),
    ensures
        kept_nodes(crate::kdl::render(n, k)) == seq![n],
{
    let g = parent("gestures"@, seq![n]);
    lemma_valid_block_names();
    reveal_strlit("gestures {\n");
    reveal_strlit("\n}");
    reveal_strlit("gestures");
    let r = crate::kdl::render(n, k);
    assert("gestures {\n"@ + r + "\n}"@ =~= crate::kdl_laws::one_child_block("gestures"@, n, k));
    crate::kdl_laws::lemma_one_child_block_parses("gestures"@, n, k);
    assert(g == NodeV { name: "gestures"@, props: seq![], args: seq![], children: seq![n] });
    crate::kdl::lemma_first_named(seq![g], "gestures"@, 0);
}

/// The node a kept text stands for is well formed, allowed, and rendered
/// to that text; the text re-parses to it.
proof fn lemma_kept_one(t: Seq<char>, k: nat, allowed: spec_fn(Seq<char>) -> bool)
    requires
        kept_as(t, k, allowed),
    ensures
        valid_node(kept_node_as(t, k, allowed)),
        allowed(kept_node_as(t, k, allowed).name),
        t == crate::kdl::render(kept_node_as(t, k, allowed), k),
        kept_nodes(t) == seq![kept_node_as(t, k, allowed)],
{
    let n = kept_node_as(t, k, allowed);
    lemma_kept_nodes_one(n, k);
}

proof fn lemma_all_kept_init(ps: Seq<Seq<char>>, k: nat, allowed: spec_fn(Seq<char>) -> bool)
    requires
        ps.len() > 0,
        all_kept_as(ps, k, allowed),
    ensures
        all_kept_as(ps.drop_last(), k, allowed),
        kept_as(ps.last(), k, allowed),
{
    let init = ps.drop_last();
    assert forall|i: int| 0 <= i < init.len() implies kept_as(#[trigger] init[i], k, allowed) by {
        assert(init[i] == ps[i]);
    }
    assert(kept_as(ps[ps.len() - 1], k, allowed));
}

/// Kept texts stand for well-formed nodes.
proof fn lemma_kept_all_valid(ps: Seq<Seq<char>>, k: nat, allowed: spec_fn(Seq<char>) -> bool)
    requires
        all_kept_as(ps, k, allowed),
    ensures
        all_valid(kept_all(ps)),
    decreases ps.len(),
{
    if ps.len() == 0 {
        assert(kept_all(ps) == Seq::<NodeV>::empty());
        assert(all_valid(Seq::<NodeV>::empty()));
    } else {
        lemma_all_kept_init(ps, k, allowed);
        lemma_kept_all_valid(ps.drop_last(), k, allowed);
        lemma_kept_one(ps.last(), k, allowed);
        let n = kept_node_as(ps.last(), k, allowed);
        lemma_valid_one(n);
        lemma_all_valid_concat(kept_all(ps.drop_last()), seq![n]);
    }
}

proof fn lemma_keep_all_step(x: ModelV, b: KeptIn, ps: Seq<Seq<char>>)
    requires
        ps.len() > 0,
    ensures
        keep_in(keep_all_in(x, b, ps.drop_last()), b, ps.last()) == keep_all_in(x, b, ps),
{
    match b {
        KeptIn::Swipe => {
            assert((x.swipe_kept + ps.drop_last()).push(ps.last()) =~= x.swipe_kept + ps);
        },
        KeptIn::Hold => {
            assert((x.hold_kept + ps.drop_last()).push(ps.last()) =~= x.hold_kept + ps);
        },
        KeptIn::Edge => {
            assert((x.edge_kept + ps.drop_last()).push(ps.last()) =~= x.edge_kept + ps);
        },
        KeptIn::Corner => {
            assert((x.corner_kept + ps.drop_last()).push(ps.last()) =~= x.corner_kept + ps);
        },
    }
}

proof fn lemma_keep_all_none(x: ModelV, b: KeptIn)
    ensures
        keep_all_in(x, b, seq![]) == x,
{
    assert(x.swipe_kept + seq![] =~= x.swipe_kept);
    assert(x.hold_kept + seq![] =~= x.hold_kept);
    assert(x.edge_kept + seq![] =~= x.edge_kept);
    assert(x.corner_kept + seq![] =~= x.corner_kept);
}

/// Reading the top-level kept nodes back keeps their texts, in order.
#[verifier::rlimit(60)]
#[verifier::spinoff_prover]
proof fn lemma_read_kept(x: ModelV, ps: Seq<Seq<char>>)
    requires
        all_kept_as(ps, 1, top_free()),
    ensures
        read_gestures_from(x, kept_all(ps)) == Ok::<ModelV, Seq<char>>(ModelV { passthrough: x.passthrough + ps, ..x }),
    decreases ps.len(),
{
    if ps.len() == 0 {
        assert(x.passthrough + ps =~= x.passthrough);
        assert(kept_all(ps) == Seq::<NodeV>::empty());
    } else {
        let init = ps.drop_last();
        lemma_all_kept_init(ps, 1, top_free());
        lemma_read_kept(x, init);
        let t = ps.last();
        lemma_kept_one(t, 1, top_free());
        let n = kept_node_as(t, 1, top_free());
        lemma_read_gestures_concat(x, kept_all(init), seq![n]);
        let y = ModelV { passthrough: x.passthrough + init, ..x };
        lemma_read_gestures_one(y, n);
        assert(!modeled_name(n.name));
        assert(gestures_child(y, n) == Ok::<ModelV, Seq<char>>(keep(y, t)));
        assert(y.passthrough.push(t) =~= x.passthrough + ps);
    }
}

/// Reading the kept children of `touchscreen-swipe` back keeps their texts.
proof fn lemma_read_swipe_kept(x: ModelV, ps: Seq<Seq<char>>)
    requires
        all_kept_as(ps, 2, swipe_free()),
    ensures
        read_swipe(x, kept_all(ps)) == Ok::<ModelV, Seq<char>>(keep_all_in(x, KeptIn::Swipe, ps)),
    decreases ps.len(),
{
    if ps.len() == 0 {
        lemma_keep_all_none(x, KeptIn::Swipe);
        assert(kept_all(ps) == Seq::<NodeV>::empty());
    } else {
        let init = ps.drop_last();
        lemma_all_kept_init(ps, 2, swipe_free());
        lemma_read_swipe_kept(x, init);
        let t = ps.last();
        lemma_kept_one(t, 2, swipe_free());
        let n = kept_node_as(t, 2, swipe_free());
        lemma_read_swipe_concat(x, kept_all(init), seq![n]);
        let y = keep_all_in(x, KeptIn::Swipe, init);
        lemma_read_swipe_one(y, n);
        assert(!swipe_name(n.name));
        assert(swipe_child(y, n) == Ok::<ModelV, Seq<char>>(keep_in(y, KeptIn::Swipe, t)));
        lemma_keep_all_step(x, KeptIn::Swipe, ps);
    }
}

/// Reading the kept children of `hold` back keeps their texts.
proof fn lemma_read_hold_kept(x: ModelV, ps: Seq<Seq<char>>)
    requires
        all_kept_as(ps, 2, hold_free()),
    ensures
        read_hold(x, kept_all(ps)) == keep_all_in(x, KeptIn::Hold, ps),
    decreases ps.len(),
{
    if ps.len() == 0 {
        lemma_keep_all_none(x, KeptIn::Hold);
        assert(kept_all(ps) == Seq::<NodeV>::empty());
    } else {
        let init = ps.drop_last();
        lemma_all_kept_init(ps, 2, hold_free());
        lemma_read_hold_kept(x, init);
        let t = ps.last();
        lemma_kept_one(t, 2, hold_free());
        let n = kept_node_as(t, 2, hold_free());
        lemma_read_hold_concat(x, kept_all(init), seq![n]);
        let y = keep_all_in(x, KeptIn::Hold, init);
        assert(seq![n][0] == n);
        assert(seq![n].drop_first() =~= Seq::<NodeV>::empty());
        assert(!hold_name(n.name));
        assert(hold_child(y, n) == keep_in(y, KeptIn::Hold, t));
        assert(read_hold(y, seq![n]) == read_hold(hold_child(y, n), Seq::<NodeV>::empty()));
        lemma_keep_all_step(x, KeptIn::Hold, ps);
    }
}

/// Reading the kept children of an edge or corner block back keeps their
/// texts.
proof fn lemma_read_directional_kept(x: ModelV, ps: Seq<Seq<char>>, ss: Seq<Slot>)
    requires
        all_kept_as(ps, 2, slots_free(ss)),
    ensures
        read_directional(x, kept_all(ps), ss) == keep_all_in(x, directional_block(ss), ps),
    decreases ps.len(),
{
    let b = directional_block(ss);
    if ps.len() == 0 {
        lemma_keep_all_none(x, b);
        assert(kept_all(ps) == Seq::<NodeV>::empty());
    } else {
        let init = ps.drop_last();
        lemma_all_kept_init(ps, 2, slots_free(ss));
        lemma_read_directional_kept(x, init, ss);
        let t = ps.last();
        lemma_kept_one(t, 2, slots_free(ss));
        let n = kept_node_as(t, 2, slots_free(ss));
        lemma_read_directional_concat(x, kept_all(init), seq![n], ss);
        let y = keep_all_in(x, b, init);
        assert(seq![n][0] == n);
        assert(seq![n].drop_first() =~= Seq::<NodeV>::empty());
        assert(slot_named(ss, n.name) is None);
        assert(directional_child(y, n, ss) == keep_in(y, b, t));
        assert(read_directional(y, seq![n], ss) == read_directional(directional_child(y, n, ss), Seq::<NodeV>::empty(), ss));
        lemma_keep_all_step(x, b, ps);
    }
}

/// The written option, swipe, edge and corner nodes read back as the model
/// without its top-level kept nodes.
#[verifier::rlimit(60)]
#[verifier::spinoff_prover]
proof fn lemma_read_written_groups(m: ModelV)
    requires
        plain_model(m),
    ensures
        read_gestures_from(
            default_model(),
            show_touch_points_nodes(m.options) + debug_log_nodes(m.options) + seq![swipe_node(m)]
                + block_nodes(m, "touchscreen-edge-swipe"@, edge_slots(), m.edge_kept)
                + block_nodes(m, "touchscreen-corner-swipe"@, corner_slots(), m.corner_kept),
        ) == Ok::<ModelV, Seq<char>>(ModelV { passthrough: seq![], ..m }),
{
    let o = m.options;
    let y0 = default_model();
    let head = show_touch_points_nodes(o) + debug_log_nodes(o);
    let eg = block_nodes(m, "touchscreen-edge-swipe"@, edge_slots(), m.edge_kept);
    let cg = block_nodes(m, "touchscreen-corner-swipe"@, corner_slots(), m.corner_kept);
    lemma_read_gestures_concat(y0, head + seq![swipe_node(m)] + eg, cg);
    lemma_read_gestures_concat(y0, head + seq![swipe_node(m)], eg);
    lemma_read_gestures_concat(y0, head, seq![swipe_node(m)]);
    lemma_head(y0, o);
    let y2 = with_options(y0, Options { show_touch_points: o.show_touch_points, debug_log: o.debug_log, ..y0.options });
    lemma_read_gestures_one(y2, swipe_node(m));
    lemma_swipe_node(y2, m);
    let z3 = with_options(y2, Options { off: o.off, fingers: o.fingers, horizontal_swipe: o.horizontal_swipe, ..y2.options });
    let c1 = copy_slots(z3, m, swipe_slots());
    let c2 = copy_slots(c1, m, hold_slots());
    let y3 = keep_all_in(keep_all_in(c2, KeptIn::Hold, m.hold_kept), KeptIn::Swipe, m.swipe_kept);
    lemma_copy_keeps(z3, m, swipe_slots());
    lemma_copy_keeps(c1, m, hold_slots());
    lemma_all_copies(z3, m);
    assert(y3.slots == c2.slots);
    assert forall|i: int| 8 <= i < 12 implies (#[trigger] y3.slots[i]) is Unbound by {
        assert forall|q: int| 0 <= q < 4 implies slot_index(#[trigger] swipe_slots()[q]) != i by {}
        assert forall|q: int| 0 <= q < 4 implies slot_index(#[trigger] hold_slots()[q]) != i by {}
        lemma_copy_frame(z3, m, swipe_slots(), i);
        lemma_copy_frame(c1, m, hold_slots(), i);
    }
    lemma_directional_group(y3, m, "touchscreen-edge-swipe"@, edge_slots(), 8, m.edge_kept);
    let c3 = copy_slots(y3, m, edge_slots());
    assert(directional_block(edge_slots()) == KeptIn::Edge);
    let y4 = keep_all_in(c3, KeptIn::Edge, m.edge_kept);
    lemma_copy_keeps(y3, m, edge_slots());
    assert forall|i: int| 12 <= i < 16 implies (#[trigger] y4.slots[i]) is Unbound by {
        assert forall|q: int| 0 <= q < 4 implies slot_index(#[trigger] swipe_slots()[q]) != i by {}
        assert forall|q: int| 0 <= q < 4 implies slot_index(#[trigger] hold_slots()[q]) != i by {}
        assert forall|q: int| 0 <= q < 4 implies slot_index(#[trigger] edge_slots()[q]) != i by {}
        lemma_copy_frame(z3, m, swipe_slots(), i);
        lemma_copy_frame(c1, m, hold_slots(), i);
        lemma_copy_frame(y3, m, edge_slots(), i);
    }
    assert(corner_slots()[0] != edge_slots()[0]);
    assert(directional_block(corner_slots()) == KeptIn::Corner);
    lemma_directional_group(y4, m, "touchscreen-corner-swipe"@, corner_slots(), 12, m.corner_kept);
    let c4 = copy_slots(y4, m, corner_slots());
    let y5 = keep_all_in(c4, KeptIn::Corner, m.corner_kept);
    lemma_copy_keeps(y4, m, corner_slots());
    lemma_copy_same_slots(y3, c2, m, edge_slots());
    lemma_copy_same_slots(y4, copy_slots(c2, m, edge_slots()), m, corner_slots());
    assert(y5.slots == m.slots);
    assert(y5.options == o);
    assert(y5.swipe_kept =~= m.swipe_kept);
    assert(y5.hold_kept =~= m.hold_kept);
    assert(y5.edge_kept =~= m.edge_kept);
    assert(y5.corner_kept =~= m.corner_kept);
    assert(y5.passthrough =~= Seq::<Seq<char>>::empty());
    assert(m.warnings =~= Seq::<Seq<char>>::empty());
    assert(y5.warnings =~= m.warnings);
    assert(y5 == ModelV { passthrough: seq![], ..m });
}

/// Writing a plain model as a `gestures` node and reading that node back
/// gives the model again: every slot, every option, every kept node.
pub proof fn law_gestures_node_roundtrip(m: ModelV)
    requires
        plain_model(m),
    ensures
        read_gestures(gestures_node(m)) == Ok::<ModelV, Seq<char>>(m),
{
    let o = m.options;
    let written = show_touch_points_nodes(o) + debug_log_nodes(o) + seq![swipe_node(m)]
        + block_nodes(m, "touchscreen-edge-swipe"@, edge_slots(), m.edge_kept)
        + block_nodes(m, "touchscreen-corner-swipe"@, corner_slots(), m.corner_kept);
    assert(gestures_children(m) == written + kept_all(m.passthrough));
    lemma_read_gestures_concat(default_model(), written, kept_all(m.passthrough));
    lemma_read_written_groups(m);
    let y5 = ModelV { passthrough: seq![], ..m };
    lemma_read_kept(y5, m.passthrough);
    assert(y5.passthrough + m.passthrough =~= m.passthrough);
    assert(ModelV { passthrough: y5.passthrough + m.passthrough, ..y5 } == m);
}

// --- the written node is well formed ----------------------------------

proof fn lemma_all_valid_concat(a: Seq<NodeV>, b: Seq<NodeV>)
    requires
        all_valid(a),
        all_valid(b),
    ensures
        all_valid(a + b),
{
    assert forall|i: int| 0 <= i < (a + b).len() implies valid_node(#[trigger] (a + b)[i]) by {
        if i < a.len() {
            assert((a + b)[i] == a[i]);
        } else {
            assert((a + b)[i] == b[i - a.len()]);
        }
    }
}

proof fn lemma_valid_parent(name: Seq<char>, kids: Seq<NodeV>)
    requires
        valid_word(name),
        all_valid(kids),
    ensures
        valid_node(parent(name, kids)),
{
}

proof fn lemma_valid_one(n: NodeV)
    requires
        valid_node(n),
    ensures
        all_valid(seq![n]),
{
    assert forall|i: int| 0 <= i < 1 implies valid_node(#[trigger] seq![n][i]) by {
        assert(seq![n][i] == n);
    }
}

proof fn lemma_valid_block_names()
    ensures
        valid_word("gestures"@),
        valid_word("show-touch-points"@),
        valid_word("debug-log"@),
        valid_word("touchscreen-swipe"@),
        valid_word("off"@),
        valid_word("fingers"@),
        valid_word("horizontal-swipe"@),
        valid_word("hold"@),
        valid_word("touchscreen-edge-swipe"@),
        valid_word("touchscreen-corner-swipe"@),
{
    reveal_strlit("gestures");
    reveal_strlit("show-touch-points");
    reveal_strlit("debug-log");
    reveal_strlit("touchscreen-swipe");
    reveal_strlit("off");
    reveal_strlit("fingers");
    reveal_strlit("horizontal-swipe");
    reveal_strlit("hold");
    reveal_strlit("touchscreen-edge-swipe");
    reveal_strlit("touchscreen-corner-swipe");
}

proof fn lemma_valid_slot_id(s: Slot)
    ensures
        valid_word(slot_id(s)),
{
    match s {
        Slot::Tap => { reveal_strlit("tap"); },
        Slot::TapMore => { reveal_strlit("tap-more"); },
        Slot::SwipeMoreUp => { reveal_strlit("swipe-more-up"); },
        Slot::SwipeMoreDown => { reveal_strlit("swipe-more-down"); },
        Slot::HoldLeft => { reveal_strlit("left"); },
        Slot::HoldRight => { reveal_strlit("right"); },
        Slot::HoldUp => { reveal_strlit("up"); },
        Slot::HoldDown => { reveal_strlit("down"); },
        Slot::EdgeBottom => { reveal_strlit("bottom"); },
        Slot::EdgeTop => { reveal_strlit("top"); },
        Slot::EdgeLeft => { reveal_strlit("left"); },
        Slot::EdgeRight => { reveal_strlit("right"); },
        Slot::CornerTopLeft => { reveal_strlit("top-left"); },
        Slot::CornerTopRight => { reveal_strlit("top-right"); },
        Slot::CornerBottomLeft => { reveal_strlit("bottom-left"); },
        Slot::CornerBottomRight => { reveal_strlit("bottom-right"); },
    }
}

proof fn lemma_valid_wrapped(m: ModelV, ss: Seq<Slot>)
    requires
        plain_model(m),
    ensures
        all_valid(wrapped_all(m, ss)),
    decreases ss.len(),
{
    if ss.len() > 0 {
        lemma_valid_wrapped(m, ss.drop_last());
        let s = ss.last();
        lemma_slot_index_injective(s, s);
        assert(plain_value(m.slots[slot_index(s)]));
        lemma_wrapped_shape(m, s);
        if slot_value(m, s) is Node {
            let a = slot_value(m, s)->Node_0;
            lemma_valid_one(action_node(a));
            lemma_valid_slot_id(s);
            lemma_valid_parent(slot_id(s), seq![action_node(a)]);
            lemma_valid_one(parent(slot_id(s), seq![action_node(a)]));
        }
        lemma_all_valid_concat(wrapped_all(m, ss.drop_last()), wrapped(m, s));
    }
}

proof fn lemma_valid_block(m: ModelV, name: Seq<char>, ss: Seq<Slot>, kept: Seq<Seq<char>>, k: nat, allowed: spec_fn(Seq<char>) -> bool)
    requires
        plain_model(m),
        valid_word(name),
        all_kept_as(kept, k, allowed),
    ensures
        all_valid(block_nodes(m, name, ss, kept)),
{
    lemma_valid_wrapped(m, ss);
    lemma_kept_all_valid(kept, k, allowed);
    lemma_all_valid_concat(wrapped_all(m, ss), kept_all(kept));
    if any_bound(m, ss) || kept.len() > 0 {
        lemma_valid_parent(name, wrapped_all(m, ss) + kept_all(kept));
        lemma_valid_one(parent(name, wrapped_all(m, ss) + kept_all(kept)));
    }
}

proof fn lemma_valid_leaf_arg(name: Seq<char>, a: ArgV)
    requires
        valid_word(name),
        valid_arg(a),
    ensures
        all_valid(seq![leaf_arg(name, a)]),
{
    let n = leaf_arg(name, a);
    assert(n.args[0] == a);
    assert(valid_node(n));
    lemma_valid_one(n);
}

/// The node written for a plain model is well formed.
proof fn lemma_valid_gestures_node(m: ModelV)
    requires
        plain_model(m),
    ensures
        valid_node(gestures_node(m)),
{
    let o = m.options;
    lemma_valid_block_names();
    // head
    match o.show_touch_points {
        ShowTouchPoints::Off => {},
        ShowTouchPoints::Gestures => lemma_valid_leaf_arg("show-touch-points"@, ArgV::Str("gestures"@)),
        ShowTouchPoints::All => lemma_valid_leaf_arg("show-touch-points"@, ArgV::Str("all"@)),
    }
    if o.debug_log {
        lemma_valid_one(leaf("debug-log"@));
    }
    lemma_all_valid_concat(show_touch_points_nodes(o), debug_log_nodes(o));
    // swipe block
    if o.off {
        lemma_valid_one(leaf("off"@));
    }
    match o.fingers {
        Some(f) => {
            let d = crate::text::decimal(f as nat);
            assert(d == seq![crate::text::digit_char(f as nat)]);
            if f == 3 {
                assert(crate::text::digit_char(3) == '3');
            } else {
                assert(crate::text::digit_char(4) == '4');
            }
            assert(valid_word(d));
            lemma_valid_leaf_arg("fingers"@, ArgV::Word(d));
        },
        None => {},
    }
    if o.horizontal_swipe == HorizontalSwipe::ResizeColumn {
        lemma_valid_leaf_arg("horizontal-swipe"@, ArgV::Str("resize-column"@));
    }
    lemma_all_valid_concat(off_nodes(o), fingers_nodes(o));
    lemma_all_valid_concat(off_nodes(o) + fingers_nodes(o), horizontal_swipe_nodes(o));
    lemma_valid_wrapped(m, swipe_slots());
    lemma_all_valid_concat(off_nodes(o) + fingers_nodes(o) + horizontal_swipe_nodes(o), wrapped_all(m, swipe_slots()));
    lemma_valid_block(m, "hold"@, hold_slots(), m.hold_kept, 2, hold_free());
    let hb = block_nodes(m, "hold"@, hold_slots(), m.hold_kept);
    lemma_all_valid_concat(off_nodes(o) + fingers_nodes(o) + horizontal_swipe_nodes(o) + wrapped_all(m, swipe_slots()), hb);
    lemma_kept_all_valid(m.swipe_kept, 2, swipe_free());
    lemma_all_valid_concat(
        off_nodes(o) + fingers_nodes(o) + horizontal_swipe_nodes(o) + wrapped_all(m, swipe_slots()) + hb,
        kept_all(m.swipe_kept),
    );
    lemma_valid_parent("touchscreen-swipe"@, swipe_node(m).children);
    lemma_valid_one(swipe_node(m));
    // the rest
    let head = show_touch_points_nodes(o) + debug_log_nodes(o);
    lemma_all_valid_concat(head, seq![swipe_node(m)]);
    let eg = block_nodes(m, "touchscreen-edge-swipe"@, edge_slots(), m.edge_kept);
    let cg = block_nodes(m, "touchscreen-corner-swipe"@, corner_slots(), m.corner_kept);
    lemma_valid_block(m, "touchscreen-edge-swipe"@, edge_slots(), m.edge_kept, 2, slots_free(edge_slots()));
    lemma_all_valid_concat(head + seq![swipe_node(m)], eg);
    lemma_valid_block(m, "touchscreen-corner-swipe"@, corner_slots(), m.corner_kept, 2, slots_free(corner_slots()));
    let upto = head + seq![swipe_node(m)] + eg;
    lemma_all_valid_concat(upto, cg);
    lemma_kept_all_valid(m.passthrough, 1, top_free());
    lemma_all_valid_concat(upto + cg, kept_all(m.passthrough));
    lemma_valid_parent("gestures"@, gestures_children(m));
}

/// A managed file holding a well-formed `gestures` node parses to that node.
proof fn lemma_file_parses(g: NodeV)
    requires
        valid_node(g),
        g.name == "gestures"@,
    ensures
        crate::kdl::parse_document_spec(file_header() + crate::kdl::render(g, 0) + seq!['\n'])
            == Ok::<Seq<NodeV>, crate::kdl::ErrV>(seq![g]),
        crate::kdl::first_named(seq![g], "gestures"@) == Some(0int),
{
    let l1 = "// Managed by niri-tablet-easysetup. Edits here are overwritten when\n"@;
    let l2 = "// you save from the app; keep custom nodes out of it or import them\n"@;
    let l3 = "// back. niri reloads this file live (no re-login needed).\n"@;
    reveal_strlit("// Managed by niri-tablet-easysetup. Edits here are overwritten when\n");
    reveal_strlit("// you save from the app; keep custom nodes out of it or import them\n");
    reveal_strlit("// back. niri reloads this file live (no re-login needed).\n");
    assert(comment_line(l1));
    assert(comment_line(l2));
    assert(comment_line(l3));
    let lines = seq![l1, l2, l3];
    assert forall|q: int| 0 <= q < lines.len() implies comment_line(#[trigger] lines[q]) by {}
    assert(lines.flatten() =~= l1 + l2 + l3) by {
        let e = Seq::<Seq<char>>::empty();
        e.lemma_flatten_push(l1);
        e.push(l1).lemma_flatten_push(l2);
        e.push(l1).push(l2).lemma_flatten_push(l3);
        assert(e.push(l1).push(l2).push(l3) =~= lines);
        assert(e.flatten() =~= Seq::<char>::empty());
        assert(Seq::<char>::empty() + l1 =~= l1);
    }
    crate::kdl_laws::law_comments_then_node(lines, g);
    assert(file_header() =~= lines.flatten());
    crate::kdl::lemma_first_named(seq![g], "gestures"@, 0);
}

/// Saving a plain model and loading the saved file gives the model again:
/// the header comment is skipped, the `gestures` node is found, and every
/// slot, option and kept unmodeled node reads back as it was.
pub proof fn law_file_roundtrip(m: ModelV)
    requires
        plain_model(m),
    ensures
        parse_file(file_text(m)) == Ok::<Option<ModelV>, Seq<char>>(Some(m)),
{
    lemma_valid_gestures_node(m);
    lemma_file_parses(gestures_node(m));
    law_gestures_node_roundtrip(m);
}

// --- legacy names -------------------------------------------------------

/// `old` is the legacy name of slot `s`, whose current name is `new`.
pub open spec fn renamed(old: Seq<char>, new: Seq<char>, s: Slot) -> bool {
    ||| old == "tap-4"@ && new == "tap-more"@ && s == Slot::TapMore
    ||| old == "swipe-4-up"@ && new == "swipe-more-up"@ && s == Slot::SwipeMoreUp
    ||| old == "swipe-4-down"@ && new == "swipe-more-down"@ && s == Slot::SwipeMoreDown
}

proof fn lemma_legacy_names()
    ensures
        "tap-4"@ != "off"@ && "tap-4"@ != "fingers"@ && "tap-4"@ != "horizontal-swipe"@ && "tap-4"@ != "tap"@
            && "tap-4"@ != "tap-more"@ && "tap-4"@ != "swipe-more-up"@ && "tap-4"@ != "swipe-more-down"@,
        "swipe-4-up"@ != "off"@ && "swipe-4-up"@ != "fingers"@ && "swipe-4-up"@ != "horizontal-swipe"@
            && "swipe-4-up"@ != "tap"@ && "swipe-4-up"@ != "tap-more"@ && "swipe-4-up"@ != "swipe-more-up"@
            && "swipe-4-up"@ != "swipe-more-down"@ && "swipe-4-up"@ != "tap-4"@,
        "swipe-4-down"@ != "off"@ && "swipe-4-down"@ != "fingers"@ && "swipe-4-down"@ != "horizontal-swipe"@
            && "swipe-4-down"@ != "tap"@ && "swipe-4-down"@ != "tap-more"@ && "swipe-4-down"@ != "swipe-more-up"@
            && "swipe-4-down"@ != "swipe-more-down"@ && "swipe-4-down"@ != "tap-4"@ && "swipe-4-down"@ != "swipe-4-up"@,
{
    reveal_strlit("off");
    reveal_strlit("fingers");
    reveal_strlit("horizontal-swipe");
    reveal_strlit("tap");
    reveal_strlit("tap-more");
    reveal_strlit("swipe-more-up");
    reveal_strlit("swipe-more-down");
    reveal_strlit("tap-4");
    reveal_strlit("swipe-4-up");
    reveal_strlit("swipe-4-down");
    assert("off"@.len() == 3 && "fingers"@.len() == 7 && "horizontal-swipe"@.len() == 16 && "tap"@.len() == 3);
    assert("tap-more"@.len() == 8 && "swipe-more-up"@.len() == 13 && "swipe-more-down"@.len() == 15);
    assert("tap-4"@.len() == 5 && "swipe-4-up"@.len() == 10 && "swipe-4-down"@.len() == 12);
}

/// A legacy slot name and its new name in one `touchscreen-swipe` block: the
/// new name's action is the one kept, whichever of the two comes first.
pub proof fn law_new_name_wins(x: ModelV, a: NodeV, b: NodeV, old: Seq<char>, new: Seq<char>, s: Slot)
    requires
        renamed(old, new, s),
        a.name == old,
        b.name == new,
        !(slot_action_of(b) is Unbound),
        x.slots.len() == 16,
    ensures
        read_swipe(x, seq![a, b]) is Ok,
        slot_value(read_swipe(x, seq![a, b])->Ok_0, s) == slot_action_of(b),
        read_swipe(x, seq![b, a]) is Ok,
        slot_value(read_swipe(x, seq![b, a])->Ok_0, s) == slot_action_of(b),
{
    lemma_legacy_names();
    lemma_swipe_names();
    lemma_slot_index_injective(s, s);
    assert(seq![a, b] == seq![a] + seq![b]);
    assert(seq![b, a] == seq![b] + seq![a]);
    lemma_read_swipe_concat(x, seq![a], seq![b]);
    lemma_read_swipe_concat(x, seq![b], seq![a]);
    lemma_read_swipe_one(x, a);
    lemma_read_swipe_one(x, b);
    let ya = swipe_child(x, a)->Ok_0;
    lemma_read_swipe_one(ya, b);
    let yb = swipe_child(x, b)->Ok_0;
    lemma_read_swipe_one(yb, a);
}

/// Setting a slot and reading it back gives the value set; every other slot,
/// the options, the kept nodes and the notes stay as they were.
pub proof fn law_set_then_get(m: ModelV, s: Slot, t: Slot, v: ActionValueV)
    requires
        m.slots.len() == 16,
    ensures
        slot_value(with_slot(m, s, v), s) == v,
        t != s ==> slot_value(with_slot(m, s, v), t) == slot_value(m, t),
        with_slot(m, s, v).slots.len() == 16,
        with_slot(m, s, v).options == m.options,
        with_slot(m, s, v).passthrough == m.passthrough,
        with_slot(m, s, v).warnings == m.warnings,
{
    if t != s {
        assert(slot_index(t) != slot_index(s));
    }
}

} // verus!
