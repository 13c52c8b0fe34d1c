//! The gesture configuration model: the 16 configurable action slots, the
//! mode options, and the mapping to/from the `gestures {}` KDL node.

use vstd::prelude::*;
use crate::kdl::{Arg, ArgV, Node, NodeV};
use crate::text::{owned, push_char, push_str};

verus! {

/// A KDL argument literal, tagged so that bare (`3`) vs quoted (`"3"`)
/// survives an export/import round trip.
#[derive(PartialEq, Debug)]
pub enum JsonArg {
    Str(String),
    Word(String),
}

impl JsonArg {
    pub open spec fn view(&self) -> ArgV {
        match self {
            JsonArg::Str(s) => ArgV::Str(s@),
            JsonArg::Word(s) => ArgV::Word(s@),
        }
    }

    /// Unquoted content, for display.
    pub fn text(&self) -> (r: &str)
        ensures
            r@ == self.view().text(),
    {
        match self {
            JsonArg::Str(s) => s.as_str(),
            JsonArg::Word(w) => w.as_str(),
        }
    }

    /// A copy with the same value.
    pub fn duplicate(&self) -> (r: JsonArg)
        ensures
            r.view() == self.view(),
    {
        match self {
            JsonArg::Str(s) => JsonArg::Str(s.clone()),
            JsonArg::Word(w) => JsonArg::Word(w.clone()),
        }
    }
}

impl Clone for JsonArg {
    fn clone(&self) -> (r: JsonArg)
        ensures
            r.view() == self.view(),
    {
        self.duplicate()
    }
}

impl<'a> From<&'a Arg> for JsonArg {
    fn from(a: &'a Arg) -> (r: JsonArg) {
        match a {
            Arg::Str(s) => JsonArg::Str(s.clone()),
            Arg::Word(w) => JsonArg::Word(w.clone()),
        }
    }
}

impl<'a> vstd::std_specs::convert::FromSpecImpl<&'a Arg> for JsonArg {
    open spec fn obeys_from_spec() -> bool {
        true
    }

    open spec fn from_spec(a: &'a Arg) -> JsonArg {
        match *a {
            Arg::Str(s) => JsonArg::Str(s),
            Arg::Word(w) => JsonArg::Word(w),
        }
    }
}

impl<'a> From<&'a JsonArg> for Arg {
    fn from(a: &'a JsonArg) -> (r: Arg) {
        match a {
            JsonArg::Str(s) => Arg::Str(s.clone()),
            JsonArg::Word(w) => Arg::Word(w.clone()),
        }
    }
}

impl<'a> vstd::std_specs::convert::FromSpecImpl<&'a JsonArg> for Arg {
    open spec fn obeys_from_spec() -> bool {
        true
    }

    open spec fn from_spec(a: &'a JsonArg) -> Arg {
        match *a {
            JsonArg::Str(s) => Arg::Str(s),
            JsonArg::Word(w) => Arg::Word(w),
        }
    }
}

/// One configurable gesture slot, in stable display order.
#[derive(Clone, Copy, PartialEq, Eq, Structural, Hash, PartialOrd, Ord, Debug)]
pub enum Slot {
    Tap,
    TapMore,
    SwipeMoreUp,
    SwipeMoreDown,
    HoldLeft,
    HoldRight,
    HoldUp,
    HoldDown,
    EdgeBottom,
    EdgeTop,
    EdgeLeft,
    EdgeRight,
    CornerTopLeft,
    CornerTopRight,
    CornerBottomLeft,
    CornerBottomRight,
}

/// Position of a slot in display order (and in [`GestureModel::slots`]).
pub open spec fn slot_index(s: Slot) -> int {
    match s {
        Slot::Tap => 0,
        Slot::TapMore => 1,
        Slot::SwipeMoreUp => 2,
        Slot::SwipeMoreDown => 3,
        Slot::HoldLeft => 4,
        Slot::HoldRight => 5,
        Slot::HoldUp => 6,
        Slot::HoldDown => 7,
        Slot::EdgeBottom => 8,
        Slot::EdgeTop => 9,
        Slot::EdgeLeft => 10,
        Slot::EdgeRight => 11,
        Slot::CornerTopLeft => 12,
        Slot::CornerTopRight => 13,
        Slot::CornerBottomLeft => 14,
        Slot::CornerBottomRight => 15,
    }
}

/// Number of slots.
pub const SLOT_COUNT: usize = 16;

/// The key of a slot inside its KDL parent node.
pub open spec fn slot_id(s: Slot) -> Seq<char> {
    match s {
        Slot::Tap => "tap"@,
        Slot::TapMore => "tap-more"@,
        Slot::SwipeMoreUp => "swipe-more-up"@,
        Slot::SwipeMoreDown => "swipe-more-down"@,
        Slot::HoldLeft => "left"@,
        Slot::HoldRight => "right"@,
        Slot::HoldUp => "up"@,
        Slot::HoldDown => "down"@,
        Slot::EdgeBottom => "bottom"@,
        Slot::EdgeTop => "top"@,
        Slot::EdgeLeft => "left"@,
        Slot::EdgeRight => "right"@,
        Slot::CornerTopLeft => "top-left"@,
        Slot::CornerTopRight => "top-right"@,
        Slot::CornerBottomLeft => "bottom-left"@,
        Slot::CornerBottomRight => "bottom-right"@,
    }
}

pub open spec fn slot_friendly_name(s: Slot) -> Seq<char> {
    match s {
        Slot::Tap => "base-finger tap"@,
        Slot::TapMore => "extra-finger tap"@,
        Slot::SwipeMoreUp => "extra-finger flick up"@,
        Slot::SwipeMoreDown => "extra-finger flick down"@,
        Slot::HoldLeft => "Hold + swipe left"@,
        Slot::HoldRight => "Hold + swipe right"@,
        Slot::HoldUp => "Hold + swipe up"@,
        Slot::HoldDown => "Hold + swipe down"@,
        Slot::EdgeBottom => "Bottom edge swipe"@,
        Slot::EdgeTop => "Top edge swipe"@,
        Slot::EdgeLeft => "Left edge swipe"@,
        Slot::EdgeRight => "Right edge swipe"@,
        Slot::CornerTopLeft => "Top-left corner swipe"@,
        Slot::CornerTopRight => "Top-right corner swipe"@,
        Slot::CornerBottomLeft => "Bottom-left corner swipe"@,
        Slot::CornerBottomRight => "Bottom-right corner swipe"@,
    }
}

pub open spec fn slot_description(s: Slot) -> Seq<char> {
    match s {
        Slot::Tap => "Quick tap with the base finger count"@,
        Slot::TapMore => "Quick tap with one finger more than the base count"@,
        Slot::SwipeMoreUp => "Fast flick with one finger more than the base count, upward"@,
        Slot::SwipeMoreDown => "Fast flick with one finger more than the base count, downward"@,
        Slot::HoldLeft => "Touch down, hold ~400 ms, then swipe left"@,
        Slot::HoldRight => "Touch down, hold ~400 ms, then swipe right"@,
        Slot::HoldUp => "Touch down, hold ~400 ms, then swipe up"@,
        Slot::HoldDown => "Touch down, hold ~400 ms, then swipe down"@,
        Slot::EdgeBottom => "One finger swiping inward from the bottom edge"@,
        Slot::EdgeTop => "One finger swiping inward from the top edge"@,
        Slot::EdgeLeft => "One finger swiping inward from the left edge"@,
        Slot::EdgeRight => "One finger swiping inward from the right edge"@,
        Slot::CornerTopLeft => "One finger swiping diagonally in from the top-left corner"@,
        Slot::CornerTopRight => "One finger swiping diagonally in from the top-right corner"@,
        Slot::CornerBottomLeft => "One finger swiping diagonally in from the bottom-left corner"@,
        Slot::CornerBottomRight => "One finger swiping diagonally in from the bottom-right corner"@,
    }
}

impl Slot {
    /// Every slot, in display order.
    pub const ALL: [Slot; 16] = [
        Slot::Tap,
        Slot::TapMore,
        Slot::SwipeMoreUp,
        Slot::SwipeMoreDown,
        Slot::HoldLeft,
        Slot::HoldRight,
        Slot::HoldUp,
        Slot::HoldDown,
        Slot::EdgeBottom,
        Slot::EdgeTop,
        Slot::EdgeLeft,
        Slot::EdgeRight,
        Slot::CornerTopLeft,
        Slot::CornerTopRight,
        Slot::CornerBottomLeft,
        Slot::CornerBottomRight,
    ];

    /// Position in display order.
    pub fn index(self) -> (r: usize)
        ensures
            r == slot_index(self),
            r < SLOT_COUNT,
    {
        match self {
            Slot::Tap => 0,
            Slot::TapMore => 1,
            Slot::SwipeMoreUp => 2,
            Slot::SwipeMoreDown => 3,
            Slot::HoldLeft => 4,
            Slot::HoldRight => 5,
            Slot::HoldUp => 6,
            Slot::HoldDown => 7,
            Slot::EdgeBottom => 8,
            Slot::EdgeTop => 9,
            Slot::EdgeLeft => 10,
            Slot::EdgeRight => 11,
            Slot::CornerTopLeft => 12,
            Slot::CornerTopRight => 13,
            Slot::CornerBottomLeft => 14,
            Slot::CornerBottomRight => 15,
        }
    }

    /// Key used in KDL parent nodes.
    pub fn id(&self) -> (r: &'static str)
        ensures
            r@ == slot_id(*self),
    {
        match self {
            Slot::Tap => "tap",
            Slot::TapMore => "tap-more",
            Slot::SwipeMoreUp => "swipe-more-up",
            Slot::SwipeMoreDown => "swipe-more-down",
            Slot::HoldLeft => "left",
            Slot::HoldRight => "right",
            Slot::HoldUp => "up",
            Slot::HoldDown => "down",
            Slot::EdgeBottom => "bottom",
            Slot::EdgeTop => "top",
            Slot::EdgeLeft => "left",
            Slot::EdgeRight => "right",
            Slot::CornerTopLeft => "top-left",
            Slot::CornerTopRight => "top-right",
            Slot::CornerBottomLeft => "bottom-left",
            Slot::CornerBottomRight => "bottom-right",
        }
    }

    pub fn friendly_name(&self) -> (r: &'static str)
        ensures
            r@ == slot_friendly_name(*self),
    {
        match self {
            Slot::Tap => "base-finger tap",
            Slot::TapMore => "extra-finger tap",
            Slot::SwipeMoreUp => "extra-finger flick up",
            Slot::SwipeMoreDown => "extra-finger flick down",
            Slot::HoldLeft => "Hold + swipe left",
            Slot::HoldRight => "Hold + swipe right",
            Slot::HoldUp => "Hold + swipe up",
            Slot::HoldDown => "Hold + swipe down",
            Slot::EdgeBottom => "Bottom edge swipe",
            Slot::EdgeTop => "Top edge swipe",
            Slot::EdgeLeft => "Left edge swipe",
            Slot::EdgeRight => "Right edge swipe",
            Slot::CornerTopLeft => "Top-left corner swipe",
            Slot::CornerTopRight => "Top-right corner swipe",
            Slot::CornerBottomLeft => "Bottom-left corner swipe",
            Slot::CornerBottomRight => "Bottom-right corner swipe",
        }
    }

    pub fn description(&self) -> (r: &'static str)
        ensures
            r@ == slot_description(*self),
    {
        match self {
            Slot::Tap => "Quick tap with the base finger count",
            Slot::TapMore => "Quick tap with one finger more than the base count",
            Slot::SwipeMoreUp => "Fast flick with one finger more than the base count, upward",
            Slot::SwipeMoreDown => "Fast flick with one finger more than the base count, downward",
            Slot::HoldLeft => "Touch down, hold ~400 ms, then swipe left",
            Slot::HoldRight => "Touch down, hold ~400 ms, then swipe right",
            Slot::HoldUp => "Touch down, hold ~400 ms, then swipe up",
            Slot::HoldDown => "Touch down, hold ~400 ms, then swipe down",
            Slot::EdgeBottom => "One finger swiping inward from the bottom edge",
            Slot::EdgeTop => "One finger swiping inward from the top edge",
            Slot::EdgeLeft => "One finger swiping inward from the left edge",
            Slot::EdgeRight => "One finger swiping inward from the right edge",
            Slot::CornerTopLeft => "One finger swiping diagonally in from the top-left corner",
            Slot::CornerTopRight => "One finger swiping diagonally in from the top-right corner",
            Slot::CornerBottomLeft => "One finger swiping diagonally in from the bottom-left corner",
            Slot::CornerBottomRight => "One finger swiping diagonally in from the bottom-right corner",
        }
    }
}

/// The value of an [`ActionNode`].
pub struct ActionNodeV {
    pub name: Seq<char>,
    pub args: Seq<ArgV>,
    pub props: Seq<(Seq<char>, ArgV)>,
}

pub open spec fn json_args_view(args: Seq<JsonArg>) -> Seq<ArgV> {
    Seq::new(args.len(), |i: int| args[i].view())
}

pub open spec fn json_props_view(props: Seq<(String, JsonArg)>) -> Seq<(Seq<char>, ArgV)> {
    Seq::new(props.len(), |i: int| (props[i].0@, props[i].1.view()))
}

/// A single parsed niri action node, e.g. `maximize-column` or
/// `spawn "foot" "-e" "htop"`.
#[derive(PartialEq, Debug)]
pub struct ActionNode {
    pub name: String,
    pub args: Vec<JsonArg>,
    pub props: Vec<(String, JsonArg)>,
}

/// The action a childless KDL node stands for.
pub open spec fn action_of(n: NodeV) -> ActionNodeV {
    ActionNodeV { name: n.name, args: n.args, props: n.props }
}

/// The childless KDL node of an action.
pub open spec fn action_node(a: ActionNodeV) -> NodeV {
    NodeV { name: a.name, props: a.props, args: a.args, children: seq![] }
}

/// ` a1 a2 ...`: each argument's text after a space.
pub open spec fn args_label(args: Seq<ArgV>) -> Seq<char>
    decreases args.len(),
{
    if args.len() == 0 {
        seq![]
    } else {
        args_label(args.drop_last()) + seq![' '] + args.last().text()
    }
}

/// ` k1=v1 k2=v2 ...`: each property after a space.
pub open spec fn props_label(props: Seq<(Seq<char>, ArgV)>) -> Seq<char>
    decreases props.len(),
{
    if props.len() == 0 {
        seq![]
    } else {
        props_label(props.drop_last()) + seq![' '] + props.last().0 + seq!['='] + props.last().1.text()
    }
}

/// Short human label of an action, e.g. `spawn foot -e htop`.
pub open spec fn action_label(a: ActionNodeV) -> Seq<char> {
    a.name + args_label(a.args) + props_label(a.props)
}

impl ActionNode {
    pub open spec fn view(&self) -> ActionNodeV {
        ActionNodeV { name: self.name@, args: json_args_view(self.args@), props: json_props_view(self.props@) }
    }

    /// A copy with the same value.
    pub fn duplicate(&self) -> (r: ActionNode)
        ensures
            r.view() == self.view(),
    {
        let mut args: Vec<JsonArg> = Vec::new();
        let mut i: usize = 0;
        while i < self.args.len()
            invariant
                i <= self.args@.len(),
                args@.len() == i,
                forall|j: int| 0 <= j < i ==> (#[trigger] args@[j]).view() == self.args@[j].view(),
            decreases self.args@.len() - i,
        {
            args.push(self.args[i].duplicate());
            i = i + 1;
        }
        let mut props: Vec<(String, JsonArg)> = Vec::new();
        let mut i: usize = 0;
        while i < self.props.len()
            invariant
                i <= self.props@.len(),
                props@.len() == i,
                forall|j: int| 0 <= j < i ==> (#[trigger] props@[j]).0@ == self.props@[j].0@
                    && props@[j].1.view() == self.props@[j].1.view(),
            decreases self.props@.len() - i,
        {
            props.push((self.props[i].0.clone(), self.props[i].1.duplicate()));
            i = i + 1;
        }
        assert(json_args_view(args@) =~= json_args_view(self.args@));
        assert(json_props_view(props@) =~= json_props_view(self.props@));
        ActionNode { name: self.name.clone(), args, props }
    }

    /// The action held by a KDL node (its children, if any, are not part of it).
    pub fn from_kdl(n: &Node) -> (r: ActionNode)
        ensures
            r.view() == action_of(n.view()),
    {
        let mut args: Vec<JsonArg> = Vec::new();
        let mut i: usize = 0;
        while i < n.args.len()
            invariant
                i <= n.args@.len(),
                args@.len() == i,
                forall|j: int| 0 <= j < i ==> (#[trigger] args@[j]).view() == n.args@[j].view(),
            decreases n.args@.len() - i,
        {
            args.push(JsonArg::from(&n.args[i]));
            i = i + 1;
        }
        let mut props: Vec<(String, JsonArg)> = Vec::new();
        let mut i: usize = 0;
        while i < n.props.len()
            invariant
                i <= n.props@.len(),
                props@.len() == i,
                forall|j: int| 0 <= j < i ==> (#[trigger] props@[j]).0@ == n.props@[j].0@
                    && props@[j].1.view() == n.props@[j].1.view(),
            decreases n.props@.len() - i,
        {
            props.push((n.props[i].0.clone(), JsonArg::from(&n.props[i].1)));
            i = i + 1;
        }
        assert(json_args_view(args@) =~= n.view().args);
        assert(json_props_view(props@) =~= n.view().props);
        ActionNode { name: n.name.clone(), args, props }
    }

    /// The childless KDL node for this action.
    pub fn to_kdl(&self) -> (r: Node)
        ensures
            r.view() == action_node(self.view()),
    {
        let mut props: Vec<(String, Arg)> = Vec::new();
        let mut i: usize = 0;
        while i < self.props.len()
            invariant
                i <= self.props@.len(),
                props@.len() == i,
                forall|j: int| 0 <= j < i ==> (#[trigger] props@[j]).0@ == self.props@[j].0@
                    && props@[j].1.view() == self.props@[j].1.view(),
            decreases self.props@.len() - i,
        {
            props.push((self.props[i].0.clone(), Arg::from(&self.props[i].1)));
            i = i + 1;
        }
        let mut args: Vec<Arg> = Vec::new();
        let mut i: usize = 0;
        while i < self.args.len()
            invariant
                i <= self.args@.len(),
                args@.len() == i,
                forall|j: int| 0 <= j < i ==> (#[trigger] args@[j]).view() == self.args@[j].view(),
            decreases self.args@.len() - i,
        {
            args.push(Arg::from(&self.args[i]));
            i = i + 1;
        }
        assert(crate::kdl::args_view(args@) =~= self.view().args);
        assert(crate::kdl::props_view(props@) =~= self.view().props);
        let r = Node { name: self.name.clone(), props, args, children: Vec::new() };
        assert(r.view().children =~= seq![]);
        r
    }

    /// Short human label, e.g. `spawn foot -e htop` or `toggle-overview`.
    pub fn label(&self) -> (s: String)
        ensures
            s@ == action_label(self.view()),
    {
        let ghost v = self.view();
        let mut s = self.name.clone();
        let mut i: usize = 0;
        while i < self.args.len()
            invariant
                v == self.view(),
                i <= self.args@.len(),
                s@ == v.name + args_label(v.args.take(i as int)),
            decreases self.args@.len() - i,
        {
            push_char(&mut s, ' ');
            push_str(&mut s, self.args[i].text());
            assert(v.args.take(i + 1).drop_last() =~= v.args.take(i as int));
            i = i + 1;
        }
        assert(v.args.take(self.args@.len() as int) =~= v.args);
        let ghost s0 = s@;
        let mut i: usize = 0;
        while i < self.props.len()
            invariant
                v == self.view(),
                i <= self.props@.len(),
                s@ == s0 + props_label(v.props.take(i as int)),
            decreases self.props@.len() - i,
        {
            push_char(&mut s, ' ');
            push_str(&mut s, self.props[i].0.as_str());
            push_char(&mut s, '=');
            push_str(&mut s, self.props[i].1.text());
            assert(v.props.take(i + 1).drop_last() =~= v.props.take(i as int));
            i = i + 1;
        }
        assert(v.props.take(self.props@.len() as int) =~= v.props);
        s
    }
}

/// The value of an [`ActionValue`].
pub enum ActionValueV {
    Unbound,
    Node(ActionNodeV),
    Raw(Seq<char>),
}

/// What a gesture slot does.
#[derive(PartialEq, Debug)]
pub enum ActionValue {
    /// Unbound (node omitted; falls back to built-in behavior, if any).
    Unbound,
    /// A single niri action node.
    Node(Box<ActionNode>),
    /// Something we can't cleanly model (multiple action nodes, unexpected
    /// shape). Kept verbatim so saving never destroys it.
    Raw { kdl: String },
}

impl ActionValue {
    pub open spec fn view(&self) -> ActionValueV {
        match self {
            ActionValue::Unbound => ActionValueV::Unbound,
            ActionValue::Node(n) => ActionValueV::Node(n.view()),
            ActionValue::Raw { kdl } => ActionValueV::Raw(kdl@),
        }
    }

    /// A copy with the same value.
    pub fn duplicate(&self) -> (r: ActionValue)
        ensures
            r.view() == self.view(),
    {
        match self {
            ActionValue::Unbound => ActionValue::Unbound,
            ActionValue::Node(n) => ActionValue::Node(Box::new(n.duplicate())),
            ActionValue::Raw { kdl } => ActionValue::Raw { kdl: kdl.clone() },
        }
    }

    /// Whether the slot is bound at all.
    pub fn is_none(&self) -> (b: bool)
        ensures
            b == (self.view() is Unbound),
    {
        match self {
            ActionValue::Unbound => true,
            _ => false,
        }
    }

    /// Short label: the action's label, `(custom KDL)` for raw text, nothing
    /// when unbound.
    pub fn label(&self) -> (r: Option<String>)
        ensures
            match self.view() {
                ActionValueV::Unbound => r is None,
                ActionValueV::Node(a) => r is Some && r->0@ == action_label(a),
                ActionValueV::Raw(_) => r is Some && r->0@ == "(custom KDL)"@,
            },
    {
        match self {
            ActionValue::Unbound => None,
            ActionValue::Node(n) => Some(n.label()),
            ActionValue::Raw { .. } => Some(owned("(custom KDL)")),
        }
    }

    /// A bare action without arguments, e.g. `maximize-column`.
    pub fn simple(name: &str) -> (r: ActionValue)
        ensures
            r.view() == ActionValueV::Node(ActionNodeV { name: name@, args: seq![], props: seq![] }),
    {
        let n = ActionNode { name: owned(name), args: Vec::new(), props: Vec::new() };
        assert(n.view().args =~= seq![]);
        assert(n.view().props =~= seq![]);
        ActionValue::Node(Box::new(n))
    }

    /// `spawn` with each word of the command as a quoted argument.
    pub fn spawn(command: &[String]) -> (r: ActionValue)
        ensures
            r.view() == ActionValueV::Node(
                ActionNodeV {
                    name: "spawn"@,
                    args: Seq::new(command@.len(), |i: int| ArgV::Str(command@[i]@)),
                    props: seq![],
                },
            ),
    {
        let mut args: Vec<JsonArg> = Vec::new();
        let mut i: usize = 0;
        while i < command.len()
            invariant
                i <= command@.len(),
                args@.len() == i,
                forall|j: int| 0 <= j < i ==> (#[trigger] args@[j]).view() == ArgV::Str(command@[j]@),
            decreases command@.len() - i,
        {
            args.push(JsonArg::Str(command[i].clone()));
            i = i + 1;
        }
        assert(json_args_view(args@) =~= Seq::new(command@.len(), |j: int| ArgV::Str(command@[j]@)));
        let n = ActionNode { name: owned("spawn"), args, props: Vec::new() };
        assert(n.view().props =~= seq![]);
        ActionValue::Node(Box::new(n))
    }

    /// `spawn-sh` with the whole command line as one quoted argument.
    pub fn spawn_sh(line: &str) -> (r: ActionValue)
        ensures
            r.view() == ActionValueV::Node(
                ActionNodeV { name: "spawn-sh"@, args: seq![ArgV::Str(line@)], props: seq![] },
            ),
    {
        let mut args: Vec<JsonArg> = Vec::new();
        args.push(JsonArg::Str(owned(line)));
        let n = ActionNode { name: owned("spawn-sh"), args, props: Vec::new() };
        assert(n.view().args =~= seq![ArgV::Str(line@)]);
        assert(n.view().props =~= seq![]);
        ActionValue::Node(Box::new(n))
    }
}

impl Clone for ActionValue {
    fn clone(&self) -> (r: ActionValue)
        ensures
            r.view() == self.view(),
    {
        self.duplicate()
    }
}

/// What a horizontal multi-finger swipe does.
#[derive(Clone, Copy, PartialEq, Eq, Structural, Debug)]
pub enum HorizontalSwipe {
    MoveView,
    ResizeColumn,
}

impl Default for HorizontalSwipe {
    fn default() -> (r: HorizontalSwipe)
        ensures
            r == HorizontalSwipe::MoveView,
    {
        HorizontalSwipe::MoveView
    }
}

/// Which touches niri draws on screen.
#[derive(Clone, Copy, PartialEq, Eq, Structural, Debug)]
pub enum ShowTouchPoints {
    Off,
    Gestures,
    All,
}

impl Default for ShowTouchPoints {
    fn default() -> (r: ShowTouchPoints)
        ensures
            r == ShowTouchPoints::Off,
    {
        ShowTouchPoints::Off
    }
}

/// The mode options of the `gestures` block.
#[derive(Clone, Copy, PartialEq, Eq, Structural, Debug)]
pub struct Options {
    /// `off` inside touchscreen-swipe: disables the multi-finger stack.
    pub off: bool,
    /// `fingers N` (base finger count, 3 or 4; None = compiled default 3).
    pub fingers: Option<u8>,
    pub horizontal_swipe: HorizontalSwipe,
    pub show_touch_points: ShowTouchPoints,
    pub debug_log: bool,
}

pub open spec fn default_options() -> Options {
    Options {
        off: false,
        fingers: None,
        horizontal_swipe: HorizontalSwipe::MoveView,
        show_touch_points: ShowTouchPoints::Off,
        debug_log: false,
    }
}

impl Default for Options {
    fn default() -> (r: Options)
        ensures
            r == default_options(),
    {
        Options {
            off: false,
            fingers: None,
            horizontal_swipe: HorizontalSwipe::MoveView,
            show_touch_points: ShowTouchPoints::Off,
            debug_log: false,
        }
    }
}

/// The value of a [`GestureModel`].
pub struct ModelV {
    pub slots: Seq<ActionValueV>,
    pub options: Options,
    pub passthrough: Seq<Seq<char>>,
    pub swipe_kept: Seq<Seq<char>>,
    pub hold_kept: Seq<Seq<char>>,
    pub edge_kept: Seq<Seq<char>>,
    pub corner_kept: Seq<Seq<char>>,
    pub warnings: Seq<Seq<char>>,
}

/// The block below `gestures` an unmodeled node was found in, and is
/// written back to.
#[derive(Clone, Copy, PartialEq, Eq, Structural, Debug)]
pub enum KeptIn {
    Swipe,
    Hold,
    Edge,
    Corner,
}

pub open spec fn values_view(v: Seq<ActionValue>) -> Seq<ActionValueV> {
    Seq::new(v.len(), |i: int| v[i].view())
}

pub open spec fn strings_view(v: Seq<String>) -> Seq<Seq<char>> {
    Seq::new(v.len(), |i: int| v[i]@)
}

/// Everything the app manages inside one `gestures {}` node.
///
/// `slots` holds one value per [`Slot`], at the slot's display index.
#[derive(PartialEq, Debug)]
pub struct GestureModel {
    pub slots: Vec<ActionValue>,
    pub options: Options,
    /// Unmodeled child nodes (hot-corners, dnd-edge-*, anything new),
    /// preserved structurally on save.
    pub passthrough: Vec<String>,
    /// Unmodeled children of `touchscreen-swipe`, written back there.
    pub swipe_kept: Vec<String>,
    /// Unmodeled children of `hold`, written back there.
    pub hold_kept: Vec<String>,
    /// Unmodeled children of `touchscreen-edge-swipe`, written back there.
    pub edge_kept: Vec<String>,
    /// Unmodeled children of `touchscreen-corner-swipe`, written back there.
    pub corner_kept: Vec<String>,
    /// Notes for the user gathered while parsing (legacy names migrated,
    /// invalid values reset). Cleared on every re-parse; shown as banners.
    pub warnings: Vec<String>,
}

/// The model with every slot unbound and default options.
pub open spec fn default_model() -> ModelV {
    ModelV {
        slots: Seq::new(16, |i: int| ActionValueV::Unbound),
        options: default_options(),
        passthrough: seq![],
        swipe_kept: seq![],
        hold_kept: seq![],
        edge_kept: seq![],
        corner_kept: seq![],
        warnings: seq![],
    }
}

/// The value held for `s`.
pub open spec fn slot_value(m: ModelV, s: Slot) -> ActionValueV {
    m.slots[slot_index(s)]
}

/// `m` with slot `s` bound to `v`.
pub open spec fn with_slot(m: ModelV, s: Slot, v: ActionValueV) -> ModelV {
    ModelV { slots: m.slots.update(slot_index(s), v), ..m }
}

impl GestureModel {
    pub open spec fn view(&self) -> ModelV {
        ModelV {
            slots: values_view(self.slots@),
            options: self.options,
            passthrough: strings_view(self.passthrough@),
            swipe_kept: strings_view(self.swipe_kept@),
            hold_kept: strings_view(self.hold_kept@),
            edge_kept: strings_view(self.edge_kept@),
            corner_kept: strings_view(self.corner_kept@),
            warnings: strings_view(self.warnings@),
        }
    }

    /// One value per slot.
    pub open spec fn wf(&self) -> bool {
        self.slots@.len() == SLOT_COUNT
    }

    pub fn get(&self, slot: Slot) -> (r: &ActionValue)
        requires
            self.wf(),
        ensures
            r.view() == slot_value(self.view(), slot),
    {
        &self.slots[slot.index()]
    }

    pub fn set(&mut self, slot: Slot, value: ActionValue)
        requires
            old(self).wf(),
        ensures
            final(self).wf(),
            final(self).view() == with_slot(old(self).view(), slot, value.view()),
    {
        let ghost v = value.view();
        let ghost old_v = self.view();
        let i = slot.index();
        self.slots.set(i, value);
        assert(self.view().slots =~= old_v.slots.update(i as int, v));
        assert(self.view().passthrough =~= old_v.passthrough);
        assert(self.view().swipe_kept =~= old_v.swipe_kept);
        assert(self.view().hold_kept =~= old_v.hold_kept);
        assert(self.view().edge_kept =~= old_v.edge_kept);
        assert(self.view().corner_kept =~= old_v.corner_kept);
        assert(self.view().warnings =~= old_v.warnings);
    }
}

/// A copy of each string, in order.
pub(crate) fn clone_strings(v: &Vec<String>) -> (r: Vec<String>)
    ensures
        strings_view(r@) == strings_view(v@),
{
    let mut out: Vec<String> = Vec::new();
    let mut i: usize = 0;
    while i < v.len()
        invariant
            i <= v@.len(),
            out@.len() == i,
            forall|j: int| 0 <= j < i ==> (#[trigger] out@[j])@ == v@[j]@,
        decreases v@.len() - i,
    {
        out.push(v[i].clone());
        i = i + 1;
    }
    assert(strings_view(out@) =~= strings_view(v@));
    out
}

impl GestureModel {
    /// A copy with the same value.
    pub fn duplicate(&self) -> (r: GestureModel)
        ensures
            r.view() == self.view(),
            self.wf() ==> r.wf(),
    {
        let mut slots: Vec<ActionValue> = Vec::new();
        let mut i: usize = 0;
        while i < self.slots.len()
            invariant
                i <= self.slots@.len(),
                slots@.len() == i,
                forall|j: int| 0 <= j < i ==> (#[trigger] slots@[j]).view() == self.slots@[j].view(),
            decreases self.slots@.len() - i,
        {
            slots.push(self.slots[i].duplicate());
            i = i + 1;
        }
        let r = GestureModel {
            slots,
            options: self.options,
            passthrough: clone_strings(&self.passthrough),
            swipe_kept: clone_strings(&self.swipe_kept),
            hold_kept: clone_strings(&self.hold_kept),
            edge_kept: clone_strings(&self.edge_kept),
            corner_kept: clone_strings(&self.corner_kept),
            warnings: clone_strings(&self.warnings),
        };
        assert(r.view().slots =~= self.view().slots);
        r
    }
}

impl Clone for GestureModel {
    fn clone(&self) -> (r: GestureModel)
        ensures
            r.view() == self.view(),
            self.wf() ==> r.wf(),
    {
        self.duplicate()
    }
}

impl Default for GestureModel {
    fn default() -> (r: GestureModel)
        ensures
            r.wf(),
            r.view() == default_model(),
    {
        let mut slots: Vec<ActionValue> = Vec::new();
        let mut i: usize = 0;
        while i < SLOT_COUNT
            invariant
                i <= SLOT_COUNT,
                slots@.len() == i,
                forall|j: int| 0 <= j < i ==> (#[trigger] slots@[j]).view() is Unbound,
            decreases SLOT_COUNT - i,
        {
            slots.push(ActionValue::Unbound);
            i = i + 1;
        }
        let r = GestureModel {
            slots,
            options: Options::default(),
            passthrough: Vec::new(),
            swipe_kept: Vec::new(),
            hold_kept: Vec::new(),
            edge_kept: Vec::new(),
            corner_kept: Vec::new(),
            warnings: Vec::new(),
        };
        assert(r.view().slots =~= default_model().slots);
        assert(r.view().passthrough =~= seq![]);
        assert(r.view().swipe_kept =~= seq![]);
        assert(r.view().hold_kept =~= seq![]);
        assert(r.view().edge_kept =~= seq![]);
        assert(r.view().corner_kept =~= seq![]);
        assert(r.view().warnings =~= seq![]);
        r
    }
}


// ---------------------------------------------------------------------------
// Reading a `gestures` node.
// ---------------------------------------------------------------------------

/// Value of a run of ASCII digits.
pub open spec fn digits_value(s: Seq<char>) -> nat
    decreases s.len(),
{
    if s.len() == 0 {
        0
    } else {
        digits_value(s.drop_last()) * 10 + ((s.last() as nat) - 48) as nat
    }
}

pub open spec fn all_digits(s: Seq<char>) -> bool {
    forall|i: int| 0 <= i < s.len() ==> crate::text::is_ascii_digit(#[trigger] s[i])
}

/// What `str::parse::<u8>` accepts: an optional `+`, then one or more ASCII
/// digits whose value fits in a `u8` (leading zeros allowed).
pub open spec fn parse_u8_spec(s: Seq<char>) -> Option<u8> {
    let d = if s.len() > 0 && s[0] == '+' { s.drop_first() } else { s };
    if d.len() > 0 && all_digits(d) && digits_value(d) <= 255 {
        Some(digits_value(d) as u8)
    } else {
        None
    }
}

/// Parses a decimal `u8` the way `str::parse::<u8>` does.
pub fn parse_u8(text: &str) -> (r: Option<u8>)
    ensures
        r == parse_u8_spec(text@),
{
    let cs = crate::text::chars_of(text);
    let start: usize = if cs.len() > 0 && cs[0] == '+' { 1 } else { 0 };
    let ghost d = if text@.len() > 0 && text@[0] == '+' { text@.drop_first() } else { text@ };
    assert(d == cs@.skip(start as int));
    if start >= cs.len() {
        return None;
    }
    let mut acc: u32 = 0;
    let mut i: usize = start;
    while i < cs.len()
        invariant
            start <= i <= cs@.len(),
            cs@ == text@,
            d == cs@.skip(start as int),
            d == (if text@.len() > 0 && text@[0] == '+' { text@.drop_first() } else { text@ }),
            all_digits(cs@.subrange(start as int, i as int)),
            acc as nat == if digits_value(cs@.subrange(start as int, i as int)) < 256 {
                digits_value(cs@.subrange(start as int, i as int))
            } else {
                256
            },
        decreases cs@.len() - i,
    {
        let c = cs[i];
        if !crate::text::ascii_digit(c) {
            assert(d[i - start] == c);
            assert(!crate::text::is_ascii_digit(d[i - start]));
            return None;
        }
        let ghost pre = cs@.subrange(start as int, i as int);
        let ghost next = cs@.subrange(start as int, i + 1);
        assert(next.drop_last() =~= pre);
        assert(next.last() == c);
        let dv: u32 = (c as u32) - 48;
        if acc >= 256 {
            acc = 256;
        } else {
            let v = acc * 10 + dv;
            acc = if v < 256 { v } else { 256 };
        }
        i = i + 1;
    }
    assert(cs@.subrange(start as int, cs@.len() as int) =~= d);
    if acc < 256 {
        Some(acc as u8)
    } else {
        None
    }
}

/// `m` with a warning added.
pub open spec fn warn(m: ModelV, w: Seq<char>) -> ModelV {
    ModelV { warnings: m.warnings.push(w), ..m }
}

/// `m` with an unmodeled node's text kept.
pub open spec fn keep(m: ModelV, text: Seq<char>) -> ModelV {
    ModelV { passthrough: m.passthrough.push(text), ..m }
}

/// `m` with an unmodeled node's text kept for the block `b`.
pub open spec fn keep_in(m: ModelV, b: KeptIn, text: Seq<char>) -> ModelV {
    match b {
        KeptIn::Swipe => ModelV { swipe_kept: m.swipe_kept.push(text), ..m },
        KeptIn::Hold => ModelV { hold_kept: m.hold_kept.push(text), ..m },
        KeptIn::Edge => ModelV { edge_kept: m.edge_kept.push(text), ..m },
        KeptIn::Corner => ModelV { corner_kept: m.corner_kept.push(text), ..m },
    }
}

/// The block whose unmodeled children a directional slot list keeps.
pub open spec fn directional_block(slots: Seq<Slot>) -> KeptIn {
    if slots == edge_slots() {
        KeptIn::Edge
    } else {
        KeptIn::Corner
    }
}

pub open spec fn with_options(m: ModelV, o: Options) -> ModelV {
    ModelV { options: o, ..m }
}

/// What one slot wrapper node (`tap { ... }`, `bottom { ... }`) holds.
/// Anything but a single childless action node is kept as raw text.
pub open spec fn slot_action_of(w: NodeV) -> ActionValueV {
    if w.args.len() > 0 || w.props.len() > 0 {
        ActionValueV::Raw(crate::kdl::render(w, 0))
    } else if w.children.len() == 0 {
        ActionValueV::Unbound
    } else if w.children.len() == 1 && w.children[0].children.len() == 0 {
        ActionValueV::Node(action_of(w.children[0]))
    } else {
        ActionValueV::Raw(crate::kdl::render(w, 0))
    }
}

/// The first argument's text, if there is one.
pub open spec fn first_arg_text(c: NodeV) -> Option<Seq<char>> {
    if c.args.len() > 0 {
        Some(c.args[0].text())
    } else {
        None
    }
}

pub open spec fn read_show_touch_points(m: ModelV, c: NodeV) -> Result<ModelV, Seq<char>> {
    match first_arg_text(c) {
        None => Err("show-touch-points needs a value"@),
        Some(v) => if v == "all"@ {
            Ok(with_options(m, Options { show_touch_points: ShowTouchPoints::All, ..m.options }))
        } else if v == "gestures"@ {
            Ok(with_options(m, Options { show_touch_points: ShowTouchPoints::Gestures, ..m.options }))
        } else {
            Err("unknown show-touch-points value "@ + crate::kdl::str_debug(v))
        },
    }
}

pub open spec fn read_horizontal_swipe(m: ModelV, c: NodeV) -> Result<ModelV, Seq<char>> {
    match first_arg_text(c) {
        None => Err("horizontal-swipe needs a value"@),
        Some(v) => if v == "move-view"@ {
            Ok(with_options(m, Options { horizontal_swipe: HorizontalSwipe::MoveView, ..m.options }))
        } else if v == "resize-column"@ {
            Ok(with_options(m, Options { horizontal_swipe: HorizontalSwipe::ResizeColumn, ..m.options }))
        } else {
            Err("unknown horizontal-swipe value "@ + crate::kdl::str_debug(v))
        },
    }
}

pub open spec fn fingers_warning(n: u8) -> Seq<char> {
    "fingers "@ + crate::text::decimal(n as nat) + " is not valid (3 or 4); using the default 3 until you save"@
}

pub open spec fn read_fingers(m: ModelV, c: NodeV) -> Result<ModelV, Seq<char>> {
    let parsed = match first_arg_text(c) {
        Some(t) => parse_u8_spec(t),
        None => None,
    };
    match parsed {
        None => Err("fingers needs a number"@),
        Some(n) => if n == 3 || n == 4 {
            Ok(with_options(m, Options { fingers: Some(n), ..m.options }))
        } else {
            Ok(warn(with_options(m, Options { fingers: None, ..m.options }), fingers_warning(n)))
        },
    }
}

/// A node under a legacy name: fills the renamed slot unless it is already
/// bound, and leaves a note.
pub open spec fn read_legacy(m: ModelV, s: Slot, c: NodeV, note: Seq<char>) -> ModelV {
    let m1 = if slot_value(m, s) is Unbound { with_slot(m, s, slot_action_of(c)) } else { m };
    warn(m1, note)
}

pub open spec fn hold_child(m: ModelV, d: NodeV) -> ModelV {
    if d.name == "left"@ {
        with_slot(m, Slot::HoldLeft, slot_action_of(d))
    } else if d.name == "right"@ {
        with_slot(m, Slot::HoldRight, slot_action_of(d))
    } else if d.name == "up"@ {
        with_slot(m, Slot::HoldUp, slot_action_of(d))
    } else if d.name == "down"@ {
        with_slot(m, Slot::HoldDown, slot_action_of(d))
    } else {
        keep_in(m, KeptIn::Hold, crate::kdl::render(d, 2))
    }
}

/// Reads the direction nodes of a `hold` block, in order.
pub open spec fn read_hold(m: ModelV, ds: Seq<NodeV>) -> ModelV
    decreases ds.len(),
{
    if ds.len() == 0 {
        m
    } else {
        read_hold(hold_child(m, ds[0]), ds.drop_first())
    }
}

/// The first of `slots` whose key is `name`.
pub open spec fn slot_named(slots: Seq<Slot>, name: Seq<char>) -> Option<Slot>
    decreases slots.len(),
{
    if slots.len() == 0 {
        None
    } else if slot_id(slots[0]) == name {
        Some(slots[0])
    } else {
        slot_named(slots.drop_first(), name)
    }
}

pub open spec fn edge_slots() -> Seq<Slot> {
    seq![Slot::EdgeBottom, Slot::EdgeTop, Slot::EdgeLeft, Slot::EdgeRight]
}

pub open spec fn corner_slots() -> Seq<Slot> {
    seq![Slot::CornerTopLeft, Slot::CornerTopRight, Slot::CornerBottomLeft, Slot::CornerBottomRight]
}

pub open spec fn directional_child(m: ModelV, c: NodeV, slots: Seq<Slot>) -> ModelV {
    match slot_named(slots, c.name) {
        Some(s) => with_slot(m, s, slot_action_of(c)),
        None => keep_in(m, directional_block(slots), crate::kdl::render(c, 2)),
    }
}

/// Reads an edge or corner block's children, in order.
pub open spec fn read_directional(m: ModelV, cs: Seq<NodeV>, slots: Seq<Slot>) -> ModelV
    decreases cs.len(),
{
    if cs.len() == 0 {
        m
    } else {
        read_directional(directional_child(m, cs[0], slots), cs.drop_first(), slots)
    }
}

/// One child of `touchscreen-swipe`.
pub open spec fn swipe_child(m: ModelV, c: NodeV) -> Result<ModelV, Seq<char>> {
    if c.name == "off"@ {
        Ok(with_options(m, Options { off: true, ..m.options }))
    } else if c.name == "fingers"@ {
        read_fingers(m, c)
    } else if c.name == "horizontal-swipe"@ {
        read_horizontal_swipe(m, c)
    } else if c.name == "tap"@ {
        Ok(with_slot(m, Slot::Tap, slot_action_of(c)))
    } else if c.name == "tap-more"@ {
        Ok(with_slot(m, Slot::TapMore, slot_action_of(c)))
    } else if c.name == "swipe-more-up"@ {
        Ok(with_slot(m, Slot::SwipeMoreUp, slot_action_of(c)))
    } else if c.name == "swipe-more-down"@ {
        Ok(with_slot(m, Slot::SwipeMoreDown, slot_action_of(c)))
    } else if c.name == "tap-4"@ {
        Ok(read_legacy(m, Slot::TapMore, c, "tap-4 was renamed tap-more; saving writes the new name"@))
    } else if c.name == "swipe-4-up"@ {
        Ok(read_legacy(m, Slot::SwipeMoreUp, c, "swipe-4-up was renamed swipe-more-up; saving writes the new name"@))
    } else if c.name == "swipe-4-down"@ {
        Ok(read_legacy(m, Slot::SwipeMoreDown, c, "swipe-4-down was renamed swipe-more-down; saving writes the new name"@))
    } else if c.name == "hold"@ {
        Ok(read_hold(m, c.children))
    } else {
        Ok(keep_in(m, KeptIn::Swipe, crate::kdl::render(c, 2)))
    }
}

/// Reads the children of `touchscreen-swipe`, in order; the first error ends it.
pub open spec fn read_swipe(m: ModelV, cs: Seq<NodeV>) -> Result<ModelV, Seq<char>>
    decreases cs.len(),
{
    if cs.len() == 0 {
        Ok(m)
    } else {
        match swipe_child(m, cs[0]) {
            Ok(m2) => read_swipe(m2, cs.drop_first()),
            Err(e) => Err(e),
        }
    }
}

/// One child of `gestures`.
pub open spec fn gestures_child(m: ModelV, c: NodeV) -> Result<ModelV, Seq<char>> {
    if c.name == "show-touch-points"@ {
        read_show_touch_points(m, c)
    } else if c.name == "debug-log"@ {
        Ok(with_options(m, Options { debug_log: true, ..m.options }))
    } else if c.name == "touchscreen-swipe"@ {
        read_swipe(m, c.children)
    } else if c.name == "touchscreen-edge-swipe"@ {
        Ok(read_directional(m, c.children, edge_slots()))
    } else if c.name == "touchscreen-corner-swipe"@ {
        Ok(read_directional(m, c.children, corner_slots()))
    } else {
        Ok(keep(m, crate::kdl::render(c, 1)))
    }
}

/// Reads the children of `gestures`, in order; the first error ends it.
pub open spec fn read_gestures_from(m: ModelV, cs: Seq<NodeV>) -> Result<ModelV, Seq<char>>
    decreases cs.len(),
{
    if cs.len() == 0 {
        Ok(m)
    } else {
        match gestures_child(m, cs[0]) {
            Ok(m2) => read_gestures_from(m2, cs.drop_first()),
            Err(e) => Err(e),
        }
    }
}

/// The model a `gestures` node describes, or the first problem found in it.
pub open spec fn read_gestures(g: NodeV) -> Result<ModelV, Seq<char>> {
    read_gestures_from(default_model(), g.children)
}

/// Exec outcome `r` of a step that may fail, against the spec outcome `s`.
pub open spec fn step_matches(r: Result<(), String>, before: ModelV, after: GestureModel, s: Result<ModelV, Seq<char>>) -> bool {
    match s {
        Ok(m) => r is Ok && after.view() == m && after.wf(),
        Err(e) => r is Err && r->Err_0@ == e,
    }
}

fn add_warning(model: &mut GestureModel, w: String)
    requires
        old(model).wf(),
    ensures
        final(model).wf(),
        final(model).view() == warn(old(model).view(), w@),
{
    let ghost old_v = model.view();
    model.warnings.push(w);
    assert(model.view().warnings =~= old_v.warnings.push(w@));
    assert(model.view().slots =~= old_v.slots);
    assert(model.view().passthrough =~= old_v.passthrough);
    assert(model.view().swipe_kept =~= old_v.swipe_kept);
    assert(model.view().hold_kept =~= old_v.hold_kept);
    assert(model.view().edge_kept =~= old_v.edge_kept);
    assert(model.view().corner_kept =~= old_v.corner_kept);
}

fn add_passthrough(model: &mut GestureModel, text: String)
    requires
        old(model).wf(),
    ensures
        final(model).wf(),
        final(model).view() == keep(old(model).view(), text@),
{
    let ghost old_v = model.view();
    model.passthrough.push(text);
    assert(model.view().passthrough =~= old_v.passthrough.push(text@));
    assert(model.view().slots =~= old_v.slots);
    assert(model.view().swipe_kept =~= old_v.swipe_kept);
    assert(model.view().hold_kept =~= old_v.hold_kept);
    assert(model.view().edge_kept =~= old_v.edge_kept);
    assert(model.view().corner_kept =~= old_v.corner_kept);
    assert(model.view().warnings =~= old_v.warnings);
}

fn add_kept(model: &mut GestureModel, b: KeptIn, text: String)
    requires
        old(model).wf(),
    ensures
        final(model).wf(),
        final(model).view() == keep_in(old(model).view(), b, text@),
{
    let ghost old_v = model.view();
    match b {
        KeptIn::Swipe => model.swipe_kept.push(text),
        KeptIn::Hold => model.hold_kept.push(text),
        KeptIn::Edge => model.edge_kept.push(text),
        KeptIn::Corner => model.corner_kept.push(text),
    }
    assert(model.view().slots =~= old_v.slots);
    assert(model.view().passthrough =~= old_v.passthrough);
    assert(model.view().warnings =~= old_v.warnings);
    match b {
        KeptIn::Swipe => {
            assert(model.view().swipe_kept =~= old_v.swipe_kept.push(text@));
            assert(model.view().hold_kept =~= old_v.hold_kept);
            assert(model.view().edge_kept =~= old_v.edge_kept);
            assert(model.view().corner_kept =~= old_v.corner_kept);
        },
        KeptIn::Hold => {
            assert(model.view().swipe_kept =~= old_v.swipe_kept);
            assert(model.view().hold_kept =~= old_v.hold_kept.push(text@));
            assert(model.view().edge_kept =~= old_v.edge_kept);
            assert(model.view().corner_kept =~= old_v.corner_kept);
        },
        KeptIn::Edge => {
            assert(model.view().swipe_kept =~= old_v.swipe_kept);
            assert(model.view().hold_kept =~= old_v.hold_kept);
            assert(model.view().edge_kept =~= old_v.edge_kept.push(text@));
            assert(model.view().corner_kept =~= old_v.corner_kept);
        },
        KeptIn::Corner => {
            assert(model.view().swipe_kept =~= old_v.swipe_kept);
            assert(model.view().hold_kept =~= old_v.hold_kept);
            assert(model.view().edge_kept =~= old_v.edge_kept);
            assert(model.view().corner_kept =~= old_v.corner_kept.push(text@));
        },
    }
}

/// Read one slot wrapper node (`tap { ... }`, `bottom { ... }`) into an
/// ActionValue. Anything unexpected becomes Raw passthrough.
fn slot_action(wrapper: &Node) -> (r: ActionValue)
    ensures
        r.view() == slot_action_of(wrapper.view()),
{
    if wrapper.args.len() > 0 || wrapper.props.len() > 0 {
        return ActionValue::Raw { kdl: wrapper.render(0) };
    }
    let ghost w = wrapper.view();
    assert(w.children.len() == wrapper.children@.len());
    if wrapper.children.len() > 0 {
        assert(w.children[0] == wrapper.children@[0].view());
    }
    if wrapper.children.len() == 0 {
        ActionValue::Unbound
    } else if wrapper.children.len() == 1 && wrapper.children[0].children.len() == 0 {
        assert(w.children[0] == wrapper.children@[0].view());
        assert(w.children[0].children.len() == 0);
        ActionValue::Node(Box::new(ActionNode::from_kdl(&wrapper.children[0])))
    } else {
        ActionValue::Raw { kdl: wrapper.render(0) }
    }
}

fn first_arg(c: &Node) -> (r: Option<&str>)
    ensures
        match first_arg_text(c.view()) {
            Some(t) => r is Some && r->0@ == t,
            None => r is None,
        },
{
    if c.args.len() > 0 {
        Some(c.args[0].text())
    } else {
        None
    }
}

fn find_slot(slots: &[Slot], name: &str) -> (r: Option<Slot>)
    ensures
        r == slot_named(slots@, name@),
{
    assert(slots@.skip(0) =~= slots@);
    let mut k: usize = 0;
    while k < slots.len()
        invariant
            k <= slots@.len(),
            slot_named(slots@.skip(k as int), name@) == slot_named(slots@, name@),
        decreases slots@.len() - k,
    {
        assert(slots@.skip(k as int)[0] == slots@[k as int]);
        assert(slots@.skip(k as int).drop_first() =~= slots@.skip(k + 1));
        if crate::text::str_eq(slots[k].id(), name) {
            return Some(slots[k]);
        }
        k = k + 1;
    }
    None
}

impl GestureModel {
    /// Extract a GestureModel from a parsed `gestures` node.
    pub fn from_gestures_node(g: &Node) -> (r: Result<GestureModel, String>)
        ensures
            match r {
                Ok(m) => m.wf() && read_gestures(g.view()) == Ok::<ModelV, Seq<char>>(m.view()),
                Err(e) => read_gestures(g.view()) == Err::<ModelV, Seq<char>>(e@),
            },
    {
        let mut model = GestureModel::default();
        let ghost cs = g.view().children;
        assert(cs.skip(0) =~= cs);
        let mut i: usize = 0;
        while i < g.children.len()
            invariant
                model.wf(),
                i <= g.children@.len(),
                cs == g.view().children,
                cs.len() == g.children@.len(),
                read_gestures_from(model.view(), cs.skip(i as int)) == read_gestures(g.view()),
            decreases g.children@.len() - i,
        {
            assert(cs.skip(i as int)[0] == g.children@[i as int].view());
            assert(cs.skip(i as int).drop_first() =~= cs.skip(i + 1));
            let r = Self::read_gestures_child(&mut model, &g.children[i]);
            match r {
                Ok(()) => {},
                Err(e) => {
                    return Err(e);
                },
            }
            i = i + 1;
        }
        assert(cs.skip(i as int) =~= seq![]);
        Ok(model)
    }

    fn read_gestures_child(model: &mut GestureModel, child: &Node) -> (r: Result<(), String>)
        requires
            old(model).wf(),
        ensures
            step_matches(r, old(model).view(), *final(model), gestures_child(old(model).view(), child.view())),
    {
        let name = child.name.as_str();
        if crate::text::str_eq(name, "show-touch-points") {
            match first_arg(child) {
                None => Err(owned("show-touch-points needs a value")),
                Some(v) => {
                    if crate::text::str_eq(v, "all") {
                        model.options.show_touch_points = ShowTouchPoints::All;
                        Ok(())
                    } else if crate::text::str_eq(v, "gestures") {
                        model.options.show_touch_points = ShowTouchPoints::Gestures;
                        Ok(())
                    } else {
                        let mut e = owned("unknown show-touch-points value ");
                        let d = crate::kdl::debug_text(v);
                        push_str(&mut e, d.as_str());
                        Err(e)
                    }
                },
            }
        } else if crate::text::str_eq(name, "debug-log") {
            model.options.debug_log = true;
            Ok(())
        } else if crate::text::str_eq(name, "touchscreen-swipe") {
            Self::read_touchscreen_swipe(model, child)
        } else if crate::text::str_eq(name, "touchscreen-edge-swipe") {
            let slots: Vec<Slot> = vec![Slot::EdgeBottom, Slot::EdgeTop, Slot::EdgeLeft, Slot::EdgeRight];
            assert(slots@ == edge_slots());
            Self::read_directional(model, child, slots.as_slice(), KeptIn::Edge);
            Ok(())
        } else if crate::text::str_eq(name, "touchscreen-corner-swipe") {
            let slots: Vec<Slot> = vec![
                Slot::CornerTopLeft,
                Slot::CornerTopRight,
                Slot::CornerBottomLeft,
                Slot::CornerBottomRight,
            ];
            assert(slots@ == corner_slots());
            assert(corner_slots()[0] != edge_slots()[0]);
            Self::read_directional(model, child, slots.as_slice(), KeptIn::Corner);
            Ok(())
        } else {
            add_passthrough(model, child.render(1));
            Ok(())
        }
    }

    fn read_touchscreen_swipe(model: &mut GestureModel, ts: &Node) -> (r: Result<(), String>)
        requires
            old(model).wf(),
        ensures
            step_matches(r, old(model).view(), *final(model), read_swipe(old(model).view(), ts.view().children)),
    {
        let ghost cs = ts.view().children;
        let ghost goal = read_swipe(model.view(), cs);
        assert(cs.skip(0) =~= cs);
        let mut i: usize = 0;
        while i < ts.children.len()
            invariant
                model.wf(),
                i <= ts.children@.len(),
                cs == ts.view().children,
                cs.len() == ts.children@.len(),
                read_swipe(model.view(), cs.skip(i as int)) == goal,
                goal == read_swipe(old(model).view(), cs),
            decreases ts.children@.len() - i,
        {
            assert(cs.skip(i as int)[0] == ts.children@[i as int].view());
            assert(cs.skip(i as int).drop_first() =~= cs.skip(i + 1));
            let r = Self::read_swipe_child(model, &ts.children[i]);
            match r {
                Ok(()) => {},
                Err(e) => {
                    return Err(e);
                },
            }
            i = i + 1;
        }
        assert(cs.skip(i as int) =~= seq![]);
        Ok(())
    }

    fn read_swipe_child(model: &mut GestureModel, child: &Node) -> (r: Result<(), String>)
        requires
            old(model).wf(),
        ensures
            step_matches(r, old(model).view(), *final(model), swipe_child(old(model).view(), child.view())),
    {
        let name = child.name.as_str();
        if crate::text::str_eq(name, "off") {
            model.options.off = true;
            Ok(())
        } else if crate::text::str_eq(name, "fingers") {
            let parsed = match first_arg(child) {
                Some(t) => parse_u8(t),
                None => None,
            };
            match parsed {
                None => Err(owned("fingers needs a number")),
                Some(n) => {
                    if n == 3 || n == 4 {
                        model.options.fingers = Some(n);
                    } else {
                        model.options.fingers = None;
                        let mut w = owned("fingers ");
                        let d = crate::text::decimal_string(n as u64);
                        push_str(&mut w, d.as_str());
                        push_str(&mut w, " is not valid (3 or 4); using the default 3 until you save");
                        add_warning(model, w);
                    }
                    Ok(())
                },
            }
        } else if crate::text::str_eq(name, "horizontal-swipe") {
            match first_arg(child) {
                None => Err(owned("horizontal-swipe needs a value")),
                Some(v) => {
                    if crate::text::str_eq(v, "move-view") {
                        model.options.horizontal_swipe = HorizontalSwipe::MoveView;
                        Ok(())
                    } else if crate::text::str_eq(v, "resize-column") {
                        model.options.horizontal_swipe = HorizontalSwipe::ResizeColumn;
                        Ok(())
                    } else {
                        let mut e = owned("unknown horizontal-swipe value ");
                        let d = crate::kdl::debug_text(v);
                        push_str(&mut e, d.as_str());
                        Err(e)
                    }
                },
            }
        } else if crate::text::str_eq(name, "tap") {
            model.set(Slot::Tap, slot_action(child));
            Ok(())
        } else if crate::text::str_eq(name, "tap-more") {
            model.set(Slot::TapMore, slot_action(child));
            Ok(())
        } else if crate::text::str_eq(name, "swipe-more-up") {
            model.set(Slot::SwipeMoreUp, slot_action(child));
            Ok(())
        } else if crate::text::str_eq(name, "swipe-more-down") {
            model.set(Slot::SwipeMoreDown, slot_action(child));
            Ok(())
        } else if crate::text::str_eq(name, "tap-4") {
            // Legacy names from release v26.04.18 and earlier: read as their
            // renamed slots (the new name wins if both appear) and migrate
            // away on save.
            if model.get(Slot::TapMore).is_none() {
                model.set(Slot::TapMore, slot_action(child));
            }
            add_warning(model, owned("tap-4 was renamed tap-more; saving writes the new name"));
            Ok(())
        } else if crate::text::str_eq(name, "swipe-4-up") {
            if model.get(Slot::SwipeMoreUp).is_none() {
                model.set(Slot::SwipeMoreUp, slot_action(child));
            }
            add_warning(model, owned("swipe-4-up was renamed swipe-more-up; saving writes the new name"));
            Ok(())
        } else if crate::text::str_eq(name, "swipe-4-down") {
            if model.get(Slot::SwipeMoreDown).is_none() {
                model.set(Slot::SwipeMoreDown, slot_action(child));
            }
            add_warning(model, owned("swipe-4-down was renamed swipe-more-down; saving writes the new name"));
            Ok(())
        } else if crate::text::str_eq(name, "hold") {
            Self::read_hold(model, child);
            Ok(())
        } else {
            add_kept(model, KeptIn::Swipe, child.render(2));
            Ok(())
        }
    }

    fn read_hold(model: &mut GestureModel, hold: &Node)
        requires
            old(model).wf(),
        ensures
            final(model).wf(),
            final(model).view() == read_hold(old(model).view(), hold.view().children),
    {
        let ghost ds = hold.view().children;
        let ghost goal = read_hold(model.view(), ds);
        assert(ds.skip(0) =~= ds);
        let mut i: usize = 0;
        while i < hold.children.len()
            invariant
                model.wf(),
                i <= hold.children@.len(),
                ds == hold.view().children,
                ds.len() == hold.children@.len(),
                read_hold(model.view(), ds.skip(i as int)) == goal,
            decreases hold.children@.len() - i,
        {
            assert(ds.skip(i as int)[0] == hold.children@[i as int].view());
            assert(ds.skip(i as int).drop_first() =~= ds.skip(i + 1));
            let dir = &hold.children[i];
            let dn = dir.name.as_str();
            if crate::text::str_eq(dn, "left") {
                model.set(Slot::HoldLeft, slot_action(dir));
            } else if crate::text::str_eq(dn, "right") {
                model.set(Slot::HoldRight, slot_action(dir));
            } else if crate::text::str_eq(dn, "up") {
                model.set(Slot::HoldUp, slot_action(dir));
            } else if crate::text::str_eq(dn, "down") {
                model.set(Slot::HoldDown, slot_action(dir));
            } else {
                add_kept(model, KeptIn::Hold, dir.render(2));
            }
            i = i + 1;
        }
        assert(ds.skip(i as int) =~= seq![]);
    }

    fn read_directional(model: &mut GestureModel, parent: &Node, slots: &[Slot], block: KeptIn)
        requires
            old(model).wf(),
            block == directional_block(slots@),
        ensures
            final(model).wf(),
            final(model).view() == read_directional(old(model).view(), parent.view().children, slots@),
    {
        let ghost cs = parent.view().children;
        let ghost goal = read_directional(model.view(), cs, slots@);
        assert(cs.skip(0) =~= cs);
        let mut i: usize = 0;
        while i < parent.children.len()
            invariant
                model.wf(),
                i <= parent.children@.len(),
                cs == parent.view().children,
                cs.len() == parent.children@.len(),
                read_directional(model.view(), cs.skip(i as int), slots@) == goal,
                block == directional_block(slots@),
            decreases parent.children@.len() - i,
        {
            assert(cs.skip(i as int)[0] == parent.children@[i as int].view());
            assert(cs.skip(i as int).drop_first() =~= cs.skip(i + 1));
            let child = &parent.children[i];
            match find_slot(slots, child.name.as_str()) {
                Some(slot) => model.set(slot, slot_action(child)),
                None => add_kept(model, block, child.render(2)),
            }
            i = i + 1;
        }
        assert(cs.skip(i as int) =~= seq![]);
    }
}

// ---------------------------------------------------------------------------
// Writing a `gestures` node.
// ---------------------------------------------------------------------------

/// A node with only a name.
pub open spec fn leaf(name: Seq<char>) -> NodeV {
    NodeV { name, props: seq![], args: seq![], children: seq![] }
}

/// A node with one argument and no children.
pub open spec fn leaf_arg(name: Seq<char>, a: ArgV) -> NodeV {
    NodeV { name, props: seq![], args: seq![a], children: seq![] }
}

/// A node with only a name and children.
pub open spec fn parent(name: Seq<char>, children: Seq<NodeV>) -> NodeV {
    NodeV { name, props: seq![], args: seq![], children }
}

/// The action node written for a slot value, if it is bound. Raw text is a
/// rendered wrapper node: it is re-parsed and its children land inside the
/// new wrapper (several children are kept together under a placeholder
/// name, and unparseable text becomes a placeholder holding the text, so
/// that `niri validate` refuses the save rather than anything being dropped).
pub open spec fn slot_node_of(v: ActionValueV) -> Option<NodeV> {
    match v {
        ActionValueV::Unbound => None,
        ActionValueV::Node(a) => Some(action_node(a)),
        ActionValueV::Raw(text) => match crate::kdl::parse_document_spec(text) {
            Ok(doc) => if doc.len() == 0 {
                None
            } else if doc.len() > 1 {
                Some(parent("__easysetup_raw__"@, doc))
            } else if doc[0].args.len() > 0 || doc[0].props.len() > 0 {
                Some(NodeV { name: "__easysetup_raw__"@, ..doc[0] })
            } else if doc[0].children.len() == 1 {
                Some(doc[0].children[0])
            } else {
                Some(parent("__easysetup_raw__"@, doc[0].children))
            },
            Err(_) => Some(leaf_arg("__easysetup_broken_raw__"@, ArgV::Str(text))),
        },
    }
}

/// `key { action }` for a bound slot, nothing for an unbound one.
pub open spec fn wrapped(m: ModelV, s: Slot) -> Seq<NodeV> {
    match slot_node_of(slot_value(m, s)) {
        Some(n) => seq![parent(slot_id(s), seq![n])],
        None => seq![],
    }
}

/// The wrappers of `slots`, in order.
pub open spec fn wrapped_all(m: ModelV, slots: Seq<Slot>) -> Seq<NodeV>
    decreases slots.len(),
{
    if slots.len() == 0 {
        seq![]
    } else {
        wrapped_all(m, slots.drop_last()) + wrapped(m, slots.last())
    }
}

/// Some slot of `slots` is bound.
pub open spec fn any_bound(m: ModelV, slots: Seq<Slot>) -> bool {
    exists|i: int| 0 <= i < slots.len() && !(slot_value(m, #[trigger] slots[i]) is Unbound)
}

/// `name { ... }` holding the wrappers of `slots`, only when one of them is bound.
pub open spec fn group_nodes(m: ModelV, name: Seq<char>, slots: Seq<Slot>) -> Seq<NodeV> {
    if any_bound(m, slots) {
        seq![parent(name, wrapped_all(m, slots))]
    } else {
        seq![]
    }
}

/// `name { ... }` holding the wrappers of `slots` and then the nodes kept
/// for that block, only when a slot is bound or something is kept.
pub open spec fn block_nodes(m: ModelV, name: Seq<char>, slots: Seq<Slot>, kept: Seq<Seq<char>>) -> Seq<NodeV> {
    if any_bound(m, slots) || kept.len() > 0 {
        seq![parent(name, wrapped_all(m, slots) + kept_all(kept))]
    } else {
        seq![]
    }
}

pub open spec fn swipe_slots() -> Seq<Slot> {
    seq![Slot::Tap, Slot::TapMore, Slot::SwipeMoreDown, Slot::SwipeMoreUp]
}

pub open spec fn hold_slots() -> Seq<Slot> {
    seq![Slot::HoldLeft, Slot::HoldRight, Slot::HoldUp, Slot::HoldDown]
}

pub open spec fn show_touch_points_nodes(o: Options) -> Seq<NodeV> {
    match o.show_touch_points {
        ShowTouchPoints::Off => seq![],
        ShowTouchPoints::Gestures => seq![leaf_arg("show-touch-points"@, ArgV::Str("gestures"@))],
        ShowTouchPoints::All => seq![leaf_arg("show-touch-points"@, ArgV::Str("all"@))],
    }
}

pub open spec fn debug_log_nodes(o: Options) -> Seq<NodeV> {
    if o.debug_log {
        seq![leaf("debug-log"@)]
    } else {
        seq![]
    }
}

pub open spec fn off_nodes(o: Options) -> Seq<NodeV> {
    if o.off {
        seq![leaf("off"@)]
    } else {
        seq![]
    }
}

/// `fingers N`, with N a bare number (niri reads a `u8`, not a string).
pub open spec fn fingers_nodes(o: Options) -> Seq<NodeV> {
    match o.fingers {
        Some(f) => seq![leaf_arg("fingers"@, ArgV::Word(crate::text::decimal(f as nat)))],
        None => seq![],
    }
}

pub open spec fn horizontal_swipe_nodes(o: Options) -> Seq<NodeV> {
    if o.horizontal_swipe == HorizontalSwipe::ResizeColumn {
        seq![leaf_arg("horizontal-swipe"@, ArgV::Str("resize-column"@))]
    } else {
        seq![]
    }
}

/// The multi-finger block. Always written: it documents the feature even
/// when empty.
pub open spec fn swipe_node(m: ModelV) -> NodeV {
    parent(
        "touchscreen-swipe"@,
        off_nodes(m.options) + fingers_nodes(m.options) + horizontal_swipe_nodes(m.options)
            + wrapped_all(m, swipe_slots()) + block_nodes(m, "hold"@, hold_slots(), m.hold_kept)
            + kept_all(m.swipe_kept),
    )
}

/// The nodes an unmodeled node's text stands for: the text is re-parsed
/// inside a `gestures` block and that block's children are taken.
pub open spec fn kept_nodes(text: Seq<char>) -> Seq<NodeV> {
    match crate::kdl::parse_document_spec("gestures {\n"@ + text + "\n}"@) {
        Ok(doc) => match crate::kdl::first_named(doc, "gestures"@) {
            Some(i) => doc[i].children,
            None => seq![],
        },
        Err(_) => seq![],
    }
}

pub open spec fn kept_all(ps: Seq<Seq<char>>) -> Seq<NodeV>
    decreases ps.len(),
{
    if ps.len() == 0 {
        seq![]
    } else {
        kept_all(ps.drop_last()) + kept_nodes(ps.last())
    }
}

/// The children of the managed `gestures` node, in writing order.
pub open spec fn gestures_children(m: ModelV) -> Seq<NodeV> {
    show_touch_points_nodes(m.options) + debug_log_nodes(m.options) + seq![swipe_node(m)]
        + block_nodes(m, "touchscreen-edge-swipe"@, edge_slots(), m.edge_kept)
        + block_nodes(m, "touchscreen-corner-swipe"@, corner_slots(), m.corner_kept) + kept_all(m.passthrough)
}

/// The managed `gestures` node for a model.
pub open spec fn gestures_node(m: ModelV) -> NodeV {
    parent("gestures"@, gestures_children(m))
}

fn push_node(v: &mut Vec<Node>, n: Node)
    ensures
        crate::kdl::nodes_view(final(v)@) == crate::kdl::nodes_view(old(v)@).push(n.view()),
{
    let ghost old_v = crate::kdl::nodes_view(v@);
    v.push(n);
    assert(crate::kdl::nodes_view(v@) =~= old_v.push(n.view()));
}

fn parent_node(name: &str, kids: Vec<Node>) -> (r: Node)
    ensures
        r.view() == parent(name@, crate::kdl::nodes_view(kids@)),
{
    crate::kdl::node_with_children(Node::new(name), kids)
}

fn leaf_arg_node(name: &str, a: Arg) -> (r: Node)
    ensures
        r.view() == leaf_arg(name@, a.view()),
{
    let mut n = Node::new(name);
    crate::kdl::node_with_arg(&mut n, a);
    assert(seq![].push(a.view()) =~= seq![a.view()]);
    n
}

/// Build the inner action node for writing, if the slot is set.
fn slot_node(value: &ActionValue) -> (r: Option<Node>)
    ensures
        match slot_node_of(value.view()) {
            Some(n) => r is Some && r->0.view() == n,
            None => r is None,
        },
{
    match value {
        ActionValue::Unbound => None,
        ActionValue::Node(n) => Some(n.to_kdl()),
        ActionValue::Raw { kdl } => {
            match crate::kdl::parse_document(kdl.as_str()) {
                Ok(doc) => {
                    let mut doc = doc;
                    if doc.len() == 0 {
                        None
                    } else if doc.len() > 1 {
                        // Several nodes in the stored text: keep them all
                        // under a placeholder that niri validate refuses.
                        Some(parent_node("__easysetup_raw__", doc))
                    } else {
                        let ghost dv = crate::kdl::nodes_view(doc@);
                        let wrapper = doc.remove(0);
                        assert(wrapper.view() == dv[0]);
                        if wrapper.args.len() > 0 || wrapper.props.len() > 0 {
                            // The wrapper carries arguments or properties:
                            // keep them, under a placeholder name.
                            let n = Node {
                                name: owned("__easysetup_raw__"),
                                props: wrapper.props,
                                args: wrapper.args,
                                children: wrapper.children,
                            };
                            assert(n.view().children =~= dv[0].children);
                            Some(n)
                        } else {
                            let mut kids = wrapper.children;
                            assert(crate::kdl::nodes_view(kids@) =~= dv[0].children);
                            if kids.len() == 1 {
                                Some(kids.remove(0))
                            } else {
                                Some(parent_node("__easysetup_raw__", kids))
                            }
                        }
                    }
                },
                Err(_) => Some(leaf_arg_node("__easysetup_broken_raw__", Arg::Str(kdl.clone()))),
            }
        },
    }
}

/// Re-parses an unmodeled node's text and appends the nodes it stands for.
/// The nodes each kept text stands for, in order.
fn push_kept_all(out: &mut Vec<Node>, ps: &Vec<String>)
    ensures
        crate::kdl::nodes_view(final(out)@) == crate::kdl::nodes_view(old(out)@) + kept_all(strings_view(ps@)),
{
    let ghost pv = strings_view(ps@);
    let ghost before = crate::kdl::nodes_view(out@);
    assert(pv.take(0) =~= seq![]);
    assert(before + seq![] =~= before);
    let mut i: usize = 0;
    while i < ps.len()
        invariant
            pv == strings_view(ps@),
            i <= ps@.len(),
            crate::kdl::nodes_view(out@) == before + kept_all(pv.take(i as int)),
        decreases ps@.len() - i,
    {
        let ghost pre = crate::kdl::nodes_view(out@);
        push_kept(out, ps[i].as_str());
        assert(pv.take(i + 1).drop_last() =~= pv.take(i as int));
        assert(pv.take(i + 1).last() == ps@[i as int]@);
        assert(before + kept_all(pv.take(i + 1)) =~= pre + kept_nodes(ps@[i as int]@));
        i = i + 1;
    }
    assert(pv.take(i as int) =~= pv);
}

fn push_kept(out: &mut Vec<Node>, raw: &str)
    ensures
        crate::kdl::nodes_view(final(out)@) == crate::kdl::nodes_view(old(out)@) + kept_nodes(raw@),
{
    let mut text = owned("gestures {\n");
    push_str(&mut text, raw);
    push_str(&mut text, "\n}");
    let ghost start = crate::kdl::nodes_view(out@);
    match crate::kdl::parse_document(text.as_str()) {
        Ok(doc) => {
            match crate::kdl::find_top_level(doc.as_slice(), "gestures") {
                Some(gg) => {
                    let ghost kids = gg.view().children;
                    let mut i: usize = 0;
                    while i < gg.children.len()
                        invariant
                            i <= gg.children@.len(),
                            kids == gg.view().children,
                            kids.len() == gg.children@.len(),
                            crate::kdl::nodes_view(out@) == start + kids.take(i as int),
                        decreases gg.children@.len() - i,
                    {
                        let c = gg.children[i].duplicate();
                        push_node(out, c);
                        assert(kids.take(i + 1) =~= kids.take(i as int).push(kids[i as int]));
                        assert(start + kids.take(i + 1) =~= (start + kids.take(i as int)).push(kids[i as int]));
                        i = i + 1;
                    }
                    assert(kids.take(i as int) =~= kids);
                },
                None => {
                    assert(start + seq![] =~= start);
                },
            }
        },
        Err(_) => {
            assert(start + seq![] =~= start);
        },
    }
}

impl GestureModel {
    /// Appends the wrappers of `slots` (in order) to `out`.
    fn push_wrapped(&self, out: &mut Vec<Node>, slots: &[Slot])
        requires
            self.wf(),
        ensures
            crate::kdl::nodes_view(final(out)@) == crate::kdl::nodes_view(old(out)@) + wrapped_all(self.view(), slots@),
    {
        let ghost start = crate::kdl::nodes_view(out@);
        assert(slots@.take(0) =~= seq![]);
        assert(start + seq![] =~= start);
        let mut i: usize = 0;
        while i < slots.len()
            invariant
                self.wf(),
                i <= slots@.len(),
                crate::kdl::nodes_view(out@) == start + wrapped_all(self.view(), slots@.take(i as int)),
            decreases slots@.len() - i,
        {
            let slot = slots[i];
            assert(slots@.take(i + 1).drop_last() =~= slots@.take(i as int));
            assert(slots@.take(i + 1).last() == slot);
            let ghost before = crate::kdl::nodes_view(out@);
            match slot_node(self.get(slot)) {
                Some(a) => {
                    let mut kids: Vec<Node> = Vec::new();
                    push_node(&mut kids, a);
                    assert(crate::kdl::nodes_view(seq![]).push(a.view()) =~= seq![a.view()]);
                    let w = parent_node(slot.id(), kids);
                    push_node(out, w);
                    assert(before.push(w.view()) =~= before + wrapped(self.view(), slot));
                },
                None => {
                    assert(before + wrapped(self.view(), slot) =~= before);
                },
            }
            assert(start + wrapped_all(self.view(), slots@.take(i + 1)) =~= before + wrapped(self.view(), slot));
            i = i + 1;
        }
        assert(slots@.take(slots@.len() as int) =~= slots@);
    }

    /// Appends `name { ... }` with the wrappers of `slots` when one of them is bound.
    fn push_group(&self, out: &mut Vec<Node>, name: &str, slots: &[Slot], kept: &Vec<String>)
        requires
            self.wf(),
        ensures
            crate::kdl::nodes_view(final(out)@) == crate::kdl::nodes_view(old(out)@)
                + block_nodes(self.view(), name@, slots@, strings_view(kept@)),
    {
        let ghost start = crate::kdl::nodes_view(out@);
        let mut bound = false;
        let mut i: usize = 0;
        while i < slots.len()
            invariant
                self.wf(),
                i <= slots@.len(),
                bound == exists|j: int| 0 <= j < i && !(slot_value(self.view(), #[trigger] slots@[j]) is Unbound),
            decreases slots@.len() - i,
        {
            if !self.get(slots[i]).is_none() {
                bound = true;
            }
            i = i + 1;
        }
        if bound || kept.len() > 0 {
            let mut kids: Vec<Node> = Vec::new();
            self.push_wrapped(&mut kids, slots);
            assert(crate::kdl::nodes_view(kids@) =~= seq![] + wrapped_all(self.view(), slots@));
            push_kept_all(&mut kids, kept);
            let g = parent_node(name, kids);
            push_node(out, g);
            assert(start.push(g.view()) =~= start + seq![g.view()]);
        } else {
            assert(start + seq![] =~= start);
        }
    }

    /// `show-touch-points` and `debug-log`, when set.
    fn head_nodes(&self) -> (kids: Vec<Node>)
        ensures
            crate::kdl::nodes_view(kids@) == show_touch_points_nodes(self.options) + debug_log_nodes(self.options),
    {
        let mut kids: Vec<Node> = Vec::new();
        match self.options.show_touch_points {
            ShowTouchPoints::Off => {},
            ShowTouchPoints::Gestures => {
                push_node(&mut kids, leaf_arg_node("show-touch-points", Arg::Str(owned("gestures"))));
            },
            ShowTouchPoints::All => {
                push_node(&mut kids, leaf_arg_node("show-touch-points", Arg::Str(owned("all"))));
            },
        }
        assert(crate::kdl::nodes_view(kids@) =~= show_touch_points_nodes(self.options));
        if self.options.debug_log {
            push_node(&mut kids, Node::new("debug-log"));
        }
        assert(crate::kdl::nodes_view(kids@) =~= show_touch_points_nodes(self.options) + debug_log_nodes(self.options));
        kids
    }

    /// The multi-finger block.
    fn swipe_block(&self) -> (t: Node)
        requires
            self.wf(),
        ensures
            t.view() == swipe_node(self.view()),
    {
        let ghost m = self.view();
        let mut ts: Vec<Node> = Vec::new();
        if self.options.off {
            push_node(&mut ts, Node::new("off"));
        }
        if let Some(f) = self.options.fingers {
            // u8 in niri's config: must be a bare number, not a string.
            let d = crate::text::decimal_string(f as u64);
            push_node(&mut ts, leaf_arg_node("fingers", Arg::Word(d)));
        }
        if self.options.horizontal_swipe == HorizontalSwipe::ResizeColumn {
            push_node(&mut ts, leaf_arg_node("horizontal-swipe", Arg::Str(owned("resize-column"))));
        }
        assert(crate::kdl::nodes_view(ts@) =~= off_nodes(m.options) + fingers_nodes(m.options) + horizontal_swipe_nodes(m.options));
        let swipe: Vec<Slot> = vec![Slot::Tap, Slot::TapMore, Slot::SwipeMoreDown, Slot::SwipeMoreUp];
        assert(swipe@ == swipe_slots());
        self.push_wrapped(&mut ts, swipe.as_slice());
        let hold: Vec<Slot> = vec![Slot::HoldLeft, Slot::HoldRight, Slot::HoldUp, Slot::HoldDown];
        assert(hold@ == hold_slots());
        self.push_group(&mut ts, "hold", hold.as_slice(), &self.hold_kept);
        push_kept_all(&mut ts, &self.swipe_kept);
        parent_node("touchscreen-swipe", ts)
    }

    /// Appends the nodes the unmodeled texts stand for, in order.

    /// Render the managed `gestures {}` node (without file header comment).
    pub fn to_gestures_node(&self) -> (g: Node)
        requires
            self.wf(),
        ensures
            g.view() == gestures_node(self.view()),
    {
        let ghost m = self.view();
        let mut kids = self.head_nodes();
        let t = self.swipe_block();
        push_node(&mut kids, t);
        // Edge and corner blocks: only when something is bound.
        let edge: Vec<Slot> = vec![Slot::EdgeBottom, Slot::EdgeTop, Slot::EdgeLeft, Slot::EdgeRight];
        assert(edge@ == edge_slots());
        self.push_group(&mut kids, "touchscreen-edge-swipe", edge.as_slice(), &self.edge_kept);
        let corner: Vec<Slot> = vec![
            Slot::CornerTopLeft,
            Slot::CornerTopRight,
            Slot::CornerBottomLeft,
            Slot::CornerBottomRight,
        ];
        assert(corner@ == corner_slots());
        self.push_group(&mut kids, "touchscreen-corner-swipe", corner.as_slice(), &self.corner_kept);
        // Unmodeled nodes, last (merge semantics make order between differing
        // nodes irrelevant). Passthrough strings are rendered node text;
        // re-parse to nest them structurally.
        push_kept_all(&mut kids, &self.passthrough);
        assert(crate::kdl::nodes_view(kids@) =~= gestures_children(m));
        parent_node("gestures", kids)
    }
}

// ---------------------------------------------------------------------------
// The managed file.
// ---------------------------------------------------------------------------

/// The comment at the top of the managed file.
pub open spec fn file_header() -> Seq<char> {
    "// Managed by niri-tablet-easysetup. Edits here are overwritten when\n"@
        + "// you save from the app; keep custom nodes out of it or import them\n"@
        + "// back. niri reloads this file live (no re-login needed).\n"@
}

/// The whole managed file for a model.
pub open spec fn file_text(m: ModelV) -> Seq<char> {
    file_header() + crate::kdl::render(gestures_node(m), 0) + seq!['\n']
}

/// How a parse error reads: `line N: message`.
pub open spec fn parse_error_text(e: crate::kdl::ErrV) -> Seq<char> {
    "line "@ + crate::text::decimal(e.line) + ": "@ + e.msg
}

/// What a gestures file holds: the model of its first top-level `gestures`
/// node, nothing when there is none, or the first problem found.
pub open spec fn parse_file(text: Seq<char>) -> Result<Option<ModelV>, Seq<char>> {
    match crate::kdl::parse_document_spec(text) {
        Err(e) => Err(parse_error_text(e)),
        Ok(doc) => match crate::kdl::first_named(doc, "gestures"@) {
            None => Ok(None),
            Some(i) => match read_gestures(doc[i]) {
                Ok(m) => Ok(Some(m)),
                Err(e) => Err(e),
            },
        },
    }
}

impl GestureModel {
    /// Full managed file text, header comment included.
    pub fn to_file_text(&self) -> (out: String)
        requires
            self.wf(),
        ensures
            out@ == file_text(self.view()),
    {
        let mut out = owned("// Managed by niri-tablet-easysetup. Edits here are overwritten when\n");
        push_str(&mut out, "// you save from the app; keep custom nodes out of it or import them\n");
        push_str(&mut out, "// back. niri reloads this file live (no re-login needed).\n");
        let g = self.to_gestures_node().render(0);
        push_str(&mut out, g.as_str());
        push_char(&mut out, '\n');
        out
    }

    /// Parse a whole gestures file (one top-level `gestures` node expected).
    /// Returns None when the file has no gestures node.
    pub fn parse_file_text(text: &str) -> (r: Result<Option<GestureModel>, String>)
        ensures
            match r {
                Ok(Some(m)) => m.wf() && parse_file(text@) == Ok::<Option<ModelV>, Seq<char>>(Some(m.view())),
                Ok(None) => parse_file(text@) == Ok::<Option<ModelV>, Seq<char>>(None),
                Err(e) => parse_file(text@) == Err::<Option<ModelV>, Seq<char>>(e@),
            },
    {
        let doc = match crate::kdl::parse_document(text) {
            Ok(doc) => doc,
            Err(e) => {
                return Err(e.to_text());
            },
        };
        match crate::kdl::find_top_level(doc.as_slice(), "gestures") {
            None => Ok(None),
            Some(g) => match Self::from_gestures_node(g) {
                Ok(m) => Ok(Some(m)),
                Err(e) => Err(e),
            },
        }
    }
}

/// The gesture scheme niri-tablet ships: first-run setup seeds a new gestures
/// file from it and "reset to defaults" re-imports it. Only the `gestures`
/// node is used; surrounding comments are not.
pub const SHIPPED_DEFAULT: &'static str = "// Touchscreen gestures for niri-tablet. Every slot takes any niri action,
// the same as a keybind.
gestures {
    show-touch-points \"gestures\"
    touchscreen-swipe {
        fingers 3
        horizontal-swipe \"resize-column\"
        tap { maximize-column; }
        tap-more { toggle-overview; }
        swipe-more-down { close-window; }
        swipe-more-up { fullscreen-window; }
    }
    touchscreen-edge-swipe {
        bottom { spawn-sh \"~/.local/bin/niri-osk.sh\"; }
    }
}
";

/// The shipped scheme as a model. The embedded text always holds a valid
/// `gestures` node; were it ever to fail, the empty model is returned.
pub fn shipped_default() -> (m: GestureModel)
    ensures
        m.wf(),
        match parse_file(SHIPPED_DEFAULT@) {
            Ok(Some(v)) => m.view() == v,
            _ => m.view() == default_model(),
        },
{
    match GestureModel::parse_file_text(SHIPPED_DEFAULT) {
        Ok(Some(m)) => m,
        _ => GestureModel::default(),
    }
}

} // verus!
